//! The byte form in which the summary leaves the tracker: the SCALE encoding
//! of a list of `(prefix, read count, write count)` lines.

use parity_scale_codec::Encode;
use vstd::prelude::*;

verus! {

/// The SCALE encoding of a list of summary lines, as `parity_scale_codec`
/// computes it. The format is the codec's own; the library only relies on
/// the bytes being determined by the lines.
pub uninterp spec fn scale_encoding(lines: Seq<(Seq<u8>, u32, u32)>) -> Seq<u8>;

/// Calls `parity_scale_codec::Encode::encode` on the list of lines.
///
/// The codec writes the length of the list and the length of each prefix as
/// a compact 32-bit number and stops the program on a longer one, so both
/// have to fit in 32 bits. The bytes that come back are the encoding of the
/// lines that went in.
#[verifier::external_body]
pub(crate) fn encode_lines(lines: &Vec<(Vec<u8>, u32, u32)>) -> (bytes: Vec<u8>)
    requires
        lines.len() <= u32::MAX,
        forall|i: int| 0 <= i < lines.len() ==> (#[trigger] lines[i]).0.len() <= u32::MAX,
    ensures
        bytes@ == scale_encoding(lines.deep_view()),
{
    lines.encode()
}

} // verus!
