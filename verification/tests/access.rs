use bencher::{AccessInfo, AccessType};

#[test]
fn default_state_is_unset() {
    assert_eq!(AccessType::default(), AccessType::Unset);
    let info = AccessInfo::default();
    assert_eq!(info.read, AccessType::Unset);
    assert_eq!(info.written, AccessType::Unset);
}

#[test]
fn only_important_is_important() {
    assert!(AccessType::Important.is_important());
    assert!(!AccessType::Redundant.is_important());
    assert!(!AccessType::Unset.is_important());
}

#[test]
fn mark_important_raises_every_state() {
    for start in [AccessType::Unset, AccessType::Redundant, AccessType::Important] {
        let mut state = start;
        state.mark_important();
        assert_eq!(state, AccessType::Important);
    }
}

#[test]
fn first_read_by_the_meaningful_execution() {
    let info = AccessInfo::read(false);
    assert_eq!(info.read, AccessType::Important);
    assert_eq!(info.written, AccessType::Unset);
}

#[test]
fn first_read_by_a_repeat() {
    let info = AccessInfo::read(true);
    assert_eq!(info.read, AccessType::Redundant);
    assert_eq!(info.written, AccessType::Unset);
}

#[test]
fn first_write_by_the_meaningful_execution() {
    let info = AccessInfo::written(false);
    assert_eq!(info.read, AccessType::Redundant);
    assert_eq!(info.written, AccessType::Important);
}

#[test]
fn first_write_by_a_repeat() {
    let info = AccessInfo::written(true);
    assert_eq!(info.read, AccessType::Redundant);
    assert_eq!(info.written, AccessType::Redundant);
}

#[test]
fn note_read_upgrades_unless_repeat_or_written() {
    let mut info = AccessInfo::read(true);
    info.note_read(true);
    assert_eq!(info.read, AccessType::Redundant);
    info.note_read(false);
    assert_eq!(info.read, AccessType::Important);
    assert_eq!(info.written, AccessType::Unset);

    let mut written = AccessInfo::written(false);
    written.note_read(false);
    assert_eq!(written.read, AccessType::Redundant);
    assert_eq!(written.written, AccessType::Important);

    let mut repeat_written = AccessInfo::written(true);
    repeat_written.note_read(false);
    assert_eq!(repeat_written.read, AccessType::Important);
    assert_eq!(repeat_written.written, AccessType::Redundant);
}

#[test]
fn note_write_upgrades_unless_repeat() {
    let mut info = AccessInfo::read(false);
    info.note_write(true);
    assert_eq!(info.written, AccessType::Unset);
    info.note_write(false);
    assert_eq!(info.written, AccessType::Important);
    assert_eq!(info.read, AccessType::Important);
    info.note_write(true);
    assert_eq!(info.written, AccessType::Important);
}

#[test]
fn important_never_goes_back() {
    let mut info = AccessInfo { read: AccessType::Important, written: AccessType::Important };
    for redundant in [true, false] {
        info.note_read(redundant);
        info.note_write(redundant);
        assert_eq!(info.read, AccessType::Important);
        assert_eq!(info.written, AccessType::Important);
    }
}
