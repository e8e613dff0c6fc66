use trimtr::output::{repeat_kind, trimmed_sequence, RepeatKind};

#[test]
fn trimming_cuts_the_trailing_copy() {
    assert_eq!(trimmed_sequence(b"ACGTACGT", true, false, 4, false), b"ACGT".to_vec());
    assert_eq!(trimmed_sequence(b"ACGTTTTTACGT", false, true, 4, false), b"ACGTTTTT".to_vec());
}

#[test]
fn trimming_disabled_or_no_repeat_keeps_sequence() {
    assert_eq!(trimmed_sequence(b"ACGTACGT", true, false, 4, true), b"ACGTACGT".to_vec());
    assert_eq!(trimmed_sequence(b"ACGTACGT", false, false, 4, false), b"ACGTACGT".to_vec());
}

#[test]
fn repeat_labels() {
    assert_eq!(repeat_kind(true, false), RepeatKind::Direct);
    assert_eq!(repeat_kind(false, true), RepeatKind::Inverted);
    assert_eq!(repeat_kind(false, false), RepeatKind::Absent);
    assert_eq!(repeat_kind(true, false).label(), "dtr");
    assert_eq!(repeat_kind(false, true).label(), "itr");
    assert_eq!(repeat_kind(false, false).label(), "none");
}
