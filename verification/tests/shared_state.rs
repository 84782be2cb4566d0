use dark_inject::shared_state::{flag_value, flag_word};

#[test]
fn flag_roundtrips_through_shared_word() {
    assert!(flag_value(flag_word(true)));
    assert!(!flag_value(flag_word(false)));
    assert_eq!(flag_word(true), 1);
    assert_eq!(flag_word(false), 0);
}

#[test]
fn fresh_or_foreign_words() {
    assert!(!flag_value(0));
    assert!(flag_value(7));
}
