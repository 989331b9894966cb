use cargo_minimize::text::{contains_char, split_before};

#[test]
fn characters_are_found() {
    assert!(contains_char("1.0.0-alpha", '-'));
    assert!(!contains_char("1.0.0", '-'));
    assert!(!contains_char("", '-'));
}

#[test]
fn text_is_split_at_the_first_character() {
    assert_eq!(split_before("registry+https://a+b", '+'), "registry");
    assert_eq!(split_before("registry", '+'), "registry");
    assert_eq!(split_before("+registry", '+'), "");
    assert_eq!(split_before("\u{fc}ber+x", '+'), "\u{fc}ber");
}
