use architectury_cli::text::{ends_with, same_text, starts_with};

#[test]
fn same_text_compares_characters() {
    assert!(same_text("", ""));
    assert!(same_text("mixin", "mixin"));
    assert!(!same_text("mixin", "mixim"));
    assert!(!same_text("mixin", "mixi"));
    assert!(!same_text("", "a"));
    assert!(same_text("f\u{f4}rge", "f\u{f4}rge"));
    assert!(!same_text("f\u{f4}rge", "forge"));
}

#[test]
fn starts_with_checks_prefix() {
    assert!(starts_with("architectury-mixin", "architectury"));
    assert!(starts_with("architectury", "architectury"));
    assert!(starts_with("anything", ""));
    assert!(starts_with("", ""));
    assert!(!starts_with("architectur", "architectury"));
    assert!(!starts_with("my-architectury", "architectury"));
    assert!(!starts_with("", "a"));
}

#[test]
fn ends_with_checks_suffix() {
    assert!(ends_with("architectury-mixin", "mixin"));
    assert!(ends_with("mixin", "mixin"));
    assert!(ends_with("anything", ""));
    assert!(!ends_with("ixin", "mixin"));
    assert!(!ends_with("mixin-forge", "mixin"));
    assert!(ends_with("\u{e9}mixin", "mixin"));
}
