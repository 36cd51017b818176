use architectury_cli::order::{comes_before, sorted};
use architectury_cli::text::contains;

fn strings(names: &[&str]) -> Vec<String> {
    names.iter().map(|s| s.to_string()).collect()
}

#[test]
fn order_is_that_of_a_dictionary() {
    assert!(comes_before("1.19", "1.20"));
    assert!(!comes_before("1.20", "1.19"));
    assert!(comes_before("1.2", "1.20"));
    assert!(!comes_before("1.20", "1.2"));
    assert!(comes_before("", "a"));
    assert!(!comes_before("a", ""));
    assert!(comes_before("1.20", "1.9"));
    assert!(comes_before("Z", "a"));
}

#[test]
fn no_text_comes_before_itself() {
    assert!(!comes_before("", ""));
    assert!(!comes_before("1.20", "1.20"));
}

#[test]
fn order_follows_the_bytes() {
    assert!(comes_before("z", "\u{e9}"));
    assert!(comes_before("\u{e9}", "\u{4e2d}"));
    assert!(comes_before("\u{ffff}", "\u{10000}"));
    assert!(!comes_before("\u{10000}", "\u{ffff}"));
}

#[test]
fn order_agrees_with_the_standard_one() {
    let samples = ["", "1.2", "1.20", "1.9", "forge", "forge-", "f\u{f4}rge", "Z", "\u{1f600}"];
    for a in samples {
        for b in samples {
            assert_eq!(comes_before(a, b), a < b);
        }
    }
}

#[test]
fn sorted_puts_texts_in_order() {
    assert_eq!(
        sorted(&strings(&["1.20", "1.9", "1.19", "", "1.20.1"])),
        strings(&["", "1.19", "1.20", "1.20.1", "1.9"])
    );
    assert_eq!(sorted(&strings(&[])), strings(&[]));
    assert_eq!(sorted(&strings(&["b"])), strings(&["b"]));
    assert_eq!(sorted(&strings(&["a", "b", "c"])), strings(&["a", "b", "c"]));
    assert_eq!(sorted(&strings(&["c", "b", "a"])), strings(&["a", "b", "c"]));
}

#[test]
fn sorted_names_each_text_once() {
    assert_eq!(
        sorted(&strings(&["b", "a", "b", "a", "a"])),
        strings(&["a", "b"])
    );
}

#[test]
fn contains_finds_a_text_anywhere() {
    assert!(contains("forge-fabric-mixin", "fabric"));
    assert!(contains("forge-fabric-mixin", "forge"));
    assert!(contains("forge-fabric-mixin", "mixin"));
    assert!(contains("forge-fabric-mixin", "forge-fabric-mixin"));
    assert!(contains("forge-fabric-mixin", ""));
    assert!(contains("", ""));
    assert!(!contains("forge-fabric-mixin", "quilt"));
    assert!(!contains("forge", "forge-"));
    assert!(!contains("", "a"));
    assert!(!contains("forge", "Forge"));
    assert!(contains("f\u{f4}rge", "\u{f4}r"));
}
