use architectury_cli::naming::parse_asset_name;

fn parsed(name: &str) -> (String, String) {
    let key = parse_asset_name(name);
    (key.template, key.version)
}

fn pair(template: &str, version: &str) -> (String, String) {
    (template.to_string(), version.to_string())
}

#[test]
fn plain_template_name() {
    assert_eq!(parsed("1.20-forge.zip"), pair("forge", "1.20"));
}

#[test]
fn template_name_with_dash() {
    assert_eq!(parsed("1.19-forge-quilt.zip"), pair("forge-quilt", "1.19"));
}

#[test]
fn template_name_ending_in_mixin() {
    assert_eq!(
        parsed("1.18-forge-fabric-mixin.zip"),
        pair("forge-fabric-mixin", "1.18")
    );
}

#[test]
fn architectury_stem_is_default_template() {
    assert_eq!(parsed("1.16-architectury.zip"), pair("forge-fabric", "1.16"));
}

#[test]
fn architectury_mixin_stem_is_mixin_variant() {
    assert_eq!(
        parsed("1.16-architectury-mixin.zip"),
        pair("forge-fabric-mixin", "1.16")
    );
}

#[test]
fn bare_mixin_stem_is_mixin_variant() {
    assert_eq!(parsed("1.15-mixin.zip"), pair("forge-fabric-mixin", "1.15"));
}

#[test]
fn name_without_dash_is_default_template() {
    // Without a dash the stem starts behind the first character, so it is
    // "ixin" here and the name falls to the default template.
    assert_eq!(parsed("mixin.zip"), pair("forge-fabric", ""));
    assert_eq!(parsed("forge.zip"), pair("forge-fabric", ""));
    assert_eq!(parsed("1.14.zip"), pair("forge-fabric", ""));
}

#[test]
fn name_without_dash_and_stem_mixin() {
    assert_eq!(parsed("xmixin.zip"), pair("forge-fabric-mixin", ""));
}

#[test]
fn leading_dash_counts_as_no_dash() {
    assert_eq!(parsed("-forge.zip"), pair("forge-fabric", ""));
    assert_eq!(parsed("-mixin.zip"), pair("forge-fabric-mixin", ""));
    assert_eq!(parsed("-architectury.zip"), pair("forge-fabric", ""));
}

#[test]
fn only_first_dash_splits() {
    assert_eq!(
        parsed("1.20-forge-fabric-like.zip"),
        pair("forge-fabric-like", "1.20")
    );
    assert_eq!(parsed("a-b-c-d.tar"), pair("b-c-d", "a"));
}

#[test]
fn architectury_prefix_needs_version_segment() {
    assert_eq!(
        parsed("1.17-architectury-forge.zip"),
        pair("forge-fabric", "1.17")
    );
    assert_eq!(
        parsed("1.17-architecturymixin.zip"),
        pair("forge-fabric-mixin", "1.17")
    );
    assert_eq!(
        parsed("1.17-my-architectury.zip"),
        pair("my-architectury", "1.17")
    );
}

#[test]
fn mixin_ending_alone_keeps_stem() {
    assert_eq!(parsed("1.19-quilt-mixin.zip"), pair("quilt-mixin", "1.19"));
}

#[test]
fn extension_is_four_characters_whatever_they_are() {
    assert_eq!(parsed("1.20-forge.jar"), pair("forge", "1.20"));
    assert_eq!(parsed("1.20-forgeABCD"), pair("forge", "1.20"));
    assert_eq!(parsed("1.20-forge.tar.gz"), pair("forge.ta", "1.20"));
}

#[test]
fn short_names_have_empty_stem() {
    assert_eq!(parsed(""), pair("forge-fabric", ""));
    assert_eq!(parsed("a"), pair("forge-fabric", ""));
    assert_eq!(parsed(".zip"), pair("forge-fabric", ""));
    assert_eq!(parsed("a.zip"), pair("forge-fabric", ""));
    assert_eq!(parsed("-"), pair("forge-fabric", ""));
    assert_eq!(parsed("1.20-"), pair("", "1.20"));
    assert_eq!(parsed("1.20-.zip"), pair("", "1.20"));
    assert_eq!(parsed("1.20-zip"), pair("", "1.20"));
    assert_eq!(parsed("1.20-a.zip"), pair("a", "1.20"));
}

#[test]
fn characters_are_counted_not_bytes() {
    assert_eq!(parsed("1.20-f\u{f4}rge.zip"), pair("f\u{f4}rge", "1.20"));
    assert_eq!(parsed("\u{e9}t\u{e9}-forge.zip"), pair("forge", "\u{e9}t\u{e9}"));
    assert_eq!(parsed("1.20-forge.\u{e9}\u{e9}\u{e9}"), pair("forge", "1.20"));
    assert_eq!(parsed("\u{1f600}-mixin.zip"), pair("forge-fabric-mixin", "\u{1f600}"));
}
