use architectury_cli::error::{CatalogError, CommandError};
use architectury_cli::web::{build_releases, latest_release, AssetData, Release, ReleaseData};

fn asset(id: u32, name: &str) -> AssetData {
    AssetData {
        url: format!("https://example.test/assets/{}", id),
        id,
        name: name.to_string(),
    }
}

fn listing(names: &[&str]) -> ReleaseData {
    let mut assets = Vec::new();
    let mut id = 1;
    for name in names {
        assets.push(asset(id, name));
        id += 1;
    }
    ReleaseData { assets }
}

fn sample() -> Release {
    Release::new(listing(&[
        "1.20-forge.zip",
        "1.19-forge-quilt.zip",
        "1.18-forge-fabric-mixin.zip",
        "1.16-architectury.zip",
        "1.16-architectury-mixin.zip",
        "1.15-mixin.zip",
        "1.19-forge.zip",
    ]))
    .unwrap()
}

fn sorted(mut names: Vec<String>) -> Vec<String> {
    names.sort();
    names
}

fn strings(names: &[&str]) -> Vec<String> {
    names.iter().map(|s| s.to_string()).collect()
}

#[test]
fn empty_release_is_refused() {
    let built = Release::new(ReleaseData { assets: Vec::new() });
    assert_eq!(built.err(), Some(CatalogError::EmptyRelease));
}

#[test]
fn one_asset_is_enough() {
    let release = Release::new(listing(&["1.20-forge.zip"])).unwrap();
    assert_eq!(release.get_templates(), strings(&["forge"]));
    assert_eq!(release.get_template_versions("forge"), Ok(strings(&["1.20"])));
}

#[test]
fn supported_version_is_reported() {
    let release = sample();
    assert_eq!(release.is_supported_version("forge", "1.20"), Ok(true));
    assert_eq!(release.is_supported_version("forge", "1.19"), Ok(true));
}

#[test]
fn missing_version_is_not_an_error() {
    let release = sample();
    assert_eq!(release.is_supported_version("forge", "9.9"), Ok(false));
    assert_eq!(release.is_supported_version("forge", ""), Ok(false));
    assert_eq!(release.is_supported_version("forge-quilt", "1.20"), Ok(false));
}

#[test]
fn support_of_unknown_template_fails() {
    let release = sample();
    assert_eq!(
        release.is_supported_version("nope", "1.20"),
        Err(CatalogError::UnknownTemplate)
    );
    assert_eq!(
        release.is_supported_version("", "1.20"),
        Err(CatalogError::UnknownTemplate)
    );
    assert_eq!(
        release.is_supported_version("architectury", "1.16"),
        Err(CatalogError::UnknownTemplate)
    );
}

#[test]
fn asset_is_resolved() {
    let release = sample();
    let found = release.get_asset("forge-quilt", "1.19").unwrap();
    assert_eq!(found.name, "1.19-forge-quilt.zip");
    assert_eq!(found.id, 2);
    assert_eq!(found.url, "https://example.test/assets/2");
}

#[test]
fn asset_of_missing_version_fails() {
    let release = sample();
    assert_eq!(
        release.get_asset("forge-quilt", "1.0").err(),
        Some(CatalogError::UnsupportedVersion)
    );
}

#[test]
fn asset_of_unknown_template_fails() {
    let release = sample();
    assert_eq!(
        release.get_asset("nope", "1.19").err(),
        Some(CatalogError::UnknownTemplate)
    );
}

#[test]
fn catalog_answers_after_failed_queries() {
    let release = sample();
    assert!(release.get_asset("nope", "1.19").is_err());
    assert!(release.get_asset("forge", "0.0").is_err());
    assert!(release.get_template_versions("nope").is_err());
    assert_eq!(release.get_asset("forge", "1.20").unwrap().id, 1);
    assert_eq!(release.is_supported_version("forge", "1.20"), Ok(true));
}

#[test]
fn templates_are_listed_once_each() {
    let release = sample();
    assert_eq!(
        sorted(release.get_templates()),
        strings(&["forge", "forge-fabric", "forge-fabric-mixin", "forge-quilt"])
    );
}

#[test]
fn versions_of_a_template_are_listed_once_each() {
    let release = sample();
    assert_eq!(
        release.get_template_versions("forge").map(sorted),
        Ok(strings(&["1.19", "1.20"]))
    );
    assert_eq!(
        release.get_template_versions("forge-fabric-mixin").map(sorted),
        Ok(strings(&["1.15", "1.16", "1.18"]))
    );
    assert_eq!(
        release.get_template_versions("forge-fabric").map(sorted),
        Ok(strings(&["1.16"]))
    );
}

#[test]
fn versions_of_unknown_template_fail() {
    let release = sample();
    assert_eq!(
        release.get_template_versions("nope"),
        Err(CatalogError::UnknownTemplate)
    );
}

#[test]
fn naming_eras_share_one_template() {
    let release = sample();
    assert_eq!(
        release.get_asset("forge-fabric-mixin", "1.18").unwrap().name,
        "1.18-forge-fabric-mixin.zip"
    );
    assert_eq!(
        release.get_asset("forge-fabric-mixin", "1.16").unwrap().name,
        "1.16-architectury-mixin.zip"
    );
    assert_eq!(
        release.get_asset("forge-fabric-mixin", "1.15").unwrap().name,
        "1.15-mixin.zip"
    );
    assert_eq!(
        release.get_asset("forge-fabric", "1.16").unwrap().name,
        "1.16-architectury.zip"
    );
}

#[test]
fn every_asset_is_found_at_its_own_slot() {
    let names = [
        "1.20-forge.zip",
        "1.19-forge-quilt.zip",
        "1.18-forge-fabric-mixin.zip",
        "1.16-architectury.zip",
        "1.16-architectury-mixin.zip",
        "1.15-mixin.zip",
        "1.19-forge.zip",
    ];
    let slots = [
        ("forge", "1.20"),
        ("forge-quilt", "1.19"),
        ("forge-fabric-mixin", "1.18"),
        ("forge-fabric", "1.16"),
        ("forge-fabric-mixin", "1.16"),
        ("forge-fabric-mixin", "1.15"),
        ("forge", "1.19"),
    ];
    let release = Release::new(listing(&names)).unwrap();
    let mut found = 0;
    for template in release.get_templates() {
        for version in release.get_template_versions(&template).unwrap() {
            let held = release.get_asset(&template, &version).unwrap();
            let at = (held.id - 1) as usize;
            assert_eq!(held.name, names[at]);
            assert_eq!((template.as_str(), version.as_str()), slots[at]);
            found += 1;
        }
    }
    assert_eq!(found, names.len());
}

#[test]
fn later_asset_takes_the_slot() {
    let release = Release::new(listing(&[
        "1.16-architectury.zip",
        "1.20-forge.zip",
        "1.16-forge-fabric.zip",
    ]))
    .unwrap();
    let held = release.get_asset("forge-fabric", "1.16").unwrap();
    assert_eq!(held.id, 3);
    assert_eq!(held.name, "1.16-forge-fabric.zip");
    assert_eq!(
        release.get_template_versions("forge-fabric"),
        Ok(strings(&["1.16"]))
    );
    assert_eq!(
        sorted(release.get_templates()),
        strings(&["forge", "forge-fabric"])
    );
}

#[test]
fn templates_do_not_depend_on_listing_order() {
    let forward = Release::new(listing(&[
        "1.20-forge.zip",
        "1.19-forge-quilt.zip",
        "1.16-architectury.zip",
        "1.15-mixin.zip",
    ]))
    .unwrap();
    let backward = Release::new(listing(&[
        "1.15-mixin.zip",
        "1.16-architectury.zip",
        "1.19-forge-quilt.zip",
        "1.20-forge.zip",
    ]))
    .unwrap();
    assert_eq!(
        sorted(forward.get_templates()),
        sorted(backward.get_templates())
    );
    for template in forward.get_templates() {
        assert_eq!(
            forward.get_template_versions(&template).map(sorted),
            backward.get_template_versions(&template).map(sorted)
        );
        for version in forward.get_template_versions(&template).unwrap() {
            assert_eq!(
                forward.get_asset(&template, &version).unwrap().name,
                backward.get_asset(&template, &version).unwrap().name
            );
        }
    }
}

#[test]
fn names_without_version_share_the_empty_version() {
    let release = Release::new(listing(&["mixin.zip", "forge.zip"])).unwrap();
    assert_eq!(release.get_templates(), strings(&["forge-fabric"]));
    assert_eq!(
        release.get_template_versions("forge-fabric"),
        Ok(strings(&[""]))
    );
    assert_eq!(release.get_asset("forge-fabric", "").unwrap().name, "forge.zip");
}

#[test]
fn asset_clone_keeps_every_field() {
    let first = asset(7, "1.20-forge.zip");
    let copy = first.clone();
    assert_eq!(copy.url, first.url);
    assert_eq!(copy.id, 7);
    assert_eq!(copy.name, "1.20-forge.zip");
}

#[test]
fn release_clone_answers_alike() {
    let release = sample();
    let copy = release.clone();
    assert_eq!(
        sorted(copy.get_templates()),
        sorted(release.get_templates())
    );
    for template in release.get_templates() {
        for version in release.get_template_versions(&template).unwrap() {
            let held = release.get_asset(&template, &version).unwrap();
            let other = copy.get_asset(&template, &version).unwrap();
            assert_eq!(other.id, held.id);
            assert_eq!(other.name, held.name);
            assert_eq!(other.url, held.url);
        }
    }
}

#[test]
fn no_releases_is_an_error() {
    assert_eq!(
        build_releases(Vec::new()).err(),
        Some(CommandError::NoReleases)
    );
    assert_eq!(
        latest_release(&Vec::new()).err(),
        Some(CommandError::NoReleases)
    );
}

#[test]
fn release_without_assets_fails_the_listing() {
    let built = build_releases(vec![
        listing(&["1.20-forge.zip"]),
        ReleaseData { assets: Vec::new() },
    ]);
    assert_eq!(
        built.err(),
        Some(CommandError::Catalog(CatalogError::EmptyRelease))
    );
}

#[test]
fn releases_are_built_in_order() {
    let releases = build_releases(vec![
        listing(&["1.20-forge.zip"]),
        listing(&["1.19-forge-quilt.zip", "1.19-forge.zip"]),
    ])
    .unwrap();
    assert_eq!(releases.len(), 2);
    assert_eq!(releases[0].get_templates(), strings(&["forge"]));
    assert_eq!(
        sorted(releases[1].get_templates()),
        strings(&["forge", "forge-quilt"])
    );
    let latest = latest_release(&releases).unwrap();
    assert_eq!(latest.get_templates(), strings(&["forge"]));
    assert_eq!(latest.is_supported_version("forge", "1.20"), Ok(true));
    assert_eq!(latest.is_supported_version("forge", "1.19"), Ok(false));
}
