use hardwave::installer::{installer_suffix, pick_asset_url, target_asset_filter, version_from_tag, ReleaseAsset};

#[test]
fn a_release_tag_loses_its_leading_v() {
    assert_eq!(version_from_tag("v0.158.4"), "0.158.4");
    assert_eq!(version_from_tag("0.158.4"), "0.158.4");
    assert_eq!(version_from_tag("vv1"), "1");
    assert_eq!(version_from_tag(""), "");
}

#[test]
fn each_system_looks_for_its_own_asset() {
    assert_eq!(target_asset_filter("windows"), "_x64-setup.exe");
    assert_eq!(target_asset_filter("macos"), ".dmg");
    assert_eq!(target_asset_filter("linux"), ".AppImage");
    assert_eq!(installer_suffix("windows"), ".exe");
    assert_eq!(installer_suffix("macos"), ".dmg");
    assert_eq!(installer_suffix("freebsd"), ".AppImage");
}

#[test]
fn the_first_named_asset_with_a_url_is_picked() {
    let assets = vec![
        ReleaseAsset { name: Some("Hardwave.dmg".into()), url: None },
        ReleaseAsset { name: None, url: Some("https://x/none".into()) },
        ReleaseAsset { name: Some("Hardwave_0.1_x64-setup.exe".into()), url: Some("https://x/win".into()) },
        ReleaseAsset { name: Some("Other.dmg".into()), url: Some("https://x/mac".into()) },
    ];
    assert_eq!(pick_asset_url(&assets, ".dmg"), Ok("https://x/mac".to_string()));
    assert_eq!(pick_asset_url(&assets, "_x64-setup.exe"), Ok("https://x/win".to_string()));
}

#[test]
fn a_release_without_the_asset_explains_what_to_do() {
    let err = pick_asset_url(&[], ".AppImage").unwrap_err();
    assert!(err.starts_with("Could not find an asset ending in .AppImage"));
    assert!(err.ends_with("https://github.com/Dishairano/hardwave-daw/releases/latest"));
}
