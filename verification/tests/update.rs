use sonda::cli::{Action, Cli, Command};
use sonda::update::{
    is_newer, map_replace_error, missing_asset_message, plan_update, select_asset, strip_v,
    target_triple, Release, ReleaseAsset, UpdatePlan,
};

#[test]
fn is_newer_equal() {
    assert!(!is_newer("0.1.1", "0.1.1"));
}

#[test]
fn is_newer_patch_bump() {
    assert!(is_newer("0.1.2", "0.1.1"));
    assert!(!is_newer("0.1.1", "0.1.2"));
}

#[test]
fn is_newer_minor_bump() {
    assert!(is_newer("0.2.0", "0.1.5"));
    assert!(!is_newer("0.1.5", "0.2.0"));
}

#[test]
fn is_newer_major_bump() {
    assert!(is_newer("1.0.0", "0.9.9"));
    assert!(!is_newer("0.9.9", "1.0.0"));
}

#[test]
fn is_newer_non_numeric_segment() {
    assert!(is_newer("0.1.1-beta", "0.1.1-alpha"));
    assert!(!is_newer("0.1.1-alpha", "0.1.1-beta"));
}

#[test]
fn is_newer_unequal_lengths() {
    assert!(is_newer("0.1.1.1", "0.1.1"));
    assert!(!is_newer("0.1.1", "0.1.1.1"));
    assert!(is_newer("0.1", "0.0.9"));
}

#[test]
fn is_newer_numbers_beat_text_order() {
    assert!(is_newer("0.10.0", "0.9.0"));
    assert!(!is_newer("0.1.0", "0.1"));
    assert!(!is_newer("0.01", "0.1"));
}

const KNOWN_TARGETS: &[&str] = &[
    "x86_64-unknown-linux-gnu",
    "aarch64-unknown-linux-gnu",
    "x86_64-apple-darwin",
    "aarch64-apple-darwin",
];

#[test]
fn target_triple_is_known() {
    for (os, arch) in [
        ("linux", "x86_64"),
        ("linux", "aarch64"),
        ("macos", "x86_64"),
        ("macos", "aarch64"),
    ] {
        let triple = target_triple(os, arch).unwrap();
        assert!(
            KNOWN_TARGETS.contains(&triple),
            "unknown target triple: {triple}"
        );
    }
    assert_eq!(target_triple("linux", "x86_64"), Some("x86_64-unknown-linux-gnu"));
    assert_eq!(target_triple("windows", "x86_64"), None);
}

fn release(tag: &str, assets: &[(&str, &str)]) -> Release {
    Release {
        tag_name: Some(tag.to_string()),
        assets: Some(
            assets
                .iter()
                .map(|(name, url)| ReleaseAsset {
                    name: Some(name.to_string()),
                    browser_download_url: Some(url.to_string()),
                })
                .collect(),
        ),
    }
}

#[test]
fn select_asset_finds_match() {
    let json = release(
        "v0.2.0",
        &[(
            "sonda-0.2.0-x86_64-unknown-linux-gnu.tar.gz",
            "https://example.com/sonda-0.2.0-linux-x86_64.tar.gz",
        )],
    );
    let (version, url) = select_asset(&json, "x86_64-unknown-linux-gnu").unwrap();
    assert_eq!(version, "0.2.0");
    assert_eq!(url, "https://example.com/sonda-0.2.0-linux-x86_64.tar.gz");
}

#[test]
fn select_asset_missing_asset() {
    let json = release(
        "v0.2.0",
        &[("sonda-0.2.0-x86_64-apple-darwin.tar.gz", "https://example.com/darwin.tar.gz")],
    );
    assert!(select_asset(&json, "x86_64-unknown-linux-gnu").is_none());
}

#[test]
fn select_asset_strips_leading_v_from_tag() {
    let json = release(
        "0.3.0",
        &[(
            "sonda-0.3.0-aarch64-apple-darwin.tar.gz",
            "https://example.com/sonda-0.3.0-darwin-arm64.tar.gz",
        )],
    );
    let (version, url) = select_asset(&json, "aarch64-apple-darwin").unwrap();
    assert_eq!(version, "0.3.0");
    assert_eq!(url, "https://example.com/sonda-0.3.0-darwin-arm64.tar.gz");
}

#[test]
fn select_asset_stops_at_a_nameless_asset() {
    let mut json = release("v1.0.0", &[("sonda-1.0.0-t.tar.gz", "u")]);
    json.assets.as_mut().unwrap().insert(0, ReleaseAsset { name: None, browser_download_url: None });
    assert!(select_asset(&json, "t").is_none());
    let no_tag = Release { tag_name: None, assets: Some(Vec::new()) };
    assert!(select_asset(&no_tag, "t").is_none());
}

#[test]
fn strip_v_only_strips_one_leading_v() {
    assert_eq!(strip_v("v1.2"), "1.2");
    assert_eq!(strip_v("vv1"), "v1");
    assert_eq!(strip_v("1.2v"), "1.2v");
}

#[test]
fn update_plans() {
    let json = release("v0.3.0", &[("sonda-0.3.0-t.tar.gz", "https://u")]);
    assert_eq!(
        plan_update("0.2.0", "t", &json),
        UpdatePlan::Download { version: "0.3.0".into(), url: "https://u".into() }
    );
    assert_eq!(
        plan_update("0.3.0", "t", &json),
        UpdatePlan::UpToDate { latest_version: "0.3.0".into() }
    );
    assert_eq!(
        plan_update("0.2.0", "other", &json),
        UpdatePlan::MissingAsset { latest_version: "0.3.0".into() }
    );
    let no_tag = Release { tag_name: None, assets: None };
    assert_eq!(
        plan_update("0.2.0", "t", &no_tag),
        UpdatePlan::MissingAsset { latest_version: "unknown".into() }
    );
    assert_eq!(missing_asset_message("t"), "no release asset found for target t");
}

#[test]
fn replace_errors_name_the_path() {
    assert_eq!(
        map_replace_error("/usr/bin/sonda", true, "ignored"),
        "cannot replace /usr/bin/sonda: permission denied (try sudo or install to a writable location)"
    );
    assert_eq!(map_replace_error("/x", false, "disk full"), "cannot replace /x: disk full");
}

#[test]
fn cli_actions() {
    let scan = Cli { compact: false, summary: false, command: None };
    assert_eq!(scan.action(), Action::Scan { compact: false });
    let summary = Cli { compact: false, summary: true, command: None };
    assert_eq!(summary.action(), Action::Summary);
    let update = Cli { compact: false, summary: false, command: Some(Command::Update { check: true, compact: true }) };
    assert!(update.wants_compact());
    assert_eq!(update.action(), Action::Update { check: true, compact: true });
    let bad = Cli { summary: true, ..update };
    assert_eq!(bad.action(), Action::RejectSummaryWithUpdate);
}
