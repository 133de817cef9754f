use dsh_desktop::app_update::{
    expected_size, installer_for, installing_status, is_newer, parse_version, pick_asset,
    release_status, AppUpdateState, AppUpdateStatus, GhAsset, GhRelease,
};

fn asset(name: &str) -> GhAsset {
    GhAsset {
        name: name.into(),
        browser_download_url: format!("https://example.test/{name}"),
        size: 10,
    }
}

fn release(tag: &str, names: &[&str]) -> GhRelease {
    GhRelease {
        tag_name: tag.into(),
        html_url: "https://example.test/release".into(),
        assets: names.iter().map(|n| asset(n)).collect(),
    }
}

#[test]
fn version_compare_treats_v_prefix() {
    assert_eq!(parse_version("v1.4.0"), Some((1, 4, 0)));
    assert!(is_newer("1.4.1", "1.4.0"));
    assert!(is_newer("v1.5.0", "1.4.9"));
    assert!(!is_newer("1.4.0", "1.4.0"));
    assert!(!is_newer("1.3.9", "1.4.0"));
}

#[test]
fn windows_prefers_nsis_setup_exe() {
    let assets = [
        asset("DSH-Desktop_1.4.1_x64_en-US.msi"),
        asset("DSH-Desktop_1.4.1_x64-setup.exe"),
        asset("DSH-Desktop_1.4.1_x64-setup.exe.blockmap"),
    ];
    assert_eq!(
        pick_asset(&assets, "windows", "x86_64").map(|item| item.name.as_str()),
        Some("DSH-Desktop_1.4.1_x64-setup.exe")
    );
}

#[test]
fn macos_skips_wrong_arch() {
    let assets = [
        asset("DSH-Desktop_1.4.1_aarch64.dmg"),
        asset("DSH-Desktop_1.4.1_x64.dmg"),
    ];
    assert_eq!(
        pick_asset(&assets, "macos", "aarch64").map(|item| item.name.as_str()),
        Some("DSH-Desktop_1.4.1_aarch64.dmg")
    );
}

#[test]
fn linux_picks_deb() {
    let assets = [asset("dsh-desktop_1.4.1_amd64.deb"), asset("notes.json")];
    assert_eq!(
        pick_asset(&assets, "linux", "x86_64").map(|item| item.name.as_str()),
        Some("dsh-desktop_1.4.1_amd64.deb")
    );
}

#[test]
fn version_parts_and_tails() {
    assert_eq!(parse_version("1.4"), Some((1, 4, 0)));
    assert_eq!(parse_version("  V2.0.1  "), Some((2, 0, 1)));
    assert_eq!(parse_version("0.1.0-rc.7"), Some((0, 1, 0)));
    assert_eq!(parse_version("1.2.3.4"), Some((1, 2, 3)));
    assert_eq!(parse_version("1.x.0"), None);
    assert_eq!(parse_version("1"), None);
    assert_eq!(parse_version(""), None);
    assert_eq!(parse_version("Vv1.2.3"), None);
    assert_eq!(parse_version("18446744073709551615.0.0"), Some((u64::MAX, 0, 0)));
    assert_eq!(parse_version("18446744073709551616.0.0"), None);
    assert!(!is_newer("garbage", "1.0.0"));
    assert!(!is_newer("1.0.0", "garbage"));
}

#[test]
fn pick_asset_ties_keep_the_first_and_nothing_without_score() {
    let assets = [asset("a-x64.deb"), asset("b-x64.deb")];
    assert_eq!(
        pick_asset(&assets, "linux", "x86_64").map(|item| item.name.as_str()),
        Some("a-x64.deb")
    );
    assert!(pick_asset(&assets, "freebsd", "x86_64").is_none());
    let debug = [asset("DSH-debug-setup.exe"), asset("app.zip")];
    assert!(pick_asset(&debug, "windows", "x86_64").is_none());
    let arm_only = [asset("DSH_arm64-setup.exe")];
    assert!(pick_asset(&arm_only, "windows", "x86_64").is_none());
    let macs = [asset("DSH_universal.dmg"), asset("DSH_aarch64.dmg")];
    assert_eq!(
        pick_asset(&macs, "macos", "x86_64").map(|item| item.name.as_str()),
        Some("DSH_universal.dmg")
    );
    assert!(pick_asset(&macs[1..], "macos", "x86_64").is_none());
}

#[test]
fn release_status_reports_available_installer() {
    let rel = release(" v1.5.0 ", &["DSH_1.5.0_amd64.deb", "DSH_1.5.0.json"]);
    let status = release_status("1.4.0", &rel, "linux", "x86_64");
    assert_eq!(status.state, AppUpdateState::Available);
    assert_eq!(status.current, "1.4.0");
    assert_eq!(status.latest.as_deref(), Some("1.5.0"));
    assert_eq!(status.notes_url.as_deref(), Some("https://example.test/release"));
    assert_eq!(status.asset_name.as_deref(), Some("DSH_1.5.0_amd64.deb"));
    assert_eq!(status.bytes_total, Some(10));
    assert_eq!(status.bytes_downloaded, 0);
    assert_eq!(status.message.as_deref(), Some("A newer desktop build is available."));
    assert!(status.available);
}

#[test]
fn release_status_up_to_date_and_missing_installer() {
    let rel = release("v1.4.0", &["DSH_1.4.0_amd64.deb"]);
    let status = release_status("1.4.0", &rel, "linux", "x86_64");
    assert_eq!(status.state, AppUpdateState::Idle);
    assert_eq!(status.asset_name, None);
    assert_eq!(status.bytes_total, None);
    assert_eq!(status.message.as_deref(), Some("This app is up to date."));
    assert!(!status.available);

    let rel = release("v2.0.0", &["DSH_2.0.0.dmg"]);
    let status = release_status("1.4.0", &rel, "linux", "x86_64");
    assert_eq!(status.state, AppUpdateState::Error);
    assert_eq!(status.latest.as_deref(), Some("2.0.0"));
    assert_eq!(
        status.message.as_deref(),
        Some("No installer for linux/x86_64 in the latest release")
    );
    assert!(!status.available);
}

#[test]
fn installer_choice_and_final_status() {
    let rel = release("v2.0.0", &["DSH_2.0.0.dmg"]);
    assert_eq!(
        installer_for(&rel, "windows", "x86_64").unwrap_err(),
        "no installer for windows/x86_64 in v2.0.0"
    );
    let chosen = installer_for(&rel, "macos", "aarch64").unwrap();
    assert_eq!(chosen.name, "DSH_2.0.0.dmg");
    assert_eq!(expected_size(Some(99), chosen), Some(99));
    assert_eq!(expected_size(None, chosen), Some(10));
    let status = installing_status("1.0.0", &rel, chosen, 10, Some(10));
    assert_eq!(status.state, AppUpdateState::Installing);
    assert_eq!(status.latest.as_deref(), Some("2.0.0"));
    assert_eq!(status.asset_name.as_deref(), Some("DSH_2.0.0.dmg"));
    assert_eq!(status.bytes_downloaded, 10);
    assert_eq!(status.message.as_deref(), Some("Installer downloaded; launching."));
    assert!(status.available);
}

#[test]
fn current_only_is_idle() {
    let status = AppUpdateStatus::current_only("1.0.0");
    assert_eq!(status.state, AppUpdateState::Idle);
    assert_eq!(status.current, "1.0.0");
    assert!(status.latest.is_none() && status.message.is_none() && !status.available);
}

#[test]
fn release_is_newer_than_its_own_prerelease() {
    assert!(is_newer("1.4.0", "1.4.0-rc.1"));
    assert!(is_newer("v1.4.0", "1.4.0-beta"));
    assert!(!is_newer("1.4.0-rc.1", "1.4.0"));
    assert!(is_newer("1.4.0-rc.2", "1.4.0-rc.1"));
    assert!(!is_newer("1.4.0-rc.1", "1.4.0-rc.2"));
    assert!(!is_newer("1.4.0-rc.1", "1.4.0-rc.1"));
    assert!(!is_newer("1.4.0+build.7", "1.4.0"));
    assert!(is_newer("1.4.1-rc.1", "1.4.0"));
}

#[test]
fn prereleases_follow_semver_precedence() {
    // 1.0.0-alpha < 1.0.0-alpha.1 < 1.0.0-alpha.beta < 1.0.0-beta < 1.0.0-beta.2
    // < 1.0.0-beta.11 < 1.0.0-rc.1 < 1.0.0
    let chain = [
        "1.0.0-alpha",
        "1.0.0-alpha.1",
        "1.0.0-alpha.beta",
        "1.0.0-beta",
        "1.0.0-beta.2",
        "1.0.0-beta.11",
        "1.0.0-rc.1",
        "1.0.0",
    ];
    for (i, a) in chain.iter().enumerate() {
        for (j, b) in chain.iter().enumerate() {
            assert_eq!(is_newer(a, b), i > j, "{a} vs {b}");
        }
    }
    assert!(!is_newer("1.0.0-rc.1+build.5", "1.0.0-rc.1"));
    assert!(is_newer("1.0.0-rc.10", "1.0.0-rc.9"));
    assert!(is_newer("1.0.0-rc.a", "1.0.0-rc.99"));
}
