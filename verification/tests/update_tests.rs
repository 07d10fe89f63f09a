use llmchat::update::{
    asset_name, compare_versions, current_version, install_script, parse_version, ps_escape,
    release_response, select_release, update_file_name, ReleaseAsset, ReleaseInfo,
    ReleaseResponse, UpdateStatus,
};

#[test]
fn compares_versions() {
    assert_eq!(compare_versions("v0.1.0", "v0.1.0"), 0);
    assert_eq!(compare_versions("0.1.0", "v0.1.1"), -1);
    assert_eq!(compare_versions("v0.2.0", "v0.1.9"), 1);
    assert_eq!(compare_versions("v0.1.10", "v0.1.9"), 1);
    assert_eq!(compare_versions("v1.0.0", "v0.9.9"), 1);
    assert_eq!(compare_versions("continuous", "v0.1.0"), -1);
    assert_eq!(compare_versions("v0.2.0-beta", "v0.2.0"), 0);
    assert_eq!(compare_versions("v0.2.1", "v0.2.0-beta"), 1);
}

#[test]
fn parses_current_version() {
    // The built version always has the form X.Y.Z.
    let v = parse_version(current_version());
    assert!(v[0] > 0 || v[1] > 0 || v[2] > 0);
}

#[test]
fn knows_platform_asset() {
    let name = asset_name("linux", "x86_64");
    assert!(name.starts_with("llmchat-"));
    assert!(!name.contains("unsupported"));
}

#[test]
fn names_the_asset_of_each_platform() {
    assert_eq!(asset_name("windows", "x86_64"), "llmchat-windows-x86_64.exe");
    assert_eq!(asset_name("linux", "x86_64"), "llmchat-linux-x86_64-musl");
    assert_eq!(asset_name("macos", "aarch64"), "llmchat-macos-aarch64");
    assert_eq!(asset_name("macos", "x86_64"), "llmchat-macos-x86_64");
    assert_eq!(asset_name("linux", "riscv64"), "llmchat-unsupported-platform");
}

#[test]
fn parses_version_tags() {
    assert_eq!(parse_version("  V1.22.3-rc1 "), [1, 22, 3]);
    assert_eq!(parse_version("v2"), [2, 0, 0]);
    assert_eq!(parse_version("x.5"), [0, 5, 0]);
    assert_eq!(parse_version("1.2.3.4"), [1, 2, 3]);
}

#[test]
fn version_comparison_laws_hold_on_examples() {
    let tags = ["v0.1.0", "0.1", "v0.2.0-beta", "continuous", "v1.0.0", "V0.10.1"];
    for a in tags {
        assert_eq!(compare_versions(a, a), 0);
        for b in tags {
            assert_eq!(compare_versions(a, b), -compare_versions(b, a));
            for c in tags {
                if compare_versions(a, b) <= 0 && compare_versions(b, c) <= 0 {
                    assert!(compare_versions(a, c) <= 0);
                }
            }
        }
    }
}

fn asset(name: &str) -> ReleaseAsset {
    ReleaseAsset { name: name.to_string(), browser_download_url: format!("https://x/{name}") }
}

#[test]
fn selects_only_newer_releases_with_a_binary() {
    let assets = vec![asset("llmchat-macos-aarch64"), asset("llmchat-linux-x86_64-musl")];
    let info = select_release("v0.2.0".to_string(), assets.clone(), "llmchat-linux-x86_64-musl", "0.1.0")
        .unwrap();
    assert_eq!(info.version, "v0.2.0");
    assert_eq!(info.asset_name, "llmchat-linux-x86_64-musl");
    assert_eq!(info.download_url, "https://x/llmchat-linux-x86_64-musl");
    assert!(select_release("v0.1.0".to_string(), assets.clone(), "llmchat-linux-x86_64-musl", "0.1.0").is_none());
    assert!(select_release("v0.3.0".to_string(), assets, "llmchat-windows-x86_64.exe", "0.1.0").is_none());
}

#[test]
fn classifies_release_statuses() {
    assert_eq!(release_response(404), ReleaseResponse::NoRelease);
    assert_eq!(release_response(200), ReleaseResponse::Release);
    assert_eq!(release_response(500), ReleaseResponse::Failed);
    assert_eq!(release_response(301), ReleaseResponse::Failed);
}

#[test]
fn escapes_powershell_strings() {
    assert_eq!(ps_escape(r"C:\Users\O'Brien\app.exe"), r"C:\Users\O''Brien\app.exe");
    let script = install_script(r"C:\a'b.exe", r"C:\tmp\new.exe", 42);
    assert!(script.starts_with("$ErrorActionPreference = \"Stop\"\n$target = 'C:\\a''b.exe'\n"));
    assert!(script.contains("$oldPid = 42\n"));
    assert!(script.ends_with("Start-Process -FilePath $target\n"));
    assert_eq!(update_file_name("llmchat-macos-aarch64"), "llmchat-update-llmchat-macos-aarch64");
}

fn info() -> ReleaseInfo {
    ReleaseInfo {
        version: "v9.0.0".to_string(),
        asset_name: "a".to_string(),
        download_url: "u".to_string(),
    }
}

#[test]
fn runs_the_update_state_machine() {
    let mut st = UpdateStatus::Idle;
    assert!(st.begin_check());
    assert!(matches!(st, UpdateStatus::Checking));
    assert!(!st.begin_check());
    st.check_finished(Ok(Some(info())));
    assert!(matches!(st, UpdateStatus::Available(_)));
    let release = st.begin_install().unwrap();
    assert_eq!(release.version, "v9.0.0");
    assert!(matches!(st, UpdateStatus::Downloading));
    assert!(st.is_busy());
    assert!(st.begin_install().is_none());
    assert!(!st.install_finished(Err("sin red".to_string())));
    assert!(matches!(&st, UpdateStatus::Error(e) if e == "sin red"));
    assert!(st.begin_check());
    st.check_finished(Ok(None));
    assert!(matches!(st, UpdateStatus::UpToDate));
    assert!(st.install_finished(Ok(())));
}
