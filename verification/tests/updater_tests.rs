use vcd30_player::i18n::{AppSettings, I18nManager, LocaleData, LocaleMeta};
use vcd30_player::updater::{
    about_status_text, changelog_text, current_version, is_newer_version, platform_key_for, tab_for_locale, verify_download,
    Changelog, ChangelogTab, DownloadProgress, DownloadState, PlatformAsset, UpdateCheckStatus,
    UpdateManager, VersionInfo,
};

#[test]
fn test_is_newer_version() {
    assert!(is_newer_version("0.3.0", "0.2.0"));
    assert!(is_newer_version("v0.3.0", "0.2.0"));
    assert!(is_newer_version("0.2.1", "0.2.0"));
    assert!(is_newer_version("1.0.0", "0.9.9"));
    assert!(is_newer_version("1.2.3", "1.2.2"));

    assert!(!is_newer_version("0.2.0", "0.2.0"));
    assert!(!is_newer_version("v0.2.0", "0.2.0"));
    assert!(!is_newer_version("0.1.9", "0.2.0"));
    assert!(!is_newer_version("0.2.0", "0.3.0"));
}

#[test]
fn version_fields_are_padded_and_filtered() {
    assert!(!is_newer_version("0.2", "0.2.0"));
    assert!(is_newer_version("0.2.0.1", "0.2"));
    assert!(is_newer_version("1.0.0-rc.2", "1.0.0"));
    assert!(!is_newer_version("vv1.x.0", "1.0.0"));
    assert!(is_newer_version("18446744073709551615", "1"));
    assert!(!is_newer_version("18446744073709551616", "1"));
}

#[test]
fn test_platform_key() {
    assert_eq!(platform_key_for("windows"), "windows-x64");
    assert_eq!(platform_key_for("linux"), "linux-x64");
    assert_eq!(platform_key_for("macos"), "unknown");
}

#[test]
fn changelog_tab_follows_locale() {
    assert_eq!(tab_for_locale(Some("zh-CN")), ChangelogTab::Chinese);
    assert_eq!(tab_for_locale(Some("ZH")), ChangelogTab::Chinese);
    assert_eq!(tab_for_locale(Some("en-US")), ChangelogTab::English);
    assert_eq!(tab_for_locale(None), ChangelogTab::English);
}

fn asset(name: &str, size: u64) -> PlatformAsset {
    PlatformAsset { filename: name.to_string(), url: format!("https://example.invalid/{}", name), sha256: String::new(), size }
}

fn info(version: &str) -> VersionInfo {
    VersionInfo {
        version: version.to_string(),
        tag: format!("v{}", version),
        release_date: None,
        changelog: Changelog::default(),
        platforms: vec![
            ("windows-x64".to_string(), asset("vcd30player-windows-x64.zip", 10)),
            ("other".to_string(), asset("vcd30player-linux-x64.tar.gz", 20)),
        ],
    }
}

#[test]
fn update_flow() {
    let mut m = UpdateManager::new();
    assert!(matches!(m.check_status, UpdateCheckStatus::Idle));
    assert!(m.on_about_opened());
    assert!(matches!(m.check_status, UpdateCheckStatus::Checking));
    assert!(!m.on_about_opened());

    m.poll(Some(Ok(info("0.2.0"))), vec![], None, current_version());
    assert!(matches!(m.check_status, UpdateCheckStatus::UpToDate));

    m.poll(Some(Ok(info("0.4.0"))), vec![], None, current_version());
    assert!(matches!(m.check_status, UpdateCheckStatus::UpdateAvailable(_)));

    // the key is listed
    let a = m.get_current_platform_asset("windows-x64").unwrap();
    assert_eq!(a.size, 10);
    // the key only appears in a file name
    let b = m.get_current_platform_asset("linux-x64").unwrap();
    assert_eq!(b.filename, "vcd30player-linux-x64.tar.gz");
    assert!(m.get_current_platform_asset("unknown").is_none());

    let started = m.start_download("linux-x64").unwrap();
    assert_eq!(started.size, 20);
    assert!(matches!(m.download_state, DownloadState::Downloading { downloaded: 0, total: 20 }));

    m.poll(
        None,
        vec![
            DownloadProgress::Progress { downloaded: 5, total: 20 },
            DownloadProgress::Done { temp_file: "/tmp/pkg".to_string(), sha256: "ab".to_string() },
        ],
        None,
        current_version(),
    );
    assert!(matches!(&m.download_state, DownloadState::Downloaded { temp_file, .. } if temp_file == "/tmp/pkg"));
    assert_eq!(m.apply_update().as_deref(), Some("/tmp/pkg"));
    assert!(matches!(m.download_state, DownloadState::Installing));
    m.poll(None, vec![], Some(Err("boom".to_string())), current_version());
    assert!(matches!(&m.download_state, DownloadState::InstallFailed(e) if e == "boom"));

    m.cancel_download();
    assert!(matches!(m.download_state, DownloadState::NotStarted));
    assert!(m.apply_update().is_none());

    assert!(m.start_download("unknown").is_none());
    assert!(matches!(&m.download_state, DownloadState::Failed(e) if e == "未找到适用于当前平台 (unknown) 的更新包"));

    m.poll(Some(Err("offline".to_string())), vec![DownloadProgress::Cancelled], None, current_version());
    assert!(matches!(&m.check_status, UpdateCheckStatus::CheckFailed(e) if e == "offline"));
    assert!(matches!(m.download_state, DownloadState::NotStarted));
}

#[test]
fn download_hash_is_checked() {
    let abc = "ba7816bf8f01cfea414140de5dae2223b00361a396177a9cb410ff61f20015ad";
    assert_eq!(verify_download(b"abc", abc), Ok(abc.to_string()));
    assert_eq!(verify_download(b"abc", &abc.to_uppercase()), Ok(abc.to_string()));
    assert_eq!(
        verify_download(b"abd", abc),
        Err(format!(
            "SHA-256 完整性校验失败！期望值: {}, 实际值: {}",
            abc, "a52d159f262b2c6ddb724a61840befc36eb30c88877a4030b65cbe86298449c9"
        ))
    );
}

#[test]
fn changelog_text_falls_back_per_language() {
    let both = Changelog { zh: Some("修复".to_string()), en: Some("Fixes".to_string()) };
    assert_eq!(changelog_text(&both, ChangelogTab::Chinese), "修复");
    assert_eq!(changelog_text(&both, ChangelogTab::English), "Fixes");
    let none = Changelog { zh: None, en: None };
    assert_eq!(changelog_text(&none, ChangelogTab::Chinese), "暂无中文更新日志。");
    assert_eq!(changelog_text(&none, ChangelogTab::English), "No English changelog available.");
}

fn about_manager() -> I18nManager {
    let en = LocaleData {
        meta: LocaleMeta { locale: "en-US".to_string(), name: "English".to_string(), author: String::new() },
        entries: vec![
            ("about.status_label".to_string(), "Update status".to_string()),
            ("about.latest".to_string(), "Up to date".to_string()),
            ("about.new_version".to_string(), "New version v{0} available".to_string()),
            ("about.update_failed".to_string(), "Check failed: {0}".to_string()),
        ],
    };
    I18nManager::new(vec![en], AppSettings { language: "en-US".to_string() })
}

#[test]
fn about_status_lines() {
    let m = about_manager();
    assert_eq!(about_status_text(&m, &UpdateCheckStatus::Idle), "Update status");
    assert_eq!(about_status_text(&m, &UpdateCheckStatus::UpToDate), "Up to date");
    // a key with no text anywhere is shown as the key itself
    assert_eq!(about_status_text(&m, &UpdateCheckStatus::Checking), "about.checking");
    assert_eq!(
        about_status_text(&m, &UpdateCheckStatus::CheckFailed("timeout".to_string())),
        "Check failed: timeout"
    );
    let info = VersionInfo {
        version: "0.4.0".to_string(),
        tag: "v0.4.0".to_string(),
        release_date: None,
        changelog: Changelog { zh: None, en: None },
        platforms: Vec::new(),
    };
    assert_eq!(
        about_status_text(&m, &UpdateCheckStatus::UpdateAvailable(info)),
        "New version v0.4.0 available"
    );
}
