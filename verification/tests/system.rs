use net_sentinel::system::{
    current_system_proxy, enable_system_proxy, is_our_proxy, recover_stale_takeover,
    restore_system_proxy, set_startup, startup_enabled, ProxyBackup, ProxySettings, StartupChange,
    SystemError, Takeover,
};

const OURS: &str = "127.0.0.1:8877";

fn settings(enabled: Option<u32>, server: Option<&str>) -> ProxySettings {
    ProxySettings {
        enabled,
        server: server.map(str::to_string),
        auto_config_url: Some("http://pac.test/".into()),
        proxy_override: None,
        auto_detect: Some(1),
    }
}

#[test]
fn takeover_is_undone_by_restoring() {
    let before = settings(Some(1), Some("127.0.0.1:7890"));
    let Ok(Takeover::Write { backup, settings: taken }) =
        enable_system_proxy(Some(&before), OURS, false)
    else {
        panic!("expected a takeover");
    };
    assert_eq!(taken.enabled, Some(1));
    assert_eq!(taken.server.as_deref(), Some(OURS));
    assert_eq!(taken.auto_config_url.as_deref(), Some("http://pac.test/"));
    assert!(is_our_proxy(Some(&taken), OURS));
    let after = restore_system_proxy(Some(backup)).unwrap();
    assert_eq!(after.enabled, Some(1));
    assert_eq!(after.server.as_deref(), Some("127.0.0.1:7890"));
    assert_eq!(after.auto_config_url.as_deref(), Some("http://pac.test/"));
    assert_eq!(after.proxy_override, None);
    assert_eq!(after.auto_detect, Some(1));
}

#[test]
fn restoring_without_a_backup_changes_nothing() {
    assert!(restore_system_proxy(None).is_none());
    let empty = ProxyBackup::default();
    let after = restore_system_proxy(Some(empty)).unwrap();
    assert_eq!((after.enabled, after.server), (Some(0), None));
}

#[test]
fn takeover_in_force_is_left_alone() {
    let ours = settings(Some(1), Some(OURS));
    assert!(matches!(enable_system_proxy(Some(&ours), OURS, true), Ok(Takeover::InForce)));
    let refused = enable_system_proxy(Some(&ours), OURS, false).unwrap_err();
    assert_eq!(
        refused.message(),
        "系统代理已经指向 127.0.0.1:8877，但没有可验证的 Clash 恢复快照"
    );
    assert!(matches!(refused, SystemError::NoSnapshot { .. }));
    let off = settings(Some(0), Some(OURS));
    assert!(matches!(enable_system_proxy(Some(&off), OURS, false), Ok(Takeover::Write { .. })));
}

#[test]
fn systems_without_such_settings() {
    let refused = enable_system_proxy(None, OURS, false).unwrap_err();
    assert_eq!(refused.message(), "系统代理自动配置目前仅支持 Windows");
    assert!(!is_our_proxy(None, OURS));
    assert!(current_system_proxy(None).is_none());
    assert!(!recover_stale_takeover(None, OURS, true));
    let refused = set_startup(None, true, true).unwrap_err();
    assert_eq!(refused.message(), "开机启动配置目前仅支持 Windows");
    assert_eq!(
        SystemError::WriteFailed { detail: "d".into() }.message(),
        "系统代理写入失败，已尝试恢复 Clash 设置: d"
    );
}

#[test]
fn proxy_in_use() {
    assert!(!is_our_proxy(Some(&settings(None, Some(OURS))), OURS));
    assert!(!is_our_proxy(Some(&settings(Some(0), Some(OURS))), OURS));
    assert!(!is_our_proxy(Some(&settings(Some(1), None)), OURS));
    assert!(!is_our_proxy(Some(&settings(Some(1), Some("other"))), OURS));
    assert_eq!(current_system_proxy(Some(&settings(Some(1), Some("other")))).as_deref(), Some("other"));
    assert_eq!(current_system_proxy(Some(&settings(Some(0), Some("other")))), None);
    assert_eq!(current_system_proxy(Some(&settings(None, Some("other")))), None);
}

#[test]
fn stale_takeover_is_recovered() {
    let ours = settings(Some(1), Some(OURS));
    assert!(recover_stale_takeover(Some(&ours), OURS, true));
    assert!(!recover_stale_takeover(Some(&ours), OURS, false));
    let other = settings(Some(1), Some("other"));
    assert!(!recover_stale_takeover(Some(&other), OURS, true));
}

#[test]
fn start_with_the_system() {
    assert!(matches!(
        set_startup(Some("C:\\n s.exe"), true, true),
        Ok(StartupChange::Command(command)) if command == "\"C:\\n s.exe\" --minimized"
    ));
    assert!(matches!(
        set_startup(Some("n.exe"), true, false),
        Ok(StartupChange::Command(command)) if command == "\"n.exe\""
    ));
    assert!(matches!(set_startup(Some("n.exe"), false, true), Ok(StartupChange::Remove)));
    assert!(startup_enabled(Some("anything")));
    assert!(!startup_enabled(None));
}
