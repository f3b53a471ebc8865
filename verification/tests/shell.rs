use net_sentinel::config::{AppConfig, NetworkMode};
use net_sentinel::events::{InterceptionProtocol, UiEvent};
use net_sentinel::shell::{
    capture_upstream, listener_report, takeover_held, Command, Notice, Page, RestoreReason, Shell,
};

fn status(running: bool, detail: &str) -> UiEvent {
    UiEvent::ProxyStatus { running, detail: detail.into() }
}

fn checked(result: Result<&str, &str>) -> UiEvent {
    UiEvent::ProtectionUpstreamChecked {
        result: result.map(str::to_string).map_err(str::to_string),
    }
}

fn locally_checked(result: Result<&str, &str>) -> UiEvent {
    UiEvent::ProtectionLocalChecked {
        upstream_detail: "up".into(),
        result: result.map(str::to_string).map_err(str::to_string),
    }
}

/// A shell that waits for the check of the upstream.
fn pending() -> Shell {
    let mut shell = Shell::new(false, false);
    let mut proxy = AppConfig::default().proxy;
    shell.begin_protection(&mut proxy, None).unwrap();
    shell
}

#[test]
fn first_state() {
    let shell = Shell::new(true, true);
    assert!(!shell.proxy_running && !shell.protection_pending && !shell.preserve_stop_detail);
    assert!(shell.system_proxy_active && shell.window_hidden);
    assert_eq!(shell.proxy_detail, "就绪");
    assert_eq!(shell.page, Page::Overview);
    assert!(shell.recent.is_empty());
}

#[test]
fn seven_messages_are_kept() {
    let mut shell = Shell::new(false, false);
    for number in 0..9 {
        shell.push_recent(format!("m{number}"));
    }
    assert_eq!(shell.recent, vec!["m8", "m7", "m6", "m5", "m4", "m3", "m2"]);
}

#[test]
fn protection_starts_after_both_checks() {
    let mut shell = Shell::new(false, false);
    assert!(matches!(shell.toggle_protection(), Command::BeginProtection));
    let mut proxy = AppConfig::default().proxy;
    let check = shell.begin_protection(&mut proxy, Some("127.0.0.1:7890".into())).unwrap();
    assert_eq!(check.mode, NetworkMode::Auto);
    assert_eq!(check.upstream.as_deref(), Some("127.0.0.1:7890"));
    assert_eq!(check.listen, "127.0.0.1:8877");
    assert!(check.save);
    assert_eq!(proxy.upstream_proxy.as_deref(), Some("127.0.0.1:7890"));
    assert!(shell.protection_pending);
    assert_eq!(shell.proxy_detail, "正在验证 Clash 出站…");
    assert!(shell.begin_protection(&mut proxy, None).is_none());

    let Command::StartListener { upstream_detail } = shell.handle_event(checked(Ok("up"))) else {
        panic!("expected the listener");
    };
    assert_eq!(upstream_detail, "up");
    assert!(matches!(
        shell.listener_started(upstream_detail, Ok(())),
        Command::ProbeLocal { upstream_detail } if upstream_detail == "up"
    ));
    assert_eq!(shell.proxy_detail, "正在验证本机转发…");
    assert!(matches!(shell.handle_event(status(true, "正在监听")), Command::Idle));
    assert_eq!(shell.proxy_detail, "正在验证本机转发…");
    assert!(shell.proxy_running);
    assert!(matches!(
        shell.handle_event(locally_checked(Ok("local"))),
        Command::TakeOver { upstream_detail, local_detail }
            if upstream_detail == "up" && local_detail == "local"
    ));
    shell.taken_over("up", "local", Ok(()));
    assert!(shell.system_proxy_active && !shell.protection_pending);
    assert_eq!(shell.proxy_detail, "保护已启动 · up；local");
    assert_eq!(shell.recent[0], "保护已启动 · up；local");
}

#[test]
fn failed_upstream_check_ends_the_start() {
    let mut shell = pending();
    assert!(matches!(shell.handle_event(checked(Err("e"))), Command::Idle));
    assert!(!shell.protection_pending && !shell.system_proxy_active);
    assert_eq!(shell.proxy_detail, "Clash 出站检查失败：e");
    assert_eq!(shell.recent[0], "启动保护已取消，Clash 与系统代理保持原状：e");
}

#[test]
fn failed_listener_ends_the_start() {
    let mut shell = pending();
    shell.handle_event(checked(Ok("up")));
    assert!(matches!(shell.listener_started("up".into(), Err("e".into())), Command::Idle));
    assert!(!shell.protection_pending);
    assert_eq!(shell.proxy_detail, "启动本机监听失败：e");
    assert_eq!(shell.recent[0], "启动保护已取消，Clash 与系统代理保持原状：e");
}

#[test]
fn failed_local_check_stops_the_listener() {
    let mut shell = pending();
    shell.handle_event(checked(Ok("up")));
    assert!(matches!(shell.handle_event(locally_checked(Err("e"))), Command::StopListener));
    assert!(!shell.protection_pending && shell.preserve_stop_detail);
    assert_eq!(shell.proxy_detail, "本机转发验证失败：e");
    assert_eq!(
        shell.recent[0],
        "启动保护已取消，本机监听已停止，Clash 与系统代理保持原状：e"
    );
    shell.handle_event(status(false, "代理已停止"));
    assert_eq!(shell.proxy_detail, "本机转发验证失败：e");
    assert!(!shell.preserve_stop_detail);
    shell.handle_event(status(false, "代理已停止"));
    assert_eq!(shell.proxy_detail, "代理已停止");
}

#[test]
fn failed_takeover_stops_the_listener() {
    let mut shell = pending();
    let command = shell.taken_over("up", "local", Err("e".into()));
    assert!(matches!(command, Command::StopListener));
    assert!(!shell.system_proxy_active && !shell.protection_pending && shell.preserve_stop_detail);
    assert_eq!(shell.proxy_detail, "系统代理接管失败：e");
    assert_eq!(shell.recent[0], "启动保护已取消，本机监听已停止，Clash 保持原状：e");
    assert_eq!(takeover_held("l", true), Ok(()));
    assert_eq!(takeover_held("l", false), Err("Windows 系统代理写入后未保持为 l".into()));
}

#[test]
fn stopped_listener_gives_the_proxy_back() {
    let mut shell = Shell::new(true, false);
    let Command::Restore(reason) = shell.handle_event(status(false, "gone")) else {
        panic!("expected a restore");
    };
    shell.restored(reason, Ok(()));
    assert!(!shell.system_proxy_active);
    assert_eq!(shell.recent[0], "本机监听意外停止，已立即恢复 Clash 系统代理");

    let mut shell = Shell::new(true, false);
    shell.restored(RestoreReason::ListenerStopped, Err("e".into()));
    assert!(shell.system_proxy_active);
    assert_eq!(shell.recent[0], "严重：监听停止后恢复 Clash 系统代理失败：e");
}

#[test]
fn protection_is_switched_off() {
    let mut shell = Shell::new(true, false);
    let Command::StopAndRestore(reason) = shell.handle_event(UiEvent::TrayToggleProxy) else {
        panic!("expected a stop");
    };
    assert_eq!(reason, RestoreReason::ProtectionOff);
    shell.restored(reason, Ok(()));
    assert!(!shell.system_proxy_active);
    assert_eq!(shell.proxy_detail, "保护已停止，已恢复原系统代理");
    let mut shell = Shell::new(true, false);
    shell.restored(RestoreReason::ProtectionOff, Err("e".into()));
    assert!(shell.system_proxy_active);
    assert_eq!(shell.recent[0], "恢复系统代理失败：e");
}

#[test]
fn pending_start_is_not_disturbed() {
    let mut shell = pending();
    assert!(matches!(shell.toggle_protection(), Command::Idle));
    assert!(matches!(shell.handle_event(UiEvent::TrayToggleProxy), Command::Idle));
    assert!(shell.protection_pending);
}

#[test]
fn takeover_alone_is_switched_off() {
    let mut shell = Shell::new(true, false);
    assert!(matches!(
        shell.toggle_system_proxy(),
        Command::Restore(RestoreReason::TakeoverOff)
    ));
    shell.restored(RestoreReason::TakeoverOff, Ok(()));
    assert_eq!(shell.recent[0], "已恢复接管前的 Windows 系统代理");
    assert!(matches!(shell.toggle_system_proxy(), Command::BeginProtection));
}

#[test]
fn listener_alone_is_switched() {
    let mut shell = Shell::new(false, false);
    assert!(matches!(shell.toggle_proxy(false), Command::CheckListener));
    assert!(matches!(shell.toggle_proxy(true), Command::StopListener));
    shell.system_proxy_active = true;
    assert!(matches!(
        shell.toggle_proxy(true),
        Command::StopAndRestore(RestoreReason::ListenerOff)
    ));
    shell.restored(RestoreReason::ListenerOff, Ok(()));
    assert!(!shell.system_proxy_active && shell.recent.is_empty());
    assert_eq!(listener_report("up", Ok("local".into())), Ok("up；local".into()));
    assert_eq!(
        listener_report("up", Err("e".into())),
        Err("本机代理转发验证失败，监听已停止: e".into())
    );
}

#[test]
fn lost_takeover_is_noticed() {
    let mut shell = Shell::new(true, false);
    assert!(matches!(
        shell.handle_event(UiEvent::VerifySystemProxy("l".into())),
        Command::Verify { expected } if expected == "l"
    ));
    assert!(matches!(shell.verified(true), Command::Idle));
    assert!(shell.system_proxy_active);
    assert!(matches!(shell.verified(false), Command::RestoreQuietly));
    assert!(!shell.system_proxy_active);
    assert_eq!(shell.recent[0], "Windows 系统代理被其他程序改回；已停止接管并恢复原设置");
    assert!(matches!(shell.verified(false), Command::Idle));
}

#[test]
fn other_events() {
    let mut shell = Shell::new(false, true);
    assert!(matches!(
        shell.handle_event(UiEvent::ImportedAudio("a".into())),
        Command::UseResource { action_id, path } if action_id == "blocked-sound" && path == "a"
    ));
    assert!(matches!(
        shell.handle_event(UiEvent::ImportedImage("a".into())),
        Command::UseResource { action_id, .. } if action_id == "blocked-picture"
    ));
    assert!(matches!(
        shell.handle_event(UiEvent::ImportedHtml("a".into())),
        Command::UseResource { action_id, .. } if action_id == "blocked-game"
    ));
    assert!(matches!(
        shell.handle_event(UiEvent::ExportStats("p".into())),
        Command::Export { path } if path == "p"
    ));
    assert!(matches!(
        shell.handle_event(UiEvent::TrayShow),
        Command::ShowWindow { clear_unread: false }
    ));
    assert!(!shell.window_hidden);
    shell.show_page(Page::Actions);
    shell.hide_to_tray();
    assert!(shell.window_hidden);
    assert!(matches!(
        shell.handle_event(UiEvent::TrayShow),
        Command::ShowWindow { clear_unread: true }
    ));
    assert!(matches!(shell.handle_event(UiEvent::TrayQuit), Command::Quit));
    shell.handle_event(UiEvent::NetworkProbe("n".into()));
    shell.handle_event(UiEvent::Error("e".into()));
    assert_eq!(shell.recent, vec!["错误 · e", "n"]);
    let blocked = UiEvent::Blocked {
        rule_id: "r".into(),
        request: "http://a.test/".into(),
        protocol: InterceptionProtocol::Http,
        action_results: vec![],
        image: None,
    };
    assert!(matches!(shell.handle_event(blocked), Command::ShowBlock));
    shell.note_block("r", 3, "http://a.test/");
    assert_eq!(shell.recent[0], "拦截 · r · 3 个结果 · http://a.test/");
}

#[test]
fn leaving_gives_the_proxy_back() {
    let mut shell = Shell::new(true, false);
    assert!(shell.cleanup_system_proxy(false));
    assert!(!shell.system_proxy_active);
    assert!(!shell.cleanup_system_proxy(false));
    assert!(shell.cleanup_system_proxy(true));
}

#[test]
fn upstream_is_captured_in_auto_mode_only() {
    let mut proxy = AppConfig::default().proxy;
    assert!(capture_upstream(&mut proxy, Some("a:1".into())));
    assert_eq!(proxy.upstream_proxy.as_deref(), Some("a:1"));
    assert!(!capture_upstream(&mut proxy, Some("a:1".into())));
    assert!(capture_upstream(&mut proxy, Some("127.0.0.1:8877".into())));
    assert_eq!(proxy.upstream_proxy, None);
    proxy.network_mode = NetworkMode::Http;
    assert!(!capture_upstream(&mut proxy, Some("a:1".into())));
    assert_eq!(proxy.upstream_proxy, None);
}

#[test]
fn words_of_the_notices() {
    let error = || "e".to_string();
    let words = [
        (Notice::ListenerCheckFailed { error: error() }, "启动监听已取消，系统代理未修改：e"),
        (Notice::UpstreamNotCaptured { error: error() }, "保存自动上游失败：e"),
        (Notice::Exported { path: "p".into() }, "统计已导出：p"),
        (Notice::ExportFailed { error: error() }, "导出统计失败：e"),
        (Notice::StartupOn, "已启用开机启动（静默到托盘）"),
        (Notice::StartupOff, "已关闭开机启动"),
        (Notice::StartupFailed { error: error() }, "开机启动设置失败：e"),
        (
            Notice::Reloaded { connections: 2 },
            "已重新载入规则、黑名单和 Action；已刷新 2 条连接",
        ),
        (Notice::ReloadFailed { error: error() }, "载入配置失败：e"),
        (Notice::ConfigNotOpened { error: error() }, "无法打开配置：e"),
        (
            Notice::BuiltinResource { action_id: "a".into(), connections: 0 },
            "a 已切换为内置默认；已刷新 0 条连接",
        ),
        (Notice::BuiltinResourceFailed { error: error() }, "恢复内置资源失败：e"),
        (
            Notice::ImportedResource { path: "p".into(), connections: 12 },
            "已选择并启用：p；已刷新 12 条连接",
        ),
        (Notice::ImportFailed { error: error() }, "保存导入文件失败：e"),
        (Notice::ModeNotSaved { error: error() }, "保存网络模式失败：e"),
        (Notice::UpstreamSaved, "上游代理已保存；新连接立即使用"),
        (Notice::UpstreamNotSaved { error: error() }, "保存上游代理失败：e"),
        (Notice::UpstreamHealthy { detail: "d".into() }, "上游健康检查通过：d"),
        (Notice::UpstreamUnhealthy { error: error() }, "上游不可用，已保持故障关闭：e"),
        (Notice::LoggingNotSaved { error: error() }, "保存日志设置失败：e"),
        (Notice::RetentionNotSaved { error: error() }, "保存保留策略失败：e"),
        (Notice::StatsCleared, "统计数据已清空"),
        (Notice::StatsNotCleared { error: error() }, "清空统计失败：e"),
        (Notice::StatsNotRead { error: error() }, "读取统计失败：e"),
        (Notice::ResponsesNotRead { error: error() }, "读取 Action 响应失败：e"),
        (Notice::BlockNotRecorded { error: error() }, "记录拦截统计失败：e"),
        (Notice::PictureFailed { error: error() }, "图片预览失败：e"),
        (Notice::AudioFailed { error: error() }, "音频预览失败：e"),
        (Notice::TrayUnavailable { error: error() }, "系统托盘不可用：e"),
        (Notice::RecoveredTakeover, "检测到上次异常退出，已在启动界面前恢复 Clash 系统代理"),
        (
            Notice::RecoveryFailed { error: error() },
            "恢复上次代理快照失败，应用不会自动启动保护：e",
        ),
    ];
    let mut shell = Shell::new(false, false);
    for (notice, text) in words {
        assert_eq!(notice.message(), text);
        shell.notify(&notice);
        assert_eq!(shell.recent[0], text);
    }
}
