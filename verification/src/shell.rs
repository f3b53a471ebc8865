//! The state behind the window: whether protection is on, what is told to the user, and which step
//! follows which event. Steps that touch the system are commands; how they went is told back.

use crate::actions::told;
use crate::config::{texts, NetworkMode, ProxyConfig, ProxyConfigView};
use crate::events::{copy_text, UiEvent};
use crate::foreign::opt_view;
use crate::response::is_suffix;
use crate::text::{decimal_text, digits, same_optional_text, same_text};
use vstd::prelude::*;

verus! {

/// The pages of the window.
#[derive(Debug, Clone, Copy, PartialEq, Eq, Structural)]
pub enum Page {
    Overview,
    Rules,
    Actions,
    Settings,
}

/// The sections of the page of settings.
#[derive(Debug, Clone, Copy, PartialEq, Eq, Structural)]
pub enum SettingsSection {
    Windows,
    Network,
    Data,
    Advanced,
}

/// How many messages are shown.
pub const MAX_RECENT: usize = 7;

/// The state behind the window.
#[derive(Debug)]
pub struct Shell {
    /// Whether the proxy listens.
    pub proxy_running: bool,
    /// The line that tells how the proxy is.
    pub proxy_detail: String,
    /// Whether protection is being started.
    pub protection_pending: bool,
    /// Whether the line is to stay when the proxy tells that it has stopped.
    pub preserve_stop_detail: bool,
    /// Whether the system sends its requests to the proxy.
    pub system_proxy_active: bool,
    pub page: Page,
    pub window_hidden: bool,
    /// The last messages, the newest first.
    pub recent: Vec<String>,
}

/// `Shell` as a value.
#[verifier::ext_equal]
pub struct ShellView {
    pub proxy_running: bool,
    pub proxy_detail: Seq<char>,
    pub protection_pending: bool,
    pub preserve_stop_detail: bool,
    pub system_proxy_active: bool,
    pub page: Page,
    pub window_hidden: bool,
    pub recent: Seq<Seq<char>>,
}

impl View for Shell {
    type V = ShellView;

    open spec fn view(&self) -> ShellView {
        ShellView {
            proxy_running: self.proxy_running,
            proxy_detail: self.proxy_detail@,
            protection_pending: self.protection_pending,
            preserve_stop_detail: self.preserve_stop_detail,
            system_proxy_active: self.system_proxy_active,
            page: self.page,
            window_hidden: self.window_hidden,
            recent: texts(self.recent@),
        }
    }
}

/// For what the system proxy is restored.
#[derive(Debug, Clone, Copy, PartialEq, Eq, Structural)]
pub enum RestoreReason {
    /// The proxy has stopped by itself.
    ListenerStopped,
    /// Protection is switched off.
    ProtectionOff,
    /// The takeover alone is switched off.
    TakeoverOff,
    /// The proxy is switched off.
    ListenerOff,
}

/// What has to be done next. How it went is told by the function that is named with it.
#[derive(Debug)]
pub enum Command {
    /// Nothing.
    Idle,
    /// Restore the system proxy; then `restored`.
    Restore(RestoreReason),
    /// Stop the proxy, then restore the system proxy; then `restored`.
    StopAndRestore(RestoreReason),
    /// Restore the system proxy, whether it works or not.
    RestoreQuietly,
    /// Start protection; `begin_protection`.
    BeginProtection,
    /// Start the proxy; then `listener_started`.
    StartListener { upstream_detail: String },
    /// Stop the proxy.
    StopListener,
    /// Check the way out and the forwarding, and let the proxy listen; then `listener_checked`.
    CheckListener,
    /// Check the forwarding; then the event `ProtectionLocalChecked`.
    ProbeLocal { upstream_detail: String },
    /// Take over the system proxy; then `taken_over`.
    TakeOver { upstream_detail: String, local_detail: String },
    /// Look whether the system proxy is still the expected one; then `verified`.
    Verify { expected: String },
    /// Reload the statistics and show the block.
    ShowBlock,
    /// Let an action use a file.
    UseResource { action_id: String, path: String },
    /// Export the statistics; then `exported`.
    Export { path: String },
    /// Show the window, and mark the responses as read where asked.
    ShowWindow { clear_unread: bool },
    /// Restore the system proxy and end.
    Quit,
}

/// `Command` as a value.
#[verifier::ext_equal]
pub enum CommandView {
    Idle,
    Restore(RestoreReason),
    StopAndRestore(RestoreReason),
    RestoreQuietly,
    BeginProtection,
    StartListener { upstream_detail: Seq<char> },
    StopListener,
    CheckListener,
    ProbeLocal { upstream_detail: Seq<char> },
    TakeOver { upstream_detail: Seq<char>, local_detail: Seq<char> },
    Verify { expected: Seq<char> },
    ShowBlock,
    UseResource { action_id: Seq<char>, path: Seq<char> },
    Export { path: Seq<char> },
    ShowWindow { clear_unread: bool },
    Quit,
}

impl View for Command {
    type V = CommandView;

    open spec fn view(&self) -> CommandView {
        match self {
            Command::Idle => CommandView::Idle,
            Command::Restore(reason) => CommandView::Restore(*reason),
            Command::StopAndRestore(reason) => CommandView::StopAndRestore(*reason),
            Command::RestoreQuietly => CommandView::RestoreQuietly,
            Command::BeginProtection => CommandView::BeginProtection,
            Command::StartListener { upstream_detail } => CommandView::StartListener {
                upstream_detail: upstream_detail@,
            },
            Command::StopListener => CommandView::StopListener,
            Command::CheckListener => CommandView::CheckListener,
            Command::ProbeLocal { upstream_detail } => CommandView::ProbeLocal {
                upstream_detail: upstream_detail@,
            },
            Command::TakeOver { upstream_detail, local_detail } => CommandView::TakeOver {
                upstream_detail: upstream_detail@,
                local_detail: local_detail@,
            },
            Command::Verify { expected } => CommandView::Verify { expected: expected@ },
            Command::ShowBlock => CommandView::ShowBlock,
            Command::UseResource { action_id, path } => CommandView::UseResource {
                action_id: action_id@,
                path: path@,
            },
            Command::Export { path } => CommandView::Export { path: path@ },
            Command::ShowWindow { clear_unread } => CommandView::ShowWindow {
                clear_unread: *clear_unread,
            },
            Command::Quit => CommandView::Quit,
        }
    }
}

// ---------------------------------------------------------------------------
// Messages
// ---------------------------------------------------------------------------
/// The messages with a new one in front; only the last few stay.
pub open spec fn with_message(recent: Seq<Seq<char>>, message: Seq<char>) -> Seq<Seq<char>> {
    let all = seq![message] + recent;
    if all.len() > MAX_RECENT {
        all.take(MAX_RECENT as int)
    } else {
        all
    }
}

/// The state with a new message.
pub open spec fn noted(state: ShellView, message: Seq<char>) -> ShellView {
    ShellView { recent: with_message(state.recent, message), ..state }
}

/// No more messages are shown than fit, and the newest is always among them.
pub proof fn law_recent_messages_are_limited(recent: Seq<Seq<char>>, message: Seq<char>)
    ensures
        with_message(recent, message).len() <= MAX_RECENT,
        with_message(recent, message)[0] == message,
{
}

impl Shell {
    /// The state at the start: nothing listens. Whether the system proxy is this one was found out
    /// before.
    pub fn new(system_proxy_active: bool, initially_hidden: bool) -> (r: Shell)
        ensures
            r@ == shell_start(system_proxy_active, initially_hidden),
    {
        let recent: Vec<String> = Vec::new();
        assert(texts(recent@) =~= Seq::<Seq<char>>::empty());
        Shell {
            proxy_running: false,
            proxy_detail: "就绪".to_owned(),
            protection_pending: false,
            preserve_stop_detail: false,
            system_proxy_active,
            page: Page::Overview,
            window_hidden: initially_hidden,
            recent,
        }
    }

    /// Shows a message.
    pub fn push_recent(&mut self, message: String)
        ensures
            final(self)@ == noted(old(self)@, message@),
    {
        let ghost before = self.recent@;
        self.recent.insert(0, message);
        assert(texts(self.recent@) =~= seq![message@] + texts(before));
        if self.recent.len() > MAX_RECENT {
            self.recent.truncate(MAX_RECENT);
            assert(texts(self.recent@) =~= (seq![message@] + texts(before)).take(
                MAX_RECENT as int,
            ));
        }
    }

    /// Shows a message with a text behind it.
    fn tell(&mut self, start: &str, rest: &str)
        ensures
            final(self)@ == noted(old(self)@, start@ + rest@),
    {
        let mut message = start.to_owned();
        message.append(rest);
        self.push_recent(message);
    }

    /// Tells of a block.
    pub fn note_block(&mut self, rule_id: &str, results: usize, request: &str)
        ensures
            final(self)@ == noted(old(self)@, block_message(rule_id@, results as nat, request@)),
    {
        let mut message = "拦截 · ".to_owned();
        message.append(rule_id);
        message.append(" · ");
        message.append(decimal_text(results as u64).as_str());
        message.append(" 个结果 · ");
        message.append(request);
        self.push_recent(message);
    }
}

/// The state at the start.
pub open spec fn shell_start(system_proxy_active: bool, initially_hidden: bool) -> ShellView {
    ShellView {
        proxy_running: false,
        proxy_detail: "就绪"@,
        protection_pending: false,
        preserve_stop_detail: false,
        system_proxy_active,
        page: Page::Overview,
        window_hidden: initially_hidden,
        recent: Seq::empty(),
    }
}

/// The message of a block.
pub open spec fn block_message(
    rule_id: Seq<char>,
    results: nat,
    request: Seq<char>,
) -> Seq<char> {
    "拦截 · "@ + rule_id + " · "@ + digits(results) + " 个结果 · "@ + request
}

// ---------------------------------------------------------------------------
// Events
// ---------------------------------------------------------------------------
/// The proxy tells how it is.
pub open spec fn on_status(state: ShellView, running: bool, detail: Seq<char>) -> (
    ShellView,
    CommandView,
) {
    let told_stop = !running && detail == "代理已停止"@ && state.preserve_stop_detail;
    let keep = running && state.protection_pending;
    (
        ShellView {
            proxy_running: running,
            preserve_stop_detail: state.preserve_stop_detail && !told_stop,
            proxy_detail: if told_stop || keep {
                state.proxy_detail
            } else {
                detail
            },
            ..state
        },
        if !running && state.system_proxy_active {
            CommandView::Restore(RestoreReason::ListenerStopped)
        } else {
            CommandView::Idle
        },
    )
}

/// The way out has been checked.
pub open spec fn on_upstream_checked(
    state: ShellView,
    result: Result<Seq<char>, Seq<char>>,
) -> (ShellView, CommandView) {
    match result {
        Ok(upstream_detail) => (state, CommandView::StartListener { upstream_detail }),
        Err(error) => (
            noted(
                ShellView {
                    protection_pending: false,
                    proxy_detail: "Clash 出站检查失败："@ + error,
                    ..state
                },
                "启动保护已取消，Clash 与系统代理保持原状："@ + error,
            ),
            CommandView::Idle,
        ),
    }
}

/// The forwarding has been checked.
pub open spec fn on_local_checked(
    state: ShellView,
    upstream_detail: Seq<char>,
    result: Result<Seq<char>, Seq<char>>,
) -> (ShellView, CommandView) {
    match result {
        Ok(local_detail) => (state, CommandView::TakeOver { upstream_detail, local_detail }),
        Err(error) => (
            noted(
                ShellView {
                    preserve_stop_detail: true,
                    protection_pending: false,
                    proxy_detail: "本机转发验证失败："@ + error,
                    ..state
                },
                "启动保护已取消，本机监听已停止，Clash 与系统代理保持原状："@
                    + error,
            ),
            CommandView::StopListener,
        ),
    }
}

/// Protection is switched.
pub open spec fn on_toggle_protection(state: ShellView) -> CommandView {
    if state.protection_pending {
        CommandView::Idle
    } else if state.system_proxy_active {
        CommandView::StopAndRestore(RestoreReason::ProtectionOff)
    } else {
        CommandView::BeginProtection
    }
}

/// What was told, as a value.
pub open spec fn told_detail(r: Result<String, String>) -> Result<Seq<char>, Seq<char>> {
    match r {
        Ok(text) => Ok(text@),
        Err(error) => Err(error@),
    }
}

/// The state after an event, and what has to be done.
pub open spec fn on_event(state: ShellView, event: UiEvent) -> (ShellView, CommandView) {
    match event {
        UiEvent::ProxyStatus { running, detail } => on_status(state, running, detail@),
        UiEvent::ProtectionUpstreamChecked { result } => on_upstream_checked(
            state,
            told_detail(result),
        ),
        UiEvent::ProtectionLocalChecked { upstream_detail, result } => on_local_checked(
            state,
            upstream_detail@,
            told_detail(result),
        ),
        UiEvent::Blocked { .. } => (state, CommandView::ShowBlock),
        UiEvent::ImportedAudio(path) => (
            state,
            CommandView::UseResource { action_id: "blocked-sound"@, path: path@ },
        ),
        UiEvent::ImportedImage(path) => (
            state,
            CommandView::UseResource { action_id: "blocked-picture"@, path: path@ },
        ),
        UiEvent::ImportedHtml(path) => (
            state,
            CommandView::UseResource { action_id: "blocked-game"@, path: path@ },
        ),
        UiEvent::ExportStats(path) => (state, CommandView::Export { path: path@ }),
        UiEvent::NetworkProbe(message) => (noted(state, message@), CommandView::Idle),
        UiEvent::VerifySystemProxy(expected) => (
            state,
            if state.system_proxy_active {
                CommandView::Verify { expected: expected@ }
            } else {
                CommandView::Idle
            },
        ),
        UiEvent::TrayShow => (
            ShellView { window_hidden: false, ..state },
            CommandView::ShowWindow { clear_unread: state.page == Page::Actions },
        ),
        UiEvent::TrayToggleProxy => (state, on_toggle_protection(state)),
        UiEvent::TrayQuit => (state, CommandView::Quit),
        UiEvent::Error(message) => (noted(state, "错误 · "@ + message@), CommandView::Idle),
    }
}

impl Shell {
    /// The proxy tells how it is.
    fn status(&mut self, running: bool, detail: String) -> (r: Command)
        ensures
            (final(self)@, r@) == on_status(old(self)@, running, detail@),
    {
        self.proxy_running = running;
        if !running && self.preserve_stop_detail && same_text(
            detail.as_str(),
            "代理已停止",
        ) {
            self.preserve_stop_detail = false;
        } else if !(running && self.protection_pending) {
            self.proxy_detail = detail;
        }
        if !running && self.system_proxy_active {
            Command::Restore(RestoreReason::ListenerStopped)
        } else {
            Command::Idle
        }
    }

    /// The way out has been checked.
    fn upstream_checked(&mut self, result: Result<String, String>) -> (r: Command)
        ensures
            (final(self)@, r@) == on_upstream_checked(old(self)@, told_detail(result)),
    {
        match result {
            Ok(upstream_detail) => Command::StartListener { upstream_detail },
            Err(error) => {
                self.protection_pending = false;
                let mut detail = "Clash 出站检查失败：".to_owned();
                detail.append(error.as_str());
                self.proxy_detail = detail;
                self.tell(
                    "启动保护已取消，Clash 与系统代理保持原状：",
                    error.as_str(),
                );
                Command::Idle
            },
        }
    }

    /// The forwarding has been checked.
    fn local_checked(&mut self, upstream_detail: String, result: Result<String, String>) -> (r:
        Command)
        ensures
            (final(self)@, r@) == on_local_checked(
                old(self)@,
                upstream_detail@,
                told_detail(result),
            ),
    {
        match result {
            Ok(local_detail) => Command::TakeOver { upstream_detail, local_detail },
            Err(error) => {
                self.preserve_stop_detail = true;
                self.protection_pending = false;
                let mut detail = "本机转发验证失败：".to_owned();
                detail.append(error.as_str());
                self.proxy_detail = detail;
                self.tell(
                    "启动保护已取消，本机监听已停止，Clash 与系统代理保持原状：",
                    error.as_str(),
                );
                Command::StopListener
            },
        }
    }

    /// Switches protection on or off.
    pub fn toggle_protection(&self) -> (r: Command)
        ensures
            r@ == on_toggle_protection(self@),
    {
        if self.protection_pending {
            Command::Idle
        } else if self.system_proxy_active {
            Command::StopAndRestore(RestoreReason::ProtectionOff)
        } else {
            Command::BeginProtection
        }
    }

    /// Takes note of an event and tells what has to be done.
    pub fn handle_event(&mut self, event: UiEvent) -> (r: Command)
        ensures
            (final(self)@, r@) == on_event(old(self)@, event),
    {
        match event {
            UiEvent::ProxyStatus { running, detail } => self.status(running, detail),
            UiEvent::ProtectionUpstreamChecked { result } => self.upstream_checked(result),
            UiEvent::ProtectionLocalChecked { upstream_detail, result } => self.local_checked(
                upstream_detail,
                result,
            ),
            UiEvent::Blocked { .. } => Command::ShowBlock,
            UiEvent::ImportedAudio(path) => Command::UseResource {
                action_id: "blocked-sound".to_owned(),
                path,
            },
            UiEvent::ImportedImage(path) => Command::UseResource {
                action_id: "blocked-picture".to_owned(),
                path,
            },
            UiEvent::ImportedHtml(path) => Command::UseResource {
                action_id: "blocked-game".to_owned(),
                path,
            },
            UiEvent::ExportStats(path) => Command::Export { path },
            UiEvent::NetworkProbe(message) => {
                self.push_recent(message);
                Command::Idle
            },
            UiEvent::VerifySystemProxy(expected) => {
                if self.system_proxy_active {
                    Command::Verify { expected }
                } else {
                    Command::Idle
                }
            },
            UiEvent::TrayShow => {
                self.window_hidden = false;
                Command::ShowWindow { clear_unread: self.page == Page::Actions }
            },
            UiEvent::TrayToggleProxy => self.toggle_protection(),
            UiEvent::TrayQuit => Command::Quit,
            UiEvent::Error(message) => {
                self.tell("错误 · ", message.as_str());
                Command::Idle
            },
        }
    }
}

// ---------------------------------------------------------------------------
// How commands went
// ---------------------------------------------------------------------------
/// The state after the system proxy was to be restored.
pub open spec fn after_restore(
    state: ShellView,
    reason: RestoreReason,
    result: Result<(), Seq<char>>,
) -> ShellView {
    match (reason, result) {
        (RestoreReason::ListenerStopped, Ok(())) => noted(
            ShellView { system_proxy_active: false, ..state },
            "本机监听意外停止，已立即恢复 Clash 系统代理"@,
        ),
        (RestoreReason::ListenerStopped, Err(error)) => noted(
            state,
            "严重：监听停止后恢复 Clash 系统代理失败："@ + error,
        ),
        (RestoreReason::ProtectionOff, Ok(())) => ShellView {
            system_proxy_active: false,
            proxy_detail: "保护已停止，已恢复原系统代理"@,
            ..state
        },
        (RestoreReason::TakeoverOff, Ok(())) => noted(
            ShellView { system_proxy_active: false, ..state },
            "已恢复接管前的 Windows 系统代理"@,
        ),
        (RestoreReason::ListenerOff, Ok(())) => ShellView { system_proxy_active: false, ..state },
        (_, Err(error)) => noted(state, "恢复系统代理失败："@ + error),
    }
}

/// The state after the proxy was to be started, and what has to be done.
pub open spec fn after_listener_start(
    state: ShellView,
    upstream_detail: Seq<char>,
    result: Result<(), Seq<char>>,
) -> (ShellView, CommandView) {
    match result {
        Ok(()) => (
            ShellView { proxy_detail: "正在验证本机转发…"@, ..state },
            CommandView::ProbeLocal { upstream_detail },
        ),
        Err(error) => (
            noted(
                ShellView {
                    protection_pending: false,
                    proxy_detail: "启动本机监听失败："@ + error,
                    ..state
                },
                "启动保护已取消，Clash 与系统代理保持原状："@ + error,
            ),
            CommandView::Idle,
        ),
    }
}

/// The line that tells that protection is on.
pub open spec fn protected_text(upstream_detail: Seq<char>, local_detail: Seq<char>) -> Seq<char> {
    "保护已启动 · "@ + upstream_detail + "；"@ + local_detail
}

/// The state after the system proxy was to be taken over, and what has to be done.
pub open spec fn after_takeover(
    state: ShellView,
    upstream_detail: Seq<char>,
    local_detail: Seq<char>,
    result: Result<(), Seq<char>>,
) -> (ShellView, CommandView) {
    match result {
        Ok(()) => (
            noted(
                ShellView {
                    system_proxy_active: true,
                    protection_pending: false,
                    proxy_detail: protected_text(upstream_detail, local_detail),
                    ..state
                },
                protected_text(upstream_detail, local_detail),
            ),
            CommandView::Idle,
        ),
        Err(error) => (
            noted(
                ShellView {
                    preserve_stop_detail: true,
                    protection_pending: false,
                    proxy_detail: "系统代理接管失败："@ + error,
                    ..state
                },
                "启动保护已取消，本机监听已停止，Clash 保持原状："@ + error,
            ),
            CommandView::StopListener,
        ),
    }
}

/// The state after a look at the system proxy, and what has to be done.
pub open spec fn after_verify(state: ShellView, ours: bool) -> (ShellView, CommandView) {
    if state.system_proxy_active && !ours {
        (
            noted(
                ShellView { system_proxy_active: false, ..state },
                "Windows 系统代理被其他程序改回；已停止接管并恢复原设置"@,
            ),
            CommandView::RestoreQuietly,
        )
    } else {
        (state, CommandView::Idle)
    }
}

impl Shell {
    /// The system proxy was to be restored.
    pub fn restored(&mut self, reason: RestoreReason, result: Result<(), String>)
        ensures
            final(self)@ == after_restore(old(self)@, reason, told(result)),
    {
        match result {
            Ok(()) => {
                self.system_proxy_active = false;
                match reason {
                    RestoreReason::ListenerStopped => self.push_recent(
                        "本机监听意外停止，已立即恢复 Clash 系统代理".to_owned(),
                    ),
                    RestoreReason::ProtectionOff => {
                        self.proxy_detail =
                        "保护已停止，已恢复原系统代理".to_owned();
                    },
                    RestoreReason::TakeoverOff => self.push_recent(
                        "已恢复接管前的 Windows 系统代理".to_owned(),
                    ),
                    RestoreReason::ListenerOff => {},
                }
            },
            Err(error) => {
                if reason == RestoreReason::ListenerStopped {
                    self.tell(
                        "严重：监听停止后恢复 Clash 系统代理失败：",
                        error.as_str(),
                    );
                } else {
                    self.tell("恢复系统代理失败：", error.as_str());
                }
            },
        }
    }

    /// The proxy was to be started.
    pub fn listener_started(&mut self, upstream_detail: String, result: Result<(), String>) -> (r:
        Command)
        ensures
            (final(self)@, r@) == after_listener_start(
                old(self)@,
                upstream_detail@,
                told(result),
            ),
    {
        match result {
            Ok(()) => {
                self.proxy_detail = "正在验证本机转发…".to_owned();
                Command::ProbeLocal { upstream_detail }
            },
            Err(error) => {
                self.protection_pending = false;
                let mut detail = "启动本机监听失败：".to_owned();
                detail.append(error.as_str());
                self.proxy_detail = detail;
                self.tell(
                    "启动保护已取消，Clash 与系统代理保持原状：",
                    error.as_str(),
                );
                Command::Idle
            },
        }
    }

    /// The system proxy was to be taken over.
    pub fn taken_over(
        &mut self,
        upstream_detail: &str,
        local_detail: &str,
        result: Result<(), String>,
    ) -> (r: Command)
        ensures
            (final(self)@, r@) == after_takeover(
                old(self)@,
                upstream_detail@,
                local_detail@,
                told(result),
            ),
    {
        match result {
            Ok(()) => {
                self.system_proxy_active = true;
                self.protection_pending = false;
                let mut detail = "保护已启动 · ".to_owned();
                detail.append(upstream_detail);
                detail.append("；");
                detail.append(local_detail);
                self.proxy_detail = detail.clone();
                self.push_recent(detail);
                Command::Idle
            },
            Err(error) => {
                self.preserve_stop_detail = true;
                self.protection_pending = false;
                let mut detail = "系统代理接管失败：".to_owned();
                detail.append(error.as_str());
                self.proxy_detail = detail;
                self.tell(
                    "启动保护已取消，本机监听已停止，Clash 保持原状：",
                    error.as_str(),
                );
                Command::StopListener
            },
        }
    }

    /// A look was taken at the system proxy.
    pub fn verified(&mut self, ours: bool) -> (r: Command)
        ensures
            (final(self)@, r@) == after_verify(old(self)@, ours),
    {
        if self.system_proxy_active && !ours {
            self.system_proxy_active = false;
            self.push_recent(
                "Windows 系统代理被其他程序改回；已停止接管并恢复原设置".to_owned(),
            );
            Command::RestoreQuietly
        } else {
            Command::Idle
        }
    }
}

// ---------------------------------------------------------------------------
// Starting and stopping
// ---------------------------------------------------------------------------
/// The proxy of the system that requests would go through without this one.
pub open spec fn other_proxy(existing: Option<Seq<char>>, listen: Seq<char>) -> Option<Seq<char>> {
    match existing {
        Some(address) => if address == listen {
            None
        } else {
            Some(address)
        },
        None => None,
    }
}

/// The settings after a look at the proxy of the system: in the automatic mode it becomes the
/// upstream proxy.
pub open spec fn captured(proxy: ProxyConfigView, existing: Option<Seq<char>>) -> ProxyConfigView {
    if proxy.network_mode == NetworkMode::Auto {
        ProxyConfigView { upstream_proxy: other_proxy(existing, proxy.listen), ..proxy }
    } else {
        proxy
    }
}

/// Takes the proxy of the system as the upstream proxy in the automatic mode, and tells whether the
/// settings have changed and have to be saved.
pub fn capture_upstream(proxy: &mut ProxyConfig, existing: Option<String>) -> (r: bool)
    ensures
        final(proxy)@ == captured(old(proxy)@, opt_view(existing)),
        r == (final(proxy)@ != old(proxy)@),
{
    let other: Option<String> = match existing {
        Some(address) => {
            if same_text(address.as_str(), proxy.listen.as_str()) {
                None
            } else {
                Some(address)
            }
        },
        None => None,
    };
    if proxy.network_mode == NetworkMode::Auto && !same_optional_text(
        &proxy.upstream_proxy,
        &other,
    ) {
        proxy.upstream_proxy = other;
        true
    } else {
        false
    }
}

/// A check of the way out that starts protection.
#[derive(Debug)]
pub struct StartCheck {
    pub mode: NetworkMode,
    pub upstream: Option<String>,
    pub listen: String,
    /// Whether the settings have changed and have to be saved.
    pub save: bool,
}

/// The upstream proxy that is checked before protection starts: that of the settings after the look
/// at the system, or else that of the settings before it.
pub open spec fn checked_upstream(
    before: Option<Seq<char>>,
    after: Option<Seq<char>>,
) -> Option<Seq<char>> {
    match after {
        Some(address) => Some(address),
        None => before,
    }
}

impl Shell {
    /// Starts protection, unless it is being started: the settings take up the proxy of the system,
    /// and the way out is to be checked; then the event `ProtectionUpstreamChecked`.
    pub fn begin_protection(&mut self, proxy: &mut ProxyConfig, existing: Option<String>) -> (r:
        Option<StartCheck>)
        ensures
            old(self)@.protection_pending ==> r is None && final(self)@ == old(self)@
                && final(proxy)@ == old(proxy)@,
            !old(self)@.protection_pending ==> {
                &&& final(proxy)@ == captured(old(proxy)@, opt_view(existing))
                &&& final(self)@ == (ShellView {
                    protection_pending: true,
                    proxy_detail: "正在验证 Clash 出站…"@,
                    ..old(self)@
                })
                &&& r matches Some(check) && check.mode == old(proxy)@.network_mode
                    && check.listen@ == old(proxy)@.listen && opt_view(check.upstream)
                    == checked_upstream(
                    old(proxy)@.upstream_proxy,
                    final(proxy)@.upstream_proxy,
                ) && check.save == (final(proxy)@ != old(proxy)@)
            },
    {
        if self.protection_pending {
            return None;
        }
        let mode = proxy.network_mode;
        let listen = proxy.listen.clone();
        let before = copy_text(&proxy.upstream_proxy);
        let save = capture_upstream(proxy, existing);
        let upstream = match &proxy.upstream_proxy {
            Some(address) => Some(address.clone()),
            None => before,
        };
        self.protection_pending = true;
        self.proxy_detail = "正在验证 Clash 出站…".to_owned();
        Some(StartCheck { mode, upstream, listen, save })
    }

    /// Switches the takeover of the system proxy alone.
    pub fn toggle_system_proxy(&self) -> (r: Command)
        ensures
            r@ == (if self@.system_proxy_active {
                CommandView::Restore(RestoreReason::TakeoverOff)
            } else {
                CommandView::BeginProtection
            }),
    {
        if self.system_proxy_active {
            Command::Restore(RestoreReason::TakeoverOff)
        } else {
            Command::BeginProtection
        }
    }

    /// Switches the proxy alone. `listening` tells whether it listens at this moment.
    pub fn toggle_proxy(&self, listening: bool) -> (r: Command)
        ensures
            r@ == (if self@.proxy_running || listening {
                if self@.system_proxy_active {
                    CommandView::StopAndRestore(RestoreReason::ListenerOff)
                } else {
                    CommandView::StopListener
                }
            } else {
                CommandView::CheckListener
            }),
    {
        if self.proxy_running || listening {
            if self.system_proxy_active {
                Command::StopAndRestore(RestoreReason::ListenerOff)
            } else {
                Command::StopListener
            }
        } else {
            Command::CheckListener
        }
    }

    /// The end: tells whether the system proxy has to be restored. `ours` tells whether the system
    /// sends its requests to the proxy at this moment.
    pub fn cleanup_system_proxy(&mut self, ours: bool) -> (r: bool)
        ensures
            r == (old(self)@.system_proxy_active || ours),
            final(self)@ == (ShellView { system_proxy_active: false, ..old(self)@ }),
    {
        let restore = self.system_proxy_active || ours;
        self.system_proxy_active = false;
        restore
    }

    /// Turns to a page.
    pub fn show_page(&mut self, page: Page)
        ensures
            final(self)@ == (ShellView { page, ..old(self)@ }),
    {
        self.page = page;
    }

    /// Hides the window.
    pub fn hide_to_tray(&mut self)
        ensures
            final(self)@ == (ShellView { window_hidden: true, ..old(self)@ }),
    {
        self.window_hidden = true;
    }
}

/// Whether a takeover has held: after writing, the system has to send its requests to `listen`.
/// Where it has not, the system proxy is to be restored.
pub fn takeover_held(listen: &str, ours: bool) -> (r: Result<(), String>)
    ensures
        match r {
            Ok(()) => ours,
            Err(error) => !ours && error@ == "Windows 系统代理写入后未保持为 "@ + listen@,
        },
{
    if ours {
        Ok(())
    } else {
        let mut error = "Windows 系统代理写入后未保持为 ".to_owned();
        error.append(listen);
        Err(error)
    }
}

/// What the check of the proxy alone says, given how the check of the forwarding went. Where it
/// failed, the proxy is to be stopped.
pub fn listener_report(upstream_detail: &str, local: Result<String, String>) -> (r: Result<
    String,
    String,
>)
    ensures
        match (r, local) {
            (Ok(text), Ok(local_detail)) => text@ == upstream_detail@ + "；"@ + local_detail@,
            (Err(text), Err(error)) => text@ == "本机代理转发验证失败，监听已停止: "@
                + error@,
            _ => false,
        },
{
    match local {
        Ok(local_detail) => {
            let mut out = upstream_detail.to_owned();
            out.append("；");
            out.append(local_detail.as_str());
            Ok(out)
        },
        Err(error) => {
            let mut out = "本机代理转发验证失败，监听已停止: ".to_owned();
            out.append(error.as_str());
            Err(out)
        },
    }
}

// ---------------------------------------------------------------------------
// Notices
// ---------------------------------------------------------------------------
/// What the user is told of the outcome of a wish.
#[derive(Debug)]
pub enum Notice {
    ListenerCheckFailed { error: String },
    UpstreamNotCaptured { error: String },
    Exported { path: String },
    ExportFailed { error: String },
    StartupOn,
    StartupOff,
    StartupFailed { error: String },
    Reloaded { connections: usize },
    ReloadFailed { error: String },
    ConfigNotOpened { error: String },
    BuiltinResource { action_id: String, connections: usize },
    BuiltinResourceFailed { error: String },
    ImportedResource { path: String, connections: usize },
    ImportFailed { error: String },
    ModeNotSaved { error: String },
    UpstreamSaved,
    UpstreamNotSaved { error: String },
    UpstreamHealthy { detail: String },
    UpstreamUnhealthy { error: String },
    LoggingNotSaved { error: String },
    RetentionNotSaved { error: String },
    StatsCleared,
    StatsNotCleared { error: String },
    StatsNotRead { error: String },
    ResponsesNotRead { error: String },
    BlockNotRecorded { error: String },
    PictureFailed { error: String },
    AudioFailed { error: String },
    TrayUnavailable { error: String },
    RecoveredTakeover,
    RecoveryFailed { error: String },
}

/// The text of a notice.
pub open spec fn notice_text(notice: Notice) -> Seq<char> {
    match notice {
        Notice::ListenerCheckFailed { error } => "启动监听已取消，系统代理未修改："@
            + error@,
        Notice::UpstreamNotCaptured { error } => "保存自动上游失败："@ + error@,
        Notice::Exported { path } => "统计已导出："@ + path@,
        Notice::ExportFailed { error } => "导出统计失败："@ + error@,
        Notice::StartupOn => "已启用开机启动（静默到托盘）"@,
        Notice::StartupOff => "已关闭开机启动"@,
        Notice::StartupFailed { error } => "开机启动设置失败："@ + error@,
        Notice::Reloaded { connections } => "已重新载入规则、黑名单和 Action；已刷新 "@
            + digits(connections as nat) + " 条连接"@,
        Notice::ReloadFailed { error } => "载入配置失败："@ + error@,
        Notice::ConfigNotOpened { error } => "无法打开配置："@ + error@,
        Notice::BuiltinResource { action_id, connections } => action_id@
            + " 已切换为内置默认；已刷新 "@ + digits(connections as nat) + " 条连接"@,
        Notice::BuiltinResourceFailed { error } => "恢复内置资源失败："@ + error@,
        Notice::ImportedResource { path, connections } => "已选择并启用："@ + path@
            + "；已刷新 "@ + digits(connections as nat) + " 条连接"@,
        Notice::ImportFailed { error } => "保存导入文件失败："@ + error@,
        Notice::ModeNotSaved { error } => "保存网络模式失败："@ + error@,
        Notice::UpstreamSaved => "上游代理已保存；新连接立即使用"@,
        Notice::UpstreamNotSaved { error } => "保存上游代理失败："@ + error@,
        Notice::UpstreamHealthy { detail } => "上游健康检查通过："@ + detail@,
        Notice::UpstreamUnhealthy { error } => "上游不可用，已保持故障关闭："@ + error@,
        Notice::LoggingNotSaved { error } => "保存日志设置失败："@ + error@,
        Notice::RetentionNotSaved { error } => "保存保留策略失败："@ + error@,
        Notice::StatsCleared => "统计数据已清空"@,
        Notice::StatsNotCleared { error } => "清空统计失败："@ + error@,
        Notice::StatsNotRead { error } => "读取统计失败："@ + error@,
        Notice::ResponsesNotRead { error } => "读取 Action 响应失败："@ + error@,
        Notice::BlockNotRecorded { error } => "记录拦截统计失败："@ + error@,
        Notice::PictureFailed { error } => "图片预览失败："@ + error@,
        Notice::AudioFailed { error } => "音频预览失败："@ + error@,
        Notice::TrayUnavailable { error } => "系统托盘不可用："@ + error@,
        Notice::RecoveredTakeover =>
            "检测到上次异常退出，已在启动界面前恢复 Clash 系统代理"@,
        Notice::RecoveryFailed { error } =>
            "恢复上次代理快照失败，应用不会自动启动保护："@ + error@,
    }
}

/// A text behind another.
fn joined(start: &str, rest: &str) -> (r: String)
    ensures
        r@ == start@ + rest@,
{
    let mut out = start.to_owned();
    out.append(rest);
    out
}

/// A number of connections between two texts.
fn with_connections(start: String, connections: usize) -> (r: String)
    ensures
        r@ == start@ + digits(connections as nat) + " 条连接"@,
{
    let mut out = start;
    out.append(decimal_text(connections as u64).as_str());
    out.append(" 条连接");
    out
}

impl Notice {
    /// The notice in words.
    pub fn message(&self) -> (r: String)
        ensures
            r@ == notice_text(*self),
    {
        match self {
            Notice::ListenerCheckFailed { error } => joined(
                "启动监听已取消，系统代理未修改：",
                error.as_str(),
            ),
            Notice::UpstreamNotCaptured { error } => joined("保存自动上游失败：", error.as_str()),
            Notice::Exported { path } => joined("统计已导出：", path.as_str()),
            Notice::ExportFailed { error } => joined("导出统计失败：", error.as_str()),
            Notice::StartupOn => "已启用开机启动（静默到托盘）".to_owned(),
            Notice::StartupOff => "已关闭开机启动".to_owned(),
            Notice::StartupFailed { error } => joined("开机启动设置失败：", error.as_str()),
            Notice::Reloaded { connections } => with_connections(
                "已重新载入规则、黑名单和 Action；已刷新 ".to_owned(),
                *connections,
            ),
            Notice::ReloadFailed { error } => joined("载入配置失败：", error.as_str()),
            Notice::ConfigNotOpened { error } => joined("无法打开配置：", error.as_str()),
            Notice::BuiltinResource { action_id, connections } => with_connections(
                joined(action_id.as_str(), " 已切换为内置默认；已刷新 "),
                *connections,
            ),
            Notice::BuiltinResourceFailed { error } => joined(
                "恢复内置资源失败：",
                error.as_str(),
            ),
            Notice::ImportedResource { path, connections } => {
                let start = joined("已选择并启用：", path.as_str());
                with_connections(joined(start.as_str(), "；已刷新 "), *connections)
            },
            Notice::ImportFailed { error } => joined("保存导入文件失败：", error.as_str()),
            Notice::ModeNotSaved { error } => joined("保存网络模式失败：", error.as_str()),
            Notice::UpstreamSaved => "上游代理已保存；新连接立即使用".to_owned(),
            Notice::UpstreamNotSaved { error } => joined("保存上游代理失败：", error.as_str()),
            Notice::UpstreamHealthy { detail } => joined("上游健康检查通过：", detail.as_str()),
            Notice::UpstreamUnhealthy { error } => joined(
                "上游不可用，已保持故障关闭：",
                error.as_str(),
            ),
            Notice::LoggingNotSaved { error } => joined("保存日志设置失败：", error.as_str()),
            Notice::RetentionNotSaved { error } => joined("保存保留策略失败：", error.as_str()),
            Notice::StatsCleared => "统计数据已清空".to_owned(),
            Notice::StatsNotCleared { error } => joined("清空统计失败：", error.as_str()),
            Notice::StatsNotRead { error } => joined("读取统计失败：", error.as_str()),
            Notice::ResponsesNotRead { error } => joined(
                "读取 Action 响应失败：",
                error.as_str(),
            ),
            Notice::BlockNotRecorded { error } => joined("记录拦截统计失败：", error.as_str()),
            Notice::PictureFailed { error } => joined("图片预览失败：", error.as_str()),
            Notice::AudioFailed { error } => joined("音频预览失败：", error.as_str()),
            Notice::TrayUnavailable { error } => joined("系统托盘不可用：", error.as_str()),
            Notice::RecoveredTakeover =>
                "检测到上次异常退出，已在启动界面前恢复 Clash 系统代理".to_owned(),
            Notice::RecoveryFailed { error } => joined(
                "恢复上次代理快照失败，应用不会自动启动保护：",
                error.as_str(),
            ),
        }
    }
}

impl Shell {
    /// Shows a notice.
    pub fn notify(&mut self, notice: &Notice)
        ensures
            final(self)@ == noted(old(self)@, notice_text(*notice)),
    {
        self.push_recent(notice.message());
    }
}

// ---------------------------------------------------------------------------
// Laws
// ---------------------------------------------------------------------------
/// The system proxy is taken over only after both checks have passed: the takeover follows the
/// event that the forwarding works, that check follows the start of the proxy, and the start of the
/// proxy follows the event that the way out works. No event by itself takes over.
pub proof fn law_takeover_follows_both_checks(state: ShellView, event: UiEvent)
    ensures
        on_event(state, event).1 is TakeOver ==> event is ProtectionLocalChecked
            && event->ProtectionLocalChecked_result is Ok,
        on_event(state, event).1 is StartListener ==> event is ProtectionUpstreamChecked
            && event->ProtectionUpstreamChecked_result is Ok,
        on_event(state, event).1 !is ProbeLocal,
        on_event(state, event).0.system_proxy_active == state.system_proxy_active,
{
}

/// The forwarding is checked only once the proxy listens.
pub proof fn law_forwarding_check_needs_the_listener(
    state: ShellView,
    upstream_detail: Seq<char>,
    result: Result<(), Seq<char>>,
)
    ensures
        after_listener_start(state, upstream_detail, result).1 is ProbeLocal <==> result is Ok,
        after_listener_start(state, upstream_detail, result).0.system_proxy_active
            == state.system_proxy_active,
{
}

/// A start that fails changes nothing of the system proxy and is over; where the proxy had been
/// started for it, it is stopped.
pub proof fn law_failed_start_is_undone(
    state: ShellView,
    upstream_detail: Seq<char>,
    local_detail: Seq<char>,
    error: Seq<char>,
)
    ensures
        ({
            let (after, command) = on_upstream_checked(
                state,
                Err::<Seq<char>, Seq<char>>(error),
            );
            !after.protection_pending && after.system_proxy_active == state.system_proxy_active
                && command is Idle
        }),
        ({
            let (after, command) = after_listener_start(
                state,
                upstream_detail,
                Err::<(), Seq<char>>(error),
            );
            !after.protection_pending && after.system_proxy_active == state.system_proxy_active
                && command is Idle
        }),
        ({
            let (after, command) = on_local_checked(
                state,
                upstream_detail,
                Err::<Seq<char>, Seq<char>>(error),
            );
            !after.protection_pending && after.system_proxy_active == state.system_proxy_active
                && command is StopListener
        }),
        ({
            let (after, command) = after_takeover(
                state,
                upstream_detail,
                local_detail,
                Err::<(), Seq<char>>(error),
            );
            !after.protection_pending && after.system_proxy_active == state.system_proxy_active
                && command is StopListener
        }),
{
}

/// When the proxy stops while the system sends its requests to it, the system proxy is restored at
/// once; it counts as taken over until that has worked.
pub proof fn law_stopped_proxy_is_not_left_in_use(
    state: ShellView,
    detail: Seq<char>,
    result: Result<(), Seq<char>>,
)
    requires
        state.system_proxy_active,
    ensures
        on_status(state, false, detail).1 == CommandView::Restore(RestoreReason::ListenerStopped),
        after_restore(
            on_status(state, false, detail).0,
            RestoreReason::ListenerStopped,
            result,
        ).system_proxy_active == (result is Err),
{
}

/// While protection is being started, it cannot be switched.
pub proof fn law_pending_start_is_not_disturbed(state: ShellView)
    requires
        state.protection_pending,
    ensures
        on_event(state, UiEvent::TrayToggleProxy) == (state, CommandView::Idle),
{
}

/// In the automatic mode the upstream proxy is never this one, so that its route does not lead back.
pub proof fn law_captured_upstream_is_another(
    proxy: ProxyConfigView,
    existing: Option<Seq<char>>,
)
    requires
        proxy.network_mode == NetworkMode::Auto,
    ensures
        captured(proxy, existing).upstream_proxy != Some(proxy.listen),
        captured(captured(proxy, existing), existing) == captured(proxy, existing),
{
}

/// Whether two states differ in what is told only: the line about the proxy and the messages.
pub open spec fn same_but_for_words(a: ShellView, b: ShellView) -> bool {
    &&& a.proxy_running == b.proxy_running
    &&& a.protection_pending == b.protection_pending
    &&& a.preserve_stop_detail == b.preserve_stop_detail
    &&& a.system_proxy_active == b.system_proxy_active
    &&& a.page == b.page
    &&& a.window_hidden == b.window_hidden
}

/// A message comes first, and the others stay behind it in their order, up to seven in all.
pub proof fn law_messages_move_down(recent: Seq<Seq<char>>, message: Seq<char>, i: int)
    ensures
        with_message(recent, message)[0] == message,
        0 <= i < recent.len() && i < 6 ==> with_message(recent, message)[i + 1] == recent[i],
        recent.len() < 7 ==> with_message(recent, message).len() == recent.len() + 1,
        recent.len() >= 7 ==> with_message(recent, message).len() == 7,
{
}

/// The proxy tells how it is: that is noted, the system proxy is restored where the proxy has stopped
/// while in use, and the line about it is the one told, unless protection is being started or the
/// line is to stay.
pub proof fn law_status_is_noted(state: ShellView, running: bool, detail: Seq<char>)
    ensures
        ({
            let (after, command) = on_status(state, running, detail);
            let stays = running && state.protection_pending || !running && detail
                == "代理已停止"@ && state.preserve_stop_detail;
            &&& after.proxy_running == running
            &&& after.protection_pending == state.protection_pending
            &&& after.system_proxy_active == state.system_proxy_active
            &&& after.page == state.page
            &&& after.window_hidden == state.window_hidden
            &&& after.recent == state.recent
            &&& stays ==> after.proxy_detail == state.proxy_detail
            &&& !stays ==> after.proxy_detail == detail
            &&& after.preserve_stop_detail <==> state.preserve_stop_detail && (running || detail
                != "代理已停止"@)
            &&& !running && state.system_proxy_active ==> command == CommandView::Restore(
                RestoreReason::ListenerStopped,
            )
            &&& running || !state.system_proxy_active ==> command == CommandView::Idle
        }),
{
}

/// A start of protection goes on where its step has succeeded, with what was found out handed on; and
/// where a step has failed it is given up: the error is told, the listener that was started for it is
/// stopped, and whether the system proxy is in use has not changed.
pub proof fn law_start_goes_on_or_is_given_up(
    state: ShellView,
    upstream: Seq<char>,
    local: Seq<char>,
    error: Seq<char>,
)
    ensures
        on_upstream_checked(state, Ok(upstream)) == (
            state,
            CommandView::StartListener { upstream_detail: upstream },
        ),
        on_local_checked(state, upstream, Ok(local)) == (
            state,
            CommandView::TakeOver { upstream_detail: upstream, local_detail: local },
        ),
        ({
            let (after, command) = after_listener_start(state, upstream, Ok(()));
            same_but_for_words(after, state) && after.recent == state.recent && command
                == CommandView::ProbeLocal { upstream_detail: upstream }
        }),
        ({
            let (after, command) = after_takeover(state, upstream, local, Ok(()));
            &&& same_but_for_words(
                after,
                ShellView { system_proxy_active: true, protection_pending: false, ..state },
            )
            &&& command == CommandView::Idle
            &&& is_suffix(upstream + "；"@ + local, after.proxy_detail)
            &&& after.recent == with_message(state.recent, after.proxy_detail)
        }),
        given_up(state, on_upstream_checked(state, Err(error)), error, CommandView::Idle),
        given_up(state, after_listener_start(state, upstream, Err(error)), error, CommandView::Idle),
        given_up(
            ShellView { preserve_stop_detail: true, ..state },
            on_local_checked(state, upstream, Err(error)),
            error,
            CommandView::StopListener,
        ),
        given_up(
            ShellView { preserve_stop_detail: true, ..state },
            after_takeover(state, upstream, local, Err(error)),
            error,
            CommandView::StopListener,
        ),
{
    let told = protected_text(upstream, local);
    let tail = upstream + "；"@ + local;
    assert(told.subrange(told.len() - tail.len(), told.len() as int) =~= tail);
    lemma_ends("Clash 出站检查失败："@, error);
    lemma_ends("启动保护已取消，Clash 与系统代理保持原状："@, error);
    lemma_ends("启动本机监听失败："@, error);
    lemma_ends("本机转发验证失败："@, error);
    lemma_ends("系统代理接管失败："@, error);
    lemma_ends(
        "启动保护已取消，本机监听已停止，Clash 与系统代理保持原状："@,
        error,
    );
    lemma_ends("启动保护已取消，本机监听已停止，Clash 保持原状："@, error);
}

/// Whether a start has been given up for an error.
pub open spec fn given_up(
    state: ShellView,
    after: (ShellView, CommandView),
    error: Seq<char>,
    command: CommandView,
) -> bool {
    &&& same_but_for_words(after.0, ShellView { protection_pending: false, ..state })
    &&& after.1 == command
    &&& is_suffix(error, after.0.proxy_detail)
    &&& after.0.recent.len() > 0
    &&& is_suffix(error, after.0.recent[0])
    &&& after.0.recent == with_message(state.recent, after.0.recent[0])
}

proof fn lemma_ends(start: Seq<char>, end: Seq<char>)
    ensures
        is_suffix(end, start + end),
{
    let s = start + end;
    assert(s.subrange(s.len() - end.len(), s.len() as int) =~= end);
}

/// What is to be done for an event: a file that was chosen goes to the action that it was chosen for,
/// statistics to the file that was chosen, and what is told is shown; nothing but the start of
/// protection, the system proxy and the window is changed by any of them.
pub proof fn law_events_are_answered(state: ShellView, event: UiEvent)
    ensures
        ({
            let (after, command) = on_event(state, event);
            match event {
                UiEvent::ProxyStatus { running, detail } => (after, command) == on_status(
                    state,
                    running,
                    detail@,
                ),
                UiEvent::ProtectionUpstreamChecked { result: Ok(text) } => (after, command)
                    == on_upstream_checked(state, Ok(text@)),
                UiEvent::ProtectionUpstreamChecked { result: Err(error) } => (after, command)
                    == on_upstream_checked(state, Err(error@)),
                UiEvent::ProtectionLocalChecked { upstream_detail, result: Ok(text) } => (
                    after,
                    command,
                ) == on_local_checked(state, upstream_detail@, Ok(text@)),
                UiEvent::ProtectionLocalChecked { upstream_detail, result: Err(error) } => (
                    after,
                    command,
                ) == on_local_checked(state, upstream_detail@, Err(error@)),
                UiEvent::Blocked { .. } => after == state && command == CommandView::ShowBlock,
                UiEvent::ImportedAudio(path) => after == state && command
                    == (CommandView::UseResource { action_id: "blocked-sound"@, path: path@ }),
                UiEvent::ImportedImage(path) => after == state && command
                    == (CommandView::UseResource { action_id: "blocked-picture"@, path: path@ }),
                UiEvent::ImportedHtml(path) => after == state && command
                    == (CommandView::UseResource { action_id: "blocked-game"@, path: path@ }),
                UiEvent::ExportStats(path) => after == state && command == (CommandView::Export {
                    path: path@,
                }),
                UiEvent::NetworkProbe(message) => same_but_for_words(after, state)
                    && after.proxy_detail == state.proxy_detail && after.recent == with_message(
                    state.recent,
                    message@,
                ) && command == CommandView::Idle,
                UiEvent::VerifySystemProxy(expected) => after == state && command == (
                if state.system_proxy_active {
                    CommandView::Verify { expected: expected@ }
                } else {
                    CommandView::Idle
                }),
                UiEvent::TrayShow => !after.window_hidden && same_but_for_words(
                    ShellView { window_hidden: state.window_hidden, ..after },
                    state,
                ) && after.recent == state.recent && command == (CommandView::ShowWindow {
                    clear_unread: state.page == Page::Actions,
                }),
                UiEvent::TrayToggleProxy => after == state && command == (
                if state.protection_pending {
                    CommandView::Idle
                } else if state.system_proxy_active {
                    CommandView::StopAndRestore(RestoreReason::ProtectionOff)
                } else {
                    CommandView::BeginProtection
                }),
                UiEvent::TrayQuit => after == state && command == CommandView::Quit,
                UiEvent::Error(message) => same_but_for_words(after, state) && after.recent.len()
                    > 0 && is_suffix(message@, after.recent[0]) && command == CommandView::Idle,
            }
        }),
{
    if let UiEvent::Error(message) = event {
        lemma_ends("错误 · "@, message@);
    }
}

/// Once the system proxy is restored it is no longer in use; where restoring has failed it still is,
/// and the error is told. Nothing else changes but what is told.
pub proof fn law_restoring_ends_the_use(
    state: ShellView,
    reason: RestoreReason,
    error: Seq<char>,
)
    ensures
        same_but_for_words(
            after_restore(state, reason, Ok(())),
            ShellView { system_proxy_active: false, ..state },
        ),
        same_but_for_words(after_restore(state, reason, Err(error)), state),
        after_restore(state, reason, Err(error)).recent.len() > 0,
        is_suffix(error, after_restore(state, reason, Err(error)).recent[0]),
{
    lemma_ends("严重：监听停止后恢复 Clash 系统代理失败："@, error);
    lemma_ends("恢复系统代理失败："@, error);
}

/// A system proxy that another program has changed is given up and restored; as long as it is ours,
/// or not in use, nothing happens.
pub proof fn law_foreign_change_ends_the_use(state: ShellView, ours: bool)
    ensures
        state.system_proxy_active && !ours ==> {
            let (after, command) = after_verify(state, ours);
            &&& same_but_for_words(after, ShellView { system_proxy_active: false, ..state })
            &&& command == CommandView::RestoreQuietly
            &&& after.recent.len() > 0
        },
        !(state.system_proxy_active && !ours) ==> after_verify(state, ours) == (
            state,
            CommandView::Idle,
        ),
{
}

/// In the automatic mode the proxy of the system becomes the upstream, unless it is this one; in any
/// other mode the upstream stays. Nothing else changes.
pub proof fn law_system_proxy_becomes_the_upstream(
    proxy: ProxyConfigView,
    existing: Option<Seq<char>>,
)
    ensures
        captured(proxy, existing).listen == proxy.listen,
        captured(proxy, existing).network_mode == proxy.network_mode,
        proxy.network_mode != NetworkMode::Auto ==> captured(proxy, existing).upstream_proxy
            == proxy.upstream_proxy,
        proxy.network_mode == NetworkMode::Auto && existing is Some && existing->0 != proxy.listen
            ==> captured(proxy, existing).upstream_proxy == existing,
        proxy.network_mode == NetworkMode::Auto && (existing is None || existing->0 == proxy.listen)
            ==> captured(proxy, existing).upstream_proxy is None,
{
}

/// The switches: that of protection, that of the takeover and that of the listener.
pub proof fn law_switches_turn_off_what_is_on(
    shell: &Shell,
    listening: bool,
    protection: Command,
    takeover: Command,
    listener: Command,
)
    requires
        call_ensures(Shell::toggle_protection, (shell,), protection),
        call_ensures(Shell::toggle_system_proxy, (shell,), takeover),
        call_ensures(Shell::toggle_proxy, (shell, listening), listener),
    ensures
        shell.protection_pending ==> protection@ == CommandView::Idle,
        !shell.protection_pending && shell.system_proxy_active ==> protection@
            == CommandView::StopAndRestore(RestoreReason::ProtectionOff),
        !shell.protection_pending && !shell.system_proxy_active ==> protection@
            == CommandView::BeginProtection,
        shell.system_proxy_active ==> takeover@ == CommandView::Restore(RestoreReason::TakeoverOff),
        !shell.system_proxy_active ==> takeover@ == CommandView::BeginProtection,
        !shell.proxy_running && !listening ==> listener@ == CommandView::CheckListener,
        (shell.proxy_running || listening) && !shell.system_proxy_active ==> listener@
            == CommandView::StopListener,
        (shell.proxy_running || listening) && shell.system_proxy_active ==> listener@
            == CommandView::StopAndRestore(RestoreReason::ListenerOff),
{
}

/// Protection is started once at a time: the way out is checked in the mode of the settings, with the
/// proxy that the system used until now.
pub proof fn law_protection_starts_with_a_check(
    shell: &mut Shell,
    proxy: &mut ProxyConfig,
    existing: Option<String>,
    r: Option<StartCheck>,
)
    requires
        call_ensures(Shell::begin_protection, (shell, proxy, existing), r),
    ensures
        r is None <==> old(shell)@.protection_pending,
        r is None ==> final(shell)@ == old(shell)@ && final(proxy)@ == old(proxy)@,
        r matches Some(check) ==> {
            &&& final(shell)@.protection_pending
            &&& final(shell)@.system_proxy_active == old(shell)@.system_proxy_active
            &&& final(shell)@.proxy_running == old(shell)@.proxy_running
            &&& final(shell)@.recent == old(shell)@.recent
            &&& check.mode == old(proxy)@.network_mode
            &&& check.listen@ == old(proxy)@.listen
            &&& final(proxy)@.listen == old(proxy)@.listen
            &&& final(proxy)@.network_mode == old(proxy)@.network_mode
            &&& check.save <==> final(proxy)@ != old(proxy)@
            &&& final(proxy)@.upstream_proxy is Some ==> opt_view(check.upstream)
                == final(proxy)@.upstream_proxy
            &&& final(proxy)@.upstream_proxy is None ==> opt_view(check.upstream)
                == old(proxy)@.upstream_proxy
        },
{
}

/// At the end the system proxy is restored where it is in use or ours, and a page and the window are
/// what they are set to.
pub proof fn law_end_leaves_nothing_behind(shell: &mut Shell, ours: bool, r: bool)
    requires
        call_ensures(Shell::cleanup_system_proxy, (shell, ours), r),
    ensures
        r <==> old(shell)@.system_proxy_active || ours,
        !final(shell)@.system_proxy_active,
        final(shell)@.recent == old(shell)@.recent,
{
}

/// A takeover has held exactly where the system proxy is ours afterwards; the report on the listener
/// passes on how the check of its forwarding went.
pub proof fn law_checks_are_passed_on(
    listen: &str,
    ours: bool,
    held: Result<(), String>,
    upstream_detail: &str,
    local: Result<String, String>,
    report: Result<String, String>,
)
    requires
        call_ensures(takeover_held, (listen, ours), held),
        call_ensures(listener_report, (upstream_detail, local), report),
    ensures
        held is Ok <==> ours,
        report is Ok <==> local is Ok,
        report matches Ok(text) ==> text@ == upstream_detail@ + "；"@ + local->Ok_0@,
        report matches Err(text) ==> is_suffix(local->Err_0@, text@),
{
    if let Err(error) = local {
        lemma_ends("本机代理转发验证失败，监听已停止: "@, error@);
    }
}

/// What is told where something failed ends with why; what is told of a file, with its path.
pub proof fn law_notices_end_with_their_detail(notice: Notice, r: String)
    requires
        call_ensures(Notice::message, (&notice,), r),
    ensures
        notice matches Notice::ListenerCheckFailed { error } ==> is_suffix(error@, r@),
        notice matches Notice::UpstreamNotCaptured { error } ==> is_suffix(error@, r@),
        notice matches Notice::Exported { path } ==> is_suffix(path@, r@),
        notice matches Notice::ExportFailed { error } ==> is_suffix(error@, r@),
        notice matches Notice::StartupFailed { error } ==> is_suffix(error@, r@),
        notice matches Notice::ReloadFailed { error } ==> is_suffix(error@, r@),
        notice matches Notice::ConfigNotOpened { error } ==> is_suffix(error@, r@),
        notice matches Notice::BuiltinResourceFailed { error } ==> is_suffix(error@, r@),
        notice matches Notice::ImportFailed { error } ==> is_suffix(error@, r@),
        notice matches Notice::ModeNotSaved { error } ==> is_suffix(error@, r@),
        notice matches Notice::UpstreamNotSaved { error } ==> is_suffix(error@, r@),
        notice matches Notice::UpstreamHealthy { detail } ==> is_suffix(detail@, r@),
        notice matches Notice::UpstreamUnhealthy { error } ==> is_suffix(error@, r@),
        notice matches Notice::LoggingNotSaved { error } ==> is_suffix(error@, r@),
        notice matches Notice::RetentionNotSaved { error } ==> is_suffix(error@, r@),
        notice matches Notice::StatsNotCleared { error } ==> is_suffix(error@, r@),
        notice matches Notice::StatsNotRead { error } ==> is_suffix(error@, r@),
        notice matches Notice::ResponsesNotRead { error } ==> is_suffix(error@, r@),
        notice matches Notice::BlockNotRecorded { error } ==> is_suffix(error@, r@),
        notice matches Notice::PictureFailed { error } ==> is_suffix(error@, r@),
        notice matches Notice::AudioFailed { error } ==> is_suffix(error@, r@),
        notice matches Notice::TrayUnavailable { error } ==> is_suffix(error@, r@),
        notice matches Notice::RecoveryFailed { error } ==> is_suffix(error@, r@),
{
    crate::response::lemma_joined();
}

/// The message of a block names the rule, tells how many outcomes there are and ends with the URL.
pub proof fn law_block_is_told_with_its_rule(rule_id: Seq<char>, results: nat, request: Seq<char>)
    ensures
        is_suffix(request, block_message(rule_id, results, request)),
        is_suffix(
            " · "@ + digits(results) + " 个结果 · "@ + request,
            block_message(rule_id, results, request),
        ),
        crate::response::is_prefix("拦截 · "@ + rule_id, block_message(rule_id, results, request)),
{
    crate::response::lemma_joined();
    let m = block_message(rule_id, results, request);
    assert(m =~= ("拦截 · "@ + rule_id) + (" · "@ + digits(results) + " 个结果 · "@ + request));
}

/// What is told of new settings tells how many connections were closed for them.
pub proof fn law_notices_tell_of_connections(notice: Notice, r: String)
    requires
        call_ensures(Notice::message, (&notice,), r),
    ensures
        notice matches Notice::Reloaded { connections } ==> is_suffix(
            digits(connections as nat) + " 条连接"@,
            r@,
        ),
        notice matches Notice::BuiltinResource { action_id, connections } ==> is_suffix(
            digits(connections as nat) + " 条连接"@,
            r@,
        ) && crate::response::is_prefix(action_id@, r@),
        notice matches Notice::ImportedResource { path, connections } ==> is_suffix(
            path@ + "；已刷新 "@ + digits(connections as nat) + " 条连接"@,
            r@,
        ),
{
    crate::response::lemma_joined();
    match notice {
        Notice::Reloaded { connections } => {
            let n = digits(connections as nat);
            assert(r@ =~= "已重新载入规则、黑名单和 Action；已刷新 "@ + (n + " 条连接"@));
        },
        Notice::BuiltinResource { action_id, connections } => {
            let n = digits(connections as nat);
            assert(r@ =~= (action_id@ + " 已切换为内置默认；已刷新 "@) + (n + " 条连接"@));
            assert(r@ =~= action_id@ + (" 已切换为内置默认；已刷新 "@ + n + " 条连接"@));
        },
        Notice::ImportedResource { path, connections } => {
            let n = digits(connections as nat);
            assert(r@ =~= "已选择并启用："@ + (path@ + "；已刷新 "@ + n + " 条连接"@));
        },
        _ => {},
    }
}

/// The shell starts on the overview, with nothing running and nothing told.
pub proof fn law_shell_starts_idle(
    system_proxy_active: bool,
    initially_hidden: bool,
    r: Shell,
)
    requires
        call_ensures(Shell::new, (system_proxy_active, initially_hidden), r),
    ensures
        !r.proxy_running,
        !r.protection_pending,
        !r.preserve_stop_detail,
        r.system_proxy_active == system_proxy_active,
        r.window_hidden == initially_hidden,
        r.page == Page::Overview,
        r@.recent.len() == 0,
        r.proxy_detail@ == "就绪"@,
{
}

} // verus!
