//! The system proxy and the start with the system. The values of the registry are plain data here;
//! reading and writing them is up to the caller.

use crate::events::copy_text;
use crate::foreign::opt_view;
use crate::text::same_text;
use vstd::prelude::*;

verus! {

/// The values of the system's proxy settings; `None` is a value that is not there.
#[derive(Debug)]
pub struct ProxySettings {
    pub enabled: Option<u32>,
    pub server: Option<String>,
    pub auto_config_url: Option<String>,
    pub proxy_override: Option<String>,
    pub auto_detect: Option<u32>,
}

/// The proxy settings that were in force before a takeover.
#[derive(Debug)]
pub struct ProxyBackup {
    pub enabled: u32,
    pub server: Option<String>,
    pub auto_config_url: Option<String>,
    pub proxy_override: Option<String>,
    pub auto_detect: Option<u32>,
}

/// `ProxySettings` as a value.
#[verifier::ext_equal]
pub struct SettingsView {
    pub enabled: Option<u32>,
    pub server: Option<Seq<char>>,
    pub auto_config_url: Option<Seq<char>>,
    pub proxy_override: Option<Seq<char>>,
    pub auto_detect: Option<u32>,
}

/// `ProxyBackup` as a value.
#[verifier::ext_equal]
pub struct BackupView {
    pub enabled: u32,
    pub server: Option<Seq<char>>,
    pub auto_config_url: Option<Seq<char>>,
    pub proxy_override: Option<Seq<char>>,
    pub auto_detect: Option<u32>,
}

impl View for ProxySettings {
    type V = SettingsView;

    open spec fn view(&self) -> SettingsView {
        SettingsView {
            enabled: self.enabled,
            server: opt_view(self.server),
            auto_config_url: opt_view(self.auto_config_url),
            proxy_override: opt_view(self.proxy_override),
            auto_detect: self.auto_detect,
        }
    }
}

impl View for ProxyBackup {
    type V = BackupView;

    open spec fn view(&self) -> BackupView {
        BackupView {
            enabled: self.enabled,
            server: opt_view(self.server),
            auto_config_url: opt_view(self.auto_config_url),
            proxy_override: opt_view(self.proxy_override),
            auto_detect: self.auto_detect,
        }
    }
}

impl Default for ProxyBackup {
    fn default() -> (r: Self)
        ensures
            r@ == (BackupView {
                enabled: 0,
                server: None,
                auto_config_url: None,
                proxy_override: None,
                auto_detect: None,
            }),
    {
        ProxyBackup {
            enabled: 0,
            server: None,
            auto_config_url: None,
            proxy_override: None,
            auto_detect: None,
        }
    }
}

/// Why the system cannot be configured.
#[derive(Debug)]
pub enum SystemError {
    /// The platform has no system proxy that can be set.
    ProxyUnsupported,
    /// The system proxy is already this one, and nothing tells what it was before.
    NoSnapshot { server: String },
    /// Writing the settings failed; what was before has been written back as far as possible.
    WriteFailed { detail: String },
    /// The platform has no list of programs to start.
    StartupUnsupported,
}

/// `SystemError` as a value.
#[verifier::ext_equal]
pub enum SystemErrorView {
    ProxyUnsupported,
    NoSnapshot { server: Seq<char> },
    WriteFailed { detail: Seq<char> },
    StartupUnsupported,
}

impl View for SystemError {
    type V = SystemErrorView;

    open spec fn view(&self) -> SystemErrorView {
        match self {
            SystemError::ProxyUnsupported => SystemErrorView::ProxyUnsupported,
            SystemError::NoSnapshot { server } => SystemErrorView::NoSnapshot { server: server@ },
            SystemError::WriteFailed { detail } => SystemErrorView::WriteFailed { detail: detail@ },
            SystemError::StartupUnsupported => SystemErrorView::StartupUnsupported,
        }
    }
}

/// The text of an error of the system.
pub open spec fn system_error_text(error: SystemErrorView) -> Seq<char> {
    match error {
        SystemErrorView::ProxyUnsupported => "系统代理自动配置目前仅支持 Windows"@,
        SystemErrorView::NoSnapshot { server } => "系统代理已经指向 "@ + server
            + "，但没有可验证的 Clash 恢复快照"@,
        SystemErrorView::WriteFailed { detail } =>
            "系统代理写入失败，已尝试恢复 Clash 设置: "@ + detail,
        SystemErrorView::StartupUnsupported => "开机启动配置目前仅支持 Windows"@,
    }
}

impl SystemError {
    /// The error in words.
    pub fn message(&self) -> (r: String)
        ensures
            r@ == system_error_text(self@),
    {
        match self {
            SystemError::ProxyUnsupported => {
                "系统代理自动配置目前仅支持 Windows".to_owned()
            },
            SystemError::NoSnapshot { server } => {
                let mut out = "系统代理已经指向 ".to_owned();
                out.append(server.as_str());
                out.append("，但没有可验证的 Clash 恢复快照");
                out
            },
            SystemError::WriteFailed { detail } => {
                let mut out = "系统代理写入失败，已尝试恢复 Clash 设置: ".to_owned();
                out.append(detail.as_str());
                out
            },
            SystemError::StartupUnsupported => "开机启动配置目前仅支持 Windows".to_owned(),
        }
    }
}

/// What a takeover has to do.
#[derive(Debug)]
pub enum Takeover {
    /// The system proxy is this one already, and its backup is kept.
    InForce,
    /// First the backup is saved, then the settings are written.
    Write { backup: ProxyBackup, settings: ProxySettings },
}

/// `Takeover` as a value.
#[verifier::ext_equal]
pub enum TakeoverView {
    InForce,
    Write { backup: BackupView, settings: SettingsView },
}

impl View for Takeover {
    type V = TakeoverView;

    open spec fn view(&self) -> TakeoverView {
        match self {
            Takeover::InForce => TakeoverView::InForce,
            Takeover::Write { backup, settings } => TakeoverView::Write {
                backup: backup@,
                settings: settings@,
            },
        }
    }
}

/// Whether the settings send requests to `server`.
pub open spec fn points_to(settings: SettingsView, server: Seq<char>) -> bool {
    settings.enabled is Some && settings.enabled->0 != 0 && settings.server == Some(server)
}

/// What is kept of the settings before a takeover.
pub open spec fn backup_of(settings: SettingsView) -> BackupView {
    BackupView {
        enabled: match settings.enabled {
            Some(value) => value,
            None => 0,
        },
        server: settings.server,
        auto_config_url: settings.auto_config_url,
        proxy_override: settings.proxy_override,
        auto_detect: settings.auto_detect,
    }
}

/// The settings after a takeover.
pub open spec fn taken_over(settings: SettingsView, server: Seq<char>) -> SettingsView {
    SettingsView { enabled: Some(1u32), server: Some(server), ..settings }
}

/// The settings that a backup stands for.
pub open spec fn restored(backup: BackupView) -> SettingsView {
    SettingsView {
        enabled: Some(backup.enabled),
        server: backup.server,
        auto_config_url: backup.auto_config_url,
        proxy_override: backup.proxy_override,
        auto_detect: backup.auto_detect,
    }
}

/// The value of optional settings.
pub open spec fn opt_settings(settings: Option<&ProxySettings>) -> Option<SettingsView> {
    match settings {
        Some(s) => Some(s@),
        None => None,
    }
}

/// What a takeover has to do, or why there can be none.
pub open spec fn takeover(
    settings: Option<SettingsView>,
    server: Seq<char>,
    backup_exists: bool,
) -> Result<TakeoverView, SystemErrorView> {
    match settings {
        None => Err(SystemErrorView::ProxyUnsupported),
        Some(s) => if points_to(s, server) {
            if backup_exists {
                Ok(TakeoverView::InForce)
            } else {
                Err(SystemErrorView::NoSnapshot { server })
            }
        } else {
            Ok(TakeoverView::Write { backup: backup_of(s), settings: taken_over(s, server) })
        },
    }
}

/// The result of a takeover as a value.
pub open spec fn takeover_view(r: Result<Takeover, SystemError>) -> Result<
    TakeoverView,
    SystemErrorView,
> {
    match r {
        Ok(t) => Ok(t@),
        Err(e) => Err(e@),
    }
}

/// Whether the settings send requests to `server`.
fn settings_point_to(settings: &ProxySettings, server: &str) -> (r: bool)
    ensures
        r == points_to(settings@, server@),
{
    match settings.enabled {
        Some(value) => value != 0 && match &settings.server {
            Some(current) => same_text(current.as_str(), server),
            None => false,
        },
        None => false,
    }
}

/// What is to be done so that the system sends requests to `server`. `settings` are the current
/// ones, `None` on a platform without them; `backup_exists` tells whether an earlier takeover left
/// its backup.
pub fn enable_system_proxy(
    settings: Option<&ProxySettings>,
    server: &str,
    backup_exists: bool,
) -> (r: Result<Takeover, SystemError>)
    ensures
        takeover_view(r) == takeover(opt_settings(settings), server@, backup_exists),
{
    match settings {
        None => Err(SystemError::ProxyUnsupported),
        Some(s) => {
            if settings_point_to(s, server) {
                if backup_exists {
                    Ok(Takeover::InForce)
                } else {
                    Err(SystemError::NoSnapshot { server: server.to_owned() })
                }
            } else {
                let enabled: u32 = match s.enabled {
                    Some(value) => value,
                    None => 0,
                };
                Ok(
                    Takeover::Write {
                        backup: ProxyBackup {
                            enabled,
                            server: copy_text(&s.server),
                            auto_config_url: copy_text(&s.auto_config_url),
                            proxy_override: copy_text(&s.proxy_override),
                            auto_detect: s.auto_detect,
                        },
                        settings: ProxySettings {
                            enabled: Some(1),
                            server: Some(server.to_owned()),
                            auto_config_url: copy_text(&s.auto_config_url),
                            proxy_override: copy_text(&s.proxy_override),
                            auto_detect: s.auto_detect,
                        },
                    },
                )
            }
        },
    }
}

/// The settings to write so that the system is as it was before the takeover; `None` where there is
/// no backup and nothing to do.
pub fn restore_system_proxy(backup: Option<ProxyBackup>) -> (r: Option<ProxySettings>)
    ensures
        match (r, backup) {
            (Some(settings), Some(b)) => settings@ == restored(b@),
            (None, None) => true,
            _ => false,
        },
{
    match backup {
        None => None,
        Some(b) => Some(
            ProxySettings {
                enabled: Some(b.enabled),
                server: b.server,
                auto_config_url: b.auto_config_url,
                proxy_override: b.proxy_override,
                auto_detect: b.auto_detect,
            },
        ),
    }
}

/// Whether the system sends requests to `server`. `settings` is `None` where they cannot be read.
pub fn is_our_proxy(settings: Option<&ProxySettings>, server: &str) -> (r: bool)
    ensures
        r == (settings is Some && points_to(settings->0@, server@)),
{
    match settings {
        Some(s) => settings_point_to(s, server),
        None => false,
    }
}

/// The proxy of the system that is switched on.
pub open spec fn active_proxy(settings: Option<SettingsView>) -> Option<Seq<char>> {
    match settings {
        Some(s) => if s.enabled is Some && s.enabled->0 != 0 {
            s.server
        } else {
            None
        },
        None => None,
    }
}

/// The proxy that the system uses now. `settings` is `None` where they cannot be read.
pub fn current_system_proxy(settings: Option<&ProxySettings>) -> (r: Option<String>)
    ensures
        opt_view(r) == active_proxy(opt_settings(settings)),
{
    match settings {
        Some(s) => match s.enabled {
            Some(value) => {
                if value != 0 {
                    copy_text(&s.server)
                } else {
                    None
                }
            },
            None => None,
        },
        None => None,
    }
}

/// Whether an earlier run ended without restoring the system proxy, so that the backup has to be
/// restored now.
pub fn recover_stale_takeover(
    settings: Option<&ProxySettings>,
    server: &str,
    backup_exists: bool,
) -> (r: bool)
    ensures
        r == (settings is Some && points_to(settings->0@, server@) && backup_exists),
{
    is_our_proxy(settings, server) && backup_exists
}

/// A change of the list of programs that start with the system.
#[derive(Debug)]
pub enum StartupChange {
    /// The entry of the application becomes this command.
    Command(String),
    /// The entry of the application goes.
    Remove,
}

/// The command that starts the application with the system.
pub open spec fn startup_command(executable: Seq<char>, minimized: bool) -> Seq<char> {
    if minimized {
        "\""@ + executable + "\""@ + " --minimized"@
    } else {
        "\""@ + executable + "\""@
    }
}

/// What is to be done so that the application does, or does not, start with the system.
/// `executable` is the path of the program, `None` on a platform without such a list.
pub fn set_startup(executable: Option<&str>, enabled: bool, minimized: bool) -> (r: Result<
    StartupChange,
    SystemError,
>)
    ensures
        match r {
            Ok(StartupChange::Command(command)) => executable is Some && enabled && command@
                == startup_command(executable->0@, minimized),
            Ok(StartupChange::Remove) => executable is Some && !enabled,
            Err(error) => executable is None && error == SystemError::StartupUnsupported,
        },
{
    match executable {
        None => Err(SystemError::StartupUnsupported),
        Some(path) => {
            if enabled {
                let mut command = "\"".to_owned();
                command.append(path);
                command.append("\"");
                if minimized {
                    command.append(" --minimized");
                }
                Ok(StartupChange::Command(command))
            } else {
                Ok(StartupChange::Remove)
            }
        },
    }
}

/// Whether the application starts with the system: it does where the list holds an entry for it.
pub fn startup_enabled(entry: Option<&str>) -> (r: bool)
    ensures
        r == (entry is Some),
{
    entry.is_some()
}

/// Restoring undoes a takeover: the settings are again what they were before, but that a missing
/// switch has become one that is off.
pub proof fn law_restore_undoes_takeover(settings: SettingsView, server: Seq<char>, exists_: bool)
    requires
        takeover(Some(settings), server, exists_) matches Ok(TakeoverView::Write { .. }),
    ensures
        restored(
            takeover(Some(settings), server, exists_)->Ok_0->Write_backup,
        ) == (SettingsView {
            enabled: match settings.enabled {
                Some(value) => Some(value),
                None => Some(0u32),
            },
            ..settings
        }),
        active_proxy(Some(restored(takeover(Some(settings), server, exists_)->Ok_0->Write_backup)))
            == active_proxy(Some(settings)),
{
}

/// A takeover leads to settings that send requests to the server, and leaves the other values as
/// they were.
pub proof fn law_takeover_points_to_server(settings: SettingsView, server: Seq<char>)
    ensures
        points_to(taken_over(settings, server), server),
        active_proxy(Some(taken_over(settings, server))) == Some(server),
        taken_over(settings, server).auto_config_url == settings.auto_config_url,
        taken_over(settings, server).proxy_override == settings.proxy_override,
        taken_over(settings, server).auto_detect == settings.auto_detect,
{
}

/// A second takeover by the same server changes nothing and keeps the first backup, so that the
/// backup never holds the application's own proxy as what was before.
pub proof fn law_backup_is_never_our_own(
    settings: SettingsView,
    server: Seq<char>,
    backup_exists: bool,
)
    ensures
        takeover(Some(taken_over(settings, server)), server, true) == Ok::<
            TakeoverView,
            SystemErrorView,
        >(TakeoverView::InForce),
        takeover(Some(settings), server, backup_exists) matches Ok(
            TakeoverView::Write { backup, .. },
        ) ==> !points_to(restored(backup), server),
{
}

/// What a takeover does, by what the settings are: on a platform without them it is refused; where
/// they send requests to the server already it depends on the backup; and in every other case,
/// whatever is missing from them, they are backed up and the server is written.
pub proof fn law_takeover_is_refused_only_without_a_way_back(
    settings: Option<&ProxySettings>,
    server: &str,
    backup_exists: bool,
    r: Result<Takeover, SystemError>,
)
    requires
        call_ensures(enable_system_proxy, (settings, server, backup_exists), r),
    ensures
        settings is None <==> (r matches Err(SystemError::ProxyUnsupported)),
        settings matches Some(s) ==> {
            let ours = s.enabled is Some && s.enabled->0 != 0 && s.server is Some && s.server->0@
                == server@;
            &&& (r is Err) <==> (ours && !backup_exists)
            &&& r matches Err(error) ==> error@ == (SystemErrorView::NoSnapshot {
                server: server@,
            })
            &&& ours && backup_exists <==> (r matches Ok(Takeover::InForce))
            &&& !ours ==> (r matches Ok(Takeover::Write { backup, settings: written }) && {
                &&& s.enabled is Some ==> backup.enabled == s.enabled->0
                &&& s.enabled is None ==> backup.enabled == 0
                &&& opt_view(backup.server) == opt_view(s.server)
                &&& opt_view(backup.auto_config_url) == opt_view(s.auto_config_url)
                &&& opt_view(backup.proxy_override) == opt_view(s.proxy_override)
                &&& backup.auto_detect == s.auto_detect
                &&& written.enabled == Some(1u32)
                &&& written.server is Some
                &&& written.server->0@ == server@
                &&& opt_view(written.auto_config_url) == opt_view(s.auto_config_url)
                &&& opt_view(written.proxy_override) == opt_view(s.proxy_override)
                &&& written.auto_detect == s.auto_detect
            })
        },
{
    let t = takeover_view(r);
    if let Some(s) = settings {
        match r {
            Ok(Takeover::Write { backup, settings: written }) => {
                assert(t == Ok::<TakeoverView, SystemErrorView>(
                    TakeoverView::Write { backup: backup@, settings: written@ },
                ));
            },
            Ok(Takeover::InForce) => {
                assert(t == Ok::<TakeoverView, SystemErrorView>(TakeoverView::InForce));
            },
            Err(error) => {
                assert(t == Err::<TakeoverView, SystemErrorView>(error@));
            },
        }
    }
}

/// Restoring a backup writes back all that it holds, and without one nothing.
pub proof fn law_restore_writes_back_the_backup(
    backup: Option<ProxyBackup>,
    r: Option<ProxySettings>,
)
    requires
        call_ensures(restore_system_proxy, (backup,), r),
    ensures
        r is Some <==> backup is Some,
        r matches Some(s) ==> {
            let b = backup->0;
            &&& s.enabled == Some(b.enabled)
            &&& opt_view(s.server) == opt_view(b.server)
            &&& opt_view(s.auto_config_url) == opt_view(b.auto_config_url)
            &&& opt_view(s.proxy_override) == opt_view(b.proxy_override)
            &&& s.auto_detect == b.auto_detect
        },
{
}

/// A takeover and then a restore leave every setting as it was; a missing switch has become one that
/// is off.
pub proof fn law_restore_after_takeover_gives_the_settings_back(
    before: &ProxySettings,
    server: &str,
    backup_exists: bool,
    r: Result<Takeover, SystemError>,
    after: Option<ProxySettings>,
)
    requires
        call_ensures(enable_system_proxy, (Some(before), server, backup_exists), r),
        r matches Ok(Takeover::Write { .. }),
        call_ensures(restore_system_proxy, (Some(r->Ok_0->backup),), after),
    ensures
        after matches Some(s) && {
            &&& s.enabled == (if before.enabled is Some {
                before.enabled
            } else {
                Some(0u32)
            })
            &&& opt_view(s.server) == opt_view(before.server)
            &&& opt_view(s.auto_config_url) == opt_view(before.auto_config_url)
            &&& opt_view(s.proxy_override) == opt_view(before.proxy_override)
            &&& s.auto_detect == before.auto_detect
        },
{
    law_takeover_is_refused_only_without_a_way_back(Some(before), server, backup_exists, r);
    law_restore_writes_back_the_backup(Some(r->Ok_0->backup), after);
}

/// The proxy that the system uses is its server, where the switch is on, and none otherwise; it is
/// ours where that is our address; and a takeover is stale where it is ours and a backup is left.
pub proof fn law_system_proxy_is_the_server_that_is_switched_on(
    settings: Option<&ProxySettings>,
    server: &str,
    backup_exists: bool,
    current: Option<String>,
    ours: bool,
    stale: bool,
)
    requires
        call_ensures(current_system_proxy, (settings,), current),
        call_ensures(is_our_proxy, (settings, server), ours),
        call_ensures(recover_stale_takeover, (settings, server, backup_exists), stale),
    ensures
        current is Some <==> settings is Some && settings->0.enabled is Some
            && settings->0.enabled->0 != 0 && settings->0.server is Some,
        current matches Some(address) ==> address@ == settings->0.server->0@,
        ours <==> current is Some && current->0@ == server@,
        stale <==> ours && backup_exists,
{
    assert(opt_view(current) == active_proxy(opt_settings(settings)));
}

/// The command for the start of the system names the program in quotation marks, and asks for a
/// hidden window exactly where that is wanted; without one the entry goes.
pub proof fn law_startup_command_names_the_program(
    executable: Option<&str>,
    enabled: bool,
    minimized: bool,
    r: Result<StartupChange, SystemError>,
)
    requires
        call_ensures(set_startup, (executable, enabled, minimized), r),
    ensures
        r is Err <==> executable is None,
        (r matches Ok(StartupChange::Remove)) <==> executable is Some && !enabled,
        r matches Ok(StartupChange::Command(command)) ==> {
            let path = executable->0@;
            &&& command@.subrange(1, 1 + path.len() as int) == path
            &&& command@[0] == '"'
            &&& command@[1 + path.len() as int] == '"'
            &&& command@.skip(2 + path.len() as int) == (if minimized {
                " --minimized"@
            } else {
                Seq::empty()
            })
        },
{
    reveal_strlit("\"");
    reveal_strlit(" --minimized");
    if let Ok(StartupChange::Command(command)) = r {
        let path = executable->0@;
        assert(command@.subrange(1, 1 + path.len() as int) =~= path);
        assert(command@.skip(2 + path.len() as int) =~= (if minimized {
            " --minimized"@
        } else {
            Seq::empty()
        }));
    }
}

/// The application starts with the system exactly where the list holds an entry for it.
pub proof fn law_startup_is_the_entry(entry: Option<&str>, r: bool)
    requires
        call_ensures(startup_enabled, (entry,), r),
    ensures
        r <==> entry is Some,
{
}

/// What is told of a failed write ends with the detail.
pub proof fn law_failed_write_is_told(error: SystemError, r: String)
    requires
        call_ensures(SystemError::message, (&error,), r),
    ensures
        error matches SystemError::WriteFailed { detail } ==> crate::response::is_suffix(
            detail@,
            r@,
        ),
        error matches SystemError::NoSnapshot { server } ==> crate::response::is_prefix(
            "系统代理已经指向 "@ + server@,
            r@,
        ),
{
    crate::response::lemma_joined();
}

} // verus!
