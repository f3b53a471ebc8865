//! Changes of the settings, and how settings are named.

use crate::config::{
    action_views, find_action, ActionDefinitionView, AnalyticsConfig, AppConfig, AppConfigView,
    MatchMode, MatchTarget, NetworkMode, ProxyConfigView,
};
use crate::events::{ActionExecutionStatus, ActionExecutionSummary, ActionSurface, SummaryView};
use crate::foreign::opt_view;
use crate::shell::Page;
use crate::text::{begins_with, chars_of, decimal_text, digits, same_text, text_of, trim, trimmed};
use vstd::prelude::*;

verus! {

// ---------------------------------------------------------------------------
// Changes
// ---------------------------------------------------------------------------
/// The mode that follows a mode when it is switched.
pub open spec fn mode_after(mode: NetworkMode) -> NetworkMode {
    match mode {
        NetworkMode::Auto => NetworkMode::Direct,
        NetworkMode::Direct => NetworkMode::Http,
        NetworkMode::Http => NetworkMode::Socks5,
        NetworkMode::Socks5 => NetworkMode::Auto,
    }
}

/// The days for details that follow when they are switched.
pub open spec fn detail_days_after(days: u32) -> u32 {
    if days == 1 {
        7
    } else if days == 7 {
        30
    } else {
        1
    }
}

/// The days for statistics that follow when they are switched.
pub open spec fn aggregate_days_after(days: u32) -> u32 {
    if days == 30 {
        90
    } else if days == 90 {
        180
    } else {
        30
    }
}

/// The upstream proxy that an input stands for: none where it is blank.
pub open spec fn upstream_of(input: Seq<char>) -> Option<Seq<char>> {
    if trim(input).len() > 0 {
        Some(trim(input))
    } else {
        None
    }
}

/// An action that is switched on and uses a source.
pub open spec fn using(action: ActionDefinitionView, source: Seq<char>) -> ActionDefinitionView {
    ActionDefinitionView {
        enabled: true,
        params: action.params.insert("source"@, source),
        ..action
    }
}

/// The actions, of which the first with an id is switched on and uses a source.
pub open spec fn with_source(
    actions: Seq<ActionDefinitionView>,
    id: Seq<char>,
    source: Seq<char>,
) -> Seq<ActionDefinitionView>
    decreases actions.len(),
{
    if actions.len() == 0 {
        actions
    } else if actions[0].id == id {
        actions.update(0, using(actions[0], source))
    } else {
        seq![actions[0]] + with_source(actions.drop_first(), id, source)
    }
}

impl AppConfig {
    /// Switches the mode of the way out.
    pub fn cycle_network_mode(&mut self)
        ensures
            final(self)@ == (AppConfigView {
                proxy: ProxyConfigView {
                    network_mode: mode_after(old(self)@.proxy.network_mode),
                    ..old(self)@.proxy
                },
                ..old(self)@
            }),
    {
        self.proxy.network_mode =
        match self.proxy.network_mode {
            NetworkMode::Auto => NetworkMode::Direct,
            NetworkMode::Direct => NetworkMode::Http,
            NetworkMode::Http => NetworkMode::Socks5,
            NetworkMode::Socks5 => NetworkMode::Auto,
        };
    }

    /// Sets the upstream proxy to what was put in.
    pub fn set_upstream(&mut self, input: &str)
        ensures
            final(self)@ == (AppConfigView {
                proxy: ProxyConfigView {
                    upstream_proxy: upstream_of(input@),
                    ..old(self)@.proxy
                },
                ..old(self)@
            }),
    {
        let value = text_of(trimmed(chars_of(input).as_slice()));
        proof {
            reveal_strlit("");
        }
        assert(value@.len() == 0 ==> value@ =~= ""@);
        self.proxy.upstream_proxy =
        if same_text(value.as_str(), "") {
            None
        } else {
            Some(value)
        };
    }

    /// Switches detailed logging.
    pub fn toggle_detailed_logging(&mut self)
        ensures
            final(self)@ == (AppConfigView {
                analytics: AnalyticsConfig {
                    detailed_logging: !old(self)@.analytics.detailed_logging,
                    ..old(self)@.analytics
                },
                ..old(self)@
            }),
    {
        self.analytics.detailed_logging = !self.analytics.detailed_logging;
    }

    /// Switches for how many days details are kept.
    pub fn cycle_detail_retention(&mut self)
        ensures
            final(self)@ == (AppConfigView {
                analytics: AnalyticsConfig {
                    detailed_retention_days: detail_days_after(
                        old(self)@.analytics.detailed_retention_days,
                    ),
                    ..old(self)@.analytics
                },
                ..old(self)@
            }),
    {
        let days: u32 = self.analytics.detailed_retention_days;
        self.analytics.detailed_retention_days =
        if days == 1 {
            7
        } else if days == 7 {
            30
        } else {
            1
        };
    }

    /// Switches for how many days statistics are kept.
    pub fn cycle_aggregate_retention(&mut self)
        ensures
            final(self)@ == (AppConfigView {
                analytics: AnalyticsConfig {
                    aggregate_retention_days: aggregate_days_after(
                        old(self)@.analytics.aggregate_retention_days,
                    ),
                    ..old(self)@.analytics
                },
                ..old(self)@
            }),
    {
        let days: u32 = self.analytics.aggregate_retention_days;
        self.analytics.aggregate_retention_days =
        if days == 30 {
            90
        } else if days == 90 {
            180
        } else {
            30
        };
    }

    /// Switches an action on and lets it use a source.
    pub fn set_action_source(&mut self, action_id: &str, source: &str)
        ensures
            final(self)@ == (AppConfigView {
                actions: with_source(old(self)@.actions, action_id@, source@),
                ..old(self)@
            }),
    {
        let ghost all = self@.actions;
        let mut i: usize = 0;
        assert(all.skip(0) =~= all);
        assert(all =~= all.take(0) + all.skip(0));
        assert(all.take(0) + with_source(all, action_id@, source@) =~= with_source(
            all,
            action_id@,
            source@,
        ));
        while i < self.actions.len()
            invariant
                i <= self.actions@.len(),
                self@ == old(self)@,
                all == action_views(self.actions@),
                all == old(self)@.actions,
                with_source(all, action_id@, source@) == all.take(i as int) + with_source(
                    all.skip(i as int),
                    action_id@,
                    source@,
                ),
            decreases self.actions@.len() - i,
        {
            let ghost rest = all.skip(i as int);
            assert(rest[0] == self.actions@[i as int]@);
            assert(rest.drop_first() =~= all.skip(i + 1));
            if same_text(self.actions[i].id.as_str(), action_id) {
                let mut action = self.actions[i].clone();
                action.enabled = true;
                action.params.insert("source".to_owned(), source.to_owned());
                assert(action@ == using(all[i as int], source@));
                self.actions.set(i, action);
                assert(action_views(self.actions@) =~= all.take(i as int) + rest.update(
                    0,
                    using(rest[0], source@),
                ));
                return ;
            }
            assert(all.take(i as int) + (seq![rest[0]] + with_source(
                rest.drop_first(),
                action_id@,
                source@,
            )) =~= all.take(i + 1) + with_source(all.skip(i + 1), action_id@, source@));
            i += 1;
        }
        assert(all.skip(i as int).len() == 0);
        assert(all.take(i as int) + with_source(all.skip(i as int), action_id@, source@) =~= all);
    }
}

/// Switching the mode of the way out comes back to the same mode after the four of them.
pub proof fn law_modes_go_round(mode: NetworkMode)
    ensures
        mode_after(mode_after(mode_after(mode_after(mode)))) == mode,
        mode_after(mode) != mode,
{
}

/// Switching the days leads to one of the three choices, and from those goes round.
pub proof fn law_retention_goes_round(days: u32)
    ensures
        detail_days_after(detail_days_after(detail_days_after(detail_days_after(days))))
            == detail_days_after(days),
        aggregate_days_after(aggregate_days_after(aggregate_days_after(aggregate_days_after(days))))
            == aggregate_days_after(days),
{
}

/// After an action was given a source, it is switched on and has that source, if there is such an
/// action; the ids stay as they are.
pub proof fn law_source_is_used(actions: Seq<ActionDefinitionView>, id: Seq<char>, source: Seq<char>)
    ensures
        with_source(actions, id, source).len() == actions.len(),
        match find_action(actions, id) {
            Some(action) => find_action(with_source(actions, id, source), id) == Some(
                using(action, source),
            ),
            None => with_source(actions, id, source) == actions,
        },
    decreases actions.len(),
{
    if actions.len() > 0 && actions[0].id != id {
        law_source_is_used(actions.drop_first(), id, source);
        let after = with_source(actions, id, source);
        assert(after.drop_first() =~= with_source(actions.drop_first(), id, source));
        assert(after[0] == actions[0]);
        assert(seq![actions[0]] + actions.drop_first() =~= actions);
    }
}

// ---------------------------------------------------------------------------
// Names
// ---------------------------------------------------------------------------
/// What an action uses.
#[derive(Debug)]
pub enum Resource {
    /// There is no such action.
    Missing,
    Builtin,
    File(String),
}

/// The source of an action, nothing where it has none.
pub open spec fn action_source(action: ActionDefinitionView) -> Seq<char> {
    if action.params.contains_key("source"@) {
        action.params["source"@]
    } else {
        Seq::empty()
    }
}

/// Whether a source is a built-in one.
pub open spec fn builtin_source(source: Seq<char>) -> bool {
    source.len() == 0 || "builtin:"@.is_prefix_of(source)
}

/// What an action uses.
pub fn action_resource(config: &AppConfig, action_id: &str) -> (r: Resource)
    ensures
        match find_action(config@.actions, action_id@) {
            None => r is Missing,
            Some(action) => if builtin_source(action_source(action)) {
                r is Builtin
            } else {
                r matches Resource::File(source) && source@ == action_source(action)
            },
        },
{
    match config.action(action_id) {
        None => Resource::Missing,
        Some(action) => match action.params.get("source") {
            None => Resource::Builtin,
            Some(source) => {
                proof {
                    reveal_strlit("");
                }
                assert(source@.len() == 0 ==> source@ =~= ""@);
                if same_text(source.as_str(), "") || begins_with(source.as_str(), "builtin:") {
                    Resource::Builtin
                } else {
                    Resource::File(source.clone())
                }
            },
        },
    }
}

/// How a resource is shown.
pub open spec fn resource_text(resource: Resource, file_name: Option<Seq<char>>) -> Seq<char> {
    match resource {
        Resource::Missing => "未配置"@,
        Resource::Builtin => "● 内置默认"@,
        Resource::File(source) => "● "@ + match file_name {
            Some(name) => name,
            None => source@,
        },
    }
}

/// How a resource is shown. `file_name` is the last part of the path of a file, as the platform sees
/// it.
pub fn action_resource_label(resource: &Resource, file_name: Option<String>) -> (r: String)
    ensures
        r@ == resource_text(*resource, opt_view(file_name)),
{
    match resource {
        Resource::Missing => "未配置".to_owned(),
        Resource::Builtin => "● 内置默认".to_owned(),
        Resource::File(source) => {
            let mut out = "● ".to_owned();
            match file_name {
                Some(name) => out.append(name.as_str()),
                None => out.append(source.as_str()),
            }
            out
        },
    }
}

/// The name of a mode of the way out.
pub open spec fn mode_text(mode: NetworkMode) -> Seq<char> {
    match mode {
        NetworkMode::Auto => "自动：系统代理 / TUN / VPN"@,
        NetworkMode::Direct => "直接：当前系统路由"@,
        NetworkMode::Http => "指定 HTTP 上游"@,
        NetworkMode::Socks5 => "指定 SOCKS5 上游"@,
    }
}

/// The name of a mode of the way out.
pub fn network_mode_label(mode: NetworkMode) -> (r: &'static str)
    ensures
        r@ == mode_text(mode),
{
    match mode {
        NetworkMode::Auto => "自动：系统代理 / TUN / VPN",
        NetworkMode::Direct => "直接：当前系统路由",
        NetworkMode::Http => "指定 HTTP 上游",
        NetworkMode::Socks5 => "指定 SOCKS5 上游",
    }
}

/// The name of a status.
pub open spec fn status_label(status: ActionExecutionStatus) -> Seq<char> {
    match status {
        ActionExecutionStatus::Succeeded => "成功"@,
        ActionExecutionStatus::Failed => "失败"@,
        ActionExecutionStatus::Unsupported => "不支持"@,
        ActionExecutionStatus::Skipped => "已跳过"@,
    }
}

/// The name of a status.
pub fn action_status_label(status: ActionExecutionStatus) -> (r: &'static str)
    ensures
        r@ == status_label(status),
{
    match status {
        ActionExecutionStatus::Succeeded => "成功",
        ActionExecutionStatus::Failed => "失败",
        ActionExecutionStatus::Unsupported => "不支持",
        ActionExecutionStatus::Skipped => "已跳过",
    }
}

/// The name of a surface.
pub open spec fn surface_label(surface: ActionSurface) -> Seq<char> {
    match surface {
        ActionSurface::BrowserPage => "浏览器页面"@,
        ActionSurface::InAppCard => "应用内卡片"@,
        ActionSurface::LocalAudio => "本机音频"@,
        ActionSurface::ConnectionBlock => "连接阻断"@,
    }
}

/// The name of a surface.
pub fn action_surface_label(surface: ActionSurface) -> (r: &'static str)
    ensures
        r@ == surface_label(surface),
{
    match surface {
        ActionSurface::BrowserPage => "浏览器页面",
        ActionSurface::InAppCard => "应用内卡片",
        ActionSurface::LocalAudio => "本机音频",
        ActionSurface::ConnectionBlock => "连接阻断",
    }
}

/// The line over a page.
pub fn page_label(page: Page) -> (r: &'static str)
    ensures
        r@ == match page {
            Page::Overview => "Protection Overview"@,
            Page::Rules => ""@,
            Page::Actions => "Configure Response Actions"@,
            Page::Settings => "Application Settings"@,
        },
{
    match page {
        Page::Overview => "Protection Overview",
        Page::Rules => "",
        Page::Actions => "Configure Response Actions",
        Page::Settings => "Application Settings",
    }
}

/// The short names of target and mode of a rule.
pub open spec fn rule_kind_text(target: MatchTarget, mode: MatchMode) -> Seq<char> {
    let target_name = match target {
        MatchTarget::Host => "HOST"@,
        MatchTarget::Url => "URL"@,
        MatchTarget::Path => "PATH"@,
        MatchTarget::Header => "HEADER"@,
    };
    let mode_name = match mode {
        MatchMode::Exact => "exact"@,
        MatchMode::Contains => "contains"@,
        MatchMode::Glob => "glob"@,
        MatchMode::Regex => "regex"@,
    };
    target_name + " · "@ + mode_name
}

/// The short names of target and mode of a rule.
pub fn rule_kind_label(target: MatchTarget, mode: MatchMode) -> (r: String)
    ensures
        r@ == rule_kind_text(target, mode),
{
    let mut out = match target {
        MatchTarget::Host => "HOST".to_owned(),
        MatchTarget::Url => "URL".to_owned(),
        MatchTarget::Path => "PATH".to_owned(),
        MatchTarget::Header => "HEADER".to_owned(),
    };
    out.append(" · ");
    match mode {
        MatchMode::Exact => out.append("exact"),
        MatchMode::Contains => out.append("contains"),
        MatchMode::Glob => out.append("glob"),
        MatchMode::Regex => out.append("regex"),
    }
    out
}

/// The heading of a card: how often the block happened.
pub open spec fn headline_text(hits: u64) -> Seq<char> {
    if hits > 1 {
        "Action 响应 · "@ + digits(hits as nat) + " 次"@
    } else {
        "Action 响应"@
    }
}

/// The heading of a card.
pub fn toast_headline(hits: u64) -> (r: String)
    ensures
        r@ == headline_text(hits),
{
    if hits > 1 {
        let mut out = "Action 响应 · ".to_owned();
        out.append(decimal_text(hits).as_str());
        out.append(" 次");
        out
    } else {
        "Action 响应".to_owned()
    }
}

/// The status on a card: that of the first outcome.
pub open spec fn card_status(results: Seq<SummaryView>) -> Seq<char> {
    if results.len() > 0 {
        status_label(results[0].status) + " · "@ + surface_label(results[0].surface)
    } else {
        "已记录"@
    }
}

/// The status on a card.
pub fn toast_status(results: &[ActionExecutionSummary]) -> (r: String)
    ensures
        r@ == card_status(crate::events::summaries(results@)),
{
    if results.len() > 0 {
        let ghost all = crate::events::summaries(results@);
        assert(all[0] == results@[0]@);
        let mut out = action_status_label(results[0].status).to_owned();
        out.append(" · ");
        out.append(action_surface_label(results[0].surface));
        out
    } else {
        "已记录".to_owned()
    }
}

/// Setting the source of an action switches it on and has it use the source, and changes nothing else
/// of it, and no other action; of actions of one name it is the first.
pub proof fn law_only_the_source_changes(
    actions: Seq<ActionDefinitionView>,
    id: Seq<char>,
    source: Seq<char>,
    i: int,
)
    requires
        0 <= i < actions.len(),
    ensures
        ({
            let after = with_source(actions, id, source);
            let first = actions[i].id == id && forall|k: int|
                0 <= k < i ==> (#[trigger] actions[k]).id != id;
            &&& after.len() == actions.len()
            &&& !first ==> after[i] == actions[i]
            &&& first ==> {
                &&& after[i].id == actions[i].id
                &&& after[i].kind == actions[i].kind
                &&& after[i].enabled
                &&& after[i].params.contains_key("source"@)
                &&& after[i].params["source"@] == source
                &&& forall|name: Seq<char>|
                    name != "source"@ ==> after[i].params.contains_key(name)
                        == actions[i].params.contains_key(name) && (
                    #[trigger] after[i].params.contains_key(name) ==> after[i].params[name]
                        == actions[i].params[name])
            }
        }),
    decreases actions.len(),
{
    law_source_is_used(actions, id, source);
    if actions[0].id != id {
        let rest = actions.drop_first();
        if i > 0 {
            law_only_the_source_changes(rest, id, source, i - 1);
            assert(rest[i - 1] == actions[i]);
            let first = forall|k: int| 0 <= k < i ==> (#[trigger] actions[k]).id != id;
            let first_rest = forall|k: int| 0 <= k < i - 1 ==> (#[trigger] rest[k]).id != id;
            if first_rest {
                assert forall|k: int| 0 <= k < i implies (#[trigger] actions[k]).id != id by {
                    if k > 0 {
                        assert(rest[k - 1] == actions[k]);
                    }
                }
            }
            if first {
                assert forall|k: int| 0 <= k < i - 1 implies (#[trigger] rest[k]).id != id by {
                    assert(rest[k] == actions[k + 1]);
                }
            }
            assert(with_source(actions, id, source)[i] == with_source(rest, id, source)[i - 1]);
        }
    }
}

/// The upstream that is put in is kept without the white space around it; nothing but white space is
/// none.
pub proof fn law_blank_upstream_is_none(input: Seq<char>)
    ensures
        upstream_of(input) is Some <==> exists|i: int|
            0 <= i < input.len() && !crate::text::is_white(#[trigger] input[i]),
        upstream_of(input) matches Some(value) ==> value == trim(input) && value.len() > 0,
{
    let (a, b) = crate::text::law_trimming_takes_what_is_around(input);
    if trim(input).len() > 0 {
        assert(trim(input)[0] == input[a]);
    }
}

/// The modes come one after the other, and so do the times for which details and statistics are kept.
pub proof fn law_choices_come_in_order(days: u32)
    ensures
        mode_after(NetworkMode::Auto) == NetworkMode::Direct,
        mode_after(NetworkMode::Direct) == NetworkMode::Http,
        mode_after(NetworkMode::Http) == NetworkMode::Socks5,
        detail_days_after(1) == 7,
        detail_days_after(7) == 30,
        days != 1 && days != 7 ==> detail_days_after(days) == 1,
        aggregate_days_after(30) == 90,
        aggregate_days_after(90) == 180,
        days != 30 && days != 90 ==> aggregate_days_after(days) == 30,
{
}

/// What an action uses is its source, and the built-in one where that is empty or says so.
pub proof fn law_resource_is_the_source(config: &AppConfig, action_id: &str, r: Resource)
    requires
        call_ensures(action_resource, (config, action_id), r),
    ensures
        match find_action(config@.actions, action_id@) {
            None => r is Missing,
            Some(action) => {
                let set = action.params.contains_key("source"@) && action.params["source"@].len()
                    > 0 && !"builtin:"@.is_prefix_of(action.params["source"@]);
                &&& r is File <==> set
                &&& r is Builtin <==> !set
                &&& r matches Resource::File(path) ==> path@ == action.params["source"@]
            },
        },
{
}

/// Each switch changes the one setting that it is for: the mode comes round after four steps, the
/// logging is turned over, and the times for which details and statistics are kept move on.
pub proof fn law_switches_change_one_setting(
    mode: &mut AppConfig,
    logging: &mut AppConfig,
    detail: &mut AppConfig,
    aggregate: &mut AppConfig,
)
    requires
        call_ensures(AppConfig::cycle_network_mode, (mode,), ()),
        call_ensures(AppConfig::toggle_detailed_logging, (logging,), ()),
        call_ensures(AppConfig::cycle_detail_retention, (detail,), ()),
        call_ensures(AppConfig::cycle_aggregate_retention, (aggregate,), ()),
    ensures
        final(mode)@.proxy.network_mode != old(mode)@.proxy.network_mode,
        mode_after(mode_after(mode_after(final(mode)@.proxy.network_mode))) == old(
            mode,
        )@.proxy.network_mode,
        old(mode)@.proxy.network_mode == NetworkMode::Socks5 <==> final(mode)@.proxy.network_mode
            == NetworkMode::Auto,
        final(mode)@.proxy.upstream_proxy == old(mode)@.proxy.upstream_proxy,
        final(mode)@.proxy.listen == old(mode)@.proxy.listen,
        final(mode)@.blacklist == old(mode)@.blacklist,
        final(mode)@.actions == old(mode)@.actions,
        final(mode)@.analytics == old(mode)@.analytics,
        final(logging)@.analytics.detailed_logging == !old(logging)@.analytics.detailed_logging,
        final(logging)@.proxy == old(logging)@.proxy,
        final(logging)@.blacklist == old(logging)@.blacklist,
        final(logging)@.actions == old(logging)@.actions,
        final(logging)@.analytics.detailed_retention_days == old(
            logging,
        )@.analytics.detailed_retention_days,
        final(detail)@.analytics.detailed_retention_days != old(
            detail,
        )@.analytics.detailed_retention_days,
        final(detail)@.analytics.aggregate_retention_days == old(
            detail,
        )@.analytics.aggregate_retention_days,
        final(detail)@.analytics.detailed_logging == old(detail)@.analytics.detailed_logging,
        final(detail)@.blacklist == old(detail)@.blacklist,
        final(aggregate)@.analytics.aggregate_retention_days != old(
            aggregate,
        )@.analytics.aggregate_retention_days,
        final(aggregate)@.analytics.detailed_retention_days == old(
            aggregate,
        )@.analytics.detailed_retention_days,
        final(aggregate)@.blacklist == old(aggregate)@.blacklist,
{
}

/// An upstream that is put in changes the upstream and nothing else, and a source that of its action.
pub proof fn law_inputs_change_one_setting(
    upstream: &mut AppConfig,
    input: &str,
    source: &mut AppConfig,
    action_id: &str,
    text: &str,
)
    requires
        call_ensures(AppConfig::set_upstream, (upstream, input), ()),
        call_ensures(AppConfig::set_action_source, (source, action_id, text), ()),
    ensures
        trim(input@).len() > 0 ==> final(upstream)@.proxy.upstream_proxy == Some(trim(input@)),
        trim(input@).len() == 0 ==> final(upstream)@.proxy.upstream_proxy is None,
        final(upstream)@.proxy.network_mode == old(upstream)@.proxy.network_mode,
        final(upstream)@.proxy.listen == old(upstream)@.proxy.listen,
        final(upstream)@.blacklist == old(upstream)@.blacklist,
        final(upstream)@.actions == old(upstream)@.actions,
        final(source)@.actions.len() == old(source)@.actions.len(),
        final(source)@.proxy == old(source)@.proxy,
        final(source)@.blacklist == old(source)@.blacklist,
{
    if old(source)@.actions.len() > 0 {
        law_only_the_source_changes(old(source)@.actions, action_id@, text@, 0);
    }
}

} // verus!
