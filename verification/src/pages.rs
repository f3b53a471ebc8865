//! What the pages of the window show, as texts and flags.

use crate::chart::SeriesPoint;
use crate::config::{
    action_views, rule_views, texts, ActionDefinition, ActionDefinitionView, AnalyticsConfig, Rule,
    RuleView,
};
use crate::editor::RuleEditor;
use crate::shell::{Page, Shell, ShellView};
use crate::text::{contains_seq, decimal_text, digits, has_text, same_text};
use vstd::prelude::*;

verus! {

// ---------------------------------------------------------------------------
// The overview
// ---------------------------------------------------------------------------
/// What the switch of the overview shows.
#[derive(Debug)]
pub struct SwitchModel {
    /// Whether the water moves.
    pub lively: bool,
    pub status: &'static str,
    pub action: &'static str,
}

/// The texts of the switch: how protection is, and what a click does.
pub open spec fn switch_texts(state: ShellView) -> (Seq<char>, Seq<char>) {
    if state.system_proxy_active {
        ("保护运行中"@, "点击停止保护"@)
    } else if state.protection_pending {
        ("正在检查网络"@, "正在启动保护"@)
    } else {
        ("保护已关闭"@, "点击启动保护"@)
    }
}

/// What the switch of the overview shows.
pub fn protection_switch(shell: &Shell) -> (r: SwitchModel)
    ensures
        r.lively == (shell@.system_proxy_active || shell@.protection_pending),
        (r.status@, r.action@) == switch_texts(shell@),
{
    let lively = shell.system_proxy_active || shell.protection_pending;
    if shell.system_proxy_active {
        SwitchModel { lively, status: "保护运行中", action: "点击停止保护" }
    } else if shell.protection_pending {
        SwitchModel { lively, status: "正在检查网络", action: "正在启动保护" }
    } else {
        SwitchModel { lively, status: "保护已关闭", action: "点击启动保护" }
    }
}

/// What is told around the curve of the blocks.
#[derive(Debug)]
pub struct ChartModel {
    /// The label of the first point.
    pub first: String,
    /// The label of the last point.
    pub last: String,
    /// What stands between them.
    pub caption: &'static str,
    /// The count that reaches to the top; never 0.
    pub top: u64,
}

/// The greatest count of points, at least 1.
pub open spec fn top_count(series: Seq<SeriesPoint>) -> u64
    decreases series.len(),
{
    if series.len() == 0 {
        1
    } else if series.last().count > top_count(series.drop_last()) {
        series.last().count
    } else {
        top_count(series.drop_last())
    }
}

/// Whether no point counts anything.
pub open spec fn all_zero(series: Seq<SeriesPoint>) -> bool {
    forall|i: int| 0 <= i < series.len() ==> (#[trigger] series[i]).count == 0
}

/// What is told around the curve of the blocks.
pub fn trend_chart(series: &[SeriesPoint]) -> (r: ChartModel)
    ensures
        r.first@ == (if series@.len() > 0 {
            series@[0].label@
        } else {
            Seq::empty()
        }),
        r.last@ == (if series@.len() > 0 {
            series@.last().label@
        } else {
            Seq::empty()
        }),
        r.caption@ == (if all_zero(series@) {
            "暂无数据"@
        } else {
            "本机时间"@
        }),
        r.top == top_count(series@),
        r.top >= 1,
{
    let mut top: u64 = 1;
    let mut empty = true;
    let mut i: usize = 0;
    assert(series@.take(0) =~= Seq::<SeriesPoint>::empty());
    while i < series.len()
        invariant
            i <= series.len(),
            top >= 1,
            top == top_count(series@.take(i as int)),
            empty == (forall|j: int| 0 <= j < i ==> (#[trigger] series@[j]).count == 0),
        decreases series.len() - i,
    {
        assert(series@.take(i + 1).drop_last() =~= series@.take(i as int));
        assert(series@.take(i + 1).last() == series@[i as int]);
        let count: u64 = series[i].count;
        if count > top {
            top = count;
        }
        if count != 0 {
            assert(series@[i as int].count != 0);
            empty = false;
        }
        i += 1;
    }
    assert(series@.take(i as int) =~= series@);
    let n: usize = series.len();
    let first = if n > 0 {
        series[0].label.clone()
    } else {
        String::new()
    };
    let last = if n > 0 {
        series[n - 1].label.clone()
    } else {
        String::new()
    };
    let caption = if empty {
        "暂无数据"
    } else {
        "本机时间"
    };
    ChartModel { first, last, caption, top }
}

/// No point of a chart reaches over its top.
pub proof fn law_top_is_not_exceeded(series: Seq<SeriesPoint>, i: int)
    requires
        0 <= i < series.len(),
    ensures
        series[i].count <= top_count(series),
    decreases series.len(),
{
    if i < series.len() - 1 {
        law_top_is_not_exceeded(series.drop_last(), i);
        assert(series.drop_last()[i] == series[i]);
    }
}

/// The sum of the counts of points.
pub open spec fn counted(series: Seq<SeriesPoint>) -> nat
    decreases series.len(),
{
    if series.len() == 0 {
        0
    } else {
        counted(series.drop_last()) + series.last().count as nat
    }
}

proof fn lemma_counted_prefix(series: Seq<SeriesPoint>, n: int)
    requires
        0 <= n <= series.len(),
    ensures
        counted(series.take(n)) <= counted(series),
    decreases series.len() - n,
{
    if n < series.len() {
        lemma_counted_prefix(series, n + 1);
        assert(series.take(n + 1).drop_last() =~= series.take(n));
    } else {
        assert(series.take(n) =~= series);
    }
}

/// How many blocks a chart shows.
pub fn chart_total(series: &[SeriesPoint]) -> (r: u64)
    requires
        counted(series@) <= u64::MAX,
    ensures
        r == counted(series@),
{
    let mut sum: u64 = 0;
    let mut i: usize = 0;
    assert(series@.take(0) =~= Seq::<SeriesPoint>::empty());
    while i < series.len()
        invariant
            i <= series.len(),
            counted(series@) <= u64::MAX,
            sum == counted(series@.take(i as int)),
        decreases series.len() - i,
    {
        assert(series@.take(i + 1).drop_last() =~= series@.take(i as int));
        assert(series@.take(i + 1).last() == series@[i as int]);
        proof {
            lemma_counted_prefix(series@, i + 1);
        }
        sum += series[i].count;
        i += 1;
    }
    assert(series@.take(i as int) =~= series@);
    sum
}

/// How many rules are switched on.
pub open spec fn enabled_rules(rules: Seq<RuleView>) -> nat
    decreases rules.len(),
{
    if rules.len() == 0 {
        0
    } else {
        enabled_rules(rules.drop_last()) + (if rules.last().enabled {
            1nat
        } else {
            0nat
        })
    }
}

/// How many actions are switched on.
pub open spec fn enabled_actions(actions: Seq<ActionDefinitionView>) -> nat
    decreases actions.len(),
{
    if actions.len() == 0 {
        0
    } else {
        enabled_actions(actions.drop_last()) + (if actions.last().enabled {
            1nat
        } else {
            0nat
        })
    }
}

/// How many rules are switched on.
pub fn active_rules(rules: &[Rule]) -> (r: usize)
    ensures
        r == enabled_rules(rule_views(rules@)),
{
    let ghost all = rule_views(rules@);
    let mut count: usize = 0;
    let mut i: usize = 0;
    assert(all.take(0) =~= Seq::<RuleView>::empty());
    while i < rules.len()
        invariant
            i <= rules.len(),
            count <= i,
            all == rule_views(rules@),
            count == enabled_rules(all.take(i as int)),
        decreases rules.len() - i,
    {
        assert(all.take(i + 1).drop_last() =~= all.take(i as int));
        assert(all.take(i + 1).last() == rules@[i as int]@);
        if rules[i].enabled {
            count += 1;
        }
        i += 1;
    }
    assert(all.take(i as int) =~= all);
    count
}

/// How many actions are switched on.
pub fn active_actions(actions: &[ActionDefinition]) -> (r: usize)
    ensures
        r == enabled_actions(action_views(actions@)),
{
    let ghost all = action_views(actions@);
    let mut count: usize = 0;
    let mut i: usize = 0;
    assert(all.take(0) =~= Seq::<ActionDefinitionView>::empty());
    while i < actions.len()
        invariant
            i <= actions.len(),
            count <= i,
            all == action_views(actions@),
            count == enabled_actions(all.take(i as int)),
        decreases actions.len() - i,
    {
        assert(all.take(i + 1).drop_last() =~= all.take(i as int));
        assert(all.take(i + 1).last() == actions@[i as int]@);
        if actions[i].enabled {
            count += 1;
        }
        i += 1;
    }
    assert(all.take(i as int) =~= all);
    count
}

/// What the switch of the proxy alone shows.
pub fn listener_texts(running: bool) -> (r: (&'static str, &'static str))
    ensures
        running ==> r.0@ == "拦截引擎运行中"@ && r.1@ == "停止监听"@,
        !running ==> r.0@ == "拦截引擎已停止"@ && r.1@ == "启动监听"@,
{
    if running {
        ("拦截引擎运行中", "停止监听")
    } else {
        ("拦截引擎已停止", "启动监听")
    }
}

// ---------------------------------------------------------------------------
// Rules
// ---------------------------------------------------------------------------
/// A rule in the list of rules.
#[derive(Debug)]
pub struct RuleRow {
    pub id: String,
    pub pattern: String,
    pub enabled: bool,
    /// Whether it is the one that is edited.
    pub selected: bool,
}

/// An action that can be bound to a rule.
#[derive(Debug)]
pub struct ActionChoice {
    pub id: String,
    /// Whether it is bound.
    pub bound: bool,
    pub label: String,
}

/// What an action that can be bound is called.
pub open spec fn choice_text(id: Seq<char>, bound: bool) -> Seq<char> {
    if bound {
        "●  "@ + id
    } else {
        id
    }
}

/// The list of rules.
pub fn rule_rows(rules: &[Rule], editor: &RuleEditor) -> (r: Vec<RuleRow>)
    ensures
        r@.len() == rules@.len(),
        forall|i: int|
            0 <= i < r@.len() ==> {
                &&& (#[trigger] r@[i]).id@ == rules@[i].id@
                &&& r@[i].pattern@ == rules@[i].pattern@
                &&& r@[i].enabled == rules@[i].enabled
                &&& r@[i].selected == (editor@.selected is Some && editor@.selected->0 == i)
            },
{
    let mut out: Vec<RuleRow> = Vec::new();
    let mut i: usize = 0;
    while i < rules.len()
        invariant
            i <= rules.len(),
            out@.len() == i,
            forall|j: int|
                0 <= j < i ==> {
                    &&& (#[trigger] out@[j]).id@ == rules@[j].id@
                    &&& out@[j].pattern@ == rules@[j].pattern@
                    &&& out@[j].enabled == rules@[j].enabled
                    &&& out@[j].selected == (editor@.selected is Some && editor@.selected->0 == j)
                },
        decreases rules.len() - i,
    {
        let selected = match editor.selected {
            Some(k) => k == i,
            None => false,
        };
        out.push(
            RuleRow {
                id: rules[i].id.clone(),
                pattern: rules[i].pattern.clone(),
                enabled: rules[i].enabled,
                selected,
            },
        );
        i += 1;
    }
    out
}

/// How many rules there are, in words.
pub fn rule_count_label(count: usize) -> (r: String)
    ensures
        r@ == digits(count as nat) + " 条规则"@,
{
    let mut out = decimal_text(count as u64);
    out.append(" 条规则");
    out
}

fn binds(ids: &[String], id: &str) -> (r: bool)
    ensures
        r == texts(ids@).contains(id@),
{
    let ghost all = texts(ids@);
    let mut i: usize = 0;
    while i < ids.len()
        invariant
            i <= ids.len(),
            all == texts(ids@),
            forall|j: int| 0 <= j < i ==> #[trigger] all[j] != id@,
        decreases ids.len() - i,
    {
        assert(all[i as int] == ids@[i as int]@);
        if same_text(ids[i].as_str(), id) {
            assert(all.contains(id@));
            return true;
        }
        i += 1;
    }
    false
}

/// The actions that can be bound to the edited rule.
pub fn action_choices(actions: &[ActionDefinition], editor: &RuleEditor) -> (r: Vec<ActionChoice>)
    ensures
        r@.len() == actions@.len(),
        forall|i: int|
            0 <= i < r@.len() ==> {
                &&& (#[trigger] r@[i]).id@ == actions@[i].id@
                &&& r@[i].bound == editor@.actions.contains(actions@[i].id@)
                &&& r@[i].label@ == choice_text(r@[i].id@, r@[i].bound)
            },
{
    let mut out: Vec<ActionChoice> = Vec::new();
    let mut i: usize = 0;
    while i < actions.len()
        invariant
            i <= actions.len(),
            out@.len() == i,
            forall|j: int|
                0 <= j < i ==> {
                    &&& (#[trigger] out@[j]).id@ == actions@[j].id@
                    &&& out@[j].bound == editor@.actions.contains(actions@[j].id@)
                    &&& out@[j].label@ == choice_text(out@[j].id@, out@[j].bound)
                },
        decreases actions.len() - i,
    {
        let id = actions[i].id.clone();
        let bound = binds(editor.actions.as_slice(), id.as_str());
        let label = if bound {
            let mut text = "●  ".to_owned();
            text.append(id.as_str());
            text
        } else {
            id.clone()
        };
        out.push(ActionChoice { id, bound, label });
        i += 1;
    }
    out
}

/// Whether what the editor says is shown in the colour of success: it speaks of a match.
pub fn result_stands_out(editor: &RuleEditor) -> (r: bool)
    ensures
        r == contains_seq(editor@.result, "命中"@),
{
    has_text(editor.result.as_str(), "命中")
}

// ---------------------------------------------------------------------------
// Settings and navigation
// ---------------------------------------------------------------------------
/// The state of a setting and the label of its button.
#[derive(Debug)]
pub struct CardModel {
    pub state: &'static str,
    pub button: &'static str,
}

/// The setting of the system proxy.
pub fn takeover_card(active: bool) -> (r: CardModel)
    ensures
        active ==> r.state@ == "已接管"@ && r.button@ == "恢复"@,
        !active ==> r.state@ == "未接管"@ && r.button@ == "安全接管"@,
{
    if active {
        CardModel { state: "已接管", button: "恢复" }
    } else {
        CardModel { state: "未接管", button: "安全接管" }
    }
}

/// The setting of the start with the system.
pub fn startup_card(enabled: bool) -> (r: CardModel)
    ensures
        enabled ==> r.state@ == "已启用"@ && r.button@ == "关闭"@,
        !enabled ==> r.state@ == "未启用"@ && r.button@ == "启用"@,
{
    if enabled {
        CardModel { state: "已启用", button: "关闭" }
    } else {
        CardModel { state: "未启用", button: "启用" }
    }
}

/// The settings of the statistics.
#[derive(Debug)]
pub struct DataModel {
    pub logging: &'static str,
    pub detail_days: String,
    pub aggregate_days: String,
}

fn days_label(days: u32) -> (r: String)
    ensures
        r@ == digits(days as nat) + " 天"@,
{
    let mut out = decimal_text(days as u64);
    out.append(" 天");
    out
}

/// The settings of the statistics.
pub fn data_settings(analytics: &AnalyticsConfig) -> (r: DataModel)
    ensures
        r.logging@ == (if analytics.detailed_logging {
            "开启"@
        } else {
            "关闭"@
        }),
        r.detail_days@ == digits(analytics.detailed_retention_days as nat) + " 天"@,
        r.aggregate_days@ == digits(analytics.aggregate_retention_days as nat) + " 天"@,
{
    DataModel {
        logging: if analytics.detailed_logging {
            "开启"
        } else {
            "关闭"
        },
        detail_days: days_label(analytics.detailed_retention_days),
        aggregate_days: days_label(analytics.aggregate_retention_days),
    }
}

/// The badge of the page of the responses: how many are unread.
pub open spec fn badge_text(unread: u32) -> Option<Seq<char>> {
    if unread == 0 {
        None
    } else if unread > 99 {
        Some("99+"@)
    } else {
        Some(digits(unread as nat))
    }
}

/// The badge of the page of the responses.
pub fn unread_badge(unread: u32) -> (r: Option<String>)
    ensures
        crate::foreign::opt_view(r) == badge_text(unread),
{
    if unread == 0 {
        None
    } else if unread > 99 {
        Some("99+".to_owned())
    } else {
        Some(decimal_text(unread as u64))
    }
}

/// What stands in the bar over a page: the button, and whether the page is named.
#[derive(Debug)]
pub struct TitleModel {
    pub button: &'static str,
    /// Whether the button leads back from the settings, instead of to them.
    pub back: bool,
    pub named: bool,
}

/// What stands in the bar over a page.
pub fn title_bar(page: Page) -> (r: TitleModel)
    ensures
        r.back == (page == Page::Settings),
        r.button@ == (if r.back {
            "←"@
        } else {
            "⚙"@
        }),
        r.named == (page != Page::Rules),
{
    let back = page == Page::Settings;
    TitleModel {
        button: if back {
            "←"
        } else {
            "⚙"
        },
        back,
        named: page != Page::Rules,
    }
}

/// The line of a card that names the host, unless it is not kept.
pub fn toast_host(host: &str, redacted: bool) -> (r: String)
    ensures
        r@ == (if redacted {
            "详细日志已关闭"@
        } else {
            host@
        }),
{
    if redacted {
        "详细日志已关闭".to_owned()
    } else {
        host.to_owned()
    }
}

/// The numbers of active rules and actions count those that are switched on, and the total of a chart
/// is the sum of its points.
pub proof fn law_only_what_is_on_is_counted(
    rules: Seq<RuleView>,
    rule: RuleView,
    actions: Seq<ActionDefinitionView>,
    action: ActionDefinitionView,
    series: Seq<SeriesPoint>,
    point: SeriesPoint,
)
    ensures
        enabled_rules(Seq::<RuleView>::empty()) == 0,
        enabled_rules(rules.push(rule)) == enabled_rules(rules) + (if rule.enabled {
            1nat
        } else {
            0nat
        }),
        enabled_actions(Seq::<ActionDefinitionView>::empty()) == 0,
        enabled_actions(actions.push(action)) == enabled_actions(actions) + (if action.enabled {
            1nat
        } else {
            0nat
        }),
        counted(Seq::<SeriesPoint>::empty()) == 0,
        counted(series.push(point)) == counted(series) + point.count,
{
    assert(rules.push(rule).drop_last() =~= rules);
    assert(actions.push(action).drop_last() =~= actions);
    assert(series.push(point).drop_last() =~= series);
}

/// The top of a chart is reached by some point, or is 1.
pub proof fn law_top_is_reached(series: Seq<SeriesPoint>)
    ensures
        top_count(series) == 1 || exists|i: int|
            0 <= i < series.len() && (#[trigger] series[i]).count == top_count(series),
        top_count(series) >= 1,
    decreases series.len(),
{
    if series.len() > 0 {
        let front = series.drop_last();
        law_top_is_reached(front);
        if series.last().count > top_count(front) {
            assert(series[series.len() - 1].count == top_count(series));
        } else if top_count(front) != 1 {
            let i = choose|i: int|
                0 <= i < front.len() && (#[trigger] front[i]).count == top_count(front);
            assert(series[i].count == top_count(series));
        }
    }
}

/// The switch shows how protection is: on, being started, or off.
pub proof fn law_switch_shows_the_protection(shell: &Shell, r: SwitchModel)
    requires
        call_ensures(protection_switch, (shell,), r),
    ensures
        r.lively <==> shell.system_proxy_active || shell.protection_pending,
        shell.system_proxy_active ==> r.status@ == "保护运行中"@ && r.action@ == "点击停止保护"@,
        !shell.system_proxy_active && shell.protection_pending ==> r.status@ == "正在检查网络"@
            && r.action@ == "正在启动保护"@,
        !shell.system_proxy_active && !shell.protection_pending ==> r.status@ == "保护已关闭"@
            && r.action@ == "点击启动保护"@,
{
}

/// The badge shows the number of unread responses, up to ninety-nine, and is gone without any.
pub proof fn law_badge_shows_the_number(unread: u32, r: Option<String>)
    requires
        call_ensures(unread_badge, (unread,), r),
    ensures
        r is None <==> unread == 0,
        r matches Some(text) ==> (unread <= 99 ==> text@ == digits(unread as nat)),
        r matches Some(text) ==> (unread > 99 ==> text@ == "99+"@),
{
}

/// The page of the rules shows each rule as it is, and marks the one that is edited; the choice of
/// actions marks those that the draft has.
pub proof fn law_rules_and_actions_are_shown(
    rules: &[Rule],
    actions: &[ActionDefinition],
    editor: &RuleEditor,
    rows: Vec<RuleRow>,
    choices: Vec<ActionChoice>,
    i: int,
)
    requires
        call_ensures(rule_rows, (rules, editor), rows),
        call_ensures(action_choices, (actions, editor), choices),
        i >= 0,
    ensures
        rows@.len() == rules@.len(),
        choices@.len() == actions@.len(),
        i < rows@.len() ==> {
            &&& rows@[i].id@ == rules@[i].id@
            &&& rows@[i].pattern@ == rules@[i].pattern@
            &&& rows@[i].enabled == rules@[i].enabled
            &&& rows@[i].selected <==> editor.selected is Some && editor.selected->0 == i
        },
        i < choices@.len() ==> {
            &&& choices@[i].id@ == actions@[i].id@
            &&& choices@[i].bound <==> editor@.actions.contains(actions@[i].id@)
        },
{
}

/// A chart is labelled with its first and its last point, and says so where all its points are zero.
pub proof fn law_chart_is_labelled(series: &[SeriesPoint], r: ChartModel, i: int)
    requires
        call_ensures(trend_chart, (series,), r),
        0 <= i < series@.len(),
    ensures
        r.first@ == series@[0].label@,
        r.last@ == series@[series@.len() - 1].label@,
        r.top >= series@[i].count,
        series@[i].count > 0 ==> r.caption@ == "本机时间"@,
        (forall|j: int| 0 <= j < series@.len() ==> (#[trigger] series@[j]).count == 0) ==> r.caption@
            == "暂无数据"@,
{
    law_top_is_not_exceeded(series@, i);
}

/// Switches offer the opposite of what is on.
pub proof fn law_cards_offer_the_opposite(
    on: bool,
    engine: (&'static str, &'static str),
    takeover: CardModel,
    startup: CardModel,
)
    requires
        call_ensures(listener_texts, (on,), engine),
        call_ensures(takeover_card, (on,), takeover),
        call_ensures(startup_card, (on,), startup),
    ensures
        on ==> engine.1@ == "停止监听"@ && takeover.button@ == "恢复"@ && startup.button@
            == "关闭"@,
        !on ==> engine.1@ == "启动监听"@ && takeover.button@ == "安全接管"@
            && startup.button@ == "启用"@,
        on ==> engine.0@ == "拦截引擎运行中"@ && takeover.state@ == "已接管"@ && startup.state@
            == "已启用"@,
        !on ==> engine.0@ == "拦截引擎已停止"@ && takeover.state@ == "未接管"@
            && startup.state@ == "未启用"@,
{
}

/// The host of a card is not shown where details are not kept, whatever it is.
pub proof fn law_redacted_host_is_not_shown(
    host: &str,
    other: &str,
    hidden: String,
    hidden_too: String,
    shown: String,
)
    requires
        call_ensures(toast_host, (host, true), hidden),
        call_ensures(toast_host, (other, true), hidden_too),
        call_ensures(toast_host, (host, false), shown),
    ensures
        hidden@ == hidden_too@,
        shown@ == host@,
{
}

} // verus!
