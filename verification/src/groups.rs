//! Groups of blocked requests that follow each other.

use crate::analytics::{
    cutoff, event_views, named_protocol, newer, newest_first, parse_protocol, results_json,
    results_json_text, Analytics, EventView, StoredEvent, DAY_SECONDS,
};
use crate::events::{
    copy_summaries, summaries, ActionExecutionSummary, InterceptionProtocol, SummaryView,
};
use crate::text::same_text;
use vstd::prelude::*;

verus! {

/// Blocked requests of the same rule, host, protocol and outcomes in quick succession.
#[derive(Debug)]
pub struct ActionEventGroup {
    /// When the newest of them was blocked.
    pub occurred_at: i64,
    pub rule_id: String,
    pub host: String,
    pub path: String,
    pub protocol: InterceptionProtocol,
    pub action_results: Vec<ActionExecutionSummary>,
    /// How many there are.
    pub hit_count: u64,
    /// How many actions they had.
    pub action_count: u64,
    pub detail_redacted: bool,
    /// When the oldest of them was blocked.
    pub oldest_at: i64,
}

/// `ActionEventGroup` as a value.
#[verifier::ext_equal]
pub struct GroupView {
    pub occurred_at: i64,
    pub rule_id: Seq<char>,
    pub host: Seq<char>,
    pub path: Seq<char>,
    pub protocol: InterceptionProtocol,
    pub action_results: Seq<SummaryView>,
    pub hit_count: nat,
    pub action_count: nat,
    pub detail_redacted: bool,
    pub oldest_at: i64,
}

impl View for ActionEventGroup {
    type V = GroupView;

    open spec fn view(&self) -> GroupView {
        GroupView {
            occurred_at: self.occurred_at,
            rule_id: self.rule_id@,
            host: self.host@,
            path: self.path@,
            protocol: self.protocol,
            action_results: summaries(self.action_results@),
            hit_count: self.hit_count as nat,
            action_count: self.action_count as nat,
            detail_redacted: self.detail_redacted,
            oldest_at: self.oldest_at,
        }
    }
}

impl Clone for ActionEventGroup {
    fn clone(&self) -> (r: Self)
        ensures
            r@ == self@,
    {
        ActionEventGroup {
            occurred_at: self.occurred_at,
            rule_id: self.rule_id.clone(),
            host: self.host.clone(),
            path: self.path.clone(),
            protocol: self.protocol,
            action_results: copy_summaries(self.action_results.as_slice()),
            hit_count: self.hit_count,
            action_count: self.action_count,
            detail_redacted: self.detail_redacted,
            oldest_at: self.oldest_at,
        }
    }
}

/// The values of a list of groups.
pub open spec fn group_views(list: Seq<ActionEventGroup>) -> Seq<GroupView> {
    list.map_values(|g: ActionEventGroup| g@)
}

/// The group that shows the trial of an action.
pub open spec fn preview_group(summary: SummaryView, now: i64) -> GroupView {
    GroupView {
        occurred_at: now,
        rule_id: "Action 预览"@,
        host: "应用内预览"@,
        path: Seq::empty(),
        protocol: InterceptionProtocol::Unknown,
        action_results: seq![summary],
        hit_count: 1,
        action_count: 1,
        detail_redacted: false,
        oldest_at: now,
    }
}

impl ActionEventGroup {
    /// The group that shows the trial of an action.
    pub fn preview(summary: ActionExecutionSummary, now: i64) -> (r: ActionEventGroup)
        ensures
            r@ == preview_group(summary@, now),
    {
        let mut action_results: Vec<ActionExecutionSummary> = Vec::new();
        action_results.push(summary);
        assert(summaries(action_results@) =~= seq![summary@]);
        ActionEventGroup {
            occurred_at: now,
            rule_id: "Action 预览".to_owned(),
            host: "应用内预览".to_owned(),
            path: String::new(),
            protocol: InterceptionProtocol::Unknown,
            action_results,
            hit_count: 1,
            action_count: 1,
            detail_redacted: false,
            oldest_at: now,
        }
    }
}

/// How many events are looked at for groups.
pub const MAX_GROUPED_EVENTS: usize = 2000;

/// The events that are looked at for groups: the newest of those that are not too old.
pub open spec fn recent(events: Seq<EventView>, oldest: int) -> Seq<EventView>
    decreases events.len(),
{
    if events.len() == 0 {
        Seq::empty()
    } else {
        let before = recent(events.drop_last(), oldest);
        if events.last().occurred_at >= oldest && before.len() < MAX_GROUPED_EVENTS {
            before.push(events.last())
        } else {
            before
        }
    }
}

/// Whether an event belongs to a group: it is of the same rule, host, protocol and outcomes, and
/// not further from the oldest of the group than the window.
pub open spec fn belongs(group: GroupView, event: EventView, window: i64) -> bool {
    &&& group.rule_id == event.rule_id
    &&& group.host == event.host
    &&& group.protocol == named_protocol(event.protocol)
    &&& results_json(group.action_results) == results_json(event.action_results)
    &&& group.oldest_at - event.occurred_at <= window
}

/// The first group that an event belongs to.
pub open spec fn home(groups: Seq<GroupView>, event: EventView, window: i64) -> Option<int>
    decreases groups.len(),
{
    if groups.len() == 0 {
        None
    } else if belongs(groups[0], event, window) {
        Some(0)
    } else {
        match home(groups.drop_first(), event, window) {
            Some(i) => Some(i + 1),
            None => None,
        }
    }
}

/// A group of one event.
pub open spec fn group_of(event: EventView) -> GroupView {
    GroupView {
        occurred_at: event.occurred_at,
        rule_id: event.rule_id,
        host: event.host,
        path: event.path,
        protocol: named_protocol(event.protocol),
        action_results: event.action_results,
        hit_count: 1,
        action_count: event.action_count as nat,
        detail_redacted: event.detail_redacted != 0,
        oldest_at: event.occurred_at,
    }
}

/// A group with one more event.
pub open spec fn joined(group: GroupView, event: EventView) -> GroupView {
    GroupView {
        oldest_at: event.occurred_at,
        hit_count: group.hit_count + 1,
        action_count: group.action_count + event.action_count as nat,
        ..group
    }
}

/// The groups with one more event; where there are as many groups as are wanted, an event that
/// belongs to none of them is left out.
pub open spec fn grouped(
    groups: Seq<GroupView>,
    event: EventView,
    limit: usize,
    window: i64,
) -> Seq<GroupView> {
    match home(groups, event, window) {
        Some(i) => groups.update(i, joined(groups[i], event)),
        None => if groups.len() < limit {
            groups.push(group_of(event))
        } else {
            groups
        },
    }
}

/// The groups of events.
pub open spec fn groups_of(events: Seq<EventView>, limit: usize, window: i64) -> Seq<GroupView>
    decreases events.len(),
{
    if events.len() == 0 {
        Seq::empty()
    } else {
        grouped(groups_of(events.drop_last(), limit, window), events.last(), limit, window)
    }
}

/// The number of actions of events.
pub open spec fn total_actions(events: Seq<EventView>) -> nat
    decreases events.len(),
{
    if events.len() == 0 {
        0
    } else {
        total_actions(events.drop_last()) + events.last().action_count as nat
    }
}

/// The number of actions of groups.
pub open spec fn group_actions(groups: Seq<GroupView>) -> nat
    decreases groups.len(),
{
    if groups.len() == 0 {
        0
    } else {
        group_actions(groups.drop_last()) + groups.last().action_count
    }
}

/// The number of events in groups.
pub open spec fn group_hits(groups: Seq<GroupView>) -> nat
    decreases groups.len(),
{
    if groups.len() == 0 {
        0
    } else {
        group_hits(groups.drop_last()) + groups.last().hit_count
    }
}

proof fn lemma_home(groups: Seq<GroupView>, event: EventView, window: i64)
    ensures
        match home(groups, event, window) {
            Some(i) => 0 <= i < groups.len() && belongs(groups[i], event, window),
            None => forall|i: int|
                0 <= i < groups.len() ==> !belongs(#[trigger] groups[i], event, window),
        },
    decreases groups.len(),
{
    if groups.len() > 0 && !belongs(groups[0], event, window) {
        lemma_home(groups.drop_first(), event, window);
        if home(groups.drop_first(), event, window) is None {
            assert forall|i: int| 0 <= i < groups.len() implies !belongs(
                #[trigger] groups[i],
                event,
                window,
            ) by {
                if i > 0 {
                    assert(groups.drop_first()[i - 1] == groups[i]);
                }
            }
        }
    }
}

proof fn lemma_joined_sums(groups: Seq<GroupView>, i: int, event: EventView)
    requires
        0 <= i < groups.len(),
    ensures
        group_actions(groups.update(i, joined(groups[i], event))) == group_actions(groups)
            + event.action_count,
        group_hits(groups.update(i, joined(groups[i], event))) == group_hits(groups) + 1,
        groups[i].action_count <= group_actions(groups),
        groups[i].hit_count <= group_hits(groups),
    decreases groups.len(),
{
    let after = groups.update(i, joined(groups[i], event));
    if i == groups.len() - 1 {
        assert(after.drop_last() =~= groups.drop_last());
    } else {
        lemma_joined_sums(groups.drop_last(), i, event);
        assert(after.drop_last() =~= groups.drop_last().update(i, joined(groups[i], event)));
        assert(after.last() == groups.last());
    }
}

proof fn lemma_grouped_sums(groups: Seq<GroupView>, event: EventView, limit: usize, window: i64)
    ensures
        group_actions(grouped(groups, event, limit, window)) <= group_actions(groups)
            + event.action_count,
        group_hits(grouped(groups, event, limit, window)) <= group_hits(groups) + 1,
        home(groups, event, window) is Some ==> group_hits(grouped(groups, event, limit, window))
            == group_hits(groups) + 1,
        home(groups, event, window) is Some ==> group_actions(
            grouped(groups, event, limit, window),
        ) == group_actions(groups) + event.action_count,
        groups.len() < limit ==> group_hits(grouped(groups, event, limit, window)) == group_hits(
            groups,
        ) + 1,
        groups.len() < limit ==> group_actions(grouped(groups, event, limit, window))
            == group_actions(groups) + event.action_count,
{
    lemma_home(groups, event, window);
    match home(groups, event, window) {
        Some(i) => {
            lemma_joined_sums(groups, i, event);
        },
        None => {
            assert(groups.push(group_of(event)).drop_last() =~= groups);
        },
    }
}

proof fn lemma_groups_sums(events: Seq<EventView>, limit: usize, window: i64)
    ensures
        group_actions(groups_of(events, limit, window)) <= total_actions(events),
        group_hits(groups_of(events, limit, window)) <= events.len(),
    decreases events.len(),
{
    if events.len() > 0 {
        lemma_groups_sums(events.drop_last(), limit, window);
        lemma_grouped_sums(
            groups_of(events.drop_last(), limit, window),
            events.last(),
            limit,
            window,
        );
    }
}

proof fn lemma_total_prefix(events: Seq<EventView>, n: int)
    requires
        0 <= n <= events.len(),
    ensures
        total_actions(events.take(n)) <= total_actions(events),
    decreases events.len() - n,
{
    if n < events.len() {
        lemma_total_prefix(events, n + 1);
        assert(events.take(n + 1).drop_last() =~= events.take(n));
    } else {
        assert(events.take(n) =~= events);
    }
}

/// Finds the first group that an event belongs to.
fn find_home(groups: &[ActionEventGroup], event: &StoredEvent, window: i64) -> (r: Option<usize>)
    ensures
        match r {
            Some(i) => home(group_views(groups@), event@, window) == Some(i as int) && i
                < groups@.len(),
            None => home(group_views(groups@), event@, window) is None,
        },
{
    let ghost all = group_views(groups@);
    let protocol = parse_protocol(event.protocol.as_str());
    let signature = results_json_text(event.action_results.as_slice());
    let mut i: usize = 0;
    assert(all.skip(0) =~= all);
    while i < groups.len()
        invariant
            i <= groups.len(),
            all == group_views(groups@),
            protocol == named_protocol(event@.protocol),
            signature@ == results_json(event@.action_results),
            match home(all.skip(i as int), event@, window) {
                Some(k) => home(all, event@, window) == Some(k + i),
                None => home(all, event@, window) is None,
            },
        decreases groups.len() - i,
    {
        let group = &groups[i];
        assert(all.skip(i as int)[0] == group@);
        assert(all.skip(i as int).drop_first() =~= all.skip(i + 1));
        let near = (group.oldest_at as i128) - (event.occurred_at as i128) <= window as i128;
        if same_text(group.rule_id.as_str(), event.rule_id.as_str()) && same_text(
            group.host.as_str(),
            event.host.as_str(),
        ) && group.protocol == protocol && same_text(
            results_json_text(group.action_results.as_slice()).as_str(),
            signature.as_str(),
        ) && near {
            return Some(i);
        }
        i += 1;
    }
    None
}

impl Analytics {
    /// The newest groups of events: at most `limit` of them, of events that are not older than
    /// `retention_days`; events of a group follow each other within `window_seconds`.
    pub fn recent_action_groups(
        &self,
        now: i64,
        limit: usize,
        window_seconds: i64,
        retention_days: u32,
    ) -> (r: Vec<ActionEventGroup>)
        requires
            total_actions(recent(self@, cutoff(now, retention_days))) <= u64::MAX,
        ensures
            group_views(r@) == groups_of(
                recent(self@, cutoff(now, retention_days)),
                limit,
                window_seconds,
            ),
    {
        let events = self.events();
        let ghost all = self@;
        let ghost oldest_spec = cutoff(now, retention_days);
        let ghost chosen = recent(all, oldest_spec);
        assert(0 <= retention_days * DAY_SECONDS <= 86400 * 0xffff_ffff) by (nonlinear_arith)
            requires
                0 <= retention_days <= 0xffff_ffff,
                DAY_SECONDS == 86400,
        ;
        let oldest: i128 = (now as i128) - (retention_days as i128) * (DAY_SECONDS as i128);
        let mut groups: Vec<ActionEventGroup> = Vec::new();
        assert(group_views(groups@) =~= Seq::<GroupView>::empty());
        let mut looked: usize = 0;
        let mut i: usize = 0;
        assert(all.take(0) =~= Seq::<EventView>::empty());
        while i < events.len()
            invariant
                i <= events@.len(),
                all == event_views(events@),
                oldest == oldest_spec,
                chosen == recent(all, oldest_spec),
                total_actions(chosen) <= u64::MAX,
                looked == recent(all.take(i as int), oldest_spec).len(),
                looked <= MAX_GROUPED_EVENTS,
                group_views(groups@) == groups_of(
                    recent(all.take(i as int), oldest_spec),
                    limit,
                    window_seconds,
                ),
            decreases events@.len() - i,
        {
            let event = &events[i];
            let ghost before = recent(all.take(i as int), oldest_spec);
            let ghost after = recent(all.take(i + 1), oldest_spec);
            assert(all.take(i + 1).drop_last() =~= all.take(i as int));
            assert(all.take(i + 1).last() == event@);
            if event.occurred_at as i128 >= oldest && looked < MAX_GROUPED_EVENTS {
                proof {
                    assert(after == before.push(event@));
                    assert(after.drop_last() =~= before);
                    lemma_recent_is_prefix(all, oldest_spec, i + 1);
                    lemma_total_prefix(chosen, after.len() as int);
                    lemma_groups_sums(before, limit, window_seconds);
                    lemma_home(group_views(groups@), event@, window_seconds);
                }
                match find_home(groups.as_slice(), event, window_seconds) {
                    Some(k) => {
                        let ghost old_groups = group_views(groups@);
                        proof {
                            lemma_joined_sums(old_groups, k as int, event@);
                            assert(old_groups[k as int] == groups@[k as int]@);
                        }
                        let group = &groups[k];
                        let merged = ActionEventGroup {
                            occurred_at: group.occurred_at,
                            rule_id: group.rule_id.clone(),
                            host: group.host.clone(),
                            path: group.path.clone(),
                            protocol: group.protocol,
                            action_results: copy_summaries(group.action_results.as_slice()),
                            hit_count: group.hit_count + 1,
                            action_count: group.action_count + event.action_count,
                            detail_redacted: group.detail_redacted,
                            oldest_at: event.occurred_at,
                        };
                        assert(merged@ == joined(old_groups[k as int], event@));
                        groups.set(k, merged);
                        assert(group_views(groups@) =~= old_groups.update(k as int, merged@));
                    },
                    None => {
                        if groups.len() < limit {
                            let ghost old_groups = groups@;
                            let group = ActionEventGroup {
                                occurred_at: event.occurred_at,
                                rule_id: event.rule_id.clone(),
                                host: event.host.clone(),
                                path: event.path.clone(),
                                protocol: parse_protocol(event.protocol.as_str()),
                                action_results: copy_summaries(event.action_results.as_slice()),
                                hit_count: 1,
                                action_count: event.action_count,
                                detail_redacted: event.detail_redacted != 0,
                                oldest_at: event.occurred_at,
                            };
                            assert(group@ == group_of(event@));
                            groups.push(group);
                            assert(group_views(groups@) =~= group_views(old_groups).push(group@));
                        }
                    },
                }
                looked += 1;
            }
            i += 1;
        }
        assert(all.take(i as int) =~= all);
        groups
    }
}

impl Analytics {
    /// How many actions the events that are looked at for groups have had.
    fn recent_actions(&self, oldest: i128) -> (r: u128)
        ensures
            r == total_actions(recent(self@, oldest as int)),
    {
        let events = self.events();
        let ghost all = self@;
        let mut total: u128 = 0;
        let mut looked: usize = 0;
        let mut i: usize = 0;
        assert(all.take(0) =~= Seq::<EventView>::empty());
        while i < events.len()
            invariant
                i <= events@.len(),
                all == event_views(events@),
                looked == recent(all.take(i as int), oldest as int).len(),
                looked <= MAX_GROUPED_EVENTS,
                total == total_actions(recent(all.take(i as int), oldest as int)),
                total <= looked * u64::MAX,
            decreases events@.len() - i,
        {
            let ghost before = recent(all.take(i as int), oldest as int);
            assert(all.take(i + 1).drop_last() =~= all.take(i as int));
            assert(all.take(i + 1).last() == events@[i as int]@);
            if events[i].occurred_at as i128 >= oldest && looked < MAX_GROUPED_EVENTS {
                assert(before.push(events@[i as int]@).drop_last() =~= before);
                total += events[i].action_count as u128;
                looked += 1;
            }
            i += 1;
        }
        assert(all.take(i as int) =~= all);
        total
    }

    /// The newest groups of events, as `recent_action_groups` gives them; `None` where the events
    /// have had more actions than can be counted.
    pub fn countable_action_groups(
        &self,
        now: i64,
        limit: usize,
        window_seconds: i64,
        retention_days: u32,
    ) -> (r: Option<Vec<ActionEventGroup>>)
        ensures
            match r {
                Some(groups) => group_views(groups@) == groups_of(
                    recent(self@, cutoff(now, retention_days)),
                    limit,
                    window_seconds,
                ),
                None => total_actions(recent(self@, cutoff(now, retention_days))) > u64::MAX,
            },
    {
        assert(0 <= retention_days * DAY_SECONDS <= 86400 * 0xffff_ffff) by (nonlinear_arith)
            requires
                0 <= retention_days <= 0xffff_ffff,
                DAY_SECONDS == 86400,
        ;
        let oldest: i128 = (now as i128) - (retention_days as i128) * (DAY_SECONDS as i128);
        if self.recent_actions(oldest) > u64::MAX as u128 {
            return None;
        }
        Some(self.recent_action_groups(now, limit, window_seconds, retention_days))
    }
}

proof fn lemma_recent_is_prefix(events: Seq<EventView>, oldest: int, n: int)
    requires
        0 <= n <= events.len(),
    ensures
        recent(events.take(n), oldest).len() <= recent(events, oldest).len(),
        recent(events.take(n), oldest) == recent(events, oldest).take(
            recent(events.take(n), oldest).len() as int,
        ),
    decreases events.len() - n,
{
    if n < events.len() {
        lemma_recent_is_prefix(events, oldest, n + 1);
        assert(events.take(n + 1).drop_last() =~= events.take(n));
        let a = recent(events.take(n), oldest);
        let b = recent(events.take(n + 1), oldest);
        let c = recent(events, oldest);
        assert(b.take(a.len() as int) =~= a);
        assert(c.take(a.len() as int) =~= b.take(a.len() as int));
    } else {
        assert(events.take(n) =~= events);
        assert(recent(events, oldest).take(recent(events, oldest).len() as int) =~= recent(
            events,
            oldest,
        ));
    }
}

/// There are never more groups than wanted.
pub proof fn law_groups_are_limited(events: Seq<EventView>, limit: usize, window: i64)
    ensures
        groups_of(events, limit, window).len() <= limit,
    decreases events.len(),
{
    if events.len() > 0 {
        law_groups_are_limited(events.drop_last(), limit, window);
        lemma_home(groups_of(events.drop_last(), limit, window), events.last(), window);
    }
}

/// All the groups of events, however many there are.
pub open spec fn every_group(events: Seq<EventView>, window: i64) -> Seq<GroupView>
    decreases events.len(),
{
    if events.len() == 0 {
        Seq::empty()
    } else {
        let before = every_group(events.drop_last(), window);
        match home(before, events.last(), window) {
            Some(i) => before.update(i, joined(before[i], events.last())),
            None => before.push(group_of(events.last())),
        }
    }
}

/// With room for all groups, they are all there, and every event and all of its actions are counted
/// in exactly one of them.
pub proof fn law_groups_count_every_event(events: Seq<EventView>, limit: usize, window: i64)
    requires
        every_group(events, window).len() <= limit,
    ensures
        groups_of(events, limit, window) == every_group(events, window),
        group_hits(groups_of(events, limit, window)) == events.len(),
        group_actions(groups_of(events, limit, window)) == total_actions(events),
    decreases events.len(),
{
    if events.len() > 0 {
        lemma_home(every_group(events.drop_last(), window), events.last(), window);
        law_groups_count_every_event(events.drop_last(), limit, window);
        lemma_grouped_sums(
            groups_of(events.drop_last(), limit, window),
            events.last(),
            limit,
            window,
        );
    }
}

/// Whether groups are of the same rule, host, protocol and outcomes.
pub open spec fn alike(a: GroupView, b: GroupView) -> bool {
    &&& a.rule_id == b.rule_id
    &&& a.host == b.host
    &&& a.protocol == b.protocol
    &&& results_json(a.action_results) == results_json(b.action_results)
}

/// Whether groups stand newest first, those that are alike further apart than the window, and none
/// of them reaches back beyond a time.
pub open spec fn apart(groups: Seq<GroupView>, window: i64, since: int) -> bool {
    &&& forall|i: int|
        0 <= i < groups.len() ==> since <= (#[trigger] groups[i]).oldest_at
            <= groups[i].occurred_at
    &&& forall|i: int, j: int|
        0 <= i < j < groups.len() ==> {
            &&& (#[trigger] groups[i]).occurred_at >= (#[trigger] groups[j]).occurred_at
            &&& alike(groups[i], groups[j]) ==> groups[i].oldest_at - groups[j].occurred_at > window
        }
}

proof fn lemma_apart(events: Seq<EventView>, limit: usize, window: i64)
    requires
        newest_first(events),
    ensures
        events.len() > 0 ==> apart(
            groups_of(events, limit, window),
            window,
            events.last().occurred_at as int,
        ),
        events.len() == 0 ==> groups_of(events, limit, window).len() == 0,
    decreases events.len(),
{
    if events.len() > 0 {
        let earlier = events.drop_last();
        let event = events.last();
        let before = groups_of(earlier, limit, window);
        let after = groups_of(events, limit, window);
        let since = event.occurred_at as int;
        assert forall|i: int, j: int| 0 <= i < j < earlier.len() implies !newer(
            #[trigger] earlier[j],
            #[trigger] earlier[i],
        ) by {
            assert(!newer(events[j], events[i]));
        }
        lemma_apart(earlier, limit, window);
        if earlier.len() > 0 {
            assert(!newer(events[events.len() - 1], events[events.len() - 2]));
        }
        assert(apart(before, window, since));
        lemma_home(before, event, window);
        if let Some(k) = home(before, event, window) {
            assert(after[k] == joined(before[k], event));
            assert forall|j: int| k < j < before.len() implies !alike(
                before[k],
                #[trigger] before[j],
            ) by {
                assert(before[j].occurred_at >= since);
            }
        }
        assert forall|i: int, j: int| 0 <= i < j < after.len() implies {
            &&& (#[trigger] after[i]).occurred_at >= (#[trigger] after[j]).occurred_at
            &&& alike(after[i], after[j]) ==> after[i].oldest_at - after[j].occurred_at > window
        } by {
            if j < before.len() {
                assert(before[i].occurred_at >= before[j].occurred_at);
                assert(alike(after[i], after[j]) == alike(before[i], before[j]));
            } else {
                assert(!belongs(before[i], event, window));
            }
        }
    }
}

/// Of events that stand newest first the groups do too, and groups that are alike lie further apart
/// than the window: what happened in quick succession is in one group.
pub proof fn law_groups_stand_apart(
    events: Seq<EventView>,
    limit: usize,
    window: i64,
    i: int,
    j: int,
)
    requires
        newest_first(events),
        0 <= i < j < groups_of(events, limit, window).len(),
    ensures
        ({
            let groups = groups_of(events, limit, window);
            &&& groups[i].occurred_at >= groups[j].occurred_at
            &&& alike(groups[i], groups[j]) ==> groups[i].oldest_at - groups[j].occurred_at > window
        }),
{
    lemma_apart(events, limit, window);
}

proof fn lemma_recent_source(events: Seq<EventView>, oldest: int, k: int) -> (m: int)
    requires
        0 <= k < recent(events, oldest).len(),
    ensures
        0 <= m < events.len(),
        recent(events, oldest)[k] == events[m],
    decreases events.len(),
{
    if k < recent(events.drop_last(), oldest).len() {
        lemma_recent_source(events.drop_last(), oldest, k)
    } else {
        events.len() - 1
    }
}

/// The events that are looked at for groups stand newest first, as all events do.
pub proof fn law_recent_events_stay_newest_first(events: Seq<EventView>, oldest: int)
    requires
        newest_first(events),
    ensures
        newest_first(recent(events, oldest)),
    decreases events.len(),
{
    if events.len() > 0 {
        let earlier = events.drop_last();
        assert forall|i: int, j: int| 0 <= i < j < earlier.len() implies !newer(
            #[trigger] earlier[j],
            #[trigger] earlier[i],
        ) by {
            assert(!newer(events[j], events[i]));
        }
        law_recent_events_stay_newest_first(earlier, oldest);
        let before = recent(earlier, oldest);
        let all = recent(events, oldest);
        assert forall|i: int, j: int| 0 <= i < j < all.len() implies !newer(
            #[trigger] all[j],
            #[trigger] all[i],
        ) by {
            if j < before.len() {
                assert(!newer(before[j], before[i]));
            } else {
                let m = lemma_recent_source(earlier, oldest, i);
                assert(!newer(events[events.len() - 1], events[m]));
            }
        }
    }
}

/// A group does not reach over gaps: between its newest and its oldest event there is at most the
/// window for each event but the first.
pub proof fn law_group_has_no_gap(events: Seq<EventView>, limit: usize, window: i64, i: int)
    requires
        0 <= i < groups_of(events, limit, window).len(),
    ensures
        groups_of(events, limit, window)[i].hit_count >= 1,
        groups_of(events, limit, window)[i].occurred_at - groups_of(events, limit, window)[i].oldest_at
            <= (groups_of(events, limit, window)[i].hit_count - 1) * window,
    decreases events.len(),
{
    if events.len() > 0 {
        let before = groups_of(events.drop_last(), limit, window);
        let after = groups_of(events, limit, window);
        let event = events.last();
        lemma_home(before, event, window);
        match home(before, event, window) {
            Some(k) => {
                law_group_has_no_gap(events.drop_last(), limit, window, i);
                if k == i {
                    let h = before[i].hit_count as int;
                    let w = window as int;
                    assert((h - 1) * w + w == h * w) by (nonlinear_arith);
                    assert(after[i] == joined(before[i], event));
                }
            },
            None => {
                if i < before.len() {
                    law_group_has_no_gap(events.drop_last(), limit, window, i);
                    assert(after[i] == before[i]);
                } else {
                    assert(after[i] == group_of(event));
                    assert(0 * window == 0);
                }
            },
        }
    }
}

/// An event of another rule, host, protocol or other outcomes, or one beyond the window, never joins
/// a group.
pub proof fn law_different_events_are_apart(group: GroupView, event: EventView, window: i64)
    requires
        group.rule_id != event.rule_id || group.host != event.host || group.protocol
            != named_protocol(event.protocol) || results_json(group.action_results)
            != results_json(event.action_results) || group.oldest_at - event.occurred_at > window,
    ensures
        !belongs(group, event, window),
{
}

/// Every group shows the event that it began with: its time, rule, host, path, protocol and outcomes.
pub proof fn law_group_shows_its_first_event(
    events: Seq<EventView>,
    limit: usize,
    window: i64,
    i: int,
) -> (k: int)
    requires
        0 <= i < groups_of(events, limit, window).len(),
    ensures
        0 <= k < events.len(),
        ({
            let group = groups_of(events, limit, window)[i];
            let event = events[k];
            &&& group.occurred_at == event.occurred_at
            &&& group.rule_id == event.rule_id
            &&& group.host == event.host
            &&& group.path == event.path
            &&& group.protocol == (if event.protocol == "http"@ {
                InterceptionProtocol::Http
            } else if event.protocol == "https"@ {
                InterceptionProtocol::Https
            } else {
                InterceptionProtocol::Unknown
            })
            &&& group.action_results == event.action_results
            &&& group.detail_redacted <==> event.detail_redacted != 0
        }),
    decreases events.len(),
{
    let front = events.drop_last();
    let before = groups_of(front, limit, window);
    let event = events.last();
    lemma_home(before, event, window);
    if i < before.len() {
        law_group_shows_its_first_event(front, limit, window, i)
    } else {
        events.len() - 1
    }
}

/// The end of a group is the time of an event of the same rule and host, and so is its beginning.
pub proof fn law_group_ends_with_one_of_its_events(
    events: Seq<EventView>,
    limit: usize,
    window: i64,
    i: int,
) -> (k: int)
    requires
        0 <= i < groups_of(events, limit, window).len(),
    ensures
        0 <= k < events.len(),
        ({
            let group = groups_of(events, limit, window)[i];
            &&& group.oldest_at == events[k].occurred_at
            &&& group.rule_id == events[k].rule_id
            &&& group.host == events[k].host
            &&& results_json(group.action_results) == results_json(events[k].action_results)
        }),
    decreases events.len(),
{
    let front = events.drop_last();
    let before = groups_of(front, limit, window);
    let event = events.last();
    lemma_home(before, event, window);
    match home(before, event, window) {
        Some(h) => if h == i {
            events.len() - 1
        } else {
            law_group_ends_with_one_of_its_events(front, limit, window, i)
        },
        None => if i < before.len() {
            law_group_ends_with_one_of_its_events(front, limit, window, i)
        } else {
            events.len() - 1
        },
    }
}

/// An event of the same rule, host, protocol and outcomes as a group, and not further from its end
/// than the window, joins the groups that are there; any other begins one, if there is room.
pub proof fn law_event_joins_or_begins_a_group(
    events: Seq<EventView>,
    event: EventView,
    limit: usize,
    window: i64,
)
    ensures
        ({
            let before = groups_of(events, limit, window);
            let after = groups_of(events.push(event), limit, window);
            let near = exists|i: int|
                0 <= i < before.len() && {
                    &&& (#[trigger] before[i]).rule_id == event.rule_id
                    &&& before[i].host == event.host
                    &&& before[i].protocol == named_protocol(event.protocol)
                    &&& results_json(before[i].action_results) == results_json(event.action_results)
                    &&& before[i].oldest_at - event.occurred_at <= window
                };
            &&& near ==> after.len() == before.len()
            &&& !near && before.len() < limit ==> after.len() == before.len() + 1
            &&& !near && before.len() >= limit ==> after == before
        }),
{
    assert(events.push(event).drop_last() =~= events);
    let before = groups_of(events, limit, window);
    lemma_home(before, event, window);
    if let Some(h) = home(before, event, window) {
        assert(belongs(before[h], event, window));
    } else {
        assert forall|i: int| 0 <= i < before.len() implies !({
            &&& (#[trigger] before[i]).rule_id == event.rule_id
            &&& before[i].host == event.host
            &&& before[i].protocol == named_protocol(event.protocol)
            &&& results_json(before[i].action_results) == results_json(event.action_results)
            &&& before[i].oldest_at - event.occurred_at <= window
        }) by {
            assert(!belongs(before[i], event, window));
        }
    }
}

/// The events that are looked at are the first two thousand of those that are recent enough.
pub proof fn law_recent_events_are_the_newest(events: Seq<EventView>, oldest: int)
    ensures
        ({
            let all = events.filter(|e: EventView| e.occurred_at >= oldest);
            recent(events, oldest) == if all.len() > 2000 {
                all.take(2000)
            } else {
                all
            }
        }),
    decreases events.len(),
{
    reveal(Seq::filter);
    let new = |e: EventView| e.occurred_at >= oldest;
    if events.len() > 0 {
        let front = events.drop_last();
        law_recent_events_are_the_newest(front, oldest);
        let before = front.filter(new);
        let all = events.filter(new);
        if before.len() >= 2000 {
            assert(before.take(2000) =~= all.take(2000));
            if before.len() == 2000 {
                assert(before.take(2000) =~= before);
            }
        }
        assert(recent(events, oldest) =~= (if all.len() > 2000 {
            all.take(2000)
        } else {
            all
        }));
    }
}

} // verus!
