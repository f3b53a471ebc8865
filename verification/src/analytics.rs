//! Statistics of blocked requests: what is kept of each, and what is dropped when it grows old.

use crate::events::{
    copy_summaries, summaries, ActionExecutionStatus, ActionExecutionSummary, ActionSurface,
    InterceptionProtocol, SummaryView,
};
use crate::foreign::{
    json_string, json_text, parse_url, url_error, url_host, url_path, UrlParts,
};
use crate::http::{host_or, named_host};
use crate::text::same_text;
use vstd::prelude::*;

verus! {

// ---------------------------------------------------------------------------
// Names
// ---------------------------------------------------------------------------
/// The name under which a protocol is kept.
pub open spec fn protocol_name(protocol: InterceptionProtocol) -> Seq<char> {
    match protocol {
        InterceptionProtocol::Http => "http"@,
        InterceptionProtocol::Https => "https"@,
        InterceptionProtocol::Unknown => "unknown"@,
    }
}

/// The name under which a protocol is kept.
pub fn protocol_value(protocol: InterceptionProtocol) -> (r: &'static str)
    ensures
        r@ == protocol_name(protocol),
{
    match protocol {
        InterceptionProtocol::Http => "http",
        InterceptionProtocol::Https => "https",
        InterceptionProtocol::Unknown => "unknown",
    }
}

/// The protocol of a name.
pub open spec fn named_protocol(name: Seq<char>) -> InterceptionProtocol {
    if name == "http"@ {
        InterceptionProtocol::Http
    } else if name == "https"@ {
        InterceptionProtocol::Https
    } else {
        InterceptionProtocol::Unknown
    }
}

/// The protocol of a name.
pub fn parse_protocol(value: &str) -> (r: InterceptionProtocol)
    ensures
        r == named_protocol(value@),
{
    if same_text(value, "http") {
        InterceptionProtocol::Http
    } else if same_text(value, "https") {
        InterceptionProtocol::Https
    } else {
        InterceptionProtocol::Unknown
    }
}

/// Reading back the name of a protocol gives the protocol.
pub proof fn law_protocol_round_trip(protocol: InterceptionProtocol)
    ensures
        named_protocol(protocol_name(protocol)) == protocol,
{
    reveal_strlit("http");
    reveal_strlit("https");
    reveal_strlit("unknown");
    assert("http"@.len() == 4 && "https"@.len() == 5 && "unknown"@.len() == 7);
}

/// The name under which a status is kept.
pub open spec fn status_name(status: ActionExecutionStatus) -> Seq<char> {
    match status {
        ActionExecutionStatus::Succeeded => "succeeded"@,
        ActionExecutionStatus::Failed => "failed"@,
        ActionExecutionStatus::Unsupported => "unsupported"@,
        ActionExecutionStatus::Skipped => "skipped"@,
    }
}

fn status_text(status: ActionExecutionStatus) -> (r: &'static str)
    ensures
        r@ == status_name(status),
{
    match status {
        ActionExecutionStatus::Succeeded => "succeeded",
        ActionExecutionStatus::Failed => "failed",
        ActionExecutionStatus::Unsupported => "unsupported",
        ActionExecutionStatus::Skipped => "skipped",
    }
}

/// The name under which a surface is kept.
pub open spec fn surface_name(surface: ActionSurface) -> Seq<char> {
    match surface {
        ActionSurface::BrowserPage => "browser_page"@,
        ActionSurface::InAppCard => "in_app_card"@,
        ActionSurface::LocalAudio => "local_audio"@,
        ActionSurface::ConnectionBlock => "connection_block"@,
    }
}

fn surface_text(surface: ActionSurface) -> (r: &'static str)
    ensures
        r@ == surface_name(surface),
{
    match surface {
        ActionSurface::BrowserPage => "browser_page",
        ActionSurface::InAppCard => "in_app_card",
        ActionSurface::LocalAudio => "local_audio",
        ActionSurface::ConnectionBlock => "connection_block",
    }
}

// ---------------------------------------------------------------------------
// Outcomes of actions, as they are kept
// ---------------------------------------------------------------------------
/// An outcome as it is kept: without the error, which may tell of files and other local matters.
pub open spec fn kept_summary(summary: SummaryView) -> SummaryView {
    SummaryView { error: None, ..summary }
}

/// Outcomes as they are kept.
pub open spec fn kept_summaries(list: Seq<SummaryView>) -> Seq<SummaryView> {
    list.map_values(|s: SummaryView| kept_summary(s))
}

/// An outcome as JSON, given how JSON writes the id and the kind of its action.
pub open spec fn quoted_json(
    action_id: Seq<char>,
    kind: Seq<char>,
    status: ActionExecutionStatus,
    surface: ActionSurface,
) -> Seq<char> {
    "{\"action_id\":"@ + action_id + ",\"kind\":"@ + kind + ",\"status\":\""@ + status_name(status)
        + "\",\"surface\":\""@ + surface_name(surface) + "\"}"@
}

/// An outcome as JSON.
pub open spec fn summary_json(summary: SummaryView) -> Seq<char> {
    quoted_json(
        json_string(summary.action_id),
        json_string(summary.kind),
        summary.status,
        summary.surface,
    )
}

/// Outcomes as JSON, with commas between them.
pub open spec fn summaries_json(list: Seq<SummaryView>) -> Seq<char>
    decreases list.len(),
{
    if list.len() == 0 {
        Seq::empty()
    } else if list.len() == 1 {
        summary_json(list[0])
    } else {
        summaries_json(list.drop_last()) + ","@ + summary_json(list.last())
    }
}

/// The JSON array of outcomes.
pub open spec fn results_json(list: Seq<SummaryView>) -> Seq<char> {
    "["@ + summaries_json(list) + "]"@
}

/// An outcome as JSON, given how JSON writes the id and the kind of its action.
pub fn quoted_json_text(
    action_id: &str,
    kind: &str,
    status: ActionExecutionStatus,
    surface: ActionSurface,
) -> (r: String)
    ensures
        r@ == quoted_json(action_id@, kind@, status, surface),
{
    let mut out = "{\"action_id\":".to_owned();
    out.append(action_id);
    out.append(",\"kind\":");
    out.append(kind);
    out.append(",\"status\":\"");
    out.append(status_text(status));
    out.append("\",\"surface\":\"");
    out.append(surface_text(surface));
    out.append("\"}");
    out
}

fn summary_json_text(summary: &ActionExecutionSummary) -> (r: String)
    ensures
        r@ == summary_json(summary@),
{
    let action_id = json_text(summary.action_id.as_str());
    let kind = json_text(summary.kind.as_str());
    quoted_json_text(action_id.as_str(), kind.as_str(), summary.status, summary.surface)
}

/// The JSON array of outcomes.
pub fn results_json_text(list: &[ActionExecutionSummary]) -> (r: String)
    ensures
        r@ == results_json(summaries(list@)),
{
    let ghost all = summaries(list@);
    let mut inner = String::new();
    let mut i: usize = 0;
    assert(all.take(0) =~= Seq::<SummaryView>::empty());
    while i < list.len()
        invariant
            i <= list.len(),
            all == summaries(list@),
            inner@ == summaries_json(all.take(i as int)),
        decreases list.len() - i,
    {
        assert(all.take(i + 1).drop_last() =~= all.take(i as int));
        assert(all.take(i + 1).last() == list@[i as int]@);
        let one = summary_json_text(&list[i]);
        if i == 0 {
            assert(all.take(1)[0] == list@[0]@);
            inner = one;
        } else {
            inner.append(",");
            inner.append(one.as_str());
        }
        i += 1;
    }
    assert(all.take(i as int) =~= all);
    let mut out = "[".to_owned();
    out.append(inner.as_str());
    out.append("]");
    out
}

proof fn lemma_kept_alike(a: Seq<SummaryView>, b: Seq<SummaryView>)
    requires
        kept_summaries(a) == kept_summaries(b),
    ensures
        summaries_json(a) == summaries_json(b),
    decreases a.len(),
{
    assert(a.len() == kept_summaries(a).len());
    assert(b.len() == kept_summaries(b).len());
    if a.len() > 0 {
        let n = a.len() - 1;
        assert(kept_summaries(a)[n] == kept_summary(a[n]));
        assert(kept_summaries(b)[n] == kept_summary(b[n]));
        assert(kept_summaries(a.drop_last()) =~= kept_summaries(a).drop_last());
        assert(kept_summaries(b.drop_last()) =~= kept_summaries(b).drop_last());
        lemma_kept_alike(a.drop_last(), b.drop_last());
        assert(summary_json(a[n]) == summary_json(b[n]));
    }
}

/// Nothing of an error is kept: outcomes that differ in their errors only are kept alike.
pub proof fn law_errors_are_not_kept(a: Seq<SummaryView>, b: Seq<SummaryView>)
    requires
        kept_summaries(a) == kept_summaries(b),
    ensures
        results_json(a) == results_json(b),
{
    lemma_kept_alike(a, b);
}

/// Copies outcomes as they are kept.
fn keep_summaries(list: &[ActionExecutionSummary]) -> (r: Vec<ActionExecutionSummary>)
    ensures
        summaries(r@) == kept_summaries(summaries(list@)),
{
    let ghost all = summaries(list@);
    let mut out: Vec<ActionExecutionSummary> = Vec::new();
    let mut i: usize = 0;
    while i < list.len()
        invariant
            i <= list.len(),
            all == summaries(list@),
            summaries(out@) =~= kept_summaries(all.take(i as int)),
        decreases list.len() - i,
    {
        let ghost before = out@;
        let copy = ActionExecutionSummary {
            action_id: list[i].action_id.clone(),
            kind: list[i].kind.clone(),
            status: list[i].status,
            surface: list[i].surface,
            error: None,
        };
        out.push(copy);
        assert(summaries(out@) =~= summaries(before).push(copy@));
        assert(all.take(i + 1) =~= all.take(i as int).push(list@[i as int]@));
        assert(copy@ == kept_summary(list@[i as int]@));
        i += 1;
    }
    assert(all.take(i as int) =~= all);
    out
}

// ---------------------------------------------------------------------------
// Events
// ---------------------------------------------------------------------------
/// A blocked request as it is kept.
#[derive(Debug)]
pub struct StoredEvent {
    pub id: i64,
    /// Seconds since the epoch.
    pub occurred_at: i64,
    pub rule_id: String,
    pub host: String,
    pub path: String,
    pub action_count: u64,
    /// Not 0 where host and path have been replaced.
    pub detail_redacted: i64,
    pub protocol: String,
    /// The outcomes that `action_results_json` writes, as far as it can be read.
    pub action_results: Vec<ActionExecutionSummary>,
    pub action_results_json: String,
}

/// `StoredEvent` as a value.
#[verifier::ext_equal]
pub struct EventView {
    pub id: i64,
    pub occurred_at: i64,
    pub rule_id: Seq<char>,
    pub host: Seq<char>,
    pub path: Seq<char>,
    pub action_count: u64,
    pub detail_redacted: i64,
    pub protocol: Seq<char>,
    pub action_results: Seq<SummaryView>,
    pub action_results_json: Seq<char>,
}

impl View for StoredEvent {
    type V = EventView;

    open spec fn view(&self) -> EventView {
        EventView {
            id: self.id,
            occurred_at: self.occurred_at,
            rule_id: self.rule_id@,
            host: self.host@,
            path: self.path@,
            action_count: self.action_count,
            detail_redacted: self.detail_redacted,
            protocol: self.protocol@,
            action_results: summaries(self.action_results@),
            action_results_json: self.action_results_json@,
        }
    }
}

impl Clone for StoredEvent {
    fn clone(&self) -> (r: Self)
        ensures
            r@ == self@,
    {
        StoredEvent {
            id: self.id,
            occurred_at: self.occurred_at,
            rule_id: self.rule_id.clone(),
            host: self.host.clone(),
            path: self.path.clone(),
            action_count: self.action_count,
            detail_redacted: self.detail_redacted,
            protocol: self.protocol.clone(),
            action_results: copy_summaries(self.action_results.as_slice()),
            action_results_json: self.action_results_json.clone(),
        }
    }
}

/// The values of a list of events.
pub open spec fn event_views(list: Seq<StoredEvent>) -> Seq<EventView> {
    list.map_values(|e: StoredEvent| e@)
}

/// Whether an event stands before another in the order from new to old: by time, then by id.
pub open spec fn newer(a: EventView, b: EventView) -> bool {
    a.occurred_at > b.occurred_at || a.occurred_at == b.occurred_at && a.id > b.id
}

/// Whether no event stands behind one that it is newer than.
pub open spec fn newest_first(events: Seq<EventView>) -> bool {
    forall|i: int, j: int|
        0 <= i < j < events.len() ==> !newer(#[trigger] events[j], #[trigger] events[i])
}

/// How many events at the front are newer than one.
pub open spec fn place(events: Seq<EventView>, event: EventView) -> int
    decreases events.len(),
{
    if events.len() == 0 || !newer(events[0], event) {
        0
    } else {
        1 + place(events.drop_first(), event)
    }
}

/// The events with one more, in its place.
pub open spec fn placed(events: Seq<EventView>, event: EventView) -> Seq<EventView> {
    events.take(place(events, event)) + seq![event] + events.skip(place(events, event))
}

/// The events of a list, from new to old.
pub open spec fn arranged(events: Seq<EventView>) -> Seq<EventView>
    decreases events.len(),
{
    if events.len() == 0 {
        Seq::empty()
    } else {
        placed(arranged(events.drop_last()), events.last())
    }
}

proof fn lemma_place(events: Seq<EventView>, event: EventView)
    ensures
        0 <= place(events, event) <= events.len(),
        forall|i: int| 0 <= i < place(events, event) ==> newer(#[trigger] events[i], event),
        place(events, event) < events.len() ==> !newer(events[place(events, event)], event),
    decreases events.len(),
{
    if events.len() > 0 && newer(events[0], event) {
        let rest = events.drop_first();
        lemma_place(rest, event);
        assert forall|i: int| 0 <= i < place(events, event) implies newer(
            #[trigger] events[i],
            event,
        ) by {
            if i > 0 {
                assert(rest[i - 1] == events[i]);
            }
        }
    }
}

proof fn lemma_placed_in_order(events: Seq<EventView>, event: EventView)
    requires
        newest_first(events),
    ensures
        newest_first(placed(events, event)),
{
    lemma_place(events, event);
    let n = place(events, event);
    let all = placed(events, event);
    assert forall|i: int, j: int| 0 <= i < j < all.len() implies !newer(
        #[trigger] all[j],
        #[trigger] all[i],
    ) by {
        let a = if i < n {
            i
        } else {
            i - 1
        };
        let b = if j < n {
            j
        } else {
            j - 1
        };
        if i != n {
            assert(all[i] == events[a]);
        }
        if j != n {
            assert(all[j] == events[b]);
        }
        if i == n {
            assert(!newer(events[n], event));
            if b > n {
                assert(!newer(events[b], events[n]));
            }
        } else if j == n {
            assert(newer(events[i], event));
        } else {
            assert(!newer(events[b], events[a]));
        }
    }
}

/// However events are listed, they are arranged from new to old, and none is lost or added.
pub proof fn law_arranged_keeps_the_events(events: Seq<EventView>)
    ensures
        newest_first(arranged(events)),
        arranged(events).to_multiset() == events.to_multiset(),
    decreases events.len(),
{
    broadcast use vstd::seq_lib::group_to_multiset_ensures;

    if events.len() > 0 {
        let front = arranged(events.drop_last());
        let last = events.last();
        law_arranged_keeps_the_events(events.drop_last());
        lemma_placed_in_order(front, last);
        lemma_place(front, last);
        let n = place(front, last);
        assert(placed(front, last) =~= front.insert(n, last));
        assert(events =~= events.drop_last().push(last));
    } else {
        assert(arranged(events) =~= events);
    }
}

/// Why an event cannot be kept.
#[derive(Debug, Clone, Copy, PartialEq, Eq, Structural)]
pub enum AnalyticsError {
    /// The greatest id is in use.
    Full,
}

/// The greatest id of events, 0 where none is greater.
pub open spec fn last_id(events: Seq<EventView>) -> i64
    decreases events.len(),
{
    if events.len() == 0 {
        0
    } else if events.last().id > last_id(events.drop_last()) {
        events.last().id
    } else {
        last_id(events.drop_last())
    }
}

/// The host that is kept of a URL.
pub open spec fn kept_host(url: Seq<char>, detailed: bool) -> Seq<char> {
    if !detailed {
        "已关闭详细日志"@
    } else {
        named_host(url, "unknown"@)
    }
}

/// The path that is kept of a URL, without the query.
pub open spec fn kept_path(url: Seq<char>, detailed: bool) -> Seq<char> {
    if !detailed {
        Seq::empty()
    } else if url_error(url) is None {
        url_path(url)
    } else {
        "/"@
    }
}

/// Host and path that are kept of a URL, given what was found in it.
pub fn kept_place(parsed: Result<UrlParts, String>, detailed: bool) -> (r: (String, String))
    ensures
        !detailed ==> r.0@ == "已关闭详细日志"@ && r.1@.len() == 0,
        detailed ==> match parsed {
            Ok(parts) => r.1@ == parts.path@ && r.0@ == match parts.host {
                Some(host) => host@,
                None => "unknown"@,
            },
            Err(_) => r.0@ == "unknown"@ && r.1@ == "/"@,
        },
{
    if !detailed {
        return ("已关闭详细日志".to_owned(), String::new());
    }
    let path = match &parsed {
        Ok(parts) => parts.path.clone(),
        Err(_) => "/".to_owned(),
    };
    (host_or(parsed, "unknown"), path)
}

/// A blocked request as it is kept.
pub open spec fn new_event(
    id: i64,
    now: i64,
    rule_id: Seq<char>,
    url: Seq<char>,
    protocol: InterceptionProtocol,
    results: Seq<SummaryView>,
    detailed: bool,
) -> EventView {
    EventView {
        id,
        occurred_at: now,
        rule_id,
        host: kept_host(url, detailed),
        path: kept_path(url, detailed),
        action_count: results.len() as u64,
        detail_redacted: if detailed {
            0
        } else {
            1
        },
        protocol: protocol_name(protocol),
        action_results: kept_summaries(results),
        action_results_json: results_json(results),
    }
}

/// The blocked requests that are kept, from new to old.
#[derive(Debug)]
pub struct Analytics {
    events: Vec<StoredEvent>,
}

impl View for Analytics {
    type V = Seq<EventView>;

    closed spec fn view(&self) -> Seq<EventView> {
        event_views(self.events@)
    }
}

/// Puts an event in its place.
fn insert_event(events: &mut Vec<StoredEvent>, event: StoredEvent)
    ensures
        event_views(final(events)@) == placed(event_views(old(events)@), event@),
{
    let ghost all = event_views(events@);
    let mut i: usize = 0;
    let n: usize = events.len();
    assert(all.skip(0) =~= all);
    while i < n && (events[i].occurred_at > event.occurred_at || (events[i].occurred_at
        == event.occurred_at && events[i].id > event.id))
        invariant
            i <= n,
            n == events@.len(),
            events@ == old(events)@,
            all == event_views(events@),
            place(all, event@) == i + place(all.skip(i as int), event@),
        decreases n - i,
    {
        assert(all.skip(i as int)[0] == events@[i as int]@);
        assert(all.skip(i as int).drop_first() =~= all.skip(i + 1));
        i += 1;
    }
    if i < n {
        assert(all.skip(i as int)[0] == events@[i as int]@);
    }
    assert(place(all.skip(i as int), event@) == 0);
    events.insert(i, event);
    assert(event_views(events@) =~= placed(all, event@));
}

/// The greatest id of events.
fn greatest_id(events: &[StoredEvent]) -> (r: i64)
    ensures
        r == last_id(event_views(events@)),
{
    let ghost all = event_views(events@);
    let mut greatest: i64 = 0;
    let mut i: usize = 0;
    assert(all.take(0) =~= Seq::<EventView>::empty());
    while i < events.len()
        invariant
            i <= events.len(),
            all == event_views(events@),
            greatest == last_id(all.take(i as int)),
        decreases events.len() - i,
    {
        assert(all.take(i + 1).drop_last() =~= all.take(i as int));
        assert(all.take(i + 1).last() == events@[i as int]@);
        if events[i].id > greatest {
            greatest = events[i].id;
        }
        i += 1;
    }
    assert(all.take(i as int) =~= all);
    greatest
}

impl Analytics {
    #[verifier::type_invariant]
    spec fn in_order(self) -> bool {
        newest_first(event_views(self.events@))
    }

    /// The statistics of events that were kept before, in whatever order they come.
    pub fn new(stored: Vec<StoredEvent>) -> (r: Analytics)
        ensures
            r@ == arranged(event_views(stored@)),
            newest_first(r@),
    {
        let ghost all = event_views(stored@);
        let mut events: Vec<StoredEvent> = Vec::new();
        let mut i: usize = 0;
        assert(all.take(0) =~= Seq::<EventView>::empty());
        assert(event_views(events@) =~= Seq::<EventView>::empty());
        while i < stored.len()
            invariant
                i <= stored@.len(),
                all == event_views(stored@),
                event_views(events@) == arranged(all.take(i as int)),
            decreases stored@.len() - i,
        {
            assert(all.take(i + 1).drop_last() =~= all.take(i as int));
            assert(all.take(i + 1).last() == stored@[i as int]@);
            insert_event(&mut events, stored[i].clone());
            i += 1;
        }
        assert(all.take(i as int) =~= all);
        proof {
            law_arranged_keeps_the_events(all);
        }
        Analytics { events }
    }

    /// The events that are kept, from new to old.
    pub fn events(&self) -> (r: &Vec<StoredEvent>)
        ensures
            event_views(r@) == self@,
            newest_first(self@),
    {
        proof {
            use_type_invariant(self);
        }
        &self.events
    }

    /// Keeps a blocked request and hands out what is kept of it. Of the URL only host and path are
    /// kept, never the query; without detailed logging neither.
    pub fn record(
        &mut self,
        now: i64,
        rule_id: &str,
        request: &str,
        protocol: InterceptionProtocol,
        action_results: &[ActionExecutionSummary],
        detailed_logging: bool,
    ) -> (r: Result<StoredEvent, AnalyticsError>)
        ensures
            match r {
                Ok(event) => {
                    &&& last_id(old(self)@) < i64::MAX
                    &&& event@ == new_event(
                        (last_id(old(self)@) + 1) as i64,
                        now,
                        rule_id@,
                        request@,
                        protocol,
                        summaries(action_results@),
                        detailed_logging,
                    )
                    &&& final(self)@ == placed(old(self)@, event@)
                    &&& !event.path@.contains('?')
                },
                Err(error) => last_id(old(self)@) == i64::MAX && final(self)@ == old(self)@,
            },
            newest_first(final(self)@),
    {
        proof {
            use_type_invariant(&*self);
        }
        let greatest: i64 = greatest_id(self.events.as_slice());
        if greatest == i64::MAX {
            return Err(AnalyticsError::Full);
        }
        let (host, path) = kept_place(parse_url(request), detailed_logging);
        proof {
            reveal_strlit("/");
        }
        assert(path@ =~= kept_path(request@, detailed_logging));
        assert(!path@.contains('?'));
        let count: usize = action_results.len();
        let event = StoredEvent {
            id: greatest + 1,
            occurred_at: now,
            rule_id: rule_id.to_owned(),
            host,
            path,
            action_count: count as u64,
            detail_redacted: if detailed_logging {
                0
            } else {
                1
            },
            protocol: protocol_value(protocol).to_owned(),
            action_results: keep_summaries(action_results),
            action_results_json: results_json_text(action_results),
        };
        let copy = event.clone();
        let ghost before = self@;
        let mut events: Vec<StoredEvent> = Vec::new();
        std::mem::swap(&mut events, &mut self.events);
        insert_event(&mut events, event);
        proof {
            lemma_placed_in_order(before, copy@);
        }
        self.events = events;
        Ok(copy)
    }

    /// Drops all events.
    pub fn clear(&mut self)
        ensures
            final(self)@ == Seq::<EventView>::empty(),
    {
        self.events = Vec::new();
        assert(self@ =~= Seq::<EventView>::empty());
    }
}

// ---------------------------------------------------------------------------
// Growing old
// ---------------------------------------------------------------------------
/// The seconds of a day.
pub const DAY_SECONDS: i64 = 86400;

/// The time before which events are too old after a number of days.
pub open spec fn cutoff(now: i64, days: u32) -> int {
    now - days * DAY_SECONDS
}

/// An event whose details are too old loses them.
pub open spec fn aged(event: EventView, detail_cutoff: int) -> EventView {
    if event.occurred_at < detail_cutoff && event.detail_redacted == 0 {
        EventView {
            host: "已按保留策略清理"@,
            path: Seq::empty(),
            detail_redacted: 1,
            ..event
        }
    } else {
        event
    }
}

/// The events without those that are too old, and without details that are too old.
pub open spec fn maintained(
    events: Seq<EventView>,
    detail_cutoff: int,
    aggregate_cutoff: int,
) -> Seq<EventView>
    decreases events.len(),
{
    if events.len() == 0 {
        Seq::empty()
    } else {
        let before = maintained(events.drop_last(), detail_cutoff, aggregate_cutoff);
        if events.last().occurred_at >= aggregate_cutoff {
            before.push(aged(events.last(), detail_cutoff))
        } else {
            before
        }
    }
}

/// The ids of the events that are too old.
pub open spec fn removed_ids(events: Seq<EventView>, aggregate_cutoff: int) -> Seq<i64>
    decreases events.len(),
{
    if events.len() == 0 {
        Seq::empty()
    } else {
        let before = removed_ids(events.drop_last(), aggregate_cutoff);
        if events.last().occurred_at < aggregate_cutoff {
            before.push(events.last().id)
        } else {
            before
        }
    }
}

/// The ids of the events that stay and lose their details.
pub open spec fn redacted_ids(
    events: Seq<EventView>,
    detail_cutoff: int,
    aggregate_cutoff: int,
) -> Seq<i64>
    decreases events.len(),
{
    if events.len() == 0 {
        Seq::empty()
    } else {
        let before = redacted_ids(events.drop_last(), detail_cutoff, aggregate_cutoff);
        let e = events.last();
        if e.occurred_at >= aggregate_cutoff && e.occurred_at < detail_cutoff && e.detail_redacted
            == 0 {
            before.push(e.id)
        } else {
            before
        }
    }
}

/// What a maintenance has changed.
#[derive(Debug)]
pub struct Maintenance {
    /// The ids of the events that have lost their details.
    pub redacted: Vec<i64>,
    /// The ids of the events that are gone.
    pub removed: Vec<i64>,
}

proof fn lemma_maintained_from(
    events: Seq<EventView>,
    detail_cutoff: int,
    aggregate_cutoff: int,
    i: int,
) -> (k: int)
    requires
        0 <= i < maintained(events, detail_cutoff, aggregate_cutoff).len(),
    ensures
        0 <= k < events.len(),
        maintained(events, detail_cutoff, aggregate_cutoff)[i] == aged(events[k], detail_cutoff),
        events[k].occurred_at >= aggregate_cutoff,
    decreases events.len(),
{
    let before = maintained(events.drop_last(), detail_cutoff, aggregate_cutoff);
    if i < before.len() {
        lemma_maintained_from(events.drop_last(), detail_cutoff, aggregate_cutoff, i)
    } else {
        events.len() - 1
    }
}

proof fn lemma_maintained_in_order(
    events: Seq<EventView>,
    detail_cutoff: int,
    aggregate_cutoff: int,
)
    requires
        newest_first(events),
    ensures
        newest_first(maintained(events, detail_cutoff, aggregate_cutoff)),
    decreases events.len(),
{
    if events.len() > 0 {
        let front = events.drop_last();
        assert(newest_first(front)) by {
            assert forall|i: int, j: int| 0 <= i < j < front.len() implies !newer(
                #[trigger] front[j],
                #[trigger] front[i],
            ) by {
                assert(!newer(events[j], events[i]));
            }
        }
        lemma_maintained_in_order(front, detail_cutoff, aggregate_cutoff);
        let before = maintained(front, detail_cutoff, aggregate_cutoff);
        let after = maintained(events, detail_cutoff, aggregate_cutoff);
        assert forall|i: int, j: int| 0 <= i < j < after.len() implies !newer(
            #[trigger] after[j],
            #[trigger] after[i],
        ) by {
            assert(after[i] == before[i]);
            if j < before.len() {
                assert(after[j] == before[j]);
            } else {
                let k = lemma_maintained_from(front, detail_cutoff, aggregate_cutoff, i);
                assert(events[k] == front[k]);
                assert(!newer(events[events.len() - 1], events[k]));
            }
        }
    }
}

impl Analytics {
    /// Drops the details of events that are older than `detailed_days`, and the events that are
    /// older than `aggregate_days`.
    pub fn maintain(&mut self, now: i64, detailed_days: u32, aggregate_days: u32) -> (r: Maintenance)
        ensures
            final(self)@ == maintained(
                old(self)@,
                cutoff(now, detailed_days),
                cutoff(now, aggregate_days),
            ),
            newest_first(final(self)@),
            r.redacted@ == redacted_ids(
                old(self)@,
                cutoff(now, detailed_days),
                cutoff(now, aggregate_days),
            ),
            r.removed@ == removed_ids(old(self)@, cutoff(now, aggregate_days)),
    {
        proof {
            use_type_invariant(&*self);
        }
        let ghost all = self@;
        let ghost dc = cutoff(now, detailed_days);
        let ghost ac = cutoff(now, aggregate_days);
        let detail_cutoff: i128 = (now as i128) - (detailed_days as i128) * (DAY_SECONDS as i128);
        let aggregate_cutoff: i128 = (now as i128) - (aggregate_days as i128) * (
        DAY_SECONDS as i128);
        let mut kept: Vec<StoredEvent> = Vec::new();
        let mut redacted: Vec<i64> = Vec::new();
        let mut removed: Vec<i64> = Vec::new();
        let mut i: usize = 0;
        assert(all.take(0) =~= Seq::<EventView>::empty());
        assert(event_views(kept@) =~= Seq::<EventView>::empty());
        while i < self.events.len()
            invariant
                i <= self.events@.len(),
                all == event_views(self.events@),
                all == old(self)@,
                dc == detail_cutoff,
                ac == aggregate_cutoff,
                event_views(kept@) == maintained(all.take(i as int), dc, ac),
                redacted@ == redacted_ids(all.take(i as int), dc, ac),
                removed@ == removed_ids(all.take(i as int), ac),
            decreases self.events@.len() - i,
        {
            assert(all.take(i + 1).drop_last() =~= all.take(i as int));
            assert(all.take(i + 1).last() == self.events@[i as int]@);
            let time: i128 = self.events[i].occurred_at as i128;
            if time < aggregate_cutoff {
                removed.push(self.events[i].id);
            } else {
                let ghost before = kept@;
                let mut event = self.events[i].clone();
                if time < detail_cutoff && event.detail_redacted == 0 {
                    event.host = "已按保留策略清理".to_owned();
                    event.path = String::new();
                    event.detail_redacted = 1;
                    redacted.push(event.id);
                }
                assert(event@ == aged(all[i as int], dc));
                kept.push(event);
                assert(event_views(kept@) =~= event_views(before).push(event@));
            }
            i += 1;
        }
        assert(all.take(i as int) =~= all);
        proof {
            lemma_maintained_in_order(all, dc, ac);
        }
        self.events = kept;
        Maintenance { redacted, removed }
    }
}

/// After a maintenance nothing is older than the statistics are kept, and nothing that is older than
/// details are kept shows a host or a path of a request.
pub proof fn law_nothing_outlives_its_retention(
    events: Seq<EventView>,
    detail_cutoff: int,
    aggregate_cutoff: int,
    i: int,
)
    requires
        0 <= i < maintained(events, detail_cutoff, aggregate_cutoff).len(),
    ensures
        ({
            let event = maintained(events, detail_cutoff, aggregate_cutoff)[i];
            &&& event.occurred_at >= aggregate_cutoff
            &&& event.occurred_at < detail_cutoff ==> event.detail_redacted != 0
        }),
{
    let k = lemma_maintained_from(events, detail_cutoff, aggregate_cutoff, i);
}

/// Without detailed logging nothing of the URL is kept: two requests that differ in their URL only
/// are kept alike.
pub proof fn law_undetailed_events_hide_the_url(
    id: i64,
    now: i64,
    rule_id: Seq<char>,
    a: Seq<char>,
    b: Seq<char>,
    protocol: InterceptionProtocol,
    results: Seq<SummaryView>,
)
    ensures
        new_event(id, now, rule_id, a, protocol, results, false) == new_event(
            id,
            now,
            rule_id,
            b,
            protocol,
            results,
            false,
        ),
{
}

// ---------------------------------------------------------------------------
// Tables
// ---------------------------------------------------------------------------
/// Creates the table of the events, where there is none.
pub const CREATE_EVENTS: &'static str = "CREATE TABLE IF NOT EXISTS interception_events (
    id INTEGER PRIMARY KEY AUTOINCREMENT,
    occurred_at INTEGER NOT NULL,
    rule_id TEXT NOT NULL,
    host TEXT NOT NULL,
    path TEXT NOT NULL,
    action_count INTEGER NOT NULL,
    detail_redacted INTEGER NOT NULL DEFAULT 0,
    protocol TEXT NOT NULL DEFAULT 'unknown',
    action_results_json TEXT NOT NULL DEFAULT '[]'
);
CREATE INDEX IF NOT EXISTS idx_interception_time
    ON interception_events(occurred_at);
CREATE INDEX IF NOT EXISTS idx_interception_rule
    ON interception_events(rule_id);";

/// Adds the mark of lost details to a table without it.
pub const ADD_REDACTED: &'static str = "ALTER TABLE interception_events
 ADD COLUMN detail_redacted INTEGER NOT NULL DEFAULT 0";

/// Adds the protocol to a table without it.
pub const ADD_PROTOCOL: &'static str = "ALTER TABLE interception_events
 ADD COLUMN protocol TEXT NOT NULL DEFAULT 'unknown'";

/// Adds the outcomes to a table without them.
pub const ADD_RESULTS: &'static str = "ALTER TABLE interception_events
 ADD COLUMN action_results_json TEXT NOT NULL DEFAULT '[]'";

/// Reads the events, column by column as `StoredEvent` holds them.
pub const SELECT_EVENTS: &'static str = "SELECT id, occurred_at, rule_id, host, path, action_count,
        detail_redacted, protocol, action_results_json
 FROM interception_events";

/// Adds an event.
pub const INSERT_EVENT: &'static str = "INSERT INTO interception_events
 (id, occurred_at, rule_id, host, path, action_count, detail_redacted,
  protocol, action_results_json)
 VALUES (?1, ?2, ?3, ?4, ?5, ?6, ?7, ?8, ?9)";

/// Writes host, path and the mark of lost details of an event.
pub const UPDATE_EVENT: &'static str = "UPDATE interception_events
 SET host = ?2, path = ?3, detail_redacted = ?4
 WHERE id = ?1";

/// Drops an event.
pub const DELETE_EVENT: &'static str = "DELETE FROM interception_events WHERE id = ?1";

/// Drops all events.
pub const DELETE_EVENTS: &'static str = "DELETE FROM interception_events";

// ---------------------------------------------------------------------------
// What is kept, and what goes
// ---------------------------------------------------------------------------
/// A maintenance keeps exactly the events that are not older than statistics are kept, in their
/// order; of those that are older than details are kept, and only of these, it takes host and path,
/// whatever they are and whatever else the event holds. It tells which it has changed and dropped.
pub proof fn law_maintenance_takes_what_is_old(
    events: Seq<EventView>,
    detail_cutoff: int,
    aggregate_cutoff: int,
)
    ensures
        maintained(events, detail_cutoff, aggregate_cutoff) == events.filter(
            |e: EventView| e.occurred_at >= aggregate_cutoff,
        ).map_values(
            |e: EventView|
                if e.occurred_at < detail_cutoff && e.detail_redacted == 0 {
                    EventView {
                        host: "已按保留策略清理"@,
                        path: Seq::empty(),
                        detail_redacted: 1,
                        ..e
                    }
                } else {
                    e
                },
        ),
        removed_ids(events, aggregate_cutoff) == events.filter(
            |e: EventView| e.occurred_at < aggregate_cutoff,
        ).map_values(|e: EventView| e.id),
        redacted_ids(events, detail_cutoff, aggregate_cutoff) == events.filter(
            |e: EventView|
                aggregate_cutoff <= e.occurred_at < detail_cutoff && e.detail_redacted == 0,
        ).map_values(|e: EventView| e.id),
    decreases events.len(),
{
    reveal(Seq::filter);
    let kept = |e: EventView| e.occurred_at >= aggregate_cutoff;
    let gone = |e: EventView| e.occurred_at < aggregate_cutoff;
    let changed = |e: EventView|
        aggregate_cutoff <= e.occurred_at < detail_cutoff && e.detail_redacted == 0;
    let old = |e: EventView|
        if e.occurred_at < detail_cutoff && e.detail_redacted == 0 {
            EventView {
                host: "已按保留策略清理"@,
                path: Seq::empty(),
                detail_redacted: 1,
                ..e
            }
        } else {
            e
        };
    let id = |e: EventView| e.id;
    if events.len() > 0 {
        let front = events.drop_last();
        let e = events.last();
        law_maintenance_takes_what_is_old(front, detail_cutoff, aggregate_cutoff);
        assert(front.filter(kept).push(e).map_values(old) =~= front.filter(kept).map_values(
            old,
        ).push(old(e)));
        assert(front.filter(gone).push(e).map_values(id) =~= front.filter(gone).map_values(id).push(
            id(e),
        ));
        assert(front.filter(changed).push(e).map_values(id) =~= front.filter(changed).map_values(
            id,
        ).push(id(e)));
    }
    assert(maintained(events, detail_cutoff, aggregate_cutoff) =~= events.filter(kept).map_values(
        old,
    ));
    assert(removed_ids(events, aggregate_cutoff) =~= events.filter(gone).map_values(id));
    assert(redacted_ids(events, detail_cutoff, aggregate_cutoff) =~= events.filter(
        changed,
    ).map_values(id));
}

/// Old details leave no trace: events that differ in host and path only, and that are older than
/// details are kept, are kept alike.
pub proof fn law_old_details_leave_no_trace(
    events: Seq<EventView>,
    others: Seq<EventView>,
    detail_cutoff: int,
    aggregate_cutoff: int,
)
    requires
        others.len() == events.len(),
        forall|i: int|
            0 <= i < events.len() ==> {
                let e = #[trigger] events[i];
                &&& others[i] == (EventView { host: others[i].host, path: others[i].path, ..e })
                &&& e.occurred_at >= detail_cutoff || e.detail_redacted != 0 ==> others[i] == e
            },
    ensures
        maintained(others, detail_cutoff, aggregate_cutoff) == maintained(
            events,
            detail_cutoff,
            aggregate_cutoff,
        ),
    decreases events.len(),
{
    if events.len() > 0 {
        let front = events.drop_last();
        let rest = others.drop_last();
        assert forall|i: int| 0 <= i < front.len() implies {
            let e = #[trigger] front[i];
            &&& rest[i] == (EventView { host: rest[i].host, path: rest[i].path, ..e })
            &&& e.occurred_at >= detail_cutoff || e.detail_redacted != 0 ==> rest[i] == e
        } by {
            assert(front[i] == events[i]);
        }
        law_old_details_leave_no_trace(front, rest, detail_cutoff, aggregate_cutoff);
        let e = events[events.len() - 1];
        let o = others[others.len() - 1];
        assert(aged(o, detail_cutoff) =~= aged(e, detail_cutoff));
    }
}

/// An event is older than so many days where more seconds than these days have lie behind it.
pub proof fn law_age_is_counted_in_days(event: EventView, now: i64, days: u32)
    ensures
        event.occurred_at < cutoff(now, days) <==> now - event.occurred_at > days * 86400,
{
}

/// What is kept of a block: when, by which rule and how it came, how many outcomes and which, without
/// their errors; and of the URL the host and the path, or, without detailed logging, nothing.
pub proof fn law_event_holds_the_block(
    id: i64,
    now: i64,
    rule_id: Seq<char>,
    url: Seq<char>,
    protocol: InterceptionProtocol,
    results: Seq<SummaryView>,
    detailed: bool,
)
    requires
        results.len() <= u64::MAX,
    ensures
        ({
            let event = new_event(id, now, rule_id, url, protocol, results, detailed);
            &&& event.id == id
            &&& event.occurred_at == now
            &&& event.rule_id == rule_id
            &&& event.action_count == results.len()
            &&& event.protocol == (match protocol {
                InterceptionProtocol::Http => "http"@,
                InterceptionProtocol::Https => "https"@,
                InterceptionProtocol::Unknown => "unknown"@,
            })
            &&& event.action_results.len() == results.len()
            &&& forall|i: int|
                0 <= i < results.len() ==> (#[trigger] event.action_results[i]) == (SummaryView {
                    error: None,
                    ..results[i]
                })
            &&& event.action_results_json == results_json(results)
            &&& !detailed ==> event.detail_redacted == 1 && event.host == "已关闭详细日志"@
                && event.path.len() == 0
            &&& detailed ==> event.detail_redacted == 0
            &&& detailed && url_error(url) is None ==> event.path == url_path(url)
            &&& detailed && url_error(url) is None && url_host(url) is Some ==> event.host
                == url_host(url)->0
            &&& detailed && (url_error(url) is Some || url_host(url) is None) ==> event.host
                == "unknown"@
            &&& detailed && url_error(url) is Some ==> event.path == "/"@
        }),
{
}

/// A new event gets an id of its own: none that is kept has a greater one, and the greatest is that of
/// a kept event, or 0.
pub proof fn law_last_id_is_the_greatest(events: Seq<EventView>)
    ensures
        forall|i: int| 0 <= i < events.len() ==> (#[trigger] events[i]).id <= last_id(events),
        last_id(events) >= 0,
        last_id(events) == 0 || exists|i: int|
            0 <= i < events.len() && (#[trigger] events[i]).id == last_id(events),
    decreases events.len(),
{
    if events.len() > 0 {
        let front = events.drop_last();
        law_last_id_is_the_greatest(front);
        assert forall|i: int| 0 <= i < events.len() implies (#[trigger] events[i]).id <= last_id(
            events,
        ) by {
            if i < front.len() {
                assert(front[i] == events[i]);
            }
        }
        if last_id(events) != 0 {
            if events.last().id == last_id(events) {
                assert(events[events.len() - 1].id == last_id(events));
            } else {
                let i = choose|i: int|
                    0 <= i < front.len() && (#[trigger] front[i]).id == last_id(front);
                assert(events[i].id == last_id(events));
            }
        }
    }
}

/// Keeping an event adds it to the others, before the first that is not newer, and changes nothing
/// else.
pub proof fn law_kept_event_finds_its_place(events: Seq<EventView>, event: EventView) -> (k: int)
    requires
        newest_first(events),
    ensures
        0 <= k <= events.len(),
        placed(events, event) == events.take(k) + seq![event] + events.skip(k),
        newest_first(placed(events, event)),
        forall|i: int|
            0 <= i < k ==> (#[trigger] events[i]).occurred_at > event.occurred_at
                || events[i].occurred_at == event.occurred_at && events[i].id > event.id,
{
    lemma_placed_in_order(events, event);
    lemma_place(events, event);
    place(events, event)
}

/// The order of events is by time, and by id where the time is the same.
pub proof fn law_newer_is_later(a: EventView, b: EventView)
    ensures
        a.occurred_at > b.occurred_at ==> newer(a, b) && !newer(b, a),
        a.occurred_at == b.occurred_at ==> (newer(a, b) <==> a.id > b.id),
{
}

/// Outcomes are written one after the other, parted by commas, between brackets.
pub proof fn law_outcomes_are_written_in_order(
    list: Seq<SummaryView>,
    summary: SummaryView,
)
    ensures
        results_json(Seq::<SummaryView>::empty()) == "[]"@,
        results_json(seq![summary]) == "["@ + summary_json(summary) + "]"@,
        list.len() > 0 ==> results_json(list.push(summary)) == results_json(list).drop_last() + ","@
            + summary_json(summary) + "]"@,
{
    reveal_strlit("[");
    reveal_strlit("]");
    reveal_strlit("[]");
    assert(results_json(Seq::<SummaryView>::empty()) =~= "[]"@);
    assert(list.push(summary).drop_last() =~= list);
    if list.len() > 0 {
        assert(results_json(list).drop_last() =~= "["@ + summaries_json(list));
        assert(results_json(list.push(summary)) =~= results_json(list).drop_last() + ","@
            + summary_json(summary) + "]"@);
    }
}

/// An outcome is written with its name, kind, status and surface, and without its error.
pub proof fn law_outcome_is_written_with_its_fields(summary: SummaryView)
    ensures
        summary_json(summary) == "{\"action_id\":"@ + json_string(summary.action_id) + ",\"kind\":"@
            + json_string(summary.kind) + ",\"status\":\""@ + (match summary.status {
            ActionExecutionStatus::Succeeded => "succeeded"@,
            ActionExecutionStatus::Failed => "failed"@,
            ActionExecutionStatus::Unsupported => "unsupported"@,
            ActionExecutionStatus::Skipped => "skipped"@,
        }) + "\",\"surface\":\""@ + (match summary.surface {
            ActionSurface::BrowserPage => "browser_page"@,
            ActionSurface::InAppCard => "in_app_card"@,
            ActionSurface::LocalAudio => "local_audio"@,
            ActionSurface::ConnectionBlock => "connection_block"@,
        }) + "\"}"@,
{
}

/// Recording a block keeps every event and adds one, under a greater id than any, with the rule and
/// the moment of the block.
pub proof fn law_recording_adds_one_event(
    analytics: &mut Analytics,
    now: i64,
    rule_id: &str,
    request: &str,
    protocol: InterceptionProtocol,
    results: &[ActionExecutionSummary],
    detailed: bool,
    r: Result<StoredEvent, AnalyticsError>,
    i: int,
)
    requires
        call_ensures(
            Analytics::record,
            (analytics, now, rule_id, request, protocol, results, detailed),
            r,
        ),
        newest_first(old(analytics)@),
        results@.len() <= u64::MAX,
        0 <= i < old(analytics)@.len(),
    ensures
        r is Err ==> final(analytics)@ == old(analytics)@,
        r matches Ok(event) ==> {
            &&& final(analytics)@.len() == old(analytics)@.len() + 1
            &&& final(analytics)@.contains(old(analytics)@[i])
            &&& final(analytics)@.contains(event@)
            &&& event.id > old(analytics)@[i].id
            &&& event.occurred_at == now
            &&& event.rule_id@ == rule_id@
            &&& event.action_count == results@.len()
            &&& !detailed ==> event.host@ == "已关闭详细日志"@ && event.path@.len() == 0
        },
{
    let before = old(analytics)@;
    let after = final(analytics)@;
    law_last_id_is_the_greatest(before);
    if r is Ok {
        let event = r->Ok_0@;
        let k = law_kept_event_finds_its_place(before, event);
        assert(after[k] == event);
        if i < k {
            assert(after[i] == before[i]);
        } else {
            assert(after[i + 1] == before[i]);
        }
    }
}

/// Clearing leaves no event, and what is handed out are all events, the newest first.
pub proof fn law_events_are_handed_out(
    analytics: &Analytics,
    events: &Vec<StoredEvent>,
    cleared: &mut Analytics,
)
    requires
        call_ensures(Analytics::events, (analytics,), events),
        call_ensures(Analytics::clear, (cleared,), ()),
    ensures
        event_views(events@) == analytics@,
        newest_first(analytics@),
        final(cleared)@.len() == 0,
{
}

/// What is kept of the place of a block: the host and the path of its URL, and nothing of it without
/// detailed logging.
pub proof fn law_place_is_kept_only_with_details(
    parsed: Result<UrlParts, String>,
    other: Result<UrlParts, String>,
    a: (String, String),
    b: (String, String),
    detailed: (String, String),
)
    requires
        call_ensures(kept_place, (parsed, false), a),
        call_ensures(kept_place, (other, false), b),
        call_ensures(kept_place, (parsed, true), detailed),
    ensures
        a.0@ == b.0@ && a.1@ == b.1@,
        parsed matches Ok(parts) ==> detailed.1@ == parts.path@,
        parsed matches Ok(parts) ==> (parts.host matches Some(host) ==> detailed.0@ == host@),
{
    assert(a.1@ =~= b.1@);
}

} // verus!
