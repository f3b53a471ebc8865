//! How the user is told of blocks: the card in the window, the count of unread responses and the
//! icon in the tray.

use crate::actions::DEFAULT_DURATION_MS;
use crate::analytics::{results_json, results_json_text};
use crate::events::{
    copy_summaries, opt_image, summaries, ActionExecutionSummary, ImagePresentation, ImageView,
    InterceptionProtocol, SummaryView,
};
use crate::foreign::{parse_url, url_error, url_host};
use crate::groups::{group_views, ActionEventGroup, GroupView};
use crate::http::{host_or, named_host};
use crate::response::{is_prefix, is_suffix};
use crate::shell::{block_message, noted, Page, Shell};
use crate::text::{decimal_text, digits, same_text};
use vstd::prelude::*;

verus! {

// ---------------------------------------------------------------------------
// What was told when
// ---------------------------------------------------------------------------
/// For how many nanoseconds a block like an earlier one is not told again.
pub const QUIET_NANOS: u64 = 30000000000;

/// For how many nanoseconds it is kept that a block was told.
pub const KEPT_NANOS: u64 = 60000000000;

/// The time from `then` to `now`; none where `then` is later.
pub open spec fn age(now: u64, then: u64) -> int {
    if now >= then {
        now - then
    } else {
        0
    }
}

/// When blocks were last told, by what makes them alike.
#[derive(Debug)]
pub struct Told {
    entries: Vec<(String, u64)>,
}

spec fn lookup(entries: Seq<(String, u64)>, key: Seq<char>) -> Option<u64>
    decreases entries.len(),
{
    if entries.len() == 0 {
        None
    } else if entries.last().0@ == key {
        Some(entries.last().1)
    } else {
        lookup(entries.drop_last(), key)
    }
}

impl View for Told {
    type V = Map<Seq<char>, u64>;

    closed spec fn view(&self) -> Map<Seq<char>, u64> {
        Map::new(
            |key: Seq<char>| lookup(self.entries@, key) is Some,
            |key: Seq<char>| lookup(self.entries@, key)->0,
        )
    }
}

/// What is kept of when blocks were told.
pub open spec fn still_kept(told: Map<Seq<char>, u64>, now: u64) -> Map<Seq<char>, u64> {
    Map::new(
        |key: Seq<char>| told.contains_key(key) && age(now, told[key]) <= KEPT_NANOS,
        |key: Seq<char>| told[key],
    )
}

/// Whether a block is to be told: none like it was told within the quiet time.
pub open spec fn is_news(told: Map<Seq<char>, u64>, key: Seq<char>, now: u64) -> bool {
    !told.contains_key(key) || age(now, told[key]) > QUIET_NANOS
}

proof fn lemma_lookup_distinct(entries: Seq<(String, u64)>, key: Seq<char>, i: int)
    requires
        0 <= i < entries.len(),
        entries[i].0@ == key,
        forall|a: int, b: int|
            0 <= a < b < entries.len() ==> #[trigger] entries[a].0@ != #[trigger] entries[b].0@,
    ensures
        lookup(entries, key) == Some(entries[i].1),
    decreases entries.len(),
{
    if i < entries.len() - 1 {
        assert(entries[i].0@ != entries[entries.len() - 1].0@);
        let front = entries.drop_last();
        assert forall|a: int, b: int| 0 <= a < b < front.len() implies #[trigger] front[a].0@
            != #[trigger] front[b].0@ by {
            assert(entries[a].0@ != entries[b].0@);
        }
        lemma_lookup_distinct(front, key, i);
    }
}

proof fn lemma_lookup_absent(entries: Seq<(String, u64)>, key: Seq<char>)
    requires
        forall|i: int| 0 <= i < entries.len() ==> (#[trigger] entries[i]).0@ != key,
    ensures
        lookup(entries, key) is None,
    decreases entries.len(),
{
    if entries.len() > 0 {
        let front = entries.drop_last();
        assert forall|i: int| 0 <= i < front.len() implies (#[trigger] front[i]).0@ != key by {
            assert(entries[i].0@ != key);
        }
        assert(entries[entries.len() - 1].0@ != key);
        lemma_lookup_absent(front, key);
    }
}

fn elapsed(now: u64, then: u64) -> (r: u64)
    ensures
        r == age(now, then),
{
    if now >= then {
        now - then
    } else {
        0
    }
}

impl Told {
    #[verifier::type_invariant]
    spec fn distinct(self) -> bool {
        forall|i: int, j: int|
            0 <= i < j < self.entries@.len() ==> #[trigger] self.entries@[i].0@
                != #[trigger] self.entries@[j].0@
    }

    /// Nothing was told yet.
    pub fn new() -> (r: Told)
        ensures
            r@ == Map::<Seq<char>, u64>::empty(),
    {
        let r = Told { entries: Vec::new() };
        assert(r@ =~= Map::<Seq<char>, u64>::empty());
        r
    }

    /// Keeps that a block happens now, and tells whether it is to be told.
    pub fn tell(&mut self, key: String, now: u64) -> (r: bool)
        ensures
            r == is_news(still_kept(old(self)@, now), key@, now),
            final(self)@ == still_kept(old(self)@, now).insert(key@, now),
    {
        proof {
            use_type_invariant(&*self);
        }
        let ghost all = self.entries@;
        let ghost name = key@;
        let mut kept: Vec<(String, u64)> = Vec::new();
        let mut news = true;
        let mut i: usize = 0;
        while i < self.entries.len()
            invariant
                i <= self.entries@.len(),
                all == self.entries@,
                name == key@,
                forall|a: int, b: int|
                    0 <= a < b < all.len() ==> #[trigger] all[a].0@ != #[trigger] all[b].0@,
                forall|a: int, b: int|
                    0 <= a < b < kept@.len() ==> #[trigger] kept@[a].0@ != #[trigger] kept@[b].0@,
                forall|a: int|
                    0 <= a < kept@.len() ==> {
                        &&& (#[trigger] kept@[a]).0@ != name
                        &&& age(now, kept@[a].1) <= KEPT_NANOS
                        &&& exists|c: int|
                            0 <= c < i && (#[trigger] all[c]).0@ == kept@[a].0@ && all[c].1
                                == kept@[a].1
                    },
                forall|c: int|
                    0 <= c < i && (#[trigger] all[c]).0@ != name && age(now, all[c].1)
                        <= KEPT_NANOS ==> exists|a: int|
                        0 <= a < kept@.len() && (#[trigger] kept@[a]).0@ == all[c].0@ && kept@[a].1
                            == all[c].1,
                news == !(exists|c: int|
                    0 <= c < i && (#[trigger] all[c]).0@ == name && age(now, all[c].1)
                        <= QUIET_NANOS),
            decreases self.entries@.len() - i,
        {
            let seen: u64 = self.entries[i].1;
            let fresh = elapsed(now, seen) <= KEPT_NANOS;
            if same_text(self.entries[i].0.as_str(), key.as_str()) {
                if elapsed(now, seen) <= QUIET_NANOS {
                    assert(all[i as int].0@ == name);
                    news = false;
                }
            } else if fresh {
                let ghost before = kept@;
                let entry = (self.entries[i].0.clone(), seen);
                kept.push(entry);
                assert(kept@[before.len() as int].0@ == all[i as int].0@);
                assert forall|a: int, b: int| 0 <= a < b < kept@.len() implies #[trigger] kept@[a].0@
                    != #[trigger] kept@[b].0@ by {
                    if b == before.len() {
                        assert(kept@[a] == before[a]);
                        let c = choose|c: int|
                            0 <= c < i && (#[trigger] all[c]).0@ == before[a].0@ && all[c].1
                                == before[a].1;
                        assert(all[c].0@ != all[i as int].0@);
                    } else {
                        assert(kept@[a] == before[a] && kept@[b] == before[b]);
                    }
                }
                assert forall|c: int|
                    0 <= c < i + 1 && (#[trigger] all[c]).0@ != name && age(now, all[c].1)
                        <= KEPT_NANOS implies exists|a: int|
                    0 <= a < kept@.len() && (#[trigger] kept@[a]).0@ == all[c].0@ && kept@[a].1
                        == all[c].1 by {
                    if c < i {
                        let a = choose|a: int|
                            0 <= a < before.len() && (#[trigger] before[a]).0@ == all[c].0@
                                && before[a].1 == all[c].1;
                        assert(kept@[a] == before[a]);
                    }
                }
                assert forall|a: int| 0 <= a < kept@.len() implies {
                    &&& (#[trigger] kept@[a]).0@ != name
                    &&& age(now, kept@[a].1) <= KEPT_NANOS
                    &&& exists|c: int|
                        0 <= c < i + 1 && (#[trigger] all[c]).0@ == kept@[a].0@ && all[c].1
                            == kept@[a].1
                } by {
                    if a < before.len() {
                        assert(kept@[a] == before[a]);
                        let c = choose|c: int|
                            0 <= c < i && (#[trigger] all[c]).0@ == before[a].0@ && all[c].1
                                == before[a].1;
                        assert(all[c].0@ == kept@[a].0@);
                    }
                }
            }
            i += 1;
        }
        let ghost rest = kept@;
        kept.push((key, now));
        let ghost now_told = kept@;
        proof {
            assert forall|a: int, b: int| 0 <= a < b < now_told.len() implies #[trigger] now_told[a].0@
                != #[trigger] now_told[b].0@ by {
                if b == rest.len() {
                    assert(now_told[a] == rest[a]);
                } else {
                    assert(now_told[a] == rest[a] && now_told[b] == rest[b]);
                }
            }
            assert(now_told.drop_last() =~= rest);
            lemma_told_map(all, rest, now_told, name, now);
        }
        self.entries = kept;
        assert(self@ =~= still_kept(old(self)@, now).insert(name, now));
        news
    }
}

proof fn lemma_told_map(
    all: Seq<(String, u64)>,
    rest: Seq<(String, u64)>,
    after: Seq<(String, u64)>,
    name: Seq<char>,
    now: u64,
)
    requires
        forall|a: int, b: int|
            0 <= a < b < all.len() ==> #[trigger] all[a].0@ != #[trigger] all[b].0@,
        after.len() == rest.len() + 1,
        after.last().0@ == name,
        after.last().1 == now,
        after.drop_last() == rest,
        forall|a: int, b: int|
            0 <= a < b < after.len() ==> #[trigger] after[a].0@ != #[trigger] after[b].0@,
        forall|a: int|
            0 <= a < rest.len() ==> {
                &&& (#[trigger] rest[a]).0@ != name
                &&& age(now, rest[a].1) <= KEPT_NANOS
                &&& exists|c: int|
                    0 <= c < all.len() && (#[trigger] all[c]).0@ == rest[a].0@ && all[c].1
                        == rest[a].1
            },
        forall|c: int|
            0 <= c < all.len() && (#[trigger] all[c]).0@ != name && age(now, all[c].1)
                <= KEPT_NANOS ==> exists|a: int|
                0 <= a < rest.len() && (#[trigger] rest[a]).0@ == all[c].0@ && rest[a].1
                    == all[c].1,
    ensures
        forall|q: Seq<char>|
            q != name ==> #[trigger] lookup(after, q) == (match lookup(all, q) {
                Some(then) => if age(now, then) <= KEPT_NANOS {
                    Some(then)
                } else {
                    None
                },
                None => None,
            }),
        lookup(after, name) == Some(now),
        match lookup(all, name) {
            Some(then) => exists|c: int|
                0 <= c < all.len() && (#[trigger] all[c]).0@ == name && all[c].1 == then,
            None => forall|c: int| 0 <= c < all.len() ==> (#[trigger] all[c]).0@ != name,
        },
        forall|c: int|
            0 <= c < all.len() && (#[trigger] all[c]).0@ == name ==> lookup(all, name) == Some(
                all[c].1,
            ),
{
    assert forall|q: Seq<char>| q != name implies #[trigger] lookup(after, q) == (match lookup(
        all,
        q,
    ) {
        Some(then) => if age(now, then) <= KEPT_NANOS {
            Some(then)
        } else {
            None
        },
        None => None,
    }) by {
        if exists|c: int| 0 <= c < all.len() && (#[trigger] all[c]).0@ == q {
            let c = choose|c: int| 0 <= c < all.len() && (#[trigger] all[c]).0@ == q;
            lemma_lookup_distinct(all, q, c);
            if age(now, all[c].1) <= KEPT_NANOS {
                let a = choose|a: int|
                    0 <= a < rest.len() && (#[trigger] rest[a]).0@ == all[c].0@ && rest[a].1
                        == all[c].1;
                assert(after[a] == rest[a]);
                lemma_lookup_distinct(after, q, a);
            } else {
                assert forall|a: int| 0 <= a < after.len() implies (#[trigger] after[a]).0@ != q by {
                    if a < rest.len() {
                        assert(after[a] == rest[a]);
                        if rest[a].0@ == q {
                            let d = choose|d: int|
                                0 <= d < all.len() && (#[trigger] all[d]).0@ == rest[a].0@
                                    && all[d].1 == rest[a].1;
                            if d < c {
                                assert(all[d].0@ != all[c].0@);
                            } else if c < d {
                                assert(all[c].0@ != all[d].0@);
                            }
                        }
                    }
                }
                lemma_lookup_absent(after, q);
            }
        } else {
            lemma_lookup_absent(all, q);
            assert forall|a: int| 0 <= a < after.len() implies (#[trigger] after[a]).0@ != q by {
                if a < rest.len() {
                    assert(after[a] == rest[a]);
                    if rest[a].0@ == q {
                        let d = choose|d: int|
                            0 <= d < all.len() && (#[trigger] all[d]).0@ == rest[a].0@ && all[d].1
                                == rest[a].1;
                        assert(all[d].0@ == q);
                    }
                }
            }
            lemma_lookup_absent(after, q);
        }
    }
    assert forall|c: int| 0 <= c < all.len() && (#[trigger] all[c]).0@ == name implies lookup(
        all,
        name,
    ) == Some(all[c].1) by {
        lemma_lookup_distinct(all, name, c);
    }
    if forall|c: int| 0 <= c < all.len() ==> (#[trigger] all[c]).0@ != name {
        lemma_lookup_absent(all, name);
    }
}

// ---------------------------------------------------------------------------
// What makes blocks alike
// ---------------------------------------------------------------------------
/// The name of a protocol in a key.
pub open spec fn protocol_word(protocol: InterceptionProtocol) -> Seq<char> {
    match protocol {
        InterceptionProtocol::Http => "Http"@,
        InterceptionProtocol::Https => "Https"@,
        InterceptionProtocol::Unknown => "Unknown"@,
    }
}

/// The host of a URL in a key.
pub open spec fn key_host(url: Seq<char>) -> Seq<char> {
    named_host(url, "unknown"@)
}

/// What makes blocks alike: host, rule, protocol and outcomes.
pub open spec fn notice_key(
    rule_id: Seq<char>,
    host: Seq<char>,
    protocol: InterceptionProtocol,
    results: Seq<SummaryView>,
) -> Seq<char> {
    host + "\u{1f}"@ + rule_id + "\u{1f}"@ + protocol_word(protocol) + "\u{1f}"@ + results_json(
        results,
    )
}

/// What makes blocks alike, where the host is known.
pub fn key_of(
    rule_id: &str,
    host: &str,
    protocol: InterceptionProtocol,
    results: &[ActionExecutionSummary],
) -> (r: String)
    ensures
        r@ == notice_key(rule_id@, host@, protocol, summaries(results@)),
{
    let mut out = host.to_owned();
    out.append("\u{1f}");
    out.append(rule_id);
    out.append("\u{1f}");
    match protocol {
        InterceptionProtocol::Http => out.append("Http"),
        InterceptionProtocol::Https => out.append("Https"),
        InterceptionProtocol::Unknown => out.append("Unknown"),
    }
    out.append("\u{1f}");
    out.append(results_json_text(results).as_str());
    out
}

/// What makes blocks alike.
pub fn action_notice_key(
    rule_id: &str,
    request: &str,
    protocol: InterceptionProtocol,
    results: &[ActionExecutionSummary],
) -> (r: String)
    ensures
        r@ == notice_key(rule_id@, key_host(request@), protocol, summaries(results@)),
{
    let host = host_or(parse_url(request), "unknown");
    key_of(rule_id, host.as_str(), protocol, results)
}

// ---------------------------------------------------------------------------
// Cards and unread responses
// ---------------------------------------------------------------------------
/// A card in the window.
#[derive(Debug)]
pub struct ActionToast {
    pub group: ActionEventGroup,
    pub image: Option<ImagePresentation>,
}

/// `ActionToast` as a value.
#[verifier::ext_equal]
pub struct ToastView {
    pub group: GroupView,
    pub image: Option<ImageView>,
}

impl View for ActionToast {
    type V = ToastView;

    open spec fn view(&self) -> ToastView {
        ToastView { group: self.group@, image: opt_image(self.image) }
    }
}

/// How the user is told of blocks.
#[derive(Debug)]
pub struct Notices {
    pub told: Told,
    /// How many responses the user has not looked at.
    pub unread: u32,
    pub toast: Option<ActionToast>,
    /// Which card is shown; a later one has another number.
    pub generation: u64,
}

/// `Notices` as a value.
#[verifier::ext_equal]
pub struct NoticesView {
    pub told: Map<Seq<char>, u64>,
    pub unread: u32,
    pub toast: Option<ToastView>,
    pub generation: u64,
}

/// The value of an optional card.
pub open spec fn opt_toast(toast: Option<ActionToast>) -> Option<ToastView> {
    match toast {
        Some(t) => Some(t@),
        None => None,
    }
}

impl View for Notices {
    type V = NoticesView;

    open spec fn view(&self) -> NoticesView {
        NoticesView {
            told: self.told@,
            unread: self.unread,
            toast: opt_toast(self.toast),
            generation: self.generation,
        }
    }
}

/// The number of the next card; numbers begin anew after the greatest.
pub open spec fn next_generation(generation: u64) -> u64 {
    if generation == u64::MAX {
        0
    } else {
        (generation + 1) as u64
    }
}

/// For how many milliseconds a card is shown: as long as its picture, but not too short.
pub open spec fn toast_duration(image: Option<ImageView>) -> u64 {
    let wanted = match image {
        Some(i) => i.duration_ms,
        None => DEFAULT_DURATION_MS,
    };
    if wanted < 750 {
        750
    } else {
        wanted
    }
}

/// With a new card.
pub open spec fn with_toast(
    notices: NoticesView,
    group: GroupView,
    image: Option<ImageView>,
) -> NoticesView {
    NoticesView {
        toast: Some(ToastView { group, image }),
        generation: next_generation(notices.generation),
        ..notices
    }
}

/// With all responses read.
pub open spec fn all_read(notices: NoticesView) -> NoticesView {
    NoticesView {
        unread: 0,
        toast: None,
        generation: next_generation(notices.generation),
        ..notices
    }
}

/// One more, up to the greatest number.
pub open spec fn one_more(n: u32) -> u32 {
    if n == u32::MAX {
        n
    } else {
        (n + 1) as u32
    }
}

/// After a block. Where the user is looking at the responses, all are read. Otherwise one that is
/// news counts as unread and, in a window that is not hidden, is shown on a card; one that is not
/// brings the card that is shown up to date.
pub open spec fn after_block(
    notices: NoticesView,
    key: Seq<char>,
    now: u64,
    latest: Option<GroupView>,
    image: Option<ImageView>,
    looking: bool,
    hidden: bool,
) -> NoticesView {
    let news = is_news(still_kept(notices.told, now), key, now);
    let noticed = NoticesView {
        told: still_kept(notices.told, now).insert(key, now),
        ..notices
    };
    if looking && !hidden {
        all_read(noticed)
    } else {
        match latest {
            None => noticed,
            Some(group) => if news {
                let counted = NoticesView { unread: one_more(noticed.unread), ..noticed };
                if hidden {
                    counted
                } else {
                    with_toast(counted, group, image)
                }
            } else {
                match noticed.toast {
                    Some(toast) => NoticesView {
                        toast: Some(ToastView { group, ..toast }),
                        ..noticed
                    },
                    None => noticed,
                }
            },
        }
    }
}

/// A card that is to be taken away after a time.
#[derive(Debug, Clone, Copy, PartialEq, Eq, Structural)]
pub struct Timed {
    pub generation: u64,
    pub duration_ms: u64,
}

fn following(generation: u64) -> (r: u64)
    ensures
        r == next_generation(generation),
{
    if generation == u64::MAX {
        0
    } else {
        generation + 1
    }
}

impl Notices {
    /// Nothing was told yet.
    pub fn new() -> (r: Notices)
        ensures
            r@ == (NoticesView {
                told: Map::<Seq<char>, u64>::empty(),
                unread: 0,
                toast: None,
                generation: 0,
            }),
    {
        Notices { told: Told::new(), unread: 0, toast: None, generation: 0 }
    }

    /// Shows a card, and tells for how long.
    pub fn show_toast(&mut self, group: ActionEventGroup, image: Option<ImagePresentation>) -> (r:
        Timed)
        ensures
            final(self)@ == with_toast(old(self)@, group@, opt_image(image)),
            r.generation == final(self)@.generation,
            r.duration_ms == toast_duration(opt_image(image)),
    {
        let wanted: u64 = match &image {
            Some(i) => i.duration_ms,
            None => DEFAULT_DURATION_MS,
        };
        let duration_ms: u64 = if wanted < 750 {
            750
        } else {
            wanted
        };
        self.toast = Some(ActionToast { group, image });
        self.generation = following(self.generation);
        Timed { generation: self.generation, duration_ms }
    }

    /// Takes a card away, unless there is another by now.
    pub fn hide_toast(&mut self, generation: u64) -> (r: bool)
        ensures
            r == (old(self)@.generation == generation),
            final(self)@ == (if r {
                NoticesView { toast: None, ..old(self)@ }
            } else {
                old(self)@
            }),
    {
        if self.generation == generation {
            self.toast = None;
            true
        } else {
            false
        }
    }

    /// The user has looked at the responses.
    pub fn clear_unread(&mut self)
        ensures
            final(self)@ == all_read(old(self)@),
    {
        self.unread = 0;
        self.toast = None;
        self.generation = following(self.generation);
    }

    /// A request was blocked. `latest` is the group that it belongs to; `looking` tells whether the
    /// page of the responses is turned to, `hidden` whether the window is hidden. Tells of a card
    /// that is newly shown.
    pub fn blocked(
        &mut self,
        key: String,
        now: u64,
        latest: Option<ActionEventGroup>,
        image: Option<ImagePresentation>,
        looking: bool,
        hidden: bool,
    ) -> (r: Option<Timed>)
        ensures
            final(self)@ == after_block(
                old(self)@,
                key@,
                now,
                match latest {
                    Some(group) => Some(group@),
                    None => None,
                },
                opt_image(image),
                looking,
                hidden,
            ),
            r matches Some(timed) <==> (!(looking && !hidden) && !hidden && latest is Some
                && is_news(still_kept(old(self)@.told, now), key@, now)),
            r matches Some(timed) ==> timed.generation == final(self)@.generation
                && timed.duration_ms == toast_duration(opt_image(image)),
    {
        let news = self.told.tell(key, now);
        if looking && !hidden {
            self.clear_unread();
            return None;
        }
        match latest {
            None => None,
            Some(group) => {
                if news {
                    if self.unread < u32::MAX {
                        self.unread = self.unread + 1;
                    }
                    if hidden {
                        None
                    } else {
                        Some(self.show_toast(group, image))
                    }
                } else {
                    let mut shown: Option<ActionToast> = None;
                    std::mem::swap(&mut shown, &mut self.toast);
                    if let Some(toast) = shown {
                        self.toast = Some(ActionToast { group, image: toast.image });
                    }
                    None
                }
            },
        }
    }
}

/// The groups with the outcomes of the newest as they have just come, errors and all.
pub open spec fn refreshed(groups: Seq<GroupView>, results: Seq<SummaryView>) -> Seq<GroupView> {
    if groups.len() == 0 {
        groups
    } else {
        groups.update(0, GroupView { action_results: results, ..groups[0] })
    }
}

/// Gives the newest group the outcomes that have just come, errors and all.
pub fn refresh_latest(groups: &mut Vec<ActionEventGroup>, results: &[ActionExecutionSummary])
    ensures
        group_views(final(groups)@) == refreshed(group_views(old(groups)@), summaries(results@)),
{
    if groups.len() > 0 {
        let ghost before = group_views(groups@);
        let mut latest = groups[0].clone();
        latest.action_results = copy_summaries(results);
        assert(before[0] == groups@[0]@);
        groups.set(0, latest);
        assert(group_views(groups@) =~= before.update(0, latest@));
    }
}

/// The newest of groups that stand newest first.
pub open spec fn newest(groups: Seq<GroupView>) -> Option<GroupView> {
    if groups.len() == 0 {
        None
    } else {
        Some(groups[0])
    }
}

/// A request was blocked, and the groups have been read anew: gives the newest group the outcomes
/// that have just come, tells the user as far as it is news, and notes the block in the window.
/// Tells of a card that is newly shown.
pub fn show_block(
    shell: &mut Shell,
    notices: &mut Notices,
    groups: &mut Vec<ActionEventGroup>,
    rule_id: &str,
    request: &str,
    protocol: InterceptionProtocol,
    results: &[ActionExecutionSummary],
    image: Option<ImagePresentation>,
    now: u64,
) -> (r: Option<Timed>)
    ensures
        group_views(final(groups)@) == refreshed(group_views(old(groups)@), summaries(results@)),
        final(notices)@ == after_block(
            old(notices)@,
            notice_key(rule_id@, key_host(request@), protocol, summaries(results@)),
            now,
            newest(group_views(final(groups)@)),
            opt_image(image),
            old(shell)@.page == Page::Actions,
            old(shell)@.window_hidden,
        ),
        final(shell)@ == noted(
            old(shell)@,
            block_message(rule_id@, results@.len(), request@),
        ),
        r is Some <==> !old(shell)@.window_hidden && old(shell)@.page != Page::Actions && old(
            groups,
        )@.len() > 0 && is_news(
            still_kept(old(notices)@.told, now),
            notice_key(rule_id@, key_host(request@), protocol, summaries(results@)),
            now,
        ),
        r matches Some(timed) ==> timed.generation == final(notices)@.generation
            && timed.duration_ms == toast_duration(opt_image(image)),
{
    refresh_latest(groups, results);
    let key = action_notice_key(rule_id, request, protocol, results);
    let latest = if groups.len() > 0 {
        Some(groups[0].clone())
    } else {
        None
    };
    let timed = notices.blocked(
        key,
        now,
        latest,
        image,
        shell.page == Page::Actions,
        shell.window_hidden,
    );
    shell.note_block(rule_id, results.len(), request);
    timed
}

/// Blocks that are alike are told once within the quiet time: right after one was kept, another
/// within that time is no news, and later one is.
pub proof fn law_alike_blocks_are_told_once(
    told: Map<Seq<char>, u64>,
    key: Seq<char>,
    then: u64,
    now: u64,
)
    requires
        then <= now,
    ensures
        is_news(still_kept(told.insert(key, then), now), key, now) == (now - then > QUIET_NANOS),
{
}

/// Blocks that differ do not silence each other.
pub proof fn law_different_blocks_are_told(
    told: Map<Seq<char>, u64>,
    key: Seq<char>,
    other: Seq<char>,
    then: u64,
    now: u64,
)
    requires
        key != other,
    ensures
        is_news(still_kept(told.insert(other, then), now), key, now) == is_news(
            still_kept(told, now),
            key,
            now,
        ),
{
}

/// A card is taken away by its own time only: showing another first, or reading the responses, leaves
/// the later state as it is.
pub proof fn law_old_card_does_not_hide_a_new_one(
    notices: NoticesView,
    group: GroupView,
    image: Option<ImageView>,
)
    ensures
        with_toast(notices, group, image).generation != notices.generation,
        all_read(notices).generation != notices.generation,
{
}

// ---------------------------------------------------------------------------
// The tray
// ---------------------------------------------------------------------------
/// What the icon in the tray says.
pub open spec fn tooltip_text(unread: u32) -> Seq<char> {
    if unread == 0 {
        "Net Sentinel · 无未读响应"@
    } else if unread > 99 {
        "Net Sentinel · 99+ 条未读响应"@
    } else {
        "Net Sentinel · "@ + digits(unread as nat) + " 条未读响应"@
    }
}

/// What the icon in the tray says.
pub fn tray_tooltip(unread: u32) -> (r: String)
    ensures
        r@ == tooltip_text(unread),
{
    if unread == 0 {
        "Net Sentinel · 无未读响应".to_owned()
    } else if unread > 99 {
        "Net Sentinel · 99+ 条未读响应".to_owned()
    } else {
        let mut out = "Net Sentinel · ".to_owned();
        out.append(decimal_text(unread as u64).as_str());
        out.append(" 条未读响应");
        out
    }
}

/// The width and height of the icon in the tray.
pub const ICON_SIZE: u32 = 32;

/// The square of the distance of a point of the icon from its middle, in half points.
pub open spec fn from_middle(x: int, y: int) -> int {
    (2 * x - 31) * (2 * x - 31) + (2 * y - 31) * (2 * y - 31)
}

/// The square of the distance of a point of the icon from the middle of the badge.
pub open spec fn from_badge(x: int, y: int) -> int {
    (x - 25) * (x - 25) + (y - 7) * (y - 7)
}

/// The colour of a point of the icon: a red badge where there is something unread, a blue disc with
/// a stripe from corner to corner, nothing around it.
pub open spec fn icon_colour(x: int, y: int, unread: bool) -> (u8, u8, u8, u8) {
    if unread && from_badge(x, y) <= 30 {
        (205, 57, 57, 255)
    } else if from_middle(x, y) < 784 {
        if -3 < x - y < 3 {
            (255, 104, 126, 255)
        } else {
            (74, 85, 150, 255)
        }
    } else {
        (0, 0, 0, 0)
    }
}

fn colour_at(x: u32, y: u32, unread: bool) -> (r: (u8, u8, u8, u8))
    requires
        x < ICON_SIZE,
        y < ICON_SIZE,
    ensures
        r == icon_colour(x as int, y as int, unread),
{
    let dx: i32 = 2 * (x as i32) - 31;
    let dy: i32 = 2 * (y as i32) - 31;
    let bx: i32 = x as i32 - 25;
    let by: i32 = y as i32 - 7;
    let diagonal: i32 = x as i32 - y as i32;
    assert(0 <= dx * dx <= 961 && 0 <= dy * dy <= 961) by (nonlinear_arith)
        requires
            -31 <= dx <= 31,
            -31 <= dy <= 31,
    ;
    assert(0 <= bx * bx <= 625 && 0 <= by * by <= 625) by (nonlinear_arith)
        requires
            -25 <= bx <= 25,
            -25 <= by <= 25,
    ;
    if unread && bx * bx + by * by <= 30 {
        (205, 57, 57, 255)
    } else if dx * dx + dy * dy < 784 {
        if -3 < diagonal && diagonal < 3 {
            (255, 104, 126, 255)
        } else {
            (74, 85, 150, 255)
        }
    } else {
        (0, 0, 0, 0)
    }
}

/// The points of the icon in the tray, line by line, four bytes each.
pub fn tray_icon_image(unread: bool) -> (r: Vec<u8>)
    ensures
        r@.len() == 4 * ICON_SIZE * ICON_SIZE,
        forall|x: int, y: int|
            0 <= x < ICON_SIZE && 0 <= y < ICON_SIZE ==> #[trigger] pixel(r@, x, y) == icon_colour(
                x,
                y,
                unread,
            ),
{
    let mut out: Vec<u8> = Vec::new();
    let mut n: u32 = 0;
    while n < 1024
        invariant
            n <= 1024,
            out@.len() == 4 * n,
            forall|k: int|
                0 <= k < n ==> #[trigger] pixel_at(out@, k) == icon_colour(k % 32, k / 32, unread),
        decreases 1024 - n,
    {
        let (red, green, blue, alpha) = colour_at(n % 32, n / 32, unread);
        let ghost before = out@;
        out.push(red);
        out.push(green);
        out.push(blue);
        out.push(alpha);
        assert forall|k: int| 0 <= k < n + 1 implies #[trigger] pixel_at(out@, k) == icon_colour(
            k % 32,
            k / 32,
            unread,
        ) by {
            if k < n {
                assert(pixel_at(out@, k) == pixel_at(before, k));
            }
        }
        n += 1;
    }
    assert forall|x: int, y: int| 0 <= x < ICON_SIZE && 0 <= y < ICON_SIZE implies #[trigger] pixel(
        out@,
        x,
        y,
    ) == icon_colour(x, y, unread) by {
        let k = 32 * y + x;
        assert(k % 32 == x && k / 32 == y);
        assert(pixel_at(out@, k) == icon_colour(k % 32, k / 32, unread));
    }
    out
}

/// The four bytes of the point at a position.
pub open spec fn pixel_at(bytes: Seq<u8>, k: int) -> (u8, u8, u8, u8) {
    (bytes[4 * k], bytes[4 * k + 1], bytes[4 * k + 2], bytes[4 * k + 3])
}

/// The four bytes of a point.
pub open spec fn pixel(bytes: Seq<u8>, x: int, y: int) -> (u8, u8, u8, u8) {
    pixel_at(bytes, 32 * y + x)
}

/// A block is news where none like it was told within the last thirty seconds, and what was told is
/// remembered for a minute.
pub proof fn law_news_is_what_was_not_told_lately(
    told: Map<Seq<char>, u64>,
    key: Seq<char>,
    now: u64,
)
    ensures
        is_news(still_kept(told, now), key, now) <==> !told.contains_key(key) || told[key] <= now
            && now - told[key] > 30_000_000_000,
        still_kept(told, now).contains_key(key) <==> told.contains_key(key) && (told[key] > now
            || now - told[key] <= 60_000_000_000),
        still_kept(told, now).contains_key(key) ==> still_kept(told, now)[key] == told[key],
{
}

/// Blocks are alike by host, rule, protocol and outcomes: all of them stand in what they are told
/// apart by.
pub proof fn law_key_holds_what_tells_blocks_apart(
    rule_id: Seq<char>,
    host: Seq<char>,
    protocol: InterceptionProtocol,
    results: Seq<SummaryView>,
)
    ensures
        ({
            let word = match protocol {
                InterceptionProtocol::Http => "Http"@,
                InterceptionProtocol::Https => "Https"@,
                InterceptionProtocol::Unknown => "Unknown"@,
            };
            let key = notice_key(rule_id, host, protocol, results);
            &&& is_prefix(
                host + "\u{1f}"@ + rule_id + "\u{1f}"@ + word + "\u{1f}"@,
                key,
            )
            &&& is_suffix(results_json(results), key)
        }),
{
    let key = notice_key(rule_id, host, protocol, results);
    let head = host + "\u{1f}"@ + rule_id + "\u{1f}"@ + protocol_word(protocol) + "\u{1f}"@;
    let tail = results_json(results);
    assert(key.subrange(0, head.len() as int) =~= head);
    assert(key.subrange(key.len() - tail.len(), key.len() as int) =~= tail);
}

/// A card is shown as long as its picture asks for, or four and a half seconds without one, but never
/// less than three quarters of a second.
pub proof fn law_card_stays_as_long_as_its_picture(image: Option<ImageView>)
    ensures
        toast_duration(image) >= 750,
        image matches Some(i) ==> (i.duration_ms >= 750 ==> toast_duration(image) == i.duration_ms),
        image matches Some(i) ==> (i.duration_ms < 750 ==> toast_duration(image) == 750),
        image is None ==> toast_duration(image) == 4500,
{
}

/// What a block does to what the user is told: it is remembered; whoever looks at the responses has
/// read them all; otherwise news counts as unread, and is shown with its picture on a card of its own
/// in a window that is not hidden; and what is no news only brings the card that is shown up to date.
pub proof fn law_block_is_told_as_far_as_it_is_news(
    notices: NoticesView,
    key: Seq<char>,
    now: u64,
    latest: Option<GroupView>,
    image: Option<ImageView>,
    looking: bool,
    hidden: bool,
)
    ensures
        ({
            let after = after_block(notices, key, now, latest, image, looking, hidden);
            let news = !notices.told.contains_key(key) || notices.told[key] <= now && now
                - notices.told[key] > 30_000_000_000;
            &&& after.told.contains_key(key) && after.told[key] == now
            &&& looking && !hidden ==> after.unread == 0 && after.toast is None
                && after.generation != notices.generation
            &&& !(looking && !hidden) ==> {
                &&& latest is None || !news ==> after.unread == notices.unread && after.generation
                    == notices.generation
                &&& latest is None ==> after.toast == notices.toast
                &&& latest is Some && news && notices.unread < u32::MAX ==> after.unread
                    == notices.unread + 1
                &&& latest is Some && news && notices.unread == u32::MAX ==> after.unread
                    == u32::MAX
                &&& latest is Some && news && hidden ==> after.toast == notices.toast
                    && after.generation == notices.generation
                &&& latest is Some && news && !hidden ==> after.toast is Some
                    && after.toast->0.group == latest->0 && after.toast->0.image == image
                    && after.generation != notices.generation
                &&& latest is Some && !news ==> (notices.toast is Some <==> after.toast is Some)
                &&& latest is Some && !news && notices.toast is Some ==> after.toast->0.group
                    == latest->0 && after.toast->0.image == notices.toast->0.image
            }
        }),
{
    law_news_is_what_was_not_told_lately(notices.told, key, now);
}

/// The outcomes that have just come go to the newest group, and nothing else changes.
pub proof fn law_only_the_newest_group_is_refreshed(
    groups: Seq<GroupView>,
    results: Seq<SummaryView>,
    i: int,
)
    requires
        0 <= i < groups.len(),
    ensures
        refreshed(groups, results).len() == groups.len(),
        i > 0 ==> refreshed(groups, results)[i] == groups[i],
        refreshed(groups, results)[0].action_results == results,
        refreshed(groups, results)[0] == (GroupView { action_results: results, ..groups[0] }),
        newest(refreshed(groups, results)) == Some(refreshed(groups, results)[0]),
{
}

/// The whole of what a block shows: the outcomes in the newest group, the message of the block before
/// the others, and the card, if there is a new one, for the time of its picture.
pub proof fn law_block_is_shown(
    shell: &mut Shell,
    notices: &mut Notices,
    groups: &mut Vec<ActionEventGroup>,
    rule_id: &str,
    request: &str,
    protocol: InterceptionProtocol,
    results: &[ActionExecutionSummary],
    image: Option<ImagePresentation>,
    now: u64,
    r: Option<Timed>,
)
    requires
        call_ensures(
            show_block,
            (shell, notices, groups, rule_id, request, protocol, results, image, now),
            r,
        ),
    ensures
        final(shell)@.page == old(shell)@.page,
        final(shell)@.system_proxy_active == old(shell)@.system_proxy_active,
        final(shell)@.recent.len() > 0,
        is_suffix(request@, final(shell)@.recent[0]),
        final(groups)@.len() == old(groups)@.len(),
        final(groups)@.len() > 0 ==> group_views(final(groups)@)[0].action_results == summaries(
            results@,
        ),
        r matches Some(timed) ==> {
            &&& !old(shell)@.window_hidden
            &&& old(shell)@.page != Page::Actions
            &&& final(notices)@.toast is Some
            &&& final(notices)@.toast->0.image == opt_image(image)
            &&& timed.generation == final(notices)@.generation
            &&& timed.duration_ms == toast_duration(opt_image(image))
        },
{
    let message = final(shell)@.recent[0];
    let end = request@;
    assert(message == block_message(rule_id@, results@.len(), request@));
    assert(message.subrange(message.len() - end.len(), message.len() as int) =~= end);
    assert(group_views(final(groups)@).len() == group_views(old(groups)@).len());
}

/// The badge is all that tells the icon with unread responses from the one without.
pub proof fn law_icons_differ_in_the_badge(x: int, y: int)
    ensures
        (x - 25) * (x - 25) + (y - 7) * (y - 7) > 30 ==> icon_colour(x, y, true) == icon_colour(
            x,
            y,
            false,
        ),
        (x - 25) * (x - 25) + (y - 7) * (y - 7) <= 30 ==> icon_colour(x, y, true) == (
            205u8,
            57u8,
            57u8,
            255u8,
        ),
        (2 * x - 31) * (2 * x - 31) + (2 * y - 31) * (2 * y - 31) >= 784 ==> icon_colour(
            x,
            y,
            false,
        ).3 == 0,
        (2 * x - 31) * (2 * x - 31) + (2 * y - 31) * (2 * y - 31) < 784 ==> icon_colour(
            x,
            y,
            false,
        ).3 == 255,
{
}

/// The number of unread responses is told up to ninety-nine.
pub proof fn law_tooltip_tells_the_number(unread: u32, r: String)
    requires
        call_ensures(tray_tooltip, (unread,), r),
    ensures
        0 < unread <= 99 ==> r@ == "Net Sentinel · "@ + digits(unread as nat) + " 条未读响应"@,
        unread > 99 ==> r@ == "Net Sentinel · 99+ 条未读响应"@,
        unread == 0 ==> r@ == "Net Sentinel · 无未读响应"@,
{
}

/// A block of a URL is remembered under the host of the URL, or as one of an unknown host, and a new
/// card is shown just where a window shows another page, there is a group to show and none like it
/// was told within the last thirty seconds.
pub proof fn law_block_is_remembered_by_its_host(
    shell: &mut Shell,
    notices: &mut Notices,
    groups: &mut Vec<ActionEventGroup>,
    rule_id: &str,
    request: &str,
    protocol: InterceptionProtocol,
    results: &[ActionExecutionSummary],
    image: Option<ImagePresentation>,
    now: u64,
    r: Option<Timed>,
    host: Seq<char>,
)
    requires
        call_ensures(
            show_block,
            (shell, notices, groups, rule_id, request, protocol, results, image, now),
            r,
        ),
        url_error(request@) is None && url_host(request@) is Some ==> host == url_host(
            request@,
        )->0,
        url_error(request@) is Some || url_host(request@) is None ==> host == "unknown"@,
    ensures
        ({
            let key = notice_key(rule_id@, host, protocol, summaries(results@));
            let before = old(notices)@.told;
            &&& final(notices)@.told.contains_key(key) && final(notices)@.told[key] == now
            &&& r is Some <==> !old(shell)@.window_hidden && old(shell)@.page != Page::Actions
                && old(groups)@.len() > 0 && (!before.contains_key(key) || before[key] <= now
                && now - before[key] > 30_000_000_000)
        }),
{
    let key = notice_key(rule_id@, host, protocol, summaries(results@));
    assert(key_host(request@) == host);
    law_news_is_what_was_not_told_lately(old(notices)@.told, key, now);
}

/// The icon has 32 lines of 32 points of four bytes, each with the colour of its place.
pub proof fn law_icon_is_drawn_point_by_point(unread: bool, r: Vec<u8>, x: int, y: int)
    requires
        call_ensures(tray_icon_image, (unread,), r),
        0 <= x < 32,
        0 <= y < 32,
    ensures
        r@.len() == 4096,
        r@[128 * y + 4 * x] == icon_colour(x, y, unread).0,
        r@[128 * y + 4 * x + 1] == icon_colour(x, y, unread).1,
        r@[128 * y + 4 * x + 2] == icon_colour(x, y, unread).2,
        r@[128 * y + 4 * x + 3] == icon_colour(x, y, unread).3,
{
    assert(pixel(r@, x, y) == icon_colour(x, y, unread));
    assert(4 * (32 * y + x) == 128 * y + 4 * x);
}

/// A new card takes the place of an earlier one and has a number of its own; hiding by that number
/// takes the card away and leaves what is unread; reading takes all of it away.
pub proof fn law_card_is_shown_and_hidden(
    shown: &mut Notices,
    group: ActionEventGroup,
    image: Option<ImagePresentation>,
    timed: Timed,
    hidden: &mut Notices,
    generation: u64,
    done: bool,
    cleared: &mut Notices,
)
    requires
        call_ensures(Notices::show_toast, (shown, group, image), timed),
        call_ensures(Notices::hide_toast, (hidden, generation), done),
        call_ensures(Notices::clear_unread, (cleared,), ()),
    ensures
        final(shown)@.toast is Some,
        final(shown)@.toast->0.group == group@,
        final(shown)@.toast->0.image == opt_image(image),
        final(shown)@.unread == old(shown)@.unread,
        final(shown)@.generation != old(shown)@.generation,
        timed.generation == final(shown)@.generation,
        done <==> old(hidden)@.generation == generation,
        done ==> final(hidden)@.toast is None,
        !done ==> final(hidden)@.toast == old(hidden)@.toast,
        final(hidden)@.unread == old(hidden)@.unread,
        final(cleared)@.unread == 0,
        final(cleared)@.toast is None,
        final(cleared)@.generation != old(cleared)@.generation,
{
}

} // verus!
