//! How many requests were blocked over time.

use crate::analytics::{
    aged, event_views, maintained, Analytics, EventView, StoredEvent, DAY_SECONDS,
};
use crate::text::{two_digit_text, two_digits};
use vstd::prelude::*;

verus! {

/// The time that a chart covers.
#[derive(Debug, Clone, Copy, PartialEq, Eq, Structural)]
pub enum ChartRange {
    Day,
    Week,
    Month,
}

/// The seconds that a point of a chart covers.
pub open spec fn bucket_size(range: ChartRange) -> i64 {
    match range {
        ChartRange::Day => 3600,
        ChartRange::Week => 86400,
        ChartRange::Month => 86400,
    }
}

/// The number of points of a chart.
pub open spec fn bucket_number(range: ChartRange) -> nat {
    match range {
        ChartRange::Day => 24,
        ChartRange::Week => 7,
        ChartRange::Month => 30,
    }
}

impl ChartRange {
    /// The seconds that a point of the chart covers.
    pub fn bucket_seconds(self) -> (r: i64)
        ensures
            r == bucket_size(self),
    {
        match self {
            ChartRange::Day => 3600,
            ChartRange::Week => 86400,
            ChartRange::Month => 86400,
        }
    }

    /// The number of points of the chart.
    pub fn bucket_count(self) -> (r: usize)
        ensures
            r == bucket_number(self),
    {
        match self {
            ChartRange::Day => 24,
            ChartRange::Week => 7,
            ChartRange::Month => 30,
        }
    }
}

/// The point of a chart that a time belongs to: the multiple of the size next to it towards zero.
pub open spec fn bucket_start(time: int, size: int) -> int {
    if time >= 0 {
        time / size * size
    } else {
        -((-time) / size * size)
    }
}

/// The start of the first point of a chart whose last point holds the present time.
pub open spec fn first_bucket(range: ChartRange, now: i64) -> int {
    bucket_start(now as int, bucket_size(range) as int) - (bucket_number(range) - 1) * bucket_size(
        range,
    )
}

/// The start of a point of a chart.
pub open spec fn nth_bucket(range: ChartRange, now: i64, i: int) -> int {
    first_bucket(range, now) + i * bucket_size(range)
}

/// How many events belong to a point of a chart that begins at `oldest` or later.
pub open spec fn bucket_hits(events: Seq<EventView>, start: int, size: int, oldest: int) -> nat
    decreases events.len(),
{
    if events.len() == 0 {
        0
    } else {
        let t = events.last().occurred_at as int;
        bucket_hits(events.drop_last(), start, size, oldest) + (if t >= oldest && bucket_start(
            t,
            size,
        ) == start {
            1nat
        } else {
            0nat
        })
    }
}

fn start_of_bucket(time: i64, size: i64) -> (r: i128)
    requires
        size > 0,
    ensures
        r == bucket_start(time as int, size as int),
{
    let n: i128 = size as i128;
    if time >= 0 {
        let t: i128 = time as i128;
        assert(0 <= t / n * n <= t) by (nonlinear_arith)
            requires
                t >= 0,
                n > 0,
        ;
        t / n * n
    } else {
        let t: i128 = -(time as i128);
        assert(0 <= t / n * n <= t) by (nonlinear_arith)
            requires
                t >= 0,
                n > 0,
        ;
        -(t / n * n)
    }
}

/// The parts of a moment in local time that labels show.
#[derive(Debug, Clone, Copy, PartialEq, Eq, Structural)]
pub struct Moment {
    pub hour: u32,
    pub month: u32,
    pub day: u32,
}

/// The label of a point of a chart.
pub open spec fn bucket_label(range: ChartRange, moment: Moment) -> Seq<char> {
    match range {
        ChartRange::Day => two_digits(moment.hour as nat) + ":00"@,
        ChartRange::Week => two_digits(moment.month as nat) + "/"@ + two_digits(moment.day as nat),
        ChartRange::Month => two_digits(moment.month as nat) + "/"@ + two_digits(moment.day as nat),
    }
}

/// A point of a chart.
#[derive(Debug)]
pub struct SeriesPoint {
    pub label: String,
    pub count: u64,
}

impl Clone for SeriesPoint {
    fn clone(&self) -> (r: Self)
        ensures
            r == *self,
    {
        SeriesPoint { label: self.label.clone(), count: self.count }
    }
}

/// A chart.
#[derive(Debug)]
pub struct DashboardStats {
    pub series: Vec<SeriesPoint>,
}

impl Default for DashboardStats {
    fn default() -> (r: Self)
        ensures
            r.series@.len() == 0,
    {
        DashboardStats { series: Vec::new() }
    }
}

fn label_of(range: ChartRange, moment: Moment) -> (r: String)
    ensures
        r@ == bucket_label(range, moment),
{
    match range {
        ChartRange::Day => {
            let mut out = two_digit_text(moment.hour as u64);
            out.append(":00");
            out
        },
        ChartRange::Week | ChartRange::Month => {
            let mut out = two_digit_text(moment.month as u64);
            out.append("/");
            out.append(two_digit_text(moment.day as u64).as_str());
            out
        },
    }
}

/// Whether the points of a chart at this time can be told in whole seconds.
pub open spec fn chart_fits(now: i64) -> bool {
    now >= i64::MIN + 30 * DAY_SECONDS
}

/// The starts of the points of a chart, for whose moments labels are needed.
pub fn bucket_starts(range: ChartRange, now: i64) -> (r: Vec<i64>)
    requires
        chart_fits(now),
    ensures
        r@.len() == bucket_number(range),
        forall|i: int| 0 <= i < r@.len() ==> #[trigger] r@[i] == nth_bucket(range, now, i),
{
    let size: i64 = range.bucket_seconds();
    let n: usize = range.bucket_count();
    let end: i128 = start_of_bucket(now, size);
    proof {
        lemma_bucket_start(now as int, size as int);
    }
    assert(0 <= (n - 1) * size <= 29 * DAY_SECONDS) by (nonlinear_arith)
        requires
            1 <= n <= 30,
            0 < size <= DAY_SECONDS,
    ;
    let first: i128 = end - (n as i128 - 1) * (size as i128);
    let mut out: Vec<i64> = Vec::new();
    let mut i: usize = 0;
    while i < n
        invariant
            i <= n,
            n == bucket_number(range),
            n <= 30,
            size == bucket_size(range),
            0 < size <= DAY_SECONDS,
            first == first_bucket(range, now),
            first == end - (n - 1) * size,
            -DAY_SECONDS < now - end < DAY_SECONDS,
            i64::MIN <= first,
            end <= i64::MAX,
            out@.len() == i,
            forall|j: int| 0 <= j < i ==> #[trigger] out@[j] == nth_bucket(range, now, j),
        decreases n - i,
    {
        assert(0 <= i * size <= (n - 1) * size) by (nonlinear_arith)
            requires
                0 <= i < n,
                size > 0,
        ;
        let start: i128 = first + (i as i128) * (size as i128);
        out.push(start as i64);
        i += 1;
    }
    out
}

proof fn lemma_bucket_start(time: int, size: int)
    requires
        size > 0,
    ensures
        -size < time - bucket_start(time, size) < size,
        time >= 0 ==> 0 <= bucket_start(time, size) <= time,
        time < 0 ==> time <= bucket_start(time, size) <= 0,
        bucket_start(time, size) % size == 0,
{
    let t = if time >= 0 {
        time
    } else {
        -time
    };
    let q = t / size;
    assert(0 <= q * size <= t < q * size + size) by (nonlinear_arith)
        requires
            q == t / size,
            t >= 0,
            size > 0,
    ;
    assert((q * size) % size == 0) by (nonlinear_arith)
        requires
            size > 0,
    ;
    assert(-(q * size) == (-q) * size) by (nonlinear_arith);
    vstd::arithmetic::div_mod::lemma_mod_multiples_basic(-q, size);
}

/// Counts the events of a point of a chart.
fn count_hits(events: &[StoredEvent], start: i128, size: i64, oldest: i128) -> (r: u64)
    requires
        size > 0,
    ensures
        r == bucket_hits(event_views(events@), start as int, size as int, oldest as int),
{
    let ghost all = event_views(events@);
    let mut count: u64 = 0;
    let mut i: usize = 0;
    assert(all.take(0) =~= Seq::<EventView>::empty());
    while i < events.len()
        invariant
            i <= events.len(),
            size > 0,
            all == event_views(events@),
            count <= i,
            count == bucket_hits(all.take(i as int), start as int, size as int, oldest as int),
        decreases events.len() - i,
    {
        assert(all.take(i + 1).drop_last() =~= all.take(i as int));
        assert(all.take(i + 1).last() == events@[i as int]@);
        let time: i64 = events[i].occurred_at;
        if time as i128 >= oldest && start_of_bucket(time, size) == start {
            count += 1;
        }
        i += 1;
    }
    assert(all.take(i as int) =~= all);
    count
}

impl Analytics {
    /// The chart of a range that ends now. `moments` are the moments of `bucket_starts` in local
    /// time.
    pub fn dashboard(&self, range: ChartRange, now: i64, moments: &[Moment]) -> (r: DashboardStats)
        requires
            moments@.len() == bucket_number(range),
        ensures
            r.series@.len() == bucket_number(range),
            forall|i: int|
                0 <= i < r.series@.len() ==> {
                    &&& (#[trigger] r.series@[i]).label@ == bucket_label(range, moments@[i])
                    &&& r.series@[i].count == bucket_hits(
                        self@,
                        nth_bucket(range, now, i),
                        bucket_size(range) as int,
                        first_bucket(range, now),
                    )
                },
    {
        let size: i64 = range.bucket_seconds();
        let n: usize = range.bucket_count();
        proof {
            lemma_bucket_start(now as int, size as int);
        }
        assert(0 <= (n - 1) * size <= 29 * DAY_SECONDS) by (nonlinear_arith)
            requires
                1 <= n <= 30,
                0 < size <= DAY_SECONDS,
        ;
        let first: i128 = start_of_bucket(now, size) - (n as i128 - 1) * (size as i128);
        let mut series: Vec<SeriesPoint> = Vec::new();
        let mut i: usize = 0;
        while i < n
            invariant
                i <= n,
                n == bucket_number(range),
                n <= 30,
                moments@.len() == n,
                size == bucket_size(range),
                0 < size <= DAY_SECONDS,
                first == first_bucket(range, now),
                -40000000000000000000 < first < 40000000000000000000,
                series@.len() == i,
                forall|j: int|
                    0 <= j < i ==> {
                        &&& (#[trigger] series@[j]).label@ == bucket_label(range, moments@[j])
                        &&& series@[j].count == bucket_hits(
                            self@,
                            nth_bucket(range, now, j),
                            bucket_size(range) as int,
                            first_bucket(range, now),
                        )
                    },
            decreases n - i,
        {
            assert(0 <= i * size <= 30 * DAY_SECONDS) by (nonlinear_arith)
                requires
                    0 <= i < n,
                    n <= 30,
                    0 < size <= DAY_SECONDS,
                    DAY_SECONDS == 86400,
            ;
            let start: i128 = first + (i as i128) * (size as i128);
            let count: u64 = count_hits(self.events().as_slice(), start, size, first);
            let label = label_of(range, moments[i]);
            series.push(SeriesPoint { label, count });
            i += 1;
        }
        DashboardStats { series }
    }
}

/// The sum of the first points of a chart.
pub open spec fn chart_sum(events: Seq<EventView>, range: ChartRange, now: i64, n: nat) -> nat
    decreases n,
{
    if n == 0 {
        0
    } else {
        chart_sum(events, range, now, (n - 1) as nat) + bucket_hits(
            events,
            nth_bucket(range, now, n - 1),
            bucket_size(range) as int,
            first_bucket(range, now),
        )
    }
}

/// How many events fall into the time that a chart covers.
pub open spec fn events_in_chart(events: Seq<EventView>, range: ChartRange, now: i64) -> nat
    decreases events.len(),
{
    if events.len() == 0 {
        0
    } else {
        let t = events.last().occurred_at as int;
        let covered = t >= first_bucket(range, now) && bucket_start(t, bucket_size(range) as int)
            <= bucket_start(now as int, bucket_size(range) as int);
        events_in_chart(events.drop_last(), range, now) + (if covered {
            1nat
        } else {
            0nat
        })
    }
}

proof fn lemma_one_more_event(
    events: Seq<EventView>,
    range: ChartRange,
    now: i64,
    n: nat,
)
    requires
        events.len() > 0,
    ensures
        ({
            let size = bucket_size(range) as int;
            let first = first_bucket(range, now);
            let t = events.last().occurred_at as int;
            let inside = t >= first && bucket_start(t, size) < first + n * size;
            chart_sum(events, range, now, n) == chart_sum(events.drop_last(), range, now, n) + (
            if inside {
                1nat
            } else {
                0nat
            })
        }),
    decreases n,
{
    let size = bucket_size(range) as int;
    let first = first_bucket(range, now);
    let t = events.last().occurred_at as int;
    lemma_bucket_start(t, size);
    lemma_bucket_start(now as int, size);
    if n == 0 {
        assert(first + n * size == first);
        if t >= first {
            lemma_at_or_after(t, first, size);
        }
    } else {
        let m = (n - 1) as nat;
        lemma_one_more_event(events, range, now, m);
        assert(first + n * size == first + m * size + size) by (nonlinear_arith)
            requires
                n == m + 1,
        ;
        if t >= first {
            lemma_multiple_steps(bucket_start(t, size), first, m as int, size);
        }
    }
}

proof fn lemma_at_or_after(t: int, first: int, size: int)
    requires
        size > 0,
        t >= first,
        first % size == 0,
    ensures
        bucket_start(t, size) >= first,
{
    lemma_bucket_start(t, size);
    let b = bucket_start(t, size);
    if b < first {
        vstd::arithmetic::div_mod::lemma_fundamental_div_mod(b, size);
        vstd::arithmetic::div_mod::lemma_fundamental_div_mod(first, size);
        let x = b / size;
        let y = first / size;
        assert(x < y) by (nonlinear_arith)
            requires
                b == size * x,
                first == size * y,
                b < first,
                size > 0,
        ;
        assert(size * x + size <= size * y) by (nonlinear_arith)
            requires
                x < y,
                size > 0,
        ;
    }
}

proof fn lemma_multiple_steps(b: int, first: int, m: int, size: int)
    requires
        size > 0,
        b % size == 0,
        first % size == 0,
    ensures
        b < first + m * size + size && !(b < first + m * size) <==> b == first + m * size,
{
    vstd::arithmetic::div_mod::lemma_fundamental_div_mod(b, size);
    vstd::arithmetic::div_mod::lemma_fundamental_div_mod(first, size);
    let x = b / size;
    let y = first / size;
    assert(first + m * size == size * (y + m)) by (nonlinear_arith)
        requires
            first == size * y,
    ;
    if b >= size * (y + m) && b < size * (y + m) + size {
        assert(x == y + m) by (nonlinear_arith)
            requires
                b == size * x,
                b >= size * (y + m),
                b < size * (y + m) + size,
                size > 0,
        ;
    }
}

/// A chart counts every event of the time that it covers exactly once.
pub proof fn law_chart_counts_each_event_once(events: Seq<EventView>, range: ChartRange, now: i64)
    ensures
        chart_sum(events, range, now, bucket_number(range)) == events_in_chart(events, range, now),
    decreases events.len(),
{
    let n = bucket_number(range);
    let size = bucket_size(range) as int;
    let first = first_bucket(range, now);
    if events.len() == 0 {
        lemma_empty_chart(events, range, now, n);
    } else {
        law_chart_counts_each_event_once(events.drop_last(), range, now);
        lemma_one_more_event(events, range, now, n);
        let t = events.last().occurred_at as int;
        let end = bucket_start(now as int, size);
        lemma_bucket_start(t, size);
        lemma_bucket_start(now as int, size);
        assert(first + n * size == end + size) by (nonlinear_arith)
            requires
                first == end - (n - 1) * size,
        ;
        lemma_multiple_steps(bucket_start(t, size), end, 0, size);
    }
}

proof fn lemma_empty_chart(events: Seq<EventView>, range: ChartRange, now: i64, n: nat)
    requires
        events.len() == 0,
    ensures
        chart_sum(events, range, now, n) == 0,
    decreases n,
{
    if n > 0 {
        lemma_empty_chart(events, range, now, (n - 1) as nat);
    }
}

/// A maintenance takes no count from the charts as long as their time is kept: the events at a time
/// that is kept stay, at their time.
pub proof fn law_maintenance_keeps_the_counts(
    events: Seq<EventView>,
    detail_cutoff: int,
    aggregate_cutoff: int,
    start: int,
    size: int,
    oldest: int,
)
    requires
        aggregate_cutoff <= oldest,
    ensures
        bucket_hits(
            maintained(events, detail_cutoff, aggregate_cutoff),
            start,
            size,
            oldest,
        ) == bucket_hits(events, start, size, oldest),
    decreases events.len(),
{
    if events.len() > 0 {
        law_maintenance_keeps_the_counts(
            events.drop_last(),
            detail_cutoff,
            aggregate_cutoff,
            start,
            size,
            oldest,
        );
        let before = maintained(events.drop_last(), detail_cutoff, aggregate_cutoff);
        assert(before.push(aged(events.last(), detail_cutoff)).drop_last() =~= before);
    }
}

/// A stretch of the chart counts the events that lie in it, and no others.
pub proof fn law_stretch_counts_its_events(
    events: Seq<EventView>,
    start: int,
    size: int,
    oldest: int,
)
    requires
        size > 0,
        start >= 0,
        start % size == 0,
        forall|i: int| 0 <= i < events.len() ==> (#[trigger] events[i]).occurred_at >= 0,
    ensures
        bucket_hits(events, start, size, oldest) == events.filter(
            |e: EventView| e.occurred_at >= oldest && start <= e.occurred_at < start + size,
        ).len(),
    decreases events.len(),
{
    reveal(Seq::filter);
    if events.len() > 0 {
        let front = events.drop_last();
        assert forall|i: int| 0 <= i < front.len() implies (#[trigger] front[i]).occurred_at
            >= 0 by {
            assert(front[i] == events[i]);
        }
        law_stretch_counts_its_events(front, start, size, oldest);
        let t = events[events.len() - 1].occurred_at as int;
        lemma_stretch(t, start, size);
    }
}

proof fn lemma_stretch(t: int, start: int, size: int)
    requires
        size > 0,
        start >= 0,
        start % size == 0,
        t >= 0,
    ensures
        bucket_start(t, size) == start <==> start <= t < start + size,
{
    assert(t == t / size * size + t % size && 0 <= t % size < size) by (nonlinear_arith)
        requires
            size > 0,
            t >= 0,
    ;
    assert(start == start / size * size) by (nonlinear_arith)
        requires
            size > 0,
            start % size == 0,
    ;
    if start <= t < start + size {
        assert(t / size == start / size) by (nonlinear_arith)
            requires
                size > 0,
                start == start / size * size,
                start <= t < start + size,
                t == t / size * size + t % size,
                0 <= t % size < size,
        ;
    }
}

/// The chart ends with the stretch that holds the present, and its stretches follow on each other: 24
/// hours, 7 days or 30 days.
pub proof fn law_chart_covers_its_range(range: ChartRange, now: i64, i: int)
    requires
        now >= 0,
    ensures
        match range {
            ChartRange::Day => bucket_number(range) == 24 && bucket_size(range) == 3600,
            ChartRange::Week => bucket_number(range) == 7 && bucket_size(range) == 86400,
            ChartRange::Month => bucket_number(range) == 30 && bucket_size(range) == 86400,
        },
        ({
            let last = nth_bucket(range, now, bucket_number(range) - 1);
            last <= now < last + bucket_size(range)
        }),
        nth_bucket(range, now, i + 1) == nth_bucket(range, now, i) + bucket_size(range),
        nth_bucket(range, now, 0) == first_bucket(range, now),
{
    let size = bucket_size(range) as int;
    let n = bucket_number(range) as int;
    assert((i + 1) * size == i * size + size) by (nonlinear_arith);
    let t = now as int;
    assert(t == t / size * size + t % size && 0 <= t % size < size) by (nonlinear_arith)
        requires
            size > 0,
            t >= 0,
    ;
    assert(nth_bucket(range, now, n - 1) == bucket_start(now as int, size));
}

} // verus!
