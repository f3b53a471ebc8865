//! The blocked requests as a table.

use crate::analytics::{event_views, Analytics, EventView, StoredEvent};
use crate::text::{
    chars_of, decimal_text, digits, signed_decimal, signed_digits, text_of,
};
use vstd::prelude::*;

verus! {

/// A character inside a cell: a quotation mark is doubled.
pub open spec fn cell_char(c: char) -> Seq<char> {
    if c == '"' {
        seq!['"', '"']
    } else {
        seq![c]
    }
}

/// A text inside a cell.
pub open spec fn cell_text(text: Seq<char>) -> Seq<char>
    decreases text.len(),
{
    if text.len() == 0 {
        Seq::empty()
    } else {
        cell_char(text[0]) + cell_text(text.drop_first())
    }
}

/// A cell of a table in CSV.
pub open spec fn cell(text: Seq<char>) -> Seq<char> {
    seq!['"'] + cell_text(text) + seq!['"']
}

/// A cell of a table in CSV.
pub fn csv_cell(value: &str) -> (r: String)
    ensures
        r@ == cell(value@),
{
    let chars = chars_of(value);
    let mut out = String::new();
    out.push('"');
    let mut i: usize = 0;
    assert(chars@.skip(0) =~= chars@);
    assert(out@ + cell_text(chars@.skip(0)) =~= seq!['"'] + cell_text(value@));
    while i < chars.len()
        invariant
            i <= chars@.len(),
            out@ + cell_text(chars@.skip(i as int)) == seq!['"'] + cell_text(value@),
        decreases chars@.len() - i,
    {
        let c: char = chars[i];
        let ghost before = out@;
        let ghost rest = cell_text(chars@.skip(i + 1));
        assert(chars@.skip(i as int).drop_first() =~= chars@.skip(i + 1));
        if c == '"' {
            out.push('"');
        }
        out.push(c);
        assert(out@ =~= before + cell_char(c));
        assert(before + (cell_char(c) + rest) =~= out@ + rest);
        i += 1;
    }
    assert(out@ =~= seq!['"'] + cell_text(value@));
    out.push('"');
    assert(out@ =~= cell(value@));
    out
}

/// Reads a cell behind its opening quotation mark: the text and what follows the cell.
pub open spec fn read_cell(s: Seq<char>) -> Option<(Seq<char>, Seq<char>)>
    decreases s.len(),
{
    if s.len() == 0 {
        None
    } else if s[0] != '"' {
        match read_cell(s.drop_first()) {
            Some((text, rest)) => Some((seq![s[0]] + text, rest)),
            None => None,
        }
    } else if s.len() > 1 && s[1] == '"' {
        match read_cell(s.skip(2)) {
            Some((text, rest)) => Some((seq!['"'] + text, rest)),
            None => None,
        }
    } else {
        Some((Seq::empty(), s.skip(1)))
    }
}

/// Reading back a cell gives its text and what follows it, whatever the text holds.
pub proof fn law_cell_round_trip(text: Seq<char>, rest: Seq<char>)
    requires
        rest.len() == 0 || rest[0] != '"',
    ensures
        (cell(text) + rest)[0] == '"',
        read_cell((cell(text) + rest).drop_first()) == Some((text, rest)),
    decreases text.len(),
{
    let inner = (cell(text) + rest).drop_first();
    assert(inner =~= cell_text(text) + seq!['"'] + rest);
    if text.len() == 0 {
        assert(inner =~= seq!['"'] + rest);
        assert(inner.skip(1) =~= rest);
        if rest.len() > 0 {
            assert(inner[1] == rest[0]);
        }
        assert(text =~= Seq::<char>::empty());
    } else {
        let tail = text.drop_first();
        law_cell_round_trip(tail, rest);
        let next = (cell(tail) + rest).drop_first();
        assert(next =~= cell_text(tail) + seq!['"'] + rest);
        assert(inner =~= cell_char(text[0]) + next);
        if text[0] == '"' {
            assert(inner[0] == '"' && inner[1] == '"');
            assert(inner.skip(2) =~= next);
        } else {
            assert(inner[0] == text[0]);
            assert(inner.drop_first() =~= next);
        }
        assert(seq![text[0]] + tail =~= text);
    }
}

/// The line of an event.
pub open spec fn event_line(event: EventView) -> Seq<char> {
    signed_digits(event.occurred_at as int) + ","@ + cell(event.rule_id) + ","@ + cell(event.host)
        + ","@ + cell(event.path) + ","@ + digits(event.action_count as nat) + ","@ + signed_digits(
        event.detail_redacted as int,
    ) + ","@ + cell(event.protocol) + ","@ + cell(event.action_results_json) + "\n"@
}

/// The lines of events.
pub open spec fn event_lines(events: Seq<EventView>) -> Seq<char>
    decreases events.len(),
{
    if events.len() == 0 {
        Seq::empty()
    } else {
        event_lines(events.drop_last()) + event_line(events.last())
    }
}

/// The table of events in CSV, with a line of headings.
pub open spec fn event_table(events: Seq<EventView>) -> Seq<char> {
    "occurred_at,rule_id,host,path,action_count,detail_redacted,protocol,action_results_json\n"@
        + event_lines(events)
}

fn event_line_text(event: &StoredEvent) -> (r: String)
    ensures
        r@ == event_line(event@),
{
    let mut out = text_of(signed_decimal(event.occurred_at).as_slice());
    out.append(",");
    out.append(csv_cell(event.rule_id.as_str()).as_str());
    out.append(",");
    out.append(csv_cell(event.host.as_str()).as_str());
    out.append(",");
    out.append(csv_cell(event.path.as_str()).as_str());
    out.append(",");
    out.append(decimal_text(event.action_count).as_str());
    out.append(",");
    out.append(text_of(signed_decimal(event.detail_redacted).as_slice()).as_str());
    out.append(",");
    out.append(csv_cell(event.protocol.as_str()).as_str());
    out.append(",");
    out.append(csv_cell(event.action_results_json.as_str()).as_str());
    out.append("\n");
    out
}

impl Analytics {
    /// The table of the events in CSV, from new to old.
    pub fn export_csv(&self) -> (r: String)
        ensures
            r@ == event_table(self@),
    {
        let events = self.events();
        let ghost all = self@;
        let mut lines = String::new();
        let mut i: usize = 0;
        assert(all.take(0) =~= Seq::<EventView>::empty());
        while i < events.len()
            invariant
                i <= events@.len(),
                all == event_views(events@),
                lines@ == event_lines(all.take(i as int)),
            decreases events@.len() - i,
        {
            assert(all.take(i + 1).drop_last() =~= all.take(i as int));
            assert(all.take(i + 1).last() == events@[i as int]@);
            lines.append(event_line_text(&events[i]).as_str());
            i += 1;
        }
        assert(all.take(i as int) =~= all);
        let mut out =
            "occurred_at,rule_id,host,path,action_count,detail_redacted,protocol,action_results_json\n".to_owned();
        out.append(lines.as_str());
        out
    }
}

/// The table has a line for each event, in their order, behind the line of names.
pub proof fn law_table_has_a_line_for_each_event(events: Seq<EventView>, event: EventView)
    ensures
        event_table(Seq::<EventView>::empty())
            == "occurred_at,rule_id,host,path,action_count,detail_redacted,protocol,action_results_json\n"@,
        event_table(events.push(event)) == event_table(events) + event_line(event),
{
    assert(events.push(event).drop_last() =~= events);
    assert(event_table(Seq::<EventView>::empty())
        =~= "occurred_at,rule_id,host,path,action_count,detail_redacted,protocol,action_results_json\n"@);
    assert(event_table(events.push(event)) =~= event_table(events) + event_line(event));
}

proof fn lemma_cell_follows(start: Seq<char>, value: Seq<char>, rest: Seq<char>)
    requires
        rest.len() == 0 || rest[0] != '"',
    ensures
        ({
            let text = start + (","@ + (cell(value) + rest));
            &&& text.take(start.len() as int + 2) == start + ",\""@
            &&& read_cell(text.skip(start.len() as int + 2)) == Some((value, rest))
        }),
{
    reveal_strlit(",");
    reveal_strlit(",\"");
    let inside = cell(value) + rest;
    let text = start + (","@ + inside);
    law_cell_round_trip(value, rest);
    assert(inside[0] == '"');
    assert(text.take(start.len() as int + 2) =~= start + ",\""@);
    assert(text.skip(start.len() as int + 2) =~= inside.drop_first());
}

proof fn lemma_regrouped(a: Seq<char>, b: Seq<char>, c: Seq<char>)
    ensures
        a + b + c == a + (b + c),
{
    assert(a + b + c =~= a + (b + c));
}

/// A line is a number, a cell and what follows, of which each part is a cell and what follows it.
proof fn lemma_line_by_cells(event: EventView)
    ensures
        ({
            let time = signed_digits(event.occurred_at as int);
            let numbers = ","@ + digits(event.action_count as nat) + ","@ + signed_digits(
                event.detail_redacted as int,
            );
            let r4 = ","@ + (cell(event.action_results_json) + "\n"@);
            let r3 = ","@ + (cell(event.protocol) + r4);
            let r2 = ","@ + (cell(event.path) + (numbers + r3));
            let r1 = ","@ + (cell(event.host) + r2);
            event_line(event) == time + (","@ + (cell(event.rule_id) + r1))
        }),
{
    let time = signed_digits(event.occurred_at as int);
    let n = digits(event.action_count as nat);
    let g = signed_digits(event.detail_redacted as int);
    let numbers = ","@ + n + ","@ + g;
    let r4 = ","@ + (cell(event.action_results_json) + "\n"@);
    let r3 = ","@ + (cell(event.protocol) + r4);
    let r2 = ","@ + (cell(event.path) + (numbers + r3));
    let r1 = ","@ + (cell(event.host) + r2);
    let a = time + ","@ + cell(event.rule_id);
    let b = a + ","@ + cell(event.host);
    let c = b + ","@ + cell(event.path);
    let d = c + ","@ + n + ","@ + g;
    let e = d + ","@ + cell(event.protocol);
    let f = e + ","@ + cell(event.action_results_json);
    lemma_regrouped(e + ","@, cell(event.action_results_json), "\n"@);
    lemma_regrouped(e, ","@, cell(event.action_results_json) + "\n"@);
    assert(f + "\n"@ == e + r4);
    lemma_regrouped(d + ","@, cell(event.protocol), r4);
    lemma_regrouped(d, ","@, cell(event.protocol) + r4);
    assert(e + r4 == d + r3);
    lemma_regrouped(c + ","@, n, ","@);
    lemma_regrouped(c, ","@, n + ","@);
    lemma_regrouped(c, ","@ + (n + ","@), g);
    lemma_regrouped(","@, n, ","@);
    assert(d == c + numbers);
    lemma_regrouped(c, numbers, r3);
    assert(d + r3 == c + (numbers + r3));
    lemma_regrouped(b + ","@, cell(event.path), numbers + r3);
    lemma_regrouped(b, ","@, cell(event.path) + (numbers + r3));
    assert(c + (numbers + r3) == b + r2);
    lemma_regrouped(a + ","@, cell(event.host), r2);
    lemma_regrouped(a, ","@, cell(event.host) + r2);
    assert(b + r2 == a + r1);
    lemma_regrouped(time + ","@, cell(event.rule_id), r1);
    lemma_regrouped(time, ","@, cell(event.rule_id) + r1);
}

/// What is written of an event can be read again, cell by cell: the time, the rule, the host, the
/// path, the number of actions, whether details are gone, the protocol and the outcomes.
pub proof fn law_line_holds_the_event(event: EventView)
    ensures
        ({
            let time = signed_digits(event.occurred_at as int);
            let counts = ","@ + digits(event.action_count as nat) + ","@ + signed_digits(
                event.detail_redacted as int,
            ) + ",\""@;
            let line = event_line(event);
            let a = read_cell(line.skip(time.len() as int + 2));
            let b = read_cell((a->0).1.skip(2));
            let c = read_cell((b->0).1.skip(2));
            let d = read_cell((c->0).1.skip(counts.len() as int));
            let e = read_cell((d->0).1.skip(2));
            &&& line.take(time.len() as int + 2) == time + ",\""@
            &&& a is Some && (a->0).0 == event.rule_id
            &&& b is Some && (b->0).0 == event.host
            &&& c is Some && (c->0).0 == event.path
            &&& (c->0).1.take(counts.len() as int) == counts
            &&& d is Some && (d->0).0 == event.protocol
            &&& e is Some && (e->0).0 == event.action_results_json
            &&& (e->0).1 == "\n"@
        }),
{
    let time = signed_digits(event.occurred_at as int);
    let numbers = ","@ + digits(event.action_count as nat) + ","@ + signed_digits(
        event.detail_redacted as int,
    );
    let line = event_line(event);
    let r5 = "\n"@;
    let r4 = ","@ + (cell(event.action_results_json) + r5);
    let r3 = ","@ + (cell(event.protocol) + r4);
    let r2 = ","@ + (cell(event.path) + (numbers + r3));
    let r1 = ","@ + (cell(event.host) + r2);
    let none = Seq::<char>::empty();
    lemma_line_by_cells(event);
    assert(r1[0] == ',' && r2[0] == ',' && r4[0] == ',' && (numbers + r3)[0] == ',' && r5[0]
        == '\n') by {
        reveal_strlit(",");
        reveal_strlit("\n");
    }
    assert(none + r1 =~= r1 && none + r2 =~= r2 && none + r4 =~= r4);
    assert((numbers + ",\""@).len() == numbers.len() + 2) by {
        reveal_strlit(",\"");
    }
    lemma_cell_follows(time, event.rule_id, r1);
    lemma_cell_follows(none, event.host, r2);
    lemma_cell_follows(none, event.path, numbers + r3);
    lemma_cell_follows(numbers, event.protocol, r4);
    lemma_cell_follows(none, event.action_results_json, r5);
}

} // verus!
