//! How deeply the alternatives of a glob are nested.

use crate::text::chars_of;
use vstd::prelude::*;

verus! {

/// The most levels of alternatives in a glob that is handed to `globset`, which calls itself once for
/// each level where it writes the expression of a glob, copies the glob and drops it: the bound keeps
/// those calls on the stack. A level takes less than two kilobytes of it without optimisation, and std
/// gives a thread two megabytes. What an expression itself may hold is for the regex engine to say.
pub const MAX_GLOB_LEVELS: usize = 1000;

/// What the next character of a glob belongs to.
#[derive(Debug, Clone, Copy, PartialEq, Eq, Structural)]
pub enum GlobPlace {
    /// No character class.
    Outside,
    /// A character class that has just been opened and may be negated.
    Opened,
    /// A negated character class, without a character yet.
    Negated,
    /// A character class that the next `]` closes.
    Class,
    /// An escape.
    Escaped,
}

/// The place after a character. A backslash is an escape unless it separates the parts of a path.
pub open spec fn place_after(place: GlobPlace, c: char, separates: bool) -> GlobPlace {
    match place {
        GlobPlace::Outside => if c == '[' {
            GlobPlace::Opened
        } else if c == '\\' && !separates {
            GlobPlace::Escaped
        } else {
            GlobPlace::Outside
        },
        GlobPlace::Opened => if c == '!' || c == '^' {
            GlobPlace::Negated
        } else {
            GlobPlace::Class
        },
        GlobPlace::Negated => GlobPlace::Class,
        GlobPlace::Class => if c == ']' {
            GlobPlace::Outside
        } else {
            GlobPlace::Class
        },
        GlobPlace::Escaped => GlobPlace::Outside,
    }
}

/// The place at the end of a glob.
pub open spec fn glob_place(pattern: Seq<char>, separates: bool) -> GlobPlace
    decreases pattern.len(),
{
    if pattern.len() == 0 {
        GlobPlace::Outside
    } else {
        place_after(glob_place(pattern.drop_last(), separates), pattern.last(), separates)
    }
}

/// The greater of two numbers.
pub open spec fn greater(a: nat, b: nat) -> nat {
    if a < b {
        b
    } else {
        a
    }
}

/// The levels in the glob itself and in each of the open alternatives, outermost first, after the
/// innermost has been closed.
pub open spec fn closed(levels: Seq<nat>) -> Seq<nat> {
    let outer = levels.drop_last();
    outer.update(outer.len() - 1, greater(outer.last(), levels.last() + 1))
}

/// How many levels of closed alternatives there are in a glob up to its end, first outside of the
/// alternatives that are open there and then in each of these, outermost first. A brace in a
/// character class or behind an escape neither opens nor closes any.
pub open spec fn glob_levels(pattern: Seq<char>, separates: bool) -> Seq<nat>
    decreases pattern.len(),
{
    if pattern.len() == 0 {
        seq![0]
    } else {
        let before = glob_levels(pattern.drop_last(), separates);
        if glob_place(pattern.drop_last(), separates) != GlobPlace::Outside {
            before
        } else if pattern.last() == '{' {
            before.push(0)
        } else if pattern.last() == '}' && before.len() > 1 {
            closed(before)
        } else {
            before
        }
    }
}

/// Whether there are no more levels than are handed on.
pub open spec fn few(levels: Seq<nat>) -> bool {
    forall|i: int| 0 <= i < levels.len() ==> #[trigger] levels[i] <= MAX_GLOB_LEVELS
}

/// Whether no part of a glob has more levels than are handed on, with a backslash read one way.
pub open spec fn shallow_as(pattern: Seq<char>, separates: bool) -> bool {
    forall|n: int| 0 <= n <= pattern.len() ==> few(#[trigger] glob_levels(pattern.take(n), separates))
}

/// Whether no part of a glob has more levels than are handed on, however a backslash is read.
pub open spec fn shallow(pattern: Seq<char>) -> bool {
    shallow_as(pattern, false) && shallow_as(pattern, true)
}

/// The place after a character.
fn next_place(place: GlobPlace, c: char, separates: bool) -> (r: GlobPlace)
    ensures
        r == place_after(place, c, separates),
{
    match place {
        GlobPlace::Outside => if c == '[' {
            GlobPlace::Opened
        } else if c == '\\' && !separates {
            GlobPlace::Escaped
        } else {
            GlobPlace::Outside
        },
        GlobPlace::Opened => if c == '!' || c == '^' {
            GlobPlace::Negated
        } else {
            GlobPlace::Class
        },
        GlobPlace::Negated => GlobPlace::Class,
        GlobPlace::Class => if c == ']' {
            GlobPlace::Outside
        } else {
            GlobPlace::Class
        },
        GlobPlace::Escaped => GlobPlace::Outside,
    }
}

/// Levels as numbers.
spec fn counted(levels: Seq<usize>) -> Seq<nat> {
    levels.map_values(|n: usize| n as nat)
}

/// Whether no part of a glob has too many levels, with a backslash read one way.
fn is_shallow_as(pattern: &[char], separates: bool) -> (r: bool)
    ensures
        r == shallow_as(pattern@, separates),
{
    let mut place = GlobPlace::Outside;
    let mut levels: Vec<usize> = Vec::new();
    levels.push(0);
    let mut i: usize = 0;
    assert(pattern@.take(0) =~= Seq::<char>::empty());
    assert(counted(levels@) =~= seq![0nat]);
    while i < pattern.len()
        invariant
            i <= pattern.len(),
            place == glob_place(pattern@.take(i as int), separates),
            counted(levels@) == glob_levels(pattern@.take(i as int), separates),
            levels@.len() > 0,
            forall|n: int|
                0 <= n <= i ==> few(#[trigger] glob_levels(pattern@.take(n), separates)),
        decreases pattern.len() - i,
    {
        let c = pattern[i];
        let ghost before = levels@;
        let ghost upto = pattern@.take(i + 1);
        assert(upto.drop_last() =~= pattern@.take(i as int));
        assert(upto.last() == c);
        assert(few(glob_levels(pattern@.take(i as int), separates)));
        if place == GlobPlace::Outside {
            if c == '{' {
                levels.push(0);
                assert(counted(levels@) =~= counted(before).push(0));
            } else if c == '}' && levels.len() > 1 {
                let last: usize = levels.len() - 1;
                assert(counted(before)[last as int] <= MAX_GLOB_LEVELS);
                assert(counted(before)[last - 1] == before[last - 1]);
                let inner: usize = levels[last] + 1;
                levels.truncate(last);
                if levels[last - 1] < inner {
                    levels.set(last - 1, inner);
                }
                assert(counted(levels@) =~= closed(counted(before)));
                if inner > MAX_GLOB_LEVELS {
                    assert(glob_levels(upto, separates)[last - 1] > MAX_GLOB_LEVELS);
                    return false;
                }
            }
        }
        place = next_place(place, c, separates);
        i += 1;
        assert(few(glob_levels(upto, separates))) by {
            assert forall|k: int| 0 <= k < levels@.len() implies #[trigger] counted(levels@)[k]
                <= MAX_GLOB_LEVELS by {
                if k < before.len() {
                    assert(counted(before)[k] <= MAX_GLOB_LEVELS);
                }
            }
        }
    }
    true
}

/// Whether no part of a glob has too many levels.
pub fn is_shallow(pattern: &str) -> (r: bool)
    ensures
        r == shallow(pattern@),
{
    let chars = chars_of(pattern);
    is_shallow_as(chars.as_slice(), false) && is_shallow_as(chars.as_slice(), true)
}

proof fn lemma_few_closings(pattern: Seq<char>, separates: bool, closings: nat)
    requires
        pattern.filter(|c: char| c == '}').len() <= closings,
    ensures
        forall|i: int|
            0 <= i < glob_levels(pattern, separates).len() ==> #[trigger] glob_levels(
                pattern,
                separates,
            )[i] <= closings,
        glob_levels(pattern, separates).len() >= 1,
    decreases pattern.len(),
{
    reveal(Seq::filter);
    let close = |c: char| c == '}';
    if pattern.len() > 0 {
        let front = pattern.drop_last();
        let n = front.filter(close).len();
        lemma_few_closings(front, separates, n);
        let before = glob_levels(front, separates);
        let after = glob_levels(pattern, separates);
        assert(n <= closings);
        if pattern.last() == '}' {
            assert(n + 1 <= closings);
        }
        assert forall|i: int| 0 <= i < after.len() implies #[trigger] after[i] <= closings by {
            if i < before.len() {
                assert(before[i] <= n);
                assert(before[before.len() - 1] <= n);
            }
        }
    }
}

/// A glob that closes no more than a thousand alternatives is never refused for its depth.
pub proof fn law_ordinary_globs_are_shallow(pattern: Seq<char>)
    requires
        pattern.filter(|c: char| c == '}').len() <= 1000,
    ensures
        shallow(pattern),
{
    let close = |c: char| c == '}';
    assert forall|n: int, separates: bool| 0 <= n <= pattern.len() implies few(
        #[trigger] glob_levels(pattern.take(n), separates),
    ) by {
        lemma_filtered_prefix(pattern, n);
        lemma_few_closings(pattern.take(n), separates, 1000);
    }
    assert(shallow_as(pattern, false));
    assert(shallow_as(pattern, true));
}

proof fn lemma_filtered_prefix(s: Seq<char>, n: int)
    requires
        0 <= n <= s.len(),
    ensures
        s.take(n).filter(|c: char| c == '}').len() <= s.filter(|c: char| c == '}').len(),
    decreases s.len() - n,
{
    reveal(Seq::filter);
    if n < s.len() {
        lemma_filtered_prefix(s, n + 1);
        assert(s.take(n + 1).drop_last() =~= s.take(n));
    } else {
        assert(s.take(n) =~= s);
    }
}

/// So many of one character.
pub open spec fn repeated(c: char, n: nat) -> Seq<char> {
    Seq::new(n, |i: int| c)
}

proof fn lemma_opened(n: nat, separates: bool)
    ensures
        glob_place(repeated('{', n), separates) == GlobPlace::Outside,
        glob_levels(repeated('{', n), separates) == Seq::new(n + 1, |i: int| 0nat),
    decreases n,
{
    let s = repeated('{', n);
    if n > 0 {
        assert(s.drop_last() =~= repeated('{', (n - 1) as nat));
        lemma_opened((n - 1) as nat, separates);
        assert(glob_levels(s, separates) =~= Seq::new(n + 1, |i: int| 0nat));
    } else {
        assert(s =~= Seq::<char>::empty());
        assert(glob_levels(s, separates) =~= Seq::new(1, |i: int| 0nat));
    }
}

proof fn lemma_closed(n: nat, k: nat, separates: bool)
    requires
        k <= n,
    ensures
        glob_place(repeated('{', n) + repeated('}', k), separates) == GlobPlace::Outside,
        glob_levels(repeated('{', n) + repeated('}', k), separates).len() == n - k + 1,
        glob_levels(repeated('{', n) + repeated('}', k), separates).last() == k,
        forall|i: int|
            0 <= i < n - k ==> #[trigger] glob_levels(
                repeated('{', n) + repeated('}', k),
                separates,
            )[i] == 0,
    decreases k,
{
    let s = repeated('{', n) + repeated('}', k);
    if k == 0 {
        lemma_opened(n, separates);
        assert(s =~= repeated('{', n));
    } else {
        lemma_closed(n, (k - 1) as nat, separates);
        assert(s.drop_last() =~= repeated('{', n) + repeated('}', (k - 1) as nat));
        assert(s.last() == '}');
    }
}

/// Alternatives that are nested more than a thousand deep are refused, and up to that they are not.
pub proof fn law_nesting_is_bounded(n: nat)
    ensures
        shallow(repeated('{', n) + repeated('}', n)) <==> n <= 1000,
{
    let s = repeated('{', n) + repeated('}', n);
    if n > 1000 {
        lemma_closed(n, n, false);
        assert(s.take(s.len() as int) =~= s);
        assert(!few(glob_levels(s.take(s.len() as int), false)));
    } else {
        lemma_closings_of(n);
        law_ordinary_globs_are_shallow(s);
    }
}

proof fn lemma_closings_of(n: nat)
    ensures
        (repeated('{', n) + repeated('}', n)).filter(|c: char| c == '}').len() <= n,
{
    lemma_closings_up_to(n, n);
}

proof fn lemma_closings_up_to(n: nat, k: nat)
    ensures
        (repeated('{', n) + repeated('}', k)).filter(|c: char| c == '}').len() <= k,
    decreases n, k,
{
    reveal(Seq::filter);
    let s = repeated('{', n) + repeated('}', k);
    if k > 0 {
        lemma_closings_up_to(n, (k - 1) as nat);
        assert(s.drop_last() =~= repeated('{', n) + repeated('}', (k - 1) as nat));
    } else if n > 0 {
        lemma_closings_up_to((n - 1) as nat, 0);
        assert(s.drop_last() =~= repeated('{', (n - 1) as nat) + repeated('}', 0));
        assert(s.last() == '{');
    }
}

} // verus!
