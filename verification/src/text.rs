//! Text and byte primitives: searching, trimming, splitting and number formatting over
//! sequences of characters.

use vstd::prelude::*;
use vstd::slice::slice_subrange;
use vstd::string::*;

verus! {

// ---------------------------------------------------------------------------
// Letter case
// ---------------------------------------------------------------------------
/// The ASCII lower case form of a character; other characters stay as they are.
pub open spec fn ascii_lower(c: char) -> char {
    if 'A' <= c <= 'Z' {
        ((c as u32) + 32) as char
    } else {
        c
    }
}

/// The ASCII upper case form of a character; other characters stay as they are.
pub open spec fn ascii_upper(c: char) -> char {
    if 'a' <= c <= 'z' {
        ((c as u32) - 32) as char
    } else {
        c
    }
}

/// A text with its ASCII letters in lower case.
pub open spec fn ascii_folded(s: Seq<char>) -> Seq<char> {
    s.map_values(|c: char| ascii_lower(c))
}

/// A text with its ASCII letters in upper case.
pub open spec fn ascii_raised(s: Seq<char>) -> Seq<char> {
    s.map_values(|c: char| ascii_upper(c))
}

/// Whether a text is all ASCII.
pub open spec fn all_ascii(s: Seq<char>) -> bool {
    forall|i: int| 0 <= i < s.len() ==> (#[trigger] s[i] as int) < 128
}

/// Folding a text twice is folding it once, and leaves it ASCII or not.
pub proof fn lemma_folded(s: Seq<char>)
    ensures
        ascii_folded(ascii_folded(s)) == ascii_folded(s),
        all_ascii(ascii_folded(s)) == all_ascii(s),
{
    let folded = ascii_folded(s);
    assert(ascii_folded(folded) =~= folded);
    assert forall|i: int| 0 <= i < s.len() implies ((folded[i] as int) < 128) == ((
    #[trigger] s[i] as int) < 128) by {
        assert(folded[i] == ascii_lower(s[i]));
    }
    if all_ascii(folded) {
        assert forall|i: int| 0 <= i < s.len() implies (#[trigger] s[i] as int) < 128 by {
            assert((folded[i] as int) < 128);
        }
    }
}

/// Raising the ASCII letters of a text makes no difference to its lower case form.
pub proof fn lemma_raised_folds(s: Seq<char>)
    ensures
        ascii_folded(ascii_raised(s)) == ascii_folded(s),
{
    assert(ascii_folded(ascii_raised(s)) =~= ascii_folded(s));
}

/// Texts are equal up to ASCII letter case where their lower case forms are equal.
pub proof fn lemma_same_folds(a: Seq<char>, b: Seq<char>)
    ensures
        same_ignoring_case(a, b) <==> ascii_folded(a) == ascii_folded(b),
{
    if same_ignoring_case(a, b) {
        assert(ascii_folded(a) =~= ascii_folded(b));
    }
    if ascii_folded(a) == ascii_folded(b) {
        assert(a.len() == ascii_folded(a).len() && b.len() == ascii_folded(b).len());
        assert forall|i: int| 0 <= i < a.len() implies ascii_lower(#[trigger] a[i]) == ascii_lower(
            b[i],
        ) by {
            assert(ascii_folded(a)[i] == ascii_folded(b)[i]);
        }
    }
}

/// Equality up to ASCII letter case.
pub open spec fn same_ignoring_case(a: Seq<char>, b: Seq<char>) -> bool {
    &&& a.len() == b.len()
    &&& forall|i: int| 0 <= i < a.len() ==> ascii_lower(#[trigger] a[i]) == ascii_lower(b[i])
}

fn lower_char(c: char) -> (r: char)
    ensures
        r == ascii_lower(c),
{
    if 'A' <= c && c <= 'Z' {
        ((c as u8) + 32) as char
    } else {
        c
    }
}

/// Tells whether two texts are equal up to ASCII letter case.
pub fn eq_ignore_case(a: &[char], b: &[char]) -> (r: bool)
    ensures
        r == same_ignoring_case(a@, b@),
{
    if a.len() != b.len() {
        return false;
    }
    let mut i: usize = 0;
    while i < a.len()
        invariant
            i <= a.len(),
            a.len() == b.len(),
            forall|j: int| 0 <= j < i ==> ascii_lower(#[trigger] a@[j]) == ascii_lower(b@[j]),
        decreases a.len() - i,
    {
        if lower_char(a[i]) != lower_char(b[i]) {
            assert(ascii_lower(a@[i as int]) != ascii_lower(b@[i as int]));
            return false;
        }
        i += 1;
    }
    true
}

// ---------------------------------------------------------------------------
// Conversion
// ---------------------------------------------------------------------------
/// The characters of a text.
pub fn chars_of(s: &str) -> (r: Vec<char>)
    ensures
        r@ == s@,
{
    let mut out: Vec<char> = Vec::new();
    for c in it: s.chars()
        invariant
            out@ == it.seq().take(it.index() as int),
            it.seq() == s@,
    {
        out.push(c);
    }
    out
}

/// The text made of the given characters.
pub fn text_of(chars: &[char]) -> (r: String)
    ensures
        r@ == chars@,
{
    let mut out = String::new();
    let mut i: usize = 0;
    while i < chars.len()
        invariant
            i <= chars.len(),
            out@ == chars@.take(i as int),
        decreases chars.len() - i,
    {
        out.push(chars[i]);
        i += 1;
    }
    assert(chars@.take(i as int) == chars@);
    out
}

/// Tells whether two texts are equal.
pub fn same_text(a: &str, b: &str) -> (r: bool)
    ensures
        r == (a@ == b@),
{
    a.to_owned() == b.to_owned()
}

// ---------------------------------------------------------------------------
// Searching
// ---------------------------------------------------------------------------
/// The position of the first `c`, or the length where there is none.
pub open spec fn find_char(s: Seq<char>, c: char) -> int
    decreases s.len(),
{
    if s.len() == 0 || s[0] == c {
        0
    } else {
        1 + find_char(s.drop_first(), c)
    }
}

/// The position of the first `c` is the one place with no `c` before it.
pub proof fn lemma_find_char(s: Seq<char>, c: char, i: int)
    requires
        0 <= i <= s.len(),
        forall|j: int| 0 <= j < i ==> s[j] != c,
        i < s.len() ==> s[i] == c,
    ensures
        find_char(s, c) == i,
    decreases s.len(),
{
    if s.len() > 0 && s[0] != c {
        assert(i > 0);
        let t = s.drop_first();
        assert forall|j: int| 0 <= j < i - 1 implies t[j] != c by {
            assert(s[j + 1] != c);
        }
        lemma_find_char(t, c, i - 1);
    }
}

/// What `find_char` returns: nothing before it is `c`, and it is `c` unless it is the end.
pub proof fn lemma_find_char_is(s: Seq<char>, c: char)
    ensures
        0 <= find_char(s, c) <= s.len(),
        forall|j: int| 0 <= j < find_char(s, c) ==> s[j] != c,
        find_char(s, c) < s.len() ==> s[find_char(s, c)] == c,
    decreases s.len(),
{
    if s.len() > 0 && s[0] != c {
        let t = s.drop_first();
        lemma_find_char_is(t, c);
        assert forall|j: int| 0 <= j < find_char(s, c) implies s[j] != c by {
            if j > 0 {
                assert(t[j - 1] == s[j]);
            }
        }
    }
}

/// Finds the first `c`; the length where there is none.
pub fn position_of(s: &[char], c: char) -> (r: usize)
    ensures
        r == find_char(s@, c),
        r <= s@.len(),
{
    let mut i: usize = 0;
    while i < s.len()
        invariant
            i <= s.len(),
            forall|j: int| 0 <= j < i ==> s@[j] != c,
        ensures
            i < s.len() ==> s@[i as int] == c,
        decreases s.len() - i,
    {
        if s[i] == c {
            break;
        }
        i += 1;
    }
    proof {
        lemma_find_char(s@, c, i as int);
    }
    i
}

/// The position of the last `c`, or -1 where there is none.
pub open spec fn rfind_char(s: Seq<char>, c: char) -> int
    decreases s.len(),
{
    if s.len() == 0 {
        -1
    } else if s.last() == c {
        s.len() - 1
    } else {
        rfind_char(s.drop_last(), c)
    }
}

/// Finds the last `c`.
pub fn last_position_of(s: &[char], c: char) -> (r: Option<usize>)
    ensures
        match r {
            Some(i) => i == rfind_char(s@, c) && i < s@.len() && s@[i as int] == c,
            None => rfind_char(s@, c) == -1,
        },
{
    let mut n: usize = s.len();
    assert(s@.take(n as int) == s@);
    while n > 0
        invariant
            n <= s.len(),
            rfind_char(s@, c) == rfind_char(s@.take(n as int), c),
        decreases n,
    {
        assert(s@.take(n as int).drop_last() == s@.take(n - 1));
        if s[n - 1] == c {
            return Some(n - 1);
        }
        n -= 1;
    }
    None
}

/// Text without a `c` behind `s` does not move its last `c`.
pub proof fn lemma_rfind_char_before(s: Seq<char>, tail: Seq<char>, c: char)
    requires
        forall|i: int| 0 <= i < tail.len() ==> #[trigger] tail[i] != c,
    ensures
        rfind_char(s + tail, c) == rfind_char(s, c),
    decreases tail.len(),
{
    if tail.len() == 0 {
        assert(s + tail =~= s);
    } else {
        assert((s + tail).last() == tail.last());
        assert((s + tail).drop_last() =~= s + tail.drop_last());
        assert forall|i: int| 0 <= i < tail.drop_last().len() implies #[trigger] tail.drop_last()[i]
            != c by {
            assert(tail[i] != c);
        }
        lemma_rfind_char_before(s, tail.drop_last(), c);
    }
}

/// The position of the first occurrence of `p` in `s`.
pub open spec fn find_seq<T>(s: Seq<T>, p: Seq<T>) -> Option<int>
    decreases s.len(),
{
    if p.is_prefix_of(s) {
        Some(0)
    } else if s.len() == 0 {
        None
    } else {
        match find_seq(s.drop_first(), p) {
            Some(i) => Some(i + 1),
            None => None,
        }
    }
}

/// `p` stands in `s` at position `i`.
pub open spec fn occurs_at<T>(s: Seq<T>, p: Seq<T>, i: int) -> bool {
    0 <= i && i + p.len() <= s.len() && s.subrange(i, i + p.len()) == p
}

/// The first occurrence is the one with none before it.
pub proof fn lemma_find_seq<T>(s: Seq<T>, p: Seq<T>, i: int)
    requires
        occurs_at(s, p, i),
        forall|j: int| 0 <= j < i ==> !occurs_at(s, p, j),
    ensures
        find_seq(s, p) == Some(i),
    decreases s.len(),
{
    if i == 0 {
        assert(p.is_prefix_of(s));
    } else {
        assert(!occurs_at(s, p, 0));
        let t = s.drop_first();
        assert(t.subrange(i - 1, i - 1 + p.len()) == s.subrange(i, i + p.len()));
        assert forall|j: int| 0 <= j < i - 1 implies !occurs_at(t, p, j) by {
            assert(!occurs_at(s, p, j + 1));
            if occurs_at(t, p, j) {
                assert(t.subrange(j, j + p.len()) == s.subrange(j + 1, j + 1 + p.len()));
            }
        }
        lemma_find_seq(t, p, i - 1);
    }
}

/// Without an occurrence there is no first one.
pub proof fn lemma_find_seq_none<T>(s: Seq<T>, p: Seq<T>)
    requires
        forall|j: int| !occurs_at(s, p, j),
    ensures
        find_seq(s, p) is None,
    decreases s.len(),
{
    assert(!occurs_at(s, p, 0));
    if s.len() > 0 {
        let t = s.drop_first();
        assert forall|j: int| !occurs_at(t, p, j) by {
            assert(!occurs_at(s, p, j + 1));
            if occurs_at(t, p, j) {
                assert(t.subrange(j, j + p.len()) == s.subrange(j + 1, j + 1 + p.len()));
            }
        }
        lemma_find_seq_none(t, p);
    }
}

/// What `find_seq` returns: an occurrence with none before it, or none at all.
pub proof fn lemma_find_seq_is<T>(s: Seq<T>, p: Seq<T>)
    ensures
        match find_seq(s, p) {
            Some(i) => occurs_at(s, p, i) && forall|j: int| 0 <= j < i ==> !occurs_at(s, p, j),
            None => forall|j: int| !occurs_at(s, p, j),
        },
    decreases s.len(),
{
    if p.is_prefix_of(s) {
        assert(occurs_at(s, p, 0));
    } else {
        assert(!occurs_at(s, p, 0));
        if s.len() > 0 {
            let t = s.drop_first();
            lemma_find_seq_is(t, p);
            assert forall|j: int| j > 0 implies occurs_at(s, p, j) == occurs_at(t, p, j - 1) by {
                if j + p.len() <= s.len() {
                    assert(t.subrange(j - 1, j - 1 + p.len()) == s.subrange(j, j + p.len()));
                }
            }
        }
    }
}

/// `p` stands somewhere in `s`.
pub open spec fn contains_seq<T>(s: Seq<T>, p: Seq<T>) -> bool {
    exists|i: int| occurs_at(s, p, i)
}

fn occurs_here(s: &[char], p: &[char], at: usize) -> (r: bool)
    requires
        at <= s@.len(),
    ensures
        r == occurs_at(s@, p@, at as int),
{
    if s.len() - at < p.len() {
        return false;
    }
    let mut i: usize = 0;
    while i < p.len()
        invariant
            i <= p.len(),
            at <= s.len(),
            p.len() <= s.len() - at,
            forall|j: int| 0 <= j < i ==> s@[at + j] == p@[j],
        decreases p.len() - i,
    {
        if s[at + i] != p[i] {
            assert(s@.subrange(at as int, at + p@.len())[i as int] != p@[i as int]);
            return false;
        }
        i += 1;
    }
    assert(s@.subrange(at as int, at + p@.len()) =~= p@);
    true
}

/// Finds the first occurrence of `p`.
pub fn position_of_text(s: &[char], p: &[char]) -> (r: Option<usize>)
    ensures
        match r {
            Some(i) => find_seq(s@, p@) == Some(i as int) && occurs_at(s@, p@, i as int),
            None => find_seq(s@, p@) is None,
        },
        r is Some == contains_seq(s@, p@),
{
    let mut i: usize = 0;
    loop
        invariant
            i <= s.len(),
            forall|j: int| 0 <= j < i ==> !occurs_at(s@, p@, j),
        ensures
            forall|j: int| 0 <= j <= s.len() ==> !occurs_at(s@, p@, j),
        decreases s.len() - i,
    {
        if occurs_here(s, p, i) {
            proof {
                lemma_find_seq(s@, p@, i as int);
            }
            return Some(i);
        }
        if i == s.len() {
            break;
        }
        i += 1;
    }
    proof {
        lemma_find_seq_none(s@, p@);
    }
    None
}

/// Tells whether `s` begins with `p`.
pub fn starts_with(s: &[char], p: &[char]) -> (r: bool)
    ensures
        r == p@.is_prefix_of(s@),
{
    occurs_here(s, p, 0)
}

/// `s` without the occurrences of `p` it begins with.
pub open spec fn strip_leading(s: Seq<char>, p: Seq<char>) -> Seq<char>
    decreases s.len(),
{
    if p.len() > 0 && p.is_prefix_of(s) {
        strip_leading(s.skip(p.len() as int), p)
    } else {
        s
    }
}

/// Drops the occurrences of `p` that `s` begins with.
pub fn without_leading<'a>(s: &'a [char], p: &[char]) -> (r: &'a [char])
    ensures
        r@ == strip_leading(s@, p@),
{
    let mut rest: &'a [char] = s;
    while p.len() > 0 && starts_with(rest, p)
        invariant
            strip_leading(s@, p@) == strip_leading(rest@, p@),
        decreases rest@.len(),
    {
        let ghost before = rest@;
        rest = slice_subrange(rest, p.len(), rest.len());
        assert(rest@ == before.skip(p@.len() as int));
    }
    rest
}

// ---------------------------------------------------------------------------
// White space
// ---------------------------------------------------------------------------
/// The characters with the Unicode property `White_Space`.
pub open spec fn is_white(c: char) -> bool {
    let n = c as u32;
    ||| 0x09 <= n <= 0x0d
    ||| n == 0x20
    ||| n == 0x85
    ||| n == 0xa0
    ||| n == 0x1680
    ||| 0x2000 <= n <= 0x200a
    ||| n == 0x2028
    ||| n == 0x2029
    ||| n == 0x202f
    ||| n == 0x205f
    ||| n == 0x3000
}

fn white(c: char) -> (r: bool)
    ensures
        r == is_white(c),
{
    let n: u32 = c as u32;
    (0x09 <= n && n <= 0x0d) || n == 0x20 || n == 0x85 || n == 0xa0 || n == 0x1680 || (0x2000 <= n
        && n <= 0x200a) || n == 0x2028 || n == 0x2029 || n == 0x202f || n == 0x205f || n == 0x3000
}

/// `s` without the white space it begins with.
pub open spec fn trim_start(s: Seq<char>) -> Seq<char>
    decreases s.len(),
{
    if s.len() > 0 && is_white(s[0]) {
        trim_start(s.drop_first())
    } else {
        s
    }
}

/// `s` without the white space it ends with.
pub open spec fn trim_end(s: Seq<char>) -> Seq<char>
    decreases s.len(),
{
    if s.len() > 0 && is_white(s.last()) {
        trim_end(s.drop_last())
    } else {
        s
    }
}

/// `s` without the white space around it.
pub open spec fn trim(s: Seq<char>) -> Seq<char> {
    trim_end(trim_start(s))
}

fn trimmed_start<'a>(s: &'a [char]) -> (r: &'a [char])
    ensures
        r@ == trim_start(s@),
{
    let mut rest: &'a [char] = s;
    while rest.len() > 0 && white(rest[0])
        invariant
            trim_start(s@) == trim_start(rest@),
        decreases rest@.len(),
    {
        let ghost before = rest@;
        rest = slice_subrange(rest, 1, rest.len());
        assert(rest@ == before.drop_first());
    }
    rest
}

/// Drops the white space around a text.
pub fn trimmed<'a>(s: &'a [char]) -> (r: &'a [char])
    ensures
        r@ == trim(s@),
{
    let mut rest: &'a [char] = trimmed_start(s);
    while rest.len() > 0 && white(rest[rest.len() - 1])
        invariant
            trim(s@) == trim_end(rest@),
        decreases rest@.len(),
    {
        let ghost before = rest@;
        rest = slice_subrange(rest, 0, rest.len() - 1);
        assert(rest@ == before.drop_last());
    }
    rest
}

/// The words of a text: its pieces between white space.
pub open spec fn words(s: Seq<char>) -> Seq<Seq<char>>
    decreases s.len(),
{
    let t = trim_start(s);
    if t.len() == 0 {
        seq![]
    } else {
        proof {
            lemma_trim_start_len(s);
            lemma_word_len(t);
        }
        seq![t.take(word_len(t))] + words(t.skip(word_len(t)))
    }
}

/// How many characters stand before the first white space.
pub open spec fn word_len(s: Seq<char>) -> int
    decreases s.len(),
{
    if s.len() == 0 || is_white(s[0]) {
        0
    } else {
        1 + word_len(s.drop_first())
    }
}

pub proof fn lemma_word_len(s: Seq<char>)
    ensures
        0 <= word_len(s) <= s.len(),
        s.len() > 0 && !is_white(s[0]) ==> word_len(s) > 0,
    decreases s.len(),
{
    if s.len() > 0 && !is_white(s[0]) {
        lemma_word_len(s.drop_first());
    }
}

pub proof fn lemma_trim_start_len(s: Seq<char>)
    ensures
        trim_start(s).len() <= s.len(),
        trim_start(s).len() > 0 ==> !is_white(trim_start(s)[0]),
    decreases s.len(),
{
    if s.len() > 0 && is_white(s[0]) {
        lemma_trim_start_len(s.drop_first());
    }
}

fn length_of_word(s: &[char]) -> (r: usize)
    ensures
        r == word_len(s@),
        r <= s@.len(),
{
    let mut i: usize = 0;
    assert(s@.skip(0) == s@);
    while i < s.len() && !white(s[i])
        invariant
            i <= s.len(),
            word_len(s@) == i + word_len(s@.skip(i as int)),
        decreases s.len() - i,
    {
        assert(s@.skip(i as int).drop_first() == s@.skip(i + 1));
        i += 1;
    }
    i
}

/// The views of a list of texts.
pub open spec fn views(list: Seq<Vec<char>>) -> Seq<Seq<char>> {
    list.map_values(|v: Vec<char>| v@)
}

/// Splits a text into its words.
pub fn split_words(s: &[char]) -> (r: Vec<Vec<char>>)
    ensures
        views(r@) == words(s@),
{
    let mut out: Vec<Vec<char>> = Vec::new();
    let mut rest = trimmed_start(s);
    let ghost mut left = s@;
    while rest.len() > 0
        invariant
            rest@ == trim_start(left),
            words(s@) =~= views(out@) + words(left),
        decreases rest@.len(),
    {
        let n: usize = length_of_word(rest);
        proof {
            lemma_trim_start_len(left);
            lemma_word_len(rest@);
        }
        let word: Vec<char> = vstd::slice::slice_to_vec(slice_subrange(rest, 0, n));
        let ghost before = rest@;
        assert(word@ == before.take(n as int));
        let ghost prior = out@;
        out.push(word);
        assert(views(out@) =~= views(prior).push(word@));
        let tail = slice_subrange(rest, n, rest.len());
        assert(tail@ == before.skip(n as int));
        proof {
            left = before.skip(n as int);
            lemma_trim_start_len(left);
        }
        rest = trimmed_start(tail);
    }
    assert(words(left) == Seq::<Seq<char>>::empty());
    out
}

// ---------------------------------------------------------------------------
// Splitting
// ---------------------------------------------------------------------------
/// The text before and after the first `c`.
pub open spec fn split_at_first(s: Seq<char>, c: char) -> Option<(Seq<char>, Seq<char>)> {
    let i = find_char(s, c);
    if i < s.len() {
        Some((s.take(i), s.skip(i + 1)))
    } else {
        None
    }
}

/// Splits a text at the first `c`.
pub fn split_once<'a>(s: &'a [char], c: char) -> (r: Option<(&'a [char], &'a [char])>)
    ensures
        match r {
            Some(parts) => split_at_first(s@, c) == Some((parts.0@, parts.1@)),
            None => split_at_first(s@, c) is None,
        },
{
    let i: usize = position_of(s, c);
    if i < s.len() {
        let head = slice_subrange(s, 0, i);
        let tail = slice_subrange(s, i + 1, s.len());
        assert(head@ == s@.take(i as int));
        assert(tail@ == s@.skip(i + 1));
        Some((head, tail))
    } else {
        None
    }
}

/// The text before and after the last `c`.
pub open spec fn split_at_last(s: Seq<char>, c: char) -> Option<(Seq<char>, Seq<char>)> {
    let i = rfind_char(s, c);
    if i >= 0 {
        Some((s.take(i), s.skip(i + 1)))
    } else {
        None
    }
}

/// Splits a text at the last `c`.
pub fn rsplit_once<'a>(s: &'a [char], c: char) -> (r: Option<(&'a [char], &'a [char])>)
    ensures
        match r {
            Some(parts) => split_at_last(s@, c) == Some((parts.0@, parts.1@)),
            None => split_at_last(s@, c) is None,
        },
{
    match last_position_of(s, c) {
        Some(i) => {
            let n: usize = s.len();
            let head = slice_subrange(s, 0, i);
            let tail = slice_subrange(s, i + 1, n);
            assert(head@ == s@.take(i as int));
            assert(tail@ == s@.skip(i + 1));
            Some((head, tail))
        },
        None => None,
    }
}

/// The pieces of a text between the occurrences of a separator.
pub open spec fn pieces(s: Seq<char>, sep: Seq<char>) -> Seq<Seq<char>>
    decreases s.len(),
{
    if sep.len() == 0 {
        seq![s]
    } else {
        match find_seq(s, sep) {
            Some(i) => {
                proof {
                    lemma_find_seq_is(s, sep);
                }
                seq![s.take(i)] + pieces(s.skip(i + sep.len()), sep)
            },
            None => seq![s],
        }
    }
}

/// Splits a text at every occurrence of a separator.
pub fn split_on(s: &[char], sep: &[char]) -> (r: Vec<Vec<char>>)
    requires
        sep@.len() > 0,
    ensures
        views(r@) == pieces(s@, sep@),
        r@.len() > 0,
{
    let mut out: Vec<Vec<char>> = Vec::new();
    let mut rest: &[char] = s;
    loop
        invariant
            sep@.len() > 0,
            pieces(s@, sep@) =~= views(out@) + pieces(rest@, sep@),
        decreases rest@.len(),
    {
        let ghost prior = out@;
        match position_of_text(rest, sep) {
            Some(i) => {
                let piece: Vec<char> = vstd::slice::slice_to_vec(slice_subrange(rest, 0, i));
                assert(piece@ == rest@.take(i as int));
                out.push(piece);
                assert(views(out@) =~= views(prior).push(piece@));
                let ghost before = rest@;
                let n: usize = rest.len();
                rest = slice_subrange(rest, i + sep.len(), n);
                assert(rest@ == before.skip(i + sep@.len()));
            },
            None => {
                let piece: Vec<char> = vstd::slice::slice_to_vec(rest);
                out.push(piece);
                assert(views(out@) =~= views(prior).push(piece@));
                return out;
            },
        }
    }
}

/// The lines of a text: split at line feeds, a carriage return before the line feed belonging to
/// the line end; nothing follows the last line end.
pub open spec fn lines(s: Seq<char>) -> Seq<Seq<char>>
    decreases s.len(),
{
    let i = find_char(s, '\n');
    if s.len() == 0 {
        seq![]
    } else if i < s.len() {
        proof {
            lemma_find_char_is(s, '\n');
        }
        seq![without_cr(s.take(i))] + lines(s.skip(i + 1))
    } else {
        seq![s]
    }
}

/// A line without the carriage return at its end.
pub open spec fn without_cr(s: Seq<char>) -> Seq<char> {
    if s.len() > 0 && s.last() == '\r' {
        s.drop_last()
    } else {
        s
    }
}

/// Splits a text into its lines.
pub fn split_lines(s: &[char]) -> (r: Vec<Vec<char>>)
    ensures
        views(r@) == lines(s@),
{
    let mut out: Vec<Vec<char>> = Vec::new();
    let mut rest: &[char] = s;
    while rest.len() > 0
        invariant
            lines(s@) =~= views(out@) + lines(rest@),
        decreases rest@.len(),
    {
        let ghost prior = out@;
        let ghost before = rest@;
        let i: usize = position_of(rest, '\n');
        if i < rest.len() {
            let mut end: usize = i;
            if i > 0 && rest[i - 1] == '\r' {
                end = i - 1;
            }
            let line: Vec<char> = vstd::slice::slice_to_vec(slice_subrange(rest, 0, end));
            assert(line@ =~= without_cr(before.take(i as int)));
            out.push(line);
            assert(views(out@) =~= views(prior).push(line@));
            rest = slice_subrange(rest, i + 1, rest.len());
            assert(rest@ == before.skip(i + 1));
        } else {
            let line: Vec<char> = vstd::slice::slice_to_vec(rest);
            out.push(line);
            assert(views(out@) =~= views(prior).push(line@));
            rest = slice_subrange(rest, 0, 0);
            assert(lines(rest@) == Seq::<Seq<char>>::empty());
        }
    }
    assert(lines(rest@) == Seq::<Seq<char>>::empty());
    out
}

// ---------------------------------------------------------------------------
// Numbers
// ---------------------------------------------------------------------------
/// The character of a decimal digit.
pub open spec fn digit_char(d: nat) -> char {
    (48 + d) as char
}

/// The decimal digits of a number, without leading zeros.
pub open spec fn digits(n: nat) -> Seq<char>
    decreases n,
{
    if n < 10 {
        seq![digit_char(n)]
    } else {
        digits(n / 10).push(digit_char(n % 10))
    }
}

/// The decimal text of a signed number.
pub open spec fn signed_digits(n: int) -> Seq<char> {
    if n < 0 {
        seq!['-'] + digits((-n) as nat)
    } else {
        digits(n as nat)
    }
}

/// `c` is a decimal digit.
pub open spec fn is_digit(c: char) -> bool {
    '0' <= c <= '9'
}

/// The number that a sequence of decimal digits writes.
pub open spec fn digits_value(s: Seq<char>) -> nat
    decreases s.len(),
{
    if s.len() == 0 {
        0
    } else {
        digits_value(s.drop_last()) * 10 + ((s.last() as u32) - 48) as nat
    }
}

/// `s` holds decimal digits only.
pub open spec fn all_digits(s: Seq<char>) -> bool {
    forall|i: int| 0 <= i < s.len() ==> is_digit(#[trigger] s[i])
}

/// `s` without the plus sign it may begin with.
pub open spec fn without_plus(s: Seq<char>) -> Seq<char> {
    if s.len() > 0 && s[0] == '+' {
        s.skip(1)
    } else {
        s
    }
}

/// The unsigned number that a text writes: decimal digits, with or without a leading plus sign,
/// of a value not above `max`.
pub open spec fn parse_unsigned(s: Seq<char>, max: nat) -> Option<nat> {
    let t = without_plus(s);
    if t.len() > 0 && all_digits(t) && digits_value(t) <= max {
        Some(digits_value(t))
    } else {
        None
    }
}

proof fn lemma_digits_value_grows(s: Seq<char>, n: int)
    requires
        0 <= n <= s.len(),
    ensures
        digits_value(s.take(n)) <= digits_value(s),
    decreases s.len() - n,
{
    if n == s.len() {
        assert(s.take(n) == s);
    } else {
        lemma_digits_value_grows(s, n + 1);
        assert(s.take(n + 1).drop_last() == s.take(n));
    }
}

/// Reads an unsigned number of at most `max`.
pub fn parse_number(s: &[char], max: u64) -> (r: Option<u64>)
    ensures
        match r {
            Some(n) => parse_unsigned(s@, max as nat) == Some(n as nat),
            None => parse_unsigned(s@, max as nat) is None,
        },
{
    let t = if s.len() > 0 && s[0] == '+' {
        let rest = slice_subrange(s, 1, s.len());
        assert(rest@ == s@.skip(1));
        rest
    } else {
        s
    };
    if t.len() == 0 {
        return None;
    }
    let mut value: u64 = 0;
    let mut i: usize = 0;
    while i < t.len()
        invariant
            i <= t.len(),
            value <= max,
            t@ == without_plus(s@),
            value == digits_value(t@.take(i as int)),
            forall|j: int| 0 <= j < i ==> is_digit(#[trigger] t@[j]),
        decreases t.len() - i,
    {
        let c = t[i];
        if !('0' <= c && c <= '9') {
            assert(!is_digit(t@[i as int]));
            return None;
        }
        let next: u128 = (value as u128) * 10 + ((c as u32) - 48) as u128;
        assert(t@.take(i + 1).drop_last() == t@.take(i as int));
        assert(next == digits_value(t@.take(i + 1)));
        if next > max as u128 {
            proof {
                lemma_digits_value_grows(t@, i + 1);
            }
            return None;
        }
        value = next as u64;
        i += 1;
    }
    assert(t@.take(i as int) == t@);
    Some(value)
}

/// Writes a number in decimal digits.
pub fn decimal(n: u64) -> (r: Vec<char>)
    ensures
        r@ == digits(n as nat),
    decreases n,
{
    let d: char = (48 + (n % 10) as u8) as char;
    if n < 10 {
        let mut out: Vec<char> = Vec::new();
        out.push(d);
        assert(out@ =~= digits(n as nat));
        out
    } else {
        let mut out = decimal(n / 10);
        out.push(d);
        out
    }
}

/// Writes a signed number in decimal digits.
pub fn signed_decimal(n: i64) -> (r: Vec<char>)
    ensures
        r@ == signed_digits(n as int),
{
    if n >= 0 {
        return decimal(n as u64);
    }
    let magnitude: u64 = (-(n as i128)) as u64;
    let mut out: Vec<char> = Vec::new();
    out.push('-');
    let mut tail = decimal(magnitude);
    out.append(&mut tail);
    assert(out@ =~= signed_digits(n as int));
    out
}

proof fn lemma_digit_char(d: nat)
    requires
        d < 10,
    ensures
        is_digit(digit_char(d)),
        (digit_char(d) as u32) - 48 == d,
{
}

/// The decimal digits of a number write that number.
pub proof fn lemma_digits_value(n: nat)
    ensures
        digits(n).len() > 0,
        all_digits(digits(n)),
        digits_value(digits(n)) == n,
    decreases n,
{
    lemma_digit_char(n % 10);
    if n < 10 {
        let s = digits(n);
        assert(s.drop_last() =~= Seq::<char>::empty());
        assert(digits_value(s.drop_last()) == 0);
    } else {
        lemma_digits_value(n / 10);
        assert(digits(n).drop_last() =~= digits(n / 10));
    }
}

/// Reading back the decimal text of a number gives the number.
pub proof fn law_number_round_trip(n: nat, max: nat)
    requires
        n <= max,
    ensures
        parse_unsigned(digits(n), max) == Some(n),
{
    lemma_digits_value(n);
    assert(is_digit(digits(n)[0]));
}

// ---------------------------------------------------------------------------
// The same on strings
// ---------------------------------------------------------------------------
/// Tells whether two strings are equal up to ASCII letter case.
pub fn same_text_ignoring_case(a: &str, b: &str) -> (r: bool)
    ensures
        r == same_ignoring_case(a@, b@),
{
    eq_ignore_case(chars_of(a).as_slice(), chars_of(b).as_slice())
}

/// Tells whether `p` stands somewhere in `s`.
pub fn has_text(s: &str, p: &str) -> (r: bool)
    ensures
        r == contains_seq(s@, p@),
{
    position_of_text(chars_of(s).as_slice(), chars_of(p).as_slice()).is_some()
}

/// Tells whether `s` begins with `p`.
pub fn begins_with(s: &str, p: &str) -> (r: bool)
    ensures
        r == p@.is_prefix_of(s@),
{
    starts_with(chars_of(s).as_slice(), chars_of(p).as_slice())
}

/// Equality up to ASCII letter case does not depend on the order of the two texts, and texts that
/// are both equal to a third up to case are equal to each other up to case.
pub proof fn law_ignoring_case_is_an_equivalence(a: Seq<char>, b: Seq<char>, c: Seq<char>)
    ensures
        same_ignoring_case(a, a),
        same_ignoring_case(a, b) == same_ignoring_case(b, a),
        same_ignoring_case(a, b) && same_ignoring_case(b, c) ==> same_ignoring_case(a, c),
{
    if same_ignoring_case(a, b) {
        assert forall|i: int| 0 <= i < b.len() implies ascii_lower(#[trigger] b[i]) == ascii_lower(
            a[i],
        ) by {
            assert(ascii_lower(a[i]) == ascii_lower(b[i]));
        }
    }
    if same_ignoring_case(b, a) {
        assert forall|i: int| 0 <= i < a.len() implies ascii_lower(#[trigger] a[i]) == ascii_lower(
            b[i],
        ) by {
            assert(ascii_lower(b[i]) == ascii_lower(a[i]));
        }
    }
    if same_ignoring_case(a, b) && same_ignoring_case(b, c) {
        assert forall|i: int| 0 <= i < a.len() implies ascii_lower(#[trigger] a[i]) == ascii_lower(
            c[i],
        ) by {
            assert(ascii_lower(b[i]) == ascii_lower(c[i]));
        }
    }
}

/// A number in at least two decimal digits.
pub open spec fn two_digits(n: nat) -> Seq<char> {
    if n < 10 {
        "0"@ + digits(n)
    } else {
        digits(n)
    }
}

/// Writes a number in decimal digits.
pub fn decimal_text(n: u64) -> (r: String)
    ensures
        r@ == digits(n as nat),
{
    text_of(decimal(n).as_slice())
}

/// Writes a number in at least two decimal digits.
pub fn two_digit_text(n: u64) -> (r: String)
    ensures
        r@ == two_digits(n as nat),
{
    if n < 10 {
        let mut out = "0".to_owned();
        out.append(decimal_text(n).as_str());
        out
    } else {
        decimal_text(n)
    }
}

/// Tells whether two optional texts are equal.
pub fn same_optional_text(a: &Option<String>, b: &Option<String>) -> (r: bool)
    ensures
        r == (crate::foreign::opt_view(*a) == crate::foreign::opt_view(*b)),
{
    match (a, b) {
        (Some(x), Some(y)) => same_text(x.as_str(), y.as_str()),
        (None, None) => true,
        _ => false,
    }
}

// ---------------------------------------------------------------------------
// Taking texts apart that were put together
// ---------------------------------------------------------------------------
/// `s` holds no white space.
pub open spec fn is_solid(s: Seq<char>) -> bool {
    forall|i: int| 0 <= i < s.len() ==> !is_white(#[trigger] s[i])
}

/// `s` holds no line feed.
pub open spec fn one_line(s: Seq<char>) -> bool {
    forall|i: int| 0 <= i < s.len() ==> #[trigger] s[i] != '\n'
}

/// A text without white space holds no line feed and has nothing to trim, also behind a blank.
pub proof fn lemma_solid(s: Seq<char>)
    requires
        is_solid(s),
    ensures
        one_line(s),
        trim(s) == s,
        trim(" "@ + s) == s,
{
    reveal_strlit(" ");
    assert forall|i: int| 0 <= i < s.len() implies #[trigger] s[i] != '\n' by {
        assert(!is_white(s[i]));
    }
    let t = " "@ + s;
    assert(is_white(t[0]));
    assert(t.drop_first() =~= s);
    assert(s.len() > 0 ==> !is_white(s[0]) && !is_white(s[s.len() - 1]));
    assert(trim_start(s) == s);
    assert(trim_start(t) == trim_start(t.drop_first()));
}

/// The first line of a text is what stands before the first line end.
pub proof fn lemma_first_of_lines(a: Seq<char>, rest: Seq<char>)
    requires
        one_line(a),
    ensures
        lines(a + "\r\n"@ + rest) == seq![a] + lines(rest),
{
    reveal_strlit("\r\n");
    let s = a + "\r\n"@ + rest;
    let n = a.len() as int;
    assert(s[n] == '\r' && s[n + 1] == '\n');
    assert forall|j: int| 0 <= j < n + 1 implies s[j] != '\n' by {
        if j < n {
            assert(s[j] == a[j]);
        }
    }
    lemma_find_char(s, '\n', n + 1);
    assert(s.take(n + 1) =~= a.push('\r'));
    assert(a.push('\r').drop_last() =~= a);
    assert(s.skip(n + 2) =~= rest);
}

/// The first piece of a text is what stands before the first line end.
pub proof fn lemma_first_of_pieces(a: Seq<char>, rest: Seq<char>)
    requires
        one_line(a),
    ensures
        pieces(a + "\r\n"@ + rest, "\r\n"@) == seq![a] + pieces(rest, "\r\n"@),
{
    reveal_strlit("\r\n");
    let sep = "\r\n"@;
    let s = a + sep + rest;
    let n = a.len() as int;
    assert(s.subrange(n, n + 2) =~= sep);
    assert forall|j: int| 0 <= j < n implies !occurs_at(s, sep, j) by {
        if occurs_at(s, sep, j) {
            assert(s.subrange(j, j + 2)[1] == sep[1]);
            assert(s[j + 1] == '\n');
            if j + 1 < n {
                assert(s[j + 1] == a[j + 1]);
            } else {
                assert(s[n] == '\r');
            }
        }
    }
    lemma_find_seq(s, sep, n);
    assert(s.take(n) =~= a);
    assert(s.skip(n + 2) =~= rest);
}

proof fn lemma_word_len_is(w: Seq<char>, rest: Seq<char>)
    requires
        is_solid(w),
        rest.len() == 0 || is_white(rest[0]),
    ensures
        word_len(w + rest) == w.len(),
    decreases w.len(),
{
    let s = w + rest;
    if w.len() > 0 {
        assert(s[0] == w[0] && !is_white(w[0]));
        assert(s.drop_first() =~= w.drop_first() + rest);
        assert(is_solid(w.drop_first())) by {
            assert forall|i: int| 0 <= i < w.drop_first().len() implies !is_white(
                #[trigger] w.drop_first()[i],
            ) by {
                assert(!is_white(w[i + 1]));
            }
        }
        lemma_word_len_is(w.drop_first(), rest);
    } else {
        assert(s =~= rest);
    }
}

/// The first word of a text is what stands before the first blank.
pub proof fn lemma_first_of_words(w: Seq<char>, rest: Seq<char>)
    requires
        w.len() > 0,
        is_solid(w),
    ensures
        words(w + " "@ + rest) == seq![w] + words(rest),
        words(w) == seq![w],
{
    reveal_strlit(" ");
    let s = w + " "@ + rest;
    let tail = " "@ + rest;
    assert(s =~= w + tail);
    assert(!is_white(w[0]) && s[0] == w[0]);
    lemma_word_len_is(w, tail);
    assert(s.take(w.len() as int) =~= w);
    assert(s.skip(w.len() as int) =~= tail);
    assert(tail.drop_first() =~= rest);
    assert(is_white(tail[0]));
    assert(trim_start(tail) == trim_start(rest));
    assert(words(tail) == words(rest));
    let none = Seq::<char>::empty();
    lemma_word_len_is(w, none);
    assert(w + none =~= w);
    assert(w.take(w.len() as int) =~= w);
    assert(w.skip(w.len() as int) =~= none);
    assert(words(none) =~= Seq::<Seq<char>>::empty());
    assert(seq![w] + Seq::<Seq<char>>::empty() =~= seq![w]);
}

/// Whether two characters are the same letter in upper and in lower case, or one and the same.
pub open spec fn same_letter(a: char, b: char) -> bool {
    ||| a == b
    ||| 65 <= a as int <= 90 && b as int == a as int + 32
    ||| 65 <= b as int <= 90 && a as int == b as int + 32
}

/// Texts are the same up to case where they are as long as each other and have the same letters, and
/// only where that is so.
pub proof fn law_ignoring_case_compares_letters(a: Seq<char>, b: Seq<char>)
    ensures
        same_ignoring_case(a, b) <==> a.len() == b.len() && forall|i: int|
            0 <= i < a.len() ==> same_letter(#[trigger] a[i], b[i]),
{
    if same_ignoring_case(a, b) {
        assert forall|i: int| 0 <= i < a.len() implies same_letter(#[trigger] a[i], b[i]) by {
            assert(ascii_lower(a[i]) == ascii_lower(b[i]));
        }
    }
    if a.len() == b.len() && forall|i: int|
        0 <= i < a.len() ==> same_letter(#[trigger] a[i], b[i]) {
        assert forall|i: int| 0 <= i < a.len() implies ascii_lower(#[trigger] a[i]) == ascii_lower(
            b[i],
        ) by {
            assert(same_letter(a[i], b[i]));
        }
    }
}

/// A text in ASCII stands in its lower case form letter by letter.
pub proof fn law_folding_lowers_letters(s: Seq<char>, i: int)
    requires
        0 <= i < s.len(),
    ensures
        ascii_folded(s).len() == s.len(),
        65 <= s[i] as int <= 90 ==> ascii_folded(s)[i] as int == s[i] as int + 32,
        !(65 <= s[i] as int <= 90) ==> ascii_folded(s)[i] == s[i],
{
}

/// Trimming takes the white space at both ends and nothing else: what is left stands in the text, all
/// around it is white, and it neither begins nor ends with white space.
pub proof fn law_trimming_takes_what_is_around(s: Seq<char>) -> (r: (int, int))
    ensures
        0 <= r.0 <= r.1 <= s.len(),
        trim(s) == s.subrange(r.0, r.1),
        forall|i: int| 0 <= i < r.0 || r.1 <= i < s.len() ==> is_white(#[trigger] s[i]),
        trim(s).len() > 0 ==> !is_white(trim(s)[0]) && !is_white(trim(s).last()),
{
    let a = lemma_trim_start_at(s);
    let t = s.skip(a);
    let b = lemma_trim_end_at(t);
    assert(t.take(b) =~= s.subrange(a, a + b));
    assert forall|i: int| 0 <= i < a || a + b <= i < s.len() implies is_white(
        #[trigger] s[i],
    ) by {
        if i >= a + b {
            assert(t[i - a] == s[i]);
        }
    }
    if b > 0 {
        assert(t.take(b)[0] == t[0]);
    }
    (a, a + b)
}

proof fn lemma_trim_start_at(s: Seq<char>) -> (a: int)
    ensures
        0 <= a <= s.len(),
        trim_start(s) == s.skip(a),
        forall|i: int| 0 <= i < a ==> is_white(#[trigger] s[i]),
        a < s.len() ==> !is_white(s[a]),
    decreases s.len(),
{
    if s.len() > 0 && is_white(s[0]) {
        let a = lemma_trim_start_at(s.drop_first()) + 1;
        assert(s.drop_first().skip(a - 1) =~= s.skip(a));
        assert forall|i: int| 0 <= i < a implies is_white(#[trigger] s[i]) by {
            if i > 0 {
                assert(s.drop_first()[i - 1] == s[i]);
            }
        }
        a
    } else {
        assert(s.skip(0) =~= s);
        0
    }
}

proof fn lemma_trim_end_at(s: Seq<char>) -> (b: int)
    ensures
        0 <= b <= s.len(),
        trim_end(s) == s.take(b),
        forall|i: int| b <= i < s.len() ==> is_white(#[trigger] s[i]),
        b > 0 ==> !is_white(s[b - 1]),
    decreases s.len(),
{
    if s.len() > 0 && is_white(s.last()) {
        let b = lemma_trim_end_at(s.drop_last());
        assert(s.drop_last().take(b) =~= s.take(b));
        assert forall|i: int| b <= i < s.len() implies is_white(#[trigger] s[i]) by {
            if i < s.len() - 1 {
                assert(s.drop_last()[i] == s[i]);
            }
        }
        b
    } else {
        assert(s.take(s.len() as int) =~= s);
        s.len() as int
    }
}

/// In ASCII, white space is the blank and the characters from tab to carriage return.
pub proof fn law_white_space_in_ascii(c: char)
    requires
        (c as int) < 128,
    ensures
        is_white(c) <==> c as int == 32 || 9 <= c as int <= 13,
{
}

/// A text is a number where it is digits behind at most one plus, and then it is the number that they
/// write, unless that is too great.
pub proof fn law_only_digits_are_numbers(s: Seq<char>, max: nat, i: int)
    requires
        0 <= i < s.len(),
        !(48 <= s[i] as int <= 57),
        i > 0 || s[0] != '+',
    ensures
        parse_unsigned(s, max) is None,
{
    let t = without_plus(s);
    if s[0] == '+' {
        assert(t[i - 1] == s[i]);
        assert(!is_digit(t[i - 1]));
    } else {
        assert(!is_digit(t[i]));
    }
}

/// A number that is too great, or nothing, is not read.
pub proof fn law_numbers_have_bounds(n: nat, max: nat)
    ensures
        n > max ==> parse_unsigned(digits(n), max) is None,
        parse_unsigned(Seq::<char>::empty(), max) is None,
        digits_value(seq!['4', '2']) == 42,
{
    lemma_digits_value(n);
    let s = digits(n);
    assert(is_digit(s[0]));
    assert(without_plus(s) == s);
    let t = seq!['4', '2'];
    assert(t.drop_last() =~= seq!['4']);
    assert(seq!['4'].drop_last() =~= Seq::<char>::empty());
    assert(digits_value(Seq::<char>::empty()) == 0);
    assert(digits_value(seq!['4']) == 4);
}

/// Texts are split at the first, or the last, of a character: what stands before it and what stands
/// behind it.
pub proof fn law_splitting_parts_a_text(a: Seq<char>, b: Seq<char>, c: char)
    ensures
        !a.contains(c) ==> split_at_first(a + seq![c] + b, c) == Some((a, b)),
        !b.contains(c) ==> split_at_last(a + seq![c] + b, c) == Some((a, b)),
        !a.contains(c) ==> split_at_first(a, c) is None && split_at_last(a, c) is None,
{
    let s = a + seq![c] + b;
    let n = a.len() as int;
    assert(s.take(n) =~= a);
    assert(s.skip(n + 1) =~= b);
    assert(s[n] == c);
    if !a.contains(c) {
        assert forall|j: int| 0 <= j < n implies s[j] != c by {
            assert(a[j] == s[j]);
            assert(a.contains(a[j]));
        }
        lemma_find_char(s, c, n);
        assert forall|j: int| 0 <= j < n implies a[j] != c by {
            assert(a.contains(a[j]));
        }
        lemma_find_char(a, c, n);
        lemma_rfind_absent(a, c);
    }
    if !b.contains(c) {
        assert forall|i: int| 0 <= i < b.len() implies #[trigger] b[i] != c by {
            assert(b.contains(b[i]));
        }
        let front = a + seq![c];
        assert(s =~= front + b);
        lemma_rfind_char_before(front, b, c);
        assert(front.last() == c);
    }
}

proof fn lemma_rfind_absent(s: Seq<char>, c: char)
    requires
        forall|j: int| 0 <= j < s.len() ==> s[j] != c,
    ensures
        rfind_char(s, c) == -1,
    decreases s.len(),
{
    if s.len() > 0 {
        assert forall|j: int| 0 <= j < s.drop_last().len() implies s.drop_last()[j] != c by {
            assert(s[j] != c);
        }
        lemma_rfind_absent(s.drop_last(), c);
    }
}

/// A leading part is taken off as often as it stands there, and nothing else is.
pub proof fn law_leading_part_is_taken_off(s: Seq<char>, p: Seq<char>)
    ensures
        p.len() > 0 ==> strip_leading(p + s, p) == strip_leading(s, p),
        !(p.len() <= s.len() && s.subrange(0, p.len() as int) == p) ==> strip_leading(s, p) == s,
        p.len() == 0 ==> strip_leading(s, p) == s,
{
    let t = p + s;
    assert(p.is_prefix_of(t)) by {
        assert(t.subrange(0, p.len() as int) =~= p);
    }
    assert(t.skip(p.len() as int) =~= s);
}

} // verus!
