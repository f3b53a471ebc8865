//! Which requests a rule of the blacklist matches.

use crate::config::{texts, MatchMode, MatchTarget, Rule, RuleView};
use crate::foreign::{
    glob_compiles, glob_error, glob_match, glob_matches, glob_portable, lowercase, regex_error,
    regex_match, regex_matches, to_lowercase,
};
use crate::globs::{is_shallow, shallow};
use crate::response::{is_prefix, is_suffix};
use crate::text::{
    all_ascii, ascii_folded, ascii_raised, contains_seq, has_text, lemma_folded, lemma_raised_folds,
    lemma_same_folds, same_ignoring_case, same_text, same_text_ignoring_case,
};
use vstd::prelude::*;

verus! {

/// What rules can look at in a request.
#[derive(Debug)]
pub struct RequestFacts {
    pub method: String,
    pub host: String,
    pub url: String,
    pub path: String,
    pub headers: Vec<(String, String)>,
}

/// `RequestFacts` as a value.
#[verifier::ext_equal]
pub struct FactsView {
    pub method: Seq<char>,
    pub host: Seq<char>,
    pub url: Seq<char>,
    pub path: Seq<char>,
    pub headers: Seq<(Seq<char>, Seq<char>)>,
}

/// Names and values of headers.
pub open spec fn header_views(list: Seq<(String, String)>) -> Seq<(Seq<char>, Seq<char>)> {
    list.map_values(|h: (String, String)| (h.0@, h.1@))
}

impl View for RequestFacts {
    type V = FactsView;

    open spec fn view(&self) -> FactsView {
        FactsView {
            method: self.method@,
            host: self.host@,
            url: self.url@,
            path: self.path@,
            headers: header_views(self.headers@),
        }
    }
}

/// Copies names and values of headers.
pub fn copy_headers(list: &[(String, String)]) -> (r: Vec<(String, String)>)
    ensures
        r@ == list@,
        header_views(r@) == header_views(list@),
{
    let mut out: Vec<(String, String)> = Vec::new();
    let mut i: usize = 0;
    while i < list.len()
        invariant
            i <= list.len(),
            out@ == list@.take(i as int),
        decreases list.len() - i,
    {
        out.push((list[i].0.clone(), list[i].1.clone()));
        assert(out@ =~= list@.take(i + 1));
        i += 1;
    }
    assert(out@ == list@);
    out
}

impl Clone for RequestFacts {
    fn clone(&self) -> (r: Self)
        ensures
            r@ == self@,
    {
        RequestFacts {
            method: self.method.clone(),
            host: self.host.clone(),
            url: self.url.clone(),
            path: self.path.clone(),
            headers: copy_headers(self.headers.as_slice()),
        }
    }
}

/// Why a rule cannot be applied.
#[derive(Debug)]
pub enum RuleError {
    /// The pattern is no glob.
    Glob { rule: String, detail: String },
    /// The pattern is a glob whose alternatives are nested too deeply, or whose expression exceeds
    /// the limits of the engine.
    GlobTooLarge { rule: String },
    /// The pattern is no regular expression.
    Regex { rule: String, detail: String },
}

/// `RuleError` as a value.
#[verifier::ext_equal]
pub enum RuleErrorView {
    Glob { rule: Seq<char>, detail: Seq<char> },
    GlobTooLarge { rule: Seq<char> },
    Regex { rule: Seq<char>, detail: Seq<char> },
}

impl View for RuleError {
    type V = RuleErrorView;

    open spec fn view(&self) -> RuleErrorView {
        match self {
            RuleError::Glob { rule, detail } => RuleErrorView::Glob {
                rule: rule@,
                detail: detail@,
            },
            RuleError::GlobTooLarge { rule } => RuleErrorView::GlobTooLarge { rule: rule@ },
            RuleError::Regex { rule, detail } => RuleErrorView::Regex {
                rule: rule@,
                detail: detail@,
            },
        }
    }
}

/// The text of an error of a rule.
pub open spec fn rule_error_text(error: RuleErrorView) -> Seq<char> {
    match error {
        RuleErrorView::Glob { rule, detail } => "规则 "@ + rule + " 的 glob 无效: "@ + detail,
        RuleErrorView::GlobTooLarge { rule } => "规则 "@ + rule
            + " 的 glob 无效: 表达式过大"@,
        RuleErrorView::Regex { rule, detail } => "规则 "@ + rule
            + " 的正则表达式无效: "@ + detail,
    }
}

impl RuleError {
    /// The error in words.
    pub fn message(&self) -> (r: String)
        ensures
            r@ == rule_error_text(self@),
    {
        let mut out = "规则 ".to_owned();
        match self {
            RuleError::Glob { rule, detail } => {
                out.append(rule.as_str());
                out.append(" 的 glob 无效: ");
                out.append(detail.as_str());
            },
            RuleError::GlobTooLarge { rule } => {
                out.append(rule.as_str());
                out.append(" 的 glob 无效: 表达式过大");
            },
            RuleError::Regex { rule, detail } => {
                out.append(rule.as_str());
                out.append(" 的正则表达式无效: ");
                out.append(detail.as_str());
            },
        }
        out
    }
}

/// Whether a rule's list of methods lets a method pass; an empty list lets every method pass.
pub open spec fn method_allowed(methods: Seq<Seq<char>>, method: Seq<char>) -> bool {
    methods.len() == 0 || exists|i: int|
        0 <= i < methods.len() && same_ignoring_case(#[trigger] methods[i], method)
}

/// A request for an encrypted tunnel: nothing but its target can be seen.
pub open spec fn is_connect(method: Seq<char>) -> bool {
    same_ignoring_case(method, "CONNECT"@)
}

/// Whether a header is one that the rule looks at.
pub open spec fn header_wanted(expected: Option<Seq<char>>, name: Seq<char>) -> bool {
    match expected {
        Some(e) => same_ignoring_case(e, name),
        None => true,
    }
}

/// The wanted headers, each as `name: value`, in their order.
pub open spec fn header_lines(
    headers: Seq<(Seq<char>, Seq<char>)>,
    expected: Option<Seq<char>>,
) -> Seq<Seq<char>>
    decreases headers.len(),
{
    if headers.len() == 0 {
        Seq::empty()
    } else {
        let before = header_lines(headers.drop_last(), expected);
        let (name, value) = headers.last();
        if header_wanted(expected, name) {
            before.push(name + ": "@ + value)
        } else {
            before
        }
    }
}

/// The texts that a rule compares with its pattern. Path and headers belong to plain HTTP only: of
/// an encrypted tunnel a rule sees the host and the URL made from it.
pub open spec fn candidates(rule: RuleView, facts: FactsView) -> Seq<Seq<char>> {
    match rule.target {
        MatchTarget::Host => seq![facts.host],
        MatchTarget::Url => seq![facts.url],
        MatchTarget::Path => if is_connect(facts.method) {
            Seq::empty()
        } else {
            seq![facts.path]
        },
        MatchTarget::Header => if is_connect(facts.method) {
            Seq::empty()
        } else {
            header_lines(facts.headers, rule.header_name)
        },
    }
}

/// Why the pattern of a rule cannot be applied, with a backslash of a glob read one way; `None` for
/// a pattern that can.
pub open spec fn pattern_error(rule: RuleView, separates: bool) -> Option<RuleErrorView> {
    match rule.mode {
        MatchMode::Exact | MatchMode::Contains => None,
        MatchMode::Glob => if !shallow(lowercase(rule.pattern)) {
            Some(RuleErrorView::GlobTooLarge { rule: rule.id })
        } else {
            match glob_error(lowercase(rule.pattern), separates) {
                Some(detail) => Some(RuleErrorView::Glob { rule: rule.id, detail }),
                None => if glob_compiles(lowercase(rule.pattern), separates) {
                    None
                } else {
                    Some(RuleErrorView::GlobTooLarge { rule: rule.id })
                },
            }
        },
        MatchMode::Regex => match regex_error(rule.pattern) {
            Some(detail) => Some(RuleErrorView::Regex { rule: rule.id, detail }),
            None => None,
        },
    }
}

/// Whether the pattern of a rule, which can be applied, fits one text.
pub open spec fn text_fits(rule: RuleView, value: Seq<char>, separates: bool) -> bool {
    match rule.mode {
        MatchMode::Exact => lowercase(value) == lowercase(rule.pattern),
        MatchMode::Contains => contains_seq(lowercase(value), lowercase(rule.pattern)),
        MatchMode::Glob => glob_matches(lowercase(rule.pattern), lowercase(value), separates),
        MatchMode::Regex => regex_matches(rule.pattern, value),
    }
}

/// What comes of comparing the pattern of a rule with one text.
pub open spec fn match_text(rule: RuleView, value: Seq<char>, separates: bool) -> Result<
    bool,
    RuleErrorView,
> {
    match pattern_error(rule, separates) {
        Some(error) => Err(error),
        None => Ok(text_fits(rule, value, separates)),
    }
}

/// Whether one of the texts fits; the first text that cannot be compared decides, if none before it
/// fits. The readings say, for each text, how a backslash is read.
pub open spec fn match_any(rule: RuleView, values: Seq<Seq<char>>, readings: Seq<bool>) -> Result<
    bool,
    RuleErrorView,
>
    decreases values.len(),
{
    if values.len() == 0 {
        Ok(false)
    } else {
        match match_text(rule, values[0], readings[0]) {
            Err(error) => Err(error),
            Ok(true) => Ok(true),
            Ok(false) => match_any(rule, values.drop_first(), readings.drop_first()),
        }
    }
}

/// Whether a rule matches a request.
pub open spec fn rule_verdict(rule: RuleView, facts: FactsView, readings: Seq<bool>) -> Result<
    bool,
    RuleErrorView,
> {
    if !rule.enabled || !method_allowed(rule.methods, facts.method) {
        Ok(false)
    } else {
        match_any(rule, candidates(rule, facts), readings)
    }
}

/// Whether a rule compares anything of a request with its pattern.
pub open spec fn compares(rule: RuleView, facts: FactsView) -> bool {
    rule.enabled && method_allowed(rule.methods, facts.method) && candidates(rule, facts).len() > 0
}

/// Whether every platform reads the pattern of a rule alike.
pub open spec fn portable_pattern(rule: RuleView) -> bool {
    rule.mode == MatchMode::Glob ==> glob_portable(lowercase(rule.pattern))
}

/// Whether every platform compares the pattern of a rule with one text alike.
pub open spec fn portable_text(rule: RuleView, value: Seq<char>) -> bool {
    rule.mode == MatchMode::Glob ==> glob_portable(lowercase(rule.pattern)) && glob_portable(
        lowercase(value),
    )
}

/// Whether the verdict of a rule is the same on every platform.
pub open spec fn portable(rule: RuleView, facts: FactsView) -> bool {
    compares(rule, facts) ==> forall|i: int|
        0 <= i < candidates(rule, facts).len() ==> portable_text(
            rule,
            #[trigger] candidates(rule, facts)[i],
        )
}

/// A verdict, or the text of the reason why there is none.
pub open spec fn verdict_view(r: Result<bool, RuleError>) -> Result<bool, RuleErrorView> {
    match r {
        Ok(matched) => Ok(matched),
        Err(error) => Err(error@),
    }
}

/// The reason why there is no verdict.
pub open spec fn error_of(r: Result<bool, RuleErrorView>) -> Option<RuleErrorView> {
    match r {
        Ok(_) => None,
        Err(error) => Some(error),
    }
}

/// What may come of comparing a rule with one text: what one of the ways to read a backslash gives.
/// Where the pattern holds none, both give the same error or none; where the text holds none either,
/// both give the same.
pub open spec fn is_comparison(
    rule: RuleView,
    value: Seq<char>,
    r: Result<bool, RuleErrorView>,
) -> bool {
    &&& exists|separates: bool| r == #[trigger] match_text(rule, value, separates)
    &&& portable_pattern(rule) ==> forall|separates: bool|
        error_of(r) == #[trigger] pattern_error(rule, separates)
    &&& portable_text(rule, value) ==> forall|separates: bool|
        r == #[trigger] match_text(rule, value, separates)
}

/// What may come of applying a rule to a request: what some readings of the backslashes give. Where
/// the pattern holds none, all of them give the same error or none; where the texts hold none
/// either, all of them give the same.
pub open spec fn is_verdict(
    rule: RuleView,
    facts: FactsView,
    r: Result<bool, RuleErrorView>,
) -> bool {
    &&& exists|readings: Seq<bool>|
        readings.len() == candidates(rule, facts).len() && r == #[trigger] rule_verdict(
            rule,
            facts,
            readings,
        )
    &&& portable_pattern(rule) && compares(rule, facts) ==> forall|separates: bool|
        error_of(r) == #[trigger] pattern_error(rule, separates)
    &&& portable(rule, facts) ==> forall|readings: Seq<bool>|
        readings.len() == candidates(rule, facts).len() ==> r == #[trigger] rule_verdict(
            rule,
            facts,
            readings,
        )
}

/// A rule with the ASCII letters of its pattern in lower case.
pub open spec fn folded_rule(rule: RuleView) -> RuleView {
    RuleView { pattern: ascii_folded(rule.pattern), ..rule }
}

/// A rule with the ASCII letters of its pattern in upper case.
pub open spec fn raised_rule(rule: RuleView) -> RuleView {
    RuleView { pattern: ascii_raised(rule.pattern), ..rule }
}

/// A request with the ASCII letters of all that rules compare in lower case.
pub open spec fn folded_facts(facts: FactsView) -> FactsView {
    FactsView {
        method: facts.method,
        host: ascii_folded(facts.host),
        url: ascii_folded(facts.url),
        path: ascii_folded(facts.path),
        headers: facts.headers.map_values(
            |h: (Seq<char>, Seq<char>)| (ascii_folded(h.0), ascii_folded(h.1)),
        ),
    }
}

/// A request with the ASCII letters of all that rules compare in upper case.
pub open spec fn raised_facts(facts: FactsView) -> FactsView {
    FactsView {
        method: facts.method,
        host: ascii_raised(facts.host),
        url: ascii_raised(facts.url),
        path: ascii_raised(facts.path),
        headers: facts.headers.map_values(
            |h: (Seq<char>, Seq<char>)| (ascii_raised(h.0), ascii_raised(h.1)),
        ),
    }
}

/// What `matches` returns: a verdict of the rule, and, but for regular expressions, one that does
/// not depend on the case of ASCII letters.
pub open spec fn finds(rule: RuleView, facts: FactsView, r: Result<bool, RuleErrorView>) -> bool {
    &&& is_verdict(rule, facts, r)
    &&& rule.mode != MatchMode::Regex ==> is_verdict(folded_rule(rule), folded_facts(facts), r)
}

/// The verdict of a rule, given what came of its glob.
pub fn glob_verdict(rule_id: &str, outcome: Result<Option<bool>, String>) -> (r: Result<
    bool,
    RuleError,
>)
    ensures
        verdict_view(r) == match outcome {
            Ok(Some(matched)) => Ok::<bool, RuleErrorView>(matched),
            Ok(None) => Err(RuleErrorView::GlobTooLarge { rule: rule_id@ }),
            Err(detail) => Err(RuleErrorView::Glob { rule: rule_id@, detail: detail@ }),
        },
{
    match outcome {
        Ok(Some(matched)) => Ok(matched),
        Ok(None) => Err(RuleError::GlobTooLarge { rule: rule_id.to_owned() }),
        Err(detail) => Err(RuleError::Glob { rule: rule_id.to_owned(), detail }),
    }
}

/// The verdict of a rule, given what came of its regular expression.
pub fn regex_verdict(rule_id: &str, outcome: Result<bool, String>) -> (r: Result<bool, RuleError>)
    ensures
        verdict_view(r) == match outcome {
            Ok(matched) => Ok::<bool, RuleErrorView>(matched),
            Err(detail) => Err(RuleErrorView::Regex { rule: rule_id@, detail: detail@ }),
        },
{
    match outcome {
        Ok(matched) => Ok(matched),
        Err(detail) => Err(RuleError::Regex { rule: rule_id.to_owned(), detail }),
    }
}

/// Compares the pattern of a rule with one text.
pub fn match_value(rule: &Rule, value: &str) -> (r: Result<bool, RuleError>)
    ensures
        is_comparison(rule@, value@, verdict_view(r)),
        rule.mode != MatchMode::Regex ==> is_comparison(
            folded_rule(rule@),
            ascii_folded(value@),
            verdict_view(r),
        ),
{
    let insensitive_value = to_lowercase(value);
    let insensitive_pattern = to_lowercase(rule.pattern.as_str());
    let r = match rule.mode {
        MatchMode::Exact => Ok(
            same_text(insensitive_value.as_str(), insensitive_pattern.as_str()),
        ),
        MatchMode::Contains => Ok(
            has_text(insensitive_value.as_str(), insensitive_pattern.as_str()),
        ),
        MatchMode::Glob => if is_shallow(insensitive_pattern.as_str()) {
            glob_verdict(
                rule.id.as_str(),
                glob_match(insensitive_pattern.as_str(), insensitive_value.as_str()),
            )
        } else {
            Err(RuleError::GlobTooLarge { rule: rule.id.clone() })
        },
        MatchMode::Regex => regex_verdict(
            rule.id.as_str(),
            regex_match(rule.pattern.as_str(), value),
        ),
    };
    proof {
        let result = verdict_view(r);
        assert(result == match_text(rule@, value@, true) || result == match_text(
            rule@,
            value@,
            false,
        ));
        if rule.mode != MatchMode::Regex {
            lemma_folded(rule@.pattern);
            lemma_folded(value@);
            lemma_same_comparison(
                rule@,
                folded_rule(rule@),
                value@,
                ascii_folded(value@),
                result,
            );
        }
    }
    r
}

/// Whether a rule's list of methods lets a method pass.
fn allows_method(methods: &[String], method: &str) -> (r: bool)
    ensures
        r == method_allowed(texts(methods@), method@),
{
    let ghost all = texts(methods@);
    if methods.len() == 0 {
        return true;
    }
    let mut i: usize = 0;
    while i < methods.len()
        invariant
            i <= methods.len(),
            all == texts(methods@),
            forall|j: int| 0 <= j < i ==> !same_ignoring_case(#[trigger] all[j], method@),
        decreases methods.len() - i,
    {
        assert(all[i as int] == methods@[i as int]@);
        if same_text_ignoring_case(methods[i].as_str(), method) {
            return true;
        }
        i += 1;
    }
    false
}

/// The wanted headers as lines.
fn wanted_headers(headers: &[(String, String)], expected: &Option<String>) -> (r: Vec<String>)
    ensures
        texts(r@) == header_lines(header_views(headers@), crate::foreign::opt_view(*expected)),
{
    let ghost all = header_views(headers@);
    let ghost want = crate::foreign::opt_view(*expected);
    let mut out: Vec<String> = Vec::new();
    let mut i: usize = 0;
    assert(all.take(0) =~= Seq::empty());
    assert(texts(out@) =~= Seq::<Seq<char>>::empty());
    while i < headers.len()
        invariant
            i <= headers.len(),
            all == header_views(headers@),
            want == crate::foreign::opt_view(*expected),
            texts(out@) == header_lines(all.take(i as int), want),
        decreases headers.len() - i,
    {
        let name = headers[i].0.as_str();
        let wanted = match expected {
            Some(e) => same_text_ignoring_case(e.as_str(), name),
            None => true,
        };
        assert(all.take(i + 1).drop_last() =~= all.take(i as int));
        assert(all.take(i + 1).last() == (headers@[i as int].0@, headers@[i as int].1@));
        if wanted {
            let ghost before = out@;
            let mut line = name.to_owned();
            line.append(": ");
            line.append(headers[i].1.as_str());
            out.push(line);
            assert(texts(out@) =~= texts(before).push(line@));
        }
        i += 1;
    }
    assert(all.take(i as int) =~= all);
    out
}

/// The texts that a rule compares with its pattern.
fn candidate_values(rule: &Rule, request: &RequestFacts) -> (r: Vec<String>)
    ensures
        texts(r@) == candidates(rule@, request@),
{
    let mut out: Vec<String> = Vec::new();
    assert(texts(out@) =~= Seq::<Seq<char>>::empty());
    match rule.target {
        MatchTarget::Host => {
            out.push(request.host.clone());
            assert(texts(out@) =~= seq![request.host@]);
            out
        },
        MatchTarget::Url => {
            out.push(request.url.clone());
            assert(texts(out@) =~= seq![request.url@]);
            out
        },
        MatchTarget::Path => {
            if !same_text_ignoring_case(request.method.as_str(), "CONNECT") {
                out.push(request.path.clone());
                assert(texts(out@) =~= seq![request.path@]);
            }
            out
        },
        MatchTarget::Header => {
            if same_text_ignoring_case(request.method.as_str(), "CONNECT") {
                out
            } else {
                wanted_headers(request.headers.as_slice(), &rule.header_name)
            }
        },
    }
}

/// Whether a rule matches a request.
pub fn matches(rule: &Rule, request: &RequestFacts) -> (r: Result<bool, RuleError>)
    ensures
        finds(rule@, request@, verdict_view(r)),
{
    let ghost folded = (folded_rule(rule@), folded_facts(request@));
    if !rule.enabled || !allows_method(rule.methods.as_slice(), request.method.as_str()) {
        proof {
            lemma_filtered(rule@, request@);
            lemma_filtered(folded.0, folded.1);
        }
        return Ok(false);
    }
    let values = candidate_values(rule, request);
    let ghost all = candidates(rule@, request@);
    proof {
        lemma_folded_candidates(rule@, request@);
    }
    let mut i: usize = 0;
    while i < values.len()
        invariant
            i <= values@.len(),
            all == texts(values@),
            all == candidates(rule@, request@),
            folded == (folded_rule(rule@), folded_facts(request@)),
            candidates(folded.0, folded.1).len() == all.len(),
            forall|j: int|
                0 <= j < all.len() ==> #[trigger] candidates(folded.0, folded.1)[j] == ascii_folded(
                    all[j],
                ),
            rule.enabled,
            method_allowed(rule@.methods, request@.method),
            forall|j: int|
                0 <= j < i ==> is_comparison(rule@, #[trigger] all[j], Ok(false)),
            rule.mode != MatchMode::Regex ==> forall|j: int|
                0 <= j < i ==> is_comparison(
                    folded.0,
                    #[trigger] candidates(folded.0, folded.1)[j],
                    Ok(false),
                ),
        decreases values@.len() - i,
    {
        assert(all[i as int] == values@[i as int]@);
        assert(candidates(folded.0, folded.1)[i as int] == ascii_folded(all[i as int]));
        match match_value(rule, values[i].as_str()) {
            Ok(false) => {},
            decisive => {
                proof {
                    let result = verdict_view(decisive);
                    lemma_verdict(rule@, request@, i as int, result);
                    if rule.mode != MatchMode::Regex {
                        lemma_verdict(folded.0, folded.1, i as int, result);
                    }
                }
                return decisive;
            },
        }
        i += 1;
    }
    proof {
        lemma_verdict(rule@, request@, i as int, Ok(false));
        if rule.mode != MatchMode::Regex {
            lemma_verdict(folded.0, folded.1, i as int, Ok(false));
        }
    }
    Ok(false)
}

/// Lower case forms are all that a comparison looks at, but for regular expressions.
proof fn lemma_same_comparison(
    rule: RuleView,
    other: RuleView,
    value: Seq<char>,
    text: Seq<char>,
    r: Result<bool, RuleErrorView>,
)
    requires
        rule.mode != MatchMode::Regex,
        other == (RuleView { pattern: other.pattern, ..rule }),
        lowercase(other.pattern) == lowercase(rule.pattern),
        lowercase(text) == lowercase(value),
    ensures
        is_comparison(other, text, r) == is_comparison(rule, value, r),
        forall|separates: bool| #[trigger]
            match_text(other, text, separates) == match_text(rule, value, separates),
        forall|separates: bool| #[trigger]
            pattern_error(other, separates) == pattern_error(rule, separates),
{
    assert forall|separates: bool|
        #![trigger match_text(rule, value, separates)]
        #![trigger match_text(other, text, separates)]
        match_text(rule, value, separates) == match_text(other, text, separates) by {}
    assert forall|separates: bool|
        #![trigger pattern_error(rule, separates)]
        #![trigger pattern_error(other, separates)]
        pattern_error(rule, separates) == pattern_error(other, separates) by {}
}

/// The first text that fits or cannot be compared decides.
proof fn lemma_match_any(rule: RuleView, values: Seq<Seq<char>>, readings: Seq<bool>, i: int)
    requires
        0 <= i <= values.len(),
        readings.len() == values.len(),
        forall|j: int|
            0 <= j < i ==> match_text(rule, #[trigger] values[j], readings[j]) == Ok::<
                bool,
                RuleErrorView,
            >(false),
        i < values.len() ==> match_text(rule, values[i], readings[i]) != Ok::<bool, RuleErrorView>(
            false,
        ),
    ensures
        match_any(rule, values, readings) == if i < values.len() {
            match_text(rule, values[i], readings[i])
        } else {
            Ok(false)
        },
    decreases values.len(),
{
    if i > 0 {
        assert(match_text(rule, values[0], readings[0]) == Ok::<bool, RuleErrorView>(false));
        let rest = values.drop_first();
        assert forall|j: int| 0 <= j < i - 1 implies match_text(
            rule,
            #[trigger] rest[j],
            readings.drop_first()[j],
        ) == Ok::<bool, RuleErrorView>(false) by {
            assert(rest[j] == values[j + 1]);
        }
        lemma_match_any(rule, rest, readings.drop_first(), i - 1);
    }
}

/// Where the first text stands that fits or cannot be compared; the length where there is none.
proof fn lemma_decisive(rule: RuleView, values: Seq<Seq<char>>, readings: Seq<bool>) -> (i: int)
    requires
        readings.len() == values.len(),
    ensures
        0 <= i <= values.len(),
        forall|j: int|
            0 <= j < i ==> match_text(rule, #[trigger] values[j], readings[j]) == Ok::<
                bool,
                RuleErrorView,
            >(false),
        i < values.len() ==> match_text(rule, values[i], readings[i]) != Ok::<bool, RuleErrorView>(
            false,
        ),
    decreases values.len(),
{
    if values.len() == 0 || match_text(rule, values[0], readings[0]) != Ok::<bool, RuleErrorView>(
        false,
    ) {
        0
    } else {
        let rest = values.drop_first();
        let i = lemma_decisive(rule, rest, readings.drop_first()) + 1;
        assert forall|j: int| 0 <= j < i implies match_text(rule, #[trigger] values[j], readings[j])
            == Ok::<bool, RuleErrorView>(false) by {
            if j > 0 {
                assert(rest[j - 1] == values[j]);
            }
        }
        i
    }
}

/// The verdict, from the comparisons up to the one that decides.
proof fn lemma_verdict(
    rule: RuleView,
    facts: FactsView,
    i: int,
    r: Result<bool, RuleErrorView>,
)
    requires
        rule.enabled,
        method_allowed(rule.methods, facts.method),
        0 <= i <= candidates(rule, facts).len(),
        forall|j: int|
            0 <= j < i ==> is_comparison(rule, #[trigger] candidates(rule, facts)[j], Ok(false)),
        i < candidates(rule, facts).len() ==> is_comparison(rule, candidates(rule, facts)[i], r)
            && r != Ok::<bool, RuleErrorView>(false),
        i == candidates(rule, facts).len() ==> r == Ok::<bool, RuleErrorView>(false),
    ensures
        is_verdict(rule, facts, r),
{
    let all = candidates(rule, facts);
    let no = Ok::<bool, RuleErrorView>(false);
    let readings = Seq::new(
        all.len(),
        |j: int|
            choose|separates: bool|
                (if j == i {
                    r
                } else {
                    no
                }) == #[trigger] match_text(rule, all[j], separates),
    );
    assert forall|j: int| 0 <= j < i implies match_text(rule, #[trigger] all[j], readings[j])
        == no by {
        assert(is_comparison(rule, all[j], no));
    }
    if i < all.len() {
        assert(r == match_text(rule, all[i], readings[i]));
    }
    lemma_match_any(rule, all, readings, i);
    assert(r == rule_verdict(rule, facts, readings));
    if portable_pattern(rule) && i > 0 {
        assert(is_comparison(rule, all[0], no));
        assert(pattern_error(rule, readings[0]) is None);
    }
    if portable(rule, facts) {
        assert forall|others: Seq<bool>| others.len() == all.len() implies r
            == #[trigger] rule_verdict(rule, facts, others) by {
            assert forall|j: int| 0 <= j < i implies match_text(rule, #[trigger] all[j], others[j])
                == no by {
                assert(is_comparison(rule, all[j], no));
                assert(portable_text(rule, all[j]));
            }
            if i < all.len() {
                assert(portable_text(rule, all[i]));
                assert(r == match_text(rule, all[i], others[i]));
            }
            lemma_match_any(rule, all, others, i);
        }
    }
}

/// A rule that is switched off, or whose methods do not hold the request's, has one verdict.
proof fn lemma_filtered(rule: RuleView, facts: FactsView)
    requires
        !rule.enabled || !method_allowed(rule.methods, facts.method),
    ensures
        is_verdict(rule, facts, Ok(false)),
{
    let readings = Seq::new(candidates(rule, facts).len(), |j: int| true);
    assert(rule_verdict(rule, facts, readings) == Ok::<bool, RuleErrorView>(false));
}

/// Lower case forms of a request give the lower case forms of the texts that a rule looks at.
proof fn lemma_folded_candidates(rule: RuleView, facts: FactsView)
    ensures
        candidates(folded_rule(rule), folded_facts(facts)) == candidates(rule, facts).map_values(
            |value: Seq<char>| ascii_folded(value),
        ),
{
    let fold = |value: Seq<char>| ascii_folded(value);
    lemma_folded_headers(facts.headers, rule.header_name);
    assert(seq![ascii_folded(facts.host)] =~= seq![facts.host].map_values(fold));
    assert(seq![ascii_folded(facts.url)] =~= seq![facts.url].map_values(fold));
    assert(seq![ascii_folded(facts.path)] =~= seq![facts.path].map_values(fold));
    assert(Seq::<Seq<char>>::empty() =~= Seq::<Seq<char>>::empty().map_values(fold));
}

proof fn lemma_folded_headers(
    headers: Seq<(Seq<char>, Seq<char>)>,
    expected: Option<Seq<char>>,
)
    ensures
        header_lines(
            headers.map_values(
                |h: (Seq<char>, Seq<char>)| (ascii_folded(h.0), ascii_folded(h.1)),
            ),
            expected,
        ) == header_lines(headers, expected).map_values(|value: Seq<char>| ascii_folded(value)),
    decreases headers.len(),
{
    let fold = |value: Seq<char>| ascii_folded(value);
    let folded = headers.map_values(
        |h: (Seq<char>, Seq<char>)| (ascii_folded(h.0), ascii_folded(h.1)),
    );
    if headers.len() == 0 {
        assert(header_lines(folded, expected) =~= header_lines(headers, expected).map_values(fold));
    } else {
        let (name, value) = headers.last();
        lemma_folded_headers(headers.drop_last(), expected);
        assert(folded.drop_last() =~= headers.drop_last().map_values(
            |h: (Seq<char>, Seq<char>)| (ascii_folded(h.0), ascii_folded(h.1)),
        ));
        if let Some(e) = expected {
            lemma_same_folds(e, name);
            lemma_same_folds(e, ascii_folded(name));
            assert(ascii_folded(ascii_folded(name)) =~= ascii_folded(name));
        }
        reveal_strlit(": ");
        assert(ascii_folded(name + ": "@ + value) =~= ascii_folded(name) + ": "@ + ascii_folded(
            value,
        ));
        assert(header_lines(folded, expected) =~= header_lines(headers, expected).map_values(fold));
    }
}

/// A rule that is switched off, or whose methods do not hold the request's, matches nothing.
pub proof fn law_filtered_rule_never_matches(
    rule: RuleView,
    facts: FactsView,
    r: Result<bool, RuleErrorView>,
)
    requires
        finds(rule, facts, r),
        !rule.enabled || !method_allowed(rule.methods, facts.method),
    ensures
        r == Ok::<bool, RuleErrorView>(false),
{
}

/// A rule that can be applied matches exactly where it is switched on, lets the method pass and
/// finds a text that fits among those that it looks at.
pub proof fn law_matching_takes_a_fitting_text(
    rule: RuleView,
    facts: FactsView,
    readings: Seq<bool>,
    matched: bool,
)
    requires
        readings.len() == candidates(rule, facts).len(),
        rule_verdict(rule, facts, readings) == Ok::<bool, RuleErrorView>(matched),
    ensures
        matched <==> rule.enabled && method_allowed(rule.methods, facts.method) && exists|i: int|
            {
                &&& 0 <= i < candidates(rule, facts).len()
                &&& match_text(rule, #[trigger] candidates(rule, facts)[i], readings[i]) == Ok::<
                    bool,
                    RuleErrorView,
                >(true)
            },
{
    let all = candidates(rule, facts);
    if rule.enabled && method_allowed(rule.methods, facts.method) {
        let i = lemma_decisive(rule, all, readings);
        lemma_match_any(rule, all, readings, i);
        if matched {
            assert(match_text(rule, all[i], readings[i]) == Ok::<bool, RuleErrorView>(true));
        }
    }
}

/// A rule is found to be broken exactly where its pattern is and it has a text to compare: it is
/// switched on, lets the method pass, and is about the host or the URL, or, outside of a tunnel,
/// about the path or a header that the request has.
pub proof fn law_broken_pattern_is_reported(
    rule: RuleView,
    facts: FactsView,
    readings: Seq<bool>,
    separates: bool,
)
    requires
        readings.len() == candidates(rule, facts).len(),
        forall|i: int|
            0 <= i < readings.len() ==> pattern_error(rule, #[trigger] readings[i])
                == pattern_error(rule, separates),
    ensures
        error_of(rule_verdict(rule, facts, readings)) == if compares(rule, facts) {
            pattern_error(rule, separates)
        } else {
            None
        },
        compares(rule, facts) <==> rule.enabled && method_allowed(rule.methods, facts.method)
            && match rule.target {
            MatchTarget::Host | MatchTarget::Url => true,
            MatchTarget::Path => !is_connect(facts.method),
            MatchTarget::Header => !is_connect(facts.method) && exists|i: int|
                0 <= i < facts.headers.len() && header_wanted(
                    rule.header_name,
                    (#[trigger] facts.headers[i]).0,
                ),
        },
{
    let all = candidates(rule, facts);
    if compares(rule, facts) {
        let i = lemma_decisive(rule, all, readings);
        lemma_match_any(rule, all, readings, i);
        assert(pattern_error(rule, readings[0]) == pattern_error(rule, separates));
        if i < all.len() {
            assert(pattern_error(rule, readings[i]) == pattern_error(rule, separates));
        }
    }
    lemma_wanted_headers(facts.headers, rule.header_name);
}

proof fn lemma_wanted_headers(headers: Seq<(Seq<char>, Seq<char>)>, expected: Option<Seq<char>>)
    ensures
        header_lines(headers, expected).len() > 0 <==> exists|i: int|
            0 <= i < headers.len() && header_wanted(expected, (#[trigger] headers[i]).0),
    decreases headers.len(),
{
    if headers.len() > 0 {
        let before = headers.drop_last();
        lemma_wanted_headers(before, expected);
        if header_wanted(expected, headers.last().0) {
            assert(header_wanted(expected, headers[headers.len() - 1].0));
        } else if header_lines(before, expected).len() > 0 {
            let i = choose|i: int|
                0 <= i < before.len() && header_wanted(expected, (#[trigger] before[i]).0);
            assert(header_wanted(expected, headers[i].0));
        } else {
            assert forall|i: int| 0 <= i < headers.len() implies !header_wanted(
                expected,
                (#[trigger] headers[i]).0,
            ) by {
                if i < before.len() {
                    assert(before[i] == headers[i]);
                }
            }
        }
    }
}

/// Letter case makes no difference: rules whose patterns have the same lower case form give the same
/// verdict on requests whose compared texts have, but for regular expressions, which decide for
/// themselves.
pub proof fn law_case_makes_no_difference(
    rule: RuleView,
    pattern: Seq<char>,
    facts: FactsView,
    others: FactsView,
    readings: Seq<bool>,
)
    requires
        rule.mode != MatchMode::Regex,
        lowercase(pattern) == lowercase(rule.pattern),
        others.method == facts.method,
        candidates(rule, others).len() == candidates(rule, facts).len(),
        forall|i: int|
            0 <= i < candidates(rule, facts).len() ==> lowercase(
                #[trigger] candidates(rule, others)[i],
            ) == lowercase(candidates(rule, facts)[i]),
        readings.len() == candidates(rule, facts).len(),
    ensures
        rule_verdict(RuleView { pattern, ..rule }, others, readings) == rule_verdict(
            rule,
            facts,
            readings,
        ),
{
    let other = RuleView { pattern, ..rule };
    let all = candidates(rule, facts);
    let texts = candidates(rule, others);
    assert(candidates(other, others) == texts);
    let i = lemma_decisive(rule, all, readings);
    lemma_match_any(rule, all, readings, i);
    assert forall|j: int| 0 <= j < all.len() implies match_text(
        other,
        #[trigger] texts[j],
        readings[j],
    ) == match_text(rule, all[j], readings[j]) by {
        lemma_same_comparison(rule, other, all[j], texts[j], Ok(true));
    }
    assert forall|j: int| 0 <= j < i implies match_text(other, #[trigger] texts[j], readings[j])
        == Ok::<bool, RuleErrorView>(false) by {
        assert(match_text(rule, all[j], readings[j]) == Ok::<bool, RuleErrorView>(false));
    }
    lemma_match_any(other, texts, readings, i);
}

proof fn lemma_raised_facts(facts: FactsView)
    ensures
        folded_facts(raised_facts(facts)) == folded_facts(facts),
{
    lemma_raised_folds(facts.host);
    lemma_raised_folds(facts.url);
    lemma_raised_folds(facts.path);
    assert forall|i: int| 0 <= i < facts.headers.len() implies folded_facts(
        raised_facts(facts),
    ).headers[i] == #[trigger] folded_facts(facts).headers[i] by {
        lemma_raised_folds(facts.headers[i].0);
        lemma_raised_folds(facts.headers[i].1);
    }
    assert(folded_facts(raised_facts(facts)) =~= folded_facts(facts));
}

/// Where pattern and compared texts are all ASCII, raising the letters of either changes no verdict,
/// however backslashes are read, but for regular expressions.
pub proof fn law_raising_ascii_changes_no_verdict(
    rule: RuleView,
    facts: FactsView,
    readings: Seq<bool>,
)
    requires
        rule.mode != MatchMode::Regex,
        all_ascii(rule.pattern),
        forall|i: int|
            0 <= i < candidates(rule, facts).len() ==> all_ascii(
                #[trigger] candidates(rule, facts)[i],
            ),
        readings.len() == candidates(rule, facts).len(),
    ensures
        rule_verdict(raised_rule(rule), facts, readings) == rule_verdict(rule, facts, readings),
        rule_verdict(rule, raised_facts(facts), readings) == rule_verdict(rule, facts, readings),
{
    let all = candidates(rule, facts);
    let raised = candidates(rule, raised_facts(facts));
    lemma_raised_folds(rule.pattern);
    lemma_folded(rule.pattern);
    lemma_folded(ascii_raised(rule.pattern));
    law_case_makes_no_difference(rule, ascii_raised(rule.pattern), facts, facts, readings);
    lemma_raised_facts(facts);
    lemma_folded_candidates(rule, facts);
    lemma_folded_candidates(rule, raised_facts(facts));
    let folded = candidates(folded_rule(rule), folded_facts(facts));
    assert(all.len() == folded.len() && raised.len() == folded.len());
    assert forall|i: int| 0 <= i < all.len() implies lowercase(#[trigger] raised[i]) == lowercase(
        all[i],
    ) by {
        assert(folded[i] == ascii_folded(all[i]));
        assert(folded[i] == ascii_folded(raised[i]));
        lemma_folded(all[i]);
        lemma_folded(raised[i]);
    }
    law_case_makes_no_difference(rule, rule.pattern, facts, raised_facts(facts), readings);
    assert(RuleView { pattern: rule.pattern, ..rule } == rule);
}

/// The case of ASCII letters makes no difference to what is found, but for regular expressions: with
/// the letters of the pattern, or of the request, raised, it is a verdict of the same rule on the
/// same request, the same one under the same readings of the backslashes, and the same one anyhow
/// wherever the platform has no part in it.
pub proof fn law_ascii_case_makes_no_difference(
    rule: RuleView,
    facts: FactsView,
    r: Result<bool, RuleErrorView>,
    of_raised_rule: Result<bool, RuleErrorView>,
    of_raised_facts: Result<bool, RuleErrorView>,
)
    requires
        rule.mode != MatchMode::Regex,
        finds(rule, facts, r),
        finds(raised_rule(rule), facts, of_raised_rule),
        finds(rule, raised_facts(facts), of_raised_facts),
    ensures
        is_verdict(folded_rule(rule), folded_facts(facts), r),
        is_verdict(folded_rule(rule), folded_facts(facts), of_raised_rule),
        is_verdict(folded_rule(rule), folded_facts(facts), of_raised_facts),
        forall|readings: Seq<bool>| #[trigger]
            rule_verdict(folded_rule(raised_rule(rule)), folded_facts(facts), readings)
                == rule_verdict(folded_rule(rule), folded_facts(facts), readings),
        forall|readings: Seq<bool>| #[trigger]
            rule_verdict(folded_rule(rule), folded_facts(raised_facts(facts)), readings)
                == rule_verdict(folded_rule(rule), folded_facts(facts), readings),
        portable(folded_rule(rule), folded_facts(facts)) ==> of_raised_rule == r && of_raised_facts
            == r,
{
    lemma_raised_folds(rule.pattern);
    lemma_raised_facts(facts);
    if portable(folded_rule(rule), folded_facts(facts)) {
        let readings = Seq::new(
            candidates(folded_rule(rule), folded_facts(facts)).len(),
            |j: int| true,
        );
        assert(r == rule_verdict(folded_rule(rule), folded_facts(facts), readings));
    }
}

/// Of an encrypted tunnel a rule sees the host and the URL only: path and headers make no
/// difference to its verdict, and a rule about them does not match.
pub proof fn law_tunnel_shows_only_its_target(
    rule: RuleView,
    facts: FactsView,
    path: Seq<char>,
    headers: Seq<(Seq<char>, Seq<char>)>,
    readings: Seq<bool>,
)
    requires
        is_connect(facts.method),
    ensures
        rule_verdict(rule, FactsView { path, headers, ..facts }, readings) == rule_verdict(
            rule,
            facts,
            readings,
        ),
        rule.target == MatchTarget::Path || rule.target == MatchTarget::Header ==> rule_verdict(
            rule,
            facts,
            readings,
        ) == Ok::<bool, RuleErrorView>(false),
{
}

// ---------------------------------------------------------------------------
// What is compared
// ---------------------------------------------------------------------------
proof fn lemma_header_lines(headers: Seq<(Seq<char>, Seq<char>)>, expected: Option<Seq<char>>)
    ensures
        header_lines(headers, expected) == headers.filter(
            |h: (Seq<char>, Seq<char>)|
                expected is None || same_ignoring_case(expected->0, h.0),
        ).map_values(|h: (Seq<char>, Seq<char>)| h.0 + ": "@ + h.1),
    decreases headers.len(),
{
    reveal(Seq::filter);
    let wanted = |h: (Seq<char>, Seq<char>)|
        expected is None || same_ignoring_case(expected->0, h.0);
    let line = |h: (Seq<char>, Seq<char>)| h.0 + ": "@ + h.1;
    if headers.len() > 0 {
        lemma_header_lines(headers.drop_last(), expected);
        let before = headers.drop_last().filter(wanted);
        assert(before.push(headers.last()).map_values(line) =~= before.map_values(line).push(
            line(headers.last()),
        ));
    }
    assert(header_lines(headers, expected) =~= headers.filter(wanted).map_values(line));
}

/// Outside of a tunnel a rule about headers compares the headers of the name that it gives, or all
/// where it gives none, each as name, colon and value, in their order, and nothing else.
pub proof fn law_wanted_headers_are_compared(rule: RuleView, facts: FactsView)
    requires
        rule.target == MatchTarget::Header,
        !same_ignoring_case(facts.method, "CONNECT"@),
    ensures
        candidates(rule, facts) == facts.headers.filter(
            |h: (Seq<char>, Seq<char>)|
                rule.header_name is None || same_ignoring_case(rule.header_name->0, h.0),
        ).map_values(|h: (Seq<char>, Seq<char>)| h.0 + ": "@ + h.1),
{
    lemma_header_lines(facts.headers, rule.header_name);
}

proof fn lemma_header_line_stands(
    headers: Seq<(Seq<char>, Seq<char>)>,
    expected: Option<Seq<char>>,
    i: int,
) -> (k: int)
    requires
        0 <= i < headers.len(),
        expected is None || same_ignoring_case(expected->0, headers[i].0),
    ensures
        0 <= k < header_lines(headers, expected).len(),
        header_lines(headers, expected)[k] == headers[i].0 + ": "@ + headers[i].1,
    decreases headers.len(),
{
    if i == headers.len() - 1 {
        header_lines(headers, expected).len() - 1
    } else {
        lemma_header_line_stands(headers.drop_last(), expected, i)
    }
}

/// No wanted header is passed over: its text is among those that are compared.
pub proof fn law_no_wanted_header_is_passed_over(rule: RuleView, facts: FactsView, i: int)
    requires
        rule.target == MatchTarget::Header,
        !same_ignoring_case(facts.method, "CONNECT"@),
        0 <= i < facts.headers.len(),
        rule.header_name is None || same_ignoring_case(rule.header_name->0, facts.headers[i].0),
    ensures
        candidates(rule, facts).contains(facts.headers[i].0 + ": "@ + facts.headers[i].1),
{
    let k = lemma_header_line_stands(facts.headers, rule.header_name, i);
    assert(candidates(rule, facts)[k] == facts.headers[i].0 + ": "@ + facts.headers[i].1);
}

/// The first text that fits settles it, whatever is behind it, and without one nothing matches.
proof fn lemma_fitting_text_decides(
    rule: RuleView,
    facts: FactsView,
    readings: Seq<bool>,
    fits: spec_fn(Seq<char>) -> bool,
)
    requires
        rule.enabled,
        rule.methods.len() == 0 || exists|m: int|
            0 <= m < rule.methods.len() && same_ignoring_case(#[trigger] rule.methods[m], facts.method),
        readings.len() == candidates(rule, facts).len(),
        forall|i: int|
            0 <= i < candidates(rule, facts).len() ==> match_text(
                rule,
                #[trigger] candidates(rule, facts)[i],
                readings[i],
            ) == Ok::<bool, RuleErrorView>(fits(candidates(rule, facts)[i])),
    ensures
        rule_verdict(rule, facts, readings) == Ok::<bool, RuleErrorView>(
            exists|i: int|
                0 <= i < candidates(rule, facts).len() && fits(
                    #[trigger] candidates(rule, facts)[i],
                ),
        ),
{
    let all = candidates(rule, facts);
    let i = lemma_decisive(rule, all, readings);
    lemma_match_any(rule, all, readings, i);
    if i < all.len() {
        assert(fits(all[i]));
    } else {
        assert forall|j: int| 0 <= j < all.len() implies !fits(#[trigger] all[j]) by {
            assert(match_text(rule, all[j], readings[j]) == Ok::<bool, RuleErrorView>(false));
        }
    }
}

/// A rule about headers that looks for a text matches exactly where some wanted header holds it, in
/// whatever case.
pub proof fn law_contained_text_is_found_in_any_header(
    rule: RuleView,
    facts: FactsView,
    readings: Seq<bool>,
)
    requires
        rule.enabled,
        rule.methods.len() == 0,
        rule.target == MatchTarget::Header,
        rule.mode == MatchMode::Contains,
        !same_ignoring_case(facts.method, "CONNECT"@),
        readings.len() == candidates(rule, facts).len(),
    ensures
        rule_verdict(rule, facts, readings) == Ok::<bool, RuleErrorView>(
            exists|i: int|
                {
                    &&& 0 <= i < facts.headers.len()
                    &&& rule.header_name is None || same_ignoring_case(
                        rule.header_name->0,
                        facts.headers[i].0,
                    )
                    &&& is_part(
                        lowercase(rule.pattern),
                        lowercase((#[trigger] facts.headers[i]).0 + ": "@ + facts.headers[i].1),
                    )
                },
        ),
{
    let all = candidates(rule, facts);
    let wanted = lowercase(rule.pattern);
    let fits = |value: Seq<char>| contains_seq(lowercase(value), wanted);
    lemma_fitting_text_decides(rule, facts, readings, fits);
    if exists|k: int| 0 <= k < all.len() && fits(#[trigger] all[k]) {
        let k = choose|k: int| 0 <= k < all.len() && fits(#[trigger] all[k]);
        let i = lemma_line_is_of_a_header(facts.headers, rule.header_name, k);
        lemma_is_part(wanted, lowercase(all[k]));
        assert(all[k] == facts.headers[i].0 + ": "@ + facts.headers[i].1);
    }
    assert forall|i: int|
        {
            &&& 0 <= i < facts.headers.len()
            &&& rule.header_name is None || same_ignoring_case(
                rule.header_name->0,
                facts.headers[i].0,
            )
            &&& is_part(
                wanted,
                lowercase((#[trigger] facts.headers[i]).0 + ": "@ + facts.headers[i].1),
            )
        } implies exists|k: int| 0 <= k < all.len() && fits(#[trigger] all[k]) by {
        let k = lemma_header_line_stands(facts.headers, rule.header_name, i);
        lemma_is_part(wanted, lowercase(all[k]));
        assert(fits(all[k]));
    }
}

/// Whether a text stands somewhere in another.
pub open spec fn is_part(part: Seq<char>, whole: Seq<char>) -> bool {
    exists|p: int|
        0 <= p <= whole.len() - part.len() && #[trigger] whole.subrange(p, p + part.len()) == part
}

proof fn lemma_is_part(part: Seq<char>, whole: Seq<char>)
    ensures
        contains_seq(whole, part) == is_part(part, whole),
{
    if contains_seq(whole, part) {
        let p = choose|p: int| crate::text::occurs_at(whole, part, p);
        assert(whole.subrange(p, p + part.len()) == part);
    }
    if is_part(part, whole) {
        let p = choose|p: int|
            0 <= p <= whole.len() - part.len() && #[trigger] whole.subrange(p, p + part.len())
                == part;
        assert(crate::text::occurs_at(whole, part, p));
    }
}

proof fn lemma_line_is_of_a_header(
    headers: Seq<(Seq<char>, Seq<char>)>,
    expected: Option<Seq<char>>,
    k: int,
) -> (i: int)
    requires
        0 <= k < header_lines(headers, expected).len(),
    ensures
        0 <= i < headers.len(),
        expected is None || same_ignoring_case(expected->0, headers[i].0),
        header_lines(headers, expected)[k] == headers[i].0 + ": "@ + headers[i].1,
    decreases headers.len(),
{
    if k < header_lines(headers.drop_last(), expected).len() {
        lemma_line_is_of_a_header(headers.drop_last(), expected, k)
    } else {
        headers.len() - 1
    }
}

/// A rule about the host, the URL or, outside of a tunnel, the path compares just that text: for
/// equality, for a part, as a glob or as a regular expression, each in its own way of case.
pub proof fn law_one_text_is_compared_in_the_mode_of_the_rule(
    rule: RuleView,
    facts: FactsView,
    separates: bool,
    text: Seq<char>,
)
    requires
        rule.enabled,
        rule.methods.len() == 0 || exists|m: int|
            0 <= m < rule.methods.len() && same_ignoring_case(#[trigger] rule.methods[m], facts.method),
        rule.target != MatchTarget::Header,
        rule.target == MatchTarget::Path ==> !same_ignoring_case(facts.method, "CONNECT"@),
        rule.target == MatchTarget::Host ==> text == facts.host,
        rule.target == MatchTarget::Url ==> text == facts.url,
        rule.target == MatchTarget::Path ==> text == facts.path,
    ensures
        rule.mode == MatchMode::Exact ==> rule_verdict(rule, facts, seq![separates]) == Ok::<
            bool,
            RuleErrorView,
        >(lowercase(text) == lowercase(rule.pattern)),
        rule.mode == MatchMode::Contains ==> rule_verdict(rule, facts, seq![separates]) == Ok::<
            bool,
            RuleErrorView,
        >(is_part(lowercase(rule.pattern), lowercase(text))),
        rule.mode == MatchMode::Glob && shallow(lowercase(rule.pattern)) ==> rule_verdict(
            rule,
            facts,
            seq![separates],
        ) == match glob_error(lowercase(rule.pattern), separates) {
            Some(detail) => Err(RuleErrorView::Glob { rule: rule.id, detail }),
            None => if glob_compiles(lowercase(rule.pattern), separates) {
                Ok(glob_matches(lowercase(rule.pattern), lowercase(text), separates))
            } else {
                Err(RuleErrorView::GlobTooLarge { rule: rule.id })
            },
        },
        rule.mode == MatchMode::Regex ==> rule_verdict(rule, facts, seq![separates]) == match regex_error(
            rule.pattern,
        ) {
            Some(detail) => Err(RuleErrorView::Regex { rule: rule.id, detail }),
            None => Ok(regex_matches(rule.pattern, text)),
        },
{
    let all = candidates(rule, facts);
    assert(all =~= seq![text]);
    let i = lemma_decisive(rule, all, seq![separates]);
    lemma_match_any(rule, all, seq![separates], i);
    lemma_is_part(lowercase(rule.pattern), lowercase(text));
    assert(match_text(rule, text, separates) == rule_verdict(rule, facts, seq![separates]));
}

/// The methods of a rule only let requests through to it: with one that is the request's, in whatever
/// case, the verdict is that of the rule without any, and without one nothing matches.
pub proof fn law_methods_only_filter(rule: RuleView, facts: FactsView, readings: Seq<bool>)
    requires
        rule.methods.len() > 0,
    ensures
        rule_verdict(rule, facts, readings) == if exists|m: int|
            0 <= m < rule.methods.len() && same_ignoring_case(
                #[trigger] rule.methods[m],
                facts.method,
            ) {
            rule_verdict(RuleView { methods: Seq::empty(), ..rule }, facts, readings)
        } else {
            Ok(false)
        },
{
    let free = RuleView { methods: Seq::empty(), ..rule };
    assert(candidates(free, facts) == candidates(rule, facts));
    lemma_same_pattern(rule, free, candidates(rule, facts), readings);
}

proof fn lemma_same_pattern(
    rule: RuleView,
    other: RuleView,
    values: Seq<Seq<char>>,
    readings: Seq<bool>,
)
    requires
        other.id == rule.id,
        other.mode == rule.mode,
        other.pattern == rule.pattern,
    ensures
        match_any(other, values, readings) == match_any(rule, values, readings),
    decreases values.len(),
{
    if values.len() > 0 {
        lemma_same_pattern(rule, other, values.drop_first(), readings.drop_first());
    }
}

/// The name and the actions of a rule have no part in whether it matches.
pub proof fn law_name_and_actions_decide_nothing(
    rule: RuleView,
    id: Seq<char>,
    actions: Seq<Seq<char>>,
    facts: FactsView,
    readings: Seq<bool>,
)
    requires
        readings.len() == candidates(rule, facts).len(),
    ensures
        rule_verdict(RuleView { id, actions, ..rule }, facts, readings) == Ok::<bool, RuleErrorView>(
            true,
        ) <==> rule_verdict(rule, facts, readings) == Ok::<bool, RuleErrorView>(true),
{
    let other = RuleView { id, actions, ..rule };
    let all = candidates(rule, facts);
    assert(candidates(other, facts) == all);
    let i = lemma_decisive(rule, all, readings);
    lemma_match_any(rule, all, readings, i);
    assert forall|j: int| 0 <= j < all.len() implies match_text(
        other,
        #[trigger] all[j],
        readings[j],
    ) == (match match_text(rule, all[j], readings[j]) {
        Ok(b) => Ok(b),
        Err(_) => match_text(other, all[j], readings[j]),
    }) by {}
    lemma_match_any(other, all, readings, i);
}

/// How a pattern is compared with a text does not hang on what the text is taken from, nor on
/// anything else of the rule.
pub proof fn law_comparison_is_the_same_for_every_target(
    rule: RuleView,
    other: RuleView,
    value: Seq<char>,
    separates: bool,
)
    requires
        other.id == rule.id,
        other.mode == rule.mode,
        other.pattern == rule.pattern,
    ensures
        match_text(other, value, separates) == match_text(rule, value, separates),
{
}

/// What `matches` returns for a rule that looks for a text in the headers: whether some wanted header
/// holds it, in whatever case.
pub proof fn law_matches_finds_text_in_any_header(
    rule: &Rule,
    request: &RequestFacts,
    r: Result<bool, RuleError>,
)
    requires
        call_ensures(self::matches, (rule, request), r),
        rule.enabled,
        rule.methods@.len() == 0,
        rule.target == MatchTarget::Header,
        rule.mode == MatchMode::Contains,
        !same_ignoring_case(request.method@, "CONNECT"@),
    ensures
        r matches Ok(found) && (found <==> exists|i: int|
            {
                &&& 0 <= i < request.headers@.len()
                &&& rule.header_name is None || same_ignoring_case(
                    rule.header_name->0@,
                    request.headers@[i].0@,
                )
                &&& is_part(
                    lowercase(rule.pattern@),
                    lowercase(
                        (#[trigger] request.headers@[i]).0@ + ": "@ + request.headers@[i].1@,
                    ),
                )
            }),
{
    let readings = choose|readings: Seq<bool>|
        readings.len() == candidates(rule@, request@).len() && verdict_view(r)
            == #[trigger] rule_verdict(rule@, request@, readings);
    law_contained_text_is_found_in_any_header(rule@, request@, readings);
    let found = r->Ok_0;
    let all = request@.headers;
    if found {
        let i = choose|i: int|
            {
                &&& 0 <= i < all.len()
                &&& rule@.header_name is None || same_ignoring_case(
                    rule@.header_name->0,
                    all[i].0,
                )
                &&& is_part(
                    lowercase(rule@.pattern),
                    lowercase((#[trigger] all[i]).0 + ": "@ + all[i].1),
                )
            };
        assert(all[i] == (request.headers@[i].0@, request.headers@[i].1@));
    } else {
        assert forall|i: int| 0 <= i < request.headers@.len() implies !({
            &&& rule.header_name is None || same_ignoring_case(
                rule.header_name->0@,
                request.headers@[i].0@,
            )
            &&& is_part(
                lowercase(rule.pattern@),
                lowercase((#[trigger] request.headers@[i]).0@ + ": "@ + request.headers@[i].1@),
            )
        }) by {
            assert(all[i] == (request.headers@[i].0@, request.headers@[i].1@));
        }
    }
}

/// What `matches` returns for a rule about the host, the URL or, outside of a tunnel, the path.
pub proof fn law_matches_compares_the_text_of_its_target(
    rule: &Rule,
    request: &RequestFacts,
    text: Seq<char>,
    r: Result<bool, RuleError>,
)
    requires
        call_ensures(self::matches, (rule, request), r),
        rule.enabled,
        rule.methods@.len() == 0 || exists|m: int|
            0 <= m < rule.methods@.len() && same_ignoring_case(
                (#[trigger] rule.methods@[m])@,
                request.method@,
            ),
        rule.target != MatchTarget::Header,
        rule.target == MatchTarget::Path ==> !same_ignoring_case(request.method@, "CONNECT"@),
        rule.target == MatchTarget::Host ==> text == request.host@,
        rule.target == MatchTarget::Url ==> text == request.url@,
        rule.target == MatchTarget::Path ==> text == request.path@,
    ensures
        rule.mode == MatchMode::Exact ==> (r matches Ok(found) && found == (lowercase(text)
            == lowercase(rule.pattern@))),
        rule.mode == MatchMode::Contains ==> (r matches Ok(found) && found == is_part(
            lowercase(rule.pattern@),
            lowercase(text),
        )),
        rule.mode == MatchMode::Regex ==> match regex_error(rule.pattern@) {
            Some(detail) => r matches Err(RuleError::Regex { rule: id, detail: told }) && id@
                == rule.id@ && told@ == detail,
            None => r matches Ok(found) && found == regex_matches(rule.pattern@, text),
        },
        rule.mode == MatchMode::Glob && shallow(lowercase(rule.pattern@)) ==> exists|
            separates: bool,
        |
            match #[trigger] glob_error(lowercase(rule.pattern@), separates) {
                Some(detail) => r matches Err(RuleError::Glob { rule: id, detail: told }) && id@
                    == rule.id@ && told@ == detail,
                None => if glob_compiles(lowercase(rule.pattern@), separates) {
                    r matches Ok(found) && found == glob_matches(
                        lowercase(rule.pattern@),
                        lowercase(text),
                        separates,
                    )
                } else {
                    r matches Err(RuleError::GlobTooLarge { rule: id }) && id@ == rule.id@
                },
            },
{
    let readings = choose|readings: Seq<bool>|
        readings.len() == candidates(rule@, request@).len() && verdict_view(r)
            == #[trigger] rule_verdict(rule@, request@, readings);
    if rule.methods@.len() > 0 {
        let m = choose|m: int|
            0 <= m < rule.methods@.len() && same_ignoring_case(
                (#[trigger] rule.methods@[m])@,
                request.method@,
            );
        assert(rule@.methods[m] == rule.methods@[m]@);
    }
    assert(candidates(rule@, request@) =~= seq![text]);
    assert(readings =~= seq![readings[0]]);
    law_one_text_is_compared_in_the_mode_of_the_rule(rule@, request@, readings[0], text);
    if rule.mode == MatchMode::Glob {
        let told = glob_error(lowercase(rule.pattern@), readings[0]);
        match r {
            Ok(_) => {},
            Err(error) => {
                assert(error@ == error_of(verdict_view(r))->0);
            },
        }
    }
}

/// A rule that is switched off, that does not let the method through, or that is about the path or
/// the headers of a tunnel, matches nothing.
pub proof fn law_matches_is_silent_where_the_rule_has_no_say(
    rule: &Rule,
    request: &RequestFacts,
    r: Result<bool, RuleError>,
)
    requires
        call_ensures(self::matches, (rule, request), r),
        !rule.enabled || rule.methods@.len() > 0 && (forall|m: int|
            0 <= m < rule.methods@.len() ==> !same_ignoring_case(
                (#[trigger] rule.methods@[m])@,
                request.method@,
            )) || same_ignoring_case(request.method@, "CONNECT"@) && (rule.target
            == MatchTarget::Path || rule.target == MatchTarget::Header),
    ensures
        r matches Ok(found) && !found,
{
    let readings = choose|readings: Seq<bool>|
        readings.len() == candidates(rule@, request@).len() && verdict_view(r)
            == #[trigger] rule_verdict(rule@, request@, readings);
    if rule.enabled && method_allowed(rule@.methods, request@.method) {
        if rule.methods@.len() > 0 {
            let m = choose|m: int|
                0 <= m < rule@.methods.len() && same_ignoring_case(
                    #[trigger] rule@.methods[m],
                    request@.method,
                );
            assert(rule@.methods[m] == rule.methods@[m]@);
        }
        assert(candidates(rule@, request@).len() == 0);
    }
}

/// What is told of a broken pattern begins with the rule and ends with the detail.
pub proof fn law_rule_errors_name_the_rule(error: RuleError, r: String)
    requires
        call_ensures(RuleError::message, (&error,), r),
    ensures
        error matches RuleError::Glob { rule, detail } ==> is_prefix("规则 "@ + rule@, r@)
            && is_suffix(detail@, r@),
        error matches RuleError::Regex { rule, detail } ==> is_prefix("规则 "@ + rule@, r@)
            && is_suffix(detail@, r@),
        error matches RuleError::GlobTooLarge { rule } ==> is_prefix("规则 "@ + rule@, r@),
{
    crate::response::lemma_joined();
    let start = match error {
        RuleError::Glob { rule, detail: _ } => "规则 "@ + rule@,
        RuleError::Regex { rule, detail: _ } => "规则 "@ + rule@,
        RuleError::GlobTooLarge { rule } => "规则 "@ + rule@,
    };
    assert(r@.subrange(0, start.len() as int) =~= start);
}

/// What a comparison with one text returns: equality or a part without regard to case, or what the
/// regular expression says of the text as it is.
pub proof fn law_one_text_is_compared(rule: &Rule, value: &str, r: Result<bool, RuleError>)
    requires
        call_ensures(match_value, (rule, value), r),
    ensures
        rule.mode == MatchMode::Exact ==> (r matches Ok(found) && found == (lowercase(value@)
            == lowercase(rule.pattern@))),
        rule.mode == MatchMode::Contains ==> (r matches Ok(found) && found == is_part(
            lowercase(rule.pattern@),
            lowercase(value@),
        )),
        rule.mode == MatchMode::Regex ==> match regex_error(rule.pattern@) {
            Some(detail) => r matches Err(RuleError::Regex { rule: id, detail: told }) && id@
                == rule.id@ && told@ == detail,
            None => r matches Ok(found) && found == regex_matches(rule.pattern@, value@),
        },
{
    lemma_is_part(lowercase(rule.pattern@), lowercase(value@));
    let separates = choose|separates: bool|
        verdict_view(r) == #[trigger] match_text(rule@, value@, separates);
    assert(verdict_view(r) == match_text(rule@, value@, separates));
    match r {
        Ok(_) => {},
        Err(error) => {
            assert(error_of(verdict_view(r)) == Some(error@));
        },
    }
}

} // verus!
