//! What becomes of a request: it is blocked, forwarded or tunnelled. A block runs the actions of the
//! rule that matched.

use crate::actions::{
    opt_page, outcome_view, unregistered_text, ActionContext, ActionHandler, ActionOutput,
    ActionRegistry, HtmlResponse, OutputView,
};
use crate::config::{
    action_views, find_action, rule_views, texts, ActionDefinition, ActionDefinitionView,
    AppConfig, AppConfigView, Rule, RuleView,
};
use crate::events::{
    copy_summaries, opt_image, summaries, ActionExecutionStatus, ActionExecutionSummary,
    ActionSurface, ImagePresentation, ImageView, InterceptionProtocol, SummaryView, UiEvent,
};
use crate::foreign::{opt_view, utf8_error, utf8_text};
use crate::http::{
    facts_of, find_header_end, head_end, http_error_text, internal_probe, read_request, HttpError,
    HttpErrorView, ParsedRequest, RequestView,
};
use crate::response::{
    block_response, blocked_response, connect_blocked_response, domain_of, html_response,
    is_prefix, is_suffix, page_response, refused_tunnel, told_domain,
};
use crate::route::{
    outbound_route, request_route, route_error_text, OutboundRoute, RouteError, RouteErrorView,
    RouteView,
};
use crate::rules::{
    candidates, finds, is_connect, portable, rule_verdict, verdict_view, FactsView, RequestFacts,
    RuleErrorView,
};
use crate::text::{
    chars_of, same_ignoring_case, same_text, same_text_ignoring_case, text_of,
};
use vstd::prelude::*;
use vstd::slice::slice_subrange;
use vstd::utf8::{decode_utf8, valid_utf8};

verus! {

// ---------------------------------------------------------------------------
// Outcomes of actions
// ---------------------------------------------------------------------------
/// How many characters of an error are kept with an outcome.
pub const MAX_ERROR_CHARS: usize = 240;

/// The first characters of an error.
pub open spec fn shortened(error: Seq<char>) -> Seq<char> {
    if error.len() > MAX_ERROR_CHARS {
        error.take(MAX_ERROR_CHARS as int)
    } else {
        error
    }
}

/// The outcome of an action.
pub open spec fn summary_of(
    definition: ActionDefinitionView,
    status: ActionExecutionStatus,
    surface: ActionSurface,
    error: Option<Seq<char>>,
) -> SummaryView {
    SummaryView {
        action_id: definition.id,
        kind: definition.kind,
        status,
        surface,
        error: match error {
            Some(e) => Some(shortened(e)),
            None => None,
        },
    }
}

/// The outcome of an action.
pub fn action_summary(
    definition: &ActionDefinition,
    status: ActionExecutionStatus,
    surface: ActionSurface,
    error: Option<String>,
) -> (r: ActionExecutionSummary)
    ensures
        r@ == summary_of(definition@, status, surface, opt_view(error)),
{
    let kept: Option<String> = match error {
        Some(text) => {
            let chars = chars_of(text.as_str());
            if chars.len() > MAX_ERROR_CHARS {
                let head = text_of(slice_subrange(chars.as_slice(), 0, MAX_ERROR_CHARS));
                assert(head@ =~= text@.take(MAX_ERROR_CHARS as int));
                Some(head)
            } else {
                Some(text)
            }
        },
        None => None,
    };
    ActionExecutionSummary {
        action_id: definition.id.clone(),
        kind: definition.kind.clone(),
        status,
        surface,
        error: kept,
    }
}

/// How the actions of a block have gone so far.
#[derive(Debug)]
pub struct ActionRun {
    /// The page that takes the place of the response.
    pub page: Option<HtmlResponse>,
    /// The picture to show.
    pub image: Option<ImagePresentation>,
    /// The outcomes, in the order of the actions.
    pub results: Vec<ActionExecutionSummary>,
    /// What to tell the user about failures.
    pub errors: Vec<String>,
}

/// `ActionRun` as a value.
#[verifier::ext_equal]
pub struct RunView {
    pub page: Option<Seq<char>>,
    pub image: Option<ImageView>,
    pub results: Seq<SummaryView>,
    pub errors: Seq<Seq<char>>,
}

impl View for ActionRun {
    type V = RunView;

    open spec fn view(&self) -> RunView {
        RunView {
            page: opt_page(self.page),
            image: opt_image(self.image),
            results: summaries(self.results@),
            errors: texts(self.errors@),
        }
    }
}

/// Before the first action.
pub open spec fn run_start() -> RunView {
    RunView { page: None, image: None, results: Seq::empty(), errors: Seq::empty() }
}

/// Whether a kind is that of pages.
pub open spec fn serves_page(definition: ActionDefinitionView) -> bool {
    definition.kind == "serve_html"@
}

/// Why an action is not executed at all: it is switched off, it would put a page into an encrypted
/// connection, or there is a page already.
pub open spec fn precluded(
    definition: ActionDefinitionView,
    encrypted: bool,
    has_page: bool,
) -> Option<(ActionExecutionStatus, Seq<char>)> {
    if !definition.enabled {
        Some((ActionExecutionStatus::Skipped, "Action 已停用"@))
    } else if encrypted && serves_page(definition) {
        Some(
            (
                ActionExecutionStatus::Unsupported,
                "HTTPS 未解密，不能读取或注入 HTML"@,
            ),
        )
    } else if serves_page(definition) && has_page {
        Some((ActionExecutionStatus::Skipped, "已有 HTML Action 成功生成页面"@))
    } else {
        None
    }
}

/// What the user is told of an action that failed.
pub open spec fn failure_text(id: Seq<char>, error: Seq<char>) -> Seq<char> {
    "Action "@ + id + " 执行失败："@ + error
}

/// How the actions have gone after one more action, given the outcome of its execution. The outcome
/// makes no difference for an action that is not executed.
pub open spec fn run_step(
    run: RunView,
    definition: ActionDefinitionView,
    encrypted: bool,
    surface: ActionSurface,
    outcome: Result<OutputView, Seq<char>>,
) -> RunView {
    match precluded(definition, encrypted, run.page is Some) {
        Some((status, reason)) => RunView {
            results: run.results.push(summary_of(definition, status, surface, Some(reason))),
            ..run
        },
        None => match outcome {
            Ok(output) => RunView {
                page: if output.page is Some {
                    output.page
                } else {
                    run.page
                },
                image: if run.image is Some {
                    run.image
                } else {
                    output.image
                },
                results: run.results.push(
                    summary_of(definition, ActionExecutionStatus::Succeeded, surface, None),
                ),
                errors: run.errors,
            },
            Err(error) => RunView {
                results: run.results.push(
                    summary_of(definition, ActionExecutionStatus::Failed, surface, Some(error)),
                ),
                errors: run.errors.push(failure_text(definition.id, error)),
                ..run
            },
        },
    }
}

/// How the actions have gone after all of them, given where each shows and the outcome of each.
pub open spec fn run_all(
    definitions: Seq<ActionDefinitionView>,
    encrypted: bool,
    surfaces: Seq<ActionSurface>,
    outcomes: Seq<Result<OutputView, Seq<char>>>,
) -> RunView
    decreases definitions.len(),
{
    if definitions.len() == 0 {
        run_start()
    } else {
        run_step(
            run_all(definitions.drop_last(), encrypted, surfaces.drop_last(), outcomes.drop_last()),
            definitions.last(),
            encrypted,
            surfaces.last(),
            outcomes.last(),
        )
    }
}

impl ActionRun {
    /// Before the first action.
    pub fn new() -> (r: ActionRun)
        ensures
            r@ == run_start(),
    {
        let r = ActionRun { page: None, image: None, results: Vec::new(), errors: Vec::new() };
        assert(r@.results =~= Seq::<SummaryView>::empty());
        assert(r@.errors =~= Seq::<Seq<char>>::empty());
        r
    }

    /// Adds the outcome of an action.
    fn note(&mut self, summary: ActionExecutionSummary)
        ensures
            final(self)@ == (RunView { results: old(self)@.results.push(summary@), ..old(self)@ }),
    {
        self.results.push(summary);
        assert(self@.results =~= old(self)@.results.push(summary@));
    }

    /// Whether an action is to be executed; if not, its outcome is added.
    pub fn let_execute(
        &mut self,
        definition: &ActionDefinition,
        encrypted: bool,
        surface: ActionSurface,
    ) -> (r: bool)
        ensures
            r == (precluded(definition@, encrypted, old(self)@.page is Some) is None),
            r ==> final(self)@ == old(self)@,
            !r ==> forall|outcome: Result<OutputView, Seq<char>>|
                final(self)@ == #[trigger] run_step(
                    old(self)@,
                    definition@,
                    encrypted,
                    surface,
                    outcome,
                ),
    {
        let page = same_text(definition.kind.as_str(), "serve_html");
        if !definition.enabled {
            self.note(
                action_summary(
                    definition,
                    ActionExecutionStatus::Skipped,
                    surface,
                    Some("Action 已停用".to_owned()),
                ),
            );
            return false;
        }
        if encrypted && page {
            self.note(
                action_summary(
                    definition,
                    ActionExecutionStatus::Unsupported,
                    surface,
                    Some("HTTPS 未解密，不能读取或注入 HTML".to_owned()),
                ),
            );
            return false;
        }
        if page && self.page.is_some() {
            self.note(
                action_summary(
                    definition,
                    ActionExecutionStatus::Skipped,
                    surface,
                    Some("已有 HTML Action 成功生成页面".to_owned()),
                ),
            );
            return false;
        }
        true
    }

    /// Adds the outcome of an action that was executed.
    pub fn settle(
        &mut self,
        definition: &ActionDefinition,
        surface: ActionSurface,
        outcome: Result<ActionOutput, String>,
    )
        ensures
            forall|encrypted: bool|
                precluded(definition@, encrypted, old(self)@.page is Some) is None ==> final(self)@
                    == #[trigger] run_step(
                    old(self)@,
                    definition@,
                    encrypted,
                    surface,
                    outcome_view(outcome),
                ),
            outcome matches Ok(output) ==> final(self)@ == (RunView {
                results: old(self)@.results.push(
                    summary_of(definition@, ActionExecutionStatus::Succeeded, surface, None),
                ),
                page: if output.html_response is Some {
                    opt_page(output.html_response)
                } else {
                    old(self)@.page
                },
                image: if old(self)@.image is Some {
                    old(self)@.image
                } else {
                    opt_image(output.image)
                },
                errors: old(self)@.errors,
            }),
            outcome matches Err(error) ==> final(self)@ == (RunView {
                results: old(self)@.results.push(
                    summary_of(definition@, ActionExecutionStatus::Failed, surface, Some(error@)),
                ),
                errors: old(self)@.errors.push(failure_text(definition.id@, error@)),
                ..old(self)@
            }),
    {
        match outcome {
            Ok(output) => {
                if output.html_response.is_some() {
                    self.page = output.html_response;
                }
                if self.image.is_none() {
                    self.image = output.image;
                }
                self.note(
                    action_summary(definition, ActionExecutionStatus::Succeeded, surface, None),
                );
            },
            Err(error) => {
                let mut told = "Action ".to_owned();
                told.append(definition.id.as_str());
                told.append(" 执行失败：");
                told.append(error.as_str());
                self.note(
                    action_summary(
                        definition,
                        ActionExecutionStatus::Failed,
                        surface,
                        Some(error),
                    ),
                );
                let ghost before = self.errors@;
                self.errors.push(told);
                assert(texts(self.errors@) =~= texts(before).push(told@));
            },
        }
    }
}

/// What may come of an action: the surface is the one that its handler names, or that of a card
/// where its kind is unknown; the outcome of an execution is what its handler returned for this
/// context and definition, or the error for an unknown kind.
pub open spec fn possible<H: ActionHandler>(
    registry: Map<Seq<char>, H>,
    context: ActionContext,
    definition: ActionDefinition,
    executed: bool,
    surface: ActionSurface,
    outcome: Result<OutputView, Seq<char>>,
) -> bool {
    if registry.contains_key(definition.kind@) {
        &&& call_ensures(H::surface, (&registry[definition.kind@],), surface)
        &&& executed ==> exists|r: Result<ActionOutput, String>|
            {
                &&& #[trigger] call_ensures(
                    H::execute,
                    (&registry[definition.kind@], &context, &definition),
                    r,
                )
                &&& outcome == outcome_view(r)
            }
    } else {
        &&& surface == ActionSurface::InAppCard
        &&& executed ==> outcome == Err::<OutputView, Seq<char>>(
            unregistered_text(definition.kind@),
        )
    }
}

/// Whether the action at a position is executed, given what came of those before it.
pub open spec fn executed_at(
    definitions: Seq<ActionDefinitionView>,
    encrypted: bool,
    surfaces: Seq<ActionSurface>,
    outcomes: Seq<Result<OutputView, Seq<char>>>,
    i: int,
) -> bool {
    precluded(
        definitions[i],
        encrypted,
        run_all(definitions.take(i), encrypted, surfaces.take(i), outcomes.take(i)).page is Some,
    ) is None
}

/// Whether these surfaces and outcomes may come of running actions.
pub open spec fn possible_run<H: ActionHandler>(
    registry: Map<Seq<char>, H>,
    context: ActionContext,
    definitions: Seq<ActionDefinition>,
    encrypted: bool,
    surfaces: Seq<ActionSurface>,
    outcomes: Seq<Result<OutputView, Seq<char>>>,
) -> bool {
    &&& surfaces.len() == definitions.len()
    &&& outcomes.len() == definitions.len()
    &&& forall|i: int|
        0 <= i < definitions.len() ==> possible(
            registry,
            context,
            #[trigger] definitions[i],
            executed_at(action_views(definitions), encrypted, surfaces, outcomes, i),
            surfaces[i],
            outcomes[i],
        )
}

proof fn lemma_possible_run_grows<H: ActionHandler>(
    registry: Map<Seq<char>, H>,
    context: ActionContext,
    definitions: Seq<ActionDefinition>,
    encrypted: bool,
    surfaces: Seq<ActionSurface>,
    outcomes: Seq<Result<OutputView, Seq<char>>>,
)
    requires
        definitions.len() > 0,
        surfaces.len() == definitions.len(),
        outcomes.len() == definitions.len(),
        possible_run(
            registry,
            context,
            definitions.drop_last(),
            encrypted,
            surfaces.drop_last(),
            outcomes.drop_last(),
        ),
        possible(
            registry,
            context,
            definitions.last(),
            precluded(
                definitions.last()@,
                encrypted,
                run_all(
                    action_views(definitions.drop_last()),
                    encrypted,
                    surfaces.drop_last(),
                    outcomes.drop_last(),
                ).page is Some,
            ) is None,
            surfaces.last(),
            outcomes.last(),
        ),
    ensures
        possible_run(registry, context, definitions, encrypted, surfaces, outcomes),
{
    let all = action_views(definitions);
    let front = action_views(definitions.drop_last());
    assert forall|i: int| 0 <= i < definitions.len() implies possible(
        registry,
        context,
        #[trigger] definitions[i],
        executed_at(all, encrypted, surfaces, outcomes, i),
        surfaces[i],
        outcomes[i],
    ) by {
        let n = definitions.len() - 1;
        assert(surfaces.drop_last().take(i) =~= surfaces.take(i));
        assert(outcomes.drop_last().take(i) =~= outcomes.take(i));
        assert(front.take(i) =~= all.take(i));
        if i < n {
            assert(definitions.drop_last()[i] == definitions[i]);
            assert(front[i] == all[i]);
            assert(surfaces.drop_last()[i] == surfaces[i]);
            assert(outcomes.drop_last()[i] == outcomes[i]);
            assert(executed_at(all, encrypted, surfaces, outcomes, i) == executed_at(
                front,
                encrypted,
                surfaces.drop_last(),
                outcomes.drop_last(),
                i,
            ));
        } else {
            assert(surfaces.take(i) =~= surfaces.drop_last());
            assert(outcomes.take(i) =~= outcomes.drop_last());
            assert(all.take(i) =~= front);
            assert(all[i] == definitions.last()@);
        }
    }
}

/// Runs the actions of a block, in their order.
pub fn run_actions<H: ActionHandler>(
    registry: &ActionRegistry<H>,
    context: &ActionContext,
    definitions: &[ActionDefinition],
    encrypted: bool,
) -> (r: ActionRun)
    ensures
        exists|surfaces: Seq<ActionSurface>, outcomes: Seq<Result<OutputView, Seq<char>>>|
            possible_run(registry@, *context, definitions@, encrypted, surfaces, outcomes) && r@
                == #[trigger] run_all(action_views(definitions@), encrypted, surfaces, outcomes),
{
    let ghost mut surfaces = Seq::<ActionSurface>::empty();
    let ghost mut outcomes = Seq::<Result<OutputView, Seq<char>>>::empty();
    let mut run = ActionRun::new();
    let mut i: usize = 0;
    assert(action_views(definitions@.take(0)).len() == 0);
    while i < definitions.len()
        invariant
            i <= definitions.len(),
            possible_run(
                registry@,
                *context,
                definitions@.take(i as int),
                encrypted,
                surfaces,
                outcomes,
            ),
            run@ == run_all(
                action_views(definitions@.take(i as int)),
                encrypted,
                surfaces,
                outcomes,
            ),
        decreases definitions.len() - i,
    {
        let definition = &definitions[i];
        let surface = match registry.surface(definition.kind.as_str()) {
            Some(surface) => surface,
            None => ActionSurface::InAppCard,
        };
        let ghost before = run@;
        let ghost mut result: Result<OutputView, Seq<char>> = Err(
            unregistered_text(definition.kind@),
        );
        if run.let_execute(definition, encrypted, surface) {
            let outcome = registry.execute(context, definition);
            proof {
                result = outcome_view(outcome);
            }
            run.settle(definition, surface, outcome);
        }
        assert(run@ == run_step(before, definition@, encrypted, surface, result));
        proof {
            let now = definitions@.take(i + 1);
            assert(now.drop_last() =~= definitions@.take(i as int));
            assert(now.last() == *definition);
            assert(action_views(now).drop_last() =~= action_views(definitions@.take(i as int)));
            assert(action_views(now).last() == definition@);
            let old_surfaces = surfaces;
            let old_outcomes = outcomes;
            surfaces = surfaces.push(surface);
            outcomes = outcomes.push(result);
            assert(surfaces.drop_last() =~= old_surfaces);
            assert(outcomes.drop_last() =~= old_outcomes);
            lemma_possible_run_grows(registry@, *context, now, encrypted, surfaces, outcomes);
        }
        i += 1;
    }
    assert(definitions@.take(i as int) =~= definitions@);
    run
}

// ---------------------------------------------------------------------------
// The decision
// ---------------------------------------------------------------------------
/// Why a connection of a client fails.
#[derive(Debug)]
pub enum ProxyError {
    /// The request cannot be read.
    Http(HttpError),
    /// There is no way out for the request.
    Route(RouteError),
}

/// `ProxyError` as a value.
#[verifier::ext_equal]
pub enum ProxyErrorView {
    Http(HttpErrorView),
    Route(RouteErrorView),
}

impl View for ProxyError {
    type V = ProxyErrorView;

    open spec fn view(&self) -> ProxyErrorView {
        match self {
            ProxyError::Http(error) => ProxyErrorView::Http(error@),
            ProxyError::Route(error) => ProxyErrorView::Route(error@),
        }
    }
}

impl ProxyError {
    /// The error in words.
    pub fn message(&self) -> (r: String)
        ensures
            r@ == match self@ {
                ProxyErrorView::Http(error) => http_error_text(error),
                ProxyErrorView::Route(error) => route_error_text(error),
            },
    {
        match self {
            ProxyError::Http(error) => error.message(),
            ProxyError::Route(error) => error.message(),
        }
    }
}

/// The request that bytes begin with.
pub open spec fn received_request(bytes: Seq<u8>) -> Result<RequestView, HttpErrorView> {
    match head_end(bytes) {
        None => Err(HttpErrorView::HeaderIncomplete),
        Some(end) => if valid_utf8(bytes.take(end)) {
            read_request(decode_utf8(bytes.take(end)))
        } else {
            Err(HttpErrorView::HeaderNotText { detail: utf8_error(bytes.take(end)) })
        },
    }
}

/// Reads the request that bytes begin with, and finds where its head ends.
pub fn receive_request(bytes: &[u8]) -> (r: Result<(ParsedRequest, usize), HttpError>)
    ensures
        match r {
            Ok((request, end)) => received_request(bytes@) == Ok::<RequestView, HttpErrorView>(
                request@,
            ) && head_end(bytes@) == Some(end as int) && end <= bytes@.len(),
            Err(error) => received_request(bytes@) == Err::<RequestView, HttpErrorView>(error@),
        },
{
    let end: usize = match find_header_end(bytes) {
        Some(end) => end,
        None => {
            return Err(HttpError::HeaderIncomplete);
        },
    };
    let head = slice_subrange(bytes, 0, end);
    assert(head@ =~= bytes@.take(end as int));
    match utf8_text(head) {
        Err(detail) => Err(HttpError::HeaderNotText { detail }),
        Ok(text) => match ParsedRequest::parse(text.as_str()) {
            Ok(request) => Ok((request, end)),
            Err(error) => Err(error),
        },
    }
}

/// Whether a rule may be found to match.
pub open spec fn may_match(rule: RuleView, facts: FactsView) -> bool {
    finds(rule, facts, Ok(true))
}

/// Whether a rule may be found not to match, or that it cannot be applied.
pub open spec fn may_pass(rule: RuleView, facts: FactsView) -> bool {
    exists|r: Result<bool, RuleErrorView>| #[trigger]
        finds(rule, facts, r) && r != Ok::<bool, RuleErrorView>(true)
}

/// Whether the rule at a position may be found to be the first that matches, or, without a position,
/// none may be found to match.
pub open spec fn first_match_at(
    rules: Seq<RuleView>,
    facts: FactsView,
    found: Option<int>,
) -> bool {
    match found {
        Some(i) => {
            &&& 0 <= i < rules.len()
            &&& may_match(rules[i], facts)
            &&& forall|j: int| 0 <= j < i ==> may_pass(#[trigger] rules[j], facts)
        },
        None => forall|j: int| 0 <= j < rules.len() ==> may_pass(#[trigger] rules[j], facts),
    }
}

/// A position as a number.
pub open spec fn opt_int(position: Option<usize>) -> Option<int> {
    match position {
        Some(i) => Some(i as int),
        None => None,
    }
}

/// Finds the first rule that matches. A rule that cannot be applied does not match.
pub fn first_match(rules: &[Rule], facts: &RequestFacts) -> (r: Option<usize>)
    ensures
        first_match_at(rule_views(rules@), facts@, opt_int(r)),
{
    let ghost all = rule_views(rules@);
    let mut i: usize = 0;
    while i < rules.len()
        invariant
            i <= rules.len(),
            all == rule_views(rules@),
            forall|j: int| 0 <= j < i ==> may_pass(#[trigger] all[j], facts@),
        decreases rules.len() - i,
    {
        assert(all[i as int] == rules@[i as int]@);
        let verdict = crate::rules::matches(&rules[i], facts);
        assert(finds(all[i as int], facts@, verdict_view(verdict)));
        match verdict {
            Ok(true) => {
                return Some(i);
            },
            _ => {},
        }
        i += 1;
    }
    None
}

/// The actions that a rule names, in the order of the rule; an id without an action is passed over.
pub open spec fn named_actions(
    ids: Seq<Seq<char>>,
    actions: Seq<ActionDefinitionView>,
) -> Seq<ActionDefinitionView>
    decreases ids.len(),
{
    if ids.len() == 0 {
        Seq::empty()
    } else {
        let before = named_actions(ids.drop_last(), actions);
        match find_action(actions, ids.last()) {
            Some(action) => before.push(action),
            None => before,
        }
    }
}

/// The actions that a rule names.
pub fn actions_of(config: &AppConfig, rule: &Rule) -> (r: Vec<ActionDefinition>)
    ensures
        action_views(r@) == named_actions(rule@.actions, config@.actions),
{
    let ghost ids = rule@.actions;
    let mut out: Vec<ActionDefinition> = Vec::new();
    let mut i: usize = 0;
    assert(ids.take(0) =~= Seq::<Seq<char>>::empty());
    assert(action_views(out@) =~= Seq::<ActionDefinitionView>::empty());
    while i < rule.actions.len()
        invariant
            i <= rule.actions@.len(),
            ids == texts(rule.actions@),
            action_views(out@) == named_actions(ids.take(i as int), config@.actions),
        decreases rule.actions@.len() - i,
    {
        assert(ids.take(i + 1).drop_last() =~= ids.take(i as int));
        assert(ids.take(i + 1).last() == rule.actions@[i as int]@);
        if let Some(action) = config.action(rule.actions[i].as_str()) {
            let ghost before = out@;
            let copy = action.clone();
            out.push(copy);
            assert(action_views(out@) =~= action_views(before).push(copy@));
        }
        i += 1;
    }
    assert(ids.take(i as int) =~= ids);
    out
}

/// All there is to tell of a block.
#[derive(Debug)]
pub struct BlockReport {
    pub rule_id: String,
    /// The URL that was asked for.
    pub request: String,
    pub protocol: InterceptionProtocol,
    pub action_results: Vec<ActionExecutionSummary>,
    pub image: Option<ImagePresentation>,
    /// What to tell the user about failures.
    pub errors: Vec<String>,
    /// What the client is sent.
    pub response: String,
}

/// `BlockReport` as a value.
#[verifier::ext_equal]
pub struct BlockView {
    pub rule_id: Seq<char>,
    pub request: Seq<char>,
    pub protocol: InterceptionProtocol,
    pub action_results: Seq<SummaryView>,
    pub image: Option<ImageView>,
    pub errors: Seq<Seq<char>>,
    pub response: Seq<char>,
}

impl View for BlockReport {
    type V = BlockView;

    open spec fn view(&self) -> BlockView {
        BlockView {
            rule_id: self.rule_id@,
            request: self.request@,
            protocol: self.protocol,
            action_results: summaries(self.action_results@),
            image: opt_image(self.image),
            errors: texts(self.errors@),
            response: self.response@,
        }
    }
}

/// The outcome of the block itself.
pub open spec fn block_summary() -> SummaryView {
    SummaryView {
        action_id: "connection-block"@,
        kind: "connection_block"@,
        status: ActionExecutionStatus::Succeeded,
        surface: ActionSurface::ConnectionBlock,
        error: None,
    }
}

/// How a request reached the proxy.
pub open spec fn protocol_of(encrypted: bool) -> InterceptionProtocol {
    if encrypted {
        InterceptionProtocol::Https
    } else {
        InterceptionProtocol::Http
    }
}

/// All there is to tell of a block, given how its actions went. An encrypted connection is refused
/// without a page; a plain request is answered with the page of an action or with one that tells of
/// the block.
pub open spec fn block_report(
    rule_id: Seq<char>,
    url: Seq<char>,
    encrypted: bool,
    run: RunView,
) -> BlockView {
    let results = run.results.push(block_summary());
    BlockView {
        rule_id,
        request: url,
        protocol: protocol_of(encrypted),
        action_results: results,
        image: run.image,
        errors: run.errors,
        response: if encrypted {
            refused_tunnel()
        } else {
            match run.page {
                Some(page) => page_response(page),
                None => block_response(told_domain(url), rule_id, results),
            }
        },
    }
}

/// All there is to tell of a block, given how its actions went.
pub fn finish_block(rule_id: &str, url: &str, encrypted: bool, run: ActionRun) -> (r: BlockReport)
    ensures
        r@ == block_report(rule_id@, url@, encrypted, run@),
{
    let mut run = run;
    run.note(
        ActionExecutionSummary {
            action_id: "connection-block".to_owned(),
            kind: "connection_block".to_owned(),
            status: ActionExecutionStatus::Succeeded,
            surface: ActionSurface::ConnectionBlock,
            error: None,
        },
    );
    let protocol = if encrypted {
        InterceptionProtocol::Https
    } else {
        InterceptionProtocol::Http
    };
    let response = if encrypted {
        connect_blocked_response()
    } else {
        match &run.page {
            Some(page) => html_response(page.body.as_str()),
            None => blocked_response(domain_of(url).as_str(), rule_id, run.results.as_slice()),
        }
    };
    BlockReport {
        rule_id: rule_id.to_owned(),
        request: url.to_owned(),
        protocol,
        action_results: run.results,
        image: run.image,
        errors: run.errors,
        response,
    }
}

/// Whether a report may come of blocking a request by a rule.
pub open spec fn may_report<H: ActionHandler>(
    registry: Map<Seq<char>, H>,
    actions: Seq<ActionDefinitionView>,
    rule: RuleView,
    request: RequestView,
    report: BlockView,
) -> bool {
    exists|
        context: ActionContext,
        definitions: Seq<ActionDefinition>,
        surfaces: Seq<ActionSurface>,
        outcomes: Seq<Result<OutputView, Seq<char>>>,
    |
        {
            &&& context.rule_id@ == rule.id
            &&& context.request@ == request.url
            &&& action_views(definitions) == named_actions(rule.actions, actions)
            &&& #[trigger] possible_run(
                registry,
                context,
                definitions,
                is_connect(request.method),
                surfaces,
                outcomes,
            )
            &&& report == block_report(
                rule.id,
                request.url,
                is_connect(request.method),
                run_all(
                    action_views(definitions),
                    is_connect(request.method),
                    surfaces,
                    outcomes,
                ),
            )
        }
}

/// Blocks a request by a rule: runs the actions of the rule and answers the client.
pub fn block<H: ActionHandler>(
    registry: &ActionRegistry<H>,
    config: &AppConfig,
    rule: &Rule,
    request: &ParsedRequest,
) -> (r: BlockReport)
    ensures
        may_report(registry@, config@.actions, rule@, request@, r@),
{
    let encrypted = same_text_ignoring_case(request.method.as_str(), "CONNECT");
    let definitions = actions_of(config, rule);
    let context = ActionContext { rule_id: rule.id.clone(), request: request.url.clone() };
    let run = run_actions(registry, &context, definitions.as_slice(), encrypted);
    finish_block(rule.id.as_str(), request.url.as_str(), encrypted, run)
}

/// What becomes of a connection of a client.
#[derive(Debug)]
pub enum Handling {
    /// The client sent nothing.
    Closed,
    /// The request is blocked.
    Blocked(BlockReport),
    /// A tunnel is opened.
    Tunnel { authority: String, route: OutboundRoute },
    /// The request is forwarded; its head ends at this position.
    Forward { request: ParsedRequest, head_end: usize, route: OutboundRoute },
}

/// Whether this may become of a request that was read, where it is no request of the application to
/// itself.
pub open spec fn may_handle<H: ActionHandler>(
    registry: Map<Seq<char>, H>,
    config: AppConfigView,
    request: RequestView,
    r: Result<Handling, ProxyError>,
) -> bool {
    exists|found: Option<int>|
        {
            &&& #[trigger] first_match_at(config.blacklist, facts_of(request), found)
            &&& match found {
                Some(i) => r matches Ok(Handling::Blocked(report)) && may_report(
                    registry,
                    config.actions,
                    config.blacklist[i],
                    request,
                    report@,
                ),
                None => match (request_route(config.proxy, request.authority), r) {
                    (Err(error), Err(ProxyError::Route(e))) => e@ == error,
                    (Ok(way), Ok(Handling::Tunnel { authority, route })) => is_connect(
                        request.method,
                    ) && authority@ == request.authority && route@ == way,
                    (Ok(way), Ok(Handling::Forward { request: passed, route, .. })) => !is_connect(
                        request.method,
                    ) && passed@ == request && route@ == way,
                    _ => false,
                },
            }
        }
}

/// Whether this may become of a request that was read. A request of the application to itself goes
/// straight to its target.
pub open spec fn may_follow<H: ActionHandler>(
    registry: Map<Seq<char>, H>,
    config: AppConfigView,
    request: RequestView,
    r: Result<Handling, ProxyError>,
) -> bool {
    if internal_probe(request) {
        r matches Ok(Handling::Forward { request: passed, route, .. }) && passed@ == request
            && route@ == RouteView::Direct
    } else {
        may_handle(registry, config, request, r)
    }
}

/// Whether this may become of a connection on which these bytes were received.
pub open spec fn may_become<H: ActionHandler>(
    registry: Map<Seq<char>, H>,
    config: AppConfigView,
    bytes: Seq<u8>,
    r: Result<Handling, ProxyError>,
) -> bool {
    if bytes.len() == 0 {
        r matches Ok(Handling::Closed)
    } else {
        &&& match received_request(bytes) {
            Err(error) => r matches Err(ProxyError::Http(e)) && e@ == error,
            Ok(request) => may_follow(registry, config, request, r),
        }
        &&& r matches Ok(Handling::Forward { head_end: end, .. }) ==> head_end(bytes) == Some(
            end as int,
        )
    }
}

/// Decides what becomes of a request whose head ended at a position, and blocks it where a rule
/// matches it.
pub fn handle_request<H: ActionHandler>(
    request: ParsedRequest,
    end: usize,
    config: &AppConfig,
    registry: &ActionRegistry<H>,
) -> (r: Result<Handling, ProxyError>)
    ensures
        may_follow(registry@, config@, request@, r),
        r matches Ok(Handling::Forward { head_end, .. }) ==> head_end == end,
{
    if request.is_internal_probe() {
        return Ok(Handling::Forward { request, head_end: end, route: OutboundRoute::Direct });
    }
    let facts = request.facts();
    let found = first_match(config.blacklist.as_slice(), &facts);
    assert(first_match_at(config@.blacklist, facts_of(request@), opt_int(found)));
    if let Some(i) = found {
        assert(config@.blacklist[i as int] == config.blacklist@[i as int]@);
        let report = block(registry, config, &config.blacklist[i], &request);
        return Ok(Handling::Blocked(report));
    }
    match outbound_route(&config.proxy, request.authority.as_str()) {
        Err(error) => Err(ProxyError::Route(error)),
        Ok(route) => {
            if same_text_ignoring_case(request.method.as_str(), "CONNECT") {
                Ok(Handling::Tunnel { authority: request.authority, route })
            } else {
                Ok(Handling::Forward { request, head_end: end, route })
            }
        },
    }
}

/// Decides what becomes of a connection of a client on which `bytes` were received, and blocks the
/// request where a rule matches it.
pub fn handle_client<H: ActionHandler>(
    bytes: &[u8],
    config: &AppConfig,
    registry: &ActionRegistry<H>,
) -> (r: Result<Handling, ProxyError>)
    ensures
        may_become(registry@, config@, bytes@, r),
        r matches Ok(Handling::Forward { head_end: end, .. }) ==> end <= bytes@.len(),
{
    if bytes.len() == 0 {
        return Ok(Handling::Closed);
    }
    match receive_request(bytes) {
        Ok((request, end)) => handle_request(request, end, config, registry),
        Err(error) => Err(ProxyError::Http(error)),
    }
}

impl BlockReport {
    /// What the user interface is told of the block.
    pub fn event(&self) -> (r: UiEvent)
        ensures
            r matches UiEvent::Blocked { rule_id, request, protocol, action_results, image }
                && rule_id@ == self@.rule_id && request@ == self@.request && protocol
                == self.protocol && summaries(action_results@) == self@.action_results && opt_image(
                image,
            ) == self@.image,
    {
        let image = match &self.image {
            Some(i) => Some(i.clone()),
            None => None,
        };
        UiEvent::Blocked {
            rule_id: self.rule_id.clone(),
            request: self.request.clone(),
            protocol: self.protocol,
            action_results: copy_summaries(self.action_results.as_slice()),
            image,
        }
    }
}

// ---------------------------------------------------------------------------
// Laws
// ---------------------------------------------------------------------------
/// Every action of a block has its outcome, in the order of the actions, and no outcome holds more
/// of an error than is kept.
pub proof fn law_every_action_has_its_outcome(
    definitions: Seq<ActionDefinitionView>,
    encrypted: bool,
    surfaces: Seq<ActionSurface>,
    outcomes: Seq<Result<OutputView, Seq<char>>>,
)
    requires
        surfaces.len() == definitions.len(),
        outcomes.len() == definitions.len(),
    ensures
        run_all(definitions, encrypted, surfaces, outcomes).results.len() == definitions.len(),
        forall|i: int|
            0 <= i < definitions.len() ==> {
                let result = #[trigger] run_all(
                    definitions,
                    encrypted,
                    surfaces,
                    outcomes,
                ).results[i];
                &&& result.action_id == definitions[i].id
                &&& result.kind == definitions[i].kind
                &&& result.surface == surfaces[i]
                &&& result.error matches Some(error) ==> error.len() <= MAX_ERROR_CHARS
            },
    decreases definitions.len(),
{
    reveal_strlit("Action 已停用");
    reveal_strlit("HTTPS 未解密，不能读取或注入 HTML");
    reveal_strlit("已有 HTML Action 成功生成页面");
    if definitions.len() > 0 {
        law_every_action_has_its_outcome(
            definitions.drop_last(),
            encrypted,
            surfaces.drop_last(),
            outcomes.drop_last(),
        );
        let before = run_all(
            definitions.drop_last(),
            encrypted,
            surfaces.drop_last(),
            outcomes.drop_last(),
        );
        let after = run_all(definitions, encrypted, surfaces, outcomes);
        assert forall|i: int| 0 <= i < definitions.len() implies {
            let result = #[trigger] after.results[i];
            &&& result.action_id == definitions[i].id
            &&& result.kind == definitions[i].kind
            &&& result.surface == surfaces[i]
            &&& result.error matches Some(error) ==> error.len() <= MAX_ERROR_CHARS
        } by {
            if i < definitions.len() - 1 {
                assert(after.results[i] == before.results[i]);
            }
        }
    }
}

/// No page is ever put into an encrypted connection: an action for one is not executed, and whatever
/// the other actions do, the connection is refused without a page.
pub proof fn law_encrypted_connections_get_no_page(
    rule_id: Seq<char>,
    url: Seq<char>,
    definitions: Seq<ActionDefinitionView>,
    surfaces: Seq<ActionSurface>,
    outcomes: Seq<Result<OutputView, Seq<char>>>,
)
    requires
        surfaces.len() == definitions.len(),
        outcomes.len() == definitions.len(),
    ensures
        forall|i: int|
            0 <= i < definitions.len() && serves_page(#[trigger] definitions[i]) ==> {
                &&& !executed_at(definitions, true, surfaces, outcomes, i)
                &&& run_all(definitions, true, surfaces, outcomes).results[i].status == (
                if definitions[i].enabled {
                    ActionExecutionStatus::Unsupported
                } else {
                    ActionExecutionStatus::Skipped
                })
            },
        block_report(
            rule_id,
            url,
            true,
            run_all(definitions, true, surfaces, outcomes),
        ).response == refused_tunnel(),
    decreases definitions.len(),
{
    if definitions.len() > 0 {
        law_encrypted_connections_get_no_page(
            rule_id,
            url,
            definitions.drop_last(),
            surfaces.drop_last(),
            outcomes.drop_last(),
        );
        let before = run_all(
            definitions.drop_last(),
            true,
            surfaces.drop_last(),
            outcomes.drop_last(),
        );
        let after = run_all(definitions, true, surfaces, outcomes);
        law_every_action_has_its_outcome(
            definitions.drop_last(),
            true,
            surfaces.drop_last(),
            outcomes.drop_last(),
        );
        assert forall|i: int|
            0 <= i < definitions.len() && serves_page(#[trigger] definitions[i]) implies {
            &&& !executed_at(definitions, true, surfaces, outcomes, i)
            &&& after.results[i].status == (if definitions[i].enabled {
                ActionExecutionStatus::Unsupported
            } else {
                ActionExecutionStatus::Skipped
            })
        } by {
            if i < definitions.len() - 1 {
                assert(definitions.drop_last()[i] == definitions[i]);
                assert(after.results[i] == before.results[i]);
            }
        }
    }
}

/// Of the actions for pages only the first that gave a page is used: once there is a page, a further
/// action for pages is skipped and changes neither the page nor the picture.
pub proof fn law_only_the_first_page_is_used(
    run: RunView,
    definition: ActionDefinitionView,
    encrypted: bool,
    surface: ActionSurface,
    outcome: Result<OutputView, Seq<char>>,
)
    requires
        run.page is Some,
        serves_page(definition),
    ensures
        run_step(run, definition, encrypted, surface, outcome).page == run.page,
        run_step(run, definition, encrypted, surface, outcome).image == run.image,
        run_step(run, definition, encrypted, surface, outcome).errors == run.errors,
        !encrypted ==> run_step(
            run,
            definition,
            encrypted,
            surface,
            outcome,
        ).results.last().status == ActionExecutionStatus::Skipped,
{
}

/// An action that is switched off does nothing: it has the outcome of being skipped, whatever its
/// handler would do.
pub proof fn law_switched_off_action_does_nothing(
    run: RunView,
    definition: ActionDefinitionView,
    encrypted: bool,
    surface: ActionSurface,
    outcome: Result<OutputView, Seq<char>>,
)
    requires
        !definition.enabled,
    ensures
        run_step(run, definition, encrypted, surface, outcome) == (RunView {
            results: run.results.push(
                summary_of(
                    definition,
                    ActionExecutionStatus::Skipped,
                    surface,
                    Some("Action 已停用"@),
                ),
            ),
            ..run
        }),
{
}

/// A failing action does not keep the others from being run: page and picture stay as they were, and
/// the user is told.
pub proof fn law_failure_is_contained(
    run: RunView,
    definition: ActionDefinitionView,
    encrypted: bool,
    surface: ActionSurface,
    error: Seq<char>,
)
    requires
        precluded(definition, encrypted, run.page is Some) is None,
    ensures
        ({
            let after = run_step(
                run,
                definition,
                encrypted,
                surface,
                Err::<OutputView, Seq<char>>(error),
            );
            &&& after.page == run.page
            &&& after.image == run.image
            &&& after.results.last().status == ActionExecutionStatus::Failed
            &&& after.errors == run.errors.push(failure_text(definition.id, error))
        }),
{
}

/// The outcomes of a block end with that of the block itself, which always succeeds.
pub proof fn law_block_is_the_last_outcome(
    rule_id: Seq<char>,
    url: Seq<char>,
    encrypted: bool,
    run: RunView,
)
    ensures
        ({
            let results = block_report(rule_id, url, encrypted, run).action_results;
            &&& results.len() == run.results.len() + 1
            &&& results.last() == block_summary()
            &&& results.drop_last() == run.results
        }),
{
    assert(run.results.push(block_summary()).drop_last() =~= run.results);
}

/// A request of the application to itself is forwarded straight to its target, whatever the rules
/// and the upstream proxy are.
pub proof fn law_own_requests_pass<H: ActionHandler>(
    registry: Map<Seq<char>, H>,
    config: AppConfigView,
    bytes: Seq<u8>,
    r: Result<Handling, ProxyError>,
)
    requires
        may_become(registry, config, bytes, r),
        bytes.len() > 0,
        received_request(bytes) matches Ok(request) && internal_probe(request),
    ensures
        r matches Ok(Handling::Forward { route, .. }) && route@ == RouteView::Direct,
{
}

/// The first rule that is found to match decides: a request is blocked by it and by no other, and
/// one that no rule is found to match is not blocked. A rule that cannot be applied is found not to
/// match. Where the platform has no part in the verdicts, what is found is what they are.
pub proof fn law_first_matching_rule_decides<H: ActionHandler>(
    registry: Map<Seq<char>, H>,
    config: AppConfigView,
    bytes: Seq<u8>,
    request: RequestView,
    r: Result<Handling, ProxyError>,
    readings: Seq<Seq<bool>>,
)
    requires
        may_become(registry, config, bytes, r),
        bytes.len() > 0,
        received_request(bytes) == Ok::<RequestView, HttpErrorView>(request),
        !internal_probe(request),
        readings.len() == config.blacklist.len(),
        forall|i: int|
            0 <= i < readings.len() ==> (#[trigger] readings[i]).len() == candidates(
                config.blacklist[i],
                facts_of(request),
            ).len(),
    ensures
        r matches Ok(Handling::Blocked(report)) ==> exists|i: int|
            {
                &&& 0 <= i < config.blacklist.len()
                &&& (#[trigger] config.blacklist[i]).id == report@.rule_id
                &&& may_match(config.blacklist[i], facts_of(request))
                &&& forall|j: int|
                    0 <= j < i ==> may_pass(#[trigger] config.blacklist[j], facts_of(request))
            },
        !(r matches Ok(Handling::Blocked(_))) ==> forall|j: int|
            0 <= j < config.blacklist.len() ==> may_pass(
                #[trigger] config.blacklist[j],
                facts_of(request),
            ),
        (forall|i: int|
            0 <= i < config.blacklist.len() ==> portable(
                #[trigger] config.blacklist[i],
                facts_of(request),
            )) ==> {
            &&& (r matches Ok(Handling::Blocked(_))) <==> exists|i: int|
                0 <= i < config.blacklist.len() && rule_verdict(
                    #[trigger] config.blacklist[i],
                    facts_of(request),
                    readings[i],
                ) == Ok::<bool, RuleErrorView>(true)
            &&& r matches Ok(Handling::Blocked(report)) ==> exists|i: int|
                {
                    &&& 0 <= i < config.blacklist.len()
                    &&& (#[trigger] config.blacklist[i]).id == report@.rule_id
                    &&& rule_verdict(config.blacklist[i], facts_of(request), readings[i]) == Ok::<
                        bool,
                        RuleErrorView,
                    >(true)
                    &&& forall|j: int|
                        0 <= j < i ==> rule_verdict(
                            #[trigger] config.blacklist[j],
                            facts_of(request),
                            readings[j],
                        ) != Ok::<bool, RuleErrorView>(true)
                }
        },
{
    let facts = facts_of(request);
    let found = choose|found: Option<int>|
        {
            &&& #[trigger] first_match_at(config.blacklist, facts, found)
            &&& match found {
                Some(i) => r matches Ok(Handling::Blocked(report)) && may_report(
                    registry,
                    config.actions,
                    config.blacklist[i],
                    request,
                    report@,
                ),
                None => match (request_route(config.proxy, request.authority), r) {
                    (Err(error), Err(ProxyError::Route(e))) => e@ == error,
                    (Ok(way), Ok(Handling::Tunnel { authority, route })) => is_connect(
                        request.method,
                    ) && authority@ == request.authority && route@ == way,
                    (Ok(way), Ok(Handling::Forward { request: passed, route, .. })) => !is_connect(
                        request.method,
                    ) && passed@ == request && route@ == way,
                    _ => false,
                },
            }
        };
    if let Some(i) = found {
        assert(may_match(config.blacklist[i], facts));
    }
    if forall|i: int|
        0 <= i < config.blacklist.len() ==> portable(#[trigger] config.blacklist[i], facts) {
        assert forall|j: int| 0 <= j < config.blacklist.len() && may_pass(
            #[trigger] config.blacklist[j],
            facts,
        ) implies rule_verdict(config.blacklist[j], facts, readings[j]) != Ok::<
            bool,
            RuleErrorView,
        >(true) by {
            assert(readings[j].len() == candidates(config.blacklist[j], facts).len());
        }
        if let Some(i) = found {
            assert(portable(config.blacklist[i], facts));
            assert(readings[i].len() == candidates(config.blacklist[i], facts).len());
        }
    }
}

/// What an action that is executed adds to a run: its picture unless there is one already, its page
/// if it has one, and its outcome. An error leaves picture and page alone and is told, and its first
/// characters are kept.
pub proof fn law_executed_action_adds_its_output(
    run: RunView,
    definition: ActionDefinitionView,
    encrypted: bool,
    surface: ActionSurface,
    outcome: Result<OutputView, Seq<char>>,
)
    requires
        definition.enabled,
        definition.kind == "serve_html"@ ==> !encrypted && run.page is None,
    ensures
        ({
            let after = run_step(run, definition, encrypted, surface, outcome);
            let result = after.results.last();
            &&& after.results.len() == run.results.len() + 1
            &&& after.results.drop_last() == run.results
            &&& result.action_id == definition.id
            &&& result.kind == definition.kind
            &&& result.surface == surface
            &&& match outcome {
                Ok(output) => {
                    &&& run.image is None ==> after.image == output.image
                    &&& run.image is Some ==> after.image == run.image
                    &&& output.page is Some ==> after.page == output.page
                    &&& output.page is None ==> after.page == run.page
                    &&& after.errors == run.errors
                    &&& result.status == ActionExecutionStatus::Succeeded
                    &&& result.error is None
                },
                Err(error) => {
                    &&& after.image == run.image
                    &&& after.page == run.page
                    &&& after.errors == run.errors.push(
                        "Action "@ + definition.id + " 执行失败："@ + error,
                    )
                    &&& result.status == ActionExecutionStatus::Failed
                    &&& error.len() <= 240 ==> result.error == Some(error)
                    &&& error.len() > 240 ==> result.error == Some(error.subrange(0, 240))
                },
            }
        }),
{
    let after = run_step(run, definition, encrypted, surface, outcome);
    assert(after.results.drop_last() =~= run.results);
}

/// What an action that is not executed adds to a run: its outcome with the reason, and nothing else.
pub proof fn law_unexecuted_action_adds_its_reason(
    run: RunView,
    definition: ActionDefinitionView,
    encrypted: bool,
    surface: ActionSurface,
    outcome: Result<OutputView, Seq<char>>,
)
    requires
        !definition.enabled || definition.kind == "serve_html"@ && (encrypted || run.page is Some),
    ensures
        ({
            let after = run_step(run, definition, encrypted, surface, outcome);
            let result = after.results.last();
            &&& after.image == run.image
            &&& after.page == run.page
            &&& after.errors == run.errors
            &&& after.results.drop_last() == run.results
            &&& result.action_id == definition.id
            &&& result.kind == definition.kind
            &&& result.surface == surface
            &&& !definition.enabled ==> result.status == ActionExecutionStatus::Skipped
                && result.error == Some("Action 已停用"@)
            &&& definition.enabled && encrypted ==> result.status
                == ActionExecutionStatus::Unsupported && result.error == Some(
                "HTTPS 未解密，不能读取或注入 HTML"@,
            )
            &&& definition.enabled && !encrypted ==> result.status
                == ActionExecutionStatus::Skipped && result.error == Some(
                "已有 HTML Action 成功生成页面"@,
            )
        }),
{
    reveal_strlit("Action 已停用");
    reveal_strlit("HTTPS 未解密，不能读取或注入 HTML");
    reveal_strlit("已有 HTML Action 成功生成页面");
    let after = run_step(run, definition, encrypted, surface, outcome);
    assert(after.results.drop_last() =~= run.results);
}

/// Whether an action has brought a picture: it succeeded and handed one back.
pub open spec fn brought_image(
    results: Seq<SummaryView>,
    outcomes: Seq<Result<OutputView, Seq<char>>>,
    i: int,
) -> bool {
    &&& 0 <= i < outcomes.len()
    &&& results[i].status == ActionExecutionStatus::Succeeded
    &&& outcomes[i] matches Ok(output) && output.image is Some
}

/// Whether an action has brought a page: it succeeded and handed one back.
pub open spec fn brought_page(
    results: Seq<SummaryView>,
    outcomes: Seq<Result<OutputView, Seq<char>>>,
    i: int,
) -> bool {
    &&& 0 <= i < outcomes.len()
    &&& results[i].status == ActionExecutionStatus::Succeeded
    &&& outcomes[i] matches Ok(output) && output.page is Some
}

/// The picture of a run is that of the first action that brought one, and the page that of the last:
/// neither is there only if no action brought any.
pub proof fn law_run_shows_what_its_actions_brought(
    definitions: Seq<ActionDefinitionView>,
    encrypted: bool,
    surfaces: Seq<ActionSurface>,
    outcomes: Seq<Result<OutputView, Seq<char>>>,
    i: int,
)
    requires
        surfaces.len() == definitions.len(),
        outcomes.len() == definitions.len(),
    ensures
        ({
            let run = run_all(definitions, encrypted, surfaces, outcomes);
            &&& run.image is Some <==> exists|k: int| #[trigger]
                brought_image(run.results, outcomes, k)
            &&& run.page is Some <==> exists|k: int| #[trigger]
                brought_page(run.results, outcomes, k)
            &&& brought_image(run.results, outcomes, i) && (forall|k: int| #[trigger]
                brought_image(run.results, outcomes, k) ==> i <= k) ==> run.image
                == outcomes[i]->Ok_0.image
            &&& brought_page(run.results, outcomes, i) && (forall|k: int| #[trigger]
                brought_page(run.results, outcomes, k) ==> k <= i) ==> run.page
                == outcomes[i]->Ok_0.page
        }),
    decreases definitions.len(),
{
    let run = run_all(definitions, encrypted, surfaces, outcomes);
    if definitions.len() > 0 {
        let n = definitions.len() - 1;
        let short = outcomes.drop_last();
        let before = run_all(definitions.drop_last(), encrypted, surfaces.drop_last(), short);
        law_every_action_has_its_outcome(
            definitions.drop_last(),
            encrypted,
            surfaces.drop_last(),
            short,
        );
        assert(before.results.len() == n);
        assert forall|k: int| 0 <= k < n implies #[trigger] brought_image(run.results, outcomes, k)
            == brought_image(before.results, short, k) by {}
        assert forall|k: int| 0 <= k < n implies #[trigger] brought_page(run.results, outcomes, k)
            == brought_page(before.results, short, k) by {}
        assert forall|k: int| 0 <= k < n implies #[trigger] brought_image(before.results, short, k)
            == brought_image(run.results, outcomes, k) by {}
        assert forall|k: int| 0 <= k < n implies #[trigger] brought_page(before.results, short, k)
            == brought_page(run.results, outcomes, k) by {}
        law_run_shows_what_its_actions_brought(
            definitions.drop_last(),
            encrypted,
            surfaces.drop_last(),
            short,
            i,
        );
        if before.image is Some {
            let k = choose|k: int| #[trigger] brought_image(before.results, short, k);
            assert(brought_image(run.results, outcomes, k));
        } else if run.image is Some {
            assert(brought_image(run.results, outcomes, n));
        }
        if exists|k: int| #[trigger] brought_image(run.results, outcomes, k) {
            let k = choose|k: int| #[trigger] brought_image(run.results, outcomes, k);
            if k < n {
                assert(brought_image(before.results, short, k));
            }
        }
        if brought_page(run.results, outcomes, n) {
        } else if before.page is Some {
            let k = choose|k: int| #[trigger] brought_page(before.results, short, k);
            assert(brought_page(run.results, outcomes, k));
        }
        if exists|k: int| #[trigger] brought_page(run.results, outcomes, k) {
            let k = choose|k: int| #[trigger] brought_page(run.results, outcomes, k);
            if k < n {
                assert(brought_page(before.results, short, k));
            }
        }
        if i == n && brought_image(run.results, outcomes, n) && (forall|k: int| #[trigger]
            brought_image(run.results, outcomes, k) ==> n <= k) {
            assert(before.image is None);
        }
    }
}

/// Of the actions of a run each is dealt with on its own, in their order: the run of all of them is
/// that of the ones before the last, and then the last.
pub proof fn law_runs_go_on(
    definitions: Seq<ActionDefinitionView>,
    encrypted: bool,
    surfaces: Seq<ActionSurface>,
    outcomes: Seq<Result<OutputView, Seq<char>>>,
    definition: ActionDefinitionView,
    surface: ActionSurface,
    outcome: Result<OutputView, Seq<char>>,
)
    ensures
        ({
            let before = run_all(definitions, encrypted, surfaces, outcomes);
            let after = run_all(
                definitions.push(definition),
                encrypted,
                surfaces.push(surface),
                outcomes.push(outcome),
            );
            let shut_out = !definition.enabled || definition.kind == "serve_html"@ && (encrypted
                || before.page is Some);
            &&& after.results.drop_last() == before.results
            &&& after.results.last().action_id == definition.id
            &&& (after.results.last().status == ActionExecutionStatus::Succeeded) <==> (!shut_out
                && outcome is Ok)
            &&& (after.results.last().status == ActionExecutionStatus::Failed) <==> (!shut_out
                && outcome is Err)
            &&& after.errors.len() == before.errors.len() + (if !shut_out && outcome is Err {
                1int
            } else {
                0
            })
            &&& forall|k: int| 0 <= k < before.errors.len() ==> after.errors[k] == before.errors[k]
        }),
{
    assert(definitions.push(definition).drop_last() =~= definitions);
    assert(surfaces.push(surface).drop_last() =~= surfaces);
    assert(outcomes.push(outcome).drop_last() =~= outcomes);
    let before = run_all(definitions, encrypted, surfaces, outcomes);
    let after = run_step(before, definition, encrypted, surface, outcome);
    assert(after.results.drop_last() =~= before.results);
}

/// Before its first action a run holds nothing.
pub proof fn law_run_starts_empty(encrypted: bool)
    ensures
        ({
            let none = run_all(
                Seq::<ActionDefinitionView>::empty(),
                encrypted,
                Seq::<ActionSurface>::empty(),
                Seq::<Result<OutputView, Seq<char>>>::empty(),
            );
            &&& none.page is None
            &&& none.image is None
            &&& none.results.len() == 0
            &&& none.errors.len() == 0
        }),
{
}

/// A report holds what the run of the actions has brought, under the rule and the URL: picture,
/// errors, outcomes, and for a plain request the page, if there is one.
pub proof fn law_report_holds_the_run(
    rule_id: Seq<char>,
    url: Seq<char>,
    encrypted: bool,
    run: RunView,
)
    ensures
        ({
            let report = block_report(rule_id, url, encrypted, run);
            &&& report.rule_id == rule_id
            &&& report.request == url
            &&& report.image == run.image
            &&& report.errors == run.errors
            &&& report.action_results.len() == run.results.len() + 1
            &&& report.action_results.drop_last() == run.results
            &&& report.action_results.last().action_id == "connection-block"@
            &&& report.action_results.last().kind == "connection_block"@
            &&& report.action_results.last().status == ActionExecutionStatus::Succeeded
            &&& report.action_results.last().surface == ActionSurface::ConnectionBlock
            &&& report.action_results.last().error is None
            &&& encrypted ==> report.protocol == InterceptionProtocol::Https
            &&& !encrypted ==> report.protocol == InterceptionProtocol::Http
            &&& encrypted ==> report.response
                == "HTTP/1.1 403 Forbidden\r\nContent-Length: 0\r\nConnection: close\r\n\r\n"@
            &&& !encrypted && run.page is Some ==> is_suffix(run.page->0, report.response)
                && is_prefix("HTTP/1.1 200 OK\r\n"@, report.response)
            &&& !encrypted && run.page is None ==> is_prefix(
                "HTTP/1.1 403 Forbidden\r\n"@,
                report.response,
            )
        }),
{
    let report = block_report(rule_id, url, encrypted, run);
    assert(report.action_results.drop_last() =~= run.results);
    if !encrypted {
        if run.page is Some {
            crate::response::law_page_is_sent_as_it_is(run.page->0);
        } else {
            crate::response::law_block_page_tells_of_the_block(
                told_domain(url),
                rule_id,
                report.action_results,
            );
        }
    }
}

/// The actions of a rule are the ones that it names, in its order; a name without an action is passed
/// over, and of actions of one name the first is taken.
pub proof fn law_named_actions_are_found(
    ids: Seq<Seq<char>>,
    actions: Seq<ActionDefinitionView>,
    id: Seq<char>,
)
    ensures
        named_actions(Seq::<Seq<char>>::empty(), actions).len() == 0,
        (forall|k: int| 0 <= k < actions.len() ==> (#[trigger] actions[k]).id != id)
            ==> named_actions(ids.push(id), actions) == named_actions(ids, actions),
        forall|i: int|
            0 <= i < actions.len() && (#[trigger] actions[i]).id == id && (forall|k: int|
                0 <= k < i ==> (#[trigger] actions[k]).id != id) ==> named_actions(
                ids.push(id),
                actions,
            ) == named_actions(ids, actions).push(actions[i]),
{
    assert(ids.push(id).drop_last() =~= ids);
    crate::config::law_first_action_of_a_name_is_found(actions, id);
}

/// Every action that is named is found, in the order of the names, where all are there.
pub proof fn law_no_named_action_is_passed_over(
    ids: Seq<Seq<char>>,
    actions: Seq<ActionDefinitionView>,
    places: Seq<int>,
)
    requires
        places.len() == ids.len(),
        forall|k: int|
            0 <= k < ids.len() ==> 0 <= (#[trigger] places[k]) < actions.len()
                && actions[places[k]].id == ids[k],
    ensures
        named_actions(ids, actions).len() == ids.len(),
        forall|k: int|
            0 <= k < ids.len() ==> (#[trigger] named_actions(ids, actions)[k]).id == ids[k]
                && actions.contains(named_actions(ids, actions)[k]),
    decreases ids.len(),
{
    if ids.len() > 0 {
        let front = ids.drop_last();
        law_no_named_action_is_passed_over(front, actions, places.drop_last());
        let last = ids[ids.len() - 1];
        let at = places[ids.len() - 1];
        assert(actions[at].id == last);
        crate::config::law_first_action_of_a_name_is_found(actions, last);
        let before = named_actions(front, actions);
        let all = named_actions(ids, actions);
        assert(all == before.push(find_action(actions, last)->0));
        assert forall|k: int| 0 <= k < ids.len() implies (#[trigger] all[k]).id == ids[k]
            && actions.contains(all[k]) by {
            if k < front.len() {
                assert(all[k] == before[k]);
                assert(before[k].id == front[k]);
            }
        }
    }
}

/// A request that no rule is found to match goes out as it is: a tunnel to its authority, any other
/// request with the head that was read, along the route for its authority.
pub proof fn law_unblocked_request_goes_out<H: ActionHandler>(
    registry: Map<Seq<char>, H>,
    config: AppConfigView,
    bytes: Seq<u8>,
    request: RequestView,
    r: Result<Handling, ProxyError>,
)
    requires
        may_become(registry, config, bytes, r),
        bytes.len() > 0,
        received_request(bytes) == Ok::<RequestView, HttpErrorView>(request),
        !internal_probe(request),
    ensures
        r matches Ok(Handling::Blocked(_)) || match request_route(config.proxy, request.authority) {
            Err(error) => r matches Err(ProxyError::Route(e)) && e@ == error,
            Ok(way) => if same_ignoring_case(request.method, "CONNECT"@) {
                r matches Ok(Handling::Tunnel { authority, route }) && authority@
                    == request.authority && route@ == way
            } else {
                r matches Ok(Handling::Forward { request: passed, head_end: end, route })
                    && passed@ == request && route@ == way && head_end(bytes) == Some(end as int)
            },
        },
        config.blacklist.len() == 0 ==> !(r matches Ok(Handling::Blocked(_))),
{
}

/// A report tells of the rule and the request; what each action was asked and what came of it is what
/// its handler returned for just this rule and URL.
pub proof fn law_handlers_are_asked_for_the_block<H: ActionHandler>(
    registry: Map<Seq<char>, H>,
    actions: Seq<ActionDefinitionView>,
    rule: RuleView,
    request: RequestView,
    report: BlockView,
    i: int,
)
    requires
        may_report(registry, actions, rule, request, report),
        0 <= i < named_actions(rule.actions, actions).len(),
        registry.contains_key(named_actions(rule.actions, actions)[i].kind),
    ensures
        report.rule_id == rule.id,
        report.request == request.url,
        report.action_results.len() == named_actions(rule.actions, actions).len() + 1,
        report.action_results[i].action_id == named_actions(rule.actions, actions)[i].id,
        (report.action_results[i].status == ActionExecutionStatus::Succeeded
            || report.action_results[i].status == ActionExecutionStatus::Failed) ==> exists|
            context: ActionContext,
            definition: ActionDefinition,
            r: Result<ActionOutput, String>,
        |
            {
                &&& #[trigger] call_ensures(
                    H::execute,
                    (
                        &registry[named_actions(rule.actions, actions)[i].kind],
                        &context,
                        &definition,
                    ),
                    r,
                )
                &&& context.rule_id@ == rule.id
                &&& context.request@ == request.url
                &&& definition@ == named_actions(rule.actions, actions)[i]
                &&& r is Ok <==> report.action_results[i].status
                    == ActionExecutionStatus::Succeeded
            },
{
    let named = named_actions(rule.actions, actions);
    let encrypted = is_connect(request.method);
    let (context, definitions, surfaces, outcomes) = choose|
        context: ActionContext,
        definitions: Seq<ActionDefinition>,
        surfaces: Seq<ActionSurface>,
        outcomes: Seq<Result<OutputView, Seq<char>>>,
    |
        {
            &&& context.rule_id@ == rule.id
            &&& context.request@ == request.url
            &&& action_views(definitions) == named
            &&& #[trigger] possible_run(
                registry,
                context,
                definitions,
                encrypted,
                surfaces,
                outcomes,
            )
            &&& report == block_report(
                rule.id,
                request.url,
                encrypted,
                run_all(action_views(definitions), encrypted, surfaces, outcomes),
            )
        };
    let run = run_all(named, encrypted, surfaces, outcomes);
    law_every_action_has_its_outcome(named, encrypted, surfaces, outcomes);
    assert(report.action_results[i] == run.results[i]);
    lemma_outcome_of_each(named, encrypted, surfaces, outcomes, i);
    assert(definitions[i]@ == named[i]);
    if run.results[i].status == ActionExecutionStatus::Succeeded || run.results[i].status
        == ActionExecutionStatus::Failed {
        let r = choose|r: Result<ActionOutput, String>|
            {
                &&& #[trigger] call_ensures(
                    H::execute,
                    (&registry[definitions[i].kind@], &context, &definitions[i]),
                    r,
                )
                &&& outcomes[i] == outcome_view(r)
            };
        assert(call_ensures(
            H::execute,
            (&registry[named[i].kind], &context, &definitions[i]),
            r,
        ));
    }
}

/// An action has succeeded or failed exactly where it was executed, by its outcome.
proof fn lemma_outcome_of_each(
    definitions: Seq<ActionDefinitionView>,
    encrypted: bool,
    surfaces: Seq<ActionSurface>,
    outcomes: Seq<Result<OutputView, Seq<char>>>,
    i: int,
)
    requires
        surfaces.len() == definitions.len(),
        outcomes.len() == definitions.len(),
        0 <= i < definitions.len(),
    ensures
        ({
            let status = run_all(definitions, encrypted, surfaces, outcomes).results[i].status;
            let executed = executed_at(definitions, encrypted, surfaces, outcomes, i);
            &&& status == ActionExecutionStatus::Succeeded <==> executed && outcomes[i] is Ok
            &&& status == ActionExecutionStatus::Failed <==> executed && outcomes[i] is Err
        }),
    decreases definitions.len(),
{
    let n = definitions.len() - 1;
    law_every_action_has_its_outcome(
        definitions.drop_last(),
        encrypted,
        surfaces.drop_last(),
        outcomes.drop_last(),
    );
    if i < n {
        lemma_outcome_of_each(
            definitions.drop_last(),
            encrypted,
            surfaces.drop_last(),
            outcomes.drop_last(),
            i,
        );
        assert(definitions.drop_last().take(i) =~= definitions.take(i));
        assert(surfaces.drop_last().take(i) =~= surfaces.take(i));
        assert(outcomes.drop_last().take(i) =~= outcomes.take(i));
        assert(run_all(definitions, encrypted, surfaces, outcomes).results[i] == run_all(
            definitions.drop_last(),
            encrypted,
            surfaces.drop_last(),
            outcomes.drop_last(),
        ).results[i]);
    } else {
        assert(definitions.drop_last() =~= definitions.take(i));
        assert(surfaces.drop_last() =~= surfaces.take(i));
        assert(outcomes.drop_last() =~= outcomes.take(i));
    }
}

/// A request is read from the bytes up to the end of its head, where they are text.
pub proof fn law_request_is_read_up_to_the_end_of_its_head(
    bytes: &[u8],
    r: Result<(ParsedRequest, usize), HttpError>,
)
    requires
        call_ensures(receive_request, (bytes,), r),
    ensures
        head_end(bytes@) is None ==> (r matches Err(HttpError::HeaderIncomplete)),
        head_end(bytes@) matches Some(end) ==> (!valid_utf8(bytes@.take(end)) ==> (
        r matches Err(HttpError::HeaderNotText { detail: _ }))),
        head_end(bytes@) matches Some(end) ==> (valid_utf8(bytes@.take(end)) ==> match read_request(
            decode_utf8(bytes@.take(end)),
        ) {
            Ok(request) => r matches Ok((read, n)) && read@ == request && n == end,
            Err(error) => r matches Err(told) && told@ == error,
        }),
{
    if head_end(bytes@) is None {
        match r {
            Ok(_) => {},
            Err(error) => {
                assert(error@ == HttpErrorView::HeaderIncomplete);
            },
        }
    } else {
        match r {
            Ok(_) => {},
            Err(error) => {
                if !valid_utf8(bytes@.take(head_end(bytes@)->0)) {
                    assert(error@ is HeaderNotText);
                }
            },
        }
    }
}

/// The rule that is found is one of the list, and is the first that was found to match.
pub proof fn law_first_match_is_a_rule_of_the_list(
    rules: &[Rule],
    facts: &RequestFacts,
    r: Option<usize>,
    j: int,
)
    requires
        call_ensures(first_match, (rules, facts), r),
        0 <= j < rules@.len(),
    ensures
        r matches Some(i) ==> i < rules@.len() && finds(
            rules@[i as int]@,
            facts@,
            Ok::<bool, RuleErrorView>(true),
        ),
        r is None || j < r->0 ==> exists|verdict: Result<bool, RuleErrorView>| #[trigger]
            finds(rules@[j]@, facts@, verdict) && verdict != Ok::<bool, RuleErrorView>(true),
{
    let views = rule_views(rules@);
    assert(views[j] == rules@[j]@);
    if r is Some && r->0 < rules@.len() {
        assert(views[r->0 as int] == rules@[r->0 as int]@);
    }
}

/// What an action that was executed adds to a run: its outcome, the reason where it failed, its page,
/// and its picture where there was none before.
pub proof fn law_settling_adds_one_outcome(
    run: &mut ActionRun,
    definition: &ActionDefinition,
    surface: ActionSurface,
    outcome: Result<ActionOutput, String>,
)
    requires
        call_ensures(ActionRun::settle, (run, definition, surface, outcome), ()),
    ensures
        final(run)@.results.len() == old(run)@.results.len() + 1,
        final(run)@.results.drop_last() == old(run)@.results,
        final(run)@.results.last().action_id == definition.id@,
        final(run)@.results.last().kind == definition.kind@,
        outcome is Ok <==> final(run)@.results.last().status == ActionExecutionStatus::Succeeded,
        outcome is Err <==> final(run)@.results.last().status == ActionExecutionStatus::Failed,
        outcome matches Ok(output) ==> {
            &&& old(run).image is None ==> final(run)@.image == opt_image(output.image)
            &&& old(run).image is Some ==> final(run)@.image == old(run)@.image
            &&& output.html_response matches Some(page) ==> final(run)@.page == Some(page.body@)
            &&& output.html_response is None ==> final(run)@.page == old(run)@.page
            &&& final(run)@.errors == old(run)@.errors
        },
        outcome matches Err(error) ==> {
            &&& final(run)@.image == old(run)@.image
            &&& final(run)@.page == old(run)@.page
            &&& final(run)@.errors.len() == old(run)@.errors.len() + 1
            &&& is_suffix(error@, final(run)@.errors.last())
        },
{
    crate::response::lemma_joined();
    assert(final(run)@.results.drop_last() =~= old(run)@.results);
}

/// An action that is switched on is let execute unless it would bring a page where none can be shown:
/// into a connection that is encrypted, or after another page. One that is let execute changes nothing
/// yet.
pub proof fn law_only_pages_are_held_back(
    run: &mut ActionRun,
    definition: &ActionDefinition,
    encrypted: bool,
    surface: ActionSurface,
    r: bool,
)
    requires
        call_ensures(ActionRun::let_execute, (run, definition, encrypted, surface), r),
    ensures
        r <==> definition.enabled && (definition.kind@ != "serve_html"@ || !encrypted && old(
            run,
        ).page is None),
        r ==> final(run)@ == old(run)@,
{
}

/// The event of a block passes its report on.
pub proof fn law_event_passes_the_report_on(report: &BlockReport, r: UiEvent)
    requires
        call_ensures(BlockReport::event, (report,), r),
    ensures
        r matches UiEvent::Blocked { rule_id, request, protocol, action_results, image }
            && rule_id@ == report.rule_id@ && request@ == report.request@ && protocol
            == report.protocol && summaries(action_results@) == summaries(report.action_results@)
            && opt_image(image) == opt_image(report.image),
{
}

} // verus!
