//! Trying out an action from the window, without a block.

use crate::actions::{
    no_output, outcome_view, unregistered_text, ActionContext, ActionHandler, ActionOutput,
    ActionRegistry, OutputView,
};
use crate::config::{find_action, ActionDefinition, ActionDefinitionView, AppConfig};
use crate::events::{
    opt_image, ActionExecutionStatus, ActionExecutionSummary, ActionSurface, ImagePresentation,
    ImageView, SummaryView,
};
use crate::foreign::opt_view;
use crate::groups::{preview_group, ActionEventGroup, GroupView};
use vstd::prelude::*;

verus! {

/// Whether an outcome may come of executing an action for a request: an action that is switched off
/// hands back nothing, one of an unknown kind fails, and the handler decides on the others.
pub open spec fn may_come_of<H: ActionHandler>(
    registry: Map<Seq<char>, H>,
    request: Seq<char>,
    action: ActionDefinitionView,
    outcome: Result<OutputView, Seq<char>>,
) -> bool {
    if !action.enabled {
        outcome == Ok::<OutputView, Seq<char>>(no_output())
    } else if !registry.contains_key(action.kind) {
        outcome == Err::<OutputView, Seq<char>>(unregistered_text(action.kind))
    } else {
        exists|context: ActionContext, definition: ActionDefinition, r: Result<ActionOutput, String>|
            {
                &&& context.rule_id@ == "action-preview"@
                &&& context.request@ == request
                &&& definition@ == action
                &&& #[trigger] call_ensures(
                    H::execute,
                    (&registry[action.kind], &context, &definition),
                    r,
                )
                &&& outcome == outcome_view(r)
            }
    }
}

/// Executes an action for a trial.
fn try_out<H: ActionHandler>(
    registry: &ActionRegistry<H>,
    definition: &ActionDefinition,
    request: &str,
) -> (r: Result<ActionOutput, String>)
    ensures
        may_come_of(registry@, request@, definition@, outcome_view(r)),
{
    let context = ActionContext {
        rule_id: "action-preview".to_owned(),
        request: request.to_owned(),
    };
    registry.execute(&context, definition)
}

/// What came of trying out the picture.
#[derive(Debug)]
pub enum PicturePreview {
    /// There is no such action.
    Absent,
    /// The picture is to be shown on a card.
    Shown { group: ActionEventGroup, image: Option<ImagePresentation> },
    Failed { error: String },
}

/// `PicturePreview` as a value.
#[verifier::ext_equal]
pub enum PicturePreviewView {
    Absent,
    Shown { group: GroupView, image: Option<ImageView> },
    Failed { error: Seq<char> },
}

impl View for PicturePreview {
    type V = PicturePreviewView;

    open spec fn view(&self) -> PicturePreviewView {
        match self {
            PicturePreview::Absent => PicturePreviewView::Absent,
            PicturePreview::Shown { group, image } => PicturePreviewView::Shown {
                group: group@,
                image: opt_image(*image),
            },
            PicturePreview::Failed { error } => PicturePreviewView::Failed { error: error@ },
        }
    }
}

/// What comes of trying out the picture, given the outcome of the action.
pub open spec fn picture_preview(
    action: ActionDefinitionView,
    outcome: Result<OutputView, Seq<char>>,
    now: i64,
) -> PicturePreviewView {
    match outcome {
        Ok(output) => PicturePreviewView::Shown {
            group: preview_group(
                SummaryView {
                    action_id: action.id,
                    kind: action.kind,
                    status: ActionExecutionStatus::Succeeded,
                    surface: ActionSurface::InAppCard,
                    error: None,
                },
                now,
            ),
            image: output.image,
        },
        Err(error) => PicturePreviewView::Failed { error },
    }
}

/// What comes of trying out the picture, given the outcome of the action.
pub fn preview_of(
    definition: &ActionDefinition,
    outcome: Result<ActionOutput, String>,
    now: i64,
) -> (r: PicturePreview)
    ensures
        r@ == picture_preview(definition@, outcome_view(outcome), now),
{
    match outcome {
        Ok(output) => {
            let summary = ActionExecutionSummary {
                action_id: definition.id.clone(),
                kind: definition.kind.clone(),
                status: ActionExecutionStatus::Succeeded,
                surface: ActionSurface::InAppCard,
                error: None,
            };
            PicturePreview::Shown {
                group: ActionEventGroup::preview(summary, now),
                image: output.image,
            }
        },
        Err(error) => PicturePreview::Failed { error },
    }
}

/// Whether this may come of trying out the picture of an action.
pub open spec fn may_preview<H: ActionHandler>(
    registry: Map<Seq<char>, H>,
    action: ActionDefinitionView,
    now: i64,
    preview: PicturePreviewView,
) -> bool {
    exists|outcome: Result<OutputView, Seq<char>>|
        {
            &&& #[trigger] may_come_of(registry, "preview://popup-image"@, action, outcome)
            &&& preview == picture_preview(action, outcome, now)
        }
}

/// Tries out the picture.
pub fn test_image<H: ActionHandler>(
    registry: &ActionRegistry<H>,
    config: &AppConfig,
    now: i64,
) -> (r: PicturePreview)
    ensures
        match find_action(config@.actions, "blocked-picture"@) {
            None => r is Absent,
            Some(action) => may_preview(registry@, action, now, r@),
        },
{
    match config.action("blocked-picture") {
        None => PicturePreview::Absent,
        Some(definition) => {
            let outcome = try_out(registry, definition, "preview://popup-image");
            preview_of(definition, outcome, now)
        },
    }
}

/// The error of an outcome, where it is one.
pub open spec fn outcome_error(outcome: Result<OutputView, Seq<char>>) -> Option<Seq<char>> {
    match outcome {
        Ok(_) => None,
        Err(error) => Some(error),
    }
}

/// Whether this error may come of trying out the sound of an action.
pub open spec fn may_fail<H: ActionHandler>(
    registry: Map<Seq<char>, H>,
    action: ActionDefinitionView,
    error: Option<Seq<char>>,
) -> bool {
    exists|outcome: Result<OutputView, Seq<char>>|
        {
            &&& #[trigger] may_come_of(registry, "preview://play-audio"@, action, outcome)
            &&& error == outcome_error(outcome)
        }
}

/// Tries out the sound, and tells the error if there is one.
pub fn test_audio<H: ActionHandler>(registry: &ActionRegistry<H>, config: &AppConfig) -> (r: Option<
    String,
>)
    ensures
        match find_action(config@.actions, "blocked-sound"@) {
            None => r is None,
            Some(action) => may_fail(registry@, action, opt_view(r)),
        },
{
    match config.action("blocked-sound") {
        None => None,
        Some(definition) => {
            let outcome = try_out(registry, definition, "preview://play-audio");
            match outcome {
                Ok(_) => None,
                Err(error) => Some(error),
            }
        },
    }
}

/// Trying out a picture shows the picture that the action handed back, on a card of its own, or tells
/// the error.
pub proof fn law_preview_shows_what_came_back(
    definition: &ActionDefinition,
    outcome: Result<ActionOutput, String>,
    now: i64,
    r: PicturePreview,
)
    requires
        call_ensures(preview_of, (definition, outcome, now), r),
    ensures
        match outcome {
            Ok(output) => r matches PicturePreview::Shown { group, image } && {
                &&& opt_image(image) == opt_image(output.image)
                &&& group@.occurred_at == now
                &&& group@.oldest_at == now
                &&& group@.hit_count == 1
                &&& group@.action_results.len() == 1
                &&& group@.action_results[0].action_id == definition.id@
                &&& group@.action_results[0].status == ActionExecutionStatus::Succeeded
            },
            Err(error) => r matches PicturePreview::Failed { error: told } && told@ == error@,
        },
{
    let v = r@;
    match r {
        PicturePreview::Shown { group, image } => {
            assert(v == PicturePreviewView::Shown { group: group@, image: opt_image(image) });
        },
        PicturePreview::Failed { error } => {
            assert(v == PicturePreviewView::Failed { error: error@ });
        },
        PicturePreview::Absent => {},
    }
}

/// Trying out the picture asks the action of that name, and its handler, where both are there and the
/// action is switched on.
pub proof fn law_preview_asks_the_handler<H: ActionHandler>(
    registry: &ActionRegistry<H>,
    config: &AppConfig,
    now: i64,
    r: PicturePreview,
    error: Option<String>,
)
    requires
        call_ensures(test_image::<H>, (registry, config, now), r),
        call_ensures(test_audio::<H>, (registry, config), error),
    ensures
        find_action(config@.actions, "blocked-picture"@) is None <==> r is Absent,
        find_action(config@.actions, "blocked-picture"@) matches Some(action) ==> (action.enabled
            && !registry@.contains_key(action.kind) ==> r is Failed),
        find_action(config@.actions, "blocked-picture"@) matches Some(action) ==> (!action.enabled
            ==> (r matches PicturePreview::Shown { image, .. } && image is None)),
        find_action(config@.actions, "blocked-sound"@) is None ==> error is None,
        find_action(config@.actions, "blocked-sound"@) matches Some(action) ==> (action.enabled
            && !registry@.contains_key(action.kind) ==> error is Some),
        find_action(config@.actions, "blocked-sound"@) matches Some(action) ==> (!action.enabled
            ==> error is None),
{
    if let Some(action) = find_action(config@.actions, "blocked-picture"@) {
        let v = r@;
        assert(may_preview(registry@, action, now, v));
        match r {
            PicturePreview::Shown { group, image } => {
                assert(v == PicturePreviewView::Shown { group: group@, image: opt_image(image) });
            },
            PicturePreview::Failed { error } => {
                assert(v == PicturePreviewView::Failed { error: error@ });
            },
            PicturePreview::Absent => {},
        }
    }
}

} // verus!
