//! What the parts of the application tell each other: the outcome of actions and the events of
//! the user interface.

use crate::foreign::opt_view;
use vstd::prelude::*;

verus! {

/// How a blocked request reached the proxy.
#[derive(Debug, Clone, Copy, PartialEq, Eq, Structural)]
pub enum InterceptionProtocol {
    Http,
    Https,
    Unknown,
}

/// Where the effect of an action shows.
#[derive(Debug, Clone, Copy, PartialEq, Eq, Structural)]
pub enum ActionSurface {
    BrowserPage,
    InAppCard,
    LocalAudio,
    ConnectionBlock,
}

/// How the execution of an action ended.
#[derive(Debug, Clone, Copy, PartialEq, Eq, Structural)]
pub enum ActionExecutionStatus {
    Succeeded,
    Failed,
    Unsupported,
    Skipped,
}

/// The outcome of one action.
#[derive(Debug, PartialEq, Eq)]
pub struct ActionExecutionSummary {
    pub action_id: String,
    pub kind: String,
    pub status: ActionExecutionStatus,
    pub surface: ActionSurface,
    pub error: Option<String>,
}

/// The outcome of one action as a value.
#[verifier::ext_equal]
pub struct SummaryView {
    pub action_id: Seq<char>,
    pub kind: Seq<char>,
    pub status: ActionExecutionStatus,
    pub surface: ActionSurface,
    pub error: Option<Seq<char>>,
}

impl View for ActionExecutionSummary {
    type V = SummaryView;

    open spec fn view(&self) -> SummaryView {
        SummaryView {
            action_id: self.action_id@,
            kind: self.kind@,
            status: self.status,
            surface: self.surface,
            error: opt_view(self.error),
        }
    }
}

impl Clone for ActionExecutionSummary {
    fn clone(&self) -> (r: Self)
        ensures
            r@ == self@,
    {
        ActionExecutionSummary {
            action_id: self.action_id.clone(),
            kind: self.kind.clone(),
            status: self.status,
            surface: self.surface,
            error: copy_text(&self.error),
        }
    }
}

/// Copies an optional text.
pub fn copy_text(text: &Option<String>) -> (r: Option<String>)
    ensures
        r == *text,
        opt_view(r) == opt_view(*text),
{
    match text {
        Some(t) => Some(t.clone()),
        None => None,
    }
}

/// The outcomes of a list of actions as values.
pub open spec fn summaries(list: Seq<ActionExecutionSummary>) -> Seq<SummaryView> {
    list.map_values(|s: ActionExecutionSummary| s@)
}

/// Copies a list of outcomes.
pub fn copy_summaries(list: &[ActionExecutionSummary]) -> (r: Vec<ActionExecutionSummary>)
    ensures
        summaries(r@) == summaries(list@),
        r@.len() == list@.len(),
{
    let mut out: Vec<ActionExecutionSummary> = Vec::new();
    let mut i: usize = 0;
    while i < list.len()
        invariant
            i <= list.len(),
            out@.len() == i,
            summaries(out@) =~= summaries(list@.take(i as int)),
        decreases list.len() - i,
    {
        let ghost before = out@;
        let copy = list[i].clone();
        out.push(copy);
        assert(summaries(out@) =~= summaries(before).push(list@[i as int]@));
        assert(summaries(list@.take(i + 1)) =~= summaries(list@.take(i as int)).push(
            list@[i as int]@,
        ));
        i += 1;
    }
    assert(list@.take(i as int) == list@);
    out
}

/// A picture to show and for how long.
#[derive(Debug)]
pub struct ImagePresentation {
    pub source: ImageSource,
    pub duration_ms: u64,
}

impl Clone for ImagePresentation {
    fn clone(&self) -> (r: Self)
        ensures
            r == *self,
    {
        ImagePresentation { source: self.source.clone(), duration_ms: self.duration_ms }
    }
}

/// `ImagePresentation` as a value: the file of the picture, `None` for the built-in one, and the
/// time.
#[verifier::ext_equal]
pub struct ImageView {
    pub file: Option<Seq<char>>,
    pub duration_ms: u64,
}

impl View for ImagePresentation {
    type V = ImageView;

    open spec fn view(&self) -> ImageView {
        ImageView { file: image_file(self.source), duration_ms: self.duration_ms }
    }
}

/// The value of an optional picture.
pub open spec fn opt_image(image: Option<ImagePresentation>) -> Option<ImageView> {
    match image {
        Some(i) => Some(i@),
        None => None,
    }
}

/// Where a picture comes from.
#[derive(Debug)]
pub enum ImageSource {
    BuiltinBlocked,
    File(String),
}

impl Clone for ImageSource {
    fn clone(&self) -> (r: Self)
        ensures
            r == *self,
    {
        match self {
            ImageSource::BuiltinBlocked => ImageSource::BuiltinBlocked,
            ImageSource::File(path) => ImageSource::File(path.clone()),
        }
    }
}

/// The picture of an image source, by name.
pub open spec fn image_file(source: ImageSource) -> Option<Seq<char>> {
    match source {
        ImageSource::BuiltinBlocked => None,
        ImageSource::File(path) => Some(path@),
    }
}

/// What happened, for the user interface.
#[derive(Debug)]
pub enum UiEvent {
    ProxyStatus { running: bool, detail: String },
    ProtectionUpstreamChecked { result: Result<String, String> },
    ProtectionLocalChecked { upstream_detail: String, result: Result<String, String> },
    Blocked {
        rule_id: String,
        request: String,
        protocol: InterceptionProtocol,
        action_results: Vec<ActionExecutionSummary>,
        image: Option<ImagePresentation>,
    },
    ImportedAudio(String),
    ImportedImage(String),
    ImportedHtml(String),
    ExportStats(String),
    NetworkProbe(String),
    VerifySystemProxy(String),
    TrayShow,
    TrayToggleProxy,
    TrayQuit,
    Error(String),
}

} // verus!
