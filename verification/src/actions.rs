//! Actions: what happens when a request is blocked, besides its being blocked.

use crate::assets::{builtin_audio, sound_of, BuiltinSound};
use crate::config::{ActionDefinition, ActionDefinitionView};
use crate::events::{opt_image, ActionSurface, ImagePresentation, ImageSource, ImageView};
use crate::response::is_suffix;
use crate::text::{chars_of, digits, parse_number, parse_unsigned, same_text};
use vstd::hash_map::StringHashMap;
use vstd::prelude::*;

verus! {

/// For which block an action is executed.
#[derive(Debug)]
pub struct ActionContext {
    pub rule_id: String,
    pub request: String,
}

/// A page that takes the place of the response.
#[derive(Debug)]
pub struct HtmlResponse {
    pub body: String,
}

/// What an action hands back.
#[derive(Debug)]
pub struct ActionOutput {
    pub html_response: Option<HtmlResponse>,
    pub image: Option<ImagePresentation>,
}

/// `ActionOutput` as a value: the page and the picture.
#[verifier::ext_equal]
pub struct OutputView {
    pub page: Option<Seq<char>>,
    pub image: Option<ImageView>,
}

/// The text of an optional page.
pub open spec fn opt_page(page: Option<HtmlResponse>) -> Option<Seq<char>> {
    match page {
        Some(p) => Some(p.body@),
        None => None,
    }
}

impl View for ActionOutput {
    type V = OutputView;

    open spec fn view(&self) -> OutputView {
        OutputView { page: opt_page(self.html_response), image: opt_image(self.image) }
    }
}

/// The outcome of an execution as a value.
pub open spec fn outcome_view(r: Result<ActionOutput, String>) -> Result<OutputView, Seq<char>> {
    match r {
        Ok(output) => Ok(output@),
        Err(error) => Err(error@),
    }
}

/// The output of an action that hands back nothing.
pub open spec fn no_output() -> OutputView {
    OutputView { page: None, image: None }
}

impl Default for ActionOutput {
    fn default() -> (r: Self)
        ensures
            r@ == no_output(),
    {
        ActionOutput { html_response: None, image: None }
    }
}

/// A kind of action: its name, where its effect shows, and what it does.
pub trait ActionHandler {
    /// The name of the kind.
    fn kind(&self) -> &'static str;

    /// Where the effect shows.
    fn surface(&self) -> ActionSurface;

    /// Executes an action of this kind. An error is told in words.
    fn execute(&self, context: &ActionContext, definition: &ActionDefinition) -> Result<
        ActionOutput,
        String,
    >;
}

/// The kinds of action that come with the application.
#[derive(Debug, Clone, Copy, PartialEq, Eq, Structural)]
pub enum StandardKind {
    /// Shows a picture.
    PopupImage,
    /// Plays a sound.
    PlayAudio,
    /// Sends a page in place of the response.
    ServeHtml,
}

/// The name of a standard kind.
pub open spec fn standard_name(kind: StandardKind) -> Seq<char> {
    match kind {
        StandardKind::PopupImage => "popup_image"@,
        StandardKind::PlayAudio => "play_audio"@,
        StandardKind::ServeHtml => "serve_html"@,
    }
}

/// Where the effect of a standard kind shows.
pub open spec fn standard_surface(kind: StandardKind) -> ActionSurface {
    match kind {
        StandardKind::PopupImage => ActionSurface::InAppCard,
        StandardKind::PlayAudio => ActionSurface::LocalAudio,
        StandardKind::ServeHtml => ActionSurface::BrowserPage,
    }
}

impl StandardKind {
    /// The name of the kind.
    pub fn kind_name(self) -> (r: &'static str)
        ensures
            r@ == standard_name(self),
    {
        match self {
            StandardKind::PopupImage => "popup_image",
            StandardKind::PlayAudio => "play_audio",
            StandardKind::ServeHtml => "serve_html",
        }
    }

    /// Where the effect shows.
    pub fn kind_surface(self) -> (r: ActionSurface)
        ensures
            r == standard_surface(self),
    {
        match self {
            StandardKind::PopupImage => ActionSurface::InAppCard,
            StandardKind::PlayAudio => ActionSurface::LocalAudio,
            StandardKind::ServeHtml => ActionSurface::BrowserPage,
        }
    }
}

/// Standard kinds have different names, so that none takes the place of another.
pub proof fn law_standard_names_differ(kind: StandardKind, other: StandardKind)
    requires
        kind != other,
    ensures
        standard_name(kind) != standard_name(other),
{
    reveal_strlit("popup_image");
    reveal_strlit("play_audio");
    reveal_strlit("serve_html");
    assert("play_audio"@[0] != "serve_html"@[0]);
    assert("popup_image"@.len() != "play_audio"@.len());
    assert("popup_image"@.len() != "serve_html"@.len());
}

/// The kinds of action, by name.
#[verifier::reject_recursive_types(H)]
pub struct ActionRegistry<H: ActionHandler> {
    handlers: StringHashMap<H>,
}

impl<H: ActionHandler> View for ActionRegistry<H> {
    type V = Map<Seq<char>, H>;

    closed spec fn view(&self) -> Map<Seq<char>, H> {
        self.handlers@
    }
}

/// The text of the error for a kind that is not registered.
pub open spec fn unregistered_text(kind: Seq<char>) -> Seq<char> {
    "未注册 Action 类型: "@ + kind
}

/// Whether `execute` leaves the outcome of an action to its handler.
pub open spec fn handler_decides<H: ActionHandler>(
    registry: Map<Seq<char>, H>,
    definition: ActionDefinitionView,
) -> bool {
    definition.enabled && registry.contains_key(definition.kind)
}

impl<H: ActionHandler> ActionRegistry<H> {
    /// No kinds.
    pub fn new() -> (r: Self)
        ensures
            r@ == Map::<Seq<char>, H>::empty(),
    {
        ActionRegistry { handlers: StringHashMap::new() }
    }

    /// Adds a kind, in place of one of the same name.
    pub fn register(&mut self, handler: H)
        ensures
            exists|kind: &'static str|
                #![trigger call_ensures(H::kind, (&handler,), kind)]
                call_ensures(H::kind, (&handler,), kind) && final(self)@ == old(self)@.insert(
                    kind@,
                    handler,
                ),
    {
        let kind = handler.kind();
        self.handlers.insert(kind.to_owned(), handler);
    }

    /// Executes an action by the handler of its kind. An action that is switched off does nothing;
    /// one of an unknown kind is an error.
    pub fn execute(&self, context: &ActionContext, definition: &ActionDefinition) -> (r: Result<
        ActionOutput,
        String,
    >)
        ensures
            !definition.enabled ==> outcome_view(r) == Ok::<OutputView, Seq<char>>(no_output()),
            definition.enabled && !self@.contains_key(definition.kind@) ==> outcome_view(r) == Err::<
                OutputView,
                Seq<char>,
            >(unregistered_text(definition.kind@)),
            handler_decides(self@, definition@) ==> call_ensures(
                H::execute,
                (&self@[definition.kind@], context, definition),
                r,
            ),
    {
        if !definition.enabled {
            return Ok(ActionOutput::default());
        }
        match self.handlers.get(definition.kind.as_str()) {
            Some(handler) => handler.execute(context, definition),
            None => {
                let mut error = "未注册 Action 类型: ".to_owned();
                error.append(definition.kind.as_str());
                Err(error)
            },
        }
    }

    /// Where the effects of a kind show.
    pub fn surface(&self, kind: &str) -> (r: Option<ActionSurface>)
        ensures
            match r {
                Some(surface) => self@.contains_key(kind@) && call_ensures(
                    H::surface,
                    (&self@[kind@],),
                    surface,
                ),
                None => !self@.contains_key(kind@),
            },
    {
        match self.handlers.get(kind) {
            Some(handler) => Some(handler.surface()),
            None => None,
        }
    }
}

/// A parameter, or a text in its place where it is missing.
pub open spec fn param_or(
    definition: ActionDefinitionView,
    name: Seq<char>,
    missing: Seq<char>,
) -> Seq<char> {
    if definition.params.contains_key(name) {
        definition.params[name]
    } else {
        missing
    }
}

/// Whether a source names the built-in resource `builtin`: by its name or by nothing.
pub open spec fn names_builtin(source: Seq<char>, builtin: Seq<char>) -> bool {
    source == builtin || source.len() == 0
}

/// The file that a source of an action names; `None` for the built-in resource, which also stands
/// in for a missing or empty source.
pub open spec fn source_file(
    definition: ActionDefinitionView,
    builtin: Seq<char>,
) -> Option<Seq<char>> {
    let source = param_or(definition, "source"@, builtin);
    if names_builtin(source, builtin) {
        None
    } else {
        Some(source)
    }
}

fn named_file(definition: &ActionDefinition, builtin: &str) -> (r: Option<String>)
    ensures
        crate::foreign::opt_view(r) == source_file(definition@, builtin@),
{
    proof {
        reveal_strlit("");
    }
    match definition.params.get("source") {
        None => None,
        Some(source) => {
            assert(source@.len() == 0 ==> source@ =~= ""@);
            if same_text(source.as_str(), builtin) || same_text(source.as_str(), "") {
                None
            } else {
                Some(source.clone())
            }
        },
    }
}

/// The file of the picture that a `popup_image` action shows; `None` for the built-in picture.
pub fn picture_file(definition: &ActionDefinition) -> (r: Option<String>)
    ensures
        crate::foreign::opt_view(r) == source_file(definition@, "builtin:blocked"@),
{
    named_file(definition, "builtin:blocked")
}

/// For how many milliseconds a picture is shown where the action does not say.
pub const DEFAULT_DURATION_MS: u64 = 4500;

/// For how many milliseconds a `popup_image` action shows its picture.
pub open spec fn picture_duration(definition: ActionDefinitionView) -> u64 {
    if definition.params.contains_key("duration_ms"@) {
        match parse_unsigned(definition.params["duration_ms"@], u64::MAX as nat) {
            Some(n) => n as u64,
            None => DEFAULT_DURATION_MS,
        }
    } else {
        DEFAULT_DURATION_MS
    }
}

/// The outcome of a `popup_image` action.
pub open spec fn picture_outcome(
    definition: ActionDefinitionView,
    access: Result<(), Seq<char>>,
) -> Result<OutputView, Seq<char>> {
    match (source_file(definition, "builtin:blocked"@), access) {
        (Some(path), Err(detail)) => Err(
            "无法读取图片 Action 文件 "@ + path + ": "@ + detail,
        ),
        (file, _) => Ok(
            OutputView {
                page: None,
                image: Some(ImageView { file, duration_ms: picture_duration(definition) }),
            },
        ),
    }
}

/// An outside result as a value.
pub open spec fn told<T>(r: Result<T, String>) -> Result<T, Seq<char>> {
    match r {
        Ok(value) => Ok(value),
        Err(error) => Err(error@),
    }
}

/// The outcome of a `popup_image` action. `access` tells whether the file that `picture_file` named
/// is there; it makes no difference for the built-in picture.
pub fn popup_image(definition: &ActionDefinition, access: Result<(), String>) -> (r: Result<
    ActionOutput,
    String,
>)
    ensures
        outcome_view(r) == picture_outcome(definition@, told(access)),
{
    let source = match picture_file(definition) {
        None => ImageSource::BuiltinBlocked,
        Some(path) => {
            match access {
                Err(detail) => {
                    let mut error = "无法读取图片 Action 文件 ".to_owned();
                    error.append(path.as_str());
                    error.append(": ");
                    error.append(detail.as_str());
                    return Err(error);
                },
                Ok(()) => ImageSource::File(path),
            }
        },
    };
    let duration_ms: u64 = match definition.params.get("duration_ms") {
        None => DEFAULT_DURATION_MS,
        Some(value) => match parse_number(chars_of(value.as_str()).as_slice(), u64::MAX) {
            Some(n) => n,
            None => DEFAULT_DURATION_MS,
        },
    };
    Ok(ActionOutput { html_response: None, image: Some(ImagePresentation { source, duration_ms }) })
}

/// What a `play_audio` action plays.
#[derive(Debug)]
pub enum AudioSource {
    Builtin(BuiltinSound),
    File(String),
}

/// `AudioSource` as a value.
#[verifier::ext_equal]
pub enum AudioSourceView {
    Builtin(BuiltinSound),
    File(Seq<char>),
}

impl View for AudioSource {
    type V = AudioSourceView;

    open spec fn view(&self) -> AudioSourceView {
        match self {
            AudioSource::Builtin(sound) => AudioSourceView::Builtin(*sound),
            AudioSource::File(path) => AudioSourceView::File(path@),
        }
    }
}

/// What a `play_audio` action plays, or why it plays nothing.
pub open spec fn audio_choice(definition: ActionDefinitionView) -> Result<
    AudioSourceView,
    Seq<char>,
> {
    let source = param_or(definition, "source"@, Seq::empty());
    if source.len() == 0 {
        Err("Action "@ + definition.id + " 没有音频 source"@)
    } else {
        match sound_of(source) {
            Some(sound) => Ok(AudioSourceView::Builtin(sound)),
            None => Ok(AudioSourceView::File(source)),
        }
    }
}

/// What a `play_audio` action plays, or why it plays nothing.
pub fn audio_source(definition: &ActionDefinition) -> (r: Result<AudioSource, String>)
    ensures
        match r {
            Ok(source) => audio_choice(definition@) == Ok::<AudioSourceView, Seq<char>>(source@),
            Err(error) => audio_choice(definition@) == Err::<AudioSourceView, Seq<char>>(error@),
        },
{
    proof {
        reveal_strlit("");
    }
    if let Some(source) = definition.params.get("source") {
        assert(source@.len() == 0 ==> source@ =~= ""@);
        if !same_text(source.as_str(), "") {
            return match builtin_audio(source.as_str()) {
                Some(sound) => Ok(AudioSource::Builtin(sound)),
                None => Ok(AudioSource::File(source.clone())),
            };
        }
    }
    let mut error = "Action ".to_owned();
    error.append(definition.id.as_str());
    error.append(" 没有音频 source");
    Err(error)
}

/// Why a sound cannot be played.
#[derive(Debug)]
pub enum AudioError {
    NoDevice { detail: String },
    BuiltinUndecodable { detail: String },
    FileUnreadable { source: String, detail: String },
    FileUndecodable { detail: String },
}

/// The text of an error of playing a sound.
pub open spec fn audio_error_text(error: AudioError) -> Seq<char> {
    match error {
        AudioError::NoDevice { detail } => "没有可用的音频输出设备: "@ + detail@,
        AudioError::BuiltinUndecodable { detail } => "内置音频无法解码: "@ + detail@,
        AudioError::FileUnreadable { source, detail } => "无法打开音频文件 "@ + source@ + ": "@
            + detail@,
        AudioError::FileUndecodable { detail } => "音频文件无法解码: "@ + detail@,
    }
}

impl AudioError {
    /// The error in words.
    pub fn message(&self) -> (r: String)
        ensures
            r@ == audio_error_text(*self),
    {
        match self {
            AudioError::NoDevice { detail } => {
                let mut out = "没有可用的音频输出设备: ".to_owned();
                out.append(detail.as_str());
                out
            },
            AudioError::BuiltinUndecodable { detail } => {
                let mut out = "内置音频无法解码: ".to_owned();
                out.append(detail.as_str());
                out
            },
            AudioError::FileUnreadable { source, detail } => {
                let mut out = "无法打开音频文件 ".to_owned();
                out.append(source.as_str());
                out.append(": ");
                out.append(detail.as_str());
                out
            },
            AudioError::FileUndecodable { detail } => {
                let mut out = "音频文件无法解码: ".to_owned();
                out.append(detail.as_str());
                out
            },
        }
    }
}

/// How playing a sound went.
#[derive(Debug)]
pub enum Playback {
    Started,
    /// Nothing could be played.
    Failed(AudioError),
    /// The sound was ready, but nothing could wait for its end.
    NoThread { detail: String },
}

/// The outcome of a `play_audio` action.
pub open spec fn audio_outcome(
    rule_id: Seq<char>,
    request: Seq<char>,
    definition: ActionDefinitionView,
    playback: Playback,
) -> Result<OutputView, Seq<char>> {
    match audio_choice(definition) {
        Err(error) => Err(error),
        Ok(_) => match playback {
            Playback::Started => Ok(no_output()),
            Playback::Failed(error) => Err(
                "规则 "@ + rule_id + " 的音频 Action 无法开始（"@ + request + "）: "@
                    + audio_error_text(error),
            ),
            Playback::NoThread { detail } => Err("无法启动音频线程: "@ + detail@),
        },
    }
}

/// The outcome of a `play_audio` action. `playback` tells how playing what `audio_source` named went;
/// it makes no difference where there is nothing to play.
pub fn play_audio(
    context: &ActionContext,
    definition: &ActionDefinition,
    playback: Playback,
) -> (r: Result<ActionOutput, String>)
    ensures
        outcome_view(r) == audio_outcome(
            context.rule_id@,
            context.request@,
            definition@,
            playback,
        ),
{
    match audio_source(definition) {
        Err(error) => Err(error),
        Ok(_) => match playback {
            Playback::Started => Ok(ActionOutput::default()),
            Playback::Failed(error) => {
                let mut out = "规则 ".to_owned();
                out.append(context.rule_id.as_str());
                out.append(" 的音频 Action 无法开始（");
                out.append(context.request.as_str());
                out.append("）: ");
                out.append(error.message().as_str());
                Err(out)
            },
            Playback::NoThread { detail } => {
                let mut out = "无法启动音频线程: ".to_owned();
                out.append(detail.as_str());
                Err(out)
            },
        },
    }
}

/// The file of the page that a `serve_html` action answers with; `None` for the built-in page.
pub fn page_file(definition: &ActionDefinition) -> (r: Option<String>)
    ensures
        crate::foreign::opt_view(r) == source_file(definition@, "builtin:mini-game"@),
{
    named_file(definition, "builtin:mini-game")
}

/// How many bytes the file of a page may have.
pub const MAX_HTML_BYTES: u64 = 2097152;

/// The text of the error for a page that is too large.
pub open spec fn page_too_large() -> Seq<char> {
    "HTML Action 文件超过 2 MiB 限制"@
}

/// Whether the file of a page is small enough to be read.
pub fn admit_page(bytes: u64) -> (r: Result<(), String>)
    ensures
        told(r) == (if bytes <= MAX_HTML_BYTES {
            Ok::<(), Seq<char>>(())
        } else {
            Err::<(), Seq<char>>(page_too_large())
        }),
{
    if bytes > MAX_HTML_BYTES {
        Err("HTML Action 文件超过 2 MiB 限制".to_owned())
    } else {
        Ok(())
    }
}

/// The outcome of a `serve_html` action.
pub open spec fn page_outcome(
    definition: ActionDefinitionView,
    builtin: Seq<char>,
    size: Result<u64, Seq<char>>,
    text: Result<Seq<char>, Seq<char>>,
) -> Result<OutputView, Seq<char>> {
    match source_file(definition, "builtin:mini-game"@) {
        None => Ok(OutputView { page: Some(builtin), image: None }),
        Some(path) => match size {
            Err(detail) => Err("无法读取 HTML Action 文件 "@ + path + ": "@ + detail),
            Ok(bytes) => if bytes > MAX_HTML_BYTES {
                Err(page_too_large())
            } else {
                match text {
                    Err(detail) => Err(
                        "HTML Action 文件不是有效 UTF-8："@ + path + ": "@ + detail,
                    ),
                    Ok(body) => Ok(OutputView { page: Some(body), image: None }),
                }
            },
        },
    }
}

/// An outside text as a value.
pub open spec fn told_text(r: Result<String, String>) -> Result<Seq<char>, Seq<char>> {
    match r {
        Ok(text) => Ok(text@),
        Err(error) => Err(error@),
    }
}

/// The outcome of a `serve_html` action. `builtin` is the built-in page; `size` is the size of the
/// file that `page_file` named and `text` what was read from it. Neither makes a difference for the
/// built-in page, and `text` none for a file that `admit_page` refuses.
pub fn serve_html(
    definition: &ActionDefinition,
    builtin: &str,
    size: Result<u64, String>,
    text: Result<String, String>,
) -> (r: Result<ActionOutput, String>)
    ensures
        outcome_view(r) == page_outcome(definition@, builtin@, told(size), told_text(text)),
{
    let body = match page_file(definition) {
        None => builtin.to_owned(),
        Some(path) => {
            match size {
                Err(detail) => {
                    let mut error = "无法读取 HTML Action 文件 ".to_owned();
                    error.append(path.as_str());
                    error.append(": ");
                    error.append(detail.as_str());
                    return Err(error);
                },
                Ok(bytes) => {
                    if let Err(error) = admit_page(bytes) {
                        return Err(error);
                    }
                },
            }
            match text {
                Err(detail) => {
                    let mut error = "HTML Action 文件不是有效 UTF-8：".to_owned();
                    error.append(path.as_str());
                    error.append(": ");
                    error.append(detail.as_str());
                    return Err(error);
                },
                Ok(body) => body,
            }
        },
    };
    Ok(ActionOutput { html_response: Some(HtmlResponse { body }), image: None })
}

/// A picture action shows the built-in picture where no file is set, and otherwise the file that is
/// set, if it is there; it never answers with a page. The picture stays as long as the action says in
/// milliseconds, and four and a half seconds where it says nothing.
pub proof fn law_picture_action_shows_its_picture(
    definition: &ActionDefinition,
    access: Result<(), String>,
    r: Result<ActionOutput, String>,
    millis: u64,
)
    requires
        call_ensures(popup_image, (definition, access), r),
    ensures
        ({
            let params = definition@.params;
            let set = params.contains_key("source"@) && params["source"@].len() > 0
                && params["source"@] != "builtin:blocked"@;
            &&& r is Err <==> set && access is Err
            &&& r matches Ok(output) ==> {
                &&& output.html_response is None
                &&& output.image is Some
                &&& !set ==> output@.image->0.file is None
                &&& set ==> output@.image->0.file == Some(params["source"@])
                &&& !params.contains_key("duration_ms"@) ==> output@.image->0.duration_ms == 4500
                &&& params.contains_key("duration_ms"@) && params["duration_ms"@] == digits(
                    millis as nat,
                ) ==> output@.image->0.duration_ms == millis
            }
            &&& r matches Err(error) ==> is_suffix(access->Err_0@, error@)
        }),
{
    let params = definition@.params;
    crate::text::law_number_round_trip(millis as nat, u64::MAX as nat);
    assert(outcome_view(r) == picture_outcome(definition@, told(access)));
    match r {
        Ok(output) => {
            assert(output@ == picture_outcome(definition@, told(access))->Ok_0);
        },
        Err(error) => {
            let s = error@;
            let d = access->Err_0@;
            assert(s == "无法读取图片 Action 文件 "@ + params["source"@] + ": "@ + d);
            assert(s.subrange(s.len() - d.len(), s.len() as int) =~= d);
        },
    }
}

/// A sound action plays what it names: a built-in sound by its name, and any other text as a file;
/// without a name there is nothing to play.
pub proof fn law_sound_action_plays_its_source(
    definition: &ActionDefinition,
    r: Result<AudioSource, String>,
)
    requires
        call_ensures(audio_source, (definition,), r),
    ensures
        ({
            let params = definition@.params;
            let named = params.contains_key("source"@) && params["source"@].len() > 0;
            &&& r is Ok <==> named
            &&& r matches Ok(source) ==> match source {
                AudioSource::Builtin(sound) => params["source"@] == (match sound {
                    BuiltinSound::SoftChime => "builtin:soft-chime"@,
                    BuiltinSound::BrightBells => "builtin:bright-bells"@,
                    BuiltinSound::GentleAlert => "builtin:gentle-alert"@,
                }),
                AudioSource::File(path) => path@ == params["source"@] && path@
                    != "builtin:soft-chime"@ && path@ != "builtin:bright-bells"@ && path@
                    != "builtin:gentle-alert"@,
            }
        }),
{
    match r {
        Ok(source) => {
            assert(source@ == audio_choice(definition@)->Ok_0);
        },
        Err(_) => {},
    }
}

/// A sound action succeeds exactly where its sound has started, and hands back neither page nor
/// picture.
pub proof fn law_sound_action_succeeds_where_it_plays(
    context: &ActionContext,
    definition: &ActionDefinition,
    playback: Playback,
    r: Result<ActionOutput, String>,
)
    requires
        call_ensures(play_audio, (context, definition, playback), r),
    ensures
        r is Ok <==> definition@.params.contains_key("source"@)
            && definition@.params["source"@].len() > 0 && playback is Started,
        r matches Ok(output) ==> output.html_response is None && output.image is None,
        r matches Err(error) ==> (definition@.params.contains_key("source"@)
            && definition@.params["source"@].len() > 0 ==> (playback matches Playback::NoThread {
            detail,
        } ==> is_suffix(detail@, error@))),
{
    assert(outcome_view(r) == audio_outcome(
        context.rule_id@,
        context.request@,
        definition@,
        playback,
    ));
    match r {
        Ok(output) => {
            assert(output@ == no_output());
        },
        Err(error) => {
            if let Playback::NoThread { detail } = playback {
                let s = error@;
                let d = detail@;
                if definition@.params.contains_key("source"@)
                    && definition@.params["source"@].len() > 0 {
                    assert(s == "无法启动音频线程: "@ + d);
                    assert(s.subrange(s.len() - d.len(), s.len() as int) =~= d);
                }
            }
        },
    }
}

/// A page action answers with the built-in page where no file is set, and otherwise with what the
/// file that is set holds, if that is text and not more than two megabytes; it shows no picture.
pub proof fn law_page_action_answers_with_its_page(
    definition: &ActionDefinition,
    builtin: &str,
    size: Result<u64, String>,
    text: Result<String, String>,
    r: Result<ActionOutput, String>,
)
    requires
        call_ensures(serve_html, (definition, builtin, size, text), r),
    ensures
        ({
            let params = definition@.params;
            let set = params.contains_key("source"@) && params["source"@].len() > 0
                && params["source"@] != "builtin:mini-game"@;
            let readable = size is Ok && size->Ok_0 <= 2 * 1024 * 1024 && text is Ok;
            &&& r is Ok <==> !set || readable
            &&& r matches Ok(output) ==> output.image is None && output.html_response is Some
                && output.html_response->0.body@ == (if set {
                text->Ok_0@
            } else {
                builtin@
            })
        }),
{
    assert(outcome_view(r) == page_outcome(definition@, builtin@, told(size), told_text(text)));
    if let Ok(output) = r {
        assert(output@ == page_outcome(definition@, builtin@, told(size), told_text(text))->Ok_0);
    }
}

/// The files that have to be there for picture and page are the ones that are set.
pub proof fn law_files_are_the_ones_that_are_set(
    definition: &ActionDefinition,
    picture: Option<String>,
    page: Option<String>,
)
    requires
        call_ensures(picture_file, (definition,), picture),
        call_ensures(page_file, (definition,), page),
    ensures
        ({
            let params = definition@.params;
            let set = params.contains_key("source"@) && params["source"@].len() > 0;
            &&& picture is Some <==> set && params["source"@] != "builtin:blocked"@
            &&& picture matches Some(path) ==> path@ == params["source"@]
            &&& page is Some <==> set && params["source"@] != "builtin:mini-game"@
            &&& page matches Some(path) ==> path@ == params["source"@]
        }),
{
    reveal_strlit("builtin:blocked");
    reveal_strlit("builtin:mini-game");
}

/// A page may have two megabytes and no more.
pub proof fn law_pages_have_a_limit(bytes: u64, r: Result<(), String>)
    requires
        call_ensures(admit_page, (bytes,), r),
    ensures
        r is Ok <==> bytes <= 2 * 1024 * 1024,
{
    assert(told(r) is Ok <==> r is Ok);
}

/// The name of a standard kind tells where its effect shows: pictures in the window, sounds on this
/// machine, pages in the browser.
pub proof fn law_standard_kinds_show_where_they_act(
    kind: StandardKind,
    name: &'static str,
    surface: ActionSurface,
)
    requires
        call_ensures(StandardKind::kind_name, (kind,), name),
        call_ensures(StandardKind::kind_surface, (kind,), surface),
    ensures
        name@ == "popup_image"@ <==> surface == ActionSurface::InAppCard,
        name@ == "play_audio"@ <==> surface == ActionSurface::LocalAudio,
        name@ == "serve_html"@ <==> surface == ActionSurface::BrowserPage,
{
    law_standard_names_differ(StandardKind::PopupImage, StandardKind::PlayAudio);
    law_standard_names_differ(StandardKind::PopupImage, StandardKind::ServeHtml);
    law_standard_names_differ(StandardKind::PlayAudio, StandardKind::ServeHtml);
}

} // verus!
