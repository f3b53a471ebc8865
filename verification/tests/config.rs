use net_sentinel::actions::{
    admit_page, audio_source, page_file, picture_file, play_audio, popup_image, serve_html,
    ActionContext, ActionHandler, ActionOutput, ActionRegistry, AudioError, AudioSource,
    HtmlResponse, Playback, MAX_HTML_BYTES,
};
use net_sentinel::assets::{builtin_audio, BuiltinPicture, BuiltinSound, EmbeddedAssets};
use net_sentinel::config::{
    config_path, page_action, ActionDefinition, AppConfig, MatchMode, MatchTarget, NetworkMode,
    Params,
};
use net_sentinel::events::{ActionSurface, ImageSource};
use net_sentinel::text::{
    chars_of, decimal_text, parse_number, position_of_text, rsplit_once, same_text_ignoring_case,
    signed_decimal, split_lines, split_on, split_once, split_words, text_of, trimmed,
    two_digit_text,
};

fn action(kind: &str, params: &[(&str, &str)]) -> ActionDefinition {
    let mut all = Params::new();
    for (key, value) in params {
        all.insert(key.to_string(), value.to_string());
    }
    ActionDefinition { id: "act".into(), kind: kind.into(), enabled: true, params: all }
}

fn context() -> ActionContext {
    ActionContext { rule_id: "rule".into(), request: "http://a.test/".into() }
}

struct Answer {
    body: &'static str,
}

impl ActionHandler for Answer {
    fn kind(&self) -> &'static str {
        "answer"
    }

    fn surface(&self) -> ActionSurface {
        ActionSurface::BrowserPage
    }

    fn execute(
        &self,
        context: &ActionContext,
        definition: &ActionDefinition,
    ) -> Result<ActionOutput, String> {
        if definition.params.get("fail").is_some() {
            return Err("refused".into());
        }
        let body = format!("{} {}", self.body, context.rule_id);
        Ok(ActionOutput { html_response: Some(HtmlResponse { body }), image: None })
    }
}

#[test]
fn registry_runs_what_is_registered() {
    let mut registry = ActionRegistry::new();
    registry.register(Answer { body: "first" });
    let output = registry.execute(&context(), &action("answer", &[])).unwrap();
    assert_eq!(output.html_response.unwrap().body, "first rule");
    assert_eq!(registry.surface("answer"), Some(ActionSurface::BrowserPage));
    assert_eq!(registry.surface("other"), None);
    assert_eq!(
        registry.execute(&context(), &action("answer", &[("fail", "")])).unwrap_err(),
        "refused"
    );
}

#[test]
fn registry_refuses_unknown_kinds() {
    let mut registry = ActionRegistry::new();
    registry.register(Answer { body: "first" });
    assert_eq!(
        registry.execute(&context(), &action("other", &[])).unwrap_err(),
        "未注册 Action 类型: other"
    );
}

#[test]
fn registry_leaves_disabled_actions_alone() {
    let mut registry = ActionRegistry::new();
    registry.register(Answer { body: "first" });
    let mut definition = action("answer", &[]);
    definition.enabled = false;
    let output = registry.execute(&context(), &definition).unwrap();
    assert!(output.html_response.is_none() && output.image.is_none());
    definition.kind = "other".into();
    assert!(registry.execute(&context(), &definition).is_ok());
}

#[test]
fn registry_keeps_the_last_of_a_kind() {
    let mut registry = ActionRegistry::new();
    registry.register(Answer { body: "first" });
    registry.register(Answer { body: "second" });
    let output = registry.execute(&context(), &action("answer", &[])).unwrap();
    assert_eq!(output.html_response.unwrap().body, "second rule");
}

#[test]
fn pictures() {
    assert!(picture_file(&action("popup_image", &[])).is_none());
    assert!(picture_file(&action("popup_image", &[("source", "")])).is_none());
    assert!(picture_file(&action("popup_image", &[("source", "builtin:blocked")])).is_none());
    let named = action("popup_image", &[("source", "a.png"), ("duration_ms", "+900")]);
    assert_eq!(picture_file(&named).as_deref(), Some("a.png"));
    let image = popup_image(&named, Ok(())).unwrap().image.unwrap();
    assert!(matches!(image.source, ImageSource::File(path) if path == "a.png"));
    assert_eq!(image.duration_ms, 900);
    assert_eq!(
        popup_image(&named, Err("gone".into())).unwrap_err(),
        "无法读取图片 Action 文件 a.png: gone"
    );
    let builtin = action("popup_image", &[("duration_ms", "soon")]);
    let image = popup_image(&builtin, Err("gone".into())).unwrap().image.unwrap();
    assert!(matches!(image.source, ImageSource::BuiltinBlocked));
    assert_eq!(image.duration_ms, 4500);
}

#[test]
fn sounds() {
    assert_eq!(audio_source(&action("play_audio", &[])).unwrap_err(), "Action act 没有音频 source");
    assert!(audio_source(&action("play_audio", &[("source", "")])).is_err());
    assert!(matches!(
        audio_source(&action("play_audio", &[("source", "builtin:soft-chime")])),
        Ok(AudioSource::Builtin(BuiltinSound::SoftChime))
    ));
    let named = action("play_audio", &[("source", "a.mp3")]);
    assert!(matches!(audio_source(&named), Ok(AudioSource::File(path)) if path == "a.mp3"));
    assert!(play_audio(&context(), &named, Playback::Started).is_ok());
    let failed = |error| play_audio(&context(), &named, Playback::Failed(error)).unwrap_err();
    assert_eq!(
        failed(AudioError::NoDevice { detail: "d".into() }),
        "规则 rule 的音频 Action 无法开始（http://a.test/）: 没有可用的音频输出设备: d"
    );
    assert!(failed(AudioError::BuiltinUndecodable { detail: "d".into() })
        .ends_with(": 内置音频无法解码: d"));
    assert!(failed(AudioError::FileUnreadable { source: "s".into(), detail: "d".into() })
        .ends_with(": 无法打开音频文件 s: d"));
    assert!(
        failed(AudioError::FileUndecodable { detail: "d".into() }).ends_with(": 音频文件无法解码: d")
    );
    assert_eq!(
        play_audio(&context(), &named, Playback::NoThread { detail: "d".into() }).unwrap_err(),
        "无法启动音频线程: d"
    );
    let silent = action("play_audio", &[]);
    assert!(play_audio(&context(), &silent, Playback::Started).is_err());
}

#[test]
fn pages() {
    let page = |definition: &ActionDefinition, size, text| {
        serve_html(definition, "built in", size, text).map(|output| output.html_response.unwrap().body)
    };
    let builtin = action("serve_html", &[("source", "builtin:mini-game")]);
    assert!(page_file(&builtin).is_none());
    assert_eq!(page(&builtin, Err("x".into()), Err("x".into())).unwrap(), "built in");
    let named = action("serve_html", &[("source", "p.html")]);
    assert_eq!(page_file(&named).as_deref(), Some("p.html"));
    assert_eq!(page(&named, Ok(MAX_HTML_BYTES), Ok("text".into())).unwrap(), "text");
    assert_eq!(
        page(&named, Err("gone".into()), Ok("text".into())).unwrap_err(),
        "无法读取 HTML Action 文件 p.html: gone"
    );
    assert_eq!(
        page(&named, Ok(MAX_HTML_BYTES + 1), Ok("text".into())).unwrap_err(),
        "HTML Action 文件超过 2 MiB 限制"
    );
    assert_eq!(
        page(&named, Ok(1), Err("bytes".into())).unwrap_err(),
        "HTML Action 文件不是有效 UTF-8：p.html: bytes"
    );
    assert!(admit_page(2097152).is_ok());
    assert!(admit_page(2097153).is_err());
}

#[test]
fn builtin_assets() {
    assert_eq!(builtin_audio("builtin:bright-bells"), Some(BuiltinSound::BrightBells));
    assert_eq!(builtin_audio("builtin:gentle-alert"), Some(BuiltinSound::GentleAlert));
    assert_eq!(builtin_audio("soft-chime"), None);
    assert_eq!(EmbeddedAssets.load("blocked.svg"), Some(BuiltinPicture::Blocked));
    assert_eq!(EmbeddedAssets.load("other.svg"), None);
    assert_eq!(EmbeddedAssets.list(""), vec!["blocked.svg".to_string()]);
    assert!(EmbeddedAssets.list("x").is_empty());
}

#[test]
fn default_settings() {
    let config = AppConfig::default();
    assert_eq!(config.proxy.listen, "127.0.0.1:8877");
    assert_eq!(config.proxy.network_mode, NetworkMode::Auto);
    assert!(config.proxy.upstream_proxy.is_none());
    assert!(!config.startup.start_minimized);
    assert!(config.analytics.detailed_logging);
    assert_eq!(config.analytics.detailed_retention_days, 7);
    assert_eq!(config.analytics.aggregate_retention_days, 90);
    let actions: Vec<(&str, &str, bool)> = config
        .actions
        .iter()
        .map(|action| (action.id.as_str(), action.kind.as_str(), action.enabled))
        .collect();
    assert_eq!(
        actions,
        vec![
            ("blocked-picture", "popup_image", true),
            ("blocked-sound", "play_audio", true),
            ("imported-music", "play_audio", false),
            ("blocked-game", "serve_html", true),
        ]
    );
    let param = |id: &str, key: &str| config.action(id).unwrap().params.get(key).cloned();
    assert_eq!(param("blocked-picture", "source").as_deref(), Some("builtin:blocked"));
    assert_eq!(param("blocked-picture", "duration_ms").as_deref(), Some("4500"));
    assert_eq!(param("blocked-sound", "source").as_deref(), Some("builtin:soft-chime"));
    assert_eq!(param("blocked-sound", "volume").as_deref(), Some("0.7"));
    assert_eq!(param("imported-music", "source").as_deref(), Some(""));
    assert_eq!(param("blocked-game", "source").as_deref(), Some("builtin:mini-game"));
    assert_eq!(param("blocked-game", "volume"), None);
    assert!(config.action("missing").is_none());
    let rules = &config.blacklist;
    assert_eq!(rules.len(), 2);
    assert_eq!((rules[0].id.as_str(), rules[0].enabled), ("demo-blocked-path", true));
    assert_eq!((rules[0].target, rules[0].mode), (MatchTarget::Url, MatchMode::Contains));
    assert_eq!(rules[0].pattern, "example.com/blocked");
    assert_eq!(rules[0].actions, vec!["blocked-picture", "blocked-sound"]);
    assert_eq!((rules[1].id.as_str(), rules[1].enabled), ("social-sites-example", false));
    assert_eq!((rules[1].target, rules[1].mode), (MatchTarget::Host, MatchMode::Glob));
    assert_eq!(rules[1].pattern, "*.example-social.test");
}

#[test]
fn loaded_settings_get_a_page() {
    let mut config = AppConfig::default();
    config.actions.retain(|action| action.kind != "serve_html");
    let completed = config.completed();
    assert_eq!(completed.actions.len(), 4);
    assert_eq!(completed.actions[3].id, page_action().id);
    assert_eq!(completed.completed().actions.len(), 4);
}

#[test]
fn parameters_are_kept_by_name() {
    let mut params = Params::new();
    params.insert("b".into(), "1".into());
    params.insert("a".into(), "2".into());
    params.insert("b".into(), "3".into());
    assert_eq!(params.get("b").map(String::as_str), Some("3"));
    assert_eq!(params.get("c"), None);
    assert_eq!(params.entries().len(), 2);
}

#[test]
fn place_of_the_settings() {
    assert_eq!(config_path(Some("dir".into())), vec!["dir", "config.toml"]);
    assert_eq!(config_path(None), vec![".", "config.toml"]);
}

#[test]
fn pieces_of_text() {
    let chars = |text: &str| chars_of(text);
    let texts = |parts: Vec<Vec<char>>| -> Vec<String> {
        parts.iter().map(|part| text_of(part)).collect()
    };
    assert_eq!(text_of(trimmed(&chars("\u{3000} a b\t\n"))), "a b");
    assert_eq!(texts(split_words(&chars("  GET  /x\tHTTP "))), vec!["GET", "/x", "HTTP"]);
    assert_eq!(texts(split_on(&chars("a;;b"), &[';'])), vec!["a", "", "b"]);
    assert_eq!(texts(split_lines(&chars("a\r\nb\n\nc"))), vec!["a", "b", "", "c"]);
    let text = chars("a:b:c");
    let (left, right) = split_once(&text, ':').unwrap();
    assert_eq!((text_of(left), text_of(right)), ("a".to_string(), "b:c".to_string()));
    let (left, right) = rsplit_once(&text, ':').unwrap();
    assert_eq!((text_of(left), text_of(right)), ("a:b".to_string(), "c".to_string()));
    assert_eq!(position_of_text(&chars("abcabc"), &chars("ca")), Some(2));
    assert_eq!(position_of_text(&chars("abc"), &chars("x")), None);
    assert!(same_text_ignoring_case("Content-LENGTH", "content-length"));
    assert!(!same_text_ignoring_case("É", "é"));
}

#[test]
fn numbers_as_text() {
    let parse = |text: &str, max: u64| parse_number(&chars_of(text), max);
    assert_eq!(parse("65535", 65535), Some(65535));
    assert_eq!(parse("65536", 65535), None);
    assert_eq!(parse("+007", 65535), Some(7));
    assert_eq!(parse("", 9), None);
    assert_eq!(parse("+", 9), None);
    assert_eq!(parse("-1", 9), None);
    assert_eq!(parse("18446744073709551615", u64::MAX), Some(u64::MAX));
    assert_eq!(parse("18446744073709551616", u64::MAX), None);
    for number in [0, 9, 10, 1234567890, u64::MAX] {
        assert_eq!(decimal_text(number), format!("{number}"));
        assert_eq!(parse(&decimal_text(number), u64::MAX), Some(number));
    }
    for number in [0, -1, i64::MIN, i64::MAX] {
        assert_eq!(text_of(&signed_decimal(number)), format!("{number}"));
    }
    assert_eq!((two_digit_text(7), two_digit_text(23)), ("07".to_string(), "23".to_string()));
}
