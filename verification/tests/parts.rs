use net_sentinel::actions::{
    ActionContext, ActionHandler, ActionOutput, ActionRegistry, StandardKind,
};
use net_sentinel::analytics::{kept_place, quoted_json_text};
use net_sentinel::config::{ActionDefinition, AppConfig, MatchMode, MatchTarget};
use net_sentinel::editor::{test_message, url_facts};
use net_sentinel::events::{ActionExecutionStatus, ActionSurface};
use net_sentinel::foreign::UrlParts;
use net_sentinel::http::{host_or, resolve, ParsedRequest, RequestHead};
use net_sentinel::intercept::{handle_request, Handling};
use net_sentinel::probe::{check_answer_text, check_request_text, ProbeError};
use net_sentinel::rules::{glob_verdict, match_value, regex_verdict, RuleError};
use net_sentinel::tunnel::{check_connect_reply, TunnelError};

fn parts(host: Option<&str>, port: Option<u16>, query: Option<&str>) -> UrlParts {
    UrlParts {
        host: host.map(str::to_string),
        port,
        path: "/p".into(),
        query: query.map(str::to_string),
        text: "http://text/".into(),
    }
}

struct Nothing;

impl ActionHandler for Nothing {
    fn kind(&self) -> &'static str {
        "nothing"
    }

    fn surface(&self) -> ActionSurface {
        ActionSurface::InAppCard
    }

    fn execute(
        &self,
        _context: &ActionContext,
        _definition: &ActionDefinition,
    ) -> Result<ActionOutput, String> {
        Ok(ActionOutput::default())
    }
}

#[test]
fn hosts_of_parsed_urls() {
    assert_eq!(host_or(Ok(parts(Some("h"), None, None)), "other"), "h");
    assert_eq!(host_or(Ok(parts(None, None, None)), "other"), "other");
    assert_eq!(host_or(Err("why".into()), "other"), "other");
}

#[test]
fn places_that_are_kept() {
    let place = |parsed, detailed| {
        let (host, path): (String, String) = kept_place(parsed, detailed);
        format!("{host} {path}")
    };
    assert_eq!(place(Ok(parts(Some("h"), None, Some("q"))), true), "h /p");
    assert_eq!(place(Ok(parts(None, None, None)), true), "unknown /p");
    assert_eq!(place(Err("why".into()), true), "unknown /");
    assert_eq!(place(Ok(parts(Some("h"), None, None)), false), "已关闭详细日志 ");
}

#[test]
fn requests_from_parts() {
    let head = |text: &str| RequestHead::parse(text).unwrap();
    let request = resolve(
        head("PUT /x HTTP/1.0\r\nA: b\r\n\r\n"),
        parts(Some("h"), Some(81), Some("q=1")),
    );
    assert_eq!((request.method.as_str(), request.version.as_str()), ("PUT", "HTTP/1.0"));
    assert_eq!((request.authority.as_str(), request.path.as_str()), ("h:81", "/p?q=1"));
    assert_eq!(request.url, "http://text/");
    assert_eq!(request.headers, vec![("A".to_string(), "b".to_string())]);
    let request = resolve(head("GET / HTTP/1.1"), parts(None, None, None));
    assert_eq!((request.authority.as_str(), request.path.as_str()), ("", "/p"));
    let facts = url_facts(parts(Some("H.Test"), Some(81), Some("q")));
    assert_eq!((facts.method.as_str(), facts.host.as_str()), ("GET", "h.test"));
    assert_eq!((facts.url.as_str(), facts.path.as_str()), ("http://text/", "/p?q"));
}

#[test]
fn outcomes_from_quoted_texts() {
    assert_eq!(
        quoted_json_text(
            "\"i\"",
            "\"k\"",
            ActionExecutionStatus::Succeeded,
            ActionSurface::BrowserPage
        ),
        "{\"action_id\":\"i\",\"kind\":\"k\",\"status\":\"succeeded\",\"surface\":\"browser_page\"}"
    );
}

#[test]
fn verdicts_from_outcomes() {
    assert!(matches!(glob_verdict("r", Ok(Some(true))), Ok(true)));
    assert!(matches!(
        glob_verdict("r", Ok(None)),
        Err(RuleError::GlobTooLarge { rule }) if rule == "r"
    ));
    assert!(matches!(
        glob_verdict("r", Err("d".into())),
        Err(RuleError::Glob { rule, detail }) if rule == "r" && detail == "d"
    ));
    assert!(matches!(regex_verdict("r", Ok(false)), Ok(false)));
    assert!(matches!(
        regex_verdict("r", Err("d".into())),
        Err(RuleError::Regex { rule, detail }) if rule == "r" && detail == "d"
    ));
    assert_eq!(test_message(Ok(true)), "测试结果：命中，将被拦截");
    assert_eq!(test_message(Ok(false)), "测试结果：未命中，将放行");
    let error = RuleError::GlobTooLarge { rule: "r".into() };
    assert_eq!(test_message(Err(error)), "测试失败：规则 r 的 glob 无效: 表达式过大");
}

#[test]
fn patterns_and_values() {
    let mut rule = AppConfig::default().blacklist.remove(0);
    rule.pattern = "A*C".into();
    let mut verdict = |mode: MatchMode, value: &str| {
        rule.mode = mode;
        match_value(&rule, value).unwrap()
    };
    assert!(verdict(MatchMode::Exact, "a*c"));
    assert!(!verdict(MatchMode::Exact, "abc"));
    assert!(verdict(MatchMode::Contains, "xa*Cx"));
    assert!(verdict(MatchMode::Glob, "abc"));
    assert!(!verdict(MatchMode::Glob, "abcd"));
    assert!(verdict(MatchMode::Regex, "AAC"));
    assert!(!verdict(MatchMode::Regex, "aac"));
}

#[test]
fn texts_of_replies() {
    assert!(check_connect_reply("HTTP/1.0 200 OK\nmore").is_ok());
    assert!(matches!(
        check_connect_reply("HTTP/1.0 502 Bad\r\n"),
        Err(TunnelError::Refused { line }) if line == "HTTP/1.0 502 Bad"
    ));
    assert!(matches!(
        check_connect_reply(""),
        Err(TunnelError::InvalidStatus { line }) if line.is_empty()
    ));
    let request = "GET /__net-sentinel-probe/t HTTP/1.1\r\nx-net-sentinel-probe:  t\r\n\r\n";
    assert!(check_request_text(request, "t").is_ok());
    assert!(matches!(check_request_text(request, "u"), Err(ProbeError::WrongPath)));
    let answer = "HTTP/1.1 204 No Content\r\nX-Net-Sentinel-Probe: t\r\n\r\n";
    assert!(check_answer_text(answer, "t").is_ok());
    assert!(matches!(check_answer_text(answer, "u"), Err(ProbeError::AnswerUnmarked)));
}

#[test]
fn requests_that_were_read() {
    let mut config = AppConfig::default();
    let registry = ActionRegistry::<Nothing>::new();
    let request = |text: &str| ParsedRequest::parse(text).unwrap();
    let forwarded = handle_request(request("GET http://a.test/ HTTP/1.1"), 7, &config, &registry);
    assert!(matches!(forwarded, Ok(Handling::Forward { head_end: 7, .. })));
    let tunnel = handle_request(request("CONNECT a.test:443"), 7, &config, &registry);
    assert!(matches!(tunnel, Ok(Handling::Tunnel { authority, .. }) if authority == "a.test:443"));
    config.blacklist[0].target = MatchTarget::Host;
    config.blacklist[0].pattern = "a.test".into();
    let blocked = handle_request(request("CONNECT a.test:443"), 7, &config, &registry);
    assert!(matches!(blocked, Ok(Handling::Blocked(_))));
}

#[test]
fn standard_kinds() {
    let expected = [
        (StandardKind::PopupImage, "popup_image", ActionSurface::InAppCard),
        (StandardKind::PlayAudio, "play_audio", ActionSurface::LocalAudio),
        (StandardKind::ServeHtml, "serve_html", ActionSurface::BrowserPage),
    ];
    for (kind, name, surface) in expected {
        assert_eq!((kind.kind_name(), kind.kind_surface()), (name, surface));
    }
}
