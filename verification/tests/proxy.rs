use net_sentinel::actions::{
    ActionContext, ActionHandler, ActionOutput, ActionRegistry, HtmlResponse,
};
use net_sentinel::config::{
    ActionDefinition, AppConfig, MatchMode, MatchTarget, NetworkMode, Params, Rule,
};
use net_sentinel::events::{
    ActionExecutionStatus, ActionSurface, InterceptionProtocol, UiEvent,
};
use net_sentinel::http::{
    find_header_end, header_value, HeaderBuffer, HttpError, ParsedRequest, ReadProgress,
};
use net_sentinel::intercept::{handle_client, BlockReport, Handling, ProxyError};
use net_sentinel::probe::{
    after_probe, check_probe_answer, check_probe_request, probe_answer, probe_outcome,
    probe_request, probe_token, ProbeError, ProbeNext,
};
use net_sentinel::response::{blocked_response, domain_of, html_escape, html_response};
use net_sentinel::route::{
    connect_address, outbound_route, parse_upstream, probe_report, probe_upstream,
    split_authority, OutboundRoute, RouteError,
};
use net_sentinel::service::{Clients, ServiceEvent};
use net_sentinel::tunnel::{
    check_connect_response, connect_request, dial_request, dial_tunnel, forward_head,
    remaining_body, socks_next, socks_start, tunnel_established, tunnel_outcome, Handshake,
    SocksError, SocksState, TunnelError, REQUEST_PORT, TUNNEL_PORT,
};

/// The kinds of action of the application, with a page of their own.
enum Standard {
    Image,
    Audio,
    Html,
}

const PAGE: &str = "<html><title>Net Sentinel</title><script>play()</script></html>";

impl ActionHandler for Standard {
    fn kind(&self) -> &'static str {
        match self {
            Standard::Image => "popup_image",
            Standard::Audio => "play_audio",
            Standard::Html => "serve_html",
        }
    }

    fn surface(&self) -> ActionSurface {
        match self {
            Standard::Image => ActionSurface::InAppCard,
            Standard::Audio => ActionSurface::LocalAudio,
            Standard::Html => ActionSurface::BrowserPage,
        }
    }

    fn execute(
        &self,
        context: &ActionContext,
        definition: &ActionDefinition,
    ) -> Result<ActionOutput, String> {
        let missing = || Err("missing".to_string());
        match self {
            Standard::Image => net_sentinel::actions::popup_image(
                definition,
                Err("missing".to_string()),
            ),
            Standard::Audio => net_sentinel::actions::play_audio(
                context,
                definition,
                net_sentinel::actions::Playback::Started,
            ),
            Standard::Html => net_sentinel::actions::serve_html(
                definition,
                PAGE,
                Err("missing".to_string()),
                missing(),
            ),
        }
    }
}

fn standard() -> ActionRegistry<Standard> {
    let mut registry = ActionRegistry::new();
    registry.register(Standard::Image);
    registry.register(Standard::Audio);
    registry.register(Standard::Html);
    registry
}

fn host_rule(id: &str, pattern: &str, actions: Vec<String>) -> Rule {
    Rule {
        id: id.into(),
        enabled: true,
        target: MatchTarget::Host,
        mode: MatchMode::Exact,
        pattern: pattern.into(),
        methods: vec![],
        header_name: None,
        actions,
    }
}

fn blocked(request: &[u8], config: &AppConfig) -> BlockReport {
    match handle_client(request, config, &standard()) {
        Ok(Handling::Blocked(report)) => report,
        other => panic!("expected blocked: {other:?}"),
    }
}

struct MatrixAction {
    kind: &'static str,
    surface: ActionSurface,
}

impl ActionHandler for MatrixAction {
    fn kind(&self) -> &'static str {
        self.kind
    }

    fn surface(&self) -> ActionSurface {
        self.surface
    }

    fn execute(
        &self,
        _context: &ActionContext,
        _definition: &ActionDefinition,
    ) -> Result<ActionOutput, String> {
        let page = if self.kind == "serve_html" {
            Some(HtmlResponse { body: "<h1>matrix html</h1>".into() })
        } else {
            None
        };
        Ok(ActionOutput { html_response: page, image: None })
    }
}

#[test]
fn parses_absolute_http_request() {
    let parsed = ParsedRequest::parse(
        "GET http://example.com:8080/a?q=1 HTTP/1.1\r\nHost: example.com:8080\r\n\r\n",
    )
    .unwrap();
    assert_eq!(parsed.authority, "example.com:8080");
    assert_eq!(parsed.path, "/a?q=1");
}

#[test]
fn parses_connect_for_domain_matching() {
    let parsed = ParsedRequest::parse(
        "CONNECT blocked.example:443 HTTP/1.1\r\nHost: blocked.example:443\r\n\r\n",
    )
    .unwrap();
    assert_eq!(parsed.facts().host, "blocked.example");
    assert_eq!(parsed.facts().url, "https://blocked.example:443/");
}

#[test]
fn parses_windows_socks_proxy_syntax() {
    assert!(matches!(
        parse_upstream("socks=127.0.0.1:7891", false).unwrap(),
        OutboundRoute::Socks5(address) if address == "127.0.0.1:7891"
    ));
}

#[test]
fn upstream_probe_rejects_proxy_loop_before_connecting() {
    let listen = "127.0.0.1:8877";
    let error =
        probe_upstream(NetworkMode::Http, Some("http://127.0.0.1:8877"), listen).unwrap_err();
    assert!(error.message().contains("代理回环"));
}

#[test]
fn endpoint_probe_rejects_a_port_without_http_forwarding() {
    let error = check_connect_response(b"").unwrap_err();
    assert!(error.message().contains("无效状态"));
    let probe = probe_upstream(NetworkMode::Http, Some("127.0.0.1:1"), "127.0.0.1:8877").unwrap();
    let text = probe_report(probe, Err(error.message())).unwrap_err();
    assert!(text.contains("GitHub HTTPS"));
}

#[test]
fn endpoint_probe_accepts_a_connect_tunnel_response() {
    check_connect_response(b"HTTP/1.1 200 Connection Established\r\n\r\n").unwrap();
}

#[test]
fn proxy_service_stays_running_after_local_forward_probe() {
    let mut config = AppConfig::default();
    config.proxy.network_mode = NetworkMode::Http;
    config.proxy.upstream_proxy = Some("127.0.0.1:1".into());
    config.blacklist = vec![host_rule("block-loopback", "127.0.0.1", vec![])];

    let token = probe_token(4242, 1_700_000_000_123_456_789);
    let request = probe_request("127.0.0.1:40123", &token);
    let handling = handle_client(request.as_bytes(), &config, &standard()).unwrap();
    let Handling::Forward { request: parsed, head_end, route } = handling else {
        panic!("expected forward: {handling:?}");
    };
    assert_eq!(head_end, request.len());
    assert!(matches!(route, OutboundRoute::Direct));
    let forwarded = forward_head(&parsed, &route);
    check_probe_request(forwarded.as_bytes(), &token).unwrap();
    check_probe_answer(probe_answer(&token).as_bytes(), &token).unwrap();
}

#[test]
fn connect_tunnel_forwards_delayed_tls_bytes_from_nonblocking_listener() {
    let mut config = AppConfig::default();
    config.proxy.network_mode = NetworkMode::Http;
    config.proxy.upstream_proxy = Some("127.0.0.1:7890".into());
    config.blacklist.clear();
    let request = b"CONNECT github.test:443 HTTP/1.1\r\nHost: github.test:443\r\n\r\n";
    let Ok(Handling::Tunnel { authority, route }) = handle_client(request, &config, &standard())
    else {
        panic!("expected tunnel");
    };
    let dial = dial_tunnel(&route, &authority);
    assert_eq!(dial.address, "127.0.0.1:7890");
    assert_eq!(dial.handshake, Handshake::HttpConnect);
    assert!(connect_request(&authority).starts_with("CONNECT github.test:443 HTTP/1.1\r\n"));
    assert!(tunnel_established().starts_with("HTTP/1.1 200 Connection Established\r\n"));
    assert!(tunnel_outcome(4, 4).is_ok());
}

#[test]
fn rule_change_disconnects_existing_tunnel_and_applies_on_reconnect() {
    let mut config = AppConfig::default();
    config.proxy.network_mode = NetworkMode::Http;
    config.proxy.upstream_proxy = Some("127.0.0.1:7890".into());
    config.blacklist.clear();
    let request = b"CONNECT dynamic.test:443 HTTP/1.1\r\nHost: dynamic.test:443\r\n\r\n";
    let mut clients = Clients::new();
    assert!(matches!(
        handle_client(request, &config, &standard()),
        Ok(Handling::Tunnel { .. })
    ));
    clients.track("existing");

    config.blacklist.push(host_rule("dynamic-block", "dynamic.test", vec![]));
    assert_eq!(clients.drain().len(), 1);
    assert!(clients.drain().is_empty());
    let report = blocked(request, &config);
    assert!(report.response.starts_with("HTTP/1.1 403 Forbidden"));
}

#[test]
fn blacklist_returns_403_and_emits_event() {
    let config = AppConfig {
        blacklist: vec![host_rule("block-test", "blocked.test", vec![])],
        ..AppConfig::default()
    };
    let report =
        blocked(b"GET http://blocked.test/a HTTP/1.1\r\nHost: blocked.test\r\n\r\n", &config);
    let response = &report.response;
    assert!(response.starts_with("HTTP/1.1 403 Forbidden"));
    assert!(response.contains("blocked.test"));
    assert!(response.contains("block-test"));
    assert!(response.contains("connection_block"));
    assert!(response.contains("history.back()"));
    assert!(matches!(
        report.event(),
        UiEvent::Blocked { rule_id, .. } if rule_id == "block-test"
    ));
}

#[test]
fn html_action_replaces_plain_http_block_page() {
    let config = AppConfig {
        blacklist: vec![host_rule("html-test", "game.test", vec!["blocked-game".into()])],
        ..AppConfig::default()
    };
    let report = blocked(b"GET http://game.test/ HTTP/1.1\r\nHost: game.test\r\n\r\n", &config);
    assert!(report.response.starts_with("HTTP/1.1 200 OK"));
    assert!(report.response.contains("Net Sentinel"));
    assert!(report.response.contains("<script>"));
}

#[test]
fn html_action_does_not_attempt_https_certificate_injection() {
    let mut config = AppConfig {
        blacklist: vec![host_rule("https-html-test", "secure.test", vec!["blocked-game".into()])],
        ..AppConfig::default()
    };
    config
        .actions
        .iter_mut()
        .find(|action| action.id == "blocked-game")
        .unwrap()
        .params
        .insert("source".into(), "Z:\\definitely-missing\\blocked.html".into());
    let report = blocked(
        b"CONNECT secure.test:443 HTTP/1.1\r\nHost: secure.test:443\r\n\r\n",
        &config,
    );
    assert!(report.response.starts_with("HTTP/1.1 403 Forbidden"));
    assert!(!report.response.contains("<script>"));
    let UiEvent::Blocked { protocol, action_results, .. } = report.event() else {
        panic!("expected blocked event");
    };
    assert_eq!(protocol, InterceptionProtocol::Https);
    let html = action_results.iter().find(|result| result.kind == "serve_html").unwrap();
    assert_eq!(html.status, ActionExecutionStatus::Unsupported);
    assert!(html.error.as_deref().unwrap().contains("不能读取或注入"));
}

#[test]
fn only_first_successful_html_action_is_used() {
    let mut config = AppConfig::default();
    let mut params = Params::new();
    params.insert("source".into(), "Z:\\never-read\\second.html".into());
    config.actions.push(ActionDefinition {
        id: "second-html".into(),
        kind: "serve_html".into(),
        enabled: true,
        params,
    });
    config.blacklist = vec![host_rule(
        "two-html",
        "two-html.test",
        vec!["blocked-game".into(), "second-html".into()],
    )];
    let report =
        blocked(b"GET http://two-html.test/ HTTP/1.1\r\nHost: two-html.test\r\n\r\n", &config);
    assert!(report.response.starts_with("HTTP/1.1 200 OK"));
    let UiEvent::Blocked { action_results, .. } = report.event() else {
        panic!("expected blocked event");
    };
    assert_eq!(
        action_results.iter().find(|result| result.action_id == "blocked-game").unwrap().status,
        ActionExecutionStatus::Succeeded
    );
    assert_eq!(
        action_results.iter().find(|result| result.action_id == "second-html").unwrap().status,
        ActionExecutionStatus::Skipped
    );
}

#[test]
fn action_execution_matrix_covers_http_and_https_surfaces() {
    for (kind, surface) in [
        ("popup_image", ActionSurface::InAppCard),
        ("play_audio", ActionSurface::LocalAudio),
        ("serve_html", ActionSurface::BrowserPage),
    ] {
        for (protocol, request) in [
            (
                InterceptionProtocol::Http,
                "GET http://matrix.test/ HTTP/1.1\r\nHost: matrix.test\r\n\r\n",
            ),
            (
                InterceptionProtocol::Https,
                "CONNECT matrix.test:443 HTTP/1.1\r\nHost: matrix.test:443\r\n\r\n",
            ),
        ] {
            let action_id = format!("matrix-{kind}");
            let config = AppConfig {
                actions: vec![ActionDefinition {
                    id: action_id.clone(),
                    kind: kind.into(),
                    enabled: true,
                    params: Params::new(),
                }],
                blacklist: vec![host_rule("matrix-rule", "matrix.test", vec![action_id.clone()])],
                ..AppConfig::default()
            };
            let mut registry = ActionRegistry::new();
            registry.register(MatrixAction { kind, surface });
            let Ok(Handling::Blocked(report)) =
                handle_client(request.as_bytes(), &config, &registry)
            else {
                panic!("expected blocked");
            };
            let UiEvent::Blocked { protocol: actual_protocol, action_results, .. } =
                report.event()
            else {
                panic!("expected blocked event");
            };
            assert_eq!(actual_protocol, protocol);
            let result =
                action_results.iter().find(|result| result.action_id == action_id).unwrap();
            assert_eq!(result.surface, surface);
            assert_eq!(
                result.status,
                if protocol == InterceptionProtocol::Https && kind == "serve_html" {
                    ActionExecutionStatus::Unsupported
                } else {
                    ActionExecutionStatus::Succeeded
                },
                "{protocol:?} × {kind}"
            );
        }
    }
}

#[test]
fn allowed_http_request_is_forwarded() {
    let mut config = AppConfig::default();
    config.blacklist.clear();
    let request = "GET http://127.0.0.1:9123/hello?q=1 HTTP/1.1\r\nHost: 127.0.0.1:9123\r\n\r\n";
    let Ok(Handling::Forward { request: parsed, route, .. }) =
        handle_client(request.as_bytes(), &config, &standard())
    else {
        panic!("expected forward");
    };
    let head = forward_head(&parsed, &route);
    assert!(head.starts_with("GET /hello?q=1 HTTP/1.1\r\n"));
    assert!(head.ends_with("\r\n\r\n"));
    assert_eq!(dial_request(&route, &parsed.authority).address, "127.0.0.1:9123");
}

#[test]
fn default_rule_blocks_its_path_only() {
    let config = AppConfig::default();
    let report = blocked(b"GET http://example.com/blocked HTTP/1.1\r\n\r\n", &config);
    assert_eq!(report.rule_id, "demo-blocked-path");
    assert!(matches!(
        handle_client(b"GET http://example.com/ HTTP/1.1\r\n\r\n", &config, &standard()),
        Ok(Handling::Forward { .. })
    ));
}

#[test]
fn tunnel_is_not_blocked_by_its_path_or_headers() {
    let mut path = host_rule("path", "/", vec![]);
    path.target = MatchTarget::Path;
    let mut header = host_rule("header", "Host: a.test:443", vec![]);
    header.target = MatchTarget::Header;
    let config = AppConfig { blacklist: vec![path, header], ..AppConfig::default() };
    assert!(matches!(
        handle_client(
            b"CONNECT a.test:443 HTTP/1.1\r\nHost: a.test:443\r\n\r\n",
            &config,
            &standard()
        ),
        Ok(Handling::Tunnel { .. })
    ));
    let report = blocked(b"GET http://a.test/ HTTP/1.1\r\n\r\n", &config);
    assert_eq!(report.rule_id, "path");
}

#[test]
fn header_end_is_found() {
    assert_eq!(find_header_end(b"GET / HTTP/1.1\r\n\r\nbody"), Some(18));
    assert_eq!(find_header_end(b"\r\n\r\n\r\n\r\n"), Some(4));
    assert_eq!(find_header_end(b"\r\n\r"), None);
    assert_eq!(find_header_end(b""), None);
}

#[test]
fn header_end_does_not_move_with_what_follows() {
    let mut bytes = b"A\r\n\r\n".to_vec();
    assert_eq!(find_header_end(&bytes), Some(5));
    bytes.extend_from_slice(b"B\r\n\r\n");
    assert_eq!(find_header_end(&bytes), Some(5));
}

#[test]
fn headers_are_received_piece_by_piece() {
    let mut buffer = HeaderBuffer::new();
    assert_eq!(buffer.feed(b"GET / HTTP/1.1\r\n"), ReadProgress::More);
    assert_eq!(buffer.feed(b"\r"), ReadProgress::More);
    assert_eq!(buffer.feed(b"\nrest"), ReadProgress::Complete);
    assert_eq!(buffer.bytes, b"GET / HTTP/1.1\r\n\r\nrest");
}

#[test]
fn receiving_ends_with_the_sender() {
    let mut buffer = HeaderBuffer::new();
    assert_eq!(buffer.feed(b"abc"), ReadProgress::More);
    assert_eq!(buffer.feed(b""), ReadProgress::Complete);
    assert_eq!(buffer.bytes, b"abc");
}

#[test]
fn head_without_end_is_too_large() {
    let mut buffer = HeaderBuffer::new();
    let piece = [b'a'; 4096];
    for _ in 0..15 {
        assert_eq!(buffer.feed(&piece), ReadProgress::More);
    }
    assert_eq!(buffer.feed(&piece), ReadProgress::TooLarge);
    assert_eq!(HttpError::HeaderTooLarge.message(), "HTTP 请求头超过 64 KiB");
}

#[test]
fn relative_target_takes_the_host_header() {
    let parsed =
        ParsedRequest::parse("POST /x?y HTTP/1.0\r\nhost:  Example.COM \r\nA: b:c\r\n\r\n").unwrap();
    assert_eq!(parsed.method, "POST");
    assert_eq!(parsed.version, "HTTP/1.0");
    assert_eq!(parsed.authority, "example.com");
    assert_eq!(parsed.url, "http://example.com/x?y");
    assert_eq!(parsed.path, "/x?y");
    assert_eq!(header_value(&parsed.headers, "a"), Some("b:c"));
    assert_eq!(header_value(&parsed.headers, "b"), None);
}

#[test]
fn missing_version_is_http_1_1() {
    let parsed = ParsedRequest::parse("GET http://a.test").unwrap();
    assert_eq!(parsed.version, "HTTP/1.1");
    assert_eq!(parsed.url, "http://a.test/");
    assert_eq!(parsed.path, "/");
}

#[test]
fn default_port_is_left_out_of_the_authority() {
    let parsed = ParsedRequest::parse("GET http://a.test:80/ HTTP/1.1\r\n\r\n").unwrap();
    assert_eq!(parsed.authority, "a.test");
}

#[test]
fn errors_of_requests() {
    let text = |header: &str| ParsedRequest::parse(header).unwrap_err().message();
    assert_eq!(text(""), "缺少 HTTP 方法");
    assert_eq!(text("  \r\nHost: a\r\n\r\n"), "缺少 HTTP 方法");
    assert_eq!(text("GET\r\n\r\n"), "缺少请求目标");
    assert_eq!(text("GET / HTTP/1.1\r\n\r\n"), "缺少 Host 头");
    assert_eq!(text("GET http:// HTTP/1.1\r\n\r\n"), "代理请求中的 URL 无效: empty host");
    assert_eq!(
        text("GET / HTTP/1.1\r\nHost: a:99999\r\n\r\n"),
        "invalid port number"
    );
}

#[test]
fn errors_of_connections() {
    let config = AppConfig::default();
    let error = |bytes: &[u8]| match handle_client(bytes, &config, &standard()) {
        Err(error) => error.message(),
        other => panic!("{other:?}"),
    };
    assert_eq!(error(b"GET / HTTP/1.1\r\n"), "HTTP 请求头不完整");
    assert!(error(b"GET /\xff HTTP/1.1\r\n\r\n").starts_with("HTTP 请求头不是 UTF-8/ASCII: "));
    assert!(error(b"GET /\xff HTTP/1.1\r\n\r\n").contains("invalid utf-8"));
    assert!(matches!(handle_client(b"", &config, &standard()), Ok(Handling::Closed)));
}

#[test]
fn first_matching_rule_decides() {
    let config = AppConfig {
        blacklist: vec![
            host_rule("other", "other.test", vec![]),
            host_rule("first", "a.test", vec![]),
            host_rule("second", "a.test", vec![]),
        ],
        ..AppConfig::default()
    };
    let report = blocked(b"GET http://a.test/ HTTP/1.1\r\n\r\n", &config);
    assert_eq!(report.rule_id, "first");
    assert_eq!(report.request, "http://a.test/");
    assert_eq!(report.protocol, InterceptionProtocol::Http);
}

#[test]
fn invalid_rule_is_passed_over() {
    let mut broken = host_rule("broken", "(", vec![]);
    broken.mode = MatchMode::Regex;
    let config = AppConfig {
        blacklist: vec![broken, host_rule("sound", "a.test", vec![])],
        ..AppConfig::default()
    };
    assert_eq!(blocked(b"GET http://a.test/ HTTP/1.1\r\n\r\n", &config).rule_id, "sound");
}

#[test]
fn actions_of_a_block_are_run_in_order() {
    let mut config = AppConfig::default();
    config.actions[0].params.insert("source".into(), "missing.png".into());
    config.actions[3].kind = "unknown_kind".into();
    config.blacklist = vec![host_rule(
        "r",
        "a.test",
        vec![
            "blocked-picture".into(),
            "no-such-action".into(),
            "imported-music".into(),
            "blocked-sound".into(),
            "blocked-game".into(),
        ],
    )];
    let report = blocked(b"GET http://a.test/ HTTP/1.1\r\n\r\n", &config);
    let seen: Vec<(&str, ActionExecutionStatus, ActionSurface)> = report
        .action_results
        .iter()
        .map(|result| (result.action_id.as_str(), result.status, result.surface))
        .collect();
    assert_eq!(
        seen,
        vec![
            ("blocked-picture", ActionExecutionStatus::Failed, ActionSurface::InAppCard),
            ("imported-music", ActionExecutionStatus::Skipped, ActionSurface::LocalAudio),
            ("blocked-sound", ActionExecutionStatus::Succeeded, ActionSurface::LocalAudio),
            ("blocked-game", ActionExecutionStatus::Failed, ActionSurface::InAppCard),
            ("connection-block", ActionExecutionStatus::Succeeded, ActionSurface::ConnectionBlock),
        ]
    );
    assert_eq!(report.errors.len(), 2);
    assert_eq!(
        report.errors[0],
        "Action blocked-picture 执行失败：无法读取图片 Action 文件 missing.png: missing"
    );
    assert_eq!(report.errors[1], "Action blocked-game 执行失败：未注册 Action 类型: unknown_kind");
    assert_eq!(report.action_results[1].error.as_deref(), Some("Action 已停用"));
    assert!(report.image.is_none());
}

#[test]
fn long_errors_are_shortened() {
    let mut config = AppConfig::default();
    config.actions[0].params.insert("source".into(), "图".repeat(400));
    config.blacklist = vec![host_rule("r", "a.test", vec!["blocked-picture".into()])];
    let report = blocked(b"GET http://a.test/ HTTP/1.1\r\n\r\n", &config);
    assert_eq!(report.action_results[0].error.as_ref().unwrap().chars().count(), 240);
    assert!(report.errors[0].chars().count() > 400);
}

#[test]
fn content_length_counts_bytes() {
    let response = html_response("é");
    assert!(response.contains("Content-Length: 2\r\n"));
    assert!(response.ends_with("\r\n\r\né"));
    let blocked = blocked_response("a", "b", &[]);
    let (head, body) = blocked.split_once("\r\n\r\n").unwrap();
    assert!(head.contains(&format!("Content-Length: {}\r\n", body.len())));
}

#[test]
fn pages_escape_what_they_show() {
    assert_eq!(html_escape("<a href=\"x\">'&amp;"), "&lt;a href=&quot;x&quot;&gt;&#39;&amp;amp;");
    assert_eq!(html_escape("plain 文本"), "plain 文本");
    let page = blocked_response("<script>", "a&b", &[]);
    assert!(page.contains("&lt;script&gt;"));
    assert!(page.contains("a&amp;b"));
    assert!(!page.contains("<script>"));
}

#[test]
fn domain_of_a_blocked_url() {
    assert_eq!(domain_of("http://Example.com:8080/x"), "example.com");
    assert_eq!(domain_of("no url"), "未知域名");
    assert_eq!(domain_of("data:text"), "未知域名");
}

#[test]
fn upstream_settings() {
    let http = |value: &str| match parse_upstream(value, false).unwrap() {
        OutboundRoute::Http(address) => address,
        other => panic!("{other:?}"),
    };
    let socks = |value: &str, force: bool| match parse_upstream(value, force).unwrap() {
        OutboundRoute::Socks5(address) => address,
        other => panic!("{other:?}"),
    };
    assert_eq!(http(" http://127.0.0.1:7890 "), "127.0.0.1:7890");
    assert_eq!(http("http=10.0.0.1:1;https=10.0.0.2:2"), "10.0.0.1:1");
    assert_eq!(http(" ; ;proxy:8080"), "proxy:8080");
    assert_eq!(socks("socks5://a:1080", false), "a:1080");
    assert_eq!(socks("socks://a", false), "a");
    assert_eq!(socks("SOCKS = a:1", false), "a:1");
    assert_eq!(socks("a:1080", true), "a:1080");
    assert!(matches!(parse_upstream(" ; ", false), Err(RouteError::EmptyUpstream)));
}

#[test]
fn routes_of_the_modes() {
    let mut proxy = AppConfig::default().proxy;
    assert!(matches!(outbound_route(&proxy, "a.test"), Ok(OutboundRoute::Direct)));
    proxy.upstream_proxy = Some("127.0.0.1:7890".into());
    assert!(matches!(outbound_route(&proxy, "a.test"), Ok(OutboundRoute::Http(_))));
    proxy.network_mode = NetworkMode::Direct;
    assert!(matches!(outbound_route(&proxy, "a.test"), Ok(OutboundRoute::Direct)));
    proxy.network_mode = NetworkMode::Socks5;
    assert!(matches!(outbound_route(&proxy, "a.test"), Ok(OutboundRoute::Socks5(_))));
    proxy.upstream_proxy = Some(String::new());
    assert!(matches!(outbound_route(&proxy, "a.test"), Err(RouteError::NoSocksUpstream)));
    proxy.network_mode = NetworkMode::Http;
    assert!(matches!(outbound_route(&proxy, "a.test"), Err(RouteError::NoHttpUpstream)));
    assert_eq!(RouteError::NoHttpUpstream.message(), "HTTP 上游代理尚未配置");
    assert_eq!(RouteError::NoSocksUpstream.message(), "SOCKS5 上游代理尚未配置");
    assert_eq!(RouteError::EmptyUpstream.message(), "上游代理地址为空");
}

#[test]
fn routes_do_not_loop() {
    let mut proxy = AppConfig::default().proxy;
    let error = outbound_route(&proxy, "127.0.0.1:8877").unwrap_err();
    assert_eq!(error.message(), "检测到代理回环：127.0.0.1:8877");
    proxy.upstream_proxy = Some("http://127.0.0.1:8877".into());
    assert!(matches!(outbound_route(&proxy, "a.test"), Err(RouteError::Loop { .. })));
    let config = AppConfig { proxy, blacklist: vec![], ..AppConfig::default() };
    assert!(matches!(
        handle_client(b"GET http://a.test/ HTTP/1.1\r\n\r\n", &config, &standard()),
        Err(ProxyError::Route(RouteError::Loop { .. }))
    ));
}

#[test]
fn reports_of_the_upstream_check() {
    let label = |mode, upstream| probe_upstream(mode, upstream, "127.0.0.1:8877").unwrap().label;
    assert_eq!(label(NetworkMode::Direct, None), "直接系统路由");
    assert_eq!(label(NetworkMode::Auto, Some("  ")), "自动路由（TUN / VPN / 系统网络）");
    assert_eq!(label(NetworkMode::Auto, Some("a:1")), "自动上游 a:1");
    assert_eq!(label(NetworkMode::Http, Some("a:1")), "HTTP 上游 a:1");
    assert_eq!(label(NetworkMode::Socks5, Some("a:1")), "SOCKS5 上游 a:1");
    assert!(probe_upstream(NetworkMode::Http, Some(" "), "x").is_err());
    let probe = probe_upstream(NetworkMode::Direct, None, "x").unwrap();
    assert_eq!(probe_report(probe, Ok(())).unwrap(), "直接系统路由 已通过端到端 HTTP 检查");
    let probe = probe_upstream(NetworkMode::Direct, None, "x").unwrap();
    assert_eq!(
        probe_report(probe, Err("e".into())).unwrap_err(),
        "系统路由无法连接 GitHub HTTPS: e"
    );
    let probe = probe_upstream(NetworkMode::Socks5, Some("a:1"), "x").unwrap();
    assert_eq!(
        probe_report(probe, Err("e".into())).unwrap_err(),
        "SOCKS5 上游无法连接 GitHub HTTPS: e"
    );
}

#[test]
fn addresses_and_ports() {
    assert_eq!(connect_address("a.test", 80), "a.test:80");
    assert_eq!(connect_address("a.test:8080", 80), "a.test:8080");
    assert_eq!(connect_address("a.test:x", 80), "a.test:x:80");
    assert_eq!(connect_address("a.test:65536", 80), "a.test:65536:80");
    assert_eq!(split_authority("a.test:8080", 80), ("a.test".to_string(), 8080));
    assert_eq!(split_authority("a.test", 80), ("a.test".to_string(), 80));
    assert_eq!(split_authority("[::1]:443", 80), ("[::1]".to_string(), 443));
}

#[test]
fn connections_along_routes() {
    let direct = OutboundRoute::Direct;
    let http = OutboundRoute::Http("proxy".into());
    let socks = OutboundRoute::Socks5("proxy:9".into());
    let tunnel = dial_tunnel(&direct, "a.test");
    assert_eq!((tunnel.address.as_str(), tunnel.handshake), ("a.test:443", Handshake::Immediate));
    let request = dial_request(&direct, "a.test");
    assert_eq!((request.address.as_str(), request.handshake), ("a.test:80", Handshake::Immediate));
    let request = dial_request(&http, "a.test");
    assert_eq!((request.address.as_str(), request.handshake), ("proxy:8080", Handshake::Immediate));
    let tunnel = dial_tunnel(&http, "a.test");
    assert_eq!(
        (tunnel.address.as_str(), tunnel.handshake),
        ("proxy:8080", Handshake::HttpConnect)
    );
    let tunnel = dial_tunnel(&socks, "a.test");
    assert_eq!((tunnel.address.as_str(), tunnel.handshake), ("proxy:9", Handshake::Socks5));
    assert_eq!((TUNNEL_PORT, REQUEST_PORT), (443, 80));
}

#[test]
fn tunnels_through_http_proxies() {
    assert_eq!(
        connect_request("a:443"),
        "CONNECT a:443 HTTP/1.1\r\nHost: a:443\r\nUser-Agent: NetSentinel/0.1\r\n\
         Proxy-Connection: Keep-Alive\r\nConnection: Keep-Alive\r\n\r\n"
    );
    assert!(matches!(
        check_connect_response(b"HTTP/1.1 407 Auth\r\n\r\n"),
        Err(TunnelError::Refused { line }) if line == "HTTP/1.1 407 Auth"
    ));
    assert!(matches!(
        check_connect_response(b"HTTP/1.1 abc\r\n"),
        Err(TunnelError::InvalidStatus { .. })
    ));
    let refused = TunnelError::Refused { line: "x".into() };
    assert_eq!(refused.message(), "上游 HTTP 代理拒绝 CONNECT：x");
    assert!(check_connect_response(b"HTTP/1.1 200 \xff\r\n").is_ok());
}

#[test]
fn tunnel_without_answer_has_failed() {
    assert!(tunnel_outcome(0, 0).is_ok());
    assert!(tunnel_outcome(10, 1).is_ok());
    assert_eq!(
        tunnel_outcome(10, 0).unwrap_err(),
        "HTTPS 隧道已上传 10 字节，但上游未返回任何数据"
    );
}

#[test]
fn socks_handshake_with_a_name() {
    let step = socks_start();
    assert_eq!(step.send, vec![5, 1, 0]);
    assert_eq!(step.receive, 2);
    let step = socks_next(step.state, "a.test:8443", 443, &[5, 0]).unwrap();
    assert_eq!(step.send, b"\x05\x01\x00\x03\x06a.test\x20\xfb");
    assert_eq!((step.receive, step.state), (4, SocksState::Reply));
    let step = socks_next(step.state, "a.test:8443", 443, &[5, 0, 0, 3]).unwrap();
    assert_eq!((step.receive, step.state), (1, SocksState::NameLength));
    let step = socks_next(step.state, "a.test:8443", 443, &[9]).unwrap();
    assert_eq!((step.receive, step.state), (11, SocksState::Rest));
    let step = socks_next(step.state, "a.test:8443", 443, &[0; 11]).unwrap();
    assert_eq!((step.receive, step.state), (0, SocksState::Connected));
}

#[test]
fn socks_addresses_and_errors() {
    let reply = |kind: u8| socks_next(SocksState::Reply, "a", 80, &[5, 0, 0, kind]);
    assert_eq!(reply(1).unwrap().receive, 6);
    assert_eq!(reply(4).unwrap().receive, 18);
    assert_eq!(reply(9).unwrap_err(), SocksError::UnknownAddress);
    assert_eq!(
        socks_next(SocksState::Reply, "a", 80, &[5, 7, 0, 1]).unwrap_err(),
        SocksError::Refused { code: 7 }
    );
    assert_eq!(
        socks_next(SocksState::Method, "a", 80, &[5, 255]).unwrap_err(),
        SocksError::NoMethod
    );
    let long = "x".repeat(256);
    assert_eq!(
        socks_next(SocksState::Method, &long, 80, &[5, 0]).unwrap_err(),
        SocksError::NameTooLong
    );
    assert!(socks_next(SocksState::Method, &long[1..], 80, &[5, 0]).is_ok());
    assert_eq!(SocksError::Refused { code: 7 }.message(), "SOCKS5 上游连接失败，状态码 7");
    assert_eq!(SocksError::NoMethod.message(), "SOCKS5 上游不支持无认证连接");
    assert_eq!(SocksError::NameTooLong.message(), "SOCKS5 目标域名过长");
    assert_eq!(SocksError::UnknownAddress.message(), "SOCKS5 上游返回未知地址类型");
}

#[test]
fn forwarded_head_is_rewritten() {
    let parsed = ParsedRequest::parse(
        "GET http://a.test/x HTTP/1.1\r\nHost: a.test\r\nproxy-connection: keep-alive\r\n\
         Connection: keep-alive\r\nAccept: */*\r\n\r\n",
    )
    .unwrap();
    assert_eq!(
        forward_head(&parsed, &OutboundRoute::Direct),
        "GET /x HTTP/1.1\r\nHost: a.test\r\nAccept: */*\r\nConnection: close\r\n\r\n"
    );
    assert!(forward_head(&parsed, &OutboundRoute::Socks5("p".into())).starts_with("GET /x "));
    assert!(
        forward_head(&parsed, &OutboundRoute::Http("p".into())).starts_with("GET http://a.test/x ")
    );
}

#[test]
fn rest_of_the_body() {
    let headers = vec![("content-length".to_string(), "10".to_string())];
    assert_eq!(remaining_body(&headers, 4), 6);
    assert_eq!(remaining_body(&headers, 10), 0);
    assert_eq!(remaining_body(&headers, 11), 0);
    assert_eq!(remaining_body(&[], 0), 0);
    let headers = vec![("Content-Length".to_string(), "ten".to_string())];
    assert_eq!(remaining_body(&headers, 0), 0);
}

#[test]
fn own_requests_are_recognised_by_their_mark() {
    let probe = |header: &str| ParsedRequest::parse(header).unwrap().is_internal_probe();
    assert!(probe(
        "GET http://127.0.0.1:5/__net-sentinel-probe/t HTTP/1.1\r\nx-net-sentinel-probe: t\r\n\r\n"
    ));
    assert!(!probe(
        "GET http://127.0.0.1:5/__net-sentinel-probe/t HTTP/1.1\r\nx-net-sentinel-probe: u\r\n\r\n"
    ));
    assert!(!probe("GET http://127.0.0.1:5/__net-sentinel-probe/t HTTP/1.1\r\n\r\n"));
    assert!(!probe(
        "GET http://a.test:5/__net-sentinel-probe/t HTTP/1.1\r\nX-Net-Sentinel-Probe: t\r\n\r\n"
    ));
}

#[test]
fn texts_of_the_local_check() {
    assert_eq!(probe_token(255, 4096), "ff-1000");
    assert_eq!(
        probe_request("127.0.0.1:9", "t"),
        "GET http://127.0.0.1:9/__net-sentinel-probe/t HTTP/1.1\r\nHost: 127.0.0.1:9\r\n\
         X-Net-Sentinel-Probe: t\r\nConnection: close\r\n\r\n"
    );
    assert_eq!(
        probe_answer("t"),
        "HTTP/1.1 204 No Content\r\nX-Net-Sentinel-Probe: t\r\nContent-Length: 0\r\n\
         Connection: close\r\n\r\n"
    );
}

#[test]
fn errors_of_the_local_check() {
    let seen = |text: &str| check_probe_request(text.as_bytes(), "t").unwrap_err();
    assert!(matches!(seen("GET /other HTTP/1.1\r\n\r\n"), ProbeError::WrongPath));
    assert!(matches!(
        seen("GET /__net-sentinel-probe/t HTTP/1.1\r\n\r\n"),
        ProbeError::WrongMark
    ));
    let answered = |text: &str| check_probe_answer(text.as_bytes(), "t").unwrap_err();
    assert!(matches!(
        answered("HTTP/1.1 502 Bad\r\n\r\n"),
        ProbeError::WrongStatus { line } if line == "HTTP/1.1 502 Bad"
    ));
    assert!(matches!(answered("HTTP/1.1 204 No\r\n\r\n"), ProbeError::AnswerUnmarked));
    assert_eq!(ProbeError::WrongPath.message(), "本机验证端点收到的路径不匹配");
    assert_eq!(ProbeError::WrongMark.message(), "本机验证端点收到的校验标记不匹配");
    assert_eq!(
        ProbeError::WrongStatus { line: "x".into() }.message(),
        "本机代理返回异常状态：x"
    );
    assert_eq!(ProbeError::AnswerUnmarked.message(), "本机代理验证响应缺少正确的校验标记");
}

#[test]
fn local_check_is_tried_three_times() {
    let failed = || Err("e".to_string());
    assert!(matches!(after_probe(1, "l", failed()), ProbeNext::Retry));
    assert!(matches!(after_probe(2, "l", failed()), ProbeNext::Retry));
    assert!(matches!(
        after_probe(3, "l", failed()),
        ProbeNext::Failed(text) if text == "本机代理连续 3 次转发检查失败: e"
    ));
    assert!(matches!(
        after_probe(2, "l", Ok(())),
        ProbeNext::Passed(text) if text == "本机代理 l 已完成转发检查"
    ));
    assert_eq!(probe_outcome(Err("a".into()), Err("b".into())), Err("a".to_string()));
    assert_eq!(probe_outcome(Ok(()), Err("b".into())), Err("b".to_string()));
    assert_eq!(probe_outcome(Ok(()), Ok(())), Ok(()));
}

#[test]
fn clients_are_numbered_and_forgotten() {
    let mut clients = Clients::new();
    let a = clients.track("a");
    let b = clients.track("b");
    assert_eq!((a, b), (1, 2));
    clients.forget(a);
    clients.forget(77);
    let c = clients.track("c");
    assert_eq!(c, 3);
    let mut left = clients.drain();
    left.sort();
    assert_eq!(left, vec!["b", "c"]);
}

#[test]
fn events_of_the_service() {
    let running = ServiceEvent::Listening { listen: "l".into() };
    assert!(matches!(
        running.event(),
        UiEvent::ProxyStatus { running: true, detail } if detail == "正在监听 l"
    ));
    assert!(matches!(
        ServiceEvent::Stopped.event(),
        UiEvent::ProxyStatus { running: false, detail } if detail == "代理已停止"
    ));
    assert!(matches!(
        ServiceEvent::Failed { error: "e".into() }.event(),
        UiEvent::ProxyStatus { running: false, detail } if detail == "启动失败：e"
    ));
    let failed = ServiceEvent::ConnectionFailed { peer: "p".into(), error: "e".into() };
    assert!(matches!(failed.event(), UiEvent::Error(text) if text == "代理连接 p 出错：e"));
    let lost = ServiceEvent::NotTracked { peer: "p".into(), error: "e".into() };
    assert_eq!(lost.message(), "无法跟踪代理连接 p：e");
    let thread = ServiceEvent::NoConnectionThread { peer: "p".into(), error: "e".into() };
    assert_eq!(thread.message(), "无法启动代理连接线程 p：e");
}
