use net_sentinel::config::{MatchMode, MatchTarget, Rule};
use net_sentinel::globs::is_shallow;
use net_sentinel::rules::{RequestFacts, RuleError};

fn request() -> RequestFacts {
    RequestFacts {
        method: "GET".into(),
        host: "news.example.com".into(),
        url: "http://news.example.com/private?a=1".into(),
        path: "/private?a=1".into(),
        headers: vec![("User-Agent".into(), "TestBot".into())],
    }
}

fn rule(target: MatchTarget, mode: MatchMode, pattern: &str) -> Rule {
    Rule {
        id: "test".into(),
        enabled: true,
        target,
        mode,
        pattern: pattern.into(),
        methods: vec![],
        header_name: None,
        actions: vec![],
    }
}

fn hit(rule: &Rule, request: &RequestFacts) -> bool {
    net_sentinel::rules::matches(rule, request).unwrap()
}

#[test]
fn host_glob_matches() {
    assert!(hit(&rule(MatchTarget::Host, MatchMode::Glob, "*.example.com"), &request()));
}

#[test]
fn method_filter_is_respected() {
    let mut candidate = rule(MatchTarget::Path, MatchMode::Contains, "private");
    candidate.methods = vec!["POST".into()];
    assert!(!hit(&candidate, &request()));
}

#[test]
fn named_header_matches() {
    let mut candidate = rule(MatchTarget::Header, MatchMode::Contains, "testbot");
    candidate.header_name = Some("user-agent".into());
    assert!(hit(&candidate, &request()));
}

#[test]
fn disabled_rule_never_matches() {
    let mut candidate = rule(MatchTarget::Host, MatchMode::Contains, "example");
    assert!(hit(&candidate, &request()));
    candidate.enabled = false;
    assert!(!hit(&candidate, &request()));
    candidate.mode = MatchMode::Regex;
    candidate.pattern = "(".into();
    assert!(!hit(&candidate, &request()));
}

#[test]
fn method_filter_ignores_case() {
    let mut candidate = rule(MatchTarget::Path, MatchMode::Contains, "private");
    candidate.methods = vec!["POST".into(), "get".into()];
    assert!(hit(&candidate, &request()));
}

#[test]
fn every_target_and_mode() {
    assert!(hit(&rule(MatchTarget::Host, MatchMode::Exact, "NEWS.example.COM"), &request()));
    assert!(!hit(&rule(MatchTarget::Host, MatchMode::Exact, "example.com"), &request()));
    assert!(hit(
        &rule(MatchTarget::Url, MatchMode::Exact, "http://news.example.com/private?a=1"),
        &request()
    ));
    assert!(hit(&rule(MatchTarget::Path, MatchMode::Contains, "PRIVATE?A"), &request()));
    assert!(hit(&rule(MatchTarget::Path, MatchMode::Glob, "/priv*"), &request()));
    assert!(!hit(&rule(MatchTarget::Path, MatchMode::Glob, "priv*"), &request()));
    assert!(hit(&rule(MatchTarget::Url, MatchMode::Regex, r"a=\d$"), &request()));
    assert!(!hit(&rule(MatchTarget::Url, MatchMode::Regex, "PRIVATE"), &request()));
    assert!(hit(&rule(MatchTarget::Url, MatchMode::Regex, "(?i)PRIVATE"), &request()));
    assert!(hit(&rule(MatchTarget::Header, MatchMode::Exact, "user-agent: testbot"), &request()));
}

#[test]
fn unicode_case_makes_no_difference() {
    let mut facts = request();
    facts.path = "/GRÖSSE/ΟΔΟΣ".into();
    assert!(hit(&rule(MatchTarget::Path, MatchMode::Contains, "/größe".replace("ß", "ss").as_str()), &facts));
    assert!(hit(&rule(MatchTarget::Path, MatchMode::Contains, "ΟΔΟΣ"), &facts));
}

#[test]
fn other_header_is_not_looked_at() {
    let mut candidate = rule(MatchTarget::Header, MatchMode::Contains, "testbot");
    candidate.header_name = Some("Accept".into());
    assert!(!hit(&candidate, &request()));
}

#[test]
fn tunnel_shows_only_its_target() {
    let facts = RequestFacts {
        method: "connect".into(),
        host: "news.example.com".into(),
        url: "https://news.example.com:443/".into(),
        path: "/".into(),
        headers: vec![("User-Agent".into(), "TestBot".into())],
    };
    assert!(hit(&rule(MatchTarget::Host, MatchMode::Exact, "news.example.com"), &facts));
    assert!(hit(&rule(MatchTarget::Url, MatchMode::Contains, "news.example.com:443"), &facts));
    assert!(!hit(&rule(MatchTarget::Path, MatchMode::Exact, "/"), &facts));
    assert!(!hit(&rule(MatchTarget::Header, MatchMode::Contains, "testbot"), &facts));
}

#[test]
fn invalid_glob_is_an_error() {
    let result = net_sentinel::rules::matches(
        &rule(MatchTarget::Host, MatchMode::Glob, "[a"),
        &request(),
    );
    let error = result.unwrap_err();
    assert!(matches!(&error, RuleError::Glob { rule, .. } if rule == "test"));
    assert!(error.message().starts_with("规则 test 的 glob 无效: "));
}

#[test]
fn nested_glob_is_refused() {
    let pattern = format!("{}a{}", "{".repeat(300), "}".repeat(300));
    let result = net_sentinel::rules::matches(
        &rule(MatchTarget::Host, MatchMode::Glob, &pattern),
        &request(),
    );
    assert!(matches!(result, Err(RuleError::GlobTooLarge { rule }) if rule == "test"));
}

#[test]
fn invalid_regex_is_an_error() {
    let result =
        net_sentinel::rules::matches(&rule(MatchTarget::Host, MatchMode::Regex, "("), &request());
    let error = result.unwrap_err();
    assert!(matches!(&error, RuleError::Regex { rule, .. } if rule == "test"));
    assert!(error.message().starts_with("规则 test 的正则表达式无效: "));
    assert!(error.message().contains("unclosed group"));
}

#[test]
fn text_of_a_glob_that_is_too_large() {
    let error = RuleError::GlobTooLarge { rule: "r".into() };
    assert_eq!(error.message(), "规则 r 的 glob 无效: 表达式过大");
}

fn too_large(pattern: &str) -> bool {
    let result = net_sentinel::rules::matches(
        &rule(MatchTarget::Host, MatchMode::Glob, pattern),
        &request(),
    );
    matches!(result, Err(RuleError::GlobTooLarge { rule }) if rule == "test")
}

fn nested(levels: usize) -> String {
    format!("{}{}", "{".repeat(levels), "}".repeat(levels))
}

#[test]
fn very_deep_glob_is_refused() {
    let levels = 1_000_000;
    assert!(too_large(&nested(levels)));
    let hidden = "{[}]".repeat(levels);
    assert!(too_large(&format!("{hidden}{}", "}".repeat(levels))));
    let escaped = "{\\}".repeat(levels);
    assert!(too_large(&format!("{escaped}{}", "}".repeat(levels))));
    assert!(is_shallow(&nested(1000)));
    assert!(!is_shallow(&nested(1001)));
    assert!(!is_shallow(&format!("[]{{]{{a,{}}}", nested(1000))));
}

#[test]
fn hollow_levels_make_no_expression() {
    for levels in [251, 1000] {
        let hollow = rule(MatchTarget::Host, MatchMode::Glob, &nested(levels));
        let mut facts = request();
        assert!(!hit(&hollow, &facts));
        facts.host = String::new();
        assert!(hit(&hollow, &facts));
    }
}

#[test]
fn braces_that_open_nothing() {
    let mut facts = request();
    facts.host = "{".repeat(2000);
    let literal = rule(MatchTarget::Host, MatchMode::Glob, &"[{]".repeat(2000));
    assert!(hit(&literal, &facts));
    let escaped = rule(MatchTarget::Host, MatchMode::Glob, &"\\{".repeat(2000));
    if std::path::is_separator('\\') {
        assert!(net_sentinel::rules::matches(&escaped, &facts).is_err());
    } else {
        assert!(hit(&escaped, &facts));
    }
    let unclosed = rule(MatchTarget::Host, MatchMode::Glob, &"{".repeat(2000));
    let error = net_sentinel::rules::matches(&unclosed, &facts).unwrap_err();
    assert!(error.message().contains("unclosed alternate group"));
}

#[test]
fn alternatives_side_by_side_are_not_nested() {
    let many = "{news,mail}".repeat(2000);
    assert!(!hit(&rule(MatchTarget::Host, MatchMode::Glob, &many), &request()));
    let negated = "[!{][]{]".repeat(300);
    assert!(!hit(&rule(MatchTarget::Host, MatchMode::Glob, &negated), &request()));
    assert!(hit(
        &rule(MatchTarget::Host, MatchMode::Glob, "{news,{mail,{blog,chat}}}.example.com"),
        &request()
    ));
}

#[test]
fn backslash_in_a_glob() {
    let mut facts = request();
    let starred = rule(MatchTarget::Host, MatchMode::Glob, "A\\*b");
    facts.host = "a*b".into();
    let escaped = !std::path::is_separator('\\');
    assert_eq!(hit(&starred, &facts), escaped);
    facts.host = "a/x/b".into();
    assert_eq!(hit(&starred, &facts), !escaped);
    facts.host = "axb".into();
    assert!(!hit(&starred, &facts));
    facts.host = "a\\b".into();
    assert!(hit(&rule(MatchTarget::Host, MatchMode::Glob, "a?b"), &facts));
    let broken = rule(MatchTarget::Host, MatchMode::Glob, "[");
    assert!(matches!(
        net_sentinel::rules::matches(&broken, &facts),
        Err(RuleError::Glob { .. })
    ));
}

#[test]
fn raised_letters_make_no_difference() {
    let facts = request();
    let mut raised = request();
    raised.host = raised.host.to_ascii_uppercase();
    raised.url = raised.url.to_ascii_uppercase();
    raised.path = raised.path.to_ascii_uppercase();
    raised.headers = vec![("USER-AGENT".into(), "TESTBOT".into())];
    for mode in [MatchMode::Exact, MatchMode::Contains, MatchMode::Glob] {
        for (target, pattern) in [
            (MatchTarget::Host, "news.example.com"),
            (MatchTarget::Url, "http://news.example.com/private?a=1"),
            (MatchTarget::Path, "/private?a=1"),
            (MatchTarget::Header, "user-agent: testbot"),
            (MatchTarget::Host, "mail.example.com"),
        ] {
            let lower = rule(target, mode, pattern);
            let upper = rule(target, mode, &pattern.to_ascii_uppercase());
            let expected = !pattern.starts_with("mail");
            assert_eq!(hit(&lower, &facts), expected);
            assert_eq!(hit(&upper, &facts), expected);
            assert_eq!(hit(&lower, &raised), expected);
        }
    }
}

#[test]
fn broken_pattern_is_found_where_it_is_compared() {
    let mut facts = request();
    let mut broken = rule(MatchTarget::Header, MatchMode::Glob, "[");
    assert!(net_sentinel::rules::matches(&broken, &facts).is_err());
    broken.header_name = Some("Accept".into());
    assert!(!hit(&broken, &facts));
    broken.header_name = Some("user-agent".into());
    assert!(net_sentinel::rules::matches(&broken, &facts).is_err());
    facts.method = "CONNECT".into();
    assert!(!hit(&broken, &facts));
    broken.target = MatchTarget::Host;
    assert!(net_sentinel::rules::matches(&broken, &facts).is_err());
    broken.enabled = false;
    assert!(!hit(&broken, &facts));
}
