use net_sentinel::actions::{ActionContext, ActionHandler, ActionOutput, ActionRegistry};
use net_sentinel::chart::SeriesPoint;
use net_sentinel::config::{
    ActionDefinition, AnalyticsConfig, AppConfig, MatchMode, MatchTarget, NetworkMode, Rule,
};
use net_sentinel::editor::{DraftError, RuleEditor};
use net_sentinel::events::{
    ActionExecutionStatus, ActionExecutionSummary, ActionSurface, ImagePresentation, ImageSource,
};
use net_sentinel::pages::{
    action_choices, active_actions, active_rules, chart_total, data_settings, listener_texts,
    protection_switch, result_stands_out, rule_count_label, rule_rows, startup_card, takeover_card,
    title_bar, toast_host, trend_chart, unread_badge,
};
use net_sentinel::preview::{test_audio, test_image, PicturePreview};
use net_sentinel::settings::{
    action_resource, action_resource_label, action_status_label, action_surface_label,
    network_mode_label, page_label, rule_kind_label, toast_headline, toast_status, Resource,
};
use net_sentinel::shell::{Page, Shell};

fn rule(id: &str, actions: &[&str]) -> Rule {
    Rule {
        id: id.into(),
        enabled: true,
        target: MatchTarget::Host,
        mode: MatchMode::Contains,
        pattern: "a.test".into(),
        methods: vec![],
        header_name: None,
        actions: actions.iter().map(|action| action.to_string()).collect(),
    }
}

fn draft(id: &str, pattern: &str) -> RuleEditor {
    let mut editor = RuleEditor::new();
    editor.id = id.into();
    editor.pattern = pattern.into();
    editor
}

#[test]
fn first_draft() {
    let editor = RuleEditor::new();
    assert!(editor.selected.is_none() && editor.enabled && editor.actions.is_empty());
    assert_eq!((editor.target, editor.mode), (MatchTarget::Host, MatchMode::Contains));
    assert_eq!(editor.result, "输入 URL 后可在保存前验证规则");
}

#[test]
fn rule_is_loaded_with_all_its_actions() {
    let mut editor = RuleEditor::new();
    let rules = [rule("r", &["x", "y"])];
    editor.select_rule(&rules, 0);
    assert_eq!(editor.selected, Some(0));
    assert_eq!((editor.id.as_str(), editor.pattern.as_str()), ("r", "a.test"));
    assert_eq!(editor.actions, vec!["x", "y"]);
    assert_eq!(editor.result, "规则已载入，可编辑、测试并保存");
    let saved = editor.draft_rule().unwrap();
    assert_eq!(saved.actions, rules[0].actions);
    editor.select_rule(&rules, 1);
    assert_eq!(editor.selected, Some(0));
}

#[test]
fn new_rule_starts_from_the_settings() {
    let mut editor = draft("old", "old");
    editor.target = MatchTarget::Header;
    let mut config = AppConfig::default();
    config.actions[0].enabled = false;
    editor.new_rule(&config);
    assert_eq!((editor.id.as_str(), editor.pattern.as_str()), ("rule-3", ""));
    assert_eq!(editor.actions, vec!["blocked-sound"]);
    assert_eq!(editor.target, MatchTarget::Host);
    assert_eq!(editor.result, "正在创建新规则");
}

#[test]
fn actions_are_bound_and_let_go() {
    let mut editor = RuleEditor::new();
    editor.toggle_draft_action("a".into());
    editor.toggle_draft_action("b".into());
    assert_eq!(editor.actions, vec!["a", "b"]);
    editor.toggle_draft_action("a".into());
    assert_eq!(editor.actions, vec!["b"]);
    editor.toggle_draft_action("c".into());
    editor.toggle_draft_action("c".into());
    assert_eq!(editor.actions, vec!["b"]);
}

#[test]
fn drafts_are_checked() {
    assert!(matches!(draft(" ", "p").draft_rule(), Err(DraftError::EmptyId)));
    assert!(matches!(draft("r", "\t").draft_rule(), Err(DraftError::EmptyPattern)));
    assert_eq!(DraftError::EmptyId.message(), "规则名称不能为空");
    assert_eq!(DraftError::EmptyPattern.message(), "匹配内容不能为空");
    let mut editor = draft(" r ", " ( ");
    let rule = editor.draft_rule().unwrap();
    assert_eq!((rule.id.as_str(), rule.pattern.as_str()), ("r", "("));
    editor.mode = MatchMode::Regex;
    let refused = editor.draft_rule().unwrap_err();
    assert!(matches!(refused, DraftError::Rule(_)));
    assert!(refused.message().contains("r"));
}

#[test]
fn drafts_are_saved_under_their_own_name() {
    let mut rules = vec![rule("r", &[])];
    let mut editor = draft("r", "p");
    assert_eq!(editor.save_rule(&mut rules), None);
    assert_eq!(editor.result, "无法保存：规则名称必须唯一");
    assert_eq!(rules.len(), 1);
    editor.id = "s".into();
    assert_eq!(editor.save_rule(&mut rules), Some(1));
    assert_eq!((rules[1].id.as_str(), rules[1].pattern.as_str()), ("s", "p"));
    editor.rule_saved(1, Ok(0));
    assert_eq!(editor.selected, Some(1));
    assert_eq!(editor.result, "规则已保存并立即生效");
    editor.pattern = "q".into();
    assert_eq!(editor.save_rule(&mut rules), Some(1));
    assert_eq!((rules.len(), rules[1].pattern.as_str()), (2, "q"));
    editor.rule_saved(1, Ok(3));
    assert_eq!(editor.result, "规则已保存并立即生效；已刷新 3 条现有连接");
    editor.rule_saved(1, Err("e".into()));
    assert_eq!(editor.result, "保存失败：e");
    editor.id = String::new();
    assert_eq!(editor.save_rule(&mut rules), None);
    assert_eq!(editor.result, "无法保存：规则名称不能为空");
}

#[test]
fn draft_of_a_rule_that_is_gone() {
    let mut rules = vec![rule("r", &[])];
    let mut editor = draft("", "p");
    editor.selected = Some(4);
    assert_eq!(editor.save_rule(&mut rules), None);
    assert_eq!(editor.result, "无法保存：规则名称不能为空");
    editor.id = "r".into();
    assert_eq!(editor.save_rule(&mut rules), None);
    assert_eq!(editor.result, "无法保存：规则名称必须唯一");
    assert_eq!(editor.try_save_rule(&mut rules), Some(None));
    assert_eq!(rules.len(), 1);
    editor.id = "s".into();
    editor.mode = MatchMode::Glob;
    editor.pattern = "[".into();
    assert_eq!(editor.save_rule(&mut rules), None);
    let said = editor.result.clone();
    assert!(said.starts_with("无法保存：规则 s 的 glob 无效: "));
    editor.result = String::new();
    assert_eq!(editor.try_save_rule(&mut rules), Some(None));
    assert_eq!(editor.result, said);
    editor.pattern = "p".into();
    assert_eq!(editor.try_save_rule(&mut rules), None);
    assert_eq!((editor.result.as_str(), editor.selected), (said.as_str(), Some(4)));
    assert_eq!((rules.len(), rules[0].id.as_str()), (1, "r"));
    editor.selected = Some(0);
    assert_eq!(editor.try_save_rule(&mut rules), Some(Some(0)));
    assert_eq!((rules.len(), rules[0].id.as_str()), (1, "s"));
}

#[test]
fn glob_with_a_backslash_is_accepted() {
    let mut editor = draft("r", "a\\*b");
    editor.mode = MatchMode::Glob;
    editor.actions = vec!["one".into(), "two".into()];
    let rule = editor.draft_rule().unwrap();
    assert_eq!(rule.pattern, "a\\*b");
    assert_eq!(rule.actions, ["one", "two"]);
}

#[test]
fn rules_are_deleted() {
    let mut rules = vec![rule("r", &["a"]), rule("s", &[])];
    let mut editor = RuleEditor::new();
    assert!(!editor.delete_rule(&mut rules));
    assert_eq!(editor.result, "新规则尚未保存，无需删除");
    editor.select_rule(&rules, 0);
    assert!(editor.delete_rule(&mut rules));
    assert_eq!(rules.len(), 1);
    assert_eq!(rules[0].id, "s");
    editor.rule_deleted(Err("e".into()));
    assert_eq!((editor.result.as_str(), editor.selected), ("删除失败：e", Some(0)));
    editor.rule_deleted(Ok(0));
    assert_eq!(editor.result, "规则已删除并立即生效");
    assert!(editor.selected.is_none() && editor.id.is_empty() && editor.actions.is_empty());
    editor.rule_deleted(Ok(2));
    assert_eq!(editor.result, "规则已删除并立即生效；已刷新 2 条现有连接");
}

#[test]
fn drafts_are_tried_out() {
    let mut editor = draft("r", "a.test");
    editor.test_rule(" http://A.test/x ");
    assert_eq!(editor.result, "测试结果：命中，将被拦截");
    assert!(result_stands_out(&editor));
    editor.test_rule("http://b.test/");
    assert_eq!(editor.result, "测试结果：未命中，将放行");
    editor.test_rule("nothing");
    assert_eq!(editor.result, "测试 URL 无效：relative URL without a base");
    assert!(!result_stands_out(&editor));
    editor.target = MatchTarget::Path;
    editor.pattern = "/x?y=1".into();
    editor.test_rule("http://a.test/x?y=1");
    assert_eq!(editor.result, "测试结果：命中，将被拦截");
    editor.target = MatchTarget::Header;
    editor.test_rule("http://a.test/");
    assert_eq!(editor.result, "Header 规则需要通过实际请求验证");
    editor.pattern = String::new();
    editor.test_rule("http://a.test/");
    assert_eq!(editor.result, "规则无效：匹配内容不能为空");
}

#[test]
fn settings_go_round() {
    let mut config = AppConfig::default();
    let mut modes = vec![];
    for _ in 0..4 {
        config.cycle_network_mode();
        modes.push(config.proxy.network_mode);
    }
    assert_eq!(
        modes,
        vec![NetworkMode::Direct, NetworkMode::Http, NetworkMode::Socks5, NetworkMode::Auto]
    );
    let mut days = vec![];
    for _ in 0..3 {
        config.cycle_detail_retention();
        config.cycle_aggregate_retention();
        days.push((
            config.analytics.detailed_retention_days,
            config.analytics.aggregate_retention_days,
        ));
    }
    assert_eq!(days, vec![(30, 180), (1, 30), (7, 90)]);
    config.toggle_detailed_logging();
    assert!(!config.analytics.detailed_logging);
    config.set_upstream("  a:1 ");
    assert_eq!(config.proxy.upstream_proxy.as_deref(), Some("a:1"));
    config.set_upstream(" ");
    assert_eq!(config.proxy.upstream_proxy, None);
}

#[test]
fn resources_of_actions() {
    let mut config = AppConfig::default();
    assert!(matches!(action_resource(&config, "blocked-picture"), Resource::Builtin));
    assert!(matches!(action_resource(&config, "imported-music"), Resource::Builtin));
    assert!(matches!(action_resource(&config, "missing"), Resource::Missing));
    config.actions[0].enabled = false;
    config.set_action_source("blocked-picture", "dir/a.png");
    assert!(config.actions[0].enabled);
    let resource = action_resource(&config, "blocked-picture");
    assert!(matches!(&resource, Resource::File(path) if path == "dir/a.png"));
    assert_eq!(action_resource_label(&resource, Some("a.png".into())), "● a.png");
    assert_eq!(action_resource_label(&resource, None), "● dir/a.png");
    assert_eq!(action_resource_label(&Resource::Builtin, None), "● 内置默认");
    assert_eq!(action_resource_label(&Resource::Missing, None), "未配置");
    config.set_action_source("missing", "x");
    assert_eq!(config.actions.len(), 4);
}

#[test]
fn labels() {
    assert_eq!(network_mode_label(NetworkMode::Auto), "自动：系统代理 / TUN / VPN");
    assert_eq!(network_mode_label(NetworkMode::Direct), "直接：当前系统路由");
    assert_eq!(network_mode_label(NetworkMode::Http), "指定 HTTP 上游");
    assert_eq!(network_mode_label(NetworkMode::Socks5), "指定 SOCKS5 上游");
    assert_eq!(action_status_label(ActionExecutionStatus::Succeeded), "成功");
    assert_eq!(action_status_label(ActionExecutionStatus::Failed), "失败");
    assert_eq!(action_status_label(ActionExecutionStatus::Unsupported), "不支持");
    assert_eq!(action_status_label(ActionExecutionStatus::Skipped), "已跳过");
    assert_eq!(action_surface_label(ActionSurface::BrowserPage), "浏览器页面");
    assert_eq!(action_surface_label(ActionSurface::InAppCard), "应用内卡片");
    assert_eq!(action_surface_label(ActionSurface::LocalAudio), "本机音频");
    assert_eq!(action_surface_label(ActionSurface::ConnectionBlock), "连接阻断");
    assert_eq!(page_label(Page::Overview), "Protection Overview");
    assert_eq!(page_label(Page::Rules), "");
    assert_eq!(page_label(Page::Actions), "Configure Response Actions");
    assert_eq!(page_label(Page::Settings), "Application Settings");
    assert_eq!(rule_kind_label(MatchTarget::Url, MatchMode::Glob), "URL · glob");
    assert_eq!(rule_kind_label(MatchTarget::Header, MatchMode::Exact), "HEADER · exact");
    assert_eq!(toast_headline(1), "Action 响应");
    assert_eq!(toast_headline(2), "Action 响应 · 2 次");
    assert_eq!(toast_status(&[]), "已记录");
    let summary = ActionExecutionSummary {
        action_id: "a".into(),
        kind: "k".into(),
        status: ActionExecutionStatus::Failed,
        surface: ActionSurface::LocalAudio,
        error: None,
    };
    assert_eq!(toast_status(&[summary]), "失败 · 本机音频");
    assert_eq!(toast_host("h", false), "h");
    assert_eq!(toast_host("h", true), "详细日志已关闭");
}

#[test]
fn overview() {
    let mut shell = Shell::new(false, false);
    let model = protection_switch(&shell);
    assert_eq!((model.lively, model.status, model.action), (false, "保护已关闭", "点击启动保护"));
    shell.protection_pending = true;
    let model = protection_switch(&shell);
    assert_eq!((model.lively, model.status, model.action), (true, "正在检查网络", "正在启动保护"));
    shell.system_proxy_active = true;
    let model = protection_switch(&shell);
    assert_eq!((model.lively, model.status, model.action), (true, "保护运行中", "点击停止保护"));
    let point = |label: &str, count: u64| SeriesPoint { label: label.into(), count };
    let model = trend_chart(&[point("a", 2), point("b", 7), point("c", 0)]);
    assert_eq!((model.first.as_str(), model.last.as_str()), ("a", "c"));
    assert_eq!((model.caption, model.top), ("本机时间", 7));
    let model = trend_chart(&[point("a", 0)]);
    assert_eq!((model.caption, model.top), ("暂无数据", 1));
    assert_eq!(trend_chart(&[]).first, "");
    assert_eq!(chart_total(&[point("a", 2), point("b", 7)]), 9);
    assert_eq!(listener_texts(true), ("拦截引擎运行中", "停止监听"));
    assert_eq!(listener_texts(false), ("拦截引擎已停止", "启动监听"));
    assert_eq!(unread_badge(0), None);
    assert_eq!(unread_badge(99).as_deref(), Some("99"));
    assert_eq!(unread_badge(100).as_deref(), Some("99+"));
}

#[test]
fn rows_of_the_rules() {
    let config = AppConfig::default();
    assert_eq!((active_rules(&config.blacklist), active_actions(&config.actions)), (1, 3));
    let mut editor = RuleEditor::new();
    editor.select_rule(&config.blacklist, 1);
    let rows = rule_rows(&config.blacklist, &editor);
    assert_eq!(rows.len(), 2);
    assert_eq!((rows[0].id.as_str(), rows[0].enabled, rows[0].selected), ("demo-blocked-path", true, false));
    assert_eq!((rows[1].enabled, rows[1].selected), (false, true));
    assert_eq!(rows[1].pattern, "*.example-social.test");
    assert_eq!(rule_count_label(rows.len()), "2 条规则");
    let choices = action_choices(&config.actions, &editor);
    assert_eq!((choices[0].bound, choices[0].label.as_str()), (true, "●  blocked-picture"));
    assert_eq!((choices[3].bound, choices[3].label.as_str()), (false, "blocked-game"));
}

#[test]
fn cards_of_the_settings() {
    let card = takeover_card(true);
    assert_eq!((card.state, card.button), ("已接管", "恢复"));
    let card = takeover_card(false);
    assert_eq!((card.state, card.button), ("未接管", "安全接管"));
    let card = startup_card(true);
    assert_eq!((card.state, card.button), ("已启用", "关闭"));
    let card = startup_card(false);
    assert_eq!((card.state, card.button), ("未启用", "启用"));
    let data = data_settings(&AnalyticsConfig::default());
    assert_eq!((data.logging, data.detail_days.as_str()), ("开启", "7 天"));
    assert_eq!(data.aggregate_days, "90 天");
    let title = title_bar(Page::Settings);
    assert_eq!((title.button, title.back, title.named), ("←", true, true));
    let title = title_bar(Page::Rules);
    assert_eq!((title.button, title.back, title.named), ("⚙", false, false));
}

/// A picture that is there, and a sound that is not.
struct Trial {
    kind: &'static str,
}

impl ActionHandler for Trial {
    fn kind(&self) -> &'static str {
        self.kind
    }

    fn surface(&self) -> ActionSurface {
        ActionSurface::InAppCard
    }

    fn execute(
        &self,
        context: &ActionContext,
        definition: &ActionDefinition,
    ) -> Result<ActionOutput, String> {
        if definition.kind == "play_audio" {
            return Err(format!("{} {}", context.rule_id, context.request));
        }
        Ok(ActionOutput {
            html_response: None,
            image: Some(ImagePresentation {
                source: ImageSource::BuiltinBlocked,
                duration_ms: 1,
            }),
        })
    }
}

#[test]
fn actions_are_tried_out() {
    let mut registry = ActionRegistry::new();
    registry.register(Trial { kind: "popup_image" });
    registry.register(Trial { kind: "play_audio" });
    let mut config = AppConfig::default();
    let PicturePreview::Shown { group, image } = test_image(&registry, &config, 9) else {
        panic!("expected a picture");
    };
    assert_eq!(group.action_results[0].action_id, "blocked-picture");
    assert_eq!((group.occurred_at, image.unwrap().duration_ms), (9, 1));
    assert_eq!(
        test_audio(&registry, &config).as_deref(),
        Some("action-preview preview://play-audio")
    );
    config.actions[1].enabled = false;
    assert_eq!(test_audio(&registry, &config), None);
    config.actions[0].kind = "other".into();
    assert!(matches!(
        test_image(&registry, &config, 9),
        PicturePreview::Failed { error } if error == "未注册 Action 类型: other"
    ));
    config.actions.clear();
    assert!(matches!(test_image(&registry, &config, 9), PicturePreview::Absent));
    assert_eq!(test_audio(&registry, &config), None);
}
