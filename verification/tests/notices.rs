use net_sentinel::events::{
    ActionExecutionStatus, ActionExecutionSummary, ActionSurface, ImagePresentation, ImageSource,
    InterceptionProtocol,
};
use net_sentinel::groups::ActionEventGroup;
use net_sentinel::notices::{
    action_notice_key, key_of, refresh_latest, show_block, tray_icon_image, tray_tooltip, Notices,
    Timed, Told,
};
use net_sentinel::shell::{Page, Shell};

const SECOND: u64 = 1_000_000_000;

fn summary(status: ActionExecutionStatus) -> ActionExecutionSummary {
    ActionExecutionSummary {
        action_id: "a".into(),
        kind: "popup_image".into(),
        status,
        surface: ActionSurface::InAppCard,
        error: None,
    }
}

fn group(rule_id: &str) -> ActionEventGroup {
    let mut group = ActionEventGroup::preview(summary(ActionExecutionStatus::Succeeded), 5);
    group.rule_id = rule_id.into();
    group
}

fn image(duration_ms: u64) -> Option<ImagePresentation> {
    Some(ImagePresentation { source: ImageSource::BuiltinBlocked, duration_ms })
}

#[test]
fn alike_blocks_are_told_once() {
    let mut told = Told::new();
    assert!(told.tell("k".into(), 0));
    assert!(!told.tell("k".into(), 30 * SECOND));
    assert!(!told.tell("k".into(), 60 * SECOND));
    assert!(told.tell("k".into(), 90 * SECOND + 1));
    assert!(told.tell("other".into(), 90 * SECOND + 1));
}

#[test]
fn key_of_a_block() {
    let results = [summary(ActionExecutionStatus::Failed)];
    assert_eq!(
        key_of("r", "h", InterceptionProtocol::Https, &[]),
        "h\u{1f}r\u{1f}Https\u{1f}[]"
    );
    let key = action_notice_key("r", "http://Host.test/x", InterceptionProtocol::Http, &results);
    assert!(key.starts_with("host.test\u{1f}r\u{1f}Http\u{1f}[{\"action_id\":\"a\""));
    let key = action_notice_key("r", "nothing", InterceptionProtocol::Unknown, &[]);
    assert_eq!(key, "unknown\u{1f}r\u{1f}Unknown\u{1f}[]");
}

#[test]
fn card_is_shown_for_news() {
    let mut notices = Notices::new();
    let timed = notices.blocked("k".into(), 0, Some(group("r")), image(900), false, false).unwrap();
    assert_eq!((timed.generation, timed.duration_ms), (1, 900));
    assert_eq!(notices.unread, 1);
    let again = notices.blocked("k".into(), SECOND, Some(group("s")), None, false, false);
    assert!(again.is_none());
    assert_eq!(notices.unread, 1);
    let toast = notices.toast.as_ref().unwrap();
    assert_eq!(toast.group.rule_id, "s");
    assert_eq!(toast.image.as_ref().unwrap().duration_ms, 900);
}

#[test]
fn hidden_window_shows_no_card() {
    let mut notices = Notices::new();
    assert!(notices.blocked("k".into(), 0, Some(group("r")), None, true, true).is_none());
    assert!(notices.toast.is_none());
    assert_eq!(notices.unread, 1);
}

#[test]
fn looking_at_the_responses_clears_them() {
    let mut notices = Notices::new();
    notices.blocked("k".into(), 0, Some(group("r")), None, false, false);
    assert!(notices.blocked("l".into(), 1, Some(group("r")), None, true, false).is_none());
    assert!(notices.toast.is_none());
    assert_eq!((notices.unread, notices.generation), (0, 2));
}

#[test]
fn block_without_a_group_is_not_shown() {
    let mut notices = Notices::new();
    assert!(notices.blocked("k".into(), 0, None, None, false, false).is_none());
    assert_eq!(notices.unread, 0);
    let later = notices.blocked("k".into(), SECOND, Some(group("r")), None, false, false);
    assert!(later.is_none());
    assert_eq!(notices.unread, 0);
}

#[test]
fn duration_of_a_card() {
    let mut notices = Notices::new();
    assert_eq!(notices.show_toast(group("r"), None).duration_ms, 4500);
    assert_eq!(notices.show_toast(group("r"), image(0)).duration_ms, 750);
    assert_eq!(notices.show_toast(group("r"), image(60000)).duration_ms, 60000);
}

#[test]
fn old_card_does_not_hide_a_new_one() {
    let mut notices = Notices::new();
    let first = notices.show_toast(group("r"), None).generation;
    let second = notices.show_toast(group("s"), None).generation;
    assert!(!notices.hide_toast(first));
    assert_eq!(notices.toast.as_ref().unwrap().group.rule_id, "s");
    assert!(notices.hide_toast(second));
    assert!(notices.toast.is_none());
}

#[test]
fn numbers_of_cards_go_round() {
    let mut notices = Notices::new();
    notices.generation = u64::MAX;
    notices.unread = u32::MAX;
    assert_eq!(
        notices.blocked("k".into(), 0, Some(group("r")), None, false, false).unwrap().generation,
        0
    );
    assert_eq!(notices.unread, u32::MAX);
    notices.clear_unread();
    assert_eq!(notices.generation, 1);
}

#[test]
fn latest_group_takes_the_outcomes() {
    let mut groups = vec![group("r"), group("s")];
    let mut failed = summary(ActionExecutionStatus::Failed);
    failed.error = Some("why".into());
    refresh_latest(&mut groups, &[failed]);
    assert_eq!(groups[0].action_results[0].error.as_deref(), Some("why"));
    assert_eq!(groups[1].action_results[0].status, ActionExecutionStatus::Succeeded);
    let mut none: Vec<ActionEventGroup> = vec![];
    refresh_latest(&mut none, &[]);
    assert!(none.is_empty());
}

#[test]
fn words_of_the_tray() {
    assert_eq!(tray_tooltip(0), "Net Sentinel · 无未读响应");
    assert_eq!(tray_tooltip(1), "Net Sentinel · 1 条未读响应");
    assert_eq!(tray_tooltip(99), "Net Sentinel · 99 条未读响应");
    assert_eq!(tray_tooltip(100), "Net Sentinel · 99+ 条未读响应");
}

#[test]
fn icon_of_the_tray() {
    for unread in [false, true] {
        let image = tray_icon_image(unread);
        assert_eq!(image.len(), 32 * 32 * 4);
        for y in 0..32usize {
            for x in 0..32usize {
                let dx = x as f32 - 15.5;
                let dy = y as f32 - 15.5;
                let badge_dx = x as f32 - 25.0;
                let badge_dy = y as f32 - 7.0;
                let badge = unread && badge_dx * badge_dx + badge_dy * badge_dy <= 30.25;
                let expected: [u8; 4] = if badge {
                    [205, 57, 57, 255]
                } else if (dx * dx + dy * dy).sqrt() < 14.0 {
                    if (x as i32 - y as i32).abs() < 3 {
                        [255, 104, 126, 255]
                    } else {
                        [74, 85, 150, 255]
                    }
                } else {
                    [0, 0, 0, 0]
                };
                let start = (y * 32 + x) * 4;
                assert_eq!(image[start..start + 4], expected, "{x} {y}");
            }
        }
    }
}

fn block(
    shell: &mut Shell,
    notices: &mut Notices,
    groups: &mut Vec<ActionEventGroup>,
    now: u64,
) -> Option<Timed> {
    let mut failed = summary(ActionExecutionStatus::Failed);
    failed.error = Some("e".into());
    let url = "http://Host.test/x";
    let protocol = InterceptionProtocol::Http;
    show_block(shell, notices, groups, "r", url, protocol, &[failed], image(900), now)
}

#[test]
fn block_is_shown_everywhere() {
    let mut shell = Shell::new(false, false);
    let mut notices = Notices::new();
    let mut groups = vec![group("r"), group("s")];
    let timed = block(&mut shell, &mut notices, &mut groups, 0).unwrap();
    assert_eq!((timed.generation, timed.duration_ms), (notices.generation, 900));
    assert_eq!(groups[0].action_results[0].error.as_deref(), Some("e"));
    assert_eq!(groups[1].action_results[0].error, None);
    let card = notices.toast.as_ref().unwrap();
    assert_eq!(card.group.action_results[0].error.as_deref(), Some("e"));
    assert_eq!(notices.unread, 1);
    assert_eq!(shell.recent, ["拦截 · r · 1 个结果 · http://Host.test/x"]);
    assert_eq!(block(&mut shell, &mut notices, &mut groups, SECOND), None);
    assert_eq!((notices.unread, shell.recent.len()), (1, 2));
}

#[test]
fn block_while_nobody_or_somebody_looks() {
    let mut shell = Shell::new(false, true);
    let mut notices = Notices::new();
    let mut groups = vec![group("r")];
    assert_eq!(block(&mut shell, &mut notices, &mut groups, 0), None);
    assert_eq!((notices.unread, notices.toast.is_none()), (1, true));
    shell.window_hidden = false;
    shell.page = Page::Actions;
    assert_eq!(block(&mut shell, &mut notices, &mut groups, 61 * SECOND), None);
    assert_eq!(notices.unread, 0);
    shell.page = Page::Rules;
    assert_eq!(block(&mut shell, &mut notices, &mut Vec::new(), 200 * SECOND), None);
    assert_eq!((notices.unread, shell.recent.len()), (0, 3));
}
