use net_sentinel::analytics::{
    parse_protocol, protocol_value, results_json_text, Analytics, AnalyticsError, StoredEvent,
    ADD_PROTOCOL, ADD_REDACTED, ADD_RESULTS, CREATE_EVENTS, DELETE_EVENT, DELETE_EVENTS,
    INSERT_EVENT, SELECT_EVENTS, UPDATE_EVENT,
};
use net_sentinel::chart::{bucket_starts, ChartRange, Moment};
use net_sentinel::events::{
    ActionExecutionStatus, ActionExecutionSummary, ActionSurface, InterceptionProtocol,
};
use net_sentinel::export::csv_cell;
use net_sentinel::groups::ActionEventGroup;
use rusqlite::Connection;

/// 2023-11-14 22:13:20 UTC.
const NOW: i64 = 1_700_000_000;

fn result(id: &str, status: ActionExecutionStatus) -> ActionExecutionSummary {
    ActionExecutionSummary {
        action_id: id.into(),
        kind: "popup_image".into(),
        status,
        surface: ActionSurface::InAppCard,
        error: None,
    }
}

fn moments(range: ChartRange) -> Vec<Moment> {
    vec![Moment { hour: 7, month: 3, day: 9 }; range.bucket_count()]
}

fn total(analytics: &Analytics, range: ChartRange, now: i64) -> u64 {
    let stats = analytics.dashboard(range, now, &moments(range));
    stats.series.iter().map(|point| point.count).sum::<u64>()
}

/// An event of a rule at a time, for ordering and grouping.
fn event(id: i64, occurred_at: i64) -> StoredEvent {
    StoredEvent {
        id,
        occurred_at,
        rule_id: "rule-a".into(),
        host: "example.test".into(),
        path: "/path".into(),
        action_count: 1,
        detail_redacted: 0,
        protocol: "http".into(),
        action_results: vec![result("image", ActionExecutionStatus::Succeeded)],
        action_results_json: results_json_text(&[result(
            "image",
            ActionExecutionStatus::Succeeded,
        )]),
    }
}

fn stored(connection: &Connection) -> Vec<StoredEvent> {
    let mut statement = connection.prepare(SELECT_EVENTS).unwrap();
    let rows = statement
        .query_map([], |row| {
            Ok(StoredEvent {
                id: row.get(0)?,
                occurred_at: row.get(1)?,
                rule_id: row.get(2)?,
                host: row.get(3)?,
                path: row.get(4)?,
                action_count: row.get::<_, i64>(5)? as u64,
                detail_redacted: row.get(6)?,
                protocol: row.get(7)?,
                action_results: vec![],
                action_results_json: row.get(8)?,
            })
        })
        .unwrap();
    rows.map(|row| row.unwrap()).collect()
}

#[test]
fn records_dashboard_and_exports_without_query_strings() {
    let mut analytics = Analytics::new(vec![]);
    analytics
        .record(
            NOW,
            "rule-a",
            "http://example.test/blocked?secret=1",
            InterceptionProtocol::Http,
            &[result("image", ActionExecutionStatus::Succeeded)],
            true,
        )
        .unwrap();
    assert_eq!(total(&analytics, ChartRange::Day, NOW), 1);

    let csv = analytics.export_csv();
    assert!(csv.contains("rule-a"));
    assert!(!csv.contains("secret=1"));
    assert!(!csv.contains("error"));
}

#[test]
fn persisted_action_json_excludes_error_and_local_details() {
    let temp = tempfile::tempdir().unwrap();
    let connection = Connection::open(temp.path().join("stats.sqlite3")).unwrap();
    connection.execute_batch(CREATE_EVENTS).unwrap();
    let mut analytics = Analytics::new(vec![]);
    let mut summary = result("html", ActionExecutionStatus::Failed);
    summary.error = Some("无法读取 C:\\private\\blocked.html".into());
    let event = analytics
        .record(
            NOW,
            "rule-a",
            "http://example.test/",
            InterceptionProtocol::Http,
            &[summary],
            true,
        )
        .unwrap();
    insert(&connection, &event);
    let json: String = connection
        .query_row("SELECT action_results_json FROM interception_events LIMIT 1", [], |row| {
            row.get(0)
        })
        .unwrap();
    assert!(json.contains("action_id"));
    assert!(json.contains("surface"));
    assert!(!json.contains("error"));
    assert!(!json.contains("private"));
}

fn insert(connection: &Connection, event: &StoredEvent) {
    let columns: [&dyn rusqlite::ToSql; 9] = [
        &event.id,
        &event.occurred_at,
        &event.rule_id,
        &event.host,
        &event.path,
        &(event.action_count as i64),
        &event.detail_redacted,
        &event.protocol,
        &event.action_results_json,
    ];
    connection.execute(INSERT_EVENT, columns.as_slice()).unwrap();
}

#[test]
fn disabled_detail_logging_keeps_aggregate_only() {
    let mut analytics = Analytics::new(vec![]);
    analytics
        .record(
            NOW,
            "rule-private",
            "http://private.test/path",
            InterceptionProtocol::Http,
            &[result("image", ActionExecutionStatus::Succeeded)],
            false,
        )
        .unwrap();
    assert_eq!(total(&analytics, ChartRange::Day, NOW), 1);
    let csv = analytics.export_csv();
    assert!(!csv.contains("private.test"));
    assert!(!csv.contains("/path"));
}

#[test]
fn rolling_window_groups_consecutive_hits_but_splits_gaps_and_signatures() {
    let mut analytics = Analytics::new(vec![]);
    let success = result("image", ActionExecutionStatus::Succeeded);
    for _ in 0..3 {
        analytics
            .record(
                NOW,
                "rule-a",
                "http://example.test/path",
                InterceptionProtocol::Http,
                std::slice::from_ref(&success),
                true,
            )
            .unwrap();
    }
    analytics
        .record(
            NOW,
            "rule-a",
            "http://example.test/path",
            InterceptionProtocol::Http,
            &[result("image", ActionExecutionStatus::Failed)],
            true,
        )
        .unwrap();
    let moved = |analytics: &Analytics, id: i64, occurred_at: i64| {
        let mut events = analytics.events().clone();
        events.iter_mut().find(|event| event.id == id).unwrap().occurred_at = occurred_at;
        Analytics::new(events)
    };
    let analytics = moved(&analytics, 1, NOW - 50);
    let analytics = moved(&analytics, 2, NOW - 25);
    let analytics = moved(&analytics, 3, NOW);

    let groups = analytics.recent_action_groups(NOW, 20, 30, 7);
    assert_eq!(groups.len(), 2, "结果签名变化必须拆组");
    assert!(groups.iter().any(|group| group.hit_count == 3));

    let analytics = moved(&analytics, 1, NOW - 70);
    let groups = analytics.recent_action_groups(NOW, 20, 30, 7);
    assert_eq!(groups.len(), 3, "连续命中间隔超过 30 秒必须拆组");
}

#[test]
fn migrates_legacy_database_without_losing_rows() {
    let temp = tempfile::tempdir().unwrap();
    let path = temp.path().join("legacy.sqlite3");
    let connection = Connection::open(&path).unwrap();
    connection
        .execute_batch(
            "CREATE TABLE interception_events (
                id INTEGER PRIMARY KEY AUTOINCREMENT,
                occurred_at INTEGER NOT NULL,
                rule_id TEXT NOT NULL,
                host TEXT NOT NULL,
                path TEXT NOT NULL,
                action_count INTEGER NOT NULL,
                detail_redacted INTEGER NOT NULL DEFAULT 0
            );",
        )
        .unwrap();
    connection
        .execute(
            "INSERT INTO interception_events
             (occurred_at, rule_id, host, path, action_count, detail_redacted)
             VALUES (?1, 'legacy-rule', 'legacy.test', '/', 0, 0)",
            [NOW],
        )
        .unwrap();
    drop(connection);

    let connection = Connection::open(&path).unwrap();
    connection.execute_batch(CREATE_EVENTS).unwrap();
    assert!(connection.execute(ADD_REDACTED, []).is_err());
    assert!(connection.execute(ADD_PROTOCOL, []).is_ok());
    assert!(connection.execute(ADD_RESULTS, []).is_ok());
    let analytics = Analytics::new(stored(&connection));
    let groups = analytics.recent_action_groups(NOW, 20, 30, 7);
    assert_eq!(groups.len(), 1);
    assert_eq!(groups[0].protocol, InterceptionProtocol::Unknown);
    assert!(groups[0].action_results.is_empty());
}

#[test]
fn maintenance_redacts_details_after_seven_days_and_keeps_aggregate_count() {
    let mut analytics = Analytics::new(vec![]);
    let summary = result("image", ActionExecutionStatus::Succeeded);
    for host in ["eight-days.test", "expired.test"] {
        analytics
            .record(
                NOW,
                "rule-a",
                &format!("http://{host}/private"),
                InterceptionProtocol::Http,
                std::slice::from_ref(&summary),
                true,
            )
            .unwrap();
    }
    let mut events = analytics.events().clone();
    for event in &mut events {
        event.occurred_at = if event.id == 1 { NOW - 8 * 86_400 } else { NOW - 91 * 86_400 };
    }
    let mut analytics = Analytics::new(events);

    let done = analytics.maintain(NOW, 7, 90);
    assert_eq!(done.redacted, vec![1]);
    assert_eq!(done.removed, vec![2]);
    let rows = analytics.events();
    assert_eq!(rows.len(), 1);
    assert_eq!(rows[0].host, "已按保留策略清理");
    assert!(rows[0].path.is_empty());
    assert_eq!(rows[0].detail_redacted, 1);
}

#[test]
fn maintenance_reaches_the_database() {
    let connection = Connection::open_in_memory().unwrap();
    connection.execute_batch(CREATE_EVENTS).unwrap();
    for event in [event(1, NOW), event(2, NOW - 8 * 86_400), event(3, NOW - 91 * 86_400)] {
        insert(&connection, &event);
    }
    let mut analytics = Analytics::new(stored(&connection));
    let done = analytics.maintain(NOW, 7, 90);
    for id in &done.removed {
        connection.execute(DELETE_EVENT, [id]).unwrap();
    }
    for event in analytics.events().iter().filter(|event| done.redacted.contains(&event.id)) {
        let columns: [&dyn rusqlite::ToSql; 4] =
            [&event.id, &event.host, &event.path, &event.detail_redacted];
        connection.execute(UPDATE_EVENT, columns.as_slice()).unwrap();
    }
    let rows = stored(&connection);
    assert_eq!(rows.len(), 2);
    assert_eq!((rows[0].id, rows[0].host.as_str()), (1, "example.test"));
    assert_eq!((rows[1].id, rows[1].host.as_str()), (2, "已按保留策略清理"));
    connection.execute(DELETE_EVENTS, []).unwrap();
    assert!(stored(&connection).is_empty());
}

#[test]
fn protocols_are_kept_as_words() {
    for protocol in
        [InterceptionProtocol::Http, InterceptionProtocol::Https, InterceptionProtocol::Unknown]
    {
        assert_eq!(parse_protocol(protocol_value(protocol)), protocol);
    }
    assert_eq!(protocol_value(InterceptionProtocol::Https), "https");
    assert_eq!(parse_protocol("ftp"), InterceptionProtocol::Unknown);
}

#[test]
fn outcomes_are_kept_as_json() {
    assert_eq!(results_json_text(&[]), "[]");
    let mut quoted = result("a\"b\\c\n", ActionExecutionStatus::Unsupported);
    quoted.error = Some("kept out".into());
    let text = results_json_text(&[quoted, result("图", ActionExecutionStatus::Skipped)]);
    assert_eq!(
        text,
        "[{\"action_id\":\"a\\\"b\\\\c\\n\",\"kind\":\"popup_image\",\"status\":\"unsupported\",\
         \"surface\":\"in_app_card\"},{\"action_id\":\"图\",\"kind\":\"popup_image\",\
         \"status\":\"skipped\",\"surface\":\"in_app_card\"}]"
    );
    let parsed: serde_json::Value = serde_json::from_str(&text).unwrap();
    assert_eq!(parsed[0]["action_id"], "a\"b\\c\n");
    assert_eq!(parsed[1]["status"], "skipped");
}

#[test]
fn control_characters_are_escaped() {
    let named = result("\u{8}\t\n\u{c}\r\u{0}\u{b}\u{1f} /\u{7f}é", ActionExecutionStatus::Skipped);
    assert_eq!(
        results_json_text(&[named]),
        "[{\"action_id\":\"\\b\\t\\n\\f\\r\\u0000\\u000b\\u001f /\u{7f}é\",\
         \"kind\":\"popup_image\",\"status\":\"skipped\",\"surface\":\"in_app_card\"}]"
    );
}

#[test]
fn recorded_event_holds_what_is_asked_for() {
    let mut analytics = Analytics::new(vec![event(41, NOW)]);
    let event = analytics
        .record(NOW + 1, "r", "http://Host.test:81/a?b", InterceptionProtocol::Http, &[], true)
        .unwrap();
    assert_eq!(event.id, 42);
    assert_eq!((event.host.as_str(), event.path.as_str()), ("host.test", "/a"));
    assert_eq!((event.action_count, event.detail_redacted), (0, 0));
    let event = analytics
        .record(NOW + 2, "r", "no url", InterceptionProtocol::Unknown, &[], true)
        .unwrap();
    assert_eq!((event.host.as_str(), event.path.as_str()), ("unknown", "/"));
    let event = analytics
        .record(NOW + 3, "r", "http://a.test/", InterceptionProtocol::Https, &[], false)
        .unwrap();
    assert_eq!((event.host.as_str(), event.path.as_str()), ("已关闭详细日志", ""));
    assert_eq!((event.protocol.as_str(), event.detail_redacted), ("https", 1));
    let ids: Vec<i64> = analytics.events().iter().map(|event| event.id).collect();
    assert_eq!(ids, vec![44, 43, 42, 41]);
    analytics.clear();
    assert!(analytics.events().is_empty());
}

#[test]
fn recorded_event_forgets_errors() {
    let mut analytics = Analytics::new(vec![]);
    let mut failed = result("a", ActionExecutionStatus::Failed);
    failed.error = Some("secret".into());
    let event = analytics
        .record(NOW, "r", "http://a.test/", InterceptionProtocol::Http, &[failed], true)
        .unwrap();
    assert_eq!(event.action_results[0].error, None);
    assert_eq!(event.action_results[0].status, ActionExecutionStatus::Failed);
}

#[test]
fn numbers_of_events_run_out() {
    let mut analytics = Analytics::new(vec![event(i64::MAX, NOW)]);
    let refused = analytics.record(NOW, "r", "http://a.test/", InterceptionProtocol::Http, &[], true);
    assert!(matches!(refused, Err(AnalyticsError::Full)));
    assert_eq!(analytics.events().len(), 1);
}

#[test]
fn events_are_arranged_newest_first() {
    let analytics = Analytics::new(vec![event(1, 10), event(2, 30), event(3, 20), event(4, 30)]);
    let ids: Vec<i64> = analytics.events().iter().map(|event| event.id).collect();
    assert_eq!(ids, vec![4, 2, 3, 1]);
}

#[test]
fn groups_are_limited_and_recent() {
    let mut other = event(2, NOW - 1);
    other.rule_id = "rule-b".into();
    let old = event(3, NOW - 8 * 86_400);
    let analytics = Analytics::new(vec![event(1, NOW), other, old]);
    let groups = analytics.recent_action_groups(NOW, 20, 30, 7);
    let rules: Vec<&str> = groups.iter().map(|group| group.rule_id.as_str()).collect();
    assert_eq!(rules, vec!["rule-a", "rule-b"]);
    assert_eq!(analytics.recent_action_groups(NOW, 1, 30, 7).len(), 1);
    assert!(analytics.recent_action_groups(NOW, 0, 30, 7).is_empty());
}

#[test]
fn room_for_the_groups_is_room_for_all_events() {
    let mut other = event(2, NOW - 1);
    other.rule_id = "rule-b".into();
    let events = vec![event(1, NOW), other, event(3, NOW - 2), event(4, NOW - 3)];
    let actions: u64 = events.iter().map(|event| event.action_count).sum();
    let analytics = Analytics::new(events);
    let groups = analytics.recent_action_groups(NOW, 2, 30, 7);
    let hits: Vec<u64> = groups.iter().map(|group| group.hit_count as u64).collect();
    assert_eq!(hits, vec![3, 1]);
    assert_eq!(groups.iter().map(|group| group.action_count).sum::<u64>(), actions);
}

#[test]
fn groups_that_are_alike_lie_apart() {
    let mut other = event(3, NOW - 40);
    other.rule_id = "rule-b".into();
    let events = vec![event(1, NOW), event(2, NOW - 30), other, event(4, NOW - 61), event(5, NOW - 91)];
    let groups = Analytics::new(events).recent_action_groups(NOW, 20, 30, 7);
    let spans: Vec<(i64, i64)> =
        groups.iter().map(|group| (NOW - group.occurred_at, NOW - group.oldest_at)).collect();
    assert_eq!(spans, vec![(0, 30), (40, 40), (61, 91)]);
    assert!(groups[0].oldest_at - groups[2].occurred_at > 30);
}

#[test]
fn group_takes_the_newest_event() {
    let mut older = event(1, NOW - 30);
    older.path = "/older".into();
    older.action_count = 4;
    let mut newer = event(2, NOW);
    newer.detail_redacted = 5;
    let analytics = Analytics::new(vec![older, newer]);
    let groups = analytics.recent_action_groups(NOW, 20, 30, 7);
    assert_eq!(groups.len(), 1);
    let group = &groups[0];
    assert_eq!((group.occurred_at, group.oldest_at), (NOW, NOW - 30));
    assert_eq!((group.hit_count, group.action_count), (2, 5));
    assert_eq!(group.path, "/path");
    assert!(group.detail_redacted);
}

#[test]
fn actions_that_cannot_be_counted() {
    let mut huge = event(1, NOW);
    huge.action_count = u64::MAX;
    let analytics = Analytics::new(vec![huge.clone(), event(2, NOW)]);
    assert!(analytics.countable_action_groups(NOW, 20, 30, 7).is_none());
    let analytics = Analytics::new(vec![huge]);
    let groups = analytics.countable_action_groups(NOW, 20, 30, 7).unwrap();
    assert_eq!(groups[0].action_count, u64::MAX);
}

#[test]
fn preview_stands_for_itself() {
    let group =
        ActionEventGroup::preview(result("image", ActionExecutionStatus::Succeeded), NOW);
    assert_eq!(group.rule_id, "Action 预览");
    assert_eq!(group.host, "应用内预览");
    assert_eq!((group.hit_count, group.action_count), (1, 1));
    assert_eq!((group.occurred_at, group.oldest_at), (NOW, NOW));
    assert_eq!(group.protocol, InterceptionProtocol::Unknown);
}

#[test]
fn buckets_of_the_chart() {
    assert_eq!((ChartRange::Day.bucket_seconds(), ChartRange::Day.bucket_count()), (3600, 24));
    assert_eq!((ChartRange::Week.bucket_seconds(), ChartRange::Week.bucket_count()), (86400, 7));
    assert_eq!((ChartRange::Month.bucket_seconds(), ChartRange::Month.bucket_count()), (86400, 30));
    let starts = bucket_starts(ChartRange::Day, NOW);
    assert_eq!(starts.len(), 24);
    assert_eq!((starts[0], starts[23]), (1_699_916_400, 1_699_999_200));
    let starts = bucket_starts(ChartRange::Week, NOW);
    assert_eq!((starts[0], starts[6]), (1_699_401_600, 1_699_920_000));
}

#[test]
fn chart_counts_by_bucket() {
    let analytics = Analytics::new(vec![
        event(1, NOW),
        event(2, 1_699_999_200),
        event(3, 1_699_999_199),
        event(4, 1_699_916_399),
    ]);
    let stats = analytics.dashboard(ChartRange::Day, NOW, &moments(ChartRange::Day));
    assert_eq!(stats.series[23].count, 2);
    assert_eq!(stats.series[22].count, 1);
    assert_eq!(total(&analytics, ChartRange::Day, NOW), 3);
    assert_eq!(total(&analytics, ChartRange::Week, NOW), 4);
    assert_eq!(stats.series[0].label, "07:00");
    let stats = analytics.dashboard(ChartRange::Month, NOW, &moments(ChartRange::Month));
    assert_eq!(stats.series[0].label, "03/09");
}

#[test]
fn maintenance_keeps_the_counts() {
    let mut analytics = Analytics::new(vec![event(1, NOW), event(2, NOW - 8 * 86_400)]);
    assert_eq!(total(&analytics, ChartRange::Month, NOW), 2);
    analytics.maintain(NOW, 7, 90);
    assert_eq!(total(&analytics, ChartRange::Month, NOW), 2);
}

#[test]
fn cells_are_quoted() {
    assert_eq!(csv_cell("plain"), "\"plain\"");
    assert_eq!(csv_cell("a\"b"), "\"a\"\"b\"");
    assert_eq!(csv_cell(""), "\"\"");
}

#[test]
fn exported_table() {
    let empty = Analytics::new(vec![]).export_csv();
    assert_eq!(
        empty,
        "occurred_at,rule_id,host,path,action_count,detail_redacted,protocol,action_results_json\n"
    );
    let mut one = event(1, -5);
    one.rule_id = "r\"1".into();
    one.action_results_json = "[]".into();
    let table = Analytics::new(vec![one]).export_csv();
    assert_eq!(
        table.strip_prefix(&empty).unwrap(),
        "-5,\"r\"\"1\",\"example.test\",\"/path\",1,0,\"http\",\"[]\"\n"
    );
}
