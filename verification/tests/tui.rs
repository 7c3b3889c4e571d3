use kubectl_tail::tui::{
    format_age, format_connection_state, format_duration_since, format_timestamp, format_uptime,
    get_restart_count, seconds_between, TuiApp, STATUS_PAGE,
};
use kubectl_tail::types::{
    ConnectionState, GapReason, LogEvent, LogLevel, LogMessage, PodKey, Timestamp,
};
use kubectl_tail::ui::events::{KeyCode, KeyEvent, CONTROL, SHIFT};
use kubectl_tail::utils::{get_color, Color};

fn key(pod: &str, container: &str) -> PodKey {
    PodKey {
        cluster: "east".to_string(),
        namespace: "default".to_string(),
        pod_name: pod.to_string(),
        container_name: container.to_string(),
    }
}

fn log(pod: &str, container: &str, text: &str) -> LogEvent {
    LogEvent::Log(LogMessage {
        cluster: "east".to_string(),
        namespace: "default".to_string(),
        pod_name: pod.to_string(),
        container_name: container.to_string(),
        line: text.to_string(),
        timestamp: Timestamp { secs: 0, nanos: 0 },
    })
}

fn press(code: KeyCode) -> KeyEvent {
    KeyEvent { code, modifiers: 0 }
}

#[test]
fn a_new_status_view_is_empty() {
    let app = TuiApp::new(500, true, 1_700_000_000);
    assert!(!app.should_quit);
    assert!(app.log_messages.is_empty());
    assert!(app.pod_status.is_empty());
    assert_eq!(app.scroll_offset, 0);
    assert!(!app.paused);
    assert!(!app.show_help);
    assert!(app.auto_scroll);
    assert_eq!(app.max_log_lines, 500);
    assert_eq!(app.start_time, 1_700_000_000);
    assert_eq!(app.total_log_count, 0);
    assert_eq!(app.gap_count, 0);
}

#[test]
fn lines_are_counted_for_their_container() {
    let mut app = TuiApp::new(500, true, 0);
    app.add_log_event(log("web-1", "srv", "a"), 10);
    app.add_log_event(log("web-1", "srv", "b"), 12);
    app.add_log_event(log("web-2", "srv", "c"), 13);
    assert_eq!(app.total_log_count, 3);
    assert_eq!(app.pod_status.len(), 2);
    assert_eq!(app.pod_status[0].key, "web-1/srv");
    assert_eq!(app.pod_status[0].name, "web-1");
    assert_eq!(app.pod_status[0].container, "srv");
    assert_eq!(app.pod_status[0].log_count, 2);
    assert_eq!(app.pod_status[0].last_log_time, Some(12));
    assert!(matches!(app.pod_status[0].connection_state, ConnectionState::Connected));
    assert_eq!(app.pod_status[0].color, get_color("web-1"));
    assert_eq!(app.pod_status[1].log_count, 1);
    assert_eq!(app.log_messages.len(), 3);
}

#[test]
fn a_gap_marks_a_known_container_as_disconnected() {
    let mut app = TuiApp::new(500, true, 0);
    app.add_log_event(log("web-1", "srv", "a"), 10);
    app.add_log_event(
        LogEvent::Gap { key: key("web-1", "srv"), duration_ms: 1500, reason: GapReason::StreamEnded },
        20,
    );
    app.add_log_event(
        LogEvent::Gap { key: key("web-9", "srv"), duration_ms: 10, reason: GapReason::ApiError(500) },
        21,
    );
    assert_eq!(app.gap_count, 2);
    assert_eq!(app.pod_status.len(), 1);
    assert!(matches!(
        app.pod_status[0].connection_state,
        ConnectionState::Disconnected { since: 20 }
    ));
    app.add_log_event(log("web-1", "srv", "b"), 30);
    assert!(matches!(app.pod_status[0].connection_state, ConnectionState::Connected));
}

#[test]
fn a_status_change_sets_the_state() {
    let mut app = TuiApp::new(500, true, 0);
    app.add_log_event(log("web-1", "srv", "a"), 10);
    app.add_log_event(
        LogEvent::StatusChange {
            key: key("web-1", "srv"),
            new_state: ConnectionState::Reconnecting { attempt: 3 },
        },
        11,
    );
    assert!(matches!(
        app.pod_status[0].connection_state,
        ConnectionState::Reconnecting { attempt: 3 }
    ));
    app.add_log_event(
        LogEvent::SystemMessage { level: LogLevel::Info, message: "hello".to_string() },
        12,
    );
    assert_eq!(app.log_messages.len(), 3);
    assert_eq!(app.total_log_count, 1);
}

#[test]
fn the_latest_events_stay() {
    let mut app = TuiApp::new(2, true, 0);
    for text in ["a", "b", "c"] {
        app.add_log_event(log("web-1", "srv", text), 1);
    }
    let kept: Vec<String> = app
        .log_messages
        .iter()
        .map(|e| match e {
            LogEvent::Log(m) => m.line.clone(),
            _ => String::new(),
        })
        .collect();
    assert_eq!(kept, vec!["b", "c"]);
    let mut none = TuiApp::new(0, true, 0);
    none.add_log_event(log("web-1", "srv", "a"), 1);
    assert!(none.log_messages.is_empty());
    assert_eq!(none.total_log_count, 1);
}

#[test]
fn keys_scroll_pause_and_quit() {
    let mut app = TuiApp::new(500, true, 0);
    for i in 0..50 {
        app.add_log_event(log("web-1", "srv", &format!("l{}", i)), 1);
    }
    app.handle_key(press(KeyCode::Up));
    app.handle_key(press(KeyCode::Char('k')));
    assert_eq!(app.scroll_offset, 2);
    app.handle_key(press(KeyCode::Down));
    app.handle_key(press(KeyCode::Char('j')));
    app.handle_key(press(KeyCode::Char('j')));
    assert_eq!(app.scroll_offset, 0);
    assert_eq!(STATUS_PAGE, 20);
    app.handle_key(press(KeyCode::PageUp));
    assert_eq!(app.scroll_offset, 20);
    app.handle_key(press(KeyCode::PageUp));
    app.handle_key(press(KeyCode::PageUp));
    assert_eq!(app.scroll_offset, 49);
    app.handle_key(press(KeyCode::Up));
    assert_eq!(app.scroll_offset, 49);
    app.handle_key(press(KeyCode::PageDown));
    assert_eq!(app.scroll_offset, 29);
    app.handle_key(press(KeyCode::End));
    assert_eq!(app.scroll_offset, 0);
    app.handle_key(press(KeyCode::PageDown));
    assert_eq!(app.scroll_offset, 0);
    app.handle_key(press(KeyCode::Home));
    assert_eq!(app.scroll_offset, 49);
    app.handle_key(press(KeyCode::Char('p')));
    assert!(app.paused);
    app.handle_key(press(KeyCode::F(3)));
    assert!(!app.paused);
    app.handle_key(press(KeyCode::F(1)));
    assert!(app.show_help);
    app.handle_key(press(KeyCode::F(4)));
    app.handle_key(press(KeyCode::Char('c')));
    assert!(!app.should_quit);
    app.handle_key(KeyEvent { code: KeyCode::Char('c'), modifiers: CONTROL | SHIFT });
    assert!(app.should_quit);
    for code in [KeyCode::Char('q'), KeyCode::Esc] {
        let mut other = TuiApp::new(500, true, 0);
        other.handle_key(press(code));
        assert!(other.should_quit);
    }
}

#[test]
fn the_window_ends_at_the_scroll_offset() {
    let mut app = TuiApp::new(500, true, 0);
    for i in 0..50 {
        app.add_log_event(log("web-1", "srv", &format!("l{}", i)), 1);
    }
    assert_eq!(app.window_start(12), 40);
    app.scroll_offset = 5;
    assert_eq!(app.window_start(12), 35);
    app.scroll_offset = 45;
    assert_eq!(app.window_start(12), 0);
    assert_eq!(app.window_start(60), 0);
    assert_eq!(app.window_start(1), 5);
    assert_eq!(app.log_title(), "Logs (Scrolled - Press End for live view)");
    app.scroll_offset = 0;
    assert_eq!(app.log_title(), "Logs (Live)");
    app.paused = true;
    assert_eq!(app.log_title(), "Logs (PAUSED - Press P to resume)");
    assert_eq!(
        app.footer_text(),
        "F1: Help | P: Pause | ↑↓: Scroll | Home/End: Top/Bottom | Ctrl+C: Quit"
    );
    app.show_help = true;
    assert_eq!(app.footer_text(), "Press F1 again to close help");
}

#[test]
fn the_header_sums_up() {
    let mut app = TuiApp::new(500, true, 1000);
    app.add_log_event(log("web-1", "srv", "a"), 1001);
    app.add_log_event(
        LogEvent::Gap { key: key("web-1", "srv"), duration_ms: 1, reason: GapReason::StreamEnded },
        1002,
    );
    assert_eq!(
        app.header_text(1000 + 3725),
        "kubectl-tail | Pods: 1 active | Total logs: 1 | Gaps: 1 | Uptime: 01:02:05"
    );
    assert_eq!(
        app.header_text(5),
        "kubectl-tail | Pods: 1 active | Total logs: 1 | Gaps: 1 | Uptime: 00:00:00"
    );
}

#[test]
fn uptime_is_in_hours_minutes_and_seconds() {
    assert_eq!(format_uptime(0), "00:00:00");
    assert_eq!(format_uptime(59), "00:00:59");
    assert_eq!(format_uptime(3600 * 9 + 60 * 9 + 9), "09:09:09");
    assert_eq!(format_uptime(3600 * 123 + 60 * 4 + 5), "123:04:05");
    assert_eq!(seconds_between(10, 25), 15);
    assert_eq!(seconds_between(25, 10), 0);
}

#[test]
fn durations_are_in_the_largest_unit() {
    assert_eq!(format_duration_since(Some(0)), "0s ago");
    assert_eq!(format_duration_since(Some(59)), "59s ago");
    assert_eq!(format_duration_since(Some(60)), "1m ago");
    assert_eq!(format_duration_since(Some(3599)), "59m ago");
    assert_eq!(format_duration_since(Some(3600)), "1h ago");
    assert_eq!(format_duration_since(Some(86400 * 2)), "48h ago");
    assert_eq!(format_duration_since(None), "Unknown");
}

#[test]
fn timestamps_are_times_of_day() {
    assert_eq!(format_timestamp(Some(0)), "00:00:00");
    assert_eq!(format_timestamp(Some(86399)), "23:59:59");
    assert_eq!(format_timestamp(Some(86400 + 3661)), "01:01:01");
    assert_eq!(format_timestamp(Some(1_700_000_000)), "22:13:20");
    assert_eq!(format_timestamp(None), "??:??:??");
}

#[test]
fn connection_states_are_put_in_words() {
    assert_eq!(format_connection_state(&ConnectionState::Connected, 100), "connected");
    assert_eq!(
        format_connection_state(&ConnectionState::Reconnecting { attempt: 4 }, 100),
        "reconnecting (attempt 4)"
    );
    assert_eq!(
        format_connection_state(&ConnectionState::Disconnected { since: 40 }, 100),
        "disconnected for 60s"
    );
    assert_eq!(
        format_connection_state(&ConnectionState::Disconnected { since: 140 }, 100),
        "disconnected for 0s"
    );
    assert_eq!(
        format_connection_state(&ConnectionState::Failed("not found".to_string()), 100),
        "failed: not found"
    );
}

#[test]
fn ages_are_in_the_largest_unit() {
    assert_eq!(format_age(Some(0)), "0s");
    assert_eq!(format_age(Some(59)), "59s");
    assert_eq!(format_age(Some(60)), "1m");
    assert_eq!(format_age(Some(3599)), "59m");
    assert_eq!(format_age(Some(3600)), "1h");
    assert_eq!(format_age(Some(86399)), "23h");
    assert_eq!(format_age(Some(86400)), "1d");
    assert_eq!(format_age(Some(86400 * 400)), "400d");
    assert_eq!(format_age(Some(-5)), "-5s");
    assert_eq!(format_age(Some(i64::MIN)), "-9223372036854775808s");
    assert_eq!(format_age(None), "unknown");
}

#[test]
fn restarts_are_summed() {
    assert_eq!(get_restart_count(&vec![]), 0);
    assert_eq!(get_restart_count(&vec![0, 2, 5]), 7);
    assert_eq!(get_restart_count(&vec![i32::MAX, 1]), i32::MAX);
    assert_eq!(get_restart_count(&vec![i32::MAX, 1, -2]), i32::MAX - 1);
    assert_eq!(get_restart_count(&vec![i32::MIN, -1]), i32::MIN);
}

#[test]
fn the_status_table_has_a_row_for_each_container() {
    let mut app = TuiApp::new(500, true, 0);
    app.add_log_event(log("web-1", "srv", "a"), 100);
    app.add_log_event(log("web-2", "srv", "a"), 100);
    app.add_log_event(log("web-3", "srv", "a"), 100);
    app.add_log_event(log("web-4", "srv", "a"), 100);
    app.add_log_event(log("web-1", "srv", "b"), 130);
    app.add_log_event(
        LogEvent::StatusChange {
            key: key("web-2", "srv"),
            new_state: ConnectionState::Reconnecting { attempt: 2 },
        },
        131,
    );
    app.add_log_event(
        LogEvent::Gap { key: key("web-3", "srv"), duration_ms: 10, reason: GapReason::StreamEnded },
        140,
    );
    app.add_log_event(
        LogEvent::StatusChange {
            key: key("web-4", "srv"),
            new_state: ConnectionState::Failed("not found".to_string()),
        },
        141,
    );
    app.pod_status[3].last_log_time = None;
    let rows = app.status_rows(200);
    assert_eq!(rows.len(), 4);
    assert_eq!(rows[0].indicator, "🟢");
    assert_eq!(rows[0].state_color, kubectl_tail::utils::Color::Green);
    assert_eq!(rows[0].name, "web-1/srv");
    assert_eq!(rows[0].name_color, get_color("web-1"));
    assert_eq!(rows[0].last_log, "1m ago");
    assert_eq!(rows[0].lines, "2");
    assert_eq!(rows[0].state, "Connected");
    assert_eq!(rows[1].indicator, "🟡");
    assert_eq!(rows[1].state, "Retry 2");
    assert_eq!(rows[1].last_log, "1m ago");
    assert_eq!(rows[2].indicator, "🔴");
    assert_eq!(rows[2].state, "Down 60s");
    assert_eq!(rows[2].state_color, kubectl_tail::utils::Color::Red);
    assert_eq!(rows[3].indicator, "❌");
    assert_eq!(rows[3].state, "Failed: not found");
    assert_eq!(rows[3].last_log, "Never");
    let early = app.status_rows(50);
    assert_eq!(early[0].last_log, "Unknown");
    assert_eq!(early[2].state, "Down 0s");
}

fn spans_of(app: &TuiApp, event: &LogEvent, now: u64) -> Vec<(String, Option<kubectl_tail::utils::Color>, bool)> {
    app.format_log_event(event, now)
        .iter()
        .map(|s| (s.text.clone(), s.style.fg, s.style.bold))
        .collect()
}

#[test]
fn events_are_shown_in_spans() {
    let mut app = TuiApp::new(500, true, 0);
    app.add_log_event(log("web-1", "srv", "a"), 100);
    let line = LogEvent::Log(LogMessage {
        cluster: "east".to_string(),
        namespace: "default".to_string(),
        pod_name: "web-1".to_string(),
        container_name: "srv".to_string(),
        line: "hello".to_string(),
        timestamp: Timestamp { secs: 3661, nanos: 0 },
    });
    assert_eq!(
        spans_of(&app, &line, 0),
        vec![
            ("01:01:01".to_string(), Some(Color::Gray), false),
            (" ".to_string(), None, false),
            ("[web-1/srv]".to_string(), Some(get_color("web-1")), true),
            (" ".to_string(), None, false),
            ("hello".to_string(), None, false),
        ]
    );
    let stranger = LogEvent::Log(LogMessage {
        cluster: "east".to_string(),
        namespace: "default".to_string(),
        pod_name: "other".to_string(),
        container_name: "c".to_string(),
        line: "x".to_string(),
        timestamp: Timestamp { secs: -5, nanos: 0 },
    });
    let spans = spans_of(&app, &stranger, 0);
    assert_eq!(spans[0].0, "??:??:??");
    assert_eq!(spans[2], ("[other/c]".to_string(), Some(Color::White), true));
    let gap = LogEvent::Gap {
        key: key("web-1", "srv"),
        duration_ms: 12_349,
        reason: GapReason::ApiError(503),
    };
    assert_eq!(
        spans_of(&app, &gap, 0),
        vec![
            ("⚠️  LOG GAP DETECTED".to_string(), Some(Color::Yellow), true),
            (
                " - web-1/srv missing 12.3s of logs (ApiError(503))".to_string(),
                Some(Color::Yellow),
                false,
            ),
        ]
    );
    let rounded = LogEvent::Gap {
        key: key("web-1", "srv"),
        duration_ms: 1_950,
        reason: GapReason::Network("reset".to_string()),
    };
    assert_eq!(spans_of(&app, &rounded, 0)[1].0, " - web-1/srv missing 2.0s of logs (Network(reset))");
    let huge = LogEvent::Gap {
        key: key("web-1", "srv"),
        duration_ms: u64::MAX,
        reason: GapReason::StreamEnded,
    };
    assert_eq!(
        spans_of(&app, &huge, 0)[1].0,
        " - web-1/srv missing 18446744073709551.6s of logs (StreamEnded)"
    );
    let change = LogEvent::StatusChange {
        key: key("web-1", "srv"),
        new_state: ConnectionState::Disconnected { since: 40 },
    };
    assert_eq!(
        spans_of(&app, &change, 100),
        vec![
            ("🟢➡️🔴".to_string(), Some(Color::Red), false),
            (" web-1/srv disconnected for 60s".to_string(), Some(Color::Red), false),
        ]
    );
    let connected =
        LogEvent::StatusChange { key: key("web-1", "srv"), new_state: ConnectionState::Connected };
    assert_eq!(spans_of(&app, &connected, 100)[0], ("🔄➡️🟢".to_string(), Some(Color::Green), false));
    let system =
        LogEvent::SystemMessage { level: LogLevel::Warning, message: "careful".to_string() };
    assert_eq!(
        spans_of(&app, &system, 0),
        vec![
            ("⚠️".to_string(), Some(Color::Yellow), false),
            (" careful".to_string(), Some(Color::Yellow), false),
        ]
    );
}
