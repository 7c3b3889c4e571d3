use kubectl_tail::supervisor::SupervisorAction;
use kubectl_tail::types::{LogMessage, PodKey, Timestamp};
use kubectl_tail::ui::app::{App, AppMode, PodInfo, PodState, TreeNodeType};
use kubectl_tail::ui::events::{
    handle_event, handle_key_event, pod_deleted, pods_added, AppEvent, KeyCode, KeyEvent, PodEventType, PodUpdateEvent,
    ALT, CONTROL, PAGE_SIZE, SHIFT,
};

fn now() -> Timestamp {
    Timestamp { secs: 1_700_000_000, nanos: 0 }
}

fn key(cluster: &str, namespace: &str, pod: &str, container: &str) -> PodKey {
    PodKey {
        cluster: cluster.to_string(),
        namespace: namespace.to_string(),
        pod_name: pod.to_string(),
        container_name: container.to_string(),
    }
}

fn info(cluster: &str, namespace: &str, pod: &str, container: &str, phase: &str) -> PodInfo {
    PodInfo {
        key: key(cluster, namespace, pod, container),
        phase: phase.to_string(),
        age: "5m".to_string(),
        restarts: 0,
    }
}

fn line(pod: &str, text: &str) -> LogMessage {
    LogMessage {
        cluster: "east".to_string(),
        namespace: "default".to_string(),
        pod_name: pod.to_string(),
        container_name: "srv".to_string(),
        line: text.to_string(),
        timestamp: now(),
    }
}

fn press(code: KeyCode) -> KeyEvent {
    KeyEvent { code, modifiers: 0 }
}

fn lines_of(app: &App) -> Vec<String> {
    app.log_buffer.iter().map(|m| m.line.clone()).collect()
}

fn shown(app: &App) -> Vec<String> {
    app.filtered_logs().iter().map(|m| m.line.clone()).collect()
}

#[test]
fn a_new_app_is_empty_and_follows_the_log() {
    let app = App::new(100);
    assert_eq!(app.max_buffer_size, 100);
    assert!(app.log_buffer.is_empty());
    assert!(app.pods.is_empty());
    assert!(app.pod_states.is_empty());
    assert!(!app.sidebar_visible);
    assert_eq!(app.sidebar_selected, None);
    assert_eq!(app.scroll_offset, 0);
    assert!(app.auto_scroll);
    assert_eq!(app.mode, AppMode::Normal);
    assert!(!app.help_visible);
    assert!(!app.paused);
    assert!(!app.show_timestamps);
    assert!(app.show_prefix);
}

#[test]
fn lines_are_kept_up_to_the_buffer_size() {
    let mut app = App::new(3);
    for i in 0..5 {
        app.add_log(line("web-1", &format!("l{}", i)));
    }
    assert_eq!(lines_of(&app), vec!["l2", "l3", "l4"]);
    assert_eq!(app.scroll_offset, 2);
}

#[test]
fn without_auto_scroll_the_view_moves_back_with_the_lines_that_leave() {
    let mut app = App::new(3);
    for i in 0..3 {
        app.add_log(line("web-1", &format!("l{}", i)));
    }
    app.auto_scroll = false;
    app.scroll_offset = 1;
    app.add_log(line("web-1", "l3"));
    assert_eq!(app.scroll_offset, 0);
    app.add_log(line("web-1", "l4"));
    assert_eq!(app.scroll_offset, 0);
    assert_eq!(lines_of(&app), vec!["l2", "l3", "l4"]);
}

#[test]
fn a_paused_app_takes_no_lines() {
    let mut app = App::new(3);
    app.paused = true;
    app.add_log(line("web-1", "lost"));
    assert!(app.log_buffer.is_empty());
}

#[test]
fn a_buffer_of_size_zero_keeps_nothing() {
    let mut app = App::new(0);
    app.add_log(line("web-1", "l0"));
    assert!(app.log_buffer.is_empty());
    assert_eq!(app.scroll_offset, 0);
}

#[test]
fn scrolling_stays_within_the_buffer() {
    let mut app = App::new(100);
    for i in 0..50 {
        app.add_log(line("web-1", &format!("l{}", i)));
    }
    assert_eq!(app.scroll_offset, 49);
    app.scroll_up();
    assert_eq!(app.scroll_offset, 48);
    assert!(!app.auto_scroll);
    app.scroll_down();
    assert_eq!(app.scroll_offset, 49);
    assert!(!app.auto_scroll);
    app.scroll_down();
    assert_eq!(app.scroll_offset, 49);
    assert!(app.auto_scroll);
    app.page_up(20);
    assert_eq!(app.scroll_offset, 29);
    assert!(!app.auto_scroll);
    app.page_up(40);
    assert_eq!(app.scroll_offset, 0);
    app.scroll_up();
    assert_eq!(app.scroll_offset, 0);
    app.page_down(20);
    assert_eq!(app.scroll_offset, 20);
    assert!(!app.auto_scroll);
    app.page_down(29);
    assert_eq!(app.scroll_offset, 49);
    assert!(app.auto_scroll);
    app.scroll_to_top();
    assert_eq!(app.scroll_offset, 0);
    assert!(!app.auto_scroll);
    app.page_down(usize::MAX);
    assert_eq!(app.scroll_offset, 49);
    app.scroll_to_top();
    app.scroll_to_bottom();
    assert_eq!(app.scroll_offset, 49);
    assert!(app.auto_scroll);
}

#[test]
fn clearing_empties_the_buffer() {
    let mut app = App::new(100);
    app.add_log(line("web-1", "l0"));
    app.search_matches = vec![0];
    app.clear_logs();
    assert!(app.log_buffer.is_empty());
    assert_eq!(app.scroll_offset, 0);
    assert!(app.search_matches.is_empty());
}

#[test]
fn a_new_container_is_enabled_and_its_parents_are_expanded() {
    let mut app = App::new(100);
    app.add_pod(info("east", "default", "web-1", "srv", "Running"), now());
    assert_eq!(app.pods.len(), 1);
    assert_eq!(app.pod_states.len(), 1);
    assert_eq!(app.pod_states[0].state, PodState { enabled: true, last_seen: now() });
    assert_eq!(app.expanded_nodes, vec!["east", "east/default", "east/default/web-1"]);
    assert_eq!(app.sidebar_selected, None);
    app.add_pod(info("east", "default", "web-2", "srv", "Pending"), now());
    assert_eq!(
        app.expanded_nodes,
        vec!["east", "east/default", "east/default/web-1", "east/default/web-2"]
    );
}

#[test]
fn a_known_container_has_its_row_replaced() {
    let mut app = App::new(100);
    app.add_pod(info("east", "default", "web-1", "srv", "Pending"), now());
    app.add_pod(info("east", "default", "web-1", "log", "Pending"), now());
    app.add_pod(info("east", "default", "web-1", "srv", "Running"), now());
    assert_eq!(app.pods.len(), 2);
    assert_eq!(app.pods[0].phase, "Running");
    assert_eq!(app.pods[1].phase, "Pending");
    assert_eq!(app.pod_states.len(), 2);
}

#[test]
fn the_first_row_is_selected_when_the_sidebar_is_open() {
    let mut app = App::new(100);
    app.sidebar_visible = true;
    app.add_pod(info("east", "default", "web-1", "srv", "Running"), now());
    assert_eq!(app.sidebar_selected, Some(0));
    app.sidebar_selected = None;
    app.add_pod(info("east", "default", "web-2", "srv", "Running"), now());
    assert_eq!(app.sidebar_selected, None);
}

#[test]
fn a_removed_container_leaves_the_sidebar() {
    let mut app = App::new(100);
    app.add_pod(info("east", "default", "web-1", "srv", "Running"), now());
    app.add_pod(info("east", "default", "web-2", "srv", "Running"), now());
    app.remove_pod(&key("east", "default", "web-1", "srv"));
    assert_eq!(app.pods.len(), 1);
    assert_eq!(app.pods[0].key, key("east", "default", "web-2", "srv"));
    assert_eq!(app.pod_states.len(), 1);
    app.remove_pod(&key("east", "default", "web-1", ""));
    assert_eq!(app.pods.len(), 1);
}

#[test]
fn toggling_a_node_folds_and_expands_it() {
    let mut app = App::new(100);
    app.add_pod(info("east", "default", "web-1", "srv", "Running"), now());
    app.sidebar_item_types = vec![
        TreeNodeType::Cluster("east".to_string()),
        TreeNodeType::Namespace("east".to_string(), "default".to_string()),
        TreeNodeType::Pod("east".to_string(), "default".to_string(), "web-1".to_string()),
        TreeNodeType::Container,
    ];
    app.sidebar_item_keys = vec![None, None, None, Some(key("east", "default", "web-1", "srv"))];
    app.sidebar_selected = Some(1);
    app.toggle_sidebar_item();
    assert_eq!(app.expanded_nodes, vec!["east", "east/default/web-1"]);
    app.toggle_sidebar_item();
    assert_eq!(app.expanded_nodes, vec!["east", "east/default/web-1", "east/default"]);
    app.sidebar_selected = Some(0);
    app.toggle_sidebar_item();
    assert_eq!(app.expanded_nodes, vec!["east/default/web-1", "east/default"]);
    app.sidebar_selected = Some(2);
    app.toggle_sidebar_item();
    assert_eq!(app.expanded_nodes, vec!["east/default"]);
}

#[test]
fn toggling_a_container_shows_and_hides_its_lines() {
    let mut app = App::new(100);
    app.add_pod(info("east", "default", "web-1", "srv", "Running"), now());
    app.add_pod(info("east", "default", "web-2", "srv", "Running"), now());
    app.add_log(line("web-1", "one"));
    app.add_log(line("web-2", "two"));
    app.add_log(line("web-3", "three"));
    app.sidebar_item_types = vec![TreeNodeType::Container];
    app.sidebar_item_keys = vec![Some(key("east", "default", "web-1", "srv"))];
    app.sidebar_selected = Some(0);
    assert!(app.is_enabled(&key("east", "default", "web-1", "srv")));
    app.toggle_sidebar_item();
    assert!(!app.is_enabled(&key("east", "default", "web-1", "srv")));
    assert!(app.is_enabled(&key("east", "default", "web-3", "srv")));
    assert_eq!(shown(&app), vec!["two", "three"]);
    assert_eq!(app.filtered_positions(), vec![1, 2]);
    app.toggle_sidebar_item();
    assert_eq!(shown(&app), vec!["one", "two", "three"]);
}

#[test]
fn toggling_without_a_selection_changes_nothing() {
    let mut app = App::new(100);
    app.add_pod(info("east", "default", "web-1", "srv", "Running"), now());
    app.toggle_sidebar_item();
    assert_eq!(app.expanded_nodes.len(), 3);
    app.sidebar_selected = Some(7);
    app.toggle_sidebar_item();
    assert_eq!(app.expanded_nodes.len(), 3);
}

#[test]
fn the_filter_shows_matching_lines_without_regard_to_case() {
    let mut app = App::new(100);
    app.add_log(line("web-1", "An ERROR occurred"));
    app.add_log(line("web-1", "all fine"));
    app.add_log(line("web-1", "another error"));
    app.filter_pattern = "error".to_string();
    assert_eq!(shown(&app), vec!["An ERROR occurred", "another error"]);
    app.filter_pattern = "([unclosed".to_string();
    assert_eq!(shown(&app).len(), 3);
    app.filter_pattern = String::new();
    assert_eq!(shown(&app).len(), 3);
}

#[test]
fn the_search_finds_its_matches_among_the_shown_lines() {
    let mut app = App::new(100);
    app.add_log(line("web-1", "alpha"));
    app.add_log(line("web-1", "beta"));
    app.add_log(line("web-1", "ALPHA beta"));
    app.add_log(line("web-1", "gamma alpha"));
    app.filter_pattern = "alpha".to_string();
    app.search_pattern = "BETA".to_string();
    app.current_match_index = 5;
    app.update_search_matches();
    assert_eq!(app.search_matches, vec![1]);
    assert_eq!(app.current_match_index, 0);
    app.filter_pattern = String::new();
    app.update_search_matches();
    assert_eq!(app.search_matches, vec![1, 2]);
    app.search_pattern = "(".to_string();
    app.current_match_index = 1;
    app.update_search_matches();
    assert!(app.search_matches.is_empty());
    assert_eq!(app.current_match_index, 1);
    app.search_pattern = String::new();
    app.update_search_matches();
    assert!(app.search_matches.is_empty());
}

#[test]
fn jumping_goes_round_the_matches() {
    let mut app = App::new(100);
    app.search_matches = vec![3, 8, 13];
    app.jump_to_next_match();
    assert_eq!((app.current_match_index, app.scroll_offset), (1, 8));
    assert!(!app.auto_scroll);
    app.jump_to_next_match();
    assert_eq!((app.current_match_index, app.scroll_offset), (2, 13));
    app.jump_to_next_match();
    assert_eq!((app.current_match_index, app.scroll_offset), (0, 3));
    app.jump_to_prev_match();
    assert_eq!((app.current_match_index, app.scroll_offset), (2, 13));
    app.jump_to_prev_match();
    assert_eq!((app.current_match_index, app.scroll_offset), (1, 8));
    app.current_match_index = 40;
    app.jump_to_prev_match();
    assert_eq!((app.current_match_index, app.scroll_offset), (2, 13));
    app.current_match_index = 40;
    app.jump_to_next_match();
    assert_eq!((app.current_match_index, app.scroll_offset), (2, 13));
    app.search_matches.clear();
    app.scroll_offset = 5;
    app.jump_to_next_match();
    app.jump_to_prev_match();
    assert_eq!(app.scroll_offset, 5);
}

#[test]
fn the_sidebar_selection_goes_round() {
    let mut app = App::new(100);
    app.sidebar_select_next();
    assert_eq!(app.sidebar_selected, None);
    app.sidebar_item_keys = vec![None, None, None];
    app.sidebar_select_next();
    assert_eq!(app.sidebar_selected, Some(0));
    app.sidebar_select_next();
    app.sidebar_select_next();
    assert_eq!(app.sidebar_selected, Some(2));
    app.sidebar_select_next();
    assert_eq!(app.sidebar_selected, Some(0));
    app.sidebar_select_previous();
    assert_eq!(app.sidebar_selected, Some(2));
    app.sidebar_select_previous();
    assert_eq!(app.sidebar_selected, Some(1));
    app.sidebar_selected = None;
    app.sidebar_select_previous();
    assert_eq!(app.sidebar_selected, Some(0));
}

#[test]
fn the_figures_are_brought_up_to_date() {
    let mut app = App::new(20000);
    app.add_pod(info("east", "default", "web-1", "srv", "Running"), now());
    app.add_pod(info("west", "default", "web-1", "srv", "Running"), now());
    app.add_pod(info("east", "prod", "db-0", "pg", "Running"), now());
    app.pod_states[1].state.enabled = false;
    for i in 0..10486 {
        app.add_log(line("web-1", &format!("l{}", i)));
    }
    app.filter_pattern = "warn".to_string();
    app.search_pattern = "disk".to_string();
    app.paused = true;
    app.update_stats();
    assert_eq!(app.running_pods, 2);
    assert_eq!(app.total_pods, 3);
    assert_eq!(app.memory_usage, 2);
    assert_eq!(app.active_filters, vec!["filter: warn", "search: disk", "PAUSED"]);
    app.filter_pattern.clear();
    app.paused = false;
    app.update_stats();
    assert_eq!(app.active_filters, vec!["search: disk"]);
    assert_eq!(app.get_clusters(), vec!["east", "west"]);
}

#[test]
fn node_paths_are_slash_separated() {
    assert_eq!(TreeNodeType::Cluster("east".to_string()).path(), Some("east".to_string()));
    assert_eq!(
        TreeNodeType::Namespace("east".to_string(), "prod".to_string()).path(),
        Some("east/prod".to_string())
    );
    assert_eq!(
        TreeNodeType::Pod("east".to_string(), "prod".to_string(), "db-0".to_string()).path(),
        Some("east/prod/db-0".to_string())
    );
    assert_eq!(TreeNodeType::Container.path(), None);
}

#[test]
fn quitting_keys_end_the_ui_in_normal_mode_only() {
    let mut app = App::new(100);
    assert!(!handle_key_event(&mut app, press(KeyCode::Char('q'))));
    assert!(!handle_key_event(&mut app, press(KeyCode::Char('Q'))));
    assert!(!handle_key_event(
        &mut app,
        KeyEvent { code: KeyCode::Char('c'), modifiers: CONTROL }
    ));
    assert!(handle_key_event(
        &mut app,
        KeyEvent { code: KeyCode::Char('c'), modifiers: CONTROL | SHIFT }
    ));
    assert!(handle_key_event(&mut app, KeyEvent { code: KeyCode::Char('z'), modifiers: ALT }));
    app.mode = AppMode::Search;
    assert!(handle_key_event(&mut app, press(KeyCode::Char('q'))));
    assert_eq!(app.search_pattern, "q");
}

#[test]
fn normal_keys_toggle_and_scroll() {
    let mut app = App::new(100);
    for i in 0..50 {
        app.add_log(line("web-1", &format!("l{}", i)));
    }
    assert!(handle_key_event(&mut app, press(KeyCode::Char('s'))));
    assert!(app.sidebar_visible);
    handle_key_event(&mut app, press(KeyCode::Char('s')));
    assert!(!app.sidebar_visible);
    handle_key_event(&mut app, press(KeyCode::Char('p')));
    assert!(app.paused);
    handle_key_event(&mut app, press(KeyCode::Char('a')));
    assert!(!app.auto_scroll);
    handle_key_event(&mut app, press(KeyCode::Char('t')));
    assert!(app.show_timestamps);
    handle_key_event(&mut app, press(KeyCode::Char('x')));
    assert!(!app.show_prefix);
    handle_key_event(&mut app, press(KeyCode::Up));
    assert_eq!(app.scroll_offset, 48);
    handle_key_event(&mut app, press(KeyCode::PageUp));
    assert_eq!(app.scroll_offset, 48 - PAGE_SIZE);
    handle_key_event(&mut app, press(KeyCode::Down));
    assert_eq!(app.scroll_offset, 29);
    handle_key_event(&mut app, press(KeyCode::PageDown));
    assert_eq!(app.scroll_offset, 49);
    handle_key_event(&mut app, press(KeyCode::Home));
    assert_eq!(app.scroll_offset, 0);
    handle_key_event(&mut app, press(KeyCode::End));
    assert_eq!(app.scroll_offset, 49);
    handle_key_event(&mut app, press(KeyCode::Char('c')));
    assert!(app.log_buffer.is_empty());
    handle_key_event(&mut app, press(KeyCode::F(5)));
    handle_key_event(&mut app, press(KeyCode::Other));
    assert_eq!(app.mode, AppMode::Normal);
}

#[test]
fn arrows_move_the_selection_when_the_sidebar_is_open() {
    let mut app = App::new(100);
    app.sidebar_visible = true;
    app.sidebar_item_keys = vec![None, None];
    app.sidebar_selected = Some(0);
    app.scroll_offset = 7;
    handle_key_event(&mut app, press(KeyCode::Down));
    assert_eq!(app.sidebar_selected, Some(1));
    handle_key_event(&mut app, press(KeyCode::Up));
    assert_eq!(app.sidebar_selected, Some(0));
    assert_eq!(app.scroll_offset, 7);
    app.sidebar_selected = None;
    handle_key_event(&mut app, press(KeyCode::Up));
    assert_eq!(app.scroll_offset, 6);
}

#[test]
fn space_toggles_the_selected_row() {
    let mut app = App::new(100);
    app.add_pod(info("east", "default", "web-1", "srv", "Running"), now());
    app.sidebar_item_types = vec![TreeNodeType::Cluster("east".to_string())];
    app.sidebar_item_keys = vec![None];
    app.sidebar_selected = Some(0);
    handle_key_event(&mut app, press(KeyCode::Char(' ')));
    assert_eq!(app.expanded_nodes.len(), 3);
    app.sidebar_visible = true;
    handle_key_event(&mut app, press(KeyCode::Char(' ')));
    assert_eq!(app.expanded_nodes, vec!["east/default", "east/default/web-1"]);
}

#[test]
fn a_search_is_typed_and_run() {
    let mut app = App::new(100);
    app.add_log(line("web-1", "alpha"));
    app.add_log(line("web-1", "beta"));
    app.search_pattern = "old".to_string();
    handle_key_event(&mut app, press(KeyCode::Char('/')));
    assert_eq!(app.mode, AppMode::Search);
    assert_eq!(app.search_pattern, "");
    for c in "betx".chars() {
        handle_key_event(&mut app, press(KeyCode::Char(c)));
    }
    handle_key_event(&mut app, press(KeyCode::Backspace));
    handle_key_event(&mut app, press(KeyCode::Char('a')));
    assert_eq!(app.search_pattern, "beta");
    handle_key_event(&mut app, press(KeyCode::Up));
    assert_eq!(app.mode, AppMode::Search);
    handle_key_event(&mut app, press(KeyCode::Enter));
    assert_eq!(app.mode, AppMode::Normal);
    assert_eq!(app.search_matches, vec![1]);
    handle_key_event(&mut app, press(KeyCode::Char('n')));
    assert_eq!(app.scroll_offset, 1);
    handle_key_event(&mut app, press(KeyCode::Char('N')));
    assert_eq!(app.scroll_offset, 1);
    handle_key_event(&mut app, press(KeyCode::Char('/')));
    handle_key_event(&mut app, press(KeyCode::Backspace));
    handle_key_event(&mut app, press(KeyCode::Char('x')));
    handle_key_event(&mut app, press(KeyCode::Esc));
    assert_eq!(app.mode, AppMode::Normal);
    assert_eq!(app.search_pattern, "");
    assert!(app.search_matches.is_empty());
}

#[test]
fn a_filter_is_typed() {
    let mut app = App::new(100);
    handle_key_event(&mut app, press(KeyCode::Char('f')));
    assert_eq!(app.mode, AppMode::Filter);
    for c in "warn".chars() {
        handle_key_event(&mut app, press(KeyCode::Char(c)));
    }
    handle_key_event(&mut app, press(KeyCode::Backspace));
    assert_eq!(app.filter_pattern, "war");
    handle_key_event(&mut app, press(KeyCode::Enter));
    assert_eq!(app.mode, AppMode::Normal);
    assert_eq!(app.filter_pattern, "war");
    handle_key_event(&mut app, press(KeyCode::Char('f')));
    assert_eq!(app.filter_pattern, "");
    handle_key_event(&mut app, press(KeyCode::Char('e')));
    handle_key_event(&mut app, press(KeyCode::Esc));
    assert_eq!(app.mode, AppMode::Normal);
    assert_eq!(app.filter_pattern, "");
}

#[test]
fn any_key_closes_the_help() {
    let mut app = App::new(100);
    handle_key_event(&mut app, press(KeyCode::Char('?')));
    assert!(app.help_visible);
    assert_eq!(app.mode, AppMode::Help);
    assert!(handle_key_event(&mut app, press(KeyCode::Char('q'))));
    assert!(!app.help_visible);
    assert_eq!(app.mode, AppMode::Normal);
}

#[test]
fn events_reach_the_state() {
    let mut app = App::new(100);
    assert!(handle_event(&mut app, AppEvent::LogMessage(line("web-1", "l0")), now()));
    assert_eq!(app.log_buffer.len(), 1);
    assert!(handle_event(
        &mut app,
        AppEvent::PodUpdate(PodUpdateEvent {
            info: info("east", "default", "web-1", "srv", "Running"),
            event_type: PodEventType::Added,
        }),
        now()
    ));
    assert!(handle_event(
        &mut app,
        AppEvent::PodUpdate(PodUpdateEvent {
            info: info("east", "default", "web-1", "srv", "Failed"),
            event_type: PodEventType::Updated,
        }),
        now()
    ));
    assert_eq!(app.pods.len(), 1);
    assert_eq!(app.pods[0].phase, "Failed");
    assert!(handle_event(&mut app, AppEvent::Tick, now()));
    assert_eq!(app.total_pods, 1);
    assert!(handle_event(
        &mut app,
        AppEvent::PodUpdate(PodUpdateEvent {
            info: info("east", "default", "web-1", "srv", "Deleted"),
            event_type: PodEventType::Deleted(key("east", "default", "web-1", "srv")),
        }),
        now()
    ));
    assert!(app.pods.is_empty());
    assert!(handle_event(&mut app, AppEvent::Key(press(KeyCode::Char('p'))), now()));
    assert!(app.paused);
    assert!(!handle_event(&mut app, AppEvent::Key(press(KeyCode::Char('q'))), now()));
    assert!(!handle_event(&mut app, AppEvent::Quit, now()));
}

#[test]
fn the_sidebar_hears_of_started_containers_and_deleted_pods() {
    let actions = vec![
        SupervisorAction::Stop { key: key("east", "default", "web-1", "old"), generation: 1 },
        SupervisorAction::Start { key: key("east", "default", "web-1", "srv"), generation: 2 },
        SupervisorAction::Start { key: key("east", "default", "web-1", "log"), generation: 3 },
    ];
    let updates = pods_added(&actions, "Running", "5m", 2);
    assert_eq!(updates.len(), 2);
    assert!(matches!(updates[0].event_type, PodEventType::Added));
    assert_eq!(updates[0].info.key, key("east", "default", "web-1", "srv"));
    assert_eq!(updates[0].info.phase, "Running");
    assert_eq!(updates[0].info.age, "5m");
    assert_eq!(updates[0].info.restarts, 2);
    assert_eq!(updates[1].info.key, key("east", "default", "web-1", "log"));
    let gone = pod_deleted("east", "default", "web-1");
    assert_eq!(gone.info.key, key("east", "default", "web-1", ""));
    assert_eq!(gone.info.phase, "Deleted");
    assert_eq!(gone.info.age, "");
    assert_eq!(gone.info.restarts, 0);
    assert!(
        matches!(gone.event_type, PodEventType::Deleted(ref k) if *k == key("east", "default", "web-1", ""))
    );
}
