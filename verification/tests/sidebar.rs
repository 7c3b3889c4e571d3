use kubectl_tail::order::{add_name, comes_before};
use kubectl_tail::types::{PodKey, Timestamp};
use kubectl_tail::ui::app::{App, PodInfo, TreeNodeType};
use kubectl_tail::ui::sidebar::{sidebar_rows, PodList, SidebarRow};
use kubectl_tail::ui::widgets::Style;
use kubectl_tail::utils::Color;

fn now() -> Timestamp {
    Timestamp { secs: 0, nanos: 0 }
}

fn info(cluster: &str, namespace: &str, pod: &str, container: &str, phase: &str) -> PodInfo {
    PodInfo {
        key: PodKey {
            cluster: cluster.to_string(),
            namespace: namespace.to_string(),
            pod_name: pod.to_string(),
            container_name: container.to_string(),
        },
        phase: phase.to_string(),
        age: "1m".to_string(),
        restarts: 0,
    }
}

fn texts(rows: &[SidebarRow]) -> Vec<String> {
    rows.iter().map(|r| r.text.clone()).collect()
}

fn group(color: Color, bold: bool) -> Style {
    Style { fg: Some(color), bg: None, bold, reversed: false }
}

fn sample() -> App {
    let mut app = App::new(100);
    app.add_pod(info("west", "default", "web-1", "srv", "Running"), now());
    app.add_pod(info("east", "prod", "db-0", "pg", "Running"), now());
    app.add_pod(info("east", "default", "web-2", "srv", "Pending"), now());
    app.add_pod(info("east", "default", "web-1", "srv", "Running"), now());
    app.add_pod(info("east", "default", "web-1", "log", "Running"), now());
    app
}

#[test]
fn strings_are_ordered_like_the_standard_library_orders_them() {
    let samples = ["", "a", "ab", "abc", "b", "B", "é", "z", "east", "eas", "weSt", "west", "日本"];
    for a in samples {
        for b in samples {
            assert_eq!(comes_before(a, b), a < b, "{:?} before {:?}", a, b);
        }
    }
}

#[test]
fn names_are_kept_sorted_and_single() {
    let mut names: Vec<String> = Vec::new();
    for n in ["west", "east", "north", "east", "south", "west", "a"] {
        add_name(&mut names, n);
    }
    assert_eq!(names, vec!["a", "east", "north", "south", "west"]);
}

#[test]
fn an_empty_sidebar_has_no_rows() {
    let app = App::new(100);
    assert!(sidebar_rows(&app.pods, &app.pod_states, &app.expanded_nodes).is_empty());
}

#[test]
fn the_tree_is_sorted_and_fully_expanded_for_new_pods() {
    let app = sample();
    let rows = sidebar_rows(&app.pods, &app.pod_states, &app.expanded_nodes);
    assert_eq!(
        texts(&rows),
        vec![
            "▼ east",
            "  ▼ default",
            "    ▼ web-1 (Running)",
            "      [x] srv",
            "      [x] log",
            "    ▼ web-2 (Pending)",
            "      [x] srv",
            "  ▼ prod",
            "    ▼ db-0 (Running)",
            "      [x] pg",
            "▼ west",
            "  ▼ default",
            "    ▼ web-1 (Running)",
            "      [x] srv",
        ]
    );
    assert_eq!(rows[0].style, group(Color::Cyan, true));
    assert_eq!(rows[1].style, group(Color::Blue, true));
    assert_eq!(rows[2].style, group(Color::Green, false));
    assert_eq!(rows[3].style, Style { fg: None, bg: None, bold: false, reversed: false });
    assert!(matches!(rows[0].node, TreeNodeType::Cluster(ref c) if c == "east"));
    assert!(
        matches!(rows[1].node, TreeNodeType::Namespace(ref c, ref n) if c == "east" && n == "default")
    );
    assert!(
        matches!(rows[2].node, TreeNodeType::Pod(ref c, ref n, ref p) if c == "east" && n == "default" && p == "web-1")
    );
    assert!(matches!(rows[3].node, TreeNodeType::Container));
    assert_eq!(rows[0].key, None);
    assert_eq!(rows[4].key, Some(app.pods[4].key.clone()));
}

#[test]
fn folded_nodes_hide_what_lies_below() {
    let mut app = sample();
    app.expanded_nodes.retain(|p| p != "east/default" && p != "west");
    let rows = sidebar_rows(&app.pods, &app.pod_states, &app.expanded_nodes);
    assert_eq!(
        texts(&rows),
        vec![
            "▼ east",
            "  ▶ default",
            "  ▼ prod",
            "    ▼ db-0 (Running)",
            "      [x] pg",
            "▶ west",
        ]
    );
    app.expanded_nodes.retain(|p| p != "east/prod/db-0");
    let rows = sidebar_rows(&app.pods, &app.pod_states, &app.expanded_nodes);
    assert_eq!(texts(&rows)[3], "    ▶ db-0 (Running)");
    assert_eq!(rows.len(), 5);
}

#[test]
fn disabled_containers_gray_their_groups() {
    let mut app = sample();
    for entry in app.pod_states.iter_mut() {
        if entry.key.cluster == "east" && entry.key.pod_name == "web-1" {
            entry.state.enabled = entry.key.container_name == "log";
        }
        if entry.key.cluster == "west" {
            entry.state.enabled = false;
        }
    }
    let rows = sidebar_rows(&app.pods, &app.pod_states, &app.expanded_nodes);
    assert_eq!(rows[0].style, group(Color::Gray, true));
    assert_eq!(rows[1].style, group(Color::Gray, true));
    assert_eq!(rows[2].style, group(Color::Gray, false));
    assert_eq!(rows[3].text, "      [ ] srv");
    assert_eq!(rows[3].style, group(Color::DarkGray, false));
    assert_eq!(rows[4].text, "      [x] log");
    assert_eq!(rows[5].style, group(Color::Green, false));
    assert_eq!(rows[7].style, group(Color::Blue, true));
    assert_eq!(rows[10].style, group(Color::DarkGray, true));
    assert_eq!(rows[11].style, group(Color::DarkGray, true));
    assert_eq!(rows[12].style, group(Color::DarkGray, false));
}

#[test]
fn rebuilding_lists_what_each_row_stands_for() {
    let mut app = sample();
    app.sidebar_selected = Some(3);
    let rows = app.rebuild_sidebar();
    assert_eq!(rows.len(), 14);
    assert_eq!(app.sidebar_item_keys.len(), 14);
    assert_eq!(app.sidebar_item_types.len(), 14);
    assert_eq!(app.sidebar_item_keys[0], None);
    assert_eq!(app.sidebar_item_keys[3], Some(app.pods[3].key.clone()));
    assert!(matches!(app.sidebar_item_types[7], TreeNodeType::Namespace(_, ref n) if n == "prod"));
    app.toggle_sidebar_item();
    let rows = app.rebuild_sidebar();
    assert_eq!(rows[3].text, "      [ ] srv");
    app.sidebar_selected = Some(0);
    app.toggle_sidebar_item();
    let rows = app.rebuild_sidebar();
    assert_eq!(texts(&rows)[0], "▶ east");
    assert_eq!(texts(&rows)[1], "▼ west");
    assert_eq!(app.sidebar_item_keys.len(), rows.len());
}

#[test]
fn the_pod_list_gives_the_rows() {
    let app = sample();
    let list = PodList::new(&app.pods, &app.pod_states, &app.expanded_nodes);
    assert_eq!(
        texts(&list.rows()),
        texts(&sidebar_rows(&app.pods, &app.pod_states, &app.expanded_nodes))
    );
    assert_eq!(list.rows().len(), 14);
    assert_eq!(list.highlight_symbol(), "→ ");
    assert_eq!(
        list.highlight_style(),
        Style { fg: Some(Color::Yellow), bg: Some(Color::DarkGray), bold: false, reversed: true }
    );
}
