use kubectl_tail::ui::layout::{arrange, create_layout, AppLayout, SIDEBAR_WIDTH};
use kubectl_tail::ui::widgets::{HelpOverlay, Rect, StatusBar, Style, HELP_HEIGHT, HELP_WIDTH};
use kubectl_tail::utils::Color;

fn rect(x: u16, y: u16, width: u16, height: u16) -> Rect {
    Rect { x, y, width, height }
}

#[test]
fn the_status_bar_lists_its_figures() {
    let filters = vec!["filter: warn".to_string(), "PAUSED".to_string()];
    let clusters = vec!["east".to_string(), "west".to_string()];
    let bar = StatusBar::new(3, 5, 1200, 2, &filters, &clusters, true, true);
    assert_eq!(
        bar.text(),
        "Pods: 3/5 | Buffer: 1200 lines | Memory: 2 MB | Filters: filter: warn, PAUSED | Clusters: east,west | [PAUSED] | [AUTO] | ? for help"
    );
    assert_eq!(
        bar.style(),
        Style { fg: Some(Color::White), bg: Some(Color::DarkGray), bold: false, reversed: false }
    );
}

#[test]
fn an_idle_status_bar_says_none() {
    let bar = StatusBar::new(0, 0, 0, 0, &[], &[], false, false);
    assert_eq!(
        bar.text(),
        "Pods: 0/0 | Buffer: 0 lines | Memory: 0 MB | Filters: none | Clusters: none | ? for help"
    );
    assert_eq!(bar.running_pods, 0);
    assert!(!bar.auto_scroll);
}

#[test]
fn the_help_lists_the_keys() {
    let lines = HelpOverlay.lines();
    assert_eq!(lines.len(), 24);
    assert_eq!(lines.len() as u16 + 2, HELP_HEIGHT);
    assert_eq!(lines[0], "Keyboard Shortcuts");
    assert_eq!(lines[1], "");
    assert_eq!(lines[2], "  q/Q/Ctrl-C  - Quit");
    assert_eq!(lines[17], "  ↑/↓         - Navigate sidebar (when open) or scroll logs");
    assert_eq!(lines[23], "Press any key to close");
}

#[test]
fn the_help_goes_in_the_middle() {
    assert_eq!(HELP_WIDTH, 60);
    assert_eq!(HelpOverlay.area(rect(0, 0, 100, 40)), rect(20, 7, 60, 26));
    assert_eq!(HelpOverlay.area(rect(10, 5, 61, 27)), rect(10, 5, 60, 26));
    assert_eq!(HelpOverlay.area(rect(10, 5, 63, 29)), rect(11, 6, 60, 26));
    assert_eq!(HelpOverlay.area(rect(3, 4, 40, 10)), rect(3, 4, 40, 10));
    assert_eq!(HelpOverlay.area(rect(0, 0, 0, 0)), rect(0, 0, 0, 0));
    assert_eq!(HelpOverlay.area(rect(65000, 65500, 1000, 100)), rect(65470, 65535, 60, 26));
    assert_eq!(
        HelpOverlay.style(),
        Style { fg: Some(Color::White), bg: Some(Color::Black), bold: false, reversed: false }
    );
}

#[test]
fn styles_are_built_up() {
    let s = Style::default().fg(Color::Yellow).bold();
    assert_eq!(s, Style { fg: Some(Color::Yellow), bg: None, bold: true, reversed: false });
    assert_eq!(Rect::zero(), rect(0, 0, 0, 0));
}

#[test]
fn without_a_sidebar_the_main_area_takes_the_width() {
    let layout = create_layout(rect(0, 0, 120, 40), false);
    assert_eq!(
        layout,
        AppLayout {
            sidebar: rect(0, 0, 0, 0),
            main: rect(0, 0, 120, 39),
            status_bar: rect(0, 39, 120, 1),
        }
    );
}

#[test]
fn with_a_sidebar_the_main_area_is_to_its_right() {
    assert_eq!(SIDEBAR_WIDTH, 60);
    let layout = create_layout(rect(0, 0, 120, 40), true);
    assert_eq!(
        layout,
        AppLayout {
            sidebar: rect(0, 0, 60, 39),
            main: rect(60, 0, 60, 39),
            status_bar: rect(0, 39, 120, 1),
        }
    );
    let shifted = create_layout(rect(5, 3, 100, 20), true);
    assert_eq!(shifted.sidebar, rect(5, 3, 60, 19));
    assert_eq!(shifted.main, rect(65, 3, 40, 19));
    assert_eq!(shifted.status_bar, rect(5, 22, 100, 1));
}

#[test]
fn arranging_picks_the_areas() {
    let rows = (rect(0, 0, 10, 9), rect(0, 9, 10, 1));
    assert_eq!(
        arrange(rows, None),
        AppLayout { sidebar: rect(0, 0, 0, 0), main: rect(0, 0, 10, 9), status_bar: rect(0, 9, 10, 1) }
    );
    assert_eq!(
        arrange(rows, Some((rect(0, 0, 4, 9), rect(4, 0, 6, 9)))),
        AppLayout { sidebar: rect(0, 0, 4, 9), main: rect(4, 0, 6, 9), status_bar: rect(0, 9, 10, 1) }
    );
}

#[test]
fn the_parts_span_the_area() {
    for (area, sidebar) in [
        (rect(0, 0, 120, 40), true),
        (rect(7, 3, 200, 50), false),
        (rect(2, 9, 10, 1), true),
        (rect(4, 4, 0, 0), true),
        (rect(4, 4, 1, 1), false),
    ] {
        let layout = create_layout(area, sidebar);
        assert_eq!((layout.status_bar.x, layout.status_bar.width), (area.x, area.width));
        if sidebar {
            assert_eq!(
                (layout.sidebar.y, layout.sidebar.height),
                (layout.main.y, layout.main.height)
            );
        } else {
            assert_eq!((layout.main.x, layout.main.width), (area.x, area.width));
            assert_eq!(layout.sidebar, rect(0, 0, 0, 0));
        }
    }
}
