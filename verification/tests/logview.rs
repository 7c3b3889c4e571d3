use kubectl_tail::grep::Grep;
use kubectl_tail::types::{LogMessage, Timestamp};
use kubectl_tail::ui::logview::{
    compile_search, format_line, format_time, highlight, LogView, Piece, Span,
};
use kubectl_tail::ui::widgets::Style;
use kubectl_tail::utils::{get_color, Color};

fn message(line: &str) -> LogMessage {
    LogMessage {
        cluster: "east".to_string(),
        namespace: "prod".to_string(),
        pod_name: "web-1".to_string(),
        container_name: "srv".to_string(),
        line: line.to_string(),
        timestamp: Timestamp { secs: 1_700_000_000, nanos: 123_456_789 },
    }
}

fn cut(pieces: &[Piece]) -> Vec<(String, bool)> {
    pieces.iter().map(|p| (p.text.clone(), p.matched)).collect()
}

fn plain() -> Style {
    Style { fg: None, bg: None, bold: false, reversed: false }
}

fn standing_out() -> Style {
    Style { fg: Some(Color::Black), bg: Some(Color::Yellow), bold: true, reversed: false }
}

fn shown(spans: &[Span]) -> Vec<(String, Style)> {
    spans.iter().map(|s| (s.text.clone(), s.style)).collect()
}

#[test]
fn matches_are_cut_out() {
    assert_eq!(
        cut(&highlight("an error, an Error", &vec![(3, 8), (13, 18)])),
        vec![
            ("an ".to_string(), false),
            ("error".to_string(), true),
            (", an ".to_string(), false),
            ("Error".to_string(), true),
        ]
    );
    assert_eq!(
        cut(&highlight("error at start", &vec![(0, 5)])),
        vec![("error".to_string(), true), (" at start".to_string(), false)]
    );
    assert_eq!(
        cut(&highlight("abab", &vec![(0, 2), (2, 4)])),
        vec![("ab".to_string(), true), ("ab".to_string(), true)]
    );
    assert_eq!(cut(&highlight("none", &vec![])), vec![("none".to_string(), false)]);
    assert_eq!(cut(&highlight("", &vec![])), Vec::<(String, bool)>::new());
    assert_eq!(
        cut(&highlight("ab", &vec![(1, 1)])),
        vec![("a".to_string(), false), (String::new(), true), ("b".to_string(), false)]
    );
}

#[test]
fn characters_of_several_bytes_are_kept_whole() {
    assert_eq!(
        cut(&highlight("größe 10", &vec![(2, 6)])),
        vec![("gr".to_string(), false), ("öß".to_string(), true), ("e 10".to_string(), false)]
    );
}

#[test]
fn ranges_that_cannot_be_cut_leave_the_text_whole() {
    let whole = vec![("größe".to_string(), false)];
    assert_eq!(cut(&highlight("größe", &vec![(3, 4)])), whole);
    assert_eq!(cut(&highlight("größe", &vec![(2, 3)])), whole);
    assert_eq!(cut(&highlight("größe", &vec![(0, 99)])), whole);
    assert_eq!(cut(&highlight("größe", &vec![(4, 2)])), whole);
    assert_eq!(cut(&highlight("größe", &vec![(0, 2), (1, 2)])), whole);
    assert_eq!(cut(&highlight("größe", &vec![(0, 1), (usize::MAX, usize::MAX)])), whole);
}

#[test]
fn the_time_of_day_has_milliseconds() {
    assert_eq!(format_time(Timestamp { secs: 0, nanos: 0 }), "00:00:00.000 ");
    assert_eq!(format_time(Timestamp { secs: 1_700_000_000, nanos: 123_456_789 }), "22:13:20.123 ");
    assert_eq!(format_time(Timestamp { secs: 86399, nanos: 999_999_999 }), "23:59:59.999 ");
    assert_eq!(format_time(Timestamp { secs: -1, nanos: 5_000_000 }), "23:59:59.005 ");
    assert_eq!(format_time(Timestamp { secs: -86400, nanos: 0 }), "00:00:00.000 ");
    assert_eq!(format_time(Timestamp { secs: -86401, nanos: 0 }), "23:59:59.000 ");
    assert_eq!(format_time(Timestamp { secs: i64::MIN, nanos: 0 }), "08:29:52.000 ");
    assert_eq!(format_time(Timestamp { secs: i64::MAX, nanos: 0 }), "15:30:07.000 ");
    assert_eq!(format_time(Timestamp { secs: 60, nanos: 1_999_999_999 }), "00:01:00.999 ");
}

#[test]
fn a_line_without_search_is_one_plain_span() {
    let msg = message("hello");
    assert_eq!(shown(&format_line(&msg, &None, false, false)), vec![("hello".to_string(), plain())]);
    let empty = message("");
    assert_eq!(shown(&format_line(&empty, &None, false, false)), vec![(String::new(), plain())]);
}

#[test]
fn the_time_and_the_prefix_come_first() {
    let msg = message("hello");
    assert_eq!(
        shown(&format_line(&msg, &None, true, true)),
        vec![
            (
                "22:13:20.123 ".to_string(),
                Style { fg: Some(Color::DarkGray), bg: None, bold: false, reversed: false },
            ),
            (
                "[east.prod/web-1/srv]".to_string(),
                Style { fg: Some(get_color("east/web-1")), bg: None, bold: false, reversed: false },
            ),
            (" ".to_string(), plain()),
            ("hello".to_string(), plain()),
        ]
    );
}

#[test]
fn search_matches_stand_out() {
    let search = Some(Grep::compile_ignoring_case("err").unwrap());
    assert_eq!(
        shown(&format_line(&message("an ERROR: err!"), &search, false, false)),
        vec![
            ("an ".to_string(), plain()),
            ("ERR".to_string(), standing_out()),
            ("OR: ".to_string(), plain()),
            ("err".to_string(), standing_out()),
            ("!".to_string(), plain()),
        ]
    );
    assert_eq!(
        shown(&format_line(&message("fine"), &search, false, false)),
        vec![("fine".to_string(), plain())]
    );
    assert!(format_line(&message(""), &search, false, false).is_empty());
}

#[test]
fn the_search_is_compiled_from_the_pattern() {
    assert!(compile_search("").is_none());
    assert!(compile_search("(").is_none());
    assert!(compile_search("warn").unwrap().matches("WARNING"));
}

#[test]
fn the_log_view_formats_with_its_settings() {
    let msg = message("disk is FULL");
    let view = LogView::new(vec![&msg], 70000, "full", false, false);
    assert_eq!(view.logs.len(), 1);
    assert_eq!(view.scroll(), (70000 % 65536) as u16);
    assert_eq!(
        shown(&view.format_log_line(&msg)),
        vec![("disk is ".to_string(), plain()), ("FULL".to_string(), standing_out())]
    );
    let broken = LogView::new(vec![&msg], 3, "(", false, false);
    assert_eq!(broken.scroll(), 3);
    assert_eq!(shown(&broken.format_log_line(&msg)), vec![("disk is FULL".to_string(), plain())]);
}

#[test]
fn ranges_are_byte_offsets() {
    let grep = Grep::compile("ö+").unwrap();
    assert_eq!(grep.ranges("aöö b ö"), vec![(1, 5), (8, 10)]);
    assert_eq!(grep.ranges("none"), Vec::<(usize, usize)>::new());
}
