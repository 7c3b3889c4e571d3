use std::hash::{Hash, Hasher};

use kubectl_tail::utils::{
    get_color, get_crossterm_color, parse_resource_spec, selector_labels,
    selector_to_labels_string, slot_for_hash, color_for_hash, stdout_color_for_hash,
    strip_ansi_codes, Color, LabelSelector, LabelSelectorRequirement,
};

#[test]
fn test_selector_to_labels_string() {
    let mut labels = Vec::new();
    labels.push(("app".to_string(), "nginx".to_string()));
    labels.push(("version".to_string(), "v1".to_string()));
    let selector = LabelSelector {
        match_labels: Some(labels),
        match_expressions: None,
    };
    let result = selector_to_labels_string(&selector);
    assert_eq!(result, Some("app=nginx,version=v1".to_string()));
}

#[test]
fn test_selector_to_labels_string_includes_expressions() {
    let expr = LabelSelectorRequirement {
        key: "env".to_string(),
        operator: "Exists".to_string(),
        values: None,
    };
    let selector = LabelSelector {
        match_labels: None,
        match_expressions: Some(vec![expr]),
    };

    let result = selector_to_labels_string(&selector);
    assert_eq!(result, Some("env".to_string()));
}

fn requirement(key: &str, operator: &str, values: Option<Vec<&str>>) -> LabelSelectorRequirement {
    LabelSelectorRequirement {
        key: key.to_string(),
        operator: operator.to_string(),
        values: values.map(|v| v.into_iter().map(|s| s.to_string()).collect()),
    }
}

#[test]
fn labels_come_sorted_by_key_and_before_the_expressions() {
    let selector = LabelSelector {
        match_labels: Some(vec![
            ("tier".to_string(), "web".to_string()),
            ("app".to_string(), "shop".to_string()),
        ]),
        match_expressions: Some(vec![
            requirement("env", "In", Some(vec!["prod", "canary"])),
            requirement("zone", "NotIn", Some(vec!["b"])),
            requirement("debug", "DoesNotExist", None),
        ]),
    };
    assert_eq!(
        selector_to_labels_string(&selector),
        Some("app=shop,tier=web,env in (canary,prod),zone notin (b),!debug".to_string())
    );
}

#[test]
fn an_empty_selector_has_no_text() {
    let none = LabelSelector { match_labels: None, match_expressions: None };
    assert_eq!(selector_to_labels_string(&none), None);
    let empty = LabelSelector { match_labels: Some(Vec::new()), match_expressions: Some(Vec::new()) };
    assert_eq!(selector_to_labels_string(&empty), None);
}

#[test]
fn a_selector_that_does_not_convert_has_no_text() {
    let bad_operator = LabelSelector {
        match_labels: Some(vec![("app".to_string(), "web".to_string())]),
        match_expressions: Some(vec![requirement("env", "Near", None)]),
    };
    assert_eq!(selector_to_labels_string(&bad_operator), None);
    let no_values = LabelSelector {
        match_labels: None,
        match_expressions: Some(vec![requirement("env", "In", None)]),
    };
    assert_eq!(selector_to_labels_string(&no_values), None);
}

#[test]
fn selector_labels_renders_what_a_conversion_gave() {
    let typed: kube::core::Selector =
        [kube::core::Expression::NotEqual("app".to_string(), "db".to_string())]
            .into_iter()
            .collect();
    assert_eq!(selector_labels(Ok(typed)), Some("app!=db".to_string()));
    let all: kube::core::Selector = kube::core::Selector::default();
    assert_eq!(selector_labels(Ok(all)), None);
    assert_eq!(
        selector_labels(Err(kube::core::ParseExpressionError("bad".to_string()))),
        None
    );
}

#[test]
fn one_part_is_a_name() {
    let spec = parse_resource_spec("my-pod").unwrap();
    assert_eq!(spec.name, "my-pod");
    assert_eq!(spec.kind, None);
    assert_eq!(spec.namespace, None);
    assert_eq!(spec.context, None);
}

#[test]
fn two_parts_are_kind_and_name() {
    let spec = parse_resource_spec("deployment/web").unwrap();
    assert_eq!(spec.name, "web");
    assert_eq!(spec.kind, Some("deployment".to_string()));
    assert_eq!(spec.namespace, None);
    assert_eq!(spec.context, None);
}

#[test]
fn three_parts_are_namespace_kind_and_name() {
    let spec = parse_resource_spec("prod/deployment/web").unwrap();
    assert_eq!(spec.name, "web");
    assert_eq!(spec.kind, Some("deployment".to_string()));
    assert_eq!(spec.namespace, Some("prod".to_string()));
    assert_eq!(spec.context, None);
}

#[test]
fn four_parts_are_context_namespace_kind_and_name() {
    let spec = parse_resource_spec("east-cluster/prod/deployment/web").unwrap();
    assert_eq!(spec.name, "web");
    assert_eq!(spec.kind, Some("deployment".to_string()));
    assert_eq!(spec.namespace, Some("prod".to_string()));
    assert_eq!(spec.context, Some("east-cluster".to_string()));
}

#[test]
fn five_parts_are_too_many() {
    let err = parse_resource_spec("a/b/c/d/e").unwrap_err();
    assert_eq!(
        err,
        "Invalid resource spec 'a/b/c/d/e': expected 1-4 parts separated by '/'"
    );
}

#[test]
fn empty_parts_are_kept() {
    let spec = parse_resource_spec("").unwrap();
    assert_eq!(spec.name, "");
    assert_eq!(spec.kind, None);
    let spec = parse_resource_spec("pod/").unwrap();
    assert_eq!(spec.name, "");
    assert_eq!(spec.kind, Some("pod".to_string()));
    let spec = parse_resource_spec("/web").unwrap();
    assert_eq!(spec.name, "web");
    assert_eq!(spec.kind, None);
    assert_eq!(spec.namespace, Some(String::new()));
    let spec = parse_resource_spec("//web").unwrap();
    assert_eq!(spec.name, "web");
    assert_eq!(spec.kind, Some(String::new()));
    assert_eq!(spec.namespace, Some(String::new()));
}

#[test]
fn the_slot_is_the_low_half_of_the_hash_modulo_the_palette() {
    assert_eq!(slot_for_hash(0), 0);
    assert_eq!(slot_for_hash(13), 13);
    assert_eq!(slot_for_hash(14), 0);
    assert_eq!(slot_for_hash(0x1_0000_0000), 0);
    assert_eq!(slot_for_hash(0xffff_ffff), 3);
    assert_eq!(slot_for_hash(0xdead_beef_0000_0005), 5);
    assert_eq!(slot_for_hash(u64::MAX), 3);
}

#[test]
fn the_palettes_are_in_order() {
    let tui = [
        Color::Red,
        Color::Green,
        Color::Blue,
        Color::Yellow,
        Color::Magenta,
        Color::Cyan,
        Color::White,
        Color::Gray,
        Color::LightRed,
        Color::LightGreen,
        Color::LightBlue,
        Color::LightYellow,
        Color::LightMagenta,
        Color::LightCyan,
    ];
    let plain = [
        Color::Red,
        Color::Green,
        Color::Blue,
        Color::Yellow,
        Color::Magenta,
        Color::Cyan,
        Color::White,
        Color::Gray,
        Color::Indexed(91),
        Color::Indexed(92),
        Color::Indexed(94),
        Color::Indexed(93),
        Color::Indexed(95),
        Color::Indexed(96),
    ];
    for i in 0..14u64 {
        assert_eq!(color_for_hash(i), tui[i as usize]);
        assert_eq!(stdout_color_for_hash(i + 28), plain[i as usize]);
    }
}

#[test]
fn a_string_keeps_its_colour() {
    assert_eq!(get_color("east/web-1"), get_color("east/web-1"));
    assert_eq!(get_crossterm_color("east/web-1"), get_crossterm_color("east/web-1"));
}

#[test]
fn the_colour_follows_the_default_hasher() {
    for s in ["", "a", "default/my-pod", "east/web-1", "east/web-2"] {
        let mut hasher = std::collections::hash_map::DefaultHasher::new();
        s.hash(&mut hasher);
        let hash = hasher.finish();
        assert_eq!(get_color(s), color_for_hash(hash));
        assert_eq!(get_crossterm_color(s), stdout_color_for_hash(hash));
    }
    let differs = ["a", "b", "c", "d", "e", "f", "g", "h"]
        .iter()
        .any(|s| get_color(s) != get_color("a"));
    assert!(differs);
}

#[test]
fn escape_sequences_are_stripped() {
    assert_eq!(strip_ansi_codes("\x1b[31mred\x1b[0m plain"), "red plain");
    assert_eq!(strip_ansi_codes("no escapes"), "no escapes");
    assert_eq!(strip_ansi_codes("\x1b[1;32mok\x1b[m\x1bM!"), "ok!");
    assert_eq!(strip_ansi_codes(""), "");
}

#[test]
fn labels_follow_the_order_of_strings() {
    let selector = LabelSelector {
        match_labels: Some(vec![
            ("b".to_string(), "1".to_string()),
            ("B".to_string(), "2".to_string()),
            ("ä".to_string(), "3".to_string()),
            ("a".to_string(), "4".to_string()),
            ("ab".to_string(), "5".to_string()),
        ]),
        match_expressions: Some(vec![requirement("k", "In", Some(vec!["z", "Z", "é", "a", "z"]))]),
    };
    assert_eq!(
        selector_to_labels_string(&selector),
        Some("B=2,a=4,ab=5,b=1,ä=3,k in (Z,a,z,é)".to_string())
    );
}

#[test]
fn two_parts_are_namespace_and_name_where_the_first_is_no_kind() {
    let spec = parse_resource_spec("prod/web").unwrap();
    assert_eq!(spec.name, "web");
    assert_eq!(spec.kind, None);
    assert_eq!(spec.namespace, Some("prod".to_string()));
    assert_eq!(spec.context, None);
    for kind in ["pod", "deployment", "statefulset", "daemonset", "replicaset", "job"] {
        let spec = parse_resource_spec(&format!("{}/web", kind)).unwrap();
        assert_eq!(spec.kind, Some(kind.to_string()));
        assert_eq!(spec.namespace, None);
        assert_eq!(spec.name, "web");
    }
    let spec = parse_resource_spec("Deployment/web").unwrap();
    assert_eq!(spec.kind, None);
    assert_eq!(spec.namespace, Some("Deployment".to_string()));
}
