use kubectl_tail::selectors::{parse_selector, read_selector, to_label_selector, SelectorTerm};
use kubectl_tail::utils::{selector_to_labels_string, LabelSelector, LabelSelectorRequirement};

fn requirement(key: &str, operator: &str, values: Option<Vec<&str>>) -> LabelSelectorRequirement {
    LabelSelectorRequirement {
        key: key.to_string(),
        operator: operator.to_string(),
        values: values.map(|v| v.into_iter().map(|s| s.to_string()).collect()),
    }
}

fn shape(terms: &[SelectorTerm]) -> Vec<String> {
    terms.iter().map(|t| format!("{:?}", t)).collect()
}

#[test]
fn every_form_of_term_is_read() {
    let terms = read_selector(
        "app=shop,tier=,env in (canary,prod),zone notin (b),debug,!legacy,app.kubernetes.io/name=web",
    )
    .unwrap();
    assert_eq!(
        shape(&terms),
        vec![
            "Equal(\"app\", \"shop\")",
            "Equal(\"tier\", \"\")",
            "In(\"env\", [\"canary\", \"prod\"])",
            "NotIn(\"zone\", [\"b\"])",
            "Exists(\"debug\")",
            "DoesNotExist(\"legacy\")",
            "Equal(\"app.kubernetes.io/name\", \"web\")",
        ]
    );
}

#[test]
fn an_empty_text_has_no_terms() {
    assert!(read_selector("").unwrap().is_empty());
    let selector = parse_selector("").unwrap();
    assert_eq!(selector.match_labels, Some(Vec::new()));
    assert!(selector.match_expressions.unwrap().is_empty());
}

#[test]
fn texts_of_another_form_are_turned_down() {
    for text in [",", "a,", ",a", "a,,b", "a in x)", "a in(x)", "a near (x)", "a b", "k in (a", "a in (b)),c"] {
        assert!(read_selector(text).is_none(), "{:?} should not be read", text);
    }
}

#[test]
fn terms_become_labels_and_requirements() {
    let selector = parse_selector("b=2,env in (x,y),a=1,!old,new").unwrap();
    assert_eq!(
        selector.match_labels,
        Some(vec![("b".to_string(), "2".to_string()), ("a".to_string(), "1".to_string())])
    );
    let requirements = selector.match_expressions.unwrap();
    assert_eq!(requirements.len(), 3);
    assert_eq!(requirements[0].key, "env");
    assert_eq!(requirements[0].operator, "In");
    assert_eq!(requirements[0].values, Some(vec!["x".to_string(), "y".to_string()]));
    assert_eq!(requirements[1].key, "old");
    assert_eq!(requirements[1].operator, "DoesNotExist");
    assert_eq!(requirements[1].values, None);
    assert_eq!(requirements[2].key, "new");
    assert_eq!(requirements[2].operator, "Exists");
    let again = to_label_selector(&read_selector("b=2").unwrap());
    assert_eq!(again.match_labels, Some(vec![("b".to_string(), "2".to_string())]));
}

#[test]
fn a_selector_survives_the_round_trip() {
    let selector = LabelSelector {
        match_labels: Some(vec![
            ("tier".to_string(), "web".to_string()),
            ("app".to_string(), "shop".to_string()),
        ]),
        match_expressions: Some(vec![
            requirement("env", "In", Some(vec!["prod", "canary", "prod"])),
            requirement("zone", "NotIn", Some(vec!["b"])),
            requirement("debug", "DoesNotExist", None),
            requirement("ready", "Exists", Some(vec!["ignored"])),
        ]),
    };
    let text = selector_to_labels_string(&selector).unwrap();
    assert_eq!(text, "app=shop,tier=web,env in (canary,prod),zone notin (b),!debug,ready");
    let back = parse_selector(&text).unwrap();
    assert_eq!(selector_to_labels_string(&back), Some(text));
    assert_eq!(
        back.match_labels,
        Some(vec![
            ("app".to_string(), "shop".to_string()),
            ("tier".to_string(), "web".to_string()),
        ])
    );
}
