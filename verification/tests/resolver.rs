use kubectl_tail::cli::Cli;
use kubectl_tail::resolver::{
    defaults, explicit_pods, requested_contexts, plan_requests, resolve, watch_spec_for, ConfigError, Lookup, ResourceKind, ResourceRequest,
    WatchPredicate, WatchSpec,
};
use kubectl_tail::utils::{LabelSelector, LabelSelectorRequirement};

fn cli(args: &[&str]) -> Cli {
    let mut all = vec!["kubectl-tail"];
    all.extend_from_slice(args);
    Cli::try_parse_from(all).unwrap()
}

fn contexts(names: &[&str]) -> Vec<String> {
    names.iter().map(|s| s.to_string()).collect()
}

fn labels(pairs: &[(&str, &str)]) -> LabelSelector {
    LabelSelector {
        match_labels: Some(pairs.iter().map(|(k, v)| (k.to_string(), v.to_string())).collect()),
        match_expressions: None,
    }
}

fn request(cluster: &str, namespace: &str, kind: ResourceKind, name: &str) -> ResourceRequest {
    ResourceRequest {
        cluster: cluster.to_string(),
        namespace: namespace.to_string(),
        kind,
        name: name.to_string(),
    }
}

#[test]
fn kinds_are_read_by_name() {
    assert_eq!(ResourceKind::parse("pod"), Some(ResourceKind::Pod));
    assert_eq!(ResourceKind::parse("deployment"), Some(ResourceKind::Deployment));
    assert_eq!(ResourceKind::parse("statefulset"), Some(ResourceKind::StatefulSet));
    assert_eq!(ResourceKind::parse("daemonset"), Some(ResourceKind::DaemonSet));
    assert_eq!(ResourceKind::parse("replicaset"), Some(ResourceKind::ReplicaSet));
    assert_eq!(ResourceKind::parse("job"), Some(ResourceKind::Job));
    assert_eq!(ResourceKind::parse("Deployment"), None);
    assert_eq!(ResourceKind::parse("service"), None);
    assert!(!ResourceKind::Pod.controller());
    assert!(ResourceKind::Job.controller());
}

#[test]
fn references_inherit_the_defaults() {
    let requests = plan_requests(&cli(&["my-pod", "deployment/web"]), &contexts(&["east"])).unwrap();
    assert_eq!(requests.len(), 2);
    assert_eq!(requests[0].cluster, "east");
    assert_eq!(requests[0].namespace, "default");
    assert_eq!(requests[0].kind, ResourceKind::Pod);
    assert_eq!(requests[0].name, "my-pod");
    assert_eq!(requests[1].kind, ResourceKind::Deployment);
    assert_eq!(requests[1].name, "web");
}

#[test]
fn flags_set_the_defaults() {
    let requests = plan_requests(
        &cli(&["--context", "west", "-n", "prod", "job/migrate"]),
        &contexts(&["east", "west"]),
    )
    .unwrap();
    assert_eq!(requests[0].cluster, "west");
    assert_eq!(requests[0].namespace, "prod");
    assert_eq!(requests[0].kind, ResourceKind::Job);
}

#[test]
fn references_may_name_their_own_context_and_namespace() {
    let requests = plan_requests(
        &cli(&["west/prod/deployment/web", "prod/pod/db-0"]),
        &contexts(&["east", "west"]),
    )
    .unwrap();
    assert_eq!(requests[0].cluster, "west");
    assert_eq!(requests[0].namespace, "prod");
    assert_eq!(requests[1].cluster, "east");
    assert_eq!(requests[1].namespace, "prod");
    assert_eq!(requests[1].kind, ResourceKind::Pod);
}

#[test]
fn nothing_to_tail_is_an_error() {
    let err = plan_requests(&cli(&[]), &contexts(&["east"])).unwrap_err();
    assert!(matches!(err, ConfigError::NothingToTail));
    assert_eq!(
        err.message(),
        "Must specify at least one resource or a label selector (--selector)"
    );
    assert_eq!(err.exit_code(), 1);
}

#[test]
fn a_selector_alone_is_enough() {
    let requests = plan_requests(&cli(&["-l", "app=web"]), &contexts(&["east"])).unwrap();
    assert!(requests.is_empty());
}

#[test]
fn too_many_parts_are_an_error() {
    let err = plan_requests(&cli(&["a/b/c/d/e"]), &contexts(&["east"])).unwrap_err();
    assert!(matches!(err, ConfigError::InvalidResource(ref r) if r == "a/b/c/d/e"));
    assert_eq!(
        err.message(),
        "Failed to parse resource 'a/b/c/d/e': Invalid resource spec 'a/b/c/d/e': expected 1-4 parts separated by '/'"
    );
}

#[test]
fn a_context_beside_the_flag_is_an_error() {
    let err = plan_requests(
        &cli(&["--context", "east", "my-pod", "west/prod/pod/db-0"]),
        &contexts(&["east", "west"]),
    )
    .unwrap_err();
    assert!(matches!(err, ConfigError::ContextConflict(ref r) if r == "west/prod/pod/db-0"));
    assert_eq!(
        err.message(),
        "Cannot use both --context flag and context in resource spec 'west/prod/pod/db-0'"
    );
}

#[test]
fn a_namespace_in_a_reference_goes_before_the_flag() {
    let requests = plan_requests(
        &cli(&["-n", "foo", "bar/pod/x", "y", "baz/z", "deployment/web"]),
        &contexts(&["east"]),
    )
    .unwrap();
    assert_eq!(requests.len(), 4);
    assert_eq!((requests[0].namespace.as_str(), requests[0].name.as_str()), ("bar", "x"));
    assert_eq!((requests[1].namespace.as_str(), requests[1].name.as_str()), ("foo", "y"));
    assert_eq!((requests[2].namespace.as_str(), requests[2].name.as_str()), ("baz", "z"));
    assert_eq!(requests[2].kind, ResourceKind::Pod);
    assert_eq!((requests[3].namespace.as_str(), requests[3].name.as_str()), ("foo", "web"));
    assert_eq!(requests[3].kind, ResourceKind::Deployment);
}

#[test]
fn a_namespace_and_a_name_ask_for_a_pod() {
    let requests = plan_requests(&cli(&["prod/web"]), &contexts(&["east"])).unwrap();
    assert_eq!(requests.len(), 1);
    assert_eq!(requests[0].cluster, "east");
    assert_eq!(requests[0].namespace, "prod");
    assert_eq!(requests[0].kind, ResourceKind::Pod);
    assert_eq!(requests[0].name, "web");
    let lookups: Vec<Lookup> =
        requests.into_iter().map(|request| Lookup { request, selector: None }).collect();
    assert_eq!(
        resolve(&lookups, &None, "east", "default"),
        vec![WatchSpec {
            cluster: "east".to_string(),
            namespace: "prod".to_string(),
            predicate: WatchPredicate::FieldName("web".to_string()),
        }]
    );
}

#[test]
fn no_context_is_an_error() {
    let err = plan_requests(&cli(&["my-pod"]), &contexts(&[])).unwrap_err();
    assert!(matches!(err, ConfigError::NoContext));
    assert_eq!(err.message(), "No context available");
}

#[test]
fn an_unknown_kind_is_an_error() {
    let err = plan_requests(&cli(&["prod/service/web"]), &contexts(&["east"])).unwrap_err();
    assert!(matches!(err, ConfigError::UnknownKind(ref k) if k == "service"));
    assert_eq!(err.message(), "Unsupported resource type: service");
    let err =
        plan_requests(&cli(&["east/prod/Deployment/web"]), &contexts(&["east"])).unwrap_err();
    assert!(matches!(err, ConfigError::UnknownKind(ref k) if k == "Deployment"));
}

#[test]
fn an_unknown_context_is_an_error() {
    let err = plan_requests(&cli(&["north/prod/pod/db-0"]), &contexts(&["east"])).unwrap_err();
    assert!(matches!(err, ConfigError::UnknownContext(ref c) if c == "north"));
    assert_eq!(err.message(), "No client found for context 'north'");
}

#[test]
fn the_first_error_wins() {
    let err =
        plan_requests(&cli(&["ns/service/web", "a/b/c/d/e"]), &contexts(&["east"])).unwrap_err();
    assert!(matches!(err, ConfigError::InvalidResource(_)));
    let err =
        plan_requests(&cli(&["ns/service/web", "ns/cron/x"]), &contexts(&["east"])).unwrap_err();
    assert!(matches!(err, ConfigError::UnknownKind(ref k) if k == "service"));
}

#[test]
fn a_pod_is_watched_by_name() {
    let lookup = Lookup { request: request("east", "default", ResourceKind::Pod, "my-pod"), selector: None };
    let watch = watch_spec_for(&lookup).unwrap();
    assert_eq!(
        watch,
        WatchSpec {
            cluster: "east".to_string(),
            namespace: "default".to_string(),
            predicate: WatchPredicate::FieldName("my-pod".to_string()),
        }
    );
    assert_eq!(watch.predicate.field_selector(), Some("metadata.name=my-pod".to_string()));
    assert_eq!(watch.predicate.label_selector(), None);
}

#[test]
fn a_controller_is_watched_through_its_selector() {
    let lookup = Lookup {
        request: request("east", "default", ResourceKind::Deployment, "web"),
        selector: Some(labels(&[("app", "web")])),
    };
    let watch = watch_spec_for(&lookup).unwrap();
    assert_eq!(watch.predicate, WatchPredicate::Labels("app=web".to_string()));
    assert_eq!(watch.predicate.label_selector(), Some("app=web".to_string()));
    assert_eq!(watch.predicate.field_selector(), None);
}

#[test]
fn a_missing_controller_gives_no_watch() {
    let lookup = Lookup { request: request("east", "default", ResourceKind::Deployment, "web"), selector: None };
    assert!(watch_spec_for(&lookup).is_none());
}

#[test]
fn an_empty_selector_gives_no_watch() {
    let lookup = Lookup {
        request: request("east", "default", ResourceKind::StatefulSet, "db"),
        selector: Some(LabelSelector { match_labels: None, match_expressions: None }),
    };
    assert!(watch_spec_for(&lookup).is_none());
    let watches = resolve(&vec![lookup], &Some(String::new()), "east", "default");
    assert!(watches.is_empty());
}

#[test]
fn a_selector_that_does_not_convert_gives_no_watch() {
    let lookup = Lookup {
        request: request("east", "default", ResourceKind::Deployment, "web"),
        selector: Some(LabelSelector {
            match_labels: None,
            match_expressions: Some(vec![LabelSelectorRequirement {
                key: "env".to_string(),
                operator: "In".to_string(),
                values: None,
            }]),
        }),
    };
    assert!(watch_spec_for(&lookup).is_none());
}

#[test]
fn label_and_explicit_pod_give_two_watches() {
    let cli = cli(&["-l", "app=web", "my-pod"]);
    let known = contexts(&["default"]);
    let requests = plan_requests(&cli, &known).unwrap();
    let lookups: Vec<Lookup> =
        requests.into_iter().map(|request| Lookup { request, selector: None }).collect();
    let watches = resolve(&lookups, &cli.selector, "default", "default");
    assert_eq!(watches.len(), 2);
    assert!(watches.contains(&WatchSpec {
        cluster: "default".to_string(),
        namespace: "default".to_string(),
        predicate: WatchPredicate::Labels("app=web".to_string()),
    }));
    assert!(watches.contains(&WatchSpec {
        cluster: "default".to_string(),
        namespace: "default".to_string(),
        predicate: WatchPredicate::FieldName("my-pod".to_string()),
    }));
}

#[test]
fn equal_watches_are_run_once() {
    let lookups = vec![
        Lookup {
            request: request("east", "default", ResourceKind::Deployment, "web"),
            selector: Some(labels(&[("app", "web")])),
        },
        Lookup { request: request("east", "default", ResourceKind::Pod, "db-0"), selector: None },
        Lookup {
            request: request("east", "default", ResourceKind::ReplicaSet, "web-5d9"),
            selector: Some(labels(&[("app", "web")])),
        },
        Lookup { request: request("east", "default", ResourceKind::Pod, "db-0"), selector: None },
        Lookup { request: request("east", "prod", ResourceKind::Pod, "db-0"), selector: None },
    ];
    let watches = resolve(&lookups, &Some("app=web".to_string()), "east", "default");
    assert_eq!(
        watches,
        vec![
            WatchSpec {
                cluster: "east".to_string(),
                namespace: "default".to_string(),
                predicate: WatchPredicate::Labels("app=web".to_string()),
            },
            WatchSpec {
                cluster: "east".to_string(),
                namespace: "default".to_string(),
                predicate: WatchPredicate::FieldName("db-0".to_string()),
            },
            WatchSpec {
                cluster: "east".to_string(),
                namespace: "prod".to_string(),
                predicate: WatchPredicate::FieldName("db-0".to_string()),
            },
        ]
    );
}

#[test]
fn clients_are_needed_for_the_named_contexts() {
    assert!(requested_contexts(&cli(&["my-pod", "prod/pod/db-0"])).is_empty());
    assert_eq!(
        requested_contexts(&cli(&[
            "west/prod/pod/db-0",
            "my-pod",
            "east/prod/deployment/web",
            "west/dev/pod/x",
            "a/b/c/d/e",
        ])),
        vec!["west", "east"]
    );
    assert_eq!(
        requested_contexts(&cli(&["--context", "east", "west/prod/pod/db-0", "east/x/pod/y"])),
        vec!["east", "west"]
    );
    let (context, namespace) = defaults(&cli(&["my-pod"]), &contexts(&["east", "west"]));
    assert_eq!(context, Some("east".to_string()));
    assert_eq!(namespace, "default");
    let (context, namespace) =
        defaults(&cli(&["--context", "west", "-n", "prod", "my-pod"]), &contexts(&["east"]));
    assert_eq!(context, Some("west".to_string()));
    assert_eq!(namespace, "prod");
    let (context, _) = defaults(&cli(&["my-pod"]), &contexts(&[]));
    assert_eq!(context, None);
    let watches = vec![
        WatchSpec {
            cluster: "east".to_string(),
            namespace: "default".to_string(),
            predicate: WatchPredicate::FieldName("a".to_string()),
        },
        WatchSpec {
            cluster: "east".to_string(),
            namespace: "default".to_string(),
            predicate: WatchPredicate::Labels("app=web".to_string()),
        },
        WatchSpec {
            cluster: "west".to_string(),
            namespace: "default".to_string(),
            predicate: WatchPredicate::FieldName("b".to_string()),
        },
    ];
    assert_eq!(explicit_pods(&watches), vec!["a", "b"]);
}
