use kubectl_tail::supervisor::{
    PodPhase, PodPresenceEvent, PodSnapshot, Supervisor, SupervisorAction,
};
use kubectl_tail::types::PodKey;

fn key(cluster: &str, namespace: &str, pod: &str, container: &str) -> PodKey {
    PodKey {
        cluster: cluster.to_string(),
        namespace: namespace.to_string(),
        pod_name: pod.to_string(),
        container_name: container.to_string(),
    }
}

fn pod(name: &str, phase: PodPhase, containers: &[&str]) -> PodSnapshot {
    PodSnapshot {
        name: name.to_string(),
        phase,
        terminating: false,
        containers: containers.iter().map(|c| c.to_string()).collect(),
    }
}

fn started(actions: &[SupervisorAction]) -> Vec<(PodKey, u64)> {
    actions
        .iter()
        .filter_map(|a| match a {
            SupervisorAction::Start { key, generation } => Some((key.clone(), *generation)),
            SupervisorAction::Stop { .. } => None,
        })
        .collect()
}

fn stopped(actions: &[SupervisorAction]) -> Vec<(PodKey, u64)> {
    actions
        .iter()
        .filter_map(|a| match a {
            SupervisorAction::Stop { key, generation } => Some((key.clone(), *generation)),
            SupervisorAction::Start { .. } => None,
        })
        .collect()
}

#[test]
fn phases_are_read_by_name() {
    assert_eq!(PodPhase::parse("Pending"), PodPhase::Pending);
    assert_eq!(PodPhase::parse("Running"), PodPhase::Running);
    assert_eq!(PodPhase::parse("Succeeded"), PodPhase::Succeeded);
    assert_eq!(PodPhase::parse("Failed"), PodPhase::Failed);
    assert_eq!(PodPhase::parse("Unknown"), PodPhase::Unknown);
    assert_eq!(PodPhase::parse("Terminating"), PodPhase::Unknown);
    assert!(PodPhase::Running.active());
    assert!(PodPhase::Pending.active());
    assert!(!PodPhase::Succeeded.active());
    assert!(!PodPhase::Failed.active());
    assert!(!PodPhase::Unknown.active());
    assert_eq!(PodPhase::Running.name(), "Running");
    assert_eq!(PodPhase::Unknown.name(), "Unknown");
}

#[test]
fn a_running_pod_has_every_container_followed() {
    let mut sup = Supervisor::new(None);
    let actions = sup.apply(
        "east",
        "default",
        &PodPresenceEvent::Appeared(pod("web-1", PodPhase::Running, &["srv", "sidecar"])),
    );
    assert_eq!(
        started(&actions),
        vec![
            (key("east", "default", "web-1", "srv"), 0),
            (key("east", "default", "web-1", "sidecar"), 1),
        ]
    );
    assert!(stopped(&actions).is_empty());
    assert_eq!(sup.len(), 2);
    assert!(sup.is_following(&key("east", "default", "web-1", "srv")));
    assert!(sup.is_following(&key("east", "default", "web-1", "sidecar")));
    assert!(!sup.is_following(&key("east", "default", "web-2", "srv")));
    assert!(sup.is_following_pod("east", "default", "web-1"));
    assert!(!sup.is_following_pod("west", "default", "web-1"));
    assert_eq!(sup.generation_of(&key("east", "default", "web-1", "sidecar")), Some(1));
    assert_eq!(sup.generation_of(&key("east", "default", "web-1", "nope")), None);
}

#[test]
fn a_pending_pod_is_followed_too() {
    let mut sup = Supervisor::new(None);
    let actions = sup.apply(
        "east",
        "default",
        &PodPresenceEvent::Appeared(pod("web-1", PodPhase::Pending, &["srv"])),
    );
    assert_eq!(started(&actions).len(), 1);
    let actions = sup.apply(
        "east",
        "default",
        &PodPresenceEvent::Modified(pod("web-1", PodPhase::Running, &["srv"])),
    );
    assert!(actions.is_empty());
    assert_eq!(sup.len(), 1);
}

#[test]
fn the_same_event_twice_is_the_same_as_once() {
    let mut sup = Supervisor::new(None);
    let event = PodPresenceEvent::Appeared(pod("web-1", PodPhase::Running, &["srv", "sidecar"]));
    let first = sup.apply("east", "default", &event);
    assert_eq!(first.len(), 2);
    let followed = sup.followed();
    let second = sup.apply("east", "default", &event);
    assert!(second.is_empty());
    assert_eq!(sup.followed(), followed);
    assert_eq!(sup.generation_of(&key("east", "default", "web-1", "srv")), Some(0));
}

#[test]
fn a_pod_that_leaves_the_active_phases_is_dropped() {
    for phase in [PodPhase::Succeeded, PodPhase::Failed, PodPhase::Unknown] {
        let mut sup = Supervisor::new(None);
        sup.apply(
            "east",
            "default",
            &PodPresenceEvent::Appeared(pod("job-1", PodPhase::Running, &["main", "log"])),
        );
        sup.apply(
            "east",
            "default",
            &PodPresenceEvent::Appeared(pod("web-1", PodPhase::Running, &["srv"])),
        );
        let actions = sup.apply(
            "east",
            "default",
            &PodPresenceEvent::Modified(pod("job-1", phase, &["main", "log"])),
        );
        assert_eq!(
            stopped(&actions),
            vec![
                (key("east", "default", "job-1", "main"), 0),
                (key("east", "default", "job-1", "log"), 1),
            ]
        );
        assert!(started(&actions).is_empty());
        assert_eq!(sup.followed(), vec![key("east", "default", "web-1", "srv")]);
    }
}

#[test]
fn a_pod_that_disappears_has_all_its_tasks_stopped() {
    let mut sup = Supervisor::new(None);
    sup.apply(
        "east",
        "default",
        &PodPresenceEvent::Appeared(pod("web-1", PodPhase::Running, &["srv", "sidecar"])),
    );
    sup.apply(
        "east",
        "prod",
        &PodPresenceEvent::Appeared(pod("web-1", PodPhase::Running, &["srv"])),
    );
    let actions =
        sup.apply("east", "default", &PodPresenceEvent::Disappeared("web-1".to_string()));
    assert_eq!(stopped(&actions).len(), 2);
    assert!(!sup.is_following_pod("east", "default", "web-1"));
    assert!(sup.is_following_pod("east", "prod", "web-1"));
    let again =
        sup.apply("east", "default", &PodPresenceEvent::Disappeared("web-1".to_string()));
    assert!(again.is_empty());
}

#[test]
fn a_pod_without_containers_has_no_task() {
    let mut sup = Supervisor::new(None);
    let actions = sup.apply(
        "east",
        "default",
        &PodPresenceEvent::Appeared(pod("empty", PodPhase::Running, &[])),
    );
    assert!(actions.is_empty());
    assert_eq!(sup.len(), 0);
}

#[test]
fn a_filter_follows_only_the_named_container() {
    let mut sup = Supervisor::new(Some("srv".to_string()));
    let actions = sup.apply(
        "east",
        "default",
        &PodPresenceEvent::Appeared(pod("web-1", PodPhase::Running, &["init", "srv", "sidecar"])),
    );
    assert_eq!(started(&actions), vec![(key("east", "default", "web-1", "srv"), 0)]);
    assert_eq!(sup.len(), 1);
}

#[test]
fn a_filter_for_a_missing_container_follows_nothing_until_it_exists() {
    let mut sup = Supervisor::new(Some("srv".to_string()));
    let actions = sup.apply(
        "east",
        "default",
        &PodPresenceEvent::Appeared(pod("web-1", PodPhase::Running, &["init"])),
    );
    assert!(actions.is_empty());
    assert_eq!(sup.len(), 0);
    let actions = sup.apply(
        "east",
        "default",
        &PodPresenceEvent::Modified(pod("web-1", PodPhase::Running, &["init", "srv"])),
    );
    assert_eq!(started(&actions), vec![(key("east", "default", "web-1", "srv"), 0)]);
}

#[test]
fn a_changed_container_set_stops_what_vanished_and_starts_what_is_new() {
    let mut sup = Supervisor::new(None);
    sup.apply(
        "east",
        "default",
        &PodPresenceEvent::Appeared(pod("web-1", PodPhase::Running, &["srv", "old"])),
    );
    let actions = sup.apply(
        "east",
        "default",
        &PodPresenceEvent::Modified(pod("web-1", PodPhase::Running, &["srv", "new"])),
    );
    assert_eq!(stopped(&actions), vec![(key("east", "default", "web-1", "old"), 1)]);
    assert_eq!(started(&actions), vec![(key("east", "default", "web-1", "new"), 2)]);
    assert_eq!(
        sup.followed(),
        vec![key("east", "default", "web-1", "srv"), key("east", "default", "web-1", "new")]
    );
}

#[test]
fn a_restarted_task_gets_a_new_generation() {
    let mut sup = Supervisor::new(None);
    sup.apply(
        "east",
        "default",
        &PodPresenceEvent::Appeared(pod("web-1", PodPhase::Running, &["srv"])),
    );
    sup.apply("east", "default", &PodPresenceEvent::Disappeared("web-1".to_string()));
    let actions = sup.apply(
        "east",
        "default",
        &PodPresenceEvent::Appeared(pod("web-1", PodPhase::Running, &["srv"])),
    );
    assert_eq!(started(&actions), vec![(key("east", "default", "web-1", "srv"), 1)]);
}

#[test]
fn a_container_listed_twice_is_followed_once() {
    let mut sup = Supervisor::new(None);
    let actions = sup.apply(
        "east",
        "default",
        &PodPresenceEvent::Appeared(pod("web-1", PodPhase::Running, &["srv", "srv"])),
    );
    assert_eq!(actions.len(), 1);
    assert_eq!(sup.len(), 1);
}

#[test]
fn the_progress_of_the_watch_changes_nothing() {
    let mut sup = Supervisor::new(None);
    sup.apply(
        "east",
        "default",
        &PodPresenceEvent::Appeared(pod("web-1", PodPhase::Running, &["srv"])),
    );
    assert!(sup.apply("east", "default", &PodPresenceEvent::WatchInit).is_empty());
    assert!(sup.apply("east", "default", &PodPresenceEvent::WatchInitDone).is_empty());
    assert_eq!(sup.len(), 1);
}

#[test]
fn after_a_run_of_events_the_latest_sighting_of_each_pod_decides() {
    let mut sup = Supervisor::new(None);
    let events = vec![
        ("east", PodPresenceEvent::Appeared(pod("a", PodPhase::Pending, &["x"]))),
        ("east", PodPresenceEvent::Appeared(pod("b", PodPhase::Running, &["x", "y"]))),
        ("west", PodPresenceEvent::Appeared(pod("a", PodPhase::Running, &["x"]))),
        ("east", PodPresenceEvent::Modified(pod("a", PodPhase::Running, &["x"]))),
        ("east", PodPresenceEvent::Modified(pod("b", PodPhase::Succeeded, &["x", "y"]))),
        ("west", PodPresenceEvent::Disappeared("a".to_string())),
        ("west", PodPresenceEvent::Appeared(pod("c", PodPhase::Failed, &["x"]))),
        ("east", PodPresenceEvent::Appeared(pod("d", PodPhase::Running, &["z"]))),
    ];
    for (cluster, event) in &events {
        sup.apply(cluster, "default", event);
    }
    assert_eq!(
        sup.followed(),
        vec![key("east", "default", "a", "x"), key("east", "default", "d", "z")]
    );
}
