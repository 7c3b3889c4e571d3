//! The tail supervisor: which containers are being followed, and what has to
//! start or stop when a pod appears, changes or goes away.
//!
//! The supervisor decides; it runs nothing. The caller hands it each pod
//! presence event in the order of receipt, and carries out the actions it
//! returns: starting a follow task under the generation given, or cancelling
//! the one that runs under it.

use crate::text::{contains_str, same, views};
use crate::types::{opt_view, PodKey, PodKeyView};
use vstd::prelude::*;
use vstd::string::*;

verus! {

/// The phase of a pod, as the cluster reports it.
#[derive(Clone, Copy, Debug, PartialEq, Eq, Structural)]
pub enum PodPhase {
    Pending,
    Running,
    Succeeded,
    Failed,
    Unknown,
}

impl PodPhase {
    /// The phase that a reported phase name stands for; any other name is
    /// `Unknown`.
    pub open spec fn of(name: Seq<char>) -> PodPhase {
        if name == "Pending"@ {
            PodPhase::Pending
        } else if name == "Running"@ {
            PodPhase::Running
        } else if name == "Succeeded"@ {
            PodPhase::Succeeded
        } else if name == "Failed"@ {
            PodPhase::Failed
        } else {
            PodPhase::Unknown
        }
    }

    /// Reads a reported phase name.
    pub fn parse(name: &str) -> (r: PodPhase)
        ensures
            r == Self::of(name@),
    {
        if same(name, "Pending") {
            PodPhase::Pending
        } else if same(name, "Running") {
            PodPhase::Running
        } else if same(name, "Succeeded") {
            PodPhase::Succeeded
        } else if same(name, "Failed") {
            PodPhase::Failed
        } else {
            PodPhase::Unknown
        }
    }

    /// Pods are followed while they are running or pending.
    pub open spec fn is_active(self) -> bool {
        self == PodPhase::Running || self == PodPhase::Pending
    }

    /// Pods are followed while they are running or pending.
    pub fn active(self) -> (r: bool)
        ensures
            r == self.is_active(),
    {
        match self {
            PodPhase::Running => true,
            PodPhase::Pending => true,
            _ => false,
        }
    }

    /// The name under which the cluster reports the phase.
    pub open spec fn name_of(self) -> Seq<char> {
        match self {
            PodPhase::Pending => "Pending"@,
            PodPhase::Running => "Running"@,
            PodPhase::Succeeded => "Succeeded"@,
            PodPhase::Failed => "Failed"@,
            PodPhase::Unknown => "Unknown"@,
        }
    }

    /// The name under which the cluster reports the phase.
    pub fn name(self) -> (r: String)
        ensures
            r@ == self.name_of(),
    {
        match self {
            PodPhase::Pending => String::from_str("Pending"),
            PodPhase::Running => String::from_str("Running"),
            PodPhase::Succeeded => String::from_str("Succeeded"),
            PodPhase::Failed => String::from_str("Failed"),
            PodPhase::Unknown => String::from_str("Unknown"),
        }
    }
}

/// A pod as a watch reports it: its name, phase, whether it is being deleted,
/// and the names of its containers.
#[derive(Debug)]
pub struct PodSnapshot {
    pub name: String,
    pub phase: PodPhase,
    pub terminating: bool,
    pub containers: Vec<String>,
}

/// A normalized pod lifecycle event.
#[derive(Debug)]
pub enum PodPresenceEvent {
    /// A pod is there that the watch had not reported before.
    Appeared(PodSnapshot),
    /// A pod that the watch had reported has changed.
    Modified(PodSnapshot),
    /// The pod of this name is gone.
    Disappeared(String),
    /// The watch starts to list the pods again.
    WatchInit,
    /// The watch has listed all pods.
    WatchInitDone,
}

/// What a `PodSnapshot` is in contracts.
pub struct PodSnapshotView {
    pub name: Seq<char>,
    pub phase: PodPhase,
    pub terminating: bool,
    pub containers: Seq<Seq<char>>,
}

/// What a `PodPresenceEvent` is in contracts.
pub enum PodPresenceEventView {
    Appeared(PodSnapshotView),
    Modified(PodSnapshotView),
    Disappeared(Seq<char>),
    WatchInit,
    WatchInitDone,
}

impl View for PodSnapshot {
    type V = PodSnapshotView;

    open spec fn view(&self) -> PodSnapshotView {
        PodSnapshotView {
            name: self.name@,
            phase: self.phase,
            terminating: self.terminating,
            containers: views(self.containers@),
        }
    }
}

impl View for PodPresenceEvent {
    type V = PodPresenceEventView;

    open spec fn view(&self) -> PodPresenceEventView {
        match self {
            PodPresenceEvent::Appeared(p) => PodPresenceEventView::Appeared(p@),
            PodPresenceEvent::Modified(p) => PodPresenceEventView::Modified(p@),
            PodPresenceEvent::Disappeared(n) => PodPresenceEventView::Disappeared(n@),
            PodPresenceEvent::WatchInit => PodPresenceEventView::WatchInit,
            PodPresenceEvent::WatchInitDone => PodPresenceEventView::WatchInitDone,
        }
    }
}

/// Whether the container named `container` of a pod is to be followed: the pod
/// is active, it has a container of that name, and the container filter, if
/// there is one, names it.
pub open spec fn wanted(
    filter: Option<Seq<char>>,
    active: bool,
    containers: Seq<Seq<char>>,
    container: Seq<char>,
) -> bool {
    &&& active
    &&& containers.contains(container)
    &&& filter matches Some(f) ==> f == container
}

/// The containers followed after the pod `pod` of `cluster` and `namespace`
/// was seen with the given phase and containers: of that pod exactly the
/// wanted ones, of every other pod what was followed before.
pub open spec fn reconciled(
    keys: Set<PodKeyView>,
    filter: Option<Seq<char>>,
    cluster: Seq<char>,
    namespace: Seq<char>,
    pod: Seq<char>,
    active: bool,
    containers: Seq<Seq<char>>,
) -> Set<PodKeyView> {
    Set::new(
        |k: PodKeyView|
            if k.in_pod(cluster, namespace, pod) {
                wanted(filter, active, containers, k.container_name)
            } else {
                keys.contains(k)
            },
    )
}

/// The containers followed after one event from the watch of `cluster` and
/// `namespace`.
pub open spec fn next_keys(
    keys: Set<PodKeyView>,
    filter: Option<Seq<char>>,
    cluster: Seq<char>,
    namespace: Seq<char>,
    event: PodPresenceEventView,
) -> Set<PodKeyView> {
    match event {
        PodPresenceEventView::Appeared(p) => reconciled(
            keys,
            filter,
            cluster,
            namespace,
            p.name,
            p.phase.is_active(),
            p.containers,
        ),
        PodPresenceEventView::Modified(p) => reconciled(
            keys,
            filter,
            cluster,
            namespace,
            p.name,
            p.phase.is_active(),
            p.containers,
        ),
        PodPresenceEventView::Disappeared(name) => reconciled(
            keys,
            filter,
            cluster,
            namespace,
            name,
            false,
            Seq::empty(),
        ),
        PodPresenceEventView::WatchInit => keys,
        PodPresenceEventView::WatchInitDone => keys,
    }
}

/// One followed container and the generation under which its task runs.
#[derive(Debug)]
pub struct TailTarget {
    pub key: PodKey,
    pub generation: u64,
}

/// What the caller has to do after an event.
#[derive(Debug)]
pub enum SupervisorAction {
    /// Start a follow task for this container, under this generation.
    Start { key: PodKey, generation: u64 },
    /// Cancel the follow task of this container that runs under this generation.
    Stop { key: PodKey, generation: u64 },
}

/// What a `SupervisorAction` is in contracts.
pub enum SupervisorActionView {
    Start { key: PodKeyView, generation: u64 },
    Stop { key: PodKeyView, generation: u64 },
}

impl View for SupervisorAction {
    type V = SupervisorActionView;

    open spec fn view(&self) -> SupervisorActionView {
        match self {
            SupervisorAction::Start { key, generation } => SupervisorActionView::Start {
                key: key@,
                generation: *generation,
            },
            SupervisorAction::Stop { key, generation } => SupervisorActionView::Stop {
                key: key@,
                generation: *generation,
            },
        }
    }
}

impl SupervisorActionView {
    /// The container that the action is about.
    pub open spec fn key(self) -> PodKeyView {
        match self {
            SupervisorActionView::Start { key, .. } => key,
            SupervisorActionView::Stop { key, .. } => key,
        }
    }
}

/// What a `TailTarget` is in contracts.
pub struct TargetView {
    pub key: PodKeyView,
    pub generation: u64,
}

impl View for TailTarget {
    type V = TargetView;

    open spec fn view(&self) -> TargetView {
        TargetView { key: self.key@, generation: self.generation }
    }
}

/// The views of a vector of targets.
pub open spec fn target_views(v: Seq<TailTarget>) -> Seq<TargetView> {
    Seq::new(v.len(), |i: int| v[i]@)
}

/// The views of a vector of actions.
pub open spec fn action_views(v: Seq<SupervisorAction>) -> Seq<SupervisorActionView> {
    Seq::new(v.len(), |i: int| v[i]@)
}

/// One sighting of a pod: where it was seen, whether it is active, and which
/// containers it has; with the container filter of the invocation.
pub struct Sighting {
    pub filter: Option<Seq<char>>,
    pub cluster: Seq<char>,
    pub namespace: Seq<char>,
    pub pod: Seq<char>,
    pub active: bool,
    pub containers: Seq<Seq<char>>,
}

impl Sighting {
    /// Whether the container `k` belongs to the sighted pod.
    pub open spec fn concerns(self, k: PodKeyView) -> bool {
        k.in_pod(self.cluster, self.namespace, self.pod)
    }

    /// Whether the filter, if there is one, names `container`.
    pub open spec fn admits(self, container: Seq<char>) -> bool {
        self.filter matches Some(f) ==> f == container
    }

    /// Whether the container named `container` of the sighted pod is to be
    /// followed.
    pub open spec fn wants(self, container: Seq<char>) -> bool {
        wanted(self.filter, self.active, self.containers, container)
    }

    /// Whether a followed container stays followed: it belongs to another pod,
    /// or it is wanted.
    pub open spec fn keeps(self, k: PodKeyView) -> bool {
        self.concerns(k) ==> self.wants(k.container_name)
    }

    /// The key of the container named `container` in the sighted pod.
    pub open spec fn key_of(self, container: Seq<char>) -> PodKeyView {
        PodKeyView {
            cluster: self.cluster,
            namespace: self.namespace,
            pod_name: self.pod,
            container_name: container,
        }
    }

    /// The same sighting with only the first `n` containers.
    pub open spec fn first(self, n: int) -> Sighting {
        Sighting { containers: self.containers.subrange(0, n), ..self }
    }
}

/// The sighting that an event from the watch of `cluster` and `namespace`
/// amounts to; the watch's own progress reports amount to none. A pod that
/// disappeared is sighted as inactive.
pub open spec fn sighting_of(
    filter: Option<Seq<char>>,
    cluster: Seq<char>,
    namespace: Seq<char>,
    event: PodPresenceEventView,
) -> Option<Sighting> {
    match event {
        PodPresenceEventView::Appeared(p) => Some(
            Sighting {
                filter,
                cluster,
                namespace,
                pod: p.name,
                active: p.phase.is_active(),
                containers: p.containers,
            },
        ),
        PodPresenceEventView::Modified(p) => Some(
            Sighting {
                filter,
                cluster,
                namespace,
                pod: p.name,
                active: p.phase.is_active(),
                containers: p.containers,
            },
        ),
        PodPresenceEventView::Disappeared(name) => Some(
            Sighting {
                filter,
                cluster,
                namespace,
                pod: name,
                active: false,
                containers: Seq::empty(),
            },
        ),
        PodPresenceEventView::WatchInit => None,
        PodPresenceEventView::WatchInitDone => None,
    }
}

/// The targets that stay after a sighting, in their order.
pub open spec fn kept(targets: Seq<TargetView>, s: Sighting) -> Seq<TargetView>
    decreases targets.len(),
{
    if targets.len() == 0 {
        Seq::empty()
    } else if s.keeps(targets.last().key) {
        kept(targets.drop_last(), s).push(targets.last())
    } else {
        kept(targets.drop_last(), s)
    }
}

/// A `Stop` for each target that does not stay after a sighting, in their
/// order.
pub open spec fn stopped(targets: Seq<TargetView>, s: Sighting) -> Seq<SupervisorActionView>
    decreases targets.len(),
{
    if targets.len() == 0 {
        Seq::empty()
    } else if s.keeps(targets.last().key) {
        stopped(targets.drop_last(), s)
    } else {
        stopped(targets.drop_last(), s).push(
            SupervisorActionView::Stop {
                key: targets.last().key,
                generation: targets.last().generation,
            },
        )
    }
}

/// Whether one of `targets` has the key `k`.
pub open spec fn has_key(targets: Seq<TargetView>, k: PodKeyView) -> bool {
    exists|i: int| 0 <= i < targets.len() && (#[trigger] targets[i]).key == k
}

/// The generation after `g`. The counter stops at its greatest value.
pub open spec fn bump(g: u64) -> u64 {
    if g < u64::MAX {
        (g + 1) as u64
    } else {
        g
    }
}

/// The supervisor's state in contracts: the targets in the order in which they
/// were started, and the generation that the next one gets.
pub struct SupervisorView {
    pub targets: Seq<TargetView>,
    pub next_generation: u64,
}

/// A state together with the actions that led to it.
pub struct Transition {
    pub state: SupervisorView,
    pub actions: Seq<SupervisorActionView>,
}

/// Goes through the containers of a sighting in order and starts each wanted
/// one that is not followed yet, under the next generation.
pub open spec fn start_missing(state: SupervisorView, s: Sighting) -> Transition
    decreases s.containers.len(),
{
    if s.containers.len() == 0 {
        Transition { state, actions: Seq::empty() }
    } else {
        let n = s.containers.len() - 1;
        let before = start_missing(state, s.first(n));
        let c = s.containers[n];
        if s.active && s.admits(c) && !has_key(before.state.targets, s.key_of(c)) {
            Transition {
                state: SupervisorView {
                    targets: before.state.targets.push(
                        TargetView { key: s.key_of(c), generation: before.state.next_generation },
                    ),
                    next_generation: bump(before.state.next_generation),
                },
                actions: before.actions.push(
                    SupervisorActionView::Start {
                        key: s.key_of(c),
                        generation: before.state.next_generation,
                    },
                ),
            }
        } else {
            before
        }
    }
}

/// What a sighting does to the supervisor: the targets of the sighted pod that
/// are no longer wanted stop, then the wanted containers that are not followed
/// start.
pub open spec fn reconcile(state: SupervisorView, s: Sighting) -> Transition {
    let started = start_missing(
        SupervisorView { targets: kept(state.targets, s), next_generation: state.next_generation },
        s,
    );
    Transition { state: started.state, actions: stopped(state.targets, s) + started.actions }
}

/// What one event from the watch of `cluster` and `namespace` does to the
/// supervisor.
pub open spec fn step(
    state: SupervisorView,
    filter: Option<Seq<char>>,
    cluster: Seq<char>,
    namespace: Seq<char>,
    event: PodPresenceEventView,
) -> Transition {
    match sighting_of(filter, cluster, namespace, event) {
        Some(s) => reconcile(state, s),
        None => Transition { state, actions: Seq::empty() },
    }
}

/// The containers that a list of targets follows.
pub open spec fn keys_of(targets: Seq<TargetView>) -> Set<PodKeyView> {
    Set::new(|k: PodKeyView| has_key(targets, k))
}

/// Whether no container occurs twice among `targets`.
pub open spec fn keys_distinct(targets: Seq<TargetView>) -> bool {
    forall|i: int, j: int|
        0 <= i < j < targets.len() ==> (#[trigger] targets[i]).key != (#[trigger] targets[j]).key
}

/// Whether `key` names a container of the given pod.
fn key_in_pod(key: &PodKey, cluster: &str, namespace: &str, pod: &str) -> (r: bool)
    ensures
        r == key@.in_pod(cluster@, namespace@, pod@),
{
    same(key.cluster.as_str(), cluster) && same(key.namespace.as_str(), namespace) && same(
        key.pod_name.as_str(),
        pod,
    )
}

/// Whether the filter, if there is one, names `container`.
fn passes_filter(filter: &Option<String>, container: &str) -> (r: bool)
    ensures
        r == (opt_view(*filter) matches Some(f) ==> f == container@),
{
    match filter {
        Some(f) => same(f.as_str(), container),
        None => true,
    }
}

/// The position of `key` among `targets`.
fn position(targets: &Vec<TailTarget>, key: &PodKey) -> (r: Option<usize>)
    ensures
        match r {
            Some(i) => i < targets@.len() && targets@[i as int].key@ == key@,
            None => !has_key(target_views(targets@), key@),
        },
{
    let mut i: usize = 0;
    while i < targets.len()
        invariant
            i <= targets.len(),
            forall|j: int| 0 <= j < i ==> (#[trigger] target_views(targets@)[j]).key != key@,
        decreases targets.len() - i,
    {
        if targets[i].key == *key {
            return Some(i);
        }
        assert(target_views(targets@)[i as int].key == targets@[i as int].key@);
        i = i + 1;
    }
    None
}

/// Splits the targets into those that stay after a sighting and a `Stop` for
/// each of the others.
fn prune(
    targets: &Vec<TailTarget>,
    filter: &Option<String>,
    cluster: &str,
    namespace: &str,
    pod: &str,
    active: bool,
    containers: &Vec<String>,
) -> (r: (Vec<TailTarget>, Vec<SupervisorAction>))
    ensures
        ({
            let s = Sighting {
                filter: opt_view(*filter),
                cluster: cluster@,
                namespace: namespace@,
                pod: pod@,
                active,
                containers: views(containers@),
            };
            &&& target_views(r.0@) == kept(target_views(targets@), s)
            &&& action_views(r.1@) == stopped(target_views(targets@), s)
        }),
{
    let ghost s = Sighting {
        filter: opt_view(*filter),
        cluster: cluster@,
        namespace: namespace@,
        pod: pod@,
        active,
        containers: views(containers@),
    };
    let mut staying: Vec<TailTarget> = Vec::new();
    let mut stops: Vec<SupervisorAction> = Vec::new();
    let mut i: usize = 0;
    proof {
        assert(target_views(targets@).subrange(0, 0) =~= Seq::empty());
        assert(target_views(staying@) =~= Seq::empty());
        assert(action_views(stops@) =~= Seq::empty());
    }
    while i < targets.len()
        invariant
            i <= targets.len(),
            s == (Sighting {
                filter: opt_view(*filter),
                cluster: cluster@,
                namespace: namespace@,
                pod: pod@,
                active,
                containers: views(containers@),
            }),
            target_views(staying@) == kept(target_views(targets@).subrange(0, i as int), s),
            action_views(stops@) == stopped(target_views(targets@).subrange(0, i as int), s),
        decreases targets.len() - i,
    {
        let t = &targets[i];
        let keep = !key_in_pod(&t.key, cluster, namespace, pod) || (active && contains_str(
            containers,
            t.key.container_name.as_str(),
        ) && passes_filter(filter, t.key.container_name.as_str()));
        let ghost old_staying = target_views(staying@);
        let ghost old_stops = action_views(stops@);
        proof {
            let next = target_views(targets@).subrange(0, i + 1);
            assert(next.drop_last() =~= target_views(targets@).subrange(0, i as int));
            assert(next.last() == targets@[i as int]@);
            assert(keep == s.keeps(t.key@));
        }
        if keep {
            staying.push(TailTarget { key: t.key.clone(), generation: t.generation });
            proof {
                assert(target_views(staying@) =~= old_staying.push(t@));
            }
        } else {
            stops.push(SupervisorAction::Stop { key: t.key.clone(), generation: t.generation });
            proof {
                assert(action_views(stops@) =~= old_stops.push(
                    SupervisorActionView::Stop { key: t.key@, generation: t.generation },
                ));
            }
        }
        i = i + 1;
    }
    proof {
        assert(target_views(targets@).subrange(0, i as int) =~= target_views(targets@));
    }
    (staying, stops)
}

/// Starts each wanted container of a sighting that is not followed yet.
fn start(
    targets: &mut Vec<TailTarget>,
    next_generation: u64,
    actions: &mut Vec<SupervisorAction>,
    filter: &Option<String>,
    cluster: &str,
    namespace: &str,
    pod: &str,
    active: bool,
    containers: &Vec<String>,
) -> (next: u64)
    ensures
        ({
            let s = Sighting {
                filter: opt_view(*filter),
                cluster: cluster@,
                namespace: namespace@,
                pod: pod@,
                active,
                containers: views(containers@),
            };
            let t = start_missing(
                SupervisorView { targets: target_views(old(targets)@), next_generation },
                s,
            );
            &&& target_views(final(targets)@) == t.state.targets
            &&& next == t.state.next_generation
            &&& action_views(final(actions)@) == action_views(old(actions)@) + t.actions
        }),
{
    let ghost s = Sighting {
        filter: opt_view(*filter),
        cluster: cluster@,
        namespace: namespace@,
        pod: pod@,
        active,
        containers: views(containers@),
    };
    let ghost begin = SupervisorView { targets: target_views(targets@), next_generation };
    let ghost first_actions = action_views(actions@);
    let mut next = next_generation;
    let mut j: usize = 0;
    proof {
        assert(first_actions + Seq::<SupervisorActionView>::empty() =~= first_actions);
    }
    while j < containers.len()
        invariant
            j <= containers.len(),
            s == (Sighting {
                filter: opt_view(*filter),
                cluster: cluster@,
                namespace: namespace@,
                pod: pod@,
                active,
                containers: views(containers@),
            }),
            target_views(targets@) == start_missing(begin, s.first(j as int)).state.targets,
            next == start_missing(begin, s.first(j as int)).state.next_generation,
            action_views(actions@) == first_actions + start_missing(
                begin,
                s.first(j as int),
            ).actions,
        decreases containers.len() - j,
    {
        let c = containers[j].as_str();
        let ghost before = start_missing(begin, s.first(j as int));
        let ghost old_targets = target_views(targets@);
        let ghost old_actions = action_views(actions@);
        proof {
            let now = s.first(j + 1);
            assert(now.containers.len() == j + 1);
            assert(now.first(j as int).containers =~= s.first(j as int).containers);
            assert(now.first(j as int) == s.first(j as int));
            assert(now.containers[j as int] == c@);
            assert(now.key_of(c@) == s.key_of(c@));
            assert(now.admits(c@) == s.admits(c@));
        }
        let mut starts = false;
        if active && passes_filter(filter, c) {
            let key = PodKey {
                cluster: String::from_str(cluster),
                namespace: String::from_str(namespace),
                pod_name: String::from_str(pod),
                container_name: String::from_str(c),
            };
            assert(key@ == s.key_of(c@));
            let found = position(targets, &key);
            proof {
                if let Some(i) = found {
                    assert(old_targets[i as int].key == key@);
                    assert(has_key(old_targets, key@));
                }
            }
            if found.is_none() {
                starts = true;
                actions.push(SupervisorAction::Start { key: key.clone(), generation: next });
                targets.push(TailTarget { key, generation: next });
                proof {
                    assert(target_views(targets@) =~= old_targets.push(
                        TargetView { key: s.key_of(c@), generation: next },
                    ));
                    assert(action_views(actions@) =~= old_actions.push(
                        SupervisorActionView::Start { key: s.key_of(c@), generation: next },
                    ));
                    assert(action_views(actions@) =~= first_actions + before.actions.push(
                        SupervisorActionView::Start { key: s.key_of(c@), generation: next },
                    ));
                }
                if next < u64::MAX {
                    next = next + 1;
                }
            }
        }
        proof {
            let now = s.first(j + 1);
            assert(starts == (now.active && now.admits(c@) && !has_key(
                before.state.targets,
                now.key_of(c@),
            )));
        }
        j = j + 1;
    }
    proof {
        assert(s.first(j as int).containers =~= s.containers);
        assert(s.first(j as int) == s);
    }
    next
}

/// Whether every generation in `targets` was handed out before `next`, or the
/// counter has run out.
pub open spec fn generations_below(targets: Seq<TargetView>, next: u64) -> bool {
    next == u64::MAX || forall|i: int|
        0 <= i < targets.len() ==> (#[trigger] targets[i]).generation < next
}

impl SupervisorView {
    /// No container is followed twice, and every generation in use was handed
    /// out before the next one.
    pub open spec fn wf(self) -> bool {
        &&& keys_distinct(self.targets)
        &&& generations_below(self.targets, self.next_generation)
    }

    /// The containers that are followed.
    pub open spec fn keys(self) -> Set<PodKeyView> {
        keys_of(self.targets)
    }
}

/// What stays after a sighting is what was followed and is kept.
pub proof fn lemma_kept(targets: Seq<TargetView>, s: Sighting)
    ensures
        forall|k: PodKeyView| has_key(kept(targets, s), k) <==> has_key(targets, k) && s.keeps(k),
        forall|i: int|
            0 <= i < kept(targets, s).len() ==> targets.contains(#[trigger] kept(targets, s)[i]),
        keys_distinct(targets) ==> keys_distinct(kept(targets, s)),
        kept(targets, s).len() <= targets.len(),
    decreases targets.len(),
{
    if targets.len() > 0 {
        let t = targets.drop_last();
        let last = targets.last();
        lemma_kept(t, s);
        let now = kept(targets, s);
        let before = kept(t, s);
        assert forall|k: PodKeyView| has_key(now, k) <==> has_key(targets, k) && s.keeps(k) by {
            if has_key(now, k) {
                let i = choose|i: int| 0 <= i < now.len() && (#[trigger] now[i]).key == k;
                if i < before.len() {
                    assert(before[i].key == k);
                    assert(has_key(before, k));
                    let j = choose|j: int| 0 <= j < t.len() && (#[trigger] t[j]).key == k;
                    assert(targets[j].key == k);
                } else {
                    assert(targets[targets.len() - 1].key == k);
                }
            }
            if has_key(targets, k) && s.keeps(k) {
                let j = choose|j: int| 0 <= j < targets.len() && (#[trigger] targets[j]).key == k;
                if j < t.len() {
                    assert(t[j].key == k);
                    assert(has_key(before, k));
                    let i = choose|i: int| 0 <= i < before.len() && (#[trigger] before[i]).key == k;
                    assert(now[i].key == k);
                } else {
                    assert(now[now.len() - 1].key == k);
                }
            }
        }
        assert forall|i: int| 0 <= i < now.len() implies targets.contains(#[trigger] now[i]) by {
            if i < before.len() {
                assert(t.contains(before[i]));
                let j = choose|j: int| 0 <= j < t.len() && t[j] == before[i];
                assert(targets[j] == now[i]);
            } else {
                assert(targets[targets.len() - 1] == now[i]);
            }
        }
        if keys_distinct(targets) {
            assert(keys_distinct(t)) by {
                assert forall|i: int, j: int| 0 <= i < j < t.len() implies (#[trigger] t[i]).key != (
                #[trigger] t[j]).key by {
                    assert(targets[i].key != targets[j].key);
                }
            }
            assert forall|i: int, j: int| 0 <= i < j < now.len() implies (#[trigger] now[i]).key != (
            #[trigger] now[j]).key by {
                if j < before.len() {
                    assert(before[i].key != before[j].key);
                } else {
                    assert(has_key(before, now[i].key)) by {
                        assert(before[i].key == now[i].key);
                    }
                    let a = choose|a: int| 0 <= a < t.len() && (#[trigger] t[a]).key == now[i].key;
                    assert(targets[a].key != targets[targets.len() - 1].key);
                }
            }
        }
    }
}

/// Starting keeps what is followed, in place and under its generation, and
/// adds each wanted container of the sighted pod under a generation that was
/// not handed out before.
pub proof fn lemma_start_missing(state: SupervisorView, s: Sighting)
    ensures
        ({
            let t = start_missing(state, s);
            &&& state.targets.len() <= t.state.targets.len()
            &&& t.state.targets.subrange(0, state.targets.len() as int) == state.targets
            &&& state.next_generation <= t.state.next_generation
            &&& forall|i: int|
                state.targets.len() <= i < t.state.targets.len() ==> state.next_generation <= (
                #[trigger] t.state.targets[i]).generation
            &&& forall|k: PodKeyView|
                has_key(t.state.targets, k) <==> has_key(state.targets, k) || (s.concerns(k)
                    && s.wants(k.container_name))
            &&& (state.wf() ==> t.state.wf())
            &&& t.actions.len() == t.state.targets.len() - state.targets.len()
            &&& forall|i: int|
                0 <= i < t.actions.len() ==> #[trigger] t.actions[i] == (
                SupervisorActionView::Start {
                    key: t.state.targets[state.targets.len() + i].key,
                    generation: t.state.targets[state.targets.len() + i].generation,
                })
        }),
    decreases s.containers.len(),
{
    let t = start_missing(state, s);
    if s.containers.len() == 0 {
        assert(t.state.targets.subrange(0, state.targets.len() as int) =~= state.targets);
        assert forall|k: PodKeyView|
            has_key(t.state.targets, k) <==> has_key(state.targets, k) || (s.concerns(k) && s.wants(
                k.container_name,
            )) by {
            if s.concerns(k) && s.wants(k.container_name) {
                let i = choose|i: int|
                    0 <= i < s.containers.len() && s.containers[i] == k.container_name;
            }
        }
    } else {
        let n = s.containers.len() - 1;
        let c = s.containers[n];
        let p = s.first(n);
        let before = start_missing(state, p);
        lemma_start_missing(state, p);
        let starts = s.active && s.admits(c) && !has_key(before.state.targets, s.key_of(c));
        assert(t.state.targets.subrange(0, state.targets.len() as int) =~= state.targets) by {
            assert(before.state.targets.subrange(0, state.targets.len() as int) == state.targets);
            assert forall|i: int| 0 <= i < state.targets.len() implies t.state.targets[i]
                == state.targets[i] by {
                assert(before.state.targets.subrange(0, state.targets.len() as int)[i]
                    == before.state.targets[i]);
            }
        }
        assert forall|k: PodKeyView|
            has_key(t.state.targets, k) <==> has_key(state.targets, k) || (s.concerns(k) && s.wants(
                k.container_name,
            )) by {
            let earlier = has_key(state.targets, k) || (p.concerns(k) && p.wants(k.container_name));
            assert(has_key(before.state.targets, k) <==> earlier);
            assert(p.concerns(k) == s.concerns(k));
            if p.wants(k.container_name) {
                let i = choose|i: int|
                    0 <= i < p.containers.len() && p.containers[i] == k.container_name;
                assert(s.containers[i] == k.container_name);
            }
            if s.concerns(k) && s.wants(k.container_name) {
                let i = choose|i: int|
                    0 <= i < s.containers.len() && s.containers[i] == k.container_name;
                if i < n {
                    assert(p.containers[i] == k.container_name);
                    assert(p.wants(k.container_name));
                } else {
                    assert(k == s.key_of(c));
                    if !starts {
                        assert(has_key(before.state.targets, k));
                    } else {
                        assert(t.state.targets[t.state.targets.len() - 1].key == k);
                    }
                }
            }
            if has_key(before.state.targets, k) {
                let i = choose|i: int|
                    0 <= i < before.state.targets.len() && (#[trigger] before.state.targets[i]).key
                        == k;
                assert(t.state.targets[i].key == k);
            }
            if has_key(t.state.targets, k) && !has_key(before.state.targets, k) {
                let i = choose|i: int|
                    0 <= i < t.state.targets.len() && (#[trigger] t.state.targets[i]).key == k;
                if i < before.state.targets.len() {
                    assert(before.state.targets[i].key == k);
                }
                assert(k == s.key_of(c));
                assert(s.containers[n] == k.container_name);
            }
        }
        if state.wf() && starts {
            let ts = t.state.targets;
            let bs = before.state.targets;
            assert forall|i: int, j: int| 0 <= i < j < ts.len() implies (#[trigger] ts[i]).key != (
            #[trigger] ts[j]).key by {
                if j < bs.len() {
                    assert(bs[i].key != bs[j].key);
                } else {
                    assert(bs[i].key == ts[i].key);
                }
            }
            if t.state.next_generation != u64::MAX {
                assert forall|i: int| 0 <= i < ts.len() implies (#[trigger] ts[i]).generation
                    < t.state.next_generation by {
                    if i < bs.len() {
                        assert(bs[i].generation < before.state.next_generation);
                    }
                }
            }
        }
        if starts {
            assert forall|i: int| 0 <= i < t.actions.len() implies #[trigger] t.actions[i] == (
            SupervisorActionView::Start {
                key: t.state.targets[state.targets.len() + i].key,
                generation: t.state.targets[state.targets.len() + i].generation,
            }) by {
                if i < before.actions.len() {
                    assert(t.actions[i] == before.actions[i]);
                    assert(t.state.targets[state.targets.len() + i]
                        == before.state.targets[state.targets.len() + i]);
                }
            }
        }
    }
}

/// A well-formed state stays well formed under every sighting: no container is
/// ever followed twice.
pub proof fn lemma_reconcile_wf(state: SupervisorView, s: Sighting)
    requires
        state.wf(),
    ensures
        reconcile(state, s).state.wf(),
{
    lemma_kept(state.targets, s);
    let pruned = SupervisorView {
        targets: kept(state.targets, s),
        next_generation: state.next_generation,
    };
    assert(pruned.wf()) by {
        if state.next_generation != u64::MAX {
            assert forall|i: int| 0 <= i < pruned.targets.len() implies (
            #[trigger] pruned.targets[i]).generation < state.next_generation by {
                assert(state.targets.contains(pruned.targets[i]));
                let j = choose|j: int|
                    0 <= j < state.targets.len() && state.targets[j] == pruned.targets[i];
                assert(state.targets[j].generation < state.next_generation);
            }
        }
    }
    lemma_start_missing(pruned, s);
}

/// After a sighting, the followed containers of the sighted pod are exactly the
/// wanted ones, and those of every other pod are what they were.
pub proof fn lemma_reconcile_keys(state: SupervisorView, s: Sighting)
    ensures
        reconcile(state, s).state.keys() == reconciled(
            state.keys(),
            s.filter,
            s.cluster,
            s.namespace,
            s.pod,
            s.active,
            s.containers,
        ),
{
    lemma_kept(state.targets, s);
    let pruned = SupervisorView {
        targets: kept(state.targets, s),
        next_generation: state.next_generation,
    };
    lemma_start_missing(pruned, s);
    let after = reconcile(state, s).state;
    let expected = reconciled(
        state.keys(),
        s.filter,
        s.cluster,
        s.namespace,
        s.pod,
        s.active,
        s.containers,
    );
    assert forall|k: PodKeyView| after.keys().contains(k) <==> expected.contains(k) by {
        assert(after.keys().contains(k) == has_key(after.targets, k));
        assert(state.keys().contains(k) == has_key(state.targets, k));
        assert(has_key(after.targets, k) <==> has_key(pruned.targets, k) || (s.concerns(k)
            && s.wants(k.container_name)));
        assert(has_key(pruned.targets, k) <==> has_key(state.targets, k) && s.keeps(k));
        if s.concerns(k) {
            assert(k.in_pod(s.cluster, s.namespace, s.pod));
            assert(expected.contains(k) == wanted(
                s.filter,
                s.active,
                s.containers,
                k.container_name,
            ));
        } else {
            assert(expected.contains(k) == state.keys().contains(k));
        }
    }
    assert(after.keys() =~= expected);
}

/// The supervisor: the followed containers, the generation that the next task
/// gets, and the container filter of the invocation.
#[derive(Debug)]
pub struct Supervisor {
    targets: Vec<TailTarget>,
    next_generation: u64,
    container: Option<String>,
}

impl View for Supervisor {
    type V = SupervisorView;

    closed spec fn view(&self) -> SupervisorView {
        SupervisorView {
            targets: target_views(self.targets@),
            next_generation: self.next_generation,
        }
    }
}

impl Supervisor {
    #[verifier::type_invariant]
    spec fn well_formed(self) -> bool {
        self@.wf()
    }

    /// The container filter of the invocation.
    pub closed spec fn filter(&self) -> Option<Seq<char>> {
        opt_view(self.container)
    }

    /// A supervisor that follows nothing yet. With a container filter, only the
    /// container of that name is followed in each pod.
    pub fn new(container: Option<String>) -> (s: Supervisor)
        ensures
            s@.targets.len() == 0,
            s@.next_generation == 0,
            s@.wf(),
            s.filter() == opt_view(container),
    {
        Supervisor { targets: Vec::new(), next_generation: 0, container }
    }

    /// Takes one event from the watch of `cluster` and `namespace` and says what
    /// has to start and stop.
    ///
    /// For a pod that is running or pending, every wanted container that is not
    /// followed yet starts, and followed containers that the pod no longer has
    /// stop. For a pod in any other phase, and for one that disappeared, all its
    /// containers stop. Other pods are left alone, and so is everything when
    /// the watch only reports its own progress. Taking the same event again
    /// changes nothing.
    pub fn apply(&mut self, cluster: &str, namespace: &str, event: &PodPresenceEvent) -> (actions:
        Vec<SupervisorAction>)
        ensures
            final(self)@ == step(old(self)@, old(self).filter(), cluster@, namespace@, event@).state,
            action_views(actions@) == step(
                old(self)@,
                old(self).filter(),
                cluster@,
                namespace@,
                event@,
            ).actions,
            final(self).filter() == old(self).filter(),
            old(self)@.wf(),
            final(self)@.wf(),
    {
        proof {
            use_type_invariant(&*self);
        }
        let no_containers: Vec<String> = Vec::new();
        let (pod, active, containers): (&str, bool, &Vec<String>) = match event {
            PodPresenceEvent::Appeared(p) => (p.name.as_str(), p.phase.active(), &p.containers),
            PodPresenceEvent::Modified(p) => (p.name.as_str(), p.phase.active(), &p.containers),
            PodPresenceEvent::Disappeared(name) => (name.as_str(), false, &no_containers),
            PodPresenceEvent::WatchInit => {
                return Vec::new();
            },
            PodPresenceEvent::WatchInitDone => {
                return Vec::new();
            },
        };
        let ghost s = Sighting {
            filter: self.filter(),
            cluster: cluster@,
            namespace: namespace@,
            pod: pod@,
            active,
            containers: views(containers@),
        };
        proof {
            assert(views(no_containers@) =~= Seq::empty());
            assert(sighting_of(self.filter(), cluster@, namespace@, event@) == Some(s));
            lemma_reconcile_wf(self@, s);
        }
        let (mut targets, mut actions) = prune(
            &self.targets,
            &self.container,
            cluster,
            namespace,
            pod,
            active,
            containers,
        );
        let next = start(
            &mut targets,
            self.next_generation,
            &mut actions,
            &self.container,
            cluster,
            namespace,
            pod,
            active,
            containers,
        );
        proof {
            lemma_kept(self@.targets, s);
            lemma_start_missing(
                SupervisorView {
                    targets: kept(self@.targets, s),
                    next_generation: self.next_generation,
                },
                s,
            );
        }
        self.next_generation = next;
        self.targets = targets;
        actions
    }

    /// The number of followed containers.
    pub fn len(&self) -> (n: usize)
        ensures
            n == self@.targets.len(),
    {
        self.targets.len()
    }

    /// Whether the container `key` is followed.
    pub fn is_following(&self, key: &PodKey) -> (r: bool)
        ensures
            r == self@.keys().contains(key@),
    {
        match position(&self.targets, key) {
            Some(i) => {
                assert(self@.targets[i as int].key == key@);
                true
            },
            None => false,
        }
    }

    /// The generation under which the container `key` is followed, if it is.
    pub fn generation_of(&self, key: &PodKey) -> (r: Option<u64>)
        ensures
            match r {
                Some(g) => self@.targets.contains(TargetView { key: key@, generation: g }),
                None => !self@.keys().contains(key@),
            },
    {
        match position(&self.targets, key) {
            Some(i) => {
                assert(self@.targets[i as int] == (TargetView {
                    key: key@,
                    generation: self.targets@[i as int].generation,
                }));
                Some(self.targets[i].generation)
            },
            None => None,
        }
    }

    /// Whether any container of the given pod is followed.
    pub fn is_following_pod(&self, cluster: &str, namespace: &str, pod: &str) -> (r: bool)
        ensures
            r == exists|k: PodKeyView|
                self@.keys().contains(k) && k.in_pod(cluster@, namespace@, pod@),
    {
        let mut i: usize = 0;
        while i < self.targets.len()
            invariant
                i <= self.targets.len(),
                forall|j: int|
                    0 <= j < i ==> !(#[trigger] self@.targets[j]).key.in_pod(
                        cluster@,
                        namespace@,
                        pod@,
                    ),
            decreases self.targets.len() - i,
        {
            if key_in_pod(&self.targets[i].key, cluster, namespace, pod) {
                proof {
                    let k = self.targets@[i as int].key@;
                    assert(self@.targets[i as int].key == k);
                    assert(has_key(self@.targets, k));
                    assert(self@.keys().contains(k) && k.in_pod(cluster@, namespace@, pod@));
                }
                return true;
            }
            assert(self@.targets[i as int].key == self.targets@[i as int].key@);
            i = i + 1;
        }
        proof {
            assert forall|k: PodKeyView| self@.keys().contains(k) implies !k.in_pod(
                cluster@,
                namespace@,
                pod@,
            ) by {
                let j = choose|j: int|
                    0 <= j < self@.targets.len() && (#[trigger] self@.targets[j]).key == k;
            }
        }
        false
    }

    /// The followed containers, in the order in which they were started.
    pub fn followed(&self) -> (r: Vec<PodKey>)
        ensures
            r@.len() == self@.targets.len(),
            forall|i: int| 0 <= i < r@.len() ==> (#[trigger] r@[i])@ == self@.targets[i].key,
    {
        let mut r: Vec<PodKey> = Vec::new();
        let mut i: usize = 0;
        while i < self.targets.len()
            invariant
                i <= self.targets.len(),
                r@.len() == i,
                forall|j: int| 0 <= j < i ==> (#[trigger] r@[j])@ == self.targets@[j].key@,
            decreases self.targets.len() - i,
        {
            r.push(self.targets[i].key.clone());
            i = i + 1;
        }
        r
    }
}

/// Every event leaves a well-formed state well formed: at any instant there is
/// at most one follow task for each container.
pub proof fn lemma_step_wf(
    state: SupervisorView,
    filter: Option<Seq<char>>,
    cluster: Seq<char>,
    namespace: Seq<char>,
    event: PodPresenceEventView,
)
    requires
        state.wf(),
    ensures
        step(state, filter, cluster, namespace, event).state.wf(),
{
    match sighting_of(filter, cluster, namespace, event) {
        Some(s) => lemma_reconcile_wf(state, s),
        None => {},
    }
}

/// The containers followed after an event are those that the state machine of
/// a pod prescribes: see `next_keys`.
pub proof fn lemma_step_keys(
    state: SupervisorView,
    filter: Option<Seq<char>>,
    cluster: Seq<char>,
    namespace: Seq<char>,
    event: PodPresenceEventView,
)
    ensures
        step(state, filter, cluster, namespace, event).state.keys() == next_keys(
            state.keys(),
            filter,
            cluster,
            namespace,
            event,
        ),
{
    match sighting_of(filter, cluster, namespace, event) {
        Some(s) => lemma_reconcile_keys(state, s),
        None => {},
    }
}

/// When a pod disappears, or is seen in a phase other than running and pending,
/// none of its containers is followed any more.
pub proof fn lemma_inactive_pod_is_dropped(state: SupervisorView, s: Sighting, k: PodKeyView)
    requires
        !s.active,
        s.concerns(k),
    ensures
        !reconcile(state, s).state.keys().contains(k),
{
    lemma_reconcile_keys(state, s);
}

/// After a pod was seen, only containers that the pod has are followed in it,
/// and with a container filter only the container that the filter names. So a
/// pod without containers has no follow task, and neither has a pod that lacks
/// the filtered container.
pub proof fn lemma_only_wanted_followed(state: SupervisorView, s: Sighting, k: PodKeyView)
    requires
        s.concerns(k),
        reconcile(state, s).state.keys().contains(k),
    ensures
        s.active,
        s.containers.contains(k.container_name),
        s.filter matches Some(f) ==> f == k.container_name,
{
    lemma_reconcile_keys(state, s);
}

/// What a sighting stops: a `Stop` is listed, once, for exactly the followed
/// containers that are followed no more, each under the generation it ran
/// under.
pub proof fn lemma_stopped(targets: Seq<TargetView>, s: Sighting)
    ensures
        forall|i: int|
            0 <= i < stopped(targets, s).len() ==> (#[trigger] stopped(
                targets,
                s,
            )[i] matches SupervisorActionView::Stop { key, generation } && !s.keeps(key)
                && targets.contains(TargetView { key, generation })),
        forall|t: TargetView|
            targets.contains(t) && !s.keeps(t.key) ==> stopped(targets, s).contains(
                SupervisorActionView::Stop { key: t.key, generation: t.generation },
            ),
        stopped(targets, s).len() + kept(targets, s).len() == targets.len(),
    decreases targets.len(),
{
    if targets.len() > 0 {
        let d = targets.drop_last();
        let last = targets.last();
        lemma_stopped(d, s);
        let now = stopped(targets, s);
        let before = stopped(d, s);
        assert forall|i: int| 0 <= i < now.len() implies (
        #[trigger] now[i] matches SupervisorActionView::Stop { key, generation } && !s.keeps(key)
            && targets.contains(TargetView { key, generation })) by {
            if i < before.len() {
                assert(now[i] == before[i]);
                match before[i] {
                    SupervisorActionView::Stop { key, generation } => {
                        let t = TargetView { key, generation };
                        assert(d.contains(t));
                        let j = choose|j: int| 0 <= j < d.len() && d[j] == t;
                        assert(targets[j] == t);
                    },
                    _ => {},
                }
            } else {
                assert(targets[targets.len() - 1] == last);
            }
        }
        assert forall|t: TargetView| targets.contains(t) && !s.keeps(t.key) implies now.contains(
            SupervisorActionView::Stop { key: t.key, generation: t.generation },
        ) by {
            let stop = SupervisorActionView::Stop { key: t.key, generation: t.generation };
            let j = choose|j: int| 0 <= j < targets.len() && targets[j] == t;
            if j < d.len() {
                assert(d[j] == t);
                assert(d.contains(t));
                assert(before.contains(stop));
                let i = choose|i: int| 0 <= i < before.len() && before[i] == stop;
                assert(now[i] == stop);
            } else {
                assert(now[now.len() - 1] == stop);
            }
        }
    }
}

/// Whether every target is kept by the sighting and every wanted container of
/// the sighted pod is among them: the state that a sighting leaves behind.
pub open spec fn settled(targets: Seq<TargetView>, s: Sighting) -> bool {
    &&& forall|i: int| 0 <= i < targets.len() ==> s.keeps((#[trigger] targets[i]).key)
    &&& forall|c: Seq<char>| s.wants(c) ==> has_key(targets, #[trigger] s.key_of(c))
}

proof fn lemma_kept_all(targets: Seq<TargetView>, s: Sighting)
    requires
        forall|i: int| 0 <= i < targets.len() ==> s.keeps((#[trigger] targets[i]).key),
    ensures
        kept(targets, s) == targets,
        stopped(targets, s).len() == 0,
    decreases targets.len(),
{
    if targets.len() > 0 {
        let d = targets.drop_last();
        assert forall|i: int| 0 <= i < d.len() implies s.keeps((#[trigger] d[i]).key) by {
            assert(targets[i] == d[i]);
        }
        lemma_kept_all(d, s);
        assert(s.keeps(targets[targets.len() - 1].key));
        assert(d.push(targets.last()) =~= targets);
    } else {
        assert(kept(targets, s) =~= targets);
    }
}

proof fn lemma_start_nothing(state: SupervisorView, s: Sighting, n: int)
    requires
        0 <= n <= s.containers.len(),
        forall|c: Seq<char>| s.wants(c) ==> has_key(state.targets, #[trigger] s.key_of(c)),
    ensures
        start_missing(state, s.first(n)) == (Transition { state, actions: Seq::empty() }),
    decreases n,
{
    if n > 0 {
        let p = s.first(n);
        assert(p.first(n - 1).containers =~= s.first(n - 1).containers);
        assert(p.first(n - 1) == s.first(n - 1));
        lemma_start_nothing(state, s, n - 1);
        let c = p.containers[n - 1];
        assert(c == s.containers[n - 1]);
        if p.active && p.admits(c) {
            assert(s.wants(c));
            assert(has_key(state.targets, s.key_of(c)));
            assert(p.key_of(c) == s.key_of(c));
        }
    }
}

/// Taking the same sighting again changes nothing and asks for nothing.
pub proof fn lemma_reconcile_idempotent(state: SupervisorView, s: Sighting)
    ensures
        reconcile(reconcile(state, s).state, s) == (Transition {
            state: reconcile(state, s).state,
            actions: Seq::empty(),
        }),
{
    let once = reconcile(state, s).state;
    lemma_kept(state.targets, s);
    let pruned = SupervisorView {
        targets: kept(state.targets, s),
        next_generation: state.next_generation,
    };
    lemma_start_missing(pruned, s);
    assert forall|i: int| 0 <= i < once.targets.len() implies s.keeps(
        (#[trigger] once.targets[i]).key,
    ) by {
        let k = once.targets[i].key;
        assert(has_key(once.targets, k));
        if !(s.concerns(k) && s.wants(k.container_name)) {
            assert(has_key(pruned.targets, k));
        }
    }
    assert forall|c: Seq<char>| s.wants(c) implies has_key(
        once.targets,
        #[trigger] s.key_of(c),
    ) by {
        assert(s.concerns(s.key_of(c)));
    }
    lemma_kept_all(once.targets, s);
    let again = SupervisorView { targets: once.targets, next_generation: once.next_generation };
    lemma_start_nothing(again, s, s.containers.len() as int);
    assert(s.first(s.containers.len() as int).containers =~= s.containers);
    assert(s.first(s.containers.len() as int) == s);
    assert(stopped(once.targets, s) + Seq::<SupervisorActionView>::empty() =~= Seq::<
        SupervisorActionView,
    >::empty());
}

/// Applying the same event twice yields the same state as applying it once,
/// and the second time nothing starts or stops.
pub proof fn lemma_step_idempotent(
    state: SupervisorView,
    filter: Option<Seq<char>>,
    cluster: Seq<char>,
    namespace: Seq<char>,
    event: PodPresenceEventView,
)
    ensures
        step(
            step(state, filter, cluster, namespace, event).state,
            filter,
            cluster,
            namespace,
            event,
        ) == (Transition {
            state: step(state, filter, cluster, namespace, event).state,
            actions: Seq::empty(),
        }),
{
    match sighting_of(filter, cluster, namespace, event) {
        Some(s) => lemma_reconcile_idempotent(state, s),
        None => {},
    }
}

/// One event together with the watch it came from.
pub struct Observed {
    pub cluster: Seq<char>,
    pub namespace: Seq<char>,
    pub event: PodPresenceEventView,
}

/// The state after a sequence of events, taken in the order of receipt.
pub open spec fn run(state: SupervisorView, filter: Option<Seq<char>>, events: Seq<Observed>) -> SupervisorView
    decreases events.len(),
{
    if events.len() == 0 {
        state
    } else {
        step(
            run(state, filter, events.drop_last()),
            filter,
            events.last().cluster,
            events.last().namespace,
            events.last().event,
        ).state
    }
}

/// Whether the container `k` is to be followed after a sequence of events: the
/// latest event about its pod showed the pod running or pending, with a
/// container of that name that the filter admits. Before any event about its
/// pod, a container is to be followed if it was followed at the start.
pub open spec fn expected_after(
    initially: bool,
    filter: Option<Seq<char>>,
    events: Seq<Observed>,
    k: PodKeyView,
) -> bool
    decreases events.len(),
{
    if events.len() == 0 {
        initially
    } else {
        let e = events.last();
        match sighting_of(filter, e.cluster, e.namespace, e.event) {
            Some(s) => if s.concerns(k) {
                s.wants(k.container_name)
            } else {
                expected_after(initially, filter, events.drop_last(), k)
            },
            None => expected_after(initially, filter, events.drop_last(), k),
        }
    }
}

/// After any sequence of events, the followed containers are exactly those of
/// the pods last seen running or pending, restricted by the container filter.
pub proof fn lemma_run_follows_latest(
    state: SupervisorView,
    filter: Option<Seq<char>>,
    events: Seq<Observed>,
    k: PodKeyView,
)
    ensures
        run(state, filter, events).keys().contains(k) == expected_after(
            state.keys().contains(k),
            filter,
            events,
            k,
        ),
        state.wf() ==> run(state, filter, events).wf(),
    decreases events.len(),
{
    if events.len() > 0 {
        let e = events.last();
        let before = run(state, filter, events.drop_last());
        lemma_run_follows_latest(state, filter, events.drop_last(), k);
        lemma_step_keys(before, filter, e.cluster, e.namespace, e.event);
        if state.wf() {
            lemma_step_wf(before, filter, e.cluster, e.namespace, e.event);
        }
        match sighting_of(filter, e.cluster, e.namespace, e.event) {
            Some(s) => {
                assert(s.filter == filter);
                let after = next_keys(before.keys(), filter, e.cluster, e.namespace, e.event);
                assert(after == reconciled(
                    before.keys(),
                    s.filter,
                    s.cluster,
                    s.namespace,
                    s.pod,
                    s.active,
                    s.containers,
                ));
                if s.concerns(k) {
                    assert(k.in_pod(s.cluster, s.namespace, s.pod));
                    assert(after.contains(k) == s.wants(k.container_name));
                } else {
                    assert(after.contains(k) == before.keys().contains(k));
                }
            },
            None => {},
        }
    }
}

/// The actions of a sighting account for the change, and for nothing else:
/// there is a `Stop` for a container exactly if it was followed and is followed
/// no more, under the generation it ran under; and a `Start` exactly if it was
/// not followed and is followed now, under the generation it runs under.
pub proof fn lemma_actions_account_for_change(state: SupervisorView, s: Sighting)
    requires
        state.wf(),
    ensures
        forall|k: PodKeyView, g: u64|
            #![trigger reconcile(state, s).actions.contains(SupervisorActionView::Stop { key: k, generation: g })]
            reconcile(state, s).actions.contains(SupervisorActionView::Stop { key: k, generation: g })
                <==> state.targets.contains(TargetView { key: k, generation: g }) && !reconcile(
                state,
                s,
            ).state.keys().contains(k),
        forall|k: PodKeyView, g: u64|
            #![trigger reconcile(state, s).actions.contains(SupervisorActionView::Start { key: k, generation: g })]
            reconcile(state, s).actions.contains(SupervisorActionView::Start { key: k, generation: g })
                <==> !state.keys().contains(k) && reconcile(state, s).state.targets.contains(
                TargetView { key: k, generation: g },
            ),
{
    let after = reconcile(state, s);
    let stops = stopped(state.targets, s);
    let pruned = SupervisorView {
        targets: kept(state.targets, s),
        next_generation: state.next_generation,
    };
    let started = start_missing(pruned, s);
    lemma_kept(state.targets, s);
    lemma_stopped(state.targets, s);
    lemma_start_missing(pruned, s);
    lemma_reconcile_keys(state, s);
    lemma_reconcile_wf(state, s);
    assert forall|k: PodKeyView, g: u64|
        #![trigger after.actions.contains(SupervisorActionView::Stop { key: k, generation: g })]
        after.actions.contains(SupervisorActionView::Stop { key: k, generation: g })
            <==> state.targets.contains(TargetView { key: k, generation: g })
            && !after.state.keys().contains(k) by {
        let stop = SupervisorActionView::Stop { key: k, generation: g };
        let t = TargetView { key: k, generation: g };
        if after.actions.contains(stop) {
            let i = choose|i: int| 0 <= i < after.actions.len() && after.actions[i] == stop;
            if i < stops.len() {
                assert(stops[i] == stop);
                assert(state.targets.contains(t));
                assert(!s.keeps(k));
            } else {
                assert(started.actions[i - stops.len()] == stop);
            }
        }
        if state.targets.contains(t) && !after.state.keys().contains(k) {
            let j = choose|j: int| 0 <= j < state.targets.len() && state.targets[j] == t;
            assert(has_key(state.targets, k));
            assert(state.keys().contains(k));
            assert(!s.keeps(k));
            assert(stops.contains(stop));
            let i = choose|i: int| 0 <= i < stops.len() && stops[i] == stop;
            assert(after.actions[i] == stop);
        }
        if state.targets.contains(t) && !s.keeps(k) {
            assert(s.concerns(k));
            assert(!s.wants(k.container_name));
        }
    }
    assert forall|k: PodKeyView, g: u64|
        #![trigger after.actions.contains(SupervisorActionView::Start { key: k, generation: g })]
        after.actions.contains(SupervisorActionView::Start { key: k, generation: g })
            <==> !state.keys().contains(k) && after.state.targets.contains(
            TargetView { key: k, generation: g },
        ) by {
        let start = SupervisorActionView::Start { key: k, generation: g };
        let t = TargetView { key: k, generation: g };
        let base = pruned.targets.len() as int;
        if after.actions.contains(start) {
            let i = choose|i: int| 0 <= i < after.actions.len() && after.actions[i] == start;
            if i < stops.len() {
                assert(stops[i] == start);
            } else {
                let j = i - stops.len();
                assert(started.actions[j] == start);
                assert(after.state.targets[base + j] == t);
                assert(after.state.targets.contains(t));
                if state.keys().contains(k) {
                    assert(has_key(state.targets, k));
                    assert(has_key(after.state.targets, k));
                    if s.keeps(k) {
                        assert(has_key(pruned.targets, k));
                        let a = choose|a: int|
                            0 <= a < pruned.targets.len() && (#[trigger] pruned.targets[a]).key == k;
                        assert(started.state.targets.subrange(0, base)[a]
                            == started.state.targets[a]);
                        assert(after.state.targets[a].key == after.state.targets[base + j].key);
                    } else {
                        assert(!after.state.keys().contains(k));
                    }
                }
            }
        }
        if !state.keys().contains(k) && after.state.targets.contains(t) {
            let i = choose|i: int| 0 <= i < after.state.targets.len() && after.state.targets[i] == t;
            if i < base {
                assert(started.state.targets.subrange(0, base)[i] == started.state.targets[i]);
                assert(pruned.targets[i] == t);
                assert(state.targets.contains(pruned.targets[i]));
                let j = choose|j: int| 0 <= j < state.targets.len() && state.targets[j] == t;
                assert(has_key(state.targets, k));
            } else {
                assert(started.actions[i - base] == start);
                assert(after.actions[stops.len() + (i - base)] == start);
            }
        }
    }
}

} // verus!
