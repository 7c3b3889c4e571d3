//! The resource resolver: from the references and flags of one invocation to
//! the pod watches to run.
//!
//! Resolution has three steps. `plan_requests` reads the references, applies the
//! defaults and rejects what is misconfigured. The caller then fetches each
//! referenced controller and reports what it found in a `Lookup`.
//! `resolve` turns requests and lookups into the list of `WatchSpec`s.

use crate::cli::{Cli, CliView};
use crate::seqs::{dedup, distinct, lemma_dedup};
use crate::text::{contains_str, same, split, views};
use crate::types::{opt_view, ResourceSpec, ResourceSpecView};
use crate::utils::{
    parse_resource_spec, resource_spec_of, selector_text, selector_to_labels_string, terms_text,
    typed_terms, LabelSelector, LabelSelectorView,
};
use vstd::prelude::*;
use vstd::std_specs::cmp::PartialEqSpecImpl;
use vstd::string::*;

verus! {

/// The kinds of resource a reference may name.
#[derive(Clone, Copy, Debug, PartialEq, Eq, Structural)]
pub enum ResourceKind {
    Pod,
    Deployment,
    StatefulSet,
    DaemonSet,
    ReplicaSet,
    Job,
}

impl ResourceKind {
    /// The kind that a lower-case kind name stands for.
    pub open spec fn of(name: Seq<char>) -> Option<ResourceKind> {
        if name == "pod"@ {
            Some(ResourceKind::Pod)
        } else if name == "deployment"@ {
            Some(ResourceKind::Deployment)
        } else if name == "statefulset"@ {
            Some(ResourceKind::StatefulSet)
        } else if name == "daemonset"@ {
            Some(ResourceKind::DaemonSet)
        } else if name == "replicaset"@ {
            Some(ResourceKind::ReplicaSet)
        } else if name == "job"@ {
            Some(ResourceKind::Job)
        } else {
            None
        }
    }

    /// Reads a kind name; any name but the six known ones gives `None`.
    pub fn parse(name: &str) -> (r: Option<ResourceKind>)
        ensures
            r == Self::of(name@),
    {
        if same(name, "pod") {
            Some(ResourceKind::Pod)
        } else if same(name, "deployment") {
            Some(ResourceKind::Deployment)
        } else if same(name, "statefulset") {
            Some(ResourceKind::StatefulSet)
        } else if same(name, "daemonset") {
            Some(ResourceKind::DaemonSet)
        } else if same(name, "replicaset") {
            Some(ResourceKind::ReplicaSet)
        } else if same(name, "job") {
            Some(ResourceKind::Job)
        } else {
            None
        }
    }

    /// Whether pods of this kind are found through the label selector of a
    /// controller.
    pub open spec fn is_controller(self) -> bool {
        self != ResourceKind::Pod
    }

    /// Whether pods of this kind are found through the label selector of a
    /// controller.
    pub fn controller(self) -> (r: bool)
        ensures
            r == self.is_controller(),
    {
        match self {
            ResourceKind::Pod => false,
            _ => true,
        }
    }
}

/// Why an invocation cannot start.
#[derive(Debug)]
pub enum ConfigError {
    /// Neither a resource nor a label selector was given.
    NothingToTail,
    /// A reference has more than four parts.
    InvalidResource(String),
    /// A reference names a context although `--context` was given.
    ContextConflict(String),
    /// No context was given and none is current.
    NoContext,
    /// A reference names a kind that is not supported.
    UnknownKind(String),
    /// A reference names a context for which there is no client.
    UnknownContext(String),
    /// The `--grep` pattern is not a regular expression; with the reason that
    /// the regex crate gives.
    InvalidRegex { pattern: String, reason: String },
}

/// What a `ConfigError` is in contracts.
pub enum ConfigErrorView {
    NothingToTail,
    InvalidResource(Seq<char>),
    ContextConflict(Seq<char>),
    NoContext,
    UnknownKind(Seq<char>),
    UnknownContext(Seq<char>),
    InvalidRegex { pattern: Seq<char>, reason: Seq<char> },
}

impl View for ConfigError {
    type V = ConfigErrorView;

    open spec fn view(&self) -> ConfigErrorView {
        match self {
            ConfigError::NothingToTail => ConfigErrorView::NothingToTail,
            ConfigError::InvalidResource(s) => ConfigErrorView::InvalidResource(s@),
            ConfigError::ContextConflict(s) => ConfigErrorView::ContextConflict(s@),
            ConfigError::NoContext => ConfigErrorView::NoContext,
            ConfigError::UnknownKind(s) => ConfigErrorView::UnknownKind(s@),
            ConfigError::UnknownContext(s) => ConfigErrorView::UnknownContext(s@),
            ConfigError::InvalidRegex { pattern, reason } => ConfigErrorView::InvalidRegex {
                pattern: pattern@,
                reason: reason@,
            },
        }
    }
}

impl ConfigErrorView {
    /// The diagnostic shown for this error.
    pub open spec fn message(self) -> Seq<char> {
        match self {
            ConfigErrorView::NothingToTail =>
                "Must specify at least one resource or a label selector (--selector)"@,
            ConfigErrorView::InvalidResource(s) => "Failed to parse resource '"@ + s
                + "': Invalid resource spec '"@ + s + "': expected 1-4 parts separated by '/'"@,
            ConfigErrorView::ContextConflict(s) =>
                "Cannot use both --context flag and context in resource spec '"@ + s + "'"@,
            ConfigErrorView::NoContext => "No context available"@,
            ConfigErrorView::UnknownKind(s) => "Unsupported resource type: "@ + s,
            ConfigErrorView::UnknownContext(s) => "No client found for context '"@ + s + "'"@,
            ConfigErrorView::InvalidRegex { pattern, reason } => "Invalid regex pattern '"@
                + pattern + "': "@ + reason,
        }
    }
}

impl ConfigError {
    /// The diagnostic shown for this error.
    pub fn message(&self) -> (r: String)
        ensures
            r@ == self@.message(),
    {
        match self {
            ConfigError::NothingToTail => String::from_str(
                "Must specify at least one resource or a label selector (--selector)",
            ),
            ConfigError::InvalidResource(s) => {
                let mut m = String::from_str("Failed to parse resource '");
                m.append(s.as_str());
                m.append("': Invalid resource spec '");
                m.append(s.as_str());
                m.append("': expected 1-4 parts separated by '/'");
                m
            },
            ConfigError::ContextConflict(s) => {
                let mut m = String::from_str(
                    "Cannot use both --context flag and context in resource spec '",
                );
                m.append(s.as_str());
                m.append("'");
                m
            },
            ConfigError::NoContext => String::from_str("No context available"),
            ConfigError::UnknownKind(s) => {
                let mut m = String::from_str("Unsupported resource type: ");
                m.append(s.as_str());
                m
            },
            ConfigError::UnknownContext(s) => {
                let mut m = String::from_str("No client found for context '");
                m.append(s.as_str());
                m.append("'");
                m
            },
            ConfigError::InvalidRegex { pattern, reason } => {
                let mut m = String::from_str("Invalid regex pattern '");
                m.append(pattern.as_str());
                m.append("': ");
                m.append(reason.as_str());
                m
            },
        }
    }

    /// The exit code of a run that ends with a configuration error.
    pub fn exit_code(&self) -> (code: i32)
        ensures
            code == 1,
    {
        1
    }
}

/// A resource reference with the defaults of the invocation applied.
#[derive(Debug)]
pub struct ResourceRequest {
    pub cluster: String,
    pub namespace: String,
    pub kind: ResourceKind,
    pub name: String,
}

/// What a `ResourceRequest` is in contracts.
pub struct ResourceRequestView {
    pub cluster: Seq<char>,
    pub namespace: Seq<char>,
    pub kind: ResourceKind,
    pub name: Seq<char>,
}

impl View for ResourceRequest {
    type V = ResourceRequestView;

    open spec fn view(&self) -> ResourceRequestView {
        ResourceRequestView {
            cluster: self.cluster@,
            namespace: self.namespace@,
            kind: self.kind,
            name: self.name@,
        }
    }
}

/// The views of a vector of requests.
pub open spec fn request_views(v: Seq<ResourceRequest>) -> Seq<ResourceRequestView> {
    Seq::new(v.len(), |i: int| v[i]@)
}

/// The views of a vector of parsed references.
pub open spec fn spec_views(v: Seq<ResourceSpec>) -> Seq<ResourceSpecView> {
    Seq::new(v.len(), |i: int| v[i]@)
}

/// The references of an invocation, parsed in order; the first one with more
/// than four parts fails the whole list.
pub open spec fn parsed_specs(resources: Seq<Seq<char>>) -> Result<
    Seq<ResourceSpecView>,
    ConfigErrorView,
>
    decreases resources.len(),
{
    if resources.len() == 0 {
        Ok(Seq::empty())
    } else {
        match parsed_specs(resources.drop_last()) {
            Err(e) => Err(e),
            Ok(specs) => if split(resources.last(), '/').len() > 4 {
                Err(ConfigErrorView::InvalidResource(resources.last()))
            } else {
                Ok(specs.push(resource_spec_of(split(resources.last(), '/'))))
            },
        }
    }
}

/// The first reference that names a context, if any does.
pub open spec fn first_with_context(specs: Seq<ResourceSpecView>) -> Option<ResourceSpecView>
    decreases specs.len(),
{
    if specs.len() == 0 {
        None
    } else {
        match first_with_context(specs.drop_last()) {
            Some(s) => Some(s),
            None => if specs.last().context is Some {
                Some(specs.last())
            } else {
                None
            },
        }
    }
}

/// A reference written out in full, with `?` for a missing namespace and `pod`
/// for a missing kind.
pub open spec fn spec_path(s: ResourceSpecView) -> Seq<char> {
    (match s.context {
        Some(c) => c,
        None => Seq::empty(),
    }) + "/"@ + (match s.namespace {
        Some(n) => n,
        None => "?"@,
    }) + "/"@ + (match s.kind {
        Some(k) => k,
        None => "pod"@,
    }) + "/"@ + s.name
}

/// The context that references without one use: the `--context` flag, else the
/// first context for which there is a client.
pub open spec fn default_context(context: Option<Seq<char>>, contexts: Seq<Seq<char>>) -> Option<
    Seq<char>,
> {
    match context {
        Some(c) => Some(c),
        None => if contexts.len() > 0 {
            Some(contexts[0])
        } else {
            None
        },
    }
}

/// The namespace that references without one use: the `--namespace` flag, else
/// `default`.
pub open spec fn default_namespace(namespace: Option<Seq<char>>) -> Seq<char> {
    match namespace {
        Some(n) => n,
        None => "default"@,
    }
}

/// One reference with the defaults applied. Its kind must be known (a missing
/// kind means a pod) and its context must be one of `contexts`.
pub open spec fn request_of(
    s: ResourceSpecView,
    context: Seq<char>,
    namespace: Seq<char>,
    contexts: Seq<Seq<char>>,
) -> Result<ResourceRequestView, ConfigErrorView> {
    let kind_name = match s.kind {
        Some(k) => k,
        None => "pod"@,
    };
    let cluster = match s.context {
        Some(c) => c,
        None => context,
    };
    match ResourceKind::of(kind_name) {
        None => Err(ConfigErrorView::UnknownKind(kind_name)),
        Some(kind) => if contexts.contains(cluster) {
            Ok(
                ResourceRequestView {
                    cluster,
                    namespace: match s.namespace {
                        Some(n) => n,
                        None => namespace,
                    },
                    kind,
                    name: s.name,
                },
            )
        } else {
            Err(ConfigErrorView::UnknownContext(cluster))
        },
    }
}

/// All references with the defaults applied, in order; the first failure fails
/// the whole list.
pub open spec fn requests_of(
    specs: Seq<ResourceSpecView>,
    context: Seq<char>,
    namespace: Seq<char>,
    contexts: Seq<Seq<char>>,
) -> Result<Seq<ResourceRequestView>, ConfigErrorView>
    decreases specs.len(),
{
    if specs.len() == 0 {
        Ok(Seq::empty())
    } else {
        match requests_of(specs.drop_last(), context, namespace, contexts) {
            Err(e) => Err(e),
            Ok(requests) => match request_of(specs.last(), context, namespace, contexts) {
                Err(e) => Err(e),
                Ok(r) => Ok(requests.push(r)),
            },
        }
    }
}

/// What an invocation asks for, given the contexts for which there is a client.
///
/// In this order: something must be asked for; every reference must parse; no
/// reference may name a context beside `--context`; a default context must be
/// known; every kind and every context must be known. The `--namespace` flag
/// is a default: a reference that names a namespace keeps its own.
pub open spec fn plan(cli: CliView, contexts: Seq<Seq<char>>) -> Result<
    Seq<ResourceRequestView>,
    ConfigErrorView,
> {
    if cli.resources.len() == 0 && cli.selector is None {
        Err(ConfigErrorView::NothingToTail)
    } else {
        match parsed_specs(cli.resources) {
            Err(e) => Err(e),
            Ok(specs) => if cli.context is Some && first_with_context(specs) is Some {
                Err(ConfigErrorView::ContextConflict(spec_path(first_with_context(specs)->Some_0)))
            } else {
                match default_context(cli.context, contexts) {
                    None => Err(ConfigErrorView::NoContext),
                    Some(context) => requests_of(
                        specs,
                        context,
                        default_namespace(cli.namespace),
                        contexts,
                    ),
                }
            },
        }
    }
}

/// A planning result as contracts see it.
pub open spec fn plan_view(r: Result<Vec<ResourceRequest>, ConfigError>) -> Result<
    Seq<ResourceRequestView>,
    ConfigErrorView,
> {
    match r {
        Ok(requests) => Ok(request_views(requests@)),
        Err(e) => Err(e@),
    }
}

fn parse_all(resources: &Vec<String>) -> (r: Result<Vec<ResourceSpec>, ConfigError>)
    ensures
        match r {
            Ok(specs) => parsed_specs(views(resources@)) == Ok::<_, ConfigErrorView>(
                spec_views(specs@),
            ),
            Err(e) => parsed_specs(views(resources@)) == Err::<Seq<ResourceSpecView>, _>(e@),
        },
{
    let mut specs: Vec<ResourceSpec> = Vec::new();
    let mut i: usize = 0;
    proof {
        assert(views(resources@).subrange(0, 0) =~= Seq::empty());
        assert(spec_views(specs@) =~= Seq::empty());
    }
    while i < resources.len()
        invariant
            i <= resources.len(),
            parsed_specs(views(resources@).subrange(0, i as int)) == Ok::<_, ConfigErrorView>(
                spec_views(specs@),
            ),
        decreases resources.len() - i,
    {
        let ghost done = views(resources@).subrange(0, i as int);
        let ghost next = views(resources@).subrange(0, i + 1);
        let ghost before = spec_views(specs@);
        proof {
            assert(next.drop_last() =~= done);
            assert(next.last() == resources@[i as int]@);
        }
        match parse_resource_spec(resources[i].as_str()) {
            Ok(spec) => {
                specs.push(spec);
                proof {
                    assert(spec_views(specs@) =~= before.push(spec@));
                }
            },
            Err(_) => {
                proof {
                    lemma_parse_failure_stays(views(resources@), i + 1);
                }
                return Err(ConfigError::InvalidResource(resources[i].clone()));
            },
        }
        i = i + 1;
    }
    proof {
        assert(views(resources@).subrange(0, i as int) =~= views(resources@));
    }
    Ok(specs)
}

/// A list whose prefix fails to parse fails in the same way.
proof fn lemma_parse_failure_stays(resources: Seq<Seq<char>>, n: int)
    requires
        0 <= n <= resources.len(),
        parsed_specs(resources.subrange(0, n)) is Err,
    ensures
        parsed_specs(resources) == parsed_specs(resources.subrange(0, n)),
    decreases resources.len() - n,
{
    if n < resources.len() {
        let next = resources.subrange(0, n + 1);
        assert(next.drop_last() =~= resources.subrange(0, n));
        lemma_parse_failure_stays(resources, n + 1);
    } else {
        assert(resources.subrange(0, n) =~= resources);
    }
}

/// The position of the first reference that names a context.
fn find_with_context(specs: &Vec<ResourceSpec>) -> (r: Option<usize>)
    ensures
        match r {
            Some(i) => i < specs@.len() && first_with_context(spec_views(specs@)) == Some(
                specs@[i as int]@,
            ),
            None => first_with_context(spec_views(specs@)) is None,
        },
{
    let mut i: usize = 0;
    proof {
        assert(spec_views(specs@).subrange(0, 0) =~= Seq::empty());
    }
    while i < specs.len()
        invariant
            i <= specs.len(),
            first_with_context(spec_views(specs@).subrange(0, i as int)) is None,
        decreases specs.len() - i,
    {
        proof {
            let next = spec_views(specs@).subrange(0, i + 1);
            assert(next.drop_last() =~= spec_views(specs@).subrange(0, i as int));
            assert(next.last() == specs@[i as int]@);
        }
        if specs[i].context.is_some() {
            proof {
                lemma_first_with_context_stays(spec_views(specs@), i + 1);
            }
            return Some(i);
        }
        i = i + 1;
    }
    proof {
        assert(spec_views(specs@).subrange(0, i as int) =~= spec_views(specs@));
    }
    None
}

proof fn lemma_first_with_context_stays(specs: Seq<ResourceSpecView>, n: int)
    requires
        0 <= n <= specs.len(),
        first_with_context(specs.subrange(0, n)) is Some,
    ensures
        first_with_context(specs) == first_with_context(specs.subrange(0, n)),
    decreases specs.len() - n,
{
    if n < specs.len() {
        let next = specs.subrange(0, n + 1);
        assert(next.drop_last() =~= specs.subrange(0, n));
        lemma_first_with_context_stays(specs, n + 1);
    } else {
        assert(specs.subrange(0, n) =~= specs);
    }
}

/// Writes a reference out in full.
fn path_of(spec: &ResourceSpec) -> (r: String)
    ensures
        r@ == spec_path(spec@),
{
    let mut path = String::new();
    match &spec.context {
        Some(c) => path.append(c.as_str()),
        None => {},
    }
    path.append("/");
    match &spec.namespace {
        Some(n) => path.append(n.as_str()),
        None => path.append("?"),
    }
    path.append("/");
    match &spec.kind {
        Some(k) => path.append(k.as_str()),
        None => path.append("pod"),
    }
    path.append("/");
    path.append(spec.name.as_str());
    proof {
        assert(path@ =~= spec_path(spec@));
    }
    path
}

/// Applies the defaults to one reference.
fn request_for(spec: &ResourceSpec, context: &str, namespace: &str, contexts: &Vec<String>) -> (r:
    Result<ResourceRequest, ConfigError>)
    ensures
        match r {
            Ok(request) => request_of(spec@, context@, namespace@, views(contexts@)) == Ok::<
                _,
                ConfigErrorView,
            >(request@),
            Err(e) => request_of(spec@, context@, namespace@, views(contexts@)) == Err::<
                ResourceRequestView,
                _,
            >(e@),
        },
{
    let kind_name = match &spec.kind {
        Some(k) => k.as_str(),
        None => "pod",
    };
    let cluster = match &spec.context {
        Some(c) => c.as_str(),
        None => context,
    };
    match ResourceKind::parse(kind_name) {
        None => Err(ConfigError::UnknownKind(String::from_str(kind_name))),
        Some(kind) => {
            if contains_str(contexts, cluster) {
                let namespace = match &spec.namespace {
                    Some(n) => n.as_str(),
                    None => namespace,
                };
                Ok(
                    ResourceRequest {
                        cluster: String::from_str(cluster),
                        namespace: String::from_str(namespace),
                        kind,
                        name: spec.name.clone(),
                    },
                )
            } else {
                Err(ConfigError::UnknownContext(String::from_str(cluster)))
            }
        },
    }
}

proof fn lemma_requests_failure_stays(
    specs: Seq<ResourceSpecView>,
    context: Seq<char>,
    namespace: Seq<char>,
    contexts: Seq<Seq<char>>,
    n: int,
)
    requires
        0 <= n <= specs.len(),
        requests_of(specs.subrange(0, n), context, namespace, contexts) is Err,
    ensures
        requests_of(specs, context, namespace, contexts) == requests_of(
            specs.subrange(0, n),
            context,
            namespace,
            contexts,
        ),
    decreases specs.len() - n,
{
    if n < specs.len() {
        let next = specs.subrange(0, n + 1);
        assert(next.drop_last() =~= specs.subrange(0, n));
        lemma_requests_failure_stays(specs, context, namespace, contexts, n + 1);
    } else {
        assert(specs.subrange(0, n) =~= specs);
    }
}

/// Applies the defaults to every reference, in order.
fn apply_defaults(
    specs: &Vec<ResourceSpec>,
    context: &str,
    namespace: &str,
    contexts: &Vec<String>,
) -> (r: Result<Vec<ResourceRequest>, ConfigError>)
    ensures
        plan_view(r) == requests_of(spec_views(specs@), context@, namespace@, views(contexts@)),
{
    let mut requests: Vec<ResourceRequest> = Vec::new();
    let mut i: usize = 0;
    proof {
        assert(spec_views(specs@).subrange(0, 0) =~= Seq::empty());
        assert(request_views(requests@) =~= Seq::empty());
    }
    while i < specs.len()
        invariant
            i <= specs.len(),
            requests_of(
                spec_views(specs@).subrange(0, i as int),
                context@,
                namespace@,
                views(contexts@),
            ) == Ok::<_, ConfigErrorView>(request_views(requests@)),
        decreases specs.len() - i,
    {
        let ghost before = request_views(requests@);
        proof {
            let next = spec_views(specs@).subrange(0, i + 1);
            assert(next.drop_last() =~= spec_views(specs@).subrange(0, i as int));
            assert(next.last() == specs@[i as int]@);
        }
        match request_for(&specs[i], context, namespace, contexts) {
            Ok(request) => {
                requests.push(request);
                proof {
                    assert(request_views(requests@) =~= before.push(request@));
                }
            },
            Err(e) => {
                proof {
                    lemma_requests_failure_stays(
                        spec_views(specs@),
                        context@,
                        namespace@,
                        views(contexts@),
                        i + 1,
                    );
                }
                return Err(e);
            },
        }
        i = i + 1;
    }
    proof {
        assert(spec_views(specs@).subrange(0, i as int) =~= spec_views(specs@));
    }
    Ok(requests)
}

/// Reads the references of an invocation and applies its defaults.
///
/// `contexts` names the contexts for which there is a client; the first one is
/// the current context. The result lists one request per reference, in the
/// order given, or the first configuration error found.
pub fn plan_requests(cli: &Cli, contexts: &Vec<String>) -> (r: Result<
    Vec<ResourceRequest>,
    ConfigError,
>)
    ensures
        plan_view(r) == plan(cli@, views(contexts@)),
{
    if cli.resources.len() == 0 && cli.selector.is_none() {
        return Err(ConfigError::NothingToTail);
    }
    let specs = match parse_all(&cli.resources) {
        Ok(specs) => specs,
        Err(e) => {
            return Err(e);
        },
    };
    if cli.context.is_some() {
        match find_with_context(&specs) {
            Some(i) => {
                return Err(ConfigError::ContextConflict(path_of(&specs[i])));
            },
            None => {},
        }
    }
    let context: &str = match &cli.context {
        Some(c) => c.as_str(),
        None => {
            if contexts.len() > 0 {
                contexts[0].as_str()
            } else {
                return Err(ConfigError::NoContext);
            }
        },
    };
    let namespace: &str = match &cli.namespace {
        Some(n) => n.as_str(),
        None => "default",
    };
    apply_defaults(&specs, context, namespace, contexts)
}

/// How one pod watch picks its pods.
#[derive(Debug)]
pub enum WatchPredicate {
    /// Pods that a label selector matches.
    Labels(String),
    /// The pod of this name, whenever it exists.
    FieldName(String),
}

/// One pod watch: a cluster, a namespace and a predicate.
#[derive(Debug)]
pub struct WatchSpec {
    pub cluster: String,
    pub namespace: String,
    pub predicate: WatchPredicate,
}

/// What a `WatchPredicate` is in contracts.
pub enum WatchPredicateView {
    Labels(Seq<char>),
    FieldName(Seq<char>),
}

/// What a `WatchSpec` is in contracts.
pub struct WatchSpecView {
    pub cluster: Seq<char>,
    pub namespace: Seq<char>,
    pub predicate: WatchPredicateView,
}

impl View for WatchPredicate {
    type V = WatchPredicateView;

    open spec fn view(&self) -> WatchPredicateView {
        match self {
            WatchPredicate::Labels(s) => WatchPredicateView::Labels(s@),
            WatchPredicate::FieldName(s) => WatchPredicateView::FieldName(s@),
        }
    }
}

impl View for WatchSpec {
    type V = WatchSpecView;

    open spec fn view(&self) -> WatchSpecView {
        WatchSpecView {
            cluster: self.cluster@,
            namespace: self.namespace@,
            predicate: self.predicate@,
        }
    }
}

impl PartialEq for WatchPredicate {
    fn eq(&self, other: &Self) -> (r: bool) {
        match (self, other) {
            (WatchPredicate::Labels(a), WatchPredicate::Labels(b)) => *a == *b,
            (WatchPredicate::FieldName(a), WatchPredicate::FieldName(b)) => *a == *b,
            _ => false,
        }
    }
}

impl PartialEqSpecImpl for WatchPredicate {
    open spec fn obeys_eq_spec() -> bool {
        true
    }

    open spec fn eq_spec(&self, other: &Self) -> bool {
        self@ == other@
    }
}

impl PartialEq for WatchSpec {
    fn eq(&self, other: &Self) -> (r: bool) {
        self.cluster == other.cluster && self.namespace == other.namespace && self.predicate
            == other.predicate
    }
}

impl PartialEqSpecImpl for WatchSpec {
    open spec fn obeys_eq_spec() -> bool {
        true
    }

    open spec fn eq_spec(&self, other: &Self) -> bool {
        self@ == other@
    }
}

impl WatchPredicate {
    /// The field selector that picks the pod of one name.
    pub open spec fn field_selector_of(name: Seq<char>) -> Seq<char> {
        "metadata.name="@ + name
    }

    /// The label selector to watch with, if the predicate is one.
    pub fn label_selector(&self) -> (r: Option<String>)
        ensures
            opt_view(r) == (match self@ {
                WatchPredicateView::Labels(s) => Some(s),
                WatchPredicateView::FieldName(_) => None,
            }),
    {
        match self {
            WatchPredicate::Labels(s) => Some(s.clone()),
            WatchPredicate::FieldName(_) => None,
        }
    }

    /// The field selector to watch with, if the predicate names a pod.
    pub fn field_selector(&self) -> (r: Option<String>)
        ensures
            opt_view(r) == (match self@ {
                WatchPredicateView::Labels(_) => None,
                WatchPredicateView::FieldName(name) => Some(Self::field_selector_of(name)),
            }),
    {
        match self {
            WatchPredicate::Labels(_) => None,
            WatchPredicate::FieldName(name) => {
                let mut s = String::from_str("metadata.name=");
                s.append(name.as_str());
                Some(s)
            },
        }
    }
}

/// The views of a vector of watches.
pub open spec fn watch_views(v: Seq<WatchSpec>) -> Seq<WatchSpecView> {
    Seq::new(v.len(), |i: int| v[i]@)
}

/// A request together with what fetching its controller gave: the controller's
/// label selector, or nothing where the controller is absent, could not be
/// read or has no selector. For a pod nothing is fetched.
#[derive(Debug)]
pub struct Lookup {
    pub request: ResourceRequest,
    pub selector: Option<LabelSelector>,
}

/// What a `Lookup` is in contracts.
pub struct LookupView {
    pub request: ResourceRequestView,
    pub selector: Option<LabelSelectorView>,
}

impl View for Lookup {
    type V = LookupView;

    open spec fn view(&self) -> LookupView {
        LookupView {
            request: self.request@,
            selector: match self.selector {
                Some(s) => Some(s@),
                None => None,
            },
        }
    }
}

/// The views of a vector of lookups.
pub open spec fn lookup_views(v: Seq<Lookup>) -> Seq<LookupView> {
    Seq::new(v.len(), |i: int| v[i]@)
}

/// The watch that one request leads to. A pod is watched by name, so that it
/// is found whenever it appears. A controller is watched through its label
/// selector; where it has none, or an empty one, there is no watch.
pub open spec fn watch_spec_of(l: LookupView) -> Option<WatchSpecView> {
    if l.request.kind == ResourceKind::Pod {
        Some(
            WatchSpecView {
                cluster: l.request.cluster,
                namespace: l.request.namespace,
                predicate: WatchPredicateView::FieldName(l.request.name),
            },
        )
    } else {
        match l.selector {
            Some(selector) => match selector_text(selector) {
                Some(text) => Some(
                    WatchSpecView {
                        cluster: l.request.cluster,
                        namespace: l.request.namespace,
                        predicate: WatchPredicateView::Labels(text),
                    },
                ),
                None => None,
            },
            None => None,
        }
    }
}

/// The watches that the requests lead to, in the order of the requests.
pub open spec fn watch_specs_of(ls: Seq<LookupView>) -> Seq<WatchSpecView>
    decreases ls.len(),
{
    if ls.len() == 0 {
        Seq::empty()
    } else {
        match watch_spec_of(ls.last()) {
            Some(w) => watch_specs_of(ls.drop_last()).push(w),
            None => watch_specs_of(ls.drop_last()),
        }
    }
}

/// The watch that the `--selector` flag leads to, in the default context and
/// namespace. An empty selector leads to none.
pub open spec fn selector_watch(
    selector: Option<Seq<char>>,
    context: Seq<char>,
    namespace: Seq<char>,
) -> Seq<WatchSpecView> {
    match selector {
        Some(s) => if s.len() > 0 {
            seq![
                WatchSpecView {
                    cluster: context,
                    namespace,
                    predicate: WatchPredicateView::Labels(s),
                },
            ]
        } else {
            Seq::empty()
        },
        None => Seq::empty(),
    }
}

/// All watches of an invocation: those of the requests, then that of the
/// `--selector` flag, each one once.
pub open spec fn resolved(
    ls: Seq<LookupView>,
    selector: Option<Seq<char>>,
    context: Seq<char>,
    namespace: Seq<char>,
) -> Seq<WatchSpecView> {
    dedup(watch_specs_of(ls) + selector_watch(selector, context, namespace))
}

/// The label text under which a controller with this selector is watched, if
/// its labels are a map: `k=v` for each label in the order of the keys, then
/// the requirements; none for a selector without terms or with a requirement
/// that makes no term.
pub open spec fn controller_labels(selector: LabelSelectorView) -> Option<Seq<char>> {
    terms_text(typed_terms(selector))
}

/// The watch that one request leads to, if any.
///
/// A pod is watched by its name. A controller is watched through the text of
/// its selector; for a selector whose labels are a map that text is
/// `controller_labels`. A controller that was not found gives no watch, and
/// neither does an empty selector.
pub fn watch_spec_for(lookup: &Lookup) -> (r: Option<WatchSpec>)
    ensures
        (match r {
            Some(w) => Some(w@),
            None => None,
        }) == watch_spec_of(lookup@),
        lookup@.request.kind != ResourceKind::Pod && (lookup@.selector matches Some(s)
            ==> s.is_empty()) ==> r is None,
        lookup@.request.kind != ResourceKind::Pod && (lookup@.selector matches Some(s) && s.wf())
            ==> (match r {
            Some(w) => Some(w@.predicate),
            None => None,
        }) == (match controller_labels(lookup@.selector->Some_0) {
            Some(text) => Some(WatchPredicateView::Labels(text)),
            None => None,
        }),
{
    if !lookup.request.kind.controller() {
        Some(
            WatchSpec {
                cluster: lookup.request.cluster.clone(),
                namespace: lookup.request.namespace.clone(),
                predicate: WatchPredicate::FieldName(lookup.request.name.clone()),
            },
        )
    } else {
        match &lookup.selector {
            Some(selector) => match selector_to_labels_string(selector) {
                Some(text) => Some(
                    WatchSpec {
                        cluster: lookup.request.cluster.clone(),
                        namespace: lookup.request.namespace.clone(),
                        predicate: WatchPredicate::Labels(text),
                    },
                ),
                None => None,
            },
            None => None,
        }
    }
}

/// Whether `watches` holds a watch equal to `w`.
fn has_watch(watches: &Vec<WatchSpec>, w: &WatchSpec) -> (r: bool)
    ensures
        r == watch_views(watches@).contains(w@),
{
    let mut i: usize = 0;
    while i < watches.len()
        invariant
            i <= watches.len(),
            forall|j: int| 0 <= j < i ==> watch_views(watches@)[j] != w@,
        decreases watches.len() - i,
    {
        if watches[i] == *w {
            assert(watch_views(watches@)[i as int] == w@);
            return true;
        }
        i = i + 1;
    }
    false
}

/// Adds `w` unless an equal watch is there already.
fn add_watch(watches: &mut Vec<WatchSpec>, w: WatchSpec, Ghost(all): Ghost<Seq<WatchSpecView>>)
    requires
        watch_views(old(watches)@) == dedup(all),
    ensures
        watch_views(final(watches)@) == dedup(all.push(w@)),
{
    proof {
        assert(all.push(w@).drop_last() =~= all);
    }
    if !has_watch(watches, &w) {
        let ghost before = watch_views(watches@);
        watches.push(w);
        proof {
            assert(watch_views(watches@) =~= before.push(w@));
        }
    }
}

/// Turns the requests of an invocation, with what was found for each, into the
/// pod watches to run; `context` and `namespace` are the defaults, in which
/// the `--selector` flag applies.
///
/// No watch occurs twice. A controller that is absent or has an empty selector
/// gives no watch, and neither does an empty `--selector`: nothing here ever
/// matches all pods. The watch of each request is what `watch_spec_of` says:
/// for a controller whose labels are a map, the text of its labels in the
/// order of their keys and of its requirements.
pub fn resolve(
    lookups: &Vec<Lookup>,
    selector: &Option<String>,
    context: &str,
    namespace: &str,
) -> (watches: Vec<WatchSpec>)
    ensures
        watch_views(watches@) == resolved(
            lookup_views(lookups@),
            opt_view(*selector),
            context@,
            namespace@,
        ),
{
    let mut watches: Vec<WatchSpec> = Vec::new();
    let mut i: usize = 0;
    proof {
        assert(lookup_views(lookups@).subrange(0, 0) =~= Seq::empty());
        assert(watch_views(watches@) =~= Seq::empty());
    }
    while i < lookups.len()
        invariant
            i <= lookups.len(),
            watch_views(watches@) == dedup(
                watch_specs_of(lookup_views(lookups@).subrange(0, i as int)),
            ),
        decreases lookups.len() - i,
    {
        let ghost done = watch_specs_of(lookup_views(lookups@).subrange(0, i as int));
        proof {
            let next = lookup_views(lookups@).subrange(0, i + 1);
            assert(next.drop_last() =~= lookup_views(lookups@).subrange(0, i as int));
            assert(next.last() == lookups@[i as int]@);
        }
        match watch_spec_for(&lookups[i]) {
            Some(w) => {
                add_watch(&mut watches, w, Ghost(done));
            },
            None => {},
        }
        i = i + 1;
    }
    let ghost all = watch_specs_of(lookup_views(lookups@));
    proof {
        assert(lookup_views(lookups@).subrange(0, i as int) =~= lookup_views(lookups@));
    }
    match selector {
        Some(s) => {
            if s.as_str().unicode_len() > 0 {
                let w = WatchSpec {
                    cluster: String::from_str(context),
                    namespace: String::from_str(namespace),
                    predicate: WatchPredicate::Labels(s.clone()),
                };
                proof {
                    assert(all + selector_watch(opt_view(*selector), context@, namespace@)
                        =~= all.push(w@));
                }
                add_watch(&mut watches, w, Ghost(all));
            } else {
                proof {
                    assert(all + selector_watch(opt_view(*selector), context@, namespace@)
                        =~= all);
                }
            }
        },
        None => {
            proof {
                assert(all + selector_watch(opt_view(*selector), context@, namespace@) =~= all);
            }
        },
    }
    watches
}

/// The context that a reference names: the first of its parts, if it has
/// four.
pub open spec fn named_context(resource: Seq<char>) -> Option<Seq<char>> {
    let parts = split(resource, '/');
    if parts.len() == 4 {
        Some(parts[0])
    } else {
        None
    }
}

/// The contexts that the references name, in the order of the references.
pub open spec fn named_contexts(resources: Seq<Seq<char>>) -> Seq<Seq<char>>
    decreases resources.len(),
{
    if resources.len() == 0 {
        Seq::empty()
    } else {
        match named_context(resources.last()) {
            Some(c) => named_contexts(resources.drop_last()).push(c),
            None => named_contexts(resources.drop_last()),
        }
    }
}

/// The contexts that an invocation needs a client for: that of the `--context`
/// flag, then those that the references name, each one once.
pub open spec fn contexts_needed(cli: CliView) -> Seq<Seq<char>> {
    dedup(
        (match cli.context {
            Some(c) => seq![c],
            None => Seq::empty(),
        }) + named_contexts(cli.resources),
    )
}

/// The contexts that an invocation needs a client for. Where there is none,
/// the current context is used.
pub fn requested_contexts(cli: &Cli) -> (r: Vec<String>)
    ensures
        views(r@) == contexts_needed(cli@),
{
    let ghost flag = match cli@.context {
        Some(c) => seq![c],
        None => Seq::empty(),
    };
    let mut r: Vec<String> = Vec::new();
    match &cli.context {
        Some(c) => {
            r.push(c.clone());
            proof {
                assert(flag.drop_last() =~= Seq::empty());
                assert(dedup(flag.drop_last()) =~= Seq::empty());
                assert(views(r@) =~= dedup(flag));
            }
        },
        None => {
            proof {
                assert(views(r@) =~= dedup(flag));
            }
        },
    }
    let mut i: usize = 0;
    proof {
        assert(views(cli.resources@).subrange(0, 0) =~= Seq::empty());
        assert(flag + Seq::<Seq<char>>::empty() =~= flag);
    }
    while i < cli.resources.len()
        invariant
            i <= cli.resources@.len(),
            views(r@) == dedup(flag + named_contexts(views(cli.resources@).subrange(0, i as int))),
        decreases cli.resources.len() - i,
    {
        let ghost done = named_contexts(views(cli.resources@).subrange(0, i as int));
        proof {
            let next = views(cli.resources@).subrange(0, i + 1);
            assert(next.drop_last() =~= views(cli.resources@).subrange(0, i as int));
            assert(next.last() == cli.resources@[i as int]@);
        }
        match parse_resource_spec(cli.resources[i].as_str()) {
            Ok(spec) => match spec.context {
                Some(c) => {
                    proof {
                        assert((flag + done.push(c@)).drop_last() =~= flag + done);
                    }
                    if !contains_str(&r, c.as_str()) {
                        let ghost before = views(r@);
                        r.push(c);
                        proof {
                            assert(views(r@) =~= before.push(c@));
                        }
                    }
                },
                None => {},
            },
            Err(_) => {},
        }
        i = i + 1;
    }
    proof {
        assert(views(cli.resources@).subrange(0, i as int) =~= views(cli.resources@));
    }
    r
}

/// The context and the namespace that references without their own use; no
/// context where none was given and there is no client.
pub fn defaults(cli: &Cli, contexts: &Vec<String>) -> (r: (Option<String>, String))
    ensures
        opt_view(r.0) == default_context(cli@.context, views(contexts@)),
        r.1@ == default_namespace(cli@.namespace),
{
    let context = match &cli.context {
        Some(c) => Some(c.clone()),
        None => {
            if contexts.len() > 0 {
                Some(contexts[0].clone())
            } else {
                None
            }
        },
    };
    let namespace = match &cli.namespace {
        Some(n) => n.clone(),
        None => String::from_str("default"),
    };
    (context, namespace)
}

/// The names of the pods that are watched by name, in the order of the
/// watches.
pub open spec fn named_pods(watches: Seq<WatchSpecView>) -> Seq<Seq<char>>
    decreases watches.len(),
{
    if watches.len() == 0 {
        Seq::empty()
    } else {
        match watches.last().predicate {
            WatchPredicateView::FieldName(name) => named_pods(watches.drop_last()).push(name),
            WatchPredicateView::Labels(_) => named_pods(watches.drop_last()),
        }
    }
}

/// The names of the explicitly named pods among the watches.
pub fn explicit_pods(watches: &Vec<WatchSpec>) -> (r: Vec<String>)
    ensures
        views(r@) == named_pods(watch_views(watches@)),
{
    let mut r: Vec<String> = Vec::new();
    let mut i: usize = 0;
    proof {
        assert(watch_views(watches@).subrange(0, 0) =~= Seq::empty());
        assert(views(r@) =~= Seq::empty());
    }
    while i < watches.len()
        invariant
            i <= watches@.len(),
            views(r@) == named_pods(watch_views(watches@).subrange(0, i as int)),
        decreases watches.len() - i,
    {
        let ghost before = views(r@);
        proof {
            let next = watch_views(watches@).subrange(0, i + 1);
            assert(next.drop_last() =~= watch_views(watches@).subrange(0, i as int));
            assert(next.last() == watches@[i as int]@);
        }
        match &watches[i].predicate {
            WatchPredicate::FieldName(name) => {
                r.push(name.clone());
                proof {
                    assert(views(r@) =~= before.push(name@));
                }
            },
            WatchPredicate::Labels(_) => {},
        }
        i = i + 1;
    }
    proof {
        assert(watch_views(watches@).subrange(0, i as int) =~= watch_views(watches@));
    }
    r
}

/// No watch is run twice: the resolved watches are pairwise different.
pub proof fn lemma_resolved_distinct(
    ls: Seq<LookupView>,
    selector: Option<Seq<char>>,
    context: Seq<char>,
    namespace: Seq<char>,
)
    ensures
        distinct(resolved(ls, selector, context, namespace)),
{
    lemma_dedup(watch_specs_of(ls) + selector_watch(selector, context, namespace));
}

} // verus!
