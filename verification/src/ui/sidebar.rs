//! The rows of the sidebar: a tree of clusters, namespaces, pods and
//! containers, of which the expanded parts are shown.

use crate::order::{add_name, sorted_set};
use crate::text::{contains_str, same, views};
use crate::types::{PodKey, PodKeyView};
use crate::ui::app::{
    enabled_of, key_views, node_views, pod_views, state_enabled, state_views, App, AppView,
    PodInfo, PodInfoView, PodStateEntry, PodStateEntryView, TreeNodeType, TreeNodeView,
};
use crate::ui::widgets::Style;
use crate::utils::Color;
use vstd::prelude::*;
use vstd::string::*;

verus! {

/// One row of the sidebar.
#[derive(Debug)]
pub struct SidebarRow {
    pub text: String,
    pub style: Style,
    /// What the row stands for.
    pub node: TreeNodeType,
    /// The container that the row stands for, if it is one.
    pub key: Option<PodKey>,
}

/// What a `SidebarRow` is in contracts.
pub struct SidebarRowView {
    pub text: Seq<char>,
    pub style: Style,
    pub node: TreeNodeView,
    pub key: Option<PodKeyView>,
}

impl View for SidebarRow {
    type V = SidebarRowView;

    open spec fn view(&self) -> SidebarRowView {
        SidebarRowView {
            text: self.text@,
            style: self.style,
            node: self.node@,
            key: match self.key {
                Some(k) => Some(k@),
                None => None,
            },
        }
    }
}

/// The views of a sequence of rows.
pub open spec fn row_views(s: Seq<SidebarRow>) -> Seq<SidebarRowView> {
    Seq::new(s.len(), |i: int| s[i]@)
}

/// A part of the tree: a cluster, a namespace in it, or a pod in that.
pub struct Scope {
    pub cluster: Seq<char>,
    pub namespace: Option<Seq<char>>,
    pub pod: Option<Seq<char>>,
}

impl Scope {
    /// Whether the container `k` lies in this part of the tree.
    pub open spec fn holds(self, k: PodKeyView) -> bool {
        &&& k.cluster == self.cluster
        &&& self.namespace matches Some(n) ==> k.namespace == n
        &&& self.pod matches Some(p) ==> k.pod_name == p
    }
}

/// The containers of a part of the tree, in the order of their arrival.
pub open spec fn members(pods: Seq<PodInfoView>, scope: Scope) -> Seq<PodInfoView>
    decreases pods.len(),
{
    if pods.len() == 0 {
        Seq::empty()
    } else if scope.holds(pods.last().key) {
        members(pods.drop_last(), scope).push(pods.last())
    } else {
        members(pods.drop_last(), scope)
    }
}

/// How many of the first `n` containers are enabled.
pub open spec fn enabled_among(states: Seq<PodStateEntryView>, ms: Seq<PodInfoView>, n: int) -> int
    decreases n,
{
    if n <= 0 {
        0
    } else if enabled_of(states, ms[n - 1].key) {
        enabled_among(states, ms, n - 1) + 1
    } else {
        enabled_among(states, ms, n - 1)
    }
}

/// The clusters of the containers.
pub open spec fn cluster_of(ms: Seq<PodInfoView>) -> Seq<Seq<char>> {
    Seq::new(ms.len(), |i: int| ms[i].key.cluster)
}

/// The namespaces of the containers.
pub open spec fn namespace_of(ms: Seq<PodInfoView>) -> Seq<Seq<char>> {
    Seq::new(ms.len(), |i: int| ms[i].key.namespace)
}

/// The pods of the containers.
pub open spec fn pod_of(ms: Seq<PodInfoView>) -> Seq<Seq<char>> {
    Seq::new(ms.len(), |i: int| ms[i].key.pod_name)
}

/// The style of a group: dark gray where none of its containers is enabled,
/// gray where only some are, and its own colour where all are.
pub open spec fn group_style(enabled: int, total: int, own: Color, bold: bool) -> Style {
    Style {
        fg: Some(
            if total > 0 && enabled == 0 {
                Color::DarkGray
            } else if total > 0 && enabled < total {
                Color::Gray
            } else {
                own
            },
        ),
        bold,
        ..Style::plain()
    }
}

/// The mark of a node: pointing down when it is expanded, to the right when
/// it is folded.
pub open spec fn icon(expanded: bool) -> Seq<char> {
    if expanded {
        "▼"@
    } else {
        "▶"@
    }
}

/// The row of a container: a checked box if it is enabled, an empty one in
/// dark gray if it is not.
pub open spec fn container_row(states: Seq<PodStateEntryView>, m: PodInfoView) -> SidebarRowView {
    let enabled = enabled_of(states, m.key);
    SidebarRowView {
        text: "      "@ + (if enabled {
            "[x]"@
        } else {
            "[ ]"@
        }) + " "@ + m.key.container_name,
        style: if enabled {
            Style::plain()
        } else {
            Style { fg: Some(Color::DarkGray), ..Style::plain() }
        },
        node: TreeNodeView::Container,
        key: Some(m.key),
    }
}

/// The rows of the containers `ms`.
pub open spec fn container_rows(states: Seq<PodStateEntryView>, ms: Seq<PodInfoView>) -> Seq<
    SidebarRowView,
> {
    Seq::new(ms.len(), |i: int| container_row(states, ms[i]))
}

/// The rows of one pod: its own, with the phase of its first container, and
/// below it, if the pod is expanded, those of its containers.
pub open spec fn pod_block(
    pods: Seq<PodInfoView>,
    states: Seq<PodStateEntryView>,
    expanded: Seq<Seq<char>>,
    cluster: Seq<char>,
    namespace: Seq<char>,
    pod: Seq<char>,
) -> Seq<SidebarRowView> {
    let ms = members(pods, Scope { cluster, namespace: Some(namespace), pod: Some(pod) });
    let node = TreeNodeView::Pod(cluster, namespace, pod);
    let open = expanded.contains(node.path()->Some_0);
    let phase = if ms.len() > 0 {
        ms[0].phase
    } else {
        Seq::empty()
    };
    seq![
        SidebarRowView {
            text: "    "@ + icon(open) + " "@ + pod + " ("@ + phase + ")"@,
            style: group_style(
                enabled_among(states, ms, ms.len() as int),
                ms.len() as int,
                Color::Green,
                false,
            ),
            node,
            key: None,
        },
    ] + (if open {
        container_rows(states, ms)
    } else {
        Seq::empty()
    })
}

/// The rows of the pods `names`, one pod after the other.
pub open spec fn pod_blocks(
    pods: Seq<PodInfoView>,
    states: Seq<PodStateEntryView>,
    expanded: Seq<Seq<char>>,
    cluster: Seq<char>,
    namespace: Seq<char>,
    names: Seq<Seq<char>>,
) -> Seq<SidebarRowView>
    decreases names.len(),
{
    if names.len() == 0 {
        Seq::empty()
    } else {
        pod_blocks(pods, states, expanded, cluster, namespace, names.drop_last()) + pod_block(
            pods,
            states,
            expanded,
            cluster,
            namespace,
            names.last(),
        )
    }
}

/// The rows of one namespace: its own, and below it, if the namespace is
/// expanded, those of its pods in the order of their names.
pub open spec fn namespace_block(
    pods: Seq<PodInfoView>,
    states: Seq<PodStateEntryView>,
    expanded: Seq<Seq<char>>,
    cluster: Seq<char>,
    namespace: Seq<char>,
) -> Seq<SidebarRowView> {
    let ms = members(pods, Scope { cluster, namespace: Some(namespace), pod: None });
    let node = TreeNodeView::Namespace(cluster, namespace);
    let open = expanded.contains(node.path()->Some_0);
    seq![
        SidebarRowView {
            text: "  "@ + icon(open) + " "@ + namespace,
            style: group_style(
                enabled_among(states, ms, ms.len() as int),
                ms.len() as int,
                Color::Blue,
                true,
            ),
            node,
            key: None,
        },
    ] + (if open {
        pod_blocks(pods, states, expanded, cluster, namespace, sorted_set(pod_of(ms)))
    } else {
        Seq::empty()
    })
}

/// The rows of the namespaces `names`, one namespace after the other.
pub open spec fn namespace_blocks(
    pods: Seq<PodInfoView>,
    states: Seq<PodStateEntryView>,
    expanded: Seq<Seq<char>>,
    cluster: Seq<char>,
    names: Seq<Seq<char>>,
) -> Seq<SidebarRowView>
    decreases names.len(),
{
    if names.len() == 0 {
        Seq::empty()
    } else {
        namespace_blocks(pods, states, expanded, cluster, names.drop_last()) + namespace_block(
            pods,
            states,
            expanded,
            cluster,
            names.last(),
        )
    }
}

/// The rows of one cluster: its own, and below it, if the cluster is expanded,
/// those of its namespaces in the order of their names.
pub open spec fn cluster_block(
    pods: Seq<PodInfoView>,
    states: Seq<PodStateEntryView>,
    expanded: Seq<Seq<char>>,
    cluster: Seq<char>,
) -> Seq<SidebarRowView> {
    let ms = members(pods, Scope { cluster, namespace: None, pod: None });
    let node = TreeNodeView::Cluster(cluster);
    let open = expanded.contains(cluster);
    seq![
        SidebarRowView {
            text: icon(open) + " "@ + cluster,
            style: group_style(
                enabled_among(states, ms, ms.len() as int),
                ms.len() as int,
                Color::Cyan,
                true,
            ),
            node,
            key: None,
        },
    ] + (if open {
        namespace_blocks(pods, states, expanded, cluster, sorted_set(namespace_of(ms)))
    } else {
        Seq::empty()
    })
}

/// The rows of the clusters `names`, one cluster after the other.
pub open spec fn cluster_blocks(
    pods: Seq<PodInfoView>,
    states: Seq<PodStateEntryView>,
    expanded: Seq<Seq<char>>,
    names: Seq<Seq<char>>,
) -> Seq<SidebarRowView>
    decreases names.len(),
{
    if names.len() == 0 {
        Seq::empty()
    } else {
        cluster_blocks(pods, states, expanded, names.drop_last()) + cluster_block(
            pods,
            states,
            expanded,
            names.last(),
        )
    }
}

/// The rows of the sidebar: the clusters in the order of their names, each
/// with what is expanded below it.
pub open spec fn rows_of(
    pods: Seq<PodInfoView>,
    states: Seq<PodStateEntryView>,
    expanded: Seq<Seq<char>>,
) -> Seq<SidebarRowView> {
    cluster_blocks(pods, states, expanded, sorted_set(cluster_of(pods)))
}

/// The views of a sequence of borrowed pods.
pub open spec fn ref_views(s: Seq<&PodInfo>) -> Seq<PodInfoView> {
    Seq::new(s.len(), |i: int| s[i]@)
}

/// The containers of a part of the tree.
fn members_of<'a>(
    pods: &'a Vec<PodInfo>,
    cluster: &str,
    namespace: Option<&str>,
    pod: Option<&str>,
) -> (r: Vec<&'a PodInfo>)
    ensures
        ref_views(r@) == members(
            pod_views(pods@),
            Scope {
                cluster: cluster@,
                namespace: match namespace {
                    Some(n) => Some(n@),
                    None => None,
                },
                pod: match pod {
                    Some(p) => Some(p@),
                    None => None,
                },
            },
        ),
{
    let ghost scope = Scope {
        cluster: cluster@,
        namespace: match namespace {
            Some(n) => Some(n@),
            None => None,
        },
        pod: match pod {
            Some(p) => Some(p@),
            None => None,
        },
    };
    let mut r: Vec<&'a PodInfo> = Vec::new();
    let mut i: usize = 0;
    proof {
        assert(pod_views(pods@).subrange(0, 0) =~= Seq::empty());
        assert(ref_views(r@) =~= Seq::empty());
    }
    while i < pods.len()
        invariant
            i <= pods@.len(),
            scope == (Scope {
                cluster: cluster@,
                namespace: match namespace {
                    Some(n) => Some(n@),
                    None => None,
                },
                pod: match pod {
                    Some(p) => Some(p@),
                    None => None,
                },
            }),
            ref_views(r@) == members(pod_views(pods@).subrange(0, i as int), scope),
        decreases pods.len() - i,
    {
        let p = &pods[i];
        let ghost before = ref_views(r@);
        proof {
            let next = pod_views(pods@).subrange(0, i + 1);
            assert(next.drop_last() =~= pod_views(pods@).subrange(0, i as int));
            assert(next.last() == p@);
        }
        let inside = same(p.key.cluster.as_str(), cluster) && (match namespace {
            Some(n) => same(p.key.namespace.as_str(), n),
            None => true,
        }) && (match pod {
            Some(name) => same(p.key.pod_name.as_str(), name),
            None => true,
        });
        if inside {
            r.push(p);
            proof {
                assert(ref_views(r@) =~= before.push(p@));
            }
        }
        i = i + 1;
    }
    proof {
        assert(pod_views(pods@).subrange(0, i as int) =~= pod_views(pods@));
    }
    r
}

/// How many of the containers are enabled.
fn count_enabled(states: &Vec<PodStateEntry>, ms: &Vec<&PodInfo>) -> (r: usize)
    ensures
        r == enabled_among(state_views(states@), ref_views(ms@), ms@.len() as int),
        r <= ms@.len(),
{
    let mut r: usize = 0;
    let mut i: usize = 0;
    while i < ms.len()
        invariant
            i <= ms@.len(),
            r <= i,
            r == enabled_among(state_views(states@), ref_views(ms@), i as int),
        decreases ms.len() - i,
    {
        if state_enabled(states, &ms[i].key) {
            r = r + 1;
        }
        i = i + 1;
    }
    r
}

/// The style of a group.
fn style_of_group(enabled: usize, total: usize, own: Color, bold: bool) -> (r: Style)
    ensures
        r == group_style(enabled as int, total as int, own, bold),
{
    let color = if total > 0 && enabled == 0 {
        Color::DarkGray
    } else if total > 0 && enabled < total {
        Color::Gray
    } else {
        own
    };
    Style { fg: Some(color), bg: None, bold, reversed: false }
}

/// The mark of a node.
fn icon_of(expanded: bool) -> (r: &'static str)
    ensures
        r@ == icon(expanded),
{
    if expanded {
        "▼"
    } else {
        "▶"
    }
}

/// Which of three names of the containers to take.
#[derive(Clone, Copy)]
enum Level {
    Cluster,
    Namespace,
    Pod,
}

/// The names of the containers at one level, each one once, in the order of
/// strings.
fn names_of(ms: &Vec<&PodInfo>, level: Level) -> (r: Vec<String>)
    ensures
        views(r@) == sorted_set(
            match level {
                Level::Cluster => cluster_of(ref_views(ms@)),
                Level::Namespace => namespace_of(ref_views(ms@)),
                Level::Pod => pod_of(ref_views(ms@)),
            },
        ),
{
    let ghost all = match level {
        Level::Cluster => cluster_of(ref_views(ms@)),
        Level::Namespace => namespace_of(ref_views(ms@)),
        Level::Pod => pod_of(ref_views(ms@)),
    };
    let mut r: Vec<String> = Vec::new();
    let mut i: usize = 0;
    proof {
        assert(all.subrange(0, 0) =~= Seq::empty());
        assert(views(r@) =~= Seq::empty());
    }
    while i < ms.len()
        invariant
            i <= ms@.len(),
            all.len() == ms@.len(),
            all == (match level {
                Level::Cluster => cluster_of(ref_views(ms@)),
                Level::Namespace => namespace_of(ref_views(ms@)),
                Level::Pod => pod_of(ref_views(ms@)),
            }),
            views(r@) == sorted_set(all.subrange(0, i as int)),
        decreases ms.len() - i,
    {
        let name = match level {
            Level::Cluster => ms[i].key.cluster.as_str(),
            Level::Namespace => ms[i].key.namespace.as_str(),
            Level::Pod => ms[i].key.pod_name.as_str(),
        };
        proof {
            let next = all.subrange(0, i + 1);
            assert(next.drop_last() =~= all.subrange(0, i as int));
            assert(next.last() == name@);
        }
        add_name(&mut r, name);
        i = i + 1;
    }
    proof {
        assert(all.subrange(0, i as int) =~= all);
    }
    r
}

/// The rows of one pod.
fn rows_of_pod(
    pods: &Vec<PodInfo>,
    states: &Vec<PodStateEntry>,
    expanded: &Vec<String>,
    cluster: &str,
    namespace: &str,
    pod: &str,
) -> (r: Vec<SidebarRow>)
    ensures
        row_views(r@) == pod_block(
            pod_views(pods@),
            state_views(states@),
            views(expanded@),
            cluster@,
            namespace@,
            pod@,
        ),
{
    let ms = members_of(pods, cluster, Some(namespace), Some(pod));
    let node = TreeNodeType::Pod(
        String::from_str(cluster),
        String::from_str(namespace),
        String::from_str(pod),
    );
    let path = match node.path() {
        Some(p) => p,
        None => String::new(),
    };
    let open = contains_str(expanded, path.as_str());
    let mut text = String::from_str("    ");
    text.append(icon_of(open));
    text.append(" ");
    text.append(pod);
    text.append(" (");
    if ms.len() > 0 {
        text.append(ms[0].phase.as_str());
    }
    text.append(")");
    let ghost phase = if ms@.len() > 0 {
        ref_views(ms@)[0].phase
    } else {
        Seq::empty()
    };
    proof {
        assert(text@ =~= "    "@ + icon(open) + " "@ + pod@ + " ("@ + phase + ")"@);
    }
    let style = style_of_group(count_enabled(states, &ms), ms.len(), Color::Green, false);
    let mut rows: Vec<SidebarRow> = Vec::new();
    rows.push(SidebarRow { text, style, node, key: None });
    let ghost head = row_views(rows@);
    if open {
        let mut i: usize = 0;
        while i < ms.len()
            invariant
                i <= ms@.len(),
                rows@.len() == 1 + i,
                row_views(rows@).subrange(0, 1) == head,
                forall|j: int|
                    0 <= j < i ==> #[trigger] row_views(rows@)[1 + j] == container_row(
                        state_views(states@),
                        ref_views(ms@)[j],
                    ),
            decreases ms.len() - i,
        {
            let m = ms[i];
            let enabled = state_enabled(states, &m.key);
            let mut text = String::from_str("      ");
            text.append(if enabled {
                "[x]"
            } else {
                "[ ]"
            });
            text.append(" ");
            text.append(m.key.container_name.as_str());
            let style = if enabled {
                Style::default()
            } else {
                Style::default().fg(Color::DarkGray)
            };
            let ghost before = row_views(rows@);
            let row = SidebarRow {
                text,
                style,
                node: TreeNodeType::Container,
                key: Some(m.key.clone()),
            };
            proof {
                assert(row@.text =~= container_row(state_views(states@), m@).text);
                assert(row@ == container_row(state_views(states@), m@));
            }
            rows.push(row);
            proof {
                assert(row_views(rows@) =~= before.push(container_row(state_views(states@), m@)));
                assert(row_views(rows@).subrange(0, 1) =~= before.subrange(0, 1));
                assert forall|j: int| 0 <= j < i + 1 implies #[trigger] row_views(rows@)[1 + j]
                    == container_row(state_views(states@), ref_views(ms@)[j]) by {
                    if j < i {
                        assert(row_views(rows@)[1 + j] == before[1 + j]);
                    }
                }
            }
            i = i + 1;
        }
        proof {
            let target = head + container_rows(state_views(states@), ref_views(ms@));
            assert(head.len() == 1);
            assert forall|k: int| 0 <= k < target.len() implies row_views(rows@)[k]
                == target[k] by {
                if k == 0 {
                    assert(row_views(rows@).subrange(0, 1)[0] == row_views(rows@)[0]);
                } else {
                    assert(row_views(rows@)[1 + (k - 1)] == container_row(
                        state_views(states@),
                        ref_views(ms@)[k - 1],
                    ));
                }
            }
            assert(row_views(rows@) =~= target);
        }
    } else {
        proof {
            assert(row_views(rows@) =~= head + Seq::<SidebarRowView>::empty());
        }
    }
    rows
}

/// The rows of one namespace.
fn rows_of_namespace(
    pods: &Vec<PodInfo>,
    states: &Vec<PodStateEntry>,
    expanded: &Vec<String>,
    cluster: &str,
    namespace: &str,
) -> (r: Vec<SidebarRow>)
    ensures
        row_views(r@) == namespace_block(
            pod_views(pods@),
            state_views(states@),
            views(expanded@),
            cluster@,
            namespace@,
        ),
{
    let ms = members_of(pods, cluster, Some(namespace), None);
    let node = TreeNodeType::Namespace(String::from_str(cluster), String::from_str(namespace));
    let path = match node.path() {
        Some(p) => p,
        None => String::new(),
    };
    let open = contains_str(expanded, path.as_str());
    let mut text = String::from_str("  ");
    text.append(icon_of(open));
    text.append(" ");
    text.append(namespace);
    let style = style_of_group(count_enabled(states, &ms), ms.len(), Color::Blue, true);
    let mut rows: Vec<SidebarRow> = Vec::new();
    rows.push(SidebarRow { text, style, node, key: None });
    let ghost head = row_views(rows@);
    if open {
        let names = names_of(&ms, Level::Pod);
        let mut i: usize = 0;
        proof {
            assert(views(names@).subrange(0, 0) =~= Seq::empty());
            assert(head + Seq::<SidebarRowView>::empty() =~= head);
        }
        while i < names.len()
            invariant
                i <= names@.len(),
                row_views(rows@) == head + pod_blocks(
                    pod_views(pods@),
                    state_views(states@),
                    views(expanded@),
                    cluster@,
                    namespace@,
                    views(names@).subrange(0, i as int),
                ),
            decreases names.len() - i,
        {
            let mut block = rows_of_pod(
                pods,
                states,
                expanded,
                cluster,
                namespace,
                names[i].as_str(),
            );
            let ghost before = row_views(rows@);
            let ghost added = row_views(block@);
            proof {
                let next = views(names@).subrange(0, i + 1);
                assert(next.drop_last() =~= views(names@).subrange(0, i as int));
                assert(next.last() == names@[i as int]@);
            }
            rows.append(&mut block);
            proof {
                assert(row_views(rows@) =~= before + added);
            }
            i = i + 1;
        }
        proof {
            assert(views(names@).subrange(0, i as int) =~= views(names@));
        }
    } else {
        proof {
            assert(row_views(rows@) =~= head + Seq::<SidebarRowView>::empty());
        }
    }
    rows
}

/// The rows of one cluster.
fn rows_of_cluster(
    pods: &Vec<PodInfo>,
    states: &Vec<PodStateEntry>,
    expanded: &Vec<String>,
    cluster: &str,
) -> (r: Vec<SidebarRow>)
    ensures
        row_views(r@) == cluster_block(
            pod_views(pods@),
            state_views(states@),
            views(expanded@),
            cluster@,
        ),
{
    let ms = members_of(pods, cluster, None, None);
    let node = TreeNodeType::Cluster(String::from_str(cluster));
    let open = contains_str(expanded, cluster);
    let mut text = String::from_str(icon_of(open));
    text.append(" ");
    text.append(cluster);
    let style = style_of_group(count_enabled(states, &ms), ms.len(), Color::Cyan, true);
    let mut rows: Vec<SidebarRow> = Vec::new();
    rows.push(SidebarRow { text, style, node, key: None });
    let ghost head = row_views(rows@);
    if open {
        let names = names_of(&ms, Level::Namespace);
        let mut i: usize = 0;
        proof {
            assert(views(names@).subrange(0, 0) =~= Seq::empty());
            assert(head + Seq::<SidebarRowView>::empty() =~= head);
        }
        while i < names.len()
            invariant
                i <= names@.len(),
                row_views(rows@) == head + namespace_blocks(
                    pod_views(pods@),
                    state_views(states@),
                    views(expanded@),
                    cluster@,
                    views(names@).subrange(0, i as int),
                ),
            decreases names.len() - i,
        {
            let mut block = rows_of_namespace(pods, states, expanded, cluster, names[i].as_str());
            let ghost before = row_views(rows@);
            let ghost added = row_views(block@);
            proof {
                let next = views(names@).subrange(0, i + 1);
                assert(next.drop_last() =~= views(names@).subrange(0, i as int));
                assert(next.last() == names@[i as int]@);
            }
            rows.append(&mut block);
            proof {
                assert(row_views(rows@) =~= before + added);
            }
            i = i + 1;
        }
        proof {
            assert(views(names@).subrange(0, i as int) =~= views(names@));
        }
    } else {
        proof {
            assert(row_views(rows@) =~= head + Seq::<SidebarRowView>::empty());
        }
    }
    rows
}

/// The rows of the sidebar for these containers, their states and the
/// expanded nodes.
///
/// Clusters, namespaces and pods come in the order of their names, and the
/// containers of a pod in the order of their arrival. What lies below a folded
/// node is left out.
pub fn sidebar_rows(pods: &Vec<PodInfo>, states: &Vec<PodStateEntry>, expanded: &Vec<String>) -> (r:
    Vec<SidebarRow>)
    ensures
        row_views(r@) == rows_of(pod_views(pods@), state_views(states@), views(expanded@)),
{
    let mut all: Vec<&PodInfo> = Vec::new();
    let mut k: usize = 0;
    while k < pods.len()
        invariant
            k <= pods@.len(),
            all@.len() == k,
            forall|j: int| 0 <= j < k ==> (#[trigger] all@[j])@ == pods@[j]@,
        decreases pods.len() - k,
    {
        all.push(&pods[k]);
        k = k + 1;
    }
    proof {
        assert(ref_views(all@) =~= pod_views(pods@));
        assert(cluster_of(ref_views(all@)) =~= cluster_of(pod_views(pods@)));
    }
    let names = names_of(&all, Level::Cluster);
    let mut rows: Vec<SidebarRow> = Vec::new();
    let mut i: usize = 0;
    proof {
        assert(views(names@).subrange(0, 0) =~= Seq::empty());
        assert(row_views(rows@) =~= Seq::empty());
    }
    while i < names.len()
        invariant
            i <= names@.len(),
            row_views(rows@) == cluster_blocks(
                pod_views(pods@),
                state_views(states@),
                views(expanded@),
                views(names@).subrange(0, i as int),
            ),
        decreases names.len() - i,
    {
        let mut block = rows_of_cluster(pods, states, expanded, names[i].as_str());
        let ghost before = row_views(rows@);
        let ghost added = row_views(block@);
        proof {
            let next = views(names@).subrange(0, i + 1);
            assert(next.drop_last() =~= views(names@).subrange(0, i as int));
            assert(next.last() == names@[i as int]@);
        }
        rows.append(&mut block);
        proof {
            assert(row_views(rows@) =~= before + added);
        }
        i = i + 1;
    }
    proof {
        assert(views(names@).subrange(0, i as int) =~= views(names@));
    }
    rows
}

/// The list of the sidebar: the containers, their states and the expanded
/// nodes that its rows are made of.
pub struct PodList<'a> {
    pub pods: &'a Vec<PodInfo>,
    pub states: &'a Vec<PodStateEntry>,
    pub expanded_nodes: &'a Vec<String>,
}

impl<'a> PodList<'a> {
    /// The list for these containers, states and expanded nodes.
    pub fn new(
        pods: &'a Vec<PodInfo>,
        states: &'a Vec<PodStateEntry>,
        expanded_nodes: &'a Vec<String>,
    ) -> (list: Self)
        ensures
            list.pods == pods,
            list.states == states,
            list.expanded_nodes == expanded_nodes,
    {
        PodList { pods, states, expanded_nodes }
    }

    /// The rows of the list.
    pub fn rows(&self) -> (r: Vec<SidebarRow>)
        ensures
            row_views(r@) == rows_of(
                pod_views(self.pods@),
                state_views(self.states@),
                views(self.expanded_nodes@),
            ),
    {
        sidebar_rows(self.pods, self.states, self.expanded_nodes)
    }

    /// The mark before the selected row.
    pub fn highlight_symbol(&self) -> (r: &'static str)
        ensures
            r@ == "→ "@,
    {
        "→ "
    }

    /// The style of the selected row: yellow on dark gray, reversed.
    pub fn highlight_style(&self) -> (s: Style)
        ensures
            s == (Style {
                fg: Some(Color::Yellow),
                bg: Some(Color::DarkGray),
                bold: false,
                reversed: true,
            }),
    {
        Style { fg: Some(Color::Yellow), bg: Some(Color::DarkGray), bold: false, reversed: true }
    }
}

/// What each row stands for.
pub open spec fn row_nodes(rows: Seq<SidebarRowView>) -> Seq<TreeNodeView> {
    Seq::new(rows.len(), |i: int| rows[i].node)
}

/// The container of each row, where the row stands for one.
pub open spec fn row_keys(rows: Seq<SidebarRowView>) -> Seq<Option<PodKeyView>> {
    Seq::new(rows.len(), |i: int| rows[i].key)
}

impl App {
    /// Lists anew what each row of the sidebar stands for, and gives the rows
    /// to draw.
    pub fn rebuild_sidebar(&mut self) -> (rows: Vec<SidebarRow>)
        ensures
            row_views(rows@) == rows_of(
                old(self)@.pods,
                old(self)@.pod_states,
                old(self)@.expanded_nodes,
            ),
            final(self)@ == (AppView {
                sidebar_item_keys: row_keys(row_views(rows@)),
                sidebar_item_types: row_nodes(row_views(rows@)),
                ..old(self)@
            }),
    {
        let rows = sidebar_rows(&self.pods, &self.pod_states, &self.expanded_nodes);
        let mut keys: Vec<Option<PodKey>> = Vec::new();
        let mut types: Vec<TreeNodeType> = Vec::new();
        let mut i: usize = 0;
        while i < rows.len()
            invariant
                i <= rows@.len(),
                keys@.len() == i,
                types@.len() == i,
                forall|j: int|
                    0 <= j < i ==> #[trigger] key_views(keys@)[j] == row_views(rows@)[j].key,
                forall|j: int|
                    0 <= j < i ==> #[trigger] node_views(types@)[j] == row_views(rows@)[j].node,
            decreases rows.len() - i,
        {
            let row = &rows[i];
            let ghost old_keys = key_views(keys@);
            let ghost old_types = node_views(types@);
            let key = match &row.key {
                Some(k) => Some(k.clone()),
                None => None,
            };
            let node = match &row.node {
                TreeNodeType::Cluster(c) => TreeNodeType::Cluster(c.clone()),
                TreeNodeType::Namespace(c, n) => TreeNodeType::Namespace(c.clone(), n.clone()),
                TreeNodeType::Pod(c, n, p) => TreeNodeType::Pod(c.clone(), n.clone(), p.clone()),
                TreeNodeType::Container => TreeNodeType::Container,
            };
            let ghost key_view = row_views(rows@)[i as int].key;
            let ghost node_view = row_views(rows@)[i as int].node;
            keys.push(key);
            types.push(node);
            proof {
                assert(key_views(keys@) =~= old_keys.push(key_view));
                assert(node_views(types@) =~= old_types.push(node_view));
            }
            i = i + 1;
        }
        proof {
            assert(key_views(keys@) =~= row_keys(row_views(rows@)));
            assert(node_views(types@) =~= row_nodes(row_views(rows@)));
        }
        self.sidebar_item_keys = keys;
        self.sidebar_item_types = types;
        rows
    }
}

} // verus!
