//! The state of the terminal UI: the log buffer, the pods of the sidebar, and
//! what scrolling, searching and filtering do to them.

use crate::grep::{pattern_accepts, pattern_compiles, Grep};
use crate::seqs::{dedup, distinct};
use crate::text::{contains_str, views};
use crate::types::{LogMessage, LogMessageView, PodKey, PodKeyView, Timestamp};
use std::collections::VecDeque;
use vstd::prelude::*;
use vstd::string::*;

verus! {

/// One container as the sidebar shows it.
#[derive(Debug)]
pub struct PodInfo {
    pub key: PodKey,
    pub phase: String,
    pub age: String,
    pub restarts: i32,
}

/// What a `PodInfo` is in contracts.
pub struct PodInfoView {
    pub key: PodKeyView,
    pub phase: Seq<char>,
    pub age: Seq<char>,
    pub restarts: i32,
}

impl View for PodInfo {
    type V = PodInfoView;

    open spec fn view(&self) -> PodInfoView {
        PodInfoView { key: self.key@, phase: self.phase@, age: self.age@, restarts: self.restarts }
    }
}

impl Clone for PodInfo {
    fn clone(&self) -> (r: Self)
        ensures
            r@ == self@,
    {
        PodInfo {
            key: self.key.clone(),
            phase: self.phase.clone(),
            age: self.age.clone(),
            restarts: self.restarts,
        }
    }
}

/// Whether the lines of a container are shown, and when the container was
/// last reported.
#[derive(Clone, Copy, Debug, PartialEq, Eq, Structural)]
pub struct PodState {
    pub enabled: bool,
    pub last_seen: Timestamp,
}

/// The state of one container, under its key.
#[derive(Debug)]
pub struct PodStateEntry {
    pub key: PodKey,
    pub state: PodState,
}

/// What a `PodStateEntry` is in contracts.
pub struct PodStateEntryView {
    pub key: PodKeyView,
    pub state: PodState,
}

impl View for PodStateEntry {
    type V = PodStateEntryView;

    open spec fn view(&self) -> PodStateEntryView {
        PodStateEntryView { key: self.key@, state: self.state }
    }
}

/// What the keyboard is used for at the moment.
#[derive(Clone, Copy, Debug, PartialEq, Eq, Structural)]
pub enum AppMode {
    Normal,
    Search,
    Filter,
    Help,
}

/// What a row of the sidebar stands for.
#[derive(Debug)]
pub enum TreeNodeType {
    Cluster(String),
    /// Cluster and namespace.
    Namespace(String, String),
    /// Cluster, namespace and pod.
    Pod(String, String, String),
    /// A container: a leaf.
    Container,
}

/// What a `TreeNodeType` is in contracts.
pub enum TreeNodeView {
    Cluster(Seq<char>),
    Namespace(Seq<char>, Seq<char>),
    Pod(Seq<char>, Seq<char>, Seq<char>),
    Container,
}

impl View for TreeNodeType {
    type V = TreeNodeView;

    open spec fn view(&self) -> TreeNodeView {
        match self {
            TreeNodeType::Cluster(c) => TreeNodeView::Cluster(c@),
            TreeNodeType::Namespace(c, n) => TreeNodeView::Namespace(c@, n@),
            TreeNodeType::Pod(c, n, p) => TreeNodeView::Pod(c@, n@, p@),
            TreeNodeType::Container => TreeNodeView::Container,
        }
    }
}

impl TreeNodeView {
    /// The path under which a node is remembered as expanded: `cluster`,
    /// `cluster/namespace` or `cluster/namespace/pod`. A container has none.
    pub open spec fn path(self) -> Option<Seq<char>> {
        match self {
            TreeNodeView::Cluster(c) => Some(c),
            TreeNodeView::Namespace(c, n) => Some(c + "/"@ + n),
            TreeNodeView::Pod(c, n, p) => Some(c + "/"@ + n + "/"@ + p),
            TreeNodeView::Container => None,
        }
    }
}

impl TreeNodeType {
    /// The path under which the node is remembered as expanded.
    pub fn path(&self) -> (r: Option<String>)
        ensures
            crate::types::opt_view(r) == self@.path(),
    {
        match self {
            TreeNodeType::Cluster(c) => Some(c.clone()),
            TreeNodeType::Namespace(c, n) => {
                let mut p = c.clone();
                p.append("/");
                p.append(n.as_str());
                Some(p)
            },
            TreeNodeType::Pod(c, n, pod) => {
                let mut p = c.clone();
                p.append("/");
                p.append(n.as_str());
                p.append("/");
                p.append(pod.as_str());
                Some(p)
            },
            TreeNodeType::Container => None,
        }
    }
}

/// The views of a sequence of messages.
pub open spec fn message_views(s: Seq<LogMessage>) -> Seq<LogMessageView> {
    Seq::new(s.len(), |i: int| s[i]@)
}

/// The views of a sequence of pods.
pub open spec fn pod_views(s: Seq<PodInfo>) -> Seq<PodInfoView> {
    Seq::new(s.len(), |i: int| s[i]@)
}

/// The views of a sequence of container states.
pub open spec fn state_views(s: Seq<PodStateEntry>) -> Seq<PodStateEntryView> {
    Seq::new(s.len(), |i: int| s[i]@)
}

/// The views of a sequence of optional keys.
pub open spec fn key_views(s: Seq<Option<PodKey>>) -> Seq<Option<PodKeyView>> {
    Seq::new(
        s.len(),
        |i: int|
            match s[i] {
                Some(k) => Some(k@),
                None => None,
            },
    )
}

/// The views of a sequence of nodes.
pub open spec fn node_views(s: Seq<TreeNodeType>) -> Seq<TreeNodeView> {
    Seq::new(s.len(), |i: int| s[i]@)
}

/// The state of the terminal UI.
pub struct App {
    /// The latest lines, oldest first; at most `max_buffer_size`.
    pub log_buffer: VecDeque<LogMessage>,
    pub max_buffer_size: usize,
    /// The containers of the sidebar, in the order of their arrival.
    pub pods: Vec<PodInfo>,
    /// The state of each container, one entry for each key.
    pub pod_states: Vec<PodStateEntry>,
    pub sidebar_visible: bool,
    /// The selected row of the sidebar.
    pub sidebar_selected: Option<usize>,
    /// For each row of the sidebar the container it stands for, if it is one.
    pub sidebar_item_keys: Vec<Option<PodKey>>,
    /// For each row of the sidebar what it stands for.
    pub sidebar_item_types: Vec<TreeNodeType>,
    /// The paths of the expanded nodes, each one once.
    pub expanded_nodes: Vec<String>,
    pub scroll_offset: usize,
    pub auto_scroll: bool,
    pub search_pattern: String,
    /// The positions, among the shown lines, of those that the search matches.
    pub search_matches: Vec<usize>,
    pub current_match_index: usize,
    pub filter_pattern: String,
    pub active_filters: Vec<String>,
    pub running_pods: usize,
    pub total_pods: usize,
    pub memory_usage: usize,
    pub mode: AppMode,
    pub help_visible: bool,
    pub paused: bool,
    pub show_timestamps: bool,
    pub show_prefix: bool,
}

/// What an `App` is in contracts.
pub struct AppView {
    pub log_buffer: Seq<LogMessageView>,
    pub max_buffer_size: usize,
    pub pods: Seq<PodInfoView>,
    pub pod_states: Seq<PodStateEntryView>,
    pub sidebar_visible: bool,
    pub sidebar_selected: Option<usize>,
    pub sidebar_item_keys: Seq<Option<PodKeyView>>,
    pub sidebar_item_types: Seq<TreeNodeView>,
    pub expanded_nodes: Seq<Seq<char>>,
    pub scroll_offset: usize,
    pub auto_scroll: bool,
    pub search_pattern: Seq<char>,
    pub search_matches: Seq<usize>,
    pub current_match_index: usize,
    pub filter_pattern: Seq<char>,
    pub active_filters: Seq<Seq<char>>,
    pub running_pods: usize,
    pub total_pods: usize,
    pub memory_usage: usize,
    pub mode: AppMode,
    pub help_visible: bool,
    pub paused: bool,
    pub show_timestamps: bool,
    pub show_prefix: bool,
}

impl View for App {
    type V = AppView;

    open spec fn view(&self) -> AppView {
        AppView {
            log_buffer: message_views(self.log_buffer@),
            max_buffer_size: self.max_buffer_size,
            pods: pod_views(self.pods@),
            pod_states: state_views(self.pod_states@),
            sidebar_visible: self.sidebar_visible,
            sidebar_selected: self.sidebar_selected,
            sidebar_item_keys: key_views(self.sidebar_item_keys@),
            sidebar_item_types: node_views(self.sidebar_item_types@),
            expanded_nodes: views(self.expanded_nodes@),
            scroll_offset: self.scroll_offset,
            auto_scroll: self.auto_scroll,
            search_pattern: self.search_pattern@,
            search_matches: self.search_matches@,
            current_match_index: self.current_match_index,
            filter_pattern: self.filter_pattern@,
            active_filters: views(self.active_filters@),
            running_pods: self.running_pods,
            total_pods: self.total_pods,
            memory_usage: self.memory_usage,
            mode: self.mode,
            help_visible: self.help_visible,
            paused: self.paused,
            show_timestamps: self.show_timestamps,
            show_prefix: self.show_prefix,
        }
    }
}

/// `a - b`, or zero where `b` is the greater.
pub open spec fn minus(a: int, b: int) -> int {
    if a >= b {
        a - b
    } else {
        0
    }
}

/// The greatest scroll offset of a buffer of `len` lines: its last line.
pub open spec fn last_line(len: int) -> int {
    minus(len, 1)
}

impl AppView {
    /// The state of a new UI that keeps `max_buffer_size` lines.
    pub open spec fn initial(max_buffer_size: usize) -> AppView {
        AppView {
            log_buffer: Seq::empty(),
            max_buffer_size,
            pods: Seq::empty(),
            pod_states: Seq::empty(),
            sidebar_visible: false,
            sidebar_selected: None,
            sidebar_item_keys: Seq::empty(),
            sidebar_item_types: Seq::empty(),
            expanded_nodes: Seq::empty(),
            scroll_offset: 0,
            auto_scroll: true,
            search_pattern: Seq::empty(),
            search_matches: Seq::empty(),
            current_match_index: 0,
            filter_pattern: Seq::empty(),
            active_filters: Seq::empty(),
            running_pods: 0,
            total_pods: 0,
            memory_usage: 0,
            mode: AppMode::Normal,
            help_visible: false,
            paused: false,
            show_timestamps: false,
            show_prefix: true,
        }
    }

    /// How many of the oldest lines leave the buffer when one more arrives.
    pub open spec fn overflow(self) -> int {
        minus(self.log_buffer.len() as int + 1, self.max_buffer_size as int)
    }

    /// The state after a line arrived. While paused nothing changes. Else the
    /// line joins the buffer, the oldest lines leave it so that at most
    /// `max_buffer_size` stay, and the view follows: to the newest line when it
    /// scrolls by itself, and otherwise back by as many lines as left.
    pub open spec fn with_log(self, msg: LogMessageView) -> AppView {
        if self.paused {
            self
        } else {
            let buffer = self.log_buffer.push(msg).skip(self.overflow());
            AppView {
                log_buffer: buffer,
                scroll_offset: if self.auto_scroll {
                    last_line(buffer.len() as int) as usize
                } else {
                    minus(self.scroll_offset as int, self.overflow()) as usize
                },
                ..self
            }
        }
    }

    /// One line up; the view no longer scrolls by itself.
    pub open spec fn scrolled_up(self) -> AppView {
        AppView {
            scroll_offset: minus(self.scroll_offset as int, 1) as usize,
            auto_scroll: false,
            ..self
        }
    }

    /// One line down; at the last line the view scrolls by itself again.
    pub open spec fn scrolled_down(self) -> AppView {
        if self.scroll_offset < last_line(self.log_buffer.len() as int) {
            AppView { scroll_offset: (self.scroll_offset + 1) as usize, ..self }
        } else {
            AppView { auto_scroll: true, ..self }
        }
    }

    /// A page up; the view no longer scrolls by itself.
    pub open spec fn paged_up(self, page_size: usize) -> AppView {
        AppView {
            scroll_offset: minus(self.scroll_offset as int, page_size as int) as usize,
            auto_scroll: false,
            ..self
        }
    }

    /// A page down, but not past the last line; at the last line the view
    /// scrolls by itself again.
    pub open spec fn paged_down(self, page_size: usize) -> AppView {
        let last = last_line(self.log_buffer.len() as int);
        let target = if self.scroll_offset + page_size < last {
            self.scroll_offset + page_size
        } else {
            last
        };
        AppView {
            scroll_offset: target as usize,
            auto_scroll: self.auto_scroll || target >= last,
            ..self
        }
    }

    /// At the first line; the view no longer scrolls by itself.
    pub open spec fn at_top(self) -> AppView {
        AppView { scroll_offset: 0, auto_scroll: false, ..self }
    }

    /// At the last line; the view scrolls by itself.
    pub open spec fn at_bottom(self) -> AppView {
        AppView {
            scroll_offset: last_line(self.log_buffer.len() as int) as usize,
            auto_scroll: true,
            ..self
        }
    }

    /// Without any line, at the top, with no search match.
    pub open spec fn cleared(self) -> AppView {
        AppView {
            log_buffer: Seq::empty(),
            scroll_offset: 0,
            search_matches: Seq::empty(),
            ..self
        }
    }

    /// At the next search match, going round from the last to the first. Without
    /// matches nothing changes.
    pub open spec fn at_next_match(self) -> AppView {
        if self.search_matches.len() == 0 {
            self
        } else {
            let index = (self.current_match_index + 1) % (self.search_matches.len() as int);
            AppView {
                current_match_index: index as usize,
                scroll_offset: self.search_matches[index],
                auto_scroll: false,
                ..self
            }
        }
    }

    /// At the search match before, going round from the first to the last; from
    /// a place past the matches, at the last one. Without matches nothing
    /// changes.
    pub open spec fn at_prev_match(self) -> AppView {
        if self.search_matches.len() == 0 {
            self
        } else {
            let index = if self.current_match_index == 0 || self.current_match_index
                > self.search_matches.len() {
                self.search_matches.len() - 1
            } else {
                self.current_match_index - 1
            };
            AppView {
                current_match_index: index as usize,
                scroll_offset: self.search_matches[index],
                auto_scroll: false,
                ..self
            }
        }
    }

    /// With the row after the selected one selected, going round from the last
    /// to the first; with nothing selected, the first row. An empty sidebar
    /// stays as it is.
    pub open spec fn with_next_selected(self) -> AppView {
        if self.sidebar_item_keys.len() == 0 {
            self
        } else {
            AppView {
                sidebar_selected: Some(
                    match self.sidebar_selected {
                        Some(i) => if i >= self.sidebar_item_keys.len() - 1 {
                            0usize
                        } else {
                            (i + 1) as usize
                        },
                        None => 0usize,
                    },
                ),
                ..self
            }
        }
    }

    /// With the row before the selected one selected, going round from the
    /// first to the last; with nothing selected, the first row. An empty
    /// sidebar stays as it is.
    pub open spec fn with_previous_selected(self) -> AppView {
        if self.sidebar_item_keys.len() == 0 {
            self
        } else {
            AppView {
                sidebar_selected: Some(
                    match self.sidebar_selected {
                        Some(i) => if i == 0 {
                            (self.sidebar_item_keys.len() - 1) as usize
                        } else {
                            (i - 1) as usize
                        },
                        None => 0usize,
                    },
                ),
                ..self
            }
        }
    }

}

impl App {
    /// A new UI that keeps the latest `max_buffer_size` lines.
    pub fn new(max_buffer_size: usize) -> (app: App)
        ensures
            app@ == AppView::initial(max_buffer_size),
    {
        let app = App {
            log_buffer: VecDeque::new(),
            max_buffer_size,
            pods: Vec::new(),
            pod_states: Vec::new(),
            sidebar_visible: false,
            sidebar_selected: None,
            sidebar_item_keys: Vec::new(),
            sidebar_item_types: Vec::new(),
            expanded_nodes: Vec::new(),
            scroll_offset: 0,
            auto_scroll: true,
            search_pattern: String::new(),
            search_matches: Vec::new(),
            current_match_index: 0,
            filter_pattern: String::new(),
            active_filters: Vec::new(),
            running_pods: 0,
            total_pods: 0,
            memory_usage: 0,
            mode: AppMode::Normal,
            help_visible: false,
            paused: false,
            show_timestamps: false,
            show_prefix: true,
        };
        proof {
            assert(app@.log_buffer =~= Seq::empty());
            assert(app@.pods =~= Seq::empty());
            assert(app@.pod_states =~= Seq::empty());
            assert(app@.sidebar_item_keys =~= Seq::empty());
            assert(app@.sidebar_item_types =~= Seq::empty());
            assert(app@.expanded_nodes =~= Seq::empty());
            assert(app@.active_filters =~= Seq::empty());
        }
        app
    }

    /// Takes a line into the buffer, unless the UI is paused.
    pub fn add_log(&mut self, msg: LogMessage)
        ensures
            final(self)@ == old(self)@.with_log(msg@),
    {
        if self.paused {
            return ;
        }
        let ghost before = self@;
        let ghost all = before.log_buffer.push(msg@);
        let len = self.log_buffer.len();
        let max = self.max_buffer_size;
        let mut dropped: usize = 0;
        while self.log_buffer.len() > 0 && self.log_buffer.len() >= max
            invariant
                len == before.log_buffer.len(),
                max == before.max_buffer_size,
                dropped <= len,
                self.log_buffer@.len() == len - dropped,
                message_views(self.log_buffer@) == before.log_buffer.skip(dropped as int),
                dropped > 0 ==> len - dropped + 1 >= max,
                self@ == (AppView { log_buffer: message_views(self.log_buffer@), ..before }),
            decreases self.log_buffer@.len(),
        {
            let ghost now = message_views(self.log_buffer@);
            let _ = self.log_buffer.pop_front();
            dropped = dropped + 1;
            proof {
                assert(message_views(self.log_buffer@) =~= now.skip(1));
                assert(now.skip(1) =~= before.log_buffer.skip(dropped as int));
            }
        }
        let ghost kept = message_views(self.log_buffer@);
        if max > 0 {
            self.log_buffer.push_back(msg);
            proof {
                assert(before.overflow() == dropped);
                assert(message_views(self.log_buffer@) =~= kept.push(msg@));
                assert(kept.push(msg@) =~= all.skip(dropped as int));
            }
            self.scroll_offset = if self.scroll_offset >= dropped {
                self.scroll_offset - dropped
            } else {
                0
            };
        } else {
            proof {
                assert(before.overflow() == len + 1);
                assert(kept =~= all.skip(len + 1));
            }
            self.scroll_offset = if self.scroll_offset > len {
                self.scroll_offset - len - 1
            } else {
                0
            };
        }
        if self.auto_scroll {
            let n = self.log_buffer.len();
            self.scroll_offset = if n > 0 {
                n - 1
            } else {
                0
            };
        }
    }

    /// Scrolls one line up.
    pub fn scroll_up(&mut self)
        ensures
            final(self)@ == old(self)@.scrolled_up(),
    {
        self.scroll_offset = if self.scroll_offset > 0 {
            self.scroll_offset - 1
        } else {
            0
        };
        self.auto_scroll = false;
    }

    /// Scrolls one line down.
    pub fn scroll_down(&mut self)
        ensures
            final(self)@ == old(self)@.scrolled_down(),
    {
        let n = self.log_buffer.len();
        let last = if n > 0 {
            n - 1
        } else {
            0
        };
        if self.scroll_offset < last {
            self.scroll_offset = self.scroll_offset + 1;
        } else {
            self.auto_scroll = true;
        }
    }

    /// Scrolls a page up.
    pub fn page_up(&mut self, page_size: usize)
        ensures
            final(self)@ == old(self)@.paged_up(page_size),
    {
        self.scroll_offset = if self.scroll_offset >= page_size {
            self.scroll_offset - page_size
        } else {
            0
        };
        self.auto_scroll = false;
    }

    /// Scrolls a page down.
    pub fn page_down(&mut self, page_size: usize)
        ensures
            final(self)@ == old(self)@.paged_down(page_size),
    {
        let n = self.log_buffer.len();
        let last = if n > 0 {
            n - 1
        } else {
            0
        };
        if self.scroll_offset < last && page_size < last - self.scroll_offset {
            self.scroll_offset = self.scroll_offset + page_size;
        } else {
            self.scroll_offset = last;
            self.auto_scroll = true;
        }
    }

    /// Jumps to the first line.
    pub fn scroll_to_top(&mut self)
        ensures
            final(self)@ == old(self)@.at_top(),
    {
        self.scroll_offset = 0;
        self.auto_scroll = false;
    }

    /// Jumps to the last line.
    pub fn scroll_to_bottom(&mut self)
        ensures
            final(self)@ == old(self)@.at_bottom(),
    {
        let n = self.log_buffer.len();
        self.scroll_offset = if n > 0 {
            n - 1
        } else {
            0
        };
        self.auto_scroll = true;
    }

    /// Empties the buffer.
    pub fn clear_logs(&mut self)
        ensures
            final(self)@ == old(self)@.cleared(),
    {
        self.log_buffer.clear();
        self.scroll_offset = 0;
        self.search_matches.clear();
        proof {
            assert(self@.log_buffer =~= Seq::empty());
        }
    }

    /// Jumps to the next search match.
    pub fn jump_to_next_match(&mut self)
        ensures
            final(self)@ == old(self)@.at_next_match(),
    {
        let n = self.search_matches.len();
        if n == 0 {
            return ;
        }
        let wrapped = self.current_match_index % n;
        let index = if wrapped + 1 < n {
            wrapped + 1
        } else {
            0
        };
        proof {
            lemma_next_index(self.current_match_index as int, n as int);
        }
        self.current_match_index = index;
        self.scroll_offset = self.search_matches[index];
        self.auto_scroll = false;
    }

    /// Jumps to the search match before.
    pub fn jump_to_prev_match(&mut self)
        ensures
            final(self)@ == old(self)@.at_prev_match(),
    {
        let n = self.search_matches.len();
        if n == 0 {
            return ;
        }
        if self.current_match_index == 0 || self.current_match_index > n {
            self.current_match_index = n - 1;
        } else {
            self.current_match_index = self.current_match_index - 1;
        }
        self.scroll_offset = self.search_matches[self.current_match_index];
        self.auto_scroll = false;
    }

    /// Selects the next row of the sidebar.
    pub fn sidebar_select_next(&mut self)
        ensures
            final(self)@ == old(self)@.with_next_selected(),
    {
        let n = self.sidebar_item_keys.len();
        if n == 0 {
            return ;
        }
        let i = match self.sidebar_selected {
            Some(i) => if i >= n - 1 {
                0
            } else {
                i + 1
            },
            None => 0,
        };
        self.sidebar_selected = Some(i);
    }

    /// Selects the row of the sidebar before.
    pub fn sidebar_select_previous(&mut self)
        ensures
            final(self)@ == old(self)@.with_previous_selected(),
    {
        let n = self.sidebar_item_keys.len();
        if n == 0 {
            return ;
        }
        let i = match self.sidebar_selected {
            Some(i) => if i == 0 {
                n - 1
            } else {
                i - 1
            },
            None => 0,
        };
        self.sidebar_selected = Some(i);
    }
}

/// Going to the next of `n` places from any place, round the end.
proof fn lemma_next_index(i: int, n: int)
    requires
        0 <= i,
        0 < n,
    ensures
        (i + 1) % n == if i % n + 1 < n {
            i % n + 1
        } else {
            0
        },
{
    assert((i + 1) % n == if i % n + 1 < n {
        i % n + 1
    } else {
        0
    }) by (nonlinear_arith)
        requires
            0 <= i,
            0 < n,
    ;
}

/// The position of the first state under `key`; the number of states where
/// there is none.
pub open spec fn state_position(states: Seq<PodStateEntryView>, key: PodKeyView, from: int) -> int
    decreases states.len() - from,
{
    if from >= states.len() {
        states.len() as int
    } else if from >= 0 && states[from].key == key {
        from
    } else {
        state_position(states, key, from + 1)
    }
}

/// The position of the first pod under `key`; the number of pods where there
/// is none.
pub open spec fn pod_position(pods: Seq<PodInfoView>, key: PodKeyView, from: int) -> int
    decreases pods.len() - from,
{
    if from >= pods.len() {
        pods.len() as int
    } else if from >= 0 && pods[from].key == key {
        from
    } else {
        pod_position(pods, key, from + 1)
    }
}

/// Whether the lines of the container `key` are shown: they are, unless its
/// state says otherwise.
pub open spec fn enabled_of(states: Seq<PodStateEntryView>, key: PodKeyView) -> bool {
    let i = state_position(states, key, 0);
    i < states.len() ==> states[i].state.enabled
}

/// `paths` with `path` among them: added at the end unless it is there.
pub open spec fn with_path(paths: Seq<Seq<char>>, path: Seq<char>) -> Seq<Seq<char>> {
    if paths.contains(path) {
        paths
    } else {
        paths.push(path)
    }
}

/// `paths` without `path`.
pub open spec fn without_path(paths: Seq<Seq<char>>, path: Seq<char>) -> Seq<Seq<char>>
    decreases paths.len(),
{
    if paths.len() == 0 {
        paths
    } else if paths.last() == path {
        without_path(paths.drop_last(), path)
    } else {
        without_path(paths.drop_last(), path).push(paths.last())
    }
}

/// `paths` with `path` taken out if it is there, and put in if it is not.
pub open spec fn toggled_path(paths: Seq<Seq<char>>, path: Seq<char>) -> Seq<Seq<char>> {
    if paths.contains(path) {
        without_path(paths, path)
    } else {
        paths.push(path)
    }
}

/// The pods without those under `key`.
pub open spec fn pods_without(pods: Seq<PodInfoView>, key: PodKeyView) -> Seq<PodInfoView>
    decreases pods.len(),
{
    if pods.len() == 0 {
        pods
    } else if pods.last().key == key {
        pods_without(pods.drop_last(), key)
    } else {
        pods_without(pods.drop_last(), key).push(pods.last())
    }
}

/// The states without those under `key`.
pub open spec fn states_without(states: Seq<PodStateEntryView>, key: PodKeyView) -> Seq<
    PodStateEntryView,
>
    decreases states.len(),
{
    if states.len() == 0 {
        states
    } else if states.last().key == key {
        states_without(states.drop_last(), key)
    } else {
        states_without(states.drop_last(), key).push(states.last())
    }
}

/// The pattern that lines are filtered or searched by: the given one, matched
/// without regard to case; none where the given one is empty or does not
/// compile.
pub open spec fn line_pattern(pattern: Seq<char>) -> Option<Seq<char>> {
    if pattern.len() > 0 && pattern_compiles("(?i)"@ + pattern) {
        Some("(?i)"@ + pattern)
    } else {
        None
    }
}

/// Whether a line is shown: its container is enabled, and the filter, if there
/// is one, matches it.
pub open spec fn shows(states: Seq<PodStateEntryView>, filter: Option<Seq<char>>, msg: LogMessageView) -> bool {
    &&& enabled_of(states, msg.key)
    &&& filter matches Some(p) ==> pattern_accepts(p, msg.line)
}

/// The positions in the buffer of the lines that are shown, in order.
pub open spec fn shown_lines(
    states: Seq<PodStateEntryView>,
    filter: Option<Seq<char>>,
    buffer: Seq<LogMessageView>,
) -> Seq<int>
    decreases buffer.len(),
{
    if buffer.len() == 0 {
        Seq::empty()
    } else if shows(states, filter, buffer.last()) {
        shown_lines(states, filter, buffer.drop_last()).push(buffer.len() - 1)
    } else {
        shown_lines(states, filter, buffer.drop_last())
    }
}

/// The positions, among the first `n` shown lines, of those that `pattern`
/// matches.
pub open spec fn matching_lines(
    pattern: Seq<char>,
    buffer: Seq<LogMessageView>,
    shown: Seq<int>,
    n: int,
) -> Seq<usize>
    decreases n,
{
    if n <= 0 {
        Seq::empty()
    } else if pattern_accepts(pattern, buffer[shown[n - 1]].line) {
        matching_lines(pattern, buffer, shown, n - 1).push((n - 1) as usize)
    } else {
        matching_lines(pattern, buffer, shown, n - 1)
    }
}

/// How many of the first `n` states are enabled.
pub open spec fn enabled_count(states: Seq<PodStateEntryView>, n: int) -> int
    decreases n,
{
    if n <= 0 {
        0
    } else if states[n - 1].state.enabled {
        enabled_count(states, n - 1) + 1
    } else {
        enabled_count(states, n - 1)
    }
}

/// The clusters of the first `n` states, in order.
pub open spec fn state_clusters(states: Seq<PodStateEntryView>) -> Seq<Seq<char>> {
    Seq::new(states.len(), |i: int| states[i].key.cluster)
}

/// What the status bar lists as active: the filter, the search, and the pause.
pub open spec fn filters_of(filter: Seq<char>, search: Seq<char>, paused: bool) -> Seq<Seq<char>> {
    (if filter.len() > 0 {
        seq!["filter: "@ + filter]
    } else {
        Seq::empty()
    }) + (if search.len() > 0 {
        seq!["search: "@ + search]
    } else {
        Seq::empty()
    }) + (if paused {
        seq!["PAUSED"@]
    } else {
        Seq::empty()
    })
}

impl AppView {
    /// The filter that is in force.
    pub open spec fn filter(self) -> Option<Seq<char>> {
        line_pattern(self.filter_pattern)
    }

    /// The positions in the buffer of the lines that are shown.
    pub open spec fn shown(self) -> Seq<int> {
        shown_lines(self.pod_states, self.filter(), self.log_buffer)
    }

    /// The state after the container `info` was reported at the time `now`. A
    /// container that is new to the UI is enabled. One that is in the sidebar
    /// already has its row replaced; a new one gets a row at the end, its
    /// cluster, namespace and pod are expanded, and if the sidebar is visible
    /// and this is its first row, the row is selected.
    pub open spec fn with_pod(self, info: PodInfoView, now: Timestamp) -> AppView {
        let states = if state_position(self.pod_states, info.key, 0) < self.pod_states.len() {
            self.pod_states
        } else {
            self.pod_states.push(
                PodStateEntryView { key: info.key, state: PodState { enabled: true, last_seen: now } },
            )
        };
        let at = pod_position(self.pods, info.key, 0);
        if at < self.pods.len() {
            AppView { pod_states: states, pods: self.pods.update(at, info), ..self }
        } else {
            let cluster = info.key.cluster;
            let namespace = cluster + "/"@ + info.key.namespace;
            let pod = namespace + "/"@ + info.key.pod_name;
            AppView {
                pod_states: states,
                pods: self.pods.push(info),
                expanded_nodes: with_path(
                    with_path(with_path(self.expanded_nodes, cluster), namespace),
                    pod,
                ),
                sidebar_selected: if self.sidebar_visible && self.sidebar_selected is None
                    && self.pods.len() == 0 {
                    Some(0usize)
                } else {
                    self.sidebar_selected
                },
                ..self
            }
        }
    }

    /// The state without the container `key`.
    pub open spec fn without_pod(self, key: PodKeyView) -> AppView {
        AppView {
            pods: pods_without(self.pods, key),
            pod_states: states_without(self.pod_states, key),
            ..self
        }
    }

    /// The state after the selected row of the sidebar was toggled. A cluster,
    /// a namespace or a pod is folded if it was expanded and expanded if it was
    /// folded. A container is disabled if it was enabled and enabled if it was
    /// disabled. Without a selected row nothing changes.
    pub open spec fn with_selected_toggled(self) -> AppView {
        match self.sidebar_selected {
            Some(i) => if i < self.sidebar_item_types.len() {
                match self.sidebar_item_types[i as int].path() {
                    Some(path) => AppView {
                        expanded_nodes: toggled_path(self.expanded_nodes, path),
                        ..self
                    },
                    None => if i < self.sidebar_item_keys.len() {
                        match self.sidebar_item_keys[i as int] {
                            Some(key) => {
                                let at = state_position(self.pod_states, key, 0);
                                if at < self.pod_states.len() {
                                    AppView {
                                        pod_states: self.pod_states.update(
                                            at,
                                            PodStateEntryView {
                                                key: self.pod_states[at].key,
                                                state: PodState {
                                                    enabled: !self.pod_states[at].state.enabled,
                                                    last_seen: self.pod_states[at].state.last_seen,
                                                },
                                            },
                                        ),
                                        ..self
                                    }
                                } else {
                                    self
                                }
                            },
                            None => self,
                        }
                    } else {
                        self
                    },
                }
            } else {
                self
            },
            None => self,
        }
    }

    /// The state after the search was run over the shown lines. An empty search
    /// pattern, and one that does not compile, leave no match. Else the matches
    /// are the shown lines that the pattern matches without regard to case, and
    /// the first one is the current one.
    pub open spec fn with_search_run(self) -> AppView {
        match line_pattern(self.search_pattern) {
            None => AppView { search_matches: Seq::empty(), ..self },
            Some(p) => AppView {
                search_matches: matching_lines(
                    p,
                    self.log_buffer,
                    self.shown(),
                    self.shown().len() as int,
                ),
                current_match_index: 0,
                ..self
            },
        }
    }

    /// The state with its figures brought up to date: how many containers are
    /// enabled and how many there are, the estimated size of the buffer in
    /// megabytes at 200 bytes a line, and what is in force.
    pub open spec fn with_stats(self) -> AppView {
        AppView {
            running_pods: enabled_count(self.pod_states, self.pod_states.len() as int) as usize,
            total_pods: self.pod_states.len() as usize,
            memory_usage: ((self.log_buffer.len() * 200) / (1024 * 1024)) as usize,
            active_filters: filters_of(self.filter_pattern, self.search_pattern, self.paused),
            ..self
        }
    }
}

/// Whether the lines of the container `key` are shown.
pub fn state_enabled(states: &Vec<PodStateEntry>, key: &PodKey) -> (r: bool)
    ensures
        r == enabled_of(state_views(states@), key@),
{
    let at = find_state(states, key);
    if at < states.len() {
        states[at].state.enabled
    } else {
        true
    }
}

/// The position of the first state under `key`.
fn find_state(states: &Vec<PodStateEntry>, key: &PodKey) -> (r: usize)
    ensures
        r == state_position(state_views(states@), key@, 0),
        r <= states@.len(),
{
    let mut i: usize = 0;
    while i < states.len()
        invariant
            i <= states@.len(),
            state_position(state_views(states@), key@, 0) == state_position(
                state_views(states@),
                key@,
                i as int,
            ),
        decreases states.len() - i,
    {
        if states[i].key == *key {
            return i;
        }
        i = i + 1;
    }
    i
}

/// The position of the first pod under `key`.
fn find_pod(pods: &Vec<PodInfo>, key: &PodKey) -> (r: usize)
    ensures
        r == pod_position(pod_views(pods@), key@, 0),
        r <= pods@.len(),
{
    let mut i: usize = 0;
    while i < pods.len()
        invariant
            i <= pods@.len(),
            pod_position(pod_views(pods@), key@, 0) == pod_position(pod_views(pods@), key@, i as int),
        decreases pods.len() - i,
    {
        if pods[i].key == *key {
            return i;
        }
        i = i + 1;
    }
    i
}

/// Adds `path` unless it is there.
fn add_path(paths: &mut Vec<String>, path: String)
    ensures
        views(final(paths)@) == with_path(views(old(paths)@), path@),
{
    if !contains_str(paths, path.as_str()) {
        let ghost before = views(paths@);
        paths.push(path);
        proof {
            assert(views(paths@) =~= before.push(path@));
        }
    }
}

/// Takes `path` out.
fn remove_path(paths: &Vec<String>, path: &str) -> (r: Vec<String>)
    ensures
        views(r@) == without_path(views(paths@), path@),
{
    let mut r: Vec<String> = Vec::new();
    let mut i: usize = 0;
    proof {
        assert(views(paths@).subrange(0, 0) =~= Seq::empty());
        assert(views(r@) =~= Seq::empty());
    }
    while i < paths.len()
        invariant
            i <= paths@.len(),
            views(r@) == without_path(views(paths@).subrange(0, i as int), path@),
        decreases paths.len() - i,
    {
        let ghost before = views(r@);
        proof {
            let next = views(paths@).subrange(0, i + 1);
            assert(next.drop_last() =~= views(paths@).subrange(0, i as int));
            assert(next.last() == paths@[i as int]@);
        }
        if !crate::text::same(paths[i].as_str(), path) {
            r.push(paths[i].clone());
            proof {
                assert(views(r@) =~= before.push(paths@[i as int]@));
            }
        }
        i = i + 1;
    }
    proof {
        assert(views(paths@).subrange(0, i as int) =~= views(paths@));
    }
    r
}

impl App {
    /// Takes a report of a container into the sidebar; `now` is the time of
    /// the report.
    pub fn add_pod(&mut self, info: PodInfo, now: Timestamp)
        ensures
            final(self)@ == old(self)@.with_pod(info@, now),
    {
        let ghost before = self@;
        if find_state(&self.pod_states, &info.key) >= self.pod_states.len() {
            self.pod_states.push(
                PodStateEntry {
                    key: info.key.clone(),
                    state: PodState { enabled: true, last_seen: now },
                },
            );
            proof {
                assert(self@.pod_states =~= before.pod_states.push(
                    PodStateEntryView {
                        key: info@.key,
                        state: PodState { enabled: true, last_seen: now },
                    },
                ));
            }
        }
        let at = find_pod(&self.pods, &info.key);
        if at < self.pods.len() {
            self.pods.set(at, info);
            proof {
                assert(self@.pods =~= before.pods.update(at as int, info@));
            }
        } else {
            let cluster = info.key.cluster.clone();
            let mut namespace = cluster.clone();
            namespace.append("/");
            namespace.append(info.key.namespace.as_str());
            let mut pod = namespace.clone();
            pod.append("/");
            pod.append(info.key.pod_name.as_str());
            add_path(&mut self.expanded_nodes, cluster);
            add_path(&mut self.expanded_nodes, namespace);
            add_path(&mut self.expanded_nodes, pod);
            if self.sidebar_visible && self.sidebar_selected.is_none() && self.pods.len() == 0 {
                self.sidebar_selected = Some(0);
            }
            self.pods.push(info);
            proof {
                assert(self@.pods =~= before.pods.push(info@));
            }
        }
    }

    /// Takes a container out of the sidebar.
    pub fn remove_pod(&mut self, key: &PodKey)
        ensures
            final(self)@ == old(self)@.without_pod(key@),
    {
        let ghost before = self@;
        let mut pods: Vec<PodInfo> = Vec::new();
        let mut i: usize = 0;
        proof {
            assert(before.pods.subrange(0, 0) =~= Seq::empty());
            assert(pod_views(pods@) =~= Seq::empty());
        }
        while i < self.pods.len()
            invariant
                i <= self.pods@.len(),
                self@ == before,
                pod_views(pods@) == pods_without(before.pods.subrange(0, i as int), key@),
            decreases self.pods.len() - i,
        {
            let ghost kept = pod_views(pods@);
            proof {
                let next = before.pods.subrange(0, i + 1);
                assert(next.drop_last() =~= before.pods.subrange(0, i as int));
                assert(next.last() == self.pods@[i as int]@);
            }
            if !(self.pods[i].key == *key) {
                pods.push(self.pods[i].clone());
                proof {
                    assert(pod_views(pods@) =~= kept.push(self.pods@[i as int]@));
                }
            }
            i = i + 1;
        }
        proof {
            assert(before.pods.subrange(0, i as int) =~= before.pods);
        }
        let mut states: Vec<PodStateEntry> = Vec::new();
        let mut j: usize = 0;
        proof {
            assert(before.pod_states.subrange(0, 0) =~= Seq::empty());
            assert(state_views(states@) =~= Seq::empty());
        }
        while j < self.pod_states.len()
            invariant
                j <= self.pod_states@.len(),
                self@ == before,
                state_views(states@) == states_without(
                    before.pod_states.subrange(0, j as int),
                    key@,
                ),
            decreases self.pod_states.len() - j,
        {
            let ghost kept = state_views(states@);
            proof {
                let next = before.pod_states.subrange(0, j + 1);
                assert(next.drop_last() =~= before.pod_states.subrange(0, j as int));
                assert(next.last() == self.pod_states@[j as int]@);
            }
            if !(self.pod_states[j].key == *key) {
                states.push(
                    PodStateEntry {
                        key: self.pod_states[j].key.clone(),
                        state: self.pod_states[j].state,
                    },
                );
                proof {
                    assert(state_views(states@) =~= kept.push(self.pod_states@[j as int]@));
                }
            }
            j = j + 1;
        }
        proof {
            assert(before.pod_states.subrange(0, j as int) =~= before.pod_states);
        }
        self.pods = pods;
        self.pod_states = states;
    }

    /// Folds or expands the selected row of the sidebar, or, for a container,
    /// shows or hides its lines.
    pub fn toggle_sidebar_item(&mut self)
        ensures
            final(self)@ == old(self)@.with_selected_toggled(),
    {
        let ghost before = self@;
        let i = match self.sidebar_selected {
            Some(i) => i,
            None => {
                return ;
            },
        };
        if i >= self.sidebar_item_types.len() {
            return ;
        }
        match self.sidebar_item_types[i].path() {
            Some(path) => {
                if contains_str(&self.expanded_nodes, path.as_str()) {
                    self.expanded_nodes = remove_path(&self.expanded_nodes, path.as_str());
                } else {
                    let ghost paths = views(self.expanded_nodes@);
                    self.expanded_nodes.push(path);
                    proof {
                        assert(views(self.expanded_nodes@) =~= paths.push(path@));
                    }
                }
            },
            None => {
                if i >= self.sidebar_item_keys.len() {
                    return ;
                }
                let at = match &self.sidebar_item_keys[i] {
                    Some(key) => find_state(&self.pod_states, key),
                    None => {
                        return ;
                    },
                };
                if at < self.pod_states.len() {
                    let entry = PodStateEntry {
                        key: self.pod_states[at].key.clone(),
                        state: PodState {
                            enabled: !self.pod_states[at].state.enabled,
                            last_seen: self.pod_states[at].state.last_seen,
                        },
                    };
                    let ghost entry_view = entry@;
                    self.pod_states.set(at, entry);
                    proof {
                        assert(self@.pod_states =~= before.pod_states.update(at as int, entry_view));
                    }
                }
            },
        }
    }

    /// Whether the lines of the container `key` are shown.
    pub fn is_enabled(&self, key: &PodKey) -> (r: bool)
        ensures
            r == enabled_of(self@.pod_states, key@),
    {
        state_enabled(&self.pod_states, key)
    }

    /// The positions in the buffer of the lines that are shown: those of the
    /// enabled containers that the filter, if there is one, matches.
    pub fn filtered_positions(&self) -> (r: Vec<usize>)
        ensures
            r@.len() == self@.shown().len(),
            forall|j: int| 0 <= j < r@.len() ==> #[trigger] r@[j] == self@.shown()[j],
            forall|j: int| 0 <= j < r@.len() ==> (#[trigger] r@[j]) < self@.log_buffer.len(),
    {
        let filter = if self.filter_pattern.as_str().unicode_len() > 0 {
            Grep::compile_ignoring_case(self.filter_pattern.as_str())
        } else {
            None
        };
        let ghost pattern = self@.filter();
        proof {
            assert(pattern == match filter {
                Some(g) => Some(g.source()),
                None => None,
            });
        }
        let mut r: Vec<usize> = Vec::new();
        let mut i: usize = 0;
        proof {
            assert(self@.log_buffer.subrange(0, 0) =~= Seq::empty());
        }
        while i < self.log_buffer.len()
            invariant
                i <= self.log_buffer@.len(),
                pattern == self@.filter(),
                pattern == (match filter {
                    Some(g) => Some(g.source()),
                    None => None,
                }),
                r@.len() == shown_lines(
                    self@.pod_states,
                    pattern,
                    self@.log_buffer.subrange(0, i as int),
                ).len(),
                forall|j: int|
                    0 <= j < r@.len() ==> #[trigger] r@[j] == shown_lines(
                        self@.pod_states,
                        pattern,
                        self@.log_buffer.subrange(0, i as int),
                    )[j] && r@[j] < i,
            decreases self.log_buffer.len() - i,
        {
            let msg = &self.log_buffer[i];
            proof {
                let next = self@.log_buffer.subrange(0, i + 1);
                assert(next.drop_last() =~= self@.log_buffer.subrange(0, i as int));
                assert(next.last() == msg@);
            }
            let key = msg.key();
            let shown = self.is_enabled(&key) && match &filter {
                Some(g) => g.matches(msg.line.as_str()),
                None => true,
            };
            if shown {
                r.push(i);
            }
            i = i + 1;
        }
        proof {
            assert(self@.log_buffer.subrange(0, i as int) =~= self@.log_buffer);
        }
        r
    }

    /// The lines that are shown, in order.
    pub fn filtered_logs(&self) -> (r: Vec<&LogMessage>)
        ensures
            r@.len() == self@.shown().len(),
            forall|j: int|
                0 <= j < r@.len() ==> (#[trigger] r@[j])@ == self@.log_buffer[self@.shown()[j]],
    {
        let positions = self.filtered_positions();
        let mut r: Vec<&LogMessage> = Vec::new();
        let mut j: usize = 0;
        while j < positions.len()
            invariant
                j <= positions@.len(),
                positions@.len() == self@.shown().len(),
                forall|k: int|
                    0 <= k < positions@.len() ==> #[trigger] positions@[k] == self@.shown()[k],
                forall|k: int|
                    0 <= k < positions@.len() ==> (#[trigger] positions@[k])
                        < self@.log_buffer.len(),
                r@.len() == j,
                forall|k: int|
                    0 <= k < j ==> (#[trigger] r@[k])@ == self@.log_buffer[self@.shown()[k]],
            decreases positions.len() - j,
        {
            let at = positions[j];
            assert(at < self@.log_buffer.len());
            let msg = &self.log_buffer[at];
            r.push(msg);
            j = j + 1;
        }
        r
    }

    /// Runs the search over the shown lines.
    pub fn update_search_matches(&mut self)
        ensures
            final(self)@ == old(self)@.with_search_run(),
    {
        let ghost before = self@;
        self.search_matches.clear();
        if self.search_pattern.as_str().unicode_len() == 0 {
            return ;
        }
        let search = match Grep::compile_ignoring_case(self.search_pattern.as_str()) {
            Some(g) => g,
            None => {
                return ;
            },
        };
        let positions = self.filtered_positions();
        let ghost shown = before.shown();
        let mut matches: Vec<usize> = Vec::new();
        let mut j: usize = 0;
        while j < positions.len()
            invariant
                j <= positions@.len(),
                positions@.len() == shown.len(),
                self@.log_buffer == before.log_buffer,
                forall|k: int| 0 <= k < positions@.len() ==> #[trigger] positions@[k] == shown[k],
                forall|k: int|
                    0 <= k < positions@.len() ==> (#[trigger] positions@[k])
                        < self@.log_buffer.len(),
                matches@ == matching_lines(search.source(), before.log_buffer, shown, j as int),
            decreases positions.len() - j,
        {
            let at = positions[j];
            assert(at < self@.log_buffer.len());
            if search.matches(self.log_buffer[at].line.as_str()) {
                matches.push(j);
            }
            j = j + 1;
        }
        self.search_matches = matches;
        self.current_match_index = 0;
    }

    /// Brings the figures of the status bar up to date.
    pub fn update_stats(&mut self)
        ensures
            final(self)@ == old(self)@.with_stats(),
    {
        let ghost before = self@;
        let mut running: usize = 0;
        let mut i: usize = 0;
        while i < self.pod_states.len()
            invariant
                i <= self.pod_states@.len(),
                self@ == before,
                running == enabled_count(before.pod_states, i as int),
                running <= i,
            decreases self.pod_states.len() - i,
        {
            if self.pod_states[i].state.enabled {
                running = running + 1;
            }
            i = i + 1;
        }
        self.running_pods = running;
        self.total_pods = self.pod_states.len();
        let lines = self.log_buffer.len() as u128;
        self.memory_usage = ((lines * 200) / (1024 * 1024)) as usize;
        let mut filters: Vec<String> = Vec::new();
        if self.filter_pattern.as_str().unicode_len() > 0 {
            let mut f = String::from_str("filter: ");
            f.append(self.filter_pattern.as_str());
            filters.push(f);
        }
        if self.search_pattern.as_str().unicode_len() > 0 {
            let mut f = String::from_str("search: ");
            f.append(self.search_pattern.as_str());
            filters.push(f);
        }
        if self.paused {
            filters.push(String::from_str("PAUSED"));
        }
        proof {
            assert(views(filters@) =~= filters_of(
                before.filter_pattern,
                before.search_pattern,
                before.paused,
            ));
        }
        self.active_filters = filters;
    }

    /// The clusters of the containers, each one once, in the order of their
    /// arrival.
    pub fn get_clusters(&self) -> (r: Vec<String>)
        ensures
            views(r@) == dedup(state_clusters(self@.pod_states)),
    {
        let ghost all = state_clusters(self@.pod_states);
        let mut r: Vec<String> = Vec::new();
        let mut i: usize = 0;
        proof {
            assert(all.subrange(0, 0) =~= Seq::empty());
            assert(views(r@) =~= Seq::empty());
        }
        while i < self.pod_states.len()
            invariant
                i <= self.pod_states@.len(),
                all == state_clusters(self@.pod_states),
                views(r@) == dedup(all.subrange(0, i as int)),
            decreases self.pod_states.len() - i,
        {
            let cluster = &self.pod_states[i].key.cluster;
            let ghost before = views(r@);
            proof {
                let next = all.subrange(0, i + 1);
                assert(next.drop_last() =~= all.subrange(0, i as int));
                assert(next.last() == cluster@);
            }
            if !contains_str(&r, cluster.as_str()) {
                r.push(cluster.clone());
                proof {
                    assert(views(r@) =~= before.push(cluster@));
                }
            }
            i = i + 1;
        }
        proof {
            assert(all.subrange(0, i as int) =~= all);
        }
        r
    }
}

/// Whether no container has two states.
pub open spec fn states_distinct(states: Seq<PodStateEntryView>) -> bool {
    forall|i: int, j: int|
        0 <= i < j < states.len() ==> (#[trigger] states[i]).key != (#[trigger] states[j]).key
}

/// Whether no container has two rows.
pub open spec fn pods_distinct(pods: Seq<PodInfoView>) -> bool {
    forall|i: int, j: int|
        0 <= i < j < pods.len() ==> (#[trigger] pods[i]).key != (#[trigger] pods[j]).key
}

impl AppView {
    /// The state is consistent: the buffer holds no more than it may, no
    /// container has two rows or two states, and no node is listed twice as
    /// expanded.
    pub open spec fn wf(self) -> bool {
        &&& self.log_buffer.len() <= self.max_buffer_size
        &&& pods_distinct(self.pods)
        &&& states_distinct(self.pod_states)
        &&& distinct(self.expanded_nodes)
    }
}

proof fn lemma_state_position(states: Seq<PodStateEntryView>, key: PodKeyView, from: int)
    requires
        0 <= from <= states.len(),
    ensures
        from <= state_position(states, key, from) <= states.len(),
        state_position(states, key, from) < states.len() ==> states[state_position(
            states,
            key,
            from,
        )].key == key,
        forall|i: int| from <= i < state_position(states, key, from) ==> states[i].key != key,
    decreases states.len() - from,
{
    if from < states.len() && states[from].key != key {
        lemma_state_position(states, key, from + 1);
    }
}

proof fn lemma_pod_position(pods: Seq<PodInfoView>, key: PodKeyView, from: int)
    requires
        0 <= from <= pods.len(),
    ensures
        from <= pod_position(pods, key, from) <= pods.len(),
        pod_position(pods, key, from) < pods.len() ==> pods[pod_position(pods, key, from)].key
            == key,
        forall|i: int| from <= i < pod_position(pods, key, from) ==> pods[i].key != key,
    decreases pods.len() - from,
{
    if from < pods.len() && pods[from].key != key {
        lemma_pod_position(pods, key, from + 1);
    }
}

proof fn lemma_with_path(paths: Seq<Seq<char>>, path: Seq<char>)
    requires
        distinct(paths),
    ensures
        distinct(with_path(paths, path)),
{
    if !paths.contains(path) {
        let r = paths.push(path);
        assert forall|i: int, j: int| 0 <= i < j < r.len() implies r[i] != r[j] by {
            if j == paths.len() {
                assert(paths.contains(r[i]));
            }
        }
    }
}

proof fn lemma_without_path(paths: Seq<Seq<char>>, path: Seq<char>)
    requires
        distinct(paths),
    ensures
        distinct(without_path(paths, path)),
        forall|x: Seq<char>|
            #![trigger without_path(paths, path).contains(x)]
            #![trigger paths.contains(x)]
            without_path(paths, path).contains(x) <==> paths.contains(x) && x != path,
    decreases paths.len(),
{
    if paths.len() > 0 {
        let d = paths.drop_last();
        assert(distinct(d)) by {
            assert forall|i: int, j: int| 0 <= i < j < d.len() implies d[i] != d[j] by {
                assert(paths[i] != paths[j]);
            }
        }
        lemma_without_path(d, path);
        let before = without_path(d, path);
        let r = without_path(paths, path);
        assert forall|x: Seq<char>|
            #![trigger r.contains(x)]
            #![trigger paths.contains(x)]
            r.contains(x) <==> paths.contains(x) && x != path by {
            if r.contains(x) {
                let i = choose|i: int| 0 <= i < r.len() && r[i] == x;
                if i < before.len() {
                    assert(before[i] == x);
                    assert(without_path(d, path).contains(x));
                    assert(d.contains(x));
                    let j = choose|j: int| 0 <= j < d.len() && d[j] == x;
                    assert(paths[j] == x);
                } else {
                    assert(paths[paths.len() - 1] == x);
                }
            }
            if paths.contains(x) && x != path {
                let j = choose|j: int| 0 <= j < paths.len() && paths[j] == x;
                if j < d.len() {
                    assert(d[j] == x);
                    assert(d.contains(x));
                    assert(without_path(d, path).contains(x));
                    let i = choose|i: int| 0 <= i < before.len() && before[i] == x;
                    assert(r[i] == x);
                } else {
                    assert(r[r.len() - 1] == x);
                }
            }
        }
        if paths.last() != path {
            assert forall|i: int, j: int| 0 <= i < j < r.len() implies r[i] != r[j] by {
                if j == before.len() {
                    assert(before[i] == r[i]);
                    assert(without_path(d, path).contains(r[i]));
                    assert(d.contains(r[i]));
                    let k = choose|k: int| 0 <= k < d.len() && d[k] == r[i];
                    assert(paths[k] != paths[paths.len() - 1]);
                }
            }
        }
    }
}

proof fn lemma_pods_without(pods: Seq<PodInfoView>, key: PodKeyView)
    requires
        pods_distinct(pods),
    ensures
        pods_distinct(pods_without(pods, key)),
        forall|i: int|
            0 <= i < pods_without(pods, key).len() ==> pods.contains(
                #[trigger] pods_without(pods, key)[i],
            ) && pods_without(pods, key)[i].key != key,
    decreases pods.len(),
{
    if pods.len() > 0 {
        let d = pods.drop_last();
        assert(pods_distinct(d)) by {
            assert forall|i: int, j: int| 0 <= i < j < d.len() implies (#[trigger] d[i]).key != (
            #[trigger] d[j]).key by {
                assert(pods[i].key != pods[j].key);
            }
        }
        lemma_pods_without(d, key);
        let before = pods_without(d, key);
        let r = pods_without(pods, key);
        assert forall|i: int| 0 <= i < r.len() implies pods.contains(#[trigger] r[i]) && r[i].key
            != key by {
            if i < before.len() {
                assert(d.contains(before[i]));
                let j = choose|j: int| 0 <= j < d.len() && d[j] == before[i];
                assert(pods[j] == r[i]);
            } else {
                assert(pods[pods.len() - 1] == r[i]);
            }
        }
        if pods.last().key != key {
            assert forall|i: int, j: int| 0 <= i < j < r.len() implies (#[trigger] r[i]).key != (
            #[trigger] r[j]).key by {
                if j == before.len() {
                    assert(d.contains(before[i]));
                    let k = choose|k: int| 0 <= k < d.len() && d[k] == before[i];
                    assert(pods[k].key != pods[pods.len() - 1].key);
                } else {
                    assert(before[i].key != before[j].key);
                }
            }
        }
    }
}

proof fn lemma_states_without(states: Seq<PodStateEntryView>, key: PodKeyView)
    requires
        states_distinct(states),
    ensures
        states_distinct(states_without(states, key)),
        forall|i: int|
            0 <= i < states_without(states, key).len() ==> states.contains(
                #[trigger] states_without(states, key)[i],
            ) && states_without(states, key)[i].key != key,
    decreases states.len(),
{
    if states.len() > 0 {
        let d = states.drop_last();
        assert(states_distinct(d)) by {
            assert forall|i: int, j: int| 0 <= i < j < d.len() implies (#[trigger] d[i]).key != (
            #[trigger] d[j]).key by {
                assert(states[i].key != states[j].key);
            }
        }
        lemma_states_without(d, key);
        let before = states_without(d, key);
        let r = states_without(states, key);
        assert forall|i: int| 0 <= i < r.len() implies states.contains(#[trigger] r[i])
            && r[i].key != key by {
            if i < before.len() {
                assert(d.contains(before[i]));
                let j = choose|j: int| 0 <= j < d.len() && d[j] == before[i];
                assert(states[j] == r[i]);
            } else {
                assert(states[states.len() - 1] == r[i]);
            }
        }
        if states.last().key != key {
            assert forall|i: int, j: int| 0 <= i < j < r.len() implies (#[trigger] r[i]).key != (
            #[trigger] r[j]).key by {
                if j == before.len() {
                    assert(d.contains(before[i]));
                    let k = choose|k: int| 0 <= k < d.len() && d[k] == before[i];
                    assert(states[k].key != states[states.len() - 1].key);
                } else {
                    assert(before[i].key != before[j].key);
                }
            }
        }
    }
}

/// A new UI is consistent, and stays so whatever arrives and whatever is
/// done: lines, reports of containers, removals and toggles.
pub proof fn lemma_app_stays_wf(
    app: AppView,
    msg: LogMessageView,
    info: PodInfoView,
    key: PodKeyView,
    now: Timestamp,
    max_buffer_size: usize,
)
    ensures
        AppView::initial(max_buffer_size).wf(),
        app.wf() ==> app.with_log(msg).wf(),
        app.wf() ==> app.with_pod(info, now).wf(),
        app.wf() ==> app.without_pod(key).wf(),
        app.wf() ==> app.with_selected_toggled().wf(),
        app.wf() ==> app.cleared().wf(),
        app.wf() ==> app.with_search_run().wf() && app.with_stats().wf(),
{
    if app.wf() {
        // a line
        if !app.paused {
            let buffer = app.log_buffer.push(msg).skip(app.overflow());
            assert(buffer.len() <= app.max_buffer_size);
        }
        // a report
        lemma_state_position(app.pod_states, info.key, 0);
        lemma_pod_position(app.pods, info.key, 0);
        let with = app.with_pod(info, now);
        assert(states_distinct(with.pod_states)) by {
            if state_position(app.pod_states, info.key, 0) >= app.pod_states.len() {
                let r = with.pod_states;
                assert forall|i: int, j: int| 0 <= i < j < r.len() implies (#[trigger] r[i]).key
                    != (#[trigger] r[j]).key by {
                    if j == app.pod_states.len() {
                        assert(r[i] == app.pod_states[i]);
                    } else {
                        assert(app.pod_states[i].key != app.pod_states[j].key);
                    }
                }
            }
        }
        let at = pod_position(app.pods, info.key, 0);
        assert(pods_distinct(with.pods)) by {
            let r = with.pods;
            assert forall|i: int, j: int| 0 <= i < j < r.len() implies (#[trigger] r[i]).key != (
            #[trigger] r[j]).key by {
                if at < app.pods.len() {
                    assert(app.pods[i].key != app.pods[j].key);
                    assert(r[at].key == app.pods[at].key);
                } else if j == app.pods.len() {
                    assert(r[i] == app.pods[i]);
                } else {
                    assert(app.pods[i].key != app.pods[j].key);
                }
            }
        }
        if at >= app.pods.len() {
            let cluster = info.key.cluster;
            let namespace = cluster + "/"@ + info.key.namespace;
            let pod = namespace + "/"@ + info.key.pod_name;
            lemma_with_path(app.expanded_nodes, cluster);
            lemma_with_path(with_path(app.expanded_nodes, cluster), namespace);
            lemma_with_path(with_path(with_path(app.expanded_nodes, cluster), namespace), pod);
        }
        // a removal
        lemma_pods_without(app.pods, key);
        lemma_states_without(app.pod_states, key);
        // a toggle
        match app.sidebar_selected {
            Some(i) => {
                if i < app.sidebar_item_types.len() {
                    match app.sidebar_item_types[i as int].path() {
                        Some(path) => {
                            if app.expanded_nodes.contains(path) {
                                lemma_without_path(app.expanded_nodes, path);
                            } else {
                                lemma_with_path(app.expanded_nodes, path);
                            }
                        },
                        None => {
                            if i < app.sidebar_item_keys.len() {
                                match app.sidebar_item_keys[i as int] {
                                    Some(k) => {
                                        lemma_state_position(app.pod_states, k, 0);
                                        let p = state_position(app.pod_states, k, 0);
                                        if p < app.pod_states.len() {
                                            let r = app.with_selected_toggled().pod_states;
                                            assert forall|a: int, b: int|
                                                0 <= a < b < r.len() implies (#[trigger] r[a]).key
                                                != (#[trigger] r[b]).key by {
                                                assert(app.pod_states[a].key
                                                    != app.pod_states[b].key);
                                            }
                                        }
                                    },
                                    None => {},
                                }
                            }
                        },
                    }
                }
            },
            None => {},
        }
    }
    assert(distinct(AppView::initial(max_buffer_size).expanded_nodes));
}

/// A container that is toggled off has its lines hidden, and shown again when
/// it is toggled back on: with consistent states, the state found for a key is
/// the only one.
pub proof fn lemma_enabled_of(states: Seq<PodStateEntryView>, i: int)
    requires
        states_distinct(states),
        0 <= i < states.len(),
    ensures
        enabled_of(states, states[i].key) == states[i].state.enabled,
{
    lemma_state_position(states, states[i].key, 0);
    let at = state_position(states, states[i].key, 0);
    if at != i {
        if at < i {
            assert(states[at].key != states[i].key);
        } else {
            assert(states[i].key != states[i].key);
        }
    }
}

} // verus!
