//! What the events of the terminal UI do to its state.

use crate::supervisor::{action_views, SupervisorAction, SupervisorActionView};
use crate::types::{LogMessage, LogMessageView, PodKey, PodKeyView, Timestamp};
use crate::ui::app::{App, AppMode, AppView, PodInfo, PodInfoView};
use vstd::prelude::*;
use vstd::string::*;

verus! {

/// A key of the keyboard.
#[derive(Clone, Copy, Debug, PartialEq, Eq, Structural)]
pub enum KeyCode {
    Char(char),
    Up,
    Down,
    PageUp,
    PageDown,
    Home,
    End,
    Enter,
    Esc,
    Backspace,
    F(u8),
    /// Any other key.
    Other,
}

/// The bit of the shift key among the modifiers.
pub const SHIFT: u8 = 1;

/// The bit of the control key among the modifiers.
pub const CONTROL: u8 = 2;

/// The bit of the alt key among the modifiers.
pub const ALT: u8 = 4;

/// A key press: the key, and the modifier keys held with it, one bit each.
#[derive(Clone, Copy, Debug, PartialEq, Eq, Structural)]
pub struct KeyEvent {
    pub code: KeyCode,
    pub modifiers: u8,
}

/// What became of a container.
#[derive(Debug)]
pub enum PodEventType {
    Added,
    Updated,
    Deleted(PodKey),
}

/// A report about a container for the sidebar.
#[derive(Debug)]
pub struct PodUpdateEvent {
    pub info: PodInfo,
    pub event_type: PodEventType,
}

/// What the UI reacts to.
#[derive(Debug)]
pub enum AppEvent {
    Key(KeyEvent),
    LogMessage(LogMessage),
    PodUpdate(PodUpdateEvent),
    Tick,
    Quit,
}

/// What a `PodEventType` is in contracts.
pub enum PodEventTypeView {
    Added,
    Updated,
    Deleted(PodKeyView),
}

/// What an `AppEvent` is in contracts.
pub enum AppEventView {
    Key(KeyEvent),
    LogMessage(LogMessageView),
    PodUpdate { info: PodInfoView, event_type: PodEventTypeView },
    Tick,
    Quit,
}

impl View for PodEventType {
    type V = PodEventTypeView;

    open spec fn view(&self) -> PodEventTypeView {
        match self {
            PodEventType::Added => PodEventTypeView::Added,
            PodEventType::Updated => PodEventTypeView::Updated,
            PodEventType::Deleted(k) => PodEventTypeView::Deleted(k@),
        }
    }
}

impl View for AppEvent {
    type V = AppEventView;

    open spec fn view(&self) -> AppEventView {
        match self {
            AppEvent::Key(k) => AppEventView::Key(*k),
            AppEvent::LogMessage(m) => AppEventView::LogMessage(m@),
            AppEvent::PodUpdate(u) => AppEventView::PodUpdate {
                info: u.info@,
                event_type: u.event_type@,
            },
            AppEvent::Tick => AppEventView::Tick,
            AppEvent::Quit => AppEventView::Quit,
        }
    }
}

/// The number of lines that the page keys scroll by.
pub const PAGE_SIZE: usize = 20;

/// Whether a key press asks to quit: `q`, `Q`, or `c` with the control key and
/// no other modifier. All three only when the keyboard is not taken by the
/// search, the filter or the help.
pub open spec fn quits(mode: AppMode, key: KeyEvent) -> bool {
    mode == AppMode::Normal && (key.code == KeyCode::Char('q') || key.code == KeyCode::Char('Q')
        || (key.code == KeyCode::Char('c') && key.modifiers == CONTROL))
}

/// What a key does in normal mode.
pub open spec fn after_normal_key(app: AppView, key: KeyEvent) -> AppView {
    if quits(AppMode::Normal, key) {
        app
    } else {
        match key.code {
            KeyCode::Char(c) => if c == 's' {
                AppView { sidebar_visible: !app.sidebar_visible, ..app }
            } else if c == 'p' {
                AppView { paused: !app.paused, ..app }
            } else if c == 'c' {
                app.cleared()
            } else if c == 'a' {
                AppView { auto_scroll: !app.auto_scroll, ..app }
            } else if c == 't' {
                AppView { show_timestamps: !app.show_timestamps, ..app }
            } else if c == 'x' {
                AppView { show_prefix: !app.show_prefix, ..app }
            } else if c == '/' {
                AppView { mode: AppMode::Search, search_pattern: Seq::empty(), ..app }
            } else if c == 'f' {
                AppView { mode: AppMode::Filter, filter_pattern: Seq::empty(), ..app }
            } else if c == '?' {
                AppView {
                    help_visible: !app.help_visible,
                    mode: if !app.help_visible {
                        AppMode::Help
                    } else {
                        app.mode
                    },
                    ..app
                }
            } else if c == 'n' {
                app.at_next_match()
            } else if c == 'N' {
                app.at_prev_match()
            } else if c == ' ' && app.sidebar_visible {
                app.with_selected_toggled()
            } else {
                app
            },
            KeyCode::Up => if app.sidebar_visible && app.sidebar_selected is Some {
                app.with_previous_selected()
            } else {
                app.scrolled_up()
            },
            KeyCode::Down => if app.sidebar_visible && app.sidebar_selected is Some {
                app.with_next_selected()
            } else {
                app.scrolled_down()
            },
            KeyCode::PageUp => app.paged_up(PAGE_SIZE),
            KeyCode::PageDown => app.paged_down(PAGE_SIZE),
            KeyCode::Home => app.at_top(),
            KeyCode::End => app.at_bottom(),
            _ => app,
        }
    }
}

/// What a key does while the search pattern is typed.
pub open spec fn after_search_key(app: AppView, key: KeyEvent) -> AppView {
    match key.code {
        KeyCode::Esc => AppView {
            mode: AppMode::Normal,
            search_pattern: Seq::empty(),
            search_matches: Seq::empty(),
            ..app
        },
        KeyCode::Enter => (AppView { mode: AppMode::Normal, ..app }).with_search_run(),
        KeyCode::Char(c) => AppView { search_pattern: app.search_pattern.push(c), ..app },
        KeyCode::Backspace => AppView {
            search_pattern: if app.search_pattern.len() > 0 {
                app.search_pattern.drop_last()
            } else {
                app.search_pattern
            },
            ..app
        },
        _ => app,
    }
}

/// What a key does while the filter pattern is typed.
pub open spec fn after_filter_key(app: AppView, key: KeyEvent) -> AppView {
    match key.code {
        KeyCode::Esc => AppView { mode: AppMode::Normal, filter_pattern: Seq::empty(), ..app },
        KeyCode::Enter => AppView { mode: AppMode::Normal, ..app },
        KeyCode::Char(c) => AppView { filter_pattern: app.filter_pattern.push(c), ..app },
        KeyCode::Backspace => AppView {
            filter_pattern: if app.filter_pattern.len() > 0 {
                app.filter_pattern.drop_last()
            } else {
                app.filter_pattern
            },
            ..app
        },
        _ => app,
    }
}

/// What a key does while the help is shown: any key closes it.
pub open spec fn after_help_key(app: AppView) -> AppView {
    AppView { help_visible: false, mode: AppMode::Normal, ..app }
}

/// What a key does, in the mode the UI is in.
pub open spec fn after_key(app: AppView, key: KeyEvent) -> AppView {
    match app.mode {
        AppMode::Normal => after_normal_key(app, key),
        AppMode::Search => after_search_key(app, key),
        AppMode::Filter => after_filter_key(app, key),
        AppMode::Help => after_help_key(app),
    }
}

/// What an event does; `now` is the time of the event.
pub open spec fn after_event(app: AppView, event: AppEventView, now: Timestamp) -> AppView {
    match event {
        AppEventView::Key(key) => after_key(app, key),
        AppEventView::LogMessage(msg) => app.with_log(msg),
        AppEventView::PodUpdate { info, event_type } => match event_type {
            PodEventTypeView::Added => app.with_pod(info, now),
            PodEventTypeView::Updated => app.with_pod(info, now),
            PodEventTypeView::Deleted(key) => app.without_pod(key),
        },
        AppEventView::Tick => app.with_stats(),
        AppEventView::Quit => app,
    }
}

/// Whether an event ends the UI.
pub open spec fn ends(app: AppView, event: AppEventView) -> bool {
    match event {
        AppEventView::Key(key) => quits(app.mode, key),
        AppEventView::Quit => true,
        _ => false,
    }
}

fn handle_normal_mode(app: &mut App, key: KeyEvent) -> (keep_going: bool)
    ensures
        final(app)@ == after_normal_key(old(app)@, key),
        keep_going == !quits(AppMode::Normal, key),
{
    match key.code {
        KeyCode::Char(c) => {
            if c == 'q' || c == 'Q' || (c == 'c' && key.modifiers == CONTROL) {
                return false;
            } else if c == 's' {
                app.sidebar_visible = !app.sidebar_visible;
            } else if c == 'p' {
                app.paused = !app.paused;
            } else if c == 'c' {
                app.clear_logs();
            } else if c == 'a' {
                app.auto_scroll = !app.auto_scroll;
            } else if c == 't' {
                app.show_timestamps = !app.show_timestamps;
            } else if c == 'x' {
                app.show_prefix = !app.show_prefix;
            } else if c == '/' {
                app.mode = AppMode::Search;
                app.search_pattern.clear();
            } else if c == 'f' {
                app.mode = AppMode::Filter;
                app.filter_pattern.clear();
            } else if c == '?' {
                app.help_visible = !app.help_visible;
                if app.help_visible {
                    app.mode = AppMode::Help;
                }
            } else if c == 'n' {
                app.jump_to_next_match();
            } else if c == 'N' {
                app.jump_to_prev_match();
            } else if c == ' ' && app.sidebar_visible {
                app.toggle_sidebar_item();
            }
        },
        KeyCode::Up => {
            if app.sidebar_visible && app.sidebar_selected.is_some() {
                app.sidebar_select_previous();
            } else {
                app.scroll_up();
            }
        },
        KeyCode::Down => {
            if app.sidebar_visible && app.sidebar_selected.is_some() {
                app.sidebar_select_next();
            } else {
                app.scroll_down();
            }
        },
        KeyCode::PageUp => {
            app.page_up(PAGE_SIZE);
        },
        KeyCode::PageDown => {
            app.page_down(PAGE_SIZE);
        },
        KeyCode::Home => {
            app.scroll_to_top();
        },
        KeyCode::End => {
            app.scroll_to_bottom();
        },
        _ => {},
    }
    true
}

fn handle_search_mode(app: &mut App, key: KeyEvent) -> (keep_going: bool)
    ensures
        final(app)@ == after_search_key(old(app)@, key),
        keep_going,
{
    match key.code {
        KeyCode::Esc => {
            app.mode = AppMode::Normal;
            app.search_pattern.clear();
            app.search_matches.clear();
        },
        KeyCode::Enter => {
            app.mode = AppMode::Normal;
            app.update_search_matches();
        },
        KeyCode::Char(c) => {
            app.search_pattern.push(c);
        },
        KeyCode::Backspace => {
            let _ = app.search_pattern.pop();
        },
        _ => {},
    }
    true
}

fn handle_filter_mode(app: &mut App, key: KeyEvent) -> (keep_going: bool)
    ensures
        final(app)@ == after_filter_key(old(app)@, key),
        keep_going,
{
    match key.code {
        KeyCode::Esc => {
            app.mode = AppMode::Normal;
            app.filter_pattern.clear();
        },
        KeyCode::Enter => {
            app.mode = AppMode::Normal;
        },
        KeyCode::Char(c) => {
            app.filter_pattern.push(c);
        },
        KeyCode::Backspace => {
            let _ = app.filter_pattern.pop();
        },
        _ => {},
    }
    true
}

fn handle_help_mode(app: &mut App) -> (keep_going: bool)
    ensures
        final(app)@ == after_help_key(old(app)@),
        keep_going,
{
    app.help_visible = false;
    app.mode = AppMode::Normal;
    true
}

/// Takes a key press and says whether the UI goes on.
///
/// In normal mode the keys scroll, toggle the sidebar, the pause, the
/// timestamps and the prefix, clear the buffer, start a search or a filter,
/// and move between search matches or, with the sidebar open, between its
/// rows. While a pattern is typed the keys edit it. While the help is shown
/// any key closes it.
pub fn handle_key_event(app: &mut App, key: KeyEvent) -> (keep_going: bool)
    ensures
        final(app)@ == after_key(old(app)@, key),
        keep_going == !quits(old(app)@.mode, key),
{
    match app.mode {
        AppMode::Normal => handle_normal_mode(app, key),
        AppMode::Search => handle_search_mode(app, key),
        AppMode::Filter => handle_filter_mode(app, key),
        AppMode::Help => handle_help_mode(app),
    }
}

/// Takes an event and says whether the UI goes on; `now` is the time of the
/// event.
pub fn handle_event(app: &mut App, event: AppEvent, now: Timestamp) -> (keep_going: bool)
    ensures
        final(app)@ == after_event(old(app)@, event@, now),
        keep_going == !ends(old(app)@, event@),
{
    match event {
        AppEvent::Key(key) => handle_key_event(app, key),
        AppEvent::LogMessage(msg) => {
            app.add_log(msg);
            true
        },
        AppEvent::PodUpdate(update) => {
            match update.event_type {
                PodEventType::Added => {
                    app.add_pod(update.info, now);
                },
                PodEventType::Updated => {
                    app.add_pod(update.info, now);
                },
                PodEventType::Deleted(key) => {
                    app.remove_pod(&key);
                },
            }
            true
        },
        AppEvent::Tick => {
            app.update_stats();
            true
        },
        AppEvent::Quit => false,
    }
}

/// What an update is in contracts.
pub struct PodUpdateView {
    pub info: PodInfoView,
    pub event_type: PodEventTypeView,
}

impl View for PodUpdateEvent {
    type V = PodUpdateView;

    open spec fn view(&self) -> PodUpdateView {
        PodUpdateView { info: self.info@, event_type: self.event_type@ }
    }
}

/// The views of a sequence of updates.
pub open spec fn update_views(s: Seq<PodUpdateEvent>) -> Seq<PodUpdateView> {
    Seq::new(s.len(), |i: int| s[i]@)
}

/// The report for the sidebar about a pod that was deleted: it names the pod,
/// and no container.
pub open spec fn deleted_update(cluster: Seq<char>, namespace: Seq<char>, pod: Seq<char>) -> PodUpdateView {
    let key = PodKeyView { cluster, namespace, pod_name: pod, container_name: Seq::empty() };
    PodUpdateView {
        info: PodInfoView { key, phase: "Deleted"@, age: Seq::empty(), restarts: 0 },
        event_type: PodEventTypeView::Deleted(key),
    }
}

/// The report for the sidebar about a pod that was deleted.
pub fn pod_deleted(cluster: &str, namespace: &str, pod: &str) -> (r: PodUpdateEvent)
    ensures
        r@ == deleted_update(cluster@, namespace@, pod@),
{
    let key = PodKey {
        cluster: String::from_str(cluster),
        namespace: String::from_str(namespace),
        pod_name: String::from_str(pod),
        container_name: String::new(),
    };
    PodUpdateEvent {
        info: PodInfo {
            key: key.clone(),
            phase: String::from_str("Deleted"),
            age: String::new(),
            restarts: 0,
        },
        event_type: PodEventType::Deleted(key),
    }
}

/// The reports for the sidebar about the containers that start: one for each
/// `Start` among the actions, in their order, with the phase, the age and the
/// restarts of the pod.
pub open spec fn added_updates(
    actions: Seq<SupervisorActionView>,
    phase: Seq<char>,
    age: Seq<char>,
    restarts: i32,
) -> Seq<PodUpdateView>
    decreases actions.len(),
{
    if actions.len() == 0 {
        Seq::empty()
    } else {
        match actions.last() {
            SupervisorActionView::Start { key, .. } => added_updates(
                actions.drop_last(),
                phase,
                age,
                restarts,
            ).push(
                PodUpdateView {
                    info: PodInfoView { key, phase, age, restarts },
                    event_type: PodEventTypeView::Added,
                },
            ),
            SupervisorActionView::Stop { .. } => added_updates(
                actions.drop_last(),
                phase,
                age,
                restarts,
            ),
        }
    }
}

/// The reports for the sidebar about the containers that start.
pub fn pods_added(actions: &Vec<SupervisorAction>, phase: &str, age: &str, restarts: i32) -> (r:
    Vec<PodUpdateEvent>)
    ensures
        update_views(r@) == added_updates(action_views(actions@), phase@, age@, restarts),
{
    let mut r: Vec<PodUpdateEvent> = Vec::new();
    let mut i: usize = 0;
    proof {
        assert(action_views(actions@).subrange(0, 0) =~= Seq::empty());
        assert(update_views(r@) =~= Seq::empty());
    }
    while i < actions.len()
        invariant
            i <= actions@.len(),
            update_views(r@) == added_updates(
                action_views(actions@).subrange(0, i as int),
                phase@,
                age@,
                restarts,
            ),
        decreases actions.len() - i,
    {
        let ghost before = update_views(r@);
        proof {
            let next = action_views(actions@).subrange(0, i + 1);
            assert(next.drop_last() =~= action_views(actions@).subrange(0, i as int));
            assert(next.last() == actions@[i as int]@);
        }
        match &actions[i] {
            SupervisorAction::Start { key, .. } => {
                let update = PodUpdateEvent {
                    info: PodInfo {
                        key: key.clone(),
                        phase: String::from_str(phase),
                        age: String::from_str(age),
                        restarts,
                    },
                    event_type: PodEventType::Added,
                };
                let ghost update_view = update@;
                r.push(update);
                proof {
                    assert(update_views(r@) =~= before.push(update_view));
                }
            },
            SupervisorAction::Stop { .. } => {},
        }
        i = i + 1;
    }
    proof {
        assert(action_views(actions@).subrange(0, i as int) =~= action_views(actions@));
    }
    r
}

} // verus!
