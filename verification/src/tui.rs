//! The status view of the terminal UI: the latest events, and for each
//! container whether its stream is connected.

use crate::text::{
    decimal, i64_to_string, push_two_digits, same, signed_decimal, two_digits, u64_to_string,
    usize_to_string,
};
use crate::types::{
    ConnectionState, ConnectionStateView, GapReason, LogEvent, LogEventView, LogLevel, LogMessage,
    LogMessageView,
};
use crate::ui::events::{KeyCode, KeyEvent, CONTROL};
use crate::ui::logview::{Span, SpanView, span_views};
use crate::ui::widgets::Style;
use crate::utils::{get_color, palette_slot, str_hash, tui_palette, Color};
use std::collections::VecDeque;
use vstd::prelude::*;
use vstd::string::*;

verus! {

/// What the status table shows of one container.
#[derive(Debug)]
pub struct PodStatus {
    /// `pod/container`: what the container is found by.
    pub key: String,
    pub name: String,
    pub container: String,
    /// The second of Unix time at which the last line arrived.
    pub last_log_time: Option<u64>,
    pub log_count: usize,
    pub connection_state: ConnectionState,
    pub color: Color,
}

/// What a `PodStatus` is in contracts.
pub struct PodStatusView {
    pub key: Seq<char>,
    pub name: Seq<char>,
    pub container: Seq<char>,
    pub last_log_time: Option<u64>,
    pub log_count: usize,
    pub connection_state: ConnectionStateView,
    pub color: Color,
}

impl View for PodStatus {
    type V = PodStatusView;

    open spec fn view(&self) -> PodStatusView {
        PodStatusView {
            key: self.key@,
            name: self.name@,
            container: self.container@,
            last_log_time: self.last_log_time,
            log_count: self.log_count,
            connection_state: self.connection_state@,
            color: self.color,
        }
    }
}

/// The views of a sequence of statuses.
pub open spec fn status_views(s: Seq<PodStatus>) -> Seq<PodStatusView> {
    Seq::new(s.len(), |i: int| s[i]@)
}

/// The views of a sequence of events.
pub open spec fn event_views(s: Seq<LogEvent>) -> Seq<LogEventView> {
    Seq::new(s.len(), |i: int| s[i]@)
}

/// The status view of the terminal UI.
pub struct TuiApp {
    pub should_quit: bool,
    /// The latest events, oldest first; at most `max_log_lines`.
    pub log_messages: VecDeque<LogEvent>,
    /// The containers that were heard of, in the order of their first line.
    pub pod_status: Vec<PodStatus>,
    /// How many lines the view is scrolled up from the newest.
    pub scroll_offset: usize,
    pub paused: bool,
    pub show_help: bool,
    pub auto_scroll: bool,
    pub max_log_lines: usize,
    /// The second of Unix time at which the UI started.
    pub start_time: u64,
    pub total_log_count: usize,
    pub gap_count: usize,
}

/// What a `TuiApp` is in contracts.
pub struct TuiAppView {
    pub should_quit: bool,
    pub log_messages: Seq<LogEventView>,
    pub pod_status: Seq<PodStatusView>,
    pub scroll_offset: usize,
    pub paused: bool,
    pub show_help: bool,
    pub auto_scroll: bool,
    pub max_log_lines: usize,
    pub start_time: u64,
    pub total_log_count: usize,
    pub gap_count: usize,
}

impl View for TuiApp {
    type V = TuiAppView;

    open spec fn view(&self) -> TuiAppView {
        TuiAppView {
            should_quit: self.should_quit,
            log_messages: event_views(self.log_messages@),
            pod_status: status_views(self.pod_status@),
            scroll_offset: self.scroll_offset,
            paused: self.paused,
            show_help: self.show_help,
            auto_scroll: self.auto_scroll,
            max_log_lines: self.max_log_lines,
            start_time: self.start_time,
            total_log_count: self.total_log_count,
            gap_count: self.gap_count,
        }
    }
}

/// What a container is found by in the status table: `pod/container`.
pub open spec fn status_key(pod: Seq<char>, container: Seq<char>) -> Seq<char> {
    pod + "/"@ + container
}

/// The position of the first status under `key`; the number of statuses where
/// there is none.
pub open spec fn status_position(statuses: Seq<PodStatusView>, key: Seq<char>, from: int) -> int
    decreases statuses.len() - from,
{
    if from >= statuses.len() {
        statuses.len() as int
    } else if from >= 0 && statuses[from].key == key {
        from
    } else {
        status_position(statuses, key, from + 1)
    }
}

/// One more, unless the counter is at its greatest value.
pub open spec fn counted(n: usize) -> usize {
    if n < usize::MAX {
        (n + 1) as usize
    } else {
        n
    }
}

/// The statuses with the connection state of the container under `key`
/// replaced, if the container is known.
pub open spec fn with_state(
    statuses: Seq<PodStatusView>,
    key: Seq<char>,
    state: ConnectionStateView,
) -> Seq<PodStatusView> {
    let at = status_position(statuses, key, 0);
    if at < statuses.len() {
        statuses.update(at, PodStatusView { connection_state: state, ..statuses[at] })
    } else {
        statuses
    }
}

/// The statuses after a line of `msg`'s container arrived at the time `now`:
/// the container is connected, has one line more, and got its last line now. A
/// container not heard of before joins the table, in the colour of its pod.
pub open spec fn with_line(statuses: Seq<PodStatusView>, msg: LogMessageView, now: u64) -> Seq<
    PodStatusView,
> {
    let key = status_key(msg.key.pod_name, msg.key.container_name);
    let at = status_position(statuses, key, 0);
    if at < statuses.len() {
        statuses.update(
            at,
            PodStatusView {
                last_log_time: Some(now),
                log_count: counted(statuses[at].log_count),
                connection_state: ConnectionStateView::Connected,
                ..statuses[at]
            },
        )
    } else {
        statuses.push(
            PodStatusView {
                key,
                name: msg.key.pod_name,
                container: msg.key.container_name,
                last_log_time: Some(now),
                log_count: 1,
                connection_state: ConnectionStateView::Connected,
                color: tui_palette()[palette_slot(str_hash(msg.key.pod_name))],
            },
        )
    }
}

impl TuiAppView {
    /// The state of a new UI that started at `start_time`.
    pub open spec fn initial(max_log_lines: usize, auto_scroll: bool, start_time: u64) -> TuiAppView {
        TuiAppView {
            should_quit: false,
            log_messages: Seq::empty(),
            pod_status: Seq::empty(),
            scroll_offset: 0,
            paused: false,
            show_help: false,
            auto_scroll,
            max_log_lines,
            start_time,
            total_log_count: 0,
            gap_count: 0,
        }
    }

    /// The greatest scroll offset: all lines but the oldest scrolled past.
    pub open spec fn top(self) -> usize {
        if self.log_messages.len() > 0 {
            (self.log_messages.len() - 1) as usize
        } else {
            0
        }
    }

    /// The state after an event arrived at the time `now`. The event joins the
    /// buffer, of which the latest `max_log_lines` events stay. A line counts
    /// for its container and in total; a gap counts and marks its container as
    /// disconnected; a status change sets the state of its container.
    pub open spec fn with_event(self, event: LogEventView, now: u64) -> TuiAppView {
        let all = self.log_messages.push(event);
        let buffer = if all.len() > self.max_log_lines {
            all.skip(all.len() - self.max_log_lines)
        } else {
            all
        };
        match event {
            LogEventView::Log(msg) => TuiAppView {
                total_log_count: counted(self.total_log_count),
                pod_status: with_line(self.pod_status, msg, now),
                log_messages: buffer,
                ..self
            },
            LogEventView::Gap { key, duration_ms, reason } => TuiAppView {
                gap_count: counted(self.gap_count),
                pod_status: with_state(
                    self.pod_status,
                    status_key(key.pod_name, key.container_name),
                    ConnectionStateView::Disconnected { since: now },
                ),
                log_messages: buffer,
                ..self
            },
            LogEventView::StatusChange { key, new_state } => TuiAppView {
                pod_status: with_state(
                    self.pod_status,
                    status_key(key.pod_name, key.container_name),
                    new_state,
                ),
                log_messages: buffer,
                ..self
            },
            LogEventView::SystemMessage { level, message } => TuiAppView {
                log_messages: buffer,
                ..self
            },
        }
    }

    /// One line further up, but not past the oldest line.
    pub open spec fn scrolled_up(self) -> TuiAppView {
        if self.scroll_offset < self.top() {
            TuiAppView { scroll_offset: (self.scroll_offset + 1) as usize, ..self }
        } else {
            self
        }
    }

    /// One line further down, but not past the newest line.
    pub open spec fn scrolled_down(self) -> TuiAppView {
        if self.scroll_offset > 0 {
            TuiAppView { scroll_offset: (self.scroll_offset - 1) as usize, ..self }
        } else {
            self
        }
    }

    /// A page further up, but not past the oldest line.
    pub open spec fn paged_up(self) -> TuiAppView {
        TuiAppView {
            scroll_offset: if self.scroll_offset + STATUS_PAGE < self.top() {
                (self.scroll_offset + STATUS_PAGE) as usize
            } else {
                self.top()
            },
            ..self
        }
    }

    /// A page further down, but not past the newest line.
    pub open spec fn paged_down(self) -> TuiAppView {
        TuiAppView {
            scroll_offset: if self.scroll_offset >= STATUS_PAGE {
                (self.scroll_offset - STATUS_PAGE) as usize
            } else {
                0
            },
            ..self
        }
    }

    /// At the newest line.
    pub open spec fn at_end(self) -> TuiAppView {
        TuiAppView { scroll_offset: 0, ..self }
    }

    /// What a key press does: `q`, the escape key, and `c` with the control
    /// key quit; `p` and F3 pause and resume; the arrows, `k` and `j` scroll by
    /// a line and the page keys by a page; the home key goes to the oldest line
    /// and the end key to the newest; F1 shows and hides the help.
    pub open spec fn after_key(self, key: KeyEvent) -> TuiAppView {
        match key.code {
            KeyCode::Esc => TuiAppView { should_quit: true, ..self },
            KeyCode::Char(c) => if c == 'q' {
                TuiAppView { should_quit: true, ..self }
            } else if c == 'c' && key.modifiers & CONTROL == CONTROL {
                TuiAppView { should_quit: true, ..self }
            } else if c == 'p' {
                TuiAppView { paused: !self.paused, ..self }
            } else if c == 'k' {
                self.scrolled_up()
            } else if c == 'j' {
                self.scrolled_down()
            } else {
                self
            },
            KeyCode::F(n) => if n == 3 {
                TuiAppView { paused: !self.paused, ..self }
            } else if n == 1 {
                TuiAppView { show_help: !self.show_help, ..self }
            } else {
                self
            },
            KeyCode::Up => self.scrolled_up(),
            KeyCode::Down => self.scrolled_down(),
            KeyCode::PageUp => self.paged_up(),
            KeyCode::PageDown => self.paged_down(),
            KeyCode::Home => TuiAppView { scroll_offset: self.top(), ..self },
            KeyCode::End => TuiAppView { scroll_offset: 0, ..self },
            _ => self,
        }
    }

    /// The first of the events to show in a window of `height` rows, borders
    /// included.
    pub open spec fn window_start(self, height: u16) -> int {
        let visible = if height > 2 {
            height - 2
        } else {
            0
        };
        if self.log_messages.len() <= visible {
            0
        } else if self.log_messages.len() >= visible + self.scroll_offset {
            self.log_messages.len() - (visible + self.scroll_offset)
        } else {
            0
        }
    }
}

/// The number of lines that the page keys scroll by.
pub const STATUS_PAGE: usize = 20;

/// The position of the first status under `key`.
fn find_status(statuses: &Vec<PodStatus>, key: &str) -> (r: usize)
    ensures
        r == status_position(status_views(statuses@), key@, 0),
        r <= statuses@.len(),
{
    let mut i: usize = 0;
    while i < statuses.len()
        invariant
            i <= statuses@.len(),
            status_position(status_views(statuses@), key@, 0) == status_position(
                status_views(statuses@),
                key@,
                i as int,
            ),
        decreases statuses.len() - i,
    {
        if same(statuses[i].key.as_str(), key) {
            return i;
        }
        i = i + 1;
    }
    i
}

/// What a container is found by in the status table.
fn key_for(pod: &str, container: &str) -> (r: String)
    ensures
        r@ == status_key(pod@, container@),
{
    let mut key = String::from_str(pod);
    key.append("/");
    key.append(container);
    key
}

/// Sets the connection state of the container under `key`, if it is known.
fn set_state(statuses: &mut Vec<PodStatus>, key: &str, state: ConnectionState)
    ensures
        status_views(final(statuses)@) == with_state(status_views(old(statuses)@), key@, state@),
{
    let at = find_status(statuses, key);
    if at < statuses.len() {
        let ghost before = status_views(statuses@);
        let old_status = &statuses[at];
        let status = PodStatus {
            key: old_status.key.clone(),
            name: old_status.name.clone(),
            container: old_status.container.clone(),
            last_log_time: old_status.last_log_time,
            log_count: old_status.log_count,
            connection_state: state,
            color: old_status.color,
        };
        let ghost status_view = status@;
        statuses.set(at, status);
        proof {
            assert(status_views(statuses@) =~= before.update(at as int, status_view));
        }
    }
}

/// Counts a line of `msg`'s container that arrived at the time `now`.
fn count_line(statuses: &mut Vec<PodStatus>, msg: &LogMessage, now: u64)
    ensures
        status_views(final(statuses)@) == with_line(status_views(old(statuses)@), msg@, now),
{
    let key = key_for(msg.pod_name.as_str(), msg.container_name.as_str());
    let at = find_status(statuses, key.as_str());
    let ghost before = status_views(statuses@);
    if at < statuses.len() {
        let old_status = &statuses[at];
        let status = PodStatus {
            key: old_status.key.clone(),
            name: old_status.name.clone(),
            container: old_status.container.clone(),
            last_log_time: Some(now),
            log_count: if old_status.log_count < usize::MAX {
                old_status.log_count + 1
            } else {
                old_status.log_count
            },
            connection_state: ConnectionState::Connected,
            color: old_status.color,
        };
        let ghost status_view = status@;
        statuses.set(at, status);
        proof {
            assert(status_views(statuses@) =~= before.update(at as int, status_view));
        }
    } else {
        let status = PodStatus {
            key,
            name: msg.pod_name.clone(),
            container: msg.container_name.clone(),
            last_log_time: Some(now),
            log_count: 1,
            connection_state: ConnectionState::Connected,
            color: get_color(msg.pod_name.as_str()),
        };
        let ghost status_view = status@;
        statuses.push(status);
        proof {
            assert(status_views(statuses@) =~= before.push(status_view));
        }
    }
}

impl TuiApp {
    /// A new UI that keeps the latest `max_log_lines` events; `start_time` is
    /// the second of Unix time at which it starts.
    pub fn new(max_log_lines: usize, auto_scroll: bool, start_time: u64) -> (app: TuiApp)
        ensures
            app@ == TuiAppView::initial(max_log_lines, auto_scroll, start_time),
    {
        let app = TuiApp {
            should_quit: false,
            log_messages: VecDeque::new(),
            pod_status: Vec::new(),
            scroll_offset: 0,
            paused: false,
            show_help: false,
            auto_scroll,
            max_log_lines,
            start_time,
            total_log_count: 0,
            gap_count: 0,
        };
        proof {
            assert(app@.log_messages =~= Seq::empty());
            assert(app@.pod_status =~= Seq::empty());
        }
        app
    }

    /// Takes an event that arrived at the second `now` of Unix time.
    pub fn add_log_event(&mut self, event: LogEvent, now: u64)
        ensures
            final(self)@ == old(self)@.with_event(event@, now),
    {
        let ghost before = self@;
        match &event {
            LogEvent::Log(msg) => {
                if self.total_log_count < usize::MAX {
                    self.total_log_count = self.total_log_count + 1;
                }
                count_line(&mut self.pod_status, msg, now);
            },
            LogEvent::Gap { key, .. } => {
                if self.gap_count < usize::MAX {
                    self.gap_count = self.gap_count + 1;
                }
                let k = key_for(key.pod_name.as_str(), key.container_name.as_str());
                set_state(
                    &mut self.pod_status,
                    k.as_str(),
                    ConnectionState::Disconnected { since: now },
                );
            },
            LogEvent::StatusChange { key, new_state } => {
                let k = key_for(key.pod_name.as_str(), key.container_name.as_str());
                set_state(&mut self.pod_status, k.as_str(), new_state.clone());
            },
            LogEvent::SystemMessage { .. } => {},
        }
        let ghost all = before.log_messages.push(event@);
        self.log_messages.push_back(event);
        proof {
            assert(event_views(self.log_messages@) =~= all);
        }
        let max = self.max_log_lines;
        let ghost mut dropped: int = 0;
        while self.log_messages.len() > max
            invariant
                max == before.max_log_lines,
                0 <= dropped <= all.len(),
                self.log_messages@.len() == all.len() - dropped,
                event_views(self.log_messages@) == all.skip(dropped),
                dropped > 0 ==> all.len() - dropped >= max,
                self@ == (TuiAppView {
                    log_messages: event_views(self.log_messages@),
                    ..old(self)@.with_event(event@, now)
                }),
            decreases self.log_messages@.len(),
        {
            let ghost now_held = event_views(self.log_messages@);
            let _ = self.log_messages.pop_front();
            proof {
                assert(event_views(self.log_messages@) =~= now_held.skip(1));
                assert(now_held.skip(1) =~= all.skip(dropped + 1));
                dropped = dropped + 1;
            }
        }
        proof {
            if dropped == 0 {
                assert(all.skip(0) =~= all);
            }
        }
        if self.auto_scroll && self.scroll_offset == 0 {
            self.scroll_to_end();
        }
    }

    /// Takes a key press.
    pub fn handle_key(&mut self, key: KeyEvent)
        ensures
            final(self)@ == old(self)@.after_key(key),
    {
        match key.code {
            KeyCode::Esc => {
                self.should_quit = true;
            },
            KeyCode::Char(c) => {
                if c == 'q' {
                    self.should_quit = true;
                } else if c == 'c' && key.modifiers & CONTROL == CONTROL {
                    self.should_quit = true;
                } else if c == 'p' {
                    self.paused = !self.paused;
                } else if c == 'k' {
                    self.scroll_up();
                } else if c == 'j' {
                    self.scroll_down();
                }
            },
            KeyCode::F(n) => {
                if n == 3 {
                    self.paused = !self.paused;
                } else if n == 1 {
                    self.show_help = !self.show_help;
                }
            },
            KeyCode::Up => {
                self.scroll_up();
            },
            KeyCode::Down => {
                self.scroll_down();
            },
            KeyCode::PageUp => {
                self.page_up();
            },
            KeyCode::PageDown => {
                self.page_down();
            },
            KeyCode::Home => {
                self.scroll_offset = self.top();
            },
            KeyCode::End => {
                self.scroll_offset = 0;
            },
            _ => {},
        }
    }

    /// The greatest scroll offset.
    pub fn top(&self) -> (r: usize)
        ensures
            r == self@.top(),
    {
        let n = self.log_messages.len();
        if n > 0 {
            n - 1
        } else {
            0
        }
    }

    /// Scrolls one line up.
    pub fn scroll_up(&mut self)
        ensures
            final(self)@ == old(self)@.scrolled_up(),
    {
        if self.scroll_offset < self.top() {
            self.scroll_offset = self.scroll_offset + 1;
        }
    }

    /// Scrolls one line down.
    pub fn scroll_down(&mut self)
        ensures
            final(self)@ == old(self)@.scrolled_down(),
    {
        if self.scroll_offset > 0 {
            self.scroll_offset = self.scroll_offset - 1;
        }
    }

    /// Scrolls a page up.
    pub fn page_up(&mut self)
        ensures
            final(self)@ == old(self)@.paged_up(),
    {
        let top = self.top();
        if self.scroll_offset < top && STATUS_PAGE < top - self.scroll_offset {
            self.scroll_offset = self.scroll_offset + STATUS_PAGE;
        } else {
            self.scroll_offset = top;
        }
    }

    /// Scrolls a page down.
    pub fn page_down(&mut self)
        ensures
            final(self)@ == old(self)@.paged_down(),
    {
        self.scroll_offset = if self.scroll_offset >= STATUS_PAGE {
            self.scroll_offset - STATUS_PAGE
        } else {
            0
        };
    }

    /// Jumps to the newest line.
    pub fn scroll_to_end(&mut self)
        ensures
            final(self)@ == old(self)@.at_end(),
    {
        self.scroll_offset = 0;
    }

    /// The first of the events to show in a window of `height` rows, borders
    /// included.
    pub fn window_start(&self, height: u16) -> (r: usize)
        ensures
            r == self@.window_start(height),
    {
        let visible: usize = if height > 2 {
            (height - 2) as usize
        } else {
            0
        };
        let total = self.log_messages.len();
        if total <= visible {
            0
        } else if self.scroll_offset <= total - visible {
            total - visible - self.scroll_offset
        } else {
            0
        }
    }

    /// The title of the log area.
    pub fn log_title(&self) -> (r: &'static str)
        ensures
            r@ == (if self@.paused {
                "Logs (PAUSED - Press P to resume)"@
            } else if self@.scroll_offset > 0 {
                "Logs (Scrolled - Press End for live view)"@
            } else {
                "Logs (Live)"@
            }),
    {
        if self.paused {
            "Logs (PAUSED - Press P to resume)"
        } else if self.scroll_offset > 0 {
            "Logs (Scrolled - Press End for live view)"
        } else {
            "Logs (Live)"
        }
    }

    /// The text of the footer.
    pub fn footer_text(&self) -> (r: &'static str)
        ensures
            r@ == (if self@.show_help {
                "Press F1 again to close help"@
            } else {
                "F1: Help | P: Pause | ↑↓: Scroll | Home/End: Top/Bottom | Ctrl+C: Quit"@
            }),
    {
        if self.show_help {
            "Press F1 again to close help"
        } else {
            "F1: Help | P: Pause | ↑↓: Scroll | Home/End: Top/Bottom | Ctrl+C: Quit"
        }
    }

    /// The text of the header at the second `now` of Unix time.
    pub fn header_text(&self, now: u64) -> (r: String)
        ensures
            r@ == "kubectl-tail | Pods: "@ + decimal(self@.pod_status.len()) + " active | Total logs: "@
                + decimal(self@.total_log_count as nat) + " | Gaps: "@ + decimal(
                self@.gap_count as nat,
            ) + " | Uptime: "@ + uptime_of(elapsed(self@.start_time, now)),
    {
        let mut r = String::from_str("kubectl-tail | Pods: ");
        r.append(usize_to_string(self.pod_status.len()).as_str());
        r.append(" active | Total logs: ");
        r.append(usize_to_string(self.total_log_count).as_str());
        r.append(" | Gaps: ");
        r.append(usize_to_string(self.gap_count).as_str());
        r.append(" | Uptime: ");
        r.append(format_uptime(seconds_between(self.start_time, now)).as_str());
        r
    }
}

/// The seconds from `since` to `now`; none where `now` is the earlier.
pub open spec fn elapsed(since: u64, now: u64) -> u64 {
    if now >= since {
        (now - since) as u64
    } else {
        0
    }
}

/// The seconds from `since` to `now`; none where `now` is the earlier.
pub fn seconds_between(since: u64, now: u64) -> (r: u64)
    ensures
        r == elapsed(since, now),
{
    if now >= since {
        now - since
    } else {
        0
    }
}

/// A number in at least two digits.
pub open spec fn padded(n: nat) -> Seq<char> {
    if n < 10 {
        seq!['0'] + decimal(n)
    } else {
        decimal(n)
    }
}

/// A span of time as hours, minutes and seconds, each in at least two digits.
pub open spec fn uptime_of(secs: u64) -> Seq<char> {
    padded((secs / 3600) as nat) + ":"@ + two_digits(((secs % 3600) / 60) as nat) + ":"@ + two_digits(
        (secs % 60) as nat,
    )
}

/// A span of time as `HH:MM:SS`; the hours take more digits when they need
/// them.
pub fn format_uptime(secs: u64) -> (r: String)
    ensures
        r@ == uptime_of(secs),
{
    let hours = secs / 3600;
    let mut r = String::new();
    if hours < 10 {
        r.push('0');
    }
    r.append(u64_to_string(hours).as_str());
    r.push(':');
    push_two_digits(&mut r, (secs % 3600) / 60);
    r.push(':');
    push_two_digits(&mut r, secs % 60);
    proof {
        reveal_strlit(":");
        assert(r@ =~= uptime_of(secs));
    }
    r
}

/// How long ago something was, in the largest unit that is not zero: seconds
/// below a minute, minutes below an hour, hours from then on. `Unknown` where
/// the time cannot be told.
pub open spec fn duration_since_text(elapsed_secs: Option<u64>) -> Seq<char> {
    match elapsed_secs {
        Some(secs) => if secs < 60 {
            decimal(secs as nat) + "s ago"@
        } else if secs < 3600 {
            decimal((secs / 60) as nat) + "m ago"@
        } else {
            decimal((secs / 3600) as nat) + "h ago"@
        },
        None => "Unknown"@,
    }
}

/// How long ago something was; `elapsed_secs` is the time since then, or
/// nothing where the clock has gone backwards.
pub fn format_duration_since(elapsed_secs: Option<u64>) -> (r: String)
    ensures
        r@ == duration_since_text(elapsed_secs),
{
    match elapsed_secs {
        Some(secs) => {
            if secs < 60 {
                let mut r = u64_to_string(secs);
                r.append("s ago");
                r
            } else if secs < 3600 {
                let mut r = u64_to_string(secs / 60);
                r.append("m ago");
                r
            } else {
                let mut r = u64_to_string(secs / 3600);
                r.append("h ago");
                r
            }
        },
        None => String::from_str("Unknown"),
    }
}

/// The time of day of a second of Unix time, as `HH:MM:SS`; question marks for
/// a time before the epoch.
pub open spec fn timestamp_text(unix_secs: Option<u64>) -> Seq<char> {
    match unix_secs {
        Some(secs) => two_digits(((secs / 3600) % 24) as nat) + ":"@ + two_digits(
            ((secs / 60) % 60) as nat,
        ) + ":"@ + two_digits((secs % 60) as nat),
        None => "??:??:??"@,
    }
}

/// The time of day of a second of Unix time; `unix_secs` is nothing for a
/// time before the epoch.
pub fn format_timestamp(unix_secs: Option<u64>) -> (r: String)
    ensures
        r@ == timestamp_text(unix_secs),
{
    match unix_secs {
        Some(secs) => {
            let mut r = String::new();
            push_two_digits(&mut r, (secs / 3600) % 24);
            r.push(':');
            push_two_digits(&mut r, (secs / 60) % 60);
            r.push(':');
            push_two_digits(&mut r, secs % 60);
            proof {
                reveal_strlit(":");
                assert(r@ =~= timestamp_text(unix_secs));
            }
            r
        },
        None => String::from_str("??:??:??"),
    }
}

/// A connection state in words, at the second `now` of Unix time.
pub open spec fn connection_state_text(state: ConnectionStateView, now: u64) -> Seq<char> {
    match state {
        ConnectionStateView::Connected => "connected"@,
        ConnectionStateView::Reconnecting { attempt } => "reconnecting (attempt "@ + decimal(
            attempt as nat,
        ) + ")"@,
        ConnectionStateView::Disconnected { since } => "disconnected for "@ + decimal(
            elapsed(since, now) as nat,
        ) + "s"@,
        ConnectionStateView::Failed(err) => "failed: "@ + err,
    }
}

/// A connection state in words, at the second `now` of Unix time.
pub fn format_connection_state(state: &ConnectionState, now: u64) -> (r: String)
    ensures
        r@ == connection_state_text(state@, now),
{
    match state {
        ConnectionState::Connected => String::from_str("connected"),
        ConnectionState::Reconnecting { attempt } => {
            let mut r = String::from_str("reconnecting (attempt ");
            r.append(u64_to_string(*attempt as u64).as_str());
            r.append(")");
            r
        },
        ConnectionState::Disconnected { since } => {
            let mut r = String::from_str("disconnected for ");
            r.append(u64_to_string(seconds_between(*since, now)).as_str());
            r.append("s");
            r
        },
        ConnectionState::Failed(err) => {
            let mut r = String::from_str("failed: ");
            r.append(err.as_str());
            r
        },
    }
}

/// The age of a pod in the largest unit that is not zero, from seconds to
/// days.
pub open spec fn age_text(total_secs: i64) -> Seq<char> {
    if total_secs < 60 {
        signed_decimal(total_secs as int) + "s"@
    } else if total_secs < 3600 {
        decimal((total_secs / 60) as nat) + "m"@
    } else if total_secs < 86400 {
        decimal((total_secs / 3600) as nat) + "h"@
    } else {
        decimal((total_secs / 86400) as nat) + "d"@
    }
}

/// The age of a pod; `total_secs` is the time since its creation, or nothing
/// where that is not known.
pub fn format_age(total_secs: Option<i64>) -> (r: String)
    ensures
        r@ == (match total_secs {
            Some(secs) => age_text(secs),
            None => "unknown"@,
        }),
{
    match total_secs {
        Some(secs) => {
            if secs < 60 {
                let mut r = i64_to_string(secs);
                r.append("s");
                r
            } else if secs < 3600 {
                let mut r = u64_to_string((secs / 60) as u64);
                r.append("m");
                r
            } else if secs < 86400 {
                let mut r = u64_to_string((secs / 3600) as u64);
                r.append("h");
                r
            } else {
                let mut r = u64_to_string((secs / 86400) as u64);
                r.append("d");
                r
            }
        },
        None => String::from_str("unknown"),
    }
}

/// The sum of the first `n` counts.
pub open spec fn sum_of(counts: Seq<i32>, n: int) -> int
    decreases n,
{
    if n <= 0 {
        0
    } else {
        sum_of(counts, n - 1) + counts[n - 1]
    }
}

/// A number brought into the range of `i32`.
pub open spec fn clamped(n: int) -> i32 {
    if n > i32::MAX {
        i32::MAX
    } else if n < i32::MIN {
        i32::MIN
    } else {
        n as i32
    }
}

/// The restarts of a pod: the sum of the restarts of its containers, as far as
/// an `i32` holds it.
pub fn get_restart_count(counts: &Vec<i32>) -> (r: i32)
    ensures
        r == clamped(sum_of(counts@, counts@.len() as int)),
{
    let mut sum: i128 = 0;
    let mut i: usize = 0;
    while i < counts.len()
        invariant
            i <= counts@.len(),
            sum == sum_of(counts@, i as int),
            -0x8000_0000 * i <= sum <= 0x7fff_ffff * i,
        decreases counts.len() - i,
    {
        sum = sum + counts[i] as i128;
        i = i + 1;
    }
    if sum > i32::MAX as i128 {
        i32::MAX
    } else if sum < i32::MIN as i128 {
        i32::MIN
    } else {
        sum as i32
    }
}

/// The second of Unix time that a timestamp falls on; none for a time before
/// the epoch.
pub open spec fn unix_second(t: crate::types::Timestamp) -> Option<u64> {
    if t.secs >= 0 {
        Some(t.secs as u64)
    } else {
        None
    }
}

/// The colour of the container under `key` in the status table; white for one
/// that is not there.
pub open spec fn color_of(statuses: Seq<PodStatusView>, key: Seq<char>) -> Color {
    let at = status_position(statuses, key, 0);
    if at < statuses.len() {
        statuses[at].color
    } else {
        Color::White
    }
}

/// A span of milliseconds in seconds with one decimal, rounded to the nearest.
pub open spec fn tenths_text(duration_ms: u64) -> Seq<char> {
    let tenths = (duration_ms + 50) / 100;
    decimal((tenths / 10) as nat) + seq!['.', crate::text::digit_char((tenths % 10) as int)]
}

/// Why logs were missing, in a word.
pub open spec fn reason_text(reason: crate::types::GapReasonView) -> Seq<char> {
    match reason {
        crate::types::GapReasonView::StreamEnded => "StreamEnded"@,
        crate::types::GapReasonView::ApiError(code) => "ApiError("@ + decimal(code as nat) + ")"@,
        crate::types::GapReasonView::Network(s) => "Network("@ + s + ")"@,
    }
}

/// The mark and the colour of a connection state where a change is reported.
pub open spec fn change_mark(state: ConnectionStateView) -> (Seq<char>, Color) {
    match state {
        ConnectionStateView::Connected => ("🔄➡️🟢"@, Color::Green),
        ConnectionStateView::Reconnecting { .. } => ("🔄"@, Color::Yellow),
        ConnectionStateView::Disconnected { .. } => ("🟢➡️🔴"@, Color::Red),
        ConnectionStateView::Failed(_) => ("❌"@, Color::Red),
    }
}

/// The mark and the colour of a message of the tool itself.
pub open spec fn level_mark(level: LogLevel) -> (Seq<char>, Color) {
    match level {
        LogLevel::Info => ("ℹ️"@, Color::Blue),
        LogLevel::Warning => ("⚠️"@, Color::Yellow),
        LogLevel::Error => ("❌"@, Color::Red),
        LogLevel::Debug => ("🔍"@, Color::Gray),
    }
}

/// A style with this foreground colour.
pub open spec fn colored(color: Color) -> Style {
    Style { fg: Some(color), ..Style::plain() }
}

/// The spans of an event in the log area, at the second `now` of Unix time.
pub open spec fn event_spans(statuses: Seq<PodStatusView>, event: LogEventView, now: u64) -> Seq<
    SpanView,
> {
    match event {
        LogEventView::Log(msg) => seq![
            SpanView { text: timestamp_text(unix_second(msg.timestamp)), style: colored(Color::Gray) },
            SpanView { text: " "@, style: Style::plain() },
            SpanView {
                text: "["@ + status_key(msg.key.pod_name, msg.key.container_name) + "]"@,
                style: Style {
                    bold: true,
                    ..colored(
                        color_of(statuses, status_key(msg.key.pod_name, msg.key.container_name)),
                    )
                },
            },
            SpanView { text: " "@, style: Style::plain() },
            SpanView { text: msg.line, style: Style::plain() },
        ],
        LogEventView::Gap { key, duration_ms, reason } => seq![
            SpanView {
                text: "⚠️  LOG GAP DETECTED"@,
                style: Style { bold: true, ..colored(Color::Yellow) },
            },
            SpanView {
                text: " - "@ + status_key(key.pod_name, key.container_name) + " missing "@
                    + tenths_text(duration_ms) + "s of logs ("@ + reason_text(reason) + ")"@,
                style: colored(Color::Yellow),
            },
        ],
        LogEventView::StatusChange { key, new_state } => seq![
            SpanView { text: change_mark(new_state).0, style: colored(change_mark(new_state).1) },
            SpanView {
                text: " "@ + status_key(key.pod_name, key.container_name) + " "@
                    + connection_state_text(new_state, now),
                style: colored(change_mark(new_state).1),
            },
        ],
        LogEventView::SystemMessage { level, message } => seq![
            SpanView { text: level_mark(level).0, style: colored(level_mark(level).1) },
            SpanView { text: " "@ + message, style: colored(level_mark(level).1) },
        ],
    }
}

/// A row of the status table.
#[derive(Debug)]
pub struct StatusRow {
    /// The mark of the connection state, and the colour of mark and state.
    pub indicator: String,
    pub state_color: Color,
    /// `pod/container`, and the colour of the pod.
    pub name: String,
    pub name_color: Color,
    /// How long ago the last line arrived.
    pub last_log: String,
    /// How many lines arrived.
    pub lines: String,
    /// The connection state in a word or two.
    pub state: String,
}

/// What a `StatusRow` is in contracts.
pub struct StatusRowView {
    pub indicator: Seq<char>,
    pub state_color: Color,
    pub name: Seq<char>,
    pub name_color: Color,
    pub last_log: Seq<char>,
    pub lines: Seq<char>,
    pub state: Seq<char>,
}

impl View for StatusRow {
    type V = StatusRowView;

    open spec fn view(&self) -> StatusRowView {
        StatusRowView {
            indicator: self.indicator@,
            state_color: self.state_color,
            name: self.name@,
            name_color: self.name_color,
            last_log: self.last_log@,
            lines: self.lines@,
            state: self.state@,
        }
    }
}

/// The mark and the colour of a connection state in the status table.
pub open spec fn state_mark(state: ConnectionStateView) -> (Seq<char>, Color) {
    match state {
        ConnectionStateView::Connected => ("🟢"@, Color::Green),
        ConnectionStateView::Reconnecting { .. } => ("🟡"@, Color::Yellow),
        ConnectionStateView::Disconnected { .. } => ("🔴"@, Color::Red),
        ConnectionStateView::Failed(_) => ("❌"@, Color::Red),
    }
}

/// A connection state in a word or two, at the second `now` of Unix time.
pub open spec fn state_word(state: ConnectionStateView, now: u64) -> Seq<char> {
    match state {
        ConnectionStateView::Connected => "Connected"@,
        ConnectionStateView::Reconnecting { attempt } => "Retry "@ + decimal(attempt as nat),
        ConnectionStateView::Disconnected { since } => "Down "@ + decimal(
            elapsed(since, now) as nat,
        ) + "s"@,
        ConnectionStateView::Failed(err) => "Failed: "@ + err,
    }
}

/// The row of a container in the status table, at the second `now` of Unix
/// time.
pub open spec fn status_row_of(status: PodStatusView, now: u64) -> StatusRowView {
    StatusRowView {
        indicator: state_mark(status.connection_state).0,
        state_color: state_mark(status.connection_state).1,
        name: status_key(status.name, status.container),
        name_color: status.color,
        last_log: match status.last_log_time {
            Some(t) => duration_since_text(if now >= t {
                Some((now - t) as u64)
            } else {
                None
            }),
            None => "Never"@,
        },
        lines: decimal(status.log_count as nat),
        state: state_word(status.connection_state, now),
    }
}

/// The row of a container in the status table, at the second `now` of Unix
/// time.
pub fn status_row(status: &PodStatus, now: u64) -> (r: StatusRow)
    ensures
        r@ == status_row_of(status@, now),
{
    let (indicator, state_color) = match &status.connection_state {
        ConnectionState::Connected => ("🟢", Color::Green),
        ConnectionState::Reconnecting { .. } => ("🟡", Color::Yellow),
        ConnectionState::Disconnected { .. } => ("🔴", Color::Red),
        ConnectionState::Failed(_) => ("❌", Color::Red),
    };
    let last_log = match status.last_log_time {
        Some(t) => format_duration_since(if now >= t {
            Some(now - t)
        } else {
            None
        }),
        None => String::from_str("Never"),
    };
    let state = match &status.connection_state {
        ConnectionState::Connected => String::from_str("Connected"),
        ConnectionState::Reconnecting { attempt } => {
            let mut s = String::from_str("Retry ");
            s.append(u64_to_string(*attempt as u64).as_str());
            s
        },
        ConnectionState::Disconnected { since } => {
            let mut s = String::from_str("Down ");
            s.append(u64_to_string(seconds_between(*since, now)).as_str());
            s.append("s");
            s
        },
        ConnectionState::Failed(err) => {
            let mut s = String::from_str("Failed: ");
            s.append(err.as_str());
            s
        },
    };
    StatusRow {
        indicator: String::from_str(indicator),
        state_color,
        name: key_for(status.name.as_str(), status.container.as_str()),
        name_color: status.color,
        last_log,
        lines: usize_to_string(status.log_count),
        state,
    }
}

/// A span of `text` in this style.
fn span(text: String, style: Style) -> (r: Span)
    ensures
        r@ == (SpanView { text: text@, style }),
{
    Span { text, style }
}

impl TuiApp {
    /// The rows of the status table, at the second `now` of Unix time.
    pub fn status_rows(&self, now: u64) -> (r: Vec<StatusRow>)
        ensures
            r@.len() == self@.pod_status.len(),
            forall|i: int|
                0 <= i < r@.len() ==> (#[trigger] r@[i])@ == status_row_of(self@.pod_status[i], now),
    {
        let mut r: Vec<StatusRow> = Vec::new();
        let mut i: usize = 0;
        while i < self.pod_status.len()
            invariant
                i <= self.pod_status@.len(),
                r@.len() == i,
                forall|j: int|
                    0 <= j < i ==> (#[trigger] r@[j])@ == status_row_of(self@.pod_status[j], now),
            decreases self.pod_status.len() - i,
        {
            r.push(status_row(&self.pod_status[i], now));
            i = i + 1;
        }
        r
    }

    /// The spans of an event in the log area, at the second `now` of Unix
    /// time.
    pub fn format_log_event(&self, event: &LogEvent, now: u64) -> (r: Vec<Span>)
        ensures
            span_views(r@) == event_spans(self@.pod_status, event@, now),
    {
        let mut spans: Vec<Span> = Vec::new();
        match event {
            LogEvent::Log(msg) => {
                let key = key_for(msg.pod_name.as_str(), msg.container_name.as_str());
                let at = find_status(&self.pod_status, key.as_str());
                let color = if at < self.pod_status.len() {
                    self.pod_status[at].color
                } else {
                    Color::White
                };
                let time = format_timestamp(
                    if msg.timestamp.secs >= 0 {
                        Some(msg.timestamp.secs as u64)
                    } else {
                        None
                    },
                );
                let mut name = String::from_str("[");
                name.append(key.as_str());
                name.append("]");
                spans.push(span(time, Style::default().fg(Color::Gray)));
                spans.push(span(String::from_str(" "), Style::default()));
                spans.push(span(name, Style::default().fg(color).bold()));
                spans.push(span(String::from_str(" "), Style::default()));
                spans.push(span(msg.line.clone(), Style::default()));
            },
            LogEvent::Gap { key, duration_ms, reason } => {
                let tenths: u64 = if *duration_ms <= u64::MAX - 50 {
                    (*duration_ms + 50) / 100
                } else {
                    u64::MAX / 100
                };
                let mut text = String::from_str(" - ");
                text.append(key_for(key.pod_name.as_str(), key.container_name.as_str()).as_str());
                text.append(" missing ");
                text.append(u64_to_string(tenths / 10).as_str());
                text.push('.');
                text.push(crate::text::digit_for((tenths % 10) as u8));
                text.append("s of logs (");
                match reason {
                    GapReason::StreamEnded => {
                        text.append("StreamEnded");
                    },
                    GapReason::ApiError(code) => {
                        text.append("ApiError(");
                        text.append(u64_to_string(*code as u64).as_str());
                        text.append(")");
                    },
                    GapReason::Network(s) => {
                        text.append("Network(");
                        text.append(s.as_str());
                        text.append(")");
                    },
                }
                text.append(")");
                proof {
                    let k = status_key(key@.pod_name, key@.container_name);
                    assert(text@ =~= " - "@ + k + " missing "@ + tenths_text(*duration_ms)
                        + "s of logs ("@ + reason_text(reason@) + ")"@);
                }
                spans.push(
                    span(
                        String::from_str("⚠️  LOG GAP DETECTED"),
                        Style::default().fg(Color::Yellow).bold(),
                    ),
                );
                spans.push(span(text, Style::default().fg(Color::Yellow)));
            },
            LogEvent::StatusChange { key, new_state } => {
                let (mark, color) = match new_state {
                    ConnectionState::Connected => ("🔄➡️🟢", Color::Green),
                    ConnectionState::Reconnecting { .. } => ("🔄", Color::Yellow),
                    ConnectionState::Disconnected { .. } => ("🟢➡️🔴", Color::Red),
                    ConnectionState::Failed(_) => ("❌", Color::Red),
                };
                let mut text = String::from_str(" ");
                text.append(key_for(key.pod_name.as_str(), key.container_name.as_str()).as_str());
                text.append(" ");
                text.append(format_connection_state(new_state, now).as_str());
                proof {
                    let k = status_key(key@.pod_name, key@.container_name);
                    assert(text@ =~= " "@ + k + " "@ + connection_state_text(new_state@, now));
                }
                spans.push(span(String::from_str(mark), Style::default().fg(color)));
                spans.push(span(text, Style::default().fg(color)));
            },
            LogEvent::SystemMessage { level, message } => {
                let (mark, color) = match level {
                    LogLevel::Info => ("ℹ️", Color::Blue),
                    LogLevel::Warning => ("⚠️", Color::Yellow),
                    LogLevel::Error => ("❌", Color::Red),
                    LogLevel::Debug => ("🔍", Color::Gray),
                };
                let mut text = String::from_str(" ");
                text.append(message.as_str());
                spans.push(span(String::from_str(mark), Style::default().fg(color)));
                spans.push(span(text, Style::default().fg(color)));
            },
        }
        proof {
            assert(span_views(spans@) =~= event_spans(self@.pod_status, event@, now));
        }
        spans
    }
}

/// Whether no container has two rows in the status table.
pub open spec fn statuses_distinct(statuses: Seq<PodStatusView>) -> bool {
    forall|i: int, j: int|
        0 <= i < j < statuses.len() ==> (#[trigger] statuses[i]).key != (#[trigger] statuses[j]).key
}

impl TuiAppView {
    /// The state is consistent: the buffer holds no more than it may, and no
    /// container has two rows in the status table.
    pub open spec fn wf(self) -> bool {
        &&& self.log_messages.len() <= self.max_log_lines
        &&& statuses_distinct(self.pod_status)
    }
}

proof fn lemma_status_position(statuses: Seq<PodStatusView>, key: Seq<char>, from: int)
    requires
        0 <= from <= statuses.len(),
    ensures
        from <= status_position(statuses, key, from) <= statuses.len(),
        status_position(statuses, key, from) < statuses.len() ==> statuses[status_position(
            statuses,
            key,
            from,
        )].key == key,
        forall|i: int| from <= i < status_position(statuses, key, from) ==> statuses[i].key != key,
    decreases statuses.len() - from,
{
    if from < statuses.len() && statuses[from].key != key {
        lemma_status_position(statuses, key, from + 1);
    }
}

/// A new status view is consistent, and stays so whatever event arrives and
/// whatever key is pressed.
pub proof fn lemma_status_view_stays_wf(
    app: TuiAppView,
    event: LogEventView,
    key: KeyEvent,
    now: u64,
    max_log_lines: usize,
    auto_scroll: bool,
)
    ensures
        TuiAppView::initial(max_log_lines, auto_scroll, now).wf(),
        app.wf() ==> app.with_event(event, now).wf(),
        app.wf() ==> app.after_key(key).wf(),
{
    if app.wf() {
        let after = app.with_event(event, now);
        match event {
            LogEventView::Log(msg) => {
                let k = status_key(msg.key.pod_name, msg.key.container_name);
                lemma_status_position(app.pod_status, k, 0);
                let r = after.pod_status;
                assert forall|i: int, j: int| 0 <= i < j < r.len() implies (#[trigger] r[i]).key != (
                #[trigger] r[j]).key by {
                    if j < app.pod_status.len() {
                        assert(app.pod_status[i].key != app.pod_status[j].key);
                    } else {
                        assert(r[i] == app.pod_status[i]);
                    }
                }
            },
            LogEventView::Gap { key, duration_ms, reason } => {
                let k = status_key(key.pod_name, key.container_name);
                lemma_status_position(app.pod_status, k, 0);
                let r = after.pod_status;
                assert forall|i: int, j: int| 0 <= i < j < r.len() implies (#[trigger] r[i]).key != (
                #[trigger] r[j]).key by {
                    assert(app.pod_status[i].key != app.pod_status[j].key);
                }
            },
            LogEventView::StatusChange { key, new_state } => {
                let k = status_key(key.pod_name, key.container_name);
                lemma_status_position(app.pod_status, k, 0);
                let r = after.pod_status;
                assert forall|i: int, j: int| 0 <= i < j < r.len() implies (#[trigger] r[i]).key != (
                #[trigger] r[j]).key by {
                    assert(app.pod_status[i].key != app.pod_status[j].key);
                }
            },
            LogEventView::SystemMessage { level, message } => {},
        }
    }
}

} // verus!
