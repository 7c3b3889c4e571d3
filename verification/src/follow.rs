//! The follow task of one container: what to ask the log API for, which lines
//! to pass on, and what to do when a stream ends or cannot be opened.
//!
//! The task's owner opens the streams, reads the lines and sleeps; after each
//! of these it tells the task what happened and does what the task answers.

use crate::text::views;
use crate::types::{
    ConnectionState, ConnectionStateView, LogEvent, LogEventView, LogMessage, LogMessageView,
    PodKey, PodKeyView, Timestamp,
};
use std::collections::VecDeque;
use vstd::prelude::*;
use vstd::std_specs::cmp::PartialEqSpecImpl;
use vstd::string::*;

verus! {

/// How many of the last emitted lines are remembered to recognize replays.
pub const DEDUP_WINDOW: usize = 100;

/// The seconds to wait before a stream is opened again.
pub const RETRY_DELAY_SECS: u64 = 5;

/// The status code with which the API says that a container is gone.
pub const STATUS_NOT_FOUND: u16 = 404;

/// What to ask the log API for.
#[derive(Debug)]
pub struct LogRequest {
    /// The container whose log is asked for.
    pub container: String,
    /// Whether the stream stays open for the lines to come. It always does.
    pub follow: bool,
    /// The number of earlier lines to start with; the server's choice if none.
    pub tail_lines: Option<i64>,
    /// Only lines written at or after this time.
    pub since_time: Option<Timestamp>,
}

/// What a `LogRequest` is in contracts.
pub struct LogRequestView {
    pub container: Seq<char>,
    pub follow: bool,
    pub tail_lines: Option<i64>,
    pub since_time: Option<Timestamp>,
}

impl View for LogRequest {
    type V = LogRequestView;

    open spec fn view(&self) -> LogRequestView {
        LogRequestView {
            container: self.container@,
            follow: self.follow,
            tail_lines: self.tail_lines,
            since_time: self.since_time,
        }
    }
}

impl PartialEq for LogRequest {
    fn eq(&self, other: &Self) -> (r: bool) {
        self.container == other.container && self.follow == other.follow && self.tail_lines
            == other.tail_lines && self.since_time == other.since_time
    }
}

impl PartialEqSpecImpl for LogRequest {
    open spec fn obeys_eq_spec() -> bool {
        true
    }

    open spec fn eq_spec(&self, other: &Self) -> bool {
        self@ == other@
    }
}

/// What a follow task is in contracts.
pub struct FollowView {
    pub key: PodKeyView,
    /// The number of earlier lines that the user asked for.
    pub tail: Option<i64>,
    /// Whether no stream has been asked for yet.
    pub first_attempt: bool,
    /// Whether the current stream was opened by a reconnect.
    pub reconnected: bool,
    /// Whether replays are looked for: from a reconnect until the first line
    /// that is no replay.
    pub suppressing: bool,
    /// When the last emitted line was read.
    pub last_log_time: Option<Timestamp>,
    /// The last emitted lines, oldest first.
    pub recent: Seq<Seq<char>>,
}

/// The instant one second after `t`.
pub open spec fn one_second_after(t: Timestamp) -> Timestamp {
    Timestamp {
        secs: if t.secs < i64::MAX {
            (t.secs + 1) as i64
        } else {
            t.secs
        },
        nanos: t.nanos,
    }
}

/// The request of the next attempt, for the log of `container`; the stream is
/// always followed. The first attempt asks for the lines the user wanted. A
/// later one asks for the lines from one second after the time at which the
/// last line was read, or, if none was read, for no earlier line at all.
pub open spec fn request_of(
    container: Seq<char>,
    first_attempt: bool,
    tail: Option<i64>,
    last_log_time: Option<Timestamp>,
) -> LogRequestView {
    if first_attempt {
        LogRequestView { container, follow: true, tail_lines: tail, since_time: None }
    } else {
        match last_log_time {
            Some(t) => LogRequestView {
                container,
                follow: true,
                tail_lines: None,
                since_time: Some(one_second_after(t)),
            },
            None => LogRequestView { container, follow: true, tail_lines: Some(0), since_time: None },
        }
    }
}

/// Whether a line read from the stream is passed on. While replays are looked
/// for, a line equal to one of the remembered lines is a replay and is
/// dropped; every other line passes, and in normal operation every line does.
pub open spec fn passes(suppressing: bool, recent: Seq<Seq<char>>, line: Seq<char>) -> bool {
    !(suppressing && recent.contains(line))
}

/// The remembered lines after `line` was emitted: the window holds the latest
/// `DEDUP_WINDOW` lines.
pub open spec fn remember(recent: Seq<Seq<char>>, line: Seq<char>) -> Seq<Seq<char>> {
    if recent.len() + 1 > DEDUP_WINDOW {
        recent.push(line).subrange(1, recent.len() as int + 1)
    } else {
        recent.push(line)
    }
}

/// The task after a line was read at the time `now`. A line that passes is
/// remembered, the time is kept for the next reconnect, and with it the batch
/// of replays is over: from then on every line passes, until the next
/// reconnect. A replay changes nothing.
pub open spec fn after_line(task: FollowView, line: Seq<char>, now: Timestamp) -> FollowView {
    if passes(task.suppressing, task.recent, line) {
        FollowView {
            suppressing: false,
            last_log_time: Some(now),
            recent: remember(task.recent, line),
            ..task
        }
    } else {
        task
    }
}

/// The message to publish for a line read at the time `now`, if the line
/// passes.
pub open spec fn message_for(task: FollowView, line: Seq<char>, now: Timestamp) -> Option<
    LogMessageView,
> {
    if passes(task.suppressing, task.recent, line) {
        Some(LogMessageView { key: task.key, line, timestamp: now })
    } else {
        None
    }
}

/// An optional message as contracts see it.
pub open spec fn message_view(m: Option<LogMessage>) -> Option<LogMessageView> {
    match m {
        Some(m) => Some(m@),
        None => None,
    }
}

/// What the owner of a task does after a stream ended or could not be opened.
#[derive(Debug)]
pub enum FollowStep {
    /// Wait this long, then ask for the next request and open a stream again.
    Retry { delay_secs: u64 },
    /// End the task, after publishing the event if there is one.
    Stop { notice: Option<LogEvent> },
}

/// What a `FollowStep` is in contracts.
pub enum FollowStepView {
    Retry { delay_secs: u64 },
    Stop { notice: Option<LogEventView> },
}

impl View for FollowStep {
    type V = FollowStepView;

    open spec fn view(&self) -> FollowStepView {
        match self {
            FollowStep::Retry { delay_secs } => FollowStepView::Retry { delay_secs: *delay_secs },
            FollowStep::Stop { notice } => FollowStepView::Stop {
                notice: match notice {
                    Some(e) => Some(e@),
                    None => None,
                },
            },
        }
    }
}

/// What follows when a stream could not be opened. A container that the API
/// does not find is gone for good: the task says so and ends. Every other
/// failure is retried after the delay.
pub open spec fn after_open_failure(key: PodKeyView, status: Option<u16>) -> FollowStepView {
    if status == Some(STATUS_NOT_FOUND) {
        FollowStepView::Stop {
            notice: Some(
                LogEventView::StatusChange {
                    key,
                    new_state: ConnectionStateView::Failed("not found"@),
                },
            ),
        }
    } else {
        FollowStepView::Retry { delay_secs: RETRY_DELAY_SECS }
    }
}

/// The follow task of one container.
#[derive(Debug)]
pub struct FollowTask {
    key: PodKey,
    tail: Option<i64>,
    first_attempt: bool,
    reconnected: bool,
    suppressing: bool,
    last_log_time: Option<Timestamp>,
    recent: VecDeque<String>,
}

impl View for FollowTask {
    type V = FollowView;

    closed spec fn view(&self) -> FollowView {
        FollowView {
            key: self.key@,
            tail: self.tail,
            first_attempt: self.first_attempt,
            reconnected: self.reconnected,
            suppressing: self.suppressing,
            last_log_time: self.last_log_time,
            recent: views(self.recent@),
        }
    }
}

impl FollowTask {
    /// A task for the container `key` that has not asked for a stream yet. The
    /// first stream starts with `tail` earlier lines.
    pub fn new(key: PodKey, tail: Option<i64>) -> (task: FollowTask)
        ensures
            task@ == (FollowView {
                key: key@,
                tail,
                first_attempt: true,
                reconnected: false,
                suppressing: false,
                last_log_time: None,
                recent: Seq::empty(),
            }),
    {
        let task = FollowTask {
            key,
            tail,
            first_attempt: true,
            reconnected: false,
            suppressing: false,
            last_log_time: None,
            recent: VecDeque::new(),
        };
        assert(task@.recent =~= Seq::empty());
        task
    }

    /// The container that the task follows.
    pub fn key(&self) -> (k: &PodKey)
        ensures
            k@ == self@.key,
    {
        &self.key
    }

    /// Whether the current stream was opened by a reconnect.
    pub fn is_reconnected(&self) -> (r: bool)
        ensures
            r == self@.reconnected,
    {
        self.reconnected
    }

    /// Whether replays are looked for at the moment.
    pub fn is_suppressing(&self) -> (r: bool)
        ensures
            r == self@.suppressing,
    {
        self.suppressing
    }

    /// How many lines are remembered.
    pub fn remembered(&self) -> (n: usize)
        ensures
            n == self@.recent.len(),
    {
        self.recent.len()
    }

    /// The request for the next stream. From the second call on, the stream
    /// counts as opened by a reconnect, and replays are looked for in what it
    /// brings first.
    pub fn next_request(&mut self) -> (r: LogRequest)
        ensures
            r@ == request_of(
                old(self)@.key.container_name,
                old(self)@.first_attempt,
                old(self)@.tail,
                old(self)@.last_log_time,
            ),
            final(self)@ == (FollowView {
                first_attempt: false,
                reconnected: !old(self)@.first_attempt,
                suppressing: !old(self)@.first_attempt,
                ..old(self)@
            }),
    {
        let container = self.key.container_name.clone();
        let request = if self.first_attempt {
            LogRequest { container, follow: true, tail_lines: self.tail, since_time: None }
        } else {
            match self.last_log_time {
                Some(t) => LogRequest {
                    container,
                    follow: true,
                    tail_lines: None,
                    since_time: Some(t.plus_one_second()),
                },
                None => LogRequest { container, follow: true, tail_lines: Some(0), since_time: None },
            }
        };
        self.reconnected = !self.first_attempt;
        self.suppressing = !self.first_attempt;
        self.first_attempt = false;
        request
    }

    /// Whether one of the remembered lines equals `line`.
    fn remembers(&self, line: &str) -> (r: bool)
        ensures
            r == self@.recent.contains(line@),
    {
        let mut i: usize = 0;
        while i < self.recent.len()
            invariant
                i <= self.recent.len(),
                forall|j: int| 0 <= j < i ==> self@.recent[j] != line@,
            decreases self.recent.len() - i,
        {
            if *self.recent[i].as_str() == *line {
                assert(self@.recent[i as int] == line@);
                return true;
            }
            i = i + 1;
        }
        false
    }

    /// Takes a line that was read from the stream at the time `now`, and gives
    /// the message to publish, if the line is to be passed on.
    ///
    /// After a reconnect the lines that come first are held against the
    /// remembered ones, and a replay is dropped and changes nothing. The first
    /// line that is no replay ends this: it and every line after it is passed
    /// on, whatever it says. A line that passes is remembered, and the time is
    /// kept for the next reconnect.
    pub fn on_line(&mut self, line: String, now: Timestamp) -> (r: Option<LogMessage>)
        ensures
            final(self)@ == after_line(old(self)@, line@, now),
            message_view(r) == message_for(old(self)@, line@, now),
    {
        if self.suppressing && self.remembers(line.as_str()) {
            return None;
        }
        let ghost before = views(self.recent@);
        self.recent.push_back(line.clone());
        proof {
            assert(views(self.recent@) =~= before.push(line@));
        }
        if self.recent.len() > DEDUP_WINDOW {
            let ghost full = views(self.recent@);
            let _ = self.recent.pop_front();
            proof {
                assert(views(self.recent@) =~= full.subrange(1, full.len() as int));
            }
        }
        self.suppressing = false;
        self.last_log_time = Some(now);
        Some(
            LogMessage {
                cluster: self.key.cluster.clone(),
                namespace: self.key.namespace.clone(),
                pod_name: self.key.pod_name.clone(),
                container_name: self.key.container_name.clone(),
                line,
                timestamp: now,
            },
        )
    }

    /// What to do after a stream could not be opened; `status` is the status
    /// code of the API's answer, if there was one.
    pub fn on_open_failure(&self, status: Option<u16>) -> (r: FollowStep)
        ensures
            r@ == after_open_failure(self@.key, status),
    {
        match status {
            Some(code) => {
                if code == STATUS_NOT_FOUND {
                    return FollowStep::Stop {
                        notice: Some(
                            LogEvent::StatusChange {
                                key: self.key.clone(),
                                new_state: ConnectionState::Failed(String::from_str("not found")),
                            },
                        ),
                    };
                }
            },
            None => {},
        }
        FollowStep::Retry { delay_secs: RETRY_DELAY_SECS }
    }

    /// What to do after a stream ended or a read from it failed: open it again
    /// after the delay.
    pub fn on_stream_end(&self) -> (r: FollowStep)
        ensures
            r@ == (FollowStepView::Retry { delay_secs: RETRY_DELAY_SECS }),
    {
        FollowStep::Retry { delay_secs: RETRY_DELAY_SECS }
    }

    /// What to do after the bus turned a message down because the presenter is
    /// gone: end without a word.
    pub fn on_consumer_closed(&self) -> (r: FollowStep)
        ensures
            r@ == (FollowStepView::Stop { notice: None }),
    {
        FollowStep::Stop { notice: None }
    }
}

/// What reading lines one after the other leaves behind: whether replays are
/// still looked for, the remembered lines, and the lines passed on.
pub struct Feed {
    pub suppressing: bool,
    pub recent: Seq<Seq<char>>,
    pub emitted: Seq<Seq<char>>,
}

/// What reading `lines` one after the other leaves behind, starting with the
/// remembered lines `recent`.
pub open spec fn feed(suppressing: bool, recent: Seq<Seq<char>>, lines: Seq<Seq<char>>) -> Feed
    decreases lines.len(),
{
    if lines.len() == 0 {
        Feed { suppressing, recent, emitted: Seq::empty() }
    } else {
        let before = feed(suppressing, recent, lines.drop_last());
        if passes(before.suppressing, before.recent, lines.last()) {
            Feed {
                suppressing: false,
                recent: remember(before.recent, lines.last()),
                emitted: before.emitted.push(lines.last()),
            }
        } else {
            before
        }
    }
}

/// How many of the lines that come first are replays: the length of the
/// longest beginning of `lines` whose lines are all among `recent`.
pub open spec fn replay_len(recent: Seq<Seq<char>>, lines: Seq<Seq<char>>) -> nat
    decreases lines.len(),
{
    if lines.len() == 0 {
        0
    } else {
        let before = replay_len(recent, lines.drop_last());
        if before == lines.len() - 1 && recent.contains(lines.last()) {
            lines.len()
        } else {
            before
        }
    }
}

/// The last `DEDUP_WINDOW` of `lines`, or all of them if they are fewer.
pub open spec fn latest(lines: Seq<Seq<char>>) -> Seq<Seq<char>> {
    if lines.len() > DEDUP_WINDOW {
        lines.skip(lines.len() - DEDUP_WINDOW)
    } else {
        lines
    }
}

/// Feeding one more line is what `after_line` and `message_for` do to a task
/// in the state that the lines before left behind.
pub proof fn lemma_feed_is_line_by_line(
    task: FollowView,
    lines: Seq<Seq<char>>,
    line: Seq<char>,
    now: Timestamp,
)
    ensures
        ({
            let before = feed(task.suppressing, task.recent, lines);
            let after = feed(task.suppressing, task.recent, lines.push(line));
            let state = FollowView { suppressing: before.suppressing, recent: before.recent, ..task };
            &&& after.suppressing == after_line(state, line, now).suppressing
            &&& after.recent == after_line(state, line, now).recent
            &&& after.emitted == (match message_for(state, line, now) {
                Some(m) => before.emitted.push(m.line),
                None => before.emitted,
            })
        }),
{
    assert(lines.push(line).drop_last() =~= lines);
}

/// The replays are the lines that come first, they are all remembered, and
/// the line after them is not.
pub proof fn lemma_replay_len(recent: Seq<Seq<char>>, lines: Seq<Seq<char>>)
    ensures
        replay_len(recent, lines) <= lines.len(),
        forall|i: int| 0 <= i < replay_len(recent, lines) ==> recent.contains(#[trigger] lines[i]),
        replay_len(recent, lines) < lines.len() ==> !recent.contains(
            lines[replay_len(recent, lines) as int],
        ),
    decreases lines.len(),
{
    if lines.len() > 0 {
        let d = lines.drop_last();
        lemma_replay_len(recent, d);
        let k = replay_len(recent, d);
        assert forall|i: int| 0 <= i < replay_len(recent, lines) implies recent.contains(
            #[trigger] lines[i],
        ) by {
            if i < d.len() {
                assert(lines[i] == d[i]);
            }
        }
        if k < d.len() {
            assert(lines[k as int] == d[k as int]);
        }
    }
}

/// The window never holds more than `DEDUP_WINDOW` lines.
pub proof fn lemma_window_bounded(suppressing: bool, recent: Seq<Seq<char>>, lines: Seq<Seq<char>>)
    requires
        recent.len() <= DEDUP_WINDOW,
    ensures
        feed(suppressing, recent, lines).recent.len() <= DEDUP_WINDOW,
    decreases lines.len(),
{
    if lines.len() > 0 {
        lemma_window_bounded(suppressing, recent, lines.drop_last());
    }
}

/// In normal operation nothing is held back: every line read is passed on, in
/// the order in which it was read, however often it repeats; and the window
/// holds the latest lines.
pub proof fn lemma_normal_operation_passes_all(recent: Seq<Seq<char>>, lines: Seq<Seq<char>>)
    ensures
        feed(false, recent, lines).emitted == lines,
        !feed(false, recent, lines).suppressing,
        recent.len() <= DEDUP_WINDOW ==> feed(false, recent, lines).recent == latest(recent + lines),
    decreases lines.len(),
{
    if lines.len() == 0 {
        assert(feed(false, recent, lines).emitted =~= lines);
        assert(recent + lines =~= recent);
    } else {
        let d = lines.drop_last();
        lemma_normal_operation_passes_all(recent, d);
        assert(d.push(lines.last()) =~= lines);
        if recent.len() <= DEDUP_WINDOW {
            let before = latest(recent + d);
            let all = recent + lines;
            assert(all =~= (recent + d).push(lines.last()));
            assert(remember(before, lines.last()) =~= latest(all));
        }
    }
}

/// Across a reconnect: of the lines read after it, those that come first and
/// are remembered are replays and are dropped; the first line that is not
/// remembered is passed on, and so is every line after it, once and in the
/// order in which it was read, also one that repeats an earlier line. Replays
/// are looked for only as long as nothing has passed, and until then the
/// window stays as it was.
pub proof fn lemma_reconnect(recent: Seq<Seq<char>>, lines: Seq<Seq<char>>)
    ensures
        feed(true, recent, lines).emitted == lines.skip(replay_len(recent, lines) as int),
        feed(true, recent, lines).suppressing == (replay_len(recent, lines) == lines.len()),
        feed(true, recent, lines).suppressing ==> feed(true, recent, lines).recent == recent,
    decreases lines.len(),
{
    lemma_replay_len(recent, lines);
    if lines.len() == 0 {
        assert(feed(true, recent, lines).emitted =~= lines.skip(0));
    } else {
        let d = lines.drop_last();
        lemma_reconnect(recent, d);
        lemma_replay_len(recent, d);
        let before = feed(true, recent, d);
        let k = replay_len(recent, d) as int;
        let after = feed(true, recent, lines);
        if k == d.len() {
            assert(before.emitted =~= Seq::<Seq<char>>::empty());
            if recent.contains(lines.last()) {
                assert(after.emitted =~= lines.skip(lines.len() as int));
            } else {
                assert(after.emitted =~= lines.skip(k));
            }
        } else {
            assert(d.skip(k).push(lines.last()) =~= lines.skip(k));
        }
    }
}

/// Where the first line read after a reconnect is not remembered, nothing is
/// held back at all.
pub proof fn lemma_new_lines_all_pass(recent: Seq<Seq<char>>, lines: Seq<Seq<char>>)
    requires
        lines.len() > 0 ==> !recent.contains(lines[0]),
    ensures
        feed(true, recent, lines).emitted == lines,
{
    lemma_reconnect(recent, lines);
    lemma_replay_len(recent, lines);
    let k = replay_len(recent, lines);
    if k > 0 {
        assert(recent.contains(lines[0]));
    }
    assert(lines.skip(0) =~= lines);
}

/// What is passed on keeps the order in which it was read: the emitted lines
/// are the lines read from some position on, one after the other.
pub proof fn lemma_order_kept(suppressing: bool, recent: Seq<Seq<char>>, lines: Seq<Seq<char>>) -> (from:
    int)
    ensures
        0 <= from <= lines.len(),
        feed(suppressing, recent, lines).emitted.len() == lines.len() - from,
        forall|i: int|
            0 <= i < lines.len() - from ==> #[trigger] feed(suppressing, recent, lines).emitted[i]
                == lines[from + i],
{
    if suppressing {
        lemma_reconnect(recent, lines);
        lemma_replay_len(recent, lines);
        replay_len(recent, lines) as int
    } else {
        lemma_normal_operation_passes_all(recent, lines);
        0
    }
}

/// A line that the server replays first after a reconnect is dropped, if it is
/// among the latest `DEDUP_WINDOW` lines that were passed on before.
pub proof fn lemma_replay_is_dropped(first: Seq<Seq<char>>, i: int)
    requires
        0 <= i < first.len(),
        first.len() - i <= DEDUP_WINDOW,
    ensures
        !passes(true, feed(false, Seq::empty(), first).recent, first[i]),
        feed(true, feed(false, Seq::empty(), first).recent, seq![first[i]]).emitted == Seq::<
            Seq<char>,
        >::empty(),
{
    lemma_normal_operation_passes_all(Seq::empty(), first);
    assert(Seq::<Seq<char>>::empty() + first =~= first);
    let window = latest(first);
    if first.len() > DEDUP_WINDOW {
        assert(window[i - (first.len() - DEDUP_WINDOW)] == first[i]);
    } else {
        assert(window[i] == first[i]);
    }
    assert(window.contains(first[i]));
    let one = seq![first[i]];
    assert(one.drop_last() =~= Seq::<Seq<char>>::empty());
    assert(feed(true, window, one.drop_last()).emitted =~= Seq::<Seq<char>>::empty());
}

/// A first stream that starts with no earlier lines is asked for exactly as a
/// reconnect is when no line was read yet.
pub proof fn lemma_tail_zero_is_reconnect_fallback(container: Seq<char>)
    ensures
        request_of(container, true, Some(0), None) == request_of(container, false, Some(0), None),
        forall|tail: Option<i64>|
            request_of(container, false, tail, None) == request_of(container, true, Some(0), None),
{
}

} // verus!
