//! The plain presenter: one annotated line on standard output per log line.

use crate::grep::{line_passes, shown, Grep};
use crate::types::{LogMessage, LogMessageView};
use vstd::prelude::*;
use vstd::string::*;

verus! {

/// The prefix of a line: `[cluster.namespace/pod/container]`.
pub open spec fn prefix_of(m: LogMessageView) -> Seq<char> {
    "["@ + m.key.cluster + "."@ + m.key.namespace + "/"@ + m.key.pod_name + "/"@
        + m.key.container_name + "]"@
}

/// What the prefix's colour is chosen by: `cluster/pod`, so that the containers
/// of a pod share a colour, and a pod keeps its colour from run to run.
pub open spec fn color_key_of(m: LogMessageView) -> Seq<char> {
    m.key.cluster + "/"@ + m.key.pod_name
}

/// The whole line as printed without colours: the prefix, a space, the log
/// line.
pub open spec fn plain_line_of(m: LogMessageView) -> Seq<char> {
    prefix_of(m) + " "@ + m.line
}

/// The prefix of a line: `[cluster.namespace/pod/container]`.
pub fn format_prefix(msg: &LogMessage) -> (r: String)
    ensures
        r@ == prefix_of(msg@),
{
    let mut prefix = String::from_str("[");
    prefix.append(msg.cluster.as_str());
    prefix.append(".");
    prefix.append(msg.namespace.as_str());
    prefix.append("/");
    prefix.append(msg.pod_name.as_str());
    prefix.append("/");
    prefix.append(msg.container_name.as_str());
    prefix.append("]");
    proof {
        assert(prefix@ =~= prefix_of(msg@));
    }
    prefix
}

/// What the prefix's colour is chosen by.
pub fn color_key(msg: &LogMessage) -> (r: String)
    ensures
        r@ == color_key_of(msg@),
{
    let mut key = msg.cluster.clone();
    key.append("/");
    key.append(msg.pod_name.as_str());
    key
}

/// The line as printed without colours.
pub fn format_plain_line(msg: &LogMessage) -> (r: String)
    ensures
        r@ == plain_line_of(msg@),
{
    let mut line = format_prefix(msg);
    line.append(" ");
    line.append(msg.line.as_str());
    line
}

/// What to print for a message: its line, unless the filter drops it.
pub fn render(filter: &Option<Grep>, msg: &LogMessage) -> (r: Option<String>)
    ensures
        match r {
            Some(text) => shown(*filter, msg@.line) && text@ == plain_line_of(msg@),
            None => !shown(*filter, msg@.line),
        },
{
    if line_passes(filter, msg.line.as_str()) {
        Some(format_plain_line(msg))
    } else {
        None
    }
}

/// Which presenter an invocation uses.
#[derive(Clone, Copy, Debug, PartialEq, Eq, Structural)]
pub enum Presenter {
    /// Annotated lines on standard output.
    Stdout,
    /// The interactive terminal UI.
    Tui,
}

/// The terminal UI is used when standard output is a terminal, unless the
/// invocation asks for plain output.
pub fn choose_presenter(no_tui: bool, stdout_is_terminal: bool) -> (r: Presenter)
    ensures
        r == if !no_tui && stdout_is_terminal {
            Presenter::Tui
        } else {
            Presenter::Stdout
        },
{
    if !no_tui && stdout_is_terminal {
        Presenter::Tui
    } else {
        Presenter::Stdout
    }
}

} // verus!
