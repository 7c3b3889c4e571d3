//! The logic of `kubectl-tail`, a tool that follows the logs of the pods of a
//! changing set of workloads: which pods to watch, which containers to
//! follow, how to reconnect without repeating lines, and what the presenters
//! show. The callers do the talking to clusters and terminals.

pub mod backoff;
pub mod cli;
pub mod follow;
pub mod grep;
pub mod order;
pub mod resolver;
pub mod selectors;
pub mod seqs;
pub mod stdout;
pub mod supervisor;
pub mod text;
pub mod tui;
pub mod types;
pub mod ui;
pub mod utils;
