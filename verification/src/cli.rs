//! The command line.

use crate::text::{
    chars_of, find, find_char, parse_i64, parse_usize, parsed_i64, parsed_usize, string_of, views,
};
use crate::types::opt_view;
use vstd::prelude::*;
use vstd::string::*;

verus! {

/// The buffer size used when `--buffer-size` is not given.
pub const DEFAULT_BUFFER_SIZE: usize = 10000;

/// The options of one invocation.
#[derive(Debug)]
pub struct Cli {
    /// Resources to tail logs from (e.g., my-pod, deployment/my-deployment)
    pub resources: Vec<String>,
    /// Label selector
    pub selector: Option<String>,
    /// Namespace
    pub namespace: Option<String>,
    /// Container name (if multi-container pod)
    pub container: Option<String>,
    /// Kubernetes context
    pub context: Option<String>,
    /// Number of lines to show from the end of the logs on startup
    pub tail: Option<i64>,
    /// Enable verbose output
    pub verbose: bool,
    /// Filter logs by regex pattern
    pub grep: Option<String>,
    /// Disable the terminal UI and write to standard output
    pub no_tui: bool,
    /// Capacity of the event bus
    pub buffer_size: usize,
}

/// What a `Cli` is in contracts.
pub struct CliView {
    pub resources: Seq<Seq<char>>,
    pub selector: Option<Seq<char>>,
    pub namespace: Option<Seq<char>>,
    pub container: Option<Seq<char>>,
    pub context: Option<Seq<char>>,
    pub tail: Option<i64>,
    pub verbose: bool,
    pub grep: Option<Seq<char>>,
    pub no_tui: bool,
    pub buffer_size: usize,
}

impl View for Cli {
    type V = CliView;

    open spec fn view(&self) -> CliView {
        CliView {
            resources: views(self.resources@),
            selector: opt_view(self.selector),
            namespace: opt_view(self.namespace),
            container: opt_view(self.container),
            context: opt_view(self.context),
            tail: self.tail,
            verbose: self.verbose,
            grep: opt_view(self.grep),
            no_tui: self.no_tui,
            buffer_size: self.buffer_size,
        }
    }
}

/// The options of the command line.
#[derive(Clone, Copy, Debug, PartialEq, Eq, Structural)]
pub enum CliOption {
    Selector,
    Namespace,
    Container,
    Context,
    Tail,
    Verbose,
    Grep,
    NoTui,
    BufferSize,
    Help,
}

impl CliOption {
    /// The option that a long name stands for.
    pub open spec fn long(name: Seq<char>) -> Option<CliOption> {
        if name == "selector"@ {
            Some(CliOption::Selector)
        } else if name == "namespace"@ {
            Some(CliOption::Namespace)
        } else if name == "container"@ {
            Some(CliOption::Container)
        } else if name == "context"@ {
            Some(CliOption::Context)
        } else if name == "tail"@ {
            Some(CliOption::Tail)
        } else if name == "verbose"@ {
            Some(CliOption::Verbose)
        } else if name == "grep"@ {
            Some(CliOption::Grep)
        } else if name == "no-tui"@ {
            Some(CliOption::NoTui)
        } else if name == "plain-output"@ {
            Some(CliOption::NoTui)
        } else if name == "buffer-size"@ {
            Some(CliOption::BufferSize)
        } else if name == "help"@ {
            Some(CliOption::Help)
        } else {
            None
        }
    }

    /// The option that a short letter stands for.
    pub open spec fn short(c: char) -> Option<CliOption> {
        if c == 'l' {
            Some(CliOption::Selector)
        } else if c == 'n' {
            Some(CliOption::Namespace)
        } else if c == 'c' {
            Some(CliOption::Container)
        } else if c == 'v' {
            Some(CliOption::Verbose)
        } else if c == 'g' {
            Some(CliOption::Grep)
        } else if c == 'h' {
            Some(CliOption::Help)
        } else {
            None
        }
    }

    /// Whether the option is followed by a value.
    pub open spec fn takes_value(self) -> bool {
        match self {
            CliOption::Verbose => false,
            CliOption::NoTui => false,
            CliOption::Help => false,
            _ => true,
        }
    }

    fn from_long(name: &str) -> (r: Option<CliOption>)
        ensures
            r == Self::long(name@),
    {
        if *name == *"selector" {
            Some(CliOption::Selector)
        } else if *name == *"namespace" {
            Some(CliOption::Namespace)
        } else if *name == *"container" {
            Some(CliOption::Container)
        } else if *name == *"context" {
            Some(CliOption::Context)
        } else if *name == *"tail" {
            Some(CliOption::Tail)
        } else if *name == *"verbose" {
            Some(CliOption::Verbose)
        } else if *name == *"grep" {
            Some(CliOption::Grep)
        } else if *name == *"no-tui" {
            Some(CliOption::NoTui)
        } else if *name == *"plain-output" {
            Some(CliOption::NoTui)
        } else if *name == *"buffer-size" {
            Some(CliOption::BufferSize)
        } else if *name == *"help" {
            Some(CliOption::Help)
        } else {
            None
        }
    }

    fn from_short(c: char) -> (r: Option<CliOption>)
        ensures
            r == Self::short(c),
    {
        if c == 'l' {
            Some(CliOption::Selector)
        } else if c == 'n' {
            Some(CliOption::Namespace)
        } else if c == 'c' {
            Some(CliOption::Container)
        } else if c == 'v' {
            Some(CliOption::Verbose)
        } else if c == 'g' {
            Some(CliOption::Grep)
        } else if c == 'h' {
            Some(CliOption::Help)
        } else {
            None
        }
    }

    fn with_value(self) -> (r: bool)
        ensures
            r == self.takes_value(),
    {
        match self {
            CliOption::Verbose => false,
            CliOption::NoTui => false,
            CliOption::Help => false,
            _ => true,
        }
    }
}

/// Why a command line is turned down. Each error names the option as it was
/// written.
#[derive(Debug)]
pub enum CliError {
    /// `--help` or `-h` was given.
    HelpRequested,
    /// An option that is not known.
    UnknownOption(String),
    /// An option that takes a value, without one.
    MissingValue(String),
    /// An option that takes no value, with one.
    UnexpectedValue(String),
    /// An option that was given before.
    Repeated(String),
    /// A value that is not a number of the kind the option takes.
    InvalidNumber { option: String, value: String },
}

/// What a `CliError` is in contracts.
pub enum CliErrorView {
    HelpRequested,
    UnknownOption(Seq<char>),
    MissingValue(Seq<char>),
    UnexpectedValue(Seq<char>),
    Repeated(Seq<char>),
    InvalidNumber { option: Seq<char>, value: Seq<char> },
}

impl View for CliError {
    type V = CliErrorView;

    open spec fn view(&self) -> CliErrorView {
        match self {
            CliError::HelpRequested => CliErrorView::HelpRequested,
            CliError::UnknownOption(s) => CliErrorView::UnknownOption(s@),
            CliError::MissingValue(s) => CliErrorView::MissingValue(s@),
            CliError::UnexpectedValue(s) => CliErrorView::UnexpectedValue(s@),
            CliError::Repeated(s) => CliErrorView::Repeated(s@),
            CliError::InvalidNumber { option, value } => CliErrorView::InvalidNumber {
                option: option@,
                value: value@,
            },
        }
    }
}

/// The options read so far.
pub struct Partial {
    pub resources: Seq<Seq<char>>,
    pub selector: Option<Seq<char>>,
    pub namespace: Option<Seq<char>>,
    pub container: Option<Seq<char>>,
    pub context: Option<Seq<char>>,
    pub tail: Option<i64>,
    pub verbose: bool,
    pub grep: Option<Seq<char>>,
    pub no_tui: bool,
    pub buffer_size: Option<usize>,
}

impl Partial {
    /// Nothing read yet.
    pub open spec fn empty() -> Partial {
        Partial {
            resources: Seq::empty(),
            selector: None,
            namespace: None,
            container: None,
            context: None,
            tail: None,
            verbose: false,
            grep: None,
            no_tui: false,
            buffer_size: None,
        }
    }

    /// The options of the invocation, with the default for what was not given.
    pub open spec fn finish(self) -> CliView {
        CliView {
            resources: self.resources,
            selector: self.selector,
            namespace: self.namespace,
            container: self.container,
            context: self.context,
            tail: self.tail,
            verbose: self.verbose,
            grep: self.grep,
            no_tui: self.no_tui,
            buffer_size: match self.buffer_size {
                Some(n) => n,
                None => DEFAULT_BUFFER_SIZE,
            },
        }
    }

    /// Whether the option was given before.
    pub open spec fn has(self, option: CliOption) -> bool {
        match option {
            CliOption::Selector => self.selector is Some,
            CliOption::Namespace => self.namespace is Some,
            CliOption::Container => self.container is Some,
            CliOption::Context => self.context is Some,
            CliOption::Tail => self.tail is Some,
            CliOption::Verbose => self.verbose,
            CliOption::Grep => self.grep is Some,
            CliOption::NoTui => self.no_tui,
            CliOption::BufferSize => self.buffer_size is Some,
            CliOption::Help => false,
        }
    }

    /// The options after `option`, written as `written`, was given with
    /// `value`. No option may be given twice, and the numbers must be numbers.
    pub open spec fn with_value(self, option: CliOption, written: Seq<char>, value: Seq<char>) -> Result<
        Partial,
        CliErrorView,
    > {
        if self.has(option) {
            Err(CliErrorView::Repeated(written))
        } else {
            match option {
                CliOption::Selector => Ok(Partial { selector: Some(value), ..self }),
                CliOption::Namespace => Ok(Partial { namespace: Some(value), ..self }),
                CliOption::Container => Ok(Partial { container: Some(value), ..self }),
                CliOption::Context => Ok(Partial { context: Some(value), ..self }),
                CliOption::Grep => Ok(Partial { grep: Some(value), ..self }),
                CliOption::Tail => match parsed_i64(value) {
                    Some(n) => Ok(Partial { tail: Some(n), ..self }),
                    None => Err(CliErrorView::InvalidNumber { option: written, value }),
                },
                CliOption::BufferSize => match parsed_usize(value) {
                    Some(n) => Ok(Partial { buffer_size: Some(n), ..self }),
                    None => Err(CliErrorView::InvalidNumber { option: written, value }),
                },
                _ => Ok(self),
            }
        }
    }

    /// The options after the flag `option`, written as `written`, was given.
    pub open spec fn with_flag(self, option: CliOption, written: Seq<char>) -> Result<
        Partial,
        CliErrorView,
    > {
        if option == CliOption::Help {
            Err(CliErrorView::HelpRequested)
        } else if self.has(option) {
            Err(CliErrorView::Repeated(written))
        } else {
            match option {
                CliOption::Verbose => Ok(Partial { verbose: true, ..self }),
                CliOption::NoTui => Ok(Partial { no_tui: true, ..self }),
                _ => Ok(self),
            }
        }
    }
}

/// Whether an argument can be the value of the option before it: anything but
/// an argument that looks like an option.
pub open spec fn can_be_value(arg: Seq<char>) -> bool {
    !(arg.len() >= 2 && arg[0] == '-')
}

/// What reading one argument gives: the options so far, and whether the
/// argument after it was used up as a value.
pub struct Advance {
    pub partial: Partial,
    pub took_next: bool,
}

/// Reads a long option `--name` or `--name=value`; `next` is the argument
/// after it, if there is one.
pub open spec fn read_long(p: Partial, arg: Seq<char>, next: Option<Seq<char>>) -> Result<
    Advance,
    CliErrorView,
> {
    let eq = find(arg, '=', 2);
    let written = arg.subrange(0, eq);
    let name = arg.subrange(2, eq);
    match CliOption::long(name) {
        None => Err(CliErrorView::UnknownOption(written)),
        Some(option) => if option.takes_value() {
            if eq < arg.len() {
                match p.with_value(option, written, arg.subrange(eq + 1, arg.len() as int)) {
                    Ok(q) => Ok(Advance { partial: q, took_next: false }),
                    Err(e) => Err(e),
                }
            } else {
                match next {
                    Some(v) => if can_be_value(v) {
                        match p.with_value(option, written, v) {
                            Ok(q) => Ok(Advance { partial: q, took_next: true }),
                            Err(e) => Err(e),
                        }
                    } else {
                        Err(CliErrorView::MissingValue(written))
                    },
                    None => Err(CliErrorView::MissingValue(written)),
                }
            }
        } else if eq < arg.len() {
            Err(CliErrorView::UnexpectedValue(written))
        } else {
            match p.with_flag(option, written) {
                Ok(q) => Ok(Advance { partial: q, took_next: false }),
                Err(e) => Err(e),
            }
        },
    }
}

/// The way a short option is written: a dash and its letter.
pub open spec fn short_written(c: char) -> Seq<char> {
    seq!['-', c]
}

/// Reads the short options of an argument from its `at`-th character on. Flags
/// may stand together; an option with a value ends the argument, its value
/// being the rest of the argument (after an optional `=`) or, if there is no
/// rest, the next argument.
pub open spec fn read_shorts(p: Partial, arg: Seq<char>, at: int, next: Option<Seq<char>>) -> Result<
    Advance,
    CliErrorView,
>
    decreases arg.len() - at,
{
    if at < 1 || at >= arg.len() {
        Ok(Advance { partial: p, took_next: false })
    } else {
        let written = short_written(arg[at]);
        match CliOption::short(arg[at]) {
            None => Err(CliErrorView::UnknownOption(written)),
            Some(option) => if option.takes_value() {
                if at + 1 < arg.len() {
                    let from = if arg[at + 1] == '=' {
                        at + 2
                    } else {
                        at + 1
                    };
                    match p.with_value(option, written, arg.subrange(from, arg.len() as int)) {
                        Ok(q) => Ok(Advance { partial: q, took_next: false }),
                        Err(e) => Err(e),
                    }
                } else {
                    match next {
                        Some(v) => if can_be_value(v) {
                            match p.with_value(option, written, v) {
                                Ok(q) => Ok(Advance { partial: q, took_next: true }),
                                Err(e) => Err(e),
                            }
                        } else {
                            Err(CliErrorView::MissingValue(written))
                        },
                        None => Err(CliErrorView::MissingValue(written)),
                    }
                }
            } else {
                match p.with_flag(option, written) {
                    Ok(q) => read_shorts(q, arg, at + 1, next),
                    Err(e) => Err(e),
                }
            },
        }
    }
}

/// Reads the arguments from the `at`-th on. After `--` every argument is a
/// resource. Before it, an argument that starts with `--` is a long option,
/// another one that starts with `-` and has more to it holds short options,
/// and everything else is a resource.
pub open spec fn read_args(p: Partial, args: Seq<Seq<char>>, at: int, only_resources: bool) -> Result<
    Partial,
    CliErrorView,
>
    decreases args.len() - at,
{
    if at < 0 || at >= args.len() {
        Ok(p)
    } else {
        let arg = args[at];
        let next = if at + 1 < args.len() {
            Some(args[at + 1])
        } else {
            None
        };
        if only_resources || !(arg.len() >= 2 && arg[0] == '-') {
            read_args(Partial { resources: p.resources.push(arg), ..p }, args, at + 1, only_resources)
        } else if arg[1] == '-' && arg.len() == 2 {
            read_args(p, args, at + 1, true)
        } else {
            match (if arg[1] == '-' {
                read_long(p, arg, next)
            } else {
                read_shorts(p, arg, 1, next)
            }) {
                Err(e) => Err(e),
                Ok(a) => read_args(
                    a.partial,
                    args,
                    if a.took_next && at + 1 < args.len() {
                        at + 2
                    } else {
                        at + 1
                    },
                    false,
                ),
            }
        }
    }
}

/// The options that a command line stands for. The first argument is the name
/// of the program.
pub open spec fn parse_args(args: Seq<Seq<char>>) -> Result<CliView, CliErrorView> {
    match read_args(Partial::empty(), args, 1, false) {
        Ok(p) => Ok(p.finish()),
        Err(e) => Err(e),
    }
}

/// The views of a vector of string slices.
pub open spec fn arg_views(args: Seq<&str>) -> Seq<Seq<char>> {
    Seq::new(args.len(), |i: int| args[i]@)
}

/// The options while they are read.
struct Reading {
    resources: Vec<String>,
    selector: Option<String>,
    namespace: Option<String>,
    container: Option<String>,
    context: Option<String>,
    tail: Option<i64>,
    verbose: bool,
    grep: Option<String>,
    no_tui: bool,
    buffer_size: Option<usize>,
}

impl View for Reading {
    type V = Partial;

    closed spec fn view(&self) -> Partial {
        Partial {
            resources: views(self.resources@),
            selector: opt_view(self.selector),
            namespace: opt_view(self.namespace),
            container: opt_view(self.container),
            context: opt_view(self.context),
            tail: self.tail,
            verbose: self.verbose,
            grep: opt_view(self.grep),
            no_tui: self.no_tui,
            buffer_size: self.buffer_size,
        }
    }
}

/// What reading one argument gives.
struct Step {
    reading: Reading,
    took_next: bool,
}

/// A reading result as contracts see it.
spec fn step_view(r: Result<Step, CliError>) -> Result<Advance, CliErrorView> {
    match r {
        Ok(s) => Ok(Advance { partial: s.reading@, took_next: s.took_next }),
        Err(e) => Err(e@),
    }
}

spec fn reading_view(r: Result<Reading, CliError>) -> Result<Partial, CliErrorView> {
    match r {
        Ok(s) => Ok(s@),
        Err(e) => Err(e@),
    }
}

impl Reading {
    fn has(&self, option: CliOption) -> (r: bool)
        ensures
            r == self@.has(option),
    {
        match option {
            CliOption::Selector => self.selector.is_some(),
            CliOption::Namespace => self.namespace.is_some(),
            CliOption::Container => self.container.is_some(),
            CliOption::Context => self.context.is_some(),
            CliOption::Tail => self.tail.is_some(),
            CliOption::Verbose => self.verbose,
            CliOption::Grep => self.grep.is_some(),
            CliOption::NoTui => self.no_tui,
            CliOption::BufferSize => self.buffer_size.is_some(),
            CliOption::Help => false,
        }
    }

    fn with_value(self, option: CliOption, written: String, value: String) -> (r: Result<
        Reading,
        CliError,
    >)
        ensures
            reading_view(r) == self@.with_value(option, written@, value@),
    {
        if self.has(option) {
            return Err(CliError::Repeated(written));
        }
        let mut reading = self;
        match option {
            CliOption::Selector => {
                reading.selector = Some(value);
            },
            CliOption::Namespace => {
                reading.namespace = Some(value);
            },
            CliOption::Container => {
                reading.container = Some(value);
            },
            CliOption::Context => {
                reading.context = Some(value);
            },
            CliOption::Grep => {
                reading.grep = Some(value);
            },
            CliOption::Tail => match parse_i64(value.as_str()) {
                Some(n) => {
                    reading.tail = Some(n);
                },
                None => {
                    return Err(CliError::InvalidNumber { option: written, value });
                },
            },
            CliOption::BufferSize => match parse_usize(value.as_str()) {
                Some(n) => {
                    reading.buffer_size = Some(n);
                },
                None => {
                    return Err(CliError::InvalidNumber { option: written, value });
                },
            },
            _ => {},
        }
        Ok(reading)
    }

    fn with_flag(self, option: CliOption, written: String) -> (r: Result<Reading, CliError>)
        ensures
            reading_view(r) == self@.with_flag(option, written@),
    {
        match option {
            CliOption::Help => {
                return Err(CliError::HelpRequested);
            },
            _ => {},
        }
        if self.has(option) {
            return Err(CliError::Repeated(written));
        }
        let mut reading = self;
        match option {
            CliOption::Verbose => {
                reading.verbose = true;
            },
            CliOption::NoTui => {
                reading.no_tui = true;
            },
            _ => {},
        }
        Ok(reading)
    }
}

/// The characters of an optional argument.
spec fn next_view(next: Option<Vec<char>>) -> Option<Seq<char>> {
    match next {
        Some(v) => Some(v@),
        None => None,
    }
}

/// Whether an argument can be the value of the option before it.
fn usable_as_value(arg: &Vec<char>) -> (r: bool)
    ensures
        r == can_be_value(arg@),
{
    !(arg.len() >= 2 && arg[0] == '-')
}

/// Gives `option` its value: what stands in the argument from `from` on, if
/// `attached`, else the next argument.
fn take_value(
    reading: Reading,
    option: CliOption,
    written: String,
    arg: &Vec<char>,
    attached: bool,
    from: usize,
    next: &Option<Vec<char>>,
) -> (r: Result<Step, CliError>)
    requires
        from <= arg@.len(),
    ensures
        step_view(r) == (if attached {
            match reading@.with_value(option, written@, arg@.subrange(from as int, arg@.len() as int)) {
                Ok(q) => Ok(Advance { partial: q, took_next: false }),
                Err(e) => Err(e),
            }
        } else {
            match *next {
                Some(v) => if can_be_value(v@) {
                    match reading@.with_value(option, written@, v@) {
                        Ok(q) => Ok(Advance { partial: q, took_next: true }),
                        Err(e) => Err(e),
                    }
                } else {
                    Err(CliErrorView::MissingValue(written@))
                },
                None => Err(CliErrorView::MissingValue(written@)),
            }
        }),
{
    if attached {
        match reading.with_value(option, written, string_of(arg, from, arg.len())) {
            Ok(q) => Ok(Step { reading: q, took_next: false }),
            Err(e) => Err(e),
        }
    } else {
        match next {
            Some(v) => {
                if usable_as_value(v) {
                    proof {
                        assert(v@.subrange(0, v@.len() as int) =~= v@);
                    }
                    match reading.with_value(option, written, string_of(v, 0, v.len())) {
                        Ok(q) => Ok(Step { reading: q, took_next: true }),
                        Err(e) => Err(e),
                    }
                } else {
                    Err(CliError::MissingValue(written))
                }
            },
            None => Err(CliError::MissingValue(written)),
        }
    }
}

fn long_option(reading: Reading, arg: &Vec<char>, next: &Option<Vec<char>>) -> (r: Result<
    Step,
    CliError,
>)
    requires
        arg@.len() >= 2,
    ensures
        step_view(r) == read_long(reading@, arg@, next_view(*next)),
{
    let eq = find_char(arg, '=', 2);
    let written = string_of(arg, 0, eq);
    let name = string_of(arg, 2, eq);
    match CliOption::from_long(name.as_str()) {
        None => Err(CliError::UnknownOption(written)),
        Some(option) => {
            if option.with_value() {
                let attached = eq < arg.len();
                let from = if attached {
                    eq + 1
                } else {
                    eq
                };
                take_value(reading, option, written, arg, attached, from, next)
            } else if eq < arg.len() {
                Err(CliError::UnexpectedValue(written))
            } else {
                match reading.with_flag(option, written) {
                    Ok(q) => Ok(Step { reading: q, took_next: false }),
                    Err(e) => Err(e),
                }
            }
        },
    }
}

#[verifier::loop_isolation(false)]
fn short_options(reading: Reading, arg: &Vec<char>, next: &Option<Vec<char>>) -> (r: Result<
    Step,
    CliError,
>)
    ensures
        step_view(r) == read_shorts(reading@, arg@, 1, next_view(*next)),
{
    let ghost goal = read_shorts(reading@, arg@, 1, next_view(*next));
    let mut reading = reading;
    let mut at: usize = 1;
    while at < arg.len()
        invariant
            1 <= at,
            goal == read_shorts(reading@, arg@, at as int, next_view(*next)),
        decreases arg.len() - at,
    {
        let c = arg[at];
        let mut written = String::from_str("-");
        written.push(c);
        proof {
            reveal_strlit("-");
            assert(written@ =~= short_written(c));
        }
        match CliOption::from_short(c) {
            None => {
                return Err(CliError::UnknownOption(written));
            },
            Some(option) => {
                if option.with_value() {
                    let attached = at + 1 < arg.len();
                    let from = if attached {
                        if arg[at + 1] == '=' {
                            at + 2
                        } else {
                            at + 1
                        }
                    } else {
                        at
                    };
                    return take_value(reading, option, written, arg, attached, from, next);
                } else {
                    match reading.with_flag(option, written) {
                        Ok(q) => {
                            reading = q;
                        },
                        Err(e) => {
                            return Err(e);
                        },
                    }
                }
            },
        }
        at = at + 1;
    }
    Ok(Step { reading, took_next: false })
}

impl Cli {
    /// Reads a command line; the first argument is the name of the program.
    ///
    /// Options are `-l`/`--selector`, `-n`/`--namespace`, `-c`/`--container`,
    /// `--context`, `--tail`, `-g`/`--grep` and `--buffer-size`, each with a
    /// value, and the flags `-v`/`--verbose` and `--no-tui` (also
    /// `--plain-output`). A value follows its option as the next argument, or
    /// after `=`, or, for a short option, directly. Every other argument names
    /// a resource, and so does everything after `--`.
    #[verifier::loop_isolation(false)]
    pub fn try_parse_from(args: Vec<&str>) -> (r: Result<Cli, CliError>)
        ensures
            match r {
                Ok(cli) => parse_args(arg_views(args@)) == Ok::<_, CliErrorView>(cli@),
                Err(e) => parse_args(arg_views(args@)) == Err::<CliView, _>(e@),
            },
    {
        let ghost all = arg_views(args@);
        let ghost goal = read_args(Partial::empty(), all, 1, false);
        let mut reading = Reading {
            resources: Vec::new(),
            selector: None,
            namespace: None,
            container: None,
            context: None,
            tail: None,
            verbose: false,
            grep: None,
            no_tui: false,
            buffer_size: None,
        };
        proof {
            assert(reading@.resources =~= Seq::empty());
        }
        let mut only_resources = false;
        let mut at: usize = 1;
        while at < args.len()
            invariant
                1 <= at,
                all == arg_views(args@),
                goal == read_args(reading@, all, at as int, only_resources),
            decreases args.len() - at,
        {
            let arg = chars_of(args[at]);
            let next: Option<Vec<char>> = if at + 1 < args.len() {
                Some(chars_of(args[at + 1]))
            } else {
                None
            };
            proof {
                assert(all[at as int] == arg@);
            }
            if only_resources || !(arg.len() >= 2 && arg[0] == '-') {
                let ghost before = reading@.resources;
                reading.resources.push(String::from_str(args[at]));
                proof {
                    assert(reading@.resources =~= before.push(arg@));
                }
                at = at + 1;
            } else if arg[1] == '-' && arg.len() == 2 {
                only_resources = true;
                at = at + 1;
            } else {
                let step = if arg[1] == '-' {
                    long_option(reading, &arg, &next)
                } else {
                    short_options(reading, &arg, &next)
                };
                match step {
                    Err(e) => {
                        return Err(e);
                    },
                    Ok(s) => {
                        reading = s.reading;
                        at = if s.took_next && at + 1 < args.len() {
                            at + 2
                        } else {
                            at + 1
                        };
                    },
                }
            }
        }
        let cli = Cli {
            resources: reading.resources,
            selector: reading.selector,
            namespace: reading.namespace,
            container: reading.container,
            context: reading.context,
            tail: reading.tail,
            verbose: reading.verbose,
            grep: reading.grep,
            no_tui: reading.no_tui,
            buffer_size: match reading.buffer_size {
                Some(n) => n,
                None => DEFAULT_BUFFER_SIZE,
            },
        };
        Ok(cli)
    }
}

} // verus!
