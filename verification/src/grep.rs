//! Regular expressions over log lines.

use crate::resolver::ConfigError;
use vstd::prelude::*;
use vstd::string::*;

verus! {

/// A compiled regular expression of the regex crate, carried as it is.
#[verifier::external_type_specification]
#[verifier::external_body]
pub struct ExRegex(regex::Regex);

/// The error with which the regex crate turns a pattern down, carried as it
/// is.
#[verifier::external_type_specification]
#[verifier::external_body]
pub struct ExRegexError(regex::Error);

/// Whether `Regex::new` accepts the pattern.
pub uninterp spec fn pattern_compiles(pattern: Seq<char>) -> bool;

/// Whether the regular expression compiled from `pattern` matches anywhere in
/// `text`.
pub uninterp spec fn pattern_accepts(pattern: Seq<char>, text: Seq<char>) -> bool;

/// `text` without the matches of the regular expression compiled from
/// `pattern`.
pub uninterp spec fn pattern_removed(pattern: Seq<char>, text: Seq<char>) -> Seq<char>;

/// The matches, one after the other, of the regular expression compiled from
/// `pattern` in `text`: for each the byte offsets of its start and its end.
pub uninterp spec fn pattern_ranges(pattern: Seq<char>, text: Seq<char>) -> Seq<(usize, usize)>;

/// A compiled regular expression together with the pattern it was compiled
/// from. The two are made together, by `Grep::compile`, and in no other way.
pub struct Grep {
    source: String,
    regex: regex::Regex,
}

impl Grep {
    /// The pattern that was compiled.
    pub closed spec fn source(&self) -> Seq<char> {
        self.source@
    }

    /// `Regex::new`: whether a pattern compiles depends on the pattern alone.
    /// What compiled is kept together with its pattern.
    #[verifier::external_body]
    fn build(pattern: &str) -> (r: Result<Grep, regex::Error>)
        ensures
            r is Ok <==> pattern_compiles(pattern@),
            r matches Ok(g) ==> g.source() == pattern@,
    {
        match regex::Regex::new(pattern) {
            Ok(regex) => Ok(Grep { source: pattern.to_string(), regex }),
            Err(error) => Err(error),
        }
    }

    /// `Error::to_string`: the reason for which a pattern was turned down, in
    /// words. Nothing is claimed of the words.
    #[verifier::external_body]
    fn reason(error: &regex::Error) -> (r: String) {
        error.to_string()
    }

    /// `Regex::is_match`, on the expression that `build` made from the
    /// pattern: the answer depends on the pattern and the text alone.
    #[verifier::external_body]
    fn is_match(&self, text: &str) -> (r: bool)
        ensures
            r == pattern_accepts(self.source(), text@),
    {
        self.regex.is_match(text)
    }

    /// `Regex::replace_all` with an empty replacement, on the expression that
    /// `build` made from the pattern: the result depends on the pattern and
    /// the text alone.
    #[verifier::external_body]
    fn replace_all(&self, text: &str) -> (r: String)
        ensures
            r@ == pattern_removed(self.source(), text@),
    {
        self.regex.replace_all(text, "").to_string()
    }

    /// `Regex::find_iter`, on the expression that `build` made from the
    /// pattern, with the start and the end of each match: the matches depend
    /// on the pattern and the text alone.
    #[verifier::external_body]
    fn find_iter(&self, text: &str) -> (r: Vec<(usize, usize)>)
        ensures
            r@ == pattern_ranges(self.source(), text@),
    {
        self.regex.find_iter(text).map(|m| (m.start(), m.end())).collect()
    }

    /// Compiles a pattern. A pattern that `Regex::new` turns down is a
    /// configuration error that names the pattern and gives the reason in the
    /// regex crate's words.
    pub fn compile(pattern: &str) -> (r: Result<Grep, ConfigError>)
        ensures
            match r {
                Ok(g) => pattern_compiles(pattern@) && g.source() == pattern@,
                Err(e) => !pattern_compiles(pattern@) && e@ is InvalidRegex && e@->pattern
                    == pattern@,
            },
    {
        match Self::build(pattern) {
            Ok(g) => Ok(g),
            Err(error) => Err(
                ConfigError::InvalidRegex {
                    pattern: String::from_str(pattern),
                    reason: Self::reason(&error),
                },
            ),
        }
    }

    /// Compiles a pattern so that it matches without regard to case.
    pub fn compile_ignoring_case(pattern: &str) -> (r: Option<Grep>)
        ensures
            match r {
                Some(g) => pattern_compiles("(?i)"@ + pattern@) && g.source() == "(?i)"@
                    + pattern@,
                None => !pattern_compiles("(?i)"@ + pattern@),
            },
    {
        let mut source = String::from_str("(?i)");
        source.append(pattern);
        match Self::compile(source.as_str()) {
            Ok(g) => Some(g),
            Err(_) => None,
        }
    }

    /// Whether the expression matches anywhere in `text`.
    pub fn matches(&self, text: &str) -> (r: bool)
        ensures
            r == pattern_accepts(self.source(), text@),
    {
        self.is_match(text)
    }

    /// Where the expression matches in `text`: the byte offsets of the start
    /// and the end of each match, one match after the other.
    pub fn ranges(&self, text: &str) -> (r: Vec<(usize, usize)>)
        ensures
            r@ == pattern_ranges(self.source(), text@),
    {
        self.find_iter(text)
    }

    /// `text` without what the expression matches.
    pub fn remove_matches(&self, text: &str) -> (r: String)
        ensures
            r@ == pattern_removed(self.source(), text@),
    {
        self.replace_all(text)
    }
}

/// Whether a line is shown under an optional filter: without a filter every
/// line is shown, with one only the lines it matches.
pub open spec fn shown(filter: Option<Grep>, line: Seq<char>) -> bool {
    match filter {
        Some(g) => pattern_accepts(g.source(), line),
        None => true,
    }
}

/// Whether a line is shown under an optional filter.
pub fn line_passes(filter: &Option<Grep>, line: &str) -> (r: bool)
    ensures
        r == shown(*filter, line@),
{
    match filter {
        Some(g) => g.matches(line),
        None => true,
    }
}

/// The filter of an invocation: none without `--grep`, else the compiled
/// pattern; a pattern that does not compile is a configuration error.
pub fn grep_filter(pattern: &Option<String>) -> (r: Result<Option<Grep>, ConfigError>)
    ensures
        match r {
            Ok(None) => pattern is None,
            Ok(Some(g)) => pattern matches Some(p) && pattern_compiles(p@) && g.source() == p@,
            Err(e) => pattern matches Some(p) && !pattern_compiles(p@) && e@ is InvalidRegex
                && e@->pattern == p@,
        },
{
    match pattern {
        None => Ok(None),
        Some(p) => match Grep::compile(p.as_str()) {
            Ok(g) => Ok(Some(g)),
            Err(e) => Err(e),
        },
    }
}

} // verus!
