//! Resource references, selector rendering and colour choice.

use crate::grep::{pattern_compiles, pattern_removed, Grep};
use crate::order::sorted_set;
use crate::resolver::ResourceKind;
use crate::text::{join, split, split_str, views};
use crate::types::{opt_view, ResourceSpec, ResourceSpecView};
use k8s_openapi::apimachinery::pkg::apis::meta::v1::LabelSelector as Selector;
use k8s_openapi::apimachinery::pkg::apis::meta::v1::LabelSelectorRequirement as Requirement;
use vstd::prelude::*;
use vstd::string::*;

verus! {

/// The reference that one to four `/`-separated parts stand for. The last
/// part is the name. Of two parts the first is the kind if it names one, and
/// the namespace if it does not. Of three parts the first is the namespace
/// and the second the kind; of four the first is the context.
pub open spec fn resource_spec_of(parts: Seq<Seq<char>>) -> ResourceSpecView
    recommends
        1 <= parts.len() <= 4,
{
    let n = parts.len() as int;
    if n == 2 {
        if ResourceKind::of(parts[0]) is Some {
            ResourceSpecView { context: None, namespace: None, kind: Some(parts[0]), name: parts[1] }
        } else {
            ResourceSpecView { context: None, namespace: Some(parts[0]), kind: None, name: parts[1] }
        }
    } else {
        ResourceSpecView {
            context: if n >= 4 {
                Some(parts[n - 4])
            } else {
                None
            },
            namespace: if n >= 3 {
                Some(parts[n - 3])
            } else {
                None
            },
            kind: if n >= 3 {
                Some(parts[n - 2])
            } else {
                None
            },
            name: parts[n - 1],
        }
    }
}

/// The message for a reference with more than four parts.
pub open spec fn invalid_spec_message(spec: Seq<char>) -> Seq<char> {
    "Invalid resource spec '"@ + spec + "': expected 1-4 parts separated by '/'"@
}

/// Parses a resource reference of the form `[context/][namespace/][kind/]name`.
///
/// One part is a name (a pod, when no kind is given). Two parts are
/// `kind/name` where the first names a kind, as in `deployment/web`, and
/// `namespace/name` where it does not, as in `prod/web`. Three parts are
/// `namespace/kind/name`, four `context/namespace/kind/name`. More than four
/// parts are rejected.
pub fn parse_resource_spec(spec: &str) -> (r: Result<ResourceSpec, String>)
    ensures
        match r {
            Ok(parsed) => split(spec@, '/').len() <= 4 && parsed@ == resource_spec_of(
                split(spec@, '/'),
            ),
            Err(message) => split(spec@, '/').len() > 4 && message@ == invalid_spec_message(spec@),
        },
{
    let mut parts = split_str(spec, '/');
    let ghost pieces = views(parts@);
    let n = parts.len();
    if n > 4 {
        let mut message = String::from_str("Invalid resource spec '");
        message.append(spec);
        message.append("': expected 1-4 parts separated by '/'");
        return Err(message);
    }
    let name = parts.pop().unwrap();
    let second = parts.pop();
    let namespace = parts.pop();
    let context = parts.pop();
    let parsed = if n == 2 {
        match second {
            Some(first) => {
                if ResourceKind::parse(first.as_str()).is_some() {
                    ResourceSpec { context: None, namespace: None, kind: Some(first), name }
                } else {
                    ResourceSpec { context: None, namespace: Some(first), kind: None, name }
                }
            },
            None => ResourceSpec { context: None, namespace: None, kind: None, name },
        }
    } else {
        ResourceSpec { context, namespace, kind: second, name }
    };
    proof {
        assert(parsed@.name == pieces[n - 1]);
        if n >= 3 {
            assert(parsed@.kind == Some(pieces[n - 2]));
            assert(parsed@.namespace == Some(pieces[n - 3]));
        }
        if n >= 4 {
            assert(parsed@.context == Some(pieces[n - 4]));
        }
    }
    Ok(parsed)
}

/// One set-based requirement of a label selector: a key, an operator (`In`,
/// `NotIn`, `Exists` or `DoesNotExist`) and the values the operator takes.
#[derive(Debug)]
pub struct LabelSelectorRequirement {
    pub key: String,
    pub operator: String,
    pub values: Option<Vec<String>>,
}

/// A label selector as controllers carry it: required label values and
/// set-based requirements.
#[derive(Debug)]
pub struct LabelSelector {
    pub match_labels: Option<Vec<(String, String)>>,
    pub match_expressions: Option<Vec<LabelSelectorRequirement>>,
}

/// What a `LabelSelectorRequirement` is in contracts.
pub struct RequirementView {
    pub key: Seq<char>,
    pub operator: Seq<char>,
    pub values: Option<Seq<Seq<char>>>,
}

/// What a `LabelSelector` is in contracts.
pub struct LabelSelectorView {
    pub match_labels: Option<Seq<(Seq<char>, Seq<char>)>>,
    pub match_expressions: Option<Seq<RequirementView>>,
}

impl View for LabelSelectorRequirement {
    type V = RequirementView;

    open spec fn view(&self) -> RequirementView {
        RequirementView {
            key: self.key@,
            operator: self.operator@,
            values: match self.values {
                Some(v) => Some(views(v@)),
                None => None,
            },
        }
    }
}

impl View for LabelSelector {
    type V = LabelSelectorView;

    open spec fn view(&self) -> LabelSelectorView {
        LabelSelectorView {
            match_labels: match self.match_labels {
                Some(l) => Some(Seq::new(l@.len(), |i: int| (l@[i].0@, l@[i].1@))),
                None => None,
            },
            match_expressions: match self.match_expressions {
                Some(e) => Some(Seq::new(e@.len(), |i: int| e@[i]@)),
                None => None,
            },
        }
    }
}

impl LabelSelectorView {
    /// A selector with no label and no requirement. It would match every pod.
    pub open spec fn is_empty(self) -> bool {
        &&& self.match_labels matches Some(l) ==> l.len() == 0
        &&& self.match_expressions matches Some(e) ==> e.len() == 0
    }

    /// The labels of the selector; none where it has none.
    pub open spec fn labels(self) -> Seq<(Seq<char>, Seq<char>)> {
        match self.match_labels {
            Some(l) => l,
            None => Seq::empty(),
        }
    }

    /// The requirements of the selector; none where it has none.
    pub open spec fn requirements(self) -> Seq<RequirementView> {
        match self.match_expressions {
            Some(e) => e,
            None => Seq::empty(),
        }
    }

    /// The labels are a map: no key occurs twice.
    pub open spec fn wf(self) -> bool {
        forall|i: int, j: int|
            0 <= i < j < self.labels().len() ==> (#[trigger] self.labels()[i]).0 != (
            #[trigger] self.labels()[j]).0
    }
}

/// The keys of the labels.
pub open spec fn label_keys(labels: Seq<(Seq<char>, Seq<char>)>) -> Seq<Seq<char>> {
    Seq::new(labels.len(), |i: int| labels[i].0)
}

/// The value that the labels give to `key`: that of the first label with the
/// key.
pub open spec fn label_value(labels: Seq<(Seq<char>, Seq<char>)>, key: Seq<char>, from: int) -> Seq<
    char,
>
    decreases labels.len() - from,
{
    if from < 0 || from >= labels.len() {
        Seq::empty()
    } else if labels[from].0 == key {
        labels[from].1
    } else {
        label_value(labels, key, from + 1)
    }
}

/// The terms of the labels: an equality for each, in the order of the keys.
pub open spec fn label_terms(labels: Seq<(Seq<char>, Seq<char>)>) -> Seq<SelectorExpr> {
    let keys = sorted_set(label_keys(labels));
    Seq::new(keys.len(), |i: int| SelectorExpr::Equal(keys[i], label_value(labels, keys[i], 0)))
}

/// The term of a requirement. `In` and `NotIn` take their values as a set, in
/// the order of strings, and need to have values; `Exists` and `DoesNotExist`
/// take none. Any other operator makes no term.
pub open spec fn requirement_term(r: RequirementView) -> Option<SelectorExpr> {
    if r.operator == "In"@ {
        match r.values {
            Some(v) => Some(SelectorExpr::In(r.key, sorted_set(v))),
            None => None,
        }
    } else if r.operator == "NotIn"@ {
        match r.values {
            Some(v) => Some(SelectorExpr::NotIn(r.key, sorted_set(v))),
            None => None,
        }
    } else if r.operator == "Exists"@ {
        Some(SelectorExpr::Exists(r.key))
    } else if r.operator == "DoesNotExist"@ {
        Some(SelectorExpr::DoesNotExist(r.key))
    } else {
        None
    }
}

/// The terms of the requirements, in their order; none at all where one of
/// them makes no term.
pub open spec fn requirement_terms(rs: Seq<RequirementView>) -> Option<Seq<SelectorExpr>>
    decreases rs.len(),
{
    if rs.len() == 0 {
        Some(Seq::empty())
    } else {
        match (requirement_terms(rs.drop_last()), requirement_term(rs.last())) {
            (Some(terms), Some(term)) => Some(terms.push(term)),
            _ => None,
        }
    }
}

/// The terms of a selector: those of its labels, then those of its
/// requirements.
pub open spec fn typed_terms(selector: LabelSelectorView) -> Option<Seq<SelectorExpr>> {
    match requirement_terms(selector.requirements()) {
        Some(terms) => Some(label_terms(selector.labels()) + terms),
        None => None,
    }
}

/// One term of a typed selector.
pub enum SelectorExpr {
    /// The key exists and its value is one of these.
    In(Seq<char>, Seq<Seq<char>>),
    /// The key does not exist or its value is none of these.
    NotIn(Seq<char>, Seq<Seq<char>>),
    /// The key exists with this value.
    Equal(Seq<char>, Seq<char>),
    /// The key does not exist or has another value.
    NotEqual(Seq<char>, Seq<char>),
    /// The key exists.
    Exists(Seq<char>),
    /// The key does not exist.
    DoesNotExist(Seq<char>),
}

/// The text of one term, as the API takes it.
pub open spec fn render_expr(e: SelectorExpr) -> Seq<char> {
    match e {
        SelectorExpr::In(key, values) => key + " in ("@ + join(values, ","@) + ")"@,
        SelectorExpr::NotIn(key, values) => key + " notin ("@ + join(values, ","@) + ")"@,
        SelectorExpr::Equal(key, value) => key + "="@ + value,
        SelectorExpr::NotEqual(key, value) => key + "!="@ + value,
        SelectorExpr::Exists(key) => key,
        SelectorExpr::DoesNotExist(key) => "!"@ + key,
    }
}

/// The text of a whole selector: its terms, separated by commas.
pub open spec fn render_selector(terms: Seq<SelectorExpr>) -> Seq<char> {
    join(terms.map_values(|e: SelectorExpr| render_expr(e)), ","@)
}

/// A typed selector of the kube crate, carried as it is.
#[verifier::external_type_specification]
#[verifier::external_body]
pub struct ExSelector(kube::core::Selector);

/// The error with which the kube crate turns a requirement down, carried as
/// it is.
#[verifier::external_type_specification]
#[verifier::external_body]
pub struct ExParseExpressionError(kube::core::ParseExpressionError);

/// The terms that a typed selector holds, in the order in which it renders them.
pub uninterp spec fn selector_terms(selector: kube::core::Selector) -> Seq<SelectorExpr>;

/// The terms that kube's conversion makes of a label selector: the labels as
/// equalities first, then the requirements; `None` where the conversion fails.
pub uninterp spec fn converted_terms(selector: LabelSelectorView) -> Option<Seq<SelectorExpr>>;

/// `Selector::try_from` on the selector that holds the same labels and
/// requirements. The result is a function of the argument, named
/// `converted_terms`. Where no label key occurs twice it is what `typed_terms`
/// says: the labels become equalities in the order of their keys, the
/// requirements follow in their own order, and a requirement with an unknown
/// operator, or with `In` or `NotIn` and no values, fails the conversion.
#[verifier::external_body]
fn convert_selector(selector: &LabelSelector) -> (r: Result<
    kube::core::Selector,
    kube::core::ParseExpressionError,
>)
    ensures
        match r {
            Ok(s) => converted_terms(selector@) == Some(selector_terms(s)),
            Err(_) => converted_terms(selector@) is None,
        },
        selector@.wf() ==> (match r {
            Ok(s) => Some(selector_terms(s)),
            Err(_) => None,
        }) == typed_terms(selector@),
{
    let labels = selector.match_labels.as_ref().map(|l| l.iter().cloned().collect());
    let exprs = selector.match_expressions.as_ref().map(
        |v|
            v.iter().map(
                |r| Requirement { key: r.key.clone(), operator: r.operator.clone(), values: r.values.clone() },
            ).collect(),
    );
    kube::core::Selector::try_from(Selector { match_labels: labels, match_expressions: exprs })
}

/// `Selector::selects_all`: whether the selector holds no term.
pub assume_specification[ kube::core::Selector::selects_all ](
    selector: &kube::core::Selector,
) -> (r: bool)
    ensures
        r == (selector_terms(*selector).len() == 0),
;

/// `Selector::to_string`: each term in its API form, joined by commas.
#[verifier::external_body]
fn selector_string(selector: &kube::core::Selector) -> (r: String)
    ensures
        r@ == render_selector(selector_terms(*selector)),
{
    selector.to_string()
}

/// The API text of a converted selector: none where the conversion failed or
/// the selector has no term.
pub open spec fn terms_text(terms: Option<Seq<SelectorExpr>>) -> Option<Seq<char>> {
    match terms {
        Some(t) => if t.len() == 0 {
            None
        } else {
            Some(render_selector(t))
        },
        None => None,
    }
}

/// The API text of a label selector, if it has one. For a selector whose
/// labels are a map it is the text of the terms that `typed_terms` gives: `k=v`
/// for each label in the order of the keys, then the requirements. Where a
/// label key occurs twice, it is the text of what the conversion makes of the
/// selector.
pub open spec fn selector_text(selector: LabelSelectorView) -> Option<Seq<char>> {
    if selector.wf() {
        terms_text(typed_terms(selector))
    } else {
        terms_text(converted_terms(selector))
    }
}

/// The API text of what a conversion gave: none where it failed, none for a
/// selector without terms, which would match every pod.
pub fn selector_labels(
    converted: Result<kube::core::Selector, kube::core::ParseExpressionError>,
) -> (r: Option<String>)
    ensures
        opt_view(r) == terms_text(
            match converted {
                Ok(s) => Some(selector_terms(s)),
                Err(_) => None,
            },
        ),
{
    match converted {
        Ok(selector) => {
            if selector.selects_all() {
                None
            } else {
                Some(selector_string(&selector))
            }
        },
        Err(_) => None,
    }
}

/// Renders a label selector to the comma-separated form that the API takes for
/// server-side filtering: `k=v` for each label, in the order of the keys, then
/// `k in (v1,v2)`, `k notin (v1,v2)`, `k` and `!k` for the requirements. A
/// selector that cannot be converted has no text, and neither has an empty
/// one: it is never turned into a match-all.
pub fn selector_to_labels_string(selector: &LabelSelector) -> (r: Option<String>)
    ensures
        opt_view(r) == selector_text(selector@),
        selector@.is_empty() ==> r is None,
{
    proof {
        if selector@.is_empty() {
            lemma_empty_selector(selector@);
        }
    }
    selector_labels(convert_selector(selector))
}

/// A selector without labels and requirements has no terms.
pub proof fn lemma_empty_selector(selector: LabelSelectorView)
    requires
        selector.is_empty(),
    ensures
        selector.wf(),
        typed_terms(selector) == Some(Seq::<SelectorExpr>::empty()),
        terms_text(typed_terms(selector)) is None,
{
    assert(label_keys(selector.labels()) =~= Seq::empty());
    assert(label_terms(selector.labels()) =~= Seq::empty());
    assert(label_terms(selector.labels()) + Seq::<SelectorExpr>::empty() =~= Seq::<
        SelectorExpr,
    >::empty());
}

/// Only a selector without labels and requirements has no terms: whatever
/// else converts has a text.
pub proof fn lemma_only_empty_selector_has_no_text(selector: LabelSelectorView)
    requires
        !selector.is_empty(),
        typed_terms(selector) is Some,
    ensures
        typed_terms(selector)->Some_0.len() > 0,
        terms_text(typed_terms(selector)) is Some,
{
    let labels = selector.labels();
    let rs = selector.requirements();
    if rs.len() > 0 {
        assert(requirement_terms(rs)->Some_0.len() > 0);
    } else {
        assert(labels.len() > 0);
        crate::order::lemma_sorted_set(label_keys(labels));
        assert(label_keys(labels)[0] == labels[0].0);
        assert(label_keys(labels).contains(labels[0].0));
        assert(sorted_set(label_keys(labels)).contains(labels[0].0));
        assert(label_terms(labels).len() > 0);
    }
}

/// The colours that prefixes and widgets are drawn in.
#[derive(Clone, Copy, Debug, PartialEq, Eq, Structural)]
pub enum Color {
    Black,
    Red,
    Green,
    Yellow,
    Blue,
    Magenta,
    Cyan,
    Gray,
    DarkGray,
    LightRed,
    LightGreen,
    LightYellow,
    LightBlue,
    LightMagenta,
    LightCyan,
    White,
    /// A colour of the terminal's palette, by its number.
    Indexed(u8),
}

/// The number of colours to choose from.
pub const PALETTE_SIZE: usize = 14;

/// The colours of the terminal UI, in the order in which hashes choose them.
pub open spec fn tui_palette() -> Seq<Color> {
    seq![
        Color::Red,
        Color::Green,
        Color::Blue,
        Color::Yellow,
        Color::Magenta,
        Color::Cyan,
        Color::White,
        Color::Gray,
        Color::LightRed,
        Color::LightGreen,
        Color::LightBlue,
        Color::LightYellow,
        Color::LightMagenta,
        Color::LightCyan,
    ]
}

/// The colours of plain output, in the order in which hashes choose them. The
/// bright ones are given by their palette numbers.
pub open spec fn stdout_palette() -> Seq<Color> {
    seq![
        Color::Red,
        Color::Green,
        Color::Blue,
        Color::Yellow,
        Color::Magenta,
        Color::Cyan,
        Color::White,
        Color::Gray,
        Color::Indexed(91),
        Color::Indexed(92),
        Color::Indexed(94),
        Color::Indexed(93),
        Color::Indexed(95),
        Color::Indexed(96),
    ]
}

/// The place in a palette that a hash chooses: its low 32 bits, modulo the
/// size of the palette.
pub open spec fn palette_slot(hash: u64) -> int {
    (hash as int % 0x1_0000_0000) % (PALETTE_SIZE as int)
}

/// The hash of a string under the standard library's default hasher with its
/// fixed keys.
pub uninterp spec fn str_hash(s: Seq<char>) -> u64;

/// `BuildHasher::hash_one` of the default hasher with its fixed keys: it feeds
/// the string to a fresh hasher and finishes it, so equal strings hash alike.
#[verifier::external_body]
fn hash_str(s: &str) -> (h: u64)
    ensures
        h == str_hash(s@),
{
    std::hash::BuildHasher::hash_one(
        &std::hash::BuildHasherDefault::<std::collections::hash_map::DefaultHasher>::default(),
        s,
    )
}

/// The place in a palette that a hash chooses.
pub fn slot_for_hash(hash: u64) -> (i: usize)
    ensures
        i == palette_slot(hash),
        i < PALETTE_SIZE,
{
    let low: u64 = hash % 0x1_0000_0000;
    (low % 14) as usize
}

/// The terminal UI's colour for a hash.
pub fn color_for_hash(hash: u64) -> (c: Color)
    ensures
        c == tui_palette()[palette_slot(hash)],
{
    match slot_for_hash(hash) {
        0 => Color::Red,
        1 => Color::Green,
        2 => Color::Blue,
        3 => Color::Yellow,
        4 => Color::Magenta,
        5 => Color::Cyan,
        6 => Color::White,
        7 => Color::Gray,
        8 => Color::LightRed,
        9 => Color::LightGreen,
        10 => Color::LightBlue,
        11 => Color::LightYellow,
        12 => Color::LightMagenta,
        _ => Color::LightCyan,
    }
}

/// The colour of plain output for a hash.
pub fn stdout_color_for_hash(hash: u64) -> (c: Color)
    ensures
        c == stdout_palette()[palette_slot(hash)],
{
    match slot_for_hash(hash) {
        0 => Color::Red,
        1 => Color::Green,
        2 => Color::Blue,
        3 => Color::Yellow,
        4 => Color::Magenta,
        5 => Color::Cyan,
        6 => Color::White,
        7 => Color::Gray,
        8 => Color::Indexed(91),
        9 => Color::Indexed(92),
        10 => Color::Indexed(94),
        11 => Color::Indexed(93),
        12 => Color::Indexed(95),
        _ => Color::Indexed(96),
    }
}

/// The terminal UI's colour for a string, chosen by its hash: the same string
/// always gets the same colour.
pub fn get_color(s: &str) -> (c: Color)
    ensures
        c == tui_palette()[palette_slot(str_hash(s@))],
{
    color_for_hash(hash_str(s))
}

/// The colour of plain output for a string, chosen by its hash: the same
/// string always gets the same colour.
pub fn get_crossterm_color(s: &str) -> (c: Color)
    ensures
        c == stdout_palette()[palette_slot(str_hash(s@))],
{
    stdout_color_for_hash(hash_str(s))
}

/// The pattern of an ANSI escape sequence: the escape character, then either
/// one character from `@` to `_` other than `[`, or a control sequence: `[`,
/// parameter characters, intermediate characters and a final character.
pub open spec fn ansi_pattern() -> Seq<char> {
    r"\x1b(?:[@-Z\\-_]|\[[0-?]*[ -/]*[@-~])"@
}

/// Removes the ANSI escape sequences from a string.
pub fn strip_ansi_codes(s: &str) -> (r: String)
    ensures
        r@ == if pattern_compiles(ansi_pattern()) {
            pattern_removed(ansi_pattern(), s@)
        } else {
            s@
        },
{
    strip_with(Grep::compile(r"\x1b(?:[@-Z\\-_]|\[[0-?]*[ -/]*[@-~])"), s)
}

/// Removes what a compiled pattern matches from a string; without a pattern
/// the string stays as it is.
pub fn strip_with<E>(compiled: Result<Grep, E>, s: &str) -> (r: String)
    ensures
        r@ == (match compiled {
            Ok(g) => pattern_removed(g.source(), s@),
            Err(_) => s@,
        }),
{
    match compiled {
        Ok(g) => g.remove_matches(s),
        Err(_) => String::from_str(s),
    }
}

} // verus!
