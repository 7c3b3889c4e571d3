//! Reading selectors back from their API text.

use crate::order::{ascending, lemma_sorted_set, place, sorted_set};
use crate::text::{chars_of, find, find_char, join, same, split, split_str, string_of, views};
use crate::utils::{
    label_keys, label_terms, label_value, render_expr, render_selector, requirement_term,
    requirement_terms, typed_terms, LabelSelector, LabelSelectorRequirement, LabelSelectorView,
    RequirementView, SelectorExpr,
};
use vstd::prelude::*;
use vstd::string::*;

verus! {

/// Whether a character has a meaning of its own in the API text of a
/// selector.
pub open spec fn is_mark(c: char) -> bool {
    c == ',' || c == '(' || c == ')' || c == ' ' || c == '=' || c == '!'
}

/// Whether a name is free of the characters that have a meaning of their own.
pub open spec fn plain(s: Seq<char>) -> bool {
    forall|i: int| 0 <= i < s.len() ==> !is_mark(#[trigger] s[i])
}

/// Whether all names are plain.
pub open spec fn all_plain(names: Seq<Seq<char>>) -> bool {
    forall|i: int| 0 <= i < names.len() ==> plain(#[trigger] names[i])
}

/// Whether a term can be read back from its text: its key is plain and not
/// empty, its values are plain, a set of values is not empty, and it is no
/// inequality, which a label selector cannot hold.
pub open spec fn readable(e: SelectorExpr) -> bool {
    match e {
        SelectorExpr::In(key, values) => plain(key) && key.len() > 0 && values.len() > 0
            && all_plain(values),
        SelectorExpr::NotIn(key, values) => plain(key) && key.len() > 0 && values.len() > 0
            && all_plain(values),
        SelectorExpr::Equal(key, value) => plain(key) && key.len() > 0 && plain(value),
        SelectorExpr::NotEqual(_, _) => false,
        SelectorExpr::Exists(key) => plain(key) && key.len() > 0,
        SelectorExpr::DoesNotExist(key) => plain(key) && key.len() > 0,
    }
}

/// Whether all terms can be read back.
pub open spec fn all_readable(terms: Seq<SelectorExpr>) -> bool {
    forall|i: int| 0 <= i < terms.len() ==> readable(#[trigger] terms[i])
}

/// The position of the last `c` in `s` before `to`; -1 where there is none.
pub open spec fn rfind(s: Seq<char>, c: char, to: int) -> int
    decreases to,
{
    if to <= 0 || to > s.len() {
        -1
    } else if s[to - 1] == c {
        to - 1
    } else {
        rfind(s, c, to - 1)
    }
}

/// Whether `s` begins with `prefix`.
pub open spec fn starts_with(s: Seq<char>, prefix: Seq<char>) -> bool {
    s.len() >= prefix.len() && s.subrange(0, prefix.len() as int) == prefix
}

/// The term that a text stands for: `!key`, `key in (values)`,
/// `key notin (values)`, `key=value`, or `key`; none for a text of another
/// form, and none where the key is empty or a name is not plain.
pub open spec fn read_term(t: Seq<char>) -> Option<SelectorExpr> {
    match term_form(t) {
        Some(e) => if readable(e) {
            Some(e)
        } else {
            None
        },
        None => None,
    }
}

/// The term that the form of a text makes it, whatever its names are.
pub open spec fn term_form(t: Seq<char>) -> Option<SelectorExpr> {
    if t.len() == 0 {
        None
    } else if t[0] == '!' {
        Some(SelectorExpr::DoesNotExist(t.subrange(1, t.len() as int)))
    } else {
        let space = find(t, ' ', 0);
        if space < t.len() {
            let key = t.subrange(0, space);
            let rest = t.subrange(space + 1, t.len() as int);
            if rest.len() > 0 && rest.last() == ')' {
                if starts_with(rest, "in ("@) {
                    Some(
                        SelectorExpr::In(key, split(rest.subrange(4, rest.len() - 1), ',')),
                    )
                } else if starts_with(rest, "notin ("@) {
                    Some(
                        SelectorExpr::NotIn(key, split(rest.subrange(7, rest.len() - 1), ',')),
                    )
                } else {
                    None
                }
            } else {
                None
            }
        } else {
            let eq = find(t, '=', 0);
            if eq < t.len() {
                Some(SelectorExpr::Equal(t.subrange(0, eq), t.subrange(eq + 1, t.len() as int)))
            } else {
                Some(SelectorExpr::Exists(t))
            }
        }
    }
}

/// Where the last term of a text begins: after the last comma that is not
/// within the parentheses of a set of values.
pub open spec fn last_term_start(text: Seq<char>) -> int {
    if text.len() > 0 && text.last() == ')' {
        let open = rfind(text, '(', text.len() as int);
        rfind(text, ',', open) + 1
    } else {
        rfind(text, ',', text.len() as int) + 1
    }
}

/// The terms that a text stands for, read from its end: the last term, and
/// before the comma in front of it the terms before.
pub open spec fn read_terms(text: Seq<char>) -> Option<Seq<SelectorExpr>>
    decreases text.len(),
{
    if text.len() == 0 {
        Some(Seq::empty())
    } else {
        let start = last_term_start(text);
        if start < 0 || start > text.len() {
            None
        } else {
            match read_term(text.subrange(start, text.len() as int)) {
                None => None,
                Some(term) => if start == 0 {
                    Some(seq![term])
                } else {
                    match read_terms(text.subrange(0, start - 1)) {
                        Some(terms) => if terms.len() > 0 {
                            Some(terms.push(term))
                        } else {
                            None
                        },
                        None => None,
                    }
                },
            }
        }
    }
}

proof fn lemma_rfind(s: Seq<char>, c: char, to: int)
    requires
        0 <= to <= s.len(),
    ensures
        -1 <= rfind(s, c, to) < to,
        rfind(s, c, to) >= 0 ==> s[rfind(s, c, to)] == c,
        forall|j: int| rfind(s, c, to) < j < to ==> s[j] != c,
    decreases to,
{
    if to > 0 && s[to - 1] != c {
        lemma_rfind(s, c, to - 1);
    }
}

/// The last `c` before `to` is at `at`, if `c` is there and nowhere after.
proof fn lemma_rfind_at(s: Seq<char>, c: char, to: int, at: int)
    requires
        0 <= at < to <= s.len(),
        s[at] == c,
        forall|j: int| at < j < to ==> s[j] != c,
    ensures
        rfind(s, c, to) == at,
    decreases to,
{
    if s[to - 1] != c {
        lemma_rfind_at(s, c, to - 1, at);
    }
}

/// There is no `c` before `to` if it occurs nowhere there.
proof fn lemma_rfind_none(s: Seq<char>, c: char, to: int)
    requires
        0 <= to <= s.len(),
        forall|j: int| 0 <= j < to ==> s[j] != c,
    ensures
        rfind(s, c, to) == -1,
    decreases to,
{
    if to > 0 {
        lemma_rfind_none(s, c, to - 1);
    }
}

/// The first `c` at or after `from` is at `at`, if `c` is there and nowhere
/// before.
proof fn lemma_find_at(s: Seq<char>, c: char, from: int, at: int)
    requires
        0 <= from <= at < s.len(),
        s[at] == c,
        forall|j: int| from <= j < at ==> s[j] != c,
    ensures
        find(s, c, from) == at,
    decreases at - from,
{
    if from < at {
        lemma_find_at(s, c, from + 1, at);
    }
}

/// There is no `c` at or after `from` if it occurs nowhere there.
proof fn lemma_find_none(s: Seq<char>, c: char, from: int)
    requires
        0 <= from <= s.len(),
        forall|j: int| from <= j < s.len() ==> s[j] != c,
    ensures
        find(s, c, from) == s.len(),
    decreases s.len() - from,
{
    if from < s.len() {
        lemma_find_none(s, c, from + 1);
    }
}

/// Splitting what was joined gives the pieces back, if there is a piece and
/// no piece holds the separator.
pub proof fn lemma_split_join(parts: Seq<Seq<char>>, sep: char)
    requires
        parts.len() > 0,
        forall|i: int| 0 <= i < parts.len() ==> !(#[trigger] parts[i]).contains(sep),
    ensures
        split(join(parts, seq![sep]), sep) == parts,
    decreases parts.len(),
{
    if parts.len() == 1 {
        lemma_split_plain(parts[0], sep);
    } else {
        let d = parts.drop_last();
        assert forall|i: int| 0 <= i < d.len() implies !(#[trigger] d[i]).contains(sep) by {
            assert(d[i] == parts[i]);
        }
        lemma_split_join(d, sep);
        let head = join(d, seq![sep]) + seq![sep];
        assert(head.drop_last() =~= join(d, seq![sep]));
        assert(split(head, sep) == d.push(Seq::<char>::empty()));
        lemma_split_append(head, parts.last(), sep);
        assert(d.push(Seq::<char>::empty()).drop_last() =~= d);
        assert(Seq::<char>::empty() + parts.last() =~= parts.last());
        assert(d.push(parts.last()) =~= parts);
    }
}

/// A text without the separator is its own single piece.
proof fn lemma_split_plain(s: Seq<char>, sep: char)
    requires
        !s.contains(sep),
    ensures
        split(s, sep) == seq![s],
    decreases s.len(),
{
    if s.len() == 0 {
        assert(s =~= Seq::<char>::empty());
    } else {
        let d = s.drop_last();
        assert(!d.contains(sep)) by {
            if d.contains(sep) {
                let i = choose|i: int| 0 <= i < d.len() && d[i] == sep;
                assert(s[i] == sep);
            }
        }
        lemma_split_plain(d, sep);
        assert(s[s.len() - 1] != sep);
        assert(seq![d].drop_last().push(d.push(s.last())) =~= seq![s]) by {
            assert(d.push(s.last()) =~= s);
        }
    }
}

/// Appending a text without the separator lengthens the last piece.
proof fn lemma_split_append(a: Seq<char>, b: Seq<char>, sep: char)
    requires
        !b.contains(sep),
    ensures
        split(a + b, sep) == split(a, sep).drop_last().push(split(a, sep).last() + b),
    decreases b.len(),
{
    crate::text::lemma_split_nonempty(a, sep);
    if b.len() == 0 {
        assert(a + b =~= a);
        assert(split(a, sep).last() + b =~= split(a, sep).last());
        assert(split(a, sep).drop_last().push(split(a, sep).last()) =~= split(a, sep));
    } else {
        let d = b.drop_last();
        assert(!d.contains(sep)) by {
            if d.contains(sep) {
                let i = choose|i: int| 0 <= i < d.len() && d[i] == sep;
                assert(b[i] == sep);
            }
        }
        lemma_split_append(a, d, sep);
        assert((a + b).drop_last() =~= a + d);
        assert((a + b).last() == b.last());
        assert(b[b.len() - 1] != sep);
        let pieces = split(a, sep);
        let before = pieces.drop_last().push(pieces.last() + d);
        assert(before.drop_last() =~= pieces.drop_last());
        assert((pieces.last() + d).push(b.last()) =~= pieces.last() + b) by {
            assert(d.push(b.last()) =~= b);
        }
    }
}

/// Where the parenthesis of a set term opens in its text; -1 for a term that
/// has no values.
pub open spec fn opening(e: SelectorExpr) -> int {
    match e {
        SelectorExpr::In(key, _) => key.len() as int + 4,
        SelectorExpr::NotIn(key, _) => key.len() as int + 7,
        _ => -1,
    }
}

/// A plain name holds none of the characters with a meaning of their own.
proof fn lemma_plain(s: Seq<char>, c: char)
    requires
        plain(s),
        is_mark(c),
    ensures
        !s.contains(c),
        forall|j: int| 0 <= j < s.len() ==> s[j] != c,
{
    assert forall|j: int| 0 <= j < s.len() implies s[j] != c by {
        assert(!is_mark(s[j]));
    }
}

/// Plain values joined by commas hold no parenthesis.
proof fn lemma_joined_values(values: Seq<Seq<char>>, c: char)
    requires
        all_plain(values),
        is_mark(c),
        c != ',',
    ensures
        forall|j: int| 0 <= j < join(values, seq![',']).len() ==> join(values, seq![','])[j] != c,
    decreases values.len(),
{
    if values.len() == 1 {
        lemma_plain(values[0], c);
    } else if values.len() > 1 {
        let d = values.drop_last();
        assert(all_plain(d)) by {
            assert forall|i: int| 0 <= i < d.len() implies plain(#[trigger] d[i]) by {
                assert(d[i] == values[i]);
            }
        }
        lemma_joined_values(d, c);
        assert(plain(values[values.len() - 1]));
        lemma_plain(values.last(), c);
        let head = join(d, seq![',']);
        let all = join(values, seq![',']);
        assert(all == head + seq![','] + values.last());
        assert forall|j: int| 0 <= j < all.len() implies all[j] != c by {
            if j < head.len() {
                assert(all[j] == head[j]);
            } else if j > head.len() {
                assert(all[j] == values.last()[j - head.len() - 1]);
            }
        }
    }
}

/// What the text of a readable term looks like. It is not empty. The text of
/// a term with values ends with a closing parenthesis and has one opening
/// parenthesis, with no comma before it. The text of any other term holds
/// neither a comma nor a parenthesis.
proof fn lemma_term_text(e: SelectorExpr)
    requires
        readable(e),
    ensures
        render_expr(e).len() > 0,
        opening(e) >= 0 ==> opening(e) < render_expr(e).len() - 1 && render_expr(e).last() == ')'
            && render_expr(e)[opening(e)] == '(' && (forall|j: int|
            opening(e) < j < render_expr(e).len() ==> render_expr(e)[j] != '(') && (forall|j: int|
            0 <= j < opening(e) ==> render_expr(e)[j] != ','),
        opening(e) < 0 ==> (forall|j: int|
            0 <= j < render_expr(e).len() ==> render_expr(e)[j] != ',' && render_expr(e)[j] != ')'),
{
    reveal_strlit(" in (");
    reveal_strlit(" notin (");
    reveal_strlit(",");
    reveal_strlit(")");
    reveal_strlit("=");
    reveal_strlit("!=");
    reveal_strlit("!");
    let t = render_expr(e);
    match e {
        SelectorExpr::In(key, values) => {
            let inner = join(values, ","@);
            assert(","@ =~= seq![',']);
            lemma_joined_values(values, '(');
            lemma_plain(key, ',');
            assert(t =~= key + " in ("@ + inner + ")"@);
            assert forall|j: int| opening(e) < j < t.len() implies t[j] != '(' by {
                if j < t.len() - 1 {
                    assert(t[j] == inner[j - key.len() - 5]);
                }
            }
            assert forall|j: int| 0 <= j < opening(e) implies t[j] != ',' by {
                if j < key.len() {
                    assert(t[j] == key[j]);
                }
            }
        },
        SelectorExpr::NotIn(key, values) => {
            let inner = join(values, ","@);
            assert(","@ =~= seq![',']);
            lemma_joined_values(values, '(');
            lemma_plain(key, ',');
            assert(t =~= key + " notin ("@ + inner + ")"@);
            assert forall|j: int| opening(e) < j < t.len() implies t[j] != '(' by {
                if j < t.len() - 1 {
                    assert(t[j] == inner[j - key.len() - 8]);
                }
            }
            assert forall|j: int| 0 <= j < opening(e) implies t[j] != ',' by {
                if j < key.len() {
                    assert(t[j] == key[j]);
                }
            }
        },
        SelectorExpr::Equal(key, value) => {
            lemma_plain(key, ',');
            lemma_plain(key, ')');
            lemma_plain(value, ',');
            lemma_plain(value, ')');
            assert forall|j: int| 0 <= j < t.len() implies t[j] != ',' && t[j] != ')' by {
                if j < key.len() {
                    assert(t[j] == key[j]);
                } else if j > key.len() {
                    assert(t[j] == value[j - key.len() - 1]);
                }
            }
        },
        SelectorExpr::NotEqual(_, _) => {},
        SelectorExpr::Exists(key) => {
            lemma_plain(key, ',');
            lemma_plain(key, ')');
        },
        SelectorExpr::DoesNotExist(key) => {
            lemma_plain(key, ',');
            lemma_plain(key, ')');
            assert forall|j: int| 0 <= j < t.len() implies t[j] != ',' && t[j] != ')' by {
                if j > 0 {
                    assert(t[j] == key[j - 1]);
                }
            }
        },
    }
}

/// A readable term is read back from its text.
pub proof fn lemma_read_term(e: SelectorExpr)
    requires
        readable(e),
    ensures
        read_term(render_expr(e)) == Some(e),
{
    lemma_term_form(e);
}

/// The form of the text of a readable term is the term.
proof fn lemma_term_form(e: SelectorExpr)
    requires
        readable(e),
    ensures
        term_form(render_expr(e)) == Some(e),
{
    reveal_strlit(" in (");
    reveal_strlit(" notin (");
    reveal_strlit("in (");
    reveal_strlit("notin (");
    reveal_strlit(",");
    reveal_strlit(")");
    reveal_strlit("=");
    reveal_strlit("!=");
    reveal_strlit("!");
    let t = render_expr(e);
    match e {
        SelectorExpr::In(key, values) => {
            let inner = join(values, ","@);
            assert(","@ =~= seq![',']);
            lemma_plain(key, ' ');
            lemma_plain(key, '!');
            assert(t =~= key + " in ("@ + inner + ")"@);
            assert(t[0] == key[0]);
            assert(t[key.len() as int] == ' ');
            assert forall|j: int| 0 <= j < key.len() implies t[j] != ' ' by {
                assert(t[j] == key[j]);
            }
            lemma_find_at(t, ' ', 0, key.len() as int);
            let rest = t.subrange(key.len() as int + 1, t.len() as int);
            assert(rest =~= "in ("@ + inner + ")"@);
            assert(rest.subrange(0, 4) =~= "in ("@);
            assert(rest.subrange(4, rest.len() - 1) =~= inner);
            assert(t.subrange(0, key.len() as int) =~= key);
            assert forall|i: int| 0 <= i < values.len() implies !(#[trigger] values[i]).contains(
                ',',
            ) by {
                lemma_plain(values[i], ',');
            }
            lemma_split_join(values, ',');
        },
        SelectorExpr::NotIn(key, values) => {
            let inner = join(values, ","@);
            assert(","@ =~= seq![',']);
            lemma_plain(key, ' ');
            lemma_plain(key, '!');
            assert(t =~= key + " notin ("@ + inner + ")"@);
            assert(t[0] == key[0]);
            assert(t[key.len() as int] == ' ');
            assert forall|j: int| 0 <= j < key.len() implies t[j] != ' ' by {
                assert(t[j] == key[j]);
            }
            lemma_find_at(t, ' ', 0, key.len() as int);
            let rest = t.subrange(key.len() as int + 1, t.len() as int);
            assert(rest =~= "notin ("@ + inner + ")"@);
            assert(rest.subrange(0, 7) =~= "notin ("@);
            assert(rest.subrange(0, 4) != "in ("@) by {
                assert(rest.subrange(0, 4)[0] == 'n');
                assert("in ("@[0] == 'i');
            }
            assert(rest.subrange(7, rest.len() - 1) =~= inner);
            assert(t.subrange(0, key.len() as int) =~= key);
            assert forall|i: int| 0 <= i < values.len() implies !(#[trigger] values[i]).contains(
                ',',
            ) by {
                lemma_plain(values[i], ',');
            }
            lemma_split_join(values, ',');
        },
        SelectorExpr::Equal(key, value) => {
            lemma_plain(key, ' ');
            lemma_plain(key, '!');
            lemma_plain(key, '=');
            lemma_plain(value, ' ');
            assert(t =~= key + "="@ + value);
            assert(t[0] == key[0]);
            assert forall|j: int| 0 <= j < t.len() implies t[j] != ' ' by {
                if j < key.len() {
                    assert(t[j] == key[j]);
                } else if j > key.len() {
                    assert(t[j] == value[j - key.len() - 1]);
                }
            }
            lemma_find_none(t, ' ', 0);
            assert forall|j: int| 0 <= j < key.len() implies t[j] != '=' by {
                assert(t[j] == key[j]);
            }
            assert(t[key.len() as int] == '=');
            lemma_find_at(t, '=', 0, key.len() as int);
            assert(t.subrange(0, key.len() as int) =~= key);
            assert(t.subrange(key.len() as int + 1, t.len() as int) =~= value);
        },
        SelectorExpr::NotEqual(_, _) => {},
        SelectorExpr::Exists(key) => {
            lemma_plain(key, ' ');
            lemma_plain(key, '!');
            lemma_plain(key, '=');
            lemma_find_none(t, ' ', 0);
            lemma_find_none(t, '=', 0);
        },
        SelectorExpr::DoesNotExist(key) => {
            assert(t =~= "!"@ + key);
            assert(t[0] == '!');
            assert(t.subrange(1, t.len() as int) =~= key);
        },
    }
}

/// The text of a single readable term begins where it begins.
proof fn lemma_single_term_start(e: SelectorExpr)
    requires
        readable(e),
    ensures
        last_term_start(render_expr(e)) == 0,
{
    let t = render_expr(e);
    lemma_term_text(e);
    if opening(e) >= 0 {
        lemma_rfind_at(t, '(', t.len() as int, opening(e));
        lemma_rfind_none(t, ',', opening(e));
    } else {
        assert(t[t.len() - 1] != ')');
        lemma_rfind_none(t, ',', t.len() as int);
    }
}

/// In a text that ends with a comma and a readable term, the last term
/// begins after that comma.
proof fn lemma_joined_term_start(head: Seq<char>, e: SelectorExpr)
    requires
        readable(e),
    ensures
        last_term_start(head + seq![','] + render_expr(e)) == head.len() + 1,
{
    let t = render_expr(e);
    let text = head + seq![','] + t;
    let base = head.len() as int;
    lemma_term_text(e);
    assert(text[base] == ',');
    assert(text.last() == t.last());
    if opening(e) >= 0 {
        let open = base + 1 + opening(e);
        assert(text[open] == t[opening(e)]);
        assert forall|j: int| open < j < text.len() implies text[j] != '(' by {
            assert(text[j] == t[j - base - 1]);
        }
        lemma_rfind_at(text, '(', text.len() as int, open);
        assert forall|j: int| base < j < open implies text[j] != ',' by {
            assert(text[j] == t[j - base - 1]);
        }
        lemma_rfind_at(text, ',', open, base);
    } else {
        assert(t[t.len() - 1] != ')');
        assert forall|j: int| base < j < text.len() implies text[j] != ',' by {
            assert(text[j] == t[j - base - 1]);
        }
        lemma_rfind_at(text, ',', text.len() as int, base);
    }
}

/// The texts of the terms.
pub open spec fn term_texts(terms: Seq<SelectorExpr>) -> Seq<Seq<char>> {
    terms.map_values(|e: SelectorExpr| render_expr(e))
}

/// Readable terms are read back from the text of their selector: the text
/// says what the selector is.
pub proof fn lemma_read_terms(terms: Seq<SelectorExpr>)
    requires
        all_readable(terms),
    ensures
        read_terms(render_selector(terms)) == Some(terms),
        terms.len() > 0 ==> render_selector(terms).len() > 0,
    decreases terms.len(),
{
    let texts = term_texts(terms);
    let text = render_selector(terms);
    assert(","@ =~= seq![',']) by {
        reveal_strlit(",");
    }
    if terms.len() == 0 {
        assert(text =~= Seq::<char>::empty());
    } else {
        let e = terms.last();
        let t = render_expr(e);
        assert(readable(terms[terms.len() - 1]));
        assert(t.len() > 0) by {
            lemma_term_text(e);
        }
        lemma_read_term(e);
        assert(texts.last() == t);
        if terms.len() == 1 {
            assert(text == t);
            lemma_single_term_start(e);
            assert(text.subrange(0, text.len() as int) =~= text);
            assert(seq![e] =~= terms);
        } else {
            let d = terms.drop_last();
            assert(all_readable(d)) by {
                assert forall|i: int| 0 <= i < d.len() implies readable(#[trigger] d[i]) by {
                    assert(d[i] == terms[i]);
                }
            }
            lemma_read_terms(d);
            let head = render_selector(d);
            assert(texts.drop_last() =~= term_texts(d));
            assert(text == head + seq![','] + t);
            let base = head.len() as int;
            lemma_joined_term_start(head, e);
            assert(text.subrange(base + 1, text.len() as int) =~= t);
            assert(text.subrange(0, base) =~= head);
            assert(d.push(e) =~= terms);
        }
    }
}

/// One term of a selector, as read from its text.
#[derive(Debug)]
pub enum SelectorTerm {
    In(String, Vec<String>),
    NotIn(String, Vec<String>),
    Equal(String, String),
    Exists(String),
    DoesNotExist(String),
}

impl View for SelectorTerm {
    type V = SelectorExpr;

    open spec fn view(&self) -> SelectorExpr {
        match self {
            SelectorTerm::In(k, v) => SelectorExpr::In(k@, views(v@)),
            SelectorTerm::NotIn(k, v) => SelectorExpr::NotIn(k@, views(v@)),
            SelectorTerm::Equal(k, v) => SelectorExpr::Equal(k@, v@),
            SelectorTerm::Exists(k) => SelectorExpr::Exists(k@),
            SelectorTerm::DoesNotExist(k) => SelectorExpr::DoesNotExist(k@),
        }
    }
}

/// The views of a sequence of terms.
pub open spec fn term_views(s: Seq<SelectorTerm>) -> Seq<SelectorExpr> {
    Seq::new(s.len(), |i: int| s[i]@)
}

/// The position of the last `c` before `to`, counted from one: zero where
/// there is none.
fn rfind_char(chars: &Vec<char>, c: char, to: usize) -> (r: usize)
    requires
        to <= chars@.len(),
    ensures
        r == rfind(chars@, c, to as int) + 1,
        r <= to,
{
    let mut i: usize = to;
    while i > 0
        invariant
            i <= to <= chars@.len(),
            rfind(chars@, c, to as int) == rfind(chars@, c, i as int),
        decreases i,
    {
        if chars[i - 1] == c {
            return i;
        }
        i = i - 1;
    }
    0
}

/// Whether the characters from `from` on begin with `prefix`.
fn begins_with(chars: &Vec<char>, from: usize, prefix: &str) -> (r: bool)
    requires
        from <= chars@.len(),
    ensures
        r == starts_with(chars@.subrange(from as int, chars@.len() as int), prefix@),
{
    let p = chars_of(prefix);
    if chars.len() - from < p.len() {
        return false;
    }
    let ghost rest = chars@.subrange(from as int, chars@.len() as int);
    let mut i: usize = 0;
    while i < p.len()
        invariant
            i <= p@.len(),
            p@ == prefix@,
            from + p@.len() <= chars.len(),
            rest == chars@.subrange(from as int, chars@.len() as int),
            forall|j: int| 0 <= j < i ==> rest[j] == p@[j],
        decreases p.len() - i,
    {
        if chars[from + i] != p[i] {
            proof {
                assert(rest.subrange(0, p@.len() as int)[i as int] == rest[i as int]);
            }
            return false;
        }
        i = i + 1;
    }
    proof {
        assert(rest.subrange(0, p@.len() as int) =~= p@);
    }
    true
}

/// Whether a name is free of the characters that have a meaning of their own.
fn is_plain(name: &str) -> (r: bool)
    ensures
        r == plain(name@),
{
    let chars = chars_of(name);
    let mut i: usize = 0;
    while i < chars.len()
        invariant
            i <= chars@.len(),
            chars@ == name@,
            forall|j: int| 0 <= j < i ==> !is_mark(#[trigger] name@[j]),
        decreases chars.len() - i,
    {
        let c = chars[i];
        if c == ',' || c == '(' || c == ')' || c == ' ' || c == '=' || c == '!' {
            return false;
        }
        i = i + 1;
    }
    true
}

/// Whether all names are plain.
fn are_plain(names: &Vec<String>) -> (r: bool)
    ensures
        r == all_plain(views(names@)),
{
    let mut i: usize = 0;
    while i < names.len()
        invariant
            i <= names@.len(),
            forall|j: int| 0 <= j < i ==> plain(#[trigger] views(names@)[j]),
        decreases names.len() - i,
    {
        if !is_plain(names[i].as_str()) {
            assert(!plain(views(names@)[i as int]));
            return false;
        }
        i = i + 1;
    }
    true
}

/// Whether a term can be read back from its text.
fn is_readable(term: &SelectorTerm) -> (r: bool)
    ensures
        r == readable(term@),
{
    match term {
        SelectorTerm::In(key, values) => is_plain(key.as_str()) && key.as_str().unicode_len() > 0
            && values.len() > 0 && are_plain(values),
        SelectorTerm::NotIn(key, values) => is_plain(key.as_str()) && key.as_str().unicode_len()
            > 0 && values.len() > 0 && are_plain(values),
        SelectorTerm::Equal(key, value) => is_plain(key.as_str()) && key.as_str().unicode_len()
            > 0 && is_plain(value.as_str()),
        SelectorTerm::Exists(key) => is_plain(key.as_str()) && key.as_str().unicode_len() > 0,
        SelectorTerm::DoesNotExist(key) => is_plain(key.as_str()) && key.as_str().unicode_len()
            > 0,
    }
}

/// Reads the term that stands between `from` and `to`.
fn read_one(chars: &Vec<char>, from: usize, to: usize) -> (r: Option<SelectorTerm>)
    requires
        from <= to <= chars@.len(),
    ensures
        (match r {
            Some(t) => Some(t@),
            None => None,
        }) == read_term(chars@.subrange(from as int, to as int)),
{
    match form_of(chars, from, to) {
        Some(term) => {
            if is_readable(&term) {
                Some(term)
            } else {
                None
            }
        },
        None => None,
    }
}

/// The term that the form of the text between `from` and `to` makes it.
fn form_of(chars: &Vec<char>, from: usize, to: usize) -> (r: Option<SelectorTerm>)
    requires
        from <= to <= chars@.len(),
    ensures
        (match r {
            Some(t) => Some(t@),
            None => None,
        }) == term_form(chars@.subrange(from as int, to as int)),
{
    let t = slice_of(chars, from, to);
    if t.len() == 0 {
        return None;
    }
    if t[0] == '!' {
        return Some(SelectorTerm::DoesNotExist(string_of(&t, 1, t.len())));
    }
    let space = find_char(&t, ' ', 0);
    if space < t.len() {
        let key = string_of(&t, 0, space);
        let rest = slice_of(&t, space + 1, t.len());
        if rest.len() > 0 && rest[rest.len() - 1] == ')' {
            proof {
                assert(rest@.subrange(0, rest@.len() as int) =~= rest@);
            }
            if begins_with(&rest, 0, "in (") {
                proof {
                    reveal_strlit("in (");
                }
                let inner = string_of(&rest, 4, rest.len() - 1);
                Some(SelectorTerm::In(key, split_str(inner.as_str(), ',')))
            } else if begins_with(&rest, 0, "notin (") {
                proof {
                    reveal_strlit("notin (");
                }
                let inner = string_of(&rest, 7, rest.len() - 1);
                Some(SelectorTerm::NotIn(key, split_str(inner.as_str(), ',')))
            } else {
                None
            }
        } else {
            None
        }
    } else {
        let eq = find_char(&t, '=', 0);
        if eq < t.len() {
            Some(SelectorTerm::Equal(string_of(&t, 0, eq), string_of(&t, eq + 1, t.len())))
        } else {
            proof {
                assert(t@.subrange(0, t@.len() as int) =~= t@);
            }
            Some(SelectorTerm::Exists(string_of(&t, 0, t.len())))
        }
    }
}

/// The characters from `from` up to `to`.
fn slice_of(chars: &Vec<char>, from: usize, to: usize) -> (r: Vec<char>)
    requires
        from <= to <= chars@.len(),
    ensures
        r@ == chars@.subrange(from as int, to as int),
{
    let mut r: Vec<char> = Vec::new();
    let mut i: usize = from;
    while i < to
        invariant
            from <= i <= to <= chars@.len(),
            r@ == chars@.subrange(from as int, i as int),
        decreases to - i,
    {
        r.push(chars[i]);
        i = i + 1;
    }
    r
}

/// Reads the terms that stand before `to`.
fn read_upto(chars: &Vec<char>, to: usize) -> (r: Option<Vec<SelectorTerm>>)
    requires
        to <= chars@.len(),
    ensures
        (match r {
            Some(terms) => Some(term_views(terms@)),
            None => None,
        }) == read_terms(chars@.subrange(0, to as int)),
    decreases to,
{
    let ghost text = chars@.subrange(0, to as int);
    if to == 0 {
        let terms: Vec<SelectorTerm> = Vec::new();
        proof {
            assert(term_views(terms@) =~= Seq::empty());
        }
        return Some(terms);
    }
    let start = if chars[to - 1] == ')' {
        let open = rfind_char(chars, '(', to);
        proof {
            lemma_rfind_same(chars@, text, '(', to as int);
        }
        if open == 0 {
            proof {
                assert(rfind(text, ',', -1) == -1);
            }
            0
        } else {
            proof {
                lemma_rfind_same(chars@, text, ',', open - 1);
            }
            rfind_char(chars, ',', open - 1)
        }
    } else {
        proof {
            lemma_rfind_same(chars@, text, ',', to as int);
        }
        rfind_char(chars, ',', to)
    };
    assert(start == last_term_start(text));
    proof {
        assert(text.subrange(start as int, text.len() as int) =~= chars@.subrange(
            start as int,
            to as int,
        ));
    }
    let term = match read_one(chars, start, to) {
        Some(term) => term,
        None => {
            return None;
        },
    };
    if start == 0 {
        let mut terms: Vec<SelectorTerm> = Vec::new();
        let ghost term_view = term@;
        terms.push(term);
        proof {
            assert(term_views(terms@) =~= seq![term_view]);
        }
        Some(terms)
    } else {
        proof {
            assert(text.subrange(0, start - 1) =~= chars@.subrange(0, start - 1));
        }
        match read_upto(chars, start - 1) {
            Some(mut terms) => {
                if terms.len() > 0 {
                    let ghost before = term_views(terms@);
                    let ghost term_view = term@;
                    terms.push(term);
                    proof {
                        assert(term_views(terms@) =~= before.push(term_view));
                    }
                    Some(terms)
                } else {
                    None
                }
            },
            None => None,
        }
    }
}

/// The last `c` before `to` is the same in a text and in its beginning.
proof fn lemma_rfind_same(whole: Seq<char>, text: Seq<char>, c: char, to: int)
    requires
        0 <= to <= text.len() <= whole.len(),
        text == whole.subrange(0, text.len() as int),
    ensures
        rfind(whole, c, to) == rfind(text, c, to),
    decreases to,
{
    if to > 0 {
        assert(text[to - 1] == whole[to - 1]);
        if whole[to - 1] != c {
            lemma_rfind_same(whole, text, c, to - 1);
        }
    }
}

/// Reads the terms of a selector from its API text: terms separated by
/// commas, each of the form `key=value`, `key in (v1,v2)`, `key notin (v1,v2)`,
/// `key` or `!key`, with keys that are not empty and names that hold no
/// comma, parenthesis, space, equals sign or exclamation mark. Any other text
/// has no terms.
pub fn read_selector(text: &str) -> (r: Option<Vec<SelectorTerm>>)
    ensures
        (match r {
            Some(terms) => Some(term_views(terms@)),
            None => None,
        }) == read_terms(text@),
{
    let chars = chars_of(text);
    proof {
        assert(chars@.subrange(0, chars@.len() as int) =~= chars@);
    }
    read_upto(&chars, chars.len())
}

/// The labels among the terms: a label for each equality, in their order.
pub open spec fn labels_of(terms: Seq<SelectorExpr>) -> Seq<(Seq<char>, Seq<char>)>
    decreases terms.len(),
{
    if terms.len() == 0 {
        Seq::empty()
    } else {
        match terms.last() {
            SelectorExpr::Equal(k, v) => labels_of(terms.drop_last()).push((k, v)),
            _ => labels_of(terms.drop_last()),
        }
    }
}

/// The requirement that a term stands for; none for an equality, which is a
/// label, and none for an inequality, which a label selector cannot hold.
pub open spec fn requirement_of(e: SelectorExpr) -> Option<RequirementView> {
    match e {
        SelectorExpr::In(key, values) => Some(
            RequirementView { key, operator: "In"@, values: Some(values) },
        ),
        SelectorExpr::NotIn(key, values) => Some(
            RequirementView { key, operator: "NotIn"@, values: Some(values) },
        ),
        SelectorExpr::Exists(key) => Some(RequirementView { key, operator: "Exists"@, values: None }),
        SelectorExpr::DoesNotExist(key) => Some(
            RequirementView { key, operator: "DoesNotExist"@, values: None },
        ),
        SelectorExpr::Equal(_, _) => None,
        SelectorExpr::NotEqual(_, _) => None,
    }
}

/// The requirements among the terms, in their order.
pub open spec fn requirements_of(terms: Seq<SelectorExpr>) -> Seq<RequirementView>
    decreases terms.len(),
{
    if terms.len() == 0 {
        Seq::empty()
    } else {
        match requirement_of(terms.last()) {
            Some(r) => requirements_of(terms.drop_last()).push(r),
            None => requirements_of(terms.drop_last()),
        }
    }
}

/// The label selector that holds the terms.
pub open spec fn selector_of(terms: Seq<SelectorExpr>) -> LabelSelectorView {
    LabelSelectorView {
        match_labels: Some(labels_of(terms)),
        match_expressions: Some(requirements_of(terms)),
    }
}

/// The label selector that holds the terms.
pub fn to_label_selector(terms: &Vec<SelectorTerm>) -> (r: LabelSelector)
    ensures
        r@ == selector_of(term_views(terms@)),
{
    let mut labels: Vec<(String, String)> = Vec::new();
    let mut requirements: Vec<LabelSelectorRequirement> = Vec::new();
    let mut i: usize = 0;
    proof {
        assert(term_views(terms@).subrange(0, 0) =~= Seq::empty());
    }
    while i < terms.len()
        invariant
            i <= terms@.len(),
            Seq::new(labels@.len(), |j: int| (labels@[j].0@, labels@[j].1@)) == labels_of(
                term_views(terms@).subrange(0, i as int),
            ),
            Seq::new(requirements@.len(), |j: int| requirements@[j]@) == requirements_of(
                term_views(terms@).subrange(0, i as int),
            ),
        decreases terms.len() - i,
    {
        let ghost old_labels = Seq::new(labels@.len(), |j: int| (labels@[j].0@, labels@[j].1@));
        let ghost old_requirements = Seq::new(requirements@.len(), |j: int| requirements@[j]@);
        proof {
            let next = term_views(terms@).subrange(0, i + 1);
            assert(next.drop_last() =~= term_views(terms@).subrange(0, i as int));
            assert(next.last() == terms@[i as int]@);
        }
        match &terms[i] {
            SelectorTerm::Equal(k, v) => {
                labels.push((k.clone(), v.clone()));
                proof {
                    assert(Seq::new(labels@.len(), |j: int| (labels@[j].0@, labels@[j].1@))
                        =~= old_labels.push((k@, v@)));
                }
            },
            SelectorTerm::In(k, values) => {
                let r = LabelSelectorRequirement {
                    key: k.clone(),
                    operator: String::from_str("In"),
                    values: Some(copy_strings(values)),
                };
                let ghost rv = r@;
                requirements.push(r);
                proof {
                    assert(Seq::new(requirements@.len(), |j: int| requirements@[j]@)
                        =~= old_requirements.push(rv));
                }
            },
            SelectorTerm::NotIn(k, values) => {
                let r = LabelSelectorRequirement {
                    key: k.clone(),
                    operator: String::from_str("NotIn"),
                    values: Some(copy_strings(values)),
                };
                let ghost rv = r@;
                requirements.push(r);
                proof {
                    assert(Seq::new(requirements@.len(), |j: int| requirements@[j]@)
                        =~= old_requirements.push(rv));
                }
            },
            SelectorTerm::Exists(k) => {
                let r = LabelSelectorRequirement {
                    key: k.clone(),
                    operator: String::from_str("Exists"),
                    values: None,
                };
                let ghost rv = r@;
                requirements.push(r);
                proof {
                    assert(Seq::new(requirements@.len(), |j: int| requirements@[j]@)
                        =~= old_requirements.push(rv));
                }
            },
            SelectorTerm::DoesNotExist(k) => {
                let r = LabelSelectorRequirement {
                    key: k.clone(),
                    operator: String::from_str("DoesNotExist"),
                    values: None,
                };
                let ghost rv = r@;
                requirements.push(r);
                proof {
                    assert(Seq::new(requirements@.len(), |j: int| requirements@[j]@)
                        =~= old_requirements.push(rv));
                }
            },
        }
        i = i + 1;
    }
    proof {
        assert(term_views(terms@).subrange(0, i as int) =~= term_views(terms@));
    }
    LabelSelector { match_labels: Some(labels), match_expressions: Some(requirements) }
}

/// Copies a vector of strings.
fn copy_strings(v: &Vec<String>) -> (r: Vec<String>)
    ensures
        views(r@) == views(v@),
{
    let mut r: Vec<String> = Vec::new();
    let mut i: usize = 0;
    while i < v.len()
        invariant
            i <= v@.len(),
            r@.len() == i,
            forall|j: int| 0 <= j < i ==> r@[j]@ == v@[j]@,
        decreases v.len() - i,
    {
        r.push(v[i].clone());
        i = i + 1;
    }
    assert(views(r@) =~= views(v@));
    r
}

/// Reads a label selector from its API text.
pub fn parse_selector(text: &str) -> (r: Option<LabelSelector>)
    ensures
        (match r {
            Some(s) => Some(s@),
            None => None,
        }) == (match read_terms(text@) {
            Some(terms) => Some(selector_of(terms)),
            None => None,
        }),
{
    match read_selector(text) {
        Some(terms) => Some(to_label_selector(&terms)),
        None => None,
    }
}

/// Names in ascending order are a sorted set already.
pub proof fn lemma_sorted_set_of_ascending(s: Seq<Seq<char>>)
    requires
        ascending(s),
    ensures
        sorted_set(s) == s,
    decreases s.len(),
{
    if s.len() == 0 {
        assert(sorted_set(s) =~= s);
    } else {
        let d = s.drop_last();
        assert(ascending(d)) by {
            assert forall|i: int, j: int| 0 <= i < j < d.len() implies crate::order::before(
                #[trigger] d[i],
                #[trigger] d[j],
            ) by {
                assert(d[i] == s[i] && d[j] == s[j]);
            }
        }
        lemma_sorted_set_of_ascending(d);
        lemma_place_at_end(d, s.last(), 0);
        assert(d.insert(d.len() as int, s.last()) =~= s);
    }
}

/// A name that comes after all names has its place at the end.
proof fn lemma_place_at_end(s: Seq<Seq<char>>, x: Seq<char>, from: int)
    requires
        0 <= from <= s.len(),
        forall|i: int| 0 <= i < s.len() ==> crate::order::before(#[trigger] s[i], x),
    ensures
        place(s, x, from) == s.len(),
    decreases s.len() - from,
{
    if from < s.len() {
        lemma_place_at_end(s, x, from + 1);
    }
}

/// The labels among equalities and requirement terms are those of the
/// equalities, and the requirements are those of the requirement terms.
proof fn lemma_parts(pairs: Seq<(Seq<char>, Seq<char>)>, rs: Seq<RequirementView>, n: int)
    requires
        0 <= n <= rs.len(),
        requirement_terms(rs) is Some,
        forall|i: int|
            0 <= i < rs.len() ==> #[trigger] requirement_of(requirement_terms(rs)->Some_0[i])
                is Some,
    ensures
        labels_of(equalities(pairs) + requirement_terms(rs)->Some_0.subrange(0, n)) == pairs,
        requirements_of(equalities(pairs) + requirement_terms(rs)->Some_0.subrange(0, n))
            == Seq::new(n as nat, |i: int| requirement_of(requirement_terms(rs)->Some_0[i])->Some_0),
    decreases n,
{
    let rt = requirement_terms(rs)->Some_0;
    let whole = equalities(pairs) + rt.subrange(0, n);
    if n == 0 {
        assert(whole =~= equalities(pairs));
        lemma_equalities(pairs);
        assert(Seq::new(0nat, |i: int| requirement_of(rt[i])->Some_0) =~= Seq::<
            RequirementView,
        >::empty());
    } else {
        lemma_requirement_terms_len(rs);
        lemma_parts(pairs, rs, n - 1);
        let shorter = equalities(pairs) + rt.subrange(0, n - 1);
        assert(whole.drop_last() =~= shorter);
        assert(whole.last() == rt[n - 1]);
        assert(requirement_of(rt[n - 1]) is Some);
        assert(Seq::new(n as nat, |i: int| requirement_of(rt[i])->Some_0) =~= Seq::new(
            (n - 1) as nat,
            |i: int| requirement_of(rt[i])->Some_0,
        ).push(requirement_of(rt[n - 1])->Some_0));
    }
}

/// An equality for each label.
pub open spec fn equalities(pairs: Seq<(Seq<char>, Seq<char>)>) -> Seq<SelectorExpr> {
    Seq::new(pairs.len(), |i: int| SelectorExpr::Equal(pairs[i].0, pairs[i].1))
}

proof fn lemma_equalities(pairs: Seq<(Seq<char>, Seq<char>)>)
    ensures
        labels_of(equalities(pairs)) == pairs,
        requirements_of(equalities(pairs)) == Seq::<RequirementView>::empty(),
    decreases pairs.len(),
{
    if pairs.len() == 0 {
        assert(equalities(pairs) =~= Seq::empty());
        assert(labels_of(equalities(pairs)) =~= pairs);
    } else {
        let d = pairs.drop_last();
        lemma_equalities(d);
        assert(equalities(pairs).drop_last() =~= equalities(d));
        assert(d.push(pairs.last()) =~= pairs);
    }
}

proof fn lemma_requirement_terms_len(rs: Seq<RequirementView>)
    requires
        requirement_terms(rs) is Some,
    ensures
        requirement_terms(rs)->Some_0.len() == rs.len(),
        forall|i: int|
            0 <= i < rs.len() ==> requirement_term(#[trigger] rs[i]) == Some(
                requirement_terms(rs)->Some_0[i],
            ),
    decreases rs.len(),
{
    if rs.len() > 0 {
        let d = rs.drop_last();
        lemma_requirement_terms_len(d);
        let terms = requirement_terms(rs)->Some_0;
        assert forall|i: int| 0 <= i < rs.len() implies requirement_term(#[trigger] rs[i])
            == Some(terms[i]) by {
            if i < d.len() {
                assert(d[i] == rs[i]);
                assert(terms[i] == requirement_terms(d)->Some_0[i]);
            }
        }
    }
}

/// The names of the four operators differ.
proof fn lemma_operators()
    ensures
        "In"@ != "NotIn"@,
        "In"@ != "Exists"@,
        "In"@ != "DoesNotExist"@,
        "NotIn"@ != "Exists"@,
        "NotIn"@ != "DoesNotExist"@,
        "Exists"@ != "DoesNotExist"@,
{
    reveal_strlit("In");
    reveal_strlit("NotIn");
    reveal_strlit("Exists");
    reveal_strlit("DoesNotExist");
    assert("In"@.len() == 2);
    assert("NotIn"@.len() == 5);
    assert("Exists"@.len() == 6);
    assert("DoesNotExist"@.len() == 12);
}

/// The term of a requirement is read back as a requirement with the same
/// term.
proof fn lemma_requirement_back(r: RequirementView)
    requires
        requirement_term(r) is Some,
    ensures
        requirement_of(requirement_term(r)->Some_0) is Some,
        requirement_term(requirement_of(requirement_term(r)->Some_0)->Some_0) == requirement_term(r),
{
    lemma_operators();
    let e = requirement_term(r)->Some_0;
    match e {
        SelectorExpr::In(k, vs) => {
            lemma_sorted_set(r.values->Some_0);
            lemma_sorted_set_of_ascending(vs);
        },
        SelectorExpr::NotIn(k, vs) => {
            lemma_sorted_set(r.values->Some_0);
            lemma_sorted_set_of_ascending(vs);
        },
        _ => {},
    }
}

/// The value of a key among labels with ascending keys is that of its own
/// label.
proof fn lemma_label_value(pairs: Seq<(Seq<char>, Seq<char>)>, i: int, from: int)
    requires
        0 <= from <= i < pairs.len(),
        ascending(label_keys(pairs)),
    ensures
        label_value(pairs, pairs[i].0, from) == pairs[i].1,
    decreases i - from,
{
    if from < i {
        assert(crate::order::before(label_keys(pairs)[from], label_keys(pairs)[i]));
        crate::order::lemma_before_is_total_order(pairs[from].0, pairs[i].0, pairs[i].0);
        lemma_label_value(pairs, i, from + 1);
    }
}

/// Serializing a label selector and reading it back yields an equivalent
/// selector: the text of the terms is read back as the same terms, and the
/// selector that holds them has the same terms again. This holds of every
/// selector whose labels are a map and whose terms are readable.
pub proof fn lemma_selector_round_trip(selector: LabelSelectorView)
    requires
        selector.wf(),
        typed_terms(selector) is Some,
        all_readable(typed_terms(selector)->Some_0),
    ensures
        read_terms(render_selector(typed_terms(selector)->Some_0)) == typed_terms(selector),
        selector_of(typed_terms(selector)->Some_0).wf(),
        typed_terms(selector_of(typed_terms(selector)->Some_0)) == typed_terms(selector),
{
    let terms = typed_terms(selector)->Some_0;
    lemma_read_terms(terms);
    let labels = selector.labels();
    let rs = selector.requirements();
    let keys = sorted_set(label_keys(labels));
    lemma_sorted_set(label_keys(labels));
    let pairs = Seq::new(keys.len(), |i: int| (keys[i], label_value(labels, keys[i], 0)));
    let rt = requirement_terms(rs)->Some_0;
    lemma_requirement_terms_len(rs);
    assert(label_terms(labels) =~= equalities(pairs));
    assert forall|i: int| 0 <= i < rs.len() implies #[trigger] requirement_of(rt[i]) is Some by {
        lemma_requirement_back(rs[i]);
    }
    lemma_parts(pairs, rs, rs.len() as int);
    assert(rt.subrange(0, rs.len() as int) =~= rt);
    let back = selector_of(terms);
    assert(back.labels() == pairs);
    let back_rs = Seq::new(rs.len(), |i: int| requirement_of(rt[i])->Some_0);
    assert(back.requirements() == back_rs);
    // the labels
    assert(label_keys(pairs) =~= keys);
    lemma_sorted_set_of_ascending(keys);
    assert(back.wf()) by {
        assert forall|i: int, j: int| 0 <= i < j < pairs.len() implies (#[trigger] pairs[i]).0 != (
        #[trigger] pairs[j]).0 by {
            assert(crate::order::before(keys[i], keys[j]));
            crate::order::lemma_before_is_total_order(keys[i], keys[j], keys[j]);
        }
    }
    assert(label_terms(pairs) =~= equalities(pairs)) by {
        assert forall|i: int| 0 <= i < pairs.len() implies label_value(pairs, keys[i], 0)
            == pairs[i].1 by {
            lemma_label_value(pairs, i, 0);
        }
    }
    // the requirements
    lemma_requirements_back(rs, rs.len() as int);
    assert(back_rs.subrange(0, rs.len() as int) =~= back_rs);
}

/// The requirements that stand for the terms of requirements have the same
/// terms.
proof fn lemma_requirements_back(rs: Seq<RequirementView>, n: int)
    requires
        0 <= n <= rs.len(),
        requirement_terms(rs) is Some,
    ensures
        requirement_terms(
            Seq::new(
                rs.len(),
                |i: int| requirement_of(requirement_terms(rs)->Some_0[i])->Some_0,
            ).subrange(0, n),
        ) == Some(requirement_terms(rs)->Some_0.subrange(0, n)),
    decreases n,
{
    let rt = requirement_terms(rs)->Some_0;
    let back = Seq::new(rs.len(), |i: int| requirement_of(rt[i])->Some_0);
    lemma_requirement_terms_len(rs);
    if n == 0 {
        assert(back.subrange(0, 0) =~= Seq::empty());
        assert(rt.subrange(0, 0) =~= Seq::empty());
    } else {
        lemma_requirements_back(rs, n - 1);
        lemma_requirement_back(rs[n - 1]);
        assert(back.subrange(0, n).drop_last() =~= back.subrange(0, n - 1));
        assert(back.subrange(0, n).last() == back[n - 1]);
        assert(requirement_term(rs[n - 1]) == Some(rt[n - 1]));
        assert(rt.subrange(0, n - 1).push(rt[n - 1]) =~= rt.subrange(0, n));
    }
}

} // verus!
