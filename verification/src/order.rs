//! The order of strings, and sorted sets of names.

use crate::text::{chars_of, views};
use vstd::prelude::*;
use vstd::string::*;

verus! {

/// Whether `a` comes before `b` when the two are compared character by
/// character from the `from`-th on: at the first place where they differ the
/// smaller character decides, and a string comes before its extensions.
pub open spec fn before_from(a: Seq<char>, b: Seq<char>, from: int) -> bool
    decreases b.len() - from,
{
    if from < 0 || from >= b.len() {
        false
    } else if from >= a.len() {
        true
    } else if a[from] != b[from] {
        a[from] < b[from]
    } else {
        before_from(a, b, from + 1)
    }
}

/// Whether `a` comes before `b` in the order of strings.
pub open spec fn before(a: Seq<char>, b: Seq<char>) -> bool {
    before_from(a, b, 0)
}

/// Two strings that agree up to `from` and of which neither comes before the
/// other are equal.
proof fn lemma_neither_before(a: Seq<char>, b: Seq<char>, from: int)
    requires
        0 <= from <= a.len(),
        from <= b.len(),
        forall|i: int| 0 <= i < from ==> a[i] == b[i],
        !before_from(a, b, from),
        !before_from(b, a, from),
    ensures
        a == b,
    decreases b.len() - from,
{
    if from >= b.len() {
        assert(from >= a.len());
        assert(a =~= b);
    } else if from >= a.len() {
    } else {
        if a[from] == b[from] {
            lemma_neither_before(a, b, from + 1);
        }
    }
}

/// Of two strings that agree up to `from`, at most one comes before the other.
proof fn lemma_not_both_before(a: Seq<char>, b: Seq<char>, from: int)
    requires
        0 <= from,
        before_from(a, b, from),
    ensures
        !before_from(b, a, from),
    decreases b.len() - from,
{
    if from < a.len() && from < b.len() && a[from] == b[from] {
        lemma_not_both_before(a, b, from + 1);
    }
}

proof fn lemma_before_transitive_from(a: Seq<char>, b: Seq<char>, c: Seq<char>, from: int)
    requires
        0 <= from,
        before_from(a, b, from),
        before_from(b, c, from),
    ensures
        before_from(a, c, from),
    decreases c.len() - from,
{
    if from < a.len() && from < b.len() && from < c.len() {
        if a[from] == b[from] && b[from] == c[from] {
            lemma_before_transitive_from(a, b, c, from + 1);
        }
    }
}

/// The order of strings is a strict total order.
pub proof fn lemma_before_is_total_order(a: Seq<char>, b: Seq<char>, c: Seq<char>)
    ensures
        !before(a, a),
        before(a, b) ==> !before(b, a),
        before(a, b) && before(b, c) ==> before(a, c),
        a == b || before(a, b) || before(b, a),
{
    if before(a, a) {
        lemma_not_both_before(a, a, 0);
    }
    if before(a, b) {
        lemma_not_both_before(a, b, 0);
        if before(b, c) {
            lemma_before_transitive_from(a, b, c, 0);
        }
    }
    if !before(a, b) && !before(b, a) {
        lemma_neither_before(a, b, 0);
    }
}

/// Whether `a` comes before `b` in the order of strings.
pub fn comes_before(a: &str, b: &str) -> (r: bool)
    ensures
        r == before(a@, b@),
{
    let x = chars_of(a);
    let y = chars_of(b);
    let mut i: usize = 0;
    while i < y.len()
        invariant
            x@ == a@,
            y@ == b@,
            i <= y@.len(),
            before(a@, b@) == before_from(a@, b@, i as int),
        decreases y.len() - i,
    {
        if i >= x.len() {
            return true;
        }
        if x[i] != y[i] {
            return x[i] < y[i];
        }
        i = i + 1;
    }
    false
}

/// The place of `x` among the sorted names `s`, looked for from `from` on: the
/// first place whose name does not come before `x`.
pub open spec fn place(s: Seq<Seq<char>>, x: Seq<char>, from: int) -> int
    decreases s.len() - from,
{
    if from < 0 || from >= s.len() {
        s.len() as int
    } else if before(s[from], x) {
        place(s, x, from + 1)
    } else {
        from
    }
}

/// The sorted names `s` with `x` among them.
pub open spec fn with_name(s: Seq<Seq<char>>, x: Seq<char>) -> Seq<Seq<char>> {
    let at = place(s, x, 0);
    if at < s.len() && s[at] == x {
        s
    } else {
        s.insert(at, x)
    }
}

/// The names of `s`, each one once, in the order of strings.
pub open spec fn sorted_set(s: Seq<Seq<char>>) -> Seq<Seq<char>>
    decreases s.len(),
{
    if s.len() == 0 {
        Seq::empty()
    } else {
        with_name(sorted_set(s.drop_last()), s.last())
    }
}

/// Whether each name comes before the one after it.
pub open spec fn ascending(s: Seq<Seq<char>>) -> bool {
    forall|i: int, j: int| 0 <= i < j < s.len() ==> before(#[trigger] s[i], #[trigger] s[j])
}

proof fn lemma_place(s: Seq<Seq<char>>, x: Seq<char>, from: int)
    requires
        0 <= from <= s.len(),
    ensures
        from <= place(s, x, from) <= s.len(),
        forall|i: int| from <= i < place(s, x, from) ==> before(#[trigger] s[i], x),
        place(s, x, from) < s.len() ==> !before(s[place(s, x, from)], x),
    decreases s.len() - from,
{
    if from < s.len() && before(s[from], x) {
        lemma_place(s, x, from + 1);
    }
}

proof fn lemma_with_name(s: Seq<Seq<char>>, x: Seq<char>)
    requires
        ascending(s),
    ensures
        ascending(with_name(s, x)),
        forall|y: Seq<char>| with_name(s, x).contains(y) <==> s.contains(y) || y == x,
{
    let at = place(s, x, 0);
    lemma_place(s, x, 0);
    let r = with_name(s, x);
    if at < s.len() && s[at] == x {
        assert forall|y: Seq<char>| r.contains(y) <==> s.contains(y) || y == x by {
            if y == x {
                assert(s[at] == y);
            }
        }
    } else {
        assert forall|i: int, j: int| 0 <= i < j < r.len() implies before(
            #[trigger] r[i],
            #[trigger] r[j],
        ) by {
            if j < at {
                assert(r[i] == s[i] && r[j] == s[j]);
            } else if j == at {
                assert(r[i] == s[i]);
            } else if i == at {
                assert(r[j] == s[j - 1]);
                lemma_before_is_total_order(s[at], x, x);
                if j - 1 > at {
                    assert(before(s[at], s[j - 1]));
                    lemma_before_is_total_order(x, s[at], s[j - 1]);
                }
            } else if i < at {
                assert(r[i] == s[i] && r[j] == s[j - 1]);
            } else {
                assert(r[i] == s[i - 1] && r[j] == s[j - 1]);
            }
        }
        assert forall|y: Seq<char>| r.contains(y) <==> s.contains(y) || y == x by {
            if r.contains(y) {
                let i = choose|i: int| 0 <= i < r.len() && r[i] == y;
                if i < at {
                    assert(s[i] == y);
                } else if i > at {
                    assert(s[i - 1] == y);
                }
            }
            if s.contains(y) {
                let i = choose|i: int| 0 <= i < s.len() && s[i] == y;
                if i < at {
                    assert(r[i] == y);
                } else {
                    assert(r[i + 1] == y);
                }
            }
            if y == x {
                assert(r[at] == y);
            }
        }
    }
}

/// A sorted set holds the names it was made of, each one once, in the order
/// of strings.
pub proof fn lemma_sorted_set(s: Seq<Seq<char>>)
    ensures
        ascending(sorted_set(s)),
        forall|y: Seq<char>| sorted_set(s).contains(y) <==> s.contains(y),
    decreases s.len(),
{
    if s.len() > 0 {
        let d = s.drop_last();
        lemma_sorted_set(d);
        lemma_with_name(sorted_set(d), s.last());
        assert forall|y: Seq<char>| sorted_set(s).contains(y) <==> s.contains(y) by {
            if s.contains(y) {
                let i = choose|i: int| 0 <= i < s.len() && s[i] == y;
                if i < d.len() {
                    assert(d[i] == y);
                }
            }
            if d.contains(y) {
                let i = choose|i: int| 0 <= i < d.len() && d[i] == y;
                assert(s[i] == y);
            }
            if y == s.last() {
                assert(s[s.len() - 1] == y);
            }
        }
    }
}

/// Puts `name` among the sorted `names`, unless it is there.
pub fn add_name(names: &mut Vec<String>, name: &str)
    ensures
        views(final(names)@) == with_name(views(old(names)@), name@),
{
    let ghost s = views(names@);
    let mut at: usize = 0;
    while at < names.len() && comes_before(names[at].as_str(), name)
        invariant
            s == views(names@),
            at <= names@.len(),
            place(s, name@, 0) == place(s, name@, at as int),
        decreases names.len() - at,
    {
        at = at + 1;
    }
    if at < names.len() && crate::text::same(names[at].as_str(), name) {
        return ;
    }
    names.insert(at, String::from_str(name));
    proof {
        assert(views(names@) =~= s.insert(at as int, name@));
    }
}

} // verus!
