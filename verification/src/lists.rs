//! Stored list entries: lists of names kept in strictly ascending order, so
//! that a list holds no name twice and does not depend on the order in which
//! its names arrived.

use crate::text::{chars_of, views};
use vstd::prelude::*;

verus! {

/// `a` comes before `b` when the two are compared character by character,
/// each character by its code point; a proper prefix comes first.
pub open spec fn lex_lt(a: Seq<char>, b: Seq<char>) -> bool
    decreases a.len(),
{
    if b.len() == 0 {
        false
    } else if a.len() == 0 {
        true
    } else if a[0] != b[0] {
        (a[0] as u32) < (b[0] as u32)
    } else {
        lex_lt(a.drop_first(), b.drop_first())
    }
}

/// Every name of `s` comes before every later one.
pub open spec fn strictly_sorted(s: Seq<Seq<char>>) -> bool {
    forall|i: int, j: int| 0 <= i < j < s.len() ==> lex_lt(s[i], s[j])
}

/// `s` with `x` put at its place. `s` is unchanged where it holds `x` already.
pub open spec fn insert_sorted(s: Seq<Seq<char>>, x: Seq<char>) -> Seq<Seq<char>>
    decreases s.len(),
{
    if s.len() == 0 {
        seq![x]
    } else if s.last() == x {
        s
    } else if lex_lt(s.last(), x) {
        s.push(x)
    } else {
        insert_sorted(s.drop_last(), x).push(s.last())
    }
}

/// The names of `s` in strictly ascending order, each once.
pub open spec fn sort_dedup(s: Seq<Seq<char>>) -> Seq<Seq<char>>
    decreases s.len(),
{
    if s.len() == 0 {
        Seq::empty()
    } else {
        insert_sorted(sort_dedup(s.drop_last()), s.last())
    }
}

/// No name comes before itself.
pub proof fn lemma_lex_lt_irreflexive(a: Seq<char>)
    ensures
        !lex_lt(a, a),
    decreases a.len(),
{
    if a.len() != 0 {
        lemma_lex_lt_irreflexive(a.drop_first());
    }
}

/// Of two different names one comes before the other, and only one.
pub proof fn lemma_lex_lt_total(a: Seq<char>, b: Seq<char>)
    ensures
        a != b ==> (lex_lt(a, b) || lex_lt(b, a)),
        !(lex_lt(a, b) && lex_lt(b, a)),
    decreases a.len(),
{
    if a.len() == 0 || b.len() == 0 {
        if a.len() == 0 && b.len() == 0 {
            assert(a =~= b);
        }
    } else if a[0] != b[0] {
        let x = a[0] as u32;
        let y = b[0] as u32;
        vstd::utf8::char_u32_cast(a[0], x);
        vstd::utf8::char_u32_cast(b[0], y);
    } else {
        lemma_lex_lt_total(a.drop_first(), b.drop_first());
        if a.drop_first() == b.drop_first() {
            assert(a =~= seq![a[0]] + a.drop_first());
            assert(b =~= seq![b[0]] + b.drop_first());
        }
    }
}

/// The order is transitive.
pub proof fn lemma_lex_lt_transitive(a: Seq<char>, b: Seq<char>, c: Seq<char>)
    requires
        lex_lt(a, b),
        lex_lt(b, c),
    ensures
        lex_lt(a, c),
    decreases a.len(),
{
    if a.len() != 0 {
        if a[0] == b[0] && b[0] == c[0] {
            lemma_lex_lt_transitive(a.drop_first(), b.drop_first(), c.drop_first());
        }
    }
}

/// Putting a name into a sorted list leaves it sorted, and adds that name
/// and no other.
pub proof fn lemma_insert_sorted(s: Seq<Seq<char>>, x: Seq<char>)
    requires
        strictly_sorted(s),
    ensures
        strictly_sorted(insert_sorted(s, x)),
        forall|y: Seq<char>|
            #![trigger insert_sorted(s, x).contains(y)]
            #![trigger s.contains(y)]
            insert_sorted(s, x).contains(y) <==> (s.contains(y) || y == x),
        insert_sorted(s, x).contains(x),
        s.len() <= insert_sorted(s, x).len() <= s.len() + 1,
    decreases s.len(),
{
    let r = insert_sorted(s, x);
    if s.len() == 0 {
        assert(r[0] == x);
        assert forall|y: Seq<char>| r.contains(y) <==> (s.contains(y) || y == x) by {}
    } else if s.last() == x {
        assert(s.contains(x));
    } else if lex_lt(s.last(), x) {
        assert forall|i: int, j: int| 0 <= i < j < r.len() implies lex_lt(r[i], r[j]) by {
            if j == s.len() {
                if i < s.len() - 1 {
                    lemma_lex_lt_transitive(s[i], s.last(), x);
                }
            }
        }
        assert forall|y: Seq<char>| r.contains(y) <==> (s.contains(y) || y == x) by {
            if s.contains(y) {
                let k = choose|k: int| 0 <= k < s.len() && s[k] == y;
                assert(r[k] == y);
            }
            if y == x {
                assert(r[s.len() as int] == x);
            }
        }
    } else {
        let t = s.drop_last();
        let u = insert_sorted(t, x);
        assert forall|i: int, j: int| 0 <= i < j < t.len() implies lex_lt(t[i], t[j]) by {
            assert(t[i] == s[i] && t[j] == s[j]);
        }
        lemma_insert_sorted(t, x);
        lemma_lex_lt_total(s.last(), x);
        assert forall|i: int, j: int| 0 <= i < j < r.len() implies lex_lt(r[i], r[j]) by {
            if j == u.len() {
                assert(u.contains(u[i]));
                if t.contains(u[i]) {
                    let k = choose|k: int| 0 <= k < t.len() && t[k] == u[i];
                    assert(s[k] == u[i]);
                }
            }
        }
        assert forall|y: Seq<char>| r.contains(y) <==> (s.contains(y) || y == x) by {
            if r.contains(y) {
                let k = choose|k: int| 0 <= k < r.len() && r[k] == y;
                if k < u.len() {
                    assert(u.contains(y));
                    if t.contains(y) {
                        let m = choose|m: int| 0 <= m < t.len() && t[m] == y;
                        assert(s[m] == y);
                    }
                } else {
                    assert(s[s.len() - 1] == y);
                }
            }
            if s.contains(y) {
                let k = choose|k: int| 0 <= k < s.len() && s[k] == y;
                if k < t.len() {
                    assert(t[k] == y);
                    assert(t.contains(y));
                    let m = choose|m: int| 0 <= m < u.len() && u[m] == y;
                    assert(r[m] == y);
                } else {
                    assert(r[u.len() as int] == y);
                }
            }
            if y == x {
                let m = choose|m: int| 0 <= m < u.len() && u[m] == x;
                assert(r[m] == x);
            }
        }
    }
}

/// Sorting gives a sorted list with the names of the list that was sorted.
pub proof fn lemma_sort_dedup(s: Seq<Seq<char>>)
    ensures
        strictly_sorted(sort_dedup(s)),
        forall|y: Seq<char>|
            #![trigger sort_dedup(s).contains(y)]
            #![trigger s.contains(y)]
            sort_dedup(s).contains(y) <==> s.contains(y),
        sort_dedup(s).len() <= s.len(),
    decreases s.len(),
{
    if s.len() != 0 {
        let t = s.drop_last();
        lemma_sort_dedup(t);
        lemma_insert_sorted(sort_dedup(t), s.last());
        assert forall|y: Seq<char>| sort_dedup(s).contains(y) <==> s.contains(y) by {
            if s.contains(y) {
                let k = choose|k: int| 0 <= k < s.len() && s[k] == y;
                if k < t.len() {
                    assert(t[k] == y);
                }
            }
            if t.contains(y) {
                let k = choose|k: int| 0 <= k < t.len() && t[k] == y;
                assert(s[k] == y);
            }
            if y == s.last() {
                assert(s[s.len() - 1] == y);
            }
        }
    }
}

/// A strictly sorted list is determined by the names it holds.
pub proof fn lemma_sorted_lists_equal(a: Seq<Seq<char>>, b: Seq<Seq<char>>)
    requires
        strictly_sorted(a),
        strictly_sorted(b),
        forall|y: Seq<char>| a.contains(y) <==> b.contains(y),
    ensures
        a == b,
    decreases a.len(),
{
    if a.len() == 0 {
        if b.len() != 0 {
            assert(b.contains(b[0]));
        }
        assert(a =~= b);
    } else if b.len() == 0 {
        assert(a.contains(a[0]));
    } else {
        let x = a.last();
        let y = b.last();
        assert(a.contains(x));
        assert(b.contains(y));
        let i = choose|i: int| 0 <= i < b.len() && b[i] == x;
        let j = choose|j: int| 0 <= j < a.len() && a[j] == y;
        lemma_lex_lt_total(x, y);
        lemma_lex_lt_irreflexive(x);
        if x != y {
            // x is in b before y, and y is in a before x
            assert(i < b.len() - 1);
            assert(j < a.len() - 1);
            assert(lex_lt(x, y));
            assert(lex_lt(y, x));
        }
        let a1 = a.drop_last();
        let b1 = b.drop_last();
        assert forall|z: Seq<char>| a1.contains(z) <==> b1.contains(z) by {
            lemma_lex_lt_irreflexive(z);
            if a1.contains(z) {
                let k = choose|k: int| 0 <= k < a1.len() && a1[k] == z;
                assert(a[k] == z);
                assert(lex_lt(a[k], a[a.len() - 1]));
                assert(b.contains(z));
                let m = choose|m: int| 0 <= m < b.len() && b[m] == z;
                assert(b1[m] == z);
            }
            if b1.contains(z) {
                let k = choose|k: int| 0 <= k < b1.len() && b1[k] == z;
                assert(b[k] == z);
                assert(lex_lt(b[k], b[b.len() - 1]));
                assert(a.contains(z));
                let m = choose|m: int| 0 <= m < a.len() && a[m] == z;
                assert(a1[m] == z);
            }
        }
        assert forall|p: int, q: int| 0 <= p < q < a1.len() implies lex_lt(a1[p], a1[q]) by {
            assert(a1[p] == a[p] && a1[q] == a[q]);
        }
        assert forall|p: int, q: int| 0 <= p < q < b1.len() implies lex_lt(b1[p], b1[q]) by {
            assert(b1[p] == b[p] && b1[q] == b[q]);
        }
        lemma_sorted_lists_equal(a1, b1);
        assert(a =~= a1.push(x));
        assert(b =~= b1.push(y));
    }
}

/// Where `x` goes in a sorted list: after everything smaller, before
/// everything larger, and not at all where it is there already.
pub proof fn lemma_insert_sorted_at(s: Seq<Seq<char>>, x: Seq<char>, k: int)
    requires
        strictly_sorted(s),
        0 <= k <= s.len(),
        forall|j: int| k <= j < s.len() ==> lex_lt(x, s[j]),
        k > 0 ==> !lex_lt(x, s[k - 1]),
    ensures
        insert_sorted(s, x) == if k > 0 && s[k - 1] == x {
            s
        } else {
            s.insert(k, x)
        },
    decreases s.len(),
{
    if s.len() == 0 {
        assert(s.insert(0, x) =~= seq![x]);
    } else if k == s.len() {
        lemma_lex_lt_total(s.last(), x);
        if s.last() != x {
            assert(s.insert(k, x) =~= s.push(x));
        }
    } else {
        let t = s.drop_last();
        lemma_lex_lt_total(s.last(), x);
        lemma_lex_lt_irreflexive(x);
        assert(lex_lt(x, s[s.len() - 1]));
        assert forall|i: int, j: int| 0 <= i < j < t.len() implies lex_lt(t[i], t[j]) by {
            assert(t[i] == s[i] && t[j] == s[j]);
        }
        assert forall|j: int| k <= j < t.len() implies lex_lt(x, t[j]) by {
            assert(t[j] == s[j]);
        }
        if k > 0 {
            assert(t[k - 1] == s[k - 1]);
        }
        lemma_insert_sorted_at(t, x, k);
        if k > 0 && s[k - 1] == x {
            assert(t.push(s.last()) =~= s);
        } else {
            assert(t.insert(k, x).push(s.last()) =~= s.insert(k, x));
        }
    }
}

/// Two names that agree in their first `upto` characters are in the order
/// of what follows those characters.
pub proof fn lemma_lex_lt_after_prefix(a: Seq<char>, b: Seq<char>, upto: int)
    requires
        0 <= upto <= a.len(),
        upto <= b.len(),
        forall|j: int| 0 <= j < upto ==> a[j] == b[j],
    ensures
        lex_lt(a, b) == lex_lt(a.skip(upto), b.skip(upto)),
    decreases upto,
{
    if upto == 0 {
        assert(a.skip(0) =~= a);
        assert(b.skip(0) =~= b);
    } else {
        let x = a.drop_first();
        let y = b.drop_first();
        assert forall|j: int| 0 <= j < upto - 1 implies x[j] == y[j] by {
            assert(x[j] == a[j + 1] && y[j] == b[j + 1]);
        }
        lemma_lex_lt_after_prefix(x, y, upto - 1);
        assert(x.skip(upto - 1) =~= a.skip(upto));
        assert(y.skip(upto - 1) =~= b.skip(upto));
        assert(a[0] == b[0]);
    }
}

/// Does `a` come before `b`, the two compared character by character, each
/// character by its code point?
pub fn string_lt(a: &str, b: &str) -> (r: bool)
    ensures
        r == lex_lt(a@, b@),
{
    let x = chars_of(a);
    let y = chars_of(b);
    let mut i: usize = 0;
    while i < x.len() && i < y.len()
        invariant
            i <= x.len(),
            i <= y.len(),
            x@ == a@,
            y@ == b@,
            forall|j: int| 0 <= j < i ==> x@[j] == y@[j],
        decreases x.len() - i,
    {
        if x[i] != y[i] {
            proof {
                lemma_lex_lt_after_prefix(x@, y@, i as int);
                assert(x@.skip(i as int)[0] == x@[i as int]);
                assert(y@.skip(i as int)[0] == y@[i as int]);
            }
            return (x[i] as u32) < (y[i] as u32);
        }
        i += 1;
    }
    proof {
        lemma_lex_lt_after_prefix(x@, y@, i as int);
    }
    x.len() < y.len()
}

/// Puts `entry` at its place in a sorted list.
pub fn insert_entry(list: &mut Vec<String>, entry: String)
    requires
        strictly_sorted(views(old(list)@)),
    ensures
        views(final(list)@) == insert_sorted(views(old(list)@), entry@),
        strictly_sorted(views(final(list)@)),
{
    let ghost s = views(list@);
    let mut k: usize = list.len();
    while k > 0 && string_lt(entry.as_str(), list[k - 1].as_str())
        invariant
            k <= list.len(),
            s == views(list@),
            forall|j: int| k <= j < s.len() ==> lex_lt(entry@, s[j]),
        decreases k,
    {
        k -= 1;
    }
    proof {
        lemma_insert_sorted_at(s, entry@, k as int);
        lemma_insert_sorted(s, entry@);
    }
    if k > 0 && list[k - 1] == entry {
        return;
    }
    list.insert(k, entry);
    proof {
        assert(views(list@) =~= s.insert(k as int, entry@));
    }
}

/// The names of `list` in strictly ascending order, each once.
pub fn sorted_unique(list: Vec<String>) -> (out: Vec<String>)
    ensures
        views(out@) == sort_dedup(views(list@)),
        strictly_sorted(views(out@)),
{
    let mut out: Vec<String> = Vec::new();
    let mut i: usize = 0;
    proof {
        assert(views(list@).take(0) =~= Seq::<Seq<char>>::empty());
    }
    while i < list.len()
        invariant
            i <= list.len(),
            views(out@) == sort_dedup(views(list@).take(i as int)),
            strictly_sorted(views(out@)),
        decreases list.len() - i,
    {
        proof {
            let next = views(list@).take(i + 1);
            assert(next.drop_last() =~= views(list@).take(i as int));
            assert(next.last() == list@[i as int]@);
        }
        insert_entry(&mut out, list[i].clone());
        i += 1;
    }
    proof {
        assert(views(list@).take(list.len() as int) =~= views(list@));
    }
    out
}

} // verus!
