//! Sets of names kept as sorted lists without repeats, the way the
//! synchroniser lists models to the user.
use vstd::prelude::*;
use crate::text::{text_lt, text_less, lemma_text_lt_total, lemma_text_lt_transitive,
    lemma_text_lt_irreflexive, lemma_text_lt_asymmetric};

verus! {

/// Each name comes before the next one in the text order.
pub open spec fn strictly_sorted(v: Seq<String>) -> bool {
    forall|i: int, j: int| 0 <= i < j < v.len() ==> text_lt(#[trigger] v[i]@, #[trigger] v[j]@)
}

/// The texts that the names `v` hold.
pub open spec fn texts(v: Seq<String>) -> Set<Seq<char>> {
    Set::new(|t: Seq<char>| exists|i: int| 0 <= i < v.len() && v[i]@ == t)
}

/// Adds `s` to the sorted set `v`.
pub fn insert_sorted(v: &mut Vec<String>, s: String)
    requires
        strictly_sorted(old(v)@),
    ensures
        strictly_sorted(final(v)@),
        texts(final(v)@) == texts(old(v)@).insert(s@),
{
    let mut p: usize = 0;
    while p < v.len() && text_less(&v[p], &s)
        invariant
            p <= v.len(),
            v@ == old(v)@,
            strictly_sorted(v@),
            forall|j: int| 0 <= j < p ==> text_lt(#[trigger] v@[j]@, s@),
        decreases v.len() - p,
    {
        p = p + 1;
    }
    if p < v.len() && v[p] == s {
        assert(texts(v@) =~= texts(old(v)@).insert(s@)) by {
            assert(texts(v@).contains(s@)) by {
                assert(v@[p as int]@ == s@);
            }
        }
        return;
    }
    let ghost w = v@;
    proof {
        if p < w.len() {
            lemma_text_lt_total(w[p as int]@, s@);
        }
    }
    v.insert(p, s);
    let ghost u = v@;
    assert forall|i: int, j: int| 0 <= i < j < u.len() implies text_lt(#[trigger] u[i]@, #[trigger] u[j]@) by {
        if j < p {
            assert(u[i] == w[i] && u[j] == w[j]);
        } else if j == p {
            assert(u[i] == w[i]);
        } else if i == p {
            assert(u[j] == w[j - 1]);
            if j - 1 > p {
                assert(text_lt(w[p as int]@, w[j - 1]@));
                lemma_text_lt_transitive(s@, w[p as int]@, w[j - 1]@);
            }
        } else if i < p {
            assert(u[i] == w[i] && u[j] == w[j - 1]);
            if j - 1 == p as int {
                lemma_text_lt_transitive(w[i]@, s@, w[p as int]@);
            }
        } else {
            assert(u[i] == w[i - 1] && u[j] == w[j - 1]);
        }
    }
    assert forall|t: Seq<char>| texts(u).contains(t) <==> texts(w).insert(s@).contains(t) by {
        if texts(u).contains(t) {
            let i = choose|i: int| 0 <= i < u.len() && u[i]@ == t;
            if i < p {
                assert(u[i] == w[i]);
            } else if i > p {
                assert(u[i] == w[i - 1]);
            }
        }
        if texts(w).contains(t) {
            let i = choose|i: int| 0 <= i < w.len() && w[i]@ == t;
            if i < p {
                assert(u[i] == w[i]);
            } else {
                assert(u[i + 1] == w[i]);
            }
        }
        if t == s@ {
            assert(u[p as int] == s);
        }
    }
    assert(texts(u) =~= texts(w).insert(s@));
}

/// The distinct names of `names`, sorted.
pub fn sorted_set(names: &Vec<String>) -> (r: Vec<String>)
    ensures
        strictly_sorted(r@),
        texts(r@) == texts(names@),
{
    let mut r: Vec<String> = Vec::new();
    let mut i: usize = 0;
    assert(texts(r@) =~= texts(names@.take(0)));
    while i < names.len()
        invariant
            i <= names.len(),
            strictly_sorted(r@),
            texts(r@) == texts(names@.take(i as int)),
        decreases names.len() - i,
    {
        insert_sorted(&mut r, names[i].clone());
        let ghost pre = names@.take(i as int);
        let ghost post = names@.take(i + 1);
        assert(texts(post) =~= texts(pre).insert(names@[i as int]@)) by {
            assert forall|t: Seq<char>| texts(post).contains(t) implies texts(pre).insert(
                names@[i as int]@,
            ).contains(t) by {
                let j = choose|j: int| 0 <= j < post.len() && post[j]@ == t;
                if j < i {
                    assert(pre[j] == post[j]);
                }
            }
            assert forall|t: Seq<char>| texts(pre).insert(names@[i as int]@).contains(t)
                implies texts(post).contains(t) by {
                if t == names@[i as int]@ {
                    assert(post[i as int] == names@[i as int]);
                } else {
                    let j = choose|j: int| 0 <= j < pre.len() && pre[j]@ == t;
                    assert(post[j] == pre[j]);
                }
            }
        }
        i = i + 1;
    }
    assert(names@.take(names.len() as int) =~= names@);
    r
}

/// A strictly sorted list repeats no name, so it has as many names as its
/// set of texts.
pub proof fn lemma_sorted_len(v: Seq<String>)
    requires
        strictly_sorted(v),
    ensures
        texts(v).finite(),
        texts(v).len() == v.len(),
{
    let tv = v.map_values(|s: String| s@);
    assert forall|i: int, j: int| 0 <= i < tv.len() && 0 <= j < tv.len() && i != j implies tv[i] != tv[j] by {
        if i < j {
            assert(text_lt(v[i]@, v[j]@));
            lemma_text_lt_irreflexive(v[i]@);
        } else {
            assert(text_lt(v[j]@, v[i]@));
            lemma_text_lt_irreflexive(v[j]@);
        }
    }
    assert(tv.no_duplicates());
    tv.unique_seq_to_set();
    assert(tv.to_set() =~= texts(v)) by {
        assert forall|t: Seq<char>| tv.to_set().contains(t) implies texts(v).contains(t) by {
            let i = choose|i: int| 0 <= i < tv.len() && tv[i] == t;
            assert(v[i]@ == t);
        }
        assert forall|t: Seq<char>| texts(v).contains(t) implies tv.to_set().contains(t) by {
            let i = choose|i: int| 0 <= i < v.len() && v[i]@ == t;
            assert(tv[i] == t);
        }
    }
}

/// Each text comes before the next one in the text order.
pub open spec fn ascending(s: Seq<Seq<char>>) -> bool {
    forall|i: int, j: int| 0 <= i < j < s.len() ==> text_lt(#[trigger] s[i], #[trigger] s[j])
}

/// The texts of the names `v`, in order.
pub open spec fn views(v: Seq<String>) -> Seq<Seq<char>> {
    v.map_values(|s: String| s@)
}

/// The keys of `m` in ascending order.
pub open spec fn sorted_keys<V>(m: Map<Seq<char>, V>) -> Seq<Seq<char>> {
    choose|s: Seq<Seq<char>>| ascending(s) && s.to_set() == m.dom()
}

/// A sorted list of names is an ascending list of texts.
pub proof fn lemma_views(v: Seq<String>)
    requires
        strictly_sorted(v),
    ensures
        ascending(views(v)),
        views(v).to_set() == texts(v),
        views(v).len() == v.len(),
{
    let w = views(v);
    assert forall|i: int, j: int| 0 <= i < j < w.len() implies text_lt(#[trigger] w[i], #[trigger] w[j]) by {
        assert(text_lt(v[i]@, v[j]@));
    }
    assert forall|t: Seq<char>| w.to_set().contains(t) <==> texts(v).contains(t) by {
        if w.to_set().contains(t) {
            let i = choose|i: int| 0 <= i < w.len() && w[i] == t;
            assert(v[i]@ == t);
        }
        if texts(v).contains(t) {
            let i = choose|i: int| 0 <= i < v.len() && v[i]@ == t;
            assert(w[i] == t);
        }
    }
    assert(w.to_set() =~= texts(v));
}

/// Two ascending lists of the same texts are the same list.
pub proof fn lemma_ascending_unique(a: Seq<Seq<char>>, b: Seq<Seq<char>>)
    requires
        ascending(a),
        ascending(b),
        a.to_set() == b.to_set(),
    ensures
        a == b,
    decreases a.len(),
{
    if a.len() == 0 {
        if b.len() > 0 {
            assert(b.to_set().contains(b[0]));
        }
        assert(a =~= b);
    } else if b.len() == 0 {
        assert(a.to_set().contains(a[0]));
    } else {
        assert(b.to_set().contains(a[0]));
        assert(a.to_set().contains(b[0]));
        let ia = choose|i: int| 0 <= i < b.len() && b[i] == a[0];
        let ib = choose|i: int| 0 <= i < a.len() && a[i] == b[0];
        if a[0] != b[0] {
            assert(text_lt(b[0], b[ia]));
            assert(text_lt(a[0], a[ib]));
            lemma_text_lt_asymmetric(a[0], b[0]);
        }
        let a1 = a.drop_first();
        let b1 = b.drop_first();
        assert(ascending(a1)) by {
            assert forall|i: int, j: int| 0 <= i < j < a1.len() implies text_lt(#[trigger] a1[i], #[trigger] a1[j]) by {
                assert(a1[i] == a[i + 1] && a1[j] == a[j + 1]);
            }
        }
        assert(ascending(b1)) by {
            assert forall|i: int, j: int| 0 <= i < j < b1.len() implies text_lt(#[trigger] b1[i], #[trigger] b1[j]) by {
                assert(b1[i] == b[i + 1] && b1[j] == b[j + 1]);
            }
        }
        assert(a1.to_set() =~= b1.to_set()) by {
            assert forall|t: Seq<char>| a1.to_set().contains(t) implies b1.to_set().contains(t) by {
                let i = choose|i: int| 0 <= i < a1.len() && a1[i] == t;
                assert(a1[i] == a[i + 1]);
                assert(text_lt(a[0], a[i + 1]));
                assert(a.to_set().contains(t));
                let j = choose|j: int| 0 <= j < b.len() && b[j] == t;
                if j == 0 {
                    lemma_text_lt_irreflexive(t);
                }
                assert(b1[j - 1] == b[j]);
            }
            assert forall|t: Seq<char>| b1.to_set().contains(t) implies a1.to_set().contains(t) by {
                let i = choose|i: int| 0 <= i < b1.len() && b1[i] == t;
                assert(b1[i] == b[i + 1]);
                assert(text_lt(b[0], b[i + 1]));
                assert(b.to_set().contains(t));
                let j = choose|j: int| 0 <= j < a.len() && a[j] == t;
                if j == 0 {
                    lemma_text_lt_irreflexive(t);
                }
                assert(a1[j - 1] == a[j]);
            }
        }
        lemma_ascending_unique(a1, b1);
        assert(a =~= seq![a[0]] + a1);
        assert(b =~= seq![b[0]] + b1);
    }
}

/// A sorted list of names holding the keys of `m` lists them as
/// `sorted_keys` does.
pub proof fn lemma_sorted_keys<V>(v: Seq<String>, m: Map<Seq<char>, V>)
    requires
        strictly_sorted(v),
        texts(v) == m.dom(),
    ensures
        views(v) == sorted_keys(m),
        ascending(sorted_keys(m)),
        sorted_keys(m).to_set() == m.dom(),
{
    lemma_views(v);
    let s = sorted_keys(m);
    assert(ascending(s) && s.to_set() == m.dom());
    lemma_ascending_unique(views(v), s);
}


/// The first position of `s` whose text does not come before `x`, or the
/// length of `s`.
pub open spec fn first_not_below(s: Seq<Seq<char>>, x: Seq<char>) -> int
    decreases s.len(),
{
    if s.len() == 0 {
        0
    } else if text_lt(s[0], x) {
        1 + first_not_below(s.drop_first(), x)
    } else {
        0
    }
}

proof fn lemma_first_not_below(s: Seq<Seq<char>>, x: Seq<char>)
    requires
        ascending(s),
    ensures
        0 <= first_not_below(s, x) <= s.len(),
        forall|j: int| 0 <= j < first_not_below(s, x) ==> text_lt(#[trigger] s[j], x),
        first_not_below(s, x) < s.len() ==> !text_lt(s[first_not_below(s, x)], x),
    decreases s.len(),
{
    if s.len() > 0 && text_lt(s[0], x) {
        let t = s.drop_first();
        assert(ascending(t)) by {
            assert forall|i: int, j: int| 0 <= i < j < t.len() implies text_lt(#[trigger] t[i], #[trigger] t[j]) by {
                assert(t[i] == s[i + 1] && t[j] == s[j + 1]);
            }
        }
        lemma_first_not_below(t, x);
        assert forall|j: int| 0 <= j < first_not_below(s, x) implies text_lt(#[trigger] s[j], x) by {
            if j > 0 {
                assert(s[j] == t[j - 1]);
            }
        }
        if first_not_below(s, x) < s.len() {
            assert(s[first_not_below(s, x)] == t[first_not_below(t, x)]);
        }
    }
}

/// Every finite set of texts can be listed in ascending order.
pub proof fn lemma_ascending_exists(s: Set<Seq<char>>) -> (r: Seq<Seq<char>>)
    requires
        s.finite(),
    ensures
        ascending(r),
        r.to_set() == s,
    decreases s.len(),
{
    if s.len() == 0 {
        let r = Seq::<Seq<char>>::empty();
        vstd::set_lib::lemma_set_empty_equivalency_len(s);
        assert(r.to_set() =~= s);
        r
    } else {
        let x = s.choose();
        assert(s.contains(x)) by {
            vstd::set_lib::lemma_set_empty_equivalency_len(s);
        }
        let rest = lemma_ascending_exists(s.remove(x));
        lemma_first_not_below(rest, x);
        let p = first_not_below(rest, x);
        let r = rest.insert(p, x);
        assert(!rest.to_set().contains(x));
        if p < rest.len() {
            lemma_text_lt_total(rest[p], x);
            assert(rest[p] != x) by {
                assert(rest.to_set().contains(rest[p]));
            }
        }
        assert forall|i: int, j: int| 0 <= i < j < r.len() implies text_lt(#[trigger] r[i], #[trigger] r[j]) by {
            if j < p {
                assert(r[i] == rest[i] && r[j] == rest[j]);
            } else if j == p {
                assert(r[i] == rest[i]);
            } else if i == p {
                assert(r[j] == rest[j - 1]);
                if j - 1 > p {
                    lemma_text_lt_transitive(x, rest[p], rest[j - 1]);
                }
            } else if i < p {
                assert(r[i] == rest[i] && r[j] == rest[j - 1]);
                if j - 1 == p {
                    lemma_text_lt_transitive(rest[i], x, rest[p]);
                } else {
                    assert(text_lt(rest[i], rest[j - 1]));
                }
            } else {
                assert(r[i] == rest[i - 1] && r[j] == rest[j - 1]);
            }
        }
        assert forall|t: Seq<char>| r.to_set().contains(t) <==> s.contains(t) by {
            if r.to_set().contains(t) {
                let i = choose|i: int| 0 <= i < r.len() && r[i] == t;
                if i < p {
                    assert(rest[i] == t);
                    assert(rest.to_set().contains(t));
                } else if i > p {
                    assert(rest[i - 1] == t);
                    assert(rest.to_set().contains(t));
                }
            }
            if s.contains(t) {
                if t == x {
                    assert(r[p] == x);
                } else {
                    assert(s.remove(x).contains(t));
                    let i = choose|i: int| 0 <= i < rest.len() && rest[i] == t;
                    if i < p {
                        assert(r[i] == t);
                    } else {
                        assert(r[i + 1] == t);
                    }
                }
            }
        }
        assert(r.to_set() =~= s);
        r
    }
}

/// The keys of a map with finitely many keys, listed by `sorted_keys`, are
/// ascending and are its keys.
pub proof fn lemma_sorted_keys_of_finite<V>(m: Map<Seq<char>, V>)
    requires
        m.dom().finite(),
    ensures
        ascending(sorted_keys(m)),
        sorted_keys(m).to_set() == m.dom(),
{
    let w = lemma_ascending_exists(m.dom());
    assert(ascending(w) && w.to_set() == m.dom());
}

} // verus!
