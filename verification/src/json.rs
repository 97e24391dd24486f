//! The JSON documents that the synchroniser reads and writes.
//!
//! A value holds plain data only: numbers keep the form that a JSON reader
//! gives them (a non-negative integer, a negative integer, or the bits of a
//! finite double), and an object keeps its members as key/value pairs with
//! distinct keys. What a value means is its view, in which an object is a
//! map from keys to values; two values are the same document exactly when
//! their views are equal.
use vstd::prelude::*;
use crate::text::owned;
use crate::names::texts;

verus! {

/// A JSON number as a JSON reader yields it.
#[derive(PartialEq, Eq, Structural, Clone, Copy)]
pub enum JsonNumber {
    /// An integer that is zero or more.
    PosInt(u64),
    /// An integer below zero.
    NegInt(i64),
    /// Any other number, by the bits of its finite IEEE-754 double.
    Float(u64),
}

/// The bits of the double negative zero.
pub const NEG_ZERO_BITS: u64 = 0x8000_0000_0000_0000u64;

impl JsonNumber {
    /// Negative integers are below zero; doubles are finite.
    pub open spec fn wf(self) -> bool {
        match self {
            JsonNumber::PosInt(_) => true,
            JsonNumber::NegInt(i) => i < 0,
            JsonNumber::Float(bits) => (bits >> 52u64) & 0x7ffu64 != 0x7ffu64,
        }
    }

    /// The number a value stands for: the two zeros of a double are one number.
    pub open spec fn value(self) -> JsonNumber {
        match self {
            JsonNumber::Float(bits) => if bits == NEG_ZERO_BITS {
                JsonNumber::Float(0)
            } else {
                self
            },
            _ => self,
        }
    }
}

/// A JSON document.
pub enum JsonValue {
    Null,
    Bool(bool),
    Number(JsonNumber),
    Str(String),
    Array(Vec<JsonValue>),
    /// Members in their stored order; the keys are distinct.
    Object(Vec<(String, JsonValue)>),
}

/// What a JSON document means.
pub enum JsonView {
    Null,
    Bool(bool),
    Number(JsonNumber),
    Str(Seq<char>),
    Array(Seq<JsonView>),
    Object(Map<Seq<char>, JsonView>),
}

/// No two members of `es` have the same key.
pub open spec fn keys_distinct(es: Seq<(String, JsonValue)>) -> bool {
    forall|i: int, j: int|
        0 <= i < es.len() && 0 <= j < es.len() && i != j ==> es[i].0@ != es[j].0@
}

/// The keys of the members `es`.
pub open spec fn keys_of(es: Seq<(String, JsonValue)>) -> Set<Seq<char>> {
    Set::new(|k: Seq<char>| exists|i: int| 0 <= i < es.len() && es[i].0@ == k)
}

/// The position of the member with key `k`, when `k` is a key of `es`.
pub open spec fn index_of_key(es: Seq<(String, JsonValue)>, k: Seq<char>) -> int {
    choose|i: int| 0 <= i < es.len() && es[i].0@ == k
}

/// The map that the members `es` stand for.
pub open spec fn members_view(es: Seq<(String, JsonValue)>) -> Map<Seq<char>, JsonView>
    decreases es,
{
    Map::new(
        |k: Seq<char>| keys_of(es).contains(k),
        |k: Seq<char>|
            {
                let i = index_of_key(es, k);
                if 0 <= i < es.len() {
                    es[i].1.view()
                } else {
                    JsonView::Null
                }
            },
    )
}

impl JsonValue {
    pub open spec fn view(self) -> JsonView
        decreases self,
    {
        match self {
            JsonValue::Null => JsonView::Null,
            JsonValue::Bool(b) => JsonView::Bool(b),
            JsonValue::Number(n) => JsonView::Number(n),
            JsonValue::Str(s) => JsonView::Str(s@),
            JsonValue::Array(v) => JsonView::Array(
                Seq::new(
                    v.len() as nat,
                    |i: int|
                        if 0 <= i < v.len() {
                            v@[i].view()
                        } else {
                            JsonView::Null
                        },
                ),
            ),
            JsonValue::Object(es) => JsonView::Object(members_view(es@)),
        }
    }

    /// Numbers are well formed and no object repeats a key, at any depth.
    pub open spec fn wf(self) -> bool
        decreases self,
    {
        match self {
            JsonValue::Number(n) => n.wf(),
            JsonValue::Array(v) => forall|i: int| 0 <= i < v.len() ==> (#[trigger] v@[i]).wf(),
            JsonValue::Object(es) => keys_distinct(es@) && forall|i: int|
                0 <= i < es.len() ==> (#[trigger] es@[i]).1.wf(),
            _ => true,
        }
    }
}


/// The member that key `k` names in the document `v`, when `v` is an object
/// that has one.
pub open spec fn member(v: JsonView, k: Seq<char>) -> Option<JsonView> {
    match v {
        JsonView::Object(m) => if m.contains_key(k) {
            Some(m[k])
        } else {
            None
        },
        _ => None,
    }
}

/// With distinct keys, the member at position `i` is the one its key names.
pub proof fn lemma_member_at(es: Seq<(String, JsonValue)>, i: int)
    requires
        keys_distinct(es),
        0 <= i < es.len(),
    ensures
        keys_of(es).contains(es[i].0@),
        index_of_key(es, es[i].0@) == i,
        members_view(es).contains_key(es[i].0@),
        members_view(es)[es[i].0@] == es[i].1.view(),
{
    assert(keys_of(es).contains(es[i].0@));
}

/// The position of the member with key `key`, if any.
pub fn find_member(es: &Vec<(String, JsonValue)>, key: &String) -> (r: Option<usize>)
    ensures
        match r {
            Some(i) => i < es.len() && es@[i as int].0@ == key@,
            None => !keys_of(es@).contains(key@),
        },
{
    let mut i: usize = 0;
    while i < es.len()
        invariant
            i <= es.len(),
            forall|j: int| 0 <= j < i ==> es@[j].0@ != key@,
        decreases es.len() - i,
    {
        if es[i].0 == *key {
            return Some(i);
        }
        i = i + 1;
    }
    None
}

impl JsonValue {
    /// The member named `key`, when this is an object that has one
    /// (`Value::get` with a string index).
    pub fn get(&self, key: &str) -> (r: Option<&JsonValue>)
        requires
            self.wf(),
        ensures
            match r {
                Some(x) => member(self.view(), key@) == Some(x.view()) && x.wf(),
                None => member(self.view(), key@) is None,
            },
    {
        match self {
            JsonValue::Object(es) => {
                let k = owned(key);
                match find_member(es, &k) {
                    Some(i) => {
                        proof {
                            lemma_member_at(es@, i as int);
                        }
                        Some(&es[i].1)
                    },
                    None => None,
                }
            },
            _ => None,
        }
    }

    /// The text of a string value.
    pub fn as_str(&self) -> (r: Option<&String>)
        ensures
            match self.view() {
                JsonView::Str(t) => r matches Some(x) && x@ == t,
                _ => r is None,
            },
    {
        match self {
            JsonValue::Str(t) => Some(t),
            _ => None,
        }
    }

    /// A non-negative integer value, as `u64`.
    pub fn as_u64(&self) -> (r: Option<u64>)
        ensures
            r == match self.view() {
                JsonView::Number(JsonNumber::PosInt(n)) => Some(n),
                _ => None::<u64>,
            },
    {
        match self {
            JsonValue::Number(JsonNumber::PosInt(n)) => Some(*n),
            _ => None,
        }
    }

    /// A boolean value.
    pub fn as_bool(&self) -> (r: Option<bool>)
        ensures
            r == match self.view() {
                JsonView::Bool(b) => Some(b),
                _ => None::<bool>,
            },
    {
        match self {
            JsonValue::Bool(b) => Some(*b),
            _ => None,
        }
    }
}

/// A document with each number replaced by the number it stands for, so
/// that two documents are the same document exactly when their canonical
/// forms are equal.
pub open spec fn canonical(v: JsonView) -> JsonView
    decreases v,
{
    match v {
        JsonView::Number(n) => JsonView::Number(n.value()),
        JsonView::Array(s) => JsonView::Array(
            Seq::new(
                s.len(),
                |i: int|
                    if 0 <= i < s.len() {
                        canonical(s[i])
                    } else {
                        JsonView::Null
                    },
            ),
        ),
        JsonView::Object(m) => JsonView::Object(
            Map::new(
                |k: Seq<char>| m.contains_key(k),
                |k: Seq<char>|
                    if m.dom().finite() && m.contains_key(k) {
                        canonical(m[k])
                    } else {
                        JsonView::Null
                    },
            ),
        ),
        _ => v,
    }
}

/// `a` and `b` are the same document: they differ at most in the sign of
/// a zero (`==` on `serde_json::Value`).
pub open spec fn same_document(a: JsonView, b: JsonView) -> bool {
    canonical(a) == canonical(b)
}

/// Whether two well-formed documents are the same document (`==` on
/// `serde_json::Value`): numbers compare by value, arrays element by
/// element, objects as maps from keys to values.
pub fn json_eq(a: &JsonValue, b: &JsonValue) -> (r: bool)
    requires
        a.wf(),
        b.wf(),
    ensures
        r == same_document(a.view(), b.view()),
    decreases a,
{
    match (a, b) {
        (JsonValue::Null, JsonValue::Null) => true,
        (JsonValue::Bool(x), JsonValue::Bool(y)) => *x == *y,
        (JsonValue::Number(x), JsonValue::Number(y)) => number_eq(*x, *y),
        (JsonValue::Str(x), JsonValue::Str(y)) => *x == *y,
        (JsonValue::Array(xs), JsonValue::Array(ys)) => {
            let ghost ca = canonical(a.view())->Array_0;
            let ghost cb = canonical(b.view())->Array_0;
            if xs.len() != ys.len() {
                assert(ca.len() != cb.len());
                return false;
            }
            let mut i: usize = 0;
            while i < xs.len()
                invariant
                    xs.len() == ys.len(),
                    i <= xs.len(),
                    *a == JsonValue::Array(*xs),
                    *b == JsonValue::Array(*ys),
                    a.wf(),
                    b.wf(),
                    ca == canonical(a.view())->Array_0,
                    cb == canonical(b.view())->Array_0,
                    forall|j: int| 0 <= j < i ==> #[trigger] ca[j] == cb[j],
                decreases xs.len() - i,
            {
                assert(xs@[i as int].wf());
                assert(ys@[i as int].wf());
                assert(ca[i as int] == canonical(xs@[i as int].view()));
                assert(cb[i as int] == canonical(ys@[i as int].view()));
                if !json_eq(&xs[i], &ys[i]) {
                    return false;
                }
                i = i + 1;
            }
            assert(ca =~= cb);
            true
        },
        (JsonValue::Object(xs), JsonValue::Object(ys)) => {
            let ghost mx = members_view(xs@);
            let ghost my = members_view(ys@);
            let ghost cx = canonical(a.view())->Object_0;
            let ghost cy = canonical(b.view())->Object_0;
            proof {
                lemma_members_finite(xs@);
                lemma_members_finite(ys@);
            }
            let mut i: usize = 0;
            while i < xs.len()
                invariant
                    i <= xs.len(),
                    *a == JsonValue::Object(*xs),
                    *b == JsonValue::Object(*ys),
                    a.wf(),
                    b.wf(),
                    mx == members_view(xs@),
                    my == members_view(ys@),
                    mx.dom().finite(),
                    my.dom().finite(),
                    cx == canonical(a.view())->Object_0,
                    cy == canonical(b.view())->Object_0,
                    forall|j: int|
                        0 <= j < i ==> #[trigger] my.contains_key(xs@[j].0@) && cy[xs@[j].0@]
                            == cx[xs@[j].0@],
                decreases xs.len() - i,
            {
                proof {
                    lemma_member_at(xs@, i as int);
                }
                match find_member(ys, &xs[i].0) {
                    None => {
                        assert(!my.contains_key(xs@[i as int].0@));
                        assert(cx.contains_key(xs@[i as int].0@) && !cy.contains_key(xs@[i as int].0@));
                        return false;
                    },
                    Some(k) => {
                        proof {
                            lemma_member_at(ys@, k as int);
                        }
                        assert(xs@[i as int].1.wf());
                        assert(ys@[k as int].1.wf());
                        if !json_eq(&xs[i].1, &ys[k].1) {
                            assert(cx[xs@[i as int].0@] != cy[xs@[i as int].0@]);
                            return false;
                        }
                    },
                }
                i = i + 1;
            }
            let mut j: usize = 0;
            while j < ys.len()
                invariant
                    j <= ys.len(),
                    *a == JsonValue::Object(*xs),
                    *b == JsonValue::Object(*ys),
                    a.wf(),
                    b.wf(),
                    mx == members_view(xs@),
                    my == members_view(ys@),
                    mx.dom().finite(),
                    my.dom().finite(),
                    cx == canonical(a.view())->Object_0,
                    cy == canonical(b.view())->Object_0,
                    forall|j: int|
                        0 <= j < xs.len() ==> #[trigger] my.contains_key(xs@[j].0@) && cy[xs@[j].0@]
                            == cx[xs@[j].0@],
                    forall|k: int| 0 <= k < j ==> #[trigger] mx.contains_key(ys@[k].0@),
                decreases ys.len() - j,
            {
                match find_member(xs, &ys[j].0) {
                    None => {
                        proof {
                            lemma_member_at(ys@, j as int);
                        }
                        assert(!mx.contains_key(ys@[j as int].0@));
                        assert(cy.contains_key(ys@[j as int].0@) && !cx.contains_key(ys@[j as int].0@));
                        return false;
                    },
                    Some(_) => {},
                }
                j = j + 1;
            }
            assert forall|k: Seq<char>| mx.contains_key(k) implies my.contains_key(k) && cy[k] == cx[k] by {
                let t = index_of_key(xs@, k);
                lemma_member_at(xs@, t);
            }
            assert forall|k: Seq<char>| my.contains_key(k) implies mx.contains_key(k) by {
                let t = index_of_key(ys@, k);
                assert(mx.contains_key(ys@[t].0@));
            }
            assert(cx =~= cy);
            true
        },
        _ => false,
    }
}

/// Whether two well-formed numbers are the same number.
pub fn number_eq(x: JsonNumber, y: JsonNumber) -> (r: bool)
    requires
        x.wf(),
        y.wf(),
    ensures
        r == (x.value() == y.value()),
{
    match (x, y) {
        (JsonNumber::PosInt(p), JsonNumber::PosInt(q)) => p == q,
        (JsonNumber::NegInt(p), JsonNumber::NegInt(q)) => p == q,
        (JsonNumber::Float(p), JsonNumber::Float(q)) => {
            p == q || (p == 0 && q == NEG_ZERO_BITS) || (p == NEG_ZERO_BITS && q == 0)
        },
        _ => false,
    }
}


/// The members of `v` as a map: those of an object, none otherwise.
pub open spec fn base_map(v: JsonView) -> Map<Seq<char>, JsonView> {
    match v {
        JsonView::Object(m) => m,
        _ => Map::empty(),
    }
}

/// `v[k]` can be assigned (indexing with a string key turns `null` into an
/// empty object first and panics on any other non-object).
pub open spec fn indexable(v: JsonView) -> bool {
    v is Null || v is Object
}

/// What `v[k]` reads before it is assigned: the member, or `null` when absent.
pub open spec fn child_or_null(v: JsonView, k: Seq<char>) -> JsonView {
    match member(v, k) {
        Some(c) => c,
        None => JsonView::Null,
    }
}

/// The document after `v[k] = x`.
pub open spec fn with_member(v: JsonView, k: Seq<char>, x: JsonView) -> JsonView {
    JsonView::Object(base_map(v).insert(k, x))
}

/// `v[p[i]][p[i + 1]]...[p[p.len() - 1]] = x` does not panic.
pub open spec fn settable_from(v: JsonView, p: Seq<Seq<char>>, i: int) -> bool
    decreases p.len() - i,
{
    if i < 0 || i >= p.len() {
        true
    } else {
        indexable(v) && settable_from(child_or_null(v, p[i]), p, i + 1)
    }
}

/// The document after `v[p[i]][p[i + 1]]...[p[p.len() - 1]] = x`.
pub open spec fn set_from(v: JsonView, p: Seq<Seq<char>>, i: int, x: JsonView) -> JsonView
    decreases p.len() - i,
{
    if i < 0 || i >= p.len() {
        x
    } else {
        with_member(v, p[i], set_from(child_or_null(v, p[i]), p, i + 1, x))
    }
}

/// `v[p[0]]...[p[p.len() - 1]] = x` does not panic.
pub open spec fn settable(v: JsonView, p: Seq<Seq<char>>) -> bool {
    settable_from(v, p, 0)
}

/// The document after `v[p[0]]...[p[p.len() - 1]] = x`.
pub open spec fn set_at(v: JsonView, p: Seq<Seq<char>>, x: JsonView) -> JsonView {
    set_from(v, p, 0, x)
}

/// The texts of a path of keys.
pub open spec fn path_view(p: Seq<String>) -> Seq<Seq<char>> {
    p.map_values(|s: String| s@)
}

/// Every member of `es` is well formed.
pub open spec fn members_wf(es: Seq<(String, JsonValue)>) -> bool {
    forall|i: int| 0 <= i < es.len() ==> (#[trigger] es[i]).1.wf()
}

/// Removing the member at `i` removes its key from the map.
pub proof fn lemma_members_remove(es: Seq<(String, JsonValue)>, i: int)
    requires
        keys_distinct(es),
        0 <= i < es.len(),
    ensures
        keys_distinct(es.remove(i)),
        members_view(es.remove(i)) == members_view(es).remove(es[i].0@),
        !keys_of(es.remove(i)).contains(es[i].0@),
        members_wf(es) ==> members_wf(es.remove(i)),
{
    let r = es.remove(i);
    let k0 = es[i].0@;
    let m1 = members_view(es);
    let m2 = members_view(r);
    assert forall|a: int, b: int| 0 <= a < r.len() && 0 <= b < r.len() && a != b implies r[a].0@
        != r[b].0@ by {
        let a0 = if a < i { a } else { a + 1 };
        let b0 = if b < i { b } else { b + 1 };
        assert(r[a] == es[a0]);
        assert(r[b] == es[b0]);
    }
    assert forall|k: Seq<char>| m2.contains_key(k) <==> m1.remove(k0).contains_key(k) by {
        if m2.contains_key(k) {
            let j = index_of_key(r, k);
            let j0 = if j < i { j } else { j + 1 };
            assert(r[j] == es[j0]);
            assert(keys_of(es).contains(k));
        }
        if m1.remove(k0).contains_key(k) {
            let j = index_of_key(es, k);
            assert(j != i);
            let j1 = if j < i { j } else { j - 1 };
            assert(r[j1] == es[j]);
            assert(keys_of(r).contains(k));
        }
    }
    assert forall|k: Seq<char>| m2.contains_key(k) implies m2[k] == m1.remove(k0)[k] by {
        let j = index_of_key(r, k);
        lemma_member_at(r, j);
        let j0 = if j < i { j } else { j + 1 };
        assert(r[j] == es[j0]);
        lemma_member_at(es, j0);
    }
    assert(m2 =~= m1.remove(k0));
    if keys_of(r).contains(k0) {
        let j = index_of_key(r, k0);
        let j0 = if j < i { j } else { j + 1 };
        assert(r[j] == es[j0]);
    }
    if members_wf(es) {
        assert forall|j: int| 0 <= j < r.len() implies (#[trigger] r[j]).1.wf() by {
            let j0 = if j < i { j } else { j + 1 };
            assert(r[j] == es[j0]);
        }
    }
}

/// Appending a member with a new key adds it to the map.
pub proof fn lemma_members_push(es: Seq<(String, JsonValue)>, e: (String, JsonValue))
    requires
        keys_distinct(es),
        !keys_of(es).contains(e.0@),
    ensures
        keys_distinct(es.push(e)),
        members_view(es.push(e)) == members_view(es).insert(e.0@, e.1.view()),
        members_wf(es) && e.1.wf() ==> members_wf(es.push(e)),
{
    let r = es.push(e);
    let m1 = members_view(es);
    let m2 = members_view(r);
    assert forall|a: int, b: int| 0 <= a < r.len() && 0 <= b < r.len() && a != b implies r[a].0@
        != r[b].0@ by {
        if a < es.len() && b < es.len() {
            assert(r[a] == es[a] && r[b] == es[b]);
        } else if a < es.len() {
            assert(r[a] == es[a]);
            assert(keys_of(es).contains(es[a].0@));
        } else {
            assert(r[b] == es[b]);
            assert(keys_of(es).contains(es[b].0@));
        }
    }
    assert forall|k: Seq<char>| m2.contains_key(k) <==> m1.insert(e.0@, e.1.view()).contains_key(k) by {
        if m2.contains_key(k) {
            let j = index_of_key(r, k);
            if j < es.len() {
                assert(r[j] == es[j]);
                assert(keys_of(es).contains(k));
            }
        }
        if m1.contains_key(k) {
            let j = index_of_key(es, k);
            assert(r[j] == es[j]);
            assert(keys_of(r).contains(k));
        }
        if k == e.0@ {
            assert(r[es.len() as int] == e);
            assert(keys_of(r).contains(k));
        }
    }
    assert forall|k: Seq<char>| m2.contains_key(k) implies m2[k] == m1.insert(e.0@, e.1.view())[k] by {
        let j = index_of_key(r, k);
        lemma_member_at(r, j);
        if j < es.len() {
            assert(r[j] == es[j]);
            lemma_member_at(es, j);
        } else {
            assert(r[j] == e);
        }
    }
    assert(m2 =~= m1.insert(e.0@, e.1.view()));
    if members_wf(es) && e.1.wf() {
        assert forall|j: int| 0 <= j < r.len() implies (#[trigger] r[j]).1.wf() by {
            if j < es.len() {
                assert(r[j] == es[j]);
            }
        }
    }
}

/// Takes the member `key` out of `v` (a `null` or an object): the members
/// that remain, and the member itself (`null` when absent).
fn detach(v: JsonValue, key: &String) -> (r: (Vec<(String, JsonValue)>, JsonValue))
    requires
        v.wf(),
        indexable(v.view()),
    ensures
        keys_distinct(r.0@),
        members_wf(r.0@),
        !keys_of(r.0@).contains(key@),
        members_view(r.0@) == base_map(v.view()).remove(key@),
        r.1.view() == child_or_null(v.view(), key@),
        r.1.wf(),
{
    match v {
        JsonValue::Object(es) => {
            let mut es = es;
            match find_member(&es, key) {
                Some(i) => {
                    proof {
                        lemma_member_at(es@, i as int);
                        lemma_members_remove(es@, i as int);
                    }
                    assert(es@[i as int].1.wf());
                    let (_, child) = es.remove(i);
                    (es, child)
                },
                None => {
                    assert(members_view(es@).remove(key@) =~= members_view(es@));
                    (es, JsonValue::Null)
                },
            }
        },
        _ => {
            let es: Vec<(String, JsonValue)> = Vec::new();
            assert(members_view(es@) =~= Map::<Seq<char>, JsonView>::empty());
            assert(!keys_of(es@).contains(key@));
            (es, JsonValue::Null)
        },
    }
}

/// `v[path[i]]...[path[path.len() - 1]] = x`, by value.
fn set_path_from(v: JsonValue, path: &Vec<String>, i: usize, x: JsonValue) -> (r: JsonValue)
    requires
        v.wf(),
        x.wf(),
        i <= path.len(),
        settable_from(v.view(), path_view(path@), i as int),
    ensures
        r.wf(),
        r.view() == set_from(v.view(), path_view(path@), i as int, x.view()),
    decreases path.len() - i,
{
    if i == path.len() {
        return x;
    }
    let ghost p = path_view(path@);
    assert(p[i as int] == path@[i as int]@);
    let (rest, child) = detach(v, &path[i]);
    let nc = set_path_from(child, path, i + 1, x);
    let key = path[i].clone();
    let mut rest = rest;
    proof {
        lemma_members_push(rest@, (key, nc));
    }
    rest.push((key, nc));
    let r = JsonValue::Object(rest);
    assert(members_view(rest@) =~= base_map(v.view()).insert(p[i as int], nc.view()));
    r
}

impl JsonValue {
    /// `self[path[0]]...[path[path.len() - 1]] = x`: each step turns `null`
    /// into an empty object and adds a `null` member where the key is absent.
    pub fn set_path(self, path: &Vec<String>, x: JsonValue) -> (r: JsonValue)
        requires
            self.wf(),
            x.wf(),
            settable(self.view(), path_view(path@)),
        ensures
            r.wf(),
            r.view() == set_at(self.view(), path_view(path@), x.view()),
    {
        set_path_from(self, path, 0, x)
    }

    /// Whether `self[path[0]]...[path[path.len() - 1]] = x` can be done
    /// without a panic.
    pub fn can_set_path(&self, path: &Vec<String>) -> (r: bool)
        requires
            self.wf(),
        ensures
            r == settable(self.view(), path_view(path@)),
    {
        can_set_from(self, path, 0)
    }
}

fn can_set_from(v: &JsonValue, path: &Vec<String>, i: usize) -> (r: bool)
    requires
        v.wf(),
        i <= path.len(),
    ensures
        r == settable_from(v.view(), path_view(path@), i as int),
    decreases path.len() - i,
{
    if i == path.len() {
        return true;
    }
    let ghost p = path_view(path@);
    assert(p[i as int] == path@[i as int]@);
    match v {
        JsonValue::Null => {
            assert(child_or_null(v.view(), p[i as int]) == JsonView::Null);
            let n = JsonValue::Null;
            can_set_from(&n, path, i + 1)
        },
        JsonValue::Object(_) => {
            match v.get(path[i].as_str()) {
                Some(c) => can_set_from(c, path, i + 1),
                None => {
                    let n = JsonValue::Null;
                    can_set_from(&n, path, i + 1)
                },
            }
        },
        _ => false,
    }
}


/// The keys of the first `i + 1` members are those of the first `i` and the
/// key of member `i`.
pub proof fn lemma_keys_of_take(es: Seq<(String, JsonValue)>, i: int)
    requires
        0 <= i < es.len(),
    ensures
        keys_of(es.take(i + 1)) == keys_of(es.take(i)).insert(es[i].0@),
        keys_of(es.take(es.len() as int)) == keys_of(es),
        keys_of(es.take(0)) == Set::<Seq<char>>::empty(),
        members_view(es).dom() == keys_of(es),
{
    let pre = es.take(i);
    let post = es.take(i + 1);
    assert forall|k: Seq<char>| keys_of(post).contains(k) implies keys_of(pre).insert(es[i].0@).contains(k) by {
        let j = choose|j: int| 0 <= j < post.len() && post[j].0@ == k;
        if j < i {
            assert(pre[j] == post[j]);
        }
    }
    assert forall|k: Seq<char>| keys_of(pre).insert(es[i].0@).contains(k) implies keys_of(post).contains(k) by {
        if k == es[i].0@ {
            assert(post[i] == es[i]);
        } else {
            let j = choose|j: int| 0 <= j < pre.len() && pre[j].0@ == k;
            assert(post[j] == pre[j]);
        }
    }
    assert(keys_of(post) =~= keys_of(pre).insert(es[i].0@));
    assert(es.take(es.len() as int) =~= es);
    assert(keys_of(es.take(0)) =~= Set::<Seq<char>>::empty());
    assert(members_view(es).dom() =~= keys_of(es));
}


/// Member lists with the same keys and equal values, position by position,
/// stand for the same map.
pub proof fn lemma_members_congruent(a: Seq<(String, JsonValue)>, b: Seq<(String, JsonValue)>)
    requires
        a.len() == b.len(),
        keys_distinct(a),
        forall|i: int| 0 <= i < a.len() ==> #[trigger] a[i].0@ == b[i].0@ && a[i].1.view() == b[i].1.view(),
    ensures
        members_view(a) == members_view(b),
        keys_of(a) == keys_of(b),
        keys_distinct(b),
{
    assert forall|i: int, j: int| 0 <= i < b.len() && 0 <= j < b.len() && i != j implies b[i].0@ != b[j].0@ by {
        assert(a[i].0@ == b[i].0@ && a[j].0@ == b[j].0@);
    }
    assert forall|k: Seq<char>| keys_of(a).contains(k) <==> keys_of(b).contains(k) by {
        if keys_of(a).contains(k) {
            let i = choose|i: int| 0 <= i < a.len() && a[i].0@ == k;
            assert(b[i].0@ == k);
        }
        if keys_of(b).contains(k) {
            let i = choose|i: int| 0 <= i < b.len() && b[i].0@ == k;
            assert(a[i].0@ == k);
        }
    }
    assert(keys_of(a) =~= keys_of(b));
    assert forall|k: Seq<char>| keys_of(a).contains(k) implies members_view(a)[k] == members_view(b)[k] by {
        let i = index_of_key(a, k);
        let j = index_of_key(b, k);
        assert(a[j].0@ == k);
        assert(b[i].0@ == k);
        // Any position holding key `k` gives the same value in both lists.
        assert(a[i].1.view() == b[i].1.view());
        lemma_member_at(a, i);
        lemma_member_at(b, j);
    }
    assert(members_view(a) =~= members_view(b));
}

impl JsonValue {
    /// A copy of this document.
    pub fn copy(&self) -> (r: JsonValue)
        requires
            self.wf(),
        ensures
            r.view() == self.view(),
            r.wf(),
        decreases self,
    {
        match self {
            JsonValue::Null => JsonValue::Null,
            JsonValue::Bool(b) => JsonValue::Bool(*b),
            JsonValue::Number(n) => JsonValue::Number(*n),
            JsonValue::Str(t) => JsonValue::Str(t.clone()),
            JsonValue::Array(xs) => {
                let mut ys: Vec<JsonValue> = Vec::new();
                let mut i: usize = 0;
                assert(forall|j: int| 0 <= j < xs.len() ==> (#[trigger] xs@[j]).wf());
                while i < xs.len()
                    invariant
                        i <= xs.len(),
                        ys.len() == i,
                        *self == JsonValue::Array(*xs),
                        forall|j: int| 0 <= j < xs.len() ==> (#[trigger] xs@[j]).wf(),
                        forall|j: int| 0 <= j < i ==> (#[trigger] ys@[j]).view() == xs@[j].view() && ys@[j].wf(),
                    decreases xs.len() - i,
                {
                    assert(xs@[i as int].wf());
                    assert(decreases_to!(*self => self->Array_0));
                    assert(self->Array_0 == *xs);
                    assert(decreases_to!(*xs => xs@));
                    assert(decreases_to!(xs@ => xs@[i as int]));
                    let c = xs[i].copy();
                    ys.push(c);
                    i = i + 1;
                }
                let r = JsonValue::Array(ys);
                assert(r.view()->Array_0 =~= self.view()->Array_0);
                r
            },
            JsonValue::Object(es) => {
                let ys = copy_members(es);
                JsonValue::Object(ys)
            },
        }
    }
}

/// A copy of a list of well-formed members with distinct keys.
pub fn copy_members(es: &Vec<(String, JsonValue)>) -> (r: Vec<(String, JsonValue)>)
    requires
        keys_distinct(es@),
        members_wf(es@),
    ensures
        members_view(r@) == members_view(es@),
        keys_of(r@) == keys_of(es@),
        keys_distinct(r@),
        members_wf(r@),
    decreases es@,
{
    let mut ys: Vec<(String, JsonValue)> = Vec::new();
    let mut i: usize = 0;
    while i < es.len()
        invariant
            i <= es.len(),
            ys.len() == i,
            members_wf(es@),
            forall|j: int|
                0 <= j < i ==> (#[trigger] ys@[j]).0@ == es@[j].0@ && ys@[j].1.view() == es@[j].1.view()
                    && ys@[j].1.wf(),
        decreases es.len() - i,
    {
        assert(es@[i as int].1.wf());
        let c = es[i].1.copy();
        ys.push((es[i].0.clone(), c));
        i = i + 1;
    }
    proof {
        lemma_members_congruent(es@, ys@);
    }
    ys
}


/// What `v.get(p[i])...get(p[p.len() - 1])` finds.
pub open spec fn lookup_from(v: JsonView, p: Seq<Seq<char>>, i: int) -> Option<JsonView>
    decreases p.len() - i,
{
    if i < 0 || i >= p.len() {
        Some(v)
    } else {
        match member(v, p[i]) {
            Some(c) => lookup_from(c, p, i + 1),
            None => None,
        }
    }
}

/// What following the keys `p` from `v` finds.
pub open spec fn lookup(v: JsonView, p: Seq<Seq<char>>) -> Option<JsonView> {
    lookup_from(v, p, 0)
}

/// The members of the object that the keys `p` lead to from `v`; none when
/// they lead nowhere or to a non-object.
pub open spec fn object_at(v: JsonView, p: Seq<Seq<char>>) -> Map<Seq<char>, JsonView> {
    match lookup(v, p) {
        Some(JsonView::Object(m)) => m,
        _ => Map::empty(),
    }
}

fn get_path_from<'a>(v: &'a JsonValue, path: &Vec<String>, i: usize) -> (r: Option<&'a JsonValue>)
    requires
        v.wf(),
        i <= path.len(),
    ensures
        match r {
            Some(x) => lookup_from(v.view(), path_view(path@), i as int) == Some(x.view()) && x.wf(),
            None => lookup_from(v.view(), path_view(path@), i as int) is None,
        },
    decreases path.len() - i,
{
    if i == path.len() {
        return Some(v);
    }
    let ghost p = path_view(path@);
    assert(p[i as int] == path@[i as int]@);
    match v.get(path[i].as_str()) {
        Some(c) => get_path_from(c, path, i + 1),
        None => None,
    }
}

impl JsonValue {
    /// Follows the keys `path` from this document (`get` after `get`).
    pub fn get_path(&self, path: &Vec<String>) -> (r: Option<&JsonValue>)
        requires
            self.wf(),
        ensures
            match r {
                Some(x) => lookup(self.view(), path_view(path@)) == Some(x.view()) && x.wf(),
                None => lookup(self.view(), path_view(path@)) is None,
            },
    {
        get_path_from(self, path, 0)
    }

    /// A copy of the members of the object that `path` leads to; none when it
    /// leads nowhere or to a non-object.
    pub fn members_at(&self, path: &Vec<String>) -> (r: Vec<(String, JsonValue)>)
        requires
            self.wf(),
        ensures
            members_view(r@) == object_at(self.view(), path_view(path@)),
            keys_distinct(r@),
            members_wf(r@),
    {
        match self.get_path(path) {
            Some(JsonValue::Object(es)) => copy_members(es),
            _ => {
                let r: Vec<(String, JsonValue)> = Vec::new();
                assert(members_view(r@) =~= Map::<Seq<char>, JsonView>::empty());
                r
            },
        }
    }

    /// A copy of the member `key`, or `null` when there is none.
    pub fn child_or_null(&self, key: &str) -> (r: JsonValue)
        requires
            self.wf(),
        ensures
            r.view() == child_or_null(self.view(), key@),
            r.wf(),
    {
        match self.get(key) {
            Some(c) => c.copy(),
            None => JsonValue::Null,
        }
    }

    /// `self[key] = x`, by value: `null` becomes an object holding only the
    /// new member.
    pub fn insert(self, key: &str, x: JsonValue) -> (r: JsonValue)
        requires
            self.wf(),
            x.wf(),
            indexable(self.view()),
        ensures
            r.view() == with_member(self.view(), key@, x.view()),
            r.wf(),
    {
        let k = owned(key);
        let (rest, _) = detach(self, &k);
        let mut rest = rest;
        proof {
            lemma_members_push(rest@, (k, x));
        }
        rest.push((k, x));
        let r = JsonValue::Object(rest);
        assert(members_view(rest@) =~= base_map(self.view()).insert(key@, x.view()));
        r
    }

    /// A string value holding `s`.
    pub fn text(s: &str) -> (r: JsonValue)
        ensures
            r.view() == JsonView::Str(s@),
            r.wf(),
    {
        JsonValue::Str(owned(s))
    }

    /// An object with the members `es`.
    pub fn object(es: Vec<(String, JsonValue)>) -> (r: JsonValue)
        requires
            keys_distinct(es@),
            members_wf(es@),
        ensures
            r.view() == JsonView::Object(members_view(es@)),
            r.wf(),
    {
        JsonValue::Object(es)
    }

    /// Whether this is `null` or an object, the values that a string index
    /// can be assigned into.
    pub fn is_indexable(&self) -> (r: bool)
        ensures
            r == indexable(self.view()),
    {
        match self {
            JsonValue::Null => true,
            JsonValue::Object(_) => true,
            _ => false,
        }
    }
}

/// The path of keys `keys`, as owned strings.
pub fn path_of(keys: &[&str]) -> (r: Vec<String>)
    ensures
        r@.len() == keys@.len(),
        forall|i: int| 0 <= i < keys@.len() ==> #[trigger] r@[i]@ == keys@[i]@,
        path_view(r@) == keys@.map_values(|s: &str| s@),
{
    let mut r: Vec<String> = Vec::new();
    let mut i: usize = 0;
    while i < keys.len()
        invariant
            i <= keys@.len(),
            r@.len() == i,
            forall|j: int| 0 <= j < i ==> #[trigger] r@[j]@ == keys@[j]@,
        decreases keys@.len() - i,
    {
        r.push(owned(keys[i]));
        i = i + 1;
    }
    assert(path_view(r@) =~= keys@.map_values(|s: &str| s@));
    r
}


/// The map of a member list has finitely many keys.
pub proof fn lemma_members_finite(es: Seq<(String, JsonValue)>)
    ensures
        members_view(es).dom().finite(),
        keys_of(es).finite(),
{
    let ks = es.map_values(|e: (String, JsonValue)| e.0@);
    assert(keys_of(es) =~= ks.to_set()) by {
        assert forall|k: Seq<char>| keys_of(es).contains(k) implies ks.to_set().contains(k) by {
            let i = choose|i: int| 0 <= i < es.len() && es[i].0@ == k;
            assert(ks[i] == k);
        }
        assert forall|k: Seq<char>| ks.to_set().contains(k) implies keys_of(es).contains(k) by {
            let i = choose|i: int| 0 <= i < ks.len() && ks[i] == k;
            assert(es[i].0@ == k);
        }
    }
    vstd::seq_lib::seq_to_set_is_finite(ks);
    assert(members_view(es).dom() =~= keys_of(es));
}


/// Sets the member `key` of a member list to `x`, replacing any member with
/// that key.
pub fn put_member(es: Vec<(String, JsonValue)>, key: String, x: JsonValue) -> (r: Vec<(String, JsonValue)>)
    requires
        keys_distinct(es@),
        members_wf(es@),
        x.wf(),
    ensures
        keys_distinct(r@),
        members_wf(r@),
        members_view(r@) == members_view(es@).insert(key@, x.view()),
{
    let v = JsonValue::Object(es);
    let (rest, _) = detach(v, &key);
    let mut rest = rest;
    proof {
        lemma_members_push(rest@, (key, x));
    }
    rest.push((key, x));
    assert(members_view(rest@) =~= members_view(es@).insert(key@, x.view()));
    rest
}

/// The keys of a member list, in order.
pub fn keys_list(es: &Vec<(String, JsonValue)>) -> (r: Vec<String>)
    ensures
        r@.len() == es@.len(),
        forall|i: int| 0 <= i < es@.len() ==> #[trigger] r@[i]@ == es@[i].0@,
        texts(r@) == members_view(es@).dom(),
{
    let mut r: Vec<String> = Vec::new();
    let mut i: usize = 0;
    while i < es.len()
        invariant
            i <= es.len(),
            r@.len() == i,
            forall|j: int| 0 <= j < i ==> #[trigger] r@[j]@ == es@[j].0@,
        decreases es.len() - i,
    {
        r.push(es[i].0.clone());
        i = i + 1;
    }
    proof {
        lemma_members_dom(es@);
        assert forall|t: Seq<char>| texts(r@).contains(t) <==> keys_of(es@).contains(t) by {
            if texts(r@).contains(t) {
                let i = choose|i: int| 0 <= i < r@.len() && r@[i]@ == t;
                assert(es@[i].0@ == t);
            }
            if keys_of(es@).contains(t) {
                let i = choose|i: int| 0 <= i < es@.len() && es@[i].0@ == t;
                assert(r@[i]@ == t);
            }
        }
        assert(texts(r@) =~= members_view(es@).dom());
    }
    r
}


/// The keys of the map of a member list are the keys of its members.
pub proof fn lemma_members_dom(es: Seq<(String, JsonValue)>)
    ensures
        members_view(es).dom() == keys_of(es),
{
    assert(members_view(es).dom() =~= keys_of(es));
}



fn members_distinct(es: &Vec<(String, JsonValue)>) -> (r: bool)
    ensures
        r == keys_distinct(es@),
{
    let mut i: usize = 0;
    while i < es.len()
        invariant
            i <= es.len(),
            forall|a: int, b: int| 0 <= a < i && 0 <= b < es.len() && a != b ==> es@[a].0@ != es@[b].0@,
        decreases es.len() - i,
    {
        let mut j: usize = 0;
        while j < es.len()
            invariant
                i < es.len(),
                j <= es.len(),
                forall|a: int, b: int| 0 <= a < i && 0 <= b < es.len() && a != b ==> es@[a].0@ != es@[b].0@,
                forall|b: int| 0 <= b < j && b != i ==> es@[i as int].0@ != es@[b].0@,
            decreases es.len() - j,
        {
            if j != i && es[i].0 == es[j].0 {
                return false;
            }
            j = j + 1;
        }
        i = i + 1;
    }
    true
}

impl JsonValue {
    /// Whether numbers are well formed and no object repeats a key.
    pub fn well_formed(&self) -> (r: bool)
        ensures
            r == self.wf(),
        decreases self,
    {
        match self {
            JsonValue::Number(JsonNumber::NegInt(i)) => *i < 0,
            JsonValue::Number(JsonNumber::Float(bits)) => (*bits >> 52u64) & 0x7ffu64 != 0x7ffu64,
            JsonValue::Array(xs) => {
                let mut i: usize = 0;
                while i < xs.len()
                    invariant
                        i <= xs.len(),
                        *self == JsonValue::Array(*xs),
                        forall|j: int| 0 <= j < i ==> (#[trigger] xs@[j]).wf(),
                    decreases xs.len() - i,
                {
                    assert(decreases_to!(*self => self->Array_0));
                    assert(self->Array_0 == *xs);
                    assert(decreases_to!(*xs => xs@));
                    assert(decreases_to!(xs@ => xs@[i as int]));
                    if !xs[i].well_formed() {
                        return false;
                    }
                    i = i + 1;
                }
                true
            },
            JsonValue::Object(es) => {
                if !members_distinct(es) {
                    return false;
                }
                let mut i: usize = 0;
                while i < es.len()
                    invariant
                        i <= es.len(),
                        *self == JsonValue::Object(*es),
                        keys_distinct(es@),
                        forall|j: int| 0 <= j < i ==> (#[trigger] es@[j]).1.wf(),
                    decreases es.len() - i,
                {
                    assert(decreases_to!(*self => self->Object_0));
                    assert(self->Object_0 == *es);
                    assert(decreases_to!(*es => es@));
                    assert(decreases_to!(es@ => es@[i as int]));
                    assert(decreases_to!(es@[i as int] => es@[i as int].1));
                    if !es[i].1.well_formed() {
                        return false;
                    }
                    i = i + 1;
                }
                true
            },
            _ => true,
        }
    }
}

/// Read after write: after `v[p[0]]...[p[n - 1]] = x`, following `p` from
/// the result finds `x`.
pub proof fn law_read_after_write(v: JsonView, p: Seq<Seq<char>>, x: JsonView)
    ensures
        lookup(set_at(v, p, x), p) == Some(x),
{
    lemma_read_after_write_from(v, p, 0, x);
}

proof fn lemma_read_after_write_from(v: JsonView, p: Seq<Seq<char>>, i: int, x: JsonView)
    requires
        0 <= i,
    ensures
        lookup_from(set_from(v, p, i, x), p, i) == Some(x),
    decreases p.len() - i,
{
    if i < p.len() {
        lemma_read_after_write_from(child_or_null(v, p[i]), p, i + 1, x);
    }
}

/// A write through the key `k` leaves every other member of an object as
/// it was.
pub proof fn law_write_keeps_siblings(v: JsonView, p: Seq<Seq<char>>, x: JsonView, k: Seq<char>)
    requires
        v is Object,
        p.len() > 0,
        k != p[0],
    ensures
        member(set_at(v, p, x), k) == member(v, k),
{
}

/// Assigning a member and reading it back gives what was assigned.
pub proof fn law_member_after_insert(v: JsonView, k: Seq<char>, x: JsonView)
    ensures
        member(with_member(v, k, x), k) == Some(x),
{
}

} // verus!
