//! What a synchronisation changes: which models the configuration gains,
//! loses, has updated, and keeps as they are.
use vstd::prelude::*;
use crate::json::{JsonValue, JsonView, same_document, keys_distinct, keys_of, members_view, members_wf,
    find_member, json_eq, lemma_member_at, lemma_keys_of_take};
use crate::names::{strictly_sorted, texts, insert_sorted, lemma_sorted_len};

verus! {

/// The models that a synchronisation adds, removes, updates and keeps, each
/// list sorted and without repeats.
pub struct SyncPlan {
    pub added: Vec<String>,
    pub removed: Vec<String>,
    pub changed: Vec<String>,
    pub unchanged: Vec<String>,
}

/// Models the new list has and the old one lacks.
pub open spec fn added_keys(old: Map<Seq<char>, JsonView>, new: Map<Seq<char>, JsonView>) -> Set<Seq<char>> {
    new.dom().difference(old.dom())
}

/// Models the old list has and the new one lacks.
pub open spec fn removed_keys(old: Map<Seq<char>, JsonView>, new: Map<Seq<char>, JsonView>) -> Set<Seq<char>> {
    old.dom().difference(new.dom())
}

/// Models in both lists whose descriptions differ.
pub open spec fn changed_keys(old: Map<Seq<char>, JsonView>, new: Map<Seq<char>, JsonView>) -> Set<Seq<char>> {
    Set::new(
        |k: Seq<char>| old.contains_key(k) && new.contains_key(k) && !same_document(old[k], new[k]),
    )
}

/// Models in both lists with the same description.
pub open spec fn unchanged_keys(old: Map<Seq<char>, JsonView>, new: Map<Seq<char>, JsonView>) -> Set<Seq<char>> {
    Set::new(
        |k: Seq<char>| old.contains_key(k) && new.contains_key(k) && same_document(old[k], new[k]),
    )
}

/// The two lists name the same models with the same descriptions.
pub open spec fn same_models(old: Map<Seq<char>, JsonView>, new: Map<Seq<char>, JsonView>) -> bool {
    &&& old.dom() == new.dom()
    &&& forall|k: Seq<char>| #[trigger] old.contains_key(k) ==> same_document(old[k], new[k])
}

impl SyncPlan {
    /// The plan lists exactly the differences between `old` and `new`.
    pub open spec fn describes(self, old: Map<Seq<char>, JsonView>, new: Map<Seq<char>, JsonView>) -> bool {
        &&& strictly_sorted(self.added@)
        &&& strictly_sorted(self.removed@)
        &&& strictly_sorted(self.changed@)
        &&& strictly_sorted(self.unchanged@)
        &&& texts(self.added@) == added_keys(old, new)
        &&& texts(self.removed@) == removed_keys(old, new)
        &&& texts(self.changed@) == changed_keys(old, new)
        &&& texts(self.unchanged@) == unchanged_keys(old, new)
    }

    /// Nothing to add, remove or update.
    pub open spec fn spec_is_noop(self) -> bool {
        self.added@.len() == 0 && self.removed@.len() == 0 && self.changed@.len() == 0
    }

    /// Whether the plan adds, removes and updates nothing.
    pub fn is_noop(&self) -> (r: bool)
        ensures
            r == self.spec_is_noop(),
    {
        self.added.len() == 0 && self.removed.len() == 0 && self.changed.len() == 0
    }
}

/// Compares the old and the new model lists, each a list of members with
/// distinct names.
pub fn plan_members(old: &Vec<(String, JsonValue)>, new: &Vec<(String, JsonValue)>) -> (p: SyncPlan)
    requires
        keys_distinct(old@),
        keys_distinct(new@),
        members_wf(old@),
        members_wf(new@),
    ensures
        p.describes(members_view(old@), members_view(new@)),
{
    let ghost mo = members_view(old@);
    let ghost mn = members_view(new@);
    let mut added: Vec<String> = Vec::new();
    let mut changed: Vec<String> = Vec::new();
    let mut unchanged: Vec<String> = Vec::new();
    let mut removed: Vec<String> = Vec::new();
    proof {
        if new@.len() > 0 {
            lemma_keys_of_take(new@, 0);
        } else {
            assert(keys_of(new@.take(0)) =~= Set::<Seq<char>>::empty());
        }
    }
    assert(texts(added@) =~= Set::<Seq<char>>::empty());
    assert(texts(changed@) =~= Set::<Seq<char>>::empty());
    assert(texts(unchanged@) =~= Set::<Seq<char>>::empty());
    let mut i: usize = 0;
    while i < new.len()
        invariant
            i <= new.len(),
            keys_distinct(old@),
            keys_distinct(new@),
            members_wf(old@),
            members_wf(new@),
            mo == members_view(old@),
            mn == members_view(new@),
            strictly_sorted(added@),
            strictly_sorted(changed@),
            strictly_sorted(unchanged@),
            texts(added@) == Set::new(
                |k: Seq<char>| keys_of(new@.take(i as int)).contains(k) && !mo.contains_key(k),
            ),
            texts(changed@) == Set::new(
                |k: Seq<char>|
                    keys_of(new@.take(i as int)).contains(k) && mo.contains_key(k) && !same_document(mo[k], mn[k]),
            ),
            texts(unchanged@) == Set::new(
                |k: Seq<char>|
                    keys_of(new@.take(i as int)).contains(k) && mo.contains_key(k) && same_document(mo[k], mn[k]),
            ),
        decreases new.len() - i,
    {
        let ghost k = new@[i as int].0@;
        proof {
            lemma_member_at(new@, i as int);
            lemma_keys_of_take(new@, i as int);
        }
        let ghost pre = keys_of(new@.take(i as int));
        let ghost a0 = texts(added@);
        let ghost c0 = texts(changed@);
        let ghost u0 = texts(unchanged@);
        match find_member(old, &new[i].0) {
            None => {
                assert(!mo.contains_key(k)) by {
                    lemma_keys_of_take(new@, i as int);
                    if old@.len() > 0 {
                        lemma_keys_of_take(old@, 0);
                    }
                    assert(members_view(old@).dom() =~= keys_of(old@));
                }
                insert_sorted(&mut added, new[i].0.clone());
            },
            Some(j) => {
                proof {
                    lemma_member_at(old@, j as int);
                }
                assert(old@[j as int].1.wf());
                assert(new@[i as int].1.wf());
                if json_eq(&old[j].1, &new[i].1) {
                    insert_sorted(&mut unchanged, new[i].0.clone());
                } else {
                    insert_sorted(&mut changed, new[i].0.clone());
                }
            },
        }
        assert(texts(added@) =~= Set::new(
            |k2: Seq<char>| keys_of(new@.take(i + 1)).contains(k2) && !mo.contains_key(k2),
        ));
        assert(texts(changed@) =~= Set::new(
            |k2: Seq<char>|
                keys_of(new@.take(i + 1)).contains(k2) && mo.contains_key(k2) && !same_document(mo[k2], mn[k2]),
        ));
        assert(texts(unchanged@) =~= Set::new(
            |k2: Seq<char>|
                keys_of(new@.take(i + 1)).contains(k2) && mo.contains_key(k2) && same_document(mo[k2], mn[k2]),
        ));
        i = i + 1;
    }
    proof {
        if new@.len() > 0 {
            lemma_keys_of_take(new@, 0);
        } else {
            assert(new@.take(0) =~= new@);
            assert(members_view(new@).dom() =~= keys_of(new@));
        }
        if old@.len() > 0 {
            lemma_keys_of_take(old@, 0);
        } else {
            assert(keys_of(old@.take(0)) =~= Set::<Seq<char>>::empty());
            assert(members_view(old@).dom() =~= keys_of(old@));
        }
    }
    assert(texts(removed@) =~= Set::<Seq<char>>::empty());
    let mut j: usize = 0;
    while j < old.len()
        invariant
            j <= old.len(),
            keys_distinct(old@),
            mo == members_view(old@),
            mn == members_view(new@),
            mo.dom() == keys_of(old@),
            mn.dom() == keys_of(new@),
            strictly_sorted(removed@),
            texts(removed@) == Set::new(
                |k: Seq<char>| keys_of(old@.take(j as int)).contains(k) && !mn.contains_key(k),
            ),
        decreases old.len() - j,
    {
        proof {
            lemma_keys_of_take(old@, j as int);
        }
        match find_member(new, &old[j].0) {
            None => {
                insert_sorted(&mut removed, old[j].0.clone());
            },
            Some(_) => {},
        }
        assert(texts(removed@) =~= Set::new(
            |k2: Seq<char>| keys_of(old@.take(j + 1)).contains(k2) && !mn.contains_key(k2),
        ));
        j = j + 1;
    }
    let p = SyncPlan { added, removed, changed, unchanged };
    assert(texts(p.added@) =~= added_keys(mo, mn));
    assert(texts(p.removed@) =~= removed_keys(mo, mn));
    assert(texts(p.changed@) =~= changed_keys(mo, mn));
    assert(texts(p.unchanged@) =~= unchanged_keys(mo, mn));
    p
}


/// A plan changes nothing exactly when the configuration already lists the
/// router's models with the same descriptions; in particular when the two
/// lists are equal.
pub proof fn law_plan_noop_iff_same(
    p: SyncPlan,
    old: Map<Seq<char>, JsonView>,
    new: Map<Seq<char>, JsonView>,
)
    requires
        p.describes(old, new),
    ensures
        p.spec_is_noop() <==> same_models(old, new),
        old == new ==> p.spec_is_noop(),
{
    if p.spec_is_noop() {
        assert forall|k: Seq<char>| new.contains_key(k) implies old.contains_key(k) by {
            if !old.contains_key(k) {
                assert(added_keys(old, new).contains(k));
                let i = choose|i: int| 0 <= i < p.added@.len() && p.added@[i]@ == k;
            }
        }
        assert forall|k: Seq<char>| old.contains_key(k) implies new.contains_key(k) by {
            if !new.contains_key(k) {
                assert(removed_keys(old, new).contains(k));
                let i = choose|i: int| 0 <= i < p.removed@.len() && p.removed@[i]@ == k;
            }
        }
        assert forall|k: Seq<char>| #[trigger] old.contains_key(k) implies same_document(old[k], new[k]) by {
            if !same_document(old[k], new[k]) {
                assert(changed_keys(old, new).contains(k));
                let i = choose|i: int| 0 <= i < p.changed@.len() && p.changed@[i]@ == k;
            }
        }
        assert(old.dom() =~= new.dom());
    }
    if same_models(old, new) {
        assert(forall|k: Seq<char>| new.contains_key(k) ==> old.contains_key(k));
        if p.added@.len() > 0 {
            assert(texts(p.added@).contains(p.added@[0]@));
        }
        if p.removed@.len() > 0 {
            assert(texts(p.removed@).contains(p.removed@[0]@));
        }
        if p.changed@.len() > 0 {
            assert(texts(p.changed@).contains(p.changed@[0]@));
        }
    }
}

/// No model is both added and removed, and every model of the router is
/// either added, updated or kept.
pub proof fn law_plan_partitions(
    p: SyncPlan,
    old: Map<Seq<char>, JsonView>,
    new: Map<Seq<char>, JsonView>,
)
    requires
        p.describes(old, new),
    ensures
        texts(p.added@).disjoint(texts(p.removed@)),
        texts(p.added@) + texts(p.changed@) + texts(p.unchanged@) == new.dom(),
        texts(p.removed@) + texts(p.changed@) + texts(p.unchanged@) == old.dom(),
{
    assert(texts(p.added@) + texts(p.changed@) + texts(p.unchanged@) =~= new.dom());
    assert(texts(p.removed@) + texts(p.changed@) + texts(p.unchanged@) =~= old.dom());
}


/// The plan's lists are as long as the sets they stand for, so the models
/// the configuration listed are the removed, updated and kept ones, and the
/// router's are the added, updated and kept ones.
pub proof fn law_plan_counts(
    p: SyncPlan,
    old: Map<Seq<char>, JsonView>,
    new: Map<Seq<char>, JsonView>,
)
    requires
        p.describes(old, new),
    ensures
        old.dom().finite() ==> p.removed@.len() + p.changed@.len() + p.unchanged@.len() == old.dom().len(),
        new.dom().finite() ==> p.added@.len() + p.changed@.len() + p.unchanged@.len() == new.dom().len(),
{
    lemma_sorted_len(p.added@);
    lemma_sorted_len(p.removed@);
    lemma_sorted_len(p.changed@);
    lemma_sorted_len(p.unchanged@);
    law_plan_partitions(p, old, new);
    let a = texts(p.added@);
    let r = texts(p.removed@);
    let c = texts(p.changed@);
    let u = texts(p.unchanged@);
    assert(c.disjoint(u));
    assert(r.disjoint(c + u));
    assert(a.disjoint(c + u));
    vstd::set_lib::lemma_set_disjoint_lens(c, u);
    vstd::set_lib::lemma_set_disjoint_lens(r, c + u);
    vstd::set_lib::lemma_set_disjoint_lens(a, c + u);
    assert(r + c + u =~= r + (c + u));
    assert(a + c + u =~= a + (c + u));
}

} // verus!
