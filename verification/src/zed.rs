//! Synchronising Zed's settings with the router's model list.
//!
//! Zed lists the router's models under
//! `language_models.openai_compatible.kairux.available_models`, one object
//! per model with its name, token limits and capabilities.
use vstd::prelude::*;
use crate::json::{JsonValue, JsonView, JsonNumber, member, child_or_null, lookup, settable,
    set_at, keys_distinct, members_view, members_wf, path_of, path_view, find_member,
    keys_list, put_member, lemma_member_at, lemma_members_dom, keys_of, law_read_after_write,
    lookup_from};
use crate::names::{texts, sorted_keys, views, lemma_sorted_keys, sorted_set,
    lemma_sorted_keys_of_finite};
use crate::sync::{SyncPlan, plan_members};
use crate::text::owned;

verus! {

/// Where Zed's settings list the router's models.
pub open spec fn zed_models_path() -> Seq<Seq<char>> {
    seq!["language_models"@, "openai_compatible"@, "kairux"@, "available_models"@]
}

/// A limit read from `v.k`: its value when it is a non-negative integer,
/// zero otherwise.
pub open spec fn limit_of(v: JsonView, k: Seq<char>) -> u64 {
    match member(v, k) {
        Some(JsonView::Number(JsonNumber::PosInt(n))) => n,
        _ => 0,
    }
}

/// The model description lists `"image"` among its input modalities.
pub open spec fn takes_images(m: JsonView) -> bool {
    match member(child_or_null(m, "modalities"@), "input"@) {
        Some(JsonView::Array(a)) => exists|i: int| 0 <= i < a.len() && a[i] == JsonView::Str("image"@),
        _ => false,
    }
}

/// The model description says that the model reasons.
pub open spec fn reasons(m: JsonView) -> bool {
    match member(m, "reasoning"@) {
        Some(JsonView::Bool(b)) => b,
        _ => false,
    }
}

/// Zed's entry for the model `id` that the router describes as `m`.
pub open spec fn zed_entry(id: Seq<char>, m: JsonView) -> JsonView {
    let context = limit_of(child_or_null(m, "limit"@), "context"@);
    let output = limit_of(child_or_null(m, "limit"@), "output"@);
    JsonView::Object(
        map![
            "name"@ => JsonView::Str(id),
            "max_tokens"@ => JsonView::Number(JsonNumber::PosInt(context)),
            "max_output_tokens"@ => JsonView::Number(JsonNumber::PosInt(output)),
            "max_completion_tokens"@ => JsonView::Number(JsonNumber::PosInt(context)),
            "capabilities"@ => JsonView::Object(
                map![
                    "tools"@ => JsonView::Bool(true),
                    "images"@ => JsonView::Bool(takes_images(m)),
                    "parallel_tool_calls"@ => JsonView::Bool(false),
                    "prompt_cache_key"@ => JsonView::Bool(false),
                    "chat_completions"@ => JsonView::Bool(true),
                    "interleaved_reasoning"@ => JsonView::Bool(reasons(m)),
                ],
            ),
        ],
    )
}

/// Zed's entries for the router's models, in the order of their names.
pub open spec fn zed_entries(models: Map<Seq<char>, JsonView>) -> Seq<JsonView> {
    sorted_keys(models).map_values(|k: Seq<char>| zed_entry(k, models[k]))
}

/// Zed's entries for the router's models, by name.
pub open spec fn zed_by_name(models: Map<Seq<char>, JsonView>) -> Map<Seq<char>, JsonView> {
    Map::new(|k: Seq<char>| models.contains_key(k), |k: Seq<char>| zed_entry(k, models[k]))
}

/// The entries listed in the settings, by the name each gives; when two
/// give the same name the later one counts, and entries without a string
/// name are passed over.
pub open spec fn entries_by_name(a: Seq<JsonView>) -> Map<Seq<char>, JsonView>
    decreases a.len(),
{
    if a.len() == 0 {
        Map::empty()
    } else {
        let m = entries_by_name(a.drop_last());
        match member(a.last(), "name"@) {
            Some(JsonView::Str(n)) => m.insert(n, a.last()),
            _ => m,
        }
    }
}

/// The entries that the settings list, or none when the list is missing or
/// is not an array.
pub open spec fn listed_entries(cfg: JsonView) -> Seq<JsonView> {
    match lookup(cfg, zed_models_path()) {
        Some(JsonView::Array(a)) => a,
        _ => Seq::empty(),
    }
}

fn limit_value(v: &JsonValue, key: &str) -> (r: u64)
    requires
        v.wf(),
    ensures
        r == limit_of(v.view(), key@),
{
    match v.get(key) {
        Some(x) => match x.as_u64() {
            Some(n) => n,
            None => 0,
        },
        None => 0,
    }
}

fn lists_image(m: &JsonValue) -> (r: bool)
    requires
        m.wf(),
    ensures
        r == takes_images(m.view()),
{
    let modalities = m.child_or_null("modalities");
    let image = owned("image");
    let found = modalities.get("input");
    match found {
        Some(JsonValue::Array(xs)) => {
            assert(member(modalities.view(), "input"@) == Some(JsonValue::Array(*xs).view()));
            let ghost a = JsonValue::Array(*xs).view()->Array_0;
            let mut i: usize = 0;
            while i < xs.len()
                invariant
                    i <= xs.len(),
                    a.len() == xs.len(),
                    image@ == "image"@,
                    member(child_or_null(m.view(), "modalities"@), "input"@) == Some(JsonView::Array(a)),
                    forall|j: int| 0 <= j < xs.len() ==> #[trigger] a[j] == xs@[j].view(),
                    forall|j: int| 0 <= j < i ==> a[j] != JsonView::Str("image"@),
                decreases xs.len() - i,
            {
                match &xs[i] {
                    JsonValue::Str(t) => {
                        if *t == image {
                            assert(a[i as int] == JsonView::Str("image"@));
                            assert(exists|j: int| 0 <= j < a.len() && a[j] == JsonView::Str("image"@));
                            return true;
                        }
                    },
                    _ => {},
                }
                i = i + 1;
            }
            false
        },
        _ => false,
    }
}

fn reasoning_flag(m: &JsonValue) -> (r: bool)
    requires
        m.wf(),
    ensures
        r == reasons(m.view()),
{
    match m.get("reasoning") {
        Some(x) => match x.as_bool() {
            Some(b) => b,
            None => false,
        },
        None => false,
    }
}

/// Zed's entry for the model `id` that the router describes as `m`.
pub fn zed_model_entry(id: &String, m: &JsonValue) -> (r: JsonValue)
    requires
        m.wf(),
    ensures
        r.view() == zed_entry(id@, m.view()),
        r.wf(),
{
    let limit = m.child_or_null("limit");
    let context = limit_value(&limit, "context");
    let output = limit_value(&limit, "output");
    let images = lists_image(m);
    let reasoning = reasoning_flag(m);
    let caps = JsonValue::Null;
    let caps = caps.insert("tools", JsonValue::Bool(true));
    let caps = caps.insert("images", JsonValue::Bool(images));
    let caps = caps.insert("parallel_tool_calls", JsonValue::Bool(false));
    let caps = caps.insert("prompt_cache_key", JsonValue::Bool(false));
    let caps = caps.insert("chat_completions", JsonValue::Bool(true));
    let caps = caps.insert("interleaved_reasoning", JsonValue::Bool(reasoning));
    let e = JsonValue::Null;
    let e = e.insert("name", JsonValue::Str(id.clone()));
    let e = e.insert("max_tokens", JsonValue::Number(JsonNumber::PosInt(context)));
    let e = e.insert("max_output_tokens", JsonValue::Number(JsonNumber::PosInt(output)));
    let e = e.insert("max_completion_tokens", JsonValue::Number(JsonNumber::PosInt(context)));
    let e = e.insert("capabilities", caps);
    e
}


/// Zed's entries for the router's models `models`, in the order of their
/// names.
pub fn zed_models(models: &Vec<(String, JsonValue)>) -> (r: Vec<JsonValue>)
    requires
        keys_distinct(models@),
        members_wf(models@),
    ensures
        r@.map_values(|e: JsonValue| e.view()) == zed_entries(members_view(models@)),
        forall|i: int| 0 <= i < r@.len() ==> (#[trigger] r@[i]).wf(),
{
    let ghost mv = members_view(models@);
    let names = keys_list(models);
    let ids = sorted_set(&names);
    proof {
        lemma_sorted_keys(ids@, mv);
    }
    let ghost ks = sorted_keys(mv);
    let mut r: Vec<JsonValue> = Vec::new();
    let mut i: usize = 0;
    while i < ids.len()
        invariant
            i <= ids.len(),
            r@.len() == i,
            views(ids@) == ks,
            ks.to_set() == mv.dom(),
            mv == members_view(models@),
            keys_distinct(models@),
            members_wf(models@),
            forall|j: int| 0 <= j < i ==> (#[trigger] r@[j]).view() == zed_entry(ks[j], mv[ks[j]]) && r@[j].wf(),
        decreases ids.len() - i,
    {
        assert(ks[i as int] == ids@[i as int]@);
        assert(ks.to_set().contains(ks[i as int]));
        match find_member(models, &ids[i]) {
            Some(k) => {
                proof {
                    lemma_member_at(models@, k as int);
                }
                assert(models@[k as int].1.wf());
                let e = zed_model_entry(&ids[i], &models[k].1);
                r.push(e);
            },
            None => {
                proof {
                    lemma_members_dom(models@);
                }
                assert(false);
                r.push(JsonValue::Null);
            },
        }
        i = i + 1;
    }
    assert(r@.map_values(|e: JsonValue| e.view()) =~= zed_entries(mv));
    r
}

/// Zed's entries for the router's models, as members keyed by name.
pub fn zed_members(models: &Vec<(String, JsonValue)>) -> (r: Vec<(String, JsonValue)>)
    requires
        keys_distinct(models@),
        members_wf(models@),
    ensures
        keys_distinct(r@),
        members_wf(r@),
        members_view(r@) == zed_by_name(members_view(models@)),
{
    let mut r: Vec<(String, JsonValue)> = Vec::new();
    let mut i: usize = 0;
    while i < models.len()
        invariant
            i <= models.len(),
            r@.len() == i,
            members_wf(models@),
            forall|j: int|
                0 <= j < i ==> (#[trigger] r@[j]).0@ == models@[j].0@ && r@[j].1.view() == zed_entry(
                    models@[j].0@,
                    models@[j].1.view(),
                ) && r@[j].1.wf(),
        decreases models.len() - i,
    {
        assert(models@[i as int].1.wf());
        let e = zed_model_entry(&models[i].0, &models[i].1);
        r.push((models[i].0.clone(), e));
        i = i + 1;
    }
    let ghost mv = members_view(models@);
    assert(keys_distinct(r@)) by {
        assert forall|a: int, b: int| 0 <= a < r@.len() && 0 <= b < r@.len() && a != b implies r@[a].0@
            != r@[b].0@ by {
            assert(r@[a].0@ == models@[a].0@ && r@[b].0@ == models@[b].0@);
        }
    }
    proof {
        lemma_members_dom(models@);
        lemma_members_dom(r@);
        assert forall|t: Seq<char>| keys_of(r@).contains(t) <==> keys_of(models@).contains(t) by {
            if keys_of(r@).contains(t) {
                let j = choose|j: int| 0 <= j < r@.len() && r@[j].0@ == t;
                assert(models@[j].0@ == t);
            }
            if keys_of(models@).contains(t) {
                let j = choose|j: int| 0 <= j < models@.len() && models@[j].0@ == t;
                assert(r@[j].0@ == t);
            }
        }
        assert forall|t: Seq<char>| keys_of(r@).contains(t) implies members_view(r@)[t] == zed_by_name(mv)[t] by {
            let j = choose|j: int| 0 <= j < r@.len() && r@[j].0@ == t;
            lemma_member_at(r@, j);
            lemma_member_at(models@, j);
        }
        assert(members_view(r@) =~= zed_by_name(mv));
    }
    r
}

/// The entries listed in the settings, keyed by name (the later of two
/// with the same name counts).
pub fn listed_by_name(cfg: &JsonValue) -> (r: Vec<(String, JsonValue)>)
    requires
        cfg.wf(),
    ensures
        keys_distinct(r@),
        members_wf(r@),
        members_view(r@) == entries_by_name(listed_entries(cfg.view())),
{
    let path = path_of(&["language_models", "openai_compatible", "kairux", "available_models"]);
    assert(path_view(path@) =~= zed_models_path());
    let mut r: Vec<(String, JsonValue)> = Vec::new();
    assert(members_view(r@) =~= Map::<Seq<char>, JsonView>::empty());
    match cfg.get_path(&path) {
        Some(JsonValue::Array(xs)) => {
            let ghost a = JsonValue::Array(*xs).view()->Array_0;
            assert(listed_entries(cfg.view()) == a);
            assert(forall|j: int| 0 <= j < xs.len() ==> (#[trigger] xs@[j]).wf());
            let mut i: usize = 0;
            while i < xs.len()
                invariant
                    i <= xs.len(),
                    a.len() == xs.len(),
                    forall|j: int| 0 <= j < xs.len() ==> #[trigger] a[j] == xs@[j].view(),
                    forall|j: int| 0 <= j < xs.len() ==> (#[trigger] xs@[j]).wf(),
                    keys_distinct(r@),
                    members_wf(r@),
                    members_view(r@) == entries_by_name(a.take(i as int)),
                decreases xs.len() - i,
            {
                let e = &xs[i];
                assert(a.take(i + 1).drop_last() =~= a.take(i as int));
                assert(a.take(i + 1).last() == e.view());
                match e.get("name") {
                    Some(JsonValue::Str(n)) => {
                        r = put_member(r, n.clone(), e.copy());
                    },
                    _ => {},
                }
                i = i + 1;
            }
            assert(a.take(xs.len() as int) =~= a);
        },
        _ => {
            assert(listed_entries(cfg.view()) =~= Seq::<JsonView>::empty());
        },
    }
    r
}

/// How many entries the settings list (named or not).
pub fn listed_count(cfg: &JsonValue) -> (r: usize)
    requires
        cfg.wf(),
    ensures
        r == listed_entries(cfg.view()).len(),
{
    let path = path_of(&["language_models", "openai_compatible", "kairux", "available_models"]);
    assert(path_view(path@) =~= zed_models_path());
    match cfg.get_path(&path) {
        Some(JsonValue::Array(xs)) => {
            assert(JsonValue::Array(*xs).view()->Array_0.len() == xs.len());
            xs.len()
        },
        _ => 0,
    }
}

/// The differences between the models Zed's settings list and the models
/// the router offers, compared by name.
pub fn zed_plan(cfg: &JsonValue, models: &Vec<(String, JsonValue)>) -> (p: SyncPlan)
    requires
        cfg.wf(),
        keys_distinct(models@),
        members_wf(models@),
    ensures
        p.describes(entries_by_name(listed_entries(cfg.view())), zed_by_name(members_view(models@))),
{
    let old = listed_by_name(cfg);
    let new = zed_members(models);
    plan_members(&old, &new)
}

/// Whether the model list can be written into the settings without a panic.
pub fn zed_can_apply(cfg: &JsonValue) -> (r: bool)
    requires
        cfg.wf(),
    ensures
        r == settable(cfg.view(), zed_models_path()),
{
    let path = path_of(&["language_models", "openai_compatible", "kairux", "available_models"]);
    assert(path_view(path@) =~= zed_models_path());
    cfg.can_set_path(&path)
}

/// Writes Zed's entries for the router's models into the settings.
pub fn apply_zed(cfg: JsonValue, models: &Vec<(String, JsonValue)>) -> (r: JsonValue)
    requires
        cfg.wf(),
        keys_distinct(models@),
        members_wf(models@),
        settable(cfg.view(), zed_models_path()),
    ensures
        r.wf(),
        r.view() == set_at(
            cfg.view(),
            zed_models_path(),
            JsonView::Array(zed_entries(members_view(models@))),
        ),
{
    let entries = zed_models(models);
    let list = JsonValue::Array(entries);
    assert(list.view()->Array_0 =~= entries@.map_values(|e: JsonValue| e.view()));
    let path = path_of(&["language_models", "openai_compatible", "kairux", "available_models"]);
    assert(path_view(path@) =~= zed_models_path());
    cfg.set_path(&path, list)
}


/// After writing, the settings list exactly Zed's entries for the router's
/// models, in the order of their names.
pub proof fn law_zed_lists_router_models(cfg: JsonView, models: Map<Seq<char>, JsonView>)
    ensures
        listed_entries(set_at(cfg, zed_models_path(), JsonView::Array(zed_entries(models))))
            == zed_entries(models),
{
    law_read_after_write(cfg, zed_models_path(), JsonView::Array(zed_entries(models)));
}

proof fn lemma_entry_name(id: Seq<char>, m: JsonView)
    ensures
        member(zed_entry(id, m), "name"@) == Some(JsonView::Str(id)),
{
    reveal_strlit("name");
    reveal_strlit("max_tokens");
    reveal_strlit("max_output_tokens");
    reveal_strlit("max_completion_tokens");
    reveal_strlit("capabilities");
    assert("name"@.len() == 4 && "max_tokens"@.len() == 10 && "max_output_tokens"@.len() == 17);
    assert("max_completion_tokens"@.len() == 21 && "capabilities"@.len() == 12);
}

/// Zed's entries for the router's models, read back by name, are Zed's
/// entries for those models: a second sync right after a sync finds nothing
/// to add, remove or update.
pub proof fn law_zed_entries_by_name(models: Map<Seq<char>, JsonView>)
    requires
        models.dom().finite(),
    ensures
        entries_by_name(zed_entries(models)) == zed_by_name(models),
{
    lemma_sorted_keys_of_finite(models);
    let ks = sorted_keys(models);
    let es = zed_entries(models);
    assert forall|j: int| 0 <= j <= ks.len() implies entries_by_name(#[trigger] es.take(j)) == Map::new(
        |k: Seq<char>| ks.take(j).contains(k),
        |k: Seq<char>| zed_entry(k, models[k]),
    ) by {
        lemma_entries_prefix(models, ks, es, j);
    }
    assert(es.take(ks.len() as int) =~= es);
    assert(ks.take(ks.len() as int) =~= ks);
    assert forall|k: Seq<char>| ks.contains(k) <==> models.contains_key(k) by {
        assert(ks.to_set().contains(k) <==> ks.contains(k));
    }
    assert(Map::new(|k: Seq<char>| ks.contains(k), |k: Seq<char>| zed_entry(k, models[k])) =~= zed_by_name(models));
}

proof fn lemma_entries_prefix(
    models: Map<Seq<char>, JsonView>,
    ks: Seq<Seq<char>>,
    es: Seq<JsonView>,
    j: int,
)
    requires
        ks == sorted_keys(models),
        es == zed_entries(models),
        0 <= j <= ks.len(),
    ensures
        entries_by_name(es.take(j)) == Map::new(
            |k: Seq<char>| ks.take(j).contains(k),
            |k: Seq<char>| zed_entry(k, models[k]),
        ),
    decreases j,
{
    if j == 0 {
        assert(Map::new(|k: Seq<char>| ks.take(0).contains(k), |k: Seq<char>| zed_entry(k, models[k]))
            =~= Map::<Seq<char>, JsonView>::empty());
    } else {
        lemma_entries_prefix(models, ks, es, j - 1);
        let pre = es.take(j);
        assert(pre.drop_last() =~= es.take(j - 1));
        assert(pre.last() == zed_entry(ks[j - 1], models[ks[j - 1]]));
        lemma_entry_name(ks[j - 1], models[ks[j - 1]]);
        assert(Map::new(|k: Seq<char>| ks.take(j).contains(k), |k: Seq<char>| zed_entry(k, models[k]))
            =~= Map::new(|k: Seq<char>| ks.take(j - 1).contains(k), |k: Seq<char>| zed_entry(k, models[k])).insert(
            ks[j - 1],
            zed_entry(ks[j - 1], models[ks[j - 1]]),
        )) by {
            let a = ks.take(j);
            let b = ks.take(j - 1);
            assert forall|k: Seq<char>| a.contains(k) <==> (b.contains(k) || k == ks[j - 1]) by {
                if a.contains(k) {
                    let i = choose|i: int| 0 <= i < a.len() && a[i] == k;
                    if i < j - 1 {
                        assert(b[i] == k);
                    }
                }
                if b.contains(k) {
                    let i = choose|i: int| 0 <= i < b.len() && b[i] == k;
                    assert(a[i] == k);
                }
                if k == ks[j - 1] {
                    assert(a[j - 1] == k);
                }
            }
        }
    }
}


/// Zed is told that a model takes images exactly when the string `"image"`
/// stands anywhere in the router's list of the model's input modalities.
pub proof fn law_zed_images_from_any_input(id: Seq<char>, m: JsonView)
    ensures
        lookup(zed_entry(id, m), seq!["capabilities"@, "images"@]) == Some(
            JsonView::Bool(
                match member(child_or_null(m, "modalities"@), "input"@) {
                    Some(JsonView::Array(inputs)) => exists|i: int|
                        0 <= i < inputs.len() && inputs[i] == JsonView::Str("image"@),
                    _ => false,
                },
            ),
        ),
{
    reveal_strlit("images");
    reveal_strlit("parallel_tool_calls");
    reveal_strlit("prompt_cache_key");
    reveal_strlit("chat_completions");
    reveal_strlit("interleaved_reasoning");
    assert("images"@.len() == 6 && "parallel_tool_calls"@.len() == 19 && "prompt_cache_key"@.len() == 16);
    assert("chat_completions"@.len() == 16 && "interleaved_reasoning"@.len() == 21);
    let e = zed_entry(id, m);
    let p = seq!["capabilities"@, "images"@];
    let caps = member(e, "capabilities"@)->0;
    let img = JsonView::Bool(takes_images(m));
    assert(member(e, p[0]) == Some(caps));
    assert(member(caps, p[1]) == Some(img));
    assert(lookup_from(img, p, 2) == Some(img));
    assert(lookup_from(caps, p, 1) == Some(img));
}

} // verus!
