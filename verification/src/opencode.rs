//! Synchronising opencode's configuration with the router's model list.
//!
//! The router answers with an opencode configuration whose provider `Kairux`
//! lists the models. In the user's configuration the provider is
//! `Router-Bocah`: a sync replaces its models with the router's, refreshes its
//! `options.apiKey` and `options.baseURL`, and creates the provider (with
//! `npm: "@ai-sdk/openai-compatible"`) when it is missing.
use vstd::prelude::*;
use crate::json::{JsonValue, JsonView, member, child_or_null, with_member, indexable, object_at,
    lookup, lookup_from, base_map, same_document, json_eq,
    members_view, keys_distinct, members_wf, path_of, path_view, copy_members, lemma_member_at,
    lemma_keys_of_take, lemma_members_finite};
use crate::sync::{SyncPlan, plan_members};
use crate::text::concat;

verus! {

/// Where the router's answer lists its models.
pub open spec fn remote_models_path() -> Seq<Seq<char>> {
    seq!["provider"@, "Kairux"@, "models"@]
}

/// Where the user's opencode configuration lists the router's models.
pub open spec fn local_models_path() -> Seq<Seq<char>> {
    seq!["provider"@, "Router-Bocah"@, "models"@]
}

/// Why a synchronisation cannot go on.
#[derive(PartialEq, Eq, Structural, Clone, Copy, Debug)]
pub enum SyncError {
    /// The router's answer lists no model.
    NoModels,
}

/// The models that the router's answer lists, by name; refused when there
/// are none.
pub fn remote_models(remote: &JsonValue) -> (r: Result<Vec<(String, JsonValue)>, SyncError>)
    requires
        remote.wf(),
    ensures
        match r {
            Ok(es) => {
                &&& members_view(es@) == object_at(remote.view(), remote_models_path())
                &&& members_view(es@).dom().len() > 0
                &&& keys_distinct(es@)
                &&& members_wf(es@)
            },
            Err(e) => e == SyncError::NoModels && object_at(remote.view(), remote_models_path())
                == Map::<Seq<char>, JsonView>::empty(),
        },
{
    let path = path_of(&["provider", "Kairux", "models"]);
    assert(path_view(path@) =~= remote_models_path());
    let es = remote.members_at(&path);
    if es.len() == 0 {
        assert(members_view(es@) =~= Map::<Seq<char>, JsonView>::empty());
        Err(SyncError::NoModels)
    } else {
        proof {
            lemma_member_at(es@, 0);
            lemma_keys_of_take(es@, 0);
            assert(members_view(es@).dom().finite()) by {
                lemma_members_finite(es@);
            }
            vstd::set_lib::lemma_set_empty_equivalency_len(members_view(es@).dom());
            assert(members_view(es@).dom() != Set::<Seq<char>>::empty());
        }
        Ok(es)
    }
}

/// The differences between the models the configuration lists for the
/// router and the models the router offers.
pub fn opencode_plan(cfg: &JsonValue, models: &Vec<(String, JsonValue)>) -> (p: SyncPlan)
    requires
        cfg.wf(),
        keys_distinct(models@),
        members_wf(models@),
    ensures
        p.describes(object_at(cfg.view(), local_models_path()), members_view(models@)),
{
    let path = path_of(&["provider", "Router-Bocah", "models"]);
    assert(path_view(path@) =~= local_models_path());
    let old = cfg.members_at(&path);
    plan_members(&old, models)
}

/// The provider entry after a sync: its models replaced, `options.apiKey` and
/// `options.baseURL` set, and, for a new entry, `npm` set.
pub open spec fn synced_entry(
    entry: JsonView,
    is_new: bool,
    models: Map<Seq<char>, JsonView>,
    key: Seq<char>,
    url: Seq<char>,
) -> JsonView {
    let options = with_member(
        with_member(child_or_null(entry, "options"@), "apiKey"@, JsonView::Str(key)),
        "baseURL"@,
        JsonView::Str(url),
    );
    let e = with_member(
        with_member(entry, "models"@, JsonView::Object(models)),
        "options"@,
        options,
    );
    if is_new {
        with_member(e, "npm"@, JsonView::Str("@ai-sdk/openai-compatible"@))
    } else {
        e
    }
}

/// The user's provider entry, `cfg.provider["Router-Bocah"]`.
pub open spec fn provider_entry(cfg: JsonView) -> Option<JsonView> {
    member(child_or_null(cfg, "provider"@), "Router-Bocah"@)
}

/// The configuration after a sync with the models `models`, the key `key`
/// and the versioned base URL `url`.
pub open spec fn opencode_synced(
    cfg: JsonView,
    models: Map<Seq<char>, JsonView>,
    key: Seq<char>,
    url: Seq<char>,
) -> JsonView {
    let provider = child_or_null(cfg, "provider"@);
    let is_new = provider_entry(cfg) is None;
    let entry = child_or_null(provider, "Router-Bocah"@);
    with_member(
        cfg,
        "provider"@,
        with_member(provider, "Router-Bocah"@, synced_entry(entry, is_new, models, key, url)),
    )
}

/// Every object on the way to the provider's options is an object or
/// `null`, so that assigning into it cannot panic.
pub open spec fn opencode_applicable(cfg: JsonView) -> bool {
    let provider = child_or_null(cfg, "provider"@);
    let entry = child_or_null(provider, "Router-Bocah"@);
    &&& indexable(cfg)
    &&& indexable(provider)
    &&& indexable(entry)
    &&& indexable(child_or_null(entry, "options"@))
}

/// The OpenAI-compatible base URL under a router base URL.
pub open spec fn versioned_url(base: Seq<char>) -> Seq<char> {
    base + "/v1"@
}

/// Whether a sync can be written into `cfg` without a panic.
pub fn opencode_can_apply(cfg: &JsonValue) -> (r: bool)
    requires
        cfg.wf(),
    ensures
        r == opencode_applicable(cfg.view()),
{
    if !cfg.is_indexable() {
        return false;
    }
    let provider = cfg.child_or_null("provider");
    if !provider.is_indexable() {
        return false;
    }
    let entry = provider.child_or_null("Router-Bocah");
    if !entry.is_indexable() {
        return false;
    }
    entry.child_or_null("options").is_indexable()
}

/// Writes the router's models, the API key and the base URL into the
/// configuration.
pub fn apply_opencode(
    cfg: JsonValue,
    models: &Vec<(String, JsonValue)>,
    api_key: &str,
    baseurl: &str,
) -> (r: JsonValue)
    requires
        cfg.wf(),
        keys_distinct(models@),
        members_wf(models@),
        opencode_applicable(cfg.view()),
    ensures
        r.wf(),
        r.view() == opencode_synced(cfg.view(), members_view(models@), api_key@, versioned_url(baseurl@)),
{
    let provider = cfg.child_or_null("provider");
    let is_new = provider.get("Router-Bocah").is_none();
    let entry = provider.child_or_null("Router-Bocah");
    let options = entry.child_or_null("options");
    let url = concat(baseurl, "/v1");
    let options = options.insert("apiKey", JsonValue::text(api_key));
    let options = options.insert("baseURL", JsonValue::Str(url));
    let entry = entry.insert("models", JsonValue::object(copy_members(models)));
    let entry = entry.insert("options", options);
    let entry = if is_new {
        entry.insert("npm", JsonValue::text("@ai-sdk/openai-compatible"))
    } else {
        entry
    };
    let provider = provider.insert("Router-Bocah", entry);
    cfg.insert("provider", provider)
}


/// What a sync would do to the configuration.
pub enum OpencodeOutcome {
    /// A node on the way to the provider's options is neither an object nor
    /// `null`, so the sync cannot be written.
    Unwritable,
    /// The configuration already is what the sync would write.
    Unchanged,
    /// The configuration the sync writes.
    Changed(JsonValue),
}

/// Works out what syncing the router's models, the key and the base URL into
/// the configuration would write, and whether that changes anything.
pub fn opencode_outcome(
    cfg: &JsonValue,
    models: &Vec<(String, JsonValue)>,
    api_key: &str,
    baseurl: &str,
) -> (r: OpencodeOutcome)
    requires
        cfg.wf(),
        keys_distinct(models@),
        members_wf(models@),
    ensures
        match r {
            OpencodeOutcome::Unwritable => !opencode_applicable(cfg.view()),
            OpencodeOutcome::Unchanged => {
                &&& opencode_applicable(cfg.view())
                &&& same_document(
                    opencode_synced(cfg.view(), members_view(models@), api_key@, versioned_url(baseurl@)),
                    cfg.view(),
                )
            },
            OpencodeOutcome::Changed(u) => {
                &&& opencode_applicable(cfg.view())
                &&& u.wf()
                &&& u.view() == opencode_synced(
                    cfg.view(),
                    members_view(models@),
                    api_key@,
                    versioned_url(baseurl@),
                )
                &&& !same_document(u.view(), cfg.view())
            },
        },
{
    if !opencode_can_apply(cfg) {
        return OpencodeOutcome::Unwritable;
    }
    let updated = apply_opencode(cfg.copy(), models, api_key, baseurl);
    if json_eq(&updated, cfg) {
        OpencodeOutcome::Unchanged
    } else {
        OpencodeOutcome::Changed(updated)
    }
}

proof fn lemma_entry_keys_distinct()
    ensures
        "models"@ != "options"@,
        "models"@ != "npm"@,
        "options"@ != "npm"@,
        "apiKey"@ != "baseURL"@,
{
    reveal_strlit("models");
    reveal_strlit("options");
    reveal_strlit("npm");
    reveal_strlit("apiKey");
    reveal_strlit("baseURL");
    assert("models"@.len() == 6 && "options"@.len() == 7 && "npm"@.len() == 3);
    assert("apiKey"@.len() == 6 && "baseURL"@.len() == 7);
}

/// After a sync the configuration lists exactly the router's models.
pub proof fn law_opencode_lists_router_models(
    cfg: JsonView,
    models: Map<Seq<char>, JsonView>,
    key: Seq<char>,
    url: Seq<char>,
)
    ensures
        object_at(opencode_synced(cfg, models, key, url), local_models_path()) == models,
{
    lemma_entry_keys_distinct();
    let r = opencode_synced(cfg, models, key, url);
    let p = local_models_path();
    let provider = child_or_null(r, "provider"@);
    let entry = child_or_null(provider, "Router-Bocah"@);
    assert(member(r, p[0]) == Some(provider));
    assert(member(provider, p[1]) == Some(entry));
    assert(member(entry, p[2]) == Some(JsonView::Object(models)));
    assert(lookup_from(JsonView::Object(models), p, 3) == Some(JsonView::Object(models)));
    assert(lookup_from(entry, p, 2) == Some(JsonView::Object(models)));
    assert(lookup_from(provider, p, 1) == Some(JsonView::Object(models)));
}

/// After a sync the provider's options hold the key and the versioned base
/// URL.
pub proof fn law_opencode_sets_credentials(
    cfg: JsonView,
    models: Map<Seq<char>, JsonView>,
    key: Seq<char>,
    url: Seq<char>,
)
    ensures
        lookup(
            opencode_synced(cfg, models, key, url),
            seq!["provider"@, "Router-Bocah"@, "options"@, "apiKey"@],
        ) == Some(JsonView::Str(key)),
        lookup(
            opencode_synced(cfg, models, key, url),
            seq!["provider"@, "Router-Bocah"@, "options"@, "baseURL"@],
        ) == Some(JsonView::Str(url)),
{
    lemma_entry_keys_distinct();
    let r = opencode_synced(cfg, models, key, url);
    let pk = seq!["provider"@, "Router-Bocah"@, "options"@, "apiKey"@];
    let pu = seq!["provider"@, "Router-Bocah"@, "options"@, "baseURL"@];
    let provider = child_or_null(r, "provider"@);
    let entry = child_or_null(provider, "Router-Bocah"@);
    let options = child_or_null(entry, "options"@);
    assert(member(r, pk[0]) == Some(provider));
    assert(member(provider, pk[1]) == Some(entry));
    assert(member(entry, pk[2]) == Some(options));
    assert(member(options, pk[3]) == Some(JsonView::Str(key)));
    assert(member(options, pu[3]) == Some(JsonView::Str(url)));
    assert(lookup_from(JsonView::Str(key), pk, 4) == Some(JsonView::Str(key)));
    assert(lookup_from(options, pk, 3) == Some(JsonView::Str(key)));
    assert(lookup_from(entry, pk, 2) == Some(JsonView::Str(key)));
    assert(lookup_from(provider, pk, 1) == Some(JsonView::Str(key)));
    assert(lookup_from(JsonView::Str(url), pu, 4) == Some(JsonView::Str(url)));
    assert(lookup_from(options, pu, 3) == Some(JsonView::Str(url)));
    assert(lookup_from(entry, pu, 2) == Some(JsonView::Str(url)));
    assert(lookup_from(provider, pu, 1) == Some(JsonView::Str(url)));
}

/// A second sync with the same models, key and URL changes nothing.
pub proof fn law_opencode_sync_idempotent(
    cfg: JsonView,
    models: Map<Seq<char>, JsonView>,
    key: Seq<char>,
    url: Seq<char>,
)
    ensures
        opencode_synced(opencode_synced(cfg, models, key, url), models, key, url)
            == opencode_synced(cfg, models, key, url),
{
    lemma_entry_keys_distinct();
    let once = opencode_synced(cfg, models, key, url);
    let twice = opencode_synced(once, models, key, url);
    let provider = child_or_null(cfg, "provider"@);
    let entry = child_or_null(provider, "Router-Bocah"@);
    let is_new = provider_entry(cfg) is None;
    let e1 = synced_entry(entry, is_new, models, key, url);
    let p1 = with_member(provider, "Router-Bocah"@, e1);
    assert(child_or_null(once, "provider"@) == p1);
    assert(child_or_null(p1, "Router-Bocah"@) == e1);
    assert(provider_entry(once) == Some(e1));
    let e2 = synced_entry(e1, false, models, key, url);
    let o1 = child_or_null(e1, "options"@);
    let o2 = child_or_null(e2, "options"@);
    let o1s = with_member(with_member(o1, "apiKey"@, JsonView::Str(key)), "baseURL"@, JsonView::Str(url));
    assert(child_or_null(e2, "options"@) == o1s);
    assert(base_map(o1s) =~= base_map(o1));
    assert(o1s == o1);
    assert(o2 == o1);
    assert(base_map(e2) =~= base_map(e1));
    assert(e2 == e1);
    assert(base_map(with_member(p1, "Router-Bocah"@, e2)) =~= base_map(p1));
    assert(base_map(twice) =~= base_map(once));
}

/// A sync leaves the rest of the configuration and the other providers as
/// they were.
pub proof fn law_opencode_keeps_the_rest(
    cfg: JsonView,
    models: Map<Seq<char>, JsonView>,
    key: Seq<char>,
    url: Seq<char>,
    other: Seq<char>,
    other_provider: Seq<char>,
)
    requires
        cfg is Object,
        other != "provider"@,
        other_provider != "Router-Bocah"@,
        child_or_null(cfg, "provider"@) is Object,
    ensures
        member(opencode_synced(cfg, models, key, url), other) == member(cfg, other),
        member(child_or_null(opencode_synced(cfg, models, key, url), "provider"@), other_provider)
            == member(child_or_null(cfg, "provider"@), other_provider),
{
}


/// A sync into a configuration without the provider creates it as an
/// OpenAI-compatible provider.
pub proof fn law_opencode_creates_provider(
    cfg: JsonView,
    models: Map<Seq<char>, JsonView>,
    key: Seq<char>,
    url: Seq<char>,
)
    requires
        provider_entry(cfg) is None,
    ensures
        lookup(
            opencode_synced(cfg, models, key, url),
            seq!["provider"@, "Router-Bocah"@, "npm"@],
        ) == Some(JsonView::Str("@ai-sdk/openai-compatible"@)),
{
    let r = opencode_synced(cfg, models, key, url);
    let p = seq!["provider"@, "Router-Bocah"@, "npm"@];
    let provider = child_or_null(r, "provider"@);
    let entry = child_or_null(provider, "Router-Bocah"@);
    let npm = JsonView::Str("@ai-sdk/openai-compatible"@);
    assert(member(r, p[0]) == Some(provider));
    assert(member(provider, p[1]) == Some(entry));
    assert(member(entry, p[2]) == Some(npm));
    assert(lookup_from(npm, p, 3) == Some(npm));
    assert(lookup_from(entry, p, 2) == Some(npm));
    assert(lookup_from(provider, p, 1) == Some(npm));
}

/// A sync into a configuration that has the provider keeps its `npm`.
pub proof fn law_opencode_keeps_existing_npm(
    cfg: JsonView,
    models: Map<Seq<char>, JsonView>,
    key: Seq<char>,
    url: Seq<char>,
)
    requires
        provider_entry(cfg) is Some,
    ensures
        member(provider_entry(opencode_synced(cfg, models, key, url))->0, "npm"@)
            == member(provider_entry(cfg)->0, "npm"@),
{
    lemma_entry_keys_distinct();
}


/// A node may be assigned into when it is absent, `null` or an object.
pub open spec fn absent_or_object(v: Option<JsonView>) -> bool {
    match v {
        None => true,
        Some(x) => x is Null || x is Object,
    }
}

/// A sync can be written exactly when the configuration, its `provider`,
/// the `Router-Bocah` entry and that entry's `options` are each absent,
/// `null` or an object. In particular a configuration whose providers lack
/// `Router-Bocah` gets the entry created.
pub proof fn law_opencode_writable(cfg: JsonView)
    ensures
        opencode_applicable(cfg) <==> {
            &&& (cfg is Null || cfg is Object)
            &&& absent_or_object(member(cfg, "provider"@))
            &&& absent_or_object(member(child_or_null(cfg, "provider"@), "Router-Bocah"@))
            &&& absent_or_object(
                member(child_or_null(child_or_null(cfg, "provider"@), "Router-Bocah"@), "options"@),
            )
        },
        cfg is Object && (member(cfg, "provider"@) matches Some(p) && p is Object) && member(
            child_or_null(cfg, "provider"@),
            "Router-Bocah"@,
        ) is None ==> opencode_applicable(cfg),
{
}

} // verus!
