//! Pointing Anthropic's command-line assistant at the router.
//!
//! The assistant reads the router's address, the API key and the model that
//! stands for each of Opus, Sonnet and Haiku from the `env` object of its
//! settings.
use vstd::prelude::*;
use crate::json::{JsonValue, JsonView, member, with_member, indexable, keys_distinct, members_view,
    members_wf, keys_list, keys_of, lemma_members_dom};
use crate::names::{texts, sorted_keys, views, lemma_sorted_keys, sorted_set};
use crate::opencode::SyncError;
use crate::text::text_of;

verus! {

/// The models the settings currently name for each role, where they name one.
pub struct ModelMapping {
    pub opus: Option<String>,
    pub sonnet: Option<String>,
    pub haiku: Option<String>,
}

/// The text of `env.key` in the settings, when it is a string.
pub open spec fn env_text(cfg: JsonView, key: Seq<char>) -> Option<Seq<char>> {
    match member(cfg, "env"@) {
        Some(env) => match member(env, key) {
            Some(JsonView::Str(t)) => Some(t),
            _ => None,
        },
        None => None,
    }
}

/// The `env` object that a sync starts from: the settings' own, or an empty
/// object when they have none.
pub open spec fn env_base(cfg: JsonView) -> JsonView {
    match member(cfg, "env"@) {
        Some(env) => env,
        None => JsonView::Object(Map::empty()),
    }
}

/// The settings after pointing the assistant at the router `url` with the
/// key `key` and the models `opus`, `sonnet` and `haiku`.
pub open spec fn anthropic_synced(
    cfg: JsonView,
    url: Seq<char>,
    key: Seq<char>,
    opus: Seq<char>,
    sonnet: Seq<char>,
    haiku: Seq<char>,
) -> JsonView {
    let env = with_member(env_base(cfg), "ANTHROPIC_BASE_URL"@, JsonView::Str(url));
    let env = with_member(env, "ANTHROPIC_AUTH_TOKEN"@, JsonView::Str(key));
    let env = with_member(env, "ANTHROPIC_DEFAULT_OPUS_MODEL"@, JsonView::Str(opus));
    let env = with_member(env, "ANTHROPIC_DEFAULT_SONNET_MODEL"@, JsonView::Str(sonnet));
    let env = with_member(env, "ANTHROPIC_DEFAULT_HAIKU_MODEL"@, JsonView::Str(haiku));
    with_member(cfg, "env"@, env)
}

/// The settings and their `env` are objects (or `null`), so that assigning
/// into them cannot panic.
pub open spec fn anthropic_applicable(cfg: JsonView) -> bool {
    indexable(cfg) && indexable(env_base(cfg))
}

fn env_model(cfg: &JsonValue, key: &str) -> (r: Option<String>)
    requires
        cfg.wf(),
    ensures
        match r {
            Some(t) => env_text(cfg.view(), key@) == Some(t@),
            None => env_text(cfg.view(), key@) is None,
        },
{
    match cfg.get("env") {
        Some(env) => match env.get(key) {
            Some(v) => match v.as_str() {
                Some(t) => Some(t.clone()),
                None => None,
            },
            None => None,
        },
        None => None,
    }
}

/// The models the settings name for Opus, Sonnet and Haiku.
pub fn anthropic_mapping(cfg: &JsonValue) -> (r: ModelMapping)
    requires
        cfg.wf(),
    ensures
        text_of(r.opus) == env_text(cfg.view(), "ANTHROPIC_DEFAULT_OPUS_MODEL"@),
        text_of(r.sonnet) == env_text(cfg.view(), "ANTHROPIC_DEFAULT_SONNET_MODEL"@),
        text_of(r.haiku) == env_text(cfg.view(), "ANTHROPIC_DEFAULT_HAIKU_MODEL"@),
{
    ModelMapping {
        opus: env_model(cfg, "ANTHROPIC_DEFAULT_OPUS_MODEL"),
        sonnet: env_model(cfg, "ANTHROPIC_DEFAULT_SONNET_MODEL"),
        haiku: env_model(cfg, "ANTHROPIC_DEFAULT_HAIKU_MODEL"),
    }
}

/// The names of the router's models in ascending order, the list the user
/// picks from; refused when there are none.
pub fn anthropic_choices(models: &Vec<(String, JsonValue)>) -> (r: Result<Vec<String>, SyncError>)
    requires
        keys_distinct(models@),
    ensures
        match r {
            Ok(names) => views(names@) == sorted_keys(members_view(models@)) && names@.len() > 0,
            Err(e) => e == SyncError::NoModels && members_view(models@).dom() == Set::<Seq<char>>::empty(),
        },
{
    let names = keys_list(models);
    let ids = sorted_set(&names);
    proof {
        lemma_sorted_keys(ids@, members_view(models@));
    }
    if ids.len() == 0 {
        assert(members_view(models@).dom() =~= Set::<Seq<char>>::empty()) by {
            assert forall|t: Seq<char>| !members_view(models@).dom().contains(t) by {
                if members_view(models@).dom().contains(t) {
                    assert(texts(ids@).contains(t));
                }
            }
        }
        Err(SyncError::NoModels)
    } else {
        Ok(ids)
    }
}

/// Whether the settings can be updated without a panic.
pub fn anthropic_can_apply(cfg: &JsonValue) -> (r: bool)
    requires
        cfg.wf(),
    ensures
        r == anthropic_applicable(cfg.view()),
{
    if !cfg.is_indexable() {
        return false;
    }
    match cfg.get("env") {
        Some(env) => env.is_indexable(),
        None => true,
    }
}

/// Points the settings at the router `baseurl` with the key `api_key` and
/// the chosen models.
pub fn apply_anthropic(
    cfg: JsonValue,
    baseurl: &str,
    api_key: &str,
    opus: &String,
    sonnet: &String,
    haiku: &String,
) -> (r: JsonValue)
    requires
        cfg.wf(),
        anthropic_applicable(cfg.view()),
    ensures
        r.wf(),
        r.view() == anthropic_synced(cfg.view(), baseurl@, api_key@, opus@, sonnet@, haiku@),
{
    let env = match cfg.get("env") {
        Some(e) => e.copy(),
        None => {
            let empty: Vec<(String, JsonValue)> = Vec::new();
            assert(members_view(empty@) =~= Map::<Seq<char>, JsonView>::empty());
            JsonValue::object(empty)
        },
    };
    let env = env.insert("ANTHROPIC_BASE_URL", JsonValue::text(baseurl));
    let env = env.insert("ANTHROPIC_AUTH_TOKEN", JsonValue::text(api_key));
    let env = env.insert("ANTHROPIC_DEFAULT_OPUS_MODEL", JsonValue::Str(opus.clone()));
    let env = env.insert("ANTHROPIC_DEFAULT_SONNET_MODEL", JsonValue::Str(sonnet.clone()));
    let env = env.insert("ANTHROPIC_DEFAULT_HAIKU_MODEL", JsonValue::Str(haiku.clone()));
    cfg.insert("env", env)
}


proof fn lemma_env_keys_distinct()
    ensures
        "ANTHROPIC_BASE_URL"@.len() == 18,
        "ANTHROPIC_AUTH_TOKEN"@.len() == 20,
        "ANTHROPIC_DEFAULT_OPUS_MODEL"@.len() == 28,
        "ANTHROPIC_DEFAULT_HAIKU_MODEL"@.len() == 29,
        "ANTHROPIC_DEFAULT_SONNET_MODEL"@.len() == 30,
{
    reveal_strlit("ANTHROPIC_BASE_URL");
    reveal_strlit("ANTHROPIC_AUTH_TOKEN");
    reveal_strlit("ANTHROPIC_DEFAULT_OPUS_MODEL");
    reveal_strlit("ANTHROPIC_DEFAULT_HAIKU_MODEL");
    reveal_strlit("ANTHROPIC_DEFAULT_SONNET_MODEL");
}

/// After pointing the assistant at the router, its settings name the
/// chosen models, the router's address and the key.
pub proof fn law_anthropic_reads_back(
    cfg: JsonView,
    url: Seq<char>,
    key: Seq<char>,
    opus: Seq<char>,
    sonnet: Seq<char>,
    haiku: Seq<char>,
)
    ensures
        env_text(anthropic_synced(cfg, url, key, opus, sonnet, haiku), "ANTHROPIC_DEFAULT_OPUS_MODEL"@)
            == Some(opus),
        env_text(anthropic_synced(cfg, url, key, opus, sonnet, haiku), "ANTHROPIC_DEFAULT_SONNET_MODEL"@)
            == Some(sonnet),
        env_text(anthropic_synced(cfg, url, key, opus, sonnet, haiku), "ANTHROPIC_DEFAULT_HAIKU_MODEL"@)
            == Some(haiku),
        env_text(anthropic_synced(cfg, url, key, opus, sonnet, haiku), "ANTHROPIC_BASE_URL"@) == Some(url),
        env_text(anthropic_synced(cfg, url, key, opus, sonnet, haiku), "ANTHROPIC_AUTH_TOKEN"@) == Some(key),
{
    lemma_env_keys_distinct();
}

/// Pointing the assistant at the router keeps every other setting, and every
/// other variable of its `env`.
pub proof fn law_anthropic_keeps_the_rest(
    cfg: JsonView,
    url: Seq<char>,
    key: Seq<char>,
    opus: Seq<char>,
    sonnet: Seq<char>,
    haiku: Seq<char>,
    other: Seq<char>,
    other_var: Seq<char>,
)
    requires
        cfg is Object,
        env_base(cfg) is Object,
        other != "env"@,
        other_var != "ANTHROPIC_BASE_URL"@,
        other_var != "ANTHROPIC_AUTH_TOKEN"@,
        other_var != "ANTHROPIC_DEFAULT_OPUS_MODEL"@,
        other_var != "ANTHROPIC_DEFAULT_SONNET_MODEL"@,
        other_var != "ANTHROPIC_DEFAULT_HAIKU_MODEL"@,
    ensures
        member(anthropic_synced(cfg, url, key, opus, sonnet, haiku), other) == member(cfg, other),
        member(
            env_base(anthropic_synced(cfg, url, key, opus, sonnet, haiku)),
            other_var,
        ) == member(env_base(cfg), other_var),
{
}


/// The settings can be written exactly when they are an object (or `null`)
/// and their `env` is absent, `null` or an object; absent, it starts empty.
pub proof fn law_anthropic_writable(cfg: JsonView)
    ensures
        anthropic_applicable(cfg) <==> {
            &&& (cfg is Null || cfg is Object)
            &&& match member(cfg, "env"@) {
                None => true,
                Some(e) => e is Null || e is Object,
            }
        },
{
}

/// Settings without `env` are written with an `env` holding exactly the
/// router's address, the key and the three models.
pub proof fn law_anthropic_new_env(
    cfg: JsonView,
    url: Seq<char>,
    key: Seq<char>,
    opus: Seq<char>,
    sonnet: Seq<char>,
    haiku: Seq<char>,
)
    requires
        cfg is Object,
        member(cfg, "env"@) is None,
    ensures
        anthropic_applicable(cfg),
        member(anthropic_synced(cfg, url, key, opus, sonnet, haiku), "env"@) == Some(
            JsonView::Object(
                map![
                    "ANTHROPIC_BASE_URL"@ => JsonView::Str(url),
                    "ANTHROPIC_AUTH_TOKEN"@ => JsonView::Str(key),
                    "ANTHROPIC_DEFAULT_OPUS_MODEL"@ => JsonView::Str(opus),
                    "ANTHROPIC_DEFAULT_SONNET_MODEL"@ => JsonView::Str(sonnet),
                    "ANTHROPIC_DEFAULT_HAIKU_MODEL"@ => JsonView::Str(haiku),
                ],
            ),
        ),
{
}

} // verus!
