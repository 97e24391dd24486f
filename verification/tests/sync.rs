use router_sync::anthropic::{anthropic_can_apply, anthropic_choices, anthropic_mapping, apply_anthropic};
use router_sync::json::{json_eq, JsonNumber, JsonValue};
use router_sync::opencode::{
    apply_opencode, opencode_can_apply, opencode_outcome, opencode_plan, remote_models, OpencodeOutcome, SyncError,
};
use router_sync::sync::plan_members;
use router_sync::zed::{apply_zed, listed_by_name, zed_can_apply, zed_model_entry, zed_models, zed_plan};

fn s(t: &str) -> JsonValue {
    JsonValue::Str(t.to_string())
}

fn num(n: u64) -> JsonValue {
    JsonValue::Number(JsonNumber::PosInt(n))
}

fn obj(members: Vec<(&str, JsonValue)>) -> JsonValue {
    JsonValue::Object(members.into_iter().map(|(k, v)| (k.to_string(), v)).collect())
}

fn members(members: Vec<(&str, JsonValue)>) -> Vec<(String, JsonValue)> {
    members.into_iter().map(|(k, v)| (k.to_string(), v)).collect()
}

fn names(v: &[String]) -> Vec<&str> {
    v.iter().map(|t| t.as_str()).collect()
}

fn router_answer(models: JsonValue) -> JsonValue {
    obj(vec![("provider", obj(vec![("Kairux", obj(vec![("models", models)]))]))])
}

#[test]
fn plan_lists_each_kind_of_difference_sorted() {
    let old = members(vec![("b", num(1)), ("a", num(1)), ("gone", num(0))]);
    let new = members(vec![("z-new", num(0)), ("b", num(2)), ("a", num(1)), ("c-new", num(0))]);
    let p = plan_members(&old, &new);
    assert_eq!(names(&p.added), vec!["c-new", "z-new"]);
    assert_eq!(names(&p.removed), vec!["gone"]);
    assert_eq!(names(&p.changed), vec!["b"]);
    assert_eq!(names(&p.unchanged), vec!["a"]);
    assert!(!p.is_noop());
    assert!(plan_members(&new, &new).is_noop());
}

#[test]
fn remote_models_need_at_least_one() {
    let empty = router_answer(obj(vec![]));
    assert_eq!(remote_models(&empty).err(), Some(SyncError::NoModels));
    assert_eq!(remote_models(&JsonValue::Null).err(), Some(SyncError::NoModels));
    let one = router_answer(obj(vec![("m1", obj(vec![]))]));
    let got = remote_models(&one).unwrap();
    assert_eq!(got.len(), 1);
    assert_eq!(got[0].0, "m1");
}

#[test]
fn opencode_sync_creates_the_provider() {
    let remote = members(vec![("m1", obj(vec![("name", s("Model 1"))]))]);
    let cfg = obj(vec![("theme", s("dark"))]);
    assert!(opencode_can_apply(&cfg));
    let plan = opencode_plan(&cfg, &remote);
    assert_eq!(names(&plan.added), vec!["m1"]);
    let out = apply_opencode(cfg, &remote, "rb-key", "https://r.example");
    let expected = obj(vec![
        ("theme", s("dark")),
        (
            "provider",
            obj(vec![(
                "Router-Bocah",
                obj(vec![
                    ("npm", s("@ai-sdk/openai-compatible")),
                    ("models", obj(vec![("m1", obj(vec![("name", s("Model 1"))]))])),
                    (
                        "options",
                        obj(vec![("apiKey", s("rb-key")), ("baseURL", s("https://r.example/v1"))]),
                    ),
                ]),
            )]),
        ),
    ]);
    assert!(json_eq(&out, &expected));
}

#[test]
fn opencode_sync_refreshes_an_existing_provider() {
    let remote = members(vec![("m1", num(1)), ("m2", num(2))]);
    let cfg = obj(vec![(
        "provider",
        obj(vec![
            ("other", obj(vec![("npm", s("x"))])),
            (
                "Router-Bocah",
                obj(vec![
                    ("npm", s("custom")),
                    ("models", obj(vec![("m1", num(9)), ("old", num(0))])),
                    ("options", obj(vec![("apiKey", s("stale")), ("timeout", num(5))])),
                ]),
            ),
        ]),
    )]);
    let plan = opencode_plan(&cfg, &remote);
    assert_eq!(names(&plan.added), vec!["m2"]);
    assert_eq!(names(&plan.removed), vec!["old"]);
    assert_eq!(names(&plan.changed), vec!["m1"]);
    let out = apply_opencode(cfg, &remote, "new-key", "https://b");
    let expected = obj(vec![(
        "provider",
        obj(vec![
            ("other", obj(vec![("npm", s("x"))])),
            (
                "Router-Bocah",
                obj(vec![
                    ("npm", s("custom")),
                    ("models", obj(vec![("m1", num(1)), ("m2", num(2))])),
                    (
                        "options",
                        obj(vec![("apiKey", s("new-key")), ("timeout", num(5)), ("baseURL", s("https://b/v1"))]),
                    ),
                ]),
            ),
        ]),
    )]);
    assert!(json_eq(&out, &expected));
    let again = apply_opencode(out.copy(), &remote, "new-key", "https://b");
    assert!(json_eq(&again, &out));
    assert!(opencode_plan(&out, &remote).is_noop());
}

#[test]
fn opencode_sync_refuses_non_object_nodes() {
    assert!(!opencode_can_apply(&s("text")));
    assert!(!opencode_can_apply(&obj(vec![("provider", num(1))])));
    assert!(!opencode_can_apply(&obj(vec![("provider", obj(vec![("Router-Bocah", obj(vec![("options", s("x"))]))]))])));
    assert!(opencode_can_apply(&JsonValue::Null));
}

fn remote_model(context: u64, output: u64, inputs: Vec<&str>, reasoning: bool) -> JsonValue {
    obj(vec![
        ("limit", obj(vec![("context", num(context)), ("output", num(output))])),
        ("modalities", obj(vec![("input", JsonValue::Array(inputs.into_iter().map(s).collect()))])),
        ("reasoning", JsonValue::Bool(reasoning)),
    ])
}

fn zed_entry(name: &str, context: u64, output: u64, images: bool, reasoning: bool) -> JsonValue {
    obj(vec![
        ("name", s(name)),
        ("max_tokens", num(context)),
        ("max_output_tokens", num(output)),
        ("max_completion_tokens", num(context)),
        (
            "capabilities",
            obj(vec![
                ("tools", JsonValue::Bool(true)),
                ("images", JsonValue::Bool(images)),
                ("parallel_tool_calls", JsonValue::Bool(false)),
                ("prompt_cache_key", JsonValue::Bool(false)),
                ("chat_completions", JsonValue::Bool(true)),
                ("interleaved_reasoning", JsonValue::Bool(reasoning)),
            ]),
        ),
    ])
}

#[test]
fn zed_entry_reads_limits_and_capabilities() {
    let m = remote_model(128000, 8192, vec!["text", "image"], true);
    assert!(json_eq(&zed_model_entry(&"gpt".to_string(), &m), &zed_entry("gpt", 128000, 8192, true, true)));
    let bare = obj(vec![("limit", obj(vec![("context", s("big"))]))]);
    assert!(json_eq(&zed_model_entry(&"x".to_string(), &bare), &zed_entry("x", 0, 0, false, false)));
}

#[test]
fn zed_models_come_in_name_order() {
    let remote = members(vec![
        ("b", remote_model(1, 2, vec![], false)),
        ("a", remote_model(3, 4, vec!["image"], false)),
    ]);
    let out = zed_models(&remote);
    assert_eq!(out.len(), 2);
    assert!(json_eq(&out[0], &zed_entry("a", 3, 4, true, false)));
    assert!(json_eq(&out[1], &zed_entry("b", 1, 2, false, false)));
}

fn zed_settings(list: JsonValue) -> JsonValue {
    obj(vec![
        ("theme", s("One")),
        (
            "language_models",
            obj(vec![("openai_compatible", obj(vec![("kairux", obj(vec![("available_models", list)]))]))]),
        ),
    ])
}

#[test]
fn zed_plan_compares_by_name_and_later_duplicates_win() {
    let remote = members(vec![("a", remote_model(3, 4, vec![], false)), ("n", remote_model(1, 1, vec![], false))]);
    let list = JsonValue::Array(vec![
        zed_entry("a", 0, 0, false, false),
        zed_entry("a", 3, 4, false, false),
        zed_entry("old", 1, 1, false, false),
        obj(vec![("name", num(3))]),
    ]);
    let cfg = zed_settings(list);
    let by_name = listed_by_name(&cfg);
    assert_eq!(by_name.len(), 2);
    let plan = zed_plan(&cfg, &remote);
    assert_eq!(names(&plan.added), vec!["n"]);
    assert_eq!(names(&plan.removed), vec!["old"]);
    assert!(plan.changed.is_empty());
    assert_eq!(names(&plan.unchanged), vec!["a"]);
}

#[test]
fn zed_sync_writes_the_list_and_then_finds_nothing() {
    let remote = members(vec![("m", remote_model(10, 5, vec!["image"], true))]);
    let cfg = obj(vec![("theme", s("One"))]);
    assert!(zed_can_apply(&cfg));
    let out = apply_zed(cfg, &remote);
    let expected = zed_settings(JsonValue::Array(vec![zed_entry("m", 10, 5, true, true)]));
    assert!(json_eq(&out, &expected));
    assert!(zed_plan(&out, &remote).is_noop());
    assert!(!zed_can_apply(&obj(vec![("language_models", JsonValue::Array(vec![]))])));
}

#[test]
fn anthropic_mapping_reads_string_models_only() {
    let cfg = obj(vec![(
        "env",
        obj(vec![("ANTHROPIC_DEFAULT_OPUS_MODEL", s("o1")), ("ANTHROPIC_DEFAULT_HAIKU_MODEL", num(3))]),
    )]);
    let m = anthropic_mapping(&cfg);
    assert_eq!(m.opus.as_deref(), Some("o1"));
    assert_eq!(m.sonnet, None);
    assert_eq!(m.haiku, None);
    assert_eq!(anthropic_mapping(&JsonValue::Null).opus, None);
}

#[test]
fn anthropic_choices_are_sorted_names() {
    let remote = members(vec![("zeta", num(0)), ("Alpha", num(0)), ("beta", num(0))]);
    let c = anthropic_choices(&remote).unwrap();
    assert_eq!(names(&c), vec!["Alpha", "beta", "zeta"]);
    assert_eq!(anthropic_choices(&Vec::new()).err(), Some(SyncError::NoModels));
}

#[test]
fn anthropic_sync_sets_env_and_keeps_the_rest() {
    let cfg = obj(vec![("model", s("x")), ("env", obj(vec![("OTHER", s("1"))]))]);
    assert!(anthropic_can_apply(&cfg));
    let out = apply_anthropic(cfg, "https://r", "k", &"o".to_string(), &"s".to_string(), &"h".to_string());
    let expected = obj(vec![
        ("model", s("x")),
        (
            "env",
            obj(vec![
                ("OTHER", s("1")),
                ("ANTHROPIC_BASE_URL", s("https://r")),
                ("ANTHROPIC_AUTH_TOKEN", s("k")),
                ("ANTHROPIC_DEFAULT_OPUS_MODEL", s("o")),
                ("ANTHROPIC_DEFAULT_SONNET_MODEL", s("s")),
                ("ANTHROPIC_DEFAULT_HAIKU_MODEL", s("h")),
            ]),
        ),
    ]);
    assert!(json_eq(&out, &expected));
    let m = anthropic_mapping(&out);
    assert_eq!(m.sonnet.as_deref(), Some("s"));
    assert!(!anthropic_can_apply(&obj(vec![("env", s("x"))])));
    assert!(anthropic_can_apply(&obj(vec![("env", JsonValue::Null)])));
}

#[test]
fn opencode_outcome_says_whether_a_write_is_needed() {
    let remote = members(vec![("m1", num(1))]);
    let cfg = obj(vec![]);
    let written = match opencode_outcome(&cfg, &remote, "k", "https://b") {
        OpencodeOutcome::Changed(u) => u,
        _ => panic!("a new provider is a change"),
    };
    assert!(matches!(opencode_outcome(&written, &remote, "k", "https://b"), OpencodeOutcome::Unchanged));
    assert!(matches!(opencode_outcome(&written, &remote, "other-key", "https://b"), OpencodeOutcome::Changed(_)));
    assert!(matches!(opencode_outcome(&obj(vec![("provider", s("x"))]), &remote, "k", "https://b"), OpencodeOutcome::Unwritable));
}

#[test]
fn negative_zero_is_kept_bit_for_bit() {
    let neg_zero = JsonValue::Number(JsonNumber::Float((-0.0f64).to_bits()));
    let cfg = obj(vec![("scale", neg_zero)]);
    let out = apply_opencode(cfg, &members(vec![("m", num(1))]), "k", "u");
    match out.get("scale") {
        Some(JsonValue::Number(JsonNumber::Float(bits))) => assert_eq!(*bits, (-0.0f64).to_bits()),
        _ => panic!("scale is kept"),
    }
}
