use router_sync::cli::{
    accept_prompted_key, backup_file_name, backup_name, default_config_path, expand_home,
    fetch_request, parse_args, resolve_api_key, select_model, write_decision, Target, WriteDecision,
};
use router_sync::names::sorted_set;

fn args(v: &[&str]) -> Vec<String> {
    v.iter().map(|t| t.to_string()).collect()
}

#[test]
fn flags_and_options_are_read() {
    let o = parse_args(&args(&["router-bocah", "--zed", "--apply", "--api", "rb-1", "--config", "~/x.json"])).unwrap();
    assert!(o.apply);
    assert_eq!(o.target, Target::Zed);
    assert_eq!(o.api_key.as_deref(), Some("rb-1"));
    assert_eq!(o.config.as_deref(), Some("~/x.json"));
    assert_eq!(o.baseurl, "https://ai.bocahdigital.com");
}

#[test]
fn defaults_and_precedence() {
    let o = parse_args(&args(&["router-bocah"])).unwrap();
    assert!(!o.apply);
    assert_eq!(o.target, Target::Opencode);
    assert_eq!(o.config, None);
    let o = parse_args(&args(&["p", "--zed", "--anthropic", "--baseurl", "https://r", "--api"])).unwrap();
    assert_eq!(o.target, Target::Anthropic);
    assert_eq!(o.baseurl, "https://r");
    assert_eq!(o.api_key, None);
    let o = parse_args(&args(&["p", "--api", "first", "--api", "second"])).unwrap();
    assert_eq!(o.api_key.as_deref(), Some("first"));
}

#[test]
fn default_paths() {
    assert_eq!(default_config_path(Target::Opencode).as_deref(), Some("~/.config/opencode/opencode.json"));
    assert_eq!(default_config_path(Target::Zed).as_deref(), Some("~/.config/zed/settings.json"));
    assert_eq!(default_config_path(Target::Anthropic), None);
}

#[test]
fn tilde_expands_to_home() {
    assert_eq!(expand_home("~/.config/a.json", "/home/u"), "/home/u/.config/a.json");
    assert_eq!(expand_home("~/a", "/home/u/"), "/home/u/a");
    assert_eq!(expand_home("~/a", ""), "a");
    assert_eq!(expand_home("~//etc/a", "/home/u"), "/etc/a");
    assert_eq!(expand_home("~/", "/home/u"), "/home/u/");
    assert_eq!(expand_home("/etc/a", "/home/u"), "/etc/a");
    assert_eq!(expand_home("~user/a", "/home/u"), "~user/a");
}

#[test]
fn api_key_comes_from_flag_then_environment() {
    let some = |t: &str| Some(t.to_string());
    assert_eq!(resolve_api_key(some("flag"), some("env")), some("flag"));
    assert_eq!(resolve_api_key(some(""), some("env")), some("env"));
    assert_eq!(resolve_api_key(None, some("")), some(""));
    assert_eq!(resolve_api_key(None, None), None);
    assert_eq!(accept_prompted_key(some("typed")), some("typed"));
    assert_eq!(accept_prompted_key(some("")), None);
    assert_eq!(accept_prompted_key(None), None);
}

#[test]
fn request_for_the_router() {
    let r = fetch_request("rb-1", "https://ai.bocahdigital.com");
    assert_eq!(r.url, "https://ai.bocahdigital.com/v1/internal/config/opencode");
    assert_eq!(r.authorization, "Bearer rb-1");
    assert_eq!(r.user_agent, "Mozilla/5.0");
}

#[test]
fn picking_a_model_by_number() {
    let models = args(&["a", "b", "c"]);
    assert_eq!(select_model(&models, "2\n").as_deref(), Some("b"));
    assert_eq!(select_model(&models, "  3 ").as_deref(), Some("c"));
    assert_eq!(select_model(&models, "+1").as_deref(), Some("a"));
    assert_eq!(select_model(&models, "0"), None);
    assert_eq!(select_model(&models, "4"), None);
    assert_eq!(select_model(&models, "-1"), None);
    assert_eq!(select_model(&models, "b"), None);
    assert_eq!(select_model(&models, ""), None);
    assert_eq!(select_model(&models, "1 2"), None);
    assert_eq!(select_model(&models, "99999999999999999999999999"), None);
}

#[test]
fn dry_run_never_writes() {
    assert_eq!(write_decision(false, true), WriteDecision::Preview);
    assert_eq!(write_decision(true, false), WriteDecision::UpToDate);
    assert_eq!(write_decision(true, true), WriteDecision::Write);
}

#[test]
fn backup_names() {
    assert_eq!(backup_file_name("opencode.json", "20240102_030405"), "opencode.json.bak.20240102_030405");
    let name = backup_name("settings.json");
    assert!(name.starts_with("settings.json.bak."));
    let stamp = &name["settings.json.bak.".len()..];
    assert_eq!(stamp.len(), 15);
    assert_eq!(&stamp[8..9], "_");
    assert!(stamp.chars().enumerate().all(|(i, c)| i == 8 || c.is_ascii_digit()));
}

#[test]
fn name_sets_are_sorted_without_repeats() {
    let v = sorted_set(&args(&["b", "a", "b", "B", "ä", "aa"]));
    let got: Vec<&str> = v.iter().map(|t| t.as_str()).collect();
    assert_eq!(got, vec!["B", "a", "aa", "b", "ä"]);
}

#[test]
fn unknown_options_are_refused() {
    assert_eq!(parse_args(&args(&["p", "--vscode", "--apply"])).err().as_deref(), Some("--vscode"));
    assert_eq!(parse_args(&args(&["p", "--apply", "--x", "--y"])).err().as_deref(), Some("--x"));
    assert!(parse_args(&args(&["--odd-program-name", "--apply"])).is_ok());
    let o = parse_args(&args(&["p", "--api", "--not-an-option", "--apply"])).unwrap();
    assert_eq!(o.api_key.as_deref(), Some("--not-an-option"));
    assert!(parse_args(&args(&["p", "-x", "plain", "--apply"])).is_ok());
}

#[test]
fn unknown_options_are_ignored_in_a_preview() {
    let o = parse_args(&args(&["router", "--verbose"])).unwrap();
    assert!(!o.apply);
    assert_eq!(o.target, Target::Opencode);
}
