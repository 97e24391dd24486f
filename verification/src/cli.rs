//! The command line: which configuration to sync, where it lives, which
//! router to ask and with which key, and the small decisions around a run.
use vstd::prelude::*;
use crate::text::{owned, concat, text_of, chars_of, trim, trimmed, parse_usize, parsed_usize,
    is_digit, decimal_digits, law_decimal_round_trip, is_white_space, law_decimal_has_no_whitespace,
    law_trim_strips_surrounding_whitespace, lemma_decimal_len};

verus! {

/// The editor whose configuration is synchronised.
#[derive(PartialEq, Eq, Structural, Clone, Copy, Debug)]
pub enum Target {
    Opencode,
    /// Anthropic's command-line assistant.
    Anthropic,
    Zed,
}

/// What the command line asks for.
pub struct CliOptions {
    /// `--apply`: write the changes; without it the run only previews them.
    pub apply: bool,
    pub target: Target,
    /// The value of `--config`.
    pub config: Option<String>,
    /// The value of `--api`.
    pub api_key: Option<String>,
    /// The value of `--baseurl`, or the default router.
    pub baseurl: String,
}

/// Some argument is exactly `flag`.
pub open spec fn has_arg(args: Seq<String>, flag: Seq<char>) -> bool {
    exists|i: int| 0 <= i < args.len() && args[i]@ == flag
}

/// The argument after the first occurrence of `name` at or after `i` that
/// has an argument after it.
pub open spec fn option_value_from(args: Seq<String>, name: Seq<char>, i: int) -> Option<Seq<char>>
    decreases args.len() - i,
{
    if i < 0 || i + 1 >= args.len() {
        None
    } else if args[i]@ == name {
        Some(args[i + 1]@)
    } else {
        option_value_from(args, name, i + 1)
    }
}

/// The value given to the option `name`: the argument after its first
/// occurrence that is followed by one.
pub open spec fn option_value(args: Seq<String>, name: Seq<char>) -> Option<Seq<char>> {
    option_value_from(args, name, 0)
}

/// `--anthropic` wins over `--zed`; without either the target is opencode.
pub open spec fn target_of(args: Seq<String>) -> Target {
    if has_arg(args, "--anthropic"@) {
        Target::Anthropic
    } else if has_arg(args, "--zed"@) {
        Target::Zed
    } else {
        Target::Opencode
    }
}

/// The router asked when `--baseurl` is not given.
pub open spec fn default_baseurl() -> Seq<char> {
    "https://ai.bocahdigital.com"@
}

fn has_flag(args: &Vec<String>, flag: &str) -> (r: bool)
    ensures
        r == has_arg(args@, flag@),
{
    let f = owned(flag);
    let mut i: usize = 0;
    while i < args.len()
        invariant
            i <= args.len(),
            f@ == flag@,
            forall|j: int| 0 <= j < i ==> args@[j]@ != flag@,
        decreases args.len() - i,
    {
        if args[i] == f {
            return true;
        }
        i = i + 1;
    }
    false
}

fn option_arg(args: &Vec<String>, name: &str) -> (r: Option<String>)
    ensures
        text_of(r) == option_value(args@, name@),
{
    let f = owned(name);
    let mut i: usize = 0;
    while i < args.len() && i + 1 < args.len()
        invariant
            i <= args.len(),
            f@ == name@,
            option_value_from(args@, name@, i as int) == option_value(args@, name@),
        decreases args.len() - i,
    {
        if args[i] == f {
            return Some(args[i + 1].clone());
        }
        i = i + 1;
    }
    None
}

/// The option `a` takes the next argument as its value.
pub open spec fn takes_value(a: Seq<char>) -> bool {
    a == "--api"@ || a == "--config"@ || a == "--baseurl"@
}

/// `a` is one of the options this program knows.
pub open spec fn known_option(a: Seq<char>) -> bool {
    a == "--apply"@ || a == "--zed"@ || a == "--anthropic"@ || takes_value(a)
}

/// `a` is written as an option, with two leading dashes.
pub open spec fn looks_like_option(a: Seq<char>) -> bool {
    a.len() >= 2 && a[0] == '-' && a[1] == '-'
}

/// The argument at position `i` (past the program's name) is written as an
/// option, is none this program knows, and is not the value of an option
/// before it.
pub open spec fn unknown_at(args: Seq<String>, i: int) -> bool {
    &&& 1 <= i < args.len()
    &&& looks_like_option(args[i]@)
    &&& !known_option(args[i]@)
    &&& !takes_value(args[i - 1]@)
}

fn takes_value_arg(a: &String) -> (r: bool)
    ensures
        r == takes_value(a@),
{
    *a == owned("--api") || *a == owned("--config") || *a == owned("--baseurl")
}

fn known_arg(a: &String) -> (r: bool)
    ensures
        r == known_option(a@),
{
    *a == owned("--apply") || *a == owned("--zed") || *a == owned("--anthropic") || takes_value_arg(a)
}

fn option_like(a: &String) -> (r: bool)
    ensures
        r == looks_like_option(a@),
{
    let c = chars_of(a.as_str());
    c.len() >= 2 && c[0] == '-' && c[1] == '-'
}

/// Reads the command line (the program's name included, as in `argv`).
/// Options this program does not know are ignored, except together with
/// `--apply`: a write is refused, with the first unknown option as the
/// error, so that a target this program does not know never falls back to
/// rewriting opencode's configuration.
pub fn parse_args(args: &Vec<String>) -> (r: Result<CliOptions, String>)
    ensures
        match r {
            Ok(o) => {
                &&& o.apply ==> forall|i: int| !unknown_at(args@, i)
                &&& o.apply == has_arg(args@, "--apply"@)
                &&& o.target == target_of(args@)
                &&& text_of(o.config) == option_value(args@, "--config"@)
                &&& text_of(o.api_key) == option_value(args@, "--api"@)
                &&& o.baseurl@ == match option_value(args@, "--baseurl"@) {
                    Some(v) => v,
                    None => default_baseurl(),
                }
            },
            Err(a) => has_arg(args@, "--apply"@) && exists|i: int|
                unknown_at(args@, i) && a@ == args@[i]@ && forall|j: int| j < i ==> !unknown_at(args@, j),
        },
        (forall|i: int|
            1 <= i < args@.len() ==> {
                ||| #[trigger] args@[i]@ == "--api"@
                ||| args@[i]@ == "--config"@
                ||| args@[i]@ == "--baseurl"@
                ||| args@[i]@ == "--apply"@
                ||| args@[i]@ == "--zed"@
                ||| args@[i]@ == "--anthropic"@
                ||| args@[i - 1]@ == "--api"@
                ||| args@[i - 1]@ == "--config"@
                ||| args@[i - 1]@ == "--baseurl"@
            }) ==> r is Ok,
{
    let apply = has_flag(args, "--apply");
    let mut i: usize = 1;
    while apply && i < args.len()
        invariant
            1 <= i,
            apply == has_arg(args@, "--apply"@),
            forall|j: int| j < i ==> !unknown_at(args@, j),
        decreases args.len() - i,
    {
        if option_like(&args[i]) && !known_arg(&args[i]) && !takes_value_arg(&args[i - 1]) {
            assert(unknown_at(args@, i as int));
            return Err(args[i].clone());
        }
        i = i + 1;
    }
    let target = if has_flag(args, "--anthropic") {
        Target::Anthropic
    } else if has_flag(args, "--zed") {
        Target::Zed
    } else {
        Target::Opencode
    };
    let config = option_arg(args, "--config");
    let api_key = option_arg(args, "--api");
    let baseurl = match option_arg(args, "--baseurl") {
        Some(b) => b,
        None => owned("https://ai.bocahdigital.com"),
    };
    Ok(CliOptions { apply, target, config, api_key, baseurl })
}

/// Where each editor keeps its configuration when `--config` is not given;
/// the assistant's settings have no default here and need `--config`.
pub open spec fn default_config(target: Target) -> Option<Seq<char>> {
    match target {
        Target::Opencode => Some("~/.config/opencode/opencode.json"@),
        Target::Anthropic => None,
        Target::Zed => Some("~/.config/zed/settings.json"@),
    }
}

/// The configuration file's path when `--config` is not given.
pub fn default_config_path(target: Target) -> (r: Option<String>)
    ensures
        text_of(r) == default_config(target),
{
    match target {
        Target::Opencode => Some(owned("~/.config/opencode/opencode.json")),
        Target::Anthropic => None,
        Target::Zed => Some(owned("~/.config/zed/settings.json")),
    }
}

/// `rest` joined onto `base` as a Unix path is: an absolute `rest` stands
/// alone, an empty `base` adds nothing, and otherwise a `/` separates them
/// unless `base` already ends with one.
pub open spec fn joined(base: Seq<char>, rest: Seq<char>) -> Seq<char> {
    if rest.len() > 0 && rest[0] == '/' {
        rest
    } else if base.len() == 0 {
        rest
    } else if base.last() == '/' {
        base + rest
    } else {
        base + seq!['/'] + rest
    }
}

/// `path` with a leading `~/` replaced by the home directory `home`.
pub open spec fn expanded(path: Seq<char>, home: Seq<char>) -> Seq<char> {
    if path.len() >= 2 && path[0] == '~' && path[1] == '/' {
        joined(home, path.skip(2))
    } else {
        path
    }
}

fn string_of_chars(v: &Vec<char>, from: usize) -> (r: String)
    requires
        from <= v.len(),
    ensures
        r@ == v@.skip(from as int),
{
    let mut r = String::new();
    let mut i = from;
    while i < v.len()
        invariant
            from <= i <= v.len(),
            r@ == v@.subrange(from as int, i as int),
        decreases v.len() - i,
    {
        crate::text::push_char(&mut r, v[i]);
        i = i + 1;
        assert(r@ =~= v@.subrange(from as int, i as int));
    }
    assert(v@.subrange(from as int, v.len() as int) =~= v@.skip(from as int));
    r
}

/// Replaces a leading `~/` of `path` by the home directory `home`.
pub fn expand_home(path: &str, home: &str) -> (r: String)
    ensures
        r@ == expanded(path@, home@),
{
    let p = chars_of(path);
    if p.len() >= 2 && p[0] == '~' && p[1] == '/' {
        let rest = string_of_chars(&p, 2);
        let h = chars_of(home);
        if p.len() > 2 && p[2] == '/' {
            assert(rest@[0] == p@[2]);
            rest
        } else if h.len() == 0 {
            rest
        } else if h[h.len() - 1] == '/' {
            concat(home, rest.as_str())
        } else {
            let with_sep = concat(home, "/");
            proof {
                reveal_strlit("/");
            }
            let r = concat(with_sep.as_str(), rest.as_str());
            assert(r@ =~= home@ + seq!['/'] + rest@);
            r
        }
    } else {
        owned(path)
    }
}

/// The API key to use without asking: a non-empty `--api` value, else the
/// value of the environment variable. `None` when the user must be asked.
pub open spec fn chosen_key(arg: Option<Seq<char>>, env: Option<Seq<char>>) -> Option<Seq<char>> {
    match arg {
        Some(k) => if k.len() > 0 {
            Some(k)
        } else {
            env
        },
        None => env,
    }
}

/// Picks the API key from the `--api` value and the environment variable,
/// in that order; `None` means that the user must be asked for it.
pub fn resolve_api_key(arg: Option<String>, env: Option<String>) -> (r: Option<String>)
    ensures
        text_of(r) == chosen_key(text_of(arg), text_of(env)),
{
    match arg {
        Some(k) => {
            if !k.as_str().is_empty() {
                Some(k)
            } else {
                env
            }
        },
        None => env,
    }
}

/// Accepts a key the user typed; `None` (no key at all) when the prompt
/// failed or the answer is empty.
pub fn accept_prompted_key(answer: Option<String>) -> (r: Option<String>)
    ensures
        text_of(r) == match text_of(answer) {
            Some(k) => if k.len() > 0 {
                Some(k)
            } else {
                None
            },
            None => None,
        },
{
    match answer {
        Some(k) => {
            if !k.as_str().is_empty() {
                Some(k)
            } else {
                None
            }
        },
        None => None,
    }
}

/// The request that fetches the router's opencode configuration.
pub struct FetchRequest {
    pub url: String,
    /// The value of the `Authorization` header.
    pub authorization: String,
    /// The value of the `User-Agent` header.
    pub user_agent: String,
}

/// The request for the router at `baseurl` with the key `api_key`.
pub fn fetch_request(api_key: &str, baseurl: &str) -> (r: FetchRequest)
    ensures
        r.url@ == baseurl@ + "/v1/internal/config/opencode"@,
        r.authorization@ == "Bearer "@ + api_key@,
        r.user_agent@ == "Mozilla/5.0"@,
{
    let url = concat(baseurl, "/v1/internal/config/opencode");
    let bearer = owned("Bearer ");
    let authorization = concat(bearer.as_str(), api_key);
    FetchRequest { url, authorization, user_agent: owned("Mozilla/5.0") }
}

/// The model that the answer `input` picks from the numbered list `models`
/// (numbered from 1): the answer, without surrounding whitespace, must be a
/// number in range.
pub open spec fn picked(models: Seq<String>, input: Seq<char>) -> Option<Seq<char>> {
    match parsed_usize(trimmed(input)) {
        Some(n) => if 1 <= n && n <= models.len() {
            Some(models[n - 1]@)
        } else {
            None
        },
        None => None,
    }
}

/// Reads the user's pick from a numbered list of models; `None` asks again.
pub fn select_model(models: &Vec<String>, input: &str) -> (r: Option<String>)
    ensures
        text_of(r) == picked(models@, input@),
{
    let t = trim(&chars_of(input));
    match parse_usize(&t) {
        Some(n) => {
            if 1 <= n && n <= models.len() {
                Some(models[n - 1].clone())
            } else {
                None
            }
        },
        None => None,
    }
}

/// What a run does once it knows what would change.
#[derive(PartialEq, Eq, Structural, Clone, Copy, Debug)]
pub enum WriteDecision {
    /// Without `--apply`: show the changes, write nothing.
    Preview,
    /// With `--apply` and nothing to change: write nothing.
    UpToDate,
    /// With `--apply` and something to change: back up, then write.
    Write,
}

/// Decides whether a run writes the configuration.
pub fn write_decision(apply: bool, has_changes: bool) -> (r: WriteDecision)
    ensures
        r == if !apply {
            WriteDecision::Preview
        } else if !has_changes {
            WriteDecision::UpToDate
        } else {
            WriteDecision::Write
        },
{
    if !apply {
        WriteDecision::Preview
    } else if !has_changes {
        WriteDecision::UpToDate
    } else {
        WriteDecision::Write
    }
}

/// The name of the backup of `file_name` taken at `stamp`.
pub fn backup_file_name(file_name: &str, stamp: &str) -> (r: String)
    ensures
        r@ == file_name@ + ".bak."@ + stamp@,
{
    let a = concat(file_name, ".bak.");
    concat(a.as_str(), stamp)
}

/// A local date and time written as `%Y%m%d_%H%M%S`: it ends with four
/// digits of the year, two each of month and day, `_`, and two each of
/// hour, minute and second.
pub open spec fn is_stamp(s: Seq<char>) -> bool {
    &&& s.len() >= 15
    &&& s[s.len() - 7] == '_'
    &&& forall|i: int| s.len() - 15 <= i < s.len() && i != s.len() - 7 ==> is_digit(#[trigger] s[i])
}

/// Calls `chrono::Local::now().format("%Y%m%d_%H%M%S")`. The result depends
/// on the clock and the time zone; chrono documents `%Y` as at least four
/// digits (with a sign only outside years 0 to 9999) and each other field
/// as two zero-padded digits, which is what `is_stamp` states.
#[verifier::external_body]
fn local_stamp() -> (r: String)
    ensures
        is_stamp(r@),
{
    chrono::Local::now().format("%Y%m%d_%H%M%S").to_string()
}

/// The name of a backup of `file_name` taken now.
pub fn backup_name(file_name: &str) -> (r: String)
    ensures
        r@.len() >= file_name@.len() + 5,
        r@.take(file_name@.len() + 5int) == file_name@ + ".bak."@,
        is_stamp(r@.skip(file_name@.len() + 5int)),
{
    let stamp = local_stamp();
    let r = backup_file_name(file_name, stamp.as_str());
    proof {
        reveal_strlit(".bak.");
    }
    assert(r@.take(file_name@.len() + 5int) =~= file_name@ + ".bak."@);
    assert(r@.skip(file_name@.len() + 5int) =~= stamp@);
    r
}


/// Typing the number of a listed model picks that model, whatever
/// whitespace surrounds the number.
pub proof fn law_pick_by_number(models: Vec<String>, input: Seq<char>, n: nat)
    requires
        1 <= n <= models.len(),
        trimmed(input) == decimal_digits(n),
    ensures
        picked(models@, input) == Some(models@[n - 1]@),
{
    law_decimal_round_trip(n);
}

/// An answer that is not a listed number picks nothing.
pub proof fn law_pick_out_of_range(models: Vec<String>, input: Seq<char>, n: nat)
    requires
        n == 0 || n > models.len(),
        trimmed(input) == decimal_digits(n),
    ensures
        picked(models@, input) is None,
{
    law_decimal_round_trip(n);
}


/// Typing the number of a listed model with any whitespace around it (as
/// `read_line` returns it, with `\n` or `\r\n` at the end) picks that model.
pub proof fn law_pick_with_surrounding_whitespace(
    models: Vec<String>,
    p: Seq<char>,
    q: Seq<char>,
    n: nat,
)
    requires
        1 <= n <= models.len(),
        forall|i: int| 0 <= i < p.len() ==> is_white_space(#[trigger] p[i]),
        forall|i: int| 0 <= i < q.len() ==> is_white_space(#[trigger] q[i]),
    ensures
        picked(models@, p + decimal_digits(n) + q) == Some(models@[n - 1]@),
        picked(models@, decimal_digits(n) + seq!['\r', '\n']) == Some(models@[n - 1]@),
{
    law_decimal_has_no_whitespace(n);
    lemma_decimal_len(n);
    law_trim_strips_surrounding_whitespace(p, decimal_digits(n), q);
    let crlf = seq!['\r', '\n'];
    assert(is_white_space('\r') && is_white_space('\n'));
    law_trim_strips_surrounding_whitespace(Seq::empty(), decimal_digits(n), crlf);
    assert(Seq::<char>::empty() + decimal_digits(n) =~= decimal_digits(n));
    law_decimal_round_trip(n);
}


/// Each documented option (`--api`, `--config`, `--baseurl`, `--apply`,
/// `--zed`, `--anthropic`) is known wherever it stands, and so is the value
/// after `--api`, `--config` or `--baseurl`: none of them is ever refused.
pub proof fn law_documented_options_are_known(args: Seq<String>, i: int)
    requires
        1 <= i < args.len(),
        ({
            ||| args[i]@ == "--api"@
            ||| args[i]@ == "--config"@
            ||| args[i]@ == "--baseurl"@
            ||| args[i]@ == "--apply"@
            ||| args[i]@ == "--zed"@
            ||| args[i]@ == "--anthropic"@
            ||| args[i - 1]@ == "--api"@
            ||| args[i - 1]@ == "--config"@
            ||| args[i - 1]@ == "--baseurl"@
        }),
    ensures
        !unknown_at(args, i),
{
}

} // verus!
