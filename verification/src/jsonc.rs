//! Turning JSON-with-comments (as Zed writes its settings) into plain JSON.
//!
//! Comments are `// ...` up to the end of the line and `/* ... */`; inside a
//! string literal neither is a comment. A comma whose next non-whitespace
//! character is `]`, `}` or the end of the text is a trailing comma.
use vstd::prelude::*;
use crate::text::{chars_of, char_is_whitespace, next_solid, push_char};

verus! {

/// Where the comment scanner stands.
#[derive(PartialEq, Eq, Structural, Clone, Copy)]
pub enum ScanState {
    /// Ordinary JSON text.
    Code,
    /// Inside a string literal; `escaped` after an unconsumed backslash.
    Str { escaped: bool },
    /// Inside a `//` comment.
    LineComment,
    /// Inside a `/* */` comment; `after_star` when the previous character
    /// of the comment body was `*`.
    BlockComment { after_star: bool },
}

/// The state a string literal is in after reading `c`; `None` when `c`
/// closes it.
pub open spec fn string_step(escaped: bool, c: char) -> Option<bool> {
    if escaped {
        Some(false)
    } else if c == '\\' {
        Some(true)
    } else if c == '"' {
        None
    } else {
        Some(false)
    }
}

/// The text that comment stripping produces from position `i` of `s` on,
/// when the scanner stands in state `st` there.
pub open spec fn strip_from(s: Seq<char>, i: int, st: ScanState) -> Seq<char>
    decreases s.len() - i,
{
    if i < 0 || i >= s.len() {
        Seq::empty()
    } else {
        let c = s[i];
        match st {
            ScanState::Code => {
                if c == '"' {
                    seq![c] + strip_from(s, i + 1, ScanState::Str { escaped: false })
                } else if c == '/' && i + 1 < s.len() && s[i + 1] == '/' {
                    strip_from(s, i + 1, ScanState::LineComment)
                } else if c == '/' && i + 1 < s.len() && s[i + 1] == '*' {
                    strip_from(s, i + 2, ScanState::BlockComment { after_star: false })
                } else {
                    seq![c] + strip_from(s, i + 1, ScanState::Code)
                }
            },
            ScanState::Str { escaped } => {
                match string_step(escaped, c) {
                    Some(e) => seq![c] + strip_from(s, i + 1, ScanState::Str { escaped: e }),
                    None => seq![c] + strip_from(s, i + 1, ScanState::Code),
                }
            },
            ScanState::LineComment => {
                if c == '\n' {
                    seq![c] + strip_from(s, i + 1, ScanState::Code)
                } else {
                    strip_from(s, i + 1, ScanState::LineComment)
                }
            },
            ScanState::BlockComment { after_star } => {
                if after_star && c == '/' {
                    strip_from(s, i + 1, ScanState::Code)
                } else {
                    strip_from(s, i + 1, ScanState::BlockComment { after_star: c == '*' })
                }
            },
        }
    }
}

/// `s` with its comments removed. A line comment leaves its terminating
/// line feed behind; an unterminated comment runs to the end of the text.
pub open spec fn stripped(s: Seq<char>) -> Seq<char> {
    strip_from(s, 0, ScanState::Code)
}

/// Removes `//` and `/* */` comments that stand outside string literals.
pub fn strip_jsonc_comments(s: &str) -> (out: String)
    ensures
        out@ == stripped(s@),
{
    let chars = chars_of(s);
    let n = chars.len();
    let mut out = String::new();
    let mut st = ScanState::Code;
    let mut i: usize = 0;
    while i < n
        invariant
            n == chars@.len(),
            chars@ == s@,
            i <= n,
            out@ + strip_from(s@, i as int, st) == stripped(s@),
        decreases n - i,
    {
        let c = chars[i];
        let ghost before = out@;
        match st {
            ScanState::Code => {
                if c == '"' {
                    push_char(&mut out, c);
                    st = ScanState::Str { escaped: false };
                    i = i + 1;
                    assert(before + strip_from(s@, (i - 1) as int, ScanState::Code) == out@ + strip_from(s@, i as int, st));
                } else if c == '/' && i + 1 < n && chars[i + 1] == '/' {
                    st = ScanState::LineComment;
                    i = i + 1;
                } else if c == '/' && i + 1 < n && chars[i + 1] == '*' {
                    st = ScanState::BlockComment { after_star: false };
                    i = i + 2;
                } else {
                    push_char(&mut out, c);
                    i = i + 1;
                    assert(before + strip_from(s@, (i - 1) as int, ScanState::Code) == out@ + strip_from(s@, i as int, st));
                }
            },
            ScanState::Str { escaped } => {
                push_char(&mut out, c);
                if escaped {
                    st = ScanState::Str { escaped: false };
                } else if c == '\\' {
                    st = ScanState::Str { escaped: true };
                } else if c == '"' {
                    st = ScanState::Code;
                } else {
                    st = ScanState::Str { escaped: false };
                }
                i = i + 1;
                assert(before + strip_from(s@, (i - 1) as int, ScanState::Str { escaped }) == out@ + strip_from(s@, i as int, st));
            },
            ScanState::LineComment => {
                if c == '\n' {
                    push_char(&mut out, c);
                    st = ScanState::Code;
                    i = i + 1;
                    assert(before + strip_from(s@, (i - 1) as int, ScanState::LineComment) == out@ + strip_from(s@, i as int, st));
                } else {
                    i = i + 1;
                }
            },
            ScanState::BlockComment { after_star } => {
                if after_star && c == '/' {
                    st = ScanState::Code;
                } else {
                    st = ScanState::BlockComment { after_star: c == '*' };
                }
                i = i + 1;
            },
        }
    }
    assert(out@ =~= out@ + strip_from(s@, i as int, st));
    out
}


/// The comma at position `i` is followed, past whitespace, by `]`, `}` or
/// the end of the text.
pub open spec fn is_trailing_comma(s: Seq<char>, i: int) -> bool {
    let j = next_solid(s, i + 1);
    j >= s.len() || s[j] == ']' || s[j] == '}'
}

/// What trailing-comma removal produces from position `i` of `s` on, inside
/// a string literal when `in_string` holds.
pub open spec fn uncomma_from(s: Seq<char>, i: int, in_string: bool, escaped: bool) -> Seq<char>
    decreases s.len() - i,
{
    if i < 0 || i >= s.len() {
        Seq::empty()
    } else {
        let c = s[i];
        if in_string {
            match string_step(escaped, c) {
                Some(e) => seq![c] + uncomma_from(s, i + 1, true, e),
                None => seq![c] + uncomma_from(s, i + 1, false, false),
            }
        } else if c == '"' {
            seq![c] + uncomma_from(s, i + 1, true, false)
        } else if c == ',' && is_trailing_comma(s, i) {
            uncomma_from(s, i + 1, false, escaped)
        } else {
            seq![c] + uncomma_from(s, i + 1, false, escaped)
        }
    }
}

/// `s` without the trailing commas that stand outside string literals.
pub open spec fn without_trailing_commas(s: Seq<char>) -> Seq<char> {
    uncomma_from(s, 0, false, false)
}

/// The plain JSON text of a JSON-with-comments document: comments removed
/// first, then trailing commas.
pub open spec fn normalized(s: Seq<char>) -> Seq<char> {
    without_trailing_commas(stripped(s))
}

/// Removes comments, then trailing commas, outside string literals.
pub fn normalize_jsonc(s: &str) -> (out: String)
    ensures
        out@ == normalized(s@),
{
    let no_comments = strip_jsonc_comments(s);
    let chars = chars_of(no_comments.as_str());
    let ghost t = no_comments@;
    let n = chars.len();
    let mut out = String::new();
    let mut in_string = false;
    let mut esc = false;
    let mut i: usize = 0;
    while i < n
        invariant
            n == chars@.len(),
            chars@ == t,
            t == stripped(s@),
            i <= n,
            !in_string ==> !esc,
            out@ + uncomma_from(t, i as int, in_string, esc) == without_trailing_commas(t),
        decreases n - i,
    {
        let c = chars[i];
        let ghost before = out@;
        let ghost (old_in, old_esc) = (in_string, esc);
        if in_string {
            push_char(&mut out, c);
            if esc {
                esc = false;
            } else if c == '\\' {
                esc = true;
            } else if c == '"' {
                in_string = false;
            }
            i = i + 1;
            assert(before + uncomma_from(t, (i - 1) as int, old_in, old_esc) == out@ + uncomma_from(t, i as int, in_string, esc));
        } else if c == '"' {
            in_string = true;
            push_char(&mut out, c);
            i = i + 1;
            assert(before + uncomma_from(t, (i - 1) as int, old_in, old_esc) == out@ + uncomma_from(t, i as int, in_string, esc));
        } else if c == ',' {
            let mut j: usize = i + 1;
            while j < n && char_is_whitespace(chars[j])
                invariant
                    n == chars@.len(),
                    chars@ == t,
                    i < j <= n,
                    next_solid(t, j as int) == next_solid(t, i + 1),
                decreases n - j,
            {
                j = j + 1;
            }
            if j < n {
                assert(next_solid(t, j as int) == j as int);
            }
            if j >= n || chars[j] == ']' || chars[j] == '}' {
                i = i + 1;
            } else {
                push_char(&mut out, c);
                i = i + 1;
                assert(before + uncomma_from(t, (i - 1) as int, old_in, old_esc) == out@ + uncomma_from(t, i as int, in_string, esc));
            }
        } else {
            push_char(&mut out, c);
            i = i + 1;
            assert(before + uncomma_from(t, (i - 1) as int, old_in, old_esc) == out@ + uncomma_from(t, i as int, in_string, esc));
        }
    }
    assert(out@ =~= out@ + uncomma_from(t, i as int, in_string, esc));
    out
}


/// What comment stripping makes of the text from position `i` on depends on
/// that text alone.
pub proof fn lemma_strip_suffix(s: Seq<char>, i: int, st: ScanState)
    requires
        0 <= i <= s.len(),
    ensures
        strip_from(s, i, st) == strip_from(s.skip(i), 0, st),
    decreases s.len() - i, 1int,
{
    if i < s.len() {
        let t = s.skip(i);
        assert(t[0] == s[i]);
        if i + 1 < s.len() {
            assert(t[1] == s[i + 1]);
        }
        lemma_strip_suffix_step(s, i, st);
    }
}

proof fn lemma_strip_suffix_step(s: Seq<char>, i: int, st: ScanState)
    requires
        0 <= i < s.len(),
    ensures
        strip_from(s, i, st) == strip_from(s.skip(i), 0, st),
    decreases s.len() - i, 0int,
{
    let t = s.skip(i);
    assert(t[0] == s[i]);
    if i + 1 < s.len() {
        assert(t[1] == s[i + 1]);
    }
    if 1 <= t.len() {
        lemma_strip_suffix_all(s, t, i, 1);
    }
    if 2 <= t.len() {
        lemma_strip_suffix_all(s, t, i, 2);
    }
}

proof fn lemma_strip_suffix_all(s: Seq<char>, t: Seq<char>, i: int, k: int)
    requires
        0 <= i < s.len(),
        t == s.skip(i),
        1 <= k <= t.len(),
    ensures
        strip_from(s, i + k, ScanState::Code) == strip_from(t, k, ScanState::Code),
        strip_from(s, i + k, ScanState::LineComment) == strip_from(t, k, ScanState::LineComment),
        strip_from(s, i + k, ScanState::Str { escaped: false }) == strip_from(t, k, ScanState::Str { escaped: false }),
        strip_from(s, i + k, ScanState::Str { escaped: true }) == strip_from(t, k, ScanState::Str { escaped: true }),
        strip_from(s, i + k, ScanState::BlockComment { after_star: false }) == strip_from(
            t,
            k,
            ScanState::BlockComment { after_star: false },
        ),
        strip_from(s, i + k, ScanState::BlockComment { after_star: true }) == strip_from(
            t,
            k,
            ScanState::BlockComment { after_star: true },
        ),
    decreases s.len() - i, 0int, k,
{
    assert(t.skip(k) =~= s.skip(i + k));
    lemma_strip_suffix(s, i + k, ScanState::Code);
    lemma_strip_suffix(t, k, ScanState::Code);
    lemma_strip_suffix(s, i + k, ScanState::LineComment);
    lemma_strip_suffix(t, k, ScanState::LineComment);
    lemma_strip_suffix(s, i + k, ScanState::Str { escaped: false });
    lemma_strip_suffix(t, k, ScanState::Str { escaped: false });
    lemma_strip_suffix(s, i + k, ScanState::Str { escaped: true });
    lemma_strip_suffix(t, k, ScanState::Str { escaped: true });
    lemma_strip_suffix(s, i + k, ScanState::BlockComment { after_star: false });
    lemma_strip_suffix(t, k, ScanState::BlockComment { after_star: false });
    lemma_strip_suffix(s, i + k, ScanState::BlockComment { after_star: true });
    lemma_strip_suffix(t, k, ScanState::BlockComment { after_star: true });
}

/// A string literal without quotes or backslashes inside passes through
/// comment stripping untouched, even when it holds `//` or `/*`.
pub proof fn law_strip_keeps_strings(body: Seq<char>, rest: Seq<char>)
    requires
        forall|i: int| 0 <= i < body.len() ==> body[i] != '"' && body[i] != '\\',
    ensures
        stripped(seq!['"'] + body + seq!['"'] + rest) == seq!['"'] + body + seq!['"'] + stripped(rest),
{
    let s = seq!['"'] + body + seq!['"'] + rest;
    let n = body.len() as int;
    assert(s[0] == '"');
    lemma_strip_string_body(body, rest, n);
    assert(strip_from(s, 1, ScanState::Str { escaped: false }) == body.skip(0) + seq!['"'] + strip_from(
        s,
        n + 2,
        ScanState::Code,
    ));
    lemma_strip_suffix(s, n + 2, ScanState::Code);
    assert(s.skip(n + 2) =~= rest);
    assert(body.skip(0) =~= body);
    assert(seq!['"'] + (body + seq!['"'] + stripped(rest)) =~= seq!['"'] + body + seq!['"'] + stripped(rest));
}

proof fn lemma_strip_string_body(body: Seq<char>, rest: Seq<char>, k: int)
    requires
        forall|i: int| 0 <= i < body.len() ==> body[i] != '"' && body[i] != '\\',
        0 <= k <= body.len(),
    ensures
        strip_from(seq!['"'] + body + seq!['"'] + rest, 1 + body.len() - k, ScanState::Str { escaped: false })
            == body.skip(body.len() - k) + seq!['"'] + strip_from(
            seq!['"'] + body + seq!['"'] + rest,
            body.len() + 2int,
            ScanState::Code,
        ),
    decreases k,
{
    let s = seq!['"'] + body + seq!['"'] + rest;
    let n = body.len() as int;
    if k == 0 {
        assert(s[n + 1] == '"');
        assert(body.skip(n) =~= Seq::<char>::empty());
    } else {
        lemma_strip_string_body(body, rest, k - 1);
        let j = n - k;
        assert(s[1 + j] == body[j]);
        assert(body.skip(j) =~= seq![body[j]] + body.skip(j + 1));
    }
}

/// A line comment is replaced by the line feed that ends it.
pub proof fn law_strip_line_comment(body: Seq<char>, rest: Seq<char>)
    requires
        forall|i: int| 0 <= i < body.len() ==> body[i] != '\n',
    ensures
        stripped(seq!['/', '/'] + body + seq!['\n'] + rest) == seq!['\n'] + stripped(rest),
{
    let s = seq!['/', '/'] + body + seq!['\n'] + rest;
    let n = body.len() as int;
    assert(s[0] == '/' && s[1] == '/');
    lemma_strip_line_body(body, rest, n + 1);
    assert(strip_from(s, 1, ScanState::LineComment) == seq!['\n'] + strip_from(s, n + 3, ScanState::Code));
    lemma_strip_suffix(s, n + 3, ScanState::Code);
    assert(s.skip(n + 3) =~= rest);
}

proof fn lemma_strip_line_body(body: Seq<char>, rest: Seq<char>, k: int)
    requires
        forall|i: int| 0 <= i < body.len() ==> body[i] != '\n',
        0 <= k <= body.len() + 1,
    ensures
        strip_from(seq!['/', '/'] + body + seq!['\n'] + rest, body.len() + 2 - k, ScanState::LineComment)
            == seq!['\n'] + strip_from(
            seq!['/', '/'] + body + seq!['\n'] + rest,
            body.len() + 3int,
            ScanState::Code,
        ),
    decreases k,
{
    let s = seq!['/', '/'] + body + seq!['\n'] + rest;
    let n = body.len() as int;
    if k == 0 {
        assert(s[n + 2] == '\n');
    } else {
        lemma_strip_line_body(body, rest, k - 1);
        let j = n + 2 - k;
        if j >= 2 {
            assert(s[j] == body[j - 2]);
        } else {
            assert(s[j] == '/');
        }
    }
}

/// `*/` stands at position `i` of `b`.
pub open spec fn closes_at(b: Seq<char>, i: int) -> bool {
    b[i] == '*' && b[i + 1] == '/'
}

/// A block comment vanishes; its body is anything without `*/`.
pub proof fn law_strip_block_comment(body: Seq<char>, rest: Seq<char>)
    requires
        forall|i: int| 0 <= i < body.len() - 1 ==> !#[trigger] closes_at(body, i),
    ensures
        stripped(seq!['/', '*'] + body + seq!['*', '/'] + rest) == stripped(rest),
{
    let s = seq!['/', '*'] + body + seq!['*', '/'] + rest;
    let n = body.len() as int;
    assert(s[0] == '/' && s[1] == '*');
    lemma_strip_block_body(body, rest, n);
    assert(strip_from(s, 2, ScanState::BlockComment { after_star: false }) == strip_from(s, n + 4, ScanState::Code));
    lemma_strip_suffix(s, n + 4, ScanState::Code);
    assert(s.skip(n + 4) =~= rest);
}

proof fn lemma_strip_block_body(body: Seq<char>, rest: Seq<char>, k: int)
    requires
        forall|i: int| 0 <= i < body.len() - 1 ==> !#[trigger] closes_at(body, i),
        0 <= k <= body.len(),
    ensures
        strip_from(
            seq!['/', '*'] + body + seq!['*', '/'] + rest,
            2 + body.len() - k,
            ScanState::BlockComment { after_star: body.len() - k > 0 && body[body.len() - k - 1] == '*' },
        ) == strip_from(seq!['/', '*'] + body + seq!['*', '/'] + rest, body.len() + 4int, ScanState::Code),
    decreases k,
{
    let s = seq!['/', '*'] + body + seq!['*', '/'] + rest;
    let n = body.len() as int;
    if k == 0 {
        assert(s[n + 2] == '*');
        assert(s[n + 3] == '/');
        assert(strip_from(s, n + 3, ScanState::BlockComment { after_star: true }) == strip_from(
            s,
            n + 4,
            ScanState::Code,
        ));
    } else {
        lemma_strip_block_body(body, rest, k - 1);
        let j = n - k;
        assert(s[2 + j] == body[j]);
        if j > 0 && body[j - 1] == '*' {
            assert(!closes_at(body, j - 1));
        }
    }
}

/// A text without any `/` has no comment: stripping leaves it as it is.
pub proof fn law_strip_without_slashes(s: Seq<char>)
    requires
        forall|i: int| 0 <= i < s.len() ==> s[i] != '/',
    ensures
        stripped(s) == s,
{
    lemma_strip_no_slash(s, 0, ScanState::Code);
    assert(s.skip(0) =~= s);
}

proof fn lemma_strip_no_slash(s: Seq<char>, i: int, st: ScanState)
    requires
        forall|k: int| 0 <= k < s.len() ==> s[k] != '/',
        0 <= i <= s.len(),
        st is Code || st is Str,
    ensures
        strip_from(s, i, st) == s.skip(i),
    decreases s.len() - i,
{
    if i < s.len() {
        let c = s[i];
        let next = match st {
            ScanState::Str { escaped } => match string_step(escaped, c) {
                Some(e) => ScanState::Str { escaped: e },
                None => ScanState::Code,
            },
            _ => if c == '"' {
                ScanState::Str { escaped: false }
            } else {
                ScanState::Code
            },
        };
        lemma_strip_no_slash(s, i + 1, next);
        assert(s.skip(i) =~= seq![c] + s.skip(i + 1));
    } else {
        assert(s.skip(i) =~= Seq::<char>::empty());
    }
}

/// Read from state `st` (ordinary text or a string literal), the text `t`
/// opens no comment.
pub open spec fn comment_free(t: Seq<char>, st: ScanState) -> bool
    decreases t.len(),
{
    if t.len() == 0 {
        true
    } else {
        let c = t[0];
        match st {
            ScanState::Str { escaped } => match string_step(escaped, c) {
                Some(e) => comment_free(t.drop_first(), ScanState::Str { escaped: e }),
                None => comment_free(t.drop_first(), ScanState::Code),
            },
            _ => if c == '/' && t.len() > 1 && (t[1] == '/' || t[1] == '*') {
                false
            } else if c == '"' {
                comment_free(t.drop_first(), ScanState::Str { escaped: false })
            } else {
                comment_free(t.drop_first(), ScanState::Code)
            },
        }
    }
}

/// The state the output of stripping is read in, for a scanner state.
pub open spec fn output_state(st: ScanState) -> ScanState {
    match st {
        ScanState::Str { escaped } => ScanState::Str { escaped },
        _ => ScanState::Code,
    }
}

proof fn lemma_comment_free_unchanged(t: Seq<char>, st: ScanState)
    requires
        comment_free(t, st),
        st is Code || st is Str,
    ensures
        strip_from(t, 0, st) == t,
    decreases t.len(),
{
    if t.len() > 0 {
        let c = t[0];
        let next = match st {
            ScanState::Str { escaped } => match string_step(escaped, c) {
                Some(e) => ScanState::Str { escaped: e },
                None => ScanState::Code,
            },
            _ => if c == '"' {
                ScanState::Str { escaped: false }
            } else {
                ScanState::Code
            },
        };
        lemma_comment_free_unchanged(t.drop_first(), next);
        lemma_strip_suffix(t, 1, next);
        assert(t.skip(1) =~= t.drop_first());
        assert(t =~= seq![c] + t.drop_first());
    }
}

proof fn lemma_stripped_comment_free(s: Seq<char>, i: int, st: ScanState)
    requires
        0 <= i,
    ensures
        comment_free(strip_from(s, i, st), output_state(st)),
    decreases s.len() - i,
{
    if i < s.len() {
        let c = s[i];
        let o = strip_from(s, i, st);
        match st {
            ScanState::Code => {
                if c == '"' {
                    lemma_stripped_comment_free(s, i + 1, ScanState::Str { escaped: false });
                    assert(o.drop_first() =~= strip_from(s, i + 1, ScanState::Str { escaped: false }));
                } else if c == '/' && i + 1 < s.len() && s[i + 1] == '/' {
                    lemma_stripped_comment_free(s, i + 1, ScanState::LineComment);
                } else if c == '/' && i + 1 < s.len() && s[i + 1] == '*' {
                    lemma_stripped_comment_free(s, i + 2, ScanState::BlockComment { after_star: false });
                } else {
                    lemma_stripped_comment_free(s, i + 1, ScanState::Code);
                    let rest = strip_from(s, i + 1, ScanState::Code);
                    assert(o.drop_first() =~= rest);
                    if c == '/' && i + 1 < s.len() {
                        let d = s[i + 1];
                        if d == '"' {
                            assert(rest == seq![d] + strip_from(s, i + 2, ScanState::Str { escaped: false }));
                        } else if d != '/' {
                            assert(rest == seq![d] + strip_from(s, i + 2, ScanState::Code));
                        }
                        assert(o[1] == rest[0]);
                    }
                }
            },
            ScanState::Str { escaped } => {
                match string_step(escaped, c) {
                    Some(e) => {
                        lemma_stripped_comment_free(s, i + 1, ScanState::Str { escaped: e });
                        assert(o.drop_first() =~= strip_from(s, i + 1, ScanState::Str { escaped: e }));
                    },
                    None => {
                        lemma_stripped_comment_free(s, i + 1, ScanState::Code);
                        assert(o.drop_first() =~= strip_from(s, i + 1, ScanState::Code));
                    },
                }
            },
            ScanState::LineComment => {
                if c == '\n' {
                    lemma_stripped_comment_free(s, i + 1, ScanState::Code);
                    assert(o.drop_first() =~= strip_from(s, i + 1, ScanState::Code));
                } else {
                    lemma_stripped_comment_free(s, i + 1, ScanState::LineComment);
                }
            },
            ScanState::BlockComment { after_star } => {
                if after_star && c == '/' {
                    lemma_stripped_comment_free(s, i + 1, ScanState::Code);
                } else {
                    lemma_stripped_comment_free(s, i + 1, ScanState::BlockComment { after_star: c == '*' });
                }
            },
        }
    }
}

/// Stripping is idempotent: its output holds no comment, so stripping it
/// again changes nothing.
pub proof fn law_strip_idempotent(s: Seq<char>)
    ensures
        stripped(stripped(s)) == stripped(s),
{
    lemma_stripped_comment_free(s, 0, ScanState::Code);
    lemma_comment_free_unchanged(stripped(s), ScanState::Code);
}

/// The text without its commas.
pub open spec fn without_commas(s: Seq<char>) -> Seq<char>
    decreases s.len(),
{
    if s.len() == 0 {
        s
    } else if s[0] == ',' {
        without_commas(s.drop_first())
    } else {
        seq![s[0]] + without_commas(s.drop_first())
    }
}

/// Trailing-comma removal removes commas and nothing else.
pub proof fn law_only_commas_removed(s: Seq<char>)
    ensures
        without_commas(without_trailing_commas(s)) == without_commas(s),
{
    lemma_uncomma_commas(s, 0, false, false);
    assert(s.skip(0) =~= s);
}

proof fn lemma_uncomma_commas(s: Seq<char>, i: int, in_string: bool, escaped: bool)
    requires
        0 <= i <= s.len(),
    ensures
        without_commas(uncomma_from(s, i, in_string, escaped)) == without_commas(s.skip(i)),
    decreases s.len() - i,
{
    if i < s.len() {
        let c = s[i];
        let t = s.skip(i);
        assert(t[0] == c);
        assert(t.drop_first() =~= s.skip(i + 1));
        let next_in = if in_string {
            match string_step(escaped, c) {
                Some(_) => true,
                None => false,
            }
        } else {
            c == '"'
        };
        let next_esc = if in_string {
            match string_step(escaped, c) {
                Some(e) => e,
                None => false,
            }
        } else if c == '"' {
            false
        } else {
            escaped
        };
        lemma_uncomma_commas(s, i + 1, next_in, next_esc);
        let u = uncomma_from(s, i + 1, next_in, next_esc);
        assert((seq![c] + u).drop_first() =~= u);
        assert((seq![c] + u)[0] == c);
    } else {
        assert(s.skip(i) =~= Seq::<char>::empty());
    }
}

} // verus!
