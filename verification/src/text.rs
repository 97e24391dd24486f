//! Character-level helpers shared by the scanners and parsers.
use vstd::prelude::*;
use vstd::string::StringExecFns;

verus! {

/// `c` has the Unicode `White_Space` property: U+0009 to U+000D, U+0020,
/// U+0085, U+00A0, U+1680, U+2000 to U+200A, U+2028, U+2029, U+202F,
/// U+205F and U+3000.
pub open spec fn is_white_space(c: char) -> bool {
    let n = c as int;
    ||| 0x9 <= n <= 0xD
    ||| n == 0x20
    ||| n == 0x85
    ||| n == 0xA0
    ||| n == 0x1680
    ||| 0x2000 <= n <= 0x200A
    ||| n == 0x2028
    ||| n == 0x2029
    ||| n == 0x202F
    ||| n == 0x205F
    ||| n == 0x3000
}

/// Whether `c` has the Unicode `White_Space` property, the test that
/// `char::is_whitespace` and `str::trim` use.
pub fn char_is_whitespace(c: char) -> (b: bool)
    ensures
        b == is_white_space(c),
{
    let n = c as u32;
    (0x9 <= n && n <= 0xD) || n == 0x20 || n == 0x85 || n == 0xA0 || n == 0x1680 || (0x2000 <= n
        && n <= 0x200A) || n == 0x2028 || n == 0x2029 || n == 0x202F || n == 0x205F || n == 0x3000
}

/// Calls `String::push`, which appends one character.
#[verifier::external_body]
pub(crate) fn push_char(s: &mut String, c: char)
    ensures
        final(s)@ == old(s)@.push(c),
{
    s.push(c)
}

/// The characters of `s`, in order.
pub fn chars_of(s: &str) -> (v: Vec<char>)
    ensures
        v@ == s@,
{
    let mut v: Vec<char> = Vec::new();
    for c in it: s.chars()
        invariant
            v@ == it.seq().take(it.index()),
    {
        v.push(c);
    }
    v
}

/// The Unicode scalar value of `c`.
fn code_point(c: char) -> (r: u32)
    ensures
        r as int == c as int,
{
    c as u32
}

/// `a` comes before `b` in the lexicographic order of code points, which is
/// the order of their UTF-8 bytes and so the order that Rust's `Ord` gives
/// two `str`s.
pub open spec fn text_lt(a: Seq<char>, b: Seq<char>) -> bool
    decreases a.len(),
{
    if a.len() == 0 {
        b.len() > 0
    } else if b.len() == 0 {
        false
    } else if a[0] != b[0] {
        (a[0] as int) < (b[0] as int)
    } else {
        text_lt(a.drop_first(), b.drop_first())
    }
}

/// The text order is irreflexive, transitive and total.
pub proof fn lemma_text_lt_irreflexive(a: Seq<char>)
    ensures
        !text_lt(a, a),
    decreases a.len(),
{
    if a.len() > 0 {
        lemma_text_lt_irreflexive(a.drop_first());
    }
}

pub proof fn lemma_text_lt_transitive(a: Seq<char>, b: Seq<char>, c: Seq<char>)
    requires
        text_lt(a, b),
        text_lt(b, c),
    ensures
        text_lt(a, c),
    decreases a.len(),
{
    if a.len() > 0 && b.len() > 0 && c.len() > 0 {
        if a[0] == b[0] && b[0] == c[0] {
            lemma_text_lt_transitive(a.drop_first(), b.drop_first(), c.drop_first());
        }
    }
}

pub proof fn lemma_text_lt_total(a: Seq<char>, b: Seq<char>)
    ensures
        a == b || text_lt(a, b) || text_lt(b, a),
    decreases a.len(),
{
    if a.len() > 0 && b.len() > 0 && a[0] == b[0] {
        lemma_text_lt_total(a.drop_first(), b.drop_first());
        if a.drop_first() == b.drop_first() {
            assert(a =~= seq![a[0]] + a.drop_first());
            assert(b =~= seq![b[0]] + b.drop_first());
        }
    } else if a.len() == 0 && b.len() == 0 {
        assert(a =~= b);
    } else if a.len() > 0 && b.len() > 0 {
        assert((a[0] as int) != (b[0] as int));
    }
}

pub proof fn lemma_text_lt_asymmetric(a: Seq<char>, b: Seq<char>)
    requires
        text_lt(a, b),
    ensures
        !text_lt(b, a),
{
    if text_lt(b, a) {
        lemma_text_lt_transitive(a, b, a);
        lemma_text_lt_irreflexive(a);
    }
}

/// Whether `a` comes before `b` in the text order.
pub fn text_less(a: &String, b: &String) -> (r: bool)
    ensures
        r == text_lt(a@, b@),
{
    let x = chars_of(a.as_str());
    let y = chars_of(b.as_str());
    let mut i: usize = 0;
    assert(a@.skip(0) =~= a@);
    assert(b@.skip(0) =~= b@);
    while i < x.len() && i < y.len() && x[i] == y[i]
        invariant
            x@ == a@,
            y@ == b@,
            i <= x.len(),
            i <= y.len(),
            text_lt(a@, b@) == text_lt(a@.skip(i as int), b@.skip(i as int)),
        decreases x.len() - i,
    {
        assert(a@.skip(i as int).drop_first() =~= a@.skip(i + 1));
        assert(b@.skip(i as int).drop_first() =~= b@.skip(i + 1));
        i = i + 1;
    }
    if i == x.len() {
        i < y.len()
    } else if i == y.len() {
        false
    } else {
        let p = x[i];
        let q = y[i];
        assert(a@.skip(i as int)[0] == p && b@.skip(i as int)[0] == q);
        code_point(p) < code_point(q)
    }
}


/// `a` followed by `b`.
pub fn concat(a: &str, b: &str) -> (r: String)
    ensures
        r@ == a@ + b@,
{
    let mut r = String::from_str(a);
    r.append(b);
    r
}

/// The first position at or after `j` that holds a non-whitespace character,
/// or the length of `s` when there is none.
pub open spec fn next_solid(s: Seq<char>, j: int) -> int
    decreases s.len() - j,
{
    if j < 0 || j >= s.len() {
        s.len() as int
    } else if is_white_space(s[j]) {
        next_solid(s, j + 1)
    } else {
        j
    }
}


/// The end of `s[..e]` once its trailing whitespace is dropped.
pub open spec fn solid_end(s: Seq<char>, e: int) -> int
    decreases e,
{
    if e <= 0 || e > s.len() {
        if e <= 0 { 0 } else { s.len() as int }
    } else if is_white_space(s[e - 1]) {
        solid_end(s, e - 1)
    } else {
        e
    }
}

/// `s` without leading and trailing whitespace (`str::trim`).
pub open spec fn trimmed(s: Seq<char>) -> Seq<char> {
    let a = next_solid(s, 0);
    let b = solid_end(s, s.len() as int);
    if a < b {
        s.subrange(a, b)
    } else {
        Seq::empty()
    }
}

/// Removes leading and trailing whitespace.
pub fn trim(s: &Vec<char>) -> (r: Vec<char>)
    ensures
        r@ == trimmed(s@),
{
    let n = s.len();
    let mut a: usize = 0;
    while a < n && char_is_whitespace(s[a])
        invariant
            a <= n,
            n == s@.len(),
            next_solid(s@, a as int) == next_solid(s@, 0),
        decreases n - a,
    {
        a = a + 1;
    }
    if a < n {
        assert(next_solid(s@, a as int) == a as int);
    }
    let mut b: usize = n;
    while b > 0 && char_is_whitespace(s[b - 1])
        invariant
            b <= n,
            n == s@.len(),
            solid_end(s@, b as int) == solid_end(s@, n as int),
        decreases b,
    {
        b = b - 1;
    }
    if b > 0 {
        assert(solid_end(s@, b as int) == b as int);
    } else {
        assert(solid_end(s@, 0) == 0);
    }
    let mut r: Vec<char> = Vec::new();
    if a < b {
        let mut i: usize = a;
        while i < b
            invariant
                a <= i <= b,
                b <= n,
                n == s@.len(),
                r@ == s@.subrange(a as int, i as int),
            decreases b - i,
        {
            r.push(s[i]);
            i = i + 1;
            assert(r@ =~= s@.subrange(a as int, i as int));
        }
    }
    r
}

/// `c` is one of the digits `0` to `9`.
pub open spec fn is_digit(c: char) -> bool {
    '0' <= c && c <= '9'
}

/// The number that the decimal digits `d` write.
pub open spec fn digits_value(d: Seq<char>) -> nat
    decreases d.len(),
{
    if d.len() == 0 {
        0
    } else {
        digits_value(d.drop_last()) * 10 + ((d.last() as int) - ('0' as int)) as nat
    }
}

/// `t` without a leading `+`.
pub open spec fn unsigned_digits(t: Seq<char>) -> Seq<char> {
    if t.len() > 0 && t[0] == '+' {
        t.drop_first()
    } else {
        t
    }
}

/// Every character of `d` is a decimal digit.
pub open spec fn all_digits(d: Seq<char>) -> bool {
    forall|i: int| 0 <= i < d.len() ==> is_digit(#[trigger] d[i])
}

/// The number that `t` writes as an optional `+` followed by one or more
/// decimal digits, as `usize::from_str` reads it; `None` when `t` has
/// another form.
pub open spec fn decimal_value(t: Seq<char>) -> Option<nat> {
    let d = unsigned_digits(t);
    if d.len() > 0 && all_digits(d) {
        Some(digits_value(d))
    } else {
        None
    }
}

/// What `usize::from_str` gives for `t`: the number it writes, when that
/// fits in a `usize`.
pub open spec fn parsed_usize(t: Seq<char>) -> Option<usize> {
    match decimal_value(t) {
        Some(n) => if n <= usize::MAX {
            Some(n as usize)
        } else {
            None
        },
        None => None,
    }
}

/// Reads `t` as an unsigned decimal number that fits in a `usize`.
pub fn parse_usize(t: &Vec<char>) -> (r: Option<usize>)
    ensures
        r == parsed_usize(t@),
{
    let n = t.len();
    let start: usize = if n > 0 && t[0] == '+' { 1 } else { 0 };
    let ghost d = unsigned_digits(t@);
    assert(d =~= t@.skip(start as int));
    if start == n {
        return None;
    }
    let mut value: usize = 0;
    let mut i: usize = start;
    let mut fits = true;
    let ghost mut exact: nat = 0;
    while i < n
        invariant
            start <= i <= n,
            start < n,
            n == t@.len(),
            d == t@.skip(start as int),
            d == unsigned_digits(t@),
            forall|j: int| start <= j < i ==> is_digit(#[trigger] t@[j]),
            exact == digits_value(t@.subrange(start as int, i as int)),
            fits ==> value == exact,
            !fits ==> exact > usize::MAX,
        decreases n - i,
    {
        let c = t[i];
        if !('0' <= c && c <= '9') {
            assert(d[i - start] == c);
            assert(!is_digit(d[i - start]));
            return None;
        }
        let digit: u32 = code_point(c) - code_point('0');
        let ghost before = exact;
        proof {
            let sub = t@.subrange(start as int, i + 1);
            assert(sub.drop_last() =~= t@.subrange(start as int, i as int));
            assert(sub.last() == c);
            exact = before * 10 + digit as nat;
            assert(exact == digits_value(sub));
        }
        if fits {
            match value.checked_mul(10) {
                Some(v10) => match v10.checked_add(digit as usize) {
                    Some(v) => {
                        value = v;
                    },
                    None => {
                        fits = false;
                    },
                },
                None => {
                    fits = false;
                    assert(exact >= before * 10) by (nonlinear_arith)
                        requires exact == before * 10 + digit as nat;
                },
            }
        } else {
            assert(exact >= before) by (nonlinear_arith)
                requires exact == before * 10 + digit as nat;
        }
        i = i + 1;
    }
    assert(t@.subrange(start as int, n as int) =~= d);
    assert(all_digits(d)) by {
        assert forall|j: int| 0 <= j < d.len() implies is_digit(#[trigger] d[j]) by {
            assert(d[j] == t@[start + j]);
        }
    }
    if fits {
        Some(value)
    } else {
        None
    }
}

/// A copy of `s`, as an owned string.
pub fn owned(s: &str) -> (r: String)
    ensures
        r@ == s@,
{
    String::from_str(s)
}

/// The text an optional string holds.
pub open spec fn text_of(o: Option<String>) -> Option<Seq<char>> {
    match o {
        Some(t) => Some(t@),
        None => None,
    }
}


/// The digit that writes `d`, for `d` below ten.
pub open spec fn digit_char(d: nat) -> char {
    (('0' as int) + d) as char
}

/// `n` written in decimal without leading zeros.
pub open spec fn decimal_digits(n: nat) -> Seq<char>
    decreases n,
{
    if n < 10 {
        seq![digit_char(n)]
    } else {
        decimal_digits(n / 10).push(digit_char(n % 10))
    }
}

/// A number written in decimal reads back as itself.
pub proof fn law_decimal_round_trip(n: nat)
    ensures
        decimal_value(decimal_digits(n)) == Some(n),
        n <= usize::MAX ==> parsed_usize(decimal_digits(n)) == Some(n as usize),
{
    lemma_decimal_digits(n);
    let d = decimal_digits(n);
    assert(unsigned_digits(d) == d);
}

proof fn lemma_decimal_digits(n: nat)
    ensures
        decimal_digits(n).len() > 0,
        all_digits(decimal_digits(n)),
        decimal_digits(n)[0] != '+',
        digits_value(decimal_digits(n)) == n,
    decreases n,
{
    if n < 10 {
        let d = decimal_digits(n);
        assert(d.drop_last() =~= Seq::<char>::empty());
        assert(digit_char(n) as int == '0' as int + n);
        assert(digits_value(d.drop_last()) == 0);
        assert(d.last() == digit_char(n));
    } else {
        lemma_decimal_digits(n / 10);
        let p = decimal_digits(n / 10);
        let d = p.push(digit_char(n % 10));
        assert(digit_char(n % 10) as int == '0' as int + n % 10);
        assert(d.drop_last() =~= p);
        assert(d[0] == p[0]);
        assert forall|i: int| 0 <= i < d.len() implies is_digit(#[trigger] d[i]) by {
            if i < p.len() {
                assert(d[i] == p[i]);
            }
        }
        assert(d.last() == digit_char(n % 10));
        assert(digits_value(d) == digits_value(p) * 10 + n % 10);
        assert((n / 10) * 10 + n % 10 == n) by {
            vstd::arithmetic::div_mod::lemma_fundamental_div_mod(n as int, 10);
        }
    }
}


proof fn lemma_next_solid_skips(s: Seq<char>, j: int, k: int)
    requires
        0 <= j <= k <= s.len(),
        forall|i: int| j <= i < k ==> is_white_space(#[trigger] s[i]),
        k < s.len() ==> !is_white_space(s[k]),
    ensures
        next_solid(s, j) == k,
    decreases k - j,
{
    if j < k {
        lemma_next_solid_skips(s, j + 1, k);
    }
}

proof fn lemma_solid_end_skips(s: Seq<char>, k: int, e: int)
    requires
        0 <= k <= e <= s.len(),
        forall|i: int| k <= i < e ==> is_white_space(#[trigger] s[i]),
        k > 0 ==> !is_white_space(s[k - 1]),
    ensures
        solid_end(s, e) == k,
    decreases e - k,
{
    if k < e {
        lemma_solid_end_skips(s, k, e - 1);
    }
}

/// Trimming removes exactly the whitespace around a text (`str::trim`):
/// for any runs of Unicode whitespace `p` and `q` (spaces, tabs, carriage
/// returns, line feeds, ...) and a text `x` that neither starts nor ends
/// with whitespace, trimming `p + x + q` gives `x`.
pub proof fn law_trim_strips_surrounding_whitespace(p: Seq<char>, x: Seq<char>, q: Seq<char>)
    requires
        forall|i: int| 0 <= i < p.len() ==> is_white_space(#[trigger] p[i]),
        forall|i: int| 0 <= i < q.len() ==> is_white_space(#[trigger] q[i]),
        x.len() > 0 ==> !is_white_space(x[0]) && !is_white_space(x[x.len() - 1]),
    ensures
        trimmed(p + x + q) == x,
{
    let s = p + x + q;
    let a = p.len() as int;
    let b = (p.len() + x.len()) as int;
    if x.len() == 0 {
        assert forall|i: int| 0 <= i < s.len() implies is_white_space(#[trigger] s[i]) by {
            if i < a {
                assert(s[i] == p[i]);
            } else {
                assert(s[i] == q[i - a]);
            }
        }
        lemma_next_solid_skips(s, 0, s.len() as int);
        lemma_solid_end_skips(s, 0, s.len() as int);
        assert(trimmed(s) =~= x);
    } else {
        assert forall|i: int| 0 <= i < a implies is_white_space(#[trigger] s[i]) by {
            assert(s[i] == p[i]);
        }
        assert(s[a] == x[0]);
        lemma_next_solid_skips(s, 0, a);
        assert forall|i: int| b <= i < s.len() implies is_white_space(#[trigger] s[i]) by {
            assert(s[i] == q[i - b]);
        }
        assert(s[b - 1] == x[x.len() - 1]);
        lemma_solid_end_skips(s, b, s.len() as int);
        assert(s.subrange(a, b) =~= x);
    }
}

/// Decimal digits are not whitespace, and neither end of a number's
/// decimal text is.
pub proof fn law_decimal_has_no_whitespace(n: nat)
    ensures
        forall|i: int| 0 <= i < decimal_digits(n).len() ==> !is_white_space(#[trigger] decimal_digits(n)[i]),
{
    lemma_decimal_digits(n);
    let d = decimal_digits(n);
    assert forall|i: int| 0 <= i < d.len() implies !is_white_space(#[trigger] d[i]) by {
        assert(is_digit(d[i]));
        assert('0' as int == 48 && '9' as int == 57);
    }
}


/// A number's decimal text is not empty.
pub proof fn lemma_decimal_len(n: nat)
    ensures
        decimal_digits(n).len() > 0,
{
    lemma_decimal_digits(n);
}

} // verus!
