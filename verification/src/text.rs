//! Text held as `Vec<char>`: scanning, white space and trimming, searching,
//! decimal integers, and the shape of a decimal floating-point literal.

use vstd::prelude::*;

verus! {

/// The first index at or after `i` whose character does not satisfy `p`
/// (or `s.len()` when there is none).
pub open spec fn scan(s: Seq<char>, i: int, p: spec_fn(char) -> bool) -> int
    decreases s.len() - i,
{
    if 0 <= i < s.len() && p(s[i]) {
        scan(s, i + 1, p)
    } else {
        i
    }
}

/// The least index `k` with `lo <= k <= j` such that every character of
/// `s[k..j]` satisfies `p`: the end of `s[lo..j]` once trailing matches are cut.
pub open spec fn scan_back(s: Seq<char>, lo: int, j: int, p: spec_fn(char) -> bool) -> int
    decreases j - lo,
{
    if lo < j && p(s[j - 1]) {
        scan_back(s, lo, j - 1, p)
    } else {
        j
    }
}

pub proof fn lemma_scan(s: Seq<char>, i: int, p: spec_fn(char) -> bool)
    requires
        0 <= i <= s.len(),
    ensures
        i <= scan(s, i, p) <= s.len(),
        forall|k: int| i <= k < scan(s, i, p) ==> p(#[trigger] s[k]),
        scan(s, i, p) < s.len() ==> !p(s[scan(s, i, p)]),
    decreases s.len() - i,
{
    if i < s.len() && p(s[i]) {
        lemma_scan(s, i + 1, p);
    }
}

pub proof fn lemma_scan_back(s: Seq<char>, lo: int, j: int, p: spec_fn(char) -> bool)
    requires
        0 <= lo <= j <= s.len(),
    ensures
        lo <= scan_back(s, lo, j, p) <= j,
        forall|k: int| scan_back(s, lo, j, p) <= k < j ==> p(#[trigger] s[k]),
        scan_back(s, lo, j, p) > lo ==> !p(s[scan_back(s, lo, j, p) - 1]),
    decreases j - lo,
{
    if lo < j && p(s[j - 1]) {
        lemma_scan_back(s, lo, j - 1, p);
    }
}

/// Characters with the Unicode `White_Space` property: what `str::trim` removes.
pub open spec fn is_white_space(c: char) -> bool {
    let u = c as u32;
    ||| 9 <= u <= 13
    ||| u == 32
    ||| u == 0x85
    ||| u == 0xa0
    ||| u == 0x1680
    ||| 0x2000 <= u <= 0x200a
    ||| u == 0x2028
    ||| u == 0x2029
    ||| u == 0x202f
    ||| u == 0x205f
    ||| u == 0x3000
}

pub open spec fn white() -> spec_fn(char) -> bool {
    |c: char| is_white_space(c)
}

/// `s` without its leading and trailing white space.
pub open spec fn trim(s: Seq<char>) -> Seq<char> {
    let a = scan(s, 0, white());
    s.subrange(a, scan_back(s, a, s.len() as int, white()))
}

pub fn white_space(c: char) -> (res: bool)
    ensures
        res == is_white_space(c),
{
    let u = c as u32;
    (9 <= u && u <= 13) || u == 32 || u == 0x85 || u == 0xa0 || u == 0x1680 || (0x2000 <= u && u
        <= 0x200a) || u == 0x2028 || u == 0x2029 || u == 0x202f || u == 0x205f || u == 0x3000
}

/// The characters `s[a..b]`.
pub fn sub_chars(s: &Vec<char>, a: usize, b: usize) -> (res: Vec<char>)
    requires
        a <= b <= s.len(),
    ensures
        res@ == s@.subrange(a as int, b as int),
{
    let mut res: Vec<char> = Vec::new();
    let mut i = a;
    while i < b
        invariant
            a <= i <= b <= s.len(),
            res@ == s@.subrange(a as int, i as int),
        decreases b - i,
    {
        res.push(s[i]);
        i = i + 1;
    }
    res
}

/// `s` without leading and trailing white space, as `str::trim` does.
pub fn trim_chars(s: &Vec<char>) -> (res: Vec<char>)
    ensures
        res@ == trim(s@),
{
    let mut a: usize = 0;
    while a < s.len() && white_space(s[a])
        invariant
            a <= s.len(),
            scan(s@, a as int, white()) == scan(s@, 0, white()),
        decreases s.len() - a,
    {
        a = a + 1;
    }
    let mut b: usize = s.len();
    while a < b && white_space(s[b - 1])
        invariant
            a <= b <= s.len(),
            a == scan(s@, 0, white()),
            scan_back(s@, a as int, b as int, white()) == scan_back(
                s@,
                a as int,
                s.len() as int,
                white(),
            ),
        decreases b - a,
    {
        b = b - 1;
    }
    sub_chars(s, a, b)
}

/// The characters of `s`, in order.
pub fn chars_of(s: &str) -> (res: Vec<char>)
    ensures
        res@ == s@,
{
    let mut res: Vec<char> = Vec::new();
    for c in it: s.chars()
        invariant
            res@ == it.seq().take(it.index() as int),
    {
        res.push(c);
    }
    res
}

pub open spec fn is_digit(c: char) -> bool {
    48 <= c as u32 <= 57
}

pub open spec fn digit() -> spec_fn(char) -> bool {
    |c: char| is_digit(c)
}

/// The value of a string of decimal digits.
pub open spec fn decimal_value(s: Seq<char>) -> nat
    decreases s.len(),
{
    if s.len() == 0 {
        0
    } else {
        decimal_value(s.drop_last()) * 10 + (s.last() as u32 - 48) as nat
    }
}

/// Every character of `d` is an ASCII digit.
pub open spec fn all_digits(d: Seq<char>) -> bool {
    forall|i: int| 0 <= i < d.len() ==> is_digit(#[trigger] d[i])
}

/// One or more ASCII digits whose value fits in a `u32`.
pub open spec fn parse_digits(d: Seq<char>) -> Option<u32> {
    if d.len() > 0 && all_digits(d) && decimal_value(d) <= u32::MAX {
        Some(decimal_value(d) as u32)
    } else {
        None
    }
}

/// What `str::parse::<u32>` gives: an optional `+`, then one or more ASCII
/// digits whose value fits in a `u32`.
pub open spec fn parse_u32(s: Seq<char>) -> Option<u32> {
    if s.len() > 0 && s[0] == '+' {
        parse_digits(s.drop_first())
    } else {
        parse_digits(s)
    }
}

pub fn is_digit_char(c: char) -> (res: bool)
    ensures
        res == is_digit(c),
{
    let u = c as u32;
    48 <= u && u <= 57
}

/// Parses a `u32` the way `str::parse::<u32>` does.
pub fn parse_u32_chars(s: &Vec<char>) -> (res: Option<u32>)
    ensures
        res == parse_u32(s@),
{
    let start: usize = if s.len() > 0 && s[0] == '+' {
        1
    } else {
        0
    };
    let ghost d = s@.subrange(start as int, s@.len() as int);
    assert(d =~= (if s@.len() > 0 && s@[0] == '+' {
        s@.drop_first()
    } else {
        s@
    }));
    if start == s.len() {
        return None;
    }
    let mut acc: u64 = 0;
    let mut i = start;
    while i < s.len()
        invariant
            start <= i <= s.len(),
            d == s@.subrange(start as int, s@.len() as int),
            d == (if s@.len() > 0 && s@[0] == '+' {
                s@.drop_first()
            } else {
                s@
            }),
            forall|k: int| 0 <= k < i - start ==> is_digit(#[trigger] d[k]),
            acc == (if decimal_value(d.take(i - start)) <= u32::MAX {
                decimal_value(d.take(i - start))
            } else {
                u32::MAX as nat + 1
            }),
        decreases s.len() - i,
    {
        let c = s[i];
        if !is_digit_char(c) {
            assert(d[i - start] == c);
            assert(!is_digit(d[i - start]));
            return None;
        }
        let v = (c as u32 - 48u32) as u64;
        proof {
            assert(d.take(i - start + 1).drop_last() =~= d.take(i - start));
            assert(d.take(i - start + 1).last() == c);
        }
        if acc > u32::MAX as u64 {
            acc = u32::MAX as u64 + 1;
        } else {
            acc = acc * 10 + v;
            if acc > u32::MAX as u64 {
                acc = u32::MAX as u64 + 1;
            }
        }
        i = i + 1;
    }
    assert(d.take(d.len() as int) =~= d);
    if acc > u32::MAX as u64 {
        None
    } else {
        Some(acc as u32)
    }
}

/// The index of the first `c` at or after `i` in `s`, or `s.len()`.
pub open spec fn find_from(s: Seq<char>, i: int, c: char) -> int {
    scan(s, i, other_than(c))
}

pub open spec fn other_than(c: char) -> spec_fn(char) -> bool {
    |x: char| x != c
}

/// Finds the first `c` at or after `i`; `s.len()` when there is none.
pub fn find_char(s: &Vec<char>, i: usize, c: char) -> (res: usize)
    requires
        i <= s.len(),
    ensures
        res == find_from(s@, i as int, c),
{
    let mut k = i;
    while k < s.len() && s[k] != c
        invariant
            i <= k <= s.len(),
            scan(s@, k as int, other_than(c)) == scan(s@, i as int, other_than(c)),
        decreases s.len() - k,
    {
        k = k + 1;
    }
    k
}

/// Skips ASCII digits from `i` on.
pub fn skip_digits(s: &Vec<char>, i: usize) -> (res: usize)
    requires
        i <= s.len(),
    ensures
        res == scan(s@, i as int, digit()),
{
    let mut k = i;
    while k < s.len() && is_digit_char(s[k])
        invariant
            i <= k <= s.len(),
            scan(s@, k as int, digit()) == scan(s@, i as int, digit()),
        decreases s.len() - k,
    {
        k = k + 1;
    }
    k
}

// A decimal number starting at `p`: an optional `-`, digits, optionally a `.`
// and digits, and optionally `E` or `e`, an optional sign and digits.
pub open spec fn mantissa_start(s: Seq<char>, p: int) -> int {
    if p < s.len() && s[p] == '-' {
        p + 1
    } else {
        p
    }
}

pub open spec fn int_end(s: Seq<char>, p: int) -> int {
    scan(s, mantissa_start(s, p), digit())
}

pub open spec fn has_point(s: Seq<char>, p: int) -> bool {
    int_end(s, p) < s.len() && s[int_end(s, p)] == '.'
}

pub open spec fn frac_end(s: Seq<char>, p: int) -> int {
    if has_point(s, p) {
        scan(s, int_end(s, p) + 1, digit())
    } else {
        int_end(s, p)
    }
}

pub open spec fn has_exponent(s: Seq<char>, p: int) -> bool {
    let c = frac_end(s, p);
    c < s.len() && (s[c] == 'E' || s[c] == 'e')
}

pub open spec fn exponent_digits_start(s: Seq<char>, p: int) -> int {
    let c = frac_end(s, p);
    if c + 1 < s.len() && (s[c + 1] == '+' || s[c + 1] == '-') {
        c + 2
    } else {
        c + 1
    }
}

/// Where the number starting at `p` ends.
pub open spec fn number_end(s: Seq<char>, p: int) -> int {
    if has_exponent(s, p) {
        scan(s, exponent_digits_start(s, p), digit())
    } else {
        frac_end(s, p)
    }
}

/// The number of digits before the exponent.
pub open spec fn mantissa_digits(s: Seq<char>, p: int) -> int {
    (int_end(s, p) - mantissa_start(s, p)) + if has_point(s, p) {
        frac_end(s, p) - (int_end(s, p) + 1)
    } else {
        0
    }
}

/// `s[p..number_end(s, p)]` is a literal that `str::parse::<f64>` accepts:
/// the mantissa has a digit, and an exponent, if any, has a digit.
pub open spec fn number_ok(s: Seq<char>, p: int) -> bool {
    &&& mantissa_digits(s, p) >= 1
    &&& has_exponent(s, p) ==> number_end(s, p) > exponent_digits_start(s, p)
}

/// When `s[i..j]` satisfies `p` and `s[j]` does not (or `j` is the end),
/// the scan from `i` stops at `j`.
pub proof fn lemma_scan_to(s: Seq<char>, i: int, j: int, p: spec_fn(char) -> bool)
    requires
        0 <= i <= j <= s.len(),
        forall|k: int| i <= k < j ==> p(#[trigger] s[k]),
        j == s.len() || !p(s[j]),
    ensures
        scan(s, i, p) == j,
    decreases j - i,
{
    if i < j {
        lemma_scan_to(s, i + 1, j, p);
    }
}

/// A decimal literal as `str::parse::<f64>` reads it, written at `p..e` of
/// `s`: an optional `-` (`neg`), digits up to `b`, optionally (`point`) a `.`
/// and digits up to `c`, and optionally (`exp`) an `E` or `e`, an optional
/// `+` or `-` (`sign`) and at least one digit up to `e`, with at least one
/// digit before the exponent. When the character after it cannot continue
/// it, the number read at `p` is exactly this literal, and it is well formed.
pub proof fn law_number_literal(
    s: Seq<char>,
    p: int,
    neg: bool,
    b: int,
    point: bool,
    c: int,
    exp: bool,
    sign: bool,
    e: int,
)
    requires
        0 <= p < e <= s.len(),
        neg ==> s[p] == '-',
        !neg ==> s[p] != '-',
        (if neg { p + 1 } else { p }) <= b <= c <= e,
        forall|k: int| (if neg { p + 1 } else { p }) <= k < b ==> is_digit(#[trigger] s[k]),
        point ==> b < s.len() && s[b] == '.' && b + 1 <= c && forall|k: int|
            b + 1 <= k < c ==> is_digit(#[trigger] s[k]),
        !point ==> c == b,
        (b - (if neg { p + 1 } else { p })) + (if point { c - b - 1 } else { 0 }) >= 1,
        exp ==> {
            let d = if sign { c + 2 } else { c + 1 };
            &&& c < s.len()
            &&& (s[c] == 'E' || s[c] == 'e')
            &&& sign ==> c + 1 < s.len() && (s[c + 1] == '+' || s[c + 1] == '-')
            &&& d < e
            &&& forall|k: int| d <= k < e ==> is_digit(#[trigger] s[k])
        },
        !exp ==> e == c,
        e == s.len() || (!is_digit(s[e]) && (point || exp || s[e] != '.') && (exp || (s[e] != 'E'
            && s[e] != 'e'))),
    ensures
        number_end(s, p) == e,
        number_ok(s, p),
{
    let a = if neg { p + 1 } else { p };
    assert(mantissa_start(s, p) == a);
    lemma_scan_to(s, a, b, digit());
    assert(int_end(s, p) == b);
    if point {
        lemma_scan_to(s, b + 1, c, digit());
    }
    assert(has_point(s, p) == point);
    assert(frac_end(s, p) == c);
    assert(has_exponent(s, p) == exp);
    if exp {
        let d = if sign { c + 2 } else { c + 1 };
        assert(exponent_digits_start(s, p) == d);
        lemma_scan_to(s, d, e, digit());
    }
}

/// Scans the number that starts at `p`: where it ends, and whether it is a
/// well-formed literal.
pub fn scan_number(s: &Vec<char>, p: usize) -> (res: (usize, bool))
    requires
        p < s.len(),
        s[p as int] == '-' || is_digit(s[p as int]),
    ensures
        res.0 == number_end(s@, p as int),
        res.1 == number_ok(s@, p as int),
        p < res.0 <= s.len(),
{
    let a: usize = if s[p] == '-' {
        p + 1
    } else {
        p
    };
    let b = skip_digits(s, a);
    proof {
        lemma_scan(s@, a as int, digit());
    }
    let mut digits: usize = b - a;
    let mut c = b;
    if b < s.len() && s[b] == '.' {
        c = skip_digits(s, b + 1);
        proof {
            lemma_scan(s@, b + 1, digit());
        }
        digits = digits + (c - (b + 1));
    }
    if c < s.len() && (s[c] == 'E' || s[c] == 'e') {
        let q: usize = if c + 1 < s.len() && (s[c + 1] == '+' || s[c + 1] == '-') {
            c + 2
        } else {
            c + 1
        };
        let e = skip_digits(s, q);
        proof {
            lemma_scan(s@, q as int, digit());
        }
        (e, digits >= 1 && e > q)
    } else {
        (c, digits >= 1)
    }
}

/// The decimal digit character of `d`.
pub open spec fn digit_char(d: nat) -> char {
    (48 + d) as char
}

/// `n` written in decimal, without leading zeros.
pub open spec fn decimal_text(n: nat) -> Seq<char>
    decreases n,
{
    if n < 10 {
        seq![digit_char(n)]
    } else {
        decimal_text(n / 10).push(digit_char(n % 10))
    }
}

/// `n` written in decimal, as `{}` writes an integer.
pub fn decimal_chars(n: u64) -> (res: Vec<char>)
    ensures
        res@ == decimal_text(n as nat),
    decreases n,
{
    let d = (n % 10) as u8;
    let c = (48u8 + d) as char;
    assert(c == digit_char((n % 10) as nat));
    if n < 10 {
        let mut v: Vec<char> = Vec::new();
        v.push(c);
        assert(v@ =~= seq![digit_char(n as nat)]);
        v
    } else {
        let mut v = decimal_chars(n / 10);
        v.push(c);
        v
    }
}

} // verus!
