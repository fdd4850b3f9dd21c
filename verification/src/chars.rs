//! Character classes and small text computations used by the lexer and the
//! package tools: identifier characters, digits, whitespace, trimming and
//! numeric literal values.
use vstd::prelude::*;

verus! {

pub open spec fn spec_is_ident_start(c: char) -> bool {
    ('a' <= c && c <= 'z') || ('A' <= c && c <= 'Z') || c == '_'
}

pub open spec fn spec_is_digit(c: char) -> bool {
    '0' <= c && c <= '9'
}

pub open spec fn spec_is_ident_char(c: char) -> bool {
    spec_is_ident_start(c) || spec_is_digit(c)
}

pub open spec fn spec_is_hex_digit(c: char) -> bool {
    spec_is_digit(c) || ('a' <= c && c <= 'f') || ('A' <= c && c <= 'F')
}

/// The value of a hexadecimal digit character.
pub open spec fn spec_hex_value(c: char) -> nat {
    if spec_is_digit(c) {
        (c as nat - '0' as nat) as nat
    } else if 'a' <= c && c <= 'f' {
        (c as nat - 'a' as nat + 10) as nat
    } else {
        (c as nat - 'A' as nat + 10) as nat
    }
}

/// The value of a string of digits in base `b`, most significant first.
pub open spec fn digits_value(s: Seq<char>, b: nat) -> nat
    decreases s.len(),
{
    if s.len() == 0 {
        0
    } else {
        digits_value(s.drop_last(), b) * b + spec_hex_value(s.last())
    }
}

/// Unicode White_Space, the set that `char::is_whitespace` tests.
pub open spec fn spec_is_space(c: char) -> bool {
    ||| '\u{9}' <= c && c <= '\u{d}'
    ||| c == ' '
    ||| c == '\u{85}'
    ||| c == '\u{a0}'
    ||| c == '\u{1680}'
    ||| '\u{2000}' <= c && c <= '\u{200a}'
    ||| c == '\u{2028}'
    ||| c == '\u{2029}'
    ||| c == '\u{202f}'
    ||| c == '\u{205f}'
    ||| c == '\u{3000}'
}

/// `s` without leading whitespace.
pub open spec fn trim_start(s: Seq<char>) -> Seq<char>
    decreases s.len(),
{
    if s.len() > 0 && spec_is_space(s[0]) {
        trim_start(s.drop_first())
    } else {
        s
    }
}

/// `s` without trailing whitespace.
pub open spec fn trim_end(s: Seq<char>) -> Seq<char>
    decreases s.len(),
{
    if s.len() > 0 && spec_is_space(s.last()) {
        trim_end(s.drop_last())
    } else {
        s
    }
}

/// `s` without leading or trailing whitespace (what `str::trim` returns).
pub open spec fn trimmed(s: Seq<char>) -> Seq<char> {
    trim_end(trim_start(s))
}

pub fn is_ident_start(c: char) -> (r: bool)
    ensures
        r == spec_is_ident_start(c),
{
    (c >= 'a' && c <= 'z') || (c >= 'A' && c <= 'Z') || c == '_'
}

pub fn is_ascii_digit(c: char) -> (r: bool)
    ensures
        r == spec_is_digit(c),
{
    c >= '0' && c <= '9'
}

pub fn is_ident_char(c: char) -> (r: bool)
    ensures
        r == spec_is_ident_char(c),
{
    is_ident_start(c) || is_ascii_digit(c)
}

pub fn is_hex_digit(c: char) -> (r: bool)
    ensures
        r == spec_is_hex_digit(c),
{
    is_ascii_digit(c) || (c >= 'a' && c <= 'f') || (c >= 'A' && c <= 'F')
}

pub fn is_space(c: char) -> (r: bool)
    ensures
        r == spec_is_space(c),
{
    ('\u{9}' <= c && c <= '\u{d}') || c == ' ' || c == '\u{85}' || c == '\u{a0}'
        || c == '\u{1680}' || ('\u{2000}' <= c && c <= '\u{200a}') || c == '\u{2028}'
        || c == '\u{2029}' || c == '\u{202f}' || c == '\u{205f}' || c == '\u{3000}'
}

/// The value of a hexadecimal digit.
pub fn hex_value(c: char) -> (v: u64)
    requires
        spec_is_hex_digit(c),
    ensures
        v as nat == spec_hex_value(c),
        v < 16,
{
    if c >= '0' && c <= '9' {
        (c as u32 - '0' as u32) as u64
    } else if c >= 'a' && c <= 'f' {
        (c as u32 - 'a' as u32 + 10) as u64
    } else {
        (c as u32 - 'A' as u32 + 10) as u64
    }
}

proof fn lemma_digits_value_step(s: Seq<char>, i: int, b: nat)
    requires
        0 <= i < s.len(),
    ensures
        digits_value(s.take(i + 1), b) == digits_value(s.take(i), b) * b + spec_hex_value(s[i]),
{
    assert(s.take(i + 1).drop_last() == s.take(i));
}

/// The value of the digit string `digits` in base `base` (10 or 16), or `None`
/// when it does not fit in 64 bits.
pub fn parse_digits(digits: &Vec<char>, base: u64) -> (r: Option<u64>)
    requires
        base == 10 || base == 16,
        forall|i: int| 0 <= i < digits.len() ==> #[trigger] spec_is_hex_digit(digits[i])
            && (base == 10 ==> spec_is_digit(digits[i])),
    ensures
        r matches Some(v) ==> v as nat == digits_value(digits@, base as nat),
        r is None ==> digits_value(digits@, base as nat) > u64::MAX,
{
    let mut value: u64 = 0;
    let mut i: usize = 0;
    while i < digits.len()
        invariant
            i <= digits.len(),
            base == 10 || base == 16,
            forall|j: int| 0 <= j < digits.len() ==> #[trigger] spec_is_hex_digit(digits[j])
                && (base == 10 ==> spec_is_digit(digits[j])),
            value as nat == digits_value(digits@.take(i as int), base as nat),
        decreases digits.len() - i,
    {
        let d = hex_value(digits[i]);
        proof {
            lemma_digits_value_step(digits@, i as int, base as nat);
        }
        let lim = (u64::MAX - d) / base;
        if value > lim {
            proof {
                assert(value * base + d > u64::MAX) by (nonlinear_arith)
                    requires
                        value > lim,
                        lim as int == (u64::MAX as int - d as int) / (base as int),
                        base > 0,
                        d < 16,
                ;
                lemma_digits_value_monotone(digits@, (i + 1) as int, base as nat);
            }
            return None;
        }
        proof {
            assert(value * base + d <= u64::MAX) by (nonlinear_arith)
                requires
                    value <= lim,
                    lim as int == (u64::MAX as int - d as int) / (base as int),
                    base > 0,
                    d < 16,
            ;
        }
        value = value * base + d;
        i += 1;
    }
    assert(digits@.take(digits.len() as int) == digits@);
    Some(value)
}

/// A prefix's value never exceeds the value of the whole digit string.
proof fn lemma_digits_value_monotone(s: Seq<char>, k: int, b: nat)
    requires
        0 <= k <= s.len(),
        b >= 1,
    ensures
        digits_value(s.take(k), b) <= digits_value(s, b),
    decreases s.len() - k,
{
    if k < s.len() {
        lemma_digits_value_monotone(s, k + 1, b);
        lemma_digits_value_step(s, k, b);
        let p = digits_value(s.take(k), b);
        assert(p * b >= p) by (nonlinear_arith)
            requires
                b >= 1,
        ;
    } else {
        assert(s.take(k) == s);
    }
}

/// The value of a hexadecimal digit string, or `None` when it does not fit
/// in 64 bits.
pub fn parse_hex(digits: &Vec<char>) -> (r: Option<u64>)
    requires
        forall|i: int| 0 <= i < digits.len() ==> #[trigger] spec_is_hex_digit(digits[i]),
    ensures
        r matches Some(v) ==> v as nat == digits_value(digits@, 16),
        r is None ==> digits_value(digits@, 16) > u64::MAX,
{
    parse_digits(digits, 16)
}

/// Removes leading and trailing whitespace, as `str::trim` does.
pub fn trim(s: &Vec<char>) -> (r: Vec<char>)
    ensures
        r@ == trimmed(s@),
{
    let mut lo: usize = 0;
    assert(s@.subrange(0, s.len() as int) == s@);
    while lo < s.len() && is_space(s[lo])
        invariant
            lo <= s.len(),
            trim_start(s@) == trim_start(s@.subrange(lo as int, s.len() as int)),
        decreases s.len() - lo,
    {
        assert(s@.subrange(lo as int, s.len() as int).drop_first()
            == s@.subrange(lo + 1, s.len() as int));
        lo += 1;
    }
    let ghost ts = s@.subrange(lo as int, s.len() as int);
    assert(trim_start(ts) == ts);
    let mut hi: usize = s.len();
    while hi > lo && is_space(s[hi - 1])
        invariant
            lo <= hi <= s.len(),
            trim_end(ts) == trim_end(s@.subrange(lo as int, hi as int)),
            ts == s@.subrange(lo as int, s.len() as int),
        decreases hi,
    {
        assert(s@.subrange(lo as int, hi as int).drop_last() == s@.subrange(lo as int, hi - 1));
        hi -= 1;
    }
    let mut r: Vec<char> = Vec::new();
    let mut k: usize = lo;
    while k < hi
        invariant
            lo <= k <= hi,
            hi <= s.len(),
            r@ == s@.subrange(lo as int, k as int),
        decreases hi - k,
    {
        r.push(s[k]);
        k += 1;
    }
    proof {
        let m = s@.subrange(lo as int, hi as int);
        assert(trim_end(m) == m);
    }
    r
}

} // verus!
