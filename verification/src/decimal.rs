//! Fixed-point decimal strings.
//!
//! Prices, volumes and balances travel on the wire as decimal strings
//! ("1638.84").  This module gives them an exact integer form: a value scaled
//! by `SCALE` (eight fractional digits), parsed and formatted by verified
//! code.

use vstd::prelude::*;

verus! {

/// Fixed-point scale: all prices, volumes and amounts carry eight fractional
/// decimal digits.
pub const SCALE: u64 = 100_000_000;

/// Number of fractional digits in the fixed-point representation.
pub const FRAC_DIGITS: u8 = 8;

pub open spec fn is_digit(c: char) -> bool {
    '0' <= c && c <= '9'
}

pub open spec fn digit_val(c: char) -> int {
    c as int - '0' as int
}

pub open spec fn all_digits(s: Seq<char>) -> bool {
    forall|i: int| 0 <= i < s.len() ==> is_digit(#[trigger] s[i])
}

/// Value of a digit string read most-significant first.
pub open spec fn digits_val(s: Seq<char>) -> int
    decreases s.len(),
{
    if s.len() == 0 {
        0
    } else {
        digits_val(s.drop_last()) * 10 + digit_val(s.last())
    }
}

/// Index of the first '.' in `s`, or `s.len()` when there is none.
pub open spec fn dot_pos(s: Seq<char>) -> int
    decreases s.len(),
{
    if s.len() == 0 {
        0
    } else if s.first() == '.' {
        0
    } else {
        1 + dot_pos(s.drop_first())
    }
}

pub proof fn lemma_dot_pos(s: Seq<char>)
    ensures
        0 <= dot_pos(s) <= s.len(),
        forall|i: int| 0 <= i < dot_pos(s) ==> s[i] != '.',
        dot_pos(s) < s.len() ==> s[dot_pos(s)] == '.',
    decreases s.len(),
{
    if s.len() > 0 && s.first() != '.' {
        lemma_dot_pos(s.drop_first());
        assert forall|i: int| 0 <= i < dot_pos(s) implies s[i] != '.' by {
            if i > 0 {
                assert(s.drop_first()[i - 1] != '.');
            }
        }
        if dot_pos(s) < s.len() {
            assert(s.drop_first()[dot_pos(s) - 1] == '.');
        }
    }
}

/// Number of characters after the first '.', zero when there is no '.'.
pub open spec fn spec_count_decimals(s: Seq<char>) -> int {
    if dot_pos(s) < s.len() {
        s.len() - dot_pos(s) - 1
    } else {
        0
    }
}

/// Count of characters after the first '.' of the string, truncated to
/// `u8`.
pub fn count_decimals(s: &str) -> (r: u8)
    ensures
        r as int == spec_count_decimals(s@) % 256,
{
    let n = s.unicode_len();
    let mut i: usize = 0;
    while i < n
        invariant
            n == s@.len(),
            0 <= i <= n,
            forall|j: int| 0 <= j < i ==> s@[j] != '.',
        decreases n - i,
    {
        if s.get_char(i) == '.' {
            proof {
                lemma_dot_pos_found(s@, i as int);
            }
            return (((n - i - 1) % 256) as u8);
        }
        i += 1;
    }
    proof {
        lemma_dot_pos(s@);
    }
    0
}

proof fn lemma_dot_pos_found(s: Seq<char>, i: int)
    requires
        0 <= i < s.len(),
        s[i] == '.',
        forall|j: int| 0 <= j < i ==> s[j] != '.',
    ensures
        dot_pos(s) == i,
{
    lemma_dot_pos(s);
    if dot_pos(s) < i {
        assert(s[dot_pos(s)] == '.');
    }
}

pub open spec fn pow10(k: int) -> int
    decreases k,
{
    if k <= 0 {
        1
    } else {
        10 * pow10(k - 1)
    }
}

/// Ten to the `k`, for the scale's own exponents.
pub fn pow10_u64(k: u8) -> (r: u64)
    requires
        k <= FRAC_DIGITS,
    ensures
        r as int == pow10(k as int),
{
    proof {
        reveal_pow10_small();
    }
    let mut r: u64 = 1;
    let mut i: u8 = 0;
    while i < k
        invariant
            i <= k,
            k <= 8,
            r as int == pow10(i as int),
        decreases k - i,
    {
        proof {
            lemma_pow10_le(i as int + 1, 8);
            reveal_pow10_small();
        }
        r = r * 10;
        i = i + 1;
    }
    r
}

pub proof fn lemma_pow10_le(a: int, b: int)
    requires
        a <= b,
    ensures
        pow10(a) <= pow10(b),
        pow10(a) >= 1,
    decreases b - a,
{
    if a < b {
        lemma_pow10_le(a, b - 1);
    } else {
        lemma_pow10_pos(a);
    }
}

pub proof fn lemma_pow10_pos(k: int)
    ensures
        pow10(k) >= 1,
    decreases k,
{
    if k > 0 {
        lemma_pow10_pos(k - 1);
    }
}

proof fn reveal_pow10_small()
    ensures
        pow10(0) == 1,
        pow10(1) == 10,
        pow10(2) == 100,
        pow10(3) == 1000,
        pow10(4) == 10000,
        pow10(5) == 100000,
        pow10(6) == 1000000,
        pow10(7) == 10000000,
        pow10(8) == 100000000,
{
    reveal_with_fuel(pow10, 9);
}

pub open spec fn digit_char(d: int) -> char {
    if d == 0 {
        '0'
    } else if d == 1 {
        '1'
    } else if d == 2 {
        '2'
    } else if d == 3 {
        '3'
    } else if d == 4 {
        '4'
    } else if d == 5 {
        '5'
    } else if d == 6 {
        '6'
    } else if d == 7 {
        '7'
    } else if d == 8 {
        '8'
    } else {
        '9'
    }
}

/// Canonical decimal digit string of a nonnegative number, no leading zeros
/// (a single "0" for zero).
pub open spec fn dec_str(n: int) -> Seq<char>
    decreases n,
{
    if n < 10 {
        seq![digit_char(n)]
    } else {
        dec_str(n / 10).push(digit_char(n % 10))
    }
}

/// Decimal digit string of `n` padded with leading zeros to width `w`
/// (only the `w` lowest digits of `n`).
pub open spec fn dec_str_width(n: int, w: int) -> Seq<char>
    decreases w,
{
    if w <= 0 {
        Seq::empty()
    } else {
        dec_str_width(n / 10, w - 1).push(digit_char(n % 10))
    }
}

fn digit_str(d: u64) -> (r: &'static str)
    requires
        d < 10,
    ensures
        r@ =~= seq![digit_char(d as int)],
{
    proof {
        reveal_strlit("0");
        reveal_strlit("1");
        reveal_strlit("2");
        reveal_strlit("3");
        reveal_strlit("4");
        reveal_strlit("5");
        reveal_strlit("6");
        reveal_strlit("7");
        reveal_strlit("8");
        reveal_strlit("9");
    }
    if d == 0 {
        "0"
    } else if d == 1 {
        "1"
    } else if d == 2 {
        "2"
    } else if d == 3 {
        "3"
    } else if d == 4 {
        "4"
    } else if d == 5 {
        "5"
    } else if d == 6 {
        "6"
    } else if d == 7 {
        "7"
    } else if d == 8 {
        "8"
    } else {
        "9"
    }
}

/// The canonical decimal string of `n`.
pub fn u64_to_string(n: u64) -> (r: String)
    ensures
        r@ == dec_str(n as int),
    decreases n,
{
    if n < 10 {
        digit_str(n).to_owned()
    } else {
        let mut s = u64_to_string(n / 10);
        s.append(digit_str(n % 10));
        proof {
            assert(dec_str(n as int) =~= dec_str((n / 10) as int).push(digit_char((n
                % 10) as int)));
        }
        s
    }
}

pub proof fn lemma_digits_val_nonneg(s: Seq<char>)
    requires
        all_digits(s),
    ensures
        digits_val(s) >= 0,
    decreases s.len(),
{
    if s.len() > 0 {
        assert(all_digits(s.drop_last())) by {
            assert(forall|i: int| 0 <= i < s.len() - 1 ==> s.drop_last()[i] == s[i]);
        }
        lemma_digits_val_nonneg(s.drop_last());
        assert(is_digit(s.last()));
    }
}

pub proof fn lemma_digits_val_bound(s: Seq<char>)
    requires
        all_digits(s),
    ensures
        0 <= digits_val(s) < pow10(s.len() as int),
    decreases s.len(),
{
    if s.len() == 0 {
    } else {
        assert(all_digits(s.drop_last())) by {
            assert(forall|i: int| 0 <= i < s.len() - 1 ==> s.drop_last()[i] == s[i]);
        }
        lemma_digits_val_bound(s.drop_last());
        assert(is_digit(s.last()));
        assert(digit_val(s.last()) <= 9);
    }
}

/// Reading one more digit multiplies the prefix value by ten and adds it.
pub proof fn lemma_digits_val_take_step(s: Seq<char>, i: int)
    requires
        0 <= i < s.len(),
    ensures
        digits_val(s.take(i + 1)) == digits_val(s.take(i)) * 10 + digit_val(s[i]),
{
    assert(s.take(i + 1).drop_last() =~= s.take(i));
    assert(s.take(i + 1).last() == s[i]);
}

/// A digit string is worth at least any of its prefixes.
pub proof fn lemma_digits_val_take_mono(s: Seq<char>, i: int)
    requires
        all_digits(s),
        0 <= i <= s.len(),
    ensures
        digits_val(s) >= digits_val(s.take(i)),
    decreases s.len() - i,
{
    if i == s.len() {
        assert(s.take(i) =~= s);
    } else {
        lemma_digits_val_take_step(s, i);
        assert(all_digits(s.take(i))) by {
            assert(forall|j: int| 0 <= j < i ==> s.take(i)[j] == s[j]);
        }
        lemma_digits_val_nonneg(s.take(i));
        assert(is_digit(s[i]));
        lemma_digits_val_take_mono(s, i + 1);
    }
}

/// The digits before the first '.'.
pub open spec fn int_part(s: Seq<char>) -> Seq<char> {
    s.take(dot_pos(s))
}

/// The digits after the first '.', empty when there is none.
pub open spec fn frac_part(s: Seq<char>) -> Seq<char> {
    if dot_pos(s) < s.len() {
        s.skip(dot_pos(s) + 1)
    } else {
        Seq::empty()
    }
}

/// An unsigned decimal number: a nonempty digit string, optionally followed
/// by '.' and further digits.
pub open spec fn valid_decimal(s: Seq<char>) -> bool {
    int_part(s).len() > 0 && all_digits(int_part(s)) && all_digits(frac_part(s))
}

/// Fractional digits as a value scaled to `FRAC_DIGITS` places; digits beyond
/// the scale are dropped.
pub open spec fn frac_scaled(f: Seq<char>) -> int {
    let k = if f.len() <= FRAC_DIGITS as int {
        f.len() as int
    } else {
        FRAC_DIGITS as int
    };
    digits_val(f.take(k)) * pow10(FRAC_DIGITS as int - k)
}

/// The fixed-point value (scaled by `SCALE`) that a valid decimal string
/// denotes.
pub open spec fn spec_parse_fixed(s: Seq<char>) -> int {
    digits_val(int_part(s)) * SCALE + frac_scaled(frac_part(s))
}

fn char_digit(c: char) -> (r: Option<u64>)
    ensures
        r.is_some() <==> is_digit(c),
        r.is_some() ==> r.unwrap() as int == digit_val(c) && r.unwrap() < 10,
{
    if c == '0' {
        Some(0)
    } else if c == '1' {
        Some(1)
    } else if c == '2' {
        Some(2)
    } else if c == '3' {
        Some(3)
    } else if c == '4' {
        Some(4)
    } else if c == '5' {
        Some(5)
    } else if c == '6' {
        Some(6)
    } else if c == '7' {
        Some(7)
    } else if c == '8' {
        Some(8)
    } else if c == '9' {
        Some(9)
    } else {
        assert(!is_digit(c));
        None
    }
}

fn find_dot(s: &str) -> (r: usize)
    ensures
        r as int == dot_pos(s@),
        r <= s@.len(),
{
    let n = s.unicode_len();
    let mut i: usize = 0;
    while i < n
        invariant
            n == s@.len(),
            0 <= i <= n,
            forall|j: int| 0 <= j < i ==> s@[j] != '.',
        decreases n - i,
    {
        if s.get_char(i) == '.' {
            proof {
                lemma_dot_pos_found(s@, i as int);
            }
            return i;
        }
        i += 1;
    }
    proof {
        lemma_dot_pos(s@);
    }
    n
}

/// Parses an unsigned decimal string into a fixed-point value, rejecting
/// malformed strings and values over `u64::MAX`; fractional digits beyond
/// the scale are dropped.
pub fn parse_fixed(s: &str) -> (r: Option<u64>)
    ensures
        r.is_some() <==> valid_decimal(s@) && spec_parse_fixed(s@) <= u64::MAX,
        r.is_some() ==> r.unwrap() as int == spec_parse_fixed(s@),
{
    let n = s.unicode_len();
    let ghost sv = s@;

    let dot = find_dot(s);

    if dot == 0 {
        // Empty integer part: not a valid decimal.
        assert(int_part(sv).len() == 0);
        return None;
    }
    // Integer part.
    let mut acc: u64 = 0;
    let mut i: usize = 0;
    while i < dot
        invariant
            n == sv.len(),
            sv == s@,
            0 < dot <= n,
            dot as int == dot_pos(sv),
            0 <= i <= dot,
            forall|j: int| 0 <= j < i ==> is_digit(#[trigger] sv[j]),
            acc as int == digits_val(sv.take(i as int)),
        decreases dot - i,
    {
        let c = s.get_char(i);
        let d = match char_digit(c) {
            Some(d) => d,
            None => {
                // A non-digit before the '.': not a valid decimal.
                assert(int_part(sv)[i as int] == sv[i as int]);
                assert(!all_digits(int_part(sv)));
                return None;
            },
        };
        let wide: u128 = acc as u128 * 10 + d as u128;
        proof {
            lemma_digits_val_take_step(sv, i as int);
        }
        if wide > u64::MAX as u128 {
            // The integer part alone is over the representable range.
            proof {
                if valid_decimal(sv) {
                    lemma_digits_val_take_mono(int_part(sv), i as int + 1);
                    assert(int_part(sv).take(i as int + 1) =~= sv.take(i as int + 1));
                    lemma_digits_val_nonneg(frac_part(sv));
                    let k = if frac_part(sv).len() <= FRAC_DIGITS as int {
                        frac_part(sv).len() as int
                    } else {
                        FRAC_DIGITS as int
                    };
                    assert(all_digits(frac_part(sv).take(k))) by {
                        assert(forall|j: int|
                            0 <= j < k ==> frac_part(sv).take(k)[j] == frac_part(sv)[j]);
                    }
                    lemma_digits_val_nonneg(frac_part(sv).take(k));
                    lemma_pow10_pos(FRAC_DIGITS as int - k);
                    assert(frac_scaled(frac_part(sv)) >= 0) by (nonlinear_arith)
                        requires
                            frac_scaled(frac_part(sv)) == digits_val(frac_part(sv).take(k))
                                * pow10(FRAC_DIGITS as int - k),
                            digits_val(frac_part(sv).take(k)) >= 0,
                            pow10(FRAC_DIGITS as int - k) >= 1,
                    ;
                    assert(digits_val(int_part(sv)) * SCALE >= digits_val(int_part(sv)) * 1)
                        by (nonlinear_arith)
                        requires
                            digits_val(int_part(sv)) >= 0,
                    ;
                }
            }
            return None;
        }
        acc = wide as u64;
        i += 1;
    }
    assert(sv.take(dot as int) =~= int_part(sv));

    // Fractional part: validate every digit, keep the first FRAC_DIGITS.
    let ghost f = frac_part(sv);
    let mut facc: u64 = 0;
    let mut k: u8 = 0;
    proof {
        assert(f.take(0) =~= Seq::<char>::empty());
        reveal_pow10_small();
    }
    if dot < n {
        let mut j: usize = dot + 1;
        while j < n
            invariant
                n == sv.len(),
                sv == s@,
                0 < dot < n,
                dot as int == dot_pos(sv),
                dot + 1 <= j <= n,
                f == frac_part(sv),
                f.len() == n - dot - 1,
                forall|m: int| 0 <= m < f.len() ==> f[m] == sv[dot + 1 + m],
                forall|m: int| 0 <= m < j - dot - 1 ==> is_digit(#[trigger] f[m]),
                k as int == if j - dot - 1 <= FRAC_DIGITS as int {
                    j - dot - 1
                } else {
                    FRAC_DIGITS as int
                },
                facc as int == digits_val(f.take(k as int)),
                (facc as int) < pow10(k as int),
            decreases n - j,
        {
            let c = s.get_char(j);
            let d = match char_digit(c) {
                Some(d) => d,
                None => {
                    // A non-digit after the '.': not a valid decimal.
                    assert(f[j - dot - 1] == sv[j as int]);
                    assert(!all_digits(frac_part(sv)));
                    return None;
                },
            };
            if k < FRAC_DIGITS {
                proof {
                    lemma_digits_val_take_step(f, k as int);
                    reveal_pow10_small();
                    lemma_pow10_le(k as int + 1, 8);
                }
                facc = facc * 10 + d;
                k += 1;
            }
            j += 1;
        }
    } else {
        assert(f =~= Seq::<char>::empty());
    }
    proof {
        assert(all_digits(f));
        assert(all_digits(int_part(sv)));
        assert(valid_decimal(sv));
    }

    // Assemble, rejecting values over u64::MAX.
    let p10: u64 = pow10_u64(FRAC_DIGITS - k);
    proof {
        lemma_pow10_le(k as int, 8);
        lemma_pow10_le(8 - k as int, 8);
        reveal_pow10_small();
        assert(pow10(k as int) * pow10(8 - k as int) == pow10(8)) by {
            lemma_pow10_mul(k as int, 8 - k as int);
        }
        assert(facc as int * pow10(8 - k as int) <= (pow10(k as int) - 1) * pow10(
            8 - k as int,
        )) by (nonlinear_arith)
            requires
                (facc as int) < pow10(k as int),
                pow10(8 - k as int) >= 1,
        ;
        assert((pow10(k as int) - 1) * pow10(8 - k as int) < pow10(8)) by (nonlinear_arith)
            requires
                pow10(k as int) >= 1,
                pow10(8 - k as int) >= 1,
                pow10(k as int) * pow10(8 - k as int) == pow10(8),
        ;
    }
    let fscaled: u64 = facc * p10;
    proof {
        assert(fscaled as int == frac_scaled(f)) by {
            assert(f.take(k as int) =~= f.take(
                if f.len() <= FRAC_DIGITS as int {
                    f.len() as int
                } else {
                    FRAC_DIGITS as int
                },
            ));
        }
    }
    let limit = (u64::MAX - fscaled) / SCALE;
    if acc > limit {
        proof {
            lemma_digits_val_nonneg(int_part(sv));
            assert(acc as int * SCALE + fscaled as int > u64::MAX) by (nonlinear_arith)
                requires
                    acc as int > (u64::MAX - fscaled as int) / (SCALE as int),
                    acc as int >= 0,
                    0 <= fscaled as int <= u64::MAX,
                    SCALE as int == 100_000_000,
            ;
        }
        return None;
    }
    proof {
        assert(acc as int * SCALE + fscaled as int <= u64::MAX) by (nonlinear_arith)
            requires
                acc as int <= (u64::MAX - fscaled as int) / (SCALE as int),
                acc as int >= 0,
                0 <= fscaled as int <= u64::MAX,
                SCALE as int == 100_000_000,
        ;
    }
    Some(acc * SCALE + fscaled)
}

pub proof fn lemma_pow10_mul(a: int, b: int)
    requires
        a >= 0,
        b >= 0,
    ensures
        pow10(a) * pow10(b) == pow10(a + b),
    decreases a,
{
    if a == 0 {
    } else {
        lemma_pow10_mul(a - 1, b);
        assert(pow10(a) * pow10(b) == 10 * (pow10(a - 1) * pow10(b))) by (nonlinear_arith)
            requires
                pow10(a) == 10 * pow10(a - 1),
        ;
    }
}

/// The decimal string of the `w` lowest digits of `n`, zero-padded to width `w`.
pub fn u64_to_string_width(n: u64, w: u8) -> (r: String)
    ensures
        r@ == dec_str_width(n as int, w as int),
    decreases w,
{
    if w == 0 {
        let r = String::new();
        proof {
            assert(r@ =~= dec_str_width(n as int, 0));
        }
        r
    } else {
        let mut s = u64_to_string_width(n / 10, w - 1);
        s.append(digit_str(n % 10));
        proof {
            assert(dec_str_width(n as int, w as int) =~= dec_str_width((n / 10) as int, w
                as int - 1).push(digit_char((n % 10) as int)));
        }
        s
    }
}

/// `v` rounded (half away from zero) to `decimals` fractional digits, still
/// scaled by `SCALE`.
pub open spec fn round_to(v: int, decimals: int) -> int {
    let step = pow10(FRAC_DIGITS as int - decimals);
    ((v + step / 2) / step) * step
}

/// Digit string with trailing zeros removed.
pub open spec fn trim_zeros(s: Seq<char>) -> Seq<char>
    decreases s.len(),
{
    if s.len() > 0 && s.last() == '0' {
        trim_zeros(s.drop_last())
    } else {
        s
    }
}

/// The canonical decimal string of `v` rounded to `decimals` fractional
/// digits: integer digits, then a dot and the fractional digits with
/// trailing zeros dropped, or no dot at all when the fraction is zero.
pub open spec fn spec_format_fixed(v: int, decimals: int) -> Seq<char> {
    let r = round_to(v, decimals);
    let q = r / SCALE as int;
    let f = r % SCALE as int;
    if f == 0 {
        dec_str(q)
    } else {
        dec_str(q) + seq!['.'] + trim_zeros(dec_str_width(f, FRAC_DIGITS as int))
    }
}

proof fn lemma_trim_step(n: int, w: int)
    requires
        w > 0,
        n >= 0,
        n % 10 == 0,
    ensures
        trim_zeros(dec_str_width(n, w)) == trim_zeros(dec_str_width(n / 10, w - 1)),
{
    assert(dec_str_width(n, w).last() == digit_char(n % 10));
    assert(dec_str_width(n, w).drop_last() =~= dec_str_width(n / 10, w - 1));
}

proof fn lemma_trim_stop(n: int, w: int)
    requires
        w > 0,
        n >= 0,
        n % 10 != 0,
    ensures
        trim_zeros(dec_str_width(n, w)) == dec_str_width(n, w),
{
    assert(dec_str_width(n, w).last() == digit_char(n % 10));
    assert(digit_char(n % 10) != '0');
}

/// Formats a fixed-point value rounded to `decimals` fractional digits, the
/// way a floating-point print would: minimal digits, no trailing zeros.
pub fn format_fixed(v: u64, decimals: u8) -> (r: String)
    requires
        decimals <= FRAC_DIGITS,
    ensures
        r@ == spec_format_fixed(v as int, decimals as int),
{
    proof {
        reveal_pow10_small();
    }
    let step: u64 = pow10_u64(FRAC_DIGITS - decimals);
    let vh: u128 = v as u128 + (step / 2) as u128;
    let quot: u128 = vh / (step as u128);
    proof {
        assert(quot as int * step as int <= vh as int) by (nonlinear_arith)
            requires
                quot as int == vh as int / step as int,
                step as int >= 1,
                vh as int >= 0,
        ;
    }
    let rounded: u128 = quot * (step as u128);
    proof {
        assert(rounded as int == round_to(v as int, decimals as int));
    }
    let q: u64 = (rounded / SCALE as u128) as u64;
    let f: u64 = (rounded % SCALE as u128) as u64;
    let mut out = u64_to_string(q);
    if f == 0 {
        out
    } else {
        out.append(".");
        let mut fc: u64 = f;
        let mut w: u8 = FRAC_DIGITS;
        proof {
            assert(fc as int * pow10(8 - w as int) == f);
        }
        while w > 0 && fc % 10 == 0
            invariant
                0 <= w <= 8,
                fc as int * pow10(8 - w as int) == f,
                (fc as int) < pow10(w as int),
                0 < f < SCALE,
                trim_zeros(dec_str_width(f as int, 8)) == trim_zeros(
                    dec_str_width(fc as int, w as int),
                ),
            decreases w,
        {
            proof {
                lemma_trim_step(fc as int, w as int);
                lemma_pow10_le(8 - w as int, 8);
                assert((fc as int / 10) * pow10(8 - (w as int - 1)) == f) by (nonlinear_arith)
                    requires
                        fc as int * pow10(8 - w as int) == f,
                        fc % 10 == 0,
                        pow10(8 - (w as int - 1)) == 10 * pow10(8 - w as int),
                        w as int >= 1,
                ;
                assert(pow10(8 - (w as int - 1)) == 10 * pow10(8 - w as int)) by {
                    assert(8 - (w as int - 1) == (8 - w as int) + 1);
                }
                assert((fc as int / 10) < pow10(w as int - 1)) by (nonlinear_arith)
                    requires
                        (fc as int) < pow10(w as int),
                        pow10(w as int) == 10 * pow10(w as int - 1),
                        fc % 10 == 0,
                        fc >= 0,
                ;
            }
            fc = fc / 10;
            w = w - 1;
        }
        proof {
            if w == 0 {
                reveal_pow10_small();
                assert(fc == 0);
                assert(f == 0);
            }
            lemma_trim_stop(fc as int, w as int);
        }
        let frac = u64_to_string_width(fc, w);
        out.append(frac.as_str());
        proof {
            reveal_strlit(".");
            assert(out@ =~= spec_format_fixed(v as int, decimals as int));
        }
        out
    }
}

} // verus!
