//! Exact fixed-point decimal prices.
//!
//! Every price, volume and percentage reaches the engine as a decimal string
//! (for example `"3.43"` or `"0.00001"`).  The engine holds such a value as a
//! count of *atoms*: fixed-point units of `10^-8`, so `"3.43"` is
//! `343_000_000` atoms.  Parsing accepts strings of decimal digits with at
//! most one `.`; fraction digits beyond the eighth are truncated.  Formatting
//! renders the canonical form back: no leading zeros beyond a single `0`
//! integer part, no trailing fraction zeros, no `.` when the fraction is zero.

use vstd::prelude::*;
use vstd::arithmetic::mul::{
    lemma_mul_inequality, lemma_mul_nonnegative, lemma_mul_is_commutative, lemma_mul_is_associative,
    lemma_mul_is_distributive_add_other_way,
};
use vstd::string::StringExecFns;
use vstd::string::StrSliceExecFns;

verus! {

/// Atoms in one unit: eight decimal places of precision.
pub const SCALE: u64 = 100_000_000;

pub open spec fn spec_digit(c: char) -> Option<int> {
    if c == '0' {
        Some(0int)
    } else if c == '1' {
        Some(1int)
    } else if c == '2' {
        Some(2int)
    } else if c == '3' {
        Some(3int)
    } else if c == '4' {
        Some(4int)
    } else if c == '5' {
        Some(5int)
    } else if c == '6' {
        Some(6int)
    } else if c == '7' {
        Some(7int)
    } else if c == '8' {
        Some(8int)
    } else if c == '9' {
        Some(9int)
    } else {
        None
    }
}

pub open spec fn is_digit(c: char) -> bool {
    spec_digit(c) is Some
}

pub open spec fn digit_val(c: char) -> int {
    match spec_digit(c) {
        Some(d) => d,
        None => 0,
    }
}

pub open spec fn is_digit_seq(s: Seq<char>) -> bool {
    forall|i: int| 0 <= i < s.len() ==> is_digit(#[trigger] s[i])
}

/// Value of a string of decimal digits, most significant first.
pub open spec fn digits_val(s: Seq<char>) -> int
    decreases s.len(),
{
    if s.len() == 0 {
        0
    } else {
        digits_val(s.drop_last()) * 10 + digit_val(s.last())
    }
}

pub open spec fn pow10(n: nat) -> int
    decreases n,
{
    if n == 0 {
        1
    } else {
        10 * pow10((n - 1) as nat)
    }
}

/// Atoms contributed by the fraction digits: the first eight count,
/// shorter fractions are padded with zeros, longer ones truncated.
pub open spec fn frac_atoms(fp: Seq<char>) -> int {
    if fp.len() <= 8 {
        digits_val(fp) * pow10((8 - fp.len()) as nat)
    } else {
        digits_val(fp.take(8))
    }
}

pub open spec fn has_dot(s: Seq<char>) -> bool {
    exists|i: int| 0 <= i < s.len() && s[i] == '.'
}

/// Unbounded value, in atoms, of a decimal string; `None` when the string is
/// not a decimal: it must hold only digits and at most one `.`, and at least
/// one digit.
pub open spec fn spec_price_val(s: Seq<char>) -> Option<int> {
    if has_dot(s) {
        let i = choose|i: int| 0 <= i < s.len() && s[i] == '.';
        let ip = s.subrange(0, i);
        let fp = s.subrange(i + 1, s.len() as int);
        if is_digit_seq(ip) && is_digit_seq(fp) && s.len() >= 2 {
            Some(digits_val(ip) * SCALE + frac_atoms(fp))
        } else {
            None
        }
    } else if s.len() > 0 && is_digit_seq(s) {
        Some(digits_val(s) * SCALE)
    } else {
        None
    }
}

/// Value of a decimal string as atoms, `None` when malformed or out of range.
pub open spec fn spec_price(s: Seq<char>) -> Option<u64> {
    match spec_price_val(s) {
        Some(v) => if 0 <= v <= u64::MAX {
            Some(v as u64)
        } else {
            None
        },
        None => None,
    }
}

proof fn lemma_digits_val_nonneg(s: Seq<char>)
    requires
        is_digit_seq(s),
    ensures
        digits_val(s) >= 0,
    decreases s.len(),
{
    if s.len() > 0 {
        assert(is_digit_seq(s.drop_last()));
        lemma_digits_val_nonneg(s.drop_last());
    }
}

proof fn lemma_pow10_pos(n: nat)
    ensures
        pow10(n) >= 1,
    decreases n,
{
    if n > 0 {
        lemma_pow10_pos((n - 1) as nat);
    }
}

proof fn lemma_digits_val_bound(s: Seq<char>)
    requires
        is_digit_seq(s),
    ensures
        digits_val(s) < pow10(s.len()),
    decreases s.len(),
{
    if s.len() == 0 {
    } else {
        assert(is_digit_seq(s.drop_last()));
        lemma_digits_val_bound(s.drop_last());
        lemma_digits_val_nonneg(s.drop_last());
        assert(digit_val(s.last()) <= 9);
        assert(digits_val(s.drop_last()) <= pow10(s.drop_last().len()) - 1);
        assert(pow10(s.len()) == 10 * pow10(s.drop_last().len()));
    }
}

/// A prefix of a digit string never exceeds the whole string's value.
proof fn lemma_digits_val_prefix(s: Seq<char>, i: int)
    requires
        is_digit_seq(s),
        0 <= i <= s.len(),
    ensures
        digits_val(s.take(i)) <= digits_val(s),
    decreases s.len() - i,
{
    if i == s.len() {
        assert(s.take(i) =~= s);
    } else {
        lemma_digits_val_prefix(s, i + 1);
        let t = s.take(i + 1);
        assert(is_digit_seq(t));
        assert(t.drop_last() =~= s.take(i));
        lemma_digits_val_nonneg(s.take(i));
        assert(digits_val(t) == digits_val(s.take(i)) * 10 + digit_val(t.last()));
    }
}

proof fn lemma_pow10_adds(a: nat, b: nat)
    ensures
        pow10(a) * pow10(b) == pow10(a + b),
    decreases a,
{
    if a == 0 {
    } else {
        lemma_pow10_adds((a - 1) as nat, b);
        assert(pow10(a) * pow10(b) == 10 * pow10((a - 1) as nat) * pow10(b));
        lemma_mul_is_associative(10, pow10((a - 1) as nat), pow10(b));
    }
}

/// A character that is neither a digit nor `.` makes the string malformed.
proof fn lemma_spec_price_invalid(s: Seq<char>, p: int)
    requires
        0 <= p < s.len(),
        !is_digit(s[p]),
        s[p] != '.',
    ensures
        spec_price_val(s) is None,
{
    if has_dot(s) {
        let i = choose|i: int| 0 <= i < s.len() && s[i] == '.';
        if p < i {
            let ip = s.subrange(0, i);
            assert(ip[p] == s[p]);
            assert(!is_digit_seq(ip));
        } else {
            let fp = s.subrange(i + 1, s.len() as int);
            assert(fp[p - i - 1] == s[p]);
            assert(!is_digit_seq(fp));
        }
    }
}

/// Two distinct dots make the string malformed.
proof fn lemma_spec_price_two_dots(s: Seq<char>, d1: int, d2: int)
    requires
        0 <= d1 < s.len(),
        0 <= d2 < s.len(),
        d1 != d2,
        s[d1] == '.',
        s[d2] == '.',
    ensures
        spec_price_val(s) is None,
{
    assert(has_dot(s));
    let i = choose|i: int| 0 <= i < s.len() && s[i] == '.';
    let o = if d1 == i {
        d2
    } else {
        d1
    };
    assert(s[o] == '.' && o != i);
    if o < i {
        let ip = s.subrange(0, i);
        assert(ip[o] == '.');
        assert(!is_digit(ip[o]));
        assert(!is_digit_seq(ip));
    } else {
        let fp = s.subrange(i + 1, s.len() as int);
        assert(fp[o - i - 1] == '.');
        assert(!is_digit(fp[o - i - 1]));
        assert(!is_digit_seq(fp));
    }
}

/// Well-formed shape found by the scanner: all digits but for the one
/// optional dot.
pub open spec fn wf_decimal(s: Seq<char>, dot: Option<int>) -> bool {
    match dot {
        None => is_digit_seq(s),
        Some(d) => 0 <= d < s.len() && s[d] == '.' && is_digit_seq(s.subrange(0, d))
            && is_digit_seq(s.subrange(d + 1, s.len() as int)),
    }
}

/// A well-formed string takes the spec branch its dot dictates.
proof fn lemma_wf_spec_price(s: Seq<char>, dot: Option<int>)
    requires
        wf_decimal(s, dot),
    ensures
        match dot {
            None => if s.len() == 0 {
                spec_price_val(s) is None
            } else {
                spec_price_val(s) == Some(digits_val(s) * SCALE)
            },
            Some(d) => if s.len() < 2 {
                spec_price_val(s) is None
            } else {
                spec_price_val(s) == Some(
                    digits_val(s.subrange(0, d)) * SCALE + frac_atoms(
                        s.subrange(d + 1, s.len() as int),
                    ),
                )
            },
        },
{
    match dot {
        None => {
            assert(forall|i: int| 0 <= i < s.len() ==> is_digit(#[trigger] s[i]) && s[i] != '.');
            assert(!has_dot(s));
        },
        Some(d) => {
            assert(has_dot(s));
            let i = choose|i: int| 0 <= i < s.len() && s[i] == '.';
            if i != d {
                if i < d {
                    let ip = s.subrange(0, d);
                    assert(ip[i] == '.');
                    assert(is_digit(ip[i]));
                    assert(false);
                } else {
                    let fp = s.subrange(d + 1, s.len() as int);
                    assert(fp[i - d - 1] == '.');
                    assert(is_digit(fp[i - d - 1]));
                    assert(false);
                }
            }
        },
    }
}

/// Decodes one decimal digit.
fn digit_of(c: char) -> (r: Option<u8>)
    ensures
        match r {
            Some(d) => spec_digit(c) == Some(d as int),
            None => spec_digit(c) is None,
        },
{
    match c {
        '0' => Some(0u8),
        '1' => Some(1u8),
        '2' => Some(2u8),
        '3' => Some(3u8),
        '4' => Some(4u8),
        '5' => Some(5u8),
        '6' => Some(6u8),
        '7' => Some(7u8),
        '8' => Some(8u8),
        '9' => Some(9u8),
        _ => None,
    }
}

/// Finds the dot, if any, and checks every other character is a digit.
/// `None` means the string cannot be a decimal at all.
fn scan_decimal(s: &str) -> (r: Option<Option<usize>>)
    ensures
        match r {
            Some(dot) => wf_decimal(
                s@,
                match dot {
                    Some(d) => Some(d as int),
                    None => None,
                },
            ) && (dot matches Some(d) ==> d < s@.len()),
            None => spec_price_val(s@) is None,
        },
{
    let n = s.unicode_len();
    let mut i: usize = 0;
    let mut dot: Option<usize> = None;
    while i < n
        invariant
            i <= n,
            n == s@.len(),
            match dot {
                None => forall|j: int| 0 <= j < i ==> is_digit(#[trigger] s@[j]),
                Some(d) => d < i && s@[d as int] == '.' && forall|j: int|
                    0 <= j < i && j != d ==> is_digit(#[trigger] s@[j]),
            },
        decreases n - i,
    {
        let c = s.get_char(i);
        match digit_of(c) {
            Some(_) => {},
            None => {
                if c == '.' {
                    match dot {
                        None => {
                            dot = Some(i);
                        },
                        Some(d) => {
                            proof {
                                lemma_spec_price_two_dots(s@, d as int, i as int);
                            }
                            return None;
                        },
                    }
                } else {
                    proof {
                        lemma_spec_price_invalid(s@, i as int);
                    }
                    return None;
                }
            },
        }
        i = i + 1;
    }
    proof {
        match dot {
            None => {
                assert(is_digit_seq(s@));
            },
            Some(d) => {
                assert(is_digit_seq(s@.subrange(0, d as int)));
                assert(is_digit_seq(s@.subrange(d + 1, s@.len() as int)));
            },
        }
    }
    Some(dot)
}

/// Value of the digits `s[0..end]`, or `None` as soon as it cannot fit the
/// 64-bit range once scaled.
fn digits_to_value(s: &str, end: usize) -> (r: Option<u64>)
    requires
        end <= s@.len(),
        is_digit_seq(s@.subrange(0, end as int)),
    ensures
        match r {
            Some(v) => v == digits_val(s@.subrange(0, end as int)),
            None => digits_val(s@.subrange(0, end as int)) > u64::MAX,
        },
{
    let ghost whole = s@.subrange(0, end as int);
    let mut acc: u64 = 0;
    let mut i: usize = 0;
    while i < end
        invariant
            i <= end,
            end <= s@.len(),
            is_digit_seq(whole),
            whole == s@.subrange(0, end as int),
            acc == digits_val(whole.take(i as int)),
        decreases end - i,
    {
        let c = s.get_char(i);
        assert(whole[i as int] == s@[i as int]);
        let d = digit_of(c).unwrap();
        proof {
            let t = whole.take(i + 1);
            assert(t.drop_last() =~= whole.take(i as int));
            assert(t.last() == whole[i as int]);
            lemma_digits_val_nonneg(whole.take(i as int));
        }
        if acc > (u64::MAX - d as u64) / 10 {
            proof {
                lemma_digits_val_prefix(whole, i + 1);
            }
            return None;
        }
        acc = acc * 10 + d as u64;
        i = i + 1;
    }
    assert(whole.take(end as int) =~= whole);
    Some(acc)
}

/// Ten to the `e`, for the at most eight fraction places.
fn pow10_u64(e: usize) -> (r: u64)
    requires
        e <= 8,
    ensures
        r == pow10(e as nat),
{
    let mut r: u64 = 1;
    let mut k: usize = 0;
    while k < e
        invariant
            k <= e <= 8,
            r == pow10(k as nat),
        decreases e - k,
    {
        proof {
            lemma_pow10_pos(k as nat);
            assert(pow10((k + 1) as nat) == 10 * pow10(k as nat));
            lemma_pow10_monotone(k as nat, 7nat);
            lemma_pow10_values();
        }
        r = r * 10;
        k = k + 1;
    }
    r
}

proof fn lemma_pow10_monotone(a: nat, b: nat)
    requires
        a <= b,
    ensures
        pow10(a) <= pow10(b),
    decreases b,
{
    if a < b {
        lemma_pow10_monotone(a, (b - 1) as nat);
        lemma_pow10_pos((b - 1) as nat);
    }
}

proof fn lemma_pow10_values()
    ensures
        pow10(7) == 10_000_000,
        pow10(8) == 100_000_000,
{
    reveal_with_fuel(pow10, 9);
}

/// Atoms of the fraction digits `s[start..]`.
#[verifier::rlimit(30)]
#[verifier::spinoff_prover]
fn frac_to_value(s: &str, start: usize) -> (r: u64)
    requires
        start <= s@.len(),
        is_digit_seq(s@.subrange(start as int, s@.len() as int)),
    ensures
        r == frac_atoms(s@.subrange(start as int, s@.len() as int)),
        r < 100_000_000,
{
    let ghost fp = s@.subrange(start as int, s@.len() as int);
    let n = s.unicode_len();
    let width = if n - start > 8 {
        8
    } else {
        n - start
    };
    let mut acc: u64 = 0;
    let mut k: usize = 0;
    while k < width
        invariant
            k <= width <= 8,
            n == s@.len(),
            start <= n,
            width <= n - start,
            start + fp.len() == s@.len(),
            is_digit_seq(fp),
            fp == s@.subrange(start as int, s@.len() as int),
            acc == digits_val(fp.take(k as int)),
            acc < pow10(k as nat),
        decreases width - k,
    {
        let c = s.get_char(start + k);
        assert(fp[k as int] == s@[start + k]);
        let d = digit_of(c).unwrap();
        proof {
            let t = fp.take(k + 1);
            assert(t.drop_last() =~= fp.take(k as int));
            assert(t.last() == fp[k as int]);
            lemma_digits_val_nonneg(fp.take(k as int));
            lemma_pow10_monotone(k as nat, 7nat);
            lemma_pow10_values();
        }
        acc = acc * 10 + d as u64;
        k = k + 1;
    }
    proof {
        lemma_pow10_values();
    }
    if width < 8 {
        // fraction shorter than eight places: pad with zeros
        assert(fp.take(width as int) =~= fp);
        let pad = pow10_u64(8 - width);
        proof {
            lemma_digits_val_nonneg(fp);
            lemma_pow10_pos((8 - width) as nat);
            lemma_pow10_adds(width as nat, (8 - width) as nat);
            lemma_mul_inequality(
                digits_val(fp) + 1,
                pow10(width as nat),
                pow10((8 - width) as nat),
            );
            lemma_mul_is_distributive_add_other_way(
                pow10((8 - width) as nat),
                digits_val(fp),
                1,
            );
        }
        acc * pad
    } else {
        assert(acc == digits_val(fp.take(8)));
        if n - start == 8 {
            assert(fp.take(8) =~= fp);
        }
        acc
    }
}

/// Parses a decimal string into atoms.
///
/// Returns `Some` exactly when the string holds only decimal digits and at
/// most one `.`, has at least one digit, and its value fits; fraction digits
/// beyond the eighth place are truncated.
pub fn parse_price(s: &str) -> (r: Option<u64>)
    ensures
        r == spec_price(s@),
{
    let n = s.unicode_len();
    let dot = match scan_decimal(s) {
        Some(dot) => dot,
        None => {
            return None;
        },
    };
    proof {
        lemma_wf_spec_price(
            s@,
            match dot {
                Some(d) => Some(d as int),
                None => None,
            },
        );
    }
    let int_end = match dot {
        Some(d) => d,
        None => n,
    };
    if int_end == n && n == 0 {
        return None;
    }
    if int_end != n && n < 2 {
        return None;
    }
    proof {
        if dot is None {
            assert(s@.subrange(0, n as int) =~= s@);
        }
    }
    let ip = match digits_to_value(s, int_end) {
        Some(v) => v,
        None => {
            proof {
                lemma_frac_and_units_bound(s@, dot, int_end as int);
            }
            return None;
        },
    };
    let frac = match dot {
        Some(d) => frac_to_value(s, d + 1),
        None => 0,
    };
    let total: u128 = ip as u128 * SCALE as u128 + frac as u128;
    proof {
        lemma_frac_and_units_bound(s@, dot, int_end as int);
        lemma_mul_nonnegative(ip as int, SCALE as int);
    }
    if total > u64::MAX as u128 {
        None
    } else {
        Some(total as u64)
    }
}

/// Value of a plain digit string, `None` when empty, not all digits, or out
/// of the 64-bit range.
pub open spec fn spec_integer(s: Seq<char>) -> Option<u64> {
    if s.len() > 0 && is_digit_seq(s) && digits_val(s) <= u64::MAX {
        Some(digits_val(s) as u64)
    } else {
        None
    }
}

/// Parses a string of decimal digits into its value.
pub fn parse_integer(s: &str) -> (r: Option<u64>)
    ensures
        r == spec_integer(s@),
{
    let n = s.unicode_len();
    if n == 0 {
        return None;
    }
    let mut acc: u64 = 0;
    let mut i: usize = 0;
    while i < n
        invariant
            i <= n,
            n == s@.len(),
            is_digit_seq(s@.take(i as int)),
            acc == digits_val(s@.take(i as int)),
        decreases n - i,
    {
        let c = s.get_char(i);
        let d = match digit_of(c) {
            Some(d) => d,
            None => {
                assert(!is_digit(s@[i as int]));
                assert(!is_digit_seq(s@));
                return None;
            },
        };
        proof {
            let t = s@.take(i + 1);
            assert(t.drop_last() =~= s@.take(i as int));
            assert(t.last() == s@[i as int]);
            lemma_digits_val_nonneg(s@.take(i as int));
        }
        if acc > (u64::MAX - d as u64) / 10 {
            proof {
                assert(s@.take(n as int) =~= s@);
                if is_digit_seq(s@) {
                    lemma_digits_val_prefix(s@, i + 1);
                }
            }
            return None;
        }
        acc = acc * 10 + d as u64;
        i = i + 1;
    }
    proof {
        assert(s@.take(n as int) =~= s@);
    }
    Some(acc)
}

/// Decimal digit character of `d`.
pub open spec fn digit_char(d: int) -> char {
    if d == 0 {
        '0'
    } else if d == 1 {
        '1'
    } else if d == 2 {
        '2'
    } else if d == 3 {
        '3'
    } else if d == 4 {
        '4'
    } else if d == 5 {
        '5'
    } else if d == 6 {
        '6'
    } else if d == 7 {
        '7'
    } else if d == 8 {
        '8'
    } else {
        '9'
    }
}

/// Decimal rendering of `n`, most significant digit first, no leading zeros
/// (a single `0` for zero).
pub open spec fn dec_str(n: nat) -> Seq<char>
    decreases n,
{
    if n < 10 {
        seq![digit_char(n as int)]
    } else {
        dec_str(n / 10).push(digit_char((n % 10) as int))
    }
}

/// Fixed-width decimal rendering: exactly `w` digits, zero padded.
pub open spec fn dec_fixed(n: nat, w: nat) -> Seq<char>
    decreases w,
{
    if w == 0 {
        Seq::empty()
    } else {
        dec_fixed(n / 10, (w - 1) as nat).push(digit_char((n % 10) as int))
    }
}

/// Drops trailing `'0'` characters.
pub open spec fn strip_zeros(s: Seq<char>) -> Seq<char>
    decreases s.len(),
{
    if s.len() > 0 && s.last() == '0' {
        strip_zeros(s.drop_last())
    } else {
        s
    }
}

/// Canonical decimal string of a count of atoms: integer part without leading
/// zeros, then, when the fraction is not zero, a dot and the fraction without
/// trailing zeros.
pub open spec fn spec_format_price(a: nat) -> Seq<char> {
    let ip = a / (SCALE as nat);
    let fp = a % (SCALE as nat);
    if fp == 0 {
        dec_str(ip)
    } else {
        dec_str(ip) + seq!['.'] + strip_zeros(dec_fixed(fp, 8))
    }
}

proof fn lemma_digit_char_val(d: int)
    requires
        0 <= d <= 9,
    ensures
        is_digit(digit_char(d)),
        digit_val(digit_char(d)) == d,
        d != 0 ==> digit_char(d) != '0',
{
}

proof fn lemma_dec_str_digits(n: nat)
    ensures
        dec_str(n).len() >= 1,
        is_digit_seq(dec_str(n)),
        digits_val(dec_str(n)) == n,
    decreases n,
{
    if n < 10 {
        lemma_digit_char_val(n as int);
        let s = dec_str(n);
        assert(s =~= seq![digit_char(n as int)]);
        assert(s.drop_last() =~= Seq::<char>::empty());
        assert(s.last() == digit_char(n as int));
        assert(digits_val(s) == digits_val(s.drop_last()) * 10 + digit_val(s.last()));
        assert(digits_val(s) == n);
    } else {
        lemma_dec_str_digits(n / 10);
        lemma_digit_char_val((n % 10) as int);
        let s = dec_str(n);
        assert(s =~= dec_str(n / 10).push(digit_char((n % 10) as int)));
        assert(s.drop_last() =~= dec_str(n / 10));
        assert(s.last() == digit_char((n % 10) as int));
        assert(digits_val(s) == digits_val(s.drop_last()) * 10 + digit_val(s.last()));
        assert(digits_val(s) == (n / 10) * 10 + n % 10);
        assert(forall|i: int|
            0 <= i < s.len() ==> #[trigger] s[i] == if i < s.len() - 1 {
                dec_str(n / 10)[i]
            } else {
                digit_char((n % 10) as int)
            });
    }
}

proof fn lemma_dec_fixed_digits(n: nat, w: nat)
    requires
        n < pow10(w),
    ensures
        dec_fixed(n, w).len() == w,
        is_digit_seq(dec_fixed(n, w)),
        digits_val(dec_fixed(n, w)) == n,
    decreases w,
{
    if w == 0 {
    } else {
        assert(pow10(w) == 10 * pow10((w - 1) as nat));
        lemma_dec_fixed_digits(n / 10, (w - 1) as nat);
        lemma_digit_char_val((n % 10) as int);
        let s = dec_fixed(n, w);
        assert(s =~= dec_fixed(n / 10, (w - 1) as nat).push(digit_char((n % 10) as int)));
        assert(s.drop_last() =~= dec_fixed(n / 10, (w - 1) as nat));
        assert(forall|i: int|
            0 <= i < s.len() ==> #[trigger] s[i] == if i < s.len() - 1 {
                dec_fixed(n / 10, (w - 1) as nat)[i]
            } else {
                digit_char((n % 10) as int)
            });
    }
}

proof fn lemma_strip_zeros_val(x: Seq<char>)
    requires
        is_digit_seq(x),
    ensures
        is_digit_seq(strip_zeros(x)),
        strip_zeros(x).len() <= x.len(),
        digits_val(x) == digits_val(strip_zeros(x)) * pow10((x.len() - strip_zeros(x).len()) as nat),
    decreases x.len(),
{
    if x.len() > 0 && x.last() == '0' {
        assert(is_digit_seq(x.drop_last()));
        lemma_strip_zeros_val(x.drop_last());
        let st = strip_zeros(x);
        assert(st == strip_zeros(x.drop_last()));
        assert(digit_val(x.last()) == 0);
        assert(digits_val(x) == digits_val(x.drop_last()) * 10);
        let k = (x.drop_last().len() - st.len()) as nat;
        assert(digits_val(x.drop_last()) == digits_val(st) * pow10(k));
        assert(digits_val(x) == digits_val(st) * pow10(k) * 10);
        lemma_mul_is_associative(digits_val(st), pow10(k), 10);
        lemma_mul_is_commutative(pow10(k), 10);
        assert(pow10(k + 1) == 10 * pow10(k));
        lemma_mul_is_associative(digits_val(st), 10, pow10(k));
    } else {
        assert(digits_val(x) == digits_val(x) * 1);
    }
}

/// A canonical decimal string parses back to the atoms it was rendered from:
/// formatting loses nothing.
pub proof fn lemma_format_parse_round_trip(a: nat)
    requires
        a <= u64::MAX,
    ensures
        spec_price(spec_format_price(a)) == Some(a as u64),
{
    let ip = a / (SCALE as nat);
    let fp = a % (SCALE as nat);
    lemma_dec_str_digits(ip);
    let head = dec_str(ip);
    if fp == 0 {
        let s = spec_format_price(a);
        assert(s == head);
        assert(forall|i: int| 0 <= i < s.len() ==> is_digit(#[trigger] s[i]) && s[i] != '.');
        assert(wf_decimal(s, None));
        lemma_wf_spec_price(s, None);
        assert(spec_price_val(s) == Some(digits_val(s) * SCALE));
        assert(digits_val(s) * SCALE == a);
    } else {
        lemma_pow10_values();
        lemma_dec_fixed_digits(fp, 8);
        let fixed = dec_fixed(fp, 8);
        lemma_strip_zeros_val(fixed);
        let tail = strip_zeros(fixed);
        let s = spec_format_price(a);
        assert(s == head + seq!['.'] + tail);
        let d = head.len() as int;
        assert(s.len() == head.len() + 1 + tail.len());
        assert(s[d] == '.');
        assert(s.subrange(0, d) =~= head);
        assert(s.subrange(d + 1, s.len() as int) =~= tail);
        assert(wf_decimal(s, Some(d)));
        lemma_wf_spec_price(s, Some(d));
        assert(spec_price_val(s) == Some(digits_val(head) * SCALE + frac_atoms(tail)));
        // the stripped fraction still carries the same atoms
        let k = (8 - tail.len()) as nat;
        assert(fp == digits_val(tail) * pow10(k));
        assert(tail.len() <= 8);
        assert(frac_atoms(tail) == digits_val(tail) * pow10(k));
        assert(digits_val(head) * SCALE + frac_atoms(tail) == a);
    }
}

/// One decimal digit as a string.
fn digit_str(d: u8) -> (r: String)
    requires
        d < 10,
    ensures
        r@ == seq![digit_char(d as int)],
{
    let t: &str = match d {
        0 => "0",
        1 => "1",
        2 => "2",
        3 => "3",
        4 => "4",
        5 => "5",
        6 => "6",
        7 => "7",
        8 => "8",
        _ => "9",
    };
    proof {
        reveal_strlit("0");
        reveal_strlit("1");
        reveal_strlit("2");
        reveal_strlit("3");
        reveal_strlit("4");
        reveal_strlit("5");
        reveal_strlit("6");
        reveal_strlit("7");
        reveal_strlit("8");
        reveal_strlit("9");
        assert(t@ =~= seq![digit_char(d as int)]);
    }
    String::from_str(t)
}

/// Decimal rendering of an unsigned value.
pub fn u128_to_string(n: u128) -> (s: String)
    ensures
        s@ == dec_str(n as nat),
{
    let mut m = n;
    let mut acc = String::new();
    loop
        invariant_except_break
            (acc@.len() == 0 && m == n) || (acc@.len() > 0 && m > 0 && dec_str(n as nat)
                == dec_str(m as nat) + acc@),
        ensures
            dec_str(n as nat) == acc@,
        decreases m,
    {
        let d = (m % 10) as u8;
        let ds = digit_str(d);
        proof {
            let dm = m as nat;
            if m >= 10 {
                assert(dec_str(dm) == dec_str(dm / 10).push(digit_char((dm % 10) as int)));
                assert(dec_str(dm / 10).push(digit_char((dm % 10) as int)) =~= dec_str(dm / 10)
                    + seq![digit_char((dm % 10) as int)]);
            } else {
                assert(dec_str(dm) =~= seq![digit_char((dm % 10) as int)]);
            }
            if acc@.len() > 0 {
                assert((dec_str(dm / 10) + seq![digit_char((dm % 10) as int)]) + acc@
                    =~= dec_str(dm / 10) + (seq![digit_char((dm % 10) as int)] + acc@));
            }
        }
        acc = ds.concat(acc.as_str());
        m = m / 10;
        if m == 0 {
            proof {
                assert(dec_str(n as nat) =~= acc@);
            }
            break;
        }
        proof {
            assert(dec_str(n as nat) =~= dec_str(m as nat) + acc@);
        }
    }
    acc
}

/// The fraction, eight places wide, with trailing zeros removed.
fn frac_string(fp: u64) -> (r: String)
    requires
        0 < fp < 100_000_000,
    ensures
        r@ == strip_zeros(dec_fixed(fp as nat, 8)),
{
    let mut m = fp;
    let mut w: usize = 8;
    proof {
        lemma_pow10_values();
    }
    while m % 10 == 0
        invariant
            1 <= w <= 8,
            m > 0,
            m < pow10(w as nat),
            strip_zeros(dec_fixed(fp as nat, 8)) =~= strip_zeros(dec_fixed(m as nat, w as nat)),
        decreases w,
    {
        proof {
            assert(pow10(1) == 10) by {
                reveal_with_fuel(pow10, 2);
            }
            if w == 1 {
                assert(m < 10);
                assert(m % 10 == m);
                assert(false);
            }
            let dm = m as nat;
            let dw = w as nat;
            assert(dec_fixed(dm, dw) == dec_fixed(dm / 10, (dw - 1) as nat).push(
                digit_char((dm % 10) as int),
            ));
            assert(dec_fixed(dm, dw).last() == '0');
            assert(strip_zeros(dec_fixed(dm, dw)) == strip_zeros(dec_fixed(dm, dw).drop_last()));
            assert(dec_fixed(dm, dw).drop_last() =~= dec_fixed(dm / 10, (dw - 1) as nat));
            assert(pow10(dw) == 10 * pow10((dw - 1) as nat));
        }
        m = m / 10;
        w = w - 1;
    }
    // the lowest digit kept is not zero, so nothing more is stripped
    proof {
        let dm = m as nat;
        let dw = w as nat;
        assert(dec_fixed(dm, dw) == dec_fixed(dm / 10, (dw - 1) as nat).push(
            digit_char((dm % 10) as int),
        ));
        assert(dec_fixed(dm, dw).last() != '0');
        assert(strip_zeros(dec_fixed(dm, dw)) == dec_fixed(dm, dw));
    }
    let ghost target = dec_fixed(m as nat, w as nat);
    let mut acc = String::new();
    let mut mm = m;
    let mut k = w;
    while k > 0
        invariant
            k <= w <= 8,
            target == dec_fixed(m as nat, w as nat),
            target =~= dec_fixed(mm as nat, k as nat) + acc@,
        decreases k,
    {
        let d = (mm % 10) as u8;
        let ds = digit_str(d);
        proof {
            let dm = mm as nat;
            let dk = k as nat;
            assert(dec_fixed(dm, dk) == dec_fixed(dm / 10, (dk - 1) as nat).push(
                digit_char((dm % 10) as int),
            ));
            assert(dec_fixed(dm, dk) + acc@ =~= dec_fixed(dm / 10, (dk - 1) as nat) + (seq![
                digit_char((dm % 10) as int),
            ] + acc@));
        }
        acc = ds.concat(acc.as_str());
        mm = mm / 10;
        k = k - 1;
    }
    proof {
        assert(dec_fixed(mm as nat, 0) =~= Seq::<char>::empty());
        assert(acc@ =~= target);
    }
    acc
}

/// Renders a count of atoms as its canonical decimal string.
pub fn format_price(atoms: u128) -> (s: String)
    ensures
        s@ == spec_format_price(atoms as nat),
{
    let ip = atoms / (SCALE as u128);
    let fp = atoms % (SCALE as u128);
    let ips = u128_to_string(ip);
    if fp == 0 {
        ips
    } else {
        let frs = frac_string(fp as u64);
        let with_dot = ips.concat(".");
        proof {
            reveal_strlit(".");
            assert("."@ =~= seq!['.']);
        }
        with_dot.concat(frs.as_str())
    }
}

/// The scaled units and the fraction atoms are each nonnegative, so the total
/// dominates each part.
proof fn lemma_frac_and_units_bound(s: Seq<char>, dot: Option<usize>, int_end: int)
    requires
        wf_decimal(
            s,
            match dot {
                Some(d) => Some(d as int),
                None => None,
            },
        ),
        int_end == match dot {
            Some(d) => d as int,
            None => s.len() as int,
        },
    ensures
        digits_val(s.subrange(0, int_end)) >= 0,
        digits_val(s.subrange(0, int_end)) * SCALE >= digits_val(s.subrange(0, int_end)),
        match dot {
            Some(d) => frac_atoms(s.subrange(d + 1, s.len() as int)) >= 0,
            None => true,
        },
{
    let ip = s.subrange(0, int_end);
    assert(is_digit_seq(ip)) by {
        if dot is None {
            assert(ip =~= s);
        }
    }
    lemma_digits_val_nonneg(ip);
    lemma_mul_inequality(1, SCALE as int, digits_val(ip));
    lemma_mul_is_commutative(digits_val(ip), SCALE as int);
    match dot {
        Some(d) => {
            let fp = s.subrange(d + 1, s.len() as int);
            if fp.len() <= 8 {
                lemma_digits_val_nonneg(fp);
                lemma_pow10_pos((8 - fp.len()) as nat);
                lemma_mul_nonnegative(digits_val(fp), pow10((8 - fp.len()) as nat));
            } else {
                assert(is_digit_seq(fp.take(8)));
                lemma_digits_val_nonneg(fp.take(8));
            }
        },
        None => {},
    }
}

} // verus!
