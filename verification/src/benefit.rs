//! Unrealized benefit of a position.
//!
//! `benefit(basis, current) = max(0, (current - basis) / basis * 100)`, a
//! percentage.  Prices are atoms (see [`crate::decimal`]); the comparison
//! against a percentage threshold is done exactly, by cross multiplication,
//! with no rounding anywhere.

use vstd::prelude::*;
use vstd::arithmetic::mul::{
    lemma_mul_is_associative, lemma_mul_upper_bound, lemma_mul_strictly_positive,
    lemma_mul_nonnegative, lemma_mul_inequality, lemma_mul_is_commutative,
};
use vstd::arithmetic::div_mod::{
    lemma_div_pos_is_pos, lemma_fundamental_div_mod, lemma_mod_bound, lemma_div_multiples_vanish,
    lemma_div_is_ordered,
};
use crate::decimal::{
    SCALE, spec_format_price, format_price, spec_price, lemma_format_parse_round_trip,
};

verus! {

/// Gain over the basis, clamped at zero, times one hundred: the numerator of
/// the benefit percentage whose denominator is `basis`.
pub open spec fn spec_benefit_num(basis: int, current: int) -> int {
    if current <= basis {
        0
    } else {
        (current - basis) * 100
    }
}

/// The benefit percentage in atoms, floored.  A nonpositive basis carries no
/// well-defined percentage and yields zero.
pub open spec fn spec_benefit_atoms(basis: int, current: int) -> int {
    if basis <= 0 || current <= basis {
        0
    } else {
        (current - basis) * 100 * SCALE / basis
    }
}

/// Whether the benefit reaches the percentage `pct` (in atoms): the exact
/// rational comparison `(current - basis) * 100 / basis >= pct / SCALE`,
/// with the benefit clamped at zero.  A nonpositive basis carries no
/// well-defined percentage and counts as zero benefit, the same convention
/// as [`spec_benefit_atoms`].
pub open spec fn spec_benefit_ge(basis: int, current: int, pct: int) -> bool {
    if basis <= 0 {
        pct <= 0
    } else {
        spec_benefit_num(basis, current) * SCALE >= pct * basis
    }
}

/// Benefit is never negative.
pub proof fn lemma_benefit_never_negative(basis: int, current: int)
    requires
        basis > 0,
        current >= 0,
    ensures
        spec_benefit_num(basis, current) >= 0,
        spec_benefit_atoms(basis, current) >= 0,
{
    if current > basis {
        lemma_mul_nonnegative(current - basis, 100);
        lemma_mul_nonnegative((current - basis) * 100, SCALE as int);
        lemma_div_pos_is_pos((current - basis) * 100 * SCALE, basis);
    }
}

/// Benefit is exactly zero whenever the current price does not exceed the
/// basis.
pub proof fn lemma_benefit_zero_without_gain(basis: int, current: int)
    requires
        current <= basis,
    ensures
        spec_benefit_num(basis, current) == 0,
        spec_benefit_atoms(basis, current) == 0,
{
}

/// The rendered benefit decides thresholds exactly: the decimal string that
/// [`calc_benefit`] produces parses back to the floored benefit atoms, and
/// comparing a whole-atom threshold against that floor is the same as the
/// exact rational comparison.  So the pass, which hands the policy the
/// rendered string, decides exactly as [`spec_benefit_ge`] says.
#[verifier::rlimit(30)]
#[verifier::spinoff_prover]
pub proof fn lemma_rendered_benefit_decides_exactly(basis: int, current: int, pct: int)
    requires
        0 <= basis <= u64::MAX,
        0 <= current <= u64::MAX,
        0 <= pct <= u64::MAX,
        spec_benefit_atoms(basis, current) <= u64::MAX,
    ensures
        spec_price(spec_format_price(spec_benefit_atoms(basis, current) as nat)) == Some(
            spec_benefit_atoms(basis, current) as u64,
        ),
        (pct <= spec_benefit_atoms(basis, current)) == spec_benefit_ge(basis, current, pct),
{
    if basis > 0 {
        lemma_benefit_never_negative(basis, current);
    }
    lemma_format_parse_round_trip(spec_benefit_atoms(basis, current) as nat);
    if basis == 0 {
        assert(spec_benefit_atoms(basis, current) == 0);
    } else if current <= basis {
        assert(spec_benefit_atoms(basis, current) == 0);
        if pct > 0 {
            lemma_mul_strictly_positive(pct, basis);
            assert(!spec_benefit_ge(basis, current, pct));
        } else {
            assert(pct * basis == 0);
            assert(spec_benefit_ge(basis, current, pct));
        }
        assert((pct <= spec_benefit_atoms(basis, current)) == spec_benefit_ge(
            basis,
            current,
            pct,
        ));
    } else {
        let x = (current - basis) * 100 * SCALE;
        let q = x / basis;
        assert(spec_benefit_atoms(basis, current) == q);
        assert(spec_benefit_num(basis, current) * SCALE == x);
        lemma_mul_nonnegative(current - basis, 100);
        lemma_mul_nonnegative((current - basis) * 100, SCALE as int);
        lemma_fundamental_div_mod(x, basis);
        lemma_mod_bound(x, basis);
        assert(basis * q <= x);
        if pct <= q {
            lemma_mul_inequality(pct, q, basis);
            lemma_mul_is_commutative(q, basis);
            assert(pct * basis <= x);
            assert(spec_benefit_ge(basis, current, pct));
        }
        if x >= pct * basis {
            lemma_mul_is_commutative(pct, basis);
            lemma_div_multiples_vanish(pct, basis);
            lemma_div_is_ordered(pct * basis, x, basis);
            assert((pct * basis) / basis == pct);
            assert(pct <= q);
        }
        assert((pct <= q) == spec_benefit_ge(basis, current, pct));
    }
}

/// Decides `benefit(basis, current) >= pct`, exactly.
pub fn benefit_at_least(basis: u64, current: u64, pct: u64) -> (r: bool)
    ensures
        r == spec_benefit_ge(basis as int, current as int, pct as int),
{
    if basis == 0 {
        proof {
            assert(spec_benefit_ge(basis as int, current as int, pct as int) == ((pct as int)
                <= 0));
        }
        pct == 0
    } else if current <= basis {
        proof {
            if pct > 0 {
                lemma_mul_strictly_positive(pct as int, basis as int);
            }
            assert(spec_benefit_num(basis as int, current as int) == 0);
            assert(spec_benefit_num(basis as int, current as int) * SCALE == 0);
        }
        pct == 0
    } else {
        proof {
            lemma_mul_inequality((current - basis) as int, u64::MAX as int, 10_000_000_000);
            lemma_mul_upper_bound(pct as int, u64::MAX as int, basis as int, u64::MAX as int);
            lemma_mul_is_associative((current - basis) as int, 100, SCALE as int);
        }
        let lhs: u128 = (current - basis) as u128 * 10_000_000_000u128;
        let rhs: u128 = pct as u128 * basis as u128;
        lhs >= rhs
    }
}

/// The benefit percentage as a decimal string, floored to atom precision.
/// Without a gain, or without a positive basis, it is `"0"`.
pub fn calc_benefit(basis: u64, current: u64) -> (s: String)
    ensures
        s@ == spec_format_price(spec_benefit_atoms(basis as int, current as int) as nat),
        basis == 0 || current <= basis ==> s@ == seq!['0'],
{
    if basis == 0 || current <= basis {
        let s = format_price(0);
        proof {
            assert(spec_format_price(0nat) =~= seq!['0']);
        }
        s
    } else {
        proof {
            lemma_mul_inequality((current - basis) as int, u64::MAX as int, 10_000_000_000);
            lemma_mul_is_associative((current - basis) as int, 100, SCALE as int);
            lemma_mul_nonnegative((current - basis) as int, 100 * SCALE as int);
            lemma_div_pos_is_pos((current - basis) as int * (100 * SCALE as int), basis as int);
        }
        let num: u128 = (current - basis) as u128 * 10_000_000_000u128;
        let q: u128 = num / (basis as u128);
        format_price(q)
    }
}

} // verus!
