use vstd::prelude::*;
use vstd::arithmetic::div_mod::{
    lemma_div_is_ordered, lemma_div_multiples_vanish, lemma_fundamental_div_mod,
    lemma_remainder_lower, lemma_remainder_upper,
};
use vstd::arithmetic::mul::lemma_mul_is_distributive_add;

verus! {

/// The full probability mass. Every weight is a count of parts per million,
/// so a weight vector is a distribution exactly when it sums to this value.
pub const WEIGHT_SCALE: u64 = 1_000_000;

/// Mathematical sum of a weight vector.
pub open spec fn mass_sum(s: Seq<u64>) -> int
    decreases s.len(),
{
    if s.len() == 0 {
        0
    } else {
        mass_sum(s.drop_last()) + s.last()
    }
}

/// A valid probability mass function: non-empty, of full total mass.
pub open spec fn is_pmf(s: Seq<u64>) -> bool {
    s.len() > 0 && mass_sum(s) == WEIGHT_SCALE
}

/// The sum over a prefix grows by exactly the next element.
pub proof fn lemma_mass_sum_take_step(s: Seq<u64>, i: int)
    requires
        0 <= i < s.len(),
    ensures
        mass_sum(s.take(i + 1)) == mass_sum(s.take(i)) + s[i],
{
    assert(s.take(i + 1).drop_last() =~= s.take(i));
    assert(s.take(i + 1).last() == s[i]);
}

/// The full prefix carries the whole sum.
pub proof fn lemma_mass_sum_take_full(s: Seq<u64>)
    ensures
        mass_sum(s.take(s.len() as int)) == mass_sum(s),
{
    assert(s.take(s.len() as int) =~= s);
}

/// A sum of unsigned weights is non-negative and at most len * u64::MAX.
pub proof fn lemma_mass_sum_bounds(s: Seq<u64>)
    ensures
        0 <= mass_sum(s) <= s.len() * (u64::MAX as int),
    decreases s.len(),
{
    if s.len() > 0 {
        lemma_mass_sum_bounds(s.drop_last());
        assert((s.len() - 1) * (u64::MAX as int) + (u64::MAX as int) == s.len() * (
        u64::MAX as int)) by (nonlinear_arith);
    }
}

/// Prefix sums never exceed the total.
pub proof fn lemma_mass_sum_take_le(s: Seq<u64>, i: int)
    requires
        0 <= i <= s.len(),
    ensures
        mass_sum(s.take(i)) <= mass_sum(s),
    decreases s.len() - i,
{
    if i == s.len() {
        lemma_mass_sum_take_full(s);
    } else {
        lemma_mass_sum_take_step(s, i);
        lemma_mass_sum_take_le(s, i + 1);
    }
}

/// Prefix sums grow with the prefix.
pub proof fn lemma_mass_sum_take_monotone(s: Seq<u64>, i: int, j: int)
    requires
        0 <= i <= j <= s.len(),
    ensures
        mass_sum(s.take(i)) <= mass_sum(s.take(j)),
    decreases j - i,
{
    if i < j {
        lemma_mass_sum_take_step(s, i);
        lemma_mass_sum_take_monotone(s, i + 1, j);
    }
}

/// Each single weight is at most the total.
pub proof fn lemma_mass_sum_element_le(s: Seq<u64>, i: int)
    requires
        0 <= i < s.len(),
    ensures
        s[i] <= mass_sum(s),
    decreases s.len(),
{
    lemma_mass_sum_bounds(s.drop_last());
    if i < s.len() - 1 {
        lemma_mass_sum_element_le(s.drop_last(), i);
    }
}

/// Floor division loses at most the remainders:
/// `a / d + b / d <= (a + b) / d` for non-negative numerators.
pub proof fn lemma_div_superadditive(a: int, b: int, d: int)
    requires
        0 <= a,
        0 <= b,
        0 < d,
    ensures
        a / d + b / d <= (a + b) / d,
{
    lemma_fundamental_div_mod(a, d);
    lemma_fundamental_div_mod(b, d);
    lemma_remainder_lower(a, d);
    lemma_remainder_lower(b, d);
    lemma_mul_is_distributive_add(d, a / d, b / d);
    lemma_div_multiples_vanish(a / d + b / d, d);
    lemma_div_is_ordered(d * (a / d + b / d), a + b, d);
}

/// Division keeps order of numerators.
pub proof fn lemma_div_keeps_order(a: int, b: int, d: int)
    requires
        a <= b,
        0 < d,
    ensures
        a / d <= b / d,
{
    lemma_div_is_ordered(a, b, d);
}

/// The remainder of a non-negative numerator lies below the divisor.
pub proof fn lemma_mod_range(a: int, d: int)
    requires
        0 <= a,
        0 < d,
    ensures
        0 <= a % d < d,
        a == d * (a / d) + a % d,
{
    lemma_fundamental_div_mod(a, d);
    lemma_remainder_lower(a, d);
    lemma_remainder_upper(a, d);
}

} // verus!
