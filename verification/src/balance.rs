use vstd::prelude::*;
use crate::errors::CoreError;
use crate::mass::{
    is_pmf, lemma_mass_sum_take_full, lemma_mass_sum_take_le, lemma_mass_sum_take_step, mass_sum,
    WEIGHT_SCALE,
};

verus! {

/// A tag keeps its weight only if it still has an eligible task and a
/// strictly positive prior weight.
pub open spec fn tag_alive(w: Seq<u64>, has: Seq<bool>, i: int) -> bool {
    has[i] && w[i] > 0
}

/// How many of the first `n` tags survive.
pub open spec fn alive_count_to(w: Seq<u64>, has: Seq<bool>, n: int) -> int
    decreases n,
{
    if n <= 0 {
        0
    } else {
        alive_count_to(w, has, n - 1) + if tag_alive(w, has, n - 1) {
            1int
        } else {
            0int
        }
    }
}

/// The mass the first `n` tags lose: prior weight of every tag that is
/// empty or carries zero weight.
pub open spec fn dead_mass_to(w: Seq<u64>, has: Seq<bool>, n: int) -> int
    decreases n,
{
    if n <= 0 {
        0
    } else {
        dead_mass_to(w, has, n - 1) + if !tag_alive(w, has, n - 1) {
            w[n - 1] as int
        } else {
            0int
        }
    }
}

/// The mass the first `n` surviving tags bring of their own.
pub open spec fn alive_mass_to(w: Seq<u64>, has: Seq<bool>, n: int) -> int
    decreases n,
{
    if n <= 0 {
        0
    } else {
        alive_mass_to(w, has, n - 1) + if tag_alive(w, has, n - 1) {
            w[n - 1] as int
        } else {
            0int
        }
    }
}

/// The even share of the freed mass that every surviving tag receives.
pub open spec fn balancer_share(w: Seq<u64>, has: Seq<bool>) -> int {
    dead_mass_to(w, has, w.len() as int) / alive_count_to(w, has, w.len() as int)
}

/// What remains of the freed mass after the even shares; the first
/// remainder-many surviving tags take one extra part each, so no mass is
/// ever lost to rounding.
pub open spec fn balancer_rest(w: Seq<u64>, has: Seq<bool>) -> int {
    dead_mass_to(w, has, w.len() as int) % alive_count_to(w, has, w.len() as int)
}

/// The adjusted weight of tag `i`.
pub open spec fn balanced_at(w: Seq<u64>, has: Seq<bool>, i: int) -> int {
    if tag_alive(w, has, i) {
        w[i] + balancer_share(w, has) + if alive_count_to(w, has, i) < balancer_rest(w, has) {
            1int
        } else {
            0int
        }
    } else {
        0
    }
}

/// Among the first `n` tags there are between zero and `n` survivors.
pub proof fn lemma_alive_count_range(w: Seq<u64>, has: Seq<bool>, n: int)
    requires
        0 <= n,
    ensures
        0 <= alive_count_to(w, has, n) <= n,
    decreases n,
{
    if n > 0 {
        lemma_alive_count_range(w, has, n - 1);
    }
}

/// Splitting the first `n` tags into surviving and dead ones splits their
/// mass.
proof fn lemma_mass_split(w: Seq<u64>, has: Seq<bool>, n: int)
    requires
        0 <= n <= w.len(),
    ensures
        alive_mass_to(w, has, n) + dead_mass_to(w, has, n) == mass_sum(w.take(n)),
    decreases n,
{
    if n > 0 {
        lemma_mass_split(w, has, n - 1);
        lemma_mass_sum_take_step(w, n - 1);
    }
}

/// With every tag still populated, no mass is freed at all.
proof fn lemma_no_dead_mass(w: Seq<u64>, has: Seq<bool>, n: int)
    requires
        0 <= n <= w.len(),
        forall|i: int| 0 <= i < has.len() ==> has[i],
        w.len() == has.len(),
    ensures
        dead_mass_to(w, has, n) == 0,
    decreases n,
{
    if n > 0 {
        lemma_no_dead_mass(w, has, n - 1);
    }
}

/// Redistribute prior tag weights away from tags that are empty or carry
/// zero weight, onto the surviving tags, preserving the total mass.
///
/// Every surviving tag receives the freed mass divided evenly, with the
/// division's remainder going one part each to the earliest survivors; every
/// other tag is zeroed.  The call fails exactly when no tag survives, which
/// is a fatal data condition the caller must rule out beforehand.
///
/// Two laws are part of the contract: the output carries exactly the mass of
/// the input (conservation), and when every tag still has an eligible task
/// the output equals the input (idempotence).
pub fn update_tagweights(initial_tag_weights: &Vec<u64>, has_tasks: &Vec<bool>) -> (r: Result<
    Vec<u64>,
    CoreError,
>)
    requires
        initial_tag_weights@.len() == has_tasks@.len(),
        is_pmf(initial_tag_weights@),
    ensures
        match r {
            Ok(out) => {
                let w = initial_tag_weights@;
                let has = has_tasks@;
                &&& alive_count_to(w, has, w.len() as int) > 0
                &&& out@.len() == w.len()
                &&& forall|i: int| 0 <= i < w.len() ==> out@[i] == balanced_at(w, has, i)
                &&& mass_sum(out@) == mass_sum(w)
                &&& (forall|i: int| 0 <= i < has.len() ==> has[i]) ==> out@ == w
            },
            Err(e) => {
                &&& e == CoreError::NoWeightedTag
                &&& alive_count_to(
                    initial_tag_weights@,
                    has_tasks@,
                    initial_tag_weights@.len() as int,
                ) == 0
            },
        },
{
    let w = initial_tag_weights;
    let n = w.len();
    let ghost gw = w@;
    let ghost ghas = has_tasks@;

    let mut k: usize = 0;
    let mut excess: u64 = 0;
    let mut i: usize = 0;
    while i < n
        invariant
            i <= n,
            n == gw.len(),
            n == ghas.len(),
            gw == w@,
            ghas == has_tasks@,
            mass_sum(gw) == WEIGHT_SCALE,
            k == alive_count_to(gw, ghas, i as int),
            k <= i,
            excess == dead_mass_to(gw, ghas, i as int),
            excess <= mass_sum(gw.take(i as int)),
        decreases n - i,
    {
        proof {
            lemma_mass_sum_take_step(gw, i as int);
            lemma_mass_sum_take_le(gw, i as int + 1);
        }
        if has_tasks[i] && w[i] > 0 {
            k = k + 1;
        } else {
            excess = excess + w[i];
        }
        i = i + 1;
    }
    proof {
        lemma_mass_sum_take_full(gw);
    }
    if k == 0 {
        return Err(CoreError::NoWeightedTag);
    }

    let share: u64 = excess / (k as u64);
    let rest: u64 = excess % (k as u64);
    proof {
        assert(share == balancer_share(gw, ghas));
        assert(rest == balancer_rest(gw, ghas));
        assert(share <= excess && rest <= excess && rest < k) by {
            crate::mass::lemma_mod_range(excess as int, k as int);
            vstd::arithmetic::div_mod::lemma_div_nonincreasing(excess as int, k as int);
            vstd::arithmetic::div_mod::lemma_div_pos_is_pos(excess as int, k as int);
            vstd::arithmetic::mul::lemma_mul_nonnegative(k as int, (excess as int) / (k as int));
        }
    }

    let mut out: Vec<u64> = Vec::new();
    let mut seen: usize = 0;
    let mut j: usize = 0;
    while j < n
        invariant
            j <= n,
            n == gw.len(),
            n == ghas.len(),
            gw == w@,
            ghas == has_tasks@,
            mass_sum(gw) == WEIGHT_SCALE,
            share == balancer_share(gw, ghas),
            rest == balancer_rest(gw, ghas),
            share <= WEIGHT_SCALE,
            rest <= WEIGHT_SCALE,
            seen == alive_count_to(gw, ghas, j as int),
            seen <= j,
            out@.len() == j,
            forall|t: int| 0 <= t < j ==> out@[t] == balanced_at(gw, ghas, t),
            mass_sum(out@.take(j as int)) == alive_mass_to(gw, ghas, j as int) + share
                * alive_count_to(gw, ghas, j as int) + if alive_count_to(gw, ghas, j as int)
                < rest {
                alive_count_to(gw, ghas, j as int)
            } else {
                rest as int
            },
        decreases n - j,
    {
        let ghost cnt = alive_count_to(gw, ghas, j as int);
        let next: u64;
        if has_tasks[j] && w[j] > 0 {
            proof {
                crate::mass::lemma_mass_sum_element_le(gw, j as int);
            }
            let extra: u64 = if (seen as u64) < rest {
                1
            } else {
                0
            };
            next = w[j] + share + extra;
            seen = seen + 1;
        } else {
            next = 0;
        }
        let ghost prev = out@;
        out.push(next);
        proof {
            assert(prev.take(j as int) =~= prev);
            assert(out@.take(j as int) =~= prev);
            assert(out@.take(j as int + 1) =~= out@);
            lemma_mass_sum_take_step(out@, j as int);
            vstd::arithmetic::mul::lemma_mul_is_distributive_add(share as int, cnt, 1);
            assert(next == balanced_at(gw, ghas, j as int));
        }
        j = j + 1;
    }
    proof {
        lemma_mass_sum_take_full(out@);
        lemma_mass_sum_take_full(gw);
        lemma_mass_split(gw, ghas, n as int);
        vstd::arithmetic::div_mod::lemma_fundamental_div_mod(excess as int, k as int);
        vstd::arithmetic::div_mod::lemma_remainder_upper(excess as int, k as int);
        assert(mass_sum(out@) == mass_sum(gw));
        if forall|i2: int| 0 <= i2 < ghas.len() ==> ghas[i2] {
            lemma_no_dead_mass(gw, ghas, n as int);
            vstd::arithmetic::div_mod::lemma_div_of0(k as int);
            vstd::arithmetic::div_mod::lemma_small_mod(0nat, k as nat);
            assert(balancer_share(gw, ghas) == 0);
            assert(balancer_rest(gw, ghas) == 0);
            assert forall|t: int| 0 <= t < n implies out@[t] == gw[t] by {
                assert(ghas[t]);
                lemma_alive_count_range(gw, ghas, t);
                assert(out@[t] == balanced_at(gw, ghas, t));
            }
            assert(out@ =~= gw);
        }
    }
    Ok(out)
}

} // verus!
