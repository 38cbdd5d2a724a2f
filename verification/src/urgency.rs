use vstd::prelude::*;
use crate::errors::CoreError;
use crate::mass::{
    is_pmf, lemma_div_keeps_order, lemma_div_superadditive, lemma_mass_sum_take_full,
    lemma_mass_sum_take_step, mass_sum, WEIGHT_SCALE,
};
use vstd::arithmetic::div_mod::{
    lemma_div_is_ordered_by_denominator, lemma_div_multiples_vanish, lemma_div_nonincreasing,
};
use vstd::arithmetic::mul::{
    lemma_mul_inequality, lemma_mul_is_distributive_add_other_way, lemma_mul_nonnegative,
};

verus! {

/// The largest supported time until a deadline, in minutes; far longer than
/// any usable planning horizon, and small enough that scaled raw weights
/// stay well inside a machine word.
pub const MAX_DEADLINE_MINUTES: u64 = 1_000_000_000;

/// An upper bound on one scaled raw weight:
/// `MAX_DEADLINE_MINUTES * WEIGHT_SCALE`.
pub const MAX_RAW_WEIGHT: u64 = 1_000_000_000_000_000;

/// A deadline vector the urgency weighting accepts: non-empty, every entry
/// already past its positive floor and below the supported horizon.
pub open spec fn deadlines_ok(due: Seq<u64>) -> bool {
    &&& due.len() > 0
    &&& forall|i: int| 0 <= i < due.len() ==> 1 <= #[trigger] due[i] <= MAX_DEADLINE_MINUTES
}

/// The largest deadline of the vector.
pub open spec fn max_deadline(due: Seq<u64>) -> int
    decreases due.len(),
{
    if due.len() == 0 {
        0
    } else {
        let m = max_deadline(due.drop_last());
        if due.last() > m {
            due.last() as int
        } else {
            m
        }
    }
}

/// The first index holding the smallest deadline.
pub open spec fn first_min_idx(due: Seq<u64>) -> int
    decreases due.len(),
{
    if due.len() <= 1 {
        0
    } else {
        let p = first_min_idx(due.drop_last());
        if due.last() < due[p] {
            due.len() - 1
        } else {
            p
        }
    }
}

/// The raw urgency weight of entry `i`: the largest deadline, scaled to
/// parts per million, divided by this entry's deadline, so that sooner
/// deadlines weigh more.  This is the defined policy, kept exactly.
pub open spec fn raw_of(due: Seq<u64>, i: int) -> int {
    (max_deadline(due) * WEIGHT_SCALE) / due[i] as int
}

/// The sum of the first `n` raw weights.
pub open spec fn raw_sum_to(due: Seq<u64>, n: int) -> int
    decreases n,
{
    if n <= 0 {
        0
    } else {
        raw_sum_to(due, n - 1) + raw_of(due, n - 1)
    }
}

/// The normalized share of entry `i` before rounding repair: its raw weight
/// scaled to the full mass and divided by the raw total.
pub open spec fn base_of(due: Seq<u64>, i: int) -> int {
    (raw_of(due, i) * WEIGHT_SCALE) / raw_sum_to(due, due.len() as int)
}

/// The sum of the first `n` normalized shares.
pub open spec fn base_sum_to(due: Seq<u64>, n: int) -> int
    decreases n,
{
    if n <= 0 {
        0
    } else {
        base_sum_to(due, n - 1) + base_of(due, n - 1)
    }
}

/// The mass lost to rounding; the entry with the smallest deadline takes it,
/// which keeps it the heaviest.
pub open spec fn bonus_of(due: Seq<u64>) -> int {
    WEIGHT_SCALE - base_sum_to(due, due.len() as int)
}

/// The final urgency weight of entry `i`.
pub open spec fn urgency_at(due: Seq<u64>, i: int) -> int {
    base_of(due, i) + if i == first_min_idx(due) {
        bonus_of(due)
    } else {
        0int
    }
}

/// Every deadline lies at or below the largest one.
pub proof fn lemma_max_deadline_ge(due: Seq<u64>, i: int)
    requires
        0 <= i < due.len(),
    ensures
        due[i] <= max_deadline(due),
    decreases due.len(),
{
    if i < due.len() - 1 {
        lemma_max_deadline_ge(due.drop_last(), i);
    }
}

/// The largest deadline is itself bounded by any bound on all entries.
pub proof fn lemma_max_deadline_le(due: Seq<u64>, b: int)
    requires
        0 <= b,
        forall|i: int| 0 <= i < due.len() ==> due[i] <= b,
    ensures
        max_deadline(due) <= b,
    decreases due.len(),
{
    if due.len() > 0 {
        lemma_max_deadline_le(due.drop_last(), b);
    }
}

/// The first-minimum index is a real index and holds a minimal deadline.
pub proof fn lemma_first_min_idx(due: Seq<u64>)
    requires
        due.len() > 0,
    ensures
        0 <= first_min_idx(due) < due.len(),
        forall|j: int| 0 <= j < due.len() ==> due[first_min_idx(due)] <= #[trigger] due[j],
    decreases due.len(),
{
    if due.len() > 1 {
        lemma_first_min_idx(due.drop_last());
        assert forall|j: int| 0 <= j < due.len() implies due[first_min_idx(due)] <= #[trigger] due[j] by {
            let p = first_min_idx(due.drop_last());
            if j < due.len() - 1 {
                assert(due.drop_last()[j] == due[j]);
                assert(due.drop_last()[p] == due[p]);
            }
        }
    }
}

/// Raw weights are bounded: at least the full mass, at most the scaled
/// horizon.
pub proof fn lemma_raw_bounds(due: Seq<u64>, i: int)
    requires
        deadlines_ok(due),
        0 <= i < due.len(),
    ensures
        WEIGHT_SCALE <= raw_of(due, i) <= MAX_RAW_WEIGHT,
{
    let m = max_deadline(due);
    let d = due[i] as int;
    lemma_max_deadline_ge(due, i);
    lemma_max_deadline_le(due, MAX_DEADLINE_MINUTES as int);
    // lower: (d * SCALE) / d == SCALE and numerators are ordered
    lemma_mul_inequality(d, m, WEIGHT_SCALE as int);
    lemma_div_keeps_order(d * WEIGHT_SCALE, m * WEIGHT_SCALE, d);
    lemma_div_multiples_vanish(WEIGHT_SCALE as int, d);
    // upper: dividing by at least one never grows the numerator
    lemma_div_nonincreasing(m * WEIGHT_SCALE, d);
    lemma_mul_inequality(m, MAX_DEADLINE_MINUTES as int, WEIGHT_SCALE as int);
}

/// Partial raw sums are non-negative and bounded by `n` scaled horizons.
pub proof fn lemma_raw_sum_bounds(due: Seq<u64>, n: int)
    requires
        deadlines_ok(due),
        0 <= n <= due.len(),
    ensures
        0 <= raw_sum_to(due, n) <= n * (MAX_RAW_WEIGHT as int),
    decreases n,
{
    if n > 0 {
        lemma_raw_sum_bounds(due, n - 1);
        lemma_raw_bounds(due, n - 1);
        assert((n - 1) * (MAX_RAW_WEIGHT as int) + (MAX_RAW_WEIGHT as int) == n * (
        MAX_RAW_WEIGHT as int)) by (nonlinear_arith);
    }
}

/// Raw prefix sums grow with the prefix.
pub proof fn lemma_raw_sum_monotone(due: Seq<u64>, i: int, j: int)
    requires
        deadlines_ok(due),
        0 <= i <= j <= due.len(),
    ensures
        raw_sum_to(due, i) <= raw_sum_to(due, j),
    decreases j - i,
{
    if i < j {
        lemma_raw_bounds(due, i);
        lemma_raw_sum_monotone(due, i + 1, j);
    }
}

/// Each raw weight is at most the total of all of them.
pub proof fn lemma_raw_elem_le_sum(due: Seq<u64>, i: int, n: int)
    requires
        deadlines_ok(due),
        0 <= i < n <= due.len(),
    ensures
        raw_of(due, i) <= raw_sum_to(due, n),
    decreases n,
{
    lemma_raw_bounds(due, n - 1);
    if i == n - 1 {
        lemma_raw_sum_bounds(due, n - 1);
    } else {
        lemma_raw_elem_le_sum(due, i, n - 1);
    }
}

/// Build the urgency-weighted probability mass function over a vector of
/// deadlines, each the time left in minutes.  Rejects an empty vector, for
/// which no distribution exists.
///
/// The policy, kept exactly as defined: every entry's raw weight is the
/// largest deadline divided by its own deadline, and the raw weights are
/// then normalized to the full mass, the rounding slack going to the first
/// entry with the smallest deadline.  The result is a distribution of full
/// mass in which the soonest-due entry carries the largest (or equal) share.
pub fn turn_timetilldue_into_pdf(due: &Vec<u64>) -> (res: Result<Vec<u64>, CoreError>)
    requires
        forall|i: int| 0 <= i < due@.len() ==> 1 <= #[trigger] due@[i] <= MAX_DEADLINE_MINUTES,
    ensures
        match res {
            Ok(r) => {
                &&& due@.len() > 0
                &&& r@.len() == due@.len()
                &&& forall|i: int| 0 <= i < due@.len() ==> r@[i] == urgency_at(due@, i)
                &&& is_pmf(r@)
                &&& 0 <= first_min_idx(due@) < due@.len()
                &&& forall|j: int|
                    0 <= j < due@.len() ==> due@[first_min_idx(due@)] <= #[trigger] due@[j]
                &&& forall|j: int|
                    0 <= j < due@.len() ==> #[trigger] r@[j] <= r@[first_min_idx(due@)]
            },
            Err(e) => {
                &&& e == CoreError::EmptyCatalog
                &&& due@.len() == 0
            },
        },
{
    let n = due.len();
    let ghost gd = due@;
    if n == 0 {
        return Err(CoreError::EmptyCatalog);
    }

    // the largest deadline
    let mut m: u64 = 0;
    let mut i: usize = 0;
    while i < n
        invariant
            i <= n,
            n == gd.len(),
            gd == due@,
            deadlines_ok(gd),
            m == max_deadline(gd.take(i as int)),
        decreases n - i,
    {
        proof {
            assert(gd.take(i as int + 1).drop_last() =~= gd.take(i as int));
        }
        if due[i] > m {
            m = due[i];
        }
        i = i + 1;
    }
    proof {
        assert(gd.take(n as int) =~= gd);
        lemma_max_deadline_le(gd, MAX_DEADLINE_MINUTES as int);
        lemma_max_deadline_ge(gd, 0);
    }

    // the first index with the smallest deadline
    let mut fm: usize = 0;
    let mut j: usize = 1;
    while j < n
        invariant
            1 <= j <= n,
            n == gd.len(),
            gd == due@,
            deadlines_ok(gd),
            fm < j,
            fm as int == first_min_idx(gd.take(j as int)),
        decreases n - j,
    {
        proof {
            assert(gd.take(j as int + 1).drop_last() =~= gd.take(j as int));
        }
        if due[j] < due[fm] {
            fm = j;
        }
        j = j + 1;
    }
    proof {
        assert(gd.take(n as int) =~= gd);
        lemma_first_min_idx(gd);
    }

    // raw weights, and their total
    let mut raws: Vec<u64> = Vec::new();
    let mut rawsum: u128 = 0;
    let mut k: usize = 0;
    while k < n
        invariant
            k <= n,
            n == gd.len(),
            gd == due@,
            deadlines_ok(gd),
            m == max_deadline(gd),
            m <= MAX_DEADLINE_MINUTES,
            raws@.len() == k,
            forall|t: int| 0 <= t < k ==> raws@[t] == raw_of(gd, t),
            rawsum == raw_sum_to(gd, k as int),
        decreases n - k,
    {
        proof {
            lemma_raw_bounds(gd, k as int);
            lemma_raw_sum_bounds(gd, k as int);
            assert((k as int) * (MAX_RAW_WEIGHT as int) + (MAX_RAW_WEIGHT as int) <= (
            u128::MAX as int)) by (nonlinear_arith)
                requires
                    0 <= k as int <= u64::MAX as int,
            ;
        }
        let raw: u64 = (m * WEIGHT_SCALE) / due[k];
        raws.push(raw);
        rawsum = rawsum + raw as u128;
        k = k + 1;
    }
    proof {
        lemma_raw_bounds(gd, 0);
        lemma_raw_elem_le_sum(gd, 0, n as int);
        assert(raw_sum_to(gd, n as int) >= WEIGHT_SCALE);
    }

    // normalized shares
    let ghost total = raw_sum_to(gd, n as int);
    let mut bases: Vec<u64> = Vec::new();
    let mut bsum: u64 = 0;
    let mut t: usize = 0;
    while t < n
        invariant
            t <= n,
            n == gd.len(),
            gd == due@,
            deadlines_ok(gd),
            total == raw_sum_to(gd, n as int),
            total >= WEIGHT_SCALE,
            rawsum == total,
            raws@.len() == n,
            forall|q: int| 0 <= q < n ==> raws@[q] == raw_of(gd, q),
            bases@.len() == t,
            forall|q: int| 0 <= q < t ==> bases@[q] == base_of(gd, q),
            forall|q: int| 0 <= q < t ==> bases@[q] <= WEIGHT_SCALE,
            bsum == base_sum_to(gd, t as int),
            base_sum_to(gd, t as int) <= (raw_sum_to(gd, t as int) * WEIGHT_SCALE) / total,
            raw_sum_to(gd, t as int) <= total,
        decreases n - t,
    {
        proof {
            lemma_raw_bounds(gd, t as int);
            lemma_raw_elem_le_sum(gd, t as int, n as int);
            lemma_raw_sum_bounds(gd, t as int);
            // one share stays within the full mass
            lemma_mul_inequality(raw_of(gd, t as int), total, WEIGHT_SCALE as int);
            lemma_div_keeps_order(
                raw_of(gd, t as int) * WEIGHT_SCALE,
                total * WEIGHT_SCALE,
                total,
            );
            lemma_div_multiples_vanish(WEIGHT_SCALE as int, total);
            // the running share total keeps below the scaled raw prefix
            lemma_div_superadditive(
                raw_sum_to(gd, t as int) * WEIGHT_SCALE,
                raw_of(gd, t as int) * WEIGHT_SCALE,
                total,
            );
            lemma_mul_is_distributive_add_other_way(
                WEIGHT_SCALE as int,
                raw_sum_to(gd, t as int),
                raw_of(gd, t as int),
            );
            lemma_mul_nonnegative(raw_sum_to(gd, t as int), WEIGHT_SCALE as int);
            // the scaled prefix keeps below the full mass
            lemma_raw_sum_monotone(gd, t as int + 1, n as int);
            lemma_mul_inequality(raw_sum_to(gd, t as int + 1), total, WEIGHT_SCALE as int);
            lemma_div_keeps_order(
                raw_sum_to(gd, t as int + 1) * WEIGHT_SCALE,
                total * WEIGHT_SCALE,
                total,
            );
        }
        let wide: u128 = (raws[t] as u128 * WEIGHT_SCALE as u128) / rawsum;
        proof {
            assert(wide == base_of(gd, t as int));
            assert(wide <= WEIGHT_SCALE as u128);
        }
        let base: u64 = wide as u64;
        bases.push(base);
        bsum = bsum + base;
        t = t + 1;
    }
    proof {
        lemma_div_multiples_vanish(WEIGHT_SCALE as int, total);
        assert(base_sum_to(gd, n as int) <= WEIGHT_SCALE);
    }
    let bonus: u64 = WEIGHT_SCALE - bsum;

    // hand the rounding slack to the soonest-due entry
    let mut out: Vec<u64> = Vec::new();
    let mut u: usize = 0;
    while u < n
        invariant
            u <= n,
            n == gd.len(),
            gd == due@,
            deadlines_ok(gd),
            fm < n,
            fm as int == first_min_idx(gd),
            bonus == bonus_of(gd),
            bonus <= WEIGHT_SCALE,
            bases@.len() == n,
            forall|q: int| 0 <= q < n ==> bases@[q] == base_of(gd, q),
            forall|q: int| 0 <= q < n ==> bases@[q] <= WEIGHT_SCALE,
            out@.len() == u,
            forall|q: int| 0 <= q < u ==> out@[q] == urgency_at(gd, q),
            mass_sum(out@.take(u as int)) == base_sum_to(gd, u as int) + if u > fm {
                bonus_of(gd)
            } else {
                0int
            },
        decreases n - u,
    {
        let v: u64 = if u == fm {
            bases[u] + bonus
        } else {
            bases[u]
        };
        let ghost prev = out@;
        out.push(v);
        proof {
            assert(prev.take(u as int) =~= prev);
            assert(out@.take(u as int) =~= prev);
            assert(out@.take(u as int + 1) =~= out@);
            lemma_mass_sum_take_step(out@, u as int);
        }
        u = u + 1;
    }
    proof {
        lemma_mass_sum_take_full(out@);
        assert(mass_sum(out@) == WEIGHT_SCALE);
        // the soonest-due entry carries the largest share
        assert forall|j2: int| 0 <= j2 < n implies out@[j2] <= out@[fm as int] by {
            let mfm = first_min_idx(gd);
            lemma_first_min_idx(gd);
            lemma_max_deadline_ge(gd, j2);
            lemma_mul_nonnegative(max_deadline(gd), WEIGHT_SCALE as int);
            assert(gd[mfm] <= gd[j2]);
            lemma_div_is_ordered_by_denominator(
                max_deadline(gd) * WEIGHT_SCALE,
                gd[mfm] as int,
                gd[j2] as int,
            );
            assert(raw_of(gd, j2) <= raw_of(gd, mfm));
            lemma_raw_bounds(gd, j2);
            lemma_mul_inequality(raw_of(gd, j2), raw_of(gd, mfm), WEIGHT_SCALE as int);
            lemma_div_keeps_order(
                raw_of(gd, j2) * WEIGHT_SCALE,
                raw_of(gd, mfm) * WEIGHT_SCALE,
                total,
            );
            assert(base_of(gd, j2) <= base_of(gd, mfm));
            assert(out@[j2] == urgency_at(gd, j2));
            assert(out@[fm as int] == urgency_at(gd, fm as int));
        }
    }
    Ok(out)
}

/// Build the uniform probability mass function over `n` items: every item
/// takes the even share of the full mass, and the division's remainder goes
/// one part each to the first items, so the total is exact.  Rejects `n == 0`,
/// for which no distribution exists.
pub fn uniform_pdf(n: usize) -> (r: Result<Vec<u64>, CoreError>)
    ensures
        match r {
            Ok(out) => {
                &&& n > 0
                &&& out@.len() == n
                &&& forall|i: int| 0 <= i < n ==> out@[i] == uniform_at(n as int, i)
                &&& is_pmf(out@)
            },
            Err(e) => {
                &&& e == CoreError::EmptyCatalog
                &&& n == 0
            },
        },
{
    if n == 0 {
        return Err(CoreError::EmptyCatalog);
    }
    let share: u64 = WEIGHT_SCALE / (n as u64);
    let rest: u64 = WEIGHT_SCALE % (n as u64);
    proof {
        crate::mass::lemma_mod_range(WEIGHT_SCALE as int, n as int);
        vstd::arithmetic::div_mod::lemma_div_nonincreasing(WEIGHT_SCALE as int, n as int);
        vstd::arithmetic::div_mod::lemma_div_pos_is_pos(WEIGHT_SCALE as int, n as int);
    }
    let mut out: Vec<u64> = Vec::new();
    let mut i: usize = 0;
    while i < n
        invariant
            i <= n,
            n > 0,
            share == (WEIGHT_SCALE as int) / (n as int),
            rest == (WEIGHT_SCALE as int) % (n as int),
            share <= WEIGHT_SCALE,
            rest < n,
            WEIGHT_SCALE == (n as int) * (share as int) + rest,
            out@.len() == i,
            forall|q: int| 0 <= q < i ==> out@[q] == uniform_at(n as int, q),
            mass_sum(out@.take(i as int)) == (i as int) * (share as int) + if i < rest {
                i as int
            } else {
                rest as int
            },
        decreases n - i,
    {
        let v: u64 = if (i as u64) < rest {
            share + 1
        } else {
            share
        };
        let ghost prev = out@;
        out.push(v);
        proof {
            assert(prev.take(i as int) =~= prev);
            assert(out@.take(i as int) =~= prev);
            assert(out@.take(i as int + 1) =~= out@);
            lemma_mass_sum_take_step(out@, i as int);
            vstd::arithmetic::mul::lemma_mul_is_distributive_add_other_way(
                share as int,
                i as int,
                1,
            );
        }
        i = i + 1;
    }
    proof {
        lemma_mass_sum_take_full(out@);
        vstd::arithmetic::mul::lemma_mul_is_commutative(n as int, share as int);
    }
    Ok(out)
}

/// The uniform weight of item `i` among `n`: the even share, plus one part
/// of the remainder for the first items.
pub open spec fn uniform_at(n: int, i: int) -> int {
    (WEIGHT_SCALE as int) / n + if i < (WEIGHT_SCALE as int) % n {
        1int
    } else {
        0int
    }
}

} // verus!
