use vstd::prelude::*;
use crate::cycle::MAX_PHASE_MINUTES;
use crate::errors::CoreError;
use crate::mass::{
    is_pmf, lemma_div_keeps_order, lemma_div_superadditive, lemma_mass_sum_bounds,
    lemma_mass_sum_element_le, lemma_mass_sum_take_full, lemma_mass_sum_take_le,
    lemma_mass_sum_take_step, mass_sum, WEIGHT_SCALE,
};
use vstd::arithmetic::div_mod::{lemma_div_multiples_vanish, lemma_div_of0};
use vstd::arithmetic::mul::{
    lemma_mul_inequality, lemma_mul_is_distributive_add_other_way, lemma_mul_nonnegative,
};

verus! {

/// The cap on the prior weights' slack, in parts per million.  The slack
/// itself is one part per tag — decimal weights rounded to parts per
/// million can each be off by half a part — and this cap only keeps the
/// arithmetic bounded for absurd tag counts.
pub const PRIOR_TOLERANCE: u64 = 1_000;

/// How far the configured prior weights may miss the full mass before the
/// configuration is rejected: one part per million per tag, capped.
pub open spec fn prior_slack(n: int) -> int {
    if n < PRIOR_TOLERANCE {
        n
    } else {
        PRIOR_TOLERANCE as int
    }
}

/// The settings the core runs on, already validated: tag labels, the
/// per-tag due-date policy, the per-tag prior weights normalized to exactly
/// the full mass, and the four timing values in whole minutes.
pub struct ConfigOptions {
    /// The ordered tag labels.
    pub tags: Vec<String>,
    /// Per tag, whether its tasks are weighted by deadline urgency.
    pub use_due_dates: Vec<bool>,
    /// Per tag, the prior weight in parts per million; sums to the full
    /// mass exactly.
    pub initial_tag_weights: Vec<u64>,
    /// Minutes of one short break.
    pub min_break_time: u64,
    /// Minutes of the long break.
    pub max_break_time: u64,
    /// Minutes of one task phase.
    pub task_time: u64,
    /// Short breaks taken before a long break is due.
    pub maxno_min_breaks: u64,
}

impl ConfigOptions {
    /// Validated settings: the three vectors share one positive length, the
    /// weights form a distribution, and every timing value is positive and
    /// within the supported horizon.
    pub open spec fn wf(self) -> bool {
        &&& self.tags@.len() > 0
        &&& self.use_due_dates@.len() == self.tags@.len()
        &&& self.initial_tag_weights@.len() == self.tags@.len()
        &&& is_pmf(self.initial_tag_weights@)
        &&& 1 <= self.task_time <= MAX_PHASE_MINUTES
        &&& 1 <= self.min_break_time <= MAX_PHASE_MINUTES
        &&& 1 <= self.max_break_time <= MAX_PHASE_MINUTES
        &&& 1 <= self.maxno_min_breaks < u64::MAX
    }
}

/// Whether the raw prior weights are close enough to the full mass.
pub open spec fn priors_near_full(raw: Seq<u64>) -> bool {
    WEIGHT_SCALE - prior_slack(raw.len() as int) <= mass_sum(raw) <= WEIGHT_SCALE + prior_slack(
        raw.len() as int,
    )
}

/// The normalized share of prior `i` before rounding repair.
pub open spec fn prior_base_of(raw: Seq<u64>, i: int) -> int {
    (raw[i] * WEIGHT_SCALE) / mass_sum(raw)
}

/// The sum of the first `n` normalized shares.
pub open spec fn prior_base_sum_to(raw: Seq<u64>, n: int) -> int
    decreases n,
{
    if n <= 0 {
        0
    } else {
        prior_base_sum_to(raw, n - 1) + prior_base_of(raw, n - 1)
    }
}

/// `f` is the first weighted tag, and every normalized share is the scaled
/// ratio of its weight, with the rounding slack sitting on `f` alone.
pub open spec fn slack_at(raw: Seq<u64>, out: Seq<u64>, f: int) -> bool {
    &&& 0 <= f < raw.len()
    &&& raw[f] > 0
    &&& (forall|j: int| 0 <= j < f ==> #[trigger] raw[j] == 0)
    &&& forall|i: int|
        0 <= i < raw.len() ==> #[trigger] out[i] == prior_base_of(raw, i) + if i == f {
            WEIGHT_SCALE - prior_base_sum_to(raw, raw.len() as int)
        } else {
            0int
        }
}

/// What normalization owes: a distribution of the same length, every share
/// the exact scaled ratio with the slack on the first weighted tag, zero
/// weights kept at exactly zero, and an already-exact vector unchanged.
pub open spec fn priors_normalized(raw: Seq<u64>, out: Seq<u64>) -> bool {
    &&& out.len() == raw.len()
    &&& is_pmf(out)
    &&& (forall|i: int| 0 <= i < raw.len() && raw[i] == 0 ==> #[trigger] out[i] == 0)
    &&& (exists|f: int| #[trigger] slack_at(raw, out, f))
    &&& (mass_sum(raw) == WEIGHT_SCALE ==> out == raw)
}

/// A vector of zeroes sums to zero.
proof fn lemma_all_zero_sum(s: Seq<u64>)
    requires
        forall|i: int| 0 <= i < s.len() ==> #[trigger] s[i] == 0,
    ensures
        mass_sum(s) == 0,
    decreases s.len(),
{
    if s.len() > 0 {
        lemma_all_zero_sum(s.drop_last());
    }
}

/// Normalize the configured prior weights, given in parts per million, to
/// exactly the full mass.
///
/// A sum farther than the tolerance from the full mass is a configuration
/// fault and is rejected; inside the tolerance every weight is rescaled by
/// the exact ratio, and the rounding slack goes to the first tag with any
/// weight at all.  A weight of zero stays exactly zero, and weights that
/// already sum to the full mass come back unchanged.
pub fn normalize_priors(raw: &Vec<u64>) -> (r: Result<Vec<u64>, CoreError>)
    ensures
        match r {
            Ok(out) => {
                &&& priors_near_full(raw@)
                &&& priors_normalized(raw@, out@)
            },
            Err(e) => {
                &&& e == CoreError::WeightSumOff
                &&& !priors_near_full(raw@)
            },
        },
{
    let ghost graw = raw@;
    let n = raw.len();

    let mut sum: u128 = 0;
    let mut i: usize = 0;
    while i < n
        invariant
            i <= n,
            n == graw.len(),
            graw == raw@,
            sum == mass_sum(graw.take(i as int)),
        decreases n - i,
    {
        proof {
            lemma_mass_sum_bounds(graw.take(i as int));
            lemma_mass_sum_take_step(graw, i as int);
            assert((i as int) * (u64::MAX as int) + (u64::MAX as int) < u128::MAX as int)
                by (nonlinear_arith)
                requires
                    0 <= i as int <= u64::MAX as int,
            ;
        }
        sum = sum + raw[i] as u128;
        i = i + 1;
    }
    proof {
        lemma_mass_sum_take_full(graw);
    }
    let slack: u64 = if n < PRIOR_TOLERANCE as usize {
        n as u64
    } else {
        PRIOR_TOLERANCE
    };
    if sum < (WEIGHT_SCALE - slack) as u128 || sum > (WEIGHT_SCALE + slack) as u128 {
        return Err(CoreError::WeightSumOff);
    }
    let total: u64 = sum as u64;

    // the first tag with any weight; one exists, since the sum is positive
    let mut f: usize = 0;
    while f < n && raw[f] == 0
        invariant
            f <= n,
            n == graw.len(),
            graw == raw@,
            forall|j: int| 0 <= j < f ==> #[trigger] graw[j] == 0,
        decreases n - f,
    {
        f = f + 1;
    }
    if f == n {
        proof {
            lemma_all_zero_sum(graw);
            assert(false);
        }
        return Err(CoreError::WeightSumOff);
    }

    // normalized shares
    let mut bases: Vec<u64> = Vec::new();
    let mut bsum: u64 = 0;
    let mut t: usize = 0;
    while t < n
        invariant
            t <= n,
            n == graw.len(),
            graw == raw@,
            mass_sum(graw) == total,
            total > 0,
            total <= WEIGHT_SCALE + PRIOR_TOLERANCE,
            bases@.len() == t,
            forall|q: int| 0 <= q < t ==> bases@[q] == prior_base_of(graw, q),
            forall|q: int| 0 <= q < t ==> bases@[q] <= WEIGHT_SCALE,
            bsum == prior_base_sum_to(graw, t as int),
            prior_base_sum_to(graw, t as int) <= (mass_sum(graw.take(t as int)) * WEIGHT_SCALE)
                / (total as int),
        decreases n - t,
    {
        proof {
            lemma_mass_sum_element_le(graw, t as int);
            lemma_mass_sum_take_le(graw, t as int + 1);
            lemma_mass_sum_take_step(graw, t as int);
            lemma_mass_sum_bounds(graw.take(t as int));
            // one share stays within the full mass
            lemma_mul_inequality(graw[t as int] as int, total as int, WEIGHT_SCALE as int);
            lemma_div_keeps_order(
                (graw[t as int] as int) * WEIGHT_SCALE,
                (total as int) * WEIGHT_SCALE,
                total as int,
            );
            lemma_div_multiples_vanish(WEIGHT_SCALE as int, total as int);
            // the running share total keeps below the scaled mass prefix
            lemma_div_superadditive(
                mass_sum(graw.take(t as int)) * WEIGHT_SCALE,
                (graw[t as int] as int) * WEIGHT_SCALE,
                total as int,
            );
            lemma_mul_is_distributive_add_other_way(
                WEIGHT_SCALE as int,
                mass_sum(graw.take(t as int)),
                graw[t as int] as int,
            );
            lemma_mul_nonnegative(mass_sum(graw.take(t as int)), WEIGHT_SCALE as int);
            lemma_mul_inequality(
                mass_sum(graw.take(t as int + 1)),
                total as int,
                WEIGHT_SCALE as int,
            );
            lemma_div_keeps_order(
                mass_sum(graw.take(t as int + 1)) * WEIGHT_SCALE,
                (total as int) * WEIGHT_SCALE,
                total as int,
            );
        }
        let base: u64 = (raw[t] * WEIGHT_SCALE) / total;
        bases.push(base);
        bsum = bsum + base;
        t = t + 1;
    }
    proof {
        lemma_mass_sum_take_full(graw);
        lemma_div_multiples_vanish(WEIGHT_SCALE as int, total as int);
        assert(prior_base_sum_to(graw, n as int) <= WEIGHT_SCALE);
    }
    let bonus: u64 = WEIGHT_SCALE - bsum;

    let mut out: Vec<u64> = Vec::new();
    let mut u: usize = 0;
    while u < n
        invariant
            u <= n,
            n == graw.len(),
            graw == raw@,
            mass_sum(graw) == total,
            total > 0,
            total <= WEIGHT_SCALE + PRIOR_TOLERANCE,
            f < n,
            graw[f as int] > 0,
            bonus == WEIGHT_SCALE - prior_base_sum_to(graw, n as int),
            bonus <= WEIGHT_SCALE,
            bases@.len() == n,
            forall|q: int| 0 <= q < n ==> bases@[q] == prior_base_of(graw, q),
            forall|q: int| 0 <= q < n ==> bases@[q] <= WEIGHT_SCALE,
            out@.len() == u,
            forall|q: int|
                0 <= q < u ==> #[trigger] out@[q] == prior_base_of(graw, q) + if q == f {
                    WEIGHT_SCALE - prior_base_sum_to(graw, n as int)
                } else {
                    0int
                },
            mass_sum(out@.take(u as int)) == prior_base_sum_to(graw, u as int) + if u > f {
                WEIGHT_SCALE - prior_base_sum_to(graw, n as int)
            } else {
                0int
            },
        decreases n - u,
    {
        let v: u64 = if u == f {
            bases[u] + bonus
        } else {
            bases[u]
        };
        let ghost prev = out@;
        out.push(v);
        proof {
            assert(prev.take(u as int) =~= prev);
            assert(out@.take(u as int) =~= prev);
            assert(out@.take(u as int + 1) =~= out@);
            lemma_mass_sum_take_step(out@, u as int);
        }
        u = u + 1;
    }
    proof {
        lemma_mass_sum_take_full(out@);
        assert(mass_sum(out@) == WEIGHT_SCALE);
        assert forall|i2: int| 0 <= i2 < n && graw[i2] == 0 implies #[trigger] out@[i2] == 0 by {
            lemma_div_of0(total as int);
            assert(i2 != f);
        }
        if mass_sum(graw) == WEIGHT_SCALE {
            assert forall|i2: int| 0 <= i2 < n implies prior_base_of(graw, i2) == graw[i2] by {
                lemma_div_multiples_vanish(graw[i2] as int, WEIGHT_SCALE as int);
                vstd::arithmetic::mul::lemma_mul_is_commutative(graw[i2] as int, WEIGHT_SCALE as int);
            }
            lemma_pointwise_base_sum(graw, n as int);
            assert(out@ =~= graw);
        }
        assert(slack_at(graw, out@, f as int));
        assert(priors_normalized(graw, out@));
    }
    Ok(out)
}

/// When every share equals its weight, the share prefix sums equal the
/// weight prefix sums.
proof fn lemma_pointwise_base_sum(raw: Seq<u64>, n: int)
    requires
        0 <= n <= raw.len(),
        forall|i: int| 0 <= i < raw.len() ==> prior_base_of(raw, i) == raw[i],
    ensures
        prior_base_sum_to(raw, n) == mass_sum(raw.take(n)),
    decreases n,
{
    if n > 0 {
        lemma_pointwise_base_sum(raw, n - 1);
        lemma_mass_sum_take_step(raw, n - 1);
    }
}

/// Validate the parsed settings and assemble the core's configuration.
///
/// Fails, in this order of scrutiny, on vectors of unequal or zero length,
/// on prior weights whose sum misses the full mass by more than the
/// tolerance, and on a timing value that is zero or beyond the supported
/// horizon; otherwise the configuration comes back with the priors
/// normalized to exactly the full mass and everything else kept.
pub fn validate_settings(
    tags: Vec<String>,
    use_due_dates: Vec<bool>,
    raw_weights: &Vec<u64>,
    task_time: u64,
    min_break_time: u64,
    max_break_time: u64,
    maxno_min_breaks: u64,
) -> (r: Result<ConfigOptions, CoreError>)
    ensures
        match r {
            Ok(c) => {
                &&& c.wf()
                &&& c.tags == tags
                &&& c.use_due_dates == use_due_dates
                &&& priors_near_full(raw_weights@)
                &&& priors_normalized(raw_weights@, c.initial_tag_weights@)
                &&& c.task_time == task_time
                &&& c.min_break_time == min_break_time
                &&& c.max_break_time == max_break_time
                &&& c.maxno_min_breaks == maxno_min_breaks
            },
            Err(e) => {
                ||| {
                    &&& e == CoreError::TagVectorMismatch
                    &&& !(tags@.len() > 0 && use_due_dates@.len() == tags@.len()
                        && raw_weights@.len() == tags@.len())
                }
                ||| {
                    &&& e == CoreError::WeightSumOff
                    &&& tags@.len() > 0 && use_due_dates@.len() == tags@.len()
                        && raw_weights@.len() == tags@.len()
                    &&& !priors_near_full(raw_weights@)
                }
                ||| {
                    &&& e == CoreError::BadDuration
                    &&& tags@.len() > 0 && use_due_dates@.len() == tags@.len()
                        && raw_weights@.len() == tags@.len()
                    &&& priors_near_full(raw_weights@)
                    &&& !(1 <= task_time <= MAX_PHASE_MINUTES && 1 <= min_break_time
                        <= MAX_PHASE_MINUTES && 1 <= max_break_time <= MAX_PHASE_MINUTES && 1
                        <= maxno_min_breaks < u64::MAX)
                }
            },
        },
{
    if tags.len() == 0 || use_due_dates.len() != tags.len() || raw_weights.len() != tags.len() {
        return Err(CoreError::TagVectorMismatch);
    }
    let weights = match normalize_priors(raw_weights) {
        Ok(w) => w,
        Err(e) => {
            return Err(e);
        },
    };
    if task_time == 0 || task_time > MAX_PHASE_MINUTES || min_break_time == 0 || min_break_time
        > MAX_PHASE_MINUTES || max_break_time == 0 || max_break_time > MAX_PHASE_MINUTES
        || maxno_min_breaks == 0 || maxno_min_breaks == u64::MAX {
        return Err(CoreError::BadDuration);
    }
    Ok(
        ConfigOptions {
            tags,
            use_due_dates,
            initial_tag_weights: weights,
            min_break_time,
            max_break_time,
            task_time,
            maxno_min_breaks,
        },
    )
}

/// Today's position in the week: 1 for Monday through 7 for Sunday.
///
/// Relies on chrono: `Local::now`, `DateTime::date_naive`,
/// `Datelike::weekday` and `Weekday::number_from_monday`, whose documented
/// range is 1 to 7.
#[verifier::external_body]
fn current_weekday() -> (r: u8)
    ensures
        1 <= r <= 7,
{
    chrono::Datelike::weekday(&chrono::Local::now().date_naive()).number_from_monday() as u8
}

/// Pick the prior weight vector of the given weekday, 1 for Monday through
/// 7 for Sunday, out of the seven configured ones, Monday's first.
pub fn weights_for_day(weights_by_day: &Vec<Vec<u64>>, day: u8) -> (r: Vec<u64>)
    requires
        weights_by_day@.len() == 7,
        1 <= day <= 7,
    ensures
        r@ == weights_by_day@[day - 1]@,
{
    let chosen = &weights_by_day[(day - 1) as usize];
    let mut r: Vec<u64> = Vec::new();
    let mut i: usize = 0;
    while i < chosen.len()
        invariant
            i <= chosen@.len(),
            chosen@ == weights_by_day@[day - 1]@,
            r@.len() == i,
            forall|q: int| 0 <= q < i ==> r@[q] == chosen@[q],
        decreases chosen@.len() - i,
    {
        r.push(chosen[i]);
        i = i + 1;
    }
    proof {
        assert(r@ =~= chosen@);
    }
    r
}

/// Pick today's prior weight vector: the clock names the weekday, and
/// [`weights_for_day`] does the verified indexing, so whatever day the
/// clock names, the result is exactly that day's configured vector.
pub fn todays_weights(weights_by_day: &Vec<Vec<u64>>) -> (r: Vec<u64>)
    requires
        weights_by_day@.len() == 7,
    ensures
        exists|d: int| 1 <= d <= 7 && r@ == (#[trigger] weights_by_day@[d - 1])@,
{
    let day = current_weekday();
    weights_for_day(weights_by_day, day)
}

} // verus!
