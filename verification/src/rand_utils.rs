use vstd::prelude::*;
use crate::errors::CoreError;
use crate::mass::{
    is_pmf, lemma_mass_sum_bounds, lemma_mass_sum_take_full, lemma_mass_sum_take_le,
    lemma_mass_sum_take_monotone, lemma_mass_sum_take_step, mass_sum, WEIGHT_SCALE,
};

verus! {

/// The value of a cumulative distribution at one index: the mass of the
/// prefix up to and including that index.
pub open spec fn cdf_at(pdf: Seq<u64>, i: int) -> int {
    mass_sum(pdf.take(i + 1))
}

/// Turn a probability mass function into its cumulative distribution.
///
/// This is the single integrity gate protecting every draw: a vector that
/// does not carry the full mass is rejected, never silently clamped.
/// On success the result is the prefix-sum vector: non-decreasing, of the
/// same length, with final element exactly `WEIGHT_SCALE`.
pub fn make_cdf(pdf: &Vec<u64>) -> (r: Result<Vec<u64>, CoreError>)
    ensures
        match r {
            Ok(cdf) => {
                &&& is_pmf(pdf@)
                &&& cdf@.len() == pdf@.len()
                &&& forall|i: int| 0 <= i < cdf@.len() ==> cdf@[i] == cdf_at(pdf@, i)
                &&& forall|i: int, j: int| 0 <= i <= j < cdf@.len() ==> cdf@[i] <= cdf@[j]
                &&& cdf@[cdf@.len() - 1] == WEIGHT_SCALE
            },
            Err(e) => {
                &&& e == CoreError::MassNotOne
                &&& !is_pmf(pdf@)
            },
        },
{
    let n = pdf.len();
    let mut total: u128 = 0;
    let mut i: usize = 0;
    while i < n
        invariant
            i <= n,
            n == pdf@.len(),
            total == mass_sum(pdf@.take(i as int)),
        decreases n - i,
    {
        proof {
            lemma_mass_sum_bounds(pdf@.take(i as int));
            lemma_mass_sum_take_step(pdf@, i as int);
            assert((i as int) * (u64::MAX as int) + (u64::MAX as int) < u128::MAX as int)
                by (nonlinear_arith)
                requires
                    0 <= i as int <= u64::MAX as int,
            ;
        }
        total = total + pdf[i] as u128;
        i = i + 1;
    }
    proof {
        lemma_mass_sum_take_full(pdf@);
    }
    if n == 0 || total != WEIGHT_SCALE as u128 {
        return Err(CoreError::MassNotOne);
    }

    let mut cdf: Vec<u64> = Vec::new();
    let mut acc: u64 = 0;
    let mut k: usize = 0;
    while k < n
        invariant
            k <= n,
            n == pdf@.len(),
            mass_sum(pdf@) == WEIGHT_SCALE,
            acc == mass_sum(pdf@.take(k as int)),
            cdf@.len() == k,
            forall|j: int| 0 <= j < k ==> cdf@[j] == cdf_at(pdf@, j),
        decreases n - k,
    {
        proof {
            lemma_mass_sum_take_step(pdf@, k as int);
            lemma_mass_sum_take_le(pdf@, k as int + 1);
            lemma_mass_sum_bounds(pdf@.take(k as int));
        }
        acc = acc + pdf[k];
        cdf.push(acc);
        k = k + 1;
    }
    proof {
        lemma_mass_sum_take_full(pdf@);
        assert(cdf@[n - 1] == cdf_at(pdf@, n - 1));
        assert forall|i: int, j: int| 0 <= i <= j < cdf@.len() implies cdf@[i] <= cdf@[j] by {
            lemma_mass_sum_take_monotone(pdf@, i + 1, j + 1);
        }
    }
    Ok(cdf)
}

/// Draw from a cumulative distribution with one uniform value: the smallest
/// index whose cumulative mass lies strictly above the tossed value.
///
/// Failure means no index lies above the toss; with a well-formed
/// distribution, whose final entry is the full mass, this cannot happen for
/// a toss below the full mass, and it is reported as an invariant violation.
pub fn draw(cdf: &Vec<u64>, toss: u64) -> (r: Result<usize, CoreError>)
    ensures
        match r {
            Ok(i) => {
                &&& i < cdf@.len()
                &&& toss < cdf@[i as int]
                &&& forall|j: int| 0 <= j < i ==> cdf@[j] <= toss
            },
            Err(e) => {
                &&& e == CoreError::NoDrawIndex
                &&& forall|j: int| 0 <= j < cdf@.len() ==> cdf@[j] <= toss
            },
        },
{
    let n = cdf.len();
    let mut i: usize = 0;
    while i < n
        invariant
            i <= n,
            n == cdf@.len(),
            forall|j: int| 0 <= j < i ==> cdf@[j] <= toss,
        decreases n - i,
    {
        if toss < cdf[i] {
            return Ok(i);
        }
        i = i + 1;
    }
    Err(CoreError::NoDrawIndex)
}

/// Law: inverse-transform sampling is exactly fair.  Under a full-mass
/// distribution, index `i` is selected for precisely the tosses in the
/// half-open band from `cdf_at(pdf, i - 1)` up to `cdf_at(pdf, i)` — by
/// [`draw`]'s contract, the chosen index is the least one whose cumulative
/// mass lies above the toss — and this law says the band holds exactly
/// `pdf[i]` of the `WEIGHT_SCALE` possible tosses, so a uniform toss picks
/// every index with chance proportional to its weight.
pub proof fn lemma_draw_is_fair(pdf: Seq<u64>, i: int)
    requires
        is_pmf(pdf),
        0 <= i < pdf.len(),
    ensures
        cdf_at(pdf, i) - cdf_at(pdf, i - 1) == pdf[i],
        0 <= cdf_at(pdf, i - 1) <= cdf_at(pdf, i) <= WEIGHT_SCALE,
{
    lemma_mass_sum_take_step(pdf, i);
    lemma_mass_sum_bounds(pdf.take(i));
    lemma_mass_sum_take_le(pdf, i + 1);
}

/// Relies on `rand::Rng::gen_range` over `rand::thread_rng` for one uniform
/// draw from `0..bound`; nothing more than the range is assumed of it.
#[verifier::external_body]
fn random_below(bound: u64) -> (r: u64)
    requires
        bound > 0,
    ensures
        r < bound,
{
    rand::Rng::gen_range(&mut rand::thread_rng(), 0..bound)
}

/// Roll a weighted die: pick an index of the given probability mass
/// function, with chance proportional to its weight.
///
/// Succeeds exactly on well-formed distributions, and the returned index
/// always carries strictly positive mass, so a zero-weighted side can never
/// come up.
pub fn roll_die(pdf: &Vec<u64>) -> (r: Result<usize, CoreError>)
    ensures
        match r {
            Ok(i) => {
                &&& is_pmf(pdf@)
                &&& i < pdf@.len()
                &&& pdf@[i as int] > 0
            },
            Err(e) => {
                &&& e == CoreError::MassNotOne
                &&& !is_pmf(pdf@)
            },
        },
{
    let cdf = match make_cdf(pdf) {
        Ok(c) => c,
        Err(e) => {
            return Err(e);
        },
    };
    let toss = random_below(WEIGHT_SCALE);
    match draw(&cdf, toss) {
        Ok(i) => {
            proof {
                assert(cdf@[i as int] == cdf_at(pdf@, i as int));
                lemma_mass_sum_take_step(pdf@, i as int);
                if i > 0 {
                    assert(cdf@[i as int - 1] <= toss);
                    assert(cdf@[i as int - 1] == cdf_at(pdf@, i as int - 1));
                } else {
                    assert(pdf@.take(0).len() == 0);
                }
                assert(pdf@[i as int] > 0);
            }
            Ok(i)
        },
        Err(_) => {
            proof {
                assert(cdf@[cdf@.len() - 1] <= toss);
                assert(false);
            }
            Err(CoreError::NoDrawIndex)
        },
    }
}

} // verus!
