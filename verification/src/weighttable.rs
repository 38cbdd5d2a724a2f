use vstd::prelude::*;
use crate::assignment_utils::{
    count_tasks_to, group_share_at, group_wf, lemma_count_tasks_lt, lemma_count_tasks_nonneg,
    EligibleTask,
};
use crate::mass::{lemma_mass_sum_element_le, WEIGHT_SCALE};
use vstd::multiset::Multiset;

verus! {

/// One diagnostic row of the tag-weight table: a task, the mass of its tag,
/// its own share inside the tag, and the product of the two — the overall
/// chance of this very task being drawn — all in parts per million.
pub struct WeightRow {
    /// The owning tag's label.
    pub tag: String,
    /// The task's name.
    pub name: String,
    /// The adjusted mass of the task's tag.
    pub tag_weight: u64,
    /// The task's share within its tag.
    pub task_share: u64,
    /// Tag mass multiplied by task share, in parts per million: how
    /// likely this very task is to come up.
    pub overall_share: u64,
}

impl Clone for WeightRow {
    /// An exact copy.
    fn clone(&self) -> (r: Self)
        ensures
            r == *self,
    {
        WeightRow {
            tag: self.tag.clone(),
            name: self.name.clone(),
            tag_weight: self.tag_weight,
            task_share: self.task_share,
            overall_share: self.overall_share,
        }
    }
}

/// What the row for task `j` of group `t` must hold.
pub open spec fn row_spec(
    row: WeightRow,
    groups: Seq<Vec<EligibleTask>>,
    tags: Seq<String>,
    tag_weights: Seq<u64>,
    use_dues: Seq<bool>,
    t: int,
    j: int,
) -> bool {
    &&& row.tag@ == tags[t]@
    &&& row.name@ == groups[t]@[j].assign.name@
    &&& row.tag_weight == tag_weights[t]
    &&& row.task_share == group_share_at(groups[t]@, use_dues[t], j)
    &&& row.overall_share == (tag_weights[t] * group_share_at(groups[t]@, use_dues[t], j))
        / (WEIGHT_SCALE as int)
}

/// A weight table is exact when it holds one row per task of the catalog,
/// in catalog order, each row meeting [`row_spec`].
pub open spec fn exact_table(
    rows: Seq<WeightRow>,
    groups: Seq<Vec<EligibleTask>>,
    tags: Seq<String>,
    tag_weights: Seq<u64>,
    use_dues: Seq<bool>,
) -> bool {
    &&& rows.len() == count_tasks_to(groups, groups.len() as int)
    &&& forall|t: int, j: int|
        0 <= t < groups.len() && 0 <= j < groups[t]@.len() ==> row_spec(
            #[trigger] rows[count_tasks_to(groups, t) + j],
            groups,
            tags,
            tag_weights,
            use_dues,
            t,
            j,
        )
}

/// Build the diagnostic weight table, one row per task, in catalog order:
/// group by group, each group in its stored order.  Empty groups contribute
/// no rows.  The rows are exact: each holds its tag's adjusted mass, the
/// task's share within the tag, and their scaled product.
pub fn create_weighttable(
    groups: &Vec<Vec<EligibleTask>>,
    tags: &Vec<String>,
    tag_weights: &Vec<u64>,
    use_dues: &Vec<bool>,
) -> (r: Vec<WeightRow>)
    requires
        groups@.len() == tags@.len(),
        groups@.len() == tag_weights@.len(),
        groups@.len() == use_dues@.len(),
        forall|t: int| 0 <= t < groups@.len() ==> group_wf((#[trigger] groups@[t])@),
        forall|t: int| 0 <= t < tag_weights@.len() ==> #[trigger] tag_weights@[t] <= WEIGHT_SCALE,
    ensures
        exact_table(r@, groups@, tags@, tag_weights@, use_dues@),
{
    let ghost gg = groups@;
    let ghost gt = tags@;
    let ghost gw = tag_weights@;
    let ghost gu = use_dues@;
    let n = groups.len();
    let mut r: Vec<WeightRow> = Vec::new();
    let mut t: usize = 0;
    while t < n
        invariant
            t <= n,
            n == gg.len(),
            gg == groups@,
            gt == tags@,
            gw == tag_weights@,
            gu == use_dues@,
            gg.len() == gt.len(),
            gg.len() == gw.len(),
            gg.len() == gu.len(),
            forall|t2: int| 0 <= t2 < gg.len() ==> group_wf((#[trigger] gg[t2])@),
            forall|t2: int| 0 <= t2 < gw.len() ==> #[trigger] gw[t2] <= WEIGHT_SCALE,
            r@.len() == count_tasks_to(gg, t as int),
            forall|t2: int, j: int|
                0 <= t2 < t && 0 <= j < gg[t2]@.len() ==> row_spec(
                    #[trigger] r@[count_tasks_to(gg, t2) + j],
                    gg,
                    gt,
                    gw,
                    gu,
                    t2,
                    j,
                ),
        decreases n - t,
    {
        let g = &groups[t];
        if g.len() > 0 {
            let pdf = match crate::assignment_utils::turn_assignmentvector_into_pdf(
                g,
                use_dues[t],
            ) {
                Ok(p) => p,
                Err(_) => {
                    proof {
                        assert(false);
                    }
                    return r;
                },
            };
            let w = tag_weights[t];
            let mut j: usize = 0;
            while j < g.len()
                invariant
                    j <= g@.len(),
                    gg == groups@,
                    gt == tags@,
                    gw == tag_weights@,
                    gu == use_dues@,
                    gg.len() == gt.len(),
                    gg.len() == gw.len(),
                    gg.len() == gu.len(),
                    t < gg.len(),
                    g@ == gg[t as int]@,
                    w == gw[t as int],
                    w <= WEIGHT_SCALE,
                    pdf@.len() == g@.len(),
                    crate::mass::is_pmf(pdf@),
                    forall|q: int|
                        0 <= q < pdf@.len() ==> pdf@[q] == group_share_at(
                            gg[t as int]@,
                            gu[t as int],
                            q,
                        ),
                    r@.len() == count_tasks_to(gg, t as int) + j,
                    forall|t2: int, j2: int|
                        0 <= t2 < t && 0 <= j2 < gg[t2]@.len() ==> row_spec(
                            #[trigger] r@[count_tasks_to(gg, t2) + j2],
                            gg,
                            gt,
                            gw,
                            gu,
                            t2,
                            j2,
                        ),
                    forall|j2: int|
                        0 <= j2 < j ==> row_spec(
                            #[trigger] r@[count_tasks_to(gg, t as int) + j2],
                            gg,
                            gt,
                            gw,
                            gu,
                            t as int,
                            j2,
                        ),
                decreases g@.len() - j,
            {
                proof {
                    lemma_mass_sum_element_le(pdf@, j as int);
                    vstd::arithmetic::mul::lemma_mul_upper_bound(
                        w as int,
                        WEIGHT_SCALE as int,
                        pdf@[j as int] as int,
                        WEIGHT_SCALE as int,
                    );
                    vstd::arithmetic::div_mod::lemma_div_nonincreasing(
                        (w * pdf@[j as int]) as int,
                        WEIGHT_SCALE as int,
                    );
                    vstd::arithmetic::mul::lemma_mul_nonnegative(w as int, pdf@[j as int] as int);
                }
                let share = pdf[j];
                let row = WeightRow {
                    tag: tags[t].clone(),
                    name: g[j].assign.name.clone(),
                    tag_weight: w,
                    task_share: share,
                    overall_share: (w * share) / WEIGHT_SCALE,
                };
                let ghost prevr = r@;
                r.push(row);
                proof {
                    lemma_count_tasks_nonneg(gg, t as int);
                    assert forall|t2: int, j2: int|
                        0 <= t2 < t && 0 <= j2 < gg[t2]@.len() implies (#[trigger] r@[
                    count_tasks_to(gg, t2) + j2]) == prevr[count_tasks_to(gg, t2) + j2] by {
                        lemma_count_tasks_nonneg(gg, t2);
                        lemma_count_tasks_lt(gg, t2, j2, t as int);
                    }
                }
                j = j + 1;
            }
        }
        proof {
            lemma_count_tasks_nonneg(gg, t as int);
        }
        t = t + 1;
    }
    r
}

/// Rows ordered by falling overall chance.
pub open spec fn rows_sorted(s: Seq<WeightRow>) -> bool {
    forall|i: int, j: int|
        0 <= i <= j < s.len() ==> (#[trigger] s[i]).overall_share >= (#[trigger] s[j]).overall_share
}

/// Inserting anywhere into a sequence adds exactly one copy to its
/// multiset.
proof fn lemma_to_multiset_insert(s: Seq<WeightRow>, i: int, v: WeightRow)
    requires
        0 <= i <= s.len(),
    ensures
        s.insert(i, v).to_multiset() =~= s.to_multiset().insert(v),
{
    broadcast use vstd::multiset::group_multiset_axioms;
    broadcast use vstd::seq_lib::group_to_multiset_ensures;

    let t = s.insert(i, v);
    assert(t.remove(i) =~= s);
    vstd::seq_lib::to_multiset_remove(t, i);
    assert(t[i] == v);
    assert(t.contains(v));
    assert(t.to_multiset().count(v) > 0);
    assert forall|x: WeightRow|
        t.to_multiset().count(x) == s.to_multiset().insert(v).count(x) by {
        if x == v {
            assert(t.to_multiset().remove(v).count(v) == t.to_multiset().count(v) - 1);
        } else {
            assert(t.to_multiset().remove(v).count(x) == t.to_multiset().count(x));
        }
    }
}

/// Order the weight table by falling overall chance, keeping exactly the
/// same rows: the result is a sorted rearrangement, nothing added, nothing
/// lost.
pub fn sort_weighttable(rows: Vec<WeightRow>) -> (r: Vec<WeightRow>)
    ensures
        rows_sorted(r@),
        r@.to_multiset() == rows@.to_multiset(),
        r@.len() == rows@.len(),
{
    broadcast use vstd::seq_lib::group_to_multiset_ensures;

    let ghost orig = rows@;
    let mut rem = rows;
    let mut out: Vec<WeightRow> = Vec::new();
    while rem.len() > 0
        invariant
            rows_sorted(out@),
            out@.to_multiset().add(rem@.to_multiset()) =~= orig.to_multiset(),
            out@.len() + rem@.len() == orig.len(),
        decreases rem@.len(),
    {
        let ghost prev_rem = rem@;
        let x = match rem.pop() {
            Some(x) => x,
            None => {
                proof {
                    assert(false);
                }
                return out;
            },
        };
        proof {
            broadcast use vstd::seq_lib::group_to_multiset_ensures;

            assert(rem@.push(x) =~= prev_rem);
            assert(rem@.push(x).to_multiset() =~= rem@.to_multiset().insert(x));
        }
        let mut p: usize = 0;
        while p < out.len()
            invariant
                p <= out@.len(),
                forall|q: int| 0 <= q < p ==> (#[trigger] out@[q]).overall_share >= x.overall_share,
            ensures
                p <= out@.len(),
                forall|q: int| 0 <= q < p ==> (#[trigger] out@[q]).overall_share >= x.overall_share,
                p < out@.len() ==> out@[p as int].overall_share < x.overall_share,
            decreases out@.len() - p,
        {
            if out[p].overall_share < x.overall_share {
                break;
            }
            p = p + 1;
        }
        let ghost prev_out = out@;
        out.insert(p, x);
        proof {
            broadcast use vstd::multiset::group_multiset_axioms;

            lemma_to_multiset_insert(prev_out, p as int, x);
            assert forall|y: WeightRow|
                out@.to_multiset().add(rem@.to_multiset()).count(y) == orig.to_multiset().count(
                y) by {
                assert(prev_out.to_multiset().add(prev_rem.to_multiset()).count(y) == orig
                    .to_multiset().count(y));
            }
            assert(out@.to_multiset().add(rem@.to_multiset()) =~= orig.to_multiset());
            prev_out.insert_ensures(p as int, x);
            assert forall|i: int, j: int|
                0 <= i <= j < out@.len() implies (#[trigger] out@[i]).overall_share >= (
            #[trigger] out@[j]).overall_share by {
                if j < p {
                } else if i < p && j == p {
                    assert(out@[j] == x);
                } else if i == p && j == p {
                } else if i <= p && j > p {
                    assert(out@[j] == prev_out[j - 1]);
                    assert(prev_out[j - 1].overall_share <= prev_out[p as int].overall_share);
                } else {
                    assert(out@[i] == prev_out[i - 1]);
                    assert(out@[j] == prev_out[j - 1]);
                }
            }
        }
    }
    proof {
        broadcast use vstd::multiset::group_multiset_axioms;
        assert(rem@.to_multiset() =~= Multiset::<WeightRow>::empty());
        assert(out@.to_multiset() =~= orig.to_multiset());
    }
    out
}

} // verus!
