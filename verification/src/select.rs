use vstd::prelude::*;
use crate::assignment_utils::{
    catalog_wf, count_tasks_to, group_share_at, group_wf, taskvector_to_stringvect,
    turn_assignmentvector_into_pdf, EligibleTask,
};
use crate::balance::{alive_count_to, balanced_at, tag_alive, update_tagweights};
use crate::errors::CoreError;
use crate::mass::{is_pmf, lemma_mass_sum_element_le, WEIGHT_SCALE};
use crate::rand_utils::roll_die;
use crate::weighttable::{
    create_weighttable, exact_table, row_spec, rows_sorted, sort_weighttable, WeightRow,
};

verus! {

/// Which tags still offer at least one eligible task.
pub open spec fn nonempty_flags(groups: Seq<Vec<EligibleTask>>) -> Seq<bool> {
    Seq::new(groups.len(), |t: int| groups[t]@.len() > 0)
}

/// The prior weights after balancing against the catalog's availability.
pub open spec fn balanced_weights(w: Seq<u64>, groups: Seq<Vec<EligibleTask>>) -> Seq<u64> {
    Seq::new(w.len(), |q: int| balanced_at(w, nonempty_flags(groups), q) as u64)
}

/// The row belongs to some task of the catalog, with the exact weights of
/// this selection.
pub open spec fn table_row_ok(
    row: WeightRow,
    groups: Seq<Vec<EligibleTask>>,
    tags: Seq<String>,
    w: Seq<u64>,
    use_dues: Seq<bool>,
) -> bool {
    exists|t: int, j: int|
        0 <= t < groups.len() && 0 <= j < groups[t]@.len() && #[trigger] row_spec(
            row,
            groups,
            tags,
            w,
            use_dues,
            t,
            j,
        )
}

/// Everything one selection hands to the caller: the chosen task's display
/// lines, the full task table, the sorted diagnostic weight table, and the
/// chosen task's name and tag index.
pub struct Selection {
    /// The chosen task's three display lines: tag, name, due instant.
    pub current_task: Vec<String>,
    /// Every eligible task as a `[tag, name, due instant]` row, in catalog
    /// order.
    pub all_tasks: Vec<Vec<String>>,
    /// The diagnostic weight table, ordered by falling overall chance.
    pub weight_table: Vec<WeightRow>,
    /// The chosen task's name, for the notification.
    pub chosen_name: String,
    /// The index of the chosen task's tag, for the completion counter.
    pub chosen_tag: usize,
}

/// The flat position `idx` is group `t`'s task `j`.
pub open spec fn splits_at(groups: Seq<Vec<EligibleTask>>, idx: int, t: int, j: int) -> bool {
    &&& 0 <= t < groups.len()
    &&& 0 <= j < groups[t]@.len()
    &&& idx == count_tasks_to(groups, t) + j
}

/// Every flat position below the catalog's task count falls inside exactly
/// one group's run of positions.
proof fn lemma_flat_index_split(groups: Seq<Vec<EligibleTask>>, n: int, idx: int)
    requires
        0 <= n <= groups.len(),
        0 <= idx < count_tasks_to(groups, n),
    ensures
        exists|t: int, j: int| #[trigger] splits_at(groups, idx, t, j) && t < n,
    decreases n,
{
    if n > 0 {
        if idx < count_tasks_to(groups, n - 1) {
            lemma_flat_index_split(groups, n - 1, idx);
        } else {
            let t = n - 1;
            let j = idx - count_tasks_to(groups, n - 1);
            assert(0 <= j) by {
            }
            assert(splits_at(groups, idx, t, j) && t < n);
        }
    }
}

/// Select one task to present: balance the prior tag weights against the
/// current availability, draw a tag, build that tag's task distribution,
/// draw a task, and assemble the rendering snapshot.
///
/// Succeeds exactly when some tag has both an eligible task and positive
/// prior weight.  The chosen tag always holds positive adjusted weight —
/// an emptied tag, whose weight was redistributed, can never be drawn —
/// and the chosen task always belongs to the chosen tag.  The snapshot is
/// pinned: the task table lists the whole catalog in order, and the weight
/// table is a sorted arrangement of the exact per-task chances.
pub fn choose_task(
    groups: &Vec<Vec<EligibleTask>>,
    tags: &Vec<String>,
    initial_tag_weights: &Vec<u64>,
    use_due_dates: &Vec<bool>,
) -> (r: Result<Selection, CoreError>)
    requires
        catalog_wf(groups@, tags@),
        groups@.len() == use_due_dates@.len(),
        initial_tag_weights@.len() == tags@.len(),
        is_pmf(initial_tag_weights@),
    ensures
        match r {
            Ok(sel) => {
                &&& alive_count_to(
                    initial_tag_weights@,
                    nonempty_flags(groups@),
                    groups@.len() as int,
                ) > 0
                &&& sel.chosen_tag < groups@.len()
                &&& groups@[sel.chosen_tag as int]@.len() > 0
                &&& balanced_at(
                    initial_tag_weights@,
                    nonempty_flags(groups@),
                    sel.chosen_tag as int,
                ) > 0
                &&& exists|j: int|
                    {
                        &&& 0 <= j < groups@[sel.chosen_tag as int]@.len()
                        &&& group_share_at(
                            groups@[sel.chosen_tag as int]@,
                            use_due_dates@[sel.chosen_tag as int],
                            j,
                        ) > 0
                        &&& sel.chosen_name@ == (#[trigger] groups@[sel.chosen_tag as int]@[j]).assign.name@
                        &&& sel.current_task@.len() == 3
                        &&& sel.current_task@[0]@ == groups@[sel.chosen_tag as int]@[j].assign.tag@
                            + "\n"@
                        &&& sel.current_task@[1]@ == groups@[sel.chosen_tag as int]@[j].assign.name@
                            + "\n"@
                        &&& sel.current_task@[2]@ == groups@[sel.chosen_tag as int]@[j].assign.due_time@
                            + "\n"@
                    }
                &&& crate::assignment_utils::taskvector_exact(sel.all_tasks@, groups@)
                &&& rows_sorted(sel.weight_table@)
                &&& exists|unsorted: Seq<WeightRow>|
                    #[trigger] exact_table(
                        unsorted,
                        groups@,
                        tags@,
                        balanced_weights(initial_tag_weights@, groups@),
                        use_due_dates@,
                    ) && sel.weight_table@.to_multiset() == unsorted.to_multiset()
                &&& sel.weight_table@.len() == count_tasks_to(groups@, groups@.len() as int)
                &&& forall|k: int|
                    0 <= k < sel.weight_table@.len() ==> table_row_ok(
                        #[trigger] sel.weight_table@[k],
                        groups@,
                        tags@,
                        balanced_weights(initial_tag_weights@, groups@),
                        use_due_dates@,
                    )
            },
            Err(e) => {
                &&& e == CoreError::NoWeightedTag
                &&& alive_count_to(
                    initial_tag_weights@,
                    nonempty_flags(groups@),
                    groups@.len() as int,
                ) == 0
            },
        },
{
    let ghost gg = groups@;
    let ghost ghas = nonempty_flags(groups@);
    let n = groups.len();

    let mut has: Vec<bool> = Vec::new();
    let mut t: usize = 0;
    while t < n
        invariant
            t <= n,
            n == gg.len(),
            gg == groups@,
            has@.len() == t,
            forall|q: int| 0 <= q < t ==> has@[q] == nonempty_flags(gg)[q],
        decreases n - t,
    {
        has.push(groups[t].len() > 0);
        t = t + 1;
    }
    proof {
        assert(has@ =~= ghas);
    }

    let adjusted = match update_tagweights(initial_tag_weights, &has) {
        Ok(a) => a,
        Err(e) => {
            return Err(e);
        },
    };
    proof {
        assert(is_pmf(adjusted@));
    }

    let tag_roll = match roll_die(&adjusted) {
        Ok(i) => i,
        Err(_) => {
            proof {
                assert(false);
            }
            return Err(CoreError::MassNotOne);
        },
    };
    proof {
        assert(adjusted@[tag_roll as int] == balanced_at(initial_tag_weights@, ghas, tag_roll as int));
        assert(tag_alive(initial_tag_weights@, ghas, tag_roll as int));
        assert(gg[tag_roll as int]@.len() > 0);
    }

    let g = &groups[tag_roll];
    let pdf = match turn_assignmentvector_into_pdf(g, use_due_dates[tag_roll]) {
        Ok(p) => p,
        Err(_) => {
            proof {
                assert(false);
            }
            return Err(CoreError::EmptyCatalog);
        },
    };

    let task_roll = match roll_die(&pdf) {
        Ok(j) => j,
        Err(_) => {
            proof {
                assert(false);
            }
            return Err(CoreError::MassNotOne);
        },
    };

    let chosen = &g[task_roll];
    let current_task = taskvector_to_stringvect(&chosen.assign);
    let all_tasks = crate::assignment_utils::catalog_to_taskvector(groups);

    proof {
        assert forall|q: int| 0 <= q < adjusted@.len() implies #[trigger] adjusted@[q]
            <= WEIGHT_SCALE by {
            lemma_mass_sum_element_le(adjusted@, q);
        }
        assert forall|t2: int| 0 <= t2 < gg.len() implies group_wf((#[trigger] gg[t2])@) by {
            assert(catalog_wf(gg, tags@));
        }
    }
    let unsorted = create_weighttable(groups, tags, &adjusted, use_due_dates);
    let ghost gunsorted = unsorted@;
    let table = sort_weighttable(unsorted);

    proof {
        broadcast use vstd::seq_lib::group_to_multiset_ensures;

        assert(adjusted@ =~= balanced_weights(initial_tag_weights@, gg));
        assert(exact_table(
            gunsorted,
            gg,
            tags@,
            balanced_weights(initial_tag_weights@, gg),
            use_due_dates@,
        ) && table@.to_multiset() == gunsorted.to_multiset());
        assert forall|k: int| 0 <= k < table@.len() implies table_row_ok(
            #[trigger] table@[k],
            gg,
            tags@,
            balanced_weights(initial_tag_weights@, gg),
            use_due_dates@,
        ) by {
            let row = table@[k];
            assert(table@.contains(row));
            assert(table@.to_multiset().count(row) > 0);
            assert(gunsorted.to_multiset().count(row) > 0);
            assert(gunsorted.contains(row));
            let idx = choose|idx: int| 0 <= idx < gunsorted.len() && gunsorted[idx] == row;
            lemma_flat_index_split(gg, gg.len() as int, idx);
            let (t2, j2): (int, int) = choose|t2: int, j2: int|
                #[trigger] splits_at(gg, idx, t2, j2) && t2 < gg.len();
            assert(row_spec(row, gg, tags@, adjusted@, use_due_dates@, t2, j2));
        }
    }

    let chosen_name = chosen.assign.name.clone();
    Ok(
        Selection {
            current_task,
            all_tasks,
            weight_table: table,
            chosen_name,
            chosen_tag: tag_roll,
        },
    )
}

/// One completion counter per tag, all starting at zero.
pub fn get_tag_counter(n: usize) -> (r: Vec<u64>)
    ensures
        r@.len() == n,
        forall|t: int| 0 <= t < n ==> r@[t] == 0,
{
    let mut r: Vec<u64> = Vec::new();
    let mut t: usize = 0;
    while t < n
        invariant
            t <= n,
            r@.len() == t,
            forall|q: int| 0 <= q < t ==> r@[q] == 0,
        decreases n - t,
    {
        r.push(0);
        t = t + 1;
    }
    r
}

/// Count one more completed task for the given tag.  The counter saturates
/// rather than wrap, though no sitting could ever reach that.
pub fn bump_tag_counter(ctr: &mut Vec<u64>, t: usize)
    requires
        t < old(ctr)@.len(),
    ensures
        final(ctr)@.len() == old(ctr)@.len(),
        final(ctr)@[t as int] == if old(ctr)@[t as int] < u64::MAX {
            old(ctr)@[t as int] + 1
        } else {
            old(ctr)@[t as int] as int
        },
        forall|q: int|
            0 <= q < old(ctr)@.len() && q != t ==> final(ctr)@[q] == old(ctr)@[q],
{
    if ctr[t] < u64::MAX {
        let v = ctr[t] + 1;
        ctr[t] = v;
    }
}

} // verus!
