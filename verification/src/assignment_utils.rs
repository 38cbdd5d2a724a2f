use vstd::prelude::*;
use crate::errors::CoreError;
use crate::urgency::MAX_DEADLINE_MINUTES;

verus! {

/// One task record: what it is called, which tag owns it, and the due
/// instant as written in the task source (empty when the task has none).
#[derive(Debug, PartialEq, Eq)]
pub struct Assignment {
    /// The task's name.
    pub name: String,
    /// The owning tag's label.
    pub tag: String,
    /// The due instant, `YYYY-MM-DD HH:MM` local time, or empty for none.
    pub due_time: String,
}

impl Clone for Assignment {
    /// An exact copy.
    fn clone(&self) -> (r: Self)
        ensures
            r == *self,
    {
        Assignment { name: self.name.clone(), tag: self.tag.clone(), due_time: self.due_time.clone() }
    }
}

/// Whether two records carry the same content.
pub open spec fn same_record(a: Assignment, b: Assignment) -> bool {
    &&& a.name@ == b.name@
    &&& a.tag@ == b.tag@
    &&& a.due_time@ == b.due_time@
}

/// Whether a record's tag occurs nowhere in the configured tag list.
pub open spec fn tag_missing(a: Assignment, tags: Seq<String>) -> bool {
    forall|t: int| 0 <= t < tags.len() ==> (#[trigger] tags[t]@) != a.tag@
}

/// A stored weighting deadline is already clamped to the supported range.
pub open spec fn due_minutes_wf(m: Option<u64>) -> bool {
    match m {
        Some(v) => 1 <= v <= MAX_DEADLINE_MINUTES,
        None => true,
    }
}

/// A task that passed the eligibility filter, together with its weighting
/// deadline: the minutes left until it is due, clamped to the positive
/// floor and the supported horizon, or nothing when it has no due instant.
#[derive(Debug, PartialEq, Eq)]
pub struct EligibleTask {
    /// The record itself.
    pub assign: Assignment,
    /// Minutes until due, clamped; `None` for a task without a due instant.
    pub due_minutes: Option<u64>,
}

impl Clone for EligibleTask {
    /// An exact copy.
    fn clone(&self) -> (r: Self)
        ensures
            r == *self,
    {
        EligibleTask { assign: self.assign.clone(), due_minutes: self.due_minutes }
    }
}

/// A catalog is well formed for a tag list when there is one group per tag,
/// every stored task names its group's tag, and every stored deadline is
/// clamped into the supported range.
pub open spec fn catalog_wf(groups: Seq<Vec<EligibleTask>>, tags: Seq<String>) -> bool {
    &&& groups.len() == tags.len()
    &&& forall|t: int, j: int|
        0 <= t < groups.len() && 0 <= j < groups[t]@.len() ==> (#[trigger] groups[t]@[j]).assign.tag@
            == tags[t]@ && due_minutes_wf(groups[t]@[j].due_minutes)
}

/// Minutes from now until the given due instant, in local time.
///
/// Relies on chrono: `NaiveDateTime::parse_from_str` with the
/// `%Y-%m-%d %H:%M` format, `and_local_timezone(Local)`, `Local::now` and
/// `TimeDelta::num_minutes`.  The answer depends on the clock and the
/// machine's time zone, so nothing is assumed of the value; an unparseable
/// or non-existent local instant comes back as `None`, a past instant as a
/// negative number.
#[verifier::external_body]
fn find_timeuntildue(due_time: &str) -> (r: Option<i64>)
{
    let naive = match chrono::NaiveDateTime::parse_from_str(due_time, "%Y-%m-%d %H:%M") {
        Ok(naive) => naive,
        Err(_) => return None,
    };
    let local = match naive.and_local_timezone(chrono::Local) {
        chrono::LocalResult::Single(dt) => dt,
        chrono::LocalResult::Ambiguous(dt, _) => dt,
        chrono::LocalResult::None => return None,
    };
    Some(local.signed_duration_since(chrono::Local::now()).num_minutes())
}

/// Clamp a non-negative minute count into the weighting range.
fn clamp_minutes(m: i64) -> (r: u64)
    requires
        m >= 0,
    ensures
        1 <= r <= MAX_DEADLINE_MINUTES,
        1 <= m <= MAX_DEADLINE_MINUTES ==> r == m,
{
    if m < 1 {
        1
    } else if m > MAX_DEADLINE_MINUTES as i64 {
        MAX_DEADLINE_MINUTES
    } else {
        m as u64
    }
}

/// The position of a label in the tag list: the first index holding it, or
/// the list's length when it occurs nowhere.
pub open spec fn tag_index_in(tags: Seq<String>, label: Seq<char>) -> int
    decreases tags.len(),
{
    if tags.len() == 0 {
        0
    } else if tags[0]@ == label {
        0
    } else {
        1 + tag_index_in(tags.drop_first(), label)
    }
}

/// What the position means: in range it is the first index holding the
/// label; at the length, the label occurs nowhere.
pub proof fn lemma_tag_index_in(tags: Seq<String>, label: Seq<char>)
    ensures
        0 <= tag_index_in(tags, label) <= tags.len(),
        tag_index_in(tags, label) < tags.len() ==> tags[tag_index_in(tags, label)]@ == label,
        forall|j: int| 0 <= j < tag_index_in(tags, label) ==> (#[trigger] tags[j]@) != label,
        tag_index_in(tags, label) == tags.len() ==> forall|j: int|
            0 <= j < tags.len() ==> (#[trigger] tags[j]@) != label,
    decreases tags.len(),
{
    if tags.len() > 0 && tags[0]@ != label {
        lemma_tag_index_in(tags.drop_first(), label);
        assert forall|j: int| 1 <= j < tags.len() implies tags.drop_first()[j - 1] == tags[j] by {}
    }
}

/// The index of a tag in the tag list, by label: exactly
/// [`tag_index_in`]'s answer, as an executable search.
fn find_tag_index(tag: &String, tag_list: &Vec<String>) -> (r: Option<usize>)
    ensures
        match r {
            Some(t) => {
                &&& t < tag_list@.len()
                &&& tag_list@[t as int]@ == tag@
                &&& t as int == tag_index_in(tag_list@, tag@)
            },
            None => {
                &&& tag_index_in(tag_list@, tag@) == tag_list@.len()
                &&& forall|t: int| 0 <= t < tag_list@.len() ==> (#[trigger] tag_list@[t]@) != tag@
            },
        },
{
    let mut t: usize = 0;
    while t < tag_list.len()
        invariant
            t <= tag_list@.len(),
            forall|q: int| 0 <= q < t ==> (#[trigger] tag_list@[q]@) != tag@,
        decreases tag_list@.len() - t,
    {
        if *tag == tag_list[t] {
            proof {
                lemma_tag_index_in(tag_list@, tag@);
                let ti = tag_index_in(tag_list@, tag@);
                if ti == tag_list@.len() {
                    assert(tag_list@[t as int]@ != tag@);
                    assert(false);
                }
                if ti < t {
                    assert(tag_list@[ti]@ != tag@);
                    assert(tag_list@[ti]@ == tag@);
                    assert(false);
                }
                if ti > t {
                    assert(tag_list@[t as int]@ != tag@);
                    assert(false);
                }
            }
            return Some(t);
        }
        t = t + 1;
    }
    proof {
        lemma_tag_index_in(tag_list@, tag@);
        let ti = tag_index_in(tag_list@, tag@);
        if ti < tag_list@.len() {
            assert(tag_list@[ti]@ != tag@);
            assert(tag_list@[ti]@ == tag@);
            assert(false);
        }
    }
    None
}

/// The eligibility verdict for one record, taken once per load: `None`
/// when the record is skipped (its due instant failed to parse, or it is
/// already past due), `Some(d)` when it is eligible, carrying its clamped
/// weighting deadline or nothing for a record without a due instant.
pub open spec fn verdict_wf(v: Option<Option<u64>>) -> bool {
    match v {
        Some(d) => due_minutes_wf(d),
        None => true,
    }
}

/// A verdict vector that fits the records: one verdict per record, each
/// well formed, and a record with no due instant — which needs no clock —
/// always judged eligible without a weighting deadline.
pub open spec fn verdicts_match(tasks: Seq<Assignment>, vs: Seq<Option<Option<u64>>>) -> bool {
    &&& vs.len() == tasks.len()
    &&& (forall|k: int| 0 <= k < vs.len() ==> verdict_wf(#[trigger] vs[k]))
    &&& forall|k: int|
        0 <= k < tasks.len() && (#[trigger] tasks[k]).due_time@.len() == 0 ==> vs[k] == Some(
            Option::<u64>::None,
        )
}

/// Whether some eligible record names a tag outside the configuration.
pub open spec fn some_unknown(
    tasks: Seq<Assignment>,
    vs: Seq<Option<Option<u64>>>,
    tags: Seq<String>,
) -> bool {
    exists|k: int|
        0 <= k < tasks.len() && (#[trigger] vs[k]) is Some && tag_index_in(tags, tasks[k].tag@)
            == tags.len()
}

/// Whether every record was judged ineligible.
pub open spec fn none_eligible(vs: Seq<Option<Option<u64>>>) -> bool {
    forall|k: int| 0 <= k < vs.len() ==> (#[trigger] vs[k]) is None
}

/// Tag `t`'s group over the first `n` records: exactly the eligible ones
/// whose tag sits at position `t`, in record order, each with its verdict's
/// weighting deadline.
pub open spec fn grouped_to(
    tasks: Seq<Assignment>,
    vs: Seq<Option<Option<u64>>>,
    tags: Seq<String>,
    t: int,
    n: int,
) -> Seq<EligibleTask>
    decreases n,
{
    if n <= 0 {
        Seq::empty()
    } else {
        let rest = grouped_to(tasks, vs, tags, t, n - 1);
        match vs[n - 1] {
            Option::Some(d) => {
                if tag_index_in(tags, tasks[n - 1].tag@) == t {
                    rest.push(EligibleTask { assign: tasks[n - 1], due_minutes: d })
                } else {
                    rest
                }
            },
            Option::None => rest,
        }
    }
}

/// What the whole load returns, as a function of the verdicts: the exact
/// groups when every eligible record's tag is configured and at least one
/// record is eligible; the unknown-tag fault when one is not; the
/// empty-catalog fault exactly when nothing at all is eligible.
pub open spec fn load_outcome(
    tasks: Seq<Assignment>,
    tags: Seq<String>,
    vs: Seq<Option<Option<u64>>>,
    r: Result<Vec<Vec<EligibleTask>>, CoreError>,
) -> bool {
    match r {
        Ok(groups) => {
            &&& !some_unknown(tasks, vs, tags)
            &&& !none_eligible(vs)
            &&& groups@.len() == tags.len()
            &&& forall|t: int|
                0 <= t < tags.len() ==> (#[trigger] groups@[t])@ == grouped_to(
                    tasks,
                    vs,
                    tags,
                    t,
                    tasks.len() as int,
                )
        },
        Err(e) => {
            ||| {
                &&& e == CoreError::UnknownTag
                &&& some_unknown(tasks, vs, tags)
            }
            ||| {
                &&& e == CoreError::EmptyCatalog
                &&& !some_unknown(tasks, vs, tags)
                &&& none_eligible(vs)
            }
        },
    }
}

/// Every task of a group names its group's tag, has a clamped deadline,
/// and is one of the first `n` records.
pub proof fn lemma_grouped_to_props(
    tasks: Seq<Assignment>,
    vs: Seq<Option<Option<u64>>>,
    tags: Seq<String>,
    t: int,
    n: int,
)
    requires
        vs.len() == tasks.len(),
        forall|k: int| 0 <= k < vs.len() ==> verdict_wf(#[trigger] vs[k]),
        0 <= t < tags.len(),
        0 <= n <= tasks.len(),
    ensures
        forall|j: int|
            0 <= j < grouped_to(tasks, vs, tags, t, n).len() ==> {
                let it = #[trigger] grouped_to(tasks, vs, tags, t, n)[j];
                &&& it.assign.tag@ == tags[t]@
                &&& due_minutes_wf(it.due_minutes)
                &&& exists|k: int| 0 <= k < n && #[trigger] same_record(tasks[k], it.assign)
            },
    decreases n,
{
    if n > 0 {
        lemma_grouped_to_props(tasks, vs, tags, t, n - 1);
        if vs[n - 1] is Some && tag_index_in(tags, tasks[n - 1].tag@) == t {
            lemma_tag_index_in(tags, tasks[n - 1].tag@);
        }
        assert forall|j: int|
            0 <= j < grouped_to(tasks, vs, tags, t, n).len() implies {
            let it = #[trigger] grouped_to(tasks, vs, tags, t, n)[j];
            &&& it.assign.tag@ == tags[t]@
            &&& due_minutes_wf(it.due_minutes)
            &&& exists|k: int| 0 <= k < n && #[trigger] same_record(tasks[k], it.assign)
        } by {
            let prev = grouped_to(tasks, vs, tags, t, n - 1);
            if j < prev.len() {
                let it = prev[j];
                let k = choose|k: int| 0 <= k < n - 1 && #[trigger] same_record(tasks[k], it.assign);
                assert(same_record(tasks[k], it.assign));
            } else {
                assert(same_record(tasks[n - 1], grouped_to(tasks, vs, tags, t, n)[j].assign));
            }
        }
    }
}

/// An eligible record with a configured tag puts something into that tag's
/// group.
pub proof fn lemma_grouped_to_contains(
    tasks: Seq<Assignment>,
    vs: Seq<Option<Option<u64>>>,
    tags: Seq<String>,
    k: int,
    t: int,
    n: int,
)
    requires
        vs.len() == tasks.len(),
        0 <= k < n <= tasks.len(),
        vs[k] is Some,
        0 <= t < tags.len(),
        tag_index_in(tags, tasks[k].tag@) == t,
    ensures
        grouped_to(tasks, vs, tags, t, n).len() > 0,
    decreases n,
{
    if k < n - 1 {
        lemma_grouped_to_contains(tasks, vs, tags, k, t, n - 1);
    }
}

/// Group the records by tag, given one eligibility verdict per record.
///
/// This is the whole load except the clock: the result is pinned as a
/// function of records, verdicts and tag list by [`load_outcome`] — the
/// exact groups, in record order, or the unknown-tag fault when an eligible
/// record names an unconfigured tag, or the empty-catalog fault exactly
/// when no record is eligible.
pub fn group_eligible(
    tasks: &Vec<Assignment>,
    verdicts: &Vec<Option<Option<u64>>>,
    tag_list: &Vec<String>,
) -> (r: Result<Vec<Vec<EligibleTask>>, CoreError>)
    requires
        verdicts@.len() == tasks@.len(),
        forall|k: int| 0 <= k < verdicts@.len() ==> verdict_wf(#[trigger] verdicts@[k]),
    ensures
        load_outcome(tasks@, tag_list@, verdicts@, r),
        match r {
            Ok(groups) => {
                &&& catalog_wf(groups@, tag_list@)
                &&& exists|t: int| 0 <= t < groups@.len() && groups@[t]@.len() > 0
                &&& forall|t: int, j: int|
                    0 <= t < groups@.len() && 0 <= j < groups@[t]@.len() ==> exists|k: int|
                        0 <= k < tasks@.len() && same_record(
                            tasks@[k],
                            (#[trigger] groups@[t]@[j]).assign,
                        )
            },
            Err(e) => e == CoreError::UnknownTag ==> exists|k: int|
                0 <= k < tasks@.len() && tag_missing(#[trigger] tasks@[k], tag_list@),
        },
{
    let ghost gtasks = tasks@;
    let ghost gvs = verdicts@;
    let ghost gtags = tag_list@;
    let nrec = tasks.len();
    let ntags = tag_list.len();

    // pass one: every eligible record must name a configured tag, and at
    // least one record must be eligible at all
    let mut found: bool = false;
    let mut i: usize = 0;
    while i < nrec
        invariant
            i <= nrec,
            nrec == gtasks.len(),
            gtasks == tasks@,
            gvs == verdicts@,
            gtags == tag_list@,
            ntags == gtags.len(),
            gvs.len() == gtasks.len(),
            found <==> (exists|k: int| 0 <= k < i && (#[trigger] gvs[k]) is Some),
            forall|k: int|
                0 <= k < i && (#[trigger] gvs[k]) is Some ==> tag_index_in(
                    gtags,
                    gtasks[k].tag@,
                ) < ntags,
        decreases nrec - i,
    {
        if verdicts[i].is_some() {
            match find_tag_index(&tasks[i].tag, tag_list) {
                Some(_) => {
                    found = true;
                },
                None => {
                    proof {
                        lemma_tag_index_in(gtags, gtasks[i as int].tag@);
                        assert(gvs[i as int] is Some && tag_index_in(gtags, gtasks[i as int].tag@)
                            == ntags);
                        assert(tag_missing(gtasks[i as int], gtags));
                    }
                    return Err(CoreError::UnknownTag);
                },
            }
        }
        i = i + 1;
    }
    if !found {
        return Err(CoreError::EmptyCatalog);
    }

    // pass two: collect each tag's group in record order
    let mut groups: Vec<Vec<EligibleTask>> = Vec::new();
    let mut t: usize = 0;
    while t < ntags
        invariant
            t <= ntags,
            nrec == gtasks.len(),
            gtasks == tasks@,
            gvs == verdicts@,
            gtags == tag_list@,
            ntags == gtags.len(),
            gvs.len() == gtasks.len(),
            groups@.len() == t,
            forall|t2: int|
                0 <= t2 < t ==> (#[trigger] groups@[t2])@ == grouped_to(
                    gtasks,
                    gvs,
                    gtags,
                    t2,
                    nrec as int,
                ),
        decreases ntags - t,
    {
        let mut g: Vec<EligibleTask> = Vec::new();
        let mut k: usize = 0;
        while k < nrec
            invariant
                k <= nrec,
                nrec == gtasks.len(),
                gtasks == tasks@,
                gvs == verdicts@,
                gtags == tag_list@,
                ntags == gtags.len(),
                gvs.len() == gtasks.len(),
                t < ntags,
                g@ == grouped_to(gtasks, gvs, gtags, t as int, k as int),
            decreases nrec - k,
        {
            match verdicts[k] {
                Some(d) => {
                    match find_tag_index(&tasks[k].tag, tag_list) {
                        Some(ti) => {
                            if ti == t {
                                g.push(EligibleTask { assign: tasks[k].clone(), due_minutes: d });
                            }
                        },
                        None => {},
                    }
                },
                None => {},
            }
            k = k + 1;
        }
        groups.push(g);
        t = t + 1;
    }

    proof {
        // at least one record is eligible, and its group is populated
        let k0 = choose|k: int| 0 <= k < nrec && (#[trigger] gvs[k]) is Some;
        let t0 = tag_index_in(gtags, gtasks[k0].tag@);
        lemma_tag_index_in(gtags, gtasks[k0].tag@);
        lemma_grouped_to_contains(gtasks, gvs, gtags, k0, t0, nrec as int);
        assert(0 <= t0 < groups@.len() && groups@[t0]@.len() > 0);

        // the per-group properties, from the pinned contents
        assert forall|t2: int, j: int|
            0 <= t2 < groups@.len() && 0 <= j < groups@[t2]@.len() implies {
            &&& (#[trigger] groups@[t2]@[j]).assign.tag@ == gtags[t2]@
            &&& due_minutes_wf(groups@[t2]@[j].due_minutes)
            &&& exists|k: int|
                0 <= k < gtasks.len() && same_record(gtasks[k], groups@[t2]@[j].assign)
        } by {
            lemma_grouped_to_props(gtasks, gvs, gtags, t2, nrec as int);
            let it = groups@[t2]@[j];
            let k = choose|k: int|
                0 <= k < nrec && #[trigger] same_record(gtasks[k], it.assign);
            assert(same_record(gtasks[k], it.assign));
        }
    }
    Ok(groups)
}

/// Read the task records into a catalog: one group per configured tag,
/// holding that tag's eligible tasks in record order.
///
/// The clock is consulted once per record that carries a due instant — a
/// record whose due field does not parse is skipped, as is one already past
/// due — and everything after those verdicts is the verified grouping of
/// [`group_eligible`]: there is a verdict vector fitting the records under
/// which the result is exactly [`load_outcome`].  A record with an empty
/// due field is eligible without any clock reading, so a load of such
/// records never ends empty: the empty-catalog fault can only come back
/// when every record carries a due instant.  An eligible record naming a
/// tag outside the configuration is a data fault that aborts the load.
pub fn readin_tasks(tasks: &Vec<Assignment>, tag_list: &Vec<String>) -> (r: Result<
    Vec<Vec<EligibleTask>>,
    CoreError,
>)
    ensures
        exists|vs: Seq<Option<Option<u64>>>|
            verdicts_match(tasks@, vs) && #[trigger] load_outcome(tasks@, tag_list@, vs, r),
        match r {
            Ok(groups) => {
                &&& catalog_wf(groups@, tag_list@)
                &&& exists|t: int| 0 <= t < groups@.len() && groups@[t]@.len() > 0
                &&& forall|t: int, j: int|
                    0 <= t < groups@.len() && 0 <= j < groups@[t]@.len() ==> exists|k: int|
                        0 <= k < tasks@.len() && same_record(
                            tasks@[k],
                            (#[trigger] groups@[t]@[j]).assign,
                        )
            },
            Err(e) => {
                ||| {
                    &&& e == CoreError::UnknownTag
                    &&& exists|k: int|
                        0 <= k < tasks@.len() && tag_missing(#[trigger] tasks@[k], tag_list@)
                }
                ||| {
                    &&& e == CoreError::EmptyCatalog
                    &&& forall|k: int|
                        0 <= k < tasks@.len() ==> (#[trigger] tasks@[k]).due_time@.len() > 0
                }
            },
        },
{
    let ghost gtasks = tasks@;
    let nrec = tasks.len();

    // one clock verdict per record
    let mut verdicts: Vec<Option<Option<u64>>> = Vec::new();
    let mut i: usize = 0;
    while i < nrec
        invariant
            i <= nrec,
            nrec == gtasks.len(),
            gtasks == tasks@,
            verdicts@.len() == i,
            forall|k: int| 0 <= k < i ==> verdict_wf(#[trigger] verdicts@[k]),
            forall|k: int|
                0 <= k < i && (#[trigger] gtasks[k]).due_time@.len() == 0 ==> verdicts@[k]
                    == Some(Option::<u64>::None),
        decreases nrec - i,
    {
        let a = &tasks[i];
        let v: Option<Option<u64>>;
        if a.due_time.as_str().is_empty() {
            v = Some(None);
        } else {
            match find_timeuntildue(a.due_time.as_str()) {
                Some(m) => {
                    if m >= 0 {
                        v = Some(Some(clamp_minutes(m)));
                    } else {
                        v = None;
                    }
                },
                None => {
                    v = None;
                },
            }
        }
        verdicts.push(v);
        i = i + 1;
    }

    let r = group_eligible(tasks, &verdicts, tag_list);
    proof {
        assert(verdicts_match(gtasks, verdicts@));
        assert(load_outcome(gtasks, tag_list@, verdicts@, r));
        if r matches Err(e) && e == CoreError::EmptyCatalog {
            assert forall|k: int|
                0 <= k < gtasks.len() implies (#[trigger] gtasks[k]).due_time@.len() > 0 by {
                assert(verdicts@[k] is None);
                if gtasks[k].due_time@.len() == 0 {
                    assert(verdicts@[k] == Some(Option::<u64>::None));
                    assert(false);
                }
            }
        }
    }
    r
}

/// Render one record as the three display lines, each ending in a newline:
/// tag, name, due instant.
pub fn taskvector_to_stringvect(curr_assign: &Assignment) -> (r: Vec<String>)
    ensures
        r@.len() == 3,
        r@[0]@ == curr_assign.tag@ + "\n"@,
        r@[1]@ == curr_assign.name@ + "\n"@,
        r@[2]@ == curr_assign.due_time@ + "\n"@,
{
    let mut r: Vec<String> = Vec::new();
    r.push(curr_assign.tag.clone().concat("\n"));
    r.push(curr_assign.name.clone().concat("\n"));
    r.push(curr_assign.due_time.clone().concat("\n"));
    r
}

/// How many tasks the first `t` groups hold together.
pub open spec fn count_tasks_to(groups: Seq<Vec<EligibleTask>>, t: int) -> int
    decreases t,
{
    if t <= 0 {
        0
    } else {
        count_tasks_to(groups, t - 1) + groups[t - 1]@.len()
    }
}

/// A group's tasks are all weighted by urgency only when the tag asks for
/// due dates and every task of the group carries one; otherwise the group
/// falls back to uniform weighting.
pub open spec fn group_uses_due(g: Seq<EligibleTask>, use_due: bool) -> bool {
    use_due && (forall|j: int| 0 <= j < g.len() ==> (#[trigger] g[j]).due_minutes is Some)
}

/// The deadline vector of a group, for urgency weighting.
pub open spec fn group_dues(g: Seq<EligibleTask>) -> Seq<u64> {
    Seq::new(
        g.len(),
        |j: int|
            match g[j].due_minutes {
                Option::Some(v) => v,
                Option::None => 1u64,
            },
    )
}

/// Every stored deadline of the group is clamped into the supported range.
pub open spec fn group_wf(g: Seq<EligibleTask>) -> bool {
    forall|j: int| 0 <= j < g.len() ==> due_minutes_wf((#[trigger] g[j]).due_minutes)
}

/// The probability mass of task `j` within its group: its urgency weight
/// when the group is urgency-weighted, its uniform share otherwise.
pub open spec fn group_share_at(g: Seq<EligibleTask>, use_due: bool, j: int) -> int {
    if group_uses_due(g, use_due) {
        crate::urgency::urgency_at(group_dues(g), j)
    } else {
        crate::urgency::uniform_at(g.len() as int, j)
    }
}

/// Turn one tag's eligible tasks into the probability mass function that
/// selection draws from.
///
/// With `use_due` set and a due instant on every task of the group, the
/// weights follow the urgency policy; otherwise every task takes the even
/// share.  Rejects an empty group, for which no distribution exists.
pub fn turn_assignmentvector_into_pdf(assign: &Vec<EligibleTask>, use_due: bool) -> (r: Result<
    Vec<u64>,
    CoreError,
>)
    requires
        group_wf(assign@),
    ensures
        match r {
            Ok(p) => {
                &&& assign@.len() > 0
                &&& p@.len() == assign@.len()
                &&& crate::mass::is_pmf(p@)
                &&& forall|j: int|
                    0 <= j < p@.len() ==> p@[j] == group_share_at(assign@, use_due, j)
            },
            Err(e) => {
                &&& e == CoreError::EmptyCatalog
                &&& assign@.len() == 0
            },
        },
{
    let ghost g = assign@;
    let n = assign.len();
    if n == 0 {
        return Err(CoreError::EmptyCatalog);
    }
    if use_due {
        let mut all: bool = true;
        let mut i: usize = 0;
        while i < n
            invariant
                i <= n,
                n == g.len(),
                g == assign@,
                all <==> (forall|j: int| 0 <= j < i ==> (#[trigger] g[j]).due_minutes is Some),
            decreases n - i,
        {
            if assign[i].due_minutes.is_none() {
                all = false;
            }
            i = i + 1;
        }
        if all {
            let mut dues: Vec<u64> = Vec::new();
            let mut k: usize = 0;
            while k < n
                invariant
                    k <= n,
                    n == g.len(),
                    g == assign@,
                    group_wf(g),
                    forall|j: int| 0 <= j < g.len() ==> (#[trigger] g[j]).due_minutes is Some,
                    dues@.len() == k,
                    forall|j: int| 0 <= j < k ==> dues@[j] == group_dues(g)[j],
                decreases n - k,
            {
                let d: u64 = match assign[k].due_minutes {
                    Some(v) => v,
                    None => 1,
                };
                dues.push(d);
                k = k + 1;
            }
            proof {
                assert(dues@ =~= group_dues(g));
            }
            match crate::urgency::turn_timetilldue_into_pdf(&dues) {
                Ok(p) => {
                    return Ok(p);
                },
                Err(_) => {
                    proof {
                        assert(false);
                    }
                    return Err(CoreError::EmptyCatalog);
                },
            }
        }
    }
    match crate::urgency::uniform_pdf(n) {
        Ok(p) => Ok(p),
        Err(_) => {
            proof {
                assert(false);
            }
            Err(CoreError::EmptyCatalog)
        },
    }
}

/// Group task counts are never negative.
pub proof fn lemma_count_tasks_nonneg(groups: Seq<Vec<EligibleTask>>, t: int)
    ensures
        count_tasks_to(groups, t) >= 0,
    decreases t,
{
    if t > 0 {
        lemma_count_tasks_nonneg(groups, t - 1);
    }
}

/// A task's flat position inside an earlier group lies before the start of
/// a later group.
pub proof fn lemma_count_tasks_lt(groups: Seq<Vec<EligibleTask>>, t2: int, j2: int, t: int)
    requires
        0 <= t2 < t <= groups.len(),
        0 <= j2 < groups[t2]@.len(),
    ensures
        count_tasks_to(groups, t2) + j2 < count_tasks_to(groups, t),
    decreases t,
{
    if t2 == t - 1 {
    } else {
        lemma_count_tasks_lt(groups, t2, j2, t - 1);
    }
}

/// A task table is exact when it holds one `[tag, name, due instant]` row
/// per task of the catalog, in catalog order.
pub open spec fn taskvector_exact(rows: Seq<Vec<String>>, groups: Seq<Vec<EligibleTask>>) -> bool {
    &&& rows.len() == count_tasks_to(groups, groups.len() as int)
    &&& forall|t: int, j: int|
        0 <= t < groups.len() && 0 <= j < groups[t]@.len() ==> {
            let row = (#[trigger] rows[count_tasks_to(groups, t) + j])@;
            &&& row.len() == 3
            &&& row[0]@ == groups[t]@[j].assign.tag@
            &&& row[1]@ == groups[t]@[j].assign.name@
            &&& row[2]@ == groups[t]@[j].assign.due_time@
        }
}

/// Flatten the catalog, group by group, into display rows of
/// `[tag, name, due instant]`.
pub fn catalog_to_taskvector(groups: &Vec<Vec<EligibleTask>>) -> (r: Vec<Vec<String>>)
    ensures
        taskvector_exact(r@, groups@),
{
    let ghost gg = groups@;
    let mut r: Vec<Vec<String>> = Vec::new();
    let mut t: usize = 0;
    while t < groups.len()
        invariant
            t <= gg.len(),
            gg == groups@,
            r@.len() == count_tasks_to(gg, t as int),
            forall|t2: int, j: int|
                0 <= t2 < t && 0 <= j < gg[t2]@.len() ==> {
                    let row = #[trigger] r@[count_tasks_to(gg, t2) + j]@;
                    &&& row.len() == 3
                    &&& row[0]@ == gg[t2]@[j].assign.tag@
                    &&& row[1]@ == gg[t2]@[j].assign.name@
                    &&& row[2]@ == gg[t2]@[j].assign.due_time@
                },
        decreases gg.len() - t,
    {
        let g = &groups[t];
        let mut j: usize = 0;
        while j < g.len()
            invariant
                j <= g@.len(),
                gg == groups@,
                t < gg.len(),
                g@ == gg[t as int]@,
                r@.len() == count_tasks_to(gg, t as int) + j,
                forall|t2: int, j2: int|
                    0 <= t2 < t && 0 <= j2 < gg[t2]@.len() ==> {
                        let row = #[trigger] r@[count_tasks_to(gg, t2) + j2]@;
                        &&& row.len() == 3
                        &&& row[0]@ == gg[t2]@[j2].assign.tag@
                        &&& row[1]@ == gg[t2]@[j2].assign.name@
                        &&& row[2]@ == gg[t2]@[j2].assign.due_time@
                    },
                forall|j2: int|
                    0 <= j2 < j ==> {
                        let row = #[trigger] r@[count_tasks_to(gg, t as int) + j2]@;
                        &&& row.len() == 3
                        &&& row[0]@ == gg[t as int]@[j2].assign.tag@
                        &&& row[1]@ == gg[t as int]@[j2].assign.name@
                        &&& row[2]@ == gg[t as int]@[j2].assign.due_time@
                    },
            decreases g@.len() - j,
        {
            let a = &g[j];
            let mut row: Vec<String> = Vec::new();
            row.push(a.assign.tag.clone());
            row.push(a.assign.name.clone());
            row.push(a.assign.due_time.clone());
            let ghost prevr = r@;
            r.push(row);
            proof {
                lemma_count_tasks_nonneg(gg, t as int);
                assert forall|t2: int, j2: int|
                    0 <= t2 < t && 0 <= j2 < gg[t2]@.len() implies (#[trigger] r@[count_tasks_to(
                    gg,
                    t2,
                ) + j2]) == prevr[count_tasks_to(gg, t2) + j2] by {
                    lemma_count_tasks_nonneg(gg, t2);
                    lemma_count_tasks_lt(gg, t2, j2, t as int);
                }
            }
            j = j + 1;
        }
        proof {
            lemma_count_tasks_nonneg(gg, t as int);
        }
        t = t + 1;
    }
    r
}

} // verus!
