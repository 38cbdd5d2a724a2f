use rusty_krab_manager::assignment_utils::{
    catalog_to_taskvector, group_eligible, readin_tasks, taskvector_to_stringvect,
    turn_assignmentvector_into_pdf, Assignment, EligibleTask,
};
use rusty_krab_manager::errors::CoreError;
use rusty_krab_manager::mass::WEIGHT_SCALE;
use rusty_krab_manager::select::{bump_tag_counter, choose_task, get_tag_counter};
use rusty_krab_manager::settings_util::{todays_weights, validate_settings, weights_for_day};
use rusty_krab_manager::weighttable::{create_weighttable, sort_weighttable, WeightRow};

fn task(tag: &str, name: &str, due: &str) -> Assignment {
    Assignment {
        name: name.to_string(),
        tag: tag.to_string(),
        due_time: due.to_string(),
    }
}

fn tags(labels: &[&str]) -> Vec<String> {
    labels.iter().map(|s| s.to_string()).collect()
}

#[test]
fn tasks_are_grouped_under_their_tags_in_order() {
    let tasks = vec![
        task("fun", "kite", ""),
        task("school", "essay", ""),
        task("fun", "game", ""),
    ];
    let groups = readin_tasks(&tasks, &tags(&["school", "fun"])).unwrap();
    assert_eq!(groups.len(), 2);
    assert_eq!(groups[0].len(), 1);
    assert_eq!(groups[0][0].assign.name, "essay");
    assert_eq!(groups[1].len(), 2);
    assert_eq!(groups[1][0].assign.name, "kite");
    assert_eq!(groups[1][1].assign.name, "game");
}

#[test]
fn overdue_tasks_are_excluded_and_future_ones_kept() {
    let tasks = vec![
        task("school", "ancient", "2000-01-01 00:00"),
        task("school", "upcoming", "2099-12-31 23:59"),
    ];
    let groups = readin_tasks(&tasks, &tags(&["school"])).unwrap();
    assert_eq!(groups[0].len(), 1);
    assert_eq!(groups[0][0].assign.name, "upcoming");
    assert!(groups[0][0].due_minutes.is_some());
}

#[test]
fn unparseable_due_instants_skip_the_record_alone() {
    let tasks = vec![
        task("school", "broken", "tomorrow-ish"),
        task("school", "fine", ""),
    ];
    let groups = readin_tasks(&tasks, &tags(&["school"])).unwrap();
    assert_eq!(groups[0].len(), 1);
    assert_eq!(groups[0][0].assign.name, "fine");
    assert_eq!(groups[0][0].due_minutes, None);
}

#[test]
fn a_task_with_an_unknown_tag_aborts_the_load() {
    let tasks = vec![task("chores", "dishes", "")];
    assert_eq!(
        readin_tasks(&tasks, &tags(&["school", "fun"])),
        Err(CoreError::UnknownTag)
    );
}

#[test]
fn a_catalog_with_no_eligible_task_is_rejected() {
    assert_eq!(
        readin_tasks(&vec![], &tags(&["school"])),
        Err(CoreError::EmptyCatalog)
    );
    let all_overdue = vec![task("school", "ancient", "2000-01-01 00:00")];
    assert_eq!(
        readin_tasks(&all_overdue, &tags(&["school"])),
        Err(CoreError::EmptyCatalog)
    );
}

#[test]
fn group_pdf_is_uniform_without_due_dates_and_rejects_empty_groups() {
    let g = vec![
        EligibleTask { assign: task("t", "a", ""), due_minutes: None },
        EligibleTask { assign: task("t", "b", ""), due_minutes: None },
    ];
    assert_eq!(turn_assignmentvector_into_pdf(&g, false).unwrap(), vec![500_000, 500_000]);
    // a tag asking for urgency falls back to uniform while a task lacks a due
    assert_eq!(turn_assignmentvector_into_pdf(&g, true).unwrap(), vec![500_000, 500_000]);
    assert_eq!(
        turn_assignmentvector_into_pdf(&vec![], false),
        Err(CoreError::EmptyCatalog)
    );
}

#[test]
fn group_pdf_uses_urgency_when_every_task_has_a_due() {
    let g = vec![
        EligibleTask { assign: task("t", "soon", "x"), due_minutes: Some(100) },
        EligibleTask { assign: task("t", "later", "y"), due_minutes: Some(200) },
    ];
    assert_eq!(turn_assignmentvector_into_pdf(&g, true).unwrap(), vec![666_667, 333_333]);
}

#[test]
fn selection_always_lands_on_a_tag_with_tasks() {
    // the school tag holds most of the prior mass yet has no tasks: its
    // weight moves over and a fun task is chosen, every time
    let tasks = vec![task("fun", "kite", ""), task("fun", "game", "")];
    let tag_list = tags(&["school", "fun"]);
    let groups = readin_tasks(&tasks, &tag_list).unwrap();
    let weights: Vec<u64> = vec![700_000, 300_000];
    let use_dues = vec![true, false];
    for _ in 0..25 {
        let sel = choose_task(&groups, &tag_list, &weights, &use_dues).unwrap();
        assert_eq!(sel.chosen_tag, 1);
        assert!(sel.chosen_name == "kite" || sel.chosen_name == "game");
        assert_eq!(sel.current_task[0], "fun\n");
        assert_eq!(sel.all_tasks.len(), 2);
        assert_eq!(sel.weight_table.len(), 2);
        // each fun task carries half of the whole mass in the table
        for row in &sel.weight_table {
            assert_eq!(row.tag, "fun");
            assert_eq!(row.tag_weight, WEIGHT_SCALE);
            assert_eq!(row.task_share, 500_000);
            assert_eq!(row.overall_share, 500_000);
        }
    }
}

#[test]
fn selection_fails_when_no_tag_has_both_tasks_and_weight() {
    let tasks = vec![task("fun", "kite", "")];
    let tag_list = tags(&["school", "fun"]);
    let groups = readin_tasks(&tasks, &tag_list).unwrap();
    // all prior mass sits on the empty school tag
    let weights: Vec<u64> = vec![1_000_000, 0];
    match choose_task(&groups, &tag_list, &weights, &vec![false, false]) {
        Err(e) => assert_eq!(e, CoreError::NoWeightedTag),
        Ok(_) => panic!("selection should have failed"),
    }
}

#[test]
fn the_weight_table_multiplies_tag_and_task_shares() {
    let tasks = vec![
        task("school", "soon", "2099-01-01 12:00"),
        task("school", "later", "2099-12-31 12:00"),
        task("fun", "kite", ""),
    ];
    let tag_list = tags(&["school", "fun"]);
    let groups = readin_tasks(&tasks, &tag_list).unwrap();
    let weights: Vec<u64> = vec![600_000, 400_000];
    let table = create_weighttable(&groups, &tag_list, &weights, &vec![true, false]);
    assert_eq!(table.len(), 3);
    assert_eq!(table[0].tag, "school");
    assert_eq!(table[0].tag_weight, 600_000);
    assert_eq!(
        table[0].overall_share,
        600_000 * table[0].task_share / WEIGHT_SCALE
    );
    assert_eq!(table[2].tag, "fun");
    assert_eq!(table[2].task_share, WEIGHT_SCALE);
    assert_eq!(table[2].overall_share, 400_000);
    // the sooner school task outweighs the later one
    assert!(table[0].task_share > table[1].task_share);
}

#[test]
fn sorting_orders_rows_by_falling_overall_share() {
    let row = |name: &str, overall: u64| WeightRow {
        tag: "t".to_string(),
        name: name.to_string(),
        tag_weight: 0,
        task_share: 0,
        overall_share: overall,
    };
    let sorted = sort_weighttable(vec![row("a", 10), row("b", 500), row("c", 250), row("d", 500)]);
    let shares: Vec<u64> = sorted.iter().map(|r| r.overall_share).collect();
    assert_eq!(shares, vec![500, 500, 250, 10]);
    let names: Vec<&str> = sorted.iter().map(|r| r.name.as_str()).collect();
    assert!(names.contains(&"a") && names.contains(&"b") && names.contains(&"c") && names.contains(&"d"));
}

#[test]
fn display_helpers_render_tag_name_and_due_lines() {
    let a = task("school", "essay", "2099-01-01 12:00");
    let lines = taskvector_to_stringvect(&a);
    assert_eq!(lines, vec!["school\n", "essay\n", "2099-01-01 12:00\n"]);

    let groups = readin_tasks(&vec![a], &tags(&["school"])).unwrap();
    let rows = catalog_to_taskvector(&groups);
    assert_eq!(rows, vec![vec!["school", "essay", "2099-01-01 12:00"]]);
}

#[test]
fn tag_counters_start_at_zero_and_count_per_tag() {
    let mut ctr = get_tag_counter(3);
    assert_eq!(ctr, vec![0, 0, 0]);
    bump_tag_counter(&mut ctr, 1);
    bump_tag_counter(&mut ctr, 1);
    bump_tag_counter(&mut ctr, 2);
    assert_eq!(ctr, vec![0, 2, 1]);
}

#[test]
fn settings_validation_checks_lengths_then_weights_then_durations() {
    let ok = validate_settings(
        tags(&["school", "fun"]),
        vec![true, false],
        &vec![700_000, 300_000],
        25,
        5,
        30,
        4,
    )
    .unwrap();
    assert_eq!(ok.initial_tag_weights, vec![700_000, 300_000]);
    assert_eq!(ok.task_time, 25);

    assert_eq!(
        validate_settings(tags(&["school"]), vec![true, false], &vec![1_000_000], 25, 5, 30, 4)
            .map(|_| ()),
        Err(CoreError::TagVectorMismatch)
    );
    assert_eq!(
        validate_settings(
            tags(&["school", "fun"]),
            vec![true, false],
            &vec![500_000, 400_000],
            25,
            5,
            30,
            4,
        )
        .map(|_| ()),
        Err(CoreError::WeightSumOff)
    );
    assert_eq!(
        validate_settings(
            tags(&["school", "fun"]),
            vec![true, false],
            &vec![700_000, 300_000],
            0,
            5,
            30,
            4,
        )
        .map(|_| ()),
        Err(CoreError::BadDuration)
    );
}

#[test]
fn todays_weights_picks_one_of_the_seven_days() {
    let by_day: Vec<Vec<u64>> = (0..7u64).map(|d| vec![d, d + 10]).collect();
    let w = todays_weights(&by_day);
    assert!(by_day.contains(&w));
}

#[test]
fn grouping_with_explicit_verdicts_is_exact() {
    // the verdicts stand in for the clock: record three is skipped
    let tasks = vec![
        task("school", "essay", "x"),
        task("fun", "kite", ""),
        task("school", "overdue", "y"),
        task("fun", "game", ""),
    ];
    let verdicts: Vec<Option<Option<u64>>> =
        vec![Some(Some(100)), Some(None), None, Some(None)];
    let groups = group_eligible(&tasks, &verdicts, &tags(&["school", "fun"])).unwrap();
    assert_eq!(groups[0].len(), 1);
    assert_eq!(groups[0][0].assign.name, "essay");
    assert_eq!(groups[0][0].due_minutes, Some(100));
    assert_eq!(groups[1].len(), 2);
    assert_eq!(groups[1][0].assign.name, "kite");
    assert_eq!(groups[1][1].assign.name, "game");
}

#[test]
fn grouping_rejects_only_eligible_unknown_tags() {
    // a skipped record with an unknown tag never aborts the load
    let tasks = vec![task("chores", "dishes", "z"), task("fun", "kite", "")];
    let skipped: Vec<Option<Option<u64>>> = vec![None, Some(None)];
    let groups = group_eligible(&tasks, &skipped, &tags(&["school", "fun"])).unwrap();
    assert_eq!(groups[1].len(), 1);
    // the same record judged eligible is a data fault
    let eligible: Vec<Option<Option<u64>>> = vec![Some(Some(5)), Some(None)];
    assert_eq!(
        group_eligible(&tasks, &eligible, &tags(&["school", "fun"])),
        Err(CoreError::UnknownTag)
    );
}

#[test]
fn grouping_reports_an_empty_catalog_only_when_nothing_is_eligible() {
    let tasks = vec![task("school", "overdue", "y")];
    let none: Vec<Option<Option<u64>>> = vec![None];
    assert_eq!(
        group_eligible(&tasks, &none, &tags(&["school"])),
        Err(CoreError::EmptyCatalog)
    );
}

#[test]
fn dueless_tasks_keep_the_load_from_ever_coming_back_empty() {
    // the overdue record is dropped by the clock, the dueless one cannot be
    let tasks = vec![
        task("school", "ancient", "2000-01-01 00:00"),
        task("school", "always", ""),
    ];
    let groups = readin_tasks(&tasks, &tags(&["school"])).unwrap();
    assert_eq!(groups[0].len(), 1);
    assert_eq!(groups[0][0].assign.name, "always");
}

#[test]
fn weights_for_day_indexes_monday_first() {
    let by_day: Vec<Vec<u64>> = (0..7u64).map(|d| vec![d, d + 10]).collect();
    for day in 1..=7u8 {
        assert_eq!(weights_for_day(&by_day, day), vec![(day - 1) as u64, (day - 1) as u64 + 10]);
    }
}
