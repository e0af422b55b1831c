use etu_schedule::merge::{
    check_unique_positions, group_by_subject, plan_group_merge, ExistenceDiff, MergeContext,
    MergeError, MergeResult, MergeStep, MergeSummary,
};
use etu_schedule::schedule::ScheduleObjModel;
use etu_schedule::week_day::WeekDay;

fn lesson(id: i32, day: WeekDay, parity: &str, time: i32) -> ScheduleObjModel {
    ScheduleObjModel {
        schedule_obj_id: id,
        last_known_orig_sched_obj_id: 1000 + id,
        group_id: 5,
        time_link_id: 100 + id,
        prev_time_link_id: None,
        subject_id: 7,
        subject_gen_id: 7,
        teacher_id: Some(3),
        teacher_gen_id: Some(3),
        second_teacher_id: None,
        third_teacher_id: None,
        fourth_teacher_id: None,
        auditorium: Some("5427".to_string()),
        created_timestamp: 0,
        modified_timestamp: 50,
        time: time,
        week_day: day,
        week_parity: parity.to_string(),
        gen_start: 1,
        gen_end: None,
        existence_diff: "new".to_string(),
    }
}

fn ctx() -> MergeContext {
    MergeContext {
        group_id: 5,
        subject_id: 7,
        last_gen_id: 11,
        latest_subject_gen: 7,
        latest_teachers_gen: 3,
    }
}

#[test]
fn duplicate_slots_are_refused() {
    let inputs = vec![
        lesson(1, WeekDay::Mon, "1", 1001),
        lesson(2, WeekDay::Mon, "1", 1001),
    ];
    assert_eq!(check_unique_positions(&inputs), Err(MergeError::DuplicatePosition));
    assert!(matches!(
        plan_group_merge(&inputs, &vec![], ctx()),
        Err(MergeError::DuplicatePosition)
    ));
}

#[test]
fn same_position_in_other_slot_is_not_a_duplicate() {
    let inputs = vec![
        lesson(1, WeekDay::Mon, "1", 1001),
        lesson(2, WeekDay::Mon, "1", 2001),
        lesson(3, WeekDay::Mon, "2", 1001),
    ];
    assert_eq!(check_unique_positions(&inputs), Ok(()));
}

#[test]
fn new_lesson_is_inserted_with_fresh_link() {
    let inputs = vec![lesson(1, WeekDay::Tue, "1", 1002)];
    let plan = plan_group_merge(&inputs, &vec![], ctx()).unwrap();
    assert_eq!(plan.results, vec![MergeResult::Inserted]);
    assert_eq!(plan.steps.len(), 2);
    assert!(matches!(plan.steps[0], MergeStep::CreateGeneration { gen_id: 12 }));
    match &plan.steps[1] {
        MergeStep::InsertObject { row } => {
            assert_eq!(row.link_id, None);
            assert_eq!(row.gen_start, 12);
            assert_eq!(row.existence_diff, ExistenceDiff::New);
            assert_eq!(row.subject_id, 7);
            assert_eq!(row.group_id, 5);
            assert_eq!(row.subject_gen_id, 7);
            assert_eq!(row.teacher_gen_id, 3);
            assert_eq!(row.week_parity, "1");
            assert_eq!(row.auditorium, Some("5427".to_string()));
            assert_eq!(row.last_known_orig_sched_obj_id, 1001);
        }
        other => panic!("unexpected step {:?}", other),
    }
}

#[test]
fn changed_teacher_replaces_the_stored_lesson() {
    let stored = vec![lesson(1, WeekDay::Tue, "1", 1002)];
    let mut incoming = lesson(9, WeekDay::Tue, "1", 1002);
    incoming.teacher_id = Some(4);
    let plan = plan_group_merge(&vec![incoming], &stored, ctx()).unwrap();
    assert_eq!(plan.results, vec![MergeResult::Updated]);
    assert_eq!(plan.steps.len(), 3);
    assert!(matches!(plan.steps[0], MergeStep::CreateGeneration { gen_id: 12 }));
    assert!(matches!(
        plan.steps[1],
        MergeStep::CloseObject { schedule_obj_id: 1, gen_end: 12 }
    ));
    match &plan.steps[2] {
        MergeStep::InsertObject { row } => {
            assert_eq!(row.link_id, Some(101));
            assert_eq!(row.teacher_id, Some(4));
            assert_eq!(row.existence_diff, ExistenceDiff::Changed);
        }
        other => panic!("unexpected step {:?}", other),
    }
}

#[test]
fn changed_auditorium_is_an_update() {
    let stored = vec![lesson(1, WeekDay::Tue, "1", 1002)];
    let mut incoming = lesson(1, WeekDay::Tue, "1", 1002);
    incoming.auditorium = None;
    let plan = plan_group_merge(&vec![incoming], &stored, ctx()).unwrap();
    assert_eq!(plan.results, vec![MergeResult::Updated]);
}

#[test]
fn unchanged_lesson_writes_nothing() {
    let stored = vec![lesson(1, WeekDay::Tue, "1", 1002)];
    let incoming = lesson(1, WeekDay::Tue, "1", 1002);
    let plan = plan_group_merge(&vec![incoming], &stored, ctx()).unwrap();
    assert_eq!(plan.results, vec![MergeResult::NotModified]);
    assert!(plan.steps.is_empty());
}

#[test]
fn untracked_change_only_refreshes() {
    let stored = vec![lesson(1, WeekDay::Tue, "1", 1002)];
    let mut incoming = lesson(1, WeekDay::Tue, "1", 1002);
    incoming.modified_timestamp = 60;
    incoming.last_known_orig_sched_obj_id = 77;
    let plan = plan_group_merge(&vec![incoming], &stored, ctx()).unwrap();
    assert_eq!(plan.results, vec![MergeResult::NotModified]);
    assert_eq!(plan.steps.len(), 1);
    assert!(matches!(
        plan.steps[0],
        MergeStep::RefreshObject {
            schedule_obj_id: 1,
            modified_timestamp: 60,
            last_known_orig_sched_obj_id: 77,
            subject_gen_id: 7,
            teacher_gen_id: Some(3),
        }
    ));
}

#[test]
fn stale_teacher_generation_refreshes() {
    let stored = vec![lesson(1, WeekDay::Tue, "1", 1002)];
    let incoming = lesson(1, WeekDay::Tue, "1", 1002);
    let mut c = ctx();
    c.latest_teachers_gen = 8;
    let plan = plan_group_merge(&vec![incoming], &stored, c).unwrap();
    assert_eq!(plan.results, vec![MergeResult::NotModified]);
    assert!(matches!(
        plan.steps[0],
        MergeStep::RefreshObject { teacher_gen_id: Some(8), .. }
    ));
}

#[test]
fn stored_lesson_without_incoming_is_closed() {
    let stored = vec![
        lesson(1, WeekDay::Tue, "1", 1002),
        lesson(2, WeekDay::Thu, "2", 1004),
    ];
    let incoming = lesson(1, WeekDay::Tue, "1", 1002);
    let plan = plan_group_merge(&vec![incoming], &stored, ctx()).unwrap();
    assert_eq!(plan.results, vec![MergeResult::NotModified]);
    assert_eq!(plan.steps.len(), 2);
    assert!(matches!(plan.steps[0], MergeStep::CreateGeneration { gen_id: 12 }));
    assert!(matches!(
        plan.steps[1],
        MergeStep::CloseObject { schedule_obj_id: 2, gen_end: 12 }
    ));
}

#[test]
fn first_stored_match_wins() {
    let mut first = lesson(1, WeekDay::Tue, "1", 1002);
    first.teacher_id = Some(99);
    let second = lesson(2, WeekDay::Tue, "1", 2002);
    let incoming = lesson(3, WeekDay::Tue, "1", 1002);
    let plan = plan_group_merge(&vec![incoming], &vec![first, second], ctx()).unwrap();
    assert_eq!(plan.results, vec![MergeResult::Updated]);
    assert!(matches!(
        plan.steps[1],
        MergeStep::CloseObject { schedule_obj_id: 1, gen_end: 12 }
    ));
}

#[test]
fn merge_of_stored_schedule_into_itself() {
    let stored = vec![
        lesson(1, WeekDay::Mon, "1", 1001),
        lesson(2, WeekDay::Mon, "2", 1001),
        lesson(3, WeekDay::Fri, "1", 1005),
    ];
    let plan = plan_group_merge(&stored.clone(), &stored, ctx()).unwrap();
    assert_eq!(plan.results, vec![MergeResult::NotModified; 3]);
    assert!(plan.steps.iter().all(|s| matches!(s, MergeStep::RefreshObject { .. })));
}

#[test]
fn merge_into_empty_schedule() {
    let inputs = vec![
        lesson(1, WeekDay::Mon, "1", 1001),
        lesson(2, WeekDay::Sat, "2", 1006),
    ];
    let plan = plan_group_merge(&inputs, &vec![], ctx()).unwrap();
    assert_eq!(plan.results, vec![MergeResult::Inserted, MergeResult::Inserted]);
    assert_eq!(plan.steps.len(), 4);
}

#[test]
fn every_write_is_in_the_next_generation() {
    let stored = vec![lesson(1, WeekDay::Tue, "1", 1002), lesson(2, WeekDay::Wed, "1", 1003)];
    let mut changed = lesson(1, WeekDay::Tue, "1", 1002);
    changed.third_teacher_id = Some(5);
    let inputs = vec![changed, lesson(4, WeekDay::Sun, "2", 1001)];
    let plan = plan_group_merge(&inputs, &stored, ctx()).unwrap();
    for step in &plan.steps {
        match step {
            MergeStep::CreateGeneration { gen_id } => assert_eq!(*gen_id, 12),
            MergeStep::CloseObject { gen_end, .. } => assert_eq!(*gen_end, 12),
            MergeStep::InsertObject { row } => assert_eq!(row.gen_start, 12),
            MergeStep::RefreshObject { .. } => {}
        }
    }
    assert_eq!(plan.results, vec![MergeResult::Updated, MergeResult::Inserted]);
}

#[test]
fn tally_counts_outcomes() {
    let mut summary = MergeSummary::new();
    summary.tally(&vec![
        MergeResult::Inserted,
        MergeResult::NotModified,
        MergeResult::Updated,
        MergeResult::Inserted,
    ]);
    assert_eq!(summary.inserted, 2);
    assert_eq!(summary.changed, 1);
    assert!(summary.modified);
    let mut quiet = MergeSummary::new();
    quiet.tally(&vec![MergeResult::NotModified, MergeResult::NotModified]);
    assert_eq!(quiet.inserted + quiet.changed, 0);
    assert!(!quiet.modified);
}

#[test]
fn grouping_by_subject_keeps_order() {
    let mut a = lesson(1, WeekDay::Mon, "1", 1001);
    a.subject_id = 1;
    let mut b = lesson(2, WeekDay::Tue, "1", 1001);
    b.subject_id = 2;
    let mut c = lesson(3, WeekDay::Wed, "1", 1001);
    c.subject_id = 1;
    let groups = group_by_subject(&vec![a, b, c]);
    assert_eq!(groups.len(), 2);
    let ids: Vec<i32> = groups[&1].iter().map(|o| o.schedule_obj_id).collect();
    assert_eq!(ids, vec![1, 3]);
    let ids: Vec<i32> = groups[&2].iter().map(|o| o.schedule_obj_id).collect();
    assert_eq!(ids, vec![2]);
}

#[test]
fn existence_diff_texts() {
    assert_eq!(ExistenceDiff::New.as_text(), "new");
    assert_eq!(ExistenceDiff::Changed.as_text(), "changed");
}

#[test]
fn last_generation_blocks_only_merges_that_write() {
    let stored = vec![lesson(1, WeekDay::Tue, "1", 1002)];
    let same = vec![lesson(1, WeekDay::Tue, "1", 1002)];
    assert!(!etu_schedule::merge::merge_opens_generation(&same, &stored));
    let mut c = ctx();
    c.last_gen_id = u32::MAX;
    let plan = plan_group_merge(&same, &stored, c).unwrap();
    assert_eq!(plan.results, vec![MergeResult::NotModified]);
    assert!(plan.steps.is_empty());
    let new = vec![lesson(1, WeekDay::Tue, "1", 1002), lesson(2, WeekDay::Wed, "1", 1001)];
    assert!(etu_schedule::merge::merge_opens_generation(&new, &stored));
    assert!(etu_schedule::merge::merge_opens_generation(&vec![], &stored));
}

/// Applies planned writes to current lessons keyed by id, giving inserted
/// rows ids from `next_id` on.
fn apply(
    table: &mut std::collections::BTreeMap<i32, ScheduleObjModel>,
    steps: Vec<MergeStep>,
    next_id: &mut i32,
) {
    for step in steps {
        match step {
            MergeStep::CreateGeneration { .. } => {}
            MergeStep::CloseObject { schedule_obj_id, .. } => {
                table.remove(&schedule_obj_id);
            }
            MergeStep::InsertObject { row } => {
                let id = *next_id;
                *next_id += 1;
                let mut o = lesson(id, row.week_day, &row.week_parity, row.time);
                o.teacher_id = row.teacher_id;
                o.second_teacher_id = row.second_teacher_id;
                o.third_teacher_id = row.third_teacher_id;
                o.fourth_teacher_id = row.fourth_teacher_id;
                o.auditorium = row.auditorium;
                o.modified_timestamp = row.modified_timestamp;
                o.last_known_orig_sched_obj_id = row.last_known_orig_sched_obj_id;
                o.time_link_id = row.link_id.unwrap_or(500 + id);
                table.insert(id, o);
            }
            MergeStep::RefreshObject {
                schedule_obj_id,
                modified_timestamp,
                last_known_orig_sched_obj_id,
                subject_gen_id,
                teacher_gen_id,
            } => {
                if let Some(o) = table.get_mut(&schedule_obj_id) {
                    o.modified_timestamp = modified_timestamp;
                    o.last_known_orig_sched_obj_id = last_known_orig_sched_obj_id;
                    o.subject_gen_id = subject_gen_id;
                    o.teacher_gen_id = teacher_gen_id;
                }
            }
        }
    }
}

#[test]
fn merging_again_changes_no_lesson() {
    let stored = vec![
        lesson(1, WeekDay::Mon, "1", 1001),
        lesson(2, WeekDay::Tue, "1", 1002),
        lesson(3, WeekDay::Wed, "2", 1003),
    ];
    let mut changed = lesson(20, WeekDay::Tue, "1", 1002);
    changed.teacher_id = Some(42);
    let inputs = vec![lesson(10, WeekDay::Mon, "1", 1001), changed, lesson(30, WeekDay::Fri, "1", 1004)];
    let mut table: std::collections::BTreeMap<i32, ScheduleObjModel> =
        stored.iter().map(|o| (o.schedule_obj_id, o.clone())).collect();
    let mut next_id = 100;
    let plan = plan_group_merge(&inputs, &stored, ctx()).unwrap();
    assert_eq!(
        plan.results,
        vec![MergeResult::NotModified, MergeResult::Updated, MergeResult::Inserted]
    );
    apply(&mut table, plan.steps, &mut next_id);
    // one current lesson per incoming lesson; the Wednesday lesson is ended
    assert_eq!(table.len(), 3);
    assert!(table.contains_key(&1));
    assert!(!table.contains_key(&2));
    assert!(!table.contains_key(&3));
    let current: Vec<ScheduleObjModel> = table.values().rev().cloned().collect();
    let again = plan_group_merge(&inputs, &current, ctx()).unwrap();
    assert_eq!(again.results, vec![MergeResult::NotModified; 3]);
    assert!(again.steps.iter().all(|s| matches!(s, MergeStep::RefreshObject { .. })));
}
