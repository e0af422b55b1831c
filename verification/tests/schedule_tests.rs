use etu_schedule::schedule::{last_gen_id, link_ids_are_distinct, next_link_id, ScheduleObjModel};
use etu_schedule::week_day::WeekDay;

fn lesson(day: WeekDay, parity: &str, time: i32) -> ScheduleObjModel {
    ScheduleObjModel {
        schedule_obj_id: 1,
        last_known_orig_sched_obj_id: 10,
        group_id: 5,
        time_link_id: 100,
        prev_time_link_id: None,
        subject_id: 7,
        subject_gen_id: 1,
        teacher_id: Some(3),
        teacher_gen_id: Some(1),
        second_teacher_id: None,
        third_teacher_id: None,
        fourth_teacher_id: None,
        auditorium: Some("5427".to_string()),
        created_timestamp: 0,
        modified_timestamp: 0,
        time: time,
        week_day: day,
        week_parity: parity.to_string(),
        gen_start: 1,
        gen_end: None,
        existence_diff: "new".to_string(),
    }
}

#[test]
fn lesson_pos_first_week() {
    assert_eq!(lesson(WeekDay::Mon, "1", 0).get_lesson_pos(), 0);
    assert_eq!(lesson(WeekDay::Wed, "1", 1003).get_lesson_pos(), 2 * 14 + 3);
}

#[test]
fn lesson_pos_second_week_comes_after_first() {
    assert_eq!(lesson(WeekDay::Wed, "2", 1003).get_lesson_pos(), 9 * 14 + 3);
    assert_eq!(lesson(WeekDay::Sun, "2", 13).get_lesson_pos(), 13 * 14 + 13);
}

#[test]
fn lesson_pos_keeps_sign_of_negative_time() {
    assert_eq!(lesson(WeekDay::Tue, "1", -1005).get_lesson_pos(), 14 - 5);
}

#[test]
fn lesson_pos_only_parity_two_is_second_week() {
    assert_eq!(lesson(WeekDay::Mon, "0", 1).get_lesson_pos(), 1);
    assert_eq!(lesson(WeekDay::Mon, "22", 1).get_lesson_pos(), 1);
}

#[test]
fn clone_keeps_every_field() {
    let a = lesson(WeekDay::Fri, "2", 1004);
    let b = a.clone();
    assert_eq!(format!("{:?}", a), format!("{:?}", b));
}

#[test]
fn distinct_link_ids() {
    assert!(link_ids_are_distinct(&vec![]));
    assert!(link_ids_are_distinct(&vec![1, 2, 3]));
    assert!(!link_ids_are_distinct(&vec![1, 2, 1]));
    assert!(!link_ids_are_distinct(&vec![4, 4]));
}

#[test]
fn next_link_id_after_largest() {
    assert_eq!(next_link_id(None), 1);
    assert_eq!(next_link_id(Some(41)), 42);
}

#[test]
fn last_gen_id_defaults_to_zero() {
    assert_eq!(last_gen_id(None), 0);
    assert_eq!(last_gen_id(Some(9)), 9);
}

#[test]
fn lesson_pos_names_day_parity_and_slot() {
    assert_eq!(
        lesson(WeekDay::Mon, "1", 1001).get_lesson_pos(),
        lesson(WeekDay::Mon, "1", 2001).get_lesson_pos()
    );
    assert_ne!(
        lesson(WeekDay::Mon, "1", 1001).get_lesson_pos(),
        lesson(WeekDay::Mon, "2", 1001).get_lesson_pos()
    );
    assert_ne!(
        lesson(WeekDay::Mon, "1", 1001).get_lesson_pos(),
        lesson(WeekDay::Tue, "1", 1001).get_lesson_pos()
    );
}
