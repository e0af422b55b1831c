use etu_schedule::notes::{group_notes_by_week, UserNote};

fn note(text: &str, link: i32, week: i32) -> UserNote {
    UserNote {
        user_id: 1,
        schedule_obj_time_link_id: link,
        text: text.to_string(),
        week_num: week,
        creation_timestamp: 0,
        modified_timestamp: None,
    }
}

#[test]
fn notes_are_grouped_by_week_in_order() {
    let notes = vec![note("a", 10, 3), note("b", 11, 1), note("c", 12, 3)];
    let map = group_notes_by_week(&notes);
    assert_eq!(map.len(), 2);
    assert_eq!(map[&3], vec![("a".to_string(), 10), ("c".to_string(), 12)]);
    assert_eq!(map[&1], vec![("b".to_string(), 11)]);
}

#[test]
fn no_notes_no_weeks() {
    assert!(group_notes_by_week(&vec![]).is_empty());
}
