use etu_schedule::week_day::WeekDay;

const ALL: [WeekDay; 7] = [
    WeekDay::Mon,
    WeekDay::Tue,
    WeekDay::Wed,
    WeekDay::Thu,
    WeekDay::Fri,
    WeekDay::Sat,
    WeekDay::Sun,
];

#[test]
fn as_num_counts_from_monday() {
    let nums: Vec<u8> = ALL.iter().map(|d| d.as_num()).collect();
    assert_eq!(nums, vec![0, 1, 2, 3, 4, 5, 6]);
}

#[test]
fn to_string_gives_upper_case_codes() {
    let codes: Vec<String> = ALL.iter().map(|d| d.to_string()).collect();
    assert_eq!(codes, vec!["MON", "TUE", "WED", "THU", "FRI", "SAT", "SUN"]);
}

#[test]
fn try_from_reads_every_code_back() {
    for day in ALL {
        assert_eq!(WeekDay::try_from(day.to_string()), Ok(day));
    }
}

#[test]
fn try_from_refuses_other_text() {
    assert_eq!(WeekDay::try_from("mon".to_string()), Err(()));
    assert_eq!(WeekDay::try_from("MONDAY".to_string()), Err(()));
    assert_eq!(WeekDay::try_from(String::new()), Err(()));
    assert_eq!(WeekDay::try_from(" SUN".to_string()), Err(()));
}

#[test]
fn default_day_is_monday() {
    assert_eq!(WeekDay::default(), WeekDay::Mon);
}

#[test]
fn days_are_ordered_from_monday() {
    assert!(WeekDay::Mon < WeekDay::Tue);
    assert!(WeekDay::Sat < WeekDay::Sun);
}
