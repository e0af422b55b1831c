use etu_schedule::attendance_api::{
    attendance_cookie, check_in_request, check_in_result, classify_status, decimal_string,
    get_cur_schedule_request, get_cur_schedule_result, get_current_user_request,
    get_current_user_result, get_time_request, is_check_in_reply_handled,
    is_schedule_reply_handled, route, AttendanceCheckInResponse, AttendanceCheckInResponseError,
    CheckInReply, CheckInResult, CurrentUserReply, CurrentUserResponse, FailureBody,
    GetCurrentUserResult, GetScheduleResult, HttpMethod, LessonInstanceResponse, LessonResponse,
    ReplyClass, ScheduleReply, UserResponse,
};

fn lesson_instance(id: i32) -> LessonInstanceResponse {
    LessonInstanceResponse {
        id,
        start: "2024-09-02T08:00:00.000Z".to_string(),
        end: "2024-09-02T09:30:00.000Z".to_string(),
        isDistant: false,
        room: Some("5427".to_string()),
        lesson: LessonResponse {
            id: 1,
            title: "Math".to_string(),
            shortTitle: "M".to_string(),
            subjectType: "Lecture".to_string(),
        },
        teachers: vec![],
        selfReported: None,
        groupLeaderReported: None,
        teacherReported: None,
        isGroupLeader: false,
        checkInStart: "2024-09-02T07:45:00.000Z".to_string(),
        checkInDeadline: "2024-09-02T08:15:00.000Z".to_string(),
    }
}

fn user() -> UserResponse {
    UserResponse {
        initials: "I. I.".to_string(),
        id: 5,
        surname: "Ivanov".to_string(),
        name: "Ivan".to_string(),
        midname: "Ivanovich".to_string(),
        email: "i@example.org".to_string(),
        lkId: 9,
        roles: vec!["student".to_string()],
        personalNumber: "123".to_string(),
        birthday: "2000-01-01".to_string(),
        createdAt: "x".to_string(),
        updatedAt: "y".to_string(),
        groups: vec![],
        curated: vec![serde_json::Value::Null],
        departments: vec![],
        faculties: vec![],
    }
}

#[test]
fn route_prefixes_the_api_base() {
    assert_eq!(route("settings/time"), "https://digital.etu.ru/attendance/api/settings/time");
    assert_eq!(route(""), "https://digital.etu.ru/attendance/api/");
}

#[test]
fn cookie_carries_the_token() {
    assert_eq!(attendance_cookie("s%3Aabc"), "connect.digital-attendance=s%3Aabc");
}

#[test]
fn decimal_text_of_integers() {
    assert_eq!(decimal_string(0), "0");
    assert_eq!(decimal_string(7), "7");
    assert_eq!(decimal_string(1234), "1234");
    assert_eq!(decimal_string(-56), "-56");
    assert_eq!(decimal_string(i32::MAX), i32::MAX.to_string());
    assert_eq!(decimal_string(i32::MIN), i32::MIN.to_string());
}

#[test]
fn requests_name_their_endpoints() {
    let t = get_time_request();
    assert_eq!(t.method, HttpMethod::Get);
    assert_eq!(t.url, "https://digital.etu.ru/attendance/api/settings/time");
    assert_eq!(t.cookie, None);

    let s = get_cur_schedule_request("tok");
    assert_eq!(s.method, HttpMethod::Get);
    assert_eq!(s.url, "https://digital.etu.ru/attendance/api/schedule/check-in");
    assert_eq!(s.cookie, Some("connect.digital-attendance=tok".to_string()));

    let c = check_in_request("tok", 4711);
    assert_eq!(c.method, HttpMethod::Post);
    assert_eq!(c.url, "https://digital.etu.ru/attendance/api/schedule/check-in/4711");
    assert_eq!(c.cookie, Some("connect.digital-attendance=tok".to_string()));

    let u = get_current_user_request("tok");
    assert_eq!(u.method, HttpMethod::Get);
    assert_eq!(u.url, "https://digital.etu.ru/attendance/api/auth/current-user");
}

#[test]
fn status_classes() {
    assert_eq!(classify_status(200), ReplyClass::Success);
    assert_eq!(classify_status(204), ReplyClass::Success);
    assert_eq!(classify_status(299), ReplyClass::Success);
    assert_eq!(classify_status(300), ReplyClass::Failure);
    assert_eq!(classify_status(199), ReplyClass::Failure);
    assert_eq!(classify_status(401), ReplyClass::Unauthorized);
    assert_eq!(classify_status(403), ReplyClass::Failure);
    assert_eq!(classify_status(500), ReplyClass::Failure);
}

#[test]
fn schedule_results() {
    match get_cur_schedule_result(ScheduleReply::Success(Ok(vec![lesson_instance(3)]))) {
        GetScheduleResult::Success(lessons) => {
            assert_eq!(lessons.len(), 1);
            assert_eq!(lessons[0].id, 3);
        }
        other => panic!("unexpected {:?}", other),
    }
    assert!(matches!(
        get_cur_schedule_result(ScheduleReply::Unauthorized),
        GetScheduleResult::WrongToken
    ));
    match get_cur_schedule_result(ScheduleReply::SendFailed("timeout".to_string())) {
        GetScheduleResult::Error(e) => {
            assert_eq!(e.context, "Cannot make fetch to schedule from etu attendance");
            assert_eq!(e.cause, Some("timeout".to_string()));
        }
        other => panic!("unexpected {:?}", other),
    }
    match get_cur_schedule_result(ScheduleReply::Success(Err("eof".to_string()))) {
        GetScheduleResult::Error(e) => assert_eq!(
            e.context,
            "Cannot parse get_cur_schedule result with success code as LessonInstanceResponse json!"
        ),
        other => panic!("unexpected {:?}", other),
    }
    match get_cur_schedule_result(ScheduleReply::Failure(FailureBody::NotJson("bad".to_string()))) {
        GetScheduleResult::Error(e) => {
            assert_eq!(e.context, "Cannot parse get_cur_schedule response as json");
            assert_eq!(e.cause, Some("bad".to_string()));
        }
        other => panic!("unexpected {:?}", other),
    }
}

#[test]
fn schedule_json_failures_are_unhandled() {
    assert!(!is_schedule_reply_handled(&ScheduleReply::Failure(FailureBody::OtherJson)));
    assert!(!is_schedule_reply_handled(&ScheduleReply::Failure(FailureBody::Message(
        AttendanceCheckInResponseError { message: "x".to_string() }
    ))));
    assert!(is_schedule_reply_handled(&ScheduleReply::Unauthorized));
    assert!(is_schedule_reply_handled(&ScheduleReply::Failure(FailureBody::NotJson(String::new()))));
}

fn refusal(message: &str) -> CheckInReply {
    CheckInReply::Failure(FailureBody::Message(AttendanceCheckInResponseError {
        message: message.to_string(),
    }))
}

#[test]
fn check_in_results() {
    assert!(matches!(
        check_in_result(CheckInReply::Success(Ok(AttendanceCheckInResponse { ok: true }))),
        CheckInResult::Success
    ));
    match check_in_result(CheckInReply::Success(Ok(AttendanceCheckInResponse { ok: false }))) {
        CheckInResult::Error(e) => {
            assert_eq!(e.context, "Cannot make check-in: ok is not true!");
            assert_eq!(e.cause, None);
        }
        other => panic!("unexpected {:?}", other),
    }
    assert!(matches!(check_in_result(CheckInReply::Unauthorized), CheckInResult::WrongToken));
    assert!(matches!(
        check_in_result(refusal("Время для отметки истекло")),
        CheckInResult::TooLate
    ));
    assert!(matches!(
        check_in_result(refusal("Время для отметки ещё не наступило")),
        CheckInResult::TooEarly
    ));
    match check_in_result(refusal("Не найдено")) {
        CheckInResult::Error(e) => {
            assert_eq!(e.context, "Cannot make check-in: lesson instance was not found!")
        }
        other => panic!("unexpected {:?}", other),
    }
    match check_in_result(CheckInReply::Failure(FailureBody::NotJson("oops".to_string()))) {
        CheckInResult::Error(e) => {
            assert_eq!(e.context, "Cannot parse check_in response as json");
            assert_eq!(e.cause, Some("oops".to_string()));
        }
        other => panic!("unexpected {:?}", other),
    }
    match check_in_result(CheckInReply::Success(Err("eof".to_string()))) {
        CheckInResult::Error(e) => {
            assert_eq!(e.context, "Cannot parse check_in result with success code as json!")
        }
        other => panic!("unexpected {:?}", other),
    }
}

#[test]
fn unknown_check_in_refusals_are_unhandled() {
    assert!(!is_check_in_reply_handled(&refusal("Что-то другое")));
    assert!(!is_check_in_reply_handled(&CheckInReply::Failure(FailureBody::OtherJson)));
    assert!(is_check_in_reply_handled(&refusal("Не найдено")));
    assert!(is_check_in_reply_handled(&CheckInReply::Unauthorized));
}

#[test]
fn current_user_results() {
    match get_current_user_result(CurrentUserReply::Received(Ok(CurrentUserResponse {
        user: Some(user()),
    }))) {
        GetCurrentUserResult::Success(u) => {
            assert_eq!(u.id, 5);
            assert_eq!(u.curated.len(), 1);
        }
        _ => panic!("expected a user"),
    }
    assert!(matches!(
        get_current_user_result(CurrentUserReply::Received(Ok(CurrentUserResponse { user: None }))),
        GetCurrentUserResult::WrongToken
    ));
    match get_current_user_result(CurrentUserReply::SendFailed("dns".to_string())) {
        GetCurrentUserResult::Error(e) => {
            assert_eq!(e.context, "Cannot make fetch to current user from etu attendance");
            assert_eq!(e.cause, Some("dns".to_string()));
        }
        _ => panic!("expected an error"),
    }
    match get_current_user_result(CurrentUserReply::Received(Err("eof".to_string()))) {
        GetCurrentUserResult::Error(e) => assert_eq!(
            e.context,
            "Cannot parse get_current_user result with success code as json!"
        ),
        _ => panic!("expected an error"),
    }
}
