#![allow(non_snake_case)]

use vstd::prelude::*;
use crate::schedule::opt_text;

verus! {

/// A JSON value of the attendance service, carried through unread.
#[verifier::external_type_specification]
#[verifier::external_body]
pub struct ExJsonValue(serde_json::Value);

/// The attendance service's clock: the current time and the study week.
#[derive(Debug)]
pub struct TimeResponse {
    pub time: String,
    pub week: i32,
}

#[derive(Debug)]
pub struct LessonResponse {
    pub id: i32,
    pub title: String,
    pub shortTitle: String,
    pub subjectType: String,
}

#[derive(Debug)]
pub struct TeacherResponse {
    pub id: i32,
    pub name: String,
    pub surname: String,
    pub midname: String,
}

/// One lesson of the current schedule as the attendance service reports it.
#[derive(Debug)]
pub struct LessonInstanceResponse {
    pub id: i32,
    pub start: String,
    pub end: String,
    pub isDistant: bool,
    pub room: Option<String>,
    pub lesson: LessonResponse,
    pub teachers: Vec<TeacherResponse>,
    pub selfReported: Option<bool>,
    pub groupLeaderReported: Option<bool>,
    pub teacherReported: Option<bool>,
    pub isGroupLeader: bool,
    pub checkInStart: String,
    pub checkInDeadline: String,
}

#[derive(Debug)]
pub struct AttendanceCheckInResponse {
    pub ok: bool,
}

/// The body of a refused request.
#[derive(Debug)]
pub struct AttendanceCheckInResponseError {
    pub message: String,
}

#[derive(Debug)]
pub struct UserGroupResponse {
    pub role: String,
    pub status: String,
    pub isNew: bool,
    pub groupId: i32,
}

#[derive(Debug)]
pub struct GroupResponse {
    pub name: String,
    pub isFake: bool,
    pub studyLevel: String,
    pub studyForm: String,
    pub UserGroup: UserGroupResponse,
}

#[derive(Debug)]
pub struct UserResponse {
    pub initials: String,
    pub id: i32,
    pub surname: String,
    pub name: String,
    pub midname: String,
    pub email: String,
    pub lkId: i32,
    pub roles: Vec<String>,
    pub personalNumber: String,
    pub birthday: String,
    pub createdAt: String,
    pub updatedAt: String,
    pub groups: Vec<GroupResponse>,
    pub curated: Vec<serde_json::Value>,
    pub departments: Vec<serde_json::Value>,
    pub faculties: Vec<serde_json::Value>,
}

#[derive(Debug)]
pub struct CurrentUserResponse {
    pub user: Option<UserResponse>,
}

/// A failed exchange with the attendance service: what was being done, and
/// the underlying error where there is one.
#[derive(Debug)]
pub struct ApiError {
    pub context: String,
    pub cause: Option<String>,
}

#[derive(Debug)]
pub enum GetScheduleResult {
    Success(Vec<LessonInstanceResponse>),
    WrongToken,
    Error(ApiError),
}

#[derive(Debug)]
pub enum CheckInResult {
    Success,
    TooEarly,
    TooLate,
    WrongToken,
    Error(ApiError),
}

#[derive(Debug)]
pub enum GetCurrentUserResult {
    Success(UserResponse),
    WrongToken,
    Error(ApiError),
}

/// The HTTP method of a request to the attendance service.
#[derive(Debug, Clone, Copy, PartialEq, Eq, Structural)]
pub enum HttpMethod {
    Get,
    Post,
}

/// A request to the attendance service: method, full URL, and the session
/// cookie where the request is made on behalf of a user.
#[derive(Debug)]
pub struct AttendanceRequest {
    pub method: HttpMethod,
    pub url: String,
    pub cookie: Option<String>,
}

/// The URL of an endpoint of the attendance service.
pub open spec fn route_url(query: Seq<char>) -> Seq<char> {
    "https://digital.etu.ru/attendance/api/"@ + query
}

/// The session cookie that carries a user's token.
pub open spec fn session_cookie(token: Seq<char>) -> Seq<char> {
    "connect.digital-attendance="@ + token
}

/// The character of a decimal digit.
pub open spec fn digit_char(d: nat) -> char {
    (48 + d) as char
}

/// The decimal digits of a natural number, most significant first.
pub open spec fn decimal_digits(n: nat) -> Seq<char>
    decreases n,
{
    if n < 10 {
        seq![digit_char(n)]
    } else {
        decimal_digits(n / 10).push(digit_char(n % 10))
    }
}

/// An integer written in decimal, with a leading minus sign when negative.
pub open spec fn decimal_text(x: int) -> Seq<char> {
    if x < 0 {
        seq!['-'] + decimal_digits((-x) as nat)
    } else {
        decimal_digits(x as nat)
    }
}

/// The URL of an endpoint of the attendance service.
pub fn route(query: &str) -> (url: String)
    ensures
        url@ == route_url(query@),
{
    let mut url = String::from_str("https://digital.etu.ru/attendance/api/");
    url.append(query);
    url
}

/// The text of one decimal digit.
fn digit_str(d: u64) -> (s: &'static str)
    requires
        d < 10,
    ensures
        s@ == seq![digit_char(d as nat)],
{
    match d {
        0 => {
            proof { reveal_strlit("0"); }
            "0"
        },
        1 => {
            proof { reveal_strlit("1"); }
            "1"
        },
        2 => {
            proof { reveal_strlit("2"); }
            "2"
        },
        3 => {
            proof { reveal_strlit("3"); }
            "3"
        },
        4 => {
            proof { reveal_strlit("4"); }
            "4"
        },
        5 => {
            proof { reveal_strlit("5"); }
            "5"
        },
        6 => {
            proof { reveal_strlit("6"); }
            "6"
        },
        7 => {
            proof { reveal_strlit("7"); }
            "7"
        },
        8 => {
            proof { reveal_strlit("8"); }
            "8"
        },
        _ => {
            proof { reveal_strlit("9"); }
            "9"
        },
    }
}

/// Appends the decimal digits of `n`.
fn append_digits(out: &mut String, n: u64)
    ensures
        final(out)@ == old(out)@ + decimal_digits(n as nat),
    decreases n,
{
    if n >= 10 {
        append_digits(out, n / 10);
    }
    out.append(digit_str(n % 10));
    proof {
        if n >= 10 {
            assert(final(out)@ =~= old(out)@ + decimal_digits(n as nat));
        } else {
            assert(final(out)@ =~= old(out)@ + decimal_digits(n as nat));
        }
    }
}

/// An integer written in decimal.
pub fn decimal_string(x: i32) -> (s: String)
    ensures
        s@ == decimal_text(x as int),
{
    let mut out = String::new();
    let wide: i64 = x as i64;
    let magnitude: u64 = if wide < 0 {
        out.append("-");
        proof { reveal_strlit("-"); }
        (-wide) as u64
    } else {
        wide as u64
    };
    append_digits(&mut out, magnitude);
    proof {
        assert(out@ =~= decimal_text(x as int));
    }
    out
}

/// The request for the service's clock.
pub fn get_time_request() -> (req: AttendanceRequest)
    ensures
        req.method == HttpMethod::Get,
        req.url@ == route_url("settings/time"@),
        req.cookie is None,
{
    AttendanceRequest { method: HttpMethod::Get, url: route("settings/time"), cookie: None }
}

/// The session cookie that carries a user's token.
pub fn attendance_cookie(token: &str) -> (cookie: String)
    ensures
        cookie@ == session_cookie(token@),
{
    let mut cookie = String::from_str("connect.digital-attendance=");
    cookie.append(token);
    cookie
}

/// The request for a user's current schedule.
pub fn get_cur_schedule_request(token: &str) -> (req: AttendanceRequest)
    ensures
        req.method == HttpMethod::Get,
        req.url@ == route_url("schedule/check-in"@),
        req.cookie matches Some(c) && c@ == session_cookie(token@),
{
    AttendanceRequest {
        method: HttpMethod::Get,
        url: route("schedule/check-in"),
        cookie: Some(attendance_cookie(token)),
    }
}

/// The request that checks a user in on a lesson.
pub fn check_in_request(token: &str, lesson_instance_id: i32) -> (req: AttendanceRequest)
    ensures
        req.method == HttpMethod::Post,
        req.url@ == route_url("schedule/check-in/"@ + decimal_text(lesson_instance_id as int)),
        req.cookie matches Some(c) && c@ == session_cookie(token@),
{
    let mut path = String::from_str("schedule/check-in/");
    let id = decimal_string(lesson_instance_id);
    path.append(id.as_str());
    AttendanceRequest {
        method: HttpMethod::Post,
        url: route(path.as_str()),
        cookie: Some(attendance_cookie(token)),
    }
}

/// The request for the user that a token belongs to.
pub fn get_current_user_request(token: &str) -> (req: AttendanceRequest)
    ensures
        req.method == HttpMethod::Get,
        req.url@ == route_url("auth/current-user"@),
        req.cookie matches Some(c) && c@ == session_cookie(token@),
{
    AttendanceRequest {
        method: HttpMethod::Get,
        url: route("auth/current-user"),
        cookie: Some(attendance_cookie(token)),
    }
}

/// How a reply's status code is handled.
#[derive(Debug, Clone, Copy, PartialEq, Eq, Structural)]
pub enum ReplyClass {
    /// A 2xx status: the body holds the answer.
    Success,
    /// Status 401: the token is not accepted.
    Unauthorized,
    /// Any other status: the body holds an error message.
    Failure,
}

/// The class of a reply status: 2xx is success, 401 a refused token,
/// anything else a failure.
pub open spec fn status_class(status: u16) -> ReplyClass {
    if 200 <= status < 300 {
        ReplyClass::Success
    } else if status == 401 {
        ReplyClass::Unauthorized
    } else {
        ReplyClass::Failure
    }
}

/// Only status 401 refuses the token; every 2xx status is a success and
/// every other status a failure whose body is read.
pub proof fn only_401_refuses_the_token(status: u16)
    ensures
        status_class(status) == ReplyClass::Unauthorized <==> status == 401,
        status_class(status) == ReplyClass::Success <==> 200 <= status && status <= 299,
        status_class(status) == ReplyClass::Failure <==> !(200 <= status && status <= 299) && status != 401,
{
}

/// Classifies a reply status.
pub fn classify_status(status: u16) -> (class: ReplyClass)
    ensures
        class == status_class(status),
        class == ReplyClass::Unauthorized <==> status == 401,
        class == ReplyClass::Success <==> 200 <= status && status <= 299,
{
    if 200 <= status && status < 300 {
        ReplyClass::Success
    } else if status == 401 {
        ReplyClass::Unauthorized
    } else {
        ReplyClass::Failure
    }
}

/// What the body of a failure reply held.
#[derive(Debug)]
pub enum FailureBody {
    /// The body is not JSON; the parser's error.
    NotJson(String),
    /// The body is an error message.
    Message(AttendanceCheckInResponseError),
    /// The body is JSON of another shape.
    OtherJson,
}

/// The exchange of a schedule request, as far as it went.
#[derive(Debug)]
pub enum ScheduleReply {
    /// The request could not be sent; the transport's error.
    SendFailed(String),
    /// A success status; the lessons read from the body, or the parser's error.
    Success(Result<Vec<LessonInstanceResponse>, String>),
    /// Status 401.
    Unauthorized,
    /// Another status, with what its body held.
    Failure(FailureBody),
}

/// The exchange of a check-in request after the request was sent.
#[derive(Debug)]
pub enum CheckInReply {
    /// A success status; the answer read from the body, or the parser's error.
    Success(Result<AttendanceCheckInResponse, String>),
    /// Status 401.
    Unauthorized,
    /// Another status, with what its body held.
    Failure(FailureBody),
}

/// The exchange of a current-user request, as far as it went.
#[derive(Debug)]
pub enum CurrentUserReply {
    /// The request could not be sent; the transport's error.
    SendFailed(String),
    /// The answer read from the body, or the parser's error.
    Received(Result<CurrentUserResponse, String>),
}

/// An error that says `context`, caused by `cause`.
pub open spec fn error_is(e: ApiError, context: Seq<char>, cause: Option<Seq<char>>) -> bool {
    e.context@ == context && opt_text(e.cause) == cause
}

fn api_error(context: &str, cause: Option<String>) -> (e: ApiError)
    ensures
        e.context@ == context@,
        e.cause == cause,
{
    ApiError { context: String::from_str(context), cause }
}

/// A schedule exchange that the service can answer in a way that is
/// handled: every failure body other than a non-JSON one is unhandled.
pub open spec fn schedule_reply_handled(reply: ScheduleReply) -> bool {
    reply matches ScheduleReply::Failure(body) ==> body is NotJson
}

/// Whether a schedule exchange is handled.
pub fn is_schedule_reply_handled(reply: &ScheduleReply) -> (handled: bool)
    ensures
        handled == schedule_reply_handled(*reply),
{
    match reply {
        ScheduleReply::Failure(FailureBody::NotJson(_)) => true,
        ScheduleReply::Failure(_) => false,
        _ => true,
    }
}

/// The outcome of a schedule exchange.
pub fn get_cur_schedule_result(reply: ScheduleReply) -> (r: GetScheduleResult)
    requires
        schedule_reply_handled(reply),
    ensures
        match reply {
            ScheduleReply::SendFailed(e) => r matches GetScheduleResult::Error(err) && error_is(
                err,
                "Cannot make fetch to schedule from etu attendance"@,
                Some(e@),
            ),
            ScheduleReply::Success(Ok(lessons)) => r == GetScheduleResult::Success(lessons),
            ScheduleReply::Success(Err(e)) => r matches GetScheduleResult::Error(err) && error_is(
                err,
                "Cannot parse get_cur_schedule result with success code as LessonInstanceResponse json!"@,
                Some(e@),
            ),
            ScheduleReply::Unauthorized => r is WrongToken,
            ScheduleReply::Failure(FailureBody::NotJson(e)) => r matches GetScheduleResult::Error(err)
                && error_is(err, "Cannot parse get_cur_schedule response as json"@, Some(e@)),
            ScheduleReply::Failure(_) => false,
        },
{
    match reply {
        ScheduleReply::SendFailed(e) => GetScheduleResult::Error(
            api_error("Cannot make fetch to schedule from etu attendance", Some(e)),
        ),
        ScheduleReply::Success(Ok(lessons)) => GetScheduleResult::Success(lessons),
        ScheduleReply::Success(Err(e)) => GetScheduleResult::Error(
            api_error(
                "Cannot parse get_cur_schedule result with success code as LessonInstanceResponse json!",
                Some(e),
            ),
        ),
        ScheduleReply::Unauthorized => GetScheduleResult::WrongToken,
        ScheduleReply::Failure(FailureBody::NotJson(e)) => GetScheduleResult::Error(
            api_error("Cannot parse get_cur_schedule response as json", Some(e)),
        ),
        ScheduleReply::Failure(_) => {
            assert(false);
            GetScheduleResult::WrongToken
        },
    }
}

/// The refusal messages of a check-in that are understood.
pub open spec fn known_check_in_message(message: Seq<char>) -> bool {
    ||| message == "Время для отметки истекло"@
    ||| message == "Время для отметки ещё не наступило"@
    ||| message == "Не найдено"@
}

/// A check-in exchange that the service can answer in a way that is
/// handled: a failure body must be non-JSON or one of the understood
/// refusal messages.
pub open spec fn check_in_reply_handled(reply: CheckInReply) -> bool {
    reply matches CheckInReply::Failure(body) ==> match body {
        FailureBody::NotJson(_) => true,
        FailureBody::Message(m) => known_check_in_message(m.message@),
        FailureBody::OtherJson => false,
    }
}

/// The understood refusal message that `message` is: 0 for a missed
/// deadline, 1 for a check-in that has not opened, 2 for an unknown lesson.
fn check_in_message_kind(message: &String) -> (kind: Option<u8>)
    ensures
        kind == Some(0u8) <==> message@ == "Время для отметки истекло"@,
        kind == Some(1u8) <==> message@ == "Время для отметки ещё не наступило"@,
        kind == Some(2u8) <==> message@ == "Не найдено"@,
        kind is None <==> !known_check_in_message(message@),
{
    let too_late = String::from_str("Время для отметки истекло");
    let too_early = String::from_str("Время для отметки ещё не наступило");
    let not_found = String::from_str("Не найдено");
    proof {
        reveal_strlit("Время для отметки истекло");
        reveal_strlit("Время для отметки ещё не наступило");
        reveal_strlit("Не найдено");
        assert(too_late@ != too_early@) by {
            assert(too_late@.len() != too_early@.len());
        }
        assert(too_late@ != not_found@) by {
            assert(too_late@.len() != not_found@.len());
        }
        assert(too_early@ != not_found@) by {
            assert(too_early@.len() != not_found@.len());
        }
    }
    if *message == too_late {
        Some(0)
    } else if *message == too_early {
        Some(1)
    } else if *message == not_found {
        Some(2)
    } else {
        None
    }
}

/// Whether a check-in exchange is handled.
pub fn is_check_in_reply_handled(reply: &CheckInReply) -> (handled: bool)
    ensures
        handled == check_in_reply_handled(*reply),
{
    match reply {
        CheckInReply::Failure(FailureBody::NotJson(_)) => true,
        CheckInReply::Failure(FailureBody::Message(m)) => check_in_message_kind(&m.message).is_some(),
        CheckInReply::Failure(FailureBody::OtherJson) => false,
        _ => true,
    }
}

/// The outcome of a check-in exchange.
pub fn check_in_result(reply: CheckInReply) -> (r: CheckInResult)
    requires
        check_in_reply_handled(reply),
    ensures
        match reply {
            CheckInReply::Success(Ok(answer)) => if answer.ok {
                r is Success
            } else {
                r matches CheckInResult::Error(err) && error_is(
                    err,
                    "Cannot make check-in: ok is not true!"@,
                    None,
                )
            },
            CheckInReply::Success(Err(e)) => r matches CheckInResult::Error(err) && error_is(
                err,
                "Cannot parse check_in result with success code as json!"@,
                Some(e@),
            ),
            CheckInReply::Unauthorized => r is WrongToken,
            CheckInReply::Failure(FailureBody::NotJson(e)) => r matches CheckInResult::Error(err)
                && error_is(err, "Cannot parse check_in response as json"@, Some(e@)),
            CheckInReply::Failure(FailureBody::Message(m)) => {
                &&& m.message@ == "Время для отметки истекло"@ ==> r is TooLate
                &&& m.message@ == "Время для отметки ещё не наступило"@ ==> r is TooEarly
                &&& m.message@ == "Не найдено"@ ==> (r matches CheckInResult::Error(err) && error_is(
                    err,
                    "Cannot make check-in: lesson instance was not found!"@,
                    None,
                ))
            },
            CheckInReply::Failure(FailureBody::OtherJson) => false,
        },
{
    match reply {
        CheckInReply::Success(Ok(answer)) => {
            if answer.ok {
                CheckInResult::Success
            } else {
                CheckInResult::Error(api_error("Cannot make check-in: ok is not true!", None))
            }
        },
        CheckInReply::Success(Err(e)) => CheckInResult::Error(
            api_error("Cannot parse check_in result with success code as json!", Some(e)),
        ),
        CheckInReply::Unauthorized => CheckInResult::WrongToken,
        CheckInReply::Failure(FailureBody::NotJson(e)) => CheckInResult::Error(
            api_error("Cannot parse check_in response as json", Some(e)),
        ),
        CheckInReply::Failure(FailureBody::Message(m)) => {
            match check_in_message_kind(&m.message) {
                Some(0) => CheckInResult::TooLate,
                Some(1) => CheckInResult::TooEarly,
                _ => CheckInResult::Error(
                    api_error("Cannot make check-in: lesson instance was not found!", None),
                ),
            }
        },
        CheckInReply::Failure(FailureBody::OtherJson) => {
            assert(false);
            CheckInResult::WrongToken
        },
    }
}

/// The outcome of a current-user exchange.
pub fn get_current_user_result(reply: CurrentUserReply) -> (r: GetCurrentUserResult)
    ensures
        match reply {
            CurrentUserReply::SendFailed(e) => r matches GetCurrentUserResult::Error(err) && error_is(
                err,
                "Cannot make fetch to current user from etu attendance"@,
                Some(e@),
            ),
            CurrentUserReply::Received(Err(e)) => r matches GetCurrentUserResult::Error(err)
                && error_is(
                err,
                "Cannot parse get_current_user result with success code as json!"@,
                Some(e@),
            ),
            CurrentUserReply::Received(Ok(answer)) => match answer.user {
                Some(user) => r == GetCurrentUserResult::Success(user),
                None => r is WrongToken,
            },
        },
{
    match reply {
        CurrentUserReply::SendFailed(e) => GetCurrentUserResult::Error(
            api_error("Cannot make fetch to current user from etu attendance", Some(e)),
        ),
        CurrentUserReply::Received(Err(e)) => GetCurrentUserResult::Error(
            api_error("Cannot parse get_current_user result with success code as json!", Some(e)),
        ),
        CurrentUserReply::Received(Ok(answer)) => match answer.user {
            Some(user) => GetCurrentUserResult::Success(user),
            None => GetCurrentUserResult::WrongToken,
        },
    }
}

} // verus!
