use indexmap::IndexMap;
use serverify::json::{Json, Member};
use serverify::method::Method;
use serverify::request_logger::{LoggerError, RequestLog, Timestamp};
use serverify::response::{error_response, success_response, ErrorResBody, ServerifyError, WithError};
use serverify::session_endpoint::{
    check_session_name, create_session, refuse_session_name, CreateResBody, DeleteResBody,
    GetResBody,
};

fn control_get_session(
    outcome: Result<Vec<RequestLog>, LoggerError>,
) -> (u16, WithError<GetResBody>) {
    serverify::session_endpoint::get_session(outcome)
}

fn control_delete_session(
    session: String,
    outcome: Result<(), LoggerError>,
) -> (u16, WithError<DeleteResBody>) {
    serverify::session_endpoint::delete_session(session, outcome)
}

const EXIST_SESSION: &str = "exist_session";

fn failure<T>(message: &str) -> WithError<T> {
    WithError::Error(ErrorResBody { serverify_error: ServerifyError { message: message.to_string() } })
}

fn logged() -> RequestLog {
    let mut headers = IndexMap::new();
    headers.insert("token".to_string(), "abc".to_string());
    let mut query = IndexMap::new();
    query.insert("answer".to_string(), "42".to_string());
    RequestLog {
        method: Method::Post,
        path: "/greet".to_string(),
        headers,
        query,
        body: r#"{"message":"hello"}"#.to_string(),
        requested_at: Timestamp { seconds: 1704132245, nanoseconds: 0, offset_seconds: 32400 },
    }
}

#[test]
fn when_the_store_fails() {
    assert_eq!(
        (500, failure("disk")),
        create_session("a".to_string(), Err(LoggerError::InternalError("disk".to_string())))
    );
    assert_eq!(
        (500, failure("disk")),
        control_get_session(Err(LoggerError::InternalError("disk".to_string())))
    );
    assert_eq!(
        (500, failure("disk")),
        control_delete_session("a".to_string(), Err(LoggerError::InternalError("disk".to_string())))
    );
}

#[test]
fn session_names_hold_letters_digits_hyphens_and_underscores() {
    for name in ["a", "A-b_9", "-", "_", "0", "exist_session"] {
        assert!(check_session_name(name), "{}", name);
    }
    for name in ["", " ", "a b", "a/b", "é", "a\n", "a.b", "a+b"] {
        assert!(!check_session_name(name), "{}", name);
    }
}

#[test]
fn session_names_agree_with_the_pattern() {
    let pattern = regex::Regex::new(r"^[-a-zA-Z0-9_]+$").unwrap();
    for name in ["", "a", "a-b", "a_b", "a b", "ab\n", "Z9", "ü", "--", "a:b"] {
        assert_eq!(pattern.is_match(name), check_session_name(name), "{}", name);
    }
}

#[test]
fn replies_carry_status_and_body() {
    assert_eq!((201, WithError::Success(7)), success_response(201, 7));
    assert_eq!((404, failure::<u8>("gone")), error_response::<u8>(404, "gone"));
}

#[test]
fn health_says_ok() {
    assert_eq!(
        (
            200,
            Json::Object(vec![Member {
                name: "status".to_string(),
                value: Json::Str("ok".to_string())
            }])
        ),
        serverify::session_endpoint::health()
    );
    assert_eq!(
        r#"{"status":"ok"}"#,
        serverify::json::to_serde(&serverify::session_endpoint::health().1).to_string()
    );
}

#[test]
fn replies_to_the_store_s_answers() {
    assert_eq!(None, refuse_session_name("mysession"));
    assert_eq!(
        (201, WithError::Success(CreateResBody { session: "mysession".to_string() })),
        create_session("mysession".to_string(), Ok(()))
    );
    assert_eq!(
        (409, failure("session \"a\" already exists")),
        create_session(
            "a".to_string(),
            Err(LoggerError::InvalidSession("session \"a\" already exists".to_string()))
        )
    );
    assert_eq!(
        Some((
            400,
            failure("session name should contains only alphanumeric, hyphen or underscore")
        )),
        refuse_session_name("has space")
    );
    assert_eq!(
        (200, WithError::Success(GetResBody { histories: vec![logged()] })),
        control_get_session(Ok(vec![logged()]))
    );
    assert_eq!(
        (404, failure("gone")),
        control_get_session(Err(LoggerError::InvalidSession("gone".to_string())))
    );
    assert_eq!(
        (200, WithError::Success(DeleteResBody { session: EXIST_SESSION.to_string() })),
        control_delete_session(EXIST_SESSION.to_string(), Ok(()))
    );
    assert_eq!(
        (404, failure("gone")),
        control_delete_session("x".to_string(), Err(LoggerError::InvalidSession("gone".to_string())))
    );
}
