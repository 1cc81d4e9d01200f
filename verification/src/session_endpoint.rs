//! The control plane's decisions: which session names are taken, and what
//! is replied to the creation, the reading and the deletion of a session.
use vstd::prelude::*;
use crate::json::{lemma_object_view, members_view, Json, JsonValue, Member};
use crate::request_logger::{LoggerError, LoggerErrorModel, RequestLog};
use crate::response::{error_response, success_response, WithError};
use crate::text::chars_of;

verus! {

/// A letter or digit of ASCII, a hyphen or an underscore.
pub open spec fn is_session_char(c: char) -> bool {
    ('a' <= c && c <= 'z') || ('A' <= c && c <= 'Z') || ('0' <= c && c <= '9') || c == '-' || c
        == '_'
}

/// A session name is not empty and holds letters and digits of ASCII,
/// hyphens and underscores only.
pub open spec fn is_session_name(name: Seq<char>) -> bool {
    name.len() > 0 && forall|i: int| 0 <= i < name.len() ==> is_session_char(#[trigger] name[i])
}

/// Whether `name` can name a session.
pub fn check_session_name(name: &str) -> (r: bool)
    ensures
        r == is_session_name(name@),
{
    let chars = chars_of(name);
    if chars.len() == 0 {
        return false;
    }
    let mut i: usize = 0;
    while i < chars.len()
        invariant
            i <= chars.len(),
            chars@ == name@,
            forall|k: int| 0 <= k < i ==> is_session_char(#[trigger] name@[k]),
        decreases chars.len() - i,
    {
        let c: char = chars[i];
        let fits = ('a' <= c && c <= 'z') || ('A' <= c && c <= 'Z') || ('0' <= c && c <= '9') || c
            == '-' || c == '_';
        if !fits {
            return false;
        }
        i += 1;
    }
    true
}

/// The body of the reply to a created session.
#[derive(Clone, Debug, PartialEq, Eq)]
pub struct CreateResBody {
    pub session: String,
}

/// The body of the reply to a read session.
#[derive(Debug, PartialEq, Eq)]
pub struct GetResBody {
    pub histories: Vec<RequestLog>,
}

/// The body of the reply to a deleted session.
#[derive(Clone, Debug, PartialEq, Eq)]
pub struct DeleteResBody {
    pub session: String,
}

/// The reply that refuses a name that cannot name a session, if `session`
/// is such a name: status 400. For such a name the store is not asked.
pub fn refuse_session_name(session: &str) -> (r: Option<(u16, WithError<CreateResBody>)>)
    ensures
        match r {
            Some(reply) => !is_session_name(session@) && reply.0 == 400 && reply.1 is Error
                && reply.1->Error_0.serverify_error.message@
                == "session name should contains only alphanumeric, hyphen or underscore"@,
            None => is_session_name(session@),
        },
{
    if check_session_name(session) {
        None
    } else {
        Some(
            error_response(
                400,
                "session name should contains only alphanumeric, hyphen or underscore",
            ),
        )
    }
}

/// The reply to the creation of a session: 201 with the name where it
/// was created, 409 where the recorder refused the name, 500 where the
/// store failed.
pub fn create_session(session: String, outcome: Result<(), LoggerError>) -> (r: (
    u16,
    WithError<CreateResBody>,
))
    ensures
        match outcome {
            Ok(_) => r.0 == 201 && r.1 == WithError::Success(CreateResBody { session }),
            Err(e) => r.1 is Error && (match e@ {
                LoggerErrorModel::InvalidSession(message) => r.0 == 409
                    && r.1->Error_0.serverify_error.message@ == message,
                LoggerErrorModel::InternalError(message) => r.0 == 500
                    && r.1->Error_0.serverify_error.message@ == message,
            }),
        },
{
    match outcome {
        Ok(_) => success_response(201, CreateResBody { session }),
        Err(LoggerError::InvalidSession(message)) => error_response(409, message.as_str()),
        Err(LoggerError::InternalError(message)) => error_response(500, message.as_str()),
    }
}

/// The reply to the reading of a session: 200 with its history, 404
/// where the session was not found, 500 where the store failed.
pub fn get_session(outcome: Result<Vec<RequestLog>, LoggerError>) -> (r: (
    u16,
    WithError<GetResBody>,
))
    ensures
        match outcome {
            Ok(histories) => r.0 == 200 && r.1 == WithError::Success(GetResBody { histories }),
            Err(e) => r.1 is Error && (match e@ {
                LoggerErrorModel::InvalidSession(message) => r.0 == 404
                    && r.1->Error_0.serverify_error.message@ == message,
                LoggerErrorModel::InternalError(message) => r.0 == 500
                    && r.1->Error_0.serverify_error.message@ == message,
            }),
        },
{
    match outcome {
        Ok(histories) => success_response(200, GetResBody { histories }),
        Err(LoggerError::InvalidSession(message)) => error_response(404, message.as_str()),
        Err(LoggerError::InternalError(message)) => error_response(500, message.as_str()),
    }
}

/// The reply to the deletion of a session: 200 with the name, 404 where
/// the session was not found, 500 where the store failed.
pub fn delete_session(session: String, outcome: Result<(), LoggerError>) -> (r: (
    u16,
    WithError<DeleteResBody>,
))
    ensures
        match outcome {
            Ok(_) => r.0 == 200 && r.1 == WithError::Success(DeleteResBody { session }),
            Err(e) => r.1 is Error && (match e@ {
                LoggerErrorModel::InvalidSession(message) => r.0 == 404
                    && r.1->Error_0.serverify_error.message@ == message,
                LoggerErrorModel::InternalError(message) => r.0 == 500
                    && r.1->Error_0.serverify_error.message@ == message,
            }),
        },
{
    match outcome {
        Ok(_) => success_response(200, DeleteResBody { session }),
        Err(LoggerError::InvalidSession(message)) => error_response(404, message.as_str()),
        Err(LoggerError::InternalError(message)) => error_response(500, message.as_str()),
    }
}

/// The reply to a health check: 200 with the status `ok`.
pub fn health() -> (r: (u16, Json))
    ensures
        r.0 == 200,
        r.1@ == JsonValue::Object(seq![("status"@, JsonValue::Str("ok"@))]),
{
    let mut members: Vec<Member> = Vec::new();
    members.push(Member { name: "status".to_owned(), value: Json::Str("ok".to_owned()) });
    proof {
        lemma_object_view(members);
        assert(members_view(members@) =~= seq![("status"@, JsonValue::Str("ok"@))]);
    }
    (200, Json::Object(members))
}

} // verus!
