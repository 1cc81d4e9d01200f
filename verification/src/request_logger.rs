//! The request recorder: what it stores of a request, the statements it
//! sends to the store, and what it makes of the store's answers.
use vstd::prelude::*;
use indexmap::IndexMap;
use crate::method::{lemma_token_round_trip, method_of_token, Method};
use crate::ordered::{
    distinct_keys, entries, inserted, keys_stand_first, lemma_first_is_distinct,
    lemma_inserted_distinct, lemma_position_none, map_clone, map_entry, map_insert, map_len,
    new_map,
};
use crate::text::{join2, join3};

verus! {

/// A point in time with the offset of the local time zone: seconds and
/// nanoseconds since the Unix epoch, and the offset from UTC in seconds.
#[derive(Clone, Copy, Debug, PartialEq, Eq, Structural)]
pub struct Timestamp {
    pub seconds: i64,
    pub nanoseconds: u32,
    pub offset_seconds: i32,
}

/// Why the recorder could not do what was asked.
#[derive(Clone, Debug, PartialEq, Eq)]
pub enum LoggerError {
    /// The caller named a session that does not exist, or one that exists
    /// already.
    InvalidSession(String),
    /// Anything else: the store failed.
    InternalError(String),
}

/// One recorded request.
#[derive(Debug, PartialEq, Eq)]
pub struct RequestLog {
    pub method: Method,
    pub headers: IndexMap<String, String>,
    pub path: String,
    pub query: IndexMap<String, String>,
    pub body: String,
    pub requested_at: Timestamp,
}

/// The model of a [`RequestLog`].
pub struct RequestLogModel {
    pub method: Method,
    pub headers: Seq<(Seq<char>, Seq<char>)>,
    pub path: Seq<char>,
    pub query: Seq<(Seq<char>, Seq<char>)>,
    pub body: Seq<char>,
    pub requested_at: Timestamp,
}

impl View for RequestLog {
    type V = RequestLogModel;

    open spec fn view(&self) -> RequestLogModel {
        RequestLogModel {
            method: self.method,
            headers: entries(self.headers),
            path: self.path@,
            query: entries(self.query),
            body: self.body@,
            requested_at: self.requested_at,
        }
    }
}

impl Clone for RequestLog {
    /// A copy that holds the same.
    fn clone(&self) -> (r: RequestLog)
        ensures
            r@ == self@,
    {
        RequestLog {
            method: self.method,
            headers: map_clone(&self.headers),
            path: self.path.clone(),
            query: map_clone(&self.query),
            body: self.body.clone(),
            requested_at: self.requested_at,
        }
    }
}

/// The model of a [`LoggerError`].
pub enum LoggerErrorModel {
    InvalidSession(Seq<char>),
    InternalError(Seq<char>),
}

impl View for LoggerError {
    type V = LoggerErrorModel;

    open spec fn view(&self) -> LoggerErrorModel {
        match self {
            LoggerError::InvalidSession(message) => LoggerErrorModel::InvalidSession(message@),
            LoggerError::InternalError(message) => LoggerErrorModel::InternalError(message@),
        }
    }
}

impl LoggerError {
    /// The error's message.
    pub fn to_message(&self) -> (r: String)
        ensures
            r@ == (match self@ {
                LoggerErrorModel::InvalidSession(message) => message,
                LoggerErrorModel::InternalError(message) => message,
            }),
    {
        match self {
            LoggerError::InvalidSession(message) => message.clone(),
            LoggerError::InternalError(message) => message.clone(),
        }
    }
}

/// A value bound to a `?` of a statement.
#[derive(Clone, Debug, PartialEq, Eq)]
pub enum SqlValue {
    Text(String),
    Integer(i64),
    Time(Timestamp),
}

/// The model of a [`SqlValue`].
pub enum SqlModel {
    Text(Seq<char>),
    Integer(i64),
    Time(Timestamp),
}

impl View for SqlValue {
    type V = SqlModel;

    open spec fn view(&self) -> SqlModel {
        match self {
            SqlValue::Text(text) => SqlModel::Text(text@),
            SqlValue::Integer(number) => SqlModel::Integer(*number),
            SqlValue::Time(at) => SqlModel::Time(*at),
        }
    }
}

/// A statement for the store: its text, with a `?` for each value, and
/// the values in the order of their `?`.
#[derive(Clone, Debug, PartialEq, Eq)]
pub struct Statement {
    pub sql: String,
    pub binds: Vec<SqlValue>,
}

/// The model of a [`Statement`].
pub struct StatementModel {
    pub sql: Seq<char>,
    pub binds: Seq<SqlModel>,
}

/// The models of a list of bound values, in order.
pub open spec fn binds_view(binds: Seq<SqlValue>) -> Seq<SqlModel> {
    Seq::new(binds.len(), |i: int| binds[i]@)
}

impl View for Statement {
    type V = StatementModel;

    open spec fn view(&self) -> StatementModel {
        StatementModel { sql: self.sql@, binds: binds_view(self.binds@) }
    }
}

/// What kind of failure the store reported.
#[derive(Clone, Copy, Debug, PartialEq, Eq, Structural)]
pub enum FaultKind {
    /// A value that must be unique is there already.
    UniqueViolation,
    /// A value that must not be null is null.
    NotNullViolation,
    /// Anything else.
    Other,
}

/// A failure of the store: its kind and its message.
#[derive(Clone, Debug, PartialEq, Eq)]
pub struct StoreFault {
    pub kind: FaultKind,
    pub message: String,
}

/// What a result of the recorder holds, where it carries no value.
pub open spec fn unit_view(r: Result<(), LoggerError>) -> Result<(), LoggerErrorModel> {
    match r {
        Ok(_) => Ok(()),
        Err(e) => Err(e@),
    }
}

/// What a result of the recorder holds, where it carries a row id.
pub open spec fn id_view(r: Result<i64, LoggerError>) -> Result<i64, LoggerErrorModel> {
    match r {
        Ok(id) => Ok(id),
        Err(e) => Err(e@),
    }
}

/// The message for a session that was asked for and is not there.
pub open spec fn not_found_message(session: Seq<char>) -> Seq<char> {
    "session \""@ + session + "\" is not found"@
}

/// The message for a session that was to be created and is there already.
pub open spec fn exists_message(session: Seq<char>) -> Seq<char> {
    "session \""@ + session + "\" already exists"@
}

/// The statements that create the four tables, dropping what was there.
pub const SCHEMA: &'static str = "DROP TABLE IF EXISTS session;
CREATE TABLE session (
    id INTEGER PRIMARY KEY AUTOINCREMENT,
    name VARCHAR(255) UNIQUE NOT NULL
);

DROP TABLE IF EXISTS request_log;
CREATE TABLE request_log (
    id INTEGER PRIMARY KEY AUTOINCREMENT,
    session_id INTEGER NOT NULL,
    method VARCHAR(255) NOT NULL,
    path VARCHAR(255) NOT NULL,
    body TEXT NOT NULL,
    requested_at TIMESTAMP NOT NULL,
    FOREIGN KEY (session_id) REFERENCES session(id) ON DELETE CASCADE
);

DROP TABLE IF EXISTS request_header;
CREATE TABLE request_header (
    id INTEGER PRIMARY KEY AUTOINCREMENT,
    request_log_id INTEGER NOT NULL,
    name TEXT NOT NULL,
    value TEXT NOT NULL,
    FOREIGN KEY (request_log_id) REFERENCES request_log(id) ON DELETE CASCADE
);

DROP TABLE IF EXISTS request_query;
CREATE TABLE request_query (
    id INTEGER PRIMARY KEY AUTOINCREMENT,
    request_log_id INTEGER NOT NULL,
    name TEXT NOT NULL,
    value TEXT NOT NULL,
    FOREIGN KEY (request_log_id) REFERENCES request_log(id) ON DELETE CASCADE
);
";

/// A statement with one bound text.
fn statement_with_text(sql: &str, text: &str) -> (r: Statement)
    ensures
        r@ == (StatementModel { sql: sql@, binds: seq![SqlModel::Text(text@)] }),
{
    let mut binds: Vec<SqlValue> = Vec::new();
    binds.push(SqlValue::Text(text.to_owned()));
    assert(binds_view(binds@) =~= seq![SqlModel::Text(text@)]);
    Statement { sql: sql.to_owned(), binds }
}

/// A statement with one bound number.
fn statement_with_id(sql: &str, id: i64) -> (r: Statement)
    ensures
        r@ == (StatementModel { sql: sql@, binds: seq![SqlModel::Integer(id)] }),
{
    let mut binds: Vec<SqlValue> = Vec::new();
    binds.push(SqlValue::Integer(id));
    assert(binds_view(binds@) =~= seq![SqlModel::Integer(id)]);
    Statement { sql: sql.to_owned(), binds }
}

/// The statement that inserts a session of this name.
pub fn create_session_statement(session: &str) -> (r: Statement)
    ensures
        r@ == (StatementModel {
            sql: "INSERT INTO session (name) VALUES (?)"@,
            binds: seq![SqlModel::Text(session@)],
        }),
{
    statement_with_text("INSERT INTO session (name) VALUES (?)", session)
}

/// What creating a session comes to, given the store's answer: a
/// violated uniqueness says that the session exists already; any other
/// failure is the store's own.
pub fn create_session_result(session: &str, outcome: Result<(), StoreFault>) -> (r: Result<
    (),
    LoggerError,
>)
    ensures
        unit_view(r) == (match outcome {
            Ok(_) => Ok(()),
            Err(fault) => if fault.kind == FaultKind::UniqueViolation {
                Err(LoggerErrorModel::InvalidSession(exists_message(session@)))
            } else {
                Err(LoggerErrorModel::InternalError(fault.message@))
            },
        }),
{
    match outcome {
        Ok(_) => Ok(()),
        Err(fault) => {
            if fault.kind == FaultKind::UniqueViolation {
                Err(LoggerError::InvalidSession(join3("session \"", session, "\" already exists")))
            } else {
                Err(LoggerError::InternalError(fault.message))
            }
        },
    }
}

/// The statement that deletes the session of this name; its requests go
/// with it.
pub fn delete_session_statement(session: &str) -> (r: Statement)
    ensures
        r@ == (StatementModel {
            sql: "DELETE FROM session WHERE name = ?"@,
            binds: seq![SqlModel::Text(session@)],
        }),
{
    statement_with_text("DELETE FROM session WHERE name = ?", session)
}

/// What deleting a session comes to, given the number of rows that the
/// store deleted: with none, the session was not there.
pub fn delete_session_result(session: &str, outcome: Result<u64, StoreFault>) -> (r: Result<
    (),
    LoggerError,
>)
    ensures
        unit_view(r) == (match outcome {
            Ok(rows) => if rows == 0 {
                Err(LoggerErrorModel::InvalidSession(not_found_message(session@)))
            } else {
                Ok(())
            },
            Err(fault) => Err(LoggerErrorModel::InternalError(fault.message@)),
        }),
{
    match outcome {
        Ok(rows) => {
            if rows == 0 {
                Err(LoggerError::InvalidSession(join3("session \"", session, "\" is not found")))
            } else {
                Ok(())
            }
        },
        Err(fault) => Err(LoggerError::InternalError(fault.message)),
    }
}

/// The statement that inserts one request into the session of this name.
/// The session's id is looked up by the statement itself, so for a name
/// that is not there the store is given no id.
pub fn log_request_statement(session: &str, log: &RequestLog) -> (r: Statement)
    ensures
        r@ == log_insert(session@, log@),
{
    let mut binds: Vec<SqlValue> = Vec::new();
    binds.push(SqlValue::Text(session.to_owned()));
    binds.push(SqlValue::Text(log.method.to_string()));
    binds.push(SqlValue::Text(log.path.clone()));
    binds.push(SqlValue::Text(log.body.clone()));
    binds.push(SqlValue::Time(log.requested_at));
    assert(binds_view(binds@) =~= seq![
        SqlModel::Text(session@),
        SqlModel::Text(log.method.token()),
        SqlModel::Text(log.path@),
        SqlModel::Text(log.body@),
        SqlModel::Time(log.requested_at),
    ]);
    Statement {
        sql: "INSERT INTO request_log (session_id, method, path, body, requested_at) VALUES ((SELECT id FROM session WHERE name = ?), ?, ?, ?, ?)".to_owned(),
        binds,
    }
}

/// Why the insertion of a request failed: a violated not-null rule says
/// that the session was not found; any other failure is the store's own.
fn log_failure(session: &str, fault: StoreFault) -> (r: LoggerError)
    ensures
        r@ == (if fault.kind == FaultKind::NotNullViolation {
            LoggerErrorModel::InvalidSession(not_found_message(session@))
        } else {
            LoggerErrorModel::InternalError(fault.message@)
        }),
{
    if fault.kind == FaultKind::NotNullViolation {
        LoggerError::InvalidSession(join3("session \"", session, "\" is not found"))
    } else {
        LoggerError::InternalError(fault.message)
    }
}

/// The id of the inserted request, given the store's answer: a violated
/// not-null rule says that the session was not found; any other failure
/// is the store's own.
pub fn log_request_result(session: &str, outcome: Result<i64, StoreFault>) -> (r: Result<
    i64,
    LoggerError,
>)
    ensures
        id_view(r) == (match outcome {
            Ok(id) => Ok(id),
            Err(fault) => if fault.kind == FaultKind::NotNullViolation {
                Err(LoggerErrorModel::InvalidSession(not_found_message(session@)))
            } else {
                Err(LoggerErrorModel::InternalError(fault.message@))
            },
        }),
{
    match outcome {
        Ok(id) => Ok(id),
        Err(fault) => Err(log_failure(session, fault)),
    }
}

/// A failure of the store where the caller is not to blame.
pub fn internal_error(fault: StoreFault) -> (r: LoggerError)
    ensures
        r@ == LoggerErrorModel::InternalError(fault.message@),
{
    LoggerError::InternalError(fault.message)
}

/// The `?` of `n` rows of three values each: `(?, ?, ?)` for each row,
/// with `, ` between two rows.
pub open spec fn row_placeholders(n: nat) -> Seq<char>
    decreases n,
{
    if n == 0 {
        Seq::empty()
    } else if n == 1 {
        "(?, ?, ?)"@
    } else {
        row_placeholders((n - 1) as nat) + ", "@ + "(?, ?, ?)"@
    }
}

/// The values bound for the first `n` pairs of a request: for each pair
/// the request's id, the name and the value.
pub open spec fn child_binds(id: i64, pairs: Seq<(Seq<char>, Seq<char>)>, n: nat) -> Seq<SqlModel>
    decreases n,
{
    if n == 0 || n > pairs.len() {
        Seq::empty()
    } else {
        child_binds(id, pairs, (n - 1) as nat) + seq![
            SqlModel::Integer(id),
            SqlModel::Text(pairs[n - 1].0),
            SqlModel::Text(pairs[n - 1].1),
        ]
    }
}

/// The statement that inserts the pairs of `map` as rows of a request,
/// all at once and in the map's order. A map that holds nothing needs no
/// statement.
fn child_statement(head: &str, request_log_id: i64, map: &IndexMap<String, String>) -> (r: Option<
    Statement,
>)
    ensures
        match r {
            Some(statement) => entries(*map).len() > 0 && statement@ == (StatementModel {
                sql: head@ + row_placeholders(entries(*map).len()),
                binds: child_binds(request_log_id, entries(*map), entries(*map).len()),
            }),
            None => entries(*map).len() == 0,
        },
        distinct_keys(entries(*map)),
{
    let n: usize = map_len(map);
    if n == 0 {
        return None;
    }
    let mut sql: String = head.to_owned();
    let mut binds: Vec<SqlValue> = Vec::new();
    let mut i: usize = 0;
    assert(sql@ =~= head@ + row_placeholders(0));
    while i < n
        invariant
            n == entries(*map).len(),
            i <= n,
            sql@ == head@ + row_placeholders(i as nat),
            binds_view(binds@) == child_binds(request_log_id, entries(*map), i as nat),
            keys_stand_first(entries(*map), i as int),
        decreases n - i,
    {
        match map_entry(map, i) {
            Some(pair) => {
                let ghost before = binds@;
                if i > 0 {
                    sql = join2(sql.as_str(), ", ");
                }
                sql = join2(sql.as_str(), "(?, ?, ?)");
                binds.push(SqlValue::Integer(request_log_id));
                binds.push(SqlValue::Text(pair.0.clone()));
                binds.push(SqlValue::Text(pair.1.clone()));
                proof {
                    if i == 0 {
                        assert(head@ + Seq::<char>::empty() + "(?, ?, ?)"@ =~= head@
                            + row_placeholders(1));
                    } else {
                        assert(head@ + row_placeholders(i as nat) + ", "@ + "(?, ?, ?)"@ =~= head@
                            + row_placeholders((i + 1) as nat));
                    }
                    assert(binds_view(binds@) =~= binds_view(before) + seq![
                        SqlModel::Integer(request_log_id),
                        SqlModel::Text(pair.0@),
                        SqlModel::Text(pair.1@),
                    ]);
                }
            },
            None => {},
        }
        i += 1;
    }
    proof {
        lemma_first_is_distinct(entries(*map));
    }
    Some(Statement { sql, binds })
}

/// The statement that inserts a request's headers, if it has any.
pub fn header_statement(request_log_id: i64, headers: &IndexMap<String, String>) -> (r: Option<
    Statement,
>)
    ensures
        match r {
            Some(statement) => entries(*headers).len() > 0 && statement@ == header_insert(
                request_log_id,
                entries(*headers),
            ),
            None => entries(*headers).len() == 0,
        },
        distinct_keys(entries(*headers)),
{
    child_statement(
        "INSERT INTO request_header (request_log_id, name, value) VALUES ",
        request_log_id,
        headers,
    )
}

/// The statement that inserts a request's query parameters, if it has
/// any.
pub fn query_statement(request_log_id: i64, query: &IndexMap<String, String>) -> (r: Option<
    Statement,
>)
    ensures
        match r {
            Some(statement) => entries(*query).len() > 0 && statement@ == query_insert(
                request_log_id,
                entries(*query),
            ),
            None => entries(*query).len() == 0,
        },
        distinct_keys(entries(*query)),
{
    child_statement(
        "INSERT INTO request_query (request_log_id, name, value) VALUES ",
        request_log_id,
        query,
    )
}

/// The model of a [`StoreFault`].
pub struct FaultModel {
    pub kind: FaultKind,
    pub message: Seq<char>,
}

impl View for StoreFault {
    type V = FaultModel;

    open spec fn view(&self) -> FaultModel {
        FaultModel { kind: self.kind, message: self.message@ }
    }
}

/// How far the logging of one request has come: what was asked of the
/// store last.
#[derive(Clone, Copy, Debug, PartialEq, Eq, Structural)]
pub enum LogStage {
    /// To begin a transaction.
    Begin,
    /// To insert the request.
    Log,
    /// To insert the headers of the request with this id.
    Headers(i64),
    /// To insert the query parameters.
    Queries,
    /// To commit the transaction.
    Commit,
    /// Nothing: the logging has finished.
    Done,
}

/// What the recorder asks of the store next, or how the logging ended.
/// Where the logging ends before the transaction was committed, the
/// transaction is given up, and nothing of the request is stored.
#[derive(Debug, PartialEq, Eq)]
pub enum LogAction {
    Begin,
    Execute(Statement),
    Commit,
    Finish(Result<(), LoggerError>),
}

/// The model of a [`LogAction`].
pub enum ActionModel {
    Begin,
    Execute(StatementModel),
    Commit,
    Finish(Result<(), LoggerErrorModel>),
}

impl View for LogAction {
    type V = ActionModel;

    open spec fn view(&self) -> ActionModel {
        match self {
            LogAction::Begin => ActionModel::Begin,
            LogAction::Execute(statement) => ActionModel::Execute(statement@),
            LogAction::Commit => ActionModel::Commit,
            LogAction::Finish(result) => ActionModel::Finish(unit_view(*result)),
        }
    }
}

/// What the store answered: the id of the row that it inserted last, or
/// its failure.
pub open spec fn answer_view(answer: Result<i64, StoreFault>) -> Result<i64, FaultModel> {
    match answer {
        Ok(id) => Ok(id),
        Err(fault) => Err(fault@),
    }
}

/// The statement that inserts a request.
pub open spec fn log_insert(session: Seq<char>, log: RequestLogModel) -> StatementModel {
    StatementModel {
        sql: "INSERT INTO request_log (session_id, method, path, body, requested_at) VALUES ((SELECT id FROM session WHERE name = ?), ?, ?, ?, ?)"@,
        binds: seq![
            SqlModel::Text(session),
            SqlModel::Text(log.method.token()),
            SqlModel::Text(log.path),
            SqlModel::Text(log.body),
            SqlModel::Time(log.requested_at),
        ],
    }
}

/// The statement that inserts the headers of the request `id`.
pub open spec fn header_insert(id: i64, headers: Seq<(Seq<char>, Seq<char>)>) -> StatementModel {
    StatementModel {
        sql: "INSERT INTO request_header (request_log_id, name, value) VALUES "@
            + row_placeholders(headers.len()),
        binds: child_binds(id, headers, headers.len()),
    }
}

/// The statement that inserts the query parameters of the request `id`.
pub open spec fn query_insert(id: i64, query: Seq<(Seq<char>, Seq<char>)>) -> StatementModel {
    StatementModel {
        sql: "INSERT INTO request_query (request_log_id, name, value) VALUES "@
            + row_placeholders(query.len()),
        binds: child_binds(id, query, query.len()),
    }
}

/// What follows the insertion of the headers, or their absence: the
/// insertion of the query parameters, if there are any, else the commit.
pub open spec fn after_headers(id: i64, log: RequestLogModel) -> (LogStage, ActionModel) {
    if log.query.len() > 0 {
        (LogStage::Queries, ActionModel::Execute(query_insert(id, log.query)))
    } else {
        (LogStage::Commit, ActionModel::Commit)
    }
}

/// What follows the insertion of the request under the id `id`: the
/// insertion of its headers, if it has any, else what follows that.
pub open spec fn after_log(id: i64, log: RequestLogModel) -> (LogStage, ActionModel) {
    if log.headers.len() > 0 {
        (LogStage::Headers(id), ActionModel::Execute(header_insert(id, log.headers)))
    } else {
        after_headers(id, log)
    }
}

/// The next stage and what is asked of the store next, given the store's
/// answer to what was asked last. Any failure ends the logging with the
/// failure, before the commit; the commit is asked for after the request,
/// its headers and its query parameters were inserted.
pub open spec fn log_step(
    session: Seq<char>,
    log: RequestLogModel,
    stage: LogStage,
    answer: Result<i64, FaultModel>,
) -> (LogStage, ActionModel) {
    match answer {
        Err(fault) => (
            LogStage::Done,
            ActionModel::Finish(
                Err(
                    if stage == LogStage::Log && fault.kind == FaultKind::NotNullViolation {
                        LoggerErrorModel::InvalidSession(not_found_message(session))
                    } else {
                        LoggerErrorModel::InternalError(fault.message)
                    },
                ),
            ),
        ),
        Ok(id) => match stage {
            LogStage::Begin => (LogStage::Log, ActionModel::Execute(log_insert(session, log))),
            LogStage::Log => after_log(id, log),
            LogStage::Headers(request) => after_headers(request, log),
            LogStage::Queries => (LogStage::Commit, ActionModel::Commit),
            LogStage::Commit => (LogStage::Done, ActionModel::Finish(Ok(()))),
            LogStage::Done => (LogStage::Done, ActionModel::Finish(Ok(()))),
        },
    }
}

/// The logging of a request starts by asking for a transaction.
pub fn log_request_start() -> (r: (LogStage, LogAction))
    ensures
        r.0 == LogStage::Begin,
        r.1@ == ActionModel::Begin,
{
    (LogStage::Begin, LogAction::Begin)
}

/// What follows the headers.
fn next_after_headers(id: i64, log: &RequestLog) -> (r: (LogStage, LogAction))
    ensures
        r.0 == after_headers(id, log@).0,
        r.1@ == after_headers(id, log@).1,
{
    match query_statement(id, &log.query) {
        Some(statement) => (LogStage::Queries, LogAction::Execute(statement)),
        None => (LogStage::Commit, LogAction::Commit),
    }
}

/// Decides what is asked of the store next while a request is logged,
/// given the stage and the store's answer to what was asked last.
pub fn log_request_step(
    session: &str,
    log: &RequestLog,
    stage: LogStage,
    answer: Result<i64, StoreFault>,
) -> (r: (LogStage, LogAction))
    ensures
        r.0 == log_step(session@, log@, stage, answer_view(answer)).0,
        r.1@ == log_step(session@, log@, stage, answer_view(answer)).1,
{
    match answer {
        Err(fault) => {
            let error = match stage {
                LogStage::Log => log_failure(session, fault),
                _ => internal_error(fault),
            };
            (LogStage::Done, LogAction::Finish(Err(error)))
        },
        Ok(id) => match stage {
            LogStage::Begin => (
                LogStage::Log,
                LogAction::Execute(log_request_statement(session, log)),
            ),
            LogStage::Log => match header_statement(id, &log.headers) {
                Some(statement) => (LogStage::Headers(id), LogAction::Execute(statement)),
                None => next_after_headers(id, log),
            },
            LogStage::Headers(request) => next_after_headers(request, log),
            LogStage::Queries => (LogStage::Commit, LogAction::Commit),
            LogStage::Commit => (LogStage::Done, LogAction::Finish(Ok(()))),
            LogStage::Done => (LogStage::Done, LogAction::Finish(Ok(()))),
        },
    }
}

/// The stage that is reached, from `stage`, after the first `n` of
/// `answers`.
pub open spec fn stage_after(
    session: Seq<char>,
    log: RequestLogModel,
    stage: LogStage,
    answers: Seq<Result<i64, FaultModel>>,
    n: nat,
) -> LogStage
    decreases n,
{
    if n == 0 || n > answers.len() {
        stage
    } else {
        log_step(session, log, stage_after(session, log, stage, answers, (n - 1) as nat), answers[n - 1]).0
    }
}

/// What is asked of the store after the first `n` of `answers`, `n` at
/// least 1.
pub open spec fn action_after(
    session: Seq<char>,
    log: RequestLogModel,
    answers: Seq<Result<i64, FaultModel>>,
    n: nat,
) -> ActionModel {
    log_step(
        session,
        log,
        stage_after(session, log, LogStage::Begin, answers, (n - 1) as nat),
        answers[n - 1],
    ).1
}

/// Whether the commit is what is asked for at `stage`, or was asked for
/// before.
pub open spec fn at_or_past_commit(stage: LogStage) -> bool {
    stage == LogStage::Commit || stage == LogStage::Done
}

/// A failure of the store ends the logging at once: what follows it is
/// the end with an error, not a statement and not the commit.
pub proof fn lemma_failure_ends_logging(
    session: Seq<char>,
    log: RequestLogModel,
    stage: LogStage,
    fault: FaultModel,
)
    ensures
        log_step(session, log, stage, Err(fault)).0 == LogStage::Done,
        log_step(session, log, stage, Err(fault)).1 is Finish,
        log_step(session, log, stage, Err(fault)).1->Finish_0 is Err,
{
}

/// The commit is asked for only after every answer before it was a
/// success: where the store failed once, the commit is never asked for.
pub proof fn lemma_no_commit_after_failure(
    session: Seq<char>,
    log: RequestLogModel,
    answers: Seq<Result<i64, FaultModel>>,
    n: nat,
    failed: int,
)
    requires
        0 <= failed < n <= answers.len(),
        answers[failed] is Err,
    ensures
        stage_after(session, log, LogStage::Begin, answers, n) == LogStage::Done,
        !(action_after(session, log, answers, n) is Commit),
        !(action_after(session, log, answers, n) is Execute),
    decreases n,
{
    if failed < n - 1 {
        lemma_no_commit_after_failure(session, log, answers, (n - 1) as nat, failed);
    }
}

/// Where the store never fails, the recorder asks, in this order, for
/// the insertion of the request, of its headers if it has any, of its
/// query parameters if it has any, and then for the commit; after the
/// commit the logging ends with success.
pub proof fn lemma_logging_plan(
    session: Seq<char>,
    log: RequestLogModel,
    begun: i64,
    id: i64,
    third: i64,
    fourth: i64,
    fifth: i64,
)
    ensures
        ({
            let answers = seq![
                Ok::<i64, FaultModel>(begun),
                Ok::<i64, FaultModel>(id),
                Ok::<i64, FaultModel>(third),
                Ok::<i64, FaultModel>(fourth),
                Ok::<i64, FaultModel>(fifth),
            ];
            let h = log.headers.len() > 0;
            let q = log.query.len() > 0;
            &&& action_after(session, log, answers, 1) == ActionModel::Execute(
                log_insert(session, log),
            )
            &&& h && q ==> {
                &&& action_after(session, log, answers, 2) == ActionModel::Execute(
                    header_insert(id, log.headers),
                )
                &&& action_after(session, log, answers, 3) == ActionModel::Execute(
                    query_insert(id, log.query),
                )
                &&& action_after(session, log, answers, 4) == ActionModel::Commit
                &&& action_after(session, log, answers, 5) == ActionModel::Finish(Ok(()))
            }
            &&& h && !q ==> {
                &&& action_after(session, log, answers, 2) == ActionModel::Execute(
                    header_insert(id, log.headers),
                )
                &&& action_after(session, log, answers, 3) == ActionModel::Commit
                &&& action_after(session, log, answers, 4) == ActionModel::Finish(Ok(()))
            }
            &&& !h && q ==> {
                &&& action_after(session, log, answers, 2) == ActionModel::Execute(
                    query_insert(id, log.query),
                )
                &&& action_after(session, log, answers, 3) == ActionModel::Commit
                &&& action_after(session, log, answers, 4) == ActionModel::Finish(Ok(()))
            }
            &&& !h && !q ==> {
                &&& action_after(session, log, answers, 2) == ActionModel::Commit
                &&& action_after(session, log, answers, 3) == ActionModel::Finish(Ok(()))
            }
        }),
{
    reveal_with_fuel(stage_after, 6);
}

/// The statement that asks for the id of the session of this name.
pub fn session_id_statement(session: &str) -> (r: Statement)
    ensures
        r@ == (StatementModel {
            sql: "SELECT id FROM session WHERE name = ?"@,
            binds: seq![SqlModel::Text(session@)],
        }),
{
    statement_with_text("SELECT id FROM session WHERE name = ?", session)
}

/// The session's id, given the store's answer: with no row, the session
/// was not found.
pub fn session_id_result(session: &str, outcome: Result<Option<i64>, StoreFault>) -> (r: Result<
    i64,
    LoggerError,
>)
    ensures
        id_view(r) == (match outcome {
            Ok(Some(id)) => Ok(id),
            Ok(None) => Err(LoggerErrorModel::InvalidSession(not_found_message(session@))),
            Err(fault) => Err(LoggerErrorModel::InternalError(fault.message@)),
        }),
{
    match outcome {
        Ok(Some(id)) => Ok(id),
        Ok(None) => Err(
            LoggerError::InvalidSession(join3("session \"", session, "\" is not found")),
        ),
        Err(fault) => Err(LoggerError::InternalError(fault.message)),
    }
}

/// The statement that asks for a session's requests, oldest first.
pub fn logs_statement(session_id: i64) -> (r: Statement)
    ensures
        r@ == (StatementModel {
            sql: "SELECT id, method, path, body, requested_at FROM request_log WHERE session_id = ? ORDER BY id"@,
            binds: seq![SqlModel::Integer(session_id)],
        }),
{
    statement_with_id(
        "SELECT id, method, path, body, requested_at FROM request_log WHERE session_id = ? ORDER BY id",
        session_id,
    )
}

/// The statement that asks for the headers of a session's requests, in
/// the order in which they were stored.
pub fn headers_statement(session_id: i64) -> (r: Statement)
    ensures
        r@ == (StatementModel {
            sql: "SELECT request_log_id, name, value FROM request_header LEFT JOIN request_log ON request_log.id = request_header.request_log_id WHERE request_log.session_id = ? ORDER BY request_header.id"@,
            binds: seq![SqlModel::Integer(session_id)],
        }),
{
    statement_with_id(
        "SELECT request_log_id, name, value FROM request_header LEFT JOIN request_log ON request_log.id = request_header.request_log_id WHERE request_log.session_id = ? ORDER BY request_header.id",
        session_id,
    )
}

/// The statement that asks for the query parameters of a session's
/// requests, in the order in which they were stored.
pub fn queries_statement(session_id: i64) -> (r: Statement)
    ensures
        r@ == (StatementModel {
            sql: "SELECT request_log_id, name, value FROM request_query LEFT JOIN request_log ON request_log.id = request_query.request_log_id WHERE request_log.session_id = ? ORDER BY request_query.id"@,
            binds: seq![SqlModel::Integer(session_id)],
        }),
{
    statement_with_id(
        "SELECT request_log_id, name, value FROM request_query LEFT JOIN request_log ON request_log.id = request_query.request_log_id WHERE request_log.session_id = ? ORDER BY request_query.id",
        session_id,
    )
}

/// A row of the table of requests.
#[derive(Clone, Debug, PartialEq, Eq)]
pub struct RequestLogRow {
    pub id: i64,
    pub method: String,
    pub path: String,
    pub body: String,
    pub requested_at: Timestamp,
}

/// The model of a [`RequestLogRow`].
pub struct LogRowModel {
    pub id: i64,
    pub method: Seq<char>,
    pub path: Seq<char>,
    pub body: Seq<char>,
    pub requested_at: Timestamp,
}

impl View for RequestLogRow {
    type V = LogRowModel;

    open spec fn view(&self) -> LogRowModel {
        LogRowModel {
            id: self.id,
            method: self.method@,
            path: self.path@,
            body: self.body@,
            requested_at: self.requested_at,
        }
    }
}

/// A row of the table of headers, or of the table of query parameters:
/// the request it belongs to, a name and a value.
#[derive(Clone, Debug, PartialEq, Eq)]
pub struct ChildRow {
    pub request_log_id: i64,
    pub name: String,
    pub value: String,
}

/// The model of a [`ChildRow`].
pub struct ChildRowModel {
    pub request_log_id: i64,
    pub name: Seq<char>,
    pub value: Seq<char>,
}

impl View for ChildRow {
    type V = ChildRowModel;

    open spec fn view(&self) -> ChildRowModel {
        ChildRowModel { request_log_id: self.request_log_id, name: self.name@, value: self.value@ }
    }
}

/// The models of a list of request rows, in order.
pub open spec fn log_rows_view(rows: Seq<RequestLogRow>) -> Seq<LogRowModel> {
    Seq::new(rows.len(), |i: int| rows[i]@)
}

/// The models of a list of child rows, in order.
pub open spec fn child_rows_view(rows: Seq<ChildRow>) -> Seq<ChildRowModel> {
    Seq::new(rows.len(), |i: int| rows[i]@)
}

/// The models of a list of requests, in order.
pub open spec fn logs_view(logs: Seq<RequestLog>) -> Seq<RequestLogModel> {
    Seq::new(logs.len(), |i: int| logs[i]@)
}

/// `base` after those of the first `n` rows that belong to the request
/// `id` were put into it, in the order of the rows.
pub open spec fn grouped_onto(
    base: Seq<(Seq<char>, Seq<char>)>,
    rows: Seq<ChildRowModel>,
    id: i64,
    n: nat,
) -> Seq<(Seq<char>, Seq<char>)>
    decreases n,
{
    if n == 0 || n > rows.len() {
        base
    } else {
        let before = grouped_onto(base, rows, id, (n - 1) as nat);
        if rows[n - 1].request_log_id == id {
            inserted(before, rows[n - 1].name, rows[n - 1].value)
        } else {
            before
        }
    }
}

/// The names and values of the rows that belong to the request `id`, in
/// the order of the rows.
pub open spec fn grouped(rows: Seq<ChildRowModel>, id: i64) -> Seq<(Seq<char>, Seq<char>)> {
    grouped_onto(Seq::empty(), rows, id, rows.len())
}

/// The request that a row stands for, with the headers and the query
/// parameters that belong to it. A method that is none of the five is the
/// store's fault.
pub open spec fn log_of(
    row: LogRowModel,
    headers: Seq<ChildRowModel>,
    queries: Seq<ChildRowModel>,
) -> Result<RequestLogModel, LoggerErrorModel> {
    match method_of_token(row.method) {
        Some(method) => Ok(
            RequestLogModel {
                method,
                headers: grouped(headers, row.id),
                path: row.path,
                query: grouped(queries, row.id),
                body: row.body,
                requested_at: row.requested_at,
            },
        ),
        None => Err(LoggerErrorModel::InternalError("unknown method: "@ + row.method)),
    }
}

/// The requests that the first `n` rows stand for, in the order of the
/// rows, or the fault of the first row that has one.
pub open spec fn history(
    logs: Seq<LogRowModel>,
    headers: Seq<ChildRowModel>,
    queries: Seq<ChildRowModel>,
    n: nat,
) -> Result<Seq<RequestLogModel>, LoggerErrorModel>
    decreases n,
{
    if n == 0 || n > logs.len() {
        Ok(Seq::empty())
    } else {
        match history(logs, headers, queries, (n - 1) as nat) {
            Err(e) => Err(e),
            Ok(earlier) => match log_of(logs[n - 1], headers, queries) {
                Ok(log) => Ok(earlier.push(log)),
                Err(e) => Err(e),
            },
        }
    }
}

/// What a result of [`assemble_history`] holds.
pub open spec fn history_view(r: Result<Vec<RequestLog>, LoggerError>) -> Result<
    Seq<RequestLogModel>,
    LoggerErrorModel,
> {
    match r {
        Ok(logs) => Ok(logs_view(logs@)),
        Err(e) => Err(e@),
    }
}

proof fn lemma_history_fault_stays(
    logs: Seq<LogRowModel>,
    headers: Seq<ChildRowModel>,
    queries: Seq<ChildRowModel>,
    n: nat,
    m: nat,
)
    requires
        n <= m <= logs.len(),
        history(logs, headers, queries, n) is Err,
    ensures
        history(logs, headers, queries, m) == history(logs, headers, queries, n),
    decreases m,
{
    if n < m {
        lemma_history_fault_stays(logs, headers, queries, n, (m - 1) as nat);
    }
}

/// The groups that a map from request ids to rows holds, in the map's
/// order: each id with its rows.
pub uninterp spec fn groups(m: IndexMap<i64, Vec<ChildRow>>) -> Seq<(i64, Seq<ChildRowModel>)>;

/// The position of the first of `gs[from..]` that is the group of `id`.
pub open spec fn group_position(gs: Seq<(i64, Seq<ChildRowModel>)>, id: i64, from: int) -> Option<int>
    decreases gs.len() - from,
{
    if from < 0 || from >= gs.len() {
        None
    } else if gs[from].0 == id {
        Some(from)
    } else {
        group_position(gs, id, from + 1)
    }
}

/// The rows of the group of `id`; none where there is no such group.
pub open spec fn rows_of(gs: Seq<(i64, Seq<ChildRowModel>)>, id: i64) -> Seq<ChildRowModel> {
    match group_position(gs, id, 0) {
        Some(i) => gs[i].1,
        None => Seq::empty(),
    }
}

/// `gs` after `row` went to the group of its request: to the end of the
/// group that is there, or into a new group at the end.
pub open spec fn with_row(gs: Seq<(i64, Seq<ChildRowModel>)>, row: ChildRowModel) -> Seq<
    (i64, Seq<ChildRowModel>),
> {
    match group_position(gs, row.request_log_id, 0) {
        Some(i) => gs.update(i, (gs[i].0, gs[i].1.push(row))),
        None => gs.push((row.request_log_id, seq![row])),
    }
}

/// The groups of the first `n` rows, each row put in as [`with_row`]
/// does.
pub open spec fn grouping(rows: Seq<ChildRowModel>, n: nat) -> Seq<(i64, Seq<ChildRowModel>)>
    decreases n,
{
    if n == 0 || n > rows.len() {
        Seq::empty()
    } else {
        with_row(grouping(rows, (n - 1) as nat), rows[n - 1])
    }
}

/// Those of the first `n` rows that belong to the request `id`, in the
/// order of the rows.
pub open spec fn filtered(rows: Seq<ChildRowModel>, id: i64, n: nat) -> Seq<ChildRowModel>
    decreases n,
{
    if n == 0 || n > rows.len() {
        Seq::empty()
    } else if rows[n - 1].request_log_id == id {
        filtered(rows, id, (n - 1) as nat).push(rows[n - 1])
    } else {
        filtered(rows, id, (n - 1) as nat)
    }
}

/// The names and values of the first `n` rows, put into an empty map one
/// after another.
pub open spec fn all_pairs(rows: Seq<ChildRowModel>, n: nat) -> Seq<(Seq<char>, Seq<char>)>
    decreases n,
{
    if n == 0 || n > rows.len() {
        Seq::empty()
    } else {
        inserted(all_pairs(rows, (n - 1) as nat), rows[n - 1].name, rows[n - 1].value)
    }
}

/// `IndexMap::new`, for a map from request ids to rows: a map that holds
/// nothing.
#[verifier::external_body]
pub(crate) fn new_groups() -> (m: IndexMap<i64, Vec<ChildRow>>)
    ensures
        groups(m) == Seq::<(i64, Seq<ChildRowModel>)>::empty(),
{
    IndexMap::new()
}

/// `IndexMap::entry` and `Entry::or_default`: the rows stored for the
/// row's request, or new, empty rows for it at the end of the map's
/// order; the row is pushed to the end of them.
#[verifier::external_body]
pub(crate) fn push_row(m: &mut IndexMap<i64, Vec<ChildRow>>, row: ChildRow)
    ensures
        groups(*final(m)) == with_row(groups(*old(m)), row@),
{
    m.entry(row.request_log_id).or_default().push(row);
}

/// `IndexMap::get`, for a map from request ids to rows: the rows stored
/// for `id`, if the map holds the id.
#[verifier::external_body]
pub(crate) fn group_of<'a>(m: &'a IndexMap<i64, Vec<ChildRow>>, id: i64) -> (r: Option<
    &'a Vec<ChildRow>,
>)
    ensures
        match r {
            Some(rows) => group_position(groups(*m), id, 0) is Some && child_rows_view(rows@)
                == rows_of(groups(*m), id),
            None => group_position(groups(*m), id, 0) is None,
        },
{
    m.get(&id)
}

proof fn lemma_group_position_found(gs: Seq<(i64, Seq<ChildRowModel>)>, id: i64, from: int)
    requires
        0 <= from,
        group_position(gs, id, from) is Some,
    ensures
        from <= group_position(gs, id, from)->Some_0 < gs.len(),
        gs[group_position(gs, id, from)->Some_0].0 == id,
    decreases gs.len() - from,
{
    if gs[from].0 != id {
        lemma_group_position_found(gs, id, from + 1);
    }
}

proof fn lemma_group_position_same_ids(
    a: Seq<(i64, Seq<ChildRowModel>)>,
    b: Seq<(i64, Seq<ChildRowModel>)>,
    id: i64,
    from: int,
)
    requires
        0 <= from,
        a.len() == b.len(),
        forall|k: int| 0 <= k < a.len() ==> (#[trigger] a[k]).0 == b[k].0,
    ensures
        group_position(a, id, from) == group_position(b, id, from),
    decreases a.len() - from,
{
    if from < a.len() {
        assert(a[from].0 == b[from].0);
        lemma_group_position_same_ids(a, b, id, from + 1);
    }
}

proof fn lemma_group_position_push(
    gs: Seq<(i64, Seq<ChildRowModel>)>,
    group: (i64, Seq<ChildRowModel>),
    id: i64,
    from: int,
)
    requires
        0 <= from <= gs.len(),
    ensures
        group_position(gs.push(group), id, from) == (match group_position(gs, id, from) {
            Some(i) => Some(i),
            None => if group.0 == id {
                Some(gs.len() as int)
            } else {
                None
            },
        }),
    decreases gs.len() - from,
{
    let longer = gs.push(group);
    if from < gs.len() {
        assert(longer[from] == gs[from]);
        lemma_group_position_push(gs, group, id, from + 1);
    } else {
        assert(longer[from] == group);
        assert(longer.len() == from + 1);
        assert(group_position(longer, id, from + 1) is None);
        assert(group_position(gs, id, from) is None);
    }
}

proof fn lemma_rows_of_with_row(gs: Seq<(i64, Seq<ChildRowModel>)>, row: ChildRowModel, id: i64)
    ensures
        rows_of(with_row(gs, row), id) == (if row.request_log_id == id {
            rows_of(gs, id).push(row)
        } else {
            rows_of(gs, id)
        }),
{
    let after = with_row(gs, row);
    match group_position(gs, row.request_log_id, 0) {
        Some(at) => {
            lemma_group_position_found(gs, row.request_log_id, 0);
            lemma_group_position_same_ids(gs, after, id, 0);
            if group_position(gs, id, 0) is Some {
                lemma_group_position_found(gs, id, 0);
            }
        },
        None => {
            lemma_group_position_push(gs, (row.request_log_id, seq![row]), id, 0);
            if group_position(gs, id, 0) is Some {
                lemma_group_position_found(gs, id, 0);
            }
            if row.request_log_id == id {
                assert(Seq::<ChildRowModel>::empty().push(row) =~= seq![row]);
            }
        },
    }
}

proof fn lemma_grouping_filters(rows: Seq<ChildRowModel>, id: i64, n: nat)
    requires
        n <= rows.len(),
    ensures
        rows_of(grouping(rows, n), id) == filtered(rows, id, n),
    decreases n,
{
    if n > 0 {
        lemma_grouping_filters(rows, id, (n - 1) as nat);
        lemma_rows_of_with_row(grouping(rows, (n - 1) as nat), rows[n - 1], id);
    }
}

proof fn lemma_all_pairs_reads_prefix(a: Seq<ChildRowModel>, b: Seq<ChildRowModel>, n: nat)
    requires
        n <= a.len(),
        n <= b.len(),
        forall|k: int| 0 <= k < n ==> a[k] == b[k],
    ensures
        all_pairs(a, n) == all_pairs(b, n),
    decreases n,
{
    if n > 0 {
        lemma_all_pairs_reads_prefix(a, b, (n - 1) as nat);
    }
}

proof fn lemma_filtered_pairs(rows: Seq<ChildRowModel>, id: i64, n: nat)
    requires
        n <= rows.len(),
    ensures
        all_pairs(filtered(rows, id, n), filtered(rows, id, n).len()) == grouped_onto(
            Seq::empty(),
            rows,
            id,
            n,
        ),
    decreases n,
{
    if n > 0 {
        lemma_filtered_pairs(rows, id, (n - 1) as nat);
        if rows[n - 1].request_log_id == id {
            let before = filtered(rows, id, (n - 1) as nat);
            lemma_all_pairs_reads_prefix(before.push(rows[n - 1]), before, before.len());
        }
    }
}

/// The rows of a request, found in the groups of all rows, are the rows
/// that name the request; put into a map in their order they give what
/// [`grouped`] says.
proof fn lemma_group_is_grouped(rows: Seq<ChildRowModel>, id: i64)
    ensures
        all_pairs(rows_of(grouping(rows, rows.len()), id), rows_of(grouping(rows, rows.len()), id).len())
            == grouped(rows, id),
{
    lemma_grouping_filters(rows, id, rows.len());
    lemma_filtered_pairs(rows, id, rows.len());
}

/// Groups rows by the request that they belong to. The groups come in
/// the order in which their first rows come, each with its rows in the
/// order of the rows.
pub fn group_by_request(rows: &Vec<ChildRow>) -> (r: IndexMap<i64, Vec<ChildRow>>)
    ensures
        groups(r) == grouping(child_rows_view(rows@), rows.len() as nat),
{
    let ghost rv = child_rows_view(rows@);
    let mut map = new_groups();
    let mut i: usize = 0;
    while i < rows.len()
        invariant
            i <= rows.len(),
            rv == child_rows_view(rows@),
            groups(map) == grouping(rv, i as nat),
        decreases rows.len() - i,
    {
        let row = ChildRow {
            request_log_id: rows[i].request_log_id,
            name: rows[i].name.clone(),
            value: rows[i].value.clone(),
        };
        assert(row@ == rv[i as int]);
        push_row(&mut map, row);
        i += 1;
    }
    map
}

/// The names and values of the rows of one request, taken from the
/// groups, as a map filled in the order of the rows.
pub fn pairs_of_group(groups_by_id: &IndexMap<i64, Vec<ChildRow>>, id: i64) -> (r: IndexMap<
    String,
    String,
>)
    ensures
        entries(r) == all_pairs(
            rows_of(groups(*groups_by_id), id),
            rows_of(groups(*groups_by_id), id).len(),
        ),
        distinct_keys(entries(r)),
{
    let mut map = new_map();
    match group_of(groups_by_id, id) {
        None => {},
        Some(rows) => {
            let ghost rv = child_rows_view(rows@);
            let mut i: usize = 0;
            while i < rows.len()
                invariant
                    i <= rows.len(),
                    rv == child_rows_view(rows@),
                    entries(map) == all_pairs(rv, i as nat),
                    distinct_keys(entries(map)),
                decreases rows.len() - i,
            {
                proof {
                    lemma_inserted_distinct(
                        entries(map),
                        rows[i as int].name@,
                        rows[i as int].value@,
                    );
                }
                map_insert(&mut map, rows[i].name.clone(), rows[i].value.clone());
                i += 1;
            }
        },
    }
    map
}

/// The names and values of the rows that belong to the request `id`, as
/// a map filled in the order of the rows.
pub fn group_rows(rows: &Vec<ChildRow>, id: i64) -> (r: IndexMap<String, String>)
    ensures
        entries(r) == grouped(child_rows_view(rows@), id),
        distinct_keys(entries(r)),
{
    let by_request = group_by_request(rows);
    proof {
        lemma_group_is_grouped(child_rows_view(rows@), id);
    }
    pairs_of_group(&by_request, id)
}

/// Puts a session's history together from the rows of the three tables:
/// each request row becomes a request, with the header rows and the query
/// rows that name its id, each group in the order of its rows. The
/// requests come in the order of their rows.
pub fn assemble_history(logs: &Vec<RequestLogRow>, headers: &Vec<ChildRow>, queries: &Vec<ChildRow>) -> (r:
    Result<Vec<RequestLog>, LoggerError>)
    ensures
        history_view(r) == history(
            log_rows_view(logs@),
            child_rows_view(headers@),
            child_rows_view(queries@),
            logs.len() as nat,
        ),
        r matches Ok(history) ==> all_well_keyed(logs_view(history@)),
{
    let ghost lv = log_rows_view(logs@);
    let ghost hv = child_rows_view(headers@);
    let ghost qv = child_rows_view(queries@);
    let header_groups = group_by_request(headers);
    let query_groups = group_by_request(queries);
    let mut out: Vec<RequestLog> = Vec::new();
    let mut i: usize = 0;
    assert(logs_view(out@) =~= Seq::<RequestLogModel>::empty());
    while i < logs.len()
        invariant
            i <= logs.len(),
            lv == log_rows_view(logs@),
            hv == child_rows_view(headers@),
            qv == child_rows_view(queries@),
            groups(header_groups) == grouping(hv, hv.len()),
            groups(query_groups) == grouping(qv, qv.len()),
            history(lv, hv, qv, i as nat) == Ok::<Seq<RequestLogModel>, LoggerErrorModel>(
                logs_view(out@),
            ),
            all_well_keyed(logs_view(out@)),
        decreases logs.len() - i,
    {
        let row = &logs[i];
        assert(lv[i as int] == row@);
        let method = match Method::try_from(row.method.as_str()) {
            Ok(method) => method,
            Err(message) => {
                proof {
                    lemma_history_fault_stays(lv, hv, qv, (i + 1) as nat, lv.len());
                }
                return Err(LoggerError::InternalError(message));
            },
        };
        let ghost earlier = out@;
        proof {
            lemma_group_is_grouped(hv, row.id);
            lemma_group_is_grouped(qv, row.id);
        }
        let log = RequestLog {
            method,
            headers: pairs_of_group(&header_groups, row.id),
            path: row.path.clone(),
            query: pairs_of_group(&query_groups, row.id),
            body: row.body.clone(),
            requested_at: row.requested_at,
        };
        let ghost model = log@;
        out.push(log);
        assert(logs_view(out@) =~= logs_view(earlier).push(model));
        assert(well_keyed(model));
        assert forall|k: int| 0 <= k < logs_view(out@).len() implies well_keyed(
            #[trigger] logs_view(out@)[k],
        ) by {
            if k < earlier.len() {
                assert(logs_view(out@)[k] == logs_view(earlier)[k]);
            }
        }
        i += 1;
    }
    Ok(out)
}

/// The rows that the store holds for the pairs of the request `id`.
pub open spec fn child_rows(id: i64, pairs: Seq<(Seq<char>, Seq<char>)>) -> Seq<ChildRowModel> {
    Seq::new(
        pairs.len(),
        |k: int| ChildRowModel { request_log_id: id, name: pairs[k].0, value: pairs[k].1 },
    )
}

/// The child rows of the first `n` requests, request after request.
pub open spec fn stored_children(ids: Seq<i64>, maps: Seq<Seq<(Seq<char>, Seq<char>)>>, n: nat) -> Seq<
    ChildRowModel,
>
    decreases n,
{
    if n == 0 || n > ids.len() || n > maps.len() {
        Seq::empty()
    } else {
        stored_children(ids, maps, (n - 1) as nat) + child_rows(ids[n - 1], maps[n - 1])
    }
}

/// The values of the first `n` rows, row after row: the request's id, the
/// name and the value of each.
pub open spec fn row_binds(rows: Seq<ChildRowModel>, n: nat) -> Seq<SqlModel>
    decreases n,
{
    if n == 0 || n > rows.len() {
        Seq::empty()
    } else {
        row_binds(rows, (n - 1) as nat) + seq![
            SqlModel::Integer(rows[n - 1].request_log_id),
            SqlModel::Text(rows[n - 1].name),
            SqlModel::Text(rows[n - 1].value),
        ]
    }
}

/// The values that the statement for a request's pairs binds are the
/// values of the rows that the store then holds for them.
pub proof fn lemma_child_binds_are_rows(id: i64, pairs: Seq<(Seq<char>, Seq<char>)>, n: nat)
    requires
        n <= pairs.len(),
    ensures
        child_binds(id, pairs, n) == row_binds(child_rows(id, pairs), n),
    decreases n,
{
    if n > 0 {
        lemma_child_binds_are_rows(id, pairs, (n - 1) as nat);
    }
}

/// The values that the statement for a request binds behind the session's
/// name are the values of the row that the store then holds for it.
pub proof fn lemma_log_binds_are_row(
    session: Seq<char>,
    ids: Seq<i64>,
    logs: Seq<RequestLogModel>,
    k: int,
)
    requires
        0 <= k < logs.len(),
    ensures
        log_insert(session, logs[k]).binds == seq![
            SqlModel::Text(session),
            SqlModel::Text(stored_logs(ids, logs)[k].method),
            SqlModel::Text(stored_logs(ids, logs)[k].path),
            SqlModel::Text(stored_logs(ids, logs)[k].body),
            SqlModel::Time(stored_logs(ids, logs)[k].requested_at),
        ],
{
}

/// The request rows that the store holds for `logs`, stored under `ids`.
pub open spec fn stored_logs(ids: Seq<i64>, logs: Seq<RequestLogModel>) -> Seq<LogRowModel> {
    Seq::new(
        logs.len(),
        |k: int|
            LogRowModel {
                id: ids[k],
                method: logs[k].method.token(),
                path: logs[k].path,
                body: logs[k].body,
                requested_at: logs[k].requested_at,
            },
    )
}

/// The headers of each of `logs`.
pub open spec fn headers_of(logs: Seq<RequestLogModel>) -> Seq<Seq<(Seq<char>, Seq<char>)>> {
    Seq::new(logs.len(), |k: int| logs[k].headers)
}

/// The query parameters of each of `logs`.
pub open spec fn queries_of(logs: Seq<RequestLogModel>) -> Seq<Seq<(Seq<char>, Seq<char>)>> {
    Seq::new(logs.len(), |k: int| logs[k].query)
}

/// No id stands twice.
pub open spec fn distinct_ids(ids: Seq<i64>) -> bool {
    forall|i: int, j: int| 0 <= i < j < ids.len() ==> ids[i] != ids[j]
}

proof fn lemma_grouped_reads_prefix(
    base: Seq<(Seq<char>, Seq<char>)>,
    a: Seq<ChildRowModel>,
    b: Seq<ChildRowModel>,
    id: i64,
    n: nat,
)
    requires
        n <= a.len(),
        n <= b.len(),
        forall|k: int| 0 <= k < n ==> a[k] == b[k],
    ensures
        grouped_onto(base, a, id, n) == grouped_onto(base, b, id, n),
    decreases n,
{
    if n > 0 {
        lemma_grouped_reads_prefix(base, a, b, id, (n - 1) as nat);
    }
}

proof fn lemma_grouped_concat(
    base: Seq<(Seq<char>, Seq<char>)>,
    a: Seq<ChildRowModel>,
    b: Seq<ChildRowModel>,
    id: i64,
    m: nat,
)
    requires
        m <= b.len(),
    ensures
        grouped_onto(base, a + b, id, a.len() + m) == grouped_onto(
            grouped_onto(base, a, id, a.len()),
            b,
            id,
            m,
        ),
    decreases m,
{
    if m == 0 {
        lemma_grouped_reads_prefix(base, a + b, a, id, a.len());
    } else {
        lemma_grouped_concat(base, a, b, id, (m - 1) as nat);
        assert((a + b)[a.len() + m - 1] == b[m - 1]);
    }
}

proof fn lemma_grouped_other(
    base: Seq<(Seq<char>, Seq<char>)>,
    other: i64,
    pairs: Seq<(Seq<char>, Seq<char>)>,
    id: i64,
    m: nat,
)
    requires
        other != id,
        m <= pairs.len(),
    ensures
        grouped_onto(base, child_rows(other, pairs), id, m) == base,
    decreases m,
{
    if m > 0 {
        lemma_grouped_other(base, other, pairs, id, (m - 1) as nat);
    }
}

proof fn lemma_grouped_same(id: i64, pairs: Seq<(Seq<char>, Seq<char>)>, m: nat)
    requires
        distinct_keys(pairs),
        m <= pairs.len(),
    ensures
        grouped_onto(Seq::empty(), child_rows(id, pairs), id, m) == pairs.subrange(0, m as int),
    decreases m,
{
    if m == 0 {
        assert(pairs.subrange(0, 0) =~= Seq::<(Seq<char>, Seq<char>)>::empty());
    } else {
        lemma_grouped_same(id, pairs, (m - 1) as nat);
        let before = pairs.subrange(0, m - 1);
        let key = pairs[m - 1].0;
        lemma_position_none(before, key, 0);
        assert forall|i: int| 0 <= i < before.len() implies (#[trigger] before[i]).0 != key by {
            assert(before[i] == pairs[i]);
        }
        assert(before.push(pairs[m - 1]) =~= pairs.subrange(0, m as int));
    }
}

proof fn lemma_grouped_absent(
    ids: Seq<i64>,
    maps: Seq<Seq<(Seq<char>, Seq<char>)>>,
    n: nat,
    id: i64,
)
    requires
        n <= ids.len(),
        ids.len() == maps.len(),
        forall|k: int| 0 <= k < n ==> ids[k] != id,
    ensures
        grouped(stored_children(ids, maps, n), id) == Seq::<(Seq<char>, Seq<char>)>::empty(),
    decreases n,
{
    if n > 0 {
        let a = stored_children(ids, maps, (n - 1) as nat);
        let b = child_rows(ids[n - 1], maps[n - 1]);
        lemma_grouped_absent(ids, maps, (n - 1) as nat, id);
        lemma_grouped_concat(Seq::empty(), a, b, id, b.len());
        lemma_grouped_other(Seq::empty(), ids[n - 1], maps[n - 1], id, b.len());
    }
}

#[verifier::spinoff_prover]
proof fn lemma_grouped_present(
    ids: Seq<i64>,
    maps: Seq<Seq<(Seq<char>, Seq<char>)>>,
    n: nat,
    j: int,
)
    requires
        0 <= j < n <= ids.len(),
        ids.len() == maps.len(),
        distinct_ids(ids),
        distinct_keys(maps[j]),
    ensures
        grouped(stored_children(ids, maps, n), ids[j]) == maps[j],
    decreases n,
{
    let id = ids[j];
    let a = stored_children(ids, maps, (n - 1) as nat);
    let b = child_rows(ids[n - 1], maps[n - 1]);
    lemma_grouped_concat(Seq::empty(), a, b, id, b.len());
    if j == n - 1 {
        lemma_grouped_absent(ids, maps, (n - 1) as nat, id);
        lemma_grouped_same(id, maps[j], maps[j].len());
        assert(maps[j].subrange(0, maps[j].len() as int) =~= maps[j]);
    } else {
        lemma_grouped_present(ids, maps, (n - 1) as nat, j);
        lemma_grouped_other(maps[j], ids[n - 1], maps[n - 1], id, b.len());
    }
}

/// In a request's headers no name stands twice, and none in its query
/// parameters: they are maps.
pub open spec fn well_keyed(log: RequestLogModel) -> bool {
    distinct_keys(log.headers) && distinct_keys(log.query)
}

/// Each of `logs` is well keyed.
pub open spec fn all_well_keyed(logs: Seq<RequestLogModel>) -> bool {
    forall|k: int| 0 <= k < logs.len() ==> well_keyed(#[trigger] logs[k])
}

/// Requests that can have been stored under these ids: one id for each
/// request, no id twice, and each request well keyed.
pub open spec fn storable(ids: Seq<i64>, logs: Seq<RequestLogModel>) -> bool {
    &&& ids.len() == logs.len()
    &&& distinct_ids(ids)
    &&& all_well_keyed(logs)
}

proof fn lemma_well_keyed_at(logs: Seq<RequestLogModel>, k: int)
    requires
        all_well_keyed(logs),
        0 <= k < logs.len(),
    ensures
        distinct_keys(logs[k].headers),
        distinct_keys(logs[k].query),
        distinct_keys(headers_of(logs)[k]),
        distinct_keys(queries_of(logs)[k]),
{
    assert(well_keyed(logs[k]));
}

/// What was logged comes back. Let requests be stored one after another,
/// each under an id of its own: one row for the request, and one row for
/// each of its headers and of its query parameters, in their order. Then
/// the history put together from these rows is the requests themselves,
/// in the order in which they were stored, each with its headers and its
/// query parameters in their order. The ids need not follow one another,
/// so requests of other sessions may have been stored in between.
pub proof fn lemma_history_round_trip(ids: Seq<i64>, logs: Seq<RequestLogModel>)
    requires
        storable(ids, logs),
    ensures
        history(
            stored_logs(ids, logs),
            stored_children(ids, headers_of(logs), logs.len()),
            stored_children(ids, queries_of(logs), logs.len()),
            logs.len(),
        ) == Ok::<Seq<RequestLogModel>, LoggerErrorModel>(logs),
{
    lemma_history_prefix(ids, logs, logs.len());
    assert(logs.subrange(0, logs.len() as int) =~= logs);
}

#[verifier::spinoff_prover]
proof fn lemma_history_prefix(ids: Seq<i64>, logs: Seq<RequestLogModel>, n: nat)
    requires
        n <= logs.len(),
        storable(ids, logs),
    ensures
        history(
            stored_logs(ids, logs),
            stored_children(ids, headers_of(logs), logs.len()),
            stored_children(ids, queries_of(logs), logs.len()),
            n,
        ) == Ok::<Seq<RequestLogModel>, LoggerErrorModel>(logs.subrange(0, n as int)),
    decreases n,
{
    if n == 0 {
        assert(logs.subrange(0, 0) =~= Seq::<RequestLogModel>::empty());
    } else {
        lemma_history_prefix(ids, logs, (n - 1) as nat);
        let j = n - 1;
        let rows = stored_logs(ids, logs);
        let headers = stored_children(ids, headers_of(logs), logs.len());
        let queries = stored_children(ids, queries_of(logs), logs.len());
        lemma_well_keyed_at(logs, j);
        lemma_grouped_present(ids, headers_of(logs), logs.len(), j);
        lemma_grouped_present(ids, queries_of(logs), logs.len(), j);
        lemma_token_round_trip(logs[j].method);
        assert(rows[j].id == ids[j]);
        assert(grouped(headers, rows[j].id) == logs[j].headers);
        assert(grouped(queries, rows[j].id) == logs[j].query);
        assert(log_of(rows[j], headers, queries) == Ok::<RequestLogModel, LoggerErrorModel>(
            logs[j],
        ));
        assert(logs.subrange(0, n - 1).push(logs[j]) =~= logs.subrange(0, n as int));
    }
}

} // verus!
