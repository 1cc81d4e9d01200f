use chrono::{DateTime, FixedOffset, TimeZone};
use indexmap::IndexMap;
use serverify::method::Method;
use serverify::request_logger::{
    assemble_history, create_session_result, create_session_statement, delete_session_result,
    delete_session_statement, group_rows, header_statement, headers_statement, internal_error,
    log_request_result, log_request_start, log_request_statement, log_request_step,
    logs_statement, queries_statement, query_statement, session_id_result, session_id_statement,
    ChildRow, FaultKind, LogAction, LogStage, LoggerError, RequestLog, RequestLogRow, SqlValue,
    Statement, StoreFault, Timestamp, SCHEMA,
};
use serverify::response::{ErrorResBody, ServerifyError, WithError};
use serverify::session_endpoint::{refuse_session_name, CreateResBody, DeleteResBody, GetResBody};
use sqlx::sqlite::{SqliteArguments, SqlitePool, SqlitePoolOptions};
use sqlx::{Row, Sqlite};

const DEFAULT_SESSION: &str = "default_session";

fn map(pairs: Vec<(&str, &str)>) -> IndexMap<String, String> {
    let mut m = IndexMap::new();
    for (k, v) in pairs {
        m.insert(k.to_string(), v.to_string());
    }
    m
}

fn in_order(map: &IndexMap<String, String>) -> Vec<(&str, &str)> {
    map.iter().map(|(k, v)| (k.as_str(), v.as_str())).collect()
}

fn at(second: u32) -> Timestamp {
    let offset = FixedOffset::east_opt(9 * 3600).unwrap();
    let time = offset.with_ymd_and_hms(2024, 1, 2, 3, 4, second).unwrap();
    Timestamp { seconds: time.timestamp(), nanoseconds: 0, offset_seconds: 9 * 3600 }
}

fn to_chrono(at: &Timestamp) -> DateTime<FixedOffset> {
    FixedOffset::east_opt(at.offset_seconds)
        .unwrap()
        .timestamp_opt(at.seconds, at.nanoseconds)
        .unwrap()
}

fn from_chrono(time: DateTime<FixedOffset>) -> Timestamp {
    Timestamp {
        seconds: time.timestamp(),
        nanoseconds: time.timestamp_subsec_nanos(),
        offset_seconds: time.offset().local_minus_utc(),
    }
}

fn fault(err: sqlx::Error) -> StoreFault {
    let kind = match err.as_database_error().map(|d| d.kind()) {
        Some(sqlx::error::ErrorKind::UniqueViolation) => FaultKind::UniqueViolation,
        Some(sqlx::error::ErrorKind::NotNullViolation) => FaultKind::NotNullViolation,
        _ => FaultKind::Other,
    };
    StoreFault { kind, message: err.to_string() }
}

const EXIST_SESSION: &str = "exist_session";

fn failure<T>(message: &str) -> WithError<T> {
    WithError::Error(ErrorResBody { serverify_error: ServerifyError { message: message.to_string() } })
}

fn greeted() -> RequestLog {
    log(Method::Post, "/greet", vec![("token", "abc")], vec![("answer", "42")], r#"{"message":"hello"}"#, 5)
}

fn store_with_exist_session() -> Store {
    let store = Store::new();
    store.create_session(EXIST_SESSION).unwrap();
    store.log_request(EXIST_SESSION, &greeted()).unwrap();
    store
}

fn post_session(store: &Store, session: &str) -> (u16, WithError<CreateResBody>) {
    match refuse_session_name(session) {
        Some(refusal) => refusal,
        None => serverify::session_endpoint::create_session(
            session.to_string(),
            store.create_session(session),
        ),
    }
}

fn delete_of(store: &Store, session: &str) -> (u16, WithError<DeleteResBody>) {
    serverify::session_endpoint::delete_session(session.to_string(), store.delete_session(session))
}

fn bound<'q>(statement: &'q Statement) -> sqlx::query::Query<'q, Sqlite, SqliteArguments<'q>> {
    let mut query = sqlx::query(&statement.sql);
    for value in &statement.binds {
        query = match value {
            SqlValue::Text(text) => query.bind(text.as_str()),
            SqlValue::Integer(number) => query.bind(*number),
            SqlValue::Time(at) => query.bind(to_chrono(at)),
        };
    }
    query
}

struct Store {
    runtime: tokio::runtime::Runtime,
    pool: SqlitePool,
}

impl Store {
    fn new() -> Store {
        let runtime = tokio::runtime::Builder::new_current_thread().enable_all().build().unwrap();
        let pool = runtime
            .block_on(SqlitePoolOptions::new().max_connections(1).connect("sqlite::memory:"))
            .unwrap();
        runtime.block_on(sqlx::query(SCHEMA).execute(&pool)).unwrap();
        Store { runtime, pool }
    }

    fn with_default_session() -> Store {
        let store = Store::new();
        store.create_session(DEFAULT_SESSION).unwrap();
        store
    }

    fn create_session(&self, session: &str) -> Result<(), LoggerError> {
        let statement = create_session_statement(session);
        let outcome =
            self.runtime.block_on(bound(&statement).execute(&self.pool)).map(|_| ()).map_err(fault);
        create_session_result(session, outcome)
    }

    fn delete_session(&self, session: &str) -> Result<(), LoggerError> {
        let statement = delete_session_statement(session);
        let outcome = self
            .runtime
            .block_on(bound(&statement).execute(&self.pool))
            .map(|done| done.rows_affected())
            .map_err(fault);
        delete_session_result(session, outcome)
    }

    fn log_request(&self, session: &str, log: &RequestLog) -> Result<(), LoggerError> {
        self.runtime.block_on(async {
            let mut tx = None;
            let (mut stage, mut action) = log_request_start();
            loop {
                let answer = match (action, tx.as_mut()) {
                    (LogAction::Finish(result), _) => return result,
                    (LogAction::Begin, _) => match self.pool.begin().await {
                        Ok(begun) => {
                            tx = Some(begun);
                            Ok(0)
                        }
                        Err(err) => Err(fault(err)),
                    },
                    (LogAction::Execute(statement), Some(open)) => bound(&statement)
                        .execute(&mut **open)
                        .await
                        .map(|done| done.last_insert_rowid())
                        .map_err(fault),
                    (LogAction::Commit, Some(_)) => match tx.take() {
                        Some(open) => open.commit().await.map(|_| 0).map_err(fault),
                        None => Err(fault(sqlx::Error::PoolClosed)),
                    },
                    (_, None) => Err(fault(sqlx::Error::PoolClosed)),
                };
                (stage, action) = log_request_step(session, log, stage, answer);
            }
        })
    }

    fn children(&self, statement: &Statement) -> Result<Vec<ChildRow>, LoggerError> {
        let rows = self
            .runtime
            .block_on(bound(statement).fetch_all(&self.pool))
            .map_err(|e| internal_error(fault(e)))?;
        Ok(rows
            .iter()
            .map(|row| ChildRow {
                request_log_id: row.get("request_log_id"),
                name: row.get("name"),
                value: row.get("value"),
            })
            .collect())
    }

    fn get_session_history(&self, session: &str) -> Result<Vec<RequestLog>, LoggerError> {
        let statement = session_id_statement(session);
        let outcome = self
            .runtime
            .block_on(bound(&statement).fetch_optional(&self.pool))
            .map(|row| row.map(|row| row.get::<i64, _>("id")))
            .map_err(fault);
        let session_id = session_id_result(session, outcome)?;
        let statement = logs_statement(session_id);
        let logs: Vec<RequestLogRow> = self
            .runtime
            .block_on(bound(&statement).fetch_all(&self.pool))
            .map_err(|e| internal_error(fault(e)))?
            .iter()
            .map(|row| RequestLogRow {
                id: row.get("id"),
                method: row.get("method"),
                path: row.get("path"),
                body: row.get("body"),
                requested_at: from_chrono(row.get("requested_at")),
            })
            .collect();
        let headers = self.children(&headers_statement(session_id))?;
        let queries = self.children(&queries_statement(session_id))?;
        assemble_history(&logs, &headers, &queries)
    }

    fn count(&self, table: &str) -> i64 {
        let sql = format!("SELECT COUNT(*) AS n FROM {}", table);
        self.runtime.block_on(sqlx::query(&sql).fetch_one(&self.pool)).unwrap().get("n")
    }
}

fn log(method: Method, path: &str, headers: Vec<(&str, &str)>, query: Vec<(&str, &str)>, body: &str, second: u32) -> RequestLog {
    RequestLog {
        method,
        headers: map(headers),
        path: path.to_string(),
        query: map(query),
        body: body.to_string(),
        requested_at: at(second),
    }
}

#[test]
fn with_unique_sessions() {
    let logger = Store::with_default_session();
    assert_eq!(logger.create_session("new_session"), Ok(()));
}

#[test]
fn with_duplicated_sessions() {
    let logger = Store::with_default_session();
    assert_eq!(
        logger.create_session(DEFAULT_SESSION),
        Err(LoggerError::InvalidSession(format!("session \"{}\" already exists", DEFAULT_SESSION)))
    );
    assert_eq!(1, logger.count("session"));
}

#[test]
fn with_exist_session() {
    let logger = Store::with_default_session();
    assert_eq!(logger.delete_session(DEFAULT_SESSION), Ok(()));
}

#[test]
fn with_not_exist_sessions() {
    let logger = Store::with_default_session();
    assert_eq!(
        logger.delete_session("new_session"),
        Err(LoggerError::InvalidSession("session \"new_session\" is not found".to_string()))
    );
}

#[test]
fn when_two_requests_are_logged() {
    let log1 = log(Method::Get, "/hello", vec![], vec![("qname1", "qvalue1"), ("qname2", "qvalue2")], "", 5);
    let log2 = log(
        Method::Post,
        "/greet",
        vec![("hname1", "hvalue1"), ("hname2", "hvalue2")],
        vec![],
        r#"{"message":"hi"}"#,
        6,
    );
    let log3 = log(Method::Delete, "/bye", vec![], vec![], "", 7);

    let logger = Store::with_default_session();
    let another_session = "another_session";
    logger.create_session(another_session).unwrap();

    logger.log_request(DEFAULT_SESSION, &log1).unwrap();
    logger.log_request(DEFAULT_SESSION, &log2).unwrap();
    logger.log_request(another_session, &log3).unwrap();

    assert_eq!(Ok(vec![log1, log2]), logger.get_session_history(DEFAULT_SESSION));
}

#[test]
fn when_no_requests_are_logged() {
    let logger = Store::with_default_session();
    assert_eq!(Ok(vec![]), logger.get_session_history(DEFAULT_SESSION));
}

#[test]
fn when_unknown_session_is_passed_to_log_request() {
    let logger = Store::with_default_session();
    assert_eq!(
        Err(LoggerError::InvalidSession("session \"unknown_session\" is not found".to_string())),
        logger.log_request("unknown_session", &log(Method::Get, "/hello", vec![], vec![], "", 5)),
    );
}

#[test]
fn a_request_of_an_unknown_session_leaves_no_row() {
    let logger = Store::with_default_session();
    assert_eq!(
        Err(LoggerError::InvalidSession("session \"unknown_session\" is not found".to_string())),
        logger.log_request(
            "unknown_session",
            &log(Method::Get, "/hello", vec![("a", "b")], vec![("c", "d")], "", 5)
        ),
    );
    assert_eq!(0, logger.count("request_log"));
    assert_eq!(0, logger.count("request_header"));
    assert_eq!(0, logger.count("request_query"));
}

#[test]
fn when_unknown_session_is_passed_to_get_session_history() {
    let logger = Store::with_default_session();
    assert_eq!(
        Err(LoggerError::InvalidSession("session \"unknown_session\" is not found".to_string())),
        logger.get_session_history("unknown_session"),
    );
}

#[test]
fn history_ordering() {
    let logger = Store::new();
    logger.create_session("x").unwrap();
    let logs = vec![
        log(Method::Put, "/1", vec![("z", "1"), ("a", "2"), ("m", "3")], vec![("q2", "b"), ("q1", "a")], "one", 1),
        log(Method::Patch, "/2", vec![("a", "2")], vec![], "two", 2),
        log(Method::Get, "/3", vec![], vec![("only", "")], "three", 3),
    ];
    for log in &logs {
        logger.log_request("x", log).unwrap();
    }
    let history = logger.get_session_history("x").unwrap();
    assert_eq!(logs, history);
    assert_eq!(vec![("z", "1"), ("a", "2"), ("m", "3")], in_order(&history[0].headers));
    assert_eq!(vec![("q2", "b"), ("q1", "a")], in_order(&history[0].query));
    let paths: Vec<&str> = history.iter().map(|log| log.path.as_str()).collect();
    assert_eq!(vec!["/1", "/2", "/3"], paths);
}

#[test]
fn deleting_a_session_deletes_its_requests() {
    let logger = Store::with_default_session();
    logger.create_session("other").unwrap();
    let kept = log(Method::Get, "/kept", vec![("h", "1")], vec![("q", "1")], "", 1);
    logger
        .log_request(DEFAULT_SESSION, &log(Method::Get, "/gone", vec![("h", "1"), ("i", "2")], vec![("q", "1")], "", 2))
        .unwrap();
    logger.log_request("other", &kept).unwrap();
    assert_eq!(Ok(()), logger.delete_session(DEFAULT_SESSION));
    assert_eq!(
        Err(LoggerError::InvalidSession(format!("session \"{}\" is not found", DEFAULT_SESSION))),
        logger.get_session_history(DEFAULT_SESSION)
    );
    assert_eq!(1, logger.count("session"));
    assert_eq!(1, logger.count("request_log"));
    assert_eq!(1, logger.count("request_header"));
    assert_eq!(1, logger.count("request_query"));
    assert_eq!(Ok(vec![kept]), logger.get_session_history("other"));
}

#[test]
fn a_session_named_default_is_a_session_like_any_other_for_the_recorder() {
    let logger = Store::new();
    assert_eq!(
        Err(LoggerError::InvalidSession("session \"default\" is not found".to_string())),
        logger.get_session_history("default")
    );
}

fn text(value: &str) -> SqlValue {
    SqlValue::Text(value.to_string())
}

#[test]
fn statements_bind_what_they_are_given() {
    assert_eq!(
        Statement { sql: "INSERT INTO session (name) VALUES (?)".to_string(), binds: vec![text("s")] },
        create_session_statement("s")
    );
    assert_eq!(
        Statement { sql: "DELETE FROM session WHERE name = ?".to_string(), binds: vec![text("s")] },
        delete_session_statement("s")
    );
    assert_eq!(
        Statement { sql: "SELECT id FROM session WHERE name = ?".to_string(), binds: vec![text("s")] },
        session_id_statement("s")
    );
    let request = log(Method::Patch, "/p", vec![], vec![], "b", 9);
    let statement = log_request_statement("s", &request);
    assert_eq!(
        vec![text("s"), text("patch"), text("/p"), text("b"), SqlValue::Time(at(9))],
        statement.binds
    );
    assert_eq!(5, statement.sql.matches('?').count());
    assert_eq!(vec![SqlValue::Integer(7)], logs_statement(7).binds);
    assert_eq!(vec![SqlValue::Integer(7)], headers_statement(7).binds);
    assert_eq!(vec![SqlValue::Integer(7)], queries_statement(7).binds);
}

#[test]
fn child_statements_insert_all_rows_at_once() {
    assert_eq!(None, header_statement(1, &map(vec![])));
    assert_eq!(None, query_statement(1, &map(vec![])));
    assert_eq!(
        Some(Statement {
            sql: "INSERT INTO request_header (request_log_id, name, value) VALUES (?, ?, ?)".to_string(),
            binds: vec![SqlValue::Integer(4), text("a"), text("1")],
        }),
        header_statement(4, &map(vec![("a", "1")]))
    );
    assert_eq!(
        Some(Statement {
            sql: "INSERT INTO request_query (request_log_id, name, value) VALUES (?, ?, ?), (?, ?, ?), (?, ?, ?)"
                .to_string(),
            binds: vec![
                SqlValue::Integer(4),
                text("z"),
                text("1"),
                SqlValue::Integer(4),
                text("a"),
                text("2"),
                SqlValue::Integer(4),
                text("m"),
                text("3"),
            ],
        }),
        query_statement(4, &map(vec![("z", "1"), ("a", "2"), ("m", "3")]))
    );
}

fn store_fault(kind: FaultKind) -> StoreFault {
    StoreFault { kind, message: "what the store said".to_string() }
}

#[test]
fn the_store_s_answers_become_the_recorder_s_results() {
    let internal = Err(LoggerError::InternalError("what the store said".to_string()));
    assert_eq!(Ok(()), create_session_result("a", Ok(())));
    assert_eq!(
        Err(LoggerError::InvalidSession("session \"a\" already exists".to_string())),
        create_session_result("a", Err(store_fault(FaultKind::UniqueViolation)))
    );
    assert_eq!(internal, create_session_result("a", Err(store_fault(FaultKind::NotNullViolation))));
    assert_eq!(internal, create_session_result("a", Err(store_fault(FaultKind::Other))));

    assert_eq!(Ok(()), delete_session_result("a", Ok(1)));
    assert_eq!(Ok(()), delete_session_result("a", Ok(3)));
    assert_eq!(
        Err(LoggerError::InvalidSession("session \"a\" is not found".to_string())),
        delete_session_result("a", Ok(0))
    );
    assert_eq!(internal, delete_session_result("a", Err(store_fault(FaultKind::UniqueViolation))));

    assert_eq!(Ok(12), log_request_result("a", Ok(12)));
    assert_eq!(
        Err(LoggerError::InvalidSession("session \"a\" is not found".to_string())),
        log_request_result("a", Err(store_fault(FaultKind::NotNullViolation)))
    );
    assert_eq!(
        Err(LoggerError::InternalError("what the store said".to_string())),
        log_request_result("a", Err(store_fault(FaultKind::UniqueViolation)))
    );

    assert_eq!(Ok(5), session_id_result("a", Ok(Some(5))));
    assert_eq!(
        Err(LoggerError::InvalidSession("session \"a\" is not found".to_string())),
        session_id_result("a", Ok(None))
    );
    assert_eq!(
        Err(LoggerError::InternalError("what the store said".to_string())),
        session_id_result("a", Err(store_fault(FaultKind::Other)))
    );
    assert_eq!(
        LoggerError::InternalError("what the store said".to_string()),
        internal_error(store_fault(FaultKind::Other))
    );
    assert_eq!("m", LoggerError::InvalidSession("m".to_string()).to_message());
    assert_eq!("n", LoggerError::InternalError("n".to_string()).to_message());
}

fn child(id: i64, name: &str, value: &str) -> ChildRow {
    ChildRow { request_log_id: id, name: name.to_string(), value: value.to_string() }
}

fn row(id: i64, method: &str, path: &str) -> RequestLogRow {
    RequestLogRow {
        id,
        method: method.to_string(),
        path: path.to_string(),
        body: "".to_string(),
        requested_at: at(0),
    }
}

#[test]
fn rows_are_grouped_by_their_request() {
    let rows = vec![child(2, "b", "1"), child(1, "x", "2"), child(2, "a", "3"), child(2, "b", "4")];
    assert_eq!(map(vec![("b", "4"), ("a", "3")]), group_rows(&rows, 2));
    assert_eq!(vec![("b", "4"), ("a", "3")], in_order(&group_rows(&rows, 2)));
    assert_eq!(map(vec![("x", "2")]), group_rows(&rows, 1));
    assert_eq!(map(vec![]), group_rows(&rows, 3));
}

#[test]
fn history_is_put_together_in_the_order_of_the_rows() {
    let logs = vec![row(3, "get", "/a"), row(1, "post", "/b")];
    let headers = vec![child(1, "h1", "1"), child(3, "h3", "3"), child(1, "h2", "2")];
    let queries = vec![child(3, "q", "v")];
    let history = assemble_history(&logs, &headers, &queries).unwrap();
    assert_eq!(vec![("h1", "1"), ("h2", "2")], in_order(&history[1].headers));
    assert_eq!(
        vec![
            RequestLog {
                method: Method::Get,
                headers: map(vec![("h3", "3")]),
                path: "/a".to_string(),
                query: map(vec![("q", "v")]),
                body: "".to_string(),
                requested_at: at(0),
            },
            RequestLog {
                method: Method::Post,
                headers: map(vec![("h1", "1"), ("h2", "2")]),
                path: "/b".to_string(),
                query: map(vec![]),
                body: "".to_string(),
                requested_at: at(0),
            },
        ],
        history
    );
}

#[test]
fn a_row_with_an_unknown_method_is_the_store_s_fault() {
    let logs = vec![row(1, "get", "/a"), row(2, "GET", "/b"), row(3, "nope", "/c")];
    assert_eq!(
        Err(LoggerError::InternalError("unknown method: GET".to_string())),
        assemble_history(&logs, &vec![], &vec![])
    );
}

fn steps(log: &RequestLog, answers: Vec<Result<i64, StoreFault>>) -> Vec<LogAction> {
    let (mut stage, first) = log_request_start();
    let mut actions = vec![first];
    for answer in answers {
        let (next, action) = log_request_step("s", log, stage, answer);
        stage = next;
        actions.push(action);
    }
    actions
}

#[test]
fn a_request_is_logged_in_one_transaction() {
    let request = log(Method::Get, "/p", vec![("h", "1")], vec![("q", "2")], "", 1);
    assert_eq!(
        vec![
            LogAction::Begin,
            LogAction::Execute(log_request_statement("s", &request)),
            LogAction::Execute(header_statement(7, &request.headers).unwrap()),
            LogAction::Execute(query_statement(7, &request.query).unwrap()),
            LogAction::Commit,
            LogAction::Finish(Ok(())),
        ],
        steps(&request, vec![Ok(0), Ok(7), Ok(8), Ok(9), Ok(0)])
    );
    let bare = log(Method::Get, "/p", vec![], vec![], "", 1);
    assert_eq!(
        vec![
            LogAction::Begin,
            LogAction::Execute(log_request_statement("s", &bare)),
            LogAction::Commit,
            LogAction::Finish(Ok(())),
        ],
        steps(&bare, vec![Ok(0), Ok(7), Ok(0)])
    );
    let only_query = log(Method::Get, "/p", vec![], vec![("q", "2")], "", 1);
    assert_eq!(
        vec![
            LogAction::Begin,
            LogAction::Execute(log_request_statement("s", &only_query)),
            LogAction::Execute(query_statement(7, &only_query.query).unwrap()),
            LogAction::Commit,
            LogAction::Finish(Ok(())),
        ],
        steps(&only_query, vec![Ok(0), Ok(7), Ok(8), Ok(0)])
    );
}

#[test]
fn a_failure_ends_the_logging_before_the_commit() {
    let request = log(Method::Get, "/p", vec![("h", "1")], vec![("q", "2")], "", 1);
    let said = LoggerError::InternalError("what the store said".to_string());
    assert_eq!(
        vec![LogAction::Begin, LogAction::Finish(Err(said.clone()))],
        steps(&request, vec![Err(store_fault(FaultKind::Other))])
    );
    assert_eq!(
        Some(&LogAction::Finish(Err(LoggerError::InvalidSession(
            "session \"s\" is not found".to_string()
        )))),
        steps(&request, vec![Ok(0), Err(store_fault(FaultKind::NotNullViolation))]).last()
    );
    assert_eq!(
        Some(&LogAction::Finish(Err(said.clone()))),
        steps(&request, vec![Ok(0), Err(store_fault(FaultKind::UniqueViolation))]).last()
    );
    assert_eq!(
        Some(&LogAction::Finish(Err(said.clone()))),
        steps(&request, vec![Ok(0), Ok(7), Err(store_fault(FaultKind::NotNullViolation))]).last()
    );
    assert_eq!(
        Some(&LogAction::Finish(Err(said.clone()))),
        steps(&request, vec![Ok(0), Ok(7), Ok(8), Err(store_fault(FaultKind::Other))]).last()
    );
    let actions = steps(&request, vec![Ok(0), Ok(7), Ok(8), Ok(9), Err(store_fault(FaultKind::Other))]);
    assert_eq!(Some(&LogAction::Finish(Err(said))), actions.last());
    let (stage, _) = log_request_step("s", &request, LogStage::Queries, Err(store_fault(FaultKind::Other)));
    assert_eq!(LogStage::Done, stage);
}

#[test]
fn success_case() {
    let store = store_with_exist_session();
    assert_eq!(
        (201, WithError::Success(CreateResBody { session: "mysession".to_string() })),
        post_session(&store, "mysession")
    );
    assert_eq!(Ok(vec![]), store.get_session_history("mysession"));
}

#[test]
fn when_already_exists() {
    let store = store_with_exist_session();
    assert_eq!(
        (409, failure("session \"exist_session\" already exists")),
        post_session(&store, EXIST_SESSION)
    );
    assert_eq!(2, 1 + store.count("session"));
    assert_eq!(Ok(vec![greeted()]), store.get_session_history(EXIST_SESSION));
}

#[test]
fn when_invalid_session_name() {
    let store = store_with_exist_session();
    assert_eq!(
        (
            400,
            failure("session name should contains only alphanumeric, hyphen or underscore")
        ),
        post_session(&store, "invalid session")
    );
    assert_eq!(
        Err(LoggerError::InvalidSession("session \"invalid session\" is not found".to_string())),
        store.get_session_history("invalid session")
    );
    assert_eq!(1, store.count("session"));
}

#[test]
fn get_session() {
    let store = store_with_exist_session();
    assert_eq!(
        (200, WithError::Success(GetResBody { histories: vec![greeted()] })),
        serverify::session_endpoint::get_session(store.get_session_history("exist_session"))
    );
    assert_eq!(
        (404, failure("session \"undefined_session\" is not found")),
        serverify::session_endpoint::get_session(store.get_session_history("undefined_session"))
    );
}

#[test]
fn delete_session() {
    let store = store_with_exist_session();
    assert_eq!(
        (404, failure("session \"undefined_session\" is not found")),
        delete_of(&store, "undefined_session")
    );
    assert!(store.get_session_history(EXIST_SESSION).is_ok());

    assert_eq!(
        (200, WithError::Success(DeleteResBody { session: "exist_session".to_string() })),
        delete_of(&store, "exist_session")
    );
    assert!(!store.get_session_history(EXIST_SESSION).is_ok());
}

#[test]
fn a_deleted_session_can_be_created_again_and_is_empty() {
    let store = store_with_exist_session();
    store.create_session("other").unwrap();
    let kept = log(Method::Get, "/kept", vec![("h", "1")], vec![], "", 1);
    store.log_request("other", &kept).unwrap();
    assert_eq!(Ok(()), store.delete_session(EXIST_SESSION));
    assert_eq!(Ok(()), store.create_session(EXIST_SESSION));
    assert_eq!(Ok(vec![]), store.get_session_history(EXIST_SESSION));
    assert_eq!(Ok(vec![kept]), store.get_session_history("other"));
}

#[test]
fn requests_of_sessions_that_are_logged_in_turn_come_back_by_session() {
    let store = Store::new();
    store.create_session("a").unwrap();
    store.create_session("b").unwrap();
    let of_a: Vec<RequestLog> = (0..4)
        .map(|i| log(Method::Get, &format!("/a{}", i), vec![("z", "1"), ("y", "2")], vec![("q", "3")], "", i))
        .collect();
    let of_b: Vec<RequestLog> = (0..4)
        .map(|i| log(Method::Put, &format!("/b{}", i), vec![("y", "2"), ("z", "1")], vec![], "b", i))
        .collect();
    for i in 0..4 {
        store.log_request("a", &of_a[i]).unwrap();
        store.log_request("b", &of_b[i]).unwrap();
    }
    let history = store.get_session_history("a").unwrap();
    assert_eq!(of_a, history);
    assert_eq!(vec![("z", "1"), ("y", "2")], in_order(&history[3].headers));
    let history = store.get_session_history("b").unwrap();
    assert_eq!(of_b, history);
    assert_eq!(vec![("y", "2"), ("z", "1")], in_order(&history[0].headers));
}
