use indexmap::IndexMap;
use serverify::json::{Json, Member};
use serverify::json_template::JsonTemplate;
use serverify::method::Method;
use serverify::mock_endpoint::{
    is_recorded, mock_prefix, recording_failure, request_failure, request_headers, request_log,
    Incoming, MockEndpoint, Response, ResponseHandler, StatusCode,
};
use serverify::request_logger::{LoggerError, RequestLog, Timestamp};

fn json_of(value: &serde_json::Value) -> Json {
    match value {
        serde_json::Value::Null => Json::Null,
        serde_json::Value::Bool(b) => Json::Bool(*b),
        serde_json::Value::Number(n) => Json::Number(n.to_string()),
        serde_json::Value::String(s) => Json::Str(s.clone()),
        serde_json::Value::Array(items) => Json::Array(items.iter().map(json_of).collect()),
        serde_json::Value::Object(members) => Json::Object(
            members.iter().map(|(k, v)| Member { name: k.clone(), value: json_of(v) }).collect(),
        ),
    }
}

fn json(text: &str) -> Json {
    json_of(&serde_json::from_str::<serde_json::Value>(text).unwrap())
}

fn map(pairs: Vec<(&str, &str)>) -> IndexMap<String, String> {
    let mut m = IndexMap::new();
    for (k, v) in pairs {
        m.insert(k.to_string(), v.to_string());
    }
    m
}

fn in_order(map: &IndexMap<String, String>) -> Vec<(String, String)> {
    map.iter().map(|(k, v)| (k.clone(), v.clone())).collect()
}

fn pairs(list: Vec<(&str, &str)>) -> Vec<(String, String)> {
    list.into_iter().map(|(k, v)| (k.to_string(), v.to_string())).collect()
}

fn members() -> Vec<Json> {
    (0..10).map(|i| json(&format!(r#"{{"name": "member{}"}}"#, i))).collect()
}

fn paging(page_origin: Option<usize>) -> ResponseHandler {
    ResponseHandler::new_paging(
        StatusCode::try_from(200).unwrap(),
        map(vec![("answer", "42")]),
        "page".to_string(),
        "per_page".to_string(),
        2,
        page_origin,
        json(r#"{"total": 10, "members": "$_contents"}"#),
        members(),
    )
    .unwrap()
}

fn at() -> Timestamp {
    Timestamp { seconds: 1704164645, nanoseconds: 0, offset_seconds: 32400 }
}

fn raw_headers() -> Vec<(String, Result<String, String>)> {
    vec![
        ("content-type".to_string(), Ok("text/plain".to_string())),
        ("token".to_string(), Ok("abc".to_string())),
    ]
}

fn incoming(session: &str) -> Incoming {
    Incoming {
        session: session.to_string(),
        method: Method::Post,
        headers: request_headers(&raw_headers()).unwrap(),
        path: "/hello".to_string(),
        query: map(vec![("foo", "x"), ("bar", "y")]),
        body: "hello world".as_bytes().to_vec(),
        requested_at: at(),
    }
}

#[test]
fn status_codes_go_from_100_to_599() {
    assert_eq!(100, StatusCode::try_from(100).unwrap().as_u16());
    assert_eq!(599, StatusCode::try_from(599).unwrap().as_u16());
    assert_eq!(Err("invalid status code".to_string()), StatusCode::try_from(99));
    assert_eq!(Err("invalid status code".to_string()), StatusCode::try_from(600));
    assert_eq!(Err("invalid status code".to_string()), StatusCode::try_from(0));
}

#[test]
fn route_to_static() {
    let endpoint = MockEndpoint {
        method: Method::Post,
        path: "/hello".to_string(),
        response: ResponseHandler::Static {
            status: StatusCode::try_from(200).unwrap(),
            headers: map(vec![("answer", "42")]),
            body: "Hello, world!".to_string(),
        },
    };
    let request = incoming("123");
    let log = request_log(&request).unwrap();
    let response = endpoint.reply(Ok(()), &request.query);

    assert_eq!(200, response.status);
    assert_eq!("Hello, world!", response.body);
    assert_eq!(pairs(vec![("answer", "42")]), response.headers);

    assert_eq!(Method::Post, log.method);
    assert_eq!(map(vec![("content-type", "text/plain"), ("token", "abc")]), log.headers);
    assert_eq!(
        pairs(vec![("content-type", "text/plain"), ("token", "abc")]),
        in_order(&log.headers)
    );
    assert_eq!("/hello".to_string(), log.path);
    assert_eq!(map(vec![("foo", "x"), ("bar", "y")]), log.query);
    assert_eq!("hello world".to_string(), log.body);
    assert_eq!(at(), log.requested_at);
}

#[test]
fn static_handler() {
    let handler = ResponseHandler::new_static(
        StatusCode::try_from(200).unwrap(),
        map(vec![("Content-Type", "text/plain")]),
        "Hello, world!".to_string(),
    );
    assert_eq!(
        Ok(Response {
            status: 200,
            headers: pairs(vec![("Content-Type", "text/plain")]),
            body: "Hello, world!".to_string()
        }),
        handler.respond(&map(vec![]))
    );
}

#[test]
fn static_handler_keeps_the_order_of_its_headers() {
    let handler = ResponseHandler::new_static(
        StatusCode::try_from(204).unwrap(),
        map(vec![("z", "1"), ("a", "2"), ("m", "3")]),
        "".to_string(),
    );
    let response = handler.respond(&map(vec![("page", "3")])).unwrap();
    assert_eq!(204, response.status);
    assert_eq!(pairs(vec![("z", "1"), ("a", "2"), ("m", "3")]), response.headers);
}

fn paging_case(handler: ResponseHandler, query: Vec<(&str, &str)>, expected_body: &str) {
    let endpoint = MockEndpoint { method: Method::Post, path: "/hello".to_string(), response: handler };
    let mut request = incoming("123");
    request.query = map(query.clone());
    let log = request_log(&request).unwrap();
    let response = endpoint.reply(Ok(()), &request.query);

    assert_eq!(200, response.status);
    assert_eq!(expected_body, response.body);
    assert_eq!(
        pairs(vec![("content-type", "application/json"), ("answer", "42")]),
        response.headers
    );
    assert_eq!(Method::Post, log.method);
    assert_eq!(map(vec![("content-type", "text/plain"), ("token", "abc")]), log.headers);
    assert_eq!("/hello".to_string(), log.path);
    assert_eq!(map(query), log.query);
    assert_eq!("hello world".to_string(), log.body);
}

#[test]
fn paging_response() {
    paging_case(
        paging(None),
        vec![("page", "2"), ("per_page", "3")],
        r#"{"total":10,"members":[{"name":"member3"},{"name":"member4"},{"name":"member5"}]}"#,
    );
}

#[test]
fn paging_response_with_the_default_page_size() {
    paging_case(
        paging(None),
        vec![("page", "2")],
        r#"{"total":10,"members":[{"name":"member2"},{"name":"member3"}]}"#,
    );
}

fn page_body(handler: &ResponseHandler, query: Vec<(&str, &str)>) -> String {
    handler.respond(&map(query)).unwrap().body
}

#[test]
fn paging_falls_back_to_the_defaults() {
    let handler = paging(None);
    let first = r#"{"total":10,"members":[{"name":"member0"},{"name":"member1"}]}"#;
    assert_eq!(first, page_body(&handler, vec![]));
    assert_eq!(first, page_body(&handler, vec![("page", "x"), ("per_page", "-1")]));
    assert_eq!(first, page_body(&handler, vec![("page", ""), ("per_page", "2.0")]));
}

#[test]
fn paging_gives_an_empty_page_outside_the_items() {
    let handler = paging(None);
    let empty = r#"{"total":10,"members":[]}"#;
    assert_eq!(empty, page_body(&handler, vec![("page", "0")]));
    assert_eq!(empty, page_body(&handler, vec![("page", "6")]));
    assert_eq!(empty, page_body(&handler, vec![("page", "18446744073709551615"), ("per_page", "3")]));
    assert_eq!(empty, page_body(&handler, vec![("per_page", "0")]));
    assert_eq!(
        r#"{"total":10,"members":[{"name":"member9"}]}"#,
        page_body(&handler, vec![("page", "4"), ("per_page", "3")])
    );
    assert_eq!(
        r#"{"total":10,"members":[{"name":"member8"},{"name":"member9"}]}"#,
        page_body(&handler, vec![("page", "2"), ("per_page", "8")])
    );
}

#[test]
fn paging_counts_pages_from_the_origin() {
    let handler = paging(Some(0));
    assert_eq!(
        r#"{"total":10,"members":[{"name":"member0"},{"name":"member1"}]}"#,
        page_body(&handler, vec![])
    );
    assert_eq!(
        r#"{"total":10,"members":[{"name":"member6"},{"name":"member7"},{"name":"member8"}]}"#,
        page_body(&handler, vec![("page", "2"), ("per_page", "3")])
    );
}

#[test]
fn paging_renders_text_placeholders() {
    let handler = ResponseHandler::new_paging(
        StatusCode::try_from(200).unwrap(),
        map(vec![]),
        "page".to_string(),
        "per_page".to_string(),
        2,
        None,
        json(r#"{"count": {"$_text": "{{ _contents | length }} items"}}"#),
        members(),
    )
    .unwrap();
    assert_eq!(r#"{"count":"2 items"}"#, page_body(&handler, vec![]));
}

#[test]
fn a_text_that_does_not_render_fails_with_500() {
    let handler = ResponseHandler::new_paging(
        StatusCode::try_from(200).unwrap(),
        map(vec![]),
        "page".to_string(),
        "per_page".to_string(),
        2,
        None,
        json(r#"{"count": {"$_text": "{{ 1 +"}}"#),
        members(),
    )
    .unwrap();
    let failure = handler.respond(&map(vec![])).unwrap_err();
    assert_eq!(500, failure.0);
    assert!(!failure.1.is_empty());
}

#[test]
fn a_header_that_cannot_be_sent_fails_with_500() {
    let handler = ResponseHandler::new_static(
        StatusCode::try_from(200).unwrap(),
        map(vec![("ok", "1"), ("bad name", "2")]),
        "".to_string(),
    );
    let failure = handler.respond(&map(vec![])).unwrap_err();
    assert_eq!(500, failure.0);
    assert_eq!("invalid HTTP header name", failure.1);
    let handler = ResponseHandler::new_static(
        StatusCode::try_from(200).unwrap(),
        map(vec![("x", "line\nbreak"), ("bad name", "2")]),
        "".to_string(),
    );
    assert_eq!(
        Err((500, "failed to parse header value".to_string())),
        handler.respond(&map(vec![]))
    );
}

#[test]
fn the_default_session_is_never_recorded() {
    assert!(!is_recorded("default"));
    assert!(is_recorded("Default"));
    assert!(is_recorded("default "));
    assert!(is_recorded(""));
    assert!(is_recorded("123"));
    assert_eq!(None, request_log(&incoming("default")));
    let mut request = incoming("default");
    request.body = vec![0xff, 0xfe];
    request.query = map(vec![]);
    request.method = Method::Delete;
    assert_eq!(None, request_log(&request));
    assert!(request_log(&incoming("Default")).is_some());
}

#[test]
fn default_session_sentinel() {
    let endpoint = MockEndpoint {
        method: Method::Get,
        path: "/hello".to_string(),
        response: ResponseHandler::new_static(
            StatusCode::try_from(200).unwrap(),
            map(vec![("Content-Type", "text/plain")]),
            "Hello, world!".to_string(),
        ),
    };
    let request = incoming("default");
    assert_eq!(None, request_log(&request));
    let response = endpoint.reply(Ok(()), &request.query);
    assert_eq!(200, response.status);
    assert_eq!("Hello, world!", response.body);
}

#[test]
fn a_header_that_is_no_text_fails_with_500() {
    let mut raw = raw_headers();
    raw.insert(1, ("bin".to_string(), Err("failed to convert header to a str".to_string())));
    raw.push(("later".to_string(), Err("later".to_string())));
    assert_eq!(
        Err((500, "failed to convert header to a str".to_string())),
        request_headers(&raw)
    );
    assert_eq!(Ok(map(vec![])), request_headers(&vec![]));
}

#[test]
fn a_repeated_header_keeps_its_place_and_takes_the_last_value() {
    let mut raw = raw_headers();
    raw.push(("content-type".to_string(), Ok("text/html".to_string())));
    let mut request = incoming("s1");
    request.headers = request_headers(&raw).unwrap();
    let log: RequestLog = request_log(&request).unwrap();
    assert_eq!(pairs(vec![("content-type", "text/html"), ("token", "abc")]), in_order(&log.headers));
    assert_eq!(pairs(vec![("foo", "x"), ("bar", "y")]), in_order(&log.query));
}

#[test]
fn a_body_that_is_no_utf8_is_read_with_replacement_characters() {
    let mut request = incoming("s1");
    request.body = vec![b'a', 0xff, b'b'];
    assert_eq!("a\u{FFFD}b", request_log(&request).unwrap().body);
    request.body = "héllo".as_bytes().to_vec();
    assert_eq!("héllo", request_log(&request).unwrap().body);
    request.body = vec![0xc3, 0x28];
    assert_eq!("\u{FFFD}(", request_log(&request).unwrap().body);
}

#[test]
fn a_failed_recording_is_the_reply() {
    assert_eq!(
        (404, "session \"x\" is not found".to_string()),
        recording_failure(LoggerError::InvalidSession("session \"x\" is not found".to_string()))
    );
    assert_eq!(
        (500, "disk".to_string()),
        recording_failure(LoggerError::InternalError("disk".to_string()))
    );
    let endpoint = MockEndpoint {
        method: Method::Get,
        path: "/hello".to_string(),
        response: ResponseHandler::new_static(StatusCode::try_from(200).unwrap(), map(vec![]), "hi".to_string()),
    };
    let response = endpoint.reply(
        Err(recording_failure(LoggerError::InvalidSession("session \"x\" is not found".to_string()))),
        &map(vec![]),
    );
    assert_eq!(
        Response { status: 404, headers: vec![], body: "session \"x\" is not found".to_string() },
        response
    );
}

#[test]
fn mock_routes_are_mounted_under_the_session_segment() {
    assert_eq!("/mock/:serverify_session", mock_prefix());
    assert!(serverify::endpoint::PathPrefix::new(mock_prefix()).is_ok());
}

#[test]
fn a_paging_handler_binds_contents_and_text() {
    assert!(paging(None).is_wf());
    assert!(ResponseHandler::new_static(StatusCode::try_from(200).unwrap(), map(vec![]), "".to_string())
        .is_wf());
    let other = |names: Vec<&str>, text: &str| ResponseHandler::Paging {
        status: StatusCode::try_from(200).unwrap(),
        headers: map(vec![]),
        page_param: "page".to_string(),
        per_page_param: "per_page".to_string(),
        default_per_page: 2,
        page_origin: 1,
        template: JsonTemplate::parse(
            json(r#"{"members": "$_contents"}"#),
            names.into_iter().map(|n| n.to_string()).collect(),
            text.to_string(),
        )
        .unwrap(),
        items: members(),
    };
    assert!(other(vec!["_contents"], "_text").is_wf());
    assert!(!other(vec!["contents"], "_text").is_wf());
    assert!(!other(vec![], "_text").is_wf());
    assert!(!other(vec!["_contents", "more"], "_text").is_wf());
    assert!(!other(vec!["_contents"], "text").is_wf());
}

#[test]
fn a_copy_of_a_handler_answers_alike() {
    let handler = paging(None);
    let copy = handler.clone();
    assert_eq!(handler, copy);
    let query = map(vec![("page", "3")]);
    assert_eq!(handler.respond(&query), copy.respond(&query));
}

#[test]
fn a_request_that_cannot_be_read_fails_with_500() {
    assert_eq!((500, "no session".to_string()), request_failure("no session".to_string()));
    let endpoint = MockEndpoint {
        method: Method::Get,
        path: "/hello".to_string(),
        response: ResponseHandler::new_static(StatusCode::try_from(200).unwrap(), map(vec![]), "hi".to_string()),
    };
    assert_eq!(
        Response { status: 500, headers: vec![], body: "no session".to_string() },
        endpoint.reply(Err(request_failure("no session".to_string())), &map(vec![]))
    );
}

fn paging_with_headers(own: Vec<(&str, &str)>) -> ResponseHandler {
    ResponseHandler::new_paging(
        StatusCode::try_from(200).unwrap(),
        map(own),
        "page".to_string(),
        "per_page".to_string(),
        2,
        None,
        json(r#"{"members": "$_contents"}"#),
        members(),
    )
    .unwrap()
}

#[test]
fn a_content_type_of_the_handler_s_own_replaces_the_implicit_one() {
    let response = paging_with_headers(vec![("content-type", "text/plain")])
        .respond(&map(vec![]))
        .unwrap();
    assert_eq!(pairs(vec![("content-type", "text/plain")]), response.headers);

    let response = paging_with_headers(vec![("answer", "42"), ("Content-Type", "text/plain"), ("z", "1")])
        .respond(&map(vec![]))
        .unwrap();
    assert_eq!(
        pairs(vec![("content-type", "text/plain"), ("answer", "42"), ("z", "1")]),
        response.headers
    );
    let named: Vec<&(String, String)> = response
        .headers
        .iter()
        .filter(|(name, _)| name.eq_ignore_ascii_case("content-type"))
        .collect();
    assert_eq!(1, named.len());
}

#[test]
fn the_implicit_content_type_stays_where_the_handler_has_none() {
    let response = paging_with_headers(vec![("answer", "42"), ("content-length-hint", "1")])
        .respond(&map(vec![]))
        .unwrap();
    assert_eq!(
        pairs(vec![
            ("content-type", "application/json"),
            ("answer", "42"),
            ("content-length-hint", "1")
        ]),
        response.headers
    );
}

#[test]
fn a_header_that_comes_again_in_another_case_takes_the_place_of_the_first() {
    let response = paging_with_headers(vec![("X-A", "1"), ("b", "2"), ("x-a", "3")])
        .respond(&map(vec![]))
        .unwrap();
    assert_eq!(
        pairs(vec![("content-type", "application/json"), ("X-A", "3"), ("b", "2")]),
        response.headers
    );
}

#[test]
fn a_static_handler_keeps_its_own_content_type() {
    let handler = ResponseHandler::new_static(
        StatusCode::try_from(200).unwrap(),
        map(vec![("Content-Type", "text/plain")]),
        "Hello, world!".to_string(),
    );
    assert_eq!(
        pairs(vec![("Content-Type", "text/plain")]),
        handler.respond(&map(vec![])).unwrap().headers
    );
}
