//! The configuration document: paths, under each path its methods, under
//! each method the response. The document is read as YAML, its shape is
//! checked, and each response becomes a handler.
use vstd::prelude::*;
use indexmap::IndexMap;
use crate::json::{
    clone_items, from_serde, items_view, json_document, lemma_array_view, lemma_object_view,
    members_view, well_named, Json, JsonValue, Member,
};
use crate::json_template::{find_value, text_result};
use crate::method::{method_of_token, Method};
use crate::mock_endpoint::{
    endpoints_view, EndpointModel, HandlerModel, MockEndpoint, ResponseHandler, StatusCode,
};
use crate::ordered::{
    distinct_keys, entries, inserted, lemma_position_found, map_clone, map_insert, new_map,
    position_of,
    value_of,
};
use crate::text::{join2, join3, parse_usize, parsed_usize, str_eq};

verus! {

/// What `serde_yaml` reads in a text: the document as a JSON value, or the
/// message of its error.
pub uninterp spec fn yaml_document(src: Seq<char>) -> Result<JsonValue, Seq<char>>;

/// `serde_yaml::from_str` into a `serde_json::Value`; an error comes back
/// as its `to_string`.
#[verifier::external_body]
pub(crate) fn read_yaml(src: &str) -> (r: Result<serde_json::Value, String>)
    ensures
        match r {
            Ok(v) => yaml_document(src@) == Ok::<JsonValue, Seq<char>>(json_document(v)),
            Err(e) => yaml_document(src@) == Err::<JsonValue, Seq<char>>(e@),
        },
{
    serde_yaml::from_str::<serde_json::Value>(src).map_err(|e| e.to_string())
}

/// The message for a field that is not there.
pub open spec fn missing(name: Seq<char>) -> Seq<char> {
    "missing field `"@ + name + "`"@
}

/// The message for a field that holds something else than it should.
pub open spec fn mistyped(name: Seq<char>, expected: Seq<char>) -> Seq<char> {
    "invalid type for `"@ + name + "`: expected "@ + expected
}

/// The message for a field that is not there.
fn missing_message(name: &str) -> (r: String)
    ensures
        r@ == missing(name@),
{
    join3("missing field `", name, "`")
}

/// The message for a field that holds something else than it should.
fn mistyped_message(name: &str, expected: &str) -> (r: String)
    ensures
        r@ == mistyped(name@, expected@),
{
    let head = join3("invalid type for `", name, "`: expected ");
    join2(head.as_str(), expected)
}

/// The string under `name`.
pub open spec fn text_field(members: Seq<(Seq<char>, JsonValue)>, name: Seq<char>) -> Result<
    Seq<char>,
    Seq<char>,
> {
    match value_of(members, name) {
        Some(JsonValue::Str(text)) => Ok(text),
        Some(_) => Err(mistyped(name, "a string"@)),
        None => Err(missing(name)),
    }
}

/// The string under `name`.
fn read_text(members: &Vec<Member>, name: &str) -> (r: Result<String, String>)
    ensures
        text_result(r) == text_field(members_view(members@), name@),
{
    match find_value(members, name) {
        Some(Json::Str(text)) => Ok(text.clone()),
        Some(_) => Err(mistyped_message(name, "a string")),
        None => Err(missing_message(name)),
    }
}

/// The number that a JSON value spells, if it is a number that a `usize`
/// can hold.
pub open spec fn count_of(j: JsonValue, name: Seq<char>) -> Result<usize, Seq<char>> {
    match j {
        JsonValue::Number(text) => match parsed_usize(text) {
            Some(n) => Ok(n),
            None => Err(mistyped(name, "an unsigned integer"@)),
        },
        _ => Err(mistyped(name, "an unsigned integer"@)),
    }
}

/// What a result holds that carries a number.
pub open spec fn count_result(r: Result<usize, String>) -> Result<usize, Seq<char>> {
    match r {
        Ok(n) => Ok(n),
        Err(e) => Err(e@),
    }
}

/// The number that a JSON value spells.
fn read_count_of(j: &Json, name: &str) -> (r: Result<usize, String>)
    ensures
        count_result(r) == count_of(j@, name@),
{
    match j {
        Json::Number(text) => match parse_usize(text.as_str()) {
            Some(n) => Ok(n),
            None => Err(mistyped_message(name, "an unsigned integer")),
        },
        _ => Err(mistyped_message(name, "an unsigned integer")),
    }
}

/// The number under `name`.
pub open spec fn count_field(members: Seq<(Seq<char>, JsonValue)>, name: Seq<char>) -> Result<
    usize,
    Seq<char>,
> {
    match value_of(members, name) {
        Some(j) => count_of(j, name),
        None => Err(missing(name)),
    }
}

/// The number under `name`.
fn read_count(members: &Vec<Member>, name: &str) -> (r: Result<usize, String>)
    ensures
        count_result(r) == count_field(members_view(members@), name@),
{
    match find_value(members, name) {
        Some(j) => read_count_of(j, name),
        None => Err(missing_message(name)),
    }
}

/// The number under `name`, where the field may be left out or be null.
pub open spec fn optional_count_field(members: Seq<(Seq<char>, JsonValue)>, name: Seq<char>) -> Result<
    Option<usize>,
    Seq<char>,
> {
    match value_of(members, name) {
        None => Ok(None),
        Some(JsonValue::Null) => Ok(None),
        Some(j) => match count_of(j, name) {
            Ok(n) => Ok(Some(n)),
            Err(e) => Err(e),
        },
    }
}

/// What a result holds that may carry a number.
pub open spec fn optional_count_result(r: Result<Option<usize>, String>) -> Result<
    Option<usize>,
    Seq<char>,
> {
    match r {
        Ok(n) => Ok(n),
        Err(e) => Err(e@),
    }
}

/// The number under `name`, where the field may be left out or be null.
fn read_optional_count(members: &Vec<Member>, name: &str) -> (r: Result<Option<usize>, String>)
    ensures
        optional_count_result(r) == optional_count_field(members_view(members@), name@),
{
    match find_value(members, name) {
        None => Ok(None),
        Some(Json::Null) => Ok(None),
        Some(j) => match read_count_of(j, name) {
            Ok(n) => Ok(Some(n)),
            Err(e) => Err(e),
        },
    }
}

/// The status under `status`: a number that sixteen bits can hold.
pub open spec fn status_field(members: Seq<(Seq<char>, JsonValue)>) -> Result<u16, Seq<char>> {
    match count_field(members, "status"@) {
        Ok(n) => if n <= 65535 {
            Ok(n as u16)
        } else {
            Err(mistyped("status"@, "a number up to 65535"@))
        },
        Err(e) => Err(e),
    }
}

/// What a result holds that carries a status.
pub open spec fn status_result(r: Result<u16, String>) -> Result<u16, Seq<char>> {
    match r {
        Ok(n) => Ok(n),
        Err(e) => Err(e@),
    }
}

/// The status under `status`.
fn read_status(members: &Vec<Member>) -> (r: Result<u16, String>)
    ensures
        status_result(r) == status_field(members_view(members@)),
{
    match read_count(members, "status") {
        Ok(n) => {
            if n <= 65535 {
                Ok(n as u16)
            } else {
                Err(mistyped_message("status", "a number up to 65535"))
            }
        },
        Err(e) => Err(e),
    }
}

/// The first `n` members of the mapping of headers as a map filled in
/// their order; each must hold a string.
pub open spec fn header_pairs(members: Seq<(Seq<char>, JsonValue)>, n: nat) -> Result<
    Seq<(Seq<char>, Seq<char>)>,
    Seq<char>,
>
    decreases n,
{
    if n == 0 || n > members.len() {
        Ok(Seq::empty())
    } else {
        match header_pairs(members, (n - 1) as nat) {
            Err(e) => Err(e),
            Ok(earlier) => match members[n - 1].1 {
                JsonValue::Str(value) => Ok(inserted(earlier, members[n - 1].0, value)),
                _ => Err(mistyped("headers"@, "a mapping of strings"@)),
            },
        }
    }
}

proof fn lemma_header_pairs_stays(members: Seq<(Seq<char>, JsonValue)>, n: nat, m: nat)
    requires
        n <= m <= members.len(),
        header_pairs(members, n) is Err,
    ensures
        header_pairs(members, m) == header_pairs(members, n),
    decreases m,
{
    if n < m {
        lemma_header_pairs_stays(members, n, (m - 1) as nat);
    }
}

/// The headers under `headers`, where the field may be left out or be
/// null.
pub open spec fn headers_field(members: Seq<(Seq<char>, JsonValue)>) -> Result<
    Option<Seq<(Seq<char>, Seq<char>)>>,
    Seq<char>,
> {
    match value_of(members, "headers"@) {
        None => Ok(None),
        Some(JsonValue::Null) => Ok(None),
        Some(JsonValue::Object(pairs)) => match header_pairs(pairs, pairs.len()) {
            Ok(map) => Ok(Some(map)),
            Err(e) => Err(e),
        },
        Some(_) => Err(mistyped("headers"@, "a mapping of strings"@)),
    }
}

/// What a result holds that may carry headers.
pub open spec fn headers_result(r: Result<Option<IndexMap<String, String>>, String>) -> Result<
    Option<Seq<(Seq<char>, Seq<char>)>>,
    Seq<char>,
> {
    match r {
        Ok(Some(map)) => Ok(Some(entries(map))),
        Ok(None) => Ok(None),
        Err(e) => Err(e@),
    }
}

/// The headers under `headers`.
fn read_headers(members: &Vec<Member>) -> (r: Result<Option<IndexMap<String, String>>, String>)
    ensures
        headers_result(r) == headers_field(members_view(members@)),
{
    match find_value(members, "headers") {
        None => Ok(None),
        Some(Json::Null) => Ok(None),
        Some(Json::Object(pairs)) => {
            proof {
                lemma_object_view(*pairs);
            }
            let ghost pv = members_view(pairs@);
            let mut map = new_map();
            let mut i: usize = 0;
            while i < pairs.len()
                invariant
                    i <= pairs.len(),
                    pv == members_view(pairs@),
                    value_of(members_view(members@), "headers"@) == Some(JsonValue::Object(pv)),
                    header_pairs(pv, i as nat) == Ok::<Seq<(Seq<char>, Seq<char>)>, Seq<char>>(
                        entries(map),
                    ),
                decreases pairs.len() - i,
            {
                match &pairs[i].value {
                    Json::Str(value) => {
                        map_insert(&mut map, pairs[i].name.clone(), value.clone());
                    },
                    _ => {
                        proof {
                            lemma_header_pairs_stays(pv, (i + 1) as nat, pv.len());
                        }
                        return Err(mistyped_message("headers", "a mapping of strings"));
                    },
                }
                i += 1;
            }
            Ok(Some(map))
        },
        Some(_) => Err(mistyped_message("headers", "a mapping of strings")),
    }
}

/// The list under `items`.
pub open spec fn items_field(members: Seq<(Seq<char>, JsonValue)>) -> Result<
    Seq<JsonValue>,
    Seq<char>,
> {
    match value_of(members, "items"@) {
        Some(JsonValue::Array(items)) => Ok(items),
        Some(_) => Err(mistyped("items"@, "a sequence"@)),
        None => Err(missing("items"@)),
    }
}

/// What a result holds that carries a list of JSON values.
pub open spec fn items_result(r: Result<Vec<Json>, String>) -> Result<Seq<JsonValue>, Seq<char>> {
    match r {
        Ok(items) => Ok(items_view(items@)),
        Err(e) => Err(e@),
    }
}

/// The list under `items`.
fn read_items(members: &Vec<Member>) -> (r: Result<Vec<Json>, String>)
    ensures
        items_result(r) == items_field(members_view(members@)),
{
    match find_value(members, "items") {
        Some(Json::Array(items)) => {
            proof {
                lemma_array_view(*items);
            }
            Ok(clone_items(items))
        },
        Some(_) => Err(mistyped_message("items", "a sequence")),
        None => Err(missing_message("items")),
    }
}

/// The value under `template`.
pub open spec fn template_field(members: Seq<(Seq<char>, JsonValue)>) -> Result<
    JsonValue,
    Seq<char>,
> {
    match value_of(members, "template"@) {
        Some(template) => Ok(template),
        None => Err(missing("template"@)),
    }
}

/// What a result holds that carries a JSON value.
pub open spec fn json_result(r: Result<Json, String>) -> Result<JsonValue, Seq<char>> {
    match r {
        Ok(j) => Ok(j@),
        Err(e) => Err(e@),
    }
}

/// The value under `template`.
fn read_template(members: &Vec<Member>) -> (r: Result<Json, String>)
    ensures
        json_result(r) == template_field(members_view(members@)),
{
    match find_value(members, "template") {
        Some(template) => Ok(template.clone()),
        None => Err(missing_message("template")),
    }
}

/// A response as the document declares it.
#[derive(Debug, PartialEq, Eq)]
pub enum ResponseConfig {
    Static { status: u16, headers: Option<IndexMap<String, String>>, body: String },
    Paging {
        status: u16,
        headers: Option<IndexMap<String, String>>,
        page_param: String,
        per_page_param: String,
        default_per_page: usize,
        page_origin: Option<usize>,
        template: Json,
        items: Vec<Json>,
    },
}

/// The model of a [`ResponseConfig`].
pub enum ResponseConfigModel {
    Static { status: u16, headers: Option<Seq<(Seq<char>, Seq<char>)>>, body: Seq<char> },
    Paging {
        status: u16,
        headers: Option<Seq<(Seq<char>, Seq<char>)>>,
        page_param: Seq<char>,
        per_page_param: Seq<char>,
        default_per_page: usize,
        page_origin: Option<usize>,
        template: JsonValue,
        items: Seq<JsonValue>,
    },
}

/// What a map holds that may be left out.
pub open spec fn optional_entries(map: Option<IndexMap<String, String>>) -> Option<
    Seq<(Seq<char>, Seq<char>)>,
> {
    match map {
        Some(m) => Some(entries(m)),
        None => None,
    }
}

impl View for ResponseConfig {
    type V = ResponseConfigModel;

    open spec fn view(&self) -> ResponseConfigModel {
        match self {
            ResponseConfig::Static { status, headers, body } => ResponseConfigModel::Static {
                status: *status,
                headers: optional_entries(*headers),
                body: body@,
            },
            ResponseConfig::Paging {
                status,
                headers,
                page_param,
                per_page_param,
                default_per_page,
                page_origin,
                template,
                items,
            } => ResponseConfigModel::Paging {
                status: *status,
                headers: optional_entries(*headers),
                page_param: page_param@,
                per_page_param: per_page_param@,
                default_per_page: *default_per_page,
                page_origin: *page_origin,
                template: template@,
                items: items_view(items@),
            },
        }
    }
}

/// What a result holds that carries a declared response.
pub open spec fn response_result(r: Result<ResponseConfig, String>) -> Result<
    ResponseConfigModel,
    Seq<char>,
> {
    match r {
        Ok(config) => Ok(config@),
        Err(e) => Err(e@),
    }
}

/// The static response that the members of a mapping declare: `status`,
/// `headers` and `body` are read in this order, and the first fault is
/// the error.
pub open spec fn static_config(members: Seq<(Seq<char>, JsonValue)>) -> Result<
    ResponseConfigModel,
    Seq<char>,
> {
    match status_field(members) {
        Err(e) => Err(e),
        Ok(status) => match headers_field(members) {
            Err(e) => Err(e),
            Ok(headers) => match text_field(members, "body"@) {
                Err(e) => Err(e),
                Ok(body) => Ok(ResponseConfigModel::Static { status, headers, body }),
            },
        },
    }
}

/// The paging response that the members of a mapping declare: `status`,
/// `headers`, `page_param`, `per_page_param`, `default_per_page`,
/// `page_origin`, `template` and `items` are read in this order, and the
/// first fault is the error.
pub open spec fn paging_config(members: Seq<(Seq<char>, JsonValue)>) -> Result<
    ResponseConfigModel,
    Seq<char>,
> {
    match status_field(members) {
        Err(e) => Err(e),
        Ok(status) => match headers_field(members) {
            Err(e) => Err(e),
            Ok(headers) => match text_field(members, "page_param"@) {
                Err(e) => Err(e),
                Ok(page_param) => match text_field(members, "per_page_param"@) {
                    Err(e) => Err(e),
                    Ok(per_page_param) => match count_field(members, "default_per_page"@) {
                        Err(e) => Err(e),
                        Ok(default_per_page) => match optional_count_field(
                            members,
                            "page_origin"@,
                        ) {
                            Err(e) => Err(e),
                            Ok(page_origin) => match template_field(members) {
                                Err(e) => Err(e),
                                Ok(template) => match items_field(members) {
                                    Err(e) => Err(e),
                                    Ok(items) => Ok(
                                        ResponseConfigModel::Paging {
                                            status,
                                            headers,
                                            page_param,
                                            per_page_param,
                                            default_per_page,
                                            page_origin,
                                            template,
                                            items,
                                        },
                                    ),
                                },
                            },
                        },
                    },
                },
            },
        },
    }
}

/// The response that a JSON value declares: a mapping whose `type` says
/// `static` or `paging`.
pub open spec fn response_config(j: JsonValue) -> Result<ResponseConfigModel, Seq<char>> {
    match j {
        JsonValue::Object(members) => match text_field(members, "type"@) {
            Err(e) => Err(e),
            Ok(kind) => if kind == "static"@ {
                static_config(members)
            } else if kind == "paging"@ {
                paging_config(members)
            } else {
                Err("unknown response type: "@ + kind)
            },
        },
        _ => Err(mistyped("response"@, "a mapping"@)),
    }
}

fn read_static(members: &Vec<Member>) -> (r: Result<ResponseConfig, String>)
    ensures
        response_result(r) == static_config(members_view(members@)),
{
    let status = match read_status(members) {
        Ok(v) => v,
        Err(e) => {
            return Err(e);
        },
    };
    let headers = match read_headers(members) {
        Ok(v) => v,
        Err(e) => {
            return Err(e);
        },
    };
    let body = match read_text(members, "body") {
        Ok(v) => v,
        Err(e) => {
            return Err(e);
        },
    };
    Ok(ResponseConfig::Static { status, headers, body })
}

fn read_paging(members: &Vec<Member>) -> (r: Result<ResponseConfig, String>)
    ensures
        response_result(r) == paging_config(members_view(members@)),
{
    let status = match read_status(members) {
        Ok(v) => v,
        Err(e) => {
            return Err(e);
        },
    };
    let headers = match read_headers(members) {
        Ok(v) => v,
        Err(e) => {
            return Err(e);
        },
    };
    let page_param = match read_text(members, "page_param") {
        Ok(v) => v,
        Err(e) => {
            return Err(e);
        },
    };
    let per_page_param = match read_text(members, "per_page_param") {
        Ok(v) => v,
        Err(e) => {
            return Err(e);
        },
    };
    let default_per_page = match read_count(members, "default_per_page") {
        Ok(v) => v,
        Err(e) => {
            return Err(e);
        },
    };
    let page_origin = match read_optional_count(members, "page_origin") {
        Ok(v) => v,
        Err(e) => {
            return Err(e);
        },
    };
    let template = match read_template(members) {
        Ok(v) => v,
        Err(e) => {
            return Err(e);
        },
    };
    let items = match read_items(members) {
        Ok(v) => v,
        Err(e) => {
            return Err(e);
        },
    };
    Ok(
        ResponseConfig::Paging {
            status,
            headers,
            page_param,
            per_page_param,
            default_per_page,
            page_origin,
            template,
            items,
        },
    )
}

/// Reads the response that a JSON value declares.
pub fn read_response(j: &Json) -> (r: Result<ResponseConfig, String>)
    ensures
        response_result(r) == response_config(j@),
{
    match j {
        Json::Object(members) => {
            proof {
                lemma_object_view(*members);
            }
            let kind = match read_text(members, "type") {
                Ok(v) => v,
                Err(e) => {
                    return Err(e);
                },
            };
            if str_eq(kind.as_str(), "static") {
                read_static(members)
            } else if str_eq(kind.as_str(), "paging") {
                read_paging(members)
            } else {
                Err(join2("unknown response type: ", kind.as_str()))
            }
        },
        _ => Err(mistyped_message("response", "a mapping")),
    }
}

/// A route as the document declares it.
#[derive(Debug, PartialEq, Eq)]
pub struct RouteConfig {
    pub path: String,
    pub method: Method,
    pub response: ResponseConfig,
}

/// The model of a [`RouteConfig`].
pub struct RouteConfigModel {
    pub path: Seq<char>,
    pub method: Method,
    pub response: ResponseConfigModel,
}

impl View for RouteConfig {
    type V = RouteConfigModel;

    open spec fn view(&self) -> RouteConfigModel {
        RouteConfigModel { path: self.path@, method: self.method, response: self.response@ }
    }
}

/// The models of a list of declared routes, in order.
pub open spec fn routes_view(routes: Seq<RouteConfig>) -> Seq<RouteConfigModel> {
    Seq::new(routes.len(), |i: int| routes[i]@)
}

/// What a result holds that carries declared routes.
pub open spec fn routes_result(r: Result<Vec<RouteConfig>, String>) -> Result<
    Seq<RouteConfigModel>,
    Seq<char>,
> {
    match r {
        Ok(routes) => Ok(routes_view(routes@)),
        Err(e) => Err(e@),
    }
}

/// The response that the value under a method declares: a mapping with
/// the response under `response`.
pub open spec fn endpoint_config(j: JsonValue) -> Result<ResponseConfigModel, Seq<char>> {
    match j {
        JsonValue::Object(members) => match value_of(members, "response"@) {
            Some(response) => response_config(response),
            None => Err(missing("response"@)),
        },
        _ => Err(mistyped("endpoint"@, "a mapping"@)),
    }
}

/// The routes that the first `n` methods of a path declare, in their
/// order, or the first fault.
pub open spec fn method_routes(path: Seq<char>, methods: Seq<(Seq<char>, JsonValue)>, n: nat) -> Result<
    Seq<RouteConfigModel>,
    Seq<char>,
>
    decreases n,
{
    if n == 0 || n > methods.len() {
        Ok(Seq::empty())
    } else {
        match method_routes(path, methods, (n - 1) as nat) {
            Err(e) => Err(e),
            Ok(earlier) => match method_of_token(methods[n - 1].0) {
                None => Err("unknown method: "@ + methods[n - 1].0),
                Some(method) => match endpoint_config(methods[n - 1].1) {
                    Err(e) => Err(e),
                    Ok(response) => Ok(earlier.push(RouteConfigModel { path, method, response })),
                },
            },
        }
    }
}

/// The routes that the first `n` paths declare, path after path, or the
/// first fault.
pub open spec fn path_routes(paths: Seq<(Seq<char>, JsonValue)>, n: nat) -> Result<
    Seq<RouteConfigModel>,
    Seq<char>,
>
    decreases n,
{
    if n == 0 || n > paths.len() {
        Ok(Seq::empty())
    } else {
        match path_routes(paths, (n - 1) as nat) {
            Err(e) => Err(e),
            Ok(earlier) => match paths[n - 1].1 {
                JsonValue::Object(methods) => match method_routes(
                    paths[n - 1].0,
                    methods,
                    methods.len(),
                ) {
                    Err(e) => Err(e),
                    Ok(routes) => Ok(earlier + routes),
                },
                _ => Err(mistyped(paths[n - 1].0, "a mapping of methods"@)),
            },
        }
    }
}

/// The routes that a document declares: a mapping with the paths under
/// `paths`, under each path its methods, under each method the response.
/// The routes come path after path and, under one path, method after
/// method, as the document has them.
pub open spec fn decoded(document: JsonValue) -> Result<Seq<RouteConfigModel>, Seq<char>> {
    match document {
        JsonValue::Object(members) => match value_of(members, "paths"@) {
            Some(JsonValue::Object(paths)) => path_routes(paths, paths.len()),
            Some(_) => Err(mistyped("paths"@, "a mapping"@)),
            None => Err(missing("paths"@)),
        },
        _ => Err(mistyped("document"@, "a mapping"@)),
    }
}

proof fn lemma_method_routes_stays(
    path: Seq<char>,
    methods: Seq<(Seq<char>, JsonValue)>,
    n: nat,
    m: nat,
)
    requires
        n <= m <= methods.len(),
        method_routes(path, methods, n) is Err,
    ensures
        method_routes(path, methods, m) == method_routes(path, methods, n),
    decreases m,
{
    if n < m {
        lemma_method_routes_stays(path, methods, n, (m - 1) as nat);
    }
}

proof fn lemma_path_routes_stays(paths: Seq<(Seq<char>, JsonValue)>, n: nat, m: nat)
    requires
        n <= m <= paths.len(),
        path_routes(paths, n) is Err,
    ensures
        path_routes(paths, m) == path_routes(paths, n),
    decreases m,
{
    if n < m {
        lemma_path_routes_stays(paths, n, (m - 1) as nat);
    }
}

/// Reads the response under a method.
fn read_endpoint(j: &Json) -> (r: Result<ResponseConfig, String>)
    ensures
        response_result(r) == endpoint_config(j@),
{
    match j {
        Json::Object(members) => {
            proof {
                lemma_object_view(*members);
            }
            match find_value(members, "response") {
                Some(response) => read_response(response),
                None => Err(missing_message("response")),
            }
        },
        _ => Err(mistyped_message("endpoint", "a mapping")),
    }
}

/// Reads the routes of one path and puts them behind `out`.
fn read_methods(path: &str, methods: &Vec<Member>, out: &mut Vec<RouteConfig>) -> (r: Result<
    (),
    String,
>)
    ensures
        match r {
            Ok(_) => method_routes(path@, members_view(methods@), methods.len() as nat) is Ok
                && routes_view(final(out)@) == routes_view(old(out)@) + method_routes(
                path@,
                members_view(methods@),
                methods.len() as nat,
            )->Ok_0,
            Err(e) => method_routes(path@, members_view(methods@), methods.len() as nat) == Err::<
                Seq<RouteConfigModel>,
                Seq<char>,
            >(e@),
        },
{
    let ghost mv = members_view(methods@);
    let ghost start = routes_view(out@);
    let mut i: usize = 0;
    assert(routes_view(out@) =~= start + Seq::<RouteConfigModel>::empty());
    while i < methods.len()
        invariant
            i <= methods.len(),
            mv == members_view(methods@),
            method_routes(path@, mv, i as nat) is Ok,
            routes_view(out@) == start + method_routes(path@, mv, i as nat)->Ok_0,
        decreases methods.len() - i,
    {
        let method = match Method::try_from(methods[i].name.as_str()) {
            Ok(method) => method,
            Err(e) => {
                proof {
                    lemma_method_routes_stays(path@, mv, (i + 1) as nat, mv.len());
                }
                return Err(e);
            },
        };
        let response = match read_endpoint(&methods[i].value) {
            Ok(response) => response,
            Err(e) => {
                proof {
                    lemma_method_routes_stays(path@, mv, (i + 1) as nat, mv.len());
                }
                return Err(e);
            },
        };
        let ghost before = out@;
        let route = RouteConfig { path: path.to_owned(), method, response };
        let ghost model = route@;
        out.push(route);
        proof {
            assert(routes_view(out@) =~= routes_view(before).push(model));
            assert(routes_view(before).push(model) =~= start + method_routes(
                path@,
                mv,
                i as nat,
            )->Ok_0.push(model));
        }
        i += 1;
    }
    Ok(())
}

/// Reads the routes that a document declares.
pub fn decode_config(document: &Json) -> (r: Result<Vec<RouteConfig>, String>)
    ensures
        routes_result(r) == decoded(document@),
{
    let members = match document {
        Json::Object(members) => members,
        _ => {
            return Err(mistyped_message("document", "a mapping"));
        },
    };
    proof {
        lemma_object_view(*members);
    }
    let paths = match find_value(members, "paths") {
        Some(Json::Object(paths)) => paths,
        Some(_) => {
            return Err(mistyped_message("paths", "a mapping"));
        },
        None => {
            return Err(missing_message("paths"));
        },
    };
    proof {
        lemma_object_view(*paths);
    }
    let ghost pv = members_view(paths@);
    let mut out: Vec<RouteConfig> = Vec::new();
    let mut i: usize = 0;
    assert(routes_view(out@) =~= Seq::<RouteConfigModel>::empty());
    while i < paths.len()
        invariant
            i <= paths.len(),
            pv == members_view(paths@),
            decoded(document@) == path_routes(pv, pv.len()),
            path_routes(pv, i as nat) == Ok::<Seq<RouteConfigModel>, Seq<char>>(
                routes_view(out@),
            ),
        decreases paths.len() - i,
    {
        match &paths[i].value {
            Json::Object(methods) => {
                proof {
                    lemma_object_view(*methods);
                }
                match read_methods(paths[i].name.as_str(), methods, &mut out) {
                    Ok(_) => {},
                    Err(e) => {
                        proof {
                            lemma_path_routes_stays(pv, (i + 1) as nat, pv.len());
                        }
                        return Err(e);
                    },
                }
            },
            _ => {
                proof {
                    lemma_path_routes_stays(pv, (i + 1) as nat, pv.len());
                }
                return Err(mistyped_message(paths[i].name.as_str(), "a mapping of methods"));
            },
        }
        i += 1;
    }
    Ok(out)
}

/// The headers that were declared, or none where they were left out.
pub open spec fn declared_headers(headers: Option<Seq<(Seq<char>, Seq<char>)>>) -> Seq<
    (Seq<char>, Seq<char>),
> {
    match headers {
        Some(pairs) => pairs,
        None => Seq::empty(),
    }
}

/// The handler for a declared response. The status must be a status code,
/// from 100 to 599; headers that were left out are none; pages are
/// counted from 1 where no origin was declared.
pub open spec fn handler_of(config: ResponseConfigModel) -> Result<HandlerModel, Seq<char>> {
    match config {
        ResponseConfigModel::Static { status, headers, body } => if 100 <= status <= 599 {
            Ok(HandlerModel::Static { status, headers: declared_headers(headers), body })
        } else {
            Err("invalid status code"@)
        },
        ResponseConfigModel::Paging {
            status,
            headers,
            page_param,
            per_page_param,
            default_per_page,
            page_origin,
            template,
            items,
        } => if 100 <= status <= 599 {
            Ok(
                HandlerModel::Paging {
                    status,
                    headers: declared_headers(headers),
                    page_param,
                    per_page_param,
                    default_per_page,
                    page_origin: match page_origin {
                        Some(origin) => origin,
                        None => 1usize,
                    },
                    template,
                    items,
                },
            )
        } else {
            Err("invalid status code"@)
        },
    }
}

/// The routes for the first `n` declared routes, in their order, or the
/// fault of the first that has one.
pub open spec fn built(routes: Seq<RouteConfigModel>, n: nat) -> Result<
    Seq<EndpointModel>,
    Seq<char>,
>
    decreases n,
{
    if n == 0 || n > routes.len() {
        Ok(Seq::empty())
    } else {
        match built(routes, (n - 1) as nat) {
            Err(e) => Err(e),
            Ok(earlier) => match handler_of(routes[n - 1].response) {
                Err(e) => Err(e),
                Ok(response) => Ok(
                    earlier.push(
                        EndpointModel {
                            method: routes[n - 1].method,
                            path: routes[n - 1].path,
                            response,
                        },
                    ),
                ),
            },
        }
    }
}

proof fn lemma_built_stays(routes: Seq<RouteConfigModel>, n: nat, m: nat)
    requires
        n <= m <= routes.len(),
        built(routes, n) is Err,
    ensures
        built(routes, m) == built(routes, n),
    decreases m,
{
    if n < m {
        lemma_built_stays(routes, n, (m - 1) as nat);
    }
}

/// The routes that a document declares, each with its handler: the
/// document's shape is checked as a whole first, then the handlers are
/// made route after route.
pub open spec fn configured(document: JsonValue) -> Result<Seq<EndpointModel>, Seq<char>> {
    match decoded(document) {
        Err(e) => Err(e),
        Ok(routes) => built(routes, routes.len()),
    }
}

/// The routes that a configuration text declares.
pub open spec fn parsed(src: Seq<char>) -> Result<Seq<EndpointModel>, Seq<char>> {
    match yaml_document(src) {
        Err(e) => Err(e),
        Ok(document) => configured(document),
    }
}

/// What a result holds that carries a handler.
pub open spec fn handler_result(r: Result<ResponseHandler, String>) -> Result<
    HandlerModel,
    Seq<char>,
> {
    match r {
        Ok(handler) => Ok(handler@),
        Err(e) => Err(e@),
    }
}

/// What a result holds that carries routes.
pub open spec fn endpoints_result(r: Result<Vec<MockEndpoint>, String>) -> Result<
    Seq<EndpointModel>,
    Seq<char>,
> {
    match r {
        Ok(endpoints) => Ok(endpoints_view(endpoints@)),
        Err(e) => Err(e@),
    }
}

/// Whether every route's handler is well formed.
pub open spec fn handlers_wf(endpoints: Seq<MockEndpoint>) -> bool {
    forall|i: int| 0 <= i < endpoints.len() ==> (#[trigger] endpoints[i]).response.wf()
}

/// The declared headers as a map; an empty map where none were declared.
fn headers_or_none(headers: &Option<IndexMap<String, String>>) -> (r: IndexMap<String, String>)
    ensures
        entries(r) == declared_headers(optional_entries(*headers)),
{
    match headers {
        Some(map) => map_clone(map),
        None => new_map(),
    }
}

/// Makes the handler for a declared response.
pub fn build_handler(config: &ResponseConfig) -> (r: Result<ResponseHandler, String>)
    ensures
        handler_result(r) == handler_of(config@),
        r is Ok ==> r->Ok_0.wf(),
{
    match config {
        ResponseConfig::Static { status, headers, body } => {
            let code = match StatusCode::try_from(*status) {
                Ok(code) => code,
                Err(e) => {
                    return Err(e);
                },
            };
            Ok(ResponseHandler::new_static(code, headers_or_none(headers), body.clone()))
        },
        ResponseConfig::Paging {
            status,
            headers,
            page_param,
            per_page_param,
            default_per_page,
            page_origin,
            template,
            items,
        } => {
            let code = match StatusCode::try_from(*status) {
                Ok(code) => code,
                Err(e) => {
                    return Err(e);
                },
            };
            ResponseHandler::new_paging(
                code,
                headers_or_none(headers),
                page_param.clone(),
                per_page_param.clone(),
                *default_per_page,
                *page_origin,
                template.clone(),
                clone_items(items),
            )
        },
    }
}

/// Makes the routes for the declared routes, in their order. The first
/// response that gives no handler is the error.
pub fn build_endpoints(routes: &Vec<RouteConfig>) -> (r: Result<Vec<MockEndpoint>, String>)
    ensures
        endpoints_result(r) == built(routes_view(routes@), routes.len() as nat),
        r is Ok ==> handlers_wf(r->Ok_0@),
{
    let ghost rv = routes_view(routes@);
    let mut out: Vec<MockEndpoint> = Vec::new();
    let mut i: usize = 0;
    assert(endpoints_view(out@) =~= Seq::<EndpointModel>::empty());
    while i < routes.len()
        invariant
            i <= routes.len(),
            rv == routes_view(routes@),
            built(rv, i as nat) == Ok::<Seq<EndpointModel>, Seq<char>>(endpoints_view(out@)),
            handlers_wf(out@),
        decreases routes.len() - i,
    {
        let route = &routes[i];
        assert(rv[i as int] == route@);
        let response = match build_handler(&route.response) {
            Ok(response) => response,
            Err(e) => {
                proof {
                    lemma_built_stays(rv, (i + 1) as nat, rv.len());
                }
                return Err(e);
            },
        };
        let ghost before = out@;
        let endpoint = MockEndpoint { method: route.method, path: route.path.clone(), response };
        let ghost model = endpoint@;
        out.push(endpoint);
        proof {
            assert(endpoints_view(out@) =~= endpoints_view(before).push(model));
            assert forall|k: int| 0 <= k < out@.len() implies (#[trigger] out@[k]).response.wf() by {
                if k < before.len() {
                    assert(out@[k] == before[k]);
                }
            }
        }
        i += 1;
    }
    Ok(out)
}

/// No two declared routes have the same path and the same method.
pub open spec fn distinct_routes(routes: Seq<RouteConfigModel>) -> bool {
    forall|i: int, j: int|
        0 <= i < j < routes.len() ==> !(routes[i].path == routes[j].path && routes[i].method
            == routes[j].method)
}

/// No two routes have the same path and the same method.
pub open spec fn distinct_endpoints(endpoints: Seq<EndpointModel>) -> bool {
    forall|i: int, j: int|
        0 <= i < j < endpoints.len() ==> !(endpoints[i].path == endpoints[j].path
            && endpoints[i].method == endpoints[j].method)
}

proof fn lemma_method_routes_shape(path: Seq<char>, methods: Seq<(Seq<char>, JsonValue)>, n: nat)
    requires
        n <= methods.len(),
        method_routes(path, methods, n) is Ok,
    ensures
        method_routes(path, methods, n)->Ok_0.len() == n,
        forall|k: int|
            0 <= k < n ==> (#[trigger] method_routes(path, methods, n)->Ok_0[k]).path == path
                && methods[k].0 == method_routes(path, methods, n)->Ok_0[k].method.token(),
    decreases n,
{
    if n > 0 {
        lemma_method_routes_shape(path, methods, (n - 1) as nat);
    }
}

/// The first `n` path names.
pub open spec fn path_names(paths: Seq<(Seq<char>, JsonValue)>, n: nat) -> Set<Seq<char>> {
    Set::new(|name: Seq<char>| exists|k: int| 0 <= k < n && (#[trigger] paths[k]).0 == name)
}

proof fn lemma_path_routes_distinct(paths: Seq<(Seq<char>, JsonValue)>, n: nat)
    requires
        n <= paths.len(),
        distinct_keys(paths),
        forall|i: int| 0 <= i < paths.len() ==> well_named((#[trigger] paths[i]).1),
        path_routes(paths, n) is Ok,
    ensures
        distinct_routes(path_routes(paths, n)->Ok_0),
        forall|k: int|
            0 <= k < path_routes(paths, n)->Ok_0.len() ==> path_names(paths, n).contains(
                (#[trigger] path_routes(paths, n)->Ok_0[k]).path,
            ),
    decreases n,
{
    if n > 0 {
        lemma_path_routes_distinct(paths, (n - 1) as nat);
        let earlier = path_routes(paths, (n - 1) as nat)->Ok_0;
        let path = paths[n - 1].0;
        assert(well_named(paths[n - 1].1));
        let methods = paths[n - 1].1->Object_0;
        let added = method_routes(path, methods, methods.len())->Ok_0;
        lemma_method_routes_shape(path, methods, methods.len());
        let all = path_routes(paths, n)->Ok_0;
        assert(all == earlier + added);
        assert forall|k: int| 0 <= k < all.len() implies path_names(paths, n).contains(
            (#[trigger] all[k]).path,
        ) by {
            if k < earlier.len() {
                assert(all[k] == earlier[k]);
                assert(path_names(paths, (n - 1) as nat).contains(earlier[k].path));
                let w = choose|w: int| 0 <= w < n - 1 && (#[trigger] paths[w]).0 == earlier[k].path;
                assert(paths[w].0 == all[k].path);
            } else {
                assert(all[k] == added[k - earlier.len()]);
                assert(paths[n - 1].0 == all[k].path);
            }
        }
        assert forall|i: int, j: int| 0 <= i < j < all.len() implies !(all[i].path == all[j].path
            && all[i].method == all[j].method) by {
            if j < earlier.len() {
                assert(all[i] == earlier[i] && all[j] == earlier[j]);
            } else if i < earlier.len() {
                assert(all[i] == earlier[i]);
                assert(all[j] == added[j - earlier.len()]);
                assert(path_names(paths, (n - 1) as nat).contains(earlier[i].path));
                let w = choose|w: int| 0 <= w < n - 1 && (#[trigger] paths[w]).0 == earlier[i].path;
                assert(paths[w].0 != paths[n - 1].0);
            } else {
                let a = i - earlier.len();
                let b = j - earlier.len();
                assert(all[i] == added[a] && all[j] == added[b]);
                assert(methods[a].0 != methods[b].0);
            }
        }
    }
}

/// A document in which no object has a name twice declares no route
/// twice: no two of its routes have the same path and the same method.
pub proof fn lemma_decoded_distinct(document: JsonValue)
    requires
        well_named(document),
        decoded(document) is Ok,
    ensures
        distinct_routes(decoded(document)->Ok_0),
{
    let members = document->Object_0;
    lemma_position_found(members, "paths"@, 0);
    let i = position_of(members, "paths"@)->Some_0;
    assert(well_named(members[i].1));
    let paths = members[i].1->Object_0;
    lemma_path_routes_distinct(paths, paths.len());
}

proof fn lemma_built_shape(routes: Seq<RouteConfigModel>, n: nat)
    requires
        n <= routes.len(),
        built(routes, n) is Ok,
    ensures
        built(routes, n)->Ok_0.len() == n,
        forall|k: int|
            0 <= k < n ==> (#[trigger] built(routes, n)->Ok_0[k]).path == routes[k].path && built(
                routes,
                n,
            )->Ok_0[k].method == routes[k].method,
    decreases n,
{
    if n > 0 {
        lemma_built_shape(routes, (n - 1) as nat);
    }
}

/// A document in which no object has a name twice gives no route twice:
/// no two of the routes made of it have the same path and the same
/// method.
pub proof fn lemma_configured_distinct(document: JsonValue)
    requires
        well_named(document),
        configured(document) is Ok,
    ensures
        distinct_endpoints(configured(document)->Ok_0),
{
    lemma_decoded_distinct(document);
    let routes = decoded(document)->Ok_0;
    lemma_built_shape(routes, routes.len());
    let endpoints = configured(document)->Ok_0;
    assert forall|i: int, j: int| 0 <= i < j < endpoints.len() implies !(endpoints[i].path
        == endpoints[j].path && endpoints[i].method == endpoints[j].method) by {
        assert(endpoints[i].path == routes[i].path && endpoints[i].method == routes[i].method);
        assert(endpoints[j].path == routes[j].path && endpoints[j].method == routes[j].method);
    }
}

/// Makes the routes that a document declares.
pub fn read_config(document: &Json) -> (r: Result<Vec<MockEndpoint>, String>)
    ensures
        endpoints_result(r) == configured(document@),
        r is Ok ==> handlers_wf(r->Ok_0@),
        r is Ok && well_named(document@) ==> distinct_endpoints(endpoints_view(r->Ok_0@)),
{
    proof {
        if well_named(document@) && configured(document@) is Ok {
            lemma_configured_distinct(document@);
        }
    }
    match decode_config(document) {
        Ok(routes) => build_endpoints(&routes),
        Err(e) => Err(e),
    }
}

/// Reads a configuration text: YAML, with the paths under `paths`, under
/// each path its methods, under each method the response. The routes
/// come in the order of the document. Any fault fails the whole text
/// with its message, and the first fault wins.
pub fn parse_config(src: &str) -> (r: Result<Vec<MockEndpoint>, String>)
    ensures
        endpoints_result(r) == parsed(src@),
        r is Ok ==> handlers_wf(r->Ok_0@),
        r is Ok ==> distinct_endpoints(endpoints_view(r->Ok_0@)),
{
    match read_yaml(src) {
        Ok(value) => {
            let document = from_serde(&value);
            read_config(&document)
        },
        Err(e) => Err(e),
    }
}

} // verus!
