//! Mock routes and their response handlers: a static reply, or one page
//! of a list of items put into a JSON template.
use vstd::prelude::*;
use indexmap::IndexMap;
use crate::json::{
    clone_items, items_view, json_text, lemma_array_view, members_view, normal_form, serde_text, to_serde, Json,
    JsonValue, Member,
};
use crate::json_template::{expanded, JsonTemplate};
use crate::method::Method;
use crate::ordered::{
    confirm_distinct, distinct_keys, entries, inserted, lemma_inserted_distinct, map_clone, map_get, map_insert,
    map_pairs, new_map, pairs_view, value_of,
};
use crate::request_logger::{
    well_keyed, LoggerError, LoggerErrorModel, RequestLog, RequestLogModel, Timestamp,
};
use crate::text::{chars_of, parse_usize, parsed_usize, str_eq};

verus! {

/// An HTTP status code: a number from 100 to 599.
#[derive(Clone, Copy, Debug, PartialEq, Eq)]
pub struct StatusCode(u16);

impl StatusCode {
    /// The code is in the range of HTTP status codes.
    #[verifier::type_invariant]
    closed spec fn in_range(self) -> bool {
        100 <= self.0 <= 599
    }

    /// The code's number.
    pub closed spec fn code(self) -> u16 {
        self.0
    }

    /// Takes a number from 100 to 599 as a status code and refuses any
    /// other.
    pub fn try_from(value: u16) -> (r: Result<StatusCode, String>)
        ensures
            match r {
                Ok(status) => 100 <= value <= 599 && status.code() == value,
                Err(e) => !(100 <= value <= 599) && e@ == "invalid status code"@,
            },
    {
        if 100 <= value && value <= 599 {
            Ok(StatusCode(value))
        } else {
            Err("invalid status code".to_owned())
        }
    }

    /// The code's number.
    pub fn as_u16(&self) -> (r: u16)
        ensures
            r == self.code(),
            100 <= r <= 599,
    {
        proof {
            use_type_invariant(self);
        }
        self.0
    }
}

/// A reply of a mock route: status, headers in order, and body.
#[derive(Clone, Debug, PartialEq, Eq)]
pub struct Response {
    pub status: u16,
    pub headers: Vec<(String, String)>,
    pub body: String,
}

/// The model of a [`Response`].
pub struct ResponseModel {
    pub status: u16,
    pub headers: Seq<(Seq<char>, Seq<char>)>,
    pub body: Seq<char>,
}

impl View for Response {
    type V = ResponseModel;

    open spec fn view(&self) -> ResponseModel {
        ResponseModel { status: self.status, headers: pairs_view(self.headers@), body: self.body@ }
    }
}

/// Why the HTTP library refuses a header with this name and this value, if
/// it does: the message of its error.
pub uninterp spec fn header_fault(name: Seq<char>, value: Seq<char>) -> Option<Seq<char>>;

/// Asks `http` whether a response can carry the header: a response
/// builder is given the header by `Builder::header` and finished by
/// `Builder::body`; the error's `to_string` comes back if there is one.
#[verifier::external_body]
pub(crate) fn check_header(name: &str, value: &str) -> (r: Option<String>)
    ensures
        match r {
            Some(message) => header_fault(name@, value@) == Some(message@),
            None => header_fault(name@, value@) is None,
        },
{
    axum::http::Response::builder().header(name, value).body(()).err().map(|e| e.to_string())
}

/// The fault of the first of the first `n` headers that has one.
pub open spec fn headers_fault(headers: Seq<(Seq<char>, Seq<char>)>, n: nat) -> Option<Seq<char>>
    decreases n,
{
    if n == 0 || n > headers.len() {
        None
    } else {
        match headers_fault(headers, (n - 1) as nat) {
            Some(message) => Some(message),
            None => header_fault(headers[n - 1].0, headers[n - 1].1),
        }
    }
}

proof fn lemma_headers_fault_stays(headers: Seq<(Seq<char>, Seq<char>)>, n: nat, m: nat)
    requires
        n <= m <= headers.len(),
        headers_fault(headers, n) is Some,
    ensures
        headers_fault(headers, m) == headers_fault(headers, n),
    decreases m,
{
    if n < m {
        lemma_headers_fault_stays(headers, n, (m - 1) as nat);
    }
}

/// The number that the query gives under `param`, or `default` where the
/// query has no such parameter or its value is no number.
pub open spec fn number_or(query: Seq<(Seq<char>, Seq<char>)>, param: Seq<char>, default: usize) -> usize {
    match value_of(query, param) {
        Some(text) => match parsed_usize(text) {
            Some(n) => n,
            None => default,
        },
        None => default,
    }
}

/// The items of page `page`, where pages are counted from `origin` and
/// hold `per_page` items each. A page before the first, and a page behind
/// the last item, is empty.
pub open spec fn page_window<T>(items: Seq<T>, page: int, origin: int, per_page: int) -> Seq<T> {
    let offset = (page - origin) * per_page;
    if page < origin || per_page <= 0 || offset >= items.len() {
        Seq::empty()
    } else if offset + per_page >= items.len() {
        items.subrange(offset, items.len() as int)
    } else {
        items.subrange(offset, offset + per_page)
    }
}

/// The values that a paging handler expands its template with: the page's
/// items as an array, under the name `_contents`.
pub open spec fn paging_values(window: Seq<JsonValue>) -> Seq<(Seq<char>, JsonValue)> {
    seq![("_contents"@, JsonValue::Array(window))]
}

/// The header that a paging handler puts before its own.
pub open spec fn json_content_type() -> (Seq<char>, Seq<char>) {
    ("content-type"@, "application/json"@)
}

/// The number of a character, that of its small letter for a capital
/// letter of ASCII.
pub open spec fn lower_code(c: char) -> u32 {
    if 'A' <= c && c <= 'Z' {
        (c as u32 + 32) as u32
    } else {
        c as u32
    }
}

/// Whether two header names are the same name: the same characters,
/// without regard to the case of ASCII letters.
pub open spec fn same_name(a: Seq<char>, b: Seq<char>) -> bool {
    a.len() == b.len() && forall|i: int| 0 <= i < a.len() ==> lower_code(#[trigger] a[i])
        == lower_code(b[i])
}

/// The position of the first of `headers[from..]` that has the name
/// `name`.
pub open spec fn header_position(headers: Seq<(Seq<char>, Seq<char>)>, name: Seq<char>, from: int) -> Option<
    int,
>
    decreases headers.len() - from,
{
    if from < 0 || from >= headers.len() {
        None
    } else if same_name(headers[from].0, name) {
        Some(from)
    } else {
        header_position(headers, name, from + 1)
    }
}

/// `headers` after the header `name` was given `value`: a name that is
/// there keeps its place and takes the new value, a new name goes to the
/// end.
pub open spec fn header_put(headers: Seq<(Seq<char>, Seq<char>)>, name: Seq<char>, value: Seq<char>) -> Seq<
    (Seq<char>, Seq<char>),
> {
    match header_position(headers, name, 0) {
        Some(i) => headers.update(i, (headers[i].0, value)),
        None => headers.push((name, value)),
    }
}

/// `base` after the first `n` of `own` were put into it, one after
/// another.
pub open spec fn headers_onto(
    base: Seq<(Seq<char>, Seq<char>)>,
    own: Seq<(Seq<char>, Seq<char>)>,
    n: nat,
) -> Seq<(Seq<char>, Seq<char>)>
    decreases n,
{
    if n == 0 || n > own.len() {
        base
    } else {
        header_put(headers_onto(base, own, (n - 1) as nat), own[n - 1].0, own[n - 1].1)
    }
}

/// The headers of a paging handler's reply: `content-type:
/// application/json`, then the handler's own headers, each put in as
/// [`header_put`] does. So a `content-type` of the handler's own takes
/// the place of the first, and the reply carries one `content-type`.
pub open spec fn paging_headers(own: Seq<(Seq<char>, Seq<char>)>) -> Seq<(Seq<char>, Seq<char>)> {
    headers_onto(seq![json_content_type()], own, own.len())
}

/// No two headers have the same name.
pub open spec fn one_of_each_name(headers: Seq<(Seq<char>, Seq<char>)>) -> bool {
    forall|i: int, j: int|
        0 <= i < j < headers.len() ==> !same_name(
            (#[trigger] headers[i]).0,
            (#[trigger] headers[j]).0,
        )
}

proof fn lemma_header_position_none(headers: Seq<(Seq<char>, Seq<char>)>, name: Seq<char>, from: int)
    requires
        0 <= from,
        header_position(headers, name, from) is None,
    ensures
        forall|i: int| from <= i < headers.len() ==> !same_name((#[trigger] headers[i]).0, name),
    decreases headers.len() - from,
{
    if from < headers.len() {
        lemma_header_position_none(headers, name, from + 1);
    }
}

proof fn lemma_header_position_some(headers: Seq<(Seq<char>, Seq<char>)>, name: Seq<char>, from: int)
    requires
        0 <= from,
        header_position(headers, name, from) is Some,
    ensures
        from <= header_position(headers, name, from)->Some_0 < headers.len(),
    decreases headers.len() - from,
{
    if !same_name(headers[from].0, name) {
        lemma_header_position_some(headers, name, from + 1);
    }
}

proof fn lemma_header_put_keeps(headers: Seq<(Seq<char>, Seq<char>)>, name: Seq<char>, value: Seq<char>)
    requires
        one_of_each_name(headers),
        headers.len() > 0,
    ensures
        one_of_each_name(header_put(headers, name, value)),
        header_put(headers, name, value).len() > 0,
        header_put(headers, name, value)[0].0 == headers[0].0,
{
    let after = header_put(headers, name, value);
    match header_position(headers, name, 0) {
        Some(at) => {
            lemma_header_position_some(headers, name, 0);
            assert forall|i: int, j: int| 0 <= i < j < after.len() implies !same_name(
                (#[trigger] after[i]).0,
                (#[trigger] after[j]).0,
            ) by {
                assert(after[i].0 == headers[i].0 && after[j].0 == headers[j].0);
            }
        },
        None => {
            lemma_header_position_none(headers, name, 0);
            assert forall|i: int, j: int| 0 <= i < j < after.len() implies !same_name(
                (#[trigger] after[i]).0,
                (#[trigger] after[j]).0,
            ) by {
                assert(after[i] == headers[i]);
                if j < headers.len() {
                    assert(after[j] == headers[j]);
                }
            }
        },
    }
}

proof fn lemma_headers_onto_once(
    base: Seq<(Seq<char>, Seq<char>)>,
    own: Seq<(Seq<char>, Seq<char>)>,
    n: nat,
)
    requires
        one_of_each_name(base),
        base.len() > 0,
    ensures
        one_of_each_name(headers_onto(base, own, n)),
        headers_onto(base, own, n).len() > 0,
        headers_onto(base, own, n)[0].0 == base[0].0,
    decreases n,
{
    if n > 0 && n <= own.len() {
        lemma_headers_onto_once(base, own, (n - 1) as nat);
        lemma_header_put_keeps(
            headers_onto(base, own, (n - 1) as nat),
            own[n - 1].0,
            own[n - 1].1,
        );
    }
}

/// A paging handler's reply carries each header name once, whatever the
/// handler's own headers are, and `content-type` comes first: a
/// `content-type` of the handler's own does not stand beside the first,
/// it replaces it.
pub proof fn lemma_paging_headers_once(own: Seq<(Seq<char>, Seq<char>)>)
    ensures
        one_of_each_name(paging_headers(own)),
        paging_headers(own).len() > 0,
        paging_headers(own)[0].0 == "content-type"@,
{
    lemma_headers_onto_once(seq![json_content_type()], own, own.len());
}

/// The reply with these parts, or the failure with status 500 that the
/// first faulty header gives.
pub open spec fn reply_or_fault(status: u16, headers: Seq<(Seq<char>, Seq<char>)>, body: Seq<char>) -> Result<
    ResponseModel,
    (u16, Seq<char>),
> {
    match headers_fault(headers, headers.len()) {
        Some(message) => Err((500u16, message)),
        None => Ok(ResponseModel { status, headers, body }),
    }
}

/// How a route answers.
#[derive(Debug, PartialEq, Eq)]
pub enum ResponseHandler {
    /// Always the same status, headers and body.
    Static { status: StatusCode, headers: IndexMap<String, String>, body: String },
    /// One page of `items`, put into `template` at `$_contents`. The
    /// query names the page under `page_param` and the page size under
    /// `per_page_param`; pages are counted from `page_origin`.
    Paging {
        status: StatusCode,
        headers: IndexMap<String, String>,
        page_param: String,
        per_page_param: String,
        default_per_page: usize,
        page_origin: usize,
        template: JsonTemplate,
        items: Vec<Json>,
    },
}

/// The model of a [`ResponseHandler`].
pub enum HandlerModel {
    Static { status: u16, headers: Seq<(Seq<char>, Seq<char>)>, body: Seq<char> },
    Paging {
        status: u16,
        headers: Seq<(Seq<char>, Seq<char>)>,
        page_param: Seq<char>,
        per_page_param: Seq<char>,
        default_per_page: usize,
        page_origin: usize,
        template: JsonValue,
        items: Seq<JsonValue>,
    },
}

impl View for ResponseHandler {
    type V = HandlerModel;

    open spec fn view(&self) -> HandlerModel {
        match self {
            ResponseHandler::Static { status, headers, body } => HandlerModel::Static {
                status: status.code(),
                headers: entries(*headers),
                body: body@,
            },
            ResponseHandler::Paging {
                status,
                headers,
                page_param,
                per_page_param,
                default_per_page,
                page_origin,
                template,
                items,
            } => HandlerModel::Paging {
                status: status.code(),
                headers: entries(*headers),
                page_param: page_param@,
                per_page_param: per_page_param@,
                default_per_page: *default_per_page,
                page_origin: *page_origin,
                template: template.template(),
                items: items_view(items@),
            },
        }
    }
}

impl Clone for ResponseHandler {
    /// A copy that answers alike.
    fn clone(&self) -> (r: ResponseHandler)
        ensures
            r@ == self@,
            r.wf() == self.wf(),
    {
        match self {
            ResponseHandler::Static { status, headers, body } => ResponseHandler::Static {
                status: *status,
                headers: map_clone(headers),
                body: body.clone(),
            },
            ResponseHandler::Paging {
                status,
                headers,
                page_param,
                per_page_param,
                default_per_page,
                page_origin,
                template,
                items,
            } => ResponseHandler::Paging {
                status: *status,
                headers: map_clone(headers),
                page_param: page_param.clone(),
                per_page_param: per_page_param.clone(),
                default_per_page: *default_per_page,
                page_origin: *page_origin,
                template: template.clone(),
                items: clone_items(items),
            },
        }
    }
}

/// What a result of [`ResponseHandler::respond`] holds.
pub open spec fn respond_view(r: Result<Response, (u16, String)>) -> Result<
    ResponseModel,
    (u16, Seq<char>),
> {
    match r {
        Ok(response) => Ok(response@),
        Err(failure) => Err((failure.0, failure.1@)),
    }
}

impl ResponseHandler {
    /// A paging handler's template was read with the value placeholder
    /// `_contents` and the text placeholder `_text`.
    pub open spec fn wf(self) -> bool {
        match self {
            ResponseHandler::Static { .. } => true,
            ResponseHandler::Paging { template, .. } => {
                &&& template.value_names() == seq!["_contents"@]
                &&& template.text_name() == "_text"@
            },
        }
    }

    /// The reply to a request with the query `query`, or the failure.
    pub open spec fn outcome(self, query: Seq<(Seq<char>, Seq<char>)>) -> Result<
        ResponseModel,
        (u16, Seq<char>),
    > {
        match self {
            ResponseHandler::Static { status, headers, body } => reply_or_fault(
                status.code(),
                entries(headers),
                body@,
            ),
            ResponseHandler::Paging {
                status,
                headers,
                page_param,
                per_page_param,
                default_per_page,
                page_origin,
                template,
                items,
            } => {
                let page = number_or(query, page_param@, page_origin);
                let per_page = number_or(query, per_page_param@, default_per_page);
                let window = page_window(
                    items_view(items@),
                    page as int,
                    page_origin as int,
                    per_page as int,
                );
                let values = paging_values(window);
                match template.render_failure(values) {
                    Some(message) => Err((500u16, message)),
                    None => reply_or_fault(
                        status.code(),
                        paging_headers(entries(headers)),
                        json_text(
                            normal_form(
                                expanded(
                                    template.template(),
                                    template.value_names(),
                                    template.text_key(),
                                    values,
                                ),
                            ),
                        ),
                    ),
                }
            },
        }
    }

    /// Whether the handler is well formed.
    pub fn is_wf(&self) -> (r: bool)
        ensures
            r == self.wf(),
    {
        match self {
            ResponseHandler::Static { .. } => true,
            ResponseHandler::Paging { template, .. } => {
                let names = template.value_placeholders();
                let ghost nv = crate::json_template::names_view(names@);
                if names.len() != 1 {
                    assert(nv.len() != seq!["_contents"@].len());
                    return false;
                }
                if !str_eq(names[0].as_str(), "_contents") {
                    assert(nv[0] != seq!["_contents"@][0]);
                    return false;
                }
                assert(nv =~= seq!["_contents"@]);
                str_eq(template.text_placeholder().as_str(), "_text")
            },
        }
    }

    /// A static handler.
    pub fn new_static(status: StatusCode, headers: IndexMap<String, String>, body: String) -> (r:
        ResponseHandler)
        ensures
            r == (ResponseHandler::Static { status, headers, body }),
            r.wf(),
            r@ == (HandlerModel::Static {
                status: status.code(),
                headers: entries(headers),
                body: body@,
            }),
    {
        ResponseHandler::Static { status, headers, body }
    }

    /// A paging handler. The template is read with the value placeholder
    /// `_contents` and the text placeholder `_text`; pages are counted
    /// from 1 where `page_origin` is not given.
    pub fn new_paging(
        status: StatusCode,
        headers: IndexMap<String, String>,
        page_param: String,
        per_page_param: String,
        default_per_page: usize,
        page_origin: Option<usize>,
        template: Json,
        items: Vec<Json>,
    ) -> (r: Result<ResponseHandler, String>)
        ensures
            r is Ok,
            r->Ok_0.wf(),
            r->Ok_0 matches ResponseHandler::Paging {
                status: s,
                headers: h,
                page_param: pp,
                per_page_param: ppp,
                default_per_page: d,
                page_origin: o,
                template: t,
                items: i,
            } && s == status && h == headers && pp == page_param && ppp == per_page_param && d
                == default_per_page && o == (match page_origin {
                Some(origin) => origin,
                None => 1usize,
            }) && t.template() == template@ && i == items,
            r->Ok_0@ == (HandlerModel::Paging {
                status: status.code(),
                headers: entries(headers),
                page_param: page_param@,
                per_page_param: per_page_param@,
                default_per_page,
                page_origin: match page_origin {
                    Some(origin) => origin,
                    None => 1usize,
                },
                template: template@,
                items: items_view(items@),
            }),
    {
        let mut names: Vec<String> = Vec::new();
        names.push("_contents".to_owned());
        let ghost all = crate::json_template::names_view(names@).push("_text"@);
        proof {
            assert(all =~= seq!["_contents"@, "_text"@]);
            lemma_paging_names(all);
            assert(crate::json_template::names_view(names@) =~= seq!["_contents"@]);
        }
        match JsonTemplate::parse(template, names, "_text".to_owned()) {
            Ok(parsed) => Ok(
                ResponseHandler::Paging {
                    status,
                    headers,
                    page_param,
                    per_page_param,
                    default_per_page,
                    page_origin: match page_origin {
                        Some(origin) => origin,
                        None => 1,
                    },
                    template: parsed,
                    items,
                },
            ),
            Err(message) => Err(message),
        }
    }

    /// Answers a request with the query `query`. A static handler gives
    /// its status, headers and body. A paging handler gives its template,
    /// expanded with the page's items, as JSON text. Its headers start
    /// with `content-type: application/json`; the handler's own headers
    /// follow in their order, but one whose name is there already takes
    /// that header's place, so the handler's own `content-type` replaces
    /// the first and the reply carries one. A template that does not
    /// render, and a header that the HTTP library refuses, fail with
    /// status 500 and the message.
    pub fn respond(&self, query: &IndexMap<String, String>) -> (r: Result<Response, (u16, String)>)
        requires
            self.wf(),
        ensures
            respond_view(r) == self.outcome(entries(*query)),
    {
        match self {
            ResponseHandler::Static { status, headers, body } => {
                let pairs = map_pairs(headers);
                finish(status.as_u16(), pairs, body.clone())
            },
            ResponseHandler::Paging {
                status,
                headers,
                page_param,
                per_page_param,
                default_per_page,
                page_origin,
                template,
                items,
            } => {
                let page = query_number(query, page_param.as_str(), *page_origin);
                let per_page = query_number(query, per_page_param.as_str(), *default_per_page);
                let window = take_page(items, page, *page_origin, per_page);
                let ghost window_view = items_view(window@);
                let mut values: Vec<Member> = Vec::new();
                proof {
                    lemma_array_view(window);
                }
                values.push(Member { name: "_contents".to_owned(), value: Json::Array(window) });
                proof {
                    assert(members_view(values@) =~= paging_values(window_view));
                    assert(value_of(paging_values(window_view), "_contents"@) is Some);
                    template.lemma_declared_names_suffice(paging_values(window_view));
                }
                match template.expand_members(&values) {
                    Err(message) => Err((500, message)),
                    Ok(document) => {
                        let body = serde_text(&to_serde(&document));
                        let mut pairs: Vec<(String, String)> = Vec::new();
                        pairs.push(("content-type".to_owned(), "application/json".to_owned()));
                        assert(pairs_view(pairs@) =~= seq![json_content_type()]);
                        let own = map_pairs(headers);
                        let mut i: usize = 0;
                        while i < own.len()
                            invariant
                                i <= own.len(),
                                pairs_view(own@) == entries(*headers),
                                pairs_view(pairs@) == headers_onto(
                                    seq![json_content_type()],
                                    entries(*headers),
                                    i as nat,
                                ),
                            decreases own.len() - i,
                        {
                            put_header(&mut pairs, own[i].0.clone(), own[i].1.clone());
                            i += 1;
                        }
                        finish(status.as_u16(), pairs, body)
                    },
                }
            },
        }
    }
}

proof fn lemma_paging_names(all: Seq<Seq<char>>)
    requires
        all == seq!["_contents"@, "_text"@],
    ensures
        crate::json_template::names_fault(all, 2) is None,
{
    reveal_strlit("_contents");
    reveal_strlit("_text");
    reveal_with_fuel(crate::json_template::names_fault, 3);
    let a = "_contents"@;
    let b = "_text"@;
    assert(a.len() == 9 && b.len() == 5);
    assert(crate::json_template::is_placeholder_name(a));
    assert(crate::json_template::is_placeholder_name(b));
    assert(all.subrange(0, 0) =~= Seq::<Seq<char>>::empty());
    assert(all.subrange(0, 1) =~= seq![a]);
    assert(!seq![a].contains(b)) by {
        if seq![a].contains(b) {
            let i = choose|i: int| 0 <= i < 1 && seq![a][i] == b;
            assert(seq![a][i] == a);
        }
    }
    assert(!Seq::<Seq<char>>::empty().contains(a));
}

/// The number of a character, that of its small letter for a capital
/// letter of ASCII.
fn lower_code_of(c: char) -> (r: u32)
    ensures
        r == lower_code(c),
{
    if 'A' <= c && c <= 'Z' {
        c as u32 + 32
    } else {
        c as u32
    }
}

/// Whether two header names are the same name.
fn same_header_name(a: &str, b: &str) -> (r: bool)
    ensures
        r == same_name(a@, b@),
{
    let ac = chars_of(a);
    let bc = chars_of(b);
    if ac.len() != bc.len() {
        return false;
    }
    let mut i: usize = 0;
    while i < ac.len()
        invariant
            i <= ac.len(),
            ac.len() == bc.len(),
            ac@ == a@,
            bc@ == b@,
            forall|k: int| 0 <= k < i ==> lower_code(#[trigger] a@[k]) == lower_code(b@[k]),
        decreases ac.len() - i,
    {
        if lower_code_of(ac[i]) != lower_code_of(bc[i]) {
            assert(lower_code(a@[i as int]) != lower_code(b@[i as int]));
            return false;
        }
        i += 1;
    }
    true
}

/// Gives the header `name` the value `value`: a name that is there keeps
/// its place and takes the new value, a new name goes to the end.
fn put_header(headers: &mut Vec<(String, String)>, name: String, value: String)
    ensures
        pairs_view(final(headers)@) == header_put(pairs_view(old(headers)@), name@, value@),
{
    let ghost before = pairs_view(headers@);
    let mut i: usize = 0;
    while i < headers.len()
        invariant
            i <= headers.len(),
            before == pairs_view(headers@),
            before == pairs_view(old(headers)@),
            header_position(before, name@, 0) == header_position(before, name@, i as int),
        decreases headers.len() - i,
    {
        if same_header_name(headers[i].0.as_str(), name.as_str()) {
            assert(before[i as int].0 == headers[i as int].0@);
            assert(header_position(before, name@, i as int) == Some(i as int));
            let held = headers.remove(i);
            headers.insert(i, (held.0, value));
            assert(pairs_view(headers@) =~= before.update(i as int, (before[i as int].0, value@)));
            return ;
        }
        i += 1;
    }
    headers.push((name, value));
    assert(pairs_view(headers@) =~= before.push((name@, value@)));
}

/// The number under `param` in the query, or `default`.
fn query_number(query: &IndexMap<String, String>, param: &str, default: usize) -> (r: usize)
    ensures
        r == number_or(entries(*query), param@, default),
{
    match map_get(query, param) {
        Some(text) => match parse_usize(text.as_str()) {
            Some(n) => n,
            None => default,
        },
        None => default,
    }
}

/// Copies of the items of one page.
fn take_page(items: &Vec<Json>, page: usize, origin: usize, per_page: usize) -> (r: Vec<Json>)
    ensures
        items_view(r@) == page_window(
            items_view(items@),
            page as int,
            origin as int,
            per_page as int,
        ),
{
    let ghost want = page_window(items_view(items@), page as int, origin as int, per_page as int);
    let mut out: Vec<Json> = Vec::new();
    if page < origin || per_page == 0 {
        assert(items_view(out@) =~= want);
        return out;
    }
    let span: usize = page - origin;
    let total: usize = items.len();
    let offset: usize = match span.checked_mul(per_page) {
        Some(offset) => offset,
        None => {
            assert(span * per_page > usize::MAX);
            assert(items_view(items@).len() == total);
            assert((page as int - origin as int) * (per_page as int) == span * per_page);
            assert(items_view(out@) =~= want);
            return out;
        },
    };
    if offset >= items.len() {
        assert(items_view(out@) =~= want);
        return out;
    }
    let end: usize = if per_page >= items.len() - offset {
        items.len()
    } else {
        offset + per_page
    };
    let mut i: usize = offset;
    while i < end
        invariant
            offset <= i <= end <= items.len(),
            out.len() == i - offset,
            forall|k: int| 0 <= k < i - offset ==> out[k]@ == items[offset + k]@,
        decreases end - i,
    {
        out.push(items[i].clone());
        i += 1;
    }
    assert(items_view(out@) =~= items_view(items@).subrange(offset as int, end as int));
    out
}

/// The reply with these parts, unless the HTTP library refuses one of the
/// headers.
fn finish(status: u16, headers: Vec<(String, String)>, body: String) -> (r: Result<
    Response,
    (u16, String),
>)
    ensures
        respond_view(r) == reply_or_fault(status, pairs_view(headers@), body@),
{
    let ghost hv = pairs_view(headers@);
    let mut i: usize = 0;
    while i < headers.len()
        invariant
            i <= headers.len(),
            hv == pairs_view(headers@),
            headers_fault(hv, i as nat) is None,
        decreases headers.len() - i,
    {
        match check_header(headers[i].0.as_str(), headers[i].1.as_str()) {
            Some(message) => {
                proof {
                    lemma_headers_fault_stays(hv, (i + 1) as nat, hv.len());
                }
                return Err((500, message));
            },
            None => {},
        }
        i += 1;
    }
    Ok(Response { status, headers, body })
}

/// A mock route: requests with this method to this path get the
/// handler's reply.
#[derive(Debug, PartialEq, Eq)]
pub struct MockEndpoint {
    pub method: Method,
    pub path: String,
    pub response: ResponseHandler,
}

/// The model of a [`MockEndpoint`].
pub struct EndpointModel {
    pub method: Method,
    pub path: Seq<char>,
    pub response: HandlerModel,
}

impl View for MockEndpoint {
    type V = EndpointModel;

    open spec fn view(&self) -> EndpointModel {
        EndpointModel { method: self.method, path: self.path@, response: self.response@ }
    }
}

/// The models of a list of routes, in order.
pub open spec fn endpoints_view(endpoints: Seq<MockEndpoint>) -> Seq<EndpointModel> {
    Seq::new(endpoints.len(), |i: int| endpoints[i]@)
}

/// The path under which the mock routes are mounted; its second segment
/// stands for the session.
pub fn mock_prefix() -> (r: &'static str)
    ensures
        r@ == "/mock/:serverify_session"@,
{
    "/mock/:serverify_session"
}

/// Whether requests of this session are recorded: all but those of the
/// session `default`.
pub fn is_recorded(session: &str) -> (r: bool)
    ensures
        r == (session@ != "default"@),
{
    !str_eq(session, "default")
}

/// The text that `String::from_utf8_lossy` reads in bytes: the text that
/// they encode, with U+FFFD in place of what is no UTF-8.
pub uninterp spec fn lossy_text(bytes: Seq<u8>) -> Seq<char>;

/// `String::from_utf8_lossy`, as an owned string.
#[verifier::external_body]
pub(crate) fn decode_body(bytes: &Vec<u8>) -> (r: String)
    ensures
        r@ == lossy_text(bytes@),
{
    String::from_utf8_lossy(bytes).into_owned()
}

/// The headers of a request, its first `n`, as a map filled in their
/// order; or the message of the first value that is no text. A header's
/// value is its text, or the message that says why it is no text.
pub open spec fn header_map(headers: Seq<(String, Result<String, String>)>, n: nat) -> Result<
    Seq<(Seq<char>, Seq<char>)>,
    Seq<char>,
>
    decreases n,
{
    if n == 0 || n > headers.len() {
        Ok(Seq::empty())
    } else {
        match header_map(headers, (n - 1) as nat) {
            Err(message) => Err(message),
            Ok(earlier) => match headers[n - 1].1 {
                Ok(text) => Ok(inserted(earlier, headers[n - 1].0@, text@)),
                Err(message) => Err(message@),
            },
        }
    }
}

proof fn lemma_header_map_stays(headers: Seq<(String, Result<String, String>)>, n: nat, m: nat)
    requires
        n <= m <= headers.len(),
        header_map(headers, n) is Err,
    ensures
        header_map(headers, m) == header_map(headers, n),
    decreases m,
{
    if n < m {
        lemma_header_map_stays(headers, n, (m - 1) as nat);
    }
}

/// Collects the headers of a request that is to be recorded, in their
/// order. A header that comes again keeps its place and takes the later
/// value. A value that is no text fails the request with status 500.
pub fn request_headers(headers: &Vec<(String, Result<String, String>)>) -> (r: Result<
    IndexMap<String, String>,
    (u16, String),
>)
    ensures
        match r {
            Ok(map) => header_map(headers@, headers.len() as nat) == Ok::<
                Seq<(Seq<char>, Seq<char>)>,
                Seq<char>,
            >(entries(map)) && distinct_keys(entries(map)),
            Err(failure) => failure.0 == 500 && header_map(headers@, headers.len() as nat)
                == Err::<Seq<(Seq<char>, Seq<char>)>, Seq<char>>(failure.1@),
        },
{
    let mut map = new_map();
    let mut i: usize = 0;
    while i < headers.len()
        invariant
            i <= headers.len(),
            header_map(headers@, i as nat) == Ok::<Seq<(Seq<char>, Seq<char>)>, Seq<char>>(
                entries(map),
            ),
            distinct_keys(entries(map)),
        decreases headers.len() - i,
    {
        match &headers[i].1 {
            Ok(text) => {
                proof {
                    lemma_inserted_distinct(entries(map), headers[i as int].0@, text@);
                }
                map_insert(&mut map, headers[i].0.clone(), text.clone());
            },
            Err(message) => {
                proof {
                    lemma_header_map_stays(headers@, (i + 1) as nat, headers.len() as nat);
                }
                return Err((500, message.clone()));
            },
        }
        i += 1;
    }
    Ok(map)
}

/// What a mock route is given of a request.
#[derive(Debug)]
pub struct Incoming {
    pub session: String,
    pub method: Method,
    pub headers: IndexMap<String, String>,
    pub path: String,
    pub query: IndexMap<String, String>,
    pub body: Vec<u8>,
    pub requested_at: Timestamp,
}

/// What is to be recorded of a request: nothing for the session
/// `default`, whatever the request holds; of any other the method, the
/// headers, the path, the query, the body as text and the time.
pub open spec fn recording(incoming: Incoming) -> Option<RequestLogModel> {
    if incoming.session@ == "default"@ {
        None
    } else {
        Some(
            RequestLogModel {
                method: incoming.method,
                headers: entries(incoming.headers),
                path: incoming.path@,
                query: entries(incoming.query),
                body: lossy_text(incoming.body@),
                requested_at: incoming.requested_at,
            },
        )
    }
}

/// What a result of [`request_log`] holds.
pub open spec fn recording_view(r: Option<RequestLog>) -> Option<RequestLogModel> {
    match r {
        Some(log) => Some(log@),
        None => None,
    }
}

/// Decides what is to be recorded of a request. A request of the session
/// `default` is never recorded, whatever it holds. Of any other the
/// method, the headers in their order, the path, the query, the body as
/// text and the time are recorded.
pub fn request_log(incoming: &Incoming) -> (r: Option<RequestLog>)
    ensures
        recording_view(r) == recording(*incoming),
        incoming.session@ == "default"@ <==> r is None,
        r matches Some(log) ==> well_keyed(log@),
{
    if !is_recorded(incoming.session.as_str()) {
        return None;
    }
    confirm_distinct(&incoming.headers);
    confirm_distinct(&incoming.query);
    Some(
        RequestLog {
            method: incoming.method,
            headers: map_clone(&incoming.headers),
            path: incoming.path.clone(),
            query: map_clone(&incoming.query),
            body: decode_body(&incoming.body),
            requested_at: incoming.requested_at,
        },
    )
}

/// The status and the message with which a request fails of which the
/// session, the query or the body could not be read: 500 with the
/// message.
pub fn request_failure(message: String) -> (r: (u16, String))
    ensures
        r.0 == 500,
        r.1@ == message@,
{
    (500, message)
}

/// The status and the message with which a request fails that could not
/// be recorded: 404 for a session that is not there, 500 for a failure
/// of the store.
pub fn recording_failure(error: LoggerError) -> (r: (u16, String))
    ensures
        match error@ {
            LoggerErrorModel::InvalidSession(message) => r.0 == 404 && r.1@ == message,
            LoggerErrorModel::InternalError(message) => r.0 == 500 && r.1@ == message,
        },
{
    match error {
        LoggerError::InvalidSession(message) => (404, message),
        LoggerError::InternalError(message) => (500, message),
    }
}

/// The reply that carries a failure: its status, no header, and the
/// message as the body.
pub open spec fn failure_reply(failure: (u16, Seq<char>)) -> ResponseModel {
    ResponseModel { status: failure.0, headers: Seq::empty(), body: failure.1 }
}

/// What a failure holds.
pub open spec fn failure_view(failure: (u16, String)) -> (u16, Seq<char>) {
    (failure.0, failure.1@)
}

impl MockEndpoint {
    /// The reply to a request. Where recording failed, the reply carries
    /// that failure. Where the request was recorded, or was not to be
    /// recorded, the reply is exactly what the route's handler produces
    /// for the query; a failure of the handler is carried in the same
    /// way.
    pub fn reply(&self, recorded: Result<(), (u16, String)>, query: &IndexMap<String, String>) -> (r:
        Response)
        requires
            self.response.wf(),
        ensures
            r@ == (match recorded {
                Err(failure) => failure_reply(failure_view(failure)),
                Ok(_) => match self.response.outcome(entries(*query)) {
                    Ok(response) => response,
                    Err(failure) => failure_reply(failure),
                },
            }),
    {
        let outcome = match recorded {
            Err(failure) => Err(failure),
            Ok(_) => self.response.respond(query),
        };
        match outcome {
            Ok(response) => response,
            Err(failure) => {
                let headers: Vec<(String, String)> = Vec::new();
                assert(pairs_view(headers@) =~= Seq::<(Seq<char>, Seq<char>)>::empty());
                Response { status: failure.0, headers, body: failure.1 }
            },
        }
    }
}

} // verus!
