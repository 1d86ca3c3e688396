//! The call engine: which operation a call names, what request it makes, and what comes
//! back to the caller.

use vstd::prelude::*;
use crate::json::{jget, member, members_view, elems_view, Json, JsonV};
use crate::text::{chars_of, string_from_chars, string_views, str_starts_with, starts_with};
use quick_xml::events::Event;
use crate::types::{
    ApiResponse, ApiSpec, AuthMethod, AuthMethodV, AuthPreference, HttpMethod, Operation,
    OperationV, ResponseExtractor,
};

verus! {

// ---------------------------------------------------------------------------
// Finding an operation
// ---------------------------------------------------------------------------

/// Index of the first operation whose path or summary is `name`.
pub open spec fn operation_index(ops: Seq<Operation>, name: Seq<char>) -> Option<int>
    decreases ops.len(),
{
    if ops.len() == 0 {
        None
    } else if ops[0].path@ == name || ops[0].summary@ == name {
        Some(0)
    } else {
        match operation_index(ops.drop_first(), name) {
            Some(k) => Some(k + 1),
            None => None,
        }
    }
}

/// Find an operation by path or by summary name: the first one that matches either.
pub fn find_operation<'a>(spec: &'a ApiSpec, operation: &str) -> (r: Option<&'a Operation>)
    ensures
        match operation_index(spec.operations@, operation@) {
            Some(k) => r matches Some(op) && *op == spec.operations@[k],
            None => r is None,
        },
{
    let ops = &spec.operations;
    let name = operation.to_owned();
    let mut i: usize = 0;
    assert(ops@.skip(0) =~= ops@);
    while i < ops.len()
        invariant
            i <= ops@.len(),
            name@ == operation@,
            *ops == spec.operations,
            operation_index(ops@, operation@) == match operation_index(ops@.skip(i as int), operation@) {
                Some(k) => Some(k + i),
                None => None,
            },
        decreases ops@.len() - i,
    {
        assert(ops@.skip(i as int)[0] == ops@[i as int]);
        if ops[i].path == name || ops[i].summary == name {
            return Some(&ops[i]);
        }
        assert(ops@.skip(i as int).drop_first() =~= ops@.skip(i + 1));
        i = i + 1;
    }
    None
}

// ---------------------------------------------------------------------------
// Planning a request
// ---------------------------------------------------------------------------

/// Where the API key goes on a request.
#[derive(Debug, Clone)]
pub enum AuthPlacement {
    /// A query parameter with this name and value.
    Query { name: String, value: String },
    /// A header with this name and value.
    Header { name: String, value: String },
    /// Nowhere.
    NoAuth,
}

pub enum AuthPlacementV {
    Query { name: Seq<char>, value: Seq<char> },
    Header { name: Seq<char>, value: Seq<char> },
    NoAuth,
}

impl View for AuthPlacement {
    type V = AuthPlacementV;

    open spec fn view(&self) -> AuthPlacementV {
        match self {
            AuthPlacement::Query { name, value } => AuthPlacementV::Query { name: name@, value: value@ },
            AuthPlacement::Header { name, value } => AuthPlacementV::Header { name: name@, value: value@ },
            AuthPlacement::NoAuth => AuthPlacementV::NoAuth,
        }
    }
}

/// The placement of the key for an auth method: a query parameter; a header with its
/// prefix before the key; for both, the query parameter when the query is preferred and
/// nothing when the header is; nothing without auth.
pub open spec fn auth_placement(auth: AuthMethodV, key: Seq<char>) -> AuthPlacementV {
    match auth {
        AuthMethodV::QueryParam { name } => AuthPlacementV::Query { name, value: key },
        AuthMethodV::Header { name, prefix } => AuthPlacementV::Header { name, value: prefix + key },
        AuthMethodV::Both { query, prefer, .. } => match prefer {
            AuthPreference::Query => AuthPlacementV::Query { name: query, value: key },
            AuthPreference::Header => AuthPlacementV::NoAuth,
        },
        AuthMethodV::NoAuth => AuthPlacementV::NoAuth,
    }
}

/// Where the API key goes for `auth`.
pub fn apply_auth(auth: &AuthMethod, api_key: &str) -> (r: AuthPlacement)
    ensures
        r@ == auth_placement(auth@, api_key@),
{
    match auth {
        AuthMethod::QueryParam { name } => AuthPlacement::Query { name: name.clone(), value: api_key.to_owned() },
        AuthMethod::Header { name, prefix } => {
            let mut v = chars_of(prefix.as_str());
            let mut k = chars_of(api_key);
            v.append(&mut k);
            AuthPlacement::Header { name: name.clone(), value: string_from_chars(v.as_slice()) }
        },
        AuthMethod::Both { query, prefer, .. } => match prefer {
            AuthPreference::Query => AuthPlacement::Query { name: query.clone(), value: api_key.to_owned() },
            AuthPreference::Header => AuthPlacement::NoAuth,
        },
        AuthMethod::NoAuth => AuthPlacement::NoAuth,
    }
}

/// `s` without trailing `/`.
pub open spec fn trim_trailing_slashes(s: Seq<char>) -> Seq<char>
    decreases s.len(),
{
    if s.len() > 0 && s.last() == '/' {
        trim_trailing_slashes(s.drop_last())
    } else {
        s
    }
}

/// The URL of an operation: the base URL without trailing slashes, then the path with one
/// leading slash added when it has none.
pub open spec fn operation_url(base_url: Seq<char>, path: Seq<char>) -> Seq<char> {
    trim_trailing_slashes(base_url) + if starts_with(path, "/"@) {
        path
    } else {
        "/"@ + path
    }
}

/// The URL of an operation.
pub fn build_url(base_url: &str, path: &str) -> (r: String)
    ensures
        r@ == operation_url(base_url@, path@),
{
    let b = chars_of(base_url);
    let mut n = b.len();
    assert(b@.take(n as int) =~= b@);
    while n > 0 && b[n - 1] == '/'
        invariant
            n <= b@.len(),
            trim_trailing_slashes(b@) == trim_trailing_slashes(b@.take(n as int)),
        decreases n,
    {
        assert(b@.take(n as int).drop_last() =~= b@.take(n - 1));
        n = n - 1;
    }
    assert(b@.take(b@.len() as int) =~= b@);
    let mut out = crate::text::slice_to_vec(b.as_slice(), 0, n);
    assert(out@ =~= b@.take(n as int));
    proof {
        reveal_strlit("/");
    }
    if !str_starts_with(path, "/") {
        out.push('/');
    }
    let mut p = chars_of(path);
    out.append(&mut p);
    assert(out@ =~= operation_url(base_url@, path@));
    string_from_chars(out.as_slice())
}

/// Members with `key` set to `v`: the value of an existing member is replaced in place,
/// otherwise the member is appended.
pub open spec fn set_member(m: Seq<(Seq<char>, JsonV)>, key: Seq<char>, v: JsonV) -> Seq<(Seq<char>, JsonV)> {
    match member_index(m, key) {
        Some(k) => m.update(k, (key, v)),
        None => m.push((key, v)),
    }
}

/// Index of the first member named `key`.
pub open spec fn member_index(m: Seq<(Seq<char>, JsonV)>, key: Seq<char>) -> Option<int>
    decreases m.len(),
{
    if m.len() == 0 {
        None
    } else if m[0].0 == key {
        Some(0)
    } else {
        match member_index(m.drop_first(), key) {
            Some(k) => Some(k + 1),
            None => None,
        }
    }
}

pub proof fn lemma_member_index(m: Seq<(Seq<char>, JsonV)>, key: Seq<char>)
    ensures
        member_index(m, key) matches Some(k) ==> 0 <= k < m.len() && m[k].0 == key && member(m, key)
            == Some(m[k].1),
        member_index(m, key) is None ==> member(m, key) is None,
    decreases m.len(),
{
    if m.len() > 0 {
        lemma_member_index(m.drop_first(), key);
    }
}

/// Position of the first member named `key`.
pub fn find_member_index(m: &Vec<(String, Json)>, key: &String) -> (r: Option<usize>)
    ensures
        match r {
            Some(k) => member_index(members_view(m@), key@) == Some(k as int),
            None => member_index(members_view(m@), key@) is None,
        },
{
    let ghost mv = members_view(m@);
    let mut i: usize = 0;
    assert(mv.skip(0) =~= mv);
    while i < m.len()
        invariant
            i <= m@.len(),
            mv == members_view(m@),
            member_index(mv, key@) == match member_index(mv.skip(i as int), key@) {
                Some(k) => Some(k + i),
                None => None,
            },
        decreases m@.len() - i,
    {
        assert(mv.skip(i as int)[0] == mv[i as int]);
        if m[i].0 == *key {
            return Some(i);
        }
        assert(mv.skip(i as int).drop_first() =~= mv.skip(i + 1));
        i = i + 1;
    }
    None
}

/// Set member `key` to `v` (replacing an existing value in place).
pub fn set_member_exec(m: &mut Vec<(String, Json)>, key: String, v: Json)
    ensures
        members_view(final(m)@) == set_member(members_view(old(m)@), key@, v@),
{
    let ghost before = members_view(m@);
    let ghost kv = key@;
    let ghost vv = v@;
    proof {
        lemma_member_index(before, kv);
    }
    match find_member_index(m, &key) {
        Some(k) => {
            m.set(k, (key, v));
            assert(members_view(m@) =~= before.update(k as int, (kv, vv)));
        },
        None => {
            m.push((key, v));
            assert(members_view(m@) =~= before.push((kv, vv)));
        },
    }
}

/// The JSON body of a write call: each parameter becomes a member; a value that parses as
/// JSON (`parsed`) is used as parsed, any other value as a string; a later parameter with
/// the same name replaces an earlier one.
pub open spec fn json_body(params: Seq<(Seq<char>, Seq<char>)>, parsed: Seq<Option<JsonV>>) -> Seq<(Seq<char>, JsonV)>
    decreases params.len(),
{
    if params.len() == 0 || parsed.len() != params.len() {
        Seq::empty()
    } else {
        let v = match parsed.last() {
            Some(j) => j,
            None => JsonV::Str(params.last().1),
        };
        set_member(json_body(params.drop_last(), parsed.drop_last()), params.last().0, v)
    }
}

pub open spec fn param_views(p: Seq<(String, String)>) -> Seq<(Seq<char>, Seq<char>)> {
    p.map_values(|x: (String, String)| (x.0@, x.1@))
}

pub open spec fn parsed_views(p: Seq<Option<Json>>) -> Seq<Option<JsonV>> {
    p.map_values(
        |x: Option<Json>|
            match x {
                Some(j) => Some(j@),
                None => None,
            },
    )
}

/// Build the JSON body of a write call. `parsed[i]` is the value of `params[i]` parsed as
/// JSON, or `None` when it is not JSON.
pub fn build_json_body(params: &[(String, String)], parsed: Vec<Option<Json>>) -> (r: Json)
    requires
        parsed@.len() == params@.len(),
    ensures
        r@ == JsonV::Object(json_body(param_views(params@), parsed_views(parsed@))),
{
    let ghost pv = param_views(params@);
    let ghost jv = parsed_views(parsed@);
    let n = params.len();
    let mut vals = parsed;
    let mut m: Vec<(String, Json)> = Vec::new();
    let mut i: usize = 0;
    assert(members_view(m@) =~= json_body(pv.take(0), jv.take(0)));
    assert(jv.skip(0) =~= jv);
    while i < params.len()
        invariant
            i <= params@.len(),
            params@.len() == n,
            vals@.len() == n - i,
            pv == param_views(params@),
            parsed_views(vals@) == jv.skip(i as int),
            jv.len() == n,
            members_view(m@) == json_body(pv.take(i as int), jv.take(i as int)),
        decreases params@.len() - i,
    {
        let ghost before_v = vals@;
        let x = vals.remove(0);
        assert(parsed_views(before_v)[0] == jv[i as int]);
        assert(vals@ =~= before_v.drop_first());
        assert(parsed_views(vals@) =~= parsed_views(before_v).drop_first());
        assert(jv.skip(i as int).drop_first() =~= jv.skip(i + 1));
        assert(parsed_views(vals@) =~= jv.skip(i + 1));
        let value = match x {
            Some(j) => j,
            None => Json::Str(params[i].1.clone()),
        };
        proof {
            assert(pv.take(i + 1).drop_last() =~= pv.take(i as int));
            assert(jv.take(i + 1).drop_last() =~= jv.take(i as int));
            assert(pv.take(i + 1).last() == (params@[i as int].0@, params@[i as int].1@));
            assert(jv.take(i + 1).last() == jv[i as int]);
        }
        set_member_exec(&mut m, params[i].0.clone(), value);
        i = i + 1;
    }
    assert(pv.take(n as int) =~= pv);
    assert(jv.take(n as int) =~= jv);
    let r = Json::Object(m);
    proof {
        crate::json::lemma_object_members(m);
    }
    r
}

/// A request to make for a call.
#[derive(Debug)]
pub struct RequestPlan {
    pub method: HttpMethod,
    pub url: String,
    pub auth: AuthPlacement,
    /// Query parameters of a read or delete call, in order.
    pub query: Vec<(String, String)>,
    /// Whether the parameters go in a JSON body (write calls) rather than the query.
    pub json_body: bool,
}

/// Why a call could not be made.
#[derive(Debug)]
pub enum CallError {
    /// No operation has this path or summary; the operations offered instead, as
    /// `(path, summary)`.
    OperationNotFound { operation: String, available: Vec<(String, String)> },
}

/// How an offered operation is listed: `path (summary)`.
pub open spec fn operation_label(p: (Seq<char>, Seq<char>)) -> Seq<char> {
    p.0 + " ("@ + p.1 + ")"@
}

/// The message of a call error: the operation asked for and the operations there are,
/// listed with `, ` between them.
pub open spec fn call_error_text(operation: Seq<char>, available: Seq<(Seq<char>, Seq<char>)>) -> Seq<char> {
    "Operation '"@ + operation + "' not found. Available: "@ + crate::catalog::join(
        available.map_values(|p: (Seq<char>, Seq<char>)| operation_label(p)),
        ", "@,
    )
}

impl CallError {
    /// The message that reports this error.
    pub fn message(&self) -> (r: String)
        ensures
            match self {
                CallError::OperationNotFound { operation, available } => r@ == call_error_text(
                    operation@,
                    param_views(available@),
                ),
            },
    {
        match self {
            CallError::OperationNotFound { operation, available } => {
                let ghost pv = param_views(available@);
                let mut labels: Vec<String> = Vec::new();
                let mut i: usize = 0;
                while i < available.len()
                    invariant
                        i <= available@.len(),
                        pv == param_views(available@),
                        string_views(labels@) == pv.take(i as int).map_values(
                            |p: (Seq<char>, Seq<char>)| operation_label(p),
                        ),
                    decreases available@.len() - i,
                {
                    let mut v = chars_of(available[i].0.as_str());
                    v.append(&mut chars_of(" ("));
                    v.append(&mut chars_of(available[i].1.as_str()));
                    v.append(&mut chars_of(")"));
                    let label = string_from_chars(v.as_slice());
                    let ghost before = string_views(labels@);
                    labels.push(label);
                    assert(string_views(labels@) =~= before.push(operation_label(pv[i as int])));
                    assert(pv.take(i + 1).map_values(|p: (Seq<char>, Seq<char>)| operation_label(p))
                        =~= pv.take(i as int).map_values(|p: (Seq<char>, Seq<char>)| operation_label(p)).push(
                        operation_label(pv[i as int]),
                    ));
                    i = i + 1;
                }
                assert(pv.take(available@.len() as int) =~= pv);
                let mut out = chars_of("Operation '");
                out.append(&mut chars_of(operation.as_str()));
                out.append(&mut chars_of("' not found. Available: "));
                out.append(&mut crate::catalog::join_strings(&labels, ", "));
                string_from_chars(out.as_slice())
            },
        }
    }
}

/// Whether the method sends its parameters in the query (GET, DELETE) rather than a JSON
/// body (POST, PUT).
pub open spec fn uses_query(m: HttpMethod) -> bool {
    m is Get || m is Delete
}

fn copy_params(params: &[(String, String)]) -> (r: Vec<(String, String)>)
    ensures
        param_views(r@) == param_views(params@),
{
    let mut out: Vec<(String, String)> = Vec::new();
    let mut i: usize = 0;
    while i < params.len()
        invariant
            i <= params@.len(),
            param_views(out@) == param_views(params@).take(i as int),
        decreases params@.len() - i,
    {
        let ghost before = param_views(out@);
        out.push((params[i].0.clone(), params[i].1.clone()));
        assert(param_views(out@) =~= before.push((params@[i as int].0@, params@[i as int].1@)));
        assert(param_views(params@).take(i + 1) =~= param_views(params@).take(i as int).push(
            (params@[i as int].0@, params@[i as int].1@),
        ));
        i = i + 1;
    }
    assert(param_views(params@).take(params@.len() as int) =~= param_views(params@));
    out
}

/// Plan a call of `operation_id` on `spec`: the operation's method and URL, where the key
/// goes, and the parameters in the query (read and delete calls) or in a JSON body (write
/// calls). An unknown operation is an error that lists the operations there are.
pub fn plan_call(spec: &ApiSpec, operation_id: &str, params: &[(String, String)], api_key: &str) -> (r: Result<RequestPlan, CallError>)
    ensures
        match operation_index(spec.operations@, operation_id@) {
            Some(k) => r matches Ok(p) && {
                let op = spec.operations@[k];
                &&& p.method == op.method
                &&& p.url@ == operation_url(spec.base_url@, op.path@)
                &&& p.auth@ == auth_placement(spec.auth@, api_key@)
                &&& p.json_body == !uses_query(op.method)
                &&& param_views(p.query@) == if uses_query(op.method) {
                    param_views(params@)
                } else {
                    Seq::empty()
                }
            },
            None => r matches Err(CallError::OperationNotFound { operation, available }) && operation@
                == operation_id@ && param_views(available@) == spec.operations@.map_values(
                |o: Operation| (o.path@, o.summary@),
            ),
        },
{
    match find_operation(spec, operation_id) {
        Some(op) => {
            let url = build_url(spec.base_url.as_str(), op.path.as_str());
            let auth = apply_auth(&spec.auth, api_key);
            let query_style = match op.method {
                HttpMethod::Get | HttpMethod::Delete => true,
                HttpMethod::Post | HttpMethod::Put => false,
            };
            let query = if query_style {
                copy_params(params)
            } else {
                let v: Vec<(String, String)> = Vec::new();
                assert(param_views(v@) =~= Seq::<(Seq<char>, Seq<char>)>::empty());
                v
            };
            Ok(RequestPlan { method: op.method, url, auth, query, json_body: !query_style })
        },
        None => {
            let mut available: Vec<(String, String)> = Vec::new();
            let mut i: usize = 0;
            while i < spec.operations.len()
                invariant
                    i <= spec.operations@.len(),
                    param_views(available@) == spec.operations@.take(i as int).map_values(
                        |o: Operation| (o.path@, o.summary@),
                    ),
                decreases spec.operations@.len() - i,
            {
                let o = &spec.operations[i];
                let ghost before = param_views(available@);
                available.push((o.path.clone(), o.summary.clone()));
                assert(param_views(available@) =~= before.push((o.path@, o.summary@)));
                assert(spec.operations@.take(i + 1).map_values(|o: Operation| (o.path@, o.summary@))
                    =~= spec.operations@.take(i as int).map_values(|o: Operation| (o.path@, o.summary@)).push(
                    (o.path@, o.summary@),
                ));
                i = i + 1;
            }
            assert(spec.operations@.take(spec.operations@.len() as int) =~= spec.operations@);
            Err(CallError::OperationNotFound { operation: operation_id.to_owned(), available })
        },
    }
}

// ---------------------------------------------------------------------------
// The response
// ---------------------------------------------------------------------------

/// The value at `path` in `v`, following object members.
pub open spec fn value_at(v: JsonV, path: Seq<Seq<char>>) -> Option<JsonV>
    decreases path.len(),
{
    if path.len() == 0 {
        Some(v)
    } else {
        match jget(v, path[0]) {
            Some(x) => value_at(x, path.drop_first()),
            None => None,
        }
    }
}

/// The data of a response: the value at the extractor's data path, or the whole body when
/// the path does not lead anywhere.
pub open spec fn extracted(body: JsonV, data_path: Seq<Seq<char>>) -> JsonV {
    match value_at(body, data_path) {
        Some(x) => x,
        None => body,
    }
}

/// The data of a response body.
pub fn extract_data(body: &Json, extractor: &ResponseExtractor) -> (r: Json)
    ensures
        r@ == extracted(body@, string_views(extractor.data_path@)),
{
    let ghost path = string_views(extractor.data_path@);
    let mut current = body;
    let mut i: usize = 0;
    assert(path.skip(0) =~= path);
    while i < extractor.data_path.len()
        invariant
            i <= extractor.data_path@.len(),
            path == string_views(extractor.data_path@),
            value_at(body@, path) == value_at(current@, path.skip(i as int)),
        decreases extractor.data_path@.len() - i,
    {
        assert(path.skip(i as int)[0] == extractor.data_path@[i as int]@);
        assert(path.skip(i as int).drop_first() =~= path.skip(i + 1));
        match current.get(extractor.data_path[i].as_str()) {
            Some(v) => {
                current = v;
            },
            None => {
                return body.copy();
            },
        }
        i = i + 1;
    }
    current.copy()
}

/// Whether an HTTP status is a success (2xx).
pub open spec fn is_success(status: u16) -> bool {
    200 <= status < 300
}

/// The response of a call: on a 2xx status the extracted data and the call's metadata
/// (`api_title`, `operation`); otherwise `HTTP_<status>`, the body's text (`body_text`, the
/// body as serialized by the caller) and what to check.
pub fn build_response(spec: &ApiSpec, operation_id: &str, status: u16, body: &Json, body_text: String) -> (r: ApiResponse)
    ensures
        r.success == is_success(status),
        r.raw_status == Some(status),
        is_success(status) ==> {
            &&& r.data matches Some(d) && d@ == extracted(body@, string_views(spec.extractor.data_path@))
            &&& r.error is None && r.message is None && r.action is None
            &&& r.metadata matches Some(m) && m@ == JsonV::Object(
                seq![
                    ("api_title"@, JsonV::Str(spec.list_id@)),
                    ("operation"@, JsonV::Str(operation_id@)),
                ],
            )
        },
        !is_success(status) ==> {
            &&& r.data is None && r.metadata is None
            &&& r.error matches Some(e) && e@ == "HTTP_"@ + crate::gateway::decimal(status as nat)
            &&& r.message matches Some(m) && m@ == body_text@
            &&& r.action matches Some(a) && a@ == "Check API key and parameters"@
        },
{
    if 200 <= status && status < 300 {
        let data = extract_data(body, &spec.extractor);
        let meta = vec![
            ("api_title".to_owned(), Json::Str(spec.list_id.clone())),
            ("operation".to_owned(), Json::Str(operation_id.to_owned())),
        ];
        let ghost mv = members_view(meta@);
        proof {
            crate::json::lemma_object_members(meta);
            assert(mv =~= seq![
                ("api_title"@, JsonV::Str(spec.list_id@)),
                ("operation"@, JsonV::Str(operation_id@)),
            ]);
        }
        ApiResponse {
            success: true,
            data: Some(data),
            error: None,
            message: None,
            action: None,
            raw_status: Some(status),
            metadata: Some(Json::Object(meta)),
        }
    } else {
        let mut e = chars_of("HTTP_");
        let mut d = crate::gateway::decimal_chars(status as u64);
        e.append(&mut d);
        ApiResponse {
            success: false,
            data: None,
            error: Some(string_from_chars(e.as_slice())),
            message: Some(body_text),
            action: Some("Check API key and parameters".to_owned()),
            raw_status: Some(status),
            metadata: None,
        }
    }
}

// ---------------------------------------------------------------------------
// XML response bodies
// ---------------------------------------------------------------------------

/// One event of an XML reader, with its data converted to strings.
#[derive(Debug)]
pub enum XmlEvent {
    /// A start tag, with its name.
    Start(String),
    /// An end tag.
    End,
    /// A self-closing tag, with its name.
    Empty(String),
    /// Character data, unescaped, or the reason it could not be.
    Text(Result<String, String>),
    /// The content of a CDATA section.
    CData(String),
    /// A comment, declaration, processing instruction or doctype.
    Other,
    /// The end of the input.
    Eof,
    /// A syntax error at this byte position, with its description.
    Error(u64, String),
}

pub enum XmlEventV {
    Start(Seq<char>),
    End,
    Empty(Seq<char>),
    Text(Result<Seq<char>, Seq<char>>),
    CData(Seq<char>),
    Other,
    Eof,
    Error(u64, Seq<char>),
}

impl View for XmlEvent {
    type V = XmlEventV;

    open spec fn view(&self) -> XmlEventV {
        match self {
            XmlEvent::Start(n) => XmlEventV::Start(n@),
            XmlEvent::End => XmlEventV::End,
            XmlEvent::Empty(n) => XmlEventV::Empty(n@),
            XmlEvent::Text(Ok(t)) => XmlEventV::Text(Ok(t@)),
            XmlEvent::Text(Err(e)) => XmlEventV::Text(Err(e@)),
            XmlEvent::CData(t) => XmlEventV::CData(t@),
            XmlEvent::Other => XmlEventV::Other,
            XmlEvent::Eof => XmlEventV::Eof,
            XmlEvent::Error(p, m) => XmlEventV::Error(*p, m@),
        }
    }
}

pub open spec fn events_view(v: Seq<XmlEvent>) -> Seq<XmlEventV> {
    v.map_values(|e: XmlEvent| e@)
}

/// One event as the XML reader reports it, its data left as bytes.
#[derive(Debug)]
pub enum XmlToken {
    /// A start tag, with its (qualified) name.
    Start(Vec<u8>),
    /// An end tag.
    End,
    /// A self-closing tag, with its name.
    Empty(Vec<u8>),
    /// Character data, still escaped.
    Text(Vec<u8>),
    /// The content of a CDATA section.
    CData(Vec<u8>),
    /// A comment, declaration, processing instruction or doctype.
    Other,
    /// The end of the input.
    Eof,
    /// A syntax error at this byte position, with its description.
    Error(u64, String),
}

pub enum XmlTokenV {
    Start(Seq<u8>),
    End,
    Empty(Seq<u8>),
    Text(Seq<u8>),
    CData(Seq<u8>),
    Other,
    Eof,
    Error(u64, Seq<char>),
}

impl View for XmlToken {
    type V = XmlTokenV;

    open spec fn view(&self) -> XmlTokenV {
        match self {
            XmlToken::Start(b) => XmlTokenV::Start(b@),
            XmlToken::End => XmlTokenV::End,
            XmlToken::Empty(b) => XmlTokenV::Empty(b@),
            XmlToken::Text(b) => XmlTokenV::Text(b@),
            XmlToken::CData(b) => XmlTokenV::CData(b@),
            XmlToken::Other => XmlTokenV::Other,
            XmlToken::Eof => XmlTokenV::Eof,
            XmlToken::Error(p, m) => XmlTokenV::Error(*p, m@),
        }
    }
}

/// Whether a token ends the reading: the end of the input or an error.
pub open spec fn is_last_token(t: XmlTokenV) -> bool {
    t is Eof || t is Error
}

/// Named result of reading `xml` with quick-xml (whitespace-only text trimmed): the tokens
/// up to and including the end of the input or the first error.
pub uninterp spec fn xml_token_stream(xml: Seq<char>) -> Seq<XmlTokenV>;

/// The XML reader of `quick-xml`.
#[verifier::external_type_specification]
#[verifier::external_body]
#[verifier::reject_recursive_types(R)]
pub struct ExXmlReader<R>(quick_xml::Reader<R>);

/// The tokens that a reader has still to report.
pub uninterp spec fn pending_tokens(r: quick_xml::Reader<&[u8]>) -> Seq<XmlTokenV>;

/// Named result of `String::from_utf8_lossy`.
pub uninterp spec fn lossy_utf8(b: Seq<u8>) -> Seq<char>;

/// Named result of `quick_xml::escape::unescape`: the text with its entity and character
/// references replaced, or the description of the first bad one.
pub uninterp spec fn xml_unescaped(s: Seq<char>) -> Result<Seq<char>, Seq<char>>;

/// Trusted: `quick_xml::Reader::from_str` configured with `trim_text(true)`. The tokens it
/// will report are those of `xml_token_stream(xml)`, which ends with the end of the input
/// or an error and holds neither before its last token.
#[verifier::external_body]
fn xml_reader<'a>(xml: &'a str) -> (r: quick_xml::Reader<&'a [u8]>)
    ensures
        pending_tokens(r) == xml_token_stream(xml@),
        pending_tokens(r).len() > 0,
        is_last_token(pending_tokens(r).last()),
        forall|i: int| 0 <= i < pending_tokens(r).len() - 1 ==> !is_last_token(#[trigger] pending_tokens(r)[i]),
{
    let mut r = quick_xml::Reader::from_str(xml);
    r.config_mut().trim_text(true);
    r
}

/// Trusted: `Reader::read_event`, the event converted one for one (names, text and CDATA
/// as their bytes; an error as the reader's `buffer_position` and its description). It
/// reports the next pending token.
#[verifier::external_body]
fn read_xml_token(reader: &mut quick_xml::Reader<&[u8]>) -> (r: XmlToken)
    requires
        pending_tokens(*old(reader)).len() > 0,
    ensures
        r@ == pending_tokens(*old(reader))[0],
        pending_tokens(*final(reader)) == pending_tokens(*old(reader)).drop_first(),
{
    match reader.read_event() {
        Ok(Event::Start(e)) => XmlToken::Start(e.name().as_ref().to_vec()),
        Ok(Event::End(_)) => XmlToken::End,
        Ok(Event::Empty(e)) => XmlToken::Empty(e.name().as_ref().to_vec()),
        Ok(Event::Text(e)) => XmlToken::Text(e.into_inner().to_vec()),
        Ok(Event::CData(e)) => XmlToken::CData(e.into_inner().to_vec()),
        Ok(Event::Eof) => XmlToken::Eof,
        Ok(_) => XmlToken::Other,
        Err(e) => XmlToken::Error(reader.buffer_position(), e.to_string()),
    }
}

/// Trusted: `String::from_utf8_lossy`; its result is a function of the bytes alone.
#[verifier::external_body]
fn utf8_lossy(b: &[u8]) -> (r: String)
    ensures
        r@ == lossy_utf8(b@),
{
    String::from_utf8_lossy(b).into_owned()
}

/// Trusted: `quick_xml::escape::unescape` (predefined entities and character references);
/// its result, or its error's description, is a function of the text alone.
#[verifier::external_body]
fn xml_unescape(s: &str) -> (r: Result<String, String>)
    ensures
        match r {
            Ok(t) => xml_unescaped(s@) == Ok::<Seq<char>, Seq<char>>(t@),
            Err(e) => xml_unescaped(s@) == Err::<Seq<char>, Seq<char>>(e@),
        },
{
    quick_xml::escape::unescape(s).map(|t| t.into_owned()).map_err(|e| e.to_string())
}

/// The event of a token: names and CDATA decoded from UTF-8 (lossily), text decoded and
/// unescaped.
pub open spec fn token_event(t: XmlTokenV) -> XmlEventV {
    match t {
        XmlTokenV::Start(b) => XmlEventV::Start(lossy_utf8(b)),
        XmlTokenV::End => XmlEventV::End,
        XmlTokenV::Empty(b) => XmlEventV::Empty(lossy_utf8(b)),
        XmlTokenV::Text(b) => XmlEventV::Text(xml_unescaped(lossy_utf8(b))),
        XmlTokenV::CData(b) => XmlEventV::CData(lossy_utf8(b)),
        XmlTokenV::Other => XmlEventV::Other,
        XmlTokenV::Eof => XmlEventV::Eof,
        XmlTokenV::Error(p, m) => XmlEventV::Error(p, m),
    }
}

/// The event of a token.
pub fn decode_token(t: XmlToken) -> (r: XmlEvent)
    ensures
        r@ == token_event(t@),
{
    match t {
        XmlToken::Start(b) => XmlEvent::Start(utf8_lossy(b.as_slice())),
        XmlToken::End => XmlEvent::End,
        XmlToken::Empty(b) => XmlEvent::Empty(utf8_lossy(b.as_slice())),
        XmlToken::Text(b) => {
            let text = utf8_lossy(b.as_slice());
            XmlEvent::Text(xml_unescape(text.as_str()))
        },
        XmlToken::CData(b) => XmlEvent::CData(utf8_lossy(b.as_slice())),
        XmlToken::Other => XmlEvent::Other,
        XmlToken::Eof => XmlEvent::Eof,
        XmlToken::Error(p, m) => XmlEvent::Error(p, m),
    }
}

/// The events of an XML text.
pub open spec fn xml_events_of(xml: Seq<char>) -> Seq<XmlEventV> {
    xml_token_stream(xml).map_values(|t: XmlTokenV| token_event(t))
}

/// Read all the events of an XML text, up to the end of the input or the first error.
pub fn xml_events(xml: &str) -> (r: Vec<XmlEvent>)
    ensures
        events_view(r@) == xml_events_of(xml@),
{
    let mut reader = xml_reader(xml);
    let ghost stream = pending_tokens(reader);
    let mut out: Vec<XmlEvent> = Vec::new();
    let mut k: usize = 0;
    let mut done = false;
    assert(events_view(out@) =~= stream.take(0).map_values(|t: XmlTokenV| token_event(t)));
    assert(stream.skip(0) =~= stream);
    while !done
        invariant
            stream == xml_token_stream(xml@),
            stream.len() > 0,
            is_last_token(stream.last()),
            forall|i: int| 0 <= i < stream.len() - 1 ==> !is_last_token(#[trigger] stream[i]),
            k <= stream.len(),
            done <==> k == stream.len(),
            !done ==> pending_tokens(reader) == stream.skip(k as int),
            events_view(out@) == stream.take(k as int).map_values(|t: XmlTokenV| token_event(t)),
        decreases stream.len() - k,
    {
        let t = read_xml_token(&mut reader);
        let last = match &t {
            XmlToken::Eof | XmlToken::Error(..) => true,
            _ => false,
        };
        assert(t@ == stream[k as int]);
        let ev = decode_token(t);
        let ghost before = events_view(out@);
        out.push(ev);
        proof {
            assert(events_view(out@) =~= before.push(ev@));
            assert(stream.take(k + 1).map_values(|t: XmlTokenV| token_event(t)) =~= stream.take(
                k as int,
            ).map_values(|t: XmlTokenV| token_event(t)).push(token_event(stream[k as int])));
            if !last {
                assert(stream.skip(k as int).drop_first() =~= stream.skip(k + 1));
            }
            assert(events_view(out@).len() == out@.len());
        }
        k = out.len();
        if last {
            done = true;
        }
    }
    assert(stream.take(stream.len() as int) =~= stream);
    out
}

/// Why an XML body could not be read.
#[derive(Debug)]
pub enum XmlError {
    /// An end tag without an open element.
    StackUnderflow,
    /// Text that could not be unescaped.
    Unescape(String),
    /// A syntax error at a byte position.
    Syntax { position: u64, message: String },
    /// No root element.
    NoRoot,
}

pub enum XmlErrorV {
    StackUnderflow,
    Unescape(Seq<char>),
    Syntax { position: u64, message: Seq<char> },
    NoRoot,
}

impl View for XmlError {
    type V = XmlErrorV;

    open spec fn view(&self) -> XmlErrorV {
        match self {
            XmlError::StackUnderflow => XmlErrorV::StackUnderflow,
            XmlError::Unescape(m) => XmlErrorV::Unescape(m@),
            XmlError::Syntax { position, message } => XmlErrorV::Syntax { position: *position, message: message@ },
            XmlError::NoRoot => XmlErrorV::NoRoot,
        }
    }
}

/// An open element: its name, its children so far and its text so far.
pub type FrameV = (Seq<char>, Seq<(Seq<char>, JsonV)>, Seq<char>);

/// The reading state: open elements (innermost last), the root once closed, and whether
/// the end of the input was seen.
pub struct XmlStateV {
    pub stack: Seq<FrameV>,
    pub root: Option<(Seq<char>, JsonV)>,
    pub done: bool,
}

/// The value of a closed element: its text when it has no children; its children when it
/// has no text; its children with the text under `$text` when it has both.
pub open spec fn element_value(children: Seq<(Seq<char>, JsonV)>, text: Seq<char>) -> JsonV {
    if children.len() == 0 {
        JsonV::Str(text)
    } else if text.len() == 0 {
        JsonV::Object(children)
    } else {
        JsonV::Object(set_member(children, "$text"@, JsonV::Str(text)))
    }
}

/// A child added to its parent: a repeated name turns into an array of the values, in
/// document order.
pub open spec fn add_child(m: Seq<(Seq<char>, JsonV)>, name: Seq<char>, value: JsonV) -> Seq<(Seq<char>, JsonV)> {
    match member_index(m, name) {
        Some(k) => match m[k].1 {
            JsonV::Array(arr) => m.update(k, (name, JsonV::Array(arr.push(value)))),
            existing => m.update(k, (name, JsonV::Array(seq![existing, value]))),
        },
        None => m.push((name, value)),
    }
}

/// One step of reading.
pub open spec fn xml_step(st: XmlStateV, ev: XmlEventV) -> Result<XmlStateV, XmlErrorV> {
    let n = st.stack.len();
    match ev {
        XmlEventV::Start(name) => Ok(XmlStateV { stack: st.stack.push((name, Seq::empty(), Seq::empty())), ..st }),
        XmlEventV::End => if n == 0 {
            Err(XmlErrorV::StackUnderflow)
        } else {
            let top = st.stack[n - 1];
            let value = element_value(top.1, top.2);
            let rest = st.stack.drop_last();
            if rest.len() == 0 {
                Ok(XmlStateV { stack: rest, root: Some((top.0, value)), ..st })
            } else {
                let p = rest.last();
                Ok(XmlStateV { stack: rest.update(rest.len() - 1, (p.0, add_child(p.1, top.0, value), p.2)), ..st })
            }
        },
        XmlEventV::Text(Ok(t)) => {
            let tt = crate::text::trim(t);
            if tt.len() > 0 && n > 0 {
                let top = st.stack[n - 1];
                Ok(XmlStateV { stack: st.stack.update(n - 1, (top.0, top.1, top.2 + tt)), ..st })
            } else {
                Ok(st)
            }
        },
        XmlEventV::Text(Err(m)) => Err(XmlErrorV::Unescape(m)),
        XmlEventV::CData(t) => if n > 0 {
            let top = st.stack[n - 1];
            Ok(XmlStateV { stack: st.stack.update(n - 1, (top.0, top.1, top.2 + t)), ..st })
        } else {
            Ok(st)
        },
        XmlEventV::Empty(name) => if n > 0 {
            let top = st.stack[n - 1];
            Ok(XmlStateV { stack: st.stack.update(n - 1, (top.0, set_member(top.1, name, JsonV::Null), top.2)), ..st })
        } else {
            Ok(XmlStateV { root: Some((name, JsonV::Null)), ..st })
        },
        XmlEventV::Other => Ok(st),
        XmlEventV::Eof => Ok(XmlStateV { done: true, ..st }),
        XmlEventV::Error(p, m) => Err(XmlErrorV::Syntax { position: p, message: m }),
    }
}

pub open spec fn initial_state() -> XmlStateV {
    XmlStateV { stack: Seq::empty(), root: None, done: false }
}

/// Reading a sequence of events; nothing after the end of the input is read.
pub open spec fn xml_fold(evs: Seq<XmlEventV>) -> Result<XmlStateV, XmlErrorV>
    decreases evs.len(),
{
    if evs.len() == 0 {
        Ok(initial_state())
    } else {
        match xml_fold(evs.drop_last()) {
            Err(e) => Err(e),
            Ok(st) => if st.done {
                Ok(st)
            } else {
                xml_step(st, evs.last())
            },
        }
    }
}

/// The value of an XML document: an object with one member, the root element's name and
/// value. Element values follow `element_value`, repeated children become arrays, a
/// self-closing element is `null`, text is trimmed; attributes are left out.
pub open spec fn xml_value(evs: Seq<XmlEventV>) -> Result<JsonV, XmlErrorV> {
    match xml_fold(evs) {
        Err(e) => Err(e),
        Ok(st) => match st.root {
            Some((name, value)) => Ok(JsonV::Object(seq![(name, value)])),
            None => Err(XmlErrorV::NoRoot),
        },
    }
}

pub open spec fn frames_view(s: Seq<(String, Vec<(String, Json)>, String)>) -> Seq<FrameV> {
    s.map_values(|f: (String, Vec<(String, Json)>, String)| (f.0@, members_view(f.1@), f.2@))
}

pub open spec fn root_view(r: Option<(String, Json)>) -> Option<(Seq<char>, JsonV)> {
    match r {
        Some((n, v)) => Some((n@, v@)),
        None => None,
    }
}

fn concat_strings(a: &String, b: &String) -> (r: String)
    ensures
        r@ == a@ + b@,
{
    let mut v = chars_of(a.as_str());
    let mut w = chars_of(b.as_str());
    v.append(&mut w);
    string_from_chars(v.as_slice())
}

fn element_json(children: Vec<(String, Json)>, text: String) -> (r: Json)
    ensures
        r@ == element_value(members_view(children@), text@),
{
    if children.len() == 0 {
        Json::Str(text)
    } else if text.as_str().is_empty() {
        proof {
            crate::json::lemma_object_members(children);
        }
        Json::Object(children)
    } else {
        let mut c = children;
        set_member_exec(&mut c, "$text".to_owned(), Json::Str(text));
        proof {
            crate::json::lemma_object_members(c);
        }
        Json::Object(c)
    }
}

fn add_child_exec(m: &mut Vec<(String, Json)>, name: String, value: Json)
    ensures
        members_view(final(m)@) == add_child(members_view(old(m)@), name@, value@),
{
    let ghost before = members_view(m@);
    proof {
        lemma_member_index(before, name@);
    }
    match find_member_index(m, &name) {
        Some(k) => {
            let (key, existing) = m.remove(k);
            let ghost ev = existing@;
            assert(ev == before[k as int].1);
            let merged = match existing {
                Json::Array(mut arr) => {
                    proof {
                        crate::json::lemma_array_elems(arr);
                    }
                    let ghost old_arr = elems_view(arr@);
                    arr.push(value);
                    proof {
                        crate::json::lemma_array_elems(arr);
                        assert(elems_view(arr@) =~= old_arr.push(value@));
                    }
                    Json::Array(arr)
                },
                other => {
                    let arr = vec![other, value];
                    proof {
                        crate::json::lemma_array_elems(arr);
                        assert(elems_view(arr@) =~= seq![ev, value@]);
                    }
                    Json::Array(arr)
                },
            };
            m.insert(k, (name, merged));
            assert(members_view(m@) =~= add_child(before, name@, value@));
        },
        None => {
            let ghost nv = name@;
            let ghost vv = value@;
            m.push((name, value));
            assert(members_view(m@) =~= before.push((nv, vv)));
        },
    }
}

/// Turn the events of an XML document into its value.
pub fn build_xml_value(events: &[XmlEvent]) -> (r: Result<Json, XmlError>)
    ensures
        match xml_value(events_view(events@)) {
            Ok(v) => r matches Ok(j) && j@ == v,
            Err(e) => r matches Err(x) && x@ == e,
        },
{
    let ghost evs = events_view(events@);
    let mut stack: Vec<(String, Vec<(String, Json)>, String)> = Vec::new();
    let mut root: Option<(String, Json)> = None;
    let mut i: usize = 0;
    let mut done = false;
    assert(evs.take(0) =~= Seq::<XmlEventV>::empty());
    assert(frames_view(stack@) =~= Seq::<FrameV>::empty());
    while i < events.len() && !done
        invariant
            i <= events@.len(),
            evs == events_view(events@),
            xml_fold(evs.take(i as int)) == Ok::<XmlStateV, XmlErrorV>(XmlStateV {
                stack: frames_view(stack@),
                root: root_view(root),
                done,
            }),
        decreases events@.len() - i,
    {
        let ghost st = XmlStateV {
            stack: frames_view(stack@),
            root: root_view(root),
            done,
        };
        assert(evs.take(i + 1).drop_last() =~= evs.take(i as int));
        assert(evs.take(i + 1).last() == events@[i as int]@);
        let ghost next = xml_step(st, events@[i as int]@);
        let n = stack.len();
        match &events[i] {
            XmlEvent::Start(name) => {
                let empty: Vec<(String, Json)> = Vec::new();
                assert(members_view(empty@) =~= Seq::<(Seq<char>, JsonV)>::empty());
                stack.push((name.clone(), empty, String::new()));
                proof {
                    assert(frames_view(stack@) =~= st.stack.push((name@, Seq::empty(), Seq::empty())));
                }
            },
            XmlEvent::End => {
                if n == 0 {
                    proof {
                        lemma_xml_fold_done(evs, i + 1);
                    }
                    return Err(XmlError::StackUnderflow);
                }
                let (name, children, text) = stack.pop().unwrap();
                let ghost top = st.stack[n - 1];
                assert(top == (name@, members_view(children@), text@));
                let value = element_json(children, text);
                assert(frames_view(stack@) =~= st.stack.drop_last());
                if stack.len() == 0 {
                    root = Some((name, value));
                } else {
                    let (pn, mut pc, pt) = stack.pop().unwrap();
                    let ghost rest = st.stack.drop_last();
                    assert(rest.last() == (pn@, members_view(pc@), pt@));
                    add_child_exec(&mut pc, name, value);
                    stack.push((pn, pc, pt));
                    assert(frames_view(stack@) =~= rest.update(rest.len() - 1, (rest.last().0, add_child(rest.last().1, top.0, element_value(top.1, top.2)), rest.last().2)));
                }
            },
            XmlEvent::Text(Ok(t)) => {
                let tt = crate::text::trim_string(t.as_str());
                if !tt.as_str().is_empty() && n > 0 {
                    let (fname, fc, ftext) = stack.pop().unwrap();
                    let joined = concat_strings(&ftext, &tt);
                    stack.push((fname, fc, joined));
                    assert(frames_view(stack@) =~= st.stack.update(n - 1, (st.stack[n - 1].0, st.stack[n - 1].1, st.stack[n - 1].2 + tt@)));
                }
            },
            XmlEvent::Text(Err(m)) => {
                proof {
                    lemma_xml_fold_done(evs, i + 1);
                }
                return Err(XmlError::Unescape(m.clone()));
            },
            XmlEvent::CData(t) => {
                if n > 0 {
                    let (fname, fc, ftext) = stack.pop().unwrap();
                    let joined = concat_strings(&ftext, t);
                    stack.push((fname, fc, joined));
                    assert(frames_view(stack@) =~= st.stack.update(n - 1, (st.stack[n - 1].0, st.stack[n - 1].1, st.stack[n - 1].2 + t@)));
                }
            },
            XmlEvent::Empty(name) => {
                if n > 0 {
                    let (fname, mut fc, ftext) = stack.pop().unwrap();
                    set_member_exec(&mut fc, name.clone(), Json::Null);
                    stack.push((fname, fc, ftext));
                    assert(frames_view(stack@) =~= st.stack.update(n - 1, (st.stack[n - 1].0, set_member(st.stack[n - 1].1, name@, JsonV::Null), st.stack[n - 1].2)));
                } else {
                    root = Some((name.clone(), Json::Null));
                }
            },
            XmlEvent::Other => {},
            XmlEvent::Eof => {
                done = true;
            },
            XmlEvent::Error(p, m) => {
                proof {
                    lemma_xml_fold_done(evs, i + 1);
                }
                return Err(XmlError::Syntax { position: *p, message: m.clone() });
            },
        }
        i = i + 1;
    }
    proof {
        lemma_xml_fold_done(evs, i as int);
    }
    match root {
        Some((name, value)) => {
            let members = vec![(name, value)];
            proof {
                crate::json::lemma_object_members(members);
                assert(members_view(members@) =~= seq![(members@[0].0@, members@[0].1@)]);
            }
            Ok(Json::Object(members))
        },
        None => Err(XmlError::NoRoot),
    }
}

/// Once the end of the input is read, later events change nothing.
proof fn lemma_xml_fold_done(evs: Seq<XmlEventV>, i: int)
    requires
        0 <= i <= evs.len(),
        i == evs.len() || xml_fold(evs.take(i)) is Err || (xml_fold(evs.take(i)) matches Ok(st)
            && st.done),
    ensures
        xml_fold(evs) == xml_fold(evs.take(i)),
    decreases evs.len() - i,
{
    if i < evs.len() {
        assert(evs.take(i + 1).drop_last() =~= evs.take(i));
        lemma_xml_fold_done(evs, i + 1);
    } else {
        assert(evs.take(i) =~= evs);
    }
}

/// Parse an XML response body into a JSON value (see `xml_value` for the mapping).
pub fn parse_xml_body(xml: &str) -> (r: Result<Json, XmlError>)
    ensures
        match xml_value(xml_events_of(xml@)) {
            Ok(v) => r matches Ok(j) && j@ == v,
            Err(e) => r matches Err(x) && x@ == e,
        },
{
    let events = xml_events(xml);
    build_xml_value(events.as_slice())
}

// ---------------------------------------------------------------------------
// Laws of XML reading
// ---------------------------------------------------------------------------

proof fn lemma_member_index_push(m: Seq<(Seq<char>, JsonV)>, key: Seq<char>, v: JsonV)
    requires
        member_index(m, key) is None,
    ensures
        member_index(m.push((key, v)), key) == Some(m.len() as int),
    decreases m.len(),
{
    if m.len() > 0 {
        assert(m.push((key, v)).drop_first() =~= m.drop_first().push((key, v)));
        lemma_member_index_push(m.drop_first(), key, v);
    }
}

/// Repeated child elements become an array of their values in document order: the first
/// is a plain member, the second turns it into a two-element array, the third extends it.
/// (An element's value is a string, an object or `null`, never an array.)
pub proof fn law_repeated_children_form_array(
    m: Seq<(Seq<char>, JsonV)>,
    name: Seq<char>,
    a: JsonV,
    b: JsonV,
    c: JsonV,
)
    requires
        member_index(m, name) is None,
        !(a is Array),
    ensures
        add_child(m, name, a) == m.push((name, a)),
        add_child(add_child(m, name, a), name, b) == m.push((name, JsonV::Array(seq![a, b]))),
        add_child(add_child(add_child(m, name, a), name, b), name, c) == m.push(
            (name, JsonV::Array(seq![a, b, c])),
        ),
{
    lemma_member_index_push(m, name, a);
    let m1 = m.push((name, a));
    assert(m1[m.len() as int].1 == a);
    let m2 = m1.update(m.len() as int, (name, JsonV::Array(seq![a, b])));
    assert(m2 =~= m.push((name, JsonV::Array(seq![a, b]))));
    lemma_member_index_push(m, name, JsonV::Array(seq![a, b]));
    assert(m2[m.len() as int].1 == JsonV::Array(seq![a, b]));
    assert(seq![a, b].push(c) =~= seq![a, b, c]);
    assert(m2.update(m.len() as int, (name, JsonV::Array(seq![a, b, c]))) =~= m.push(
        (name, JsonV::Array(seq![a, b, c])),
    ));
}

} // verus!
