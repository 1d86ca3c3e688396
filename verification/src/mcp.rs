//! The MCP server's decisions: JSON-RPC routing, the tool descriptions, and the answers of
//! the `search_api`, `get_api_spec` and `call_api` tools. Reading requests, calling APIs
//! and writing answers are left to the caller.

use vstd::prelude::*;
use crate::json_text::{json_text, to_json_text};
use crate::catalog::{catalog_views, opt_string_view, opt_view, ranked, search_bundle_catalog, to_search_entry};
use crate::json::{lemma_array_elems, lemma_object_members, elems_view, jget, jobject, jstr, ju64, members_view, Json, JsonNumber, JsonNumberV, JsonV};
use crate::text::{chars_of, string_from_chars, string_views};
use crate::types::{status_message, ApiSpec, Bundle, CatalogEntry, SearchResult, SpecStatus};

verus! {

// ---------------------------------------------------------------------------
// Building values
// ---------------------------------------------------------------------------

fn text(s: &str) -> (r: Json)
    ensures
        r@ == JsonV::Str(s@),
{
    Json::Str(s.to_owned())
}

fn object(m: Vec<(String, Json)>) -> (r: Json)
    ensures
        r@ == JsonV::Object(members_view(m@)),
{
    proof {
        lemma_object_members(m);
    }
    Json::Object(m)
}

fn concat(a: &str, b: &str) -> (r: String)
    ensures
        r@ == a@ + b@,
{
    let mut x = chars_of(a);
    let mut y = chars_of(b);
    x.append(&mut y);
    string_from_chars(x.as_slice())
}

// ---------------------------------------------------------------------------
// Server description
// ---------------------------------------------------------------------------

/// The MCP protocol version that the server speaks.
pub const PROTOCOL_VERSION: &'static str = "2024-11-05";

/// The server's name.
pub const SERVER_NAME: &'static str = "korea-cli";

/// The answer to `initialize`: protocol version, a `tools` capability, and the server's
/// name and `version`.
pub open spec fn initialize_value(version: Seq<char>) -> JsonV {
    JsonV::Object(
        seq![
            ("protocolVersion"@, JsonV::Str(PROTOCOL_VERSION@)),
            ("capabilities"@, JsonV::Object(seq![("tools"@, JsonV::Object(Seq::empty()))])),
            (
                "serverInfo"@,
                JsonV::Object(seq![("name"@, JsonV::Str(SERVER_NAME@)), ("version"@, JsonV::Str(version))]),
            ),
        ],
    )
}

/// Answer `initialize`; `version` is the package version.
pub fn handle_initialize(version: &str) -> (r: Json)
    ensures
        r@ == initialize_value(version@),
{
    let empty: Vec<(String, Json)> = Vec::new();
    assert(members_view(empty@) =~= Seq::<(Seq<char>, JsonV)>::empty());
    let tools = object(empty);
    let caps = vec![("tools".to_owned(), tools)];
    let ghost cv = members_view(caps@);
    let capabilities = object(caps);
    assert(cv =~= seq![("tools"@, JsonV::Object(Seq::empty()))]);
    let info = vec![("name".to_owned(), text(SERVER_NAME)), ("version".to_owned(), text(version))];
    let ghost iv = members_view(info@);
    let server_info = object(info);
    assert(iv =~= seq![("name"@, JsonV::Str(SERVER_NAME@)), ("version"@, JsonV::Str(version@))]);
    let top = vec![
        ("protocolVersion".to_owned(), text(PROTOCOL_VERSION)),
        ("capabilities".to_owned(), capabilities),
        ("serverInfo".to_owned(), server_info),
    ];
    let ghost tv = members_view(top@);
    let r = object(top);
    assert(tv =~= jobject(initialize_value(version@)).unwrap());
    r
}

/// What `search_api` does, as the tool list describes it.
pub const SEARCH_API_DESCRIPTION: &'static str = "한국 공공데이터포털 API 카탈로그를 검색합니다. 키워드, 카테고리로 후보 API를 찾습니다. 결과의 spec_status가 Available 또는 PartialStub인 API(is_callable=true)만 get_api_spec/call_api로 사용 가능합니다. PartialStub은 일부 operation만 수집된 상태입니다.";

/// What `get_api_spec` does, as the tool list describes it.
pub const GET_API_SPEC_DESCRIPTION: &'static str = "특정 API의 상세 스펙(파라미터, 응답 스키마)을 조회합니다. search_api로 찾은 list_id를 사용하세요.";

/// What `call_api` does, as the tool list describes it.
pub const CALL_API_DESCRIPTION: &'static str = "API를 호출하고 결과를 반환합니다. get_api_spec으로 파라미터를 확인한 후 사용하세요.";

/// An input property: its JSON type and its description.
pub open spec fn prop_value(ty: Seq<char>, description: Seq<char>) -> JsonV {
    JsonV::Object(seq![("type"@, JsonV::Str(ty)), ("description"@, JsonV::Str(description))])
}

pub open spec fn str_values(s: Seq<Seq<char>>) -> Seq<JsonV> {
    s.map_values(|x: Seq<char>| JsonV::Str(x))
}

/// A tool: its name, description and input schema (an object with these properties, of
/// which `required` must be given).
pub open spec fn tool_value(
    name: Seq<char>,
    description: Seq<char>,
    properties: Seq<(Seq<char>, JsonV)>,
    required: Seq<Seq<char>>,
) -> JsonV {
    JsonV::Object(
        seq![
            ("name"@, JsonV::Str(name)),
            ("description"@, JsonV::Str(description)),
            (
                "inputSchema"@,
                JsonV::Object(
                    seq![
                        ("type"@, JsonV::Str("object"@)),
                        ("properties"@, JsonV::Object(properties)),
                        ("required"@, JsonV::Array(str_values(required))),
                    ],
                ),
            ),
        ],
    )
}

/// The answer to `tools/list`: `search_api`, `get_api_spec` and `call_api`.
pub open spec fn tools_list_value() -> JsonV {
    JsonV::Object(
        seq![
            (
                "tools"@,
                JsonV::Array(
                    seq![
                        tool_value(
                            "search_api"@,
                            SEARCH_API_DESCRIPTION@,
                            seq![
                                ("query"@, prop_value("string"@, "검색 키워드"@)),
                                ("category"@, prop_value("string"@, "카테고리 필터 (선택)"@)),
                                ("limit"@, prop_value("number"@, "결과 수 (기본 10)"@)),
                            ],
                            seq!["query"@],
                        ),
                        tool_value(
                            "get_api_spec"@,
                            GET_API_SPEC_DESCRIPTION@,
                            seq![("list_id"@, prop_value("string"@, "API 서비스 ID"@))],
                            seq!["list_id"@],
                        ),
                        tool_value(
                            "call_api"@,
                            CALL_API_DESCRIPTION@,
                            seq![
                                ("list_id"@, prop_value("string"@, "API 서비스 ID"@)),
                                ("operation"@, prop_value("string"@, "오퍼레이션 경로 (예: /status)"@)),
                                ("params"@, prop_value("object"@, "API 파라미터"@)),
                            ],
                            seq!["list_id"@, "operation"@],
                        ),
                    ],
                ),
            ),
        ],
    )
}

fn prop(name: &str, ty: &str, description: &str) -> (r: (String, Json))
    ensures
        r.0@ == name@,
        r.1@ == prop_value(ty@, description@),
{
    let m = vec![("type".to_owned(), text(ty)), ("description".to_owned(), text(description))];
    let ghost mv = members_view(m@);
    let v = object(m);
    assert(mv =~= seq![("type"@, JsonV::Str(ty@)), ("description"@, JsonV::Str(description@))]);
    (name.to_owned(), v)
}

fn string_array(items: Vec<&str>) -> (r: Json)
    ensures
        r@ == JsonV::Array(items@.map_values(|s: &str| JsonV::Str(s@))),
{
    let mut out: Vec<Json> = Vec::new();
    let mut i: usize = 0;
    while i < items.len()
        invariant
            i <= items@.len(),
            elems_view(out@) == items@.take(i as int).map_values(|s: &str| JsonV::Str(s@)),
        decreases items@.len() - i,
    {
        let ghost before = elems_view(out@);
        out.push(text(items[i]));
        assert(elems_view(out@) =~= before.push(JsonV::Str(items@[i as int]@)));
        assert(items@.take(i + 1).map_values(|s: &str| JsonV::Str(s@)) =~= items@.take(i as int).map_values(
            |s: &str| JsonV::Str(s@),
        ).push(JsonV::Str(items@[i as int]@)));
        i = i + 1;
    }
    assert(items@.take(items@.len() as int) =~= items@);
    proof {
        lemma_array_elems(out);
    }
    Json::Array(out)
}

fn tool(name: &str, description: &str, properties: Vec<(String, Json)>, required: Vec<&str>) -> (r: Json)
    ensures
        r@ == tool_value(
            name@,
            description@,
            members_view(properties@),
            required@.map_values(|s: &str| s@),
        ),
{
    let ghost pv = members_view(properties@);
    let ghost rv = required@.map_values(|s: &str| s@);
    let req = string_array(required);
    assert(str_values(rv) =~= required@.map_values(|s: &str| JsonV::Str(s@)));
    let schema_members = vec![
        ("type".to_owned(), text("object")),
        ("properties".to_owned(), object(properties)),
        ("required".to_owned(), req),
    ];
    let ghost sv = members_view(schema_members@);
    let schema = object(schema_members);
    assert(sv =~= seq![
        ("type"@, JsonV::Str("object"@)),
        ("properties"@, JsonV::Object(pv)),
        ("required"@, JsonV::Array(str_values(rv))),
    ]);
    let m = vec![("name".to_owned(), text(name)), ("description".to_owned(), text(description)), ("inputSchema".to_owned(), schema)];
    let ghost mv = members_view(m@);
    let r = object(m);
    assert(mv =~= jobject(tool_value(name@, description@, pv, rv)).unwrap());
    r
}

/// Answer `tools/list`.
pub fn handle_tools_list() -> (r: Json)
    ensures
        r@ == tools_list_value(),
{
    let search_props = vec![
        prop("query", "string", "검색 키워드"),
        prop("category", "string", "카테고리 필터 (선택)"),
        prop("limit", "number", "결과 수 (기본 10)"),
    ];
    let ghost sp = members_view(search_props@);
    assert(sp =~= seq![
        ("query"@, prop_value("string"@, "검색 키워드"@)),
        ("category"@, prop_value("string"@, "카테고리 필터 (선택)"@)),
        ("limit"@, prop_value("number"@, "결과 수 (기본 10)"@)),
    ]);
    let search_req = vec!["query"];
    assert(search_req@.map_values(|s: &str| s@) =~= seq!["query"@]);
    let search = tool("search_api", SEARCH_API_DESCRIPTION, search_props, search_req);

    let spec_props = vec![prop("list_id", "string", "API 서비스 ID")];
    let ghost gp = members_view(spec_props@);
    assert(gp =~= seq![("list_id"@, prop_value("string"@, "API 서비스 ID"@))]);
    let spec_req = vec!["list_id"];
    assert(spec_req@.map_values(|s: &str| s@) =~= seq!["list_id"@]);
    let get_spec = tool("get_api_spec", GET_API_SPEC_DESCRIPTION, spec_props, spec_req);

    let call_props = vec![
        prop("list_id", "string", "API 서비스 ID"),
        prop("operation", "string", "오퍼레이션 경로 (예: /status)"),
        prop("params", "object", "API 파라미터"),
    ];
    let ghost cp = members_view(call_props@);
    assert(cp =~= seq![
        ("list_id"@, prop_value("string"@, "API 서비스 ID"@)),
        ("operation"@, prop_value("string"@, "오퍼레이션 경로 (예: /status)"@)),
        ("params"@, prop_value("object"@, "API 파라미터"@)),
    ]);
    let call_req = vec!["list_id", "operation"];
    assert(call_req@.map_values(|s: &str| s@) =~= seq!["list_id"@, "operation"@]);
    let call = tool("call_api", CALL_API_DESCRIPTION, call_props, call_req);

    let tools = vec![search, get_spec, call];
    let ghost tv = elems_view(tools@);
    proof {
        lemma_array_elems(tools);
    }
    let arr = Json::Array(tools);
    let top = vec![("tools".to_owned(), arr)];
    let ghost topv = members_view(top@);
    let r = object(top);
    assert(tv =~= jobject(tools_list_value()).unwrap()[0].1->Array_0);
    assert(topv =~= jobject(tools_list_value()).unwrap());
    r
}

// ---------------------------------------------------------------------------
// JSON-RPC routing
// ---------------------------------------------------------------------------

/// The `method` of a request (empty when it has none).
pub open spec fn method_of(request: JsonV) -> Seq<char> {
    match jget(request, "method"@) {
        Some(v) => match jstr(v) {
            Some(s) => s,
            None => Seq::empty(),
        },
        None => Seq::empty(),
    }
}

/// A JSON-RPC answer carrying `result` for the request `id` (`null` when it had none).
pub open spec fn response_value(id: Option<JsonV>, result: JsonV) -> JsonV {
    JsonV::Object(
        seq![
            ("jsonrpc"@, JsonV::Str("2.0"@)),
            (
                "id"@,
                match id {
                    Some(i) => i,
                    None => JsonV::Null,
                },
            ),
            ("result"@, result),
        ],
    )
}

/// The result for a method the server does not know.
pub open spec fn unknown_method_value(method: Seq<char>) -> JsonV {
    JsonV::Object(
        seq![
            (
                "error"@,
                JsonV::Object(
                    seq![
                        ("code"@, JsonV::Number(JsonNumberV::Negative(-32601i64))),
                        ("message"@, JsonV::Str("Unknown method: "@ + method)),
                    ],
                ),
            ),
        ],
    )
}

/// What to do with one request.
#[derive(Debug)]
pub enum RpcAction {
    /// Nothing to answer (a notification).
    Skip,
    /// Write this answer.
    Respond(Json),
    /// Run the tool call described by `params`, then answer `id` with its result.
    CallTool { id: Option<Json>, params: Json },
}

pub open spec fn opt_view_json(o: Option<Json>) -> Option<JsonV> {
    match o {
        Some(j) => Some(j@),
        None => None,
    }
}

/// The answer to request `id` with `result`.
pub fn rpc_response(id: Option<Json>, result: Json) -> (r: Json)
    ensures
        r@ == response_value(opt_view_json(id), result@),
{
    let ghost iv = opt_view_json(id);
    let ghost rv = result@;
    let idv = match id {
        Some(i) => i,
        None => Json::Null,
    };
    let m = vec![("jsonrpc".to_owned(), text("2.0")), ("id".to_owned(), idv), ("result".to_owned(), result)];
    let ghost mv = members_view(m@);
    let r = object(m);
    assert(mv =~= jobject(response_value(iv, rv)).unwrap());
    r
}

fn unknown_method(method: &str) -> (r: Json)
    ensures
        r@ == unknown_method_value(method@),
{
    let e = vec![
        ("code".to_owned(), Json::Number(JsonNumber::Negative(-32601))),
        ("message".to_owned(), Json::Str(concat("Unknown method: ", method))),
    ];
    let ghost ev = members_view(e@);
    let err = object(e);
    let m = vec![("error".to_owned(), err)];
    let ghost mv = members_view(m@);
    let r = object(m);
    assert(ev =~= jobject(jobject(unknown_method_value(method@)).unwrap()[0].1).unwrap());
    assert(mv =~= jobject(unknown_method_value(method@)).unwrap());
    r
}

/// Decide what to do with one JSON-RPC request: answer `initialize` and `tools/list`,
/// ignore `notifications/initialized`, hand `tools/call` (with its `params`, `{}` when
/// absent) to the tool runner, and answer any other method with a "method not found"
/// error. `version` is the package version.
pub fn rpc_step(request: &Json, version: &str) -> (r: RpcAction)
    ensures
        method_of(request@) == "initialize"@ ==> (r matches RpcAction::Respond(a) && a@ == response_value(
            jget(request@, "id"@),
            initialize_value(version@),
        )),
        method_of(request@) == "notifications/initialized"@ ==> r is Skip,
        method_of(request@) == "tools/list"@ ==> (r matches RpcAction::Respond(a) && a@ == response_value(
            jget(request@, "id"@),
            tools_list_value(),
        )),
        method_of(request@) == "tools/call"@ ==> (r matches RpcAction::CallTool { id, params } && opt_view_json(id)
            == jget(request@, "id"@) && params@ == match jget(request@, "params"@) {
            Some(p) => p,
            None => JsonV::Object(Seq::empty()),
        }),
        !(method_of(request@) == "initialize"@ || method_of(request@) == "notifications/initialized"@
            || method_of(request@) == "tools/list"@ || method_of(request@) == "tools/call"@) ==> (r matches RpcAction::Respond(a)
            && a@ == response_value(jget(request@, "id"@), unknown_method_value(method_of(request@)))),
{
    let id = match request.get("id") {
        Some(i) => Some(i.copy()),
        None => None,
    };
    let method = match request.get("method") {
        Some(v) => match v.as_str() {
            Some(s) => s.clone(),
            None => String::new(),
        },
        None => String::new(),
    };
    proof {
        reveal_strlit("initialize");
        reveal_strlit("notifications/initialized");
        reveal_strlit("tools/list");
        reveal_strlit("tools/call");
        assert("initialize"@[0] != "tools/list"@[0]);
        assert("initialize"@[0] != "tools/call"@[0]);
        assert("tools/list"@[6] != "tools/call"@[6]);
    }
    if method == "initialize".to_owned() {
        RpcAction::Respond(rpc_response(id, handle_initialize(version)))
    } else if method == "notifications/initialized".to_owned() {
        RpcAction::Skip
    } else if method == "tools/list".to_owned() {
        RpcAction::Respond(rpc_response(id, handle_tools_list()))
    } else if method == "tools/call".to_owned() {
        let params = match request.get("params") {
            Some(p) => p.copy(),
            None => {
                let empty: Vec<(String, Json)> = Vec::new();
                assert(members_view(empty@) =~= Seq::<(Seq<char>, JsonV)>::empty());
                object(empty)
            },
        };
        RpcAction::CallTool { id, params }
    } else {
        RpcAction::Respond(rpc_response(id, unknown_method(method.as_str())))
    }
}

// ---------------------------------------------------------------------------
// Tool calls
// ---------------------------------------------------------------------------

/// A tool call with its arguments read.
#[derive(Debug)]
pub enum ToolRequest {
    Search { query: String, category: Option<String>, limit: usize },
    GetSpec { list_id: String },
    Call { list_id: String, operation: String, params: Vec<(String, Json)> },
}

/// The named tool (empty when the call names none).
pub open spec fn tool_name_of(params: JsonV) -> Seq<char> {
    match jget(params, "name"@) {
        Some(v) => match jstr(v) {
            Some(s) => s,
            None => Seq::empty(),
        },
        None => Seq::empty(),
    }
}

/// The call's arguments (`{}` when absent).
pub open spec fn arguments_of(params: JsonV) -> JsonV {
    match jget(params, "arguments"@) {
        Some(a) => a,
        None => JsonV::Object(Seq::empty()),
    }
}

/// A string argument.
pub open spec fn arg_str(args: JsonV, key: Seq<char>) -> Option<Seq<char>> {
    match jget(args, key) {
        Some(v) => jstr(v),
        None => None,
    }
}

/// The result limit of a search: the `limit` argument when it is an unsigned integer, else 10.
pub open spec fn limit_of(args: JsonV) -> usize {
    match jget(args, "limit"@) {
        Some(v) => match ju64(v) {
            Some(l) => l as usize,
            None => 10,
        },
        None => 10,
    }
}

/// The `params` argument of a call as members (none when it is not an object).
pub open spec fn call_members(args: JsonV) -> Seq<(Seq<char>, JsonV)> {
    match jget(args, "params"@) {
        Some(JsonV::Object(m)) => m,
        _ => Seq::empty(),
    }
}

fn arg_string(args: &Json, key: &str) -> (r: Option<String>)
    ensures
        opt_string_view(r) == arg_str(args@, key@),
{
    match args.get(key) {
        Some(v) => match v.as_str() {
            Some(s) => Some(s.clone()),
            None => None,
        },
        None => None,
    }
}

/// Read a `tools/call` request: which tool, and its arguments. A missing required argument
/// or an unknown tool is an error message.
pub fn parse_tool_call(params: &Json) -> (r: Result<ToolRequest, String>)
    ensures
        ({
            let name = tool_name_of(params@);
            let args = arguments_of(params@);
            if name == "search_api"@ {
                match arg_str(args, "query"@) {
                    Some(q) => r matches Ok(ToolRequest::Search { query, category, limit }) && query@ == q
                        && opt_string_view(category) == arg_str(args, "category"@) && limit == limit_of(args),
                    None => r matches Err(e) && e@ == "missing 'query' parameter"@,
                }
            } else if name == "get_api_spec"@ {
                match arg_str(args, "list_id"@) {
                    Some(id) => r matches Ok(ToolRequest::GetSpec { list_id }) && list_id@ == id,
                    None => r matches Err(e) && e@ == "missing 'list_id' parameter"@,
                }
            } else if name == "call_api"@ {
                match (arg_str(args, "list_id"@), arg_str(args, "operation"@)) {
                    (Some(id), Some(op)) => r matches Ok(ToolRequest::Call { list_id, operation, params }) && list_id@
                        == id && operation@ == op && members_view(params@) == call_members(args),
                    (None, _) => r matches Err(e) && e@ == "missing 'list_id' parameter"@,
                    (Some(_), None) => r matches Err(e) && e@ == "missing 'operation' parameter"@,
                }
            } else {
                r matches Err(e) && e@ == "Unknown tool: "@ + name
            }
        }),
{
    let name = match params.get("name") {
        Some(v) => match v.as_str() {
            Some(s) => s.clone(),
            None => String::new(),
        },
        None => String::new(),
    };
    let empty: Vec<(String, Json)> = Vec::new();
    assert(members_view(empty@) =~= Seq::<(Seq<char>, JsonV)>::empty());
    let args = match params.get("arguments") {
        Some(a) => a.copy(),
        None => object(empty),
    };
    proof {
        reveal_strlit("search_api");
        reveal_strlit("get_api_spec");
        reveal_strlit("call_api");
        assert("search_api"@.len() != "get_api_spec"@.len());
        assert("search_api"@[0] != "call_api"@[0]);
        assert("get_api_spec"@.len() != "call_api"@.len());
    }
    if name == "search_api".to_owned() {
        let query = match arg_string(&args, "query") {
            Some(q) => q,
            None => {
                return Err("missing 'query' parameter".to_owned());
            },
        };
        let category = arg_string(&args, "category");
        let limit: usize = match args.get("limit") {
            Some(v) => match v.as_u64() {
                Some(l) => l as usize,
                None => 10,
            },
            None => 10,
        };
        Ok(ToolRequest::Search { query, category, limit })
    } else if name == "get_api_spec".to_owned() {
        match arg_string(&args, "list_id") {
            Some(list_id) => Ok(ToolRequest::GetSpec { list_id }),
            None => Err("missing 'list_id' parameter".to_owned()),
        }
    } else if name == "call_api".to_owned() {
        let list_id = match arg_string(&args, "list_id") {
            Some(x) => x,
            None => {
                return Err("missing 'list_id' parameter".to_owned());
            },
        };
        let operation = match arg_string(&args, "operation") {
            Some(x) => x,
            None => {
                return Err("missing 'operation' parameter".to_owned());
            },
        };
        let params: Vec<(String, Json)> = match args.get("params") {
            Some(p) => match p.copy() {
                Json::Object(v) => {
                    proof {
                        lemma_object_members(v);
                    }
                    v
                },
                _ => Vec::new(),
            },
            None => Vec::new(),
        };
        assert(members_view(params@) =~= call_members(args@));
        Ok(ToolRequest::Call { list_id, operation, params })
    } else {
        Err(concat("Unknown tool: ", name.as_str()))
    }
}

// ---------------------------------------------------------------------------
// Tool answers
// ---------------------------------------------------------------------------

/// The payload of a failed tool call.
pub open spec fn error_payload_value(message: Seq<char>) -> JsonV {
    JsonV::Object(seq![("success"@, JsonV::Bool(false)), ("error"@, JsonV::Str(message))])
}

/// The payload of a failed tool call; the caller serializes it as the answer's text.
pub fn tool_error_payload(message: &str) -> (r: Json)
    ensures
        r@ == error_payload_value(message@),
{
    let m = vec![("success".to_owned(), Json::Bool(false)), ("error".to_owned(), text(message))];
    let ghost mv = members_view(m@);
    let r = object(m);
    assert(mv =~= jobject(error_payload_value(message@)).unwrap());
    r
}

/// The answer of a tool call: one text content, flagged as an error when it is one.
pub open spec fn tool_content_value(text: Seq<char>, is_error: bool) -> JsonV {
    let content = (
        "content"@,
        JsonV::Array(seq![JsonV::Object(seq![("type"@, JsonV::Str("text"@)), ("text"@, JsonV::Str(text))])]),
    );
    if is_error {
        JsonV::Object(seq![content, ("isError"@, JsonV::Bool(true))])
    } else {
        JsonV::Object(seq![content])
    }
}

/// Wrap a tool's serialized answer `body` as MCP content.
pub fn tool_content(body: String, is_error: bool) -> (r: Json)
    ensures
        r@ == tool_content_value(body@, is_error),
{
    let ghost bv = body@;
    let item = vec![("type".to_owned(), text("text")), ("text".to_owned(), Json::Str(body))];
    let ghost iv = members_view(item@);
    let item_value = object(item);
    assert(iv =~= seq![("type"@, JsonV::Str("text"@)), ("text"@, JsonV::Str(bv))]);
    let arr = vec![item_value];
    let ghost av = elems_view(arr@);
    proof {
        lemma_array_elems(arr);
    }
    let content = Json::Array(arr);
    assert(av =~= seq![JsonV::Object(seq![("type"@, JsonV::Str("text"@)), ("text"@, JsonV::Str(bv))])]);
    let mut m = vec![("content".to_owned(), content)];
    if is_error {
        m.push(("isError".to_owned(), Json::Bool(true)));
    }
    let ghost mv = members_view(m@);
    let r = object(m);
    assert(mv =~= jobject(tool_content_value(bv, is_error)).unwrap());
    r
}

/// The answer of a search on an empty bundle.
pub open spec fn bundle_empty_value() -> JsonV {
    JsonV::Object(
        seq![
            ("success"@, JsonV::Bool(false)),
            ("error"@, JsonV::Str("BUNDLE_EMPTY"@)),
            ("message"@, JsonV::Str("번들이 비어있습니다."@)),
            ("action"@, JsonV::Str("korea-cli update 를 먼저 실행하세요."@)),
        ],
    )
}

/// What a search tool call answers.
#[derive(Debug)]
pub enum SearchOutcome {
    /// The bundle has no catalog: this answer.
    BundleEmpty(Json),
    /// The search result, to be serialized as the answer.
    Found(SearchResult),
}

/// Run `search_api`: an empty catalog is reported as such; otherwise the catalog search.
pub fn run_search(catalog: &[CatalogEntry], query: &str, category: Option<&str>, limit: usize) -> (r: SearchOutcome)
    ensures
        catalog@.len() == 0 ==> (r matches SearchOutcome::BundleEmpty(a) && a@ == bundle_empty_value()),
        catalog@.len() > 0 ==> (r matches SearchOutcome::Found(res) && {
            let rk = ranked(catalog_views(catalog@), query@, opt_view(category));
            &&& res.total == rk.len()
            &&& res.results@.len() == if limit < res.total {
                limit as int
            } else {
                res.total as int
            }
            &&& forall|k: int|
                0 <= k < res.results@.len() ==> #[trigger] res.results@[k]@ == to_search_entry(catalog@[rk[k].1]@)
        }),
{
    if catalog.len() == 0 {
        let m = vec![
            ("success".to_owned(), Json::Bool(false)),
            ("error".to_owned(), text("BUNDLE_EMPTY")),
            ("message".to_owned(), text("번들이 비어있습니다.")),
            ("action".to_owned(), text("korea-cli update 를 먼저 실행하세요.")),
        ];
        let ghost mv = members_view(m@);
        let r = object(m);
        assert(mv =~= jobject(bundle_empty_value()).unwrap());
        return SearchOutcome::BundleEmpty(r);
    }
    SearchOutcome::Found(search_bundle_catalog(catalog, query, category, limit))
}

/// The name under which a status is reported.
pub open spec fn status_name(s: SpecStatus) -> Seq<char> {
    match s {
        SpecStatus::Available => "Available"@,
        SpecStatus::Skeleton => "Skeleton"@,
        SpecStatus::HtmlOnly => "HtmlOnly"@,
        SpecStatus::External => "External"@,
        SpecStatus::CatalogOnly => "CatalogOnly"@,
        SpecStatus::Unsupported => "Unsupported"@,
        SpecStatus::PartialStub => "PartialStub"@,
    }
}

/// The name under which a status is reported.
pub fn spec_status_name(s: SpecStatus) -> (r: &'static str)
    ensures
        r@ == status_name(s),
{
    match s {
        SpecStatus::Available => "Available",
        SpecStatus::Skeleton => "Skeleton",
        SpecStatus::HtmlOnly => "HtmlOnly",
        SpecStatus::External => "External",
        SpecStatus::CatalogOnly => "CatalogOnly",
        SpecStatus::Unsupported => "Unsupported",
        SpecStatus::PartialStub => "PartialStub",
    }
}

/// The spec stored under `list_id`: the first one with that key.
pub fn find_spec<'a>(bundle: &'a Bundle, list_id: &str) -> (r: Option<&'a ApiSpec>)
    ensures
        match r {
            Some(s) => exists|k: int|
                0 <= k < bundle.specs@.len() && (#[trigger] bundle.specs@[k]).0@ == list_id@ && bundle.specs@[k].1
                    == *s && forall|j: int| 0 <= j < k ==> (#[trigger] bundle.specs@[j]).0@ != list_id@,
            None => forall|k: int| 0 <= k < bundle.specs@.len() ==> (#[trigger] bundle.specs@[k]).0@ != list_id@,
        },
{
    let key = list_id.to_owned();
    let mut i: usize = 0;
    while i < bundle.specs.len()
        invariant
            i <= bundle.specs@.len(),
            key@ == list_id@,
            forall|j: int| 0 <= j < i ==> (#[trigger] bundle.specs@[j]).0@ != list_id@,
        decreases bundle.specs@.len() - i,
    {
        if bundle.specs[i].0 == key {
            return Some(&bundle.specs[i].1);
        }
        i = i + 1;
    }
    None
}

/// The catalog entry of `list_id`: the first one with that id.
pub fn find_catalog_entry<'a>(catalog: &'a [CatalogEntry], list_id: &str) -> (r: Option<&'a CatalogEntry>)
    ensures
        match r {
            Some(e) => exists|k: int|
                0 <= k < catalog@.len() && (#[trigger] catalog@[k]).list_id@ == list_id@ && catalog@[k] == *e
                    && forall|j: int| 0 <= j < k ==> (#[trigger] catalog@[j]).list_id@ != list_id@,
            None => forall|k: int| 0 <= k < catalog@.len() ==> (#[trigger] catalog@[k]).list_id@ != list_id@,
        },
{
    let key = list_id.to_owned();
    let mut i: usize = 0;
    while i < catalog.len()
        invariant
            i <= catalog@.len(),
            key@ == list_id@,
            forall|j: int| 0 <= j < i ==> (#[trigger] catalog@[j]).list_id@ != list_id@,
        decreases catalog@.len() - i,
    {
        if catalog[i].list_id == key {
            return Some(&catalog[i]);
        }
        i = i + 1;
    }
    None
}

/// The guidance given with a spec when no API key is configured.
pub const KEY_GUIDE: &'static str = "이 API를 호출하려면 API 키가 필요합니다. DATA_GO_KR_API_KEY 환경변수를 설정하세요.";

/// The members added to a spec's answer: success, its status, whether a key is configured,
/// a note for a partial stub, and the key guidance when there is no key.
pub open spec fn spec_extras(status: SpecStatus, has_key: bool) -> Seq<(Seq<char>, JsonV)> {
    let base = seq![
        ("success"@, JsonV::Bool(true)),
        ("spec_status"@, JsonV::Str(status_name(status))),
        ("has_api_key"@, JsonV::Bool(has_key)),
    ];
    let with_note = if status == SpecStatus::PartialStub {
        base.push(("partial_note"@, JsonV::Str(status_message(status))))
    } else {
        base
    };
    if !has_key {
        with_note.push(("key_guide"@, JsonV::Str(KEY_GUIDE@)))
    } else {
        with_note
    }
}

/// Members `extras` set one after the other.
pub open spec fn set_all(m: Seq<(Seq<char>, JsonV)>, extras: Seq<(Seq<char>, JsonV)>) -> Seq<(Seq<char>, JsonV)>
    decreases extras.len(),
{
    if extras.len() == 0 {
        m
    } else {
        crate::caller::set_member(set_all(m, extras.drop_last()), extras.last().0, extras.last().1)
    }
}

/// A spec's answer: the serialized spec (an object) with the extra members set; a value
/// that is not an object is left as it is.
pub open spec fn spec_output_value(spec_value: JsonV, status: SpecStatus, has_key: bool) -> JsonV {
    match spec_value {
        JsonV::Object(m) => JsonV::Object(set_all(m, spec_extras(status, has_key))),
        other => other,
    }
}

/// Complete the answer of `get_api_spec` for a stored spec: `spec_value` is the spec
/// serialized, `status` its catalog status and `has_key` whether a key is configured.
pub fn spec_output(spec_value: Json, status: SpecStatus, has_key: bool) -> (r: Json)
    ensures
        r@ == spec_output_value(spec_value@, status, has_key),
{
    let ghost sv = spec_value@;
    match spec_value {
        Json::Object(m) => {
            proof {
                lemma_object_members(m);
            }
            let mut extras: Vec<(String, Json)> = vec![
                ("success".to_owned(), Json::Bool(true)),
                ("spec_status".to_owned(), text(spec_status_name(status))),
                ("has_api_key".to_owned(), Json::Bool(has_key)),
            ];
            if status == SpecStatus::PartialStub {
                extras.push(("partial_note".to_owned(), text(status.user_message())));
            }
            if !has_key {
                extras.push(("key_guide".to_owned(), text(KEY_GUIDE)));
            }
            let ghost ev = members_view(extras@);
            assert(ev =~= spec_extras(status, has_key));
            let mut out = m;
            let mut i: usize = 0;
            assert(ev.take(0) =~= Seq::<(Seq<char>, JsonV)>::empty());
            while i < extras.len()
                invariant
                    i <= extras@.len(),
                    ev == members_view(extras@),
                    sv == JsonV::Object(members_view(m@)),
                    members_view(out@) == set_all(jobject(sv).unwrap(), ev.take(i as int)),
                decreases extras@.len() - i,
            {
                let (k, v) = (extras[i].0.clone(), extras[i].1.copy());
                assert(ev.take(i + 1).drop_last() =~= ev.take(i as int));
                assert(ev.take(i + 1).last() == (k@, v@));
                crate::caller::set_member_exec(&mut out, k, v);
                i = i + 1;
            }
            assert(ev.take(ev.len() as int) =~= ev);
            object(out)
        },
        other => other,
    }
}

/// The address of a service's portal page.
pub open spec fn portal_url(list_id: Seq<char>) -> Seq<char> {
    "https://www.data.go.kr/data/"@ + list_id + "/openapi.do"@
}

/// The answer for a service without a stored spec: its catalog status, endpoint, message
/// and portal page when the catalog lists it; `NOT_FOUND` otherwise.
pub open spec fn missing_spec_value(list_id: Seq<char>, entry: Option<CatalogEntry>) -> JsonV {
    match entry {
        Some(e) => JsonV::Object(
            seq![
                ("success"@, JsonV::Bool(false)),
                ("list_id"@, JsonV::Str(list_id)),
                ("spec_status"@, JsonV::Str(status_name(e.spec_status))),
                ("endpoint_url"@, JsonV::Str(e.endpoint_url@)),
                ("message"@, JsonV::Str(status_message(e.spec_status))),
                ("data_go_kr_url"@, JsonV::Str(portal_url(list_id))),
            ],
        ),
        None => JsonV::Object(
            seq![
                ("success"@, JsonV::Bool(false)),
                ("error"@, JsonV::Str("NOT_FOUND"@)),
                ("message"@, JsonV::Str("API를 찾을 수 없습니다: "@ + list_id)),
            ],
        ),
    }
}

/// The answer of `get_api_spec` or `call_api` for a service without a stored spec.
pub fn missing_spec_output(list_id: &str, entry: Option<&CatalogEntry>) -> (r: Json)
    ensures
        r@ == missing_spec_value(
            list_id@,
            match entry {
                Some(e) => Some(*e),
                None => None,
            },
        ),
{
    match entry {
        Some(e) => {
            let url = concat(concat("https://www.data.go.kr/data/", list_id).as_str(), "/openapi.do");
            let m = vec![
                ("success".to_owned(), Json::Bool(false)),
                ("list_id".to_owned(), text(list_id)),
                ("spec_status".to_owned(), text(spec_status_name(e.spec_status))),
                ("endpoint_url".to_owned(), Json::Str(e.endpoint_url.clone())),
                ("message".to_owned(), text(e.spec_status.user_message())),
                ("data_go_kr_url".to_owned(), Json::Str(url)),
            ];
            let ghost mv = members_view(m@);
            let r = object(m);
            assert(mv =~= jobject(missing_spec_value(list_id@, Some(*e))).unwrap());
            r
        },
        None => {
            let m = vec![
                ("success".to_owned(), Json::Bool(false)),
                ("error".to_owned(), text("NOT_FOUND")),
                ("message".to_owned(), Json::Str(concat("API를 찾을 수 없습니다: ", list_id))),
            ];
            let ghost mv = members_view(m@);
            let r = object(m);
            assert(mv =~= jobject(missing_spec_value(list_id@, None)).unwrap());
            r
        },
    }
}

/// The answer of `call_api` when no API key is configured.
pub open spec fn no_api_key_value() -> JsonV {
    JsonV::Object(
        seq![
            ("success"@, JsonV::Bool(false)),
            ("error"@, JsonV::Str("NO_API_KEY"@)),
            ("message"@, JsonV::Str("API 키가 설정되지 않았습니다."@)),
            ("action"@, JsonV::Str("DATA_GO_KR_API_KEY 환경변수를 설정하세요."@)),
        ],
    )
}

pub fn no_api_key_output() -> (r: Json)
    ensures
        r@ == no_api_key_value(),
{
    let m = vec![
        ("success".to_owned(), Json::Bool(false)),
        ("error".to_owned(), text("NO_API_KEY")),
        ("message".to_owned(), text("API 키가 설정되지 않았습니다.")),
        ("action".to_owned(), text("DATA_GO_KR_API_KEY 환경변수를 설정하세요.")),
    ];
    let ghost mv = members_view(m@);
    let r = object(m);
    assert(mv =~= jobject(no_api_key_value()).unwrap());
    r
}

/// The call parameters from the `params` argument's members: a string value as it is, any
/// other value as its compact JSON text.
pub fn call_params(members: &Vec<(String, Json)>) -> (r: Vec<(String, String)>)
    ensures
        r@.len() == members@.len(),
        forall|i: int|
            0 <= i < members@.len() ==> (#[trigger] r@[i]).0@ == members@[i].0@ && r@[i].1@ == match members@[i].1@ {
                JsonV::Str(s) => s,
                other => json_text(other),
            },
{
    let mut out: Vec<(String, String)> = Vec::new();
    let mut i: usize = 0;
    while i < members.len()
        invariant
            i <= members@.len(),
            out@.len() == i,
            forall|j: int|
                0 <= j < i ==> (#[trigger] out@[j]).0@ == members@[j].0@ && out@[j].1@ == match members@[j].1@ {
                    JsonV::Str(s) => s,
                    other => json_text(other),
                },
        decreases members@.len() - i,
    {
        let value = match &members[i].1 {
            Json::Str(s) => s.clone(),
            other => to_json_text(other),
        };
        out.push((members[i].0.clone(), value));
        i = i + 1;
    }
    out
}

} // verus!
