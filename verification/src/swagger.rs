//! Swagger 2.0 specs: their normalization into `ApiSpec`, and where the portal's pages
//! keep them.

use vstd::prelude::*;
use crate::json::{
    jarray, jbool, jget, jidx, jobject, jstr, jstr_at, jstr_or, members_view, elems_view, Json, JsonV,
    lemma_array_elems, lemma_object_members,
};
use crate::captures::{first_group, first_match_group};
use crate::text::{chars_of, contains, lowercase, str_contains, string_from_chars, string_views, to_lowercase};
use crate::types::{
    ApiProtocol, ApiSpec, ApiSpecV, AuthMethod, AuthMethodV, AuthPreference, ContentType, ErrorCheck,
    HttpMethod, Operation, OperationV, ParamLocation, Parameter, ParameterV, RequestBody,
    RequestBodyV, ResponseExtractor, ResponseField, ResponseFieldV, ResponseFormat,
};

verus! {

// ---------------------------------------------------------------------------
// Small helpers
// ---------------------------------------------------------------------------

proof fn lemma_empty_literal()
    ensures
        ""@ == Seq::<char>::empty(),
{
    reveal_strlit("");
    assert(""@ =~= Seq::<char>::empty());
}

/// `value[key]` on an exec value: the member, or `Null` when there is none.
fn idx<'a>(v: &'a Json, key: &str, null: &'a Json) -> (r: &'a Json)
    requires
        null@ == JsonV::Null,
    ensures
        r@ == jidx(v@, key@),
{
    match v.get(key) {
        Some(x) => x,
        None => null,
    }
}

/// `value[key].as_str().unwrap_or(default)`.
fn str_or(v: &Json, key: &str, default: &str) -> (r: String)
    ensures
        r@ == jstr_or(v@, key@, default@),
{
    v.str_or(key, default)
}

fn concat3(a: &str, b: &str, c: &str) -> (r: String)
    ensures
        r@ == a@ + b@ + c@,
{
    let mut v = chars_of(a);
    let mut w = chars_of(b);
    let mut x = chars_of(c);
    v.append(&mut w);
    v.append(&mut x);
    string_from_chars(v.as_slice())
}

fn eq_lit(s: &str, lit: &str) -> (r: bool)
    ensures
        r == (s@ == lit@),
{
    s.to_owned() == lit.to_owned()
}

// ---------------------------------------------------------------------------
// Auth
// ---------------------------------------------------------------------------

/// What the security definitions declare: whether a query key exists and its name (the
/// last one), whether a header key exists and its name (the last one).
pub open spec fn auth_scan(defs: Seq<(Seq<char>, JsonV)>) -> (bool, Seq<char>, bool, Seq<char>)
    decreases defs.len(),
{
    if defs.len() == 0 {
        (false, Seq::empty(), false, Seq::empty())
    } else {
        let r = auth_scan(defs.drop_last());
        let def = defs.last().1;
        let location = jstr_or(def, "in"@, Seq::empty());
        let name = jstr_or(def, "name"@, Seq::empty());
        if location == "query"@ {
            (true, name, r.2, r.3)
        } else if location == "header"@ {
            (r.0, r.1, true, name)
        } else {
            r
        }
    }
}

/// The auth method of a spec: from its `securityDefinitions` object, a query key and a
/// header key give both (the query preferred, header prefix `Infuser `), one of them gives
/// that one, neither gives none.
pub open spec fn auth_of(spec: JsonV) -> AuthMethodV {
    match jidx(spec, "securityDefinitions"@) {
        JsonV::Object(defs) => {
            let s = auth_scan(defs);
            if s.0 && s.2 {
                AuthMethodV::Both {
                    query: s.1,
                    header_name: s.3,
                    header_prefix: "Infuser "@,
                    prefer: AuthPreference::Query,
                }
            } else if s.0 {
                AuthMethodV::QueryParam { name: s.1 }
            } else if s.2 {
                AuthMethodV::Header { name: s.3, prefix: "Infuser "@ }
            } else {
                AuthMethodV::NoAuth
            }
        },
        _ => AuthMethodV::NoAuth,
    }
}

/// Extract the auth method from the spec's security definitions.
pub fn parse_auth(spec: &Json) -> (r: AuthMethod)
    ensures
        r@ == auth_of(spec@),
{
    let null = Json::Null;
    let sec_defs = idx(spec, "securityDefinitions", &null);
    let defs = match sec_defs {
        Json::Object(d) => d,
        _ => {
            return AuthMethod::NoAuth;
        },
    };
    proof {
        lemma_object_members(*defs);
    }
    let ghost dv = members_view(defs@);
    let mut has_query = false;
    let mut query_name = String::new();
    let mut has_header = false;
    let mut header_name = String::new();
    let mut i: usize = 0;
    assert(dv.take(0) =~= Seq::<(Seq<char>, JsonV)>::empty());
    while i < defs.len()
        invariant
            i <= defs@.len(),
            dv == members_view(defs@),
            auth_scan(dv.take(i as int)) == (has_query, query_name@, has_header, header_name@),
        decreases defs@.len() - i,
    {
        assert(dv.take(i + 1).drop_last() =~= dv.take(i as int));
        assert(dv.take(i + 1).last().1 == defs@[i as int].1@);
        let def = &defs[i].1;
        let location = str_or(def, "in", "");
        let name = str_or(def, "name", "");
        proof {
            lemma_empty_literal();
        }
        if eq_lit(location.as_str(), "query") {
            has_query = true;
            query_name = name;
        } else if eq_lit(location.as_str(), "header") {
            has_header = true;
            header_name = name;
        }
        i = i + 1;
    }
    assert(dv.take(defs@.len() as int) =~= dv);
    if has_query && has_header {
        AuthMethod::Both {
            query: query_name,
            header_name,
            header_prefix: "Infuser ".to_owned(),
            prefer: AuthPreference::Query,
        }
    } else if has_query {
        AuthMethod::QueryParam { name: query_name }
    } else if has_header {
        AuthMethod::Header { name: header_name, prefix: "Infuser ".to_owned() }
    } else {
        AuthMethod::NoAuth
    }
}

// ---------------------------------------------------------------------------
// Parameter types
// ---------------------------------------------------------------------------

/// A type text: the `type` string (or `default`), and for an array `array(<item type>)`
/// with the items' `type` (or `default`).
pub open spec fn type_text(v: JsonV, default: Seq<char>) -> Seq<char> {
    let base = match jstr_at(v, "type"@) {
        Some(t) => t,
        None => default,
    };
    if base == "array"@ {
        "array("@ + match jstr_at(jidx(v, "items"@), "type"@) {
            Some(t) => t,
            None => default,
        } + ")"@
    } else {
        base
    }
}

fn type_text_exec(v: &Json, default: &str) -> (r: String)
    ensures
        r@ == type_text(v@, default@),
{
    let null = Json::Null;
    let base = match v.str_at("type") {
        Some(t) => t.clone(),
        None => default.to_owned(),
    };
    if eq_lit(base.as_str(), "array") {
        let items = idx(v, "items", &null);
        let item = match items.str_at("type") {
            Some(t) => t.clone(),
            None => default.to_owned(),
        };
        concat3("array(", item.as_str(), ")")
    } else {
        base
    }
}

/// Format a parameter's type, arrays as `array(<item type>)`; `string` by default.
pub fn format_param_type(param: &Json) -> (r: String)
    ensures
        r@ == type_text(param@, "string"@),
{
    type_text_exec(param, "string")
}

// ---------------------------------------------------------------------------
// Body fields and response fields
// ---------------------------------------------------------------------------

/// The strings of an array (other elements left out).
pub open spec fn strings_of(a: Seq<JsonV>) -> Seq<Seq<char>>
    decreases a.len(),
{
    if a.len() == 0 {
        Seq::empty()
    } else {
        let r = strings_of(a.drop_last());
        match a.last() {
            JsonV::Str(s) => r.push(s),
            _ => r,
        }
    }
}

/// The body fields of a body parameter: one per property of `schema.properties`, in order,
/// required when `schema.required` lists it.
pub open spec fn body_fields(param: JsonV) -> Seq<ParameterV> {
    let schema = jidx(param, "schema"@);
    let required = match jarray(jidx(schema, "required"@)) {
        Some(a) => strings_of(a),
        None => Seq::empty(),
    };
    match jobject(jidx(schema, "properties"@)) {
        Some(props) => props.map_values(
            |p: (Seq<char>, JsonV)|
                ParameterV {
                    name: p.0,
                    description: jstr_or(p.1, "description"@, Seq::empty()),
                    location: ParamLocation::Body,
                    param_type: type_text(p.1, "string"@),
                    required: required.contains(p.0),
                    default: None,
                },
        ),
        None => Seq::empty(),
    }
}

pub open spec fn params_view(v: Seq<Parameter>) -> Seq<ParameterV> {
    v.map_values(|p: Parameter| p@)
}

fn string_items(a: &Vec<Json>) -> (r: Vec<String>)
    ensures
        string_views(r@) == strings_of(elems_view(a@)),
{
    let ghost av = elems_view(a@);
    let mut out: Vec<String> = Vec::new();
    let mut i: usize = 0;
    assert(av.take(0) =~= Seq::<JsonV>::empty());
    while i < a.len()
        invariant
            i <= a@.len(),
            av == elems_view(a@),
            string_views(out@) == strings_of(av.take(i as int)),
        decreases a@.len() - i,
    {
        assert(av.take(i + 1).drop_last() =~= av.take(i as int));
        assert(av.take(i + 1).last() == a@[i as int]@);
        match &a[i] {
            Json::Str(s) => {
                let ghost before = string_views(out@);
                out.push(s.clone());
                assert(string_views(out@) =~= before.push(s@));
            },
            _ => {},
        }
        i = i + 1;
    }
    assert(av.take(a@.len() as int) =~= av);
    out
}

fn contains_string(v: &Vec<String>, s: &String) -> (r: bool)
    ensures
        r == string_views(v@).contains(s@),
{
    let mut i: usize = 0;
    while i < v.len()
        invariant
            i <= v@.len(),
            forall|j: int| 0 <= j < i ==> v@[j]@ != s@,
        decreases v@.len() - i,
    {
        if v[i] == *s {
            assert(string_views(v@)[i as int] == s@);
            return true;
        }
        i = i + 1;
    }
    assert forall|j: int| 0 <= j < string_views(v@).len() implies string_views(v@)[j] != s@ by {
        assert(string_views(v@)[j] == v@[j]@);
    }
    false
}

/// Extract the body schema's properties as parameters.
pub fn extract_body_fields(param: &Json) -> (r: Vec<Parameter>)
    ensures
        params_view(r@) == body_fields(param@),
{
    let null = Json::Null;
    let schema = idx(param, "schema", &null);
    let required: Vec<String> = match idx(schema, "required", &null) {
        Json::Array(a) => {
            proof {
                lemma_array_elems(*a);
            }
            string_items(a)
        },
        _ => Vec::new(),
    };
    let ghost req = string_views(required@);
    assert(req == match jarray(jidx(schema@, "required"@)) {
        Some(a) => strings_of(a),
        None => Seq::<Seq<char>>::empty(),
    });
    let props = match idx(schema, "properties", &null) {
        Json::Object(p) => p,
        _ => {
            let v: Vec<Parameter> = Vec::new();
            assert(params_view(v@) =~= body_fields(param@));
            return v;
        },
    };
    proof {
        lemma_object_members(*props);
    }
    let ghost pv = members_view(props@);
    let mut out: Vec<Parameter> = Vec::new();
    let mut i: usize = 0;
    while i < props.len()
        invariant
            i <= props@.len(),
            pv == members_view(props@),
            req == string_views(required@),
            params_view(out@) == pv.take(i as int).map_values(
                |p: (Seq<char>, JsonV)|
                    ParameterV {
                        name: p.0,
                        description: jstr_or(p.1, "description"@, Seq::empty()),
                        location: ParamLocation::Body,
                        param_type: type_text(p.1, "string"@),
                        required: req.contains(p.0),
                        default: None,
                    },
            ),
        decreases props@.len() - i,
    {
        let (name, prop) = &props[i];
        proof {
            lemma_empty_literal();
        }
        let p = Parameter {
            name: name.clone(),
            description: str_or(prop, "description", ""),
            location: ParamLocation::Body,
            param_type: type_text_exec(prop, "string"),
            required: contains_string(&required, name),
            default: None,
        };
        let ghost before = params_view(out@);
        out.push(p);
        proof {
            assert(pv[i as int] == (name@, prop@));
            assert(params_view(out@) =~= before.push(p@));
            assert(pv.take(i + 1) =~= pv.take(i as int).push(pv[i as int]));
        }
        i = i + 1;
    }
    assert(pv.take(props@.len() as int) =~= pv);
    out
}

/// The response fields of an operation: one per property of the 200 response's
/// `schema.properties`, in order, typed `object` by default.
pub open spec fn response_fields_of(details: JsonV) -> Seq<ResponseFieldV> {
    let r200 = jidx(jidx(details, "responses"@), "200"@);
    match jobject(jidx(jidx(r200, "schema"@), "properties"@)) {
        Some(props) => props.map_values(
            |p: (Seq<char>, JsonV)|
                ResponseFieldV {
                    name: p.0,
                    description: jstr_or(p.1, "description"@, Seq::empty()),
                    field_type: type_text(p.1, "object"@),
                },
        ),
        None => Seq::empty(),
    }
}

pub open spec fn fields_view(v: Seq<ResponseField>) -> Seq<ResponseFieldV> {
    v.map_values(|f: ResponseField| f@)
}

/// Extract the 200 response's schema properties as response fields.
pub fn parse_response_fields(details: &Json) -> (r: Vec<ResponseField>)
    ensures
        fields_view(r@) == response_fields_of(details@),
{
    let null = Json::Null;
    let responses = idx(details, "responses", &null);
    let r200 = idx(responses, "200", &null);
    let schema = idx(r200, "schema", &null);
    let props = match idx(schema, "properties", &null) {
        Json::Object(p) => p,
        _ => {
            let v: Vec<ResponseField> = Vec::new();
            assert(fields_view(v@) =~= response_fields_of(details@));
            return v;
        },
    };
    proof {
        lemma_object_members(*props);
    }
    let ghost pv = members_view(props@);
    let mut out: Vec<ResponseField> = Vec::new();
    let mut i: usize = 0;
    while i < props.len()
        invariant
            i <= props@.len(),
            pv == members_view(props@),
            fields_view(out@) == pv.take(i as int).map_values(
                |p: (Seq<char>, JsonV)|
                    ResponseFieldV {
                        name: p.0,
                        description: jstr_or(p.1, "description"@, Seq::empty()),
                        field_type: type_text(p.1, "object"@),
                    },
            ),
        decreases props@.len() - i,
    {
        let (name, prop) = &props[i];
        proof {
            lemma_empty_literal();
        }
        let f = ResponseField {
            name: name.clone(),
            description: str_or(prop, "description", ""),
            field_type: type_text_exec(prop, "object"),
        };
        let ghost before = fields_view(out@);
        out.push(f);
        proof {
            assert(pv[i as int] == (name@, prop@));
            assert(fields_view(out@) =~= before.push(f@));
            assert(pv.take(i + 1) =~= pv.take(i as int).push(pv[i as int]));
        }
        i = i + 1;
    }
    assert(pv.take(props@.len() as int) =~= pv);
    out
}

// ---------------------------------------------------------------------------
// Parameters
// ---------------------------------------------------------------------------

pub open spec fn location_of(s: Seq<char>) -> ParamLocation {
    if s == "path"@ {
        ParamLocation::Path
    } else if s == "header"@ {
        ParamLocation::Header
    } else {
        ParamLocation::Query
    }
}

/// A non-body parameter.
pub open spec fn parameter_of(p: JsonV) -> ParameterV {
    ParameterV {
        name: jstr_or(p, "name"@, Seq::empty()),
        description: jstr_or(p, "description"@, Seq::empty()),
        location: location_of(jstr_or(p, "in"@, Seq::empty())),
        param_type: type_text(p, "string"@),
        required: match jbool(jidx(p, "required"@)) {
            Some(b) => b,
            None => false,
        },
        default: jstr(jidx(p, "default"@)),
    }
}

/// The parameters of an operation and its request body: `serviceKey` and `Authorization`
/// are left out; a body parameter gives the request body (JSON, the last one wins); the
/// others are parameters in order.
pub open spec fn params_scan(ps: Seq<JsonV>) -> (Seq<ParameterV>, Option<RequestBodyV>)
    decreases ps.len(),
{
    if ps.len() == 0 {
        (Seq::empty(), None)
    } else {
        let r = params_scan(ps.drop_last());
        let p = ps.last();
        let name = jstr_or(p, "name"@, Seq::empty());
        let location = jstr_or(p, "in"@, Seq::empty());
        if name == "serviceKey"@ || name == "Authorization"@ {
            r
        } else if location == "body"@ {
            (r.0, Some(RequestBodyV { content_type: ContentType::Json, fields: body_fields(p) }))
        } else {
            (r.0.push(parameter_of(p)), r.1)
        }
    }
}

pub open spec fn parameters_of(details: JsonV) -> (Seq<ParameterV>, Option<RequestBodyV>) {
    match jarray(jidx(details, "parameters"@)) {
        Some(a) => params_scan(a),
        None => (Seq::empty(), None),
    }
}

pub open spec fn body_view(b: Option<RequestBody>) -> Option<RequestBodyV> {
    match b {
        Some(x) => Some(x@),
        None => None,
    }
}

fn parameter_exec(p: &Json) -> (r: Parameter)
    ensures
        r@ == parameter_of(p@),
{
    let null = Json::Null;
    proof {
        lemma_empty_literal();
    }
    let location = str_or(p, "in", "");
    let loc = if eq_lit(location.as_str(), "path") {
        ParamLocation::Path
    } else if eq_lit(location.as_str(), "header") {
        ParamLocation::Header
    } else {
        ParamLocation::Query
    };
    let required = match idx(p, "required", &null).as_bool() {
        Some(b) => b,
        None => false,
    };
    let default = match idx(p, "default", &null).as_str() {
        Some(s) => Some(s.clone()),
        None => None,
    };
    let r = Parameter {
        name: str_or(p, "name", ""),
        description: str_or(p, "description", ""),
        location: loc,
        param_type: type_text_exec(p, "string"),
        required,
        default,
    };
    r
}

/// Parse an operation's parameters and its request body.
pub fn parse_parameters(details: &Json) -> (r: (Vec<Parameter>, Option<RequestBody>))
    ensures
        (params_view(r.0@), body_view(r.1)) == parameters_of(details@),
{
    let null = Json::Null;
    let arr = match idx(details, "parameters", &null) {
        Json::Array(a) => a,
        _ => {
            let v: Vec<Parameter> = Vec::new();
            assert(params_view(v@) =~= Seq::<ParameterV>::empty());
            return (v, None);
        },
    };
    proof {
        lemma_array_elems(*arr);
    }
    let ghost av = elems_view(arr@);
    let mut parameters: Vec<Parameter> = Vec::new();
    let mut request_body: Option<RequestBody> = None;
    let mut i: usize = 0;
    assert(av.take(0) =~= Seq::<JsonV>::empty());
    assert(params_view(parameters@) =~= Seq::<ParameterV>::empty());
    while i < arr.len()
        invariant
            i <= arr@.len(),
            av == elems_view(arr@),
            params_scan(av.take(i as int)) == (params_view(parameters@), body_view(request_body)),
        decreases arr@.len() - i,
    {
        assert(av.take(i + 1).drop_last() =~= av.take(i as int));
        assert(av.take(i + 1).last() == arr@[i as int]@);
        let param = &arr[i];
        proof {
            lemma_empty_literal();
        }
        let name = str_or(param, "name", "");
        let location = str_or(param, "in", "");
        if eq_lit(name.as_str(), "serviceKey") || eq_lit(name.as_str(), "Authorization") {
        } else if eq_lit(location.as_str(), "body") {
            let fields = extract_body_fields(param);
            request_body = Some(RequestBody { content_type: ContentType::Json, fields });
        } else {
            let p = parameter_exec(param);
            let ghost before = params_view(parameters@);
            parameters.push(p);
            assert(params_view(parameters@) =~= before.push(p@));
        }
        i = i + 1;
    }
    assert(av.take(arr@.len() as int) =~= av);
    (parameters, request_body)
}

// ---------------------------------------------------------------------------
// Operations
// ---------------------------------------------------------------------------

/// The HTTP method named by a Swagger method key (any case); other keys name none.
pub open spec fn method_of(key: Seq<char>) -> Option<HttpMethod> {
    let l = lowercase(key);
    if l == "get"@ {
        Some(HttpMethod::Get)
    } else if l == "post"@ {
        Some(HttpMethod::Post)
    } else if l == "put"@ {
        Some(HttpMethod::Put)
    } else if l == "delete"@ {
        Some(HttpMethod::Delete)
    } else {
        None
    }
}

/// The request content type: from the first `consumes` string; JSON for an unknown one,
/// unspecified when there is none.
pub open spec fn content_type_of(details: JsonV) -> ContentType {
    match jarray(jidx(details, "consumes"@)) {
        Some(a) => if a.len() > 0 {
            match jstr(a[0]) {
                Some(ct) => if ct == "application/json"@ {
                    ContentType::Json
                } else if ct == "application/xml"@ || ct == "text/xml"@ {
                    ContentType::Xml
                } else if ct == "application/x-www-form-urlencoded"@ {
                    ContentType::FormUrlEncoded
                } else {
                    ContentType::Json
                },
                None => ContentType::Unspecified,
            }
        } else {
            ContentType::Unspecified
        },
        None => ContentType::Unspecified,
    }
}

pub open spec fn operation_from(path: Seq<char>, method: HttpMethod, details: JsonV) -> OperationV {
    OperationV {
        path,
        method,
        summary: jstr_or(details, "summary"@, Seq::empty()),
        content_type: content_type_of(details),
        parameters: parameters_of(details).0,
        request_body: parameters_of(details).1,
        response_fields: response_fields_of(details),
    }
}

/// The operations of one path, in method order; keys that are not HTTP methods are left out.
pub open spec fn path_operations(path: Seq<char>, methods: Seq<(Seq<char>, JsonV)>) -> Seq<OperationV>
    decreases methods.len(),
{
    if methods.len() == 0 {
        Seq::empty()
    } else {
        let r = path_operations(path, methods.drop_last());
        match method_of(methods.last().0) {
            Some(m) => r.push(operation_from(path, m, methods.last().1)),
            None => r,
        }
    }
}

/// The operations of all paths, path after path; a path whose value is not an object has
/// none.
pub open spec fn all_operations(paths: Seq<(Seq<char>, JsonV)>) -> Seq<OperationV>
    decreases paths.len(),
{
    if paths.len() == 0 {
        Seq::empty()
    } else {
        all_operations(paths.drop_last()) + match jobject(paths.last().1) {
            Some(methods) => path_operations(paths.last().0, methods),
            None => Seq::empty(),
        }
    }
}

pub open spec fn ops_view(v: Seq<Operation>) -> Seq<OperationV> {
    v.map_values(|o: Operation| o@)
}

fn content_type_exec(details: &Json) -> (r: ContentType)
    ensures
        r == content_type_of(details@),
{
    let null = Json::Null;
    match idx(details, "consumes", &null) {
        Json::Array(a) => {
            proof {
                lemma_array_elems(*a);
            }
            if a.len() > 0 {
                match a[0].as_str() {
                    Some(ct) => {
                        if eq_lit(ct.as_str(), "application/json") {
                            ContentType::Json
                        } else if eq_lit(ct.as_str(), "application/xml") || eq_lit(ct.as_str(), "text/xml") {
                            ContentType::Xml
                        } else if eq_lit(ct.as_str(), "application/x-www-form-urlencoded") {
                            ContentType::FormUrlEncoded
                        } else {
                            ContentType::Json
                        }
                    },
                    None => ContentType::Unspecified,
                }
            } else {
                ContentType::Unspecified
            }
        },
        _ => ContentType::Unspecified,
    }
}

fn method_exec(key: &String) -> (r: Option<HttpMethod>)
    ensures
        r == method_of(key@),
{
    let l = to_lowercase(key.as_str());
    if eq_lit(l.as_str(), "get") {
        Some(HttpMethod::Get)
    } else if eq_lit(l.as_str(), "post") {
        Some(HttpMethod::Post)
    } else if eq_lit(l.as_str(), "put") {
        Some(HttpMethod::Put)
    } else if eq_lit(l.as_str(), "delete") {
        Some(HttpMethod::Delete)
    } else {
        None
    }
}

fn operation_exec(path: &String, method: HttpMethod, details: &Json) -> (r: Operation)
    ensures
        r@ == operation_from(path@, method, details@),
{
    proof {
        lemma_empty_literal();
    }
    let (parameters, request_body) = parse_parameters(details);
    let r = Operation {
        path: path.clone(),
        method,
        summary: str_or(details, "summary", ""),
        content_type: content_type_exec(details),
        parameters,
        request_body,
        response_fields: parse_response_fields(details),
    };
    assert(r@.parameters =~= params_view(r.parameters@));
    assert(r@.response_fields =~= fields_view(r.response_fields@));
    assert(r@.request_body == body_view(r.request_body));
    r
}

fn collect_operations(paths: &Vec<(String, Json)>) -> (r: Vec<Operation>)
    ensures
        ops_view(r@) == all_operations(members_view(paths@)),
{
    let ghost pv = members_view(paths@);
    let mut out: Vec<Operation> = Vec::new();
    let mut i: usize = 0;
    assert(pv.take(0) =~= Seq::<(Seq<char>, JsonV)>::empty());
    assert(ops_view(out@) =~= Seq::<OperationV>::empty());
    while i < paths.len()
        invariant
            i <= paths@.len(),
            pv == members_view(paths@),
            ops_view(out@) == all_operations(pv.take(i as int)),
        decreases paths@.len() - i,
    {
        assert(pv.take(i + 1).drop_last() =~= pv.take(i as int));
        assert(pv.take(i + 1).last() == (paths@[i as int].0@, paths@[i as int].1@));
        let (path, methods) = &paths[i];
        match methods {
            Json::Object(m) => {
                proof {
                    lemma_object_members(*m);
                }
                let ghost mv = members_view(m@);
                let ghost start = ops_view(out@);
                let mut j: usize = 0;
                assert(mv.take(0) =~= Seq::<(Seq<char>, JsonV)>::empty());
                assert(ops_view(out@) =~= start + path_operations(path@, mv.take(0)));
                while j < m.len()
                    invariant
                        j <= m@.len(),
                        mv == members_view(m@),
                        ops_view(out@) == start + path_operations(path@, mv.take(j as int)),
                    decreases m@.len() - j,
                {
                    assert(mv.take(j + 1).drop_last() =~= mv.take(j as int));
                    assert(mv.take(j + 1).last() == (m@[j as int].0@, m@[j as int].1@));
                    let (method_str, details) = &m[j];
                    match method_exec(method_str) {
                        Some(method) => {
                            let op = operation_exec(path, method, details);
                            let ghost before = ops_view(out@);
                            out.push(op);
                            assert(ops_view(out@) =~= before.push(op@));
                        },
                        None => {},
                    }
                    j = j + 1;
                }
                assert(mv.take(m@.len() as int) =~= mv);
            },
            _ => {
                assert(ops_view(out@) =~= ops_view(out@) + Seq::<OperationV>::empty());
            },
        }
        i = i + 1;
    }
    assert(pv.take(paths@.len() as int) =~= pv);
    out
}

/// The response format: from the first `produces` string of the first path's first
/// member, XML when it mentions `xml`; JSON otherwise.
pub open spec fn format_of(spec: JsonV) -> ResponseFormat {
    match jobject(jidx(spec, "paths"@)) {
        Some(paths) => if paths.len() > 0 {
            match jobject(paths[0].1) {
                Some(methods) => if methods.len() > 0 {
                    match jarray(jidx(methods[0].1, "produces"@)) {
                        Some(a) => if a.len() > 0 {
                            match jstr(a[0]) {
                                Some(p) => if contains(p, "xml"@) {
                                    ResponseFormat::Xml
                                } else {
                                    ResponseFormat::Json
                                },
                                None => ResponseFormat::Json,
                            }
                        } else {
                            ResponseFormat::Json
                        },
                        None => ResponseFormat::Json,
                    }
                } else {
                    ResponseFormat::Json
                },
                None => ResponseFormat::Json,
            }
        } else {
            ResponseFormat::Json
        },
        None => ResponseFormat::Json,
    }
}

fn format_exec(spec: &Json) -> (r: ResponseFormat)
    ensures
        r == format_of(spec@),
{
    let null = Json::Null;
    let paths = match idx(spec, "paths", &null) {
        Json::Object(p) => p,
        _ => {
            return ResponseFormat::Json;
        },
    };
    proof {
        lemma_object_members(*paths);
    }
    if paths.len() == 0 {
        return ResponseFormat::Json;
    }
    let methods = match &paths[0].1 {
        Json::Object(m) => m,
        _ => {
            return ResponseFormat::Json;
        },
    };
    proof {
        lemma_object_members(*methods);
    }
    if methods.len() == 0 {
        return ResponseFormat::Json;
    }
    let produces = match idx(&methods[0].1, "produces", &null) {
        Json::Array(a) => a,
        _ => {
            return ResponseFormat::Json;
        },
    };
    proof {
        lemma_array_elems(*produces);
    }
    if produces.len() == 0 {
        return ResponseFormat::Json;
    }
    match produces[0].as_str() {
        Some(p) => {
            if str_contains(p.as_str(), "xml") {
                ResponseFormat::Xml
            } else {
                ResponseFormat::Json
            }
        },
        None => ResponseFormat::Json,
    }
}

/// The protocol of a host: the ODCloud gateway, the data.go.kr gateway, or another host.
pub open spec fn protocol_of(host: Seq<char>) -> ApiProtocol {
    if contains(host, "api.odcloud.kr"@) {
        ApiProtocol::InfuserRest
    } else if contains(host, "apis.data.go.kr"@) {
        ApiProtocol::DataGoKrRest
    } else {
        ApiProtocol::ExternalRest
    }
}

/// The base URL of a spec: `<scheme>://<host><basePath>`, with the first scheme
/// (`https` when there is none), an empty host and base path when missing.
pub open spec fn base_url_of(spec: JsonV) -> Seq<char> {
    let host = jstr_or(spec, "host"@, Seq::empty());
    let base_path = jstr_or(spec, "basePath"@, Seq::empty());
    let scheme = match jarray(jidx(spec, "schemes"@)) {
        Some(a) => if a.len() > 0 {
            match jstr(a[0]) {
                Some(s) => s,
                None => "https"@,
            }
        } else {
            "https"@
        },
        None => "https"@,
    };
    scheme + "://"@ + host + base_path
}

/// The normalized spec of a Swagger 2.0 document fetched at `fetched_at`.
pub open spec fn swagger_spec(list_id: Seq<char>, spec: JsonV, fetched_at: Seq<char>) -> ApiSpecV {
    ApiSpecV {
        list_id,
        base_url: base_url_of(spec),
        protocol: protocol_of(jstr_or(spec, "host"@, Seq::empty())),
        auth: auth_of(spec),
        extractor: crate::types::ResponseExtractorV {
            data_path: Seq::empty(),
            error_check: crate::types::ErrorCheckV::HttpStatus,
            pagination: None,
            format: format_of(spec),
        },
        operations: match jobject(jidx(spec, "paths"@)) {
            Some(paths) => all_operations(paths),
            None => Seq::empty(),
        },
        fetched_at,
        missing_operations: Seq::empty(),
    }
}

/// Parse a Swagger 2.0 JSON spec into an `ApiSpec` stamped `fetched_at`.
pub fn parse_swagger_at(list_id: &str, spec: &Json, fetched_at: String) -> (r: ApiSpec)
    ensures
        r@ == swagger_spec(list_id@, spec@, fetched_at@),
{
    let null = Json::Null;
    proof {
        lemma_empty_literal();
    }
    let host = str_or(spec, "host", "");
    let base_path = str_or(spec, "basePath", "");
    let scheme: String = match idx(spec, "schemes", &null) {
        Json::Array(a) => {
            proof {
                lemma_array_elems(*a);
            }
            if a.len() > 0 {
                match a[0].as_str() {
                    Some(s) => s.clone(),
                    None => "https".to_owned(),
                }
            } else {
                "https".to_owned()
            }
        },
        _ => "https".to_owned(),
    };
    let mut url = chars_of(scheme.as_str());
    let mut sep = chars_of("://");
    let mut h = chars_of(host.as_str());
    let mut bp = chars_of(base_path.as_str());
    url.append(&mut sep);
    url.append(&mut h);
    url.append(&mut bp);
    let base_url = string_from_chars(url.as_slice());
    let protocol = if str_contains(host.as_str(), "api.odcloud.kr") {
        ApiProtocol::InfuserRest
    } else if str_contains(host.as_str(), "apis.data.go.kr") {
        ApiProtocol::DataGoKrRest
    } else {
        ApiProtocol::ExternalRest
    };
    let auth = parse_auth(spec);
    let operations = match idx(spec, "paths", &null) {
        Json::Object(p) => {
            proof {
                lemma_object_members(*p);
            }
            collect_operations(p)
        },
        _ => Vec::new(),
    };
    let format = format_exec(spec);
    let extractor = ResponseExtractor {
        data_path: Vec::new(),
        error_check: ErrorCheck::HttpStatus,
        pagination: None,
        format,
    };
    let r = ApiSpec {
        list_id: list_id.to_owned(),
        base_url,
        protocol,
        auth,
        extractor,
        operations,
        fetched_at,
        missing_operations: Vec::new(),
    };
    assert(string_views(r.extractor.data_path@) =~= Seq::<Seq<char>>::empty());
    assert(string_views(r.missing_operations@) =~= Seq::<Seq<char>>::empty());
    assert(ops_view(r.operations@) =~= r@.operations);
    assert(r@.list_id == swagger_spec(list_id@, spec@, fetched_at@).list_id);
    assert(r@.base_url == swagger_spec(list_id@, spec@, fetched_at@).base_url);
    assert(r@.protocol == swagger_spec(list_id@, spec@, fetched_at@).protocol);
    assert(r@.auth == swagger_spec(list_id@, spec@, fetched_at@).auth);
    assert(r@.extractor == swagger_spec(list_id@, spec@, fetched_at@).extractor);
    assert(r@.operations == swagger_spec(list_id@, spec@, fetched_at@).operations);
    assert(r@.fetched_at == swagger_spec(list_id@, spec@, fetched_at@).fetched_at);
    assert(r@.missing_operations == swagger_spec(list_id@, spec@, fetched_at@).missing_operations);
    assert(r@.extractor.data_path =~= Seq::<Seq<char>>::empty());
    assert(r@.missing_operations =~= Seq::<Seq<char>>::empty());
    r
}

/// A two-digit field at `i`.
pub open spec fn two_digits_at(t: Seq<char>, i: int) -> bool {
    crate::cli::is_digit(t[i]) && crate::cli::is_digit(t[i + 1])
}

/// The year of a timestamp: four digits, or, for a year outside 0 to 9999, a sign and at
/// least four digits.
pub open spec fn is_year_text(y: Seq<char>) -> bool {
    ||| y.len() == 4 && crate::cli::all_digits(y)
    ||| y.len() >= 5 && (y[0] == '+' || y[0] == '-') && crate::cli::all_digits(y.drop_first())
}

/// The text of `%Y-%m-%dT%H:%M:%S`: a year, then `-MM-DDTHH:MM:SS` with two-digit fields.
pub open spec fn is_timestamp_text(t: Seq<char>) -> bool {
    let n = t.len() - 15;
    &&& t.len() >= 19
    &&& is_year_text(t.subrange(0, n))
    &&& t[n] == '-' && two_digits_at(t, n + 1)
    &&& t[n + 3] == '-' && two_digits_at(t, n + 4)
    &&& t[n + 6] == 'T' && two_digits_at(t, n + 7)
    &&& t[n + 9] == ':' && two_digits_at(t, n + 10)
    &&& t[n + 12] == ':' && two_digits_at(t, n + 13)
}

/// The system clock reads before 1970 (or past the dates that `chrono` can hold), so no
/// timestamp can be written.
#[derive(Debug, Clone, Copy, PartialEq, Eq, Structural)]
pub struct ClockError;

/// What is reported when the clock cannot be read.
pub const CLOCK_ERROR_MESSAGE: &'static str = "system time before Unix epoch";

/// Trusted: `SystemTime::now().duration_since(UNIX_EPOCH)`, the time the system clock
/// reads, since the Unix epoch, as whole seconds and the nanoseconds past them
/// (`Duration::as_secs`, `Duration::subsec_nanos`). `None` when the clock reads before
/// 1970. Which time it is depends on the clock; the nanoseconds are below one billion, as
/// `subsec_nanos` documents.
#[verifier::external_body]
fn time_since_epoch() -> (r: Option<(u64, u32)>)
    ensures
        r matches Some(d) ==> d.1 < 1_000_000_000,
{
    let since = std::time::SystemTime::now().duration_since(std::time::UNIX_EPOCH).ok()?;
    Some((since.as_secs(), since.subsec_nanos()))
}

/// Named result of `chrono::DateTime::from_timestamp(secs, nanos)` formatted
/// `%Y-%m-%dT%H:%M:%S` (`None` when chrono rejects the time).
pub uninterp spec fn chrono_timestamp(secs: i64, nanos: u32) -> Option<Seq<char>>;

/// Trusted: the UTC date `chrono::DateTime::from_timestamp(secs, nanos)`, formatted
/// `%Y-%m-%dT%H:%M:%S` by chrono. `None` when chrono rejects the time (seconds out of its
/// range, or nanoseconds out of place). The text is a function of the arguments; what is
/// stated of it is the shape that chrono writes for this format: a zero-padded four-digit
/// year (a sign and at least four digits outside 0 to 9999) and zero-padded two-digit
/// month, day, hour, minute and second.
#[verifier::external_body]
fn format_timestamp(secs: i64, nanos: u32) -> (r: Option<String>)
    ensures
        r is None <==> chrono_timestamp(secs, nanos) is None,
        r matches Some(t) ==> chrono_timestamp(secs, nanos) == Some(t@) && is_timestamp_text(t@),
{
    let date = chrono::DateTime::from_timestamp(secs, nanos)?;
    Some(date.format("%Y-%m-%dT%H:%M:%S").to_string())
}

/// The current UTC time as `%Y-%m-%dT%H:%M:%S`; `None` when the clock reads before 1970 or
/// past what chrono (or an `i64` of seconds) can hold.
pub(crate) fn utc_timestamp() -> (r: Option<String>)
    ensures
        r matches Some(t) ==> is_timestamp_text(t@),
{
    match time_since_epoch() {
        Some((secs, nanos)) => {
            if secs <= i64::MAX as u64 {
                format_timestamp(secs as i64, nanos)
            } else {
                None
            }
        },
        None => None,
    }
}

/// Parse a Swagger 2.0 JSON spec into an `ApiSpec`, stamped with the current time; an
/// error when the clock cannot be read.
pub fn parse_swagger(list_id: &str, spec: &Json) -> (r: Result<ApiSpec, ClockError>)
    ensures
        r matches Ok(s) ==> exists|t: Seq<char>| is_timestamp_text(t) && s@ == #[trigger] swagger_spec(list_id@, spec@, t),
{
    match utc_timestamp() {
        Some(now) => Ok(parse_swagger_at(list_id, spec, now)),
        None => Err(ClockError),
    }
}

// ---------------------------------------------------------------------------
// Where the portal's pages keep the spec
// ---------------------------------------------------------------------------

/// `var swaggerUrl = '<url>'`: `var`, whitespace, `swaggerUrl`, optional whitespace, `=`,
/// optional whitespace, and the URL in single quotes (group 1).
pub const SWAGGER_URL_PATTERN: &'static str = r"var\s+swaggerUrl\s*=\s*'([^']+)'";

/// `` var swaggerJson = `<json>` ``: the spec embedded in a template literal, non-empty and
/// without a backtick (group 1).
pub const SWAGGER_JSON_PATTERN: &'static str = r"var\s+swaggerJson\s*=\s*`([^`]+)`";

/// The Swagger URL that an `openapi.do` page assigns to `swaggerUrl`.
pub fn extract_swagger_url(html: &str) -> (r: Option<String>)
    ensures
        match r {
            Some(u) => first_group(SWAGGER_URL_PATTERN@, html@, 1) == Some(u@),
            None => first_group(SWAGGER_URL_PATTERN@, html@, 1) is None,
        },
{
    first_match_group(SWAGGER_URL_PATTERN, html, 1)
}

/// The spec text that an `openapi.do` page embeds in `swaggerJson` (not yet parsed).
pub fn extract_swagger_json_text(html: &str) -> (r: Option<String>)
    ensures
        match r {
            Some(u) => first_group(SWAGGER_JSON_PATTERN@, html@, 1) == Some(u@),
            None => first_group(SWAGGER_JSON_PATTERN@, html@, 1) is None,
        },
{
    first_match_group(SWAGGER_JSON_PATTERN, html, 1)
}

// ---------------------------------------------------------------------------
// Laws of the Swagger reading
// ---------------------------------------------------------------------------

/// No parameter is the API key (`serviceKey`) or the `Authorization` header.
pub open spec fn no_key_params(ps: Seq<ParameterV>) -> bool {
    forall|k: int| 0 <= k < ps.len() ==> #[trigger] ps[k].name != "serviceKey"@ && ps[k].name != "Authorization"@
}

proof fn lemma_params_scan_no_keys(ps: Seq<JsonV>)
    ensures
        no_key_params(params_scan(ps).0),
    decreases ps.len(),
{
    if ps.len() > 0 {
        let r = params_scan(ps.drop_last());
        lemma_params_scan_no_keys(ps.drop_last());
        let p = ps.last();
        let name = jstr_or(p, "name"@, Seq::empty());
        let location = jstr_or(p, "in"@, Seq::empty());
        if !(name == "serviceKey"@ || name == "Authorization"@) && location != "body"@ {
            let q = r.0.push(parameter_of(p));
            assert forall|k: int| 0 <= k < q.len() implies #[trigger] q[k].name != "serviceKey"@ && q[k].name
                != "Authorization"@ by {
                if k < r.0.len() {
                    assert(q[k] == r.0[k]);
                }
            }
        }
    }
}

proof fn lemma_path_operations_no_keys(path: Seq<char>, methods: Seq<(Seq<char>, JsonV)>)
    ensures
        forall|k: int|
            0 <= k < path_operations(path, methods).len() ==> no_key_params(
                #[trigger] path_operations(path, methods)[k].parameters,
            ),
    decreases methods.len(),
{
    if methods.len() > 0 {
        let r = path_operations(path, methods.drop_last());
        lemma_path_operations_no_keys(path, methods.drop_last());
        lemma_params_scan_no_keys(match jarray(jidx(methods.last().1, "parameters"@)) {
            Some(a) => a,
            None => Seq::empty(),
        });
        match method_of(methods.last().0) {
            Some(m) => {
                let q = r.push(operation_from(path, m, methods.last().1));
                assert forall|k: int| 0 <= k < q.len() implies no_key_params(#[trigger] q[k].parameters) by {
                    if k < r.len() {
                        assert(q[k] == r[k]);
                    } else {
                        assert(params_scan(Seq::<JsonV>::empty()).0 =~= Seq::<ParameterV>::empty());
                    }
                }
            },
            None => {},
        }
    }
}

proof fn lemma_all_operations_no_keys(paths: Seq<(Seq<char>, JsonV)>)
    ensures
        forall|k: int|
            0 <= k < all_operations(paths).len() ==> no_key_params(#[trigger] all_operations(paths)[k].parameters),
    decreases paths.len(),
{
    if paths.len() > 0 {
        let a = all_operations(paths.drop_last());
        lemma_all_operations_no_keys(paths.drop_last());
        let b = match jobject(paths.last().1) {
            Some(methods) => path_operations(paths.last().0, methods),
            None => Seq::empty(),
        };
        match jobject(paths.last().1) {
            Some(methods) => lemma_path_operations_no_keys(paths.last().0, methods),
            None => {},
        }
        assert forall|k: int| 0 <= k < (a + b).len() implies no_key_params(#[trigger] (a + b)[k].parameters) by {
            if k >= a.len() {
                assert((a + b)[k] == b[k - a.len()]);
            }
        }
    }
}

/// The first `produces` string of a Swagger spec: that of the first method of the first
/// path, when the spec has one.
pub open spec fn first_produces(spec: JsonV) -> Option<Seq<char>> {
    match jget(spec, "paths"@) {
        Some(JsonV::Object(paths)) => if paths.len() > 0 {
            match paths[0].1 {
                JsonV::Object(methods) => if methods.len() > 0 {
                    match jget(methods[0].1, "produces"@) {
                        Some(JsonV::Array(a)) => if a.len() > 0 {
                            match a[0] {
                                JsonV::Str(p) => Some(p),
                                _ => None,
                            }
                        } else {
                            None
                        },
                        _ => None,
                    }
                } else {
                    None
                },
                _ => None,
            }
        } else {
            None
        },
        _ => None,
    }
}

/// The responses of a Swagger spec are read as XML exactly when its first `produces`
/// string has `xml` in it (`application/xml`, `text/xml`, ...), and as JSON otherwise,
/// also when it has no `produces` string.
pub proof fn law_swagger_format_follows_produces(list_id: Seq<char>, spec: JsonV, fetched_at: Seq<char>)
    ensures
        (swagger_spec(list_id, spec, fetched_at).extractor.format == ResponseFormat::Xml) <==> (first_produces(spec) matches Some(p)
            && exists|i: int| 0 <= i && i + 3 <= p.len() && #[trigger] p.subrange(i, i + 3) == "xml"@),
        swagger_spec(list_id, spec, fetched_at).extractor.format != ResponseFormat::Xml
            ==> swagger_spec(list_id, spec, fetched_at).extractor.format == ResponseFormat::Json,
{
    reveal_strlit("xml");
    assert("xml"@.len() == 3);
    if let Some(p) = first_produces(spec) {
        if contains(p, "xml"@) {
            let i = choose|i: int| crate::text::occurs_at(p, "xml"@, i);
            assert(p.subrange(i, i + 3) == "xml"@);
        }
        if exists|i: int| 0 <= i && i + 3 <= p.len() && #[trigger] p.subrange(i, i + 3) == "xml"@ {
            let i = choose|i: int| 0 <= i && i + 3 <= p.len() && #[trigger] p.subrange(i, i + 3) == "xml"@;
            assert(crate::text::occurs_at(p, "xml"@, i));
        }
    }
}

/// No operation read from a Swagger spec lists the API key (`serviceKey`) or the
/// `Authorization` header among its parameters: the key is applied by the caller.
pub proof fn law_swagger_hides_key_parameters(list_id: Seq<char>, spec: JsonV, fetched_at: Seq<char>)
    ensures
        forall|k: int|
            0 <= k < swagger_spec(list_id, spec, fetched_at).operations.len() ==> no_key_params(
                #[trigger] swagger_spec(list_id, spec, fetched_at).operations[k].parameters,
            ),
{
    match jobject(jidx(spec, "paths"@)) {
        Some(paths) => lemma_all_operations_no_keys(paths),
        None => {},
    }
}

} // verus!
