//! The collection of specs for a bundle: what each service's portal page leads to, how a
//! gateway API's operations are requested, and how the findings become the bundle's
//! catalog and specs. The requests themselves are made by the caller.

use vstd::prelude::*;
use crate::gateway::{decimal, decimal_chars};
use crate::html::parsed_html;
use crate::html_parser::{
    build_api_spec, external_url_of, first_value, gateway_spec, operation_options, parse_openapi_page, parsed_views,
    pk_of, OperationOption, PageInfo, ParsedOperation,
};
use crate::json::{Json, JsonV};
use crate::html_parser::TY_DETAIL_PATTERN;
use crate::swagger::{extract_swagger_url, parse_swagger, swagger_spec, CLOCK_ERROR_MESSAGE, SWAGGER_URL_PATTERN};
use crate::captures::first_group;
use crate::text::{chars_of, string_from_chars};
use crate::types::{ApiSpec, ApiSpecV};
use crate::catalog::opt_string_view;

verus! {

/// What the collection found for one service.
#[derive(Debug)]
pub enum SpecResult {
    /// A spec, and whether it came from the gateway's operation pages.
    Spec { spec: ApiSpec, is_gateway: bool },
    /// No spec, and why.
    Bail { reason: String },
    /// A link API, with its external portal URL when the page gives one.
    ExternalLink { url: Option<String> },
}

pub enum SpecResultV {
    Spec { spec: ApiSpecV, is_gateway: bool },
    Bail { reason: Seq<char> },
    ExternalLink { url: Option<Seq<char>> },
}

impl View for SpecResult {
    type V = SpecResultV;

    open spec fn view(&self) -> SpecResultV {
        match self {
            SpecResult::Spec { spec, is_gateway } => SpecResultV::Spec { spec: spec@, is_gateway: *is_gateway },
            SpecResult::Bail { reason } => SpecResultV::Bail { reason: reason@ },
            SpecResult::ExternalLink { url } => SpecResultV::ExternalLink { url: opt_string_view(*url) },
        }
    }
}

/// Where a service's page leads.
#[derive(Debug)]
pub enum PageRoute {
    /// The outcome is known from the page alone.
    Done(SpecResult),
    /// The spec is at this address (a Swagger JSON document).
    FetchSwagger(String),
    /// A gateway API: request each of the page's operations.
    Gateway(PageInfo),
}

/// The portal page of a service.
pub open spec fn portal_page(list_id: Seq<char>) -> Seq<char> {
    "https://www.data.go.kr/data/"@ + list_id + "/openapi.do"@
}

/// The address of a service's portal page.
pub fn portal_page_url(list_id: &str) -> (r: String)
    ensures
        r@ == portal_page(list_id@),
{
    let mut v = chars_of("https://www.data.go.kr/data/");
    let mut id = chars_of(list_id);
    let mut tail = chars_of("/openapi.do");
    v.append(&mut id);
    v.append(&mut tail);
    string_from_chars(v.as_slice())
}

/// The spec of a Swagger document stamped with the current time (some timestamp of the
/// fixed shape), or, when the clock cannot be read, a failure whose reason is `prefix` and
/// the clock's message.
pub open spec fn swagger_result(list_id: Seq<char>, doc: JsonV, res: SpecResult, prefix: Seq<char>) -> bool {
    ||| res matches SpecResult::Spec { spec, is_gateway } && !is_gateway && exists|t: Seq<char>|
        crate::swagger::is_timestamp_text(t) && spec@ == #[trigger] swagger_spec(list_id, doc, t)
    ||| res matches SpecResult::Bail { reason } && reason@ == prefix + CLOCK_ERROR_MESSAGE@
}

fn joined_text(a: &str, b: &str) -> (r: String)
    ensures
        r@ == a@ + b@,
{
    let mut v = chars_of(a);
    let mut w = chars_of(b);
    v.append(&mut w);
    string_from_chars(v.as_slice())
}

fn swagger_result_exec(list_id: &str, doc: &Json, prefix: &str) -> (r: SpecResult)
    ensures
        swagger_result(list_id@, doc@, r, prefix@),
{
    match parse_swagger(list_id, doc) {
        Ok(spec) => SpecResult::Spec { spec, is_gateway: false },
        Err(_) => SpecResult::Bail { reason: joined_text(prefix, CLOCK_ERROR_MESSAGE) },
    }
}

/// The reason given when a page shows no way to a spec.
pub open spec fn no_source_reason() -> Seq<char> {
    "swaggerJson/swaggerUrl/Gateway 모두 없음"@
}

/// Decide where a service's page leads, in this order: a link API (`tyDetailCode` `PRDE04`)
/// is external, with the page's external URL; an inline Swagger spec (`inline`: the page's
/// embedded Swagger text, parsed) gives the spec; a `swaggerUrl` is fetched; a page with
/// operations is a gateway API; otherwise there is no spec.
pub fn route_page(list_id: &str, html: &str, inline: Option<&Json>) -> (r: PageRoute)
    ensures
        ({
            let ns = parsed_html(html@, false);
            let has_pk = pk_of(ns, html@) is Some;
            if has_pk && first_group(TY_DETAIL_PATTERN@, html@, 1) == Some("PRDE04"@) {
                r matches PageRoute::Done(SpecResult::ExternalLink { url }) && opt_string_view(url) == external_url_of(ns)
            } else if inline is Some {
                r matches PageRoute::Done(res) && swagger_result(list_id@, inline.unwrap()@, res, "Swagger 파싱 실패: "@)
            } else if first_group(SWAGGER_URL_PATTERN@, html@, 1) is Some {
                r matches PageRoute::FetchSwagger(u) && Some(u@) == first_group(SWAGGER_URL_PATTERN@, html@, 1)
            } else if has_pk && operation_options(ns).len() > 0 {
                r matches PageRoute::Gateway(info) && {
                    &&& Some((info.public_data_detail_pk@, pk_of(ns, html@).unwrap().1)) == pk_of(ns, html@)
                    &&& opt_string_view(info.public_data_pk) == first_value(
                        ns,
                        crate::html::SelV::TagId("input"@, "publicDataPk"@),
                    )
                    &&& info.operations@.map_values(|o: OperationOption| (o.seq_no@, o.name@)) == operation_options(ns)
                }
            } else {
                r matches PageRoute::Done(SpecResult::Bail { reason }) && reason@ == no_source_reason()
            }
        }),
{
    let page_info = match parse_openapi_page(html) {
        Ok(info) => Some(info),
        Err(_) => None,
    };
    proof {
        reveal_strlit("PRDE04");
    }
    if let Some(info) = &page_info {
        let is_link = match &info.ty_detail_code {
            Some(code) => *code == "PRDE04".to_owned(),
            None => false,
        };
        if is_link {
            let url = match &info.external_url {
                Some(u) => Some(u.clone()),
                None => None,
            };
            return PageRoute::Done(SpecResult::ExternalLink { url });
        }
    }
    if let Some(j) = inline {
        return PageRoute::Done(swagger_result_exec(list_id, j, "Swagger 파싱 실패: "));
    }
    if let Some(url) = extract_swagger_url(html) {
        return PageRoute::FetchSwagger(url);
    }
    match page_info {
        Some(info) => {
            if info.operations.len() > 0 {
                return PageRoute::Gateway(info);
            }
        },
        None => {},
    }
    PageRoute::Done(SpecResult::Bail { reason: "swaggerJson/swaggerUrl/Gateway 모두 없음".to_owned() })
}

/// The outcome of fetching a `swaggerUrl`: `fetched` is the document parsed as JSON, or why
/// it could not be had.
pub fn swagger_url_outcome(list_id: &str, fetched: Result<Json, String>) -> (r: SpecResult)
    ensures
        match fetched {
            Ok(j) => swagger_result(list_id@, j@, r, "Swagger URL 실패: "@),
            Err(e) => r matches SpecResult::Bail { reason } && reason@ == "Swagger URL 실패: "@ + e@,
        },
{
    match fetched {
        Ok(j) => swagger_result_exec(list_id, &j, "Swagger URL 실패: "),
        Err(e) => {
            let mut v = chars_of("Swagger URL 실패: ");
            let mut w = chars_of(e.as_str());
            v.append(&mut w);
            SpecResult::Bail { reason: string_from_chars(v.as_slice()) }
        },
    }
}

/// The `publicDataPk` sent with a gateway request: the page's, or the list id when the
/// page has none.
pub fn gateway_public_pk(info: &PageInfo, list_id: &str) -> (r: String)
    ensures
        r@ == match opt_string_view(info.public_data_pk) {
            Some(pk) => if pk.len() > 0 {
                pk
            } else {
                list_id@
            },
            None => list_id@,
        },
{
    match &info.public_data_pk {
        Some(pk) => {
            if pk.as_str().is_empty() {
                list_id.to_owned()
            } else {
                pk.clone()
            }
        },
        None => list_id.to_owned(),
    }
}

/// The address to which a gateway operation's detail is posted.
pub const GATEWAY_DETAIL_URL: &'static str = "https://www.data.go.kr/tcs/dss/selectApiDetailFunction.do";

/// The form posted for one gateway operation: its sequence number, the page's detail pk
/// and the public pk.
pub fn gateway_form(seq_no: &str, detail_pk: &str, public_pk: &str) -> (r: Vec<(String, String)>)
    ensures
        r@.map_values(|p: (String, String)| (p.0@, p.1@)) == seq![
            ("oprtinSeqNo"@, seq_no@),
            ("publicDataDetailPk"@, detail_pk@),
            ("publicDataPk"@, public_pk@),
        ],
{
    let r = vec![
        ("oprtinSeqNo".to_owned(), seq_no.to_owned()),
        ("publicDataDetailPk".to_owned(), detail_pk.to_owned()),
        ("publicDataPk".to_owned(), public_pk.to_owned()),
    ];
    assert(r@.map_values(|p: (String, String)| (p.0@, p.1@)) =~= seq![
        ("oprtinSeqNo"@, seq_no@),
        ("publicDataDetailPk"@, detail_pk@),
        ("publicDataPk"@, public_pk@),
    ]);
    r
}

fn count_text(prefix: &str, n: usize, total: usize) -> (r: String)
    ensures
        r@ == prefix@ + decimal(n as nat) + "/"@ + decimal(total as nat) + " ops)"@,
{
    let mut v = chars_of(prefix);
    let mut a = decimal_chars(n as u64);
    let mut s = chars_of("/");
    let mut b = decimal_chars(total as u64);
    let mut t = chars_of(" ops)");
    v.append(&mut a);
    v.append(&mut s);
    v.append(&mut b);
    v.append(&mut t);
    string_from_chars(v.as_slice())
}

/// The outcome of a gateway API from the operations that could be read (`parsed_ops`) out of
/// `total_ops`: none read is a failure; otherwise the gateway spec built from them, or a
/// failure when it has no operation.
pub fn gateway_outcome(list_id: &str, parsed_ops: &[ParsedOperation], total_ops: usize) -> (r: SpecResult)
    ensures
        parsed_ops@.len() == 0 ==> (r matches SpecResult::Bail { reason } && reason@ == "Gateway AJAX 전부 실패 ("@
            + decimal(0) + "/"@ + decimal(total_ops as nat) + " ops)"@),
        parsed_ops@.len() > 0 ==> match r {
            SpecResult::Spec { spec, is_gateway } => is_gateway && exists|t: Seq<char>|
                crate::swagger::is_timestamp_text(t) && gateway_spec(list_id@, parsed_views(parsed_ops@), t) == Some(#[trigger] spec@),
            SpecResult::Bail { reason } => ((forall|t: Seq<char>|
                #[trigger] gateway_spec(list_id@, parsed_views(parsed_ops@), t) is None) && reason@
                == "Gateway build_api_spec 실패 ("@ + decimal(parsed_ops@.len() as nat) + "/"@ + decimal(
                total_ops as nat,
            ) + " ops)"@) || ((forall|t: Seq<char>|
                #[trigger] gateway_spec(list_id@, parsed_views(parsed_ops@), t) is Some) && reason@
                == "Gateway build_api_spec 실패: "@ + CLOCK_ERROR_MESSAGE@),
            SpecResult::ExternalLink { .. } => false,
        },
{
    if parsed_ops.len() == 0 {
        return SpecResult::Bail { reason: count_text("Gateway AJAX 전부 실패 (", 0, total_ops) };
    }
    match build_api_spec(list_id, parsed_ops) {
        Ok(Some(spec)) => SpecResult::Spec { spec, is_gateway: true },
        Ok(None) => {
            proof {
                crate::html_parser::lemma_gateway_spec_time_free(list_id@, parsed_views(parsed_ops@));
            }
            SpecResult::Bail { reason: count_text("Gateway build_api_spec 실패 (", parsed_ops.len(), total_ops) }
        },
        Err(_) => SpecResult::Bail { reason: joined_text("Gateway build_api_spec 실패: ", CLOCK_ERROR_MESSAGE) },
    }
}

// ---------------------------------------------------------------------------
// Assembling the bundle
// ---------------------------------------------------------------------------

pub open spec fn result_views(rs: Seq<(String, SpecResult)>) -> Seq<(Seq<char>, SpecResultV)> {
    rs.map_values(|p: (String, SpecResult)| (p.0@, p.1@))
}

/// The spec kept for `id`: the last spec with operations found for it.
pub open spec fn kept_spec(rs: Seq<(Seq<char>, SpecResultV)>, id: Seq<char>) -> Option<ApiSpecV>
    decreases rs.len(),
{
    if rs.len() == 0 {
        None
    } else {
        match rs.last().1 {
            SpecResultV::Spec { spec, .. } => if rs.last().0 == id && spec.operations.len() > 0 {
                Some(spec)
            } else {
                kept_spec(rs.drop_last(), id)
            },
            _ => kept_spec(rs.drop_last(), id),
        }
    }
}

/// The external URL found for `id`: the last one.
pub open spec fn found_url(rs: Seq<(Seq<char>, SpecResultV)>, id: Seq<char>) -> Option<Seq<char>>
    decreases rs.len(),
{
    if rs.len() == 0 {
        None
    } else {
        match rs.last().1 {
            SpecResultV::ExternalLink { url: Some(u) } => if rs.last().0 == id {
                Some(u)
            } else {
                found_url(rs.drop_last(), id)
            },
            _ => found_url(rs.drop_last(), id),
        }
    }
}

/// Whether a finding is a spec without operations (a skeleton).
pub open spec fn is_empty_spec(r: SpecResultV) -> bool {
    r matches SpecResultV::Spec { spec, .. } && spec.operations.len() == 0
}

/// Whether an empty spec (a skeleton) was found for `id`.
pub open spec fn skeleton_found(rs: Seq<(Seq<char>, SpecResultV)>, id: Seq<char>) -> bool {
    exists|k: int|
        0 <= k < rs.len() && #[trigger] rs[k].0 == id && is_empty_spec(rs[k].1)
}

/// Whether `id` was found to be a link API.
pub open spec fn link_found(rs: Seq<(Seq<char>, SpecResultV)>, id: Seq<char>) -> bool {
    exists|k: int| 0 <= k < rs.len() && #[trigger] rs[k].0 == id && rs[k].1 is ExternalLink
}

/// The catalog entry of a service: its fields, the external URL in place of its endpoint
/// when one was found, and the status that the findings give.
pub open spec fn catalog_entry_of(
    svc: crate::types::ApiServiceV,
    rs: Seq<(Seq<char>, SpecResultV)>,
) -> crate::types::CatalogEntryV {
    let url = match found_url(rs, svc.list_id) {
        Some(u) => u,
        None => svc.endpoint_url,
    };
    crate::types::CatalogEntryV {
        list_id: svc.list_id,
        title: svc.title,
        description: svc.description,
        keywords: svc.keywords,
        org_name: svc.org_name,
        category: svc.category,
        request_count: svc.request_count,
        endpoint_url: url,
        spec_status: crate::types::classify_spec(
            kept_spec(rs, svc.list_id) is Some,
            skeleton_found(rs, svc.list_id),
            url,
            link_found(rs, svc.list_id),
            false,
        ),
    }
}

fn contains_string(v: &Vec<String>, s: &String) -> (r: bool)
    ensures
        r == exists|k: int| 0 <= k < v@.len() && #[trigger] v@[k]@ == s@,
{
    let mut i: usize = 0;
    while i < v.len()
        invariant
            i <= v@.len(),
            forall|k: int| 0 <= k < i ==> #[trigger] v@[k]@ != s@,
        decreases v@.len() - i,
    {
        if v[i] == *s {
            return true;
        }
        i = i + 1;
    }
    false
}

/// The kept specs of the findings `p`: one per id, each the kept spec of its id.
pub open spec fn specs_ok(p: Seq<(Seq<char>, SpecResultV)>, specs: Seq<(String, ApiSpec)>) -> bool {
    &&& forall|a: int, b: int| 0 <= a < b < specs.len() ==> (#[trigger] specs[a]).0@ != (#[trigger] specs[b]).0@
    &&& forall|k: int| 0 <= k < specs.len() ==> kept_spec(p, (#[trigger] specs[k]).0@) == Some(specs[k].1@)
    &&& forall|id: Seq<char>|
        #[trigger] kept_spec(p, id) is Some ==> exists|k: int| 0 <= k < specs.len() && (#[trigger] specs[k]).0@ == id
}

/// The external URLs of the findings `p`: one per id, each the last one found.
pub open spec fn urls_ok(p: Seq<(Seq<char>, SpecResultV)>, urls: Seq<(String, String)>) -> bool {
    &&& forall|a: int, b: int| 0 <= a < b < urls.len() ==> (#[trigger] urls[a]).0@ != (#[trigger] urls[b]).0@
    &&& forall|k: int| 0 <= k < urls.len() ==> found_url(p, (#[trigger] urls[k]).0@) == Some(urls[k].1@)
    &&& forall|id: Seq<char>|
        #[trigger] found_url(p, id) is Some ==> exists|k: int| 0 <= k < urls.len() && (#[trigger] urls[k]).0@ == id
}

pub open spec fn listed(ids: Seq<String>, id: Seq<char>) -> bool {
    exists|k: int| 0 <= k < ids.len() && #[trigger] ids[k]@ == id
}

proof fn lemma_findings_step(p: Seq<(Seq<char>, SpecResultV)>, x: (Seq<char>, SpecResultV))
    ensures
        forall|id: Seq<char>|
            #[trigger] kept_spec(p.push(x), id) == match x.1 {
                SpecResultV::Spec { spec, .. } => if x.0 == id && spec.operations.len() > 0 {
                    Some(spec)
                } else {
                    kept_spec(p, id)
                },
                _ => kept_spec(p, id),
            },
        forall|id: Seq<char>|
            #[trigger] found_url(p.push(x), id) == match x.1 {
                SpecResultV::ExternalLink { url: Some(u) } => if x.0 == id {
                    Some(u)
                } else {
                    found_url(p, id)
                },
                _ => found_url(p, id),
            },
        forall|id: Seq<char>|
            #[trigger] skeleton_found(p.push(x), id) == (skeleton_found(p, id) || (x.0 == id && is_empty_spec(x.1))),
        forall|id: Seq<char>|
            #[trigger] link_found(p.push(x), id) == (link_found(p, id) || (x.0 == id && x.1 is ExternalLink)),
{
    let q = p.push(x);
    assert(q.drop_last() =~= p);
    assert(q.last() == x);
    assert forall|id: Seq<char>|
        #[trigger] skeleton_found(q, id) == (skeleton_found(p, id) || (x.0 == id && is_empty_spec(x.1))) by {
        if skeleton_found(q, id) {
            let k = choose|k: int| 0 <= k < q.len() && #[trigger] q[k].0 == id && is_empty_spec(q[k].1);
            if k < p.len() {
                assert(p[k] == q[k]);
            }
        }
        if skeleton_found(p, id) {
            let k = choose|k: int| 0 <= k < p.len() && #[trigger] p[k].0 == id && is_empty_spec(p[k].1);
            assert(q[k] == p[k]);
        }
        if x.0 == id && is_empty_spec(x.1) {
            assert(q[p.len() as int] == x);
        }
    }
    assert forall|id: Seq<char>|
        #[trigger] link_found(q, id) == (link_found(p, id) || (x.0 == id && x.1 is ExternalLink)) by {
        if link_found(q, id) {
            let k = choose|k: int| 0 <= k < q.len() && #[trigger] q[k].0 == id && q[k].1 is ExternalLink;
            if k < p.len() {
                assert(p[k] == q[k]);
            }
        }
        if link_found(p, id) {
            let k = choose|k: int| 0 <= k < p.len() && #[trigger] p[k].0 == id && p[k].1 is ExternalLink;
            assert(q[k] == p[k]);
        }
        if x.0 == id && x.1 is ExternalLink {
            assert(q[p.len() as int] == x);
        }
    }
}

fn spec_key_index(v: &Vec<(String, ApiSpec)>, s: &String) -> (r: Option<usize>)
    ensures
        match r {
            Some(q) => q < v@.len() && v@[q as int].0@ == s@,
            None => forall|k: int| 0 <= k < v@.len() ==> (#[trigger] v@[k]).0@ != s@,
        },
{
    let mut i: usize = 0;
    while i < v.len()
        invariant
            i <= v@.len(),
            forall|k: int| 0 <= k < i ==> (#[trigger] v@[k]).0@ != s@,
        decreases v@.len() - i,
    {
        if v[i].0 == *s {
            return Some(i);
        }
        i = i + 1;
    }
    None
}

fn url_key_index(v: &Vec<(String, String)>, s: &String) -> (r: Option<usize>)
    ensures
        match r {
            Some(q) => q < v@.len() && v@[q as int].0@ == s@,
            None => forall|k: int| 0 <= k < v@.len() ==> (#[trigger] v@[k]).0@ != s@,
        },
{
    let mut i: usize = 0;
    while i < v.len()
        invariant
            i <= v@.len(),
            forall|k: int| 0 <= k < i ==> (#[trigger] v@[k]).0@ != s@,
        decreases v@.len() - i,
    {
        if v[i].0 == *s {
            return Some(i);
        }
        i = i + 1;
    }
    None
}

/// Reorder `v` so that popping from the result gives its elements first to last.
fn reversed<T>(v: Vec<T>) -> (r: Vec<T>)
    ensures
        r@.len() == v@.len(),
        forall|j: int| 0 <= j < r@.len() ==> #[trigger] r@[j] == v@[v@.len() - 1 - j],
{
    let ghost all = v@;
    let mut rest = v;
    let mut out: Vec<T> = Vec::new();
    while rest.len() > 0
        invariant
            rest@.len() + out@.len() == all.len(),
            forall|j: int| 0 <= j < rest@.len() ==> #[trigger] rest@[j] == all[j],
            forall|j: int| 0 <= j < out@.len() ==> #[trigger] out@[j] == all[all.len() - 1 - j],
        decreases rest@.len(),
    {
        let ghost before = rest@;
        let x = rest.pop().unwrap();
        assert(x == all[rest@.len() as int]) by {
            assert(before[before.len() - 1] == all[before.len() - 1]);
        }
        out.push(x);
    }
    out
}

/// Gather the findings (in collection order, a later finding winning over an earlier one
/// of the same id): the specs with operations (one per id), the ids of skeletons and link
/// APIs, and the external URLs (one per id).
fn gather_findings(results: Vec<(String, SpecResult)>) -> (r: (Vec<(String, ApiSpec)>, Vec<String>, Vec<String>, Vec<(String, String)>))
    ensures
        specs_ok(result_views(results@), r.0@),
        forall|id: Seq<char>| #[trigger] skeleton_found(result_views(results@), id) <==> listed(r.1@, id),
        forall|id: Seq<char>| #[trigger] link_found(result_views(results@), id) <==> listed(r.2@, id),
        urls_ok(result_views(results@), r.3@),
{
    let ghost all = results@;
    let ghost rv = result_views(all);
    let n = results.len();
    let mut rev = reversed(results);
    let mut specs: Vec<(String, ApiSpec)> = Vec::new();
    let mut skeletons: Vec<String> = Vec::new();
    let mut links: Vec<String> = Vec::new();
    let mut urls: Vec<(String, String)> = Vec::new();
    let mut k: usize = 0;
    assert(rv.take(0) =~= Seq::<(Seq<char>, SpecResultV)>::empty());
    while rev.len() > 0
        invariant
            k + rev@.len() == n,
            n == all.len(),
            rv == result_views(all),
            forall|j: int| 0 <= j < rev@.len() ==> #[trigger] rev@[j] == all[n - 1 - j],
            specs_ok(rv.take(k as int), specs@),
            forall|id: Seq<char>| #[trigger] skeleton_found(rv.take(k as int), id) <==> listed(skeletons@, id),
            forall|id: Seq<char>| #[trigger] link_found(rv.take(k as int), id) <==> listed(links@, id),
            urls_ok(rv.take(k as int), urls@),
        decreases rev@.len(),
    {
        let ghost before = rev@;
        let (id, res) = rev.pop().unwrap();
        let ghost x = (id@, res@);
        assert(before[before.len() - 1] == all[k as int]);
        assert(x == rv[k as int]);
        let ghost p = rv.take(k as int);
        assert(rv.take(k + 1) =~= p.push(x));
        proof {
            lemma_findings_step(p, x);
        }
        let ghost sk0 = skeletons@;
        let ghost ln0 = links@;
        let ghost sp0 = specs@;
        let ghost ur0 = urls@;
        match res {
            SpecResult::Spec { spec, .. } => {
                if spec.operations.len() == 0 {
                    skeletons.push(id);
                    assert forall|i: Seq<char>| #[trigger] listed(skeletons@, i) == (listed(sk0, i) || i == x.0) by {
                        if listed(skeletons@, i) {
                            let q = choose|q: int| 0 <= q < skeletons@.len() && #[trigger] skeletons@[q]@ == i;
                            if q < sk0.len() {
                                assert(sk0[q] == skeletons@[q]);
                            }
                        }
                        if listed(sk0, i) {
                            let q = choose|q: int| 0 <= q < sk0.len() && #[trigger] sk0[q]@ == i;
                            assert(skeletons@[q] == sk0[q]);
                        }
                        if i == x.0 {
                            assert(skeletons@[sk0.len() as int]@ == i);
                        }
                    }
                } else {
                    let ghost sv = spec@;
                    match spec_key_index(&specs, &id) {
                        Some(q) => {
                            specs.set(q, (id, spec));
                            assert forall|a: int, b: int| 0 <= a < b < specs@.len() implies (#[trigger] specs@[a]).0@
                                != (#[trigger] specs@[b]).0@ by {
                                assert(sp0[a].0@ != sp0[b].0@);
                            }
                            assert forall|j: int| 0 <= j < specs@.len() implies kept_spec(
                                rv.take(k + 1),
                                (#[trigger] specs@[j]).0@,
                            ) == Some(specs@[j].1@) by {
                                if j != q {
                                    assert(sp0[j].0@ != sp0[q as int].0@);
                                    assert(kept_spec(p, sp0[j].0@) == Some(sp0[j].1@));
                                }
                            }
                            assert forall|i: Seq<char>| #[trigger] kept_spec(rv.take(k + 1), i) is Some implies exists|j: int|
                                0 <= j < specs@.len() && (#[trigger] specs@[j]).0@ == i by {
                                if i == x.0 {
                                    assert(specs@[q as int].0@ == i);
                                } else {
                                    assert(kept_spec(p, i) is Some);
                                    let j = choose|j: int| 0 <= j < sp0.len() && (#[trigger] sp0[j]).0@ == i;
                                    assert(specs@[j].0@ == i);
                                }
                            }
                        },
                        None => {
                            specs.push((id, spec));
                            assert forall|a: int, b: int| 0 <= a < b < specs@.len() implies (#[trigger] specs@[a]).0@
                                != (#[trigger] specs@[b]).0@ by {
                                if b == sp0.len() {
                                    assert(sp0[a].0@ != x.0);
                                } else {
                                    assert(sp0[a].0@ != sp0[b].0@);
                                }
                            }
                            assert forall|j: int| 0 <= j < specs@.len() implies kept_spec(
                                rv.take(k + 1),
                                (#[trigger] specs@[j]).0@,
                            ) == Some(specs@[j].1@) by {
                                if j < sp0.len() {
                                    assert(sp0[j].0@ != x.0);
                                    assert(kept_spec(p, sp0[j].0@) == Some(sp0[j].1@));
                                }
                            }
                            assert forall|i: Seq<char>| #[trigger] kept_spec(rv.take(k + 1), i) is Some implies exists|j: int|
                                0 <= j < specs@.len() && (#[trigger] specs@[j]).0@ == i by {
                                if i == x.0 {
                                    assert(specs@[sp0.len() as int].0@ == i);
                                } else {
                                    assert(kept_spec(p, i) is Some);
                                    let j = choose|j: int| 0 <= j < sp0.len() && (#[trigger] sp0[j]).0@ == i;
                                    assert(specs@[j].0@ == i);
                                }
                            }
                        },
                    }
                }
            },
            SpecResult::ExternalLink { url } => {
                links.push(id.clone());
                assert forall|i: Seq<char>| #[trigger] listed(links@, i) == (listed(ln0, i) || i == x.0) by {
                    if listed(links@, i) {
                        let q = choose|q: int| 0 <= q < links@.len() && #[trigger] links@[q]@ == i;
                        if q < ln0.len() {
                            assert(ln0[q] == links@[q]);
                        }
                    }
                    if listed(ln0, i) {
                        let q = choose|q: int| 0 <= q < ln0.len() && #[trigger] ln0[q]@ == i;
                        assert(links@[q] == ln0[q]);
                    }
                    if i == x.0 {
                        assert(links@[ln0.len() as int]@ == i);
                    }
                }
                match url {
                    Some(u) => {
                        let ghost uv = u@;
                        match url_key_index(&urls, &id) {
                            Some(q) => {
                                urls.set(q, (id, u));
                                assert forall|a: int, b: int| 0 <= a < b < urls@.len() implies (#[trigger] urls@[a]).0@
                                    != (#[trigger] urls@[b]).0@ by {
                                    assert(ur0[a].0@ != ur0[b].0@);
                                }
                                assert forall|j: int| 0 <= j < urls@.len() implies found_url(
                                    rv.take(k + 1),
                                    (#[trigger] urls@[j]).0@,
                                ) == Some(urls@[j].1@) by {
                                    if j != q {
                                        assert(ur0[j].0@ != ur0[q as int].0@);
                                        assert(found_url(p, ur0[j].0@) == Some(ur0[j].1@));
                                    }
                                }
                                assert forall|i: Seq<char>| #[trigger] found_url(rv.take(k + 1), i) is Some implies exists|j: int|
                                    0 <= j < urls@.len() && (#[trigger] urls@[j]).0@ == i by {
                                    if i == x.0 {
                                        assert(urls@[q as int].0@ == i);
                                    } else {
                                        assert(found_url(p, i) is Some);
                                        let j = choose|j: int| 0 <= j < ur0.len() && (#[trigger] ur0[j]).0@ == i;
                                        assert(urls@[j].0@ == i);
                                    }
                                }
                            },
                            None => {
                                urls.push((id, u));
                                assert forall|a: int, b: int| 0 <= a < b < urls@.len() implies (#[trigger] urls@[a]).0@
                                    != (#[trigger] urls@[b]).0@ by {
                                    if b == ur0.len() {
                                        assert(ur0[a].0@ != x.0);
                                    } else {
                                        assert(ur0[a].0@ != ur0[b].0@);
                                    }
                                }
                                assert forall|j: int| 0 <= j < urls@.len() implies found_url(
                                    rv.take(k + 1),
                                    (#[trigger] urls@[j]).0@,
                                ) == Some(urls@[j].1@) by {
                                    if j < ur0.len() {
                                        assert(ur0[j].0@ != x.0);
                                        assert(found_url(p, ur0[j].0@) == Some(ur0[j].1@));
                                    }
                                }
                                assert forall|i: Seq<char>| #[trigger] found_url(rv.take(k + 1), i) is Some implies exists|j: int|
                                    0 <= j < urls@.len() && (#[trigger] urls@[j]).0@ == i by {
                                    if i == x.0 {
                                        assert(urls@[ur0.len() as int].0@ == i);
                                    } else {
                                        assert(found_url(p, i) is Some);
                                        let j = choose|j: int| 0 <= j < ur0.len() && (#[trigger] ur0[j]).0@ == i;
                                        assert(urls@[j].0@ == i);
                                    }
                                }
                            },
                        }
                    },
                    None => {},
                }
            },
            SpecResult::Bail { .. } => {},
        }
        k = k + 1;
    }
    assert(rv.take(n as int) =~= rv);
    (specs, skeletons, links, urls)
}

fn catalog_entry(svc: &crate::types::ApiService, specs: &Vec<(String, ApiSpec)>, skeletons: &Vec<String>, links: &Vec<String>, urls: &Vec<(String, String)>, Ghost(rv): Ghost<Seq<(Seq<char>, SpecResultV)>>) -> (r: crate::types::CatalogEntry)
    requires
        specs_ok(rv, specs@),
        forall|id: Seq<char>| #[trigger] skeleton_found(rv, id) <==> listed(skeletons@, id),
        forall|id: Seq<char>| #[trigger] link_found(rv, id) <==> listed(links@, id),
        urls_ok(rv, urls@),
    ensures
        r@ == catalog_entry_of(svc@, rv),
{
    let id = &svc.list_id;
    let has_spec = spec_key_index(specs, id).is_some();
    assert(has_spec == (kept_spec(rv, id@) is Some)) by {
        if kept_spec(rv, id@) is Some {
            let k = choose|k: int| 0 <= k < specs@.len() && (#[trigger] specs@[k]).0@ == id@;
            assert(specs@[k].0@ == id@);
        }
    }
    let is_skeleton = contains_string(skeletons, id);
    assert(is_skeleton == skeleton_found(rv, id@));
    let is_link = contains_string(links, id);
    assert(is_link == link_found(rv, id@));
    let url = match url_key_index(urls, id) {
        Some(q) => urls[q].1.clone(),
        None => svc.endpoint_url.clone(),
    };
    assert(url@ == match found_url(rv, id@) {
        Some(u) => u,
        None => svc.endpoint_url@,
    }) by {
        if found_url(rv, id@) is Some {
            let k = choose|k: int| 0 <= k < urls@.len() && (#[trigger] urls@[k]).0@ == id@;
            assert(urls@[k].0@ == id@);
        }
    }
    let status = crate::types::SpecStatus::classify(
        &crate::types::ClassificationHints {
            has_spec,
            is_skeleton,
            endpoint_url: url.as_str(),
            is_link_api: is_link,
            is_partial: false,
        },
    );
    crate::types::CatalogEntry {
        list_id: svc.list_id.clone(),
        title: svc.title.clone(),
        description: svc.description.clone(),
        keywords: crate::text::copy_string_list(&svc.keywords),
        org_name: svc.org_name.clone(),
        category: svc.category.clone(),
        request_count: svc.request_count,
        endpoint_url: url,
        spec_status: status,
    }
}

/// Assemble the bundle's catalog and specs from the services and what the collection
/// found for them (in collection order; a later finding for an id wins over an earlier
/// one). Each service becomes a catalog entry (`catalog_entry_of`); the specs are the
/// kept spec of each id that has one, each id once.
pub fn assemble_catalog(
    services: &[crate::types::ApiService],
    results: Vec<(String, SpecResult)>,
) -> (r: (Vec<crate::types::CatalogEntry>, Vec<(String, ApiSpec)>))
    ensures
        r.0@.map_values(|e: crate::types::CatalogEntry| e@) == services@.map_values(
            |s: crate::types::ApiService| catalog_entry_of(s@, result_views(results@)),
        ),
        specs_ok(result_views(results@), r.1@),
{
    let ghost rv = result_views(results@);
    let (specs, skeletons, links, urls) = gather_findings(results);
    let mut catalog: Vec<crate::types::CatalogEntry> = Vec::new();
    let mut i: usize = 0;
    while i < services.len()
        invariant
            i <= services@.len(),
            specs_ok(rv, specs@),
            forall|id: Seq<char>| #[trigger] skeleton_found(rv, id) <==> listed(skeletons@, id),
            forall|id: Seq<char>| #[trigger] link_found(rv, id) <==> listed(links@, id),
            urls_ok(rv, urls@),
            catalog@.map_values(|e: crate::types::CatalogEntry| e@) == services@.take(i as int).map_values(
                |s: crate::types::ApiService| catalog_entry_of(s@, rv),
            ),
        decreases services@.len() - i,
    {
        let e = catalog_entry(&services[i], &specs, &skeletons, &links, &urls, Ghost(rv));
        let ghost before = catalog@.map_values(|e: crate::types::CatalogEntry| e@);
        catalog.push(e);
        assert(catalog@.map_values(|e: crate::types::CatalogEntry| e@) =~= before.push(catalog_entry_of(services@[i as int]@, rv)));
        assert(services@.take(i + 1).map_values(|s: crate::types::ApiService| catalog_entry_of(s@, rv)) =~= services@.take(
            i as int,
        ).map_values(|s: crate::types::ApiService| catalog_entry_of(s@, rv)).push(catalog_entry_of(services@[i as int]@, rv)));
        i = i + 1;
    }
    assert(services@.take(services@.len() as int) =~= services@);
    (catalog, specs)
}

} // verus!
