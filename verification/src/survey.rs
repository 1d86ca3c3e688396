//! The survey of the portal's `openapi.do` pages: page signals, anomaly detection, the
//! classification of each page, the follow-up probe plan and the report summary.

use vstd::prelude::*;
use crate::text::{contains, str_contains, string_views};
use crate::captures::{has_match, is_match};
use crate::catalog::{opt_string_view, order_by_score_desc, order_desc};
use crate::html::{parse_document, parse_fragment, parsed_html, select, HtmlDoc, Sel, SelV};
use crate::html_parser::{
    cell_params, extract_request_params_fallback, extract_response_fields_by_tr_scan, find_pk,
    labeled_url, labeled_url_exec, operation_options, option_pairs, param_rows_sel, pk_of,
    scanned_fields, PkSource,
};
use crate::json::Json;

verus! {

/// One option of the operation `<select>`.
#[derive(Debug, Clone)]
pub struct SelectOption {
    pub seq_no: String,
    pub name: String,
}

/// What the analysis of one `openapi.do` page found.
#[derive(Debug, Clone)]
pub struct PageAnalysis {
    pub page_size_bytes: usize,
    pub has_swagger_json: bool,
    pub swagger_json_empty: bool,
    pub swagger_ops_count: Option<usize>,
    pub has_pk: bool,
    pub pk_value: Option<String>,
    pub pk_source: Option<String>,
    pub select_options: Vec<SelectOption>,
    pub anomalies: Vec<String>,
}

/// What the probe of one operation's detail page found.
#[derive(Debug, Clone)]
pub struct AjaxProbeResult {
    pub status: Option<u16>,
    pub error: Option<String>,
    pub response_bytes: Option<usize>,
    pub has_request_url: bool,
    pub has_service_url: bool,
    pub request_url: Option<String>,
    pub service_url: Option<String>,
    pub param_count: usize,
    pub param_style: Option<String>,
    pub response_field_count: usize,
    pub is_error_page: bool,
}

// ---------------------------------------------------------------------------
// Anomalies
// ---------------------------------------------------------------------------

/// The anomalies of a page, in this order: a deprecation notice ("폐기"), a termination
/// notice ("서비스 종료" or "서비스종료"), a script redirect (`location.href` or
/// `location.replace` on a page without `swaggerUrl`), and a page under 1000 bytes.
pub open spec fn anomalies_of(html: Seq<char>, page_size_bytes: usize) -> Seq<Seq<char>> {
    let a0 = Seq::<Seq<char>>::empty();
    let a1 = if contains(html, "폐기"@) {
        a0.push("deprecated_notice"@)
    } else {
        a0
    };
    let a2 = if contains(html, "서비스 종료"@) || contains(html, "서비스종료"@) {
        a1.push("service_terminated"@)
    } else {
        a1
    };
    let a3 = if (contains(html, "location.href"@) || contains(html, "location.replace"@))
        && !contains(html, "swaggerUrl"@) {
        a2.push("js_redirect"@)
    } else {
        a2
    };
    if page_size_bytes < 1000 {
        a3.push("very_short_page"@)
    } else {
        a3
    }
}

/// Anomaly detection focused on the HTML path.
pub fn detect_anomalies(html: &str, page_size_bytes: usize) -> (r: Vec<String>)
    ensures
        string_views(r@) == anomalies_of(html@, page_size_bytes),
{
    let mut anomalies: Vec<String> = Vec::new();
    let ghost a0 = string_views(anomalies@);
    if str_contains(html, "폐기") {
        anomalies.push("deprecated_notice".to_owned());
    }
    let ghost a1 = string_views(anomalies@);
    assert(a1 =~= if contains(html@, "폐기"@) { a0.push("deprecated_notice"@) } else { a0 });
    if str_contains(html, "서비스 종료") || str_contains(html, "서비스종료") {
        anomalies.push("service_terminated".to_owned());
    }
    let ghost a2 = string_views(anomalies@);
    assert(a2 =~= if contains(html@, "서비스 종료"@) || contains(html@, "서비스종료"@) {
        a1.push("service_terminated"@)
    } else {
        a1
    });
    if (str_contains(html, "location.href") || str_contains(html, "location.replace"))
        && !str_contains(html, "swaggerUrl") {
        anomalies.push("js_redirect".to_owned());
    }
    let ghost a3 = string_views(anomalies@);
    assert(a3 =~= if (contains(html@, "location.href"@) || contains(html@, "location.replace"@))
        && !contains(html@, "swaggerUrl"@) {
        a2.push("js_redirect"@)
    } else {
        a2
    });
    if page_size_bytes < 1000 {
        anomalies.push("very_short_page".to_owned());
    }
    assert(string_views(anomalies@) =~= anomalies_of(html@, page_size_bytes));
    anomalies
}

// ---------------------------------------------------------------------------
// Classification
// ---------------------------------------------------------------------------

/// A deprecation or termination notice among the anomalies.
pub open spec fn has_end_notice(anomalies: Seq<Seq<char>>) -> bool {
    exists|k: int|
        0 <= k < anomalies.len() && (anomalies[k] == "deprecated_notice"@ || anomalies[k]
            == "service_terminated"@)
}

/// The page pattern, in priority order: an end notice makes it `deprecated`; operations in
/// its Swagger make it `swagger_full`; then `no_pk`, `pk_no_options`; a failed or error-page
/// probe makes it `pk_no_ajax`; otherwise `swagger_empty_html_ok` when its Swagger is empty
/// and `html_only` when not.
pub open spec fn page_pattern(a: PageAnalysis, ajax: Option<AjaxProbeResult>) -> Seq<char> {
    if has_end_notice(string_views(a.anomalies@)) {
        "deprecated"@
    } else if (match a.swagger_ops_count {
        Some(n) => n,
        None => 0,
    }) > 0 {
        "swagger_full"@
    } else if !a.has_pk {
        "no_pk"@
    } else if a.select_options@.len() == 0 {
        "pk_no_options"@
    } else if ajax matches Some(x) && (x.is_error_page || x.error is Some) {
        "pk_no_ajax"@
    } else if a.swagger_json_empty {
        "swagger_empty_html_ok"@
    } else {
        "html_only"@
    }
}

fn any_end_notice(anomalies: &Vec<String>) -> (r: bool)
    ensures
        r == has_end_notice(string_views(anomalies@)),
{
    let dep = "deprecated_notice".to_owned();
    let term = "service_terminated".to_owned();
    let mut k: usize = 0;
    while k < anomalies.len()
        invariant
            k <= anomalies@.len(),
            dep@ == "deprecated_notice"@,
            term@ == "service_terminated"@,
            forall|j: int|
                0 <= j < k ==> !(#[trigger] anomalies@[j]@ == "deprecated_notice"@ || anomalies@[j]@
                    == "service_terminated"@),
        decreases anomalies@.len() - k,
    {
        if anomalies[k] == dep || anomalies[k] == term {
            assert(string_views(anomalies@)[k as int] == anomalies@[k as int]@);
            return true;
        }
        k = k + 1;
    }
    assert forall|j: int|
        0 <= j < string_views(anomalies@).len() implies !(string_views(anomalies@)[j]
        == "deprecated_notice"@ || string_views(anomalies@)[j] == "service_terminated"@) by {
        assert(string_views(anomalies@)[j] == anomalies@[j]@);
    }
    false
}

/// Classify a surveyed page from its analysis and, when one was made, its probe.
pub fn classify_page_pattern(analysis: &PageAnalysis, ajax: Option<&AjaxProbeResult>) -> (r: String)
    ensures
        r@ == page_pattern(
            *analysis,
            match ajax {
                Some(x) => Some(*x),
                None => None,
            },
        ),
{
    if any_end_notice(&analysis.anomalies) {
        return "deprecated".to_owned();
    }
    let ops = match analysis.swagger_ops_count {
        Some(n) => n,
        None => 0,
    };
    if ops > 0 {
        return "swagger_full".to_owned();
    }
    if !analysis.has_pk {
        return "no_pk".to_owned();
    }
    if analysis.select_options.len() == 0 {
        return "pk_no_options".to_owned();
    }
    if let Some(ajax) = ajax {
        if ajax.is_error_page || ajax.error.is_some() {
            return "pk_no_ajax".to_owned();
        }
    }
    if analysis.swagger_json_empty {
        return "swagger_empty_html_ok".to_owned();
    }
    "html_only".to_owned()
}

// ---------------------------------------------------------------------------
// Empty Swagger
// ---------------------------------------------------------------------------

/// `var swaggerJson = ` followed by an empty template literal: `var`, whitespace,
/// `swaggerJson`, optional whitespace, `=`, optional whitespace, a backtick, optional
/// whitespace, a backtick.
pub const EMPTY_SWAGGER_PATTERN: &'static str = r"var\s+swaggerJson\s*=\s*`\s*`";

/// Whether the page assigns an empty template literal to `swaggerJson`.
pub fn is_swagger_empty(html: &str) -> (r: bool)
    ensures
        r == has_match(EMPTY_SWAGGER_PATTERN@, html@),
{
    is_match(EMPTY_SWAGGER_PATTERN, html)
}

// ---------------------------------------------------------------------------
// Command-line flags
// ---------------------------------------------------------------------------

/// Index of the first argument equal to `flag`.
pub open spec fn flag_position(args: Seq<Seq<char>>, flag: Seq<char>) -> Option<int>
    decreases args.len(),
{
    if args.len() == 0 {
        None
    } else if args[0] == flag {
        Some(0)
    } else {
        match flag_position(args.drop_first(), flag) {
            Some(k) => Some(k + 1),
            None => None,
        }
    }
}

/// The value after the first occurrence of `flag`, if there is one.
pub open spec fn flag_value(args: Seq<Seq<char>>, flag: Seq<char>) -> Option<Seq<char>> {
    match flag_position(args, flag) {
        Some(k) => if k + 1 < args.len() {
            Some(args[k + 1])
        } else {
            None
        },
        None => None,
    }
}

/// The argument that follows the first occurrence of `flag`.
pub fn get_arg(args: &[String], flag: &str) -> (r: Option<String>)
    ensures
        match r {
            Some(v) => flag_value(string_views(args@), flag@) == Some(v@),
            None => flag_value(string_views(args@), flag@) is None,
        },
{
    let ghost av = string_views(args@);
    let f = flag.to_owned();
    let mut i: usize = 0;
    assert(av.skip(0) =~= av);
    while i < args.len()
        invariant
            i <= args@.len(),
            av == string_views(args@),
            f@ == flag@,
            flag_position(av, flag@) == match flag_position(av.skip(i as int), flag@) {
                Some(k) => Some(k + i),
                None => None,
            },
        decreases args@.len() - i,
    {
        assert(av.skip(i as int)[0] == args@[i as int]@);
        if args[i] == f {
            if i + 1 < args.len() {
                assert(av[i + 1] == args@[i + 1]@);
                return Some(args[i + 1].clone());
            }
            return None;
        }
        assert(av.skip(i as int).drop_first() =~= av.skip(i + 1));
        i = i + 1;
    }
    None
}

// ---------------------------------------------------------------------------
// Survey records
// ---------------------------------------------------------------------------

/// The survey record of one service.
#[derive(Debug, Clone)]
pub struct HtmlSurveyEntry {
    pub list_id: String,
    pub title: String,
    pub http_status: Option<u16>,
    pub fetch_error: Option<String>,
    pub page_size_bytes: usize,
    pub has_swagger_json: bool,
    pub swagger_json_empty: bool,
    pub swagger_ops_count: Option<usize>,
    pub has_pk: bool,
    pub pk_value: Option<String>,
    pub pk_source: Option<String>,
    pub select_option_count: usize,
    pub select_options: Vec<SelectOption>,
    pub ajax_attempted: bool,
    pub ajax_status: Option<u16>,
    pub ajax_error: Option<String>,
    pub ajax_response_bytes: Option<usize>,
    pub ajax_has_request_url: bool,
    pub ajax_has_service_url: bool,
    pub ajax_request_url: Option<String>,
    pub ajax_service_url: Option<String>,
    pub ajax_param_count: usize,
    pub ajax_param_style: Option<String>,
    pub ajax_response_field_count: usize,
    pub ajax_is_error_page: bool,
    pub page_pattern: String,
    pub anomalies: Vec<String>,
}

/// The record of a page that was analysed (`Some`) or could not be fetched (`None`):
/// before any probe, the pattern comes from the analysis alone, and a failed fetch is
/// recorded as `fetch_failed` with the single anomaly `page_fetch_failed`.
pub fn entry_from_fetch(
    list_id: String,
    title: String,
    http_status: Option<u16>,
    fetch_error: Option<String>,
    analysis: Option<PageAnalysis>,
) -> (r: HtmlSurveyEntry)
    ensures
        r.list_id == list_id,
        r.title == title,
        r.http_status == http_status,
        r.fetch_error == fetch_error,
        !r.ajax_attempted,
        r.ajax_status is None && r.ajax_error is None && r.ajax_response_bytes is None,
        !r.ajax_has_request_url && !r.ajax_has_service_url,
        r.ajax_request_url is None && r.ajax_service_url is None,
        r.ajax_param_count == 0 && r.ajax_param_style is None,
        r.ajax_response_field_count == 0 && !r.ajax_is_error_page,
        match analysis {
            Some(a) => {
                &&& r.page_size_bytes == a.page_size_bytes
                &&& r.has_swagger_json == a.has_swagger_json
                &&& r.swagger_json_empty == a.swagger_json_empty
                &&& r.swagger_ops_count == a.swagger_ops_count
                &&& r.has_pk == a.has_pk
                &&& r.pk_value == a.pk_value
                &&& r.pk_source == a.pk_source
                &&& r.select_option_count == a.select_options@.len()
                &&& r.select_options == a.select_options
                &&& r.page_pattern@ == page_pattern(a, None)
                &&& r.anomalies == a.anomalies
            },
            None => {
                &&& r.page_size_bytes == 0
                &&& !r.has_swagger_json && !r.swagger_json_empty && r.swagger_ops_count is None
                &&& !r.has_pk && r.pk_value is None && r.pk_source is None
                &&& r.select_option_count == 0 && r.select_options@.len() == 0
                &&& r.page_pattern@ == "fetch_failed"@
                &&& string_views(r.anomalies@) == seq!["page_fetch_failed"@]
            },
        },
{
    match analysis {
        Some(a) => {
            let page_pattern = classify_page_pattern(&a, None);
            let n = a.select_options.len();
            HtmlSurveyEntry {
                list_id,
                title,
                http_status,
                fetch_error,
                page_size_bytes: a.page_size_bytes,
                has_swagger_json: a.has_swagger_json,
                swagger_json_empty: a.swagger_json_empty,
                swagger_ops_count: a.swagger_ops_count,
                has_pk: a.has_pk,
                pk_value: a.pk_value,
                pk_source: a.pk_source,
                select_option_count: n,
                select_options: a.select_options,
                ajax_attempted: false,
                ajax_status: None,
                ajax_error: None,
                ajax_response_bytes: None,
                ajax_has_request_url: false,
                ajax_has_service_url: false,
                ajax_request_url: None,
                ajax_service_url: None,
                ajax_param_count: 0,
                ajax_param_style: None,
                ajax_response_field_count: 0,
                ajax_is_error_page: false,
                page_pattern,
                anomalies: a.anomalies,
            }
        },
        None => {
            let anomalies = vec!["page_fetch_failed".to_owned()];
            assert(string_views(anomalies@) =~= seq!["page_fetch_failed"@]);
            HtmlSurveyEntry {
                list_id,
                title,
                http_status,
                fetch_error,
                page_size_bytes: 0,
                has_swagger_json: false,
                swagger_json_empty: false,
                swagger_ops_count: None,
                has_pk: false,
                pk_value: None,
                pk_source: None,
                select_option_count: 0,
                select_options: Vec::new(),
                ajax_attempted: false,
                ajax_status: None,
                ajax_error: None,
                ajax_response_bytes: None,
                ajax_has_request_url: false,
                ajax_has_service_url: false,
                ajax_request_url: None,
                ajax_service_url: None,
                ajax_param_count: 0,
                ajax_param_style: None,
                ajax_response_field_count: 0,
                ajax_is_error_page: false,
                page_pattern: "fetch_failed".to_owned(),
                anomalies,
            }
        },
    }
}

/// A record that is due for a probe: it has a pk and at least one operation option, and
/// no probe was made yet.
pub open spec fn needs_probe(e: HtmlSurveyEntry) -> bool {
    e.has_pk && e.select_option_count > 0 && !e.ajax_attempted
}

/// What a probe is made with: the list id, the pk (empty when absent) and the sequence
/// number of the first option (empty when there is none).
pub open spec fn probe_target(e: HtmlSurveyEntry) -> (Seq<char>, Seq<char>, Seq<char>) {
    (
        e.list_id@,
        match e.pk_value {
            Some(v) => v@,
            None => Seq::empty(),
        },
        if e.select_options@.len() > 0 {
            e.select_options@[0].seq_no@
        } else {
            Seq::empty()
        },
    )
}

/// The probe targets among `entries`, in order.
pub open spec fn probe_targets(entries: Seq<HtmlSurveyEntry>) -> Seq<(Seq<char>, Seq<char>, Seq<char>)>
    decreases entries.len(),
{
    if entries.len() == 0 {
        Seq::empty()
    } else {
        let rest = probe_targets(entries.drop_last());
        if needs_probe(entries.last()) {
            rest.push(probe_target(entries.last()))
        } else {
            rest
        }
    }
}

pub open spec fn triple_views(v: Seq<(String, String, String)>) -> Seq<(Seq<char>, Seq<char>, Seq<char>)> {
    v.map_values(|t: (String, String, String)| (t.0@, t.1@, t.2@))
}

/// The probes still to make: `(list_id, pk, first option)` of each record that needs one.
pub fn phase2_targets(entries: &[HtmlSurveyEntry]) -> (r: Vec<(String, String, String)>)
    ensures
        triple_views(r@) == probe_targets(entries@),
{
    let mut out: Vec<(String, String, String)> = Vec::new();
    let mut i: usize = 0;
    assert(triple_views(out@) =~= probe_targets(entries@.take(0)));
    while i < entries.len()
        invariant
            i <= entries@.len(),
            triple_views(out@) == probe_targets(entries@.take(i as int)),
        decreases entries@.len() - i,
    {
        let e = &entries[i];
        assert(entries@.take(i + 1).drop_last() =~= entries@.take(i as int));
        if e.has_pk && e.select_option_count > 0 && !e.ajax_attempted {
            let pk = match &e.pk_value {
                Some(v) => v.clone(),
                None => String::new(),
            };
            let seq = if e.select_options.len() > 0 {
                e.select_options[0].seq_no.clone()
            } else {
                String::new()
            };
            let ghost before = triple_views(out@);
            out.push((e.list_id.clone(), pk, seq));
            assert(triple_views(out@) =~= before.push(probe_target(*e)));
        }
        i = i + 1;
    }
    assert(entries@.take(entries@.len() as int) =~= entries@);
    out
}

fn copy_opt_string(o: &Option<String>) -> (r: Option<String>)
    ensures
        opt_string_view(r) == opt_string_view(*o),
{
    match o {
        Some(s) => Some(s.clone()),
        None => None,
    }
}

fn copy_options(v: &Vec<SelectOption>) -> (r: Vec<SelectOption>)
    ensures
        r@.len() == v@.len(),
        forall|k: int|
            0 <= k < v@.len() ==> (#[trigger] r@[k]).seq_no@ == v@[k].seq_no@ && r@[k].name@
                == v@[k].name@,
{
    let mut out: Vec<SelectOption> = Vec::new();
    let mut i: usize = 0;
    while i < v.len()
        invariant
            i <= v@.len(),
            out@.len() == i,
            forall|k: int|
                0 <= k < i ==> (#[trigger] out@[k]).seq_no@ == v@[k].seq_no@ && out@[k].name@
                    == v@[k].name@,
        decreases v@.len() - i,
    {
        out.push(SelectOption { seq_no: v[i].seq_no.clone(), name: v[i].name.clone() });
        i = i + 1;
    }
    out
}

fn copy_strings(v: &Vec<String>) -> (r: Vec<String>)
    ensures
        string_views(r@) == string_views(v@),
{
    let mut out: Vec<String> = Vec::new();
    let mut i: usize = 0;
    while i < v.len()
        invariant
            i <= v@.len(),
            string_views(out@) == string_views(v@.take(i as int)),
        decreases v@.len() - i,
    {
        let ghost before = string_views(out@);
        out.push(v[i].clone());
        assert(string_views(out@) =~= before.push(v@[i as int]@));
        assert(string_views(v@.take(i + 1)) =~= string_views(v@.take(i as int)).push(v@[i as int]@));
        i = i + 1;
    }
    assert(v@.take(v@.len() as int) =~= v@);
    out
}

/// The analysis that a record holds, for reclassification.
pub open spec fn same_analysis(a: PageAnalysis, e: HtmlSurveyEntry) -> bool {
    &&& a.page_size_bytes == e.page_size_bytes
    &&& a.has_swagger_json == e.has_swagger_json
    &&& a.swagger_json_empty == e.swagger_json_empty
    &&& a.swagger_ops_count == e.swagger_ops_count
    &&& a.has_pk == e.has_pk
    &&& a.select_options@.len() == e.select_options@.len()
    &&& string_views(a.anomalies@) == string_views(e.anomalies@)
}

/// Record the outcome of a probe on its entry and reclassify the entry with it.
pub fn apply_probe(entry: &mut HtmlSurveyEntry, ajax: &AjaxProbeResult)
    ensures
        final(entry).ajax_attempted,
        final(entry).ajax_status == ajax.status,
        opt_string_view(final(entry).ajax_error) == opt_string_view(ajax.error),
        final(entry).ajax_response_bytes == ajax.response_bytes,
        final(entry).ajax_has_request_url == ajax.has_request_url,
        final(entry).ajax_has_service_url == ajax.has_service_url,
        opt_string_view(final(entry).ajax_request_url) == opt_string_view(ajax.request_url),
        opt_string_view(final(entry).ajax_service_url) == opt_string_view(ajax.service_url),
        final(entry).ajax_param_count == ajax.param_count,
        opt_string_view(final(entry).ajax_param_style) == opt_string_view(ajax.param_style),
        final(entry).ajax_response_field_count == ajax.response_field_count,
        final(entry).ajax_is_error_page == ajax.is_error_page,
        exists|a: PageAnalysis|
            same_analysis(a, *old(entry)) && final(entry).page_pattern@ == #[trigger] page_pattern(
                a,
                Some(*ajax),
            ),
        final(entry).list_id == old(entry).list_id,
        final(entry).title == old(entry).title,
        final(entry).http_status == old(entry).http_status,
        final(entry).fetch_error == old(entry).fetch_error,
        final(entry).page_size_bytes == old(entry).page_size_bytes,
        final(entry).has_swagger_json == old(entry).has_swagger_json,
        final(entry).swagger_json_empty == old(entry).swagger_json_empty,
        final(entry).swagger_ops_count == old(entry).swagger_ops_count,
        final(entry).has_pk == old(entry).has_pk,
        final(entry).pk_value == old(entry).pk_value,
        final(entry).pk_source == old(entry).pk_source,
        final(entry).select_option_count == old(entry).select_option_count,
        final(entry).select_options == old(entry).select_options,
        final(entry).anomalies == old(entry).anomalies,
{
    entry.ajax_attempted = true;
    entry.ajax_status = ajax.status;
    entry.ajax_error = copy_opt_string(&ajax.error);
    entry.ajax_response_bytes = ajax.response_bytes;
    entry.ajax_has_request_url = ajax.has_request_url;
    entry.ajax_has_service_url = ajax.has_service_url;
    entry.ajax_request_url = copy_opt_string(&ajax.request_url);
    entry.ajax_service_url = copy_opt_string(&ajax.service_url);
    entry.ajax_param_count = ajax.param_count;
    entry.ajax_param_style = copy_opt_string(&ajax.param_style);
    entry.ajax_response_field_count = ajax.response_field_count;
    entry.ajax_is_error_page = ajax.is_error_page;
    let analysis = PageAnalysis {
        page_size_bytes: entry.page_size_bytes,
        has_swagger_json: entry.has_swagger_json,
        swagger_json_empty: entry.swagger_json_empty,
        swagger_ops_count: entry.swagger_ops_count,
        has_pk: entry.has_pk,
        pk_value: copy_opt_string(&entry.pk_value),
        pk_source: copy_opt_string(&entry.pk_source),
        select_options: copy_options(&entry.select_options),
        anomalies: copy_strings(&entry.anomalies),
    };
    let pattern = classify_page_pattern(&analysis, Some(ajax));
    proof {
        assert(string_views(analysis.anomalies@) == string_views(entry.anomalies@));
    }
    entry.page_pattern = pattern;
    assert(same_analysis(analysis, *old(entry)));
}

// ---------------------------------------------------------------------------
// Report summary
// ---------------------------------------------------------------------------

/// The kinds of record that the summary counts.
pub enum Tally {
    /// pk found by its `id` attribute.
    PkId,
    /// pk found by its `name` attribute.
    PkName,
    /// pk found by the text scan.
    PkRegex,
    /// No pk.
    PkNone,
    /// At least one operation option.
    HasOptions,
    /// No operation option.
    NoOptions,
    /// Probe gave a request URL and parameters.
    AjaxFull,
    /// Probe succeeded without both a request URL and parameters.
    AjaxPartial,
    /// Probe gave an error page.
    AjaxErrorPage,
    /// Probe failed at the HTTP level.
    AjaxHttpError,
    /// No probe made.
    AjaxNotTried,
    /// Swagger operations and a pk.
    SwaggerAndPk,
    /// No Swagger operation, a pk and a successful probe with a request URL.
    NoSwaggerPkAjaxOk,
    /// Neither Swagger operations nor a pk.
    NoSwaggerNoPk,
    /// A probe was made.
    Probed,
    /// The page could not be fetched.
    Failed,
}

pub open spec fn is_source(o: Option<String>, s: Seq<char>) -> bool {
    opt_string_view(o) == Some(s)
}

pub open spec fn ops_count(e: HtmlSurveyEntry) -> usize {
    match e.swagger_ops_count {
        Some(n) => n,
        None => 0,
    }
}

pub open spec fn tallied(t: Tally, e: HtmlSurveyEntry) -> bool {
    match t {
        Tally::PkId => is_source(e.pk_source, "id_attr"@),
        Tally::PkName => is_source(e.pk_source, "name_attr"@),
        Tally::PkRegex => is_source(e.pk_source, "regex"@),
        Tally::PkNone => !e.has_pk,
        Tally::HasOptions => e.select_option_count > 0,
        Tally::NoOptions => e.select_option_count == 0,
        Tally::AjaxFull => e.ajax_attempted && e.ajax_has_request_url && e.ajax_param_count > 0,
        Tally::AjaxPartial => e.ajax_attempted && e.ajax_error is None && !e.ajax_is_error_page
            && !(e.ajax_has_request_url && e.ajax_param_count > 0),
        Tally::AjaxErrorPage => e.ajax_attempted && e.ajax_is_error_page,
        Tally::AjaxHttpError => e.ajax_attempted && e.ajax_error is Some,
        Tally::AjaxNotTried => !e.ajax_attempted,
        Tally::SwaggerAndPk => ops_count(e) > 0 && e.has_pk,
        Tally::NoSwaggerPkAjaxOk => ops_count(e) == 0 && e.has_pk && e.ajax_attempted
            && e.ajax_has_request_url && !e.ajax_is_error_page,
        Tally::NoSwaggerNoPk => ops_count(e) == 0 && !e.has_pk,
        Tally::Probed => e.ajax_attempted,
        Tally::Failed => e.fetch_error is Some,
    }
}

/// How many of `entries` are of kind `t`.
pub open spec fn tally(entries: Seq<HtmlSurveyEntry>, t: Tally) -> nat
    decreases entries.len(),
{
    if entries.len() == 0 {
        0
    } else {
        tally(entries.drop_last(), t) + if tallied(t, entries.last()) {
            1nat
        } else {
            0nat
        }
    }
}

pub proof fn lemma_tally_bound(entries: Seq<HtmlSurveyEntry>, t: Tally)
    ensures
        tally(entries, t) <= entries.len(),
    decreases entries.len(),
{
    if entries.len() > 0 {
        lemma_tally_bound(entries.drop_last(), t);
    }
}

fn opt_is(o: &Option<String>, s: &str) -> (r: bool)
    ensures
        r == is_source(*o, s@),
{
    match o {
        Some(v) => *v == s.to_owned(),
        None => false,
    }
}

/// Whether `e` is of kind `t`.
pub fn is_tallied(t: &Tally, e: &HtmlSurveyEntry) -> (r: bool)
    ensures
        r == tallied(*t, *e),
{
    let ops = match e.swagger_ops_count {
        Some(n) => n,
        None => 0,
    };
    match t {
        Tally::PkId => opt_is(&e.pk_source, "id_attr"),
        Tally::PkName => opt_is(&e.pk_source, "name_attr"),
        Tally::PkRegex => opt_is(&e.pk_source, "regex"),
        Tally::PkNone => !e.has_pk,
        Tally::HasOptions => e.select_option_count > 0,
        Tally::NoOptions => e.select_option_count == 0,
        Tally::AjaxFull => e.ajax_attempted && e.ajax_has_request_url && e.ajax_param_count > 0,
        Tally::AjaxPartial => e.ajax_attempted && e.ajax_error.is_none() && !e.ajax_is_error_page
            && !(e.ajax_has_request_url && e.ajax_param_count > 0),
        Tally::AjaxErrorPage => e.ajax_attempted && e.ajax_is_error_page,
        Tally::AjaxHttpError => e.ajax_attempted && e.ajax_error.is_some(),
        Tally::AjaxNotTried => !e.ajax_attempted,
        Tally::SwaggerAndPk => ops > 0 && e.has_pk,
        Tally::NoSwaggerPkAjaxOk => ops == 0 && e.has_pk && e.ajax_attempted
            && e.ajax_has_request_url && !e.ajax_is_error_page,
        Tally::NoSwaggerNoPk => ops == 0 && !e.has_pk,
        Tally::Probed => e.ajax_attempted,
        Tally::Failed => e.fetch_error.is_some(),
    }
}

/// The number of `entries` of kind `t`.
pub fn count_tally(entries: &[HtmlSurveyEntry], t: Tally) -> (r: usize)
    ensures
        r == tally(entries@, t),
{
    let mut n: usize = 0;
    let mut i: usize = 0;
    while i < entries.len()
        invariant
            i <= entries@.len(),
            n == tally(entries@.take(i as int), t),
        decreases entries@.len() - i,
    {
        assert(entries@.take(i + 1).drop_last() =~= entries@.take(i as int));
        proof {
            lemma_tally_bound(entries@.take(i as int), t);
        }
        if is_tallied(&t, &entries[i]) {
            n = n + 1;
        }
        i = i + 1;
    }
    assert(entries@.take(entries@.len() as int) =~= entries@);
    n
}

/// Index of the first group named `p`.
pub open spec fn find_named(g: Seq<(Seq<char>, nat)>, p: Seq<char>) -> Option<int>
    decreases g.len(),
{
    if g.len() == 0 {
        None
    } else if g[0].0 == p {
        Some(0)
    } else {
        match find_named(g.drop_first(), p) {
            Some(k) => Some(k + 1),
            None => None,
        }
    }
}

/// The page patterns of `entries` with their counts, in order of first appearance.
pub open spec fn pattern_groups(entries: Seq<HtmlSurveyEntry>) -> Seq<(Seq<char>, nat)>
    decreases entries.len(),
{
    if entries.len() == 0 {
        Seq::empty()
    } else {
        let g = pattern_groups(entries.drop_last());
        let p = entries.last().page_pattern@;
        match find_named(g, p) {
            Some(k) => g.update(k, (p, g[k].1 + 1)),
            None => g.push((p, 1nat)),
        }
    }
}

pub open spec fn group_counts(g: Seq<(Seq<char>, nat)>) -> Seq<u128> {
    g.map_values(|x: (Seq<char>, nat)| x.1 as u128)
}

/// The distribution of page patterns: each pattern with its count, most frequent first;
/// patterns with equal counts keep the order in which they first appear.
pub open spec fn pattern_distribution(entries: Seq<HtmlSurveyEntry>) -> Seq<(Seq<char>, nat)> {
    let g = pattern_groups(entries);
    let order = order_desc(group_counts(g));
    Seq::new(g.len(), |m: int| g[order[m]])
}

pub open spec fn count_views(v: Seq<(String, usize)>) -> Seq<(Seq<char>, nat)> {
    v.map_values(|x: (String, usize)| (x.0@, x.1 as nat))
}

proof fn lemma_find_named(g: Seq<(Seq<char>, nat)>, p: Seq<char>, j: int)
    requires
        0 <= j <= g.len(),
        forall|k: int| 0 <= k < j ==> g[k].0 != p,
    ensures
        j < g.len() && g[j].0 == p ==> find_named(g, p) == Some(j),
        j == g.len() ==> find_named(g, p) is None,
    decreases j,
{
    if j > 0 {
        lemma_find_named(g.drop_first(), p, j - 1);
    }
}

proof fn lemma_groups_bounded(entries: Seq<HtmlSurveyEntry>, k: int)
    requires
        0 <= k < pattern_groups(entries).len(),
    ensures
        pattern_groups(entries)[k].1 <= entries.len(),
        pattern_groups(entries).len() <= entries.len(),
    decreases entries.len(),
{
    let g = pattern_groups(entries.drop_last());
    if entries.len() > 0 {
        let p = entries.last().page_pattern@;
        lemma_find_named_range(g, p);
        if k < g.len() {
            lemma_groups_bounded(entries.drop_last(), k);
        } else if g.len() > 0 {
            lemma_groups_bounded(entries.drop_last(), 0);
        }
    }
}

proof fn lemma_find_named_range(g: Seq<(Seq<char>, nat)>, p: Seq<char>)
    ensures
        find_named(g, p) matches Some(k) ==> 0 <= k < g.len(),
    decreases g.len(),
{
    if g.len() > 0 {
        lemma_find_named_range(g.drop_first(), p);
    }
}

/// Count the page patterns of `entries`, in order of first appearance.
fn count_patterns(entries: &[HtmlSurveyEntry]) -> (r: Vec<(String, usize)>)
    ensures
        count_views(r@) == pattern_groups(entries@),
{
    let mut groups: Vec<(String, usize)> = Vec::new();
    let mut i: usize = 0;
    assert(count_views(groups@) =~= pattern_groups(entries@.take(0)));
    while i < entries.len()
        invariant
            i <= entries@.len(),
            count_views(groups@) == pattern_groups(entries@.take(i as int)),
            forall|k: int| 0 <= k < groups@.len() ==> #[trigger] groups@[k].1 <= i,
        decreases entries@.len() - i,
    {
        let p = &entries[i].page_pattern;
        let ghost gv = count_views(groups@);
        assert(entries@.take(i + 1).drop_last() =~= entries@.take(i as int));
        assert(entries@.take(i + 1).last().page_pattern@ == p@);
        let mut j: usize = 0;
        while j < groups.len() && groups[j].0 != *p
            invariant
                j <= groups@.len(),
                gv == count_views(groups@),
                forall|k: int| 0 <= k < j ==> gv[k].0 != p@,
            decreases groups@.len() - j,
        {
            j = j + 1;
        }
        proof {
            lemma_find_named(gv, p@, j as int);
        }
        if j < groups.len() {
            let c = groups[j].1;
            let key = groups[j].0.clone();
            let ghost old_groups = groups@;
            groups.set(j, (key, c + 1));
            assert(count_views(groups@) =~= gv.update(j as int, (p@, gv[j as int].1 + 1)));
            assert forall|k: int| 0 <= k < groups@.len() implies #[trigger] groups@[k].1 <= i + 1 by {
                if k != j {
                    assert(groups@[k] == old_groups[k]);
                }
            }
        } else {
            groups.push((p.clone(), 1));
            assert(count_views(groups@) =~= gv.push((p@, 1nat)));
        }
        i = i + 1;
    }
    assert(entries@.take(entries@.len() as int) =~= entries@);
    groups
}

/// The counts that the survey report shows.
pub struct SurveySummary {
    pub total: usize,
    pub probed: usize,
    pub failed: usize,
    pub pk_id: usize,
    pub pk_name: usize,
    pub pk_regex: usize,
    pub pk_none: usize,
    pub has_options: usize,
    pub no_options: usize,
    pub ajax_success_full: usize,
    pub ajax_success_partial: usize,
    pub ajax_error_page: usize,
    pub ajax_http_error: usize,
    pub ajax_not_tried: usize,
    pub swagger_and_pk: usize,
    pub no_swagger_pk_ajax_ok: usize,
    pub no_swagger_no_pk: usize,
    /// Page patterns with their counts, most frequent first.
    pub patterns: Vec<(String, usize)>,
}

/// The summary of a survey: the counts of each kind of record and the distribution of
/// page patterns.
pub fn summarize_survey(entries: &[HtmlSurveyEntry]) -> (r: SurveySummary)
    ensures
        r.total == entries@.len(),
        r.probed == tally(entries@, Tally::Probed),
        r.failed == tally(entries@, Tally::Failed),
        r.pk_id == tally(entries@, Tally::PkId),
        r.pk_name == tally(entries@, Tally::PkName),
        r.pk_regex == tally(entries@, Tally::PkRegex),
        r.pk_none == tally(entries@, Tally::PkNone),
        r.has_options == tally(entries@, Tally::HasOptions),
        r.no_options == tally(entries@, Tally::NoOptions),
        r.ajax_success_full == tally(entries@, Tally::AjaxFull),
        r.ajax_success_partial == tally(entries@, Tally::AjaxPartial),
        r.ajax_error_page == tally(entries@, Tally::AjaxErrorPage),
        r.ajax_http_error == tally(entries@, Tally::AjaxHttpError),
        r.ajax_not_tried == tally(entries@, Tally::AjaxNotTried),
        r.swagger_and_pk == tally(entries@, Tally::SwaggerAndPk),
        r.no_swagger_pk_ajax_ok == tally(entries@, Tally::NoSwaggerPkAjaxOk),
        r.no_swagger_no_pk == tally(entries@, Tally::NoSwaggerNoPk),
        count_views(r.patterns@) == pattern_distribution(entries@),
{
    let groups = count_patterns(entries);
    let mut counts: Vec<u128> = Vec::new();
    let mut k: usize = 0;
    while k < groups.len()
        invariant
            k <= groups@.len(),
            counts@.len() == k,
            forall|q: int| 0 <= q < k ==> #[trigger] counts@[q] == groups@[q].1 as u128,
        decreases groups@.len() - k,
    {
        counts.push(groups[k].1 as u128);
        k = k + 1;
    }
    let ghost g = pattern_groups(entries@);
    assert(counts@ =~= group_counts(g)) by {
        assert forall|q: int| 0 <= q < counts@.len() implies counts@[q] == group_counts(g)[q] by {
            assert(count_views(groups@)[q] == g[q]);
        }
    }
    let order = order_by_score_desc(&counts);
    let mut patterns: Vec<(String, usize)> = Vec::new();
    let mut m: usize = 0;
    while m < order.len()
        invariant
            m <= order@.len(),
            order@.len() == groups@.len(),
            count_views(groups@) == g,
            counts@ == group_counts(g),
            forall|q: int| 0 <= q < order@.len() ==> #[trigger] order@[q] as int == order_desc(counts@)[q],
            forall|q: int| 0 <= q < order@.len() ==> #[trigger] order@[q] < groups@.len(),
            patterns@.len() == m,
            forall|q: int| 0 <= q < m ==> (#[trigger] count_views(patterns@)[q]) == g[order_desc(counts@)[q]],
        decreases order@.len() - m,
    {
        let idx = order[m];
        let item = (groups[idx].0.clone(), groups[idx].1);
        let ghost before = patterns@;
        patterns.push(item);
        assert forall|q: int| 0 <= q < m + 1 implies (#[trigger] count_views(patterns@)[q]) == g[order_desc(counts@)[q]] by {
            if q < m {
                assert(patterns@[q] == before[q]);
                assert(count_views(before)[q] == g[order_desc(counts@)[q]]);
                assert(count_views(patterns@)[q] == count_views(before)[q]);
            } else {
                assert(order@[m as int] as int == order_desc(counts@)[m as int]);
                assert(patterns@[q] == item);
                assert(count_views(groups@)[idx as int] == g[idx as int]);
                assert(count_views(patterns@)[q] == (item.0@, item.1 as nat));
            }
        }
        m = m + 1;
    }
    assert(count_views(patterns@) =~= pattern_distribution(entries@));
    SurveySummary {
        total: entries.len(),
        probed: count_tally(entries, Tally::Probed),
        failed: count_tally(entries, Tally::Failed),
        pk_id: count_tally(entries, Tally::PkId),
        pk_name: count_tally(entries, Tally::PkName),
        pk_regex: count_tally(entries, Tally::PkRegex),
        pk_none: count_tally(entries, Tally::PkNone),
        has_options: count_tally(entries, Tally::HasOptions),
        no_options: count_tally(entries, Tally::NoOptions),
        ajax_success_full: count_tally(entries, Tally::AjaxFull),
        ajax_success_partial: count_tally(entries, Tally::AjaxPartial),
        ajax_error_page: count_tally(entries, Tally::AjaxErrorPage),
        ajax_http_error: count_tally(entries, Tally::AjaxHttpError),
        ajax_not_tried: count_tally(entries, Tally::AjaxNotTried),
        swagger_and_pk: count_tally(entries, Tally::SwaggerAndPk),
        no_swagger_pk_ajax_ok: count_tally(entries, Tally::NoSwaggerPkAjaxOk),
        no_swagger_no_pk: count_tally(entries, Tally::NoSwaggerNoPk),
        patterns,
    }
}

// ---------------------------------------------------------------------------
// Page signals
// ---------------------------------------------------------------------------

/// The name under which a pk source is reported.
pub open spec fn pk_source_name(s: PkSource) -> Seq<char> {
    match s {
        PkSource::IdAttr => "id_attr"@,
        PkSource::NameAttr => "name_attr"@,
        PkSource::TextScan => "regex"@,
    }
}

/// Find the pk in three steps and record how it was found: `(found, pk, source)`.
pub fn extract_pk(doc: &HtmlDoc, raw_html: &str) -> (r: (bool, Option<String>, Option<String>))
    ensures
        match pk_of(doc@, raw_html@) {
            Some((v, s)) => r.0 && opt_string_view(r.1) == Some(v) && opt_string_view(r.2) == Some(
                pk_source_name(s),
            ),
            None => !r.0 && r.1 is None && r.2 is None,
        },
{
    match find_pk(doc, raw_html) {
        Some((v, s)) => {
            let name = match s {
                PkSource::IdAttr => "id_attr".to_owned(),
                PkSource::NameAttr => "name_attr".to_owned(),
                PkSource::TextScan => "regex".to_owned(),
            };
            (true, Some(v), Some(name))
        },
        None => (false, None, None),
    }
}

/// The options of `#open_api_detail_select` with a non-empty value.
pub fn extract_select_options(doc: &HtmlDoc) -> (r: Vec<SelectOption>)
    ensures
        r@.map_values(|o: SelectOption| (o.seq_no@, o.name@)) == operation_options(doc@),
{
    let pairs = option_pairs(doc);
    let ghost pv = pairs@.map_values(|p: (String, String)| (p.0@, p.1@));
    let mut out: Vec<SelectOption> = Vec::new();
    let mut k: usize = 0;
    while k < pairs.len()
        invariant
            k <= pairs@.len(),
            pv == pairs@.map_values(|p: (String, String)| (p.0@, p.1@)),
            out@.map_values(|o: SelectOption| (o.seq_no@, o.name@)) == pv.take(k as int),
        decreases pairs@.len() - k,
    {
        let o = SelectOption { seq_no: pairs[k].0.clone(), name: pairs[k].1.clone() };
        let ghost before = out@.map_values(|o: SelectOption| (o.seq_no@, o.name@));
        out.push(o);
        proof {
            assert(out@.map_values(|o: SelectOption| (o.seq_no@, o.name@)) =~= before.push(pv[k as int]));
            assert(pv.take(k + 1) =~= pv.take(k as int).push(pv[k as int]));
        }
        k = k + 1;
    }
    assert(pv.take(pairs@.len() as int) =~= pv);
    out
}

/// The parameter style of a detail fragment and its number of parameters: rows with
/// `data-paramtr-nm` (`data_attr`), else parameter rows of six or more cells
/// (`td_fallback`), else none.
pub open spec fn param_style(ns: Seq<crate::html::HtmlNodeV>) -> (nat, Seq<char>) {
    let rows = select(ns, param_rows_sel());
    if rows.len() > 0 {
        (rows.len(), "data_attr"@)
    } else {
        let n = cell_params(ns, select(ns, SelV::Tag("tr"@))).len();
        if n > 0 {
            (n, "td_fallback"@)
        } else {
            (0, "none"@)
        }
    }
}

/// Detect the parameter style of a detail fragment.
pub fn detect_param_style(html: &str) -> (r: (usize, String))
    ensures
        (r.0 as nat, r.1@) == param_style(parsed_html(html@, true)),
{
    let doc = parse_fragment(html);
    let sel = Sel::TagAttr("tr".to_owned(), "data-paramtr-nm".to_owned());
    let rows = doc.select(&sel);
    if rows.len() > 0 {
        return (rows.len(), "data_attr".to_owned());
    }
    let params = extract_request_params_fallback(&doc);
    if params.len() > 0 {
        (params.len(), "td_fallback".to_owned())
    } else {
        (0, "none".to_owned())
    }
}

/// The number of response fields after the `출력결과` / `응답메시지` heading row.
pub fn count_response_fields(html: &str) -> (r: usize)
    ensures
        r == scanned_fields(parsed_html(html@, true)).len(),
{
    let doc = parse_fragment(html);
    let fields = extract_response_fields_by_tr_scan(&doc);
    fields.len()
}

/// The `http` URL after `<strong>label</strong>` in a detail fragment (the label's parent
/// texts joined by spaces).
pub fn extract_labeled_url_from_html(html: &str, label: &str) -> (r: Option<String>)
    ensures
        opt_string_view(r) == labeled_url(parsed_html(html@, true), label@, " "@),
{
    let doc = parse_fragment(html);
    labeled_url_exec(&doc, label, " ")
}

/// The number of operations of an embedded Swagger spec.
pub open spec fn swagger_ops(j: crate::json::JsonV) -> nat {
    crate::swagger::swagger_spec("_html_survey"@, j, Seq::empty()).operations.len()
}

/// Extract the signals of an `openapi.do` page. `swagger_json` is the page's embedded
/// Swagger text (`extract_swagger_json_text`) parsed as JSON, when it parses.
pub fn analyze_page_html(html: &str, swagger_json: Option<&Json>) -> (r: PageAnalysis)
    ensures
        r.page_size_bytes == html.len(),
        r.has_swagger_json == swagger_json.is_some(),
        r.swagger_json_empty == has_match(EMPTY_SWAGGER_PATTERN@, html@),
        r.swagger_ops_count == match swagger_json {
            Some(j) => Some(swagger_ops(j@) as usize),
            None => None::<usize>,
        },
        match pk_of(parsed_html(html@, false), html@) {
            Some((v, s)) => r.has_pk && opt_string_view(r.pk_value) == Some(v) && opt_string_view(r.pk_source)
                == Some(pk_source_name(s)),
            None => !r.has_pk && r.pk_value is None && r.pk_source is None,
        },
        r.select_options@.map_values(|o: SelectOption| (o.seq_no@, o.name@)) == operation_options(
            parsed_html(html@, false),
        ),
        string_views(r.anomalies@) == anomalies_of(html@, r.page_size_bytes),
{
    let page_size_bytes = html.len();
    let doc = parse_document(html);
    let swagger_json_empty = is_swagger_empty(html);
    let swagger_ops_count = match swagger_json {
        Some(j) => {
            let spec = crate::swagger::parse_swagger_at("_html_survey", j, String::new());
            assert(crate::swagger::ops_view(spec.operations@) =~= spec@.operations);
            Some(spec.operations.len())
        },
        None => None,
    };
    let (has_pk, pk_value, pk_source) = extract_pk(&doc, html);
    let select_options = extract_select_options(&doc);
    let anomalies = detect_anomalies(html, page_size_bytes);
    PageAnalysis {
        page_size_bytes,
        has_swagger_json: swagger_json.is_some(),
        swagger_json_empty,
        swagger_ops_count,
        has_pk,
        pk_value,
        pk_source,
        select_options,
        anomalies,
    }
}

// ---------------------------------------------------------------------------
// Laws of the page patterns
// ---------------------------------------------------------------------------

/// An end notice (deprecation or termination) makes a page `deprecated`, whatever else was
/// found on it or by its probe.
pub proof fn law_end_notice_is_deprecated(a: PageAnalysis, ajax: Option<AjaxProbeResult>, k: int)
    requires
        0 <= k < a.anomalies@.len(),
        a.anomalies@[k]@ == "deprecated_notice"@ || a.anomalies@[k]@ == "service_terminated"@,
    ensures
        page_pattern(a, ajax) == "deprecated"@,
{
    assert(string_views(a.anomalies@)[k] == a.anomalies@[k]@);
}

/// Without an end notice, a page whose Swagger has operations is `swagger_full`, whatever the
/// probe found; the probe only decides among pages with a pk, options and no operations.
pub proof fn law_swagger_ops_decide_before_probe(a: PageAnalysis, p1: Option<AjaxProbeResult>, p2: Option<AjaxProbeResult>)
    requires
        !has_end_notice(string_views(a.anomalies@)),
    ensures
        (a.swagger_ops_count matches Some(n) && n > 0) ==> page_pattern(a, p1) == "swagger_full"@,
        (!a.has_pk || a.select_options@.len() == 0 || (a.swagger_ops_count matches Some(n) && n > 0))
            ==> page_pattern(a, p1) == page_pattern(a, p2),
{
}

// ---------------------------------------------------------------------------
// The probe of an operation's detail
// ---------------------------------------------------------------------------

/// The request of a probe: the address of the page it refers to (`Referer`) and the
/// form-encoded body.
pub open spec fn probe_request_of(list_id: Seq<char>, pk: Seq<char>, first_seq_no: Seq<char>) -> (Seq<char>, Seq<char>) {
    (
        "https://www.data.go.kr/data/"@ + list_id + "/openapi.do"@,
        "publicDataDetailPk="@ + pk + "&oprtinSeqNo="@ + first_seq_no + "&publicDataPk="@ + list_id,
    )
}

fn cat(parts: Vec<&str>) -> (r: String)
    ensures
        r@ == parts@.map_values(|p: &str| p@).fold_left(Seq::<char>::empty(), |acc: Seq<char>, x: Seq<char>| acc + x),
{
    let ghost pv = parts@.map_values(|p: &str| p@);
    let mut out: Vec<char> = Vec::new();
    let mut i: usize = 0;
    assert(pv.take(0) =~= Seq::<Seq<char>>::empty());
    while i < parts.len()
        invariant
            i <= parts@.len(),
            pv == parts@.map_values(|p: &str| p@),
            out@ == pv.take(i as int).fold_left(Seq::<char>::empty(), |acc: Seq<char>, x: Seq<char>| acc + x),
        decreases parts@.len() - i,
    {
        let mut p = crate::text::chars_of(parts[i]);
        assert(pv.take(i + 1).drop_last() =~= pv.take(i as int));
        out.append(&mut p);
        i = i + 1;
    }
    assert(pv.take(parts@.len() as int) =~= pv);
    crate::text::string_from_chars(out.as_slice())
}

/// The `Referer` and the body of the probe of a page's first operation.
pub fn probe_request(list_id: &str, pk: &str, first_seq_no: &str) -> (r: (String, String))
    ensures
        (r.0@, r.1@) == probe_request_of(list_id@, pk@, first_seq_no@),
{
    let parts = vec!["https://www.data.go.kr/data/", list_id, "/openapi.do"];
    let ghost pv = parts@.map_values(|p: &str| p@);
    let referer = cat(parts);
    proof {
        reveal_with_fuel(Seq::fold_left, 4);
        assert(pv.drop_last().drop_last().drop_last() =~= Seq::<Seq<char>>::empty());
    }
    let parts2 = vec!["publicDataDetailPk=", pk, "&oprtinSeqNo=", first_seq_no, "&publicDataPk=", list_id];
    let ghost pv2 = parts2@.map_values(|p: &str| p@);
    let body = cat(parts2);
    proof {
        reveal_with_fuel(Seq::fold_left, 7);
        assert(pv2.drop_last().drop_last().drop_last().drop_last().drop_last().drop_last() =~= Seq::<Seq<char>>::empty());
    }
    assert(referer@ =~= probe_request_of(list_id@, pk@, first_seq_no@).0);
    assert(body@ =~= probe_request_of(list_id@, pk@, first_seq_no@).1);
    (referer, body)
}

/// Why a probe got no page.
#[derive(Debug, Clone)]
pub enum ProbeFailure {
    /// The request failed, with the error's text.
    Request(String),
    /// The answer's body could not be read, with the error's text.
    Body(String),
}

/// The record of a probe that got no page: `status` is the answer's status when there was
/// one; the error names the step that failed.
pub fn failed_probe(status: Option<u16>, failure: ProbeFailure) -> (r: AjaxProbeResult)
    ensures
        r.status == status,
        opt_string_view(r.error) == Some(
            match failure {
                ProbeFailure::Request(e) => "request error: "@ + e@,
                ProbeFailure::Body(e) => "body read error: "@ + e@,
            },
        ),
        r.response_bytes is None && r.request_url is None && r.service_url is None && r.param_style is None,
        !r.has_request_url && !r.has_service_url && !r.is_error_page,
        r.param_count == 0 && r.response_field_count == 0,
{
    let message = match failure {
        ProbeFailure::Request(e) => {
            let ghost ev = e@;
            let m = cat(vec!["request error: ", e.as_str()]);
            proof {
                reveal_with_fuel(Seq::fold_left, 3);
            }
            assert(m@ =~= "request error: "@ + ev) by {
                assert(seq!["request error: "@, ev].drop_last().drop_last() =~= Seq::<Seq<char>>::empty());
            }
            m
        },
        ProbeFailure::Body(e) => {
            let ghost ev = e@;
            let m = cat(vec!["body read error: ", e.as_str()]);
            proof {
                reveal_with_fuel(Seq::fold_left, 3);
            }
            assert(m@ =~= "body read error: "@ + ev) by {
                assert(seq!["body read error: "@, ev].drop_last().drop_last() =~= Seq::<Seq<char>>::empty());
            }
            m
        },
    };
    AjaxProbeResult {
        status,
        error: Some(message),
        response_bytes: None,
        has_request_url: false,
        has_service_url: false,
        request_url: None,
        service_url: None,
        param_count: 0,
        param_style: None,
        response_field_count: 0,
        is_error_page: false,
    }
}

/// Whether a detail answer is the portal's error page.
pub open spec fn is_error_page(html: Seq<char>) -> bool {
    contains(html, "<title>에러"@) || contains(html, "요청하신 페이지를 찾을 수 없습니다"@)
}

/// The record of a probe that got the detail page `html` with `status`: its size, whether
/// it is an error page, its labelled request and service URLs, its parameter style and
/// count, and its number of response fields.
pub fn analyze_probe(status: u16, html: &str) -> (r: AjaxProbeResult)
    ensures
        r.status == Some(status),
        r.error is None,
        r.response_bytes == Some(html.len()),
        r.is_error_page == is_error_page(html@),
        opt_string_view(r.request_url) == labeled_url(parsed_html(html@, true), "요청주소"@, " "@),
        opt_string_view(r.service_url) == labeled_url(parsed_html(html@, true), "서비스URL"@, " "@),
        r.has_request_url == r.request_url is Some,
        r.has_service_url == r.service_url is Some,
        (r.param_count as nat, opt_string_view(r.param_style)) == (
            param_style(parsed_html(html@, true)).0,
            Some(param_style(parsed_html(html@, true)).1),
        ),
        r.response_field_count == scanned_fields(parsed_html(html@, true)).len(),
{
    let error_page = str_contains(html, "<title>에러") || str_contains(html, "요청하신 페이지를 찾을 수 없습니다");
    let request_url = extract_labeled_url_from_html(html, "요청주소");
    let service_url = extract_labeled_url_from_html(html, "서비스URL");
    let (param_count, style) = detect_param_style(html);
    let response_field_count = count_response_fields(html);
    AjaxProbeResult {
        status: Some(status),
        error: None,
        response_bytes: Some(html.len()),
        has_request_url: request_url.is_some(),
        has_service_url: service_url.is_some(),
        request_url,
        service_url,
        param_count,
        param_style: Some(style),
        response_field_count,
        is_error_page: error_page,
    }
}

} // verus!
