//! Shared data types: catalog entries, bundles, API specifications and the spec status rules,
//! each with a mathematical model for contracts.

use vstd::prelude::*;
use crate::json::{Json, JsonV};
use crate::text::{
    ascii_lower, contains, eq_ignore_ascii_case, is_ascii_lowering, is_ascii_or_hangul_text, lemma_char_code_injective, lowercase,
    occurs_at, str_contains, string_views, to_lowercase,
};

verus! {

// ---------------------------------------------------------------------------
// Catalog types (lightweight, for search)
// ---------------------------------------------------------------------------

#[derive(Debug, Clone)]
pub struct Catalog {
    pub services: Vec<ApiService>,
    pub updated_at: String,
}

#[derive(Debug, Clone)]
pub struct ApiService {
    pub list_id: String,
    pub title: String,
    pub description: String,
    pub keywords: Vec<String>,
    pub org_name: String,
    pub category: String,
    pub endpoint_url: String,
    pub data_format: String,
    pub auto_approve: bool,
    pub is_free: bool,
    pub request_count: u32,
    pub updated_at: String,
    pub operations: Vec<OperationSummary>,
}

#[derive(Debug, Clone)]
pub struct OperationSummary {
    pub id: String,
    pub name: String,
    pub request_params: Vec<String>,
    pub request_params_en: Vec<String>,
}

pub struct ApiServiceV {
    pub list_id: Seq<char>,
    pub title: Seq<char>,
    pub description: Seq<char>,
    pub keywords: Seq<Seq<char>>,
    pub org_name: Seq<char>,
    pub category: Seq<char>,
    pub endpoint_url: Seq<char>,
    pub data_format: Seq<char>,
    pub auto_approve: bool,
    pub is_free: bool,
    pub request_count: u32,
    pub updated_at: Seq<char>,
    pub operations: Seq<OperationSummaryV>,
}

pub struct OperationSummaryV {
    pub id: Seq<char>,
    pub name: Seq<char>,
    pub request_params: Seq<Seq<char>>,
    pub request_params_en: Seq<Seq<char>>,
}

impl View for OperationSummary {
    type V = OperationSummaryV;

    open spec fn view(&self) -> OperationSummaryV {
        OperationSummaryV {
            id: self.id@,
            name: self.name@,
            request_params: string_views(self.request_params@),
            request_params_en: string_views(self.request_params_en@),
        }
    }
}

impl View for ApiService {
    type V = ApiServiceV;

    open spec fn view(&self) -> ApiServiceV {
        ApiServiceV {
            list_id: self.list_id@,
            title: self.title@,
            description: self.description@,
            keywords: string_views(self.keywords@),
            org_name: self.org_name@,
            category: self.category@,
            endpoint_url: self.endpoint_url@,
            data_format: self.data_format@,
            auto_approve: self.auto_approve,
            is_free: self.is_free,
            request_count: self.request_count,
            updated_at: self.updated_at@,
            operations: self.operations@.map_values(|o: OperationSummary| o@),
        }
    }
}

// ---------------------------------------------------------------------------
// Bundle types (pre-collected data for offline use)
// ---------------------------------------------------------------------------

/// Current bundle schema version. Increment when Bundle/CatalogEntry fields change.
pub const CURRENT_SCHEMA_VERSION: u32 = 4;

#[derive(Debug, Clone)]
pub struct BundleMetadata {
    pub version: String,
    pub schema_version: u32,
    pub api_count: usize,
    pub spec_count: usize,
    pub checksum: String,
}

/// Offline bundle: metadata, catalog and the collected specs, keyed by list id
/// (a list id occurs at most once among `specs`).
#[derive(Debug, Clone)]
pub struct Bundle {
    pub metadata: BundleMetadata,
    pub catalog: Vec<CatalogEntry>,
    pub specs: Vec<(String, ApiSpec)>,
}

/// Spec availability status for a catalog entry.
/// New variants must be appended at the end: the bundle encoding uses the variant index.
#[derive(Debug, Clone, Copy, PartialEq, Eq, Structural)]
pub enum SpecStatus {
    Available,
    Skeleton,
    HtmlOnly,
    External,
    CatalogOnly,
    Unsupported,
    PartialStub,
}

/// The inputs of `SpecStatus::classify`.
#[derive(Debug)]
pub struct ClassificationHints<'a> {
    pub has_spec: bool,
    pub is_skeleton: bool,
    pub endpoint_url: &'a str,
    pub is_link_api: bool,
    pub is_partial: bool,
}

impl<'a> Default for ClassificationHints<'a> {
    fn default() -> (r: Self)
        ensures
            !r.has_spec && !r.is_skeleton && r.endpoint_url@ == Seq::<char>::empty()
                && !r.is_link_api && !r.is_partial,
    {
        proof {
            reveal_strlit("");
        }
        ClassificationHints {
            has_spec: false,
            is_skeleton: false,
            endpoint_url: "",
            is_link_api: false,
            is_partial: false,
        }
    }
}

/// The message shown for each status.
pub open spec fn status_message(s: SpecStatus) -> Seq<char> {
    match s {
        SpecStatus::Available => "API spec 사용 가능"@,
        SpecStatus::Skeleton => "Swagger spec이 비어있습니다. 외부 서비스 페이지에서 확인하세요."@,
        SpecStatus::HtmlOnly => "spec 파싱 준비 중입니다. endpoint URL을 참고하세요."@,
        SpecStatus::External => "외부 포탈에서 제공하는 API입니다."@,
        SpecStatus::CatalogOnly => "카탈로그 정보만 있습니다."@,
        SpecStatus::Unsupported => "REST가 아닌 프로토콜(WMS/WFS 등)입니다."@,
        SpecStatus::PartialStub => "일부 operation만 수집됨 — 존재하는 operation은 호출 가능, 누락분은 다음 업데이트에서 복구 예정"@,
    }
}

/// The classification rule, in priority order: a link API is external; a partial spec is a
/// partial stub; a spec is available; an empty Swagger is a skeleton; a WMS/WFS/WCS URL is
/// unsupported; a gateway URL is HTML-only; another non-portal URL is external; no URL is
/// catalog-only; a portal URL without spec is HTML-only.
pub open spec fn classify_spec(
    has_spec: bool,
    is_skeleton: bool,
    url: Seq<char>,
    is_link_api: bool,
    is_partial: bool,
) -> SpecStatus {
    let lower = lowercase(url);
    if is_link_api {
        SpecStatus::External
    } else if is_partial && has_spec {
        SpecStatus::PartialStub
    } else if has_spec {
        SpecStatus::Available
    } else if is_skeleton {
        SpecStatus::Skeleton
    } else if contains(lower, "wms"@) || contains(lower, "wfs"@) || contains(lower, "wcs"@) {
        SpecStatus::Unsupported
    } else if contains(url, "apis.data.go.kr"@) {
        SpecStatus::HtmlOnly
    } else if url.len() > 0 && !contains(url, "data.go.kr"@) && !contains(url, "api.odcloud.kr"@) {
        SpecStatus::External
    } else if url.len() == 0 {
        SpecStatus::CatalogOnly
    } else {
        SpecStatus::HtmlOnly
    }
}

impl SpecStatus {
    /// A status whose spec can be called: `Available` or `PartialStub`.
    pub open spec fn spec_callable(self) -> bool {
        self is Available || self is PartialStub
    }

    pub fn is_callable(&self) -> (r: bool)
        ensures
            r == self.spec_callable(),
    {
        match self {
            SpecStatus::Available | SpecStatus::PartialStub => true,
            _ => false,
        }
    }

    pub fn user_message(&self) -> (r: &'static str)
        ensures
            r@ == status_message(*self),
    {
        match self {
            SpecStatus::Available => "API spec 사용 가능",
            SpecStatus::Skeleton => "Swagger spec이 비어있습니다. 외부 서비스 페이지에서 확인하세요.",
            SpecStatus::HtmlOnly => "spec 파싱 준비 중입니다. endpoint URL을 참고하세요.",
            SpecStatus::External => "외부 포탈에서 제공하는 API입니다.",
            SpecStatus::CatalogOnly => "카탈로그 정보만 있습니다.",
            SpecStatus::Unsupported => "REST가 아닌 프로토콜(WMS/WFS 등)입니다.",
            SpecStatus::PartialStub => "일부 operation만 수집됨 — 존재하는 operation은 호출 가능, 누락분은 다음 업데이트에서 복구 예정",
        }
    }

    /// Classify spec status based on available data.
    pub fn classify(hints: &ClassificationHints) -> (r: SpecStatus)
        ensures
            r == classify_spec(
                hints.has_spec,
                hints.is_skeleton,
                hints.endpoint_url@,
                hints.is_link_api,
                hints.is_partial,
            ),
            !hints.is_link_api && !hints.has_spec && !hints.is_skeleton && is_ascii_or_hangul_text(hints.endpoint_url@)
                ==> is_ascii_lowering(hints.endpoint_url@, lowercase(hints.endpoint_url@)),
    {
        if hints.is_link_api {
            return SpecStatus::External;
        }
        if hints.is_partial && hints.has_spec {
            return SpecStatus::PartialStub;
        }
        if hints.has_spec {
            return SpecStatus::Available;
        }
        if hints.is_skeleton {
            return SpecStatus::Skeleton;
        }
        let url_lower = to_lowercase(hints.endpoint_url);
        if str_contains(url_lower.as_str(), "wms") || str_contains(url_lower.as_str(), "wfs")
            || str_contains(url_lower.as_str(), "wcs") {
            return SpecStatus::Unsupported;
        }
        if str_contains(hints.endpoint_url, "apis.data.go.kr") {
            return SpecStatus::HtmlOnly;
        }
        if !hints.endpoint_url.is_empty() && !str_contains(hints.endpoint_url, "data.go.kr")
            && !str_contains(hints.endpoint_url, "api.odcloud.kr") {
            return SpecStatus::External;
        }
        if hints.endpoint_url.is_empty() {
            return SpecStatus::CatalogOnly;
        }
        SpecStatus::HtmlOnly
    }
}


#[derive(Debug, Clone)]
pub struct CatalogEntry {
    pub list_id: String,
    pub title: String,
    pub description: String,
    pub keywords: Vec<String>,
    pub org_name: String,
    pub category: String,
    pub request_count: u32,
    pub endpoint_url: String,
    pub spec_status: SpecStatus,
}

// ---------------------------------------------------------------------------
// API spec types (detailed, from Swagger or the portal's HTML pages)
// ---------------------------------------------------------------------------

#[derive(Debug, Clone, Copy, PartialEq, Eq, Structural)]
pub enum ApiProtocol {
    InfuserRest,
    DataGoKrRest,
    ExternalRest,
    Soap,
}

#[derive(Debug, Clone)]
pub struct ApiSpec {
    pub list_id: String,
    pub base_url: String,
    pub protocol: ApiProtocol,
    pub auth: AuthMethod,
    pub extractor: ResponseExtractor,
    pub operations: Vec<Operation>,
    pub fetched_at: String,
    /// Human-readable names of the operations that could not be collected for a partial
    /// spec; empty for a complete one. Must stay the last field (bundle encoding order).
    pub missing_operations: Vec<String>,
}

#[derive(Debug, Clone)]
pub enum AuthMethod {
    QueryParam { name: String },
    Header { name: String, prefix: String },
    Both { query: String, header_name: String, header_prefix: String, prefer: AuthPreference },
    NoAuth,
}

#[derive(Debug, Clone, Copy, PartialEq, Eq, Structural)]
pub enum AuthPreference {
    Query,
    Header,
}

#[derive(Debug, Clone)]
pub struct ResponseExtractor {
    pub data_path: Vec<String>,
    pub error_check: ErrorCheck,
    pub pagination: Option<PaginationStyle>,
    pub format: ResponseFormat,
}

#[derive(Debug, Clone)]
pub enum ErrorCheck {
    HttpStatus,
    FieldEquals { path: Vec<String>, success_value: String, message_path: Vec<String> },
}

#[derive(Debug, Clone)]
pub enum PaginationStyle {
    PagePerPage { page: String, per_page: String },
    NumOfRowsPageNo { rows: String, page_no: String },
    CursorBased { cursor_field: String },
}

#[derive(Debug, Clone, Copy, PartialEq, Eq, Structural)]
pub enum ResponseFormat {
    Json,
    Xml,
}

#[derive(Debug, Clone)]
pub struct Operation {
    pub path: String,
    pub method: HttpMethod,
    pub summary: String,
    pub content_type: ContentType,
    pub parameters: Vec<Parameter>,
    pub request_body: Option<RequestBody>,
    pub response_fields: Vec<ResponseField>,
}

#[derive(Debug, Clone, Copy, PartialEq, Eq, Structural)]
pub enum HttpMethod {
    Get,
    Post,
    Put,
    Delete,
}

#[derive(Debug, Clone, Copy, PartialEq, Eq, Structural)]
pub enum ContentType {
    Json,
    Xml,
    FormUrlEncoded,
    Unspecified,
}

#[derive(Debug, Clone)]
pub struct Parameter {
    pub name: String,
    pub description: String,
    pub location: ParamLocation,
    pub param_type: String,
    pub required: bool,
    pub default: Option<String>,
}

#[derive(Debug, Clone, Copy, PartialEq, Eq, Structural)]
pub enum ParamLocation {
    Query,
    Path,
    Header,
    Body,
}

#[derive(Debug, Clone)]
pub struct RequestBody {
    pub content_type: ContentType,
    pub fields: Vec<Parameter>,
}

#[derive(Debug, Clone)]
pub struct ResponseField {
    pub name: String,
    pub description: String,
    pub field_type: String,
}

// ---------------------------------------------------------------------------
// API response and search result types
// ---------------------------------------------------------------------------

#[derive(Debug)]
pub struct ApiResponse {
    pub success: bool,
    pub data: Option<Json>,
    pub error: Option<String>,
    pub message: Option<String>,
    pub action: Option<String>,
    pub raw_status: Option<u16>,
    pub metadata: Option<Json>,
}

#[derive(Debug)]
pub struct SearchResult {
    pub results: Vec<SearchEntry>,
    pub total: usize,
}

#[derive(Debug, Clone)]
pub struct SearchEntry {
    pub list_id: String,
    pub title: String,
    pub description: String,
    pub org: String,
    pub category: String,
    pub popularity: u32,
    pub spec_status: SpecStatus,
    pub endpoint_url: String,
}

// ---------------------------------------------------------------------------
// Models
// ---------------------------------------------------------------------------

pub struct CatalogEntryV {
    pub list_id: Seq<char>,
    pub title: Seq<char>,
    pub description: Seq<char>,
    pub keywords: Seq<Seq<char>>,
    pub org_name: Seq<char>,
    pub category: Seq<char>,
    pub request_count: u32,
    pub endpoint_url: Seq<char>,
    pub spec_status: SpecStatus,
}

impl View for CatalogEntry {
    type V = CatalogEntryV;

    open spec fn view(&self) -> CatalogEntryV {
        CatalogEntryV {
            list_id: self.list_id@,
            title: self.title@,
            description: self.description@,
            keywords: string_views(self.keywords@),
            org_name: self.org_name@,
            category: self.category@,
            request_count: self.request_count,
            endpoint_url: self.endpoint_url@,
            spec_status: self.spec_status,
        }
    }
}

pub struct SearchEntryV {
    pub list_id: Seq<char>,
    pub title: Seq<char>,
    pub description: Seq<char>,
    pub org: Seq<char>,
    pub category: Seq<char>,
    pub popularity: u32,
    pub spec_status: SpecStatus,
    pub endpoint_url: Seq<char>,
}

impl View for SearchEntry {
    type V = SearchEntryV;

    open spec fn view(&self) -> SearchEntryV {
        SearchEntryV {
            list_id: self.list_id@,
            title: self.title@,
            description: self.description@,
            org: self.org@,
            category: self.category@,
            popularity: self.popularity,
            spec_status: self.spec_status,
            endpoint_url: self.endpoint_url@,
        }
    }
}

pub struct ParameterV {
    pub name: Seq<char>,
    pub description: Seq<char>,
    pub location: ParamLocation,
    pub param_type: Seq<char>,
    pub required: bool,
    pub default: Option<Seq<char>>,
}

impl View for Parameter {
    type V = ParameterV;

    open spec fn view(&self) -> ParameterV {
        ParameterV {
            name: self.name@,
            description: self.description@,
            location: self.location,
            param_type: self.param_type@,
            required: self.required,
            default: match self.default {
                Some(d) => Some(d@),
                None => None,
            },
        }
    }
}

pub struct ResponseFieldV {
    pub name: Seq<char>,
    pub description: Seq<char>,
    pub field_type: Seq<char>,
}

impl View for ResponseField {
    type V = ResponseFieldV;

    open spec fn view(&self) -> ResponseFieldV {
        ResponseFieldV {
            name: self.name@,
            description: self.description@,
            field_type: self.field_type@,
        }
    }
}

pub struct RequestBodyV {
    pub content_type: ContentType,
    pub fields: Seq<ParameterV>,
}

impl View for RequestBody {
    type V = RequestBodyV;

    open spec fn view(&self) -> RequestBodyV {
        RequestBodyV {
            content_type: self.content_type,
            fields: self.fields@.map_values(|p: Parameter| p@),
        }
    }
}

pub struct OperationV {
    pub path: Seq<char>,
    pub method: HttpMethod,
    pub summary: Seq<char>,
    pub content_type: ContentType,
    pub parameters: Seq<ParameterV>,
    pub request_body: Option<RequestBodyV>,
    pub response_fields: Seq<ResponseFieldV>,
}

impl View for Operation {
    type V = OperationV;

    open spec fn view(&self) -> OperationV {
        OperationV {
            path: self.path@,
            method: self.method,
            summary: self.summary@,
            content_type: self.content_type,
            parameters: self.parameters@.map_values(|p: Parameter| p@),
            request_body: match self.request_body {
                Some(b) => Some(b@),
                None => None,
            },
            response_fields: self.response_fields@.map_values(|f: ResponseField| f@),
        }
    }
}

pub enum AuthMethodV {
    QueryParam { name: Seq<char> },
    Header { name: Seq<char>, prefix: Seq<char> },
    Both { query: Seq<char>, header_name: Seq<char>, header_prefix: Seq<char>, prefer: AuthPreference },
    NoAuth,
}

impl View for AuthMethod {
    type V = AuthMethodV;

    open spec fn view(&self) -> AuthMethodV {
        match self {
            AuthMethod::QueryParam { name } => AuthMethodV::QueryParam { name: name@ },
            AuthMethod::Header { name, prefix } => AuthMethodV::Header { name: name@, prefix: prefix@ },
            AuthMethod::Both { query, header_name, header_prefix, prefer } => AuthMethodV::Both {
                query: query@,
                header_name: header_name@,
                header_prefix: header_prefix@,
                prefer: *prefer,
            },
            AuthMethod::NoAuth => AuthMethodV::NoAuth,
        }
    }
}

pub enum ErrorCheckV {
    HttpStatus,
    FieldEquals { path: Seq<Seq<char>>, success_value: Seq<char>, message_path: Seq<Seq<char>> },
}

impl View for ErrorCheck {
    type V = ErrorCheckV;

    open spec fn view(&self) -> ErrorCheckV {
        match self {
            ErrorCheck::HttpStatus => ErrorCheckV::HttpStatus,
            ErrorCheck::FieldEquals { path, success_value, message_path } => ErrorCheckV::FieldEquals {
                path: string_views(path@),
                success_value: success_value@,
                message_path: string_views(message_path@),
            },
        }
    }
}

pub enum PaginationStyleV {
    PagePerPage { page: Seq<char>, per_page: Seq<char> },
    NumOfRowsPageNo { rows: Seq<char>, page_no: Seq<char> },
    CursorBased { cursor_field: Seq<char> },
}

impl View for PaginationStyle {
    type V = PaginationStyleV;

    open spec fn view(&self) -> PaginationStyleV {
        match self {
            PaginationStyle::PagePerPage { page, per_page } => PaginationStyleV::PagePerPage {
                page: page@,
                per_page: per_page@,
            },
            PaginationStyle::NumOfRowsPageNo { rows, page_no } => PaginationStyleV::NumOfRowsPageNo {
                rows: rows@,
                page_no: page_no@,
            },
            PaginationStyle::CursorBased { cursor_field } => PaginationStyleV::CursorBased {
                cursor_field: cursor_field@,
            },
        }
    }
}

pub struct ResponseExtractorV {
    pub data_path: Seq<Seq<char>>,
    pub error_check: ErrorCheckV,
    pub pagination: Option<PaginationStyleV>,
    pub format: ResponseFormat,
}

impl View for ResponseExtractor {
    type V = ResponseExtractorV;

    open spec fn view(&self) -> ResponseExtractorV {
        ResponseExtractorV {
            data_path: string_views(self.data_path@),
            error_check: self.error_check@,
            pagination: match self.pagination {
                Some(p) => Some(p@),
                None => None,
            },
            format: self.format,
        }
    }
}

pub struct ApiSpecV {
    pub list_id: Seq<char>,
    pub base_url: Seq<char>,
    pub protocol: ApiProtocol,
    pub auth: AuthMethodV,
    pub extractor: ResponseExtractorV,
    pub operations: Seq<OperationV>,
    pub fetched_at: Seq<char>,
    pub missing_operations: Seq<Seq<char>>,
}

impl View for ApiSpec {
    type V = ApiSpecV;

    open spec fn view(&self) -> ApiSpecV {
        ApiSpecV {
            list_id: self.list_id@,
            base_url: self.base_url@,
            protocol: self.protocol,
            auth: self.auth@,
            extractor: self.extractor@,
            operations: self.operations@.map_values(|o: Operation| o@),
            fetched_at: self.fetched_at@,
            missing_operations: string_views(self.missing_operations@),
        }
    }
}

// ---------------------------------------------------------------------------
// Laws of the classification
// ---------------------------------------------------------------------------

/// A link API is external, whatever else is known of it.
pub proof fn law_link_api_is_external(has_spec: bool, is_skeleton: bool, url: Seq<char>, is_partial: bool)
    ensures
        classify_spec(has_spec, is_skeleton, url, true, is_partial) == SpecStatus::External,
{
}

/// A WMS, WFS or WCS endpoint is unsupported whatever the ASCII case of its letters, when
/// the API is no link API and has neither a spec nor an empty Swagger. (`url`'s lowering is
/// its ASCII lowering, as `to_lowercase` gives for ASCII and Hangul text and `classify` reports.)
pub proof fn law_map_protocols_in_any_case(url: Seq<char>, is_partial: bool, p: Seq<char>, k: int)
    requires
        p == "wms"@ || p == "wfs"@ || p == "wcs"@,
        0 <= k && k + 3 <= url.len(),
        eq_ignore_ascii_case(url.subrange(k, k + 3), p),
        is_ascii_lowering(url, lowercase(url)),
    ensures
        classify_spec(false, false, url, false, is_partial) == SpecStatus::Unsupported,
{
    reveal_strlit("wms");
    reveal_strlit("wfs");
    reveal_strlit("wcs");
    let lower = lowercase(url);
    assert forall|j: int| 0 <= j < 3 implies #[trigger] lower.subrange(k, k + 3)[j] == p[j] by {
        assert(ascii_lower(url.subrange(k, k + 3)[j] as u32) == ascii_lower(p[j] as u32));
        assert(url.subrange(k, k + 3)[j] == url[k + j]);
        assert((lower[k + j] as u32) == ascii_lower(url[k + j] as u32));
        assert(ascii_lower(p[j] as u32) == p[j] as u32);
        lemma_char_code_injective(lower[k + j], p[j]);
    }
    assert(lower.subrange(k, k + 3) =~= p);
    assert(occurs_at(lower, p, k));
}

/// A classified API can be called exactly when it has a spec and is not a link API; a
/// partial spec is then a partial stub and a complete one is available.
pub proof fn law_callable_iff_spec(has_spec: bool, is_skeleton: bool, url: Seq<char>, is_link_api: bool, is_partial: bool)
    ensures
        classify_spec(has_spec, is_skeleton, url, is_link_api, is_partial).spec_callable() <==> (has_spec
            && !is_link_api),
        has_spec && !is_link_api ==> (classify_spec(has_spec, is_skeleton, url, is_link_api, is_partial)
            == if is_partial {
            SpecStatus::PartialStub
        } else {
            SpecStatus::Available
        }),
{
}

} // verus!
