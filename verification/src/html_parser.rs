//! The portal's gateway API pages: the `openapi.do` page (the detail pk and the list of
//! operations) and the operation detail fragments (URLs, parameters, response fields),
//! and the spec built from them.

use vstd::prelude::*;
use crate::catalog::{join, join_strings};
use crate::html::{
    child_texts, element_text, next_sibling_tag, node_attr, parse_document, parse_fragment, parsed_html, select,
    select_under, HtmlDoc, HtmlNodeV, Sel, SelV,
};
use crate::captures::{first_group, first_match_group};
use crate::text::{
    chars_of, contains, eq_ignore_ascii_case, ascii_case_eq, split_words, starts_with, str_contains,
    str_starts_with, string_from_chars, string_views, trim, trim_string, words,
};
use crate::types::{
    ApiProtocol, ApiSpec, ApiSpecV, AuthMethod, AuthMethodV, ContentType, ErrorCheck, HttpMethod,
    Operation, OperationV, ParamLocation, Parameter, ParameterV, ResponseExtractor, ResponseField,
    ResponseFieldV, ResponseFormat,
};

verus! {

// ---------------------------------------------------------------------------
// Types
// ---------------------------------------------------------------------------

/// What an `openapi.do` page tells about a gateway API.
#[derive(Debug, Clone)]
pub struct PageInfo {
    pub public_data_detail_pk: String,
    pub public_data_pk: Option<String>,
    pub ty_detail_code: Option<String>,
    pub operations: Vec<OperationOption>,
    /// External portal URL from `a.link-api-btn[href]` (link APIs only).
    pub external_url: Option<String>,
}

/// One operation of the page's operation `<select>`.
#[derive(Debug, Clone)]
pub struct OperationOption {
    pub seq_no: String,
    pub name: String,
}

/// What an operation detail fragment tells.
#[derive(Debug, Clone)]
pub struct ParsedOperation {
    pub request_url: String,
    pub service_url: String,
    pub summary: String,
    pub parameters: Vec<Parameter>,
    pub response_fields: Vec<ResponseField>,
}

/// Why a page could not be read.
#[derive(Debug, Clone)]
pub enum HtmlParseError {
    /// The page holds no `publicDataDetailPk`.
    PkNotFound,
}

// ---------------------------------------------------------------------------
// Specification of the queries
// ---------------------------------------------------------------------------

/// The non-empty `value` of the first element that `sel` selects.
pub open spec fn first_value(ns: Seq<HtmlNodeV>, sel: SelV) -> Option<Seq<char>> {
    let m = select(ns, sel);
    if m.len() > 0 {
        match node_attr(ns[m[0]], "value"@) {
            Some(v) => if v.len() > 0 {
                Some(v)
            } else {
                None
            },
            None => None,
        }
    } else {
        None
    }
}

/// How the detail pk was found.
#[derive(Debug, Clone, Copy, PartialEq, Eq, Structural)]
pub enum PkSource {
    /// `input#publicDataDetailPk`
    IdAttr,
    /// `input[name="publicDataDetailPk"]`
    NameAttr,
    /// The text scan of the raw page.
    TextScan,
}

/// The text scan for the pk: `name` or `id`, `=`, the optionally quoted
/// `publicDataDetailPk`, whitespace, `value`, `=` and the quoted value (group 1),
/// whitespace allowed around `=`; `.` also matches line breaks.
pub const PK_PATTERN: &'static str = r#"(?s)(?:name|id)\s*=\s*["']?publicDataDetailPk["']?\s+value\s*=\s*["']([^"']+)["']"#;

/// `var tyDetailCode = "<code>"` (single or double quotes; the code is group 1).
pub const TY_DETAIL_PATTERN: &'static str = r#"var\s+tyDetailCode\s*=\s*["']([^"']+)["']"#;

pub open spec fn pk_id_sel() -> SelV {
    SelV::TagId("input"@, "publicDataDetailPk"@)
}

pub open spec fn pk_name_sel() -> SelV {
    SelV::TagAttrEq("input"@, "name"@, "publicDataDetailPk"@)
}

/// The detail pk and how it was found: the non-empty value of `input#publicDataDetailPk`,
/// else of `input[name="publicDataDetailPk"]`, else the text scan of the raw page.
pub open spec fn pk_of(ns: Seq<HtmlNodeV>, raw: Seq<char>) -> Option<(Seq<char>, PkSource)> {
    match first_value(ns, pk_id_sel()) {
        Some(v) => Some((v, PkSource::IdAttr)),
        None => match first_value(ns, pk_name_sel()) {
            Some(v) => Some((v, PkSource::NameAttr)),
            None => match first_group(PK_PATTERN@, raw, 1) {
                Some(v) => Some((v, PkSource::TextScan)),
                None => None,
            },
        },
    }
}

/// The options of the operation select with a non-empty value: `(value, trimmed text)`.
pub open spec fn options_from(ns: Seq<HtmlNodeV>, m: Seq<int>) -> Seq<(Seq<char>, Seq<char>)>
    decreases m.len(),
{
    if m.len() == 0 {
        Seq::empty()
    } else {
        let r = options_from(ns, m.drop_last());
        match node_attr(ns[m.last()], "value"@) {
            Some(v) => if v.len() > 0 {
                r.push((v, trim(element_text(ns, m.last()))))
            } else {
                r
            },
            None => r,
        }
    }
}

pub open spec fn option_sel() -> SelV {
    SelV::TagUnderId("option"@, "open_api_detail_select"@)
}

pub open spec fn operation_options(ns: Seq<HtmlNodeV>) -> Seq<(Seq<char>, Seq<char>)> {
    options_from(ns, select(ns, option_sel()))
}

/// The external portal URL: the trimmed `href` of the first `a.link-api-btn`, when it
/// starts with `http`.
pub open spec fn external_url_of(ns: Seq<HtmlNodeV>) -> Option<Seq<char>> {
    let m = select(ns, SelV::TagClass("a"@, "link-api-btn"@));
    if m.len() > 0 {
        match node_attr(ns[m[0]], "href"@) {
            Some(h) => if starts_with(trim(h), "http"@) {
                Some(trim(h))
            } else {
                None
            },
            None => None,
        }
    } else {
        None
    }
}

/// The first word that starts with `http`.
pub open spec fn first_http_word(ws: Seq<Seq<char>>) -> Option<Seq<char>>
    decreases ws.len(),
{
    if ws.len() == 0 {
        None
    } else if starts_with(ws[0], "http"@) {
        Some(ws[0])
    } else {
        first_http_word(ws.drop_first())
    }
}

/// The URL next to a `<strong>` label: when the strong's text contains `label`, the first
/// `http` word of its parent's text children (each trimmed, joined by `sep`).
pub open spec fn labeled_candidate(ns: Seq<HtmlNodeV>, s: int, label: Seq<char>, sep: Seq<char>) -> Option<Seq<char>> {
    if contains(element_text(ns, s), label) {
        match crate::html::parent_of(ns, s) {
            Some(p) => first_http_word(words(join(child_texts(ns, p).map_values(|t: Seq<char>| trim(t)), sep))),
            None => None,
        }
    } else {
        None
    }
}

pub open spec fn labeled_from(ns: Seq<HtmlNodeV>, m: Seq<int>, label: Seq<char>, sep: Seq<char>) -> Option<Seq<char>>
    decreases m.len(),
{
    if m.len() == 0 {
        None
    } else {
        match labeled_candidate(ns, m[0], label, sep) {
            Some(u) => Some(u),
            None => labeled_from(ns, m.drop_first(), label, sep),
        }
    }
}

/// The URL labelled `label`, from the first `<strong>` (in arena order) that yields one.
pub open spec fn labeled_url(ns: Seq<HtmlNodeV>, label: Seq<char>, sep: Seq<char>) -> Option<Seq<char>> {
    labeled_from(ns, select(ns, SelV::Tag("strong"@)), label, sep)
}

/// The operation summary: the trimmed text of the first `h4.tit`, or nothing.
pub open spec fn summary_of(ns: Seq<HtmlNodeV>) -> Seq<char> {
    let m = select(ns, SelV::TagClass("h4"@, "tit"@));
    if m.len() > 0 {
        trim(element_text(ns, m[0]))
    } else {
        Seq::empty()
    }
}

/// The trimmed texts of the cells of row `r`.
pub open spec fn cells(ns: Seq<HtmlNodeV>, r: int) -> Seq<Seq<char>> {
    select_under(ns, r, SelV::Tag("td"@)).map_values(|j: int| trim(element_text(ns, j)))
}

/// A column name that is a header, not a field: empty, `항목명(영문)` or `항목명`.
pub open spec fn is_header_name(name: Seq<char>) -> bool {
    name.len() == 0 || name == "항목명(영문)"@ || name == "항목명"@
}

pub open spec fn query_param(name: Seq<char>, description: Seq<char>, required: bool) -> ParameterV {
    ParameterV {
        name,
        description,
        location: ParamLocation::Query,
        param_type: "string"@,
        required,
        default: None,
    }
}

/// Parameters from rows carrying `data-paramtr-*` attributes: the name, whether the
/// division starts with `필` (required), and the description.
pub open spec fn attr_params(ns: Seq<HtmlNodeV>, m: Seq<int>) -> Seq<ParameterV>
    decreases m.len(),
{
    if m.len() == 0 {
        Seq::empty()
    } else {
        let r = attr_params(ns, m.drop_last());
        let row = ns[m.last()];
        let name = match node_attr(row, "data-paramtr-nm"@) {
            Some(n) => n,
            None => Seq::empty(),
        };
        if name.len() == 0 {
            r
        } else {
            r.push(
                query_param(
                    name,
                    match node_attr(row, "data-paramtr-dc"@) {
                        Some(d) => d,
                        None => Seq::empty(),
                    },
                    node_attr(row, "data-paramtr-division"@) matches Some(d) && starts_with(d, "필"@),
                ),
            )
        }
    }
}

/// Parameters from table rows of six or more cells: name in the second cell, required
/// when the fifth starts with `필`, description in the sixth; header rows left out.
pub open spec fn cell_params(ns: Seq<HtmlNodeV>, m: Seq<int>) -> Seq<ParameterV>
    decreases m.len(),
{
    if m.len() == 0 {
        Seq::empty()
    } else {
        let r = cell_params(ns, m.drop_last());
        let c = cells(ns, m.last());
        if c.len() >= 6 && !is_header_name(c[1]) {
            r.push(query_param(c[1], c[5], starts_with(c[4], "필"@)))
        } else {
            r
        }
    }
}

pub open spec fn param_rows_sel() -> SelV {
    SelV::TagAttr("tr"@, "data-paramtr-nm"@)
}

/// The request parameters: from the `tr[data-paramtr-nm]` rows when there are any, else
/// from the cells of all rows.
pub open spec fn request_params(ns: Seq<HtmlNodeV>) -> Seq<ParameterV> {
    let rows = select(ns, param_rows_sel());
    if rows.len() > 0 {
        attr_params(ns, rows)
    } else {
        cell_params(ns, select(ns, SelV::Tag("tr"@)))
    }
}

pub open spec fn string_field(name: Seq<char>, description: Seq<char>) -> ResponseFieldV {
    ResponseFieldV { name, description, field_type: "string"@ }
}

/// Response fields from a table's rows of three or more cells: name in the second cell,
/// description in the last; header rows left out.
pub open spec fn table_fields(ns: Seq<HtmlNodeV>, m: Seq<int>) -> Seq<ResponseFieldV>
    decreases m.len(),
{
    if m.len() == 0 {
        Seq::empty()
    } else {
        let r = table_fields(ns, m.drop_last());
        let c = cells(ns, m.last());
        if c.len() >= 3 && !is_header_name(c[1]) {
            r.push(string_field(c[1], c.last()))
        } else {
            r
        }
    }
}

/// The fields of the table that follows the first `h4` (in arena order) mentioning
/// `출력결과` and followed by a sibling table.
pub open spec fn h4_fields_from(ns: Seq<HtmlNodeV>, m: Seq<int>) -> Option<Seq<ResponseFieldV>>
    decreases m.len(),
{
    if m.len() == 0 {
        None
    } else if contains(element_text(ns, m[0]), "출력결과"@) && next_sibling_tag(ns, m[0], "table"@) is Some {
        let t = next_sibling_tag(ns, m[0], "table"@)->Some_0;
        Some(table_fields(ns, select_under(ns, t, SelV::Tag("tr"@))))
    } else {
        h4_fields_from(ns, m.drop_first())
    }
}

/// Response fields from the rows after a row mentioning `출력결과` or `응답메시지`: rows of
/// three or more cells, name in the second, description in the sixth (or the last when
/// there are fewer than six); header rows left out.
pub open spec fn scan_fields(ns: Seq<HtmlNodeV>, m: Seq<int>) -> (bool, Seq<ResponseFieldV>)
    decreases m.len(),
{
    if m.len() == 0 {
        (false, Seq::empty())
    } else {
        let (in_section, r) = scan_fields(ns, m.drop_last());
        let row_text = element_text(ns, m.last());
        let c = cells(ns, m.last());
        if contains(row_text, "출력결과"@) || contains(row_text, "응답메시지"@) {
            (true, r)
        } else if in_section && c.len() >= 3 && !is_header_name(c[1]) {
            (in_section, r.push(string_field(c[1], if c.len() >= 6 { c[5] } else { c.last() })))
        } else {
            (in_section, r)
        }
    }
}

pub open spec fn scanned_fields(ns: Seq<HtmlNodeV>) -> Seq<ResponseFieldV> {
    scan_fields(ns, select(ns, SelV::Tag("tr"@))).1
}

/// The response fields: those of the `출력결과` table when it has any, else the row scan.
pub open spec fn response_fields_of(ns: Seq<HtmlNodeV>) -> Seq<ResponseFieldV> {
    match h4_fields_from(ns, select(ns, SelV::Tag("h4"@))) {
        Some(f) => if f.len() > 0 {
            f
        } else {
            scanned_fields(ns)
        },
        None => scanned_fields(ns),
    }
}

pub open spec fn params_view(v: Seq<Parameter>) -> Seq<ParameterV> {
    v.map_values(|p: Parameter| p@)
}

pub open spec fn fields_view(v: Seq<ResponseField>) -> Seq<ResponseFieldV> {
    v.map_values(|f: ResponseField| f@)
}

pub open spec fn opt_view(o: Option<String>) -> Option<Seq<char>> {
    match o {
        Some(s) => Some(s@),
        None => None,
    }
}

// ---------------------------------------------------------------------------
// Implementation of the queries
// ---------------------------------------------------------------------------

fn sel_tag(t: &str) -> (r: Sel)
    ensures
        r@ == SelV::Tag(t@),
{
    Sel::Tag(t.to_owned())
}

/// The non-empty `value` of the first element that `sel` selects.
pub fn first_value_exec(doc: &HtmlDoc, sel: &Sel) -> (r: Option<String>)
    ensures
        match r {
            Some(v) => first_value(doc@, sel@) == Some(v@),
            None => first_value(doc@, sel@) is None,
        },
{
    let m = doc.select(sel);
    if m.len() > 0 {
        assert(select(doc@, sel@)[0] == m@[0] as int);
        match doc.attr(m[0], "value") {
            Some(v) => {
                if !v.as_str().is_empty() {
                    Some(v)
                } else {
                    None
                }
            },
            None => None,
        }
    } else {
        None
    }
}

/// The detail pk of a page and how it was found.
pub fn find_pk(doc: &HtmlDoc, raw: &str) -> (r: Option<(String, PkSource)>)
    ensures
        match r {
            Some((v, s)) => pk_of(doc@, raw@) == Some((v@, s)),
            None => pk_of(doc@, raw@) is None,
        },
{
    let id_sel = Sel::TagId("input".to_owned(), "publicDataDetailPk".to_owned());
    if let Some(v) = first_value_exec(doc, &id_sel) {
        return Some((v, PkSource::IdAttr));
    }
    let name_sel = Sel::TagAttrEq("input".to_owned(), "name".to_owned(), "publicDataDetailPk".to_owned());
    if let Some(v) = first_value_exec(doc, &name_sel) {
        return Some((v, PkSource::NameAttr));
    }
    match first_match_group(PK_PATTERN, raw, 1) {
        Some(v) => Some((v, PkSource::TextScan)),
        None => None,
    }
}

/// The pk of the gateway page: from the hidden input (by id, then by name), else the text
/// scan of the raw page.
pub fn extract_public_data_detail_pk(doc: &HtmlDoc, raw_html: &str) -> (r: Option<String>)
    ensures
        match r {
            Some(v) => pk_of(doc@, raw_html@) matches Some((p, _)) && p == v@,
            None => pk_of(doc@, raw_html@) is None,
        },
{
    match find_pk(doc, raw_html) {
        Some((v, _)) => Some(v),
        None => None,
    }
}

/// The value of the page's `tyDetailCode` script variable.
pub fn extract_ty_detail_code(raw_html: &str) -> (r: Option<String>)
    ensures
        match r {
            Some(v) => first_group(TY_DETAIL_PATTERN@, raw_html@, 1) == Some(v@),
            None => first_group(TY_DETAIL_PATTERN@, raw_html@, 1) is None,
        },
{
    first_match_group(TY_DETAIL_PATTERN, raw_html, 1)
}

/// A character that may start a CSS identifier: an ASCII letter, `_` or a non-ASCII
/// character.
pub open spec fn is_ident_start_char(c: char) -> bool {
    ('a' <= c && c <= 'z') || ('A' <= c && c <= 'Z') || c == '_' || (c as u32) >= 128
}

/// A character of a CSS name: an identifier start, an ASCII digit or `-`.
pub open spec fn is_name_char(c: char) -> bool {
    is_ident_start_char(c) || ('0' <= c && c <= '9') || c == '-'
}

/// A CSS identifier without escapes: name characters only, starting with an identifier
/// start, or with `-` followed by an identifier start or another `-`. Written after `#`, such
/// a text is an ID selector of exactly that id.
pub open spec fn is_plain_ident(s: Seq<char>) -> bool {
    &&& s.len() > 0
    &&& forall|i: int| 0 <= i < s.len() ==> is_name_char(#[trigger] s[i])
    &&& is_ident_start_char(s[0]) || (s[0] == '-' && s.len() > 1 && (is_ident_start_char(s[1]) || s[1] == '-'))
}

fn is_ident_start_exec(c: char) -> (r: bool)
    ensures
        r == is_ident_start_char(c),
{
    (c >= 'a' && c <= 'z') || (c >= 'A' && c <= 'Z') || c == '_' || (c as u32) >= 128
}

fn is_plain_ident_exec(s: &str) -> (r: bool)
    ensures
        r == is_plain_ident(s@),
{
    let c = chars_of(s);
    if c.len() == 0 {
        return false;
    }
    let mut i: usize = 0;
    while i < c.len()
        invariant
            i <= c@.len(),
            c@ == s@,
            forall|k: int| 0 <= k < i ==> is_name_char(#[trigger] c@[k]),
        decreases c@.len() - i,
    {
        let x = c[i];
        if !(is_ident_start_exec(x) || (x >= '0' && x <= '9') || x == '-') {
            assert(!is_name_char(c@[i as int]));
            return false;
        }
        i = i + 1;
    }
    is_ident_start_exec(c[0]) || (c[0] == '-' && c.len() > 1 && (is_ident_start_exec(c[1]) || c[1] == '-'))
}

/// The non-empty value of the hidden input `input#<id>`. The selector stands only when `id`
/// is a plain CSS identifier; otherwise it does not parse as an ID selector of `id`, and the
/// answer is `None`.
pub fn extract_hidden_input_value(doc: &HtmlDoc, id: &str) -> (r: Option<String>)
    ensures
        !is_plain_ident(id@) ==> r is None,
        is_plain_ident(id@) ==> match r {
            Some(v) => first_value(doc@, SelV::TagId("input"@, id@)) == Some(v@),
            None => first_value(doc@, SelV::TagId("input"@, id@)) is None,
        },
{
    if !is_plain_ident_exec(id) {
        return None;
    }
    let sel = Sel::TagId("input".to_owned(), id.to_owned());
    first_value_exec(doc, &sel)
}

/// The options of the operation select: `(value, trimmed text)` of each option with a
/// non-empty value, in arena order.
pub fn option_pairs(doc: &HtmlDoc) -> (r: Vec<(String, String)>)
    ensures
        r@.map_values(|p: (String, String)| (p.0@, p.1@)) == operation_options(doc@),
{
    let sel = Sel::TagUnderId("option".to_owned(), "open_api_detail_select".to_owned());
    let m = doc.select(&sel);
    let ghost mv = m@.map_values(|k: usize| k as int);
    let mut out: Vec<(String, String)> = Vec::new();
    let mut i: usize = 0;
    assert(mv.take(0) =~= Seq::<int>::empty());
    assert(out@.map_values(|p: (String, String)| (p.0@, p.1@)) =~= options_from(doc@, mv.take(0)));
    while i < m.len()
        invariant
            i <= m@.len(),
            mv == m@.map_values(|k: usize| k as int),
            forall|k: int| 0 <= k < m@.len() ==> #[trigger] m@[k] < doc@.len(),
            out@.map_values(|p: (String, String)| (p.0@, p.1@)) == options_from(doc@, mv.take(i as int)),
        decreases m@.len() - i,
    {
        assert(mv.take(i + 1).drop_last() =~= mv.take(i as int));
        assert(mv.take(i + 1).last() == m@[i as int] as int);
        let j = m[i];
        match doc.attr(j, "value") {
            Some(v) => {
                if !v.as_str().is_empty() {
                    let name = trim_string(doc.element_text(j).as_str());
                    let ghost before = out@.map_values(|p: (String, String)| (p.0@, p.1@));
                    let ghost pair = (v@, name@);
                    out.push((v, name));
                    assert(out@.map_values(|p: (String, String)| (p.0@, p.1@)) =~= before.push(pair));
                }
            },
            None => {},
        }
        i = i + 1;
    }
    assert(mv.take(m@.len() as int) =~= mv);
    out
}

/// The operations listed in the page's operation select.
pub fn extract_operation_options(doc: &HtmlDoc) -> (r: Vec<OperationOption>)
    ensures
        r@.map_values(|o: OperationOption| (o.seq_no@, o.name@)) == operation_options(doc@),
{
    let pairs = option_pairs(doc);
    let ghost pv = pairs@.map_values(|p: (String, String)| (p.0@, p.1@));
    let mut out: Vec<OperationOption> = Vec::new();
    let mut k: usize = 0;
    while k < pairs.len()
        invariant
            k <= pairs@.len(),
            pv == pairs@.map_values(|p: (String, String)| (p.0@, p.1@)),
            out@.map_values(|o: OperationOption| (o.seq_no@, o.name@)) == pv.take(k as int),
        decreases pairs@.len() - k,
    {
        let o = OperationOption { seq_no: pairs[k].0.clone(), name: pairs[k].1.clone() };
        let ghost before = out@.map_values(|o: OperationOption| (o.seq_no@, o.name@));
        out.push(o);
        proof {
            assert(out@.map_values(|o: OperationOption| (o.seq_no@, o.name@)) =~= before.push(pv[k as int]));
            assert(pv.take(k + 1) =~= pv.take(k as int).push(pv[k as int]));
        }
        k = k + 1;
    }
    assert(pv.take(pairs@.len() as int) =~= pv);
    out
}

/// The external portal URL of a link API.
pub fn extract_external_url(doc: &HtmlDoc) -> (r: Option<String>)
    ensures
        opt_view(r) == external_url_of(doc@),
{
    let sel = Sel::TagClass("a".to_owned(), "link-api-btn".to_owned());
    let m = doc.select(&sel);
    if m.len() == 0 {
        return None;
    }
    assert(select(doc@, sel@)[0] == m@[0] as int);
    let href = match doc.attr(m[0], "href") {
        Some(h) => h,
        None => {
            return None;
        },
    };
    let t = trim_string(href.as_str());
    if str_starts_with(t.as_str(), "http") {
        Some(t)
    } else {
        None
    }
}

fn first_http_word_exec(ws: &Vec<String>) -> (r: Option<String>)
    ensures
        opt_view(r) == first_http_word(string_views(ws@)),
{
    let ghost wv = string_views(ws@);
    let mut i: usize = 0;
    assert(wv.skip(0) =~= wv);
    while i < ws.len()
        invariant
            i <= ws@.len(),
            wv == string_views(ws@),
            first_http_word(wv) == first_http_word(wv.skip(i as int)),
        decreases ws@.len() - i,
    {
        assert(wv.skip(i as int)[0] == ws@[i as int]@);
        if str_starts_with(ws[i].as_str(), "http") {
            return Some(ws[i].clone());
        }
        assert(wv.skip(i as int).drop_first() =~= wv.skip(i + 1));
        i = i + 1;
    }
    None
}

fn labeled_candidate_exec(doc: &HtmlDoc, s: usize, label: &str, sep: &str) -> (r: Option<String>)
    requires
        s < doc@.len(),
    ensures
        opt_view(r) == labeled_candidate(doc@, s as int, label@, sep@),
{
    let text = doc.element_text(s);
    if !str_contains(text.as_str(), label) {
        return None;
    }
    let p = match doc.parent(s) {
        Some(p) => p,
        None => {
            return None;
        },
    };
    let texts = doc.child_texts(p);
    let mut trimmed: Vec<String> = Vec::new();
    let mut i: usize = 0;
    while i < texts.len()
        invariant
            i <= texts@.len(),
            string_views(trimmed@) == string_views(texts@).take(i as int).map_values(|t: Seq<char>| trim(t)),
        decreases texts@.len() - i,
    {
        let ghost before = string_views(trimmed@);
        let t = trim_string(texts[i].as_str());
        trimmed.push(t);
        assert(string_views(trimmed@) =~= before.push(trim(texts@[i as int]@)));
        assert(string_views(texts@).take(i + 1).map_values(|t: Seq<char>| trim(t)) =~= string_views(texts@).take(
            i as int,
        ).map_values(|t: Seq<char>| trim(t)).push(trim(texts@[i as int]@)));
        i = i + 1;
    }
    assert(string_views(texts@).take(texts@.len() as int) =~= string_views(texts@));
    let joined = join_strings(&trimmed, sep);
    let ws = split_words(joined.as_slice());
    first_http_word_exec(&ws)
}

/// The URL labelled `label` (see `labeled_url`), the label's parent texts joined by `sep`.
pub fn labeled_url_exec(doc: &HtmlDoc, label: &str, sep: &str) -> (r: Option<String>)
    ensures
        opt_view(r) == labeled_url(doc@, label@, sep@),
{
    let sel = sel_tag("strong");
    let m = doc.select(&sel);
    let ghost mv = m@.map_values(|k: usize| k as int);
    let mut i: usize = 0;
    assert(mv.skip(0) =~= mv);
    while i < m.len()
        invariant
            i <= m@.len(),
            mv == m@.map_values(|k: usize| k as int),
            forall|k: int| 0 <= k < m@.len() ==> #[trigger] m@[k] < doc@.len(),
            labeled_url(doc@, label@, sep@) == labeled_from(doc@, mv.skip(i as int), label@, sep@),
        decreases m@.len() - i,
    {
        assert(mv.skip(i as int)[0] == m@[i as int] as int);
        if let Some(u) = labeled_candidate_exec(doc, m[i], label, sep) {
            return Some(u);
        }
        assert(mv.skip(i as int).drop_first() =~= mv.skip(i + 1));
        i = i + 1;
    }
    None
}

/// The URL next to a `<strong>` label; the label's parent texts are joined directly.
pub fn extract_labeled_url(doc: &HtmlDoc, label: &str) -> (r: Option<String>)
    ensures
        opt_view(r) == labeled_url(doc@, label@, Seq::empty()),
{
    proof {
        reveal_strlit("");
        assert(""@ =~= Seq::<char>::empty());
    }
    labeled_url_exec(doc, label, "")
}

/// The operation summary.
pub fn extract_summary(doc: &HtmlDoc) -> (r: String)
    ensures
        r@ == summary_of(doc@),
{
    let sel = Sel::TagClass("h4".to_owned(), "tit".to_owned());
    let m = doc.select(&sel);
    if m.len() > 0 {
        assert(select(doc@, sel@)[0] == m@[0] as int);
        trim_string(doc.element_text(m[0]).as_str())
    } else {
        String::new()
    }
}

/// The trimmed texts of the cells of row `r`.
pub fn row_cells(doc: &HtmlDoc, r: usize) -> (c: Vec<String>)
    requires
        r < doc@.len(),
    ensures
        string_views(c@) == cells(doc@, r as int),
{
    let td = sel_tag("td");
    let m = doc.select_under(r, &td);
    let ghost mv = m@.map_values(|k: usize| k as int);
    let mut out: Vec<String> = Vec::new();
    let mut i: usize = 0;
    while i < m.len()
        invariant
            i <= m@.len(),
            mv == m@.map_values(|k: usize| k as int),
            mv == select_under(doc@, r as int, SelV::Tag("td"@)),
            forall|k: int| 0 <= k < m@.len() ==> #[trigger] m@[k] < doc@.len(),
            string_views(out@) == mv.take(i as int).map_values(|j: int| trim(element_text(doc@, j))),
        decreases m@.len() - i,
    {
        let ghost before = string_views(out@);
        let t = trim_string(doc.element_text(m[i]).as_str());
        out.push(t);
        assert(string_views(out@) =~= before.push(trim(element_text(doc@, m@[i as int] as int))));
        assert(mv.take(i + 1).map_values(|j: int| trim(element_text(doc@, j))) =~= mv.take(i as int).map_values(
            |j: int| trim(element_text(doc@, j)),
        ).push(trim(element_text(doc@, mv[i as int]))));
        i = i + 1;
    }
    assert(mv.take(m@.len() as int) =~= mv);
    out
}

fn is_header_name_exec(name: &String) -> (r: bool)
    ensures
        r == is_header_name(name@),
{
    name.as_str().is_empty() || *name == "항목명(영문)".to_owned() || *name == "항목명".to_owned()
}

fn query_param_exec(name: String, description: String, required: bool) -> (r: Parameter)
    ensures
        r@ == query_param(name@, description@, required),
{
    Parameter {
        name,
        description,
        location: ParamLocation::Query,
        param_type: "string".to_owned(),
        required,
        default: None,
    }
}

fn attr_or_empty(doc: &HtmlDoc, i: usize, key: &str) -> (r: String)
    requires
        i < doc@.len(),
    ensures
        r@ == match node_attr(doc@[i as int], key@) {
            Some(v) => v,
            None => Seq::<char>::empty(),
        },
{
    match doc.attr(i, key) {
        Some(v) => v,
        None => String::new(),
    }
}

fn attr_params_exec(doc: &HtmlDoc, m: &Vec<usize>) -> (r: Vec<Parameter>)
    requires
        forall|k: int| 0 <= k < m@.len() ==> #[trigger] m@[k] < doc@.len(),
    ensures
        params_view(r@) == attr_params(doc@, m@.map_values(|k: usize| k as int)),
{
    let ghost mv = m@.map_values(|k: usize| k as int);
    let mut out: Vec<Parameter> = Vec::new();
    let mut i: usize = 0;
    assert(mv.take(0) =~= Seq::<int>::empty());
    assert(params_view(out@) =~= Seq::<ParameterV>::empty());
    while i < m.len()
        invariant
            i <= m@.len(),
            mv == m@.map_values(|k: usize| k as int),
            forall|k: int| 0 <= k < m@.len() ==> #[trigger] m@[k] < doc@.len(),
            params_view(out@) == attr_params(doc@, mv.take(i as int)),
        decreases m@.len() - i,
    {
        assert(mv.take(i + 1).drop_last() =~= mv.take(i as int));
        assert(mv.take(i + 1).last() == m@[i as int] as int);
        let row = m[i];
        let name = attr_or_empty(doc, row, "data-paramtr-nm");
        if !name.as_str().is_empty() {
            let required = match doc.attr(row, "data-paramtr-division") {
                Some(d) => str_starts_with(d.as_str(), "필"),
                None => false,
            };
            let description = attr_or_empty(doc, row, "data-paramtr-dc");
            let p = query_param_exec(name, description, required);
            let ghost before = params_view(out@);
            out.push(p);
            assert(params_view(out@) =~= before.push(p@));
        }
        i = i + 1;
    }
    assert(mv.take(m@.len() as int) =~= mv);
    out
}

fn cell_params_exec(doc: &HtmlDoc, m: &Vec<usize>) -> (r: Vec<Parameter>)
    requires
        forall|k: int| 0 <= k < m@.len() ==> #[trigger] m@[k] < doc@.len(),
    ensures
        params_view(r@) == cell_params(doc@, m@.map_values(|k: usize| k as int)),
{
    let ghost mv = m@.map_values(|k: usize| k as int);
    let mut out: Vec<Parameter> = Vec::new();
    let mut i: usize = 0;
    assert(mv.take(0) =~= Seq::<int>::empty());
    assert(params_view(out@) =~= Seq::<ParameterV>::empty());
    while i < m.len()
        invariant
            i <= m@.len(),
            mv == m@.map_values(|k: usize| k as int),
            forall|k: int| 0 <= k < m@.len() ==> #[trigger] m@[k] < doc@.len(),
            params_view(out@) == cell_params(doc@, mv.take(i as int)),
        decreases m@.len() - i,
    {
        assert(mv.take(i + 1).drop_last() =~= mv.take(i as int));
        assert(mv.take(i + 1).last() == m@[i as int] as int);
        let c = row_cells(doc, m[i]);
        if c.len() >= 6 && !is_header_name_exec(&c[1]) {
            let required = str_starts_with(c[4].as_str(), "필");
            let p = query_param_exec(c[1].clone(), c[5].clone(), required);
            let ghost before = params_view(out@);
            out.push(p);
            assert(params_view(out@) =~= before.push(p@));
        }
        i = i + 1;
    }
    assert(mv.take(m@.len() as int) =~= mv);
    out
}

/// The parameters from the cells of all rows.
pub fn extract_request_params_fallback(doc: &HtmlDoc) -> (r: Vec<Parameter>)
    ensures
        params_view(r@) == cell_params(doc@, select(doc@, SelV::Tag("tr"@))),
{
    let tr = sel_tag("tr");
    let rows = doc.select(&tr);
    cell_params_exec(doc, &rows)
}

/// The request parameters of an operation detail.
pub fn extract_request_params(doc: &HtmlDoc) -> (r: Vec<Parameter>)
    ensures
        params_view(r@) == request_params(doc@),
{
    let sel = Sel::TagAttr("tr".to_owned(), "data-paramtr-nm".to_owned());
    let rows = doc.select(&sel);
    if rows.len() == 0 {
        return extract_request_params_fallback(doc);
    }
    attr_params_exec(doc, &rows)
}

fn string_field_exec(name: String, description: String) -> (r: ResponseField)
    ensures
        r@ == string_field(name@, description@),
{
    ResponseField { name, description, field_type: "string".to_owned() }
}

/// The response fields of a table's rows.
pub fn parse_table_rows_as_response_fields(doc: &HtmlDoc, table: usize) -> (r: Vec<ResponseField>)
    requires
        table < doc@.len(),
    ensures
        fields_view(r@) == table_fields(doc@, select_under(doc@, table as int, SelV::Tag("tr"@))),
{
    let tr = sel_tag("tr");
    let m = doc.select_under(table, &tr);
    let ghost mv = m@.map_values(|k: usize| k as int);
    let mut out: Vec<ResponseField> = Vec::new();
    let mut i: usize = 0;
    assert(mv.take(0) =~= Seq::<int>::empty());
    assert(fields_view(out@) =~= Seq::<ResponseFieldV>::empty());
    while i < m.len()
        invariant
            i <= m@.len(),
            mv == m@.map_values(|k: usize| k as int),
            forall|k: int| 0 <= k < m@.len() ==> #[trigger] m@[k] < doc@.len(),
            fields_view(out@) == table_fields(doc@, mv.take(i as int)),
        decreases m@.len() - i,
    {
        assert(mv.take(i + 1).drop_last() =~= mv.take(i as int));
        assert(mv.take(i + 1).last() == m@[i as int] as int);
        let c = row_cells(doc, m[i]);
        if c.len() >= 3 && !is_header_name_exec(&c[1]) {
            let last = c[c.len() - 1].clone();
            let f = string_field_exec(c[1].clone(), last);
            let ghost before = fields_view(out@);
            out.push(f);
            assert(fields_view(out@) =~= before.push(f@));
        }
        i = i + 1;
    }
    assert(mv.take(m@.len() as int) =~= mv);
    out
}

/// The response fields of the `출력결과` table.
pub fn extract_response_fields_by_h4(doc: &HtmlDoc) -> (r: Option<Vec<ResponseField>>)
    ensures
        match r {
            Some(f) => h4_fields_from(doc@, select(doc@, SelV::Tag("h4"@))) == Some(fields_view(f@)),
            None => h4_fields_from(doc@, select(doc@, SelV::Tag("h4"@))) is None,
        },
{
    let h4 = sel_tag("h4");
    let m = doc.select(&h4);
    let ghost mv = m@.map_values(|k: usize| k as int);
    let mut i: usize = 0;
    assert(mv.skip(0) =~= mv);
    while i < m.len()
        invariant
            i <= m@.len(),
            mv == m@.map_values(|k: usize| k as int),
            mv == select(doc@, SelV::Tag("h4"@)),
            forall|k: int| 0 <= k < m@.len() ==> #[trigger] m@[k] < doc@.len(),
            h4_fields_from(doc@, mv) == h4_fields_from(doc@, mv.skip(i as int)),
        decreases m@.len() - i,
    {
        assert(mv.skip(i as int)[0] == m@[i as int] as int);
        let text = doc.element_text(m[i]);
        if str_contains(text.as_str(), "출력결과") {
            if let Some(t) = doc.next_sibling_tag(m[i], "table") {
                return Some(parse_table_rows_as_response_fields(doc, t));
            }
        }
        assert(mv.skip(i as int).drop_first() =~= mv.skip(i + 1));
        i = i + 1;
    }
    None
}

/// The response fields from the rows after the response section's heading row.
pub fn extract_response_fields_by_tr_scan(doc: &HtmlDoc) -> (r: Vec<ResponseField>)
    ensures
        fields_view(r@) == scanned_fields(doc@),
{
    let tr = sel_tag("tr");
    let m = doc.select(&tr);
    let ghost mv = m@.map_values(|k: usize| k as int);
    let mut out: Vec<ResponseField> = Vec::new();
    let mut in_section = false;
    let mut i: usize = 0;
    assert(mv.take(0) =~= Seq::<int>::empty());
    assert(fields_view(out@) =~= Seq::<ResponseFieldV>::empty());
    while i < m.len()
        invariant
            i <= m@.len(),
            mv == m@.map_values(|k: usize| k as int),
            mv == select(doc@, SelV::Tag("tr"@)),
            forall|k: int| 0 <= k < m@.len() ==> #[trigger] m@[k] < doc@.len(),
            scan_fields(doc@, mv.take(i as int)) == (in_section, fields_view(out@)),
        decreases m@.len() - i,
    {
        assert(mv.take(i + 1).drop_last() =~= mv.take(i as int));
        assert(mv.take(i + 1).last() == m@[i as int] as int);
        let row = m[i];
        let c = row_cells(doc, row);
        let row_text = doc.element_text(row);
        if str_contains(row_text.as_str(), "출력결과") || str_contains(row_text.as_str(), "응답메시지") {
            in_section = true;
        } else if in_section && c.len() >= 3 && !is_header_name_exec(&c[1]) {
            let description = if c.len() >= 6 {
                c[5].clone()
            } else {
                c[c.len() - 1].clone()
            };
            let f = string_field_exec(c[1].clone(), description);
            let ghost before = fields_view(out@);
            out.push(f);
            assert(fields_view(out@) =~= before.push(f@));
        }
        i = i + 1;
    }
    assert(mv.take(m@.len() as int) =~= mv);
    out
}

/// The response fields of an operation detail.
pub fn extract_response_fields(doc: &HtmlDoc) -> (r: Vec<ResponseField>)
    ensures
        fields_view(r@) == response_fields_of(doc@),
{
    if let Some(fields) = extract_response_fields_by_h4(doc) {
        if fields.len() > 0 {
            return fields;
        }
    }
    extract_response_fields_by_tr_scan(doc)
}

// ---------------------------------------------------------------------------
// Pages
// ---------------------------------------------------------------------------

/// Extract the detail pk and the operation list from an `openapi.do` page.
pub fn parse_openapi_page(html: &str) -> (r: Result<PageInfo, HtmlParseError>)
    ensures
        ({
            let ns = parsed_html(html@, false);
            match pk_of(ns, html@) {
                Some((pk, _)) => r matches Ok(info) && {
                    &&& info.public_data_detail_pk@ == pk
                    &&& opt_view(info.public_data_pk) == first_value(ns, SelV::TagId("input"@, "publicDataPk"@))
                    &&& opt_view(info.ty_detail_code) == first_group(TY_DETAIL_PATTERN@, html@, 1)
                    &&& info.operations@.map_values(|o: OperationOption| (o.seq_no@, o.name@)) == operation_options(ns)
                    &&& opt_view(info.external_url) == external_url_of(ns)
                },
                None => r matches Err(HtmlParseError::PkNotFound),
            }
        }),
{
    let doc = parse_document(html);
    let pk = match extract_public_data_detail_pk(&doc, html) {
        Some(pk) => pk,
        None => {
            return Err(HtmlParseError::PkNotFound);
        },
    };
    proof {
        reveal_strlit("publicDataPk");
        assert(is_plain_ident("publicDataPk"@));
    }
    let public_data_pk = extract_hidden_input_value(&doc, "publicDataPk");
    let ty_detail_code = extract_ty_detail_code(html);
    let operations = extract_operation_options(&doc);
    let external_url = extract_external_url(&doc);
    Ok(PageInfo { public_data_detail_pk: pk, public_data_pk, ty_detail_code, operations, external_url })
}

/// What an operation detail fragment holds.
pub open spec fn parsed_operation(ns: Seq<HtmlNodeV>) -> (Seq<char>, Seq<char>, Seq<char>, Seq<ParameterV>, Seq<ResponseFieldV>) {
    (
        match labeled_url(ns, "요청주소"@, Seq::empty()) {
            Some(u) => u,
            None => Seq::empty(),
        },
        match labeled_url(ns, "서비스URL"@, Seq::empty()) {
            Some(u) => u,
            None => Seq::empty(),
        },
        summary_of(ns),
        request_params(ns),
        response_fields_of(ns),
    )
}

/// Parse an operation detail fragment (the answer of `selectApiDetailFunction.do`).
pub fn parse_operation_detail(html: &str) -> (r: Result<ParsedOperation, HtmlParseError>)
    ensures
        r matches Ok(op) && (op.request_url@, op.service_url@, op.summary@, params_view(op.parameters@), fields_view(
            op.response_fields@,
        )) == parsed_operation(parsed_html(html@, true)),
{
    let doc = parse_fragment(html);
    let request_url = match extract_labeled_url(&doc, "요청주소") {
        Some(u) => u,
        None => String::new(),
    };
    let service_url = match extract_labeled_url(&doc, "서비스URL") {
        Some(u) => u,
        None => String::new(),
    };
    let summary = extract_summary(&doc);
    let parameters = extract_request_params(&doc);
    let response_fields = extract_response_fields(&doc);
    Ok(ParsedOperation { request_url, service_url, summary, parameters, response_fields })
}

// ---------------------------------------------------------------------------
// Building the spec
// ---------------------------------------------------------------------------

pub struct ParsedOperationV {
    pub request_url: Seq<char>,
    pub service_url: Seq<char>,
    pub summary: Seq<char>,
    pub parameters: Seq<ParameterV>,
    pub response_fields: Seq<ResponseFieldV>,
}

impl View for ParsedOperation {
    type V = ParsedOperationV;

    open spec fn view(&self) -> ParsedOperationV {
        ParsedOperationV {
            request_url: self.request_url@,
            service_url: self.service_url@,
            summary: self.summary@,
            parameters: params_view(self.parameters@),
            response_fields: fields_view(self.response_fields@),
        }
    }
}

pub open spec fn parsed_views(v: Seq<ParsedOperation>) -> Seq<ParsedOperationV> {
    v.map_values(|o: ParsedOperation| o@)
}

/// `s` without the prefix `p` when it starts with it.
pub open spec fn strip_prefix(s: Seq<char>, p: Seq<char>) -> Seq<char> {
    if starts_with(s, p) {
        s.subrange(p.len() as int, s.len() as int)
    } else {
        s
    }
}

/// The first non-empty service URL.
pub open spec fn first_service_url(ops: Seq<ParsedOperationV>) -> Seq<char>
    decreases ops.len(),
{
    if ops.len() == 0 {
        Seq::empty()
    } else if ops[0].service_url.len() > 0 {
        ops[0].service_url
    } else {
        first_service_url(ops.drop_first())
    }
}

/// Whether a parameter is the service key (any ASCII case).
pub open spec fn is_service_key(p: ParameterV) -> bool {
    eq_ignore_ascii_case(p.name, "serviceKey"@)
}

/// Whether some operation has a service key parameter.
pub open spec fn has_service_key(ops: Seq<ParsedOperationV>) -> bool {
    exists|i: int, j: int|
        0 <= i < ops.len() && 0 <= j < ops[i].parameters.len() && #[trigger] is_service_key(ops[i].parameters[j])
}

/// The parameters without the service key.
pub open spec fn visible_params(ps: Seq<ParameterV>) -> Seq<ParameterV>
    decreases ps.len(),
{
    if ps.len() == 0 {
        Seq::empty()
    } else {
        let r = visible_params(ps.drop_last());
        if is_service_key(ps.last()) {
            r
        } else {
            r.push(ps.last())
        }
    }
}

/// The path of an operation: its request URL relative to the base URL (or whole when there
/// is no base URL); `/` when it has only a service URL or the path is empty; none when it
/// has neither URL.
pub open spec fn op_path(o: ParsedOperationV, base: Seq<char>) -> Option<Seq<char>> {
    let path = if o.request_url.len() > 0 && base.len() > 0 {
        Some(strip_prefix(o.request_url, base))
    } else if o.request_url.len() > 0 {
        Some(o.request_url)
    } else if o.service_url.len() > 0 {
        Some("/"@)
    } else {
        None
    };
    match path {
        Some(p) => if p.len() == 0 {
            Some("/"@)
        } else {
            Some(p)
        },
        None => None,
    }
}

/// The operations of a gateway spec: each parsed operation with a path becomes a GET with
/// its summary, its visible parameters and its response fields.
pub open spec fn gateway_operations(ops: Seq<ParsedOperationV>, base: Seq<char>) -> Seq<OperationV>
    decreases ops.len(),
{
    if ops.len() == 0 {
        Seq::empty()
    } else {
        let r = gateway_operations(ops.drop_last(), base);
        let o = ops.last();
        match op_path(o, base) {
            Some(path) => r.push(
                OperationV {
                    path,
                    method: HttpMethod::Get,
                    summary: o.summary,
                    content_type: ContentType::Unspecified,
                    parameters: visible_params(o.parameters),
                    request_body: None,
                    response_fields: o.response_fields,
                },
            ),
            None => r,
        }
    }
}

/// The gateway spec built from parsed operations at `fetched_at`: none without operations;
/// the base URL is the first non-empty service URL; the key goes in the `serviceKey` query
/// parameter when some operation has it; responses are XML.
pub open spec fn gateway_spec(list_id: Seq<char>, ops: Seq<ParsedOperationV>, fetched_at: Seq<char>) -> Option<ApiSpecV> {
    if ops.len() == 0 {
        None
    } else {
        let base = first_service_url(ops);
        let operations = gateway_operations(ops, base);
        if operations.len() == 0 {
            None
        } else {
            Some(
                ApiSpecV {
                    list_id,
                    base_url: base,
                    protocol: ApiProtocol::DataGoKrRest,
                    auth: if has_service_key(ops) {
                        AuthMethodV::QueryParam { name: "serviceKey"@ }
                    } else {
                        AuthMethodV::NoAuth
                    },
                    extractor: crate::types::ResponseExtractorV {
                        data_path: Seq::empty(),
                        error_check: crate::types::ErrorCheckV::HttpStatus,
                        pagination: None,
                        format: ResponseFormat::Xml,
                    },
                    operations,
                    fetched_at,
                    missing_operations: Seq::empty(),
                },
            )
        }
    }
}

/// A copy of a parameter.
pub fn copy_parameter(p: &Parameter) -> (r: Parameter)
    ensures
        r@ == p@,
{
    Parameter {
        name: p.name.clone(),
        description: p.description.clone(),
        location: p.location,
        param_type: p.param_type.clone(),
        required: p.required,
        default: match &p.default {
            Some(d) => Some(d.clone()),
            None => None,
        },
    }
}

/// A copy of a list of response fields.
pub fn copy_fields(v: &Vec<ResponseField>) -> (r: Vec<ResponseField>)
    ensures
        fields_view(r@) == fields_view(v@),
{
    let mut out: Vec<ResponseField> = Vec::new();
    let mut i: usize = 0;
    while i < v.len()
        invariant
            i <= v@.len(),
            fields_view(out@) == fields_view(v@).take(i as int),
        decreases v@.len() - i,
    {
        let f = ResponseField {
            name: v[i].name.clone(),
            description: v[i].description.clone(),
            field_type: v[i].field_type.clone(),
        };
        let ghost before = fields_view(out@);
        out.push(f);
        assert(fields_view(out@) =~= before.push(v@[i as int]@));
        assert(fields_view(v@).take(i + 1) =~= fields_view(v@).take(i as int).push(v@[i as int]@));
        i = i + 1;
    }
    assert(fields_view(v@).take(v@.len() as int) =~= fields_view(v@));
    out
}

fn is_service_key_exec(p: &Parameter) -> (r: bool)
    ensures
        r == is_service_key(p@),
{
    let n = chars_of(p.name.as_str());
    let k = chars_of("serviceKey");
    ascii_case_eq(n.as_slice(), k.as_slice())
}

fn visible_params_exec(ps: &Vec<Parameter>) -> (r: Vec<Parameter>)
    ensures
        params_view(r@) == visible_params(params_view(ps@)),
{
    let ghost pv = params_view(ps@);
    let mut out: Vec<Parameter> = Vec::new();
    let mut i: usize = 0;
    assert(pv.take(0) =~= Seq::<ParameterV>::empty());
    assert(params_view(out@) =~= Seq::<ParameterV>::empty());
    while i < ps.len()
        invariant
            i <= ps@.len(),
            pv == params_view(ps@),
            params_view(out@) == visible_params(pv.take(i as int)),
        decreases ps@.len() - i,
    {
        assert(pv.take(i + 1).drop_last() =~= pv.take(i as int));
        assert(pv.take(i + 1).last() == ps@[i as int]@);
        if !is_service_key_exec(&ps[i]) {
            let p = copy_parameter(&ps[i]);
            let ghost before = params_view(out@);
            out.push(p);
            assert(params_view(out@) =~= before.push(p@));
        }
        i = i + 1;
    }
    assert(pv.take(ps@.len() as int) =~= pv);
    out
}

fn strip_prefix_exec(s: &String, p: &String) -> (r: String)
    ensures
        r@ == strip_prefix(s@, p@),
{
    let sc = chars_of(s.as_str());
    let pc = chars_of(p.as_str());
    if crate::text::starts_with_chars(sc.as_slice(), pc.as_slice()) {
        let rest = crate::text::slice_to_vec(sc.as_slice(), pc.len(), sc.len());
        string_from_chars(rest.as_slice())
    } else {
        s.clone()
    }
}

fn op_path_exec(o: &ParsedOperation, base: &String) -> (r: Option<String>)
    ensures
        opt_view(r) == op_path(o@, base@),
{
    proof {
        reveal_strlit("/");
    }
    let path = if !o.request_url.as_str().is_empty() && !base.as_str().is_empty() {
        strip_prefix_exec(&o.request_url, base)
    } else if !o.request_url.as_str().is_empty() {
        o.request_url.clone()
    } else if !o.service_url.as_str().is_empty() {
        "/".to_owned()
    } else {
        return None;
    };
    if path.as_str().is_empty() {
        Some("/".to_owned())
    } else {
        Some(path)
    }
}

fn first_service_url_exec(parsed_ops: &[ParsedOperation]) -> (r: String)
    ensures
        r@ == first_service_url(parsed_views(parsed_ops@)),
{
    let ghost ov = parsed_views(parsed_ops@);
    let mut i: usize = 0;
    assert(ov.skip(0) =~= ov);
    while i < parsed_ops.len()
        invariant
            i <= parsed_ops@.len(),
            ov == parsed_views(parsed_ops@),
            first_service_url(ov) == first_service_url(ov.skip(i as int)),
        decreases parsed_ops@.len() - i,
    {
        assert(ov.skip(i as int)[0] == parsed_ops@[i as int]@);
        if !parsed_ops[i].service_url.as_str().is_empty() {
            return parsed_ops[i].service_url.clone();
        }
        assert(ov.skip(i as int).drop_first() =~= ov.skip(i + 1));
        i = i + 1;
    }
    String::new()
}

/// Build the spec of a gateway API from its parsed operations, stamped `fetched_at`.
pub fn build_api_spec_at(list_id: &str, parsed_ops: &[ParsedOperation], fetched_at: String) -> (r: Option<ApiSpec>)
    ensures
        match gateway_spec(list_id@, parsed_views(parsed_ops@), fetched_at@) {
            Some(s) => r matches Some(x) && x@ == s,
            None => r is None,
        },
{
    let ghost ov = parsed_views(parsed_ops@);
    if parsed_ops.len() == 0 {
        return None;
    }
    let base_url = first_service_url_exec(parsed_ops);
    // the auth method
    let mut has_key = false;
    let mut a: usize = 0;
    while a < parsed_ops.len() && !has_key
        invariant
            a <= parsed_ops@.len(),
            ov == parsed_views(parsed_ops@),
            has_key ==> has_service_key(ov),
            !has_key ==> forall|x: int, y: int|
                0 <= x < a && 0 <= y < ov[x].parameters.len() ==> !#[trigger] is_service_key(ov[x].parameters[y]),
        decreases parsed_ops@.len() - a,
    {
        let ps = &parsed_ops[a].parameters;
        let mut b: usize = 0;
        while b < ps.len() && !has_key
            invariant
                b <= ps@.len(),
                a < parsed_ops@.len(),
                *ps == parsed_ops@[a as int].parameters,
                ov == parsed_views(parsed_ops@),
                has_key ==> has_service_key(ov),
                !has_key ==> forall|x: int, y: int|
                    0 <= x < a && 0 <= y < ov[x].parameters.len() ==> !#[trigger] is_service_key(ov[x].parameters[y]),
                !has_key ==> forall|y: int| 0 <= y < b ==> !#[trigger] is_service_key(ov[a as int].parameters[y]),
            decreases ps@.len() - b,
        {
            assert(ov[a as int].parameters[b as int] == ps@[b as int]@);
            if is_service_key_exec(&ps[b]) {
                has_key = true;
            }
            b = b + 1;
        }
        a = a + 1;
    }
    assert(has_key == has_service_key(ov));
    // the operations
    let mut operations: Vec<Operation> = Vec::new();
    let mut k: usize = 0;
    assert(ov.take(0) =~= Seq::<ParsedOperationV>::empty());
    assert(crate::swagger::ops_view(operations@) =~= Seq::<OperationV>::empty());
    while k < parsed_ops.len()
        invariant
            k <= parsed_ops@.len(),
            ov == parsed_views(parsed_ops@),
            crate::swagger::ops_view(operations@) == gateway_operations(ov.take(k as int), base_url@),
        decreases parsed_ops@.len() - k,
    {
        assert(ov.take(k + 1).drop_last() =~= ov.take(k as int));
        assert(ov.take(k + 1).last() == parsed_ops@[k as int]@);
        let o = &parsed_ops[k];
        match op_path_exec(o, &base_url) {
            Some(path) => {
                let op = Operation {
                    path,
                    method: HttpMethod::Get,
                    summary: o.summary.clone(),
                    content_type: ContentType::Unspecified,
                    parameters: visible_params_exec(&o.parameters),
                    request_body: None,
                    response_fields: copy_fields(&o.response_fields),
                };
                let ghost before = crate::swagger::ops_view(operations@);
                operations.push(op);
                proof {
                    assert(op@.parameters =~= params_view(op.parameters@));
                    assert(op@.response_fields =~= fields_view(op.response_fields@));
                    assert(crate::swagger::ops_view(operations@) =~= before.push(op@));
                }
            },
            None => {},
        }
        k = k + 1;
    }
    assert(ov.take(parsed_ops@.len() as int) =~= ov);
    if operations.len() == 0 {
        return None;
    }
    let auth = if has_key {
        AuthMethod::QueryParam { name: "serviceKey".to_owned() }
    } else {
        AuthMethod::NoAuth
    };
    let r = ApiSpec {
        list_id: list_id.to_owned(),
        base_url,
        protocol: ApiProtocol::DataGoKrRest,
        auth,
        extractor: ResponseExtractor {
            data_path: Vec::new(),
            error_check: ErrorCheck::HttpStatus,
            pagination: None,
            format: ResponseFormat::Xml,
        },
        operations,
        fetched_at,
        missing_operations: Vec::new(),
    };
    proof {
        let s = gateway_spec(list_id@, ov, fetched_at@)->Some_0;
        assert(r@.operations =~= crate::swagger::ops_view(r.operations@));
        assert(r@.extractor.data_path =~= Seq::<Seq<char>>::empty());
        assert(r@.missing_operations =~= Seq::<Seq<char>>::empty());
        assert(r@.list_id == s.list_id);
        assert(r@.base_url == s.base_url);
        assert(r@.auth == s.auth);
        assert(r@.extractor == s.extractor);
        assert(r@.operations == s.operations);
    }
    Some(r)
}

/// Build the spec of a gateway API from its parsed operations, stamped with the current
/// time: `None` when no operation yields one (whatever the time), and an error when there
/// would be a spec but the clock cannot be read.
pub fn build_api_spec(list_id: &str, parsed_ops: &[ParsedOperation]) -> (r: Result<Option<ApiSpec>, crate::swagger::ClockError>)
    ensures
        match r {
            Ok(o) => exists|t: Seq<char>|
                crate::swagger::is_timestamp_text(t) && match #[trigger] gateway_spec(list_id@, parsed_views(parsed_ops@), t) {
                    Some(s) => o matches Some(x) && x@ == s,
                    None => o is None,
                },
            Err(_) => forall|t: Seq<char>| #[trigger] gateway_spec(list_id@, parsed_views(parsed_ops@), t) is Some,
        },
{
    match crate::swagger::utc_timestamp() {
        Some(now) => Ok(build_api_spec_at(list_id, parsed_ops, now)),
        None => {
            let probe = build_api_spec_at(list_id, parsed_ops, String::new());
            proof {
                lemma_gateway_spec_time_free(list_id@, parsed_views(parsed_ops@));
            }
            match probe {
                None => {
                    proof {
                        reveal_strlit("0000-01-01T00:00:00");
                        let t = "0000-01-01T00:00:00"@;
                        assert(crate::swagger::is_timestamp_text(t)) by {
                            assert(t.subrange(0, 4) =~= seq!['0', '0', '0', '0']);
                        }
                        assert(gateway_spec(list_id@, parsed_views(parsed_ops@), t) is None);
                    }
                    Ok(None)
                },
                Some(_) => Err(crate::swagger::ClockError),
            }
        },
    }
}

// ---------------------------------------------------------------------------
// Laws of the gateway spec
// ---------------------------------------------------------------------------

proof fn lemma_visible_params_hide_key(ps: Seq<ParameterV>)
    ensures
        forall|j: int| 0 <= j < visible_params(ps).len() ==> !is_service_key(#[trigger] visible_params(ps)[j]),
    decreases ps.len(),
{
    if ps.len() > 0 {
        let r = visible_params(ps.drop_last());
        lemma_visible_params_hide_key(ps.drop_last());
        if !is_service_key(ps.last()) {
            assert forall|j: int| 0 <= j < r.push(ps.last()).len() implies !is_service_key(
                #[trigger] r.push(ps.last())[j],
            ) by {
                if j < r.len() {
                    assert(r.push(ps.last())[j] == r[j]);
                }
            }
        }
    }
}

proof fn lemma_gateway_operations_facts(ops: Seq<ParsedOperationV>, base: Seq<char>)
    ensures
        forall|k: int|
            #![trigger gateway_operations(ops, base)[k]]
            0 <= k < gateway_operations(ops, base).len() ==> {
                &&& gateway_operations(ops, base)[k].method == HttpMethod::Get
                &&& forall|j: int|
                    0 <= j < gateway_operations(ops, base)[k].parameters.len() ==> !is_service_key(
                        #[trigger] gateway_operations(ops, base)[k].parameters[j],
                    )
            },
    decreases ops.len(),
{
    if ops.len() > 0 {
        let r = gateway_operations(ops.drop_last(), base);
        lemma_gateway_operations_facts(ops.drop_last(), base);
        lemma_visible_params_hide_key(ops.last().parameters);
        let g = gateway_operations(ops, base);
        assert forall|k: int| 0 <= k < g.len() && k < r.len() implies #[trigger] g[k] == r[k] by {}
    }
}

/// A gateway spec never lists the service key (in any ASCII case) among an operation's
/// parameters, and every operation is a GET.
pub proof fn law_gateway_spec_hides_service_key(list_id: Seq<char>, ops: Seq<ParsedOperationV>, fetched_at: Seq<char>)
    ensures
        gateway_spec(list_id, ops, fetched_at) matches Some(s) ==> forall|k: int, j: int|
            0 <= k < s.operations.len() && 0 <= j < s.operations[k].parameters.len() ==> !is_service_key(
                #[trigger] s.operations[k].parameters[j],
            ) && s.operations[k].method == HttpMethod::Get,
{
    if ops.len() > 0 {
        lemma_gateway_operations_facts(ops, first_service_url(ops));
    }
}

proof fn lemma_visible_params_filter(ps: Seq<ParameterV>)
    ensures
        visible_params(ps) == ps.filter(|p: ParameterV| !eq_ignore_ascii_case(p.name, "serviceKey"@)),
    decreases ps.len(),
{
    reveal(Seq::filter);
    if ps.len() > 0 {
        lemma_visible_params_filter(ps.drop_last());
    }
}

/// The service key is the parameter named `serviceKey` in any ASCII case. A gateway spec
/// sends the key as the `serviceKey` query parameter exactly when some parsed operation has
/// such a parameter (else it asks for no key), and each operation shows its parameters
/// without it, all others kept in order.
pub proof fn law_gateway_spec_service_key(list_id: Seq<char>, ops: Seq<ParsedOperationV>, fetched_at: Seq<char>)
    ensures
        gateway_spec(list_id, ops, fetched_at) matches Some(s) ==> {
            &&& (exists|i: int, j: int|
                0 <= i < ops.len() && 0 <= j < ops[i].parameters.len() && eq_ignore_ascii_case(
                    #[trigger] ops[i].parameters[j].name,
                    "serviceKey"@,
                )) ==> s.auth == AuthMethodV::QueryParam { name: "serviceKey"@ }
            &&& !(exists|i: int, j: int|
                0 <= i < ops.len() && 0 <= j < ops[i].parameters.len() && eq_ignore_ascii_case(
                    #[trigger] ops[i].parameters[j].name,
                    "serviceKey"@,
                )) ==> s.auth == AuthMethodV::NoAuth
            &&& forall|k: int, j: int|
                0 <= k < s.operations.len() && 0 <= j < s.operations[k].parameters.len() ==> !eq_ignore_ascii_case(
                    #[trigger] s.operations[k].parameters[j].name,
                    "serviceKey"@,
                )
        },
        forall|ps: Seq<ParameterV>|
            #[trigger] visible_params(ps) == ps.filter(|p: ParameterV| !eq_ignore_ascii_case(p.name, "serviceKey"@)),
{
    law_gateway_spec_hides_service_key(list_id, ops, fetched_at);
    if let Some(s) = gateway_spec(list_id, ops, fetched_at) {
        if exists|i: int, j: int|
            0 <= i < ops.len() && 0 <= j < ops[i].parameters.len() && eq_ignore_ascii_case(
                #[trigger] ops[i].parameters[j].name,
                "serviceKey"@,
            ) {
            let (i, j) = choose|i: int, j: int|
                0 <= i < ops.len() && 0 <= j < ops[i].parameters.len() && eq_ignore_ascii_case(
                    #[trigger] ops[i].parameters[j].name,
                    "serviceKey"@,
                );
            assert(is_service_key(ops[i].parameters[j]));
            assert(has_service_key(ops));
        } else if has_service_key(ops) {
            let (i, j) = choose|i: int, j: int|
                0 <= i < ops.len() && 0 <= j < ops[i].parameters.len() && #[trigger] is_service_key(ops[i].parameters[j]);
            assert(eq_ignore_ascii_case(ops[i].parameters[j].name, "serviceKey"@));
        }
        assert forall|k: int, j: int|
            0 <= k < s.operations.len() && 0 <= j < s.operations[k].parameters.len() implies !eq_ignore_ascii_case(
                #[trigger] s.operations[k].parameters[j].name,
                "serviceKey"@,
            ) by {
            assert(!is_service_key(s.operations[k].parameters[j]));
        }
    }
    assert forall|ps: Seq<ParameterV>|
        #[trigger] visible_params(ps) == ps.filter(|p: ParameterV| !eq_ignore_ascii_case(p.name, "serviceKey"@)) by {
        lemma_visible_params_filter(ps);
    }
}

/// `p` is the parameter that the row `row` declares by its `data-paramtr-*` attributes: its
/// non-empty `data-paramtr-nm` is the name, its `data-paramtr-dc` the description (empty
/// when absent), and it is a required query parameter when its `data-paramtr-division`
/// starts with `필`.
pub open spec fn row_declares(row: HtmlNodeV, p: ParameterV) -> bool {
    &&& node_attr(row, "data-paramtr-nm"@) == Some(p.name)
    &&& p.name.len() > 0
    &&& p.description == (match node_attr(row, "data-paramtr-dc"@) {
        Some(d) => d,
        None => Seq::<char>::empty(),
    })
    &&& p.required == (node_attr(row, "data-paramtr-division"@) matches Some(d) && starts_with(d, "필"@))
    &&& p.location == ParamLocation::Query
}

/// Some row among `m` declares `p`.
pub open spec fn declared_by_a_row(ns: Seq<HtmlNodeV>, m: Seq<int>, p: ParameterV) -> bool {
    exists|k: int| 0 <= k < m.len() && #[trigger] row_declares(ns[m[k]], p)
}

/// The row `row` declares one of `ps`.
pub open spec fn declares_one_of(row: HtmlNodeV, ps: Seq<ParameterV>) -> bool {
    exists|j: int| 0 <= j < ps.len() && #[trigger] row_declares(row, ps[j])
}

/// The row carries a non-empty `data-paramtr-nm`.
pub open spec fn names_a_parameter(row: HtmlNodeV) -> bool {
    node_attr(row, "data-paramtr-nm"@) matches Some(n) && n.len() > 0
}

proof fn lemma_attr_params_rows(ns: Seq<HtmlNodeV>, m: Seq<int>)
    ensures
        forall|j: int| 0 <= j < attr_params(ns, m).len() ==> declared_by_a_row(ns, m, #[trigger] attr_params(ns, m)[j]),
        forall|k: int| 0 <= k < m.len() && names_a_parameter(#[trigger] ns[m[k]]) ==> declares_one_of(ns[m[k]], attr_params(ns, m)),
    decreases m.len(),
{
    if m.len() > 0 {
        let m0 = m.drop_last();
        let r0 = attr_params(ns, m0);
        let r = attr_params(ns, m);
        let last = m.len() - 1;
        lemma_attr_params_rows(ns, m0);
        assert forall|j: int| 0 <= j < r.len() implies declared_by_a_row(ns, m, #[trigger] r[j]) by {
            if j < r0.len() {
                assert(r[j] == r0[j]);
                assert(declared_by_a_row(ns, m0, r0[j]));
                let k = choose|k: int| 0 <= k < m0.len() && #[trigger] row_declares(ns[m0[k]], r0[j]);
                assert(m0[k] == m[k]);
                assert(row_declares(ns[m[k]], r[j]));
            } else {
                assert(row_declares(ns[m[last]], r[j]));
            }
        }
        assert forall|k: int| 0 <= k < m.len() && names_a_parameter(#[trigger] ns[m[k]]) implies declares_one_of(
            ns[m[k]],
            r,
        ) by {
            if k < m0.len() {
                assert(m0[k] == m[k]);
                assert(names_a_parameter(ns[m0[k]]));
                assert(declares_one_of(ns[m0[k]], r0));
                let j = choose|j: int| 0 <= j < r0.len() && #[trigger] row_declares(ns[m0[k]], r0[j]);
                assert(r[j] == r0[j]);
                assert(row_declares(ns[m[k]], r[j]));
            } else {
                assert(row_declares(ns[m[k]], r[r0.len() as int]));
            }
        }
    }
}

/// On a page with `tr[data-paramtr-nm]` rows, the request parameters are those the rows
/// declare: every parameter is declared by some row (name from `data-paramtr-nm`,
/// description from `data-paramtr-dc`, required by `data-paramtr-division`), and every row
/// with a non-empty name declares one of them.
pub proof fn law_request_params_from_rows(ns: Seq<HtmlNodeV>)
    ensures
        select(ns, param_rows_sel()).len() > 0 ==> {
            let rows = select(ns, param_rows_sel());
            let ps = parsed_operation(ns).3;
            &&& forall|j: int| 0 <= j < ps.len() ==> declared_by_a_row(ns, rows, #[trigger] ps[j])
            &&& forall|k: int| 0 <= k < rows.len() && names_a_parameter(#[trigger] ns[rows[k]]) ==> declares_one_of(ns[rows[k]], ps)
        },
{
    let rows = select(ns, param_rows_sel());
    lemma_attr_params_rows(ns, rows);
    if rows.len() > 0 {
        assert(parsed_operation(ns).3 == attr_params(ns, rows));
    }
}

/// Whether parsed operations give a gateway spec does not depend on the time stamp.
pub proof fn lemma_gateway_spec_time_free(list_id: Seq<char>, ops: Seq<ParsedOperationV>)
    ensures
        forall|t1: Seq<char>, t2: Seq<char>|
            (#[trigger] gateway_spec(list_id, ops, t1) is None) == (#[trigger] gateway_spec(list_id, ops, t2) is None),
{
}

} // verus!
