//! Catalog search, and the grouping of the portal's meta-API records into services.

use vstd::prelude::*;
use crate::text::{
    chars_of, contains, contains_chars, eq_ignore_ascii_case, is_ascii_lowering, is_ascii_or_hangul_text,
    lemma_ascii_lowering_unique, lowercase, occurs_at, split_words, string_from_chars, string_views, to_lowercase, words,
};
use crate::types::{
    ApiService, ApiServiceV, CatalogEntry, CatalogEntryV, OperationSummary, OperationSummaryV,
    SearchEntry, SearchEntryV, SearchResult, SpecStatus,
};
use crate::json::{
    elems_view, find_member, jget, lemma_array_elems, lemma_object_members, member, members_view, Json,
    JsonNumber, JsonNumberV, JsonV,
};
use crate::text::{csv_items, quoted_csv_items, split_csv};

verus! {

// ---------------------------------------------------------------------------
// Specification of the search
// ---------------------------------------------------------------------------

/// `items.join(sep)`.
pub open spec fn join(items: Seq<Seq<char>>, sep: Seq<char>) -> Seq<char>
    decreases items.len(),
{
    if items.len() == 0 {
        Seq::empty()
    } else if items.len() == 1 {
        items[0]
    } else {
        join(items.drop_last(), sep) + sep + items.last()
    }
}

/// The text that a query is matched against: lowercased title, description, keywords
/// (joined by spaces) and organisation, separated by spaces.
pub open spec fn searchable(e: CatalogEntryV) -> Seq<char> {
    lowercase(e.title) + " "@ + lowercase(e.description) + " "@ + lowercase(join(e.keywords, " "@))
        + " "@ + lowercase(e.org_name)
}

/// How many of `terms` (counted with repetition) occur in `hay`.
pub open spec fn count_contained(terms: Seq<Seq<char>>, hay: Seq<char>) -> nat
    decreases terms.len(),
{
    if terms.len() == 0 {
        0
    } else {
        count_contained(terms.drop_last(), hay) + if contains(hay, terms.last()) {
            1nat
        } else {
            0nat
        }
    }
}

/// The search terms of a query: its lowercase form split at whitespace.
pub open spec fn query_terms(query: Seq<char>) -> Seq<Seq<char>> {
    words(lowercase(query))
}

pub open spec fn passes_category(e: CatalogEntryV, category: Option<Seq<char>>) -> bool {
    match category {
        Some(c) => contains(e.category, c),
        None => true,
    }
}

/// Score of an entry: 100 per matched term plus its request count.
pub open spec fn score(e: CatalogEntryV, terms: Seq<Seq<char>>) -> int {
    100 * count_contained(terms, searchable(e)) + e.request_count
}

/// The (score, index) pairs of the entries among the first `n` that pass the category filter
/// and match at least one term, in catalog order.
pub open spec fn candidates(
    catalog: Seq<CatalogEntryV>,
    terms: Seq<Seq<char>>,
    category: Option<Seq<char>>,
    n: int,
) -> Seq<(int, int)>
    decreases n,
{
    if n <= 0 {
        Seq::empty()
    } else {
        let rest = candidates(catalog, terms, category, n - 1);
        let e = catalog[n - 1];
        if passes_category(e, category) && count_contained(terms, searchable(e)) > 0 {
            rest.push((score(e, terms), n - 1))
        } else {
            rest
        }
    }
}

/// Number of leading elements of `s` whose score is at least `score`.
pub open spec fn insert_pos(s: Seq<(int, int)>, score: int) -> nat
    decreases s.len(),
{
    if s.len() > 0 && s[0].0 >= score {
        1 + insert_pos(s.drop_first(), score)
    } else {
        0
    }
}

/// Stable sort by descending score: each element is placed after every earlier element whose
/// score is at least its own.
pub open spec fn sort_desc(s: Seq<(int, int)>) -> Seq<(int, int)>
    decreases s.len(),
{
    if s.len() == 0 {
        s
    } else {
        let sorted = sort_desc(s.drop_last());
        sorted.insert(insert_pos(sorted, s.last().0) as int, s.last())
    }
}

pub open spec fn to_search_entry(e: CatalogEntryV) -> SearchEntryV {
    SearchEntryV {
        list_id: e.list_id,
        title: e.title,
        description: e.description,
        org: e.org_name,
        category: e.category,
        popularity: e.request_count,
        spec_status: e.spec_status,
        endpoint_url: e.endpoint_url,
    }
}

/// The entries that match `query`, best score first (ties keep catalog order).
pub open spec fn ranked(
    catalog: Seq<CatalogEntryV>,
    query: Seq<char>,
    category: Option<Seq<char>>,
) -> Seq<(int, int)> {
    sort_desc(candidates(catalog, query_terms(query), category, catalog.len() as int))
}

pub open spec fn opt_view(o: Option<&str>) -> Option<Seq<char>> {
    match o {
        Some(s) => Some(s@),
        None => None,
    }
}

pub open spec fn catalog_views(c: Seq<CatalogEntry>) -> Seq<CatalogEntryV> {
    c.map_values(|e: CatalogEntry| e@)
}

// ---------------------------------------------------------------------------
// Implementation
// ---------------------------------------------------------------------------

/// `items.join(sep)` on strings.
pub fn join_strings(items: &Vec<String>, sep: &str) -> (r: Vec<char>)
    ensures
        r@ == join(string_views(items@), sep@),
{
    let sepc = chars_of(sep);
    let mut out: Vec<char> = Vec::new();
    let mut i: usize = 0;
    while i < items.len()
        invariant
            i <= items@.len(),
            sepc@ == sep@,
            out@ == join(string_views(items@.take(i as int)), sep@),
        decreases items@.len() - i,
    {
        let item = chars_of(items[i].as_str());
        let ghost before = out@;
        if i > 0 {
            out.append(&mut sepc.clone());
        }
        let mut it = item;
        out.append(&mut it);
        proof {
            let t = string_views(items@.take(i + 1));
            assert(t.drop_last() =~= string_views(items@.take(i as int)));
            assert(t.last() == items@[i as int]@);
        }
        i = i + 1;
    }
    assert(items@.take(items@.len() as int) =~= items@);
    out
}

fn searchable_text(e: &CatalogEntry) -> (r: Vec<char>)
    ensures
        r@ == searchable(e@),
{
    let mut out = chars_of(to_lowercase(e.title.as_str()).as_str());
    out.push(' ');
    out.append(&mut chars_of(to_lowercase(e.description.as_str()).as_str()));
    out.push(' ');
    let kw = string_from_chars(join_strings(&e.keywords, " ").as_slice());
    out.append(&mut chars_of(to_lowercase(kw.as_str()).as_str()));
    out.push(' ');
    out.append(&mut chars_of(to_lowercase(e.org_name.as_str()).as_str()));
    proof {
        reveal_strlit(" ");
        assert(out@ =~= searchable(e@));
    }
    out
}

fn count_terms(terms: &Vec<String>, hay: &Vec<char>) -> (r: usize)
    ensures
        r == count_contained(string_views(terms@), hay@),
        r <= terms@.len(),
{
    let mut n: usize = 0;
    let mut i: usize = 0;
    while i < terms.len()
        invariant
            i <= terms@.len(),
            n <= i,
            n == count_contained(string_views(terms@.take(i as int)), hay@),
        decreases terms@.len() - i,
    {
        let t = chars_of(terms[i].as_str());
        proof {
            let s = string_views(terms@.take(i + 1));
            assert(s.drop_last() =~= string_views(terms@.take(i as int)));
        }
        if contains_chars(hay.as_slice(), t.as_slice()) {
            n = n + 1;
        }
        i = i + 1;
    }
    assert(terms@.take(terms@.len() as int) =~= terms@);
    n
}

/// Insert `x` into `v` after every element whose score is at least `x`'s.
pub(crate) fn insert_by_score(v: &mut Vec<(u128, usize)>, x: (u128, usize)) -> (pos: usize)
    ensures
        pos <= old(v)@.len(),
        pos == insert_pos(pairs(old(v)@), x.0 as int),
        final(v)@ == old(v)@.insert(pos as int, x),
        pairs(final(v)@) == pairs(old(v)@).insert(pos as int, (x.0 as int, x.1 as int)),
{
    let ghost s = pairs(v@);
    let mut j: usize = 0;
    assert(s.skip(0) =~= s);
    while j < v.len() && v[j].0 >= x.0
        invariant
            j <= v@.len(),
            s == pairs(v@),
            insert_pos(s, x.0 as int) == j + insert_pos(s.skip(j as int), x.0 as int),
        decreases v@.len() - j,
    {
        assert(s.skip(j as int).drop_first() =~= s.skip(j + 1));
        j = j + 1;
    }
    assert(insert_pos(s.skip(j as int), x.0 as int) == 0);
    v.insert(j, x);
    assert(pairs(v@) =~= s.insert(j as int, (x.0 as int, x.1 as int)));
    j
}

pub proof fn lemma_sort_desc_len(s: Seq<(int, int)>)
    ensures
        sort_desc(s).len() == s.len(),
    decreases s.len(),
{
    if s.len() > 0 {
        lemma_sort_desc_len(s.drop_last());
        lemma_insert_pos_bound(sort_desc(s.drop_last()), s.last().0);
    }
}

pub proof fn lemma_insert_pos_bound(s: Seq<(int, int)>, score: int)
    ensures
        insert_pos(s, score) <= s.len(),
    decreases s.len(),
{
    if s.len() > 0 {
        lemma_insert_pos_bound(s.drop_first(), score);
    }
}

pub open spec fn pairs(v: Seq<(u128, usize)>) -> Seq<(int, int)> {
    v.map_values(|p: (u128, usize)| (p.0 as int, p.1 as int))
}

/// Each score paired with its index.
pub open spec fn indexed(scores: Seq<u128>) -> Seq<(int, int)> {
    Seq::new(scores.len(), |i: int| (scores[i] as int, i))
}

/// The indices of `scores` ordered by descending score; equal scores keep their order.
pub open spec fn order_desc(scores: Seq<u128>) -> Seq<int> {
    sort_desc(indexed(scores)).map_values(|p: (int, int)| p.1)
}

/// The indices of `scores`, highest score first; equal scores keep their order (a stable
/// sort by descending score).
pub fn order_by_score_desc(scores: &Vec<u128>) -> (r: Vec<usize>)
    ensures
        r@.len() == scores@.len(),
        forall|m: int| 0 <= m < r@.len() ==> #[trigger] r@[m] as int == order_desc(scores@)[m],
        forall|m: int| 0 <= m < r@.len() ==> #[trigger] r@[m] < scores@.len(),
{
    let mut v: Vec<(u128, usize)> = Vec::new();
    let mut i: usize = 0;
    assert(indexed(scores@).take(0) =~= Seq::<(int, int)>::empty());
    assert(pairs(v@) =~= Seq::<(int, int)>::empty());
    while i < scores.len()
        invariant
            i <= scores@.len(),
            pairs(v@) == sort_desc(indexed(scores@).take(i as int)),
            forall|k: int| 0 <= k < v@.len() ==> #[trigger] v@[k].1 < i,
        decreases scores@.len() - i,
    {
        let ghost before = v@;
        let pos = insert_by_score(&mut v, (scores[i], i));
        proof {
            let t = indexed(scores@).take(i + 1);
            assert(t.drop_last() =~= indexed(scores@).take(i as int));
            assert(t.last() == (scores@[i as int] as int, i as int));
            assert forall|k: int| 0 <= k < v@.len() implies #[trigger] v@[k].1 < i + 1 by {
                if k < pos {
                    assert(v@[k] == before[k]);
                } else if k > pos {
                    assert(v@[k] == before[k - 1]);
                }
            }
        }
        i = i + 1;
    }
    assert(indexed(scores@).take(scores@.len() as int) =~= indexed(scores@));
    proof {
        lemma_sort_desc_len(indexed(scores@));
    }
    let mut out: Vec<usize> = Vec::new();
    let mut k: usize = 0;
    while k < v.len()
        invariant
            k <= v@.len(),
            v@.len() == scores@.len(),
            pairs(v@) == sort_desc(indexed(scores@)),
            forall|q: int| 0 <= q < v@.len() ==> #[trigger] v@[q].1 < scores@.len(),
            out@.len() == k,
            forall|m: int| 0 <= m < k ==> #[trigger] out@[m] as int == order_desc(scores@)[m],
            forall|m: int| 0 <= m < k ==> #[trigger] out@[m] < scores@.len(),
        decreases v@.len() - k,
    {
        assert(pairs(v@)[k as int].1 == v@[k as int].1 as int);
        out.push(v[k].1);
        k = k + 1;
    }
    out
}

fn copy_search_entry(e: &CatalogEntry) -> (r: SearchEntry)
    ensures
        r@ == to_search_entry(e@),
{
    SearchEntry {
        list_id: e.list_id.clone(),
        title: e.title.clone(),
        description: e.description.clone(),
        org: e.org_name.clone(),
        category: e.category.clone(),
        popularity: e.request_count,
        spec_status: e.spec_status,
        endpoint_url: e.endpoint_url.clone(),
    }
}

/// Search bundle catalog entries by query string.
///
/// An entry matches when it passes the category filter (its category contains `category`)
/// and its searchable text contains at least one of the query's lowercase whitespace-separated
/// terms; `total` counts the matches and `results` holds the first `limit` of them by
/// descending score.
pub fn search_bundle_catalog(
    catalog: &[CatalogEntry],
    query: &str,
    category: Option<&str>,
    limit: usize,
) -> (r: SearchResult)
    ensures
        r.total == ranked(catalog_views(catalog@), query@, opt_view(category)).len(),
        r.results@.len() == if limit < r.total {
            limit as int
        } else {
            r.total as int
        },
        forall|k: int|
            0 <= k < r.results@.len() ==> #[trigger] r.results@[k]@ == to_search_entry(
                catalog@[ranked(catalog_views(catalog@), query@, opt_view(category))[k].1]@,
            ),
        is_ascii_or_hangul_text(query@) ==> is_ascii_lowering(query@, lowercase(query@)),
{
    let ghost cv = catalog_views(catalog@);
    let query_lower = to_lowercase(query);
    let terms = split_words(chars_of(query_lower.as_str()).as_slice());
    let ghost tv = string_views(terms@);
    assert(tv == query_terms(query@));
    let cat_chars: Option<Vec<char>> = match category {
        Some(c) => Some(chars_of(c)),
        None => None,
    };
    let mut scored: Vec<(u128, usize)> = Vec::new();
    let mut i: usize = 0;
    while i < catalog.len()
        invariant
            i <= catalog@.len(),
            cv == catalog_views(catalog@),
            tv == string_views(terms@),
            match cat_chars {
                Some(c) => opt_view(category) == Some(c@),
                None => opt_view(category) is None,
            },
            pairs(scored@) == sort_desc(candidates(cv, tv, opt_view(category), i as int)),
            forall|k: int| 0 <= k < scored@.len() ==> #[trigger] scored@[k].1 < i,
        decreases catalog@.len() - i,
    {
        let e = &catalog[i];
        assert(cv[i as int] == e@);
        let ghost before = candidates(cv, tv, opt_view(category), i as int);
        let ghost sorted_before = scored@;
        let pass = match &cat_chars {
            Some(c) => contains_chars(chars_of(e.category.as_str()).as_slice(), c.as_slice()),
            None => true,
        };
        assert(pass == passes_category(cv[i as int], opt_view(category)));
        let mut inserted = false;
        if pass {
            let hay = searchable_text(e);
            let count = count_terms(&terms, &hay);
            if count > 0 {
                let sc: u128 = (count as u128) * 100 + (e.request_count as u128);
                let pos = insert_by_score(&mut scored, (sc, i));
                proof {
                    let x = (sc as int, i as int);
                    assert(sc as int == score(cv[i as int], tv));
                    assert(before.push(x).drop_last() =~= before);
                    assert(candidates(cv, tv, opt_view(category), i + 1) == before.push(x));
                    assert forall|k: int| 0 <= k < scored@.len() implies #[trigger] scored@[k].1 < i + 1 by {
                        if k < pos {
                            assert(scored@[k] == sorted_before[k]);
                        } else if k > pos {
                            assert(scored@[k] == sorted_before[k - 1]);
                        }
                    }
                }
                inserted = true;
            }
        }
        if !inserted {
            assert(candidates(cv, tv, opt_view(category), i + 1) == before);
        }
        i = i + 1;
    }
    proof {
        lemma_sort_desc_len(candidates(cv, tv, opt_view(category), catalog@.len() as int));
        assert(pairs(scored@).len() == scored@.len());
    }
    let total = scored.len();
    let mut results: Vec<SearchEntry> = Vec::new();
    let mut k: usize = 0;
    while k < scored.len() && k < limit
        invariant
            k <= scored@.len(),
            k <= limit,
            total == scored@.len(),
            results@.len() == k,
            pairs(scored@) == ranked(cv, query@, opt_view(category)),
            cv == catalog_views(catalog@),
            forall|m: int| 0 <= m < scored@.len() ==> #[trigger] scored@[m].1 < catalog@.len(),
            forall|m: int|
                0 <= m < k ==> #[trigger] results@[m]@ == to_search_entry(
                    catalog@[ranked(cv, query@, opt_view(category))[m].1]@,
                ),
        decreases scored@.len() - k,
    {
        let idx = scored[k].1;
        assert(pairs(scored@)[k as int].1 == idx);
        results.push(copy_search_entry(&catalog[idx]));
        k = k + 1;
    }
    SearchResult { results, total }
}


// ---------------------------------------------------------------------------
// Meta-API records
// ---------------------------------------------------------------------------

/// One record of the portal's meta API (one operation of one service).
pub struct MetaApiEntry {
    pub list_id: String,
    pub list_title: Option<String>,
    pub title: Option<String>,
    pub desc: Option<String>,
    pub keywords: Option<String>,
    pub org_nm: Option<String>,
    pub new_category_nm: Option<String>,
    pub end_point_url: Option<String>,
    pub data_format: Option<String>,
    pub is_confirmed_for_dev: Option<String>,
    pub is_charged: Option<String>,
    pub request_cnt: Option<u32>,
    pub updated_at: Option<String>,
    pub operation_nm: Option<String>,
    pub operation_seq: Option<String>,
    pub request_param_nm: Option<String>,
    pub request_param_nm_en: Option<String>,
}

pub struct MetaApiEntryV {
    pub list_id: Seq<char>,
    pub list_title: Option<Seq<char>>,
    pub title: Option<Seq<char>>,
    pub desc: Option<Seq<char>>,
    pub keywords: Option<Seq<char>>,
    pub org_nm: Option<Seq<char>>,
    pub new_category_nm: Option<Seq<char>>,
    pub end_point_url: Option<Seq<char>>,
    pub data_format: Option<Seq<char>>,
    pub is_confirmed_for_dev: Option<Seq<char>>,
    pub is_charged: Option<Seq<char>>,
    pub request_cnt: Option<u32>,
    pub updated_at: Option<Seq<char>>,
    pub operation_nm: Option<Seq<char>>,
    pub operation_seq: Option<Seq<char>>,
    pub request_param_nm: Option<Seq<char>>,
    pub request_param_nm_en: Option<Seq<char>>,
}

pub open spec fn opt_string_view(o: Option<String>) -> Option<Seq<char>> {
    match o {
        Some(s) => Some(s@),
        None => None,
    }
}

impl View for MetaApiEntry {
    type V = MetaApiEntryV;

    open spec fn view(&self) -> MetaApiEntryV {
        MetaApiEntryV {
            list_id: self.list_id@,
            list_title: opt_string_view(self.list_title),
            title: opt_string_view(self.title),
            desc: opt_string_view(self.desc),
            keywords: opt_string_view(self.keywords),
            org_nm: opt_string_view(self.org_nm),
            new_category_nm: opt_string_view(self.new_category_nm),
            end_point_url: opt_string_view(self.end_point_url),
            data_format: opt_string_view(self.data_format),
            is_confirmed_for_dev: opt_string_view(self.is_confirmed_for_dev),
            is_charged: opt_string_view(self.is_charged),
            request_cnt: self.request_cnt,
            updated_at: opt_string_view(self.updated_at),
            operation_nm: opt_string_view(self.operation_nm),
            operation_seq: opt_string_view(self.operation_seq),
            request_param_nm: opt_string_view(self.request_param_nm),
            request_param_nm_en: opt_string_view(self.request_param_nm_en),
        }
    }
}

/// An optional string field of a record: missing or `null` is `None`, a string is kept,
/// any other value is a decoding error (the outer `None`).
pub open spec fn opt_str_field(m: Seq<(Seq<char>, JsonV)>, key: Seq<char>) -> Option<Option<Seq<char>>> {
    match member(m, key) {
        None => Some(None),
        Some(JsonV::Null) => Some(None),
        Some(JsonV::Str(s)) => Some(Some(s)),
        Some(_) => None,
    }
}

/// An optional `u32` field: missing or `null` is `None`, a non-negative integer up to
/// `u32::MAX` is kept, any other value is a decoding error.
pub open spec fn opt_u32_field(m: Seq<(Seq<char>, JsonV)>, key: Seq<char>) -> Option<Option<u32>> {
    match member(m, key) {
        None => Some(None),
        Some(JsonV::Null) => Some(None),
        Some(JsonV::Number(JsonNumberV::Unsigned(u))) => if u <= u32::MAX {
            Some(Some(u as u32))
        } else {
            None
        },
        Some(_) => None,
    }
}

/// Decoding of one meta-API record: an object whose `list_id` is a string and whose other
/// known fields are strings, numbers (`request_cnt`) or absent/null. `None` when it does
/// not decode.
pub open spec fn meta_entry(v: JsonV) -> Option<MetaApiEntryV> {
    match v {
        JsonV::Object(m) => {
            let list_id = member(m, "list_id"@);
            let list_title = opt_str_field(m, "list_title"@);
            let title = opt_str_field(m, "title"@);
            let desc = opt_str_field(m, "desc"@);
            let keywords = opt_str_field(m, "keywords"@);
            let org_nm = opt_str_field(m, "org_nm"@);
            let cat = opt_str_field(m, "new_category_nm"@);
            let url = opt_str_field(m, "end_point_url"@);
            let fmt = opt_str_field(m, "data_format"@);
            let conf = opt_str_field(m, "is_confirmed_for_dev"@);
            let charged = opt_str_field(m, "is_charged"@);
            let cnt = opt_u32_field(m, "request_cnt"@);
            let upd = opt_str_field(m, "updated_at"@);
            let op_nm = opt_str_field(m, "operation_nm"@);
            let op_seq = opt_str_field(m, "operation_seq"@);
            let p_nm = opt_str_field(m, "request_param_nm"@);
            let p_en = opt_str_field(m, "request_param_nm_en"@);
            if list_id matches Some(JsonV::Str(id)) && list_title is Some && title is Some
                && desc is Some && keywords is Some && org_nm is Some && cat is Some && url is Some
                && fmt is Some && conf is Some && charged is Some && cnt is Some && upd is Some
                && op_nm is Some && op_seq is Some && p_nm is Some && p_en is Some {
                Some(
                    MetaApiEntryV {
                        list_id: member(m, "list_id"@)->Some_0->Str_0,
                        list_title: list_title->Some_0,
                        title: title->Some_0,
                        desc: desc->Some_0,
                        keywords: keywords->Some_0,
                        org_nm: org_nm->Some_0,
                        new_category_nm: cat->Some_0,
                        end_point_url: url->Some_0,
                        data_format: fmt->Some_0,
                        is_confirmed_for_dev: conf->Some_0,
                        is_charged: charged->Some_0,
                        request_cnt: cnt->Some_0,
                        updated_at: upd->Some_0,
                        operation_nm: op_nm->Some_0,
                        operation_seq: op_seq->Some_0,
                        request_param_nm: p_nm->Some_0,
                        request_param_nm_en: p_en->Some_0,
                    },
                )
            } else {
                None
            }
        },
        _ => None,
    }
}

/// Why a meta-API response could not be read.
#[derive(Debug, Clone, Copy, PartialEq, Eq, Structural)]
pub enum MetaError {
    /// The response has no `data` member.
    MissingData,
    /// `data` is not an array.
    DataNotArray,
    /// The record at this index does not decode.
    InvalidEntry(usize),
}

/// The decoded records of `data`, or the error that the first failing step reports.
pub open spec fn meta_entries(items: Seq<JsonV>) -> Result<Seq<MetaApiEntryV>, MetaError>
    decreases items.len(),
{
    if items.len() == 0 {
        Ok(Seq::empty())
    } else {
        match meta_entries(items.drop_last()) {
            Err(e) => Err(e),
            Ok(prefix) => match meta_entry(items.last()) {
                Some(e) => Ok(prefix.push(e)),
                None => Err(MetaError::InvalidEntry((items.len() - 1) as usize)),
            },
        }
    }
}

fn opt_str_member(m: &Vec<(String, Json)>, key: &str) -> (r: Result<Option<String>, ()>)
    ensures
        match opt_str_field(members_view(m@), key@) {
            None => r is Err,
            Some(o) => r matches Ok(x) && opt_string_view(x) == o,
        },
{
    match find_member(m, key) {
        None => Ok(None),
        Some(v) => match v {
            Json::Null => Ok(None),
            Json::Str(s) => Ok(Some(s.clone())),
            _ => Err(()),
        },
    }
}

fn opt_u32_member(m: &Vec<(String, Json)>, key: &str) -> (r: Result<Option<u32>, ()>)
    ensures
        match opt_u32_field(members_view(m@), key@) {
            None => r is Err,
            Some(o) => r == Ok::<Option<u32>, ()>(o),
        },
{
    match find_member(m, key) {
        None => Ok(None),
        Some(v) => match v {
            Json::Null => Ok(None),
            Json::Number(JsonNumber::Unsigned(u)) => {
                if *u <= 0xffff_ffff {
                    Ok(Some(*u as u32))
                } else {
                    Err(())
                }
            },
            _ => Err(()),
        },
    }
}

/// Decode one meta-API record.
fn decode_meta_entry(v: &Json) -> (r: Option<MetaApiEntry>)
    ensures
        match meta_entry(v@) {
            None => r is None,
            Some(e) => r matches Some(x) && x@ == e,
        },
{
    let m = match v {
        Json::Object(m) => m,
        _ => {
            return None;
        },
    };
    proof {
        lemma_object_members(*m);
    }
    let list_id = match find_member(m, "list_id") {
        Some(Json::Str(s)) => s.clone(),
        _ => {
            return None;
        },
    };
    let list_title = opt_str_member(m, "list_title");
    let title = opt_str_member(m, "title");
    let desc = opt_str_member(m, "desc");
    let keywords = opt_str_member(m, "keywords");
    let org_nm = opt_str_member(m, "org_nm");
    let cat = opt_str_member(m, "new_category_nm");
    let url = opt_str_member(m, "end_point_url");
    let fmt = opt_str_member(m, "data_format");
    let conf = opt_str_member(m, "is_confirmed_for_dev");
    let charged = opt_str_member(m, "is_charged");
    let cnt = opt_u32_member(m, "request_cnt");
    let upd = opt_str_member(m, "updated_at");
    let op_nm = opt_str_member(m, "operation_nm");
    let op_seq = opt_str_member(m, "operation_seq");
    let p_nm = opt_str_member(m, "request_param_nm");
    let p_en = opt_str_member(m, "request_param_nm_en");
    match (list_title, title, desc, keywords, org_nm, cat, url, fmt, conf, charged, cnt, upd, op_nm,
        op_seq, p_nm, p_en) {
        (
            Ok(list_title),
            Ok(title),
            Ok(desc),
            Ok(keywords),
            Ok(org_nm),
            Ok(new_category_nm),
            Ok(end_point_url),
            Ok(data_format),
            Ok(is_confirmed_for_dev),
            Ok(is_charged),
            Ok(request_cnt),
            Ok(updated_at),
            Ok(operation_nm),
            Ok(operation_seq),
            Ok(request_param_nm),
            Ok(request_param_nm_en),
        ) => Some(
            MetaApiEntry {
                list_id,
                list_title,
                title,
                desc,
                keywords,
                org_nm,
                new_category_nm,
                end_point_url,
                data_format,
                is_confirmed_for_dev,
                is_charged,
                request_cnt,
                updated_at,
                operation_nm,
                operation_seq,
                request_param_nm,
                request_param_nm_en,
            },
        ),
        _ => None,
    }
}


// ---------------------------------------------------------------------------
// Grouping records into services
// ---------------------------------------------------------------------------

/// Index of the first group whose id is `id`.
pub open spec fn find_group(g: Seq<(Seq<char>, Seq<int>)>, id: Seq<char>) -> Option<int>
    decreases g.len(),
{
    if g.len() == 0 {
        None
    } else if g[0].0 == id {
        Some(0)
    } else {
        match find_group(g.drop_first(), id) {
            Some(k) => Some(k + 1),
            None => None,
        }
    }
}

/// The records grouped by `list_id`: groups in order of first appearance, each holding the
/// indices of its records in order.
pub open spec fn group_by_id(entries: Seq<MetaApiEntryV>) -> Seq<(Seq<char>, Seq<int>)>
    decreases entries.len(),
{
    if entries.len() == 0 {
        Seq::empty()
    } else {
        let g = group_by_id(entries.drop_last());
        let n = entries.len() - 1;
        let id = entries[n].list_id;
        match find_group(g, id) {
            Some(k) => g.update(k, (id, g[k].1.push(n))),
            None => g.push((id, seq![n])),
        }
    }
}

pub open spec fn or_empty(o: Option<Seq<char>>) -> Seq<char> {
    match o {
        Some(s) => s,
        None => Seq::empty(),
    }
}

/// The operation summary of one record.
pub open spec fn operation_of(e: MetaApiEntryV) -> OperationSummaryV {
    OperationSummaryV {
        id: or_empty(e.operation_seq),
        name: or_empty(e.operation_nm),
        request_params: quoted_csv_items(or_empty(e.request_param_nm)),
        request_params_en: csv_items(or_empty(e.request_param_nm_en)),
    }
}

/// The service of a group: descriptive fields from its first record, one operation per
/// record.
pub open spec fn service_of(entries: Seq<MetaApiEntryV>, members: Seq<int>) -> ApiServiceV {
    let first = entries[members[0]];
    ApiServiceV {
        list_id: first.list_id,
        title: or_empty(first.list_title),
        description: or_empty(first.desc),
        keywords: csv_items(or_empty(first.keywords)),
        org_name: or_empty(first.org_nm),
        category: or_empty(first.new_category_nm),
        endpoint_url: or_empty(first.end_point_url),
        data_format: or_empty(first.data_format),
        auto_approve: first.is_confirmed_for_dev == Some("Y"@),
        is_free: first.is_charged == Some("무료"@),
        request_count: match first.request_cnt {
            Some(c) => c,
            None => 0,
        },
        updated_at: or_empty(first.updated_at),
        operations: members.map_values(|k: int| operation_of(entries[k])),
    }
}

/// The services described by a meta-API response.
pub open spec fn meta_services(json: JsonV) -> Result<Seq<ApiServiceV>, MetaError> {
    match jget(json, "data"@) {
        None => Err(MetaError::MissingData),
        Some(JsonV::Array(items)) => match meta_entries(items) {
            Err(e) => Err(e),
            Ok(es) => Ok(group_by_id(es).map_values(|g: (Seq<char>, Seq<int>)| service_of(es, g.1))),
        },
        Some(_) => Err(MetaError::DataNotArray),
    }
}

pub open spec fn group_views(g: Seq<(String, Vec<usize>)>) -> Seq<(Seq<char>, Seq<int>)> {
    g.map_values(|x: (String, Vec<usize>)| (x.0@, x.1@.map_values(|k: usize| k as int)))
}

proof fn lemma_find_group(g: Seq<(Seq<char>, Seq<int>)>, id: Seq<char>, j: int)
    requires
        0 <= j <= g.len(),
        forall|k: int| 0 <= k < j ==> g[k].0 != id,
    ensures
        j < g.len() && g[j].0 == id ==> find_group(g, id) == Some(j),
        j == g.len() ==> find_group(g, id) is None,
    decreases j,
{
    if j > 0 {
        lemma_find_group(g.drop_first(), id, j - 1);
    } else if g.len() > 0 && g[0].0 != id {
    }
}

proof fn lemma_find_group_range(g: Seq<(Seq<char>, Seq<int>)>, id: Seq<char>)
    ensures
        find_group(g, id) matches Some(k) ==> 0 <= k < g.len() && g[k].0 == id,
    decreases g.len(),
{
    if g.len() > 0 {
        lemma_find_group_range(g.drop_first(), id);
    }
}

/// Groups of record indices by list id, in order of first appearance.
fn group_entries(entries: &Vec<MetaApiEntry>) -> (r: Vec<(String, Vec<usize>)>)
    ensures
        group_views(r@) == group_by_id(entries@.map_values(|e: MetaApiEntry| e@)),
        forall|k: int| 0 <= k < r@.len() ==> (#[trigger] r@[k]).1@.len() > 0,
        forall|k: int, j: int|
            0 <= k < r@.len() && 0 <= j < r@[k].1@.len() ==> #[trigger] r@[k].1@[j] < entries@.len(),
{
    let ghost ev = entries@.map_values(|e: MetaApiEntry| e@);
    let mut groups: Vec<(String, Vec<usize>)> = Vec::new();
    let mut i: usize = 0;
    assert(group_views(groups@) =~= group_by_id(ev.take(0)));
    while i < entries.len()
        invariant
            i <= entries@.len(),
            ev == entries@.map_values(|e: MetaApiEntry| e@),
            group_views(groups@) == group_by_id(ev.take(i as int)),
            forall|k: int| 0 <= k < groups@.len() ==> (#[trigger] groups@[k]).1@.len() > 0,
            forall|k: int, j: int|
                0 <= k < groups@.len() && 0 <= j < groups@[k].1@.len() ==> #[trigger] groups@[k].1@[j]
                    < i,
        decreases entries@.len() - i,
    {
        let id = &entries[i].list_id;
        let ghost gv = group_views(groups@);
        let ghost pre = ev.take(i as int);
        assert(ev.take(i + 1).drop_last() =~= pre);
        assert(ev.take(i + 1)[i as int].list_id == id@);
        let mut j: usize = 0;
        while j < groups.len() && groups[j].0 != *id
            invariant
                j <= groups@.len(),
                gv == group_views(groups@),
                forall|k: int| 0 <= k < j ==> gv[k].0 != id@,
            decreases groups@.len() - j,
        {
            j = j + 1;
        }
        proof {
            lemma_find_group(gv, id@, j as int);
        }
        if j < groups.len() {
            let ghost old_m = groups@[j as int].1@;
            let ghost old_groups = groups@;
            let mut members = groups[j].1.clone();
            assert(members@ == groups@[j as int].1@);
            members.push(i);
            let key = groups[j].0.clone();
            proof {
                assert(members@.map_values(|k: usize| k as int) =~= gv[j as int].1.push(i as int));
                assert(key@ == id@);
            }
            groups.set(j, (key, members));
            proof {
                assert(group_views(groups@) =~= gv.update(j as int, (id@, gv[j as int].1.push(i as int))));
                assert forall|k: int, jj: int|
                    0 <= k < groups@.len() && 0 <= jj < groups@[k].1@.len() implies #[trigger] groups@[k].1@[jj]
                        < i + 1 by {
                    if k != j {
                        assert(groups@[k] == old_groups[k]);
                    } else if jj < old_m.len() {
                        assert(groups@[k].1@[jj] == old_m[jj]);
                        assert(old_groups[k].1@[jj] == old_m[jj]);
                    }
                }
            }
        } else {
            let mut members: Vec<usize> = Vec::new();
            members.push(i);
            proof {
                assert(members@.map_values(|k: usize| k as int) =~= seq![i as int]);
            }
            groups.push((id.clone(), members));
            proof {
                assert(group_views(groups@) =~= gv.push((id@, seq![i as int])));
            }
        }
        i = i + 1;
    }
    assert(ev.take(entries@.len() as int) =~= ev);
    groups
}


fn string_or_empty(o: &Option<String>) -> (r: String)
    ensures
        r@ == or_empty(opt_string_view(*o)),
{
    match o {
        Some(s) => s.clone(),
        None => String::new(),
    }
}

/// Parse a comma-separated string: `"사업자,국세청"` gives `["사업자", "국세청"]`; items are
/// trimmed and empty items dropped.
pub fn parse_csv(s: &Option<String>) -> (r: Vec<String>)
    ensures
        string_views(r@) == csv_items(or_empty(opt_string_view(*s))),
{
    let text = string_or_empty(s);
    split_csv(chars_of(text.as_str()).as_slice(), false)
}

/// Parse a quoted comma-separated string: `"\"사업자등록번호\",\"개업일자\""` gives
/// `["사업자등록번호", "개업일자"]`; items are trimmed, stripped of surrounding quotes and
/// empty items dropped.
pub fn parse_quoted_csv(s: &Option<String>) -> (r: Vec<String>)
    ensures
        string_views(r@) == quoted_csv_items(or_empty(opt_string_view(*s))),
{
    let text = string_or_empty(s);
    split_csv(chars_of(text.as_str()).as_slice(), true)
}

fn build_operation(e: &MetaApiEntry) -> (r: OperationSummary)
    ensures
        r@ == operation_of(e@),
{
    OperationSummary {
        id: string_or_empty(&e.operation_seq),
        name: string_or_empty(&e.operation_nm),
        request_params: parse_quoted_csv(&e.request_param_nm),
        request_params_en: parse_csv(&e.request_param_nm_en),
    }
}

fn opt_equals(o: &Option<String>, lit: &str) -> (r: bool)
    ensures
        r == (opt_string_view(*o) == Some(lit@)),
{
    match o {
        Some(s) => {
            let l = string_from_chars(chars_of(lit).as_slice());
            *s == l
        },
        None => false,
    }
}

fn build_service(entries: &Vec<MetaApiEntry>, members: &Vec<usize>) -> (r: ApiService)
    requires
        members@.len() > 0,
        forall|j: int| 0 <= j < members@.len() ==> #[trigger] members@[j] < entries@.len(),
    ensures
        r@ == service_of(
            entries@.map_values(|e: MetaApiEntry| e@),
            members@.map_values(|k: usize| k as int),
        ),
{
    let ghost ev = entries@.map_values(|e: MetaApiEntry| e@);
    let ghost mv = members@.map_values(|k: usize| k as int);
    let first = &entries[members[0]];
    let mut operations: Vec<OperationSummary> = Vec::new();
    let mut j: usize = 0;
    while j < members.len()
        invariant
            j <= members@.len(),
            ev == entries@.map_values(|e: MetaApiEntry| e@),
            mv == members@.map_values(|k: usize| k as int),
            forall|q: int| 0 <= q < members@.len() ==> #[trigger] members@[q] < entries@.len(),
            operations@.map_values(|o: OperationSummary| o@) == mv.take(j as int).map_values(
                |k: int| operation_of(ev[k]),
            ),
        decreases members@.len() - j,
    {
        let op = build_operation(&entries[members[j]]);
        let ghost before = operations@.map_values(|o: OperationSummary| o@);
        operations.push(op);
        proof {
            assert(operations@.map_values(|o: OperationSummary| o@) =~= before.push(op@));
            assert(mv.take(j + 1).map_values(|k: int| operation_of(ev[k])) =~= mv.take(
                j as int,
            ).map_values(|k: int| operation_of(ev[k])).push(operation_of(ev[members@[j as int] as int])));
        }
        j = j + 1;
    }
    assert(mv.take(members@.len() as int) =~= mv);
    let r = ApiService {
        list_id: first.list_id.clone(),
        title: string_or_empty(&first.list_title),
        description: string_or_empty(&first.desc),
        keywords: parse_csv(&first.keywords),
        org_name: string_or_empty(&first.org_nm),
        category: string_or_empty(&first.new_category_nm),
        endpoint_url: string_or_empty(&first.end_point_url),
        data_format: string_or_empty(&first.data_format),
        auto_approve: opt_equals(&first.is_confirmed_for_dev, "Y"),
        is_free: opt_equals(&first.is_charged, "무료"),
        request_count: match first.request_cnt {
            Some(c) => c,
            None => 0,
        },
        updated_at: string_or_empty(&first.updated_at),
        operations,
    };
    assert(ev[mv[0]] == first@);
    r
}

/// Parse a meta-API JSON response and group its records (one per operation) into services
/// by `list_id`, in order of first appearance.
pub fn parse_meta_response(json: &Json) -> (r: Result<Vec<ApiService>, MetaError>)
    ensures
        match meta_services(json@) {
            Ok(svcs) => r matches Ok(v) && v@.map_values(|s: ApiService| s@) == svcs,
            Err(e) => r == Err::<Vec<ApiService>, MetaError>(e),
        },
{
    let data = match json.get("data") {
        Some(d) => d,
        None => {
            return Err(MetaError::MissingData);
        },
    };
    let items = match data {
        Json::Array(items) => items,
        _ => {
            return Err(MetaError::DataNotArray);
        },
    };
    proof {
        lemma_array_elems(*items);
    }
    let ghost iv = elems_view(items@);
    assert(jget(json@, "data"@) == Some(JsonV::Array(iv)));
    let mut entries: Vec<MetaApiEntry> = Vec::new();
    let mut i: usize = 0;
    assert(iv.take(0) =~= Seq::<JsonV>::empty());
    assert(entries@.map_values(|e: MetaApiEntry| e@) =~= Seq::<MetaApiEntryV>::empty());
    while i < items.len()
        invariant
            i <= items@.len(),
            iv == elems_view(items@),
            jget(json@, "data"@) == Some(JsonV::Array(iv)),
            meta_entries(iv.take(i as int)) == Ok::<Seq<MetaApiEntryV>, MetaError>(
                entries@.map_values(|e: MetaApiEntry| e@),
            ),
        decreases items@.len() - i,
    {
        assert(iv.take(i + 1).drop_last() =~= iv.take(i as int));
        assert(iv.take(i + 1).last() == items@[i as int]@);
        match decode_meta_entry(&items[i]) {
            Some(e) => {
                let ghost before = entries@.map_values(|e: MetaApiEntry| e@);
                entries.push(e);
                assert(entries@.map_values(|e: MetaApiEntry| e@) =~= before.push(e@));
            },
            None => {
                proof {
                    assert(meta_entries(iv.take(i + 1)) == Err::<Seq<MetaApiEntryV>, MetaError>(
                        MetaError::InvalidEntry(i),
                    ));
                    lemma_meta_entries_err_prefix(iv, (i + 1) as int);
                }
                return Err(MetaError::InvalidEntry(i));
            },
        }
        i = i + 1;
    }
    assert(iv.take(items@.len() as int) =~= iv);
    let ghost ev = entries@.map_values(|e: MetaApiEntry| e@);
    let groups = group_entries(&entries);
    let mut services: Vec<ApiService> = Vec::new();
    let mut k: usize = 0;
    while k < groups.len()
        invariant
            k <= groups@.len(),
            ev == entries@.map_values(|e: MetaApiEntry| e@),
            group_views(groups@) == group_by_id(ev),
            forall|q: int| 0 <= q < groups@.len() ==> (#[trigger] groups@[q]).1@.len() > 0,
            forall|q: int, j: int|
                0 <= q < groups@.len() && 0 <= j < groups@[q].1@.len() ==> #[trigger] groups@[q].1@[j]
                    < entries@.len(),
            services@.map_values(|s: ApiService| s@) == group_by_id(ev).take(k as int).map_values(
                |g: (Seq<char>, Seq<int>)| service_of(ev, g.1),
            ),
        decreases groups@.len() - k,
    {
        let svc = build_service(&entries, &groups[k].1);
        let ghost before = services@.map_values(|s: ApiService| s@);
        services.push(svc);
        proof {
            assert(services@.map_values(|s: ApiService| s@) =~= before.push(svc@));
            let gb = group_by_id(ev);
            assert(gb[k as int] == group_views(groups@)[k as int]);
            assert(gb.take(k + 1).map_values(|g: (Seq<char>, Seq<int>)| service_of(ev, g.1)) =~= gb.take(
                k as int,
            ).map_values(|g: (Seq<char>, Seq<int>)| service_of(ev, g.1)).push(service_of(ev, gb[k as int].1)));
        }
        k = k + 1;
    }
    assert(group_by_id(ev).take(groups@.len() as int) =~= group_by_id(ev));
    Ok(services)
}

/// Once a prefix of the records fails to decode, the whole list fails with the same error.
proof fn lemma_meta_entries_err_prefix(items: Seq<JsonV>, n: int)
    requires
        0 <= n <= items.len(),
        meta_entries(items.take(n)) is Err,
    ensures
        meta_entries(items) == meta_entries(items.take(n)),
    decreases items.len() - n,
{
    if n < items.len() {
        assert(items.take(n + 1).drop_last() =~= items.take(n));
        lemma_meta_entries_err_prefix(items, n + 1);
    } else {
        assert(items.take(n) =~= items);
    }
}

// ---------------------------------------------------------------------------
// Laws of the search
// ---------------------------------------------------------------------------

/// Scores never increase along `s`.
pub open spec fn sorted_by_score(s: Seq<(int, int)>) -> bool {
    forall|i: int, j: int| 0 <= i < j < s.len() ==> #[trigger] s[i].0 >= #[trigger] s[j].0
}

/// Among equal scores, positions (second components) increase along `s`.
pub open spec fn ties_in_order(s: Seq<(int, int)>) -> bool {
    forall|i: int, j: int| 0 <= i < j < s.len() && #[trigger] s[i].0 == #[trigger] s[j].0 ==> s[i].1 < s[j].1
}

/// Positions (second components) increase along `s`.
pub open spec fn positions_increase(s: Seq<(int, int)>) -> bool {
    forall|i: int, j: int| 0 <= i < j < s.len() ==> #[trigger] s[i].1 < #[trigger] s[j].1
}

proof fn lemma_insert_pos_facts(s: Seq<(int, int)>, score: int)
    ensures
        insert_pos(s, score) <= s.len(),
        forall|k: int| 0 <= k < insert_pos(s, score) ==> #[trigger] s[k].0 >= score,
        insert_pos(s, score) < s.len() ==> s[insert_pos(s, score) as int].0 < score,
    decreases s.len(),
{
    if s.len() > 0 {
        lemma_insert_pos_facts(s.drop_first(), score);
        if s[0].0 >= score {
            assert forall|k: int| 0 <= k < insert_pos(s, score) implies #[trigger] s[k].0 >= score by {
                if k > 0 {
                    assert(s[k] == s.drop_first()[k - 1]);
                }
            }
        }
    }
}

/// `sort_desc` keeps the elements, orders them by descending score, and keeps the order of
/// equal scores.
pub proof fn lemma_sort_desc_facts(s: Seq<(int, int)>)
    ensures
        sort_desc(s).len() == s.len(),
        sorted_by_score(sort_desc(s)),
        forall|k: int| 0 <= k < s.len() ==> exists|j: int| 0 <= j < s.len() && #[trigger] sort_desc(s)[k] == s[j],
        positions_increase(s) ==> ties_in_order(sort_desc(s)),
    decreases s.len(),
{
    if s.len() > 0 {
        let t = s.drop_last();
        let sorted = sort_desc(t);
        let x = s.last();
        lemma_sort_desc_facts(t);
        lemma_insert_pos_facts(sorted, x.0);
        let p = insert_pos(sorted, x.0) as int;
        let r = sorted.insert(p, x);
        assert(r == sort_desc(s));
        assert forall|k: int| 0 <= k < r.len() implies #[trigger] r[k] == (if k < p {
            sorted[k]
        } else if k == p {
            x
        } else {
            sorted[k - 1]
        }) by {}
        assert forall|i: int, j: int| 0 <= i < j < r.len() implies #[trigger] r[i].0 >= #[trigger] r[j].0 by {
            if j < p {
            } else if j == p {
                assert(sorted[i].0 >= x.0);
            } else if i < p {
                assert(sorted[i].0 >= sorted[j - 1].0);
            } else if i == p {
                assert(sorted[p].0 < x.0);
                if p < j - 1 {
                    assert(sorted[p].0 >= sorted[j - 1].0);
                }
            } else {
                assert(sorted[i - 1].0 >= sorted[j - 1].0);
            }
        }
        assert forall|k: int| 0 <= k < s.len() implies exists|j: int| 0 <= j < s.len() && #[trigger] r[k] == s[j] by {
            if k == p {
                assert(r[k] == s[s.len() - 1]);
            } else {
                let kk = if k < p {
                    k
                } else {
                    k - 1
                };
                assert(r[k] == sorted[kk]);
                let j = choose|j: int| 0 <= j < t.len() && #[trigger] sorted[kk] == t[j];
                assert(r[k] == s[j]);
            }
        }
        if positions_increase(s) {
            assert forall|i: int, j: int| 0 <= i < j < t.len() implies #[trigger] t[i].1 < #[trigger] t[j].1 by {
                assert(t[i] == s[i] && t[j] == s[j]);
            }
            assert forall|k: int| 0 <= k < sorted.len() implies #[trigger] sorted[k].1 < x.1 by {
                let j = choose|j: int| 0 <= j < t.len() && #[trigger] sorted[k] == t[j];
                assert(t[j] == s[j]);
                assert(s[j].1 < s[s.len() - 1].1);
            }
            assert forall|i: int, j: int| 0 <= i < j < r.len() && #[trigger] r[i].0 == #[trigger] r[j].0 implies r[i].1 < r[j].1 by {
                if j < p {
                } else if j == p {
                    assert(sorted[i].1 < x.1);
                } else if i < p {
                } else if i == p {
                    assert(sorted[p].0 < x.0);
                    if p < j - 1 {
                        assert(sorted[p].0 >= sorted[j - 1].0);
                    }
                    assert(false);
                } else {
                }
            }
        }
    } else {
        assert(sort_desc(s) == s);
    }
}

proof fn lemma_sort_desc_multiset(s: Seq<(int, int)>)
    ensures
        sort_desc(s).to_multiset() == s.to_multiset(),
    decreases s.len(),
{
    if s.len() > 0 {
        let t = s.drop_last();
        lemma_sort_desc_multiset(t);
        lemma_insert_pos_bound(sort_desc(t), s.last().0);
        lemma_sort_desc_len(t);
        vstd::seq_lib::to_multiset_insert(sort_desc(t), insert_pos(sort_desc(t), s.last().0) as int, s.last());
        vstd::seq_lib::to_multiset_build(t, s.last());
        assert(t.push(s.last()) =~= s);
    }
}

/// `order_desc` is a permutation of the indices of `scores`: each index once.
pub proof fn lemma_order_desc_permutation(scores: Seq<u128>)
    ensures
        order_desc(scores).len() == scores.len(),
        forall|k: int| 0 <= k < scores.len() ==> 0 <= #[trigger] order_desc(scores)[k] < scores.len(),
        forall|k1: int, k2: int|
            0 <= k1 < scores.len() && 0 <= k2 < scores.len() && k1 != k2 ==> #[trigger] order_desc(scores)[k1]
                != #[trigger] order_desc(scores)[k2],
        forall|j: int| 0 <= j < scores.len() ==> #[trigger] order_desc(scores).contains(j),
{
    let s = indexed(scores);
    let sd = sort_desc(s);
    let o = order_desc(scores);
    lemma_sort_desc_facts(s);
    lemma_sort_desc_multiset(s);
    assert forall|k: int| 0 <= k < scores.len() implies 0 <= #[trigger] o[k] < scores.len() by {
        let j = choose|j: int| 0 <= j < s.len() && #[trigger] sd[k] == s[j];
    }
    assert(s.no_duplicates()) by {
        assert forall|i: int, j: int| 0 <= i < s.len() && 0 <= j < s.len() && i != j implies s[i] != s[j] by {
            assert(s[i].1 == i && s[j].1 == j);
        }
    }
    s.lemma_multiset_has_no_duplicates();
    sd.lemma_multiset_has_no_duplicates_conv();
    assert forall|k1: int, k2: int|
        0 <= k1 < scores.len() && 0 <= k2 < scores.len() && k1 != k2 implies #[trigger] o[k1] != #[trigger] o[k2] by {
        let j1 = choose|j: int| 0 <= j < s.len() && #[trigger] sd[k1] == s[j];
        let j2 = choose|j: int| 0 <= j < s.len() && #[trigger] sd[k2] == s[j];
        assert(sd[k1] != sd[k2]);
    }
    assert forall|j: int| 0 <= j < scores.len() implies #[trigger] o.contains(j) by {
        vstd::seq_lib::to_multiset_contains(s, s[j]);
        vstd::seq_lib::to_multiset_contains(sd, s[j]);
        assert(s.contains(s[j]));
        assert(sd.contains(s[j]));
        let k = choose|k: int| 0 <= k < sd.len() && sd[k] == s[j];
        assert(o[k] == j);
    }
}

proof fn lemma_candidates_facts(
    catalog: Seq<CatalogEntryV>,
    terms: Seq<Seq<char>>,
    category: Option<Seq<char>>,
    n: int,
)
    requires
        n <= catalog.len(),
    ensures
        positions_increase(candidates(catalog, terms, category, n)),
        forall|k: int|
            #![trigger candidates(catalog, terms, category, n)[k]]
            0 <= k < candidates(catalog, terms, category, n).len() ==> {
                let c = candidates(catalog, terms, category, n)[k];
                &&& 0 <= c.1 < n
                &&& passes_category(catalog[c.1], category)
                &&& count_contained(terms, searchable(catalog[c.1])) > 0
                &&& c.0 == score(catalog[c.1], terms)
            },
    decreases n,
{
    if n > 0 {
        lemma_candidates_facts(catalog, terms, category, n - 1);
    }
}

proof fn lemma_contains_in_concat(a: Seq<char>, b: Seq<char>, t: Seq<char>)
    ensures
        contains(a, t) ==> contains(a + b, t),
        contains(b, t) ==> contains(a + b, t),
{
    if contains(a, t) {
        let i = choose|i: int| occurs_at(a, t, i);
        assert((a + b).subrange(i, i + t.len()) =~= a.subrange(i, i + t.len()));
        assert(occurs_at(a + b, t, i));
    }
    if contains(b, t) {
        let i = choose|i: int| occurs_at(b, t, i);
        assert((a + b).subrange(a.len() + i, a.len() + i + t.len()) =~= b.subrange(i, i + t.len()));
        assert(occurs_at(a + b, t, a.len() + i));
    }
}

proof fn lemma_count_contained_positive(terms: Seq<Seq<char>>, hay: Seq<char>, t: int)
    requires
        0 <= t < terms.len(),
        contains(hay, terms[t]),
    ensures
        count_contained(terms, hay) > 0,
    decreases terms.len(),
{
    if t < terms.len() - 1 {
        assert(terms.drop_last()[t] == terms[t]);
        lemma_count_contained_positive(terms.drop_last(), hay, t);
    }
}

proof fn lemma_candidate_listed(
    catalog: Seq<CatalogEntryV>,
    terms: Seq<Seq<char>>,
    category: Option<Seq<char>>,
    n: int,
    e: int,
)
    requires
        0 <= e < n <= catalog.len(),
        passes_category(catalog[e], category),
        count_contained(terms, searchable(catalog[e])) > 0,
    ensures
        candidates(catalog, terms, category, n).contains((score(catalog[e], terms), e)),
    decreases n,
{
    let c = candidates(catalog, terms, category, n);
    if e == n - 1 {
        assert(c[c.len() - 1] == (score(catalog[e], terms), e));
    } else {
        lemma_candidate_listed(catalog, terms, category, n - 1, e);
        let c0 = candidates(catalog, terms, category, n - 1);
        let j = choose|j: int| 0 <= j < c0.len() && c0[j] == (score(catalog[e], terms), e);
        assert(c[j] == c0[j]);
    }
}

/// A term finds an entry through any of the fields searched: an entry that passes the
/// category filter is among the search results whenever some term of the query occurs in
/// its lowercased title, description, space-joined keywords or organisation name.
pub proof fn law_search_finds_each_field(catalog: Seq<CatalogEntryV>, query: Seq<char>, category: Option<Seq<char>>, e: int, t: int)
    requires
        0 <= e < catalog.len(),
        passes_category(catalog[e], category),
        0 <= t < query_terms(query).len(),
        contains(lowercase(catalog[e].title), query_terms(query)[t])
            || contains(lowercase(catalog[e].description), query_terms(query)[t])
            || contains(lowercase(join(catalog[e].keywords, " "@)), query_terms(query)[t])
            || contains(lowercase(catalog[e].org_name), query_terms(query)[t]),
    ensures
        exists|k: int| 0 <= k < ranked(catalog, query, category).len() && #[trigger] ranked(catalog, query, category)[k].1 == e,
{
    let x = catalog[e];
    let w = query_terms(query)[t];
    let s1 = lowercase(x.title) + " "@;
    let s2 = s1 + lowercase(x.description);
    let s3 = s2 + " "@;
    let s4 = s3 + lowercase(join(x.keywords, " "@));
    let s5 = s4 + " "@;
    let s6 = s5 + lowercase(x.org_name);
    assert(searchable(x) == s6);
    lemma_contains_in_concat(lowercase(x.title), " "@, w);
    lemma_contains_in_concat(s1, lowercase(x.description), w);
    lemma_contains_in_concat(s2, " "@, w);
    lemma_contains_in_concat(s3, lowercase(join(x.keywords, " "@)), w);
    lemma_contains_in_concat(s4, " "@, w);
    lemma_contains_in_concat(s5, lowercase(x.org_name), w);
    assert(contains(searchable(x), w));
    lemma_count_contained_positive(query_terms(query), searchable(x), t);
    let terms = query_terms(query);
    let c = candidates(catalog, terms, category, catalog.len() as int);
    lemma_candidate_listed(catalog, terms, category, catalog.len() as int, e);
    let item = (score(x, terms), e);
    lemma_sort_desc_multiset(c);
    vstd::seq_lib::to_multiset_contains(c, item);
    vstd::seq_lib::to_multiset_contains(sort_desc(c), item);
    let r = ranked(catalog, query, category);
    assert(r == sort_desc(c));
    assert(r.contains(item));
    let k = choose|k: int| 0 <= k < r.len() && r[k] == item;
    assert(r[k].1 == e);
}

/// Search results come best score first, and entries with equal scores keep their catalog
/// order.
pub proof fn law_search_ranked_by_score(catalog: Seq<CatalogEntryV>, query: Seq<char>, category: Option<Seq<char>>)
    ensures
        forall|i: int, j: int|
            0 <= i < j < ranked(catalog, query, category).len() ==> #[trigger] ranked(catalog, query, category)[i].0
                >= #[trigger] ranked(catalog, query, category)[j].0,
        forall|i: int, j: int|
            0 <= i < j < ranked(catalog, query, category).len() && #[trigger] ranked(catalog, query, category)[i].0
                == #[trigger] ranked(catalog, query, category)[j].0 ==> ranked(catalog, query, category)[i].1
                < ranked(catalog, query, category)[j].1,
{
    let c = candidates(catalog, query_terms(query), category, catalog.len() as int);
    lemma_candidates_facts(catalog, query_terms(query), category, catalog.len() as int);
    lemma_sort_desc_facts(c);
}

/// The ASCII case of a query does not matter: two queries that differ only in the case of
/// their ASCII letters rank the catalog alike. (Each query's lowering is its ASCII lowering,
/// as `to_lowercase` gives for text of ASCII and Hangul characters and
/// `search_bundle_catalog` reports.)
pub proof fn law_search_ignores_ascii_case(
    catalog: Seq<CatalogEntryV>,
    q1: Seq<char>,
    q2: Seq<char>,
    category: Option<Seq<char>>,
)
    requires
        eq_ignore_ascii_case(q1, q2),
        is_ascii_lowering(q1, lowercase(q1)),
        is_ascii_lowering(q2, lowercase(q2)),
    ensures
        ranked(catalog, q1, category) == ranked(catalog, q2, category),
{
    lemma_ascii_lowering_unique(q1, q2, lowercase(q1), lowercase(q2));
}

/// Every search result passes the category filter, matches at least one query term, and
/// carries its score: 100 per matched term plus the entry's request count.
pub proof fn law_search_results_match(catalog: Seq<CatalogEntryV>, query: Seq<char>, category: Option<Seq<char>>)
    ensures
        forall|k: int|
            #![trigger ranked(catalog, query, category)[k]]
            0 <= k < ranked(catalog, query, category).len() ==> {
                let e = ranked(catalog, query, category)[k];
                &&& 0 <= e.1 < catalog.len()
                &&& passes_category(catalog[e.1], category)
                &&& count_contained(query_terms(query), searchable(catalog[e.1])) > 0
                &&& e.0 == 100 * count_contained(query_terms(query), searchable(catalog[e.1]))
                    + catalog[e.1].request_count
            },
{
    let terms = query_terms(query);
    let c = candidates(catalog, terms, category, catalog.len() as int);
    lemma_candidates_facts(catalog, terms, category, catalog.len() as int);
    lemma_sort_desc_facts(c);
    assert forall|k: int|
        #![trigger ranked(catalog, query, category)[k]]
        0 <= k < ranked(catalog, query, category).len() implies {
            let e = ranked(catalog, query, category)[k];
            &&& 0 <= e.1 < catalog.len()
            &&& passes_category(catalog[e.1], category)
            &&& count_contained(terms, searchable(catalog[e.1])) > 0
            &&& e.0 == 100 * count_contained(terms, searchable(catalog[e.1])) + catalog[e.1].request_count
        } by {
        let j = choose|j: int| 0 <= j < c.len() && #[trigger] sort_desc(c)[k] == c[j];
        assert(c[j] == candidates(catalog, terms, category, catalog.len() as int)[j]);
    }
}

// ---------------------------------------------------------------------------
// Paging through the meta API and merging its pages
// ---------------------------------------------------------------------------

/// Records per page requested from the meta API.
pub const META_PAGE_SIZE: u64 = 1000;

/// The address of one page of the meta API.
pub open spec fn meta_page_url(page: u64, per_page: u64) -> Seq<char> {
    "https://api.odcloud.kr/api/15077093/v1/open-data-list?page="@ + crate::gateway::decimal(page as nat)
        + "&perPage="@ + crate::gateway::decimal(per_page as nat)
}

/// The address of page `page` of the meta API.
pub fn meta_page_address(page: u64, per_page: u64) -> (r: String)
    ensures
        r@ == meta_page_url(page, per_page),
{
    let mut out = chars_of("https://api.odcloud.kr/api/15077093/v1/open-data-list?page=");
    let mut p = crate::gateway::decimal_chars(page);
    out.append(&mut p);
    let mut mid = chars_of("&perPage=");
    out.append(&mut mid);
    let mut q = crate::gateway::decimal_chars(per_page);
    out.append(&mut q);
    string_from_chars(out.as_slice())
}

/// A page's `totalCount` and `currentCount` (0 when missing or not unsigned integers).
pub open spec fn page_counts(json: JsonV) -> (u64, u64) {
    (
        match jget(json, "totalCount"@) {
            Some(v) => match crate::json::ju64(v) {
                Some(n) => n,
                None => 0,
            },
            None => 0,
        },
        match jget(json, "currentCount"@) {
            Some(v) => match crate::json::ju64(v) {
                Some(n) => n,
                None => 0,
            },
            None => 0,
        },
    )
}

/// Read a page's total and current record counts.
pub fn meta_page_counts(json: &Json) -> (r: (u64, u64))
    ensures
        r == page_counts(json@),
{
    let total = match json.get("totalCount") {
        Some(v) => match v.as_u64() {
            Some(n) => n,
            None => 0,
        },
        None => 0,
    };
    let current = match json.get("currentCount") {
        Some(v) => match v.as_u64() {
            Some(n) => n,
            None => 0,
        },
        None => 0,
    };
    (total, current)
}

/// Whether another page follows page `page`: the page was not empty and the pages so far
/// do not cover the total.
pub open spec fn more_pages(page: u64, per_page: u64, current_count: u64, total_count: u64) -> bool {
    !(current_count == 0 || page * per_page >= total_count)
}

/// Decide whether to request the page after `page`.
pub fn has_next_page(page: u64, per_page: u64, current_count: u64, total_count: u64) -> (r: bool)
    ensures
        r == more_pages(page, per_page, current_count, total_count),
{
    if current_count == 0 {
        return false;
    }
    proof {
        assert((page as int) * (per_page as int) <= 0xffff_ffff_ffff_ffffint * 0xffff_ffff_ffff_ffffint)
            by (nonlinear_arith)
            requires
                page <= 0xffff_ffff_ffff_ffffint,
                per_page <= 0xffff_ffff_ffff_ffffint,
        ;
    }
    let covered: u128 = page as u128 * per_page as u128;
    !(covered >= total_count as u128)
}

/// The ids of operations.
pub open spec fn op_ids(ops: Seq<OperationSummaryV>) -> Seq<Seq<char>> {
    ops.map_values(|o: OperationSummaryV| o.id)
}

/// Operations `new` added to `existing`, each unless an operation with its id is there.
pub open spec fn merge_ops(existing: Seq<OperationSummaryV>, new: Seq<OperationSummaryV>) -> Seq<OperationSummaryV>
    decreases new.len(),
{
    if new.len() == 0 {
        existing
    } else {
        let r = merge_ops(existing, new.drop_last());
        if op_ids(r).contains(new.last().id) {
            r
        } else {
            r.push(new.last())
        }
    }
}

/// Position of the first service with `list_id`.
pub open spec fn service_index(acc: Seq<ApiServiceV>, list_id: Seq<char>) -> Option<int>
    decreases acc.len(),
{
    if acc.len() == 0 {
        None
    } else {
        match service_index(acc.drop_last(), list_id) {
            Some(k) => Some(k),
            None => if acc.last().list_id == list_id {
                Some(acc.len() - 1)
            } else {
                None
            },
        }
    }
}

/// A service merged into those gathered so far: a new list id is appended; a known one
/// gains the operations it did not have.
pub open spec fn merge_into(acc: Seq<ApiServiceV>, svc: ApiServiceV) -> Seq<ApiServiceV> {
    match service_index(acc, svc.list_id) {
        Some(k) => acc.update(k, ApiServiceV { operations: merge_ops(acc[k].operations, svc.operations), ..acc[k] }),
        None => acc.push(svc),
    }
}

/// The services of all pages, one per list id in order of first appearance.
pub open spec fn merged_services(services: Seq<ApiServiceV>) -> Seq<ApiServiceV>
    decreases services.len(),
{
    if services.len() == 0 {
        Seq::empty()
    } else {
        merge_into(merged_services(services.drop_last()), services.last())
    }
}

fn copy_op(o: &OperationSummary) -> (r: OperationSummary)
    ensures
        r@ == o@,
{
    OperationSummary {
        id: o.id.clone(),
        name: o.name.clone(),
        request_params: crate::text::copy_string_list(&o.request_params),
        request_params_en: crate::text::copy_string_list(&o.request_params_en),
    }
}

fn with_operations(s: &ApiService, operations: Vec<OperationSummary>) -> (r: ApiService)
    ensures
        r@ == (ApiServiceV { operations: operations@.map_values(|o: OperationSummary| o@), ..s@ }),
{
    ApiService {
        list_id: s.list_id.clone(),
        title: s.title.clone(),
        description: s.description.clone(),
        keywords: crate::text::copy_string_list(&s.keywords),
        org_name: s.org_name.clone(),
        category: s.category.clone(),
        endpoint_url: s.endpoint_url.clone(),
        data_format: s.data_format.clone(),
        auto_approve: s.auto_approve,
        is_free: s.is_free,
        request_count: s.request_count,
        updated_at: s.updated_at.clone(),
        operations,
    }
}

pub open spec fn ops_view(v: Seq<OperationSummary>) -> Seq<OperationSummaryV> {
    v.map_values(|o: OperationSummary| o@)
}

fn copy_ops(existing: &Vec<OperationSummary>) -> (r: Vec<OperationSummary>)
    ensures
        ops_view(r@) == ops_view(existing@),
{
    let mut out: Vec<OperationSummary> = Vec::new();
    let mut i: usize = 0;
    while i < existing.len()
        invariant
            i <= existing@.len(),
            ops_view(out@) == ops_view(existing@).take(i as int),
        decreases existing@.len() - i,
    {
        let ghost before = ops_view(out@);
        out.push(copy_op(&existing[i]));
        assert(ops_view(out@) =~= before.push(existing@[i as int]@));
        assert(ops_view(existing@).take(i + 1) =~= ops_view(existing@).take(i as int).push(existing@[i as int]@));
        i = i + 1;
    }
    assert(ops_view(existing@).take(existing@.len() as int) =~= ops_view(existing@));
    out
}

fn merged_operations(existing: &Vec<OperationSummary>, new: &Vec<OperationSummary>) -> (r: Vec<OperationSummary>)
    ensures
        ops_view(r@) == merge_ops(ops_view(existing@), ops_view(new@)),
{
    let mut out = copy_ops(existing);
    let ghost nv = ops_view(new@);
    let mut j: usize = 0;
    assert(nv.take(0) =~= Seq::<OperationSummaryV>::empty());
    while j < new.len()
        invariant
            j <= new@.len(),
            nv == ops_view(new@),
            ops_view(out@) == merge_ops(ops_view(existing@), nv.take(j as int)),
        decreases new@.len() - j,
    {
        assert(nv.take(j + 1).drop_last() =~= nv.take(j as int));
        assert(nv.take(j + 1).last() == new@[j as int]@);
        let ghost ids = op_ids(ops_view(out@));
        let mut found = false;
        let mut k: usize = 0;
        while k < out.len()
            invariant
                k <= out@.len(),
                j < new@.len(),
                ids == op_ids(ops_view(out@)),
                found == ids.take(k as int).contains(new@[j as int].id@),
            decreases out@.len() - k,
        {
            assert(ids.take(k + 1) =~= ids.take(k as int).push(out@[k as int].id@));
            if out[k].id == new[j].id {
                assert(ids.take(k + 1)[k as int] == new@[j as int].id@);
                found = true;
            } else {
                proof {
                    if ids.take(k + 1).contains(new@[j as int].id@) {
                        let q = choose|q: int| 0 <= q < k + 1 && #[trigger] ids.take(k + 1)[q] == new@[j as int].id@;
                        if q < k {
                            assert(ids.take(k as int)[q] == new@[j as int].id@);
                        }
                    }
                }
            }
            k = k + 1;
        }
        assert(ids.take(out@.len() as int) =~= ids);
        if !found {
            let ghost before = ops_view(out@);
            out.push(copy_op(&new[j]));
            assert(ops_view(out@) =~= before.push(new@[j as int]@));
        }
        j = j + 1;
    }
    assert(nv.take(new@.len() as int) =~= nv);
    out
}

pub open spec fn services_view(v: Seq<ApiService>) -> Seq<ApiServiceV> {
    v.map_values(|s: ApiService| s@)
}

proof fn lemma_service_index_facts(acc: Seq<ApiServiceV>, id: Seq<char>)
    ensures
        match service_index(acc, id) {
            Some(k) => 0 <= k < acc.len() && acc[k].list_id == id && forall|j: int|
                0 <= j < k ==> (#[trigger] acc[j]).list_id != id,
            None => forall|j: int| 0 <= j < acc.len() ==> (#[trigger] acc[j]).list_id != id,
        },
    decreases acc.len(),
{
    if acc.len() > 0 {
        lemma_service_index_facts(acc.drop_last(), id);
        assert forall|j: int| 0 <= j < acc.len() - 1 implies #[trigger] acc[j] == acc.drop_last()[j] by {}
    }
}

/// Merge the services of all pages: one service per list id, in order of first
/// appearance, holding its first record's fields and the operations of all its records
/// (each operation id once, in order of appearance).
pub fn merge_services(all: &Vec<ApiService>) -> (r: Vec<ApiService>)
    ensures
        services_view(r@) == merged_services(services_view(all@)),
{
    let ghost av = services_view(all@);
    let mut merged: Vec<ApiService> = Vec::new();
    let mut i: usize = 0;
    assert(av.take(0) =~= Seq::<ApiServiceV>::empty());
    assert(services_view(merged@) =~= merged_services(av.take(0)));
    while i < all.len()
        invariant
            i <= all@.len(),
            av == services_view(all@),
            services_view(merged@) == merged_services(av.take(i as int)),
        decreases all@.len() - i,
    {
        assert(av.take(i + 1).drop_last() =~= av.take(i as int));
        assert(av.take(i + 1).last() == all@[i as int]@);
        let ghost mv = services_view(merged@);
        proof {
            lemma_service_index_facts(mv, all@[i as int].list_id@);
        }
        let mut k: usize = 0;
        while k < merged.len() && merged[k].list_id != all[i].list_id
            invariant
                k <= merged@.len(),
                i < all@.len(),
                mv == services_view(merged@),
                forall|j: int| 0 <= j < k ==> (#[trigger] merged@[j]).list_id@ != all@[i as int].list_id@,
            decreases merged@.len() - k,
        {
            k = k + 1;
        }
        if k < merged.len() {
            assert(mv[k as int].list_id == all@[i as int].list_id@);
            assert forall|j: int| 0 <= j < k implies (#[trigger] mv[j]).list_id != all@[i as int].list_id@ by {
                assert(mv[j] == merged@[j]@);
            }
            assert(service_index(mv, all@[i as int].list_id@) == Some(k as int));
            let ops = merged_operations(&merged[k].operations, &all[i].operations);
            let updated = with_operations(&merged[k], ops);
            merged.set(k, updated);
            assert(services_view(merged@) =~= mv.update(
                k as int,
                ApiServiceV { operations: merge_ops(mv[k as int].operations, all@[i as int]@.operations), ..mv[k as int] },
            ));
        } else {
            assert forall|j: int| 0 <= j < mv.len() implies (#[trigger] mv[j]).list_id != all@[i as int].list_id@ by {
                assert(mv[j] == merged@[j]@);
            }
            assert(service_index(mv, all@[i as int].list_id@) is None);
            let copy = with_operations(&all[i], copy_ops(&all[i].operations));
            merged.push(copy);
            assert(services_view(merged@) =~= mv.push(all@[i as int]@));
        }
        i = i + 1;
    }
    assert(av.take(all@.len() as int) =~= av);
    merged
}

proof fn lemma_find_group_none(g: Seq<(Seq<char>, Seq<int>)>, id: Seq<char>)
    ensures
        find_group(g, id) is None ==> forall|k: int| 0 <= k < g.len() ==> #[trigger] g[k].0 != id,
    decreases g.len(),
{
    if g.len() > 0 {
        lemma_find_group_none(g.drop_first(), id);
        if find_group(g, id) is None {
            assert forall|k: int| 0 <= k < g.len() implies #[trigger] g[k].0 != id by {
                if k > 0 {
                    assert(g.drop_first()[k - 1] == g[k]);
                }
            }
        }
    }
}

/// `i` is the first record whose list id is `id`.
#[verifier::opaque]
pub open spec fn first_record(es: Seq<MetaApiEntryV>, i: int, id: Seq<char>) -> bool {
    &&& 0 <= i < es.len()
    &&& es[i].list_id == id
    &&& forall|j: int| 0 <= j < i ==> #[trigger] es[j].list_id != id
}

/// Every record's list id is the key of a group.
proof fn lemma_group_by_id_cover(es: Seq<MetaApiEntryV>)
    ensures
        forall|j: int|
            0 <= j < es.len() ==> exists|k: int| 0 <= k < group_by_id(es).len() && #[trigger] group_by_id(es)[k].0 == #[trigger] es[j].list_id,
    decreases es.len(),
{
    if es.len() > 0 {
        let e0 = es.drop_last();
        let g0 = group_by_id(e0);
        let g = group_by_id(es);
        let n = es.len() - 1;
        let id = es[n].list_id;
        lemma_group_by_id_cover(e0);
        lemma_find_group_range(g0, id);
        assert forall|j: int| 0 <= j < es.len() implies exists|k: int| 0 <= k < g.len() && #[trigger] g[k].0 == #[trigger] es[j].list_id by {
            if j < n {
                assert(e0[j] == es[j]);
                let k = choose|k: int| 0 <= k < g0.len() && #[trigger] g0[k].0 == #[trigger] e0[j].list_id;
                assert(g[k].0 == g0[k].0);
            } else {
                match find_group(g0, id) {
                    Some(k0) => {
                        assert(g[k0].0 == es[j].list_id);
                    },
                    None => {
                        assert(g[g0.len() as int].0 == es[j].list_id);
                    },
                }
            }
        }
    }
}

/// Each group is non-empty and starts with the first record of its list id.
proof fn lemma_group_by_id_first(es: Seq<MetaApiEntryV>)
    ensures
        forall|k: int|
            0 <= k < group_by_id(es).len() ==> (#[trigger] group_by_id(es)[k]).1.len() > 0 && first_record(
                es,
                group_by_id(es)[k].1[0],
                group_by_id(es)[k].0,
            ),
    decreases es.len(),
{
    if es.len() > 0 {
        let e0 = es.drop_last();
        let g0 = group_by_id(e0);
        let g = group_by_id(es);
        let n = es.len() - 1;
        let id = es[n].list_id;
        lemma_group_by_id_first(e0);
        lemma_find_group_range(g0, id);
        lemma_find_group_none(g0, id);
        assert forall|k: int| 0 <= k < g.len() implies (#[trigger] g[k]).1.len() > 0 && first_record(es, g[k].1[0], g[k].0) by {
            reveal(first_record);
            if k < g0.len() {
                assert(first_record(e0, g0[k].1[0], g0[k].0));
                assert(g[k].0 == g0[k].0);
                assert(g[k].1.len() > 0 && g[k].1[0] == g0[k].1[0]);
                assert forall|j: int| 0 <= j < g[k].1[0] implies #[trigger] es[j].list_id != g[k].0 by {
                    assert(e0[j] == es[j]);
                }
            } else {
                assert(find_group(g0, id) is None);
                assert(g[k] == (id, seq![n]));
                lemma_group_by_id_cover(e0);
                assert forall|j: int| 0 <= j < n implies #[trigger] es[j].list_id != id by {
                    assert(e0[j] == es[j]);
                    let kk = choose|kk: int| 0 <= kk < g0.len() && #[trigger] g0[kk].0 == #[trigger] e0[j].list_id;
                    assert(g0[kk].0 != id);
                }
            }
        }
    }
}

proof fn lemma_meta_entries_items(items: Seq<JsonV>, es: Seq<MetaApiEntryV>)
    requires
        meta_entries(items) == Ok::<Seq<MetaApiEntryV>, MetaError>(es),
    ensures
        es.len() == items.len(),
        forall|i: int| 0 <= i < es.len() ==> meta_entry(items[i]) == Some(#[trigger] es[i]),
    decreases items.len(),
{
    if items.len() > 0 {
        let p = choose|p: Seq<MetaApiEntryV>| meta_entries(items.drop_last()) == Ok::<Seq<MetaApiEntryV>, MetaError>(p);
        lemma_meta_entries_items(items.drop_last(), p);
        assert forall|i: int| 0 <= i < es.len() implies meta_entry(items[i]) == Some(#[trigger] es[i]) by {
            if i < es.len() - 1 {
                assert(items.drop_last()[i] == items[i]);
                assert(es[i] == p[i]);
            }
        }
    }
}

/// The service `sv` takes its title and description from the first record of its list id:
/// that record's `list_title` and `desc`, each empty when absent.
pub open spec fn from_first_record(es: Seq<MetaApiEntryV>, sv: ApiServiceV) -> bool {
    exists|i: int|
        #[trigger] first_record(es, i, sv.list_id) && sv.description == (match es[i].desc {
            Some(d) => d,
            None => Seq::<char>::empty(),
        }) && sv.title == (match es[i].list_title {
            Some(t) => t,
            None => Seq::<char>::empty(),
        })
}

/// Some service of `svcs` has the list id `id`.
pub open spec fn has_service(svcs: Seq<ApiServiceV>, id: Seq<char>) -> bool {
    exists|k: int| 0 <= k < svcs.len() && #[trigger] svcs[k].list_id == id
}

/// Each service of a meta-API response takes its descriptive fields from the first record
/// of its list id: its title is that record's `list_title` and its description that
/// record's `desc` (each empty when absent); and every record's list id has a service.
/// (Record `i` is what `meta_entry` reads from the `i`-th item of `data`.)
pub proof fn law_service_from_first_record(json: JsonV, items: Seq<JsonV>, es: Seq<MetaApiEntryV>)
    requires
        jget(json, "data"@) == Some(JsonV::Array(items)),
        meta_entries(items) == Ok::<Seq<MetaApiEntryV>, MetaError>(es),
    ensures
        es.len() == items.len(),
        forall|i: int| 0 <= i < es.len() ==> meta_entry(items[i]) == Some(#[trigger] es[i]),
        meta_services(json) matches Ok(svcs) && {
            &&& forall|k: int| 0 <= k < svcs.len() ==> from_first_record(es, #[trigger] svcs[k])
            &&& forall|i: int| 0 <= i < es.len() ==> has_service(svcs, #[trigger] es[i].list_id)
        },
{
    lemma_meta_entries_items(items, es);
    lemma_group_by_id_first(es);
    lemma_group_by_id_cover(es);
    let g = group_by_id(es);
    let svcs = g.map_values(|x: (Seq<char>, Seq<int>)| service_of(es, x.1));
    assert(meta_services(json) == Ok::<Seq<ApiServiceV>, MetaError>(svcs));
    reveal(first_record);
    assert forall|k: int| 0 <= k < svcs.len() implies from_first_record(es, #[trigger] svcs[k]) by {
        assert(g[k].1.len() > 0 && first_record(es, g[k].1[0], g[k].0));
        assert(svcs[k] == service_of(es, g[k].1));
        assert(first_record(es, g[k].1[0], svcs[k].list_id));
    }
    assert forall|i: int| 0 <= i < es.len() implies has_service(svcs, #[trigger] es[i].list_id) by {
        let k = choose|k: int| 0 <= k < g.len() && #[trigger] g[k].0 == #[trigger] es[i].list_id;
        assert(g[k].1.len() > 0 && first_record(es, g[k].1[0], g[k].0));
        assert(svcs[k] == service_of(es, g[k].1));
        assert(svcs[k].list_id == es[g[k].1[0]].list_id);
        assert(svcs[k].list_id == es[i].list_id);
    }
}

/// After merging, each list id names one service, and every list id of the pages has one.
pub proof fn law_merged_services_unique(services: Seq<ApiServiceV>)
    ensures
        forall|i: int, j: int|
            0 <= i < j < merged_services(services).len() ==> (#[trigger] merged_services(services)[i]).list_id
                != (#[trigger] merged_services(services)[j]).list_id,
        forall|k: int|
            #![trigger services[k]]
            0 <= k < services.len() ==> exists|m: int|
                0 <= m < merged_services(services).len() && (#[trigger] merged_services(services)[m]).list_id
                    == services[k].list_id,
    decreases services.len(),
{
    if services.len() > 0 {
        let acc = merged_services(services.drop_last());
        let svc = services.last();
        law_merged_services_unique(services.drop_last());
        lemma_service_index_facts(acc, svc.list_id);
        let r = merge_into(acc, svc);
        assert(r == merged_services(services));
        assert(r.len() >= acc.len());
        assert forall|m: int| 0 <= m < acc.len() implies (#[trigger] r[m]).list_id == acc[m].list_id by {}
        assert forall|k: int|
            #![trigger services[k]]
            0 <= k < services.len() implies exists|m: int| 0 <= m < r.len() && (#[trigger] r[m]).list_id == services[k].list_id by {
            if k == services.len() - 1 {
                match service_index(acc, svc.list_id) {
                    Some(q) => {
                        assert(r[q].list_id == svc.list_id);
                    },
                    None => {
                        assert(r[acc.len() as int].list_id == svc.list_id);
                    },
                }
            } else {
                assert(services[k] == services.drop_last()[k]);
                let m = choose|m: int| 0 <= m < acc.len() && (#[trigger] acc[m]).list_id == services.drop_last()[k].list_id;
                assert(r[m].list_id == acc[m].list_id);
            }
        }
    }
}

} // verus!
