//! Frequency analysis of the raw signals collected from saved portal pages: how many pages
//! show each element, which signals tell pages apart, and clusters of pages by the script
//! variables they define.

use vstd::prelude::*;
use crate::catalog::{indexed, join, join_strings, lemma_order_desc_permutation, lemma_sort_desc_facts, order_by_score_desc, order_desc, sort_desc};
use crate::freq::{ascending, lemma_lookup_at, lemma_lookup_entries, lemma_str_lt_irrefl, lookup, str_lt, table_ok, FreqTable};
use crate::text::{chars_of, split_by, split_pieces, string_from_chars, string_views, views};

verus! {

/// A script variable found on a page.
#[derive(Debug, Clone)]
pub struct JsVarInfo {
    pub value_type: String,
    pub size: usize,
    pub value_preview: Option<String>,
}

/// The options of one `<select>`.
#[derive(Debug, Clone)]
pub struct OptionSignal {
    pub select_id: String,
    pub count: usize,
    pub values: Vec<String>,
    pub texts: Vec<String>,
}

/// One `<meta>` tag: the attribute that names it, its name and its content.
#[derive(Debug, Clone)]
pub struct MetaSignal {
    pub attr_type: String,
    pub key: String,
    pub content: String,
}

/// The raw signals of one page. Keyed collections hold their entries in ascending key order.
#[derive(Debug, Clone)]
pub struct PageSignals {
    pub file_size_bytes: usize,
    pub tag_counts: Vec<(String, usize)>,
    pub ids: Vec<String>,
    pub names: Vec<String>,
    pub classes: Vec<String>,
    pub data_attrs: Vec<(String, Vec<String>)>,
    pub th_texts: Vec<String>,
    pub options: Vec<OptionSignal>,
    pub js_vars: Vec<(String, JsVarInfo)>,
    pub ajax_urls: Vec<String>,
    pub json_ld_types: Vec<String>,
    pub script_types: Vec<String>,
    pub meta_tags: Vec<MetaSignal>,
    pub link_rels: Vec<String>,
    pub title: String,
}

/// The kinds of element whose frequencies are counted.
#[derive(Debug, Clone, Copy, PartialEq, Eq, Structural)]
pub enum Category {
    Ids,
    Names,
    Classes,
    DataAttrKeys,
    ThTexts,
    JsVarNames,
    JsVarTypes,
    AjaxUrls,
    JsonLdTypes,
    ScriptTypes,
    MetaKeys,
    LinkRels,
    SelectIds,
}

/// The name under which a category is reported.
pub open spec fn category_name(c: Category) -> Seq<char> {
    match c {
        Category::Ids => "ids"@,
        Category::Names => "names"@,
        Category::Classes => "classes"@,
        Category::DataAttrKeys => "data_attr_keys"@,
        Category::ThTexts => "th_texts"@,
        Category::JsVarNames => "js_var_names"@,
        Category::JsVarTypes => "js_var_types"@,
        Category::AjaxUrls => "ajax_urls"@,
        Category::JsonLdTypes => "json_ld_types"@,
        Category::ScriptTypes => "script_types"@,
        Category::MetaKeys => "meta_keys"@,
        Category::LinkRels => "link_rels"@,
        Category::SelectIds => "select_ids"@,
    }
}

pub fn category_label(c: Category) -> (r: String)
    ensures
        r@ == category_name(c),
{
    match c {
        Category::Ids => "ids".to_owned(),
        Category::Names => "names".to_owned(),
        Category::Classes => "classes".to_owned(),
        Category::DataAttrKeys => "data_attr_keys".to_owned(),
        Category::ThTexts => "th_texts".to_owned(),
        Category::JsVarNames => "js_var_names".to_owned(),
        Category::JsVarTypes => "js_var_types".to_owned(),
        Category::AjaxUrls => "ajax_urls".to_owned(),
        Category::JsonLdTypes => "json_ld_types".to_owned(),
        Category::ScriptTypes => "script_types".to_owned(),
        Category::MetaKeys => "meta_keys".to_owned(),
        Category::LinkRels => "link_rels".to_owned(),
        Category::SelectIds => "select_ids".to_owned(),
    }
}

/// `a:b`.
pub open spec fn colon_pair(a: Seq<char>, b: Seq<char>) -> Seq<char> {
    a + ":"@ + b
}

/// The values of category `c` on a page: script variables count as their name, or as
/// `name:type`; meta tags as `attr_type:key`; selects as their id.
pub open spec fn category_values(s: PageSignals, c: Category) -> Seq<Seq<char>> {
    match c {
        Category::Ids => string_views(s.ids@),
        Category::Names => string_views(s.names@),
        Category::Classes => string_views(s.classes@),
        Category::DataAttrKeys => s.data_attrs@.map_values(|d: (String, Vec<String>)| d.0@),
        Category::ThTexts => string_views(s.th_texts@),
        Category::JsVarNames => s.js_vars@.map_values(|v: (String, JsVarInfo)| v.0@),
        Category::JsVarTypes => s.js_vars@.map_values(
            |v: (String, JsVarInfo)| colon_pair(v.0@, v.1.value_type@),
        ),
        Category::AjaxUrls => string_views(s.ajax_urls@),
        Category::JsonLdTypes => string_views(s.json_ld_types@),
        Category::ScriptTypes => string_views(s.script_types@),
        Category::MetaKeys => s.meta_tags@.map_values(|m: MetaSignal| colon_pair(m.attr_type@, m.key@)),
        Category::LinkRels => string_views(s.link_rels@),
        Category::SelectIds => s.options@.map_values(|o: OptionSignal| o.select_id@),
    }
}

fn colon_join(a: &String, b: &String) -> (r: String)
    ensures
        r@ == colon_pair(a@, b@),
{
    let mut v = chars_of(a.as_str());
    v.push(':');
    let mut w = chars_of(b.as_str());
    v.append(&mut w);
    proof {
        reveal_strlit(":");
    }
    assert(v@ =~= colon_pair(a@, b@));
    string_from_chars(v.as_slice())
}

/// The values of category `c` on page `s`.
pub fn values_of(s: &PageSignals, c: Category) -> (r: Vec<String>)
    ensures
        string_views(r@) == category_values(*s, c),
{
    let mut out: Vec<String> = Vec::new();
    let ghost target = category_values(*s, c);
    let n: usize = match c {
        Category::Ids => s.ids.len(),
        Category::Names => s.names.len(),
        Category::Classes => s.classes.len(),
        Category::DataAttrKeys => s.data_attrs.len(),
        Category::ThTexts => s.th_texts.len(),
        Category::JsVarNames => s.js_vars.len(),
        Category::JsVarTypes => s.js_vars.len(),
        Category::AjaxUrls => s.ajax_urls.len(),
        Category::JsonLdTypes => s.json_ld_types.len(),
        Category::ScriptTypes => s.script_types.len(),
        Category::MetaKeys => s.meta_tags.len(),
        Category::LinkRels => s.link_rels.len(),
        Category::SelectIds => s.options.len(),
    };
    assert(n == target.len());
    let mut i: usize = 0;
    while i < n
        invariant
            i <= n,
            n == target.len(),
            target == category_values(*s, c),
            string_views(out@) == target.take(i as int),
        decreases n - i,
    {
        let v: String = match c {
            Category::Ids => s.ids[i].clone(),
            Category::Names => s.names[i].clone(),
            Category::Classes => s.classes[i].clone(),
            Category::DataAttrKeys => s.data_attrs[i].0.clone(),
            Category::ThTexts => s.th_texts[i].clone(),
            Category::JsVarNames => s.js_vars[i].0.clone(),
            Category::JsVarTypes => colon_join(&s.js_vars[i].0, &s.js_vars[i].1.value_type),
            Category::AjaxUrls => s.ajax_urls[i].clone(),
            Category::JsonLdTypes => s.json_ld_types[i].clone(),
            Category::ScriptTypes => s.script_types[i].clone(),
            Category::MetaKeys => colon_join(&s.meta_tags[i].attr_type, &s.meta_tags[i].key),
            Category::LinkRels => s.link_rels[i].clone(),
            Category::SelectIds => s.options[i].select_id.clone(),
        };
        assert(v@ == target[i as int]);
        let ghost before = string_views(out@);
        out.push(v);
        assert(string_views(out@) =~= before.push(v@));
        assert(target.take(i + 1) =~= target.take(i as int).push(target[i as int]));
        i = i + 1;
    }
    assert(target.take(n as int) =~= target);
    out
}

// ---------------------------------------------------------------------------
// Frequencies
// ---------------------------------------------------------------------------

pub open spec fn page_signals(all: Seq<(String, PageSignals)>) -> Seq<PageSignals> {
    all.map_values(|p: (String, PageSignals)| p.1)
}

/// The number of pages whose category `c` shows `k` (each page counts once).
pub open spec fn pages_with(pages: Seq<PageSignals>, c: Category, k: Seq<char>) -> nat
    decreases pages.len(),
{
    if pages.len() == 0 {
        0
    } else {
        pages_with(pages.drop_last(), c, k) + if category_values(pages.last(), c).contains(k) {
            1nat
        } else {
            0nat
        }
    }
}

proof fn lemma_pages_with_bound(pages: Seq<PageSignals>, c: Category, k: Seq<char>)
    ensures
        pages_with(pages, c, k) <= pages.len(),
    decreases pages.len(),
{
    if pages.len() > 0 {
        lemma_pages_with_bound(pages.drop_last(), c, k);
    }
}

/// A frequency table of category `c`: keys in ascending order, each with the number of
/// pages that show it, and exactly the keys that some page shows.
pub open spec fn is_frequency_table(t: Seq<(Seq<char>, nat)>, pages: Seq<PageSignals>, c: Category) -> bool {
    table_ok(t) && forall|k: Seq<char>| #[trigger] lookup(t, k) == pages_with(pages, c, k)
}

fn contains_before(v: &Vec<String>, j: usize) -> (r: bool)
    requires
        j < v@.len(),
    ensures
        r == string_views(v@).take(j as int).contains(v@[j as int]@),
{
    let mut k: usize = 0;
    while k < j
        invariant
            k <= j < v@.len(),
            forall|q: int| 0 <= q < k ==> v@[q]@ != v@[j as int]@,
        decreases j - k,
    {
        if v[k] == v[j] {
            assert(string_views(v@).take(j as int)[k as int] == v@[j as int]@);
            return true;
        }
        k = k + 1;
    }
    assert forall|q: int| 0 <= q < j implies string_views(v@).take(j as int)[q] != v@[j as int]@ by {
        assert(string_views(v@).take(j as int)[q] == v@[q]@);
    }
    false
}

/// Count, for each value of category `c`, the pages that show it.
pub fn count_category(all: &[(String, PageSignals)], c: Category) -> (r: FreqTable)
    ensures
        is_frequency_table(r@, page_signals(all@), c),
{
    let ghost pages = page_signals(all@);
    let mut t = FreqTable::new();
    let mut i: usize = 0;
    while i < all.len()
        invariant
            i <= all@.len(),
            pages == page_signals(all@),
            table_ok(t@),
            forall|k: Seq<char>| #[trigger] lookup(t@, k) == pages_with(pages.take(i as int), c, k),
        decreases all@.len() - i,
    {
        let n_all = all.len();
        assert(i < usize::MAX);
        let vals = values_of(&all[i].1, c);
        let ghost vv = string_views(vals@);
        let ghost prev = pages.take(i as int);
        assert(pages.take(i + 1).drop_last() =~= prev);
        assert(pages.take(i + 1).last() == all@[i as int].1);
        assert(vv == category_values(pages.take(i + 1).last(), c));
        let mut j: usize = 0;
        assert(vv.take(0) =~= Seq::<Seq<char>>::empty());
        while j < vals.len()
            invariant
                j <= vals@.len(),
                i < all@.len(),
                i < usize::MAX,
                vv == string_views(vals@),
                prev == pages.take(i as int),
                prev.len() == i,
                table_ok(t@),
                forall|k: Seq<char>| #[trigger] lookup(t@, k) == pages_with(prev, c, k) + if vv.take(
                    j as int,
                ).contains(k) {
                    1nat
                } else {
                    0nat
                },
            decreases vals@.len() - j,
        {
            let ghost key = vals@[j as int]@;
            let ghost pa = vv.take(j as int);
            let ghost pb = vv.take(j + 1);
            assert(vv[j as int] == key);
            assert(pb =~= pa.push(key));
            if !contains_before(&vals, j) {
                proof {
                    lemma_pages_with_bound(prev, c, key);
                    assert(!pa.contains(key));
                    assert(lookup(t@, key) == pages_with(prev, c, key));
                }
                t.bump(&vals[j]);
                proof {
                    assert forall|k: Seq<char>| #[trigger] lookup(t@, k) == pages_with(prev, c, k) + if pb.contains(k) {
                        1nat
                    } else {
                        0nat
                    } by {
                        if k == key {
                            assert(pb[j as int] == key);
                        } else {
                            if pb.contains(k) {
                                let q = choose|q: int| 0 <= q < pb.len() && #[trigger] pb[q] == k;
                                assert(pa[q] == k);
                            }
                            if pa.contains(k) {
                                let q = choose|q: int| 0 <= q < pa.len() && #[trigger] pa[q] == k;
                                assert(pb[q] == k);
                            }
                        }
                    }
                }
            } else {
                proof {
                    assert forall|k: Seq<char>| #[trigger] lookup(t@, k) == pages_with(prev, c, k) + if pb.contains(k) {
                        1nat
                    } else {
                        0nat
                    } by {
                        if pb.contains(k) {
                            let q = choose|q: int| 0 <= q < pb.len() && #[trigger] pb[q] == k;
                            if q < j {
                                assert(pa[q] == k);
                            }
                        }
                        if pa.contains(k) {
                            let q = choose|q: int| 0 <= q < pa.len() && #[trigger] pa[q] == k;
                            assert(pb[q] == k);
                        }
                    }
                }
            }
            j = j + 1;
        }
        assert(vv.take(vals@.len() as int) =~= vv);
        i = i + 1;
    }
    assert(pages.take(all@.len() as int) =~= pages);
    t
}

/// The frequency tables of all categories.
#[derive(Debug)]
pub struct ElementFrequencies {
    pub ids: FreqTable,
    pub names: FreqTable,
    pub classes: FreqTable,
    pub data_attr_keys: FreqTable,
    pub th_texts: FreqTable,
    pub js_var_names: FreqTable,
    pub js_var_types: FreqTable,
    pub ajax_urls: FreqTable,
    pub json_ld_types: FreqTable,
    pub script_types: FreqTable,
    pub meta_keys: FreqTable,
    pub link_rels: FreqTable,
    pub select_ids: FreqTable,
}

/// The table of category `c`.
pub open spec fn table_of(f: ElementFrequencies, c: Category) -> Seq<(Seq<char>, nat)> {
    match c {
        Category::Ids => f.ids@,
        Category::Names => f.names@,
        Category::Classes => f.classes@,
        Category::DataAttrKeys => f.data_attr_keys@,
        Category::ThTexts => f.th_texts@,
        Category::JsVarNames => f.js_var_names@,
        Category::JsVarTypes => f.js_var_types@,
        Category::AjaxUrls => f.ajax_urls@,
        Category::JsonLdTypes => f.json_ld_types@,
        Category::ScriptTypes => f.script_types@,
        Category::MetaKeys => f.meta_keys@,
        Category::LinkRels => f.link_rels@,
        Category::SelectIds => f.select_ids@,
    }
}

/// Count, over all pages, how many pages show each element of each category; a page that
/// shows an element several times counts once.
pub fn count_frequencies(all_signals: &[(String, PageSignals)]) -> (r: ElementFrequencies)
    ensures
        forall|c: Category| #[trigger] is_frequency_table(table_of(r, c), page_signals(all_signals@), c),
{
    let r = ElementFrequencies {
        ids: count_category(all_signals, Category::Ids),
        names: count_category(all_signals, Category::Names),
        classes: count_category(all_signals, Category::Classes),
        data_attr_keys: count_category(all_signals, Category::DataAttrKeys),
        th_texts: count_category(all_signals, Category::ThTexts),
        js_var_names: count_category(all_signals, Category::JsVarNames),
        js_var_types: count_category(all_signals, Category::JsVarTypes),
        ajax_urls: count_category(all_signals, Category::AjaxUrls),
        json_ld_types: count_category(all_signals, Category::JsonLdTypes),
        script_types: count_category(all_signals, Category::ScriptTypes),
        meta_keys: count_category(all_signals, Category::MetaKeys),
        link_rels: count_category(all_signals, Category::LinkRels),
        select_ids: count_category(all_signals, Category::SelectIds),
    };
    assert forall|c: Category| #[trigger] is_frequency_table(table_of(r, c), page_signals(all_signals@), c) by {
        match c {
            Category::Ids => {},
            Category::Names => {},
            Category::Classes => {},
            Category::DataAttrKeys => {},
            Category::ThTexts => {},
            Category::JsVarNames => {},
            Category::JsVarTypes => {},
            Category::AjaxUrls => {},
            Category::JsonLdTypes => {},
            Category::ScriptTypes => {},
            Category::MetaKeys => {},
            Category::LinkRels => {},
            Category::SelectIds => {},
        }
    }
    r
}

// ---------------------------------------------------------------------------
// Discriminating signals
// ---------------------------------------------------------------------------

/// A signal that some pages show and others do not. The share of pages is left to the
/// caller (it is a ratio of `count` to the number of pages).
#[derive(Debug, Clone)]
pub struct DiscriminatingSignal {
    pub category: String,
    pub signal: String,
    pub count: usize,
}

pub open spec fn signal_views(v: Seq<DiscriminatingSignal>) -> Seq<(Seq<char>, Seq<char>, nat)> {
    v.map_values(|d: DiscriminatingSignal| (d.category@, d.signal@, d.count as nat))
}

/// The categories in the order in which they are reported.
pub open spec fn report_order() -> Seq<Category> {
    seq![
        Category::Ids,
        Category::Names,
        Category::Classes,
        Category::DataAttrKeys,
        Category::ThTexts,
        Category::JsVarNames,
        Category::JsVarTypes,
        Category::AjaxUrls,
        Category::JsonLdTypes,
        Category::ScriptTypes,
        Category::MetaKeys,
        Category::LinkRels,
        Category::SelectIds,
    ]
}

/// The entries of table `t` seen on some but not all of `total` pages, in key order.
pub open spec fn partial_signals(t: Seq<(Seq<char>, nat)>, cat: Seq<char>, total: nat) -> Seq<(Seq<char>, Seq<char>, nat)>
    decreases t.len(),
{
    if t.len() == 0 {
        Seq::empty()
    } else {
        let r = partial_signals(t.drop_last(), cat, total);
        let e = t.last();
        if 0 < e.1 && e.1 < total {
            r.push((cat, e.0, e.1))
        } else {
            r
        }
    }
}

/// The partial signals of the categories `cats`, category after category.
pub open spec fn partial_over(f: ElementFrequencies, cats: Seq<Category>, total: nat) -> Seq<(Seq<char>, Seq<char>, nat)>
    decreases cats.len(),
{
    if cats.len() == 0 {
        Seq::empty()
    } else {
        partial_over(f, cats.drop_last(), total) + partial_signals(
            table_of(f, cats.last()),
            category_name(cats.last()),
            total,
        )
    }
}

pub open spec fn signal_counts(c: Seq<(Seq<char>, Seq<char>, nat)>) -> Seq<u128> {
    c.map_values(|x: (Seq<char>, Seq<char>, nat)| x.2 as u128)
}

/// The discriminating signals: present on some page but not on all `total` pages, most
/// frequent first; equal counts keep category order, then key order.
pub open spec fn discriminating(f: ElementFrequencies, total: nat) -> Seq<(Seq<char>, Seq<char>, nat)> {
    let c = partial_over(f, report_order(), total);
    let o = order_desc(signal_counts(c));
    Seq::new(c.len(), |m: int| c[o[m]])
}

fn append_partial(out: &mut Vec<DiscriminatingSignal>, t: &FreqTable, c: Category, total: usize)
    ensures
        signal_views(final(out)@) == signal_views(old(out)@) + partial_signals(t@, category_name(c), total as nat),
{
    let ghost start = signal_views(out@);
    let mut i: usize = 0;
    assert(t@.take(0) =~= Seq::<(Seq<char>, nat)>::empty());
    assert(signal_views(out@) =~= start + partial_signals(t@.take(0), category_name(c), total as nat));
    while i < t.entries.len()
        invariant
            i <= t@.len(),
            t@.len() == t.entries@.len(),
            signal_views(out@) == start + partial_signals(t@.take(i as int), category_name(c), total as nat),
        decreases t@.len() - i,
    {
        let count = t.entries[i].1;
        assert(t@.take(i + 1).drop_last() =~= t@.take(i as int));
        assert(t@.take(i + 1).last() == t@[i as int]);
        if 0 < count && count < total {
            let ghost before = signal_views(out@);
            out.push(DiscriminatingSignal {
                category: category_label(c),
                signal: t.entries[i].0.clone(),
                count,
            });
            assert(signal_views(out@) =~= before.push((category_name(c), t@[i as int].0, count as nat)));
        }
        i = i + 1;
    }
    assert(t@.take(t@.len() as int) =~= t@);
}

/// Signals present on some pages but not on all `total` of them, most frequent first.
pub fn find_discriminating_signals(freq: &ElementFrequencies, total: usize) -> (r: Vec<DiscriminatingSignal>)
    ensures
        signal_views(r@) == discriminating(*freq, total as nat),
{
    let cats: Vec<Category> = vec![
        Category::Ids,
        Category::Names,
        Category::Classes,
        Category::DataAttrKeys,
        Category::ThTexts,
        Category::JsVarNames,
        Category::JsVarTypes,
        Category::AjaxUrls,
        Category::JsonLdTypes,
        Category::ScriptTypes,
        Category::MetaKeys,
        Category::LinkRels,
        Category::SelectIds,
    ];
    assert(cats@ =~= report_order());
    let mut cands: Vec<DiscriminatingSignal> = Vec::new();
    let mut k: usize = 0;
    assert(signal_views(cands@) =~= partial_over(*freq, cats@.take(0), total as nat));
    while k < cats.len()
        invariant
            k <= cats@.len(),
            cats@ == report_order(),
            signal_views(cands@) == partial_over(*freq, cats@.take(k as int), total as nat),
        decreases cats@.len() - k,
    {
        let c = cats[k];
        let t = match c {
            Category::Ids => &freq.ids,
            Category::Names => &freq.names,
            Category::Classes => &freq.classes,
            Category::DataAttrKeys => &freq.data_attr_keys,
            Category::ThTexts => &freq.th_texts,
            Category::JsVarNames => &freq.js_var_names,
            Category::JsVarTypes => &freq.js_var_types,
            Category::AjaxUrls => &freq.ajax_urls,
            Category::JsonLdTypes => &freq.json_ld_types,
            Category::ScriptTypes => &freq.script_types,
            Category::MetaKeys => &freq.meta_keys,
            Category::LinkRels => &freq.link_rels,
            Category::SelectIds => &freq.select_ids,
        };
        assert(t@ == table_of(*freq, c));
        append_partial(&mut cands, t, c, total);
        assert(cats@.take(k + 1).drop_last() =~= cats@.take(k as int));
        k = k + 1;
    }
    assert(cats@.take(cats@.len() as int) =~= cats@);
    let ghost cv = signal_views(cands@);
    let mut counts: Vec<u128> = Vec::new();
    let mut q: usize = 0;
    while q < cands.len()
        invariant
            q <= cands@.len(),
            counts@.len() == q,
            forall|j: int| 0 <= j < q ==> #[trigger] counts@[j] == cands@[j].count as u128,
        decreases cands@.len() - q,
    {
        counts.push(cands[q].count as u128);
        q = q + 1;
    }
    assert(counts@ =~= signal_counts(cv));
    let order = order_by_score_desc(&counts);
    let mut out: Vec<DiscriminatingSignal> = Vec::new();
    let mut m: usize = 0;
    while m < order.len()
        invariant
            m <= order@.len(),
            order@.len() == cands@.len(),
            cv == signal_views(cands@),
            counts@ == signal_counts(cv),
            forall|j: int| 0 <= j < order@.len() ==> #[trigger] order@[j] as int == order_desc(counts@)[j],
            forall|j: int| 0 <= j < order@.len() ==> #[trigger] order@[j] < cands@.len(),
            out@.len() == m,
            forall|j: int| 0 <= j < m ==> #[trigger] signal_views(out@)[j] == cv[order_desc(counts@)[j]],
        decreases order@.len() - m,
    {
        let idx = order[m];
        let d = DiscriminatingSignal {
            category: cands[idx].category.clone(),
            signal: cands[idx].signal.clone(),
            count: cands[idx].count,
        };
        let ghost before = out@;
        out.push(d);
        assert forall|j: int| 0 <= j < m + 1 implies #[trigger] signal_views(out@)[j] == cv[order_desc(counts@)[j]] by {
            if j < m {
                assert(out@[j] == before[j]);
                assert(signal_views(before)[j] == cv[order_desc(counts@)[j]]);
            } else {
                assert(order@[m as int] as int == order_desc(counts@)[m as int]);
                assert(out@[j] == d);
            }
        }
        m = m + 1;
    }
    assert(signal_views(out@) =~= discriminating(*freq, total as nat));
    out
}

// ---------------------------------------------------------------------------
// Clusters
// ---------------------------------------------------------------------------

/// A group of pages that define the same key script variables.
#[derive(Debug, Clone)]
pub struct Cluster {
    pub name: String,
    pub defining_signals: Vec<String>,
    pub count: usize,
    pub sample_files: Vec<String>,
}

/// The `name:type` entries counted on more than 10 pages and on fewer than `upper` pages,
/// in key order.
pub open spec fn cluster_candidates(t: Seq<(Seq<char>, nat)>, upper: nat) -> Seq<(Seq<char>, nat)>
    decreases t.len(),
{
    if t.len() == 0 {
        Seq::empty()
    } else {
        let r = cluster_candidates(t.drop_last(), upper);
        let e = t.last();
        if e.1 > 10 && e.1 < upper {
            r.push(e)
        } else {
            r
        }
    }
}

pub open spec fn entry_counts(c: Seq<(Seq<char>, nat)>) -> Seq<u128> {
    c.map_values(|x: (Seq<char>, nat)| x.1 as u128)
}

/// The key signals: the 20 most frequent candidates (ties in key order).
pub open spec fn key_signals(t: Seq<(Seq<char>, nat)>, upper: nat) -> Seq<Seq<char>> {
    let c = cluster_candidates(t, upper);
    let o = order_desc(entry_counts(c));
    let n = if c.len() < 20 {
        c.len()
    } else {
        20
    };
    Seq::new(n, |m: int| c[o[m]].0)
}

/// The key signals that a page defines, in key-signal order.
pub open spec fn matching_keys(keys: Seq<Seq<char>>, page: PageSignals) -> Seq<Seq<char>>
    decreases keys.len(),
{
    if keys.len() == 0 {
        Seq::empty()
    } else {
        let r = matching_keys(keys.drop_last(), page);
        if category_values(page, Category::JsVarTypes).contains(keys.last()) {
            r.push(keys.last())
        } else {
            r
        }
    }
}

/// The fingerprint of a page: its matching key signals joined by `+`, or `(none)`.
pub open spec fn fingerprint(keys: Seq<Seq<char>>, page: PageSignals) -> Seq<char> {
    let m = matching_keys(keys, page);
    if m.len() == 0 {
        "(none)"@
    } else {
        join(m, "+"@)
    }
}

pub open spec fn fingerprints(keys: Seq<Seq<char>>, all: Seq<(String, PageSignals)>) -> Seq<Seq<char>> {
    all.map_values(|p: (String, PageSignals)| fingerprint(keys, p.1))
}

/// How many of `fps` equal `x`.
pub open spec fn occurrences(fps: Seq<Seq<char>>, x: Seq<char>) -> nat
    decreases fps.len(),
{
    if fps.len() == 0 {
        0
    } else {
        occurrences(fps.drop_last(), x) + if fps.last() == x {
            1nat
        } else {
            0nat
        }
    }
}

/// The names of the pages whose fingerprint is `x`, in page order.
pub open spec fn pages_named(all: Seq<(String, PageSignals)>, fps: Seq<Seq<char>>, x: Seq<char>) -> Seq<Seq<char>>
    decreases all.len(),
{
    if all.len() == 0 || fps.len() != all.len() {
        Seq::empty()
    } else {
        let r = pages_named(all.drop_last(), fps.drop_last(), x);
        if fps.last() == x {
            r.push(all.last().0@)
        } else {
            r
        }
    }
}

pub open spec fn cluster_view(c: Cluster) -> (Seq<char>, Seq<Seq<char>>, nat, Seq<Seq<char>>) {
    (c.name@, string_views(c.defining_signals@), c.count as nat, string_views(c.sample_files@))
}

pub open spec fn clusters_view(v: Seq<Cluster>) -> Seq<(Seq<char>, Seq<Seq<char>>, nat, Seq<Seq<char>>)> {
    v.map_values(|c: Cluster| cluster_view(c))
}

/// The clusters of a fingerprint table, in its (ascending) key order: the fingerprint, its
/// `+`-separated signals, the number of pages and the first three page names.
pub open spec fn table_clusters(
    t: Seq<(Seq<char>, nat)>,
    all: Seq<(String, PageSignals)>,
    fps: Seq<Seq<char>>,
) -> Seq<(Seq<char>, Seq<Seq<char>>, nat, Seq<Seq<char>>)> {
    Seq::new(
        t.len(),
        |m: int|
            {
                let names = pages_named(all, fps, t[m].0);
                (
                    t[m].0,
                    split_by(t[m].0, Some('+')),
                    t[m].1,
                    names.take(if names.len() < 3 { names.len() as int } else { 3 }),
                )
            },
    )
}

pub open spec fn cluster_counts(c: Seq<(Seq<char>, Seq<Seq<char>>, nat, Seq<Seq<char>>)>) -> Seq<u128> {
    c.map_values(|x: (Seq<char>, Seq<Seq<char>>, nat, Seq<Seq<char>>)| x.2 as u128)
}

/// The clusters of a fingerprint table, largest first; equal sizes keep fingerprint order.
pub open spec fn ranked_clusters(
    t: Seq<(Seq<char>, nat)>,
    all: Seq<(String, PageSignals)>,
    fps: Seq<Seq<char>>,
) -> Seq<(Seq<char>, Seq<Seq<char>>, nat, Seq<Seq<char>>)> {
    let c = table_clusters(t, all, fps);
    let o = order_desc(cluster_counts(c));
    Seq::new(c.len(), |m: int| c[o[m]])
}

/// `t` counts the fingerprints `fps`: ascending keys, and exactly the fingerprints that
/// occur, each with its number of occurrences.
pub open spec fn fingerprint_table(t: Seq<(Seq<char>, nat)>, fps: Seq<Seq<char>>) -> bool {
    table_ok(t) && forall|x: Seq<char>| #[trigger] lookup(t, x) == occurrences(fps, x)
}

fn key_signal_list(t: &FreqTable, upper: usize) -> (r: Vec<String>)
    ensures
        string_views(r@) == key_signals(t@, upper as nat),
{
    let mut cands: Vec<(String, usize)> = Vec::new();
    let mut i: usize = 0;
    assert(t@.take(0) =~= Seq::<(Seq<char>, nat)>::empty());
    assert(crate::freq::entries_view(cands@) =~= cluster_candidates(t@.take(0), upper as nat));
    while i < t.entries.len()
        invariant
            i <= t@.len(),
            t@.len() == t.entries@.len(),
            crate::freq::entries_view(cands@) == cluster_candidates(t@.take(i as int), upper as nat),
        decreases t@.len() - i,
    {
        assert(t@.take(i + 1).drop_last() =~= t@.take(i as int));
        assert(t@.take(i + 1).last() == t@[i as int]);
        let c = t.entries[i].1;
        if c > 10 && c < upper {
            let ghost before = crate::freq::entries_view(cands@);
            cands.push((t.entries[i].0.clone(), c));
            assert(crate::freq::entries_view(cands@) =~= before.push(t@[i as int]));
        }
        i = i + 1;
    }
    assert(t@.take(t@.len() as int) =~= t@);
    let ghost cv = crate::freq::entries_view(cands@);
    let mut counts: Vec<u128> = Vec::new();
    let mut q: usize = 0;
    while q < cands.len()
        invariant
            q <= cands@.len(),
            counts@.len() == q,
            forall|j: int| 0 <= j < q ==> #[trigger] counts@[j] == cands@[j].1 as u128,
        decreases cands@.len() - q,
    {
        counts.push(cands[q].1 as u128);
        q = q + 1;
    }
    assert(counts@ =~= entry_counts(cv));
    let order = order_by_score_desc(&counts);
    let n: usize = if cands.len() < 20 { cands.len() } else { 20 };
    let mut out: Vec<String> = Vec::new();
    let mut m: usize = 0;
    while m < n
        invariant
            m <= n <= order@.len(),
            order@.len() == cands@.len(),
            n == (if cands@.len() < 20 { cands@.len() } else { 20 }),
            cv == crate::freq::entries_view(cands@),
            counts@ == entry_counts(cv),
            forall|j: int| 0 <= j < order@.len() ==> #[trigger] order@[j] as int == order_desc(counts@)[j],
            forall|j: int| 0 <= j < order@.len() ==> #[trigger] order@[j] < cands@.len(),
            string_views(out@) == Seq::new(m as nat, |j: int| cv[order_desc(counts@)[j]].0),
        decreases n - m,
    {
        let idx = order[m];
        let ghost before = string_views(out@);
        out.push(cands[idx].0.clone());
        assert(order@[m as int] as int == order_desc(counts@)[m as int]);
        assert(cv[idx as int].0 == cands@[idx as int].0@);
        assert(string_views(out@) =~= before.push(cv[idx as int].0));
        assert(string_views(out@) =~= Seq::new((m + 1) as nat, |j: int| cv[order_desc(counts@)[j]].0));
        m = m + 1;
    }
    assert(string_views(out@) =~= key_signals(t@, upper as nat));
    out
}

fn page_fingerprint(keys: &Vec<String>, page: &PageSignals) -> (r: String)
    ensures
        r@ == fingerprint(string_views(keys@), *page),
{
    let vals = values_of(page, Category::JsVarTypes);
    let ghost kv = string_views(keys@);
    let mut matching: Vec<String> = Vec::new();
    let mut i: usize = 0;
    assert(kv.take(0) =~= Seq::<Seq<char>>::empty());
    assert(string_views(matching@) =~= matching_keys(kv.take(0), *page));
    while i < keys.len()
        invariant
            i <= keys@.len(),
            kv == string_views(keys@),
            string_views(vals@) == category_values(*page, Category::JsVarTypes),
            string_views(matching@) == matching_keys(kv.take(i as int), *page),
        decreases keys@.len() - i,
    {
        assert(kv.take(i + 1).drop_last() =~= kv.take(i as int));
        assert(kv.take(i + 1).last() == keys@[i as int]@);
        let mut found = false;
        let mut j: usize = 0;
        while j < vals.len()
            invariant
                j <= vals@.len(),
                i < keys@.len(),
                found == string_views(vals@).take(j as int).contains(keys@[i as int]@),
            decreases vals@.len() - j,
        {
            let ghost a = string_views(vals@).take(j as int);
            let ghost b = string_views(vals@).take(j + 1);
            assert(b =~= a.push(vals@[j as int]@));
            if vals[j] == keys[i] {
                assert(b[j as int] == keys@[i as int]@);
                found = true;
            } else {
                proof {
                    if a.contains(keys@[i as int]@) {
                        let q = choose|q: int| 0 <= q < a.len() && #[trigger] a[q] == keys@[i as int]@;
                        assert(b[q] == keys@[i as int]@);
                    }
                    if b.contains(keys@[i as int]@) {
                        let q = choose|q: int| 0 <= q < b.len() && #[trigger] b[q] == keys@[i as int]@;
                        assert(a[q] == keys@[i as int]@);
                    }
                }
            }
            j = j + 1;
        }
        assert(string_views(vals@).take(vals@.len() as int) =~= string_views(vals@));
        if found {
            let ghost before = string_views(matching@);
            matching.push(keys[i].clone());
            assert(string_views(matching@) =~= before.push(keys@[i as int]@));
        }
        i = i + 1;
    }
    assert(kv.take(keys@.len() as int) =~= kv);
    if matching.len() == 0 {
        "(none)".to_owned()
    } else {
        let joined = join_strings(&matching, "+");
        string_from_chars(joined.as_slice())
    }
}

fn pieces_to_strings(p: &Vec<Vec<char>>) -> (r: Vec<String>)
    ensures
        string_views(r@) == views(p@),
{
    let mut out: Vec<String> = Vec::new();
    let mut i: usize = 0;
    while i < p.len()
        invariant
            i <= p@.len(),
            string_views(out@) == views(p@).take(i as int),
        decreases p@.len() - i,
    {
        let ghost before = string_views(out@);
        out.push(string_from_chars(p[i].as_slice()));
        assert(string_views(out@) =~= before.push(p@[i as int]@));
        assert(views(p@).take(i + 1) =~= views(p@).take(i as int).push(p@[i as int]@));
        i = i + 1;
    }
    assert(views(p@).take(p@.len() as int) =~= views(p@));
    out
}

/// The names of the pages whose fingerprint is `x`, at most `limit` of them, in page order.
fn first_pages_named(all: &[(String, PageSignals)], fps: &Vec<String>, x: &String, limit: usize) -> (r: Vec<String>)
    requires
        fps@.len() == all@.len(),
    ensures
        string_views(r@) == {
            let names = pages_named(all@, string_views(fps@), x@);
            names.take(if names.len() < limit { names.len() as int } else { limit as int })
        },
{
    let ghost fv = string_views(fps@);
    let mut out: Vec<String> = Vec::new();
    let mut i: usize = 0;
    assert(all@.take(0) =~= Seq::<(String, PageSignals)>::empty());
    while i < all.len()
        invariant
            i <= all@.len(),
            fps@.len() == all@.len(),
            fv == string_views(fps@),
            ({
                let names = pages_named(all@.take(i as int), fv.take(i as int), x@);
                string_views(out@) == names.take(if names.len() < limit { names.len() as int } else { limit as int })
            }),
        decreases all@.len() - i,
    {
        let ghost names0 = pages_named(all@.take(i as int), fv.take(i as int), x@);
        assert(all@.take(i + 1).drop_last() =~= all@.take(i as int));
        assert(fv.take(i + 1).drop_last() =~= fv.take(i as int));
        assert(fv.take(i + 1).last() == fps@[i as int]@);
        let ghost names1 = pages_named(all@.take(i + 1), fv.take(i + 1), x@);
        assert(string_views(out@).len() == out@.len());
        if fps[i] == *x {
            assert(names1 =~= names0.push(all@[i as int].0@));
            if out.len() < limit {
                assert(names0.len() < limit);
                assert(names0.take(names0.len() as int) =~= names0);
                assert(names1.take(names1.len() as int) =~= names1);
                let ghost before = string_views(out@);
                out.push(all[i].0.clone());
                assert(string_views(out@) =~= names1.take(if names1.len() < limit { names1.len() as int } else { limit as int }));
            } else {
                assert(names0.len() >= limit);
                assert(names1.take(limit as int) =~= names0.take(limit as int));
            }
        } else {
            assert(names1 == names0);
        }
        i = i + 1;
    }
    assert(all@.take(all@.len() as int) =~= all@);
    assert(fv.take(all@.len() as int) =~= fv);
    out
}

/// Cluster the pages by the key script variables they define. The key signals are the
/// 20 most frequent `name:type` entries counted on more than 10 pages and on fewer than
/// `upper_threshold` pages (near-universal ones are left out); each page's fingerprint is
/// its matching key signals joined by `+` (`(none)` when it has none); pages with the same
/// fingerprint form a cluster; clusters come largest first, equal sizes in fingerprint
/// order, each with at most three sample pages.
pub fn build_clusters(
    freq: &ElementFrequencies,
    all_signals: &[(String, PageSignals)],
    upper_threshold: usize,
) -> (r: Vec<Cluster>)
    ensures
        exists|t: Seq<(Seq<char>, nat)>|
            #[trigger] fingerprint_table(
                t,
                fingerprints(key_signals(freq.js_var_types@, upper_threshold as nat), all_signals@),
            ) && clusters_view(r@) == ranked_clusters(
                t,
                all_signals@,
                fingerprints(key_signals(freq.js_var_types@, upper_threshold as nat), all_signals@),
            ),
        forall|i: int, j: int| 0 <= i < j < r@.len() ==> #[trigger] r@[i].count >= #[trigger] r@[j].count,
        forall|k: int| 0 <= k < r@.len() ==> #[trigger] r@[k].count > 0 && r@[k].sample_files@.len() <= 3,
{
    let keys = key_signal_list(&freq.js_var_types, upper_threshold);
    let ghost kv = string_views(keys@);
    let mut fps: Vec<String> = Vec::new();
    let mut table = FreqTable::new();
    let mut i: usize = 0;
    while i < all_signals.len()
        invariant
            i <= all_signals@.len(),
            kv == string_views(keys@),
            string_views(fps@) == fingerprints(kv, all_signals@.take(i as int)),
            table_ok(table@),
            forall|x: Seq<char>| #[trigger] lookup(table@, x) == occurrences(string_views(fps@), x),
            fps@.len() == i,
        decreases all_signals@.len() - i,
    {
        let fp = page_fingerprint(&keys, &all_signals[i].1);
        let ghost before = string_views(fps@);
        proof {
            lemma_occurrences_bound(before, fp@);
        }
        table.bump(&fp);
        fps.push(fp);
        proof {
            assert(string_views(fps@) =~= before.push(fp@));
            assert(string_views(fps@).drop_last() =~= before);
            assert(fingerprints(kv, all_signals@.take(i + 1)) =~= fingerprints(kv, all_signals@.take(i as int)).push(
                fingerprint(kv, all_signals@[i as int].1),
            ));
        }
        i = i + 1;
    }
    assert(all_signals@.take(all_signals@.len() as int) =~= all_signals@);
    let ghost fv = string_views(fps@);
    let ghost tv = table@;
    // one cluster per fingerprint, in fingerprint order
    let mut clusters: Vec<Cluster> = Vec::new();
    let mut k: usize = 0;
    while k < table.entries.len()
        invariant
            k <= tv.len(),
            tv == table@,
            tv.len() == table.entries@.len(),
            fv == string_views(fps@),
            fps@.len() == all_signals@.len(),
            clusters_view(clusters@) == table_clusters(tv, all_signals@, fv).take(k as int),
        decreases tv.len() - k,
    {
        let name = table.entries[k].0.clone();
        let pieces = split_pieces(chars_of(name.as_str()).as_slice(), Some('+'));
        let defining_signals = pieces_to_strings(&pieces);
        let sample_files = first_pages_named(all_signals, &fps, &name, 3);
        let c = Cluster { name, defining_signals, count: table.entries[k].1, sample_files };
        let ghost before = clusters_view(clusters@);
        clusters.push(c);
        assert(clusters_view(clusters@) =~= before.push(cluster_view(c)));
        assert(table_clusters(tv, all_signals@, fv).take(k + 1) =~= table_clusters(tv, all_signals@, fv).take(
            k as int,
        ).push(table_clusters(tv, all_signals@, fv)[k as int]));
        k = k + 1;
    }
    let ghost cv = table_clusters(tv, all_signals@, fv);
    assert(clusters_view(clusters@) =~= cv);
    let mut counts: Vec<u128> = Vec::new();
    let mut q: usize = 0;
    while q < clusters.len()
        invariant
            q <= clusters@.len(),
            counts@.len() == q,
            forall|j: int| 0 <= j < q ==> #[trigger] counts@[j] == clusters@[j].count as u128,
        decreases clusters@.len() - q,
    {
        counts.push(clusters[q].count as u128);
        q = q + 1;
    }
    assert(counts@ =~= cluster_counts(cv));
    let order = order_by_score_desc(&counts);
    let mut out: Vec<Cluster> = Vec::new();
    let mut m: usize = 0;
    while m < order.len()
        invariant
            m <= order@.len(),
            order@.len() == clusters@.len(),
            cv == clusters_view(clusters@),
            counts@ == cluster_counts(cv),
            forall|j: int| 0 <= j < order@.len() ==> #[trigger] order@[j] as int == order_desc(counts@)[j],
            forall|j: int| 0 <= j < order@.len() ==> #[trigger] order@[j] < clusters@.len(),
            out@.len() == m,
            forall|j: int| 0 <= j < m ==> #[trigger] clusters_view(out@)[j] == cv[order_desc(counts@)[j]],
        decreases order@.len() - m,
    {
        let idx = order[m];
        let src = &clusters[idx];
        let c = Cluster {
            name: src.name.clone(),
            defining_signals: copy_string_vec(&src.defining_signals),
            count: src.count,
            sample_files: copy_string_vec(&src.sample_files),
        };
        let ghost before = out@;
        out.push(c);
        assert forall|j: int| 0 <= j < m + 1 implies #[trigger] clusters_view(out@)[j] == cv[order_desc(counts@)[j]] by {
            if j < m {
                assert(out@[j] == before[j]);
                assert(clusters_view(before)[j] == cv[order_desc(counts@)[j]]);
            } else {
                assert(order@[m as int] as int == order_desc(counts@)[m as int]);
                assert(out@[j] == c);
                assert(clusters_view(clusters@)[idx as int] == cluster_view(clusters@[idx as int]));
            }
        }
        m = m + 1;
    }
    assert(clusters_view(out@) =~= ranked_clusters(tv, all_signals@, fv));
    assert(fingerprint_table(tv, fv));
    proof {
        let s = indexed(counts@);
        let sd = sort_desc(s);
        lemma_sort_desc_facts(s);
        assert forall|k: int| 0 <= k < out@.len() implies #[trigger] out@[k].count as int == sd[k].0 by {
            let j = choose|j: int| 0 <= j < s.len() && #[trigger] sd[k] == s[j];
            assert(order_desc(counts@)[k] == sd[k].1);
            assert(clusters_view(out@)[k] == cv[order_desc(counts@)[k]]);
            assert(cv[j] == cluster_view(clusters@[j]));
            assert(counts@[j] == clusters@[j].count as u128);
        }
        assert forall|i: int, j: int| 0 <= i < j < out@.len() implies #[trigger] out@[i].count >= #[trigger] out@[j].count by {
            assert(out@[i].count as int == sd[i].0);
            assert(out@[j].count as int == sd[j].0);
        }
        assert forall|k: int| 0 <= k < out@.len() implies #[trigger] out@[k].count > 0 && out@[k].sample_files@.len() <= 3 by {
            let o = order_desc(counts@)[k];
            assert(clusters_view(out@)[k] == cv[o]);
            assert(0 <= o < tv.len()) by {
                let j = choose|j: int| 0 <= j < s.len() && #[trigger] sd[k] == s[j];
                assert(o == sd[k].1);
            }
            assert(tv[o].1 > 0);
            assert(cv[o].2 == tv[o].1);
            assert(cv[o].3.len() <= 3);
            assert(clusters_view(out@)[k] == cluster_view(out@[k]));
            assert(string_views(out@[k].sample_files@).len() == out@[k].sample_files@.len());
        }
    }
    out
}

proof fn lemma_occurrences_bound(fps: Seq<Seq<char>>, x: Seq<char>)
    ensures
        occurrences(fps, x) <= fps.len(),
    decreases fps.len(),
{
    if fps.len() > 0 {
        lemma_occurrences_bound(fps.drop_last(), x);
    }
}

/// The sum of a table's counts.
pub open spec fn table_total(t: Seq<(Seq<char>, nat)>) -> nat
    decreases t.len(),
{
    if t.len() == 0 {
        0
    } else {
        t[0].1 + table_total(t.drop_first())
    }
}

/// The keys of a table, in its order.
pub open spec fn table_keys(t: Seq<(Seq<char>, nat)>) -> Seq<Seq<char>> {
    t.map_values(|e: (Seq<char>, nat)| e.0)
}

/// How many of `fps` are among `keys`.
pub open spec fn count_in(fps: Seq<Seq<char>>, keys: Seq<Seq<char>>) -> nat
    decreases fps.len(),
{
    if fps.len() == 0 {
        0
    } else {
        count_in(fps.drop_last(), keys) + if keys.contains(fps.last()) {
            1nat
        } else {
            0nat
        }
    }
}

proof fn lemma_count_in_none(fps: Seq<Seq<char>>)
    ensures
        count_in(fps, Seq::<Seq<char>>::empty()) == 0,
    decreases fps.len(),
{
    if fps.len() > 0 {
        lemma_count_in_none(fps.drop_last());
    }
}

proof fn lemma_count_in_cons(fps: Seq<Seq<char>>, k0: Seq<char>, keys: Seq<Seq<char>>)
    requires
        !keys.contains(k0),
    ensures
        count_in(fps, seq![k0] + keys) == occurrences(fps, k0) + count_in(fps, keys),
    decreases fps.len(),
{
    if fps.len() > 0 {
        lemma_count_in_cons(fps.drop_last(), k0, keys);
        let y = fps.last();
        let ks = seq![k0] + keys;
        if y == k0 {
            assert(ks[0] == k0);
        }
        if keys.contains(y) {
            let i = choose|i: int| 0 <= i < keys.len() && keys[i] == y;
            assert(ks[i + 1] == y);
        }
        if ks.contains(y) {
            let i = choose|i: int| 0 <= i < ks.len() && ks[i] == y;
            if i > 0 {
                assert(keys[i - 1] == y);
            }
        }
    }
}

proof fn lemma_count_in_all(fps: Seq<Seq<char>>, keys: Seq<Seq<char>>)
    requires
        forall|i: int| 0 <= i < fps.len() ==> keys.contains(#[trigger] fps[i]),
    ensures
        count_in(fps, keys) == fps.len(),
    decreases fps.len(),
{
    if fps.len() > 0 {
        let u = fps.drop_last();
        assert forall|i: int| 0 <= i < u.len() implies keys.contains(#[trigger] u[i]) by {
            assert(u[i] == fps[i]);
        }
        lemma_count_in_all(u, keys);
        assert(keys.contains(fps[fps.len() - 1]));
    }
}

proof fn lemma_occurrences_at(fps: Seq<Seq<char>>, i: int)
    requires
        0 <= i < fps.len(),
    ensures
        occurrences(fps, fps[i]) > 0,
    decreases fps.len(),
{
    if i < fps.len() - 1 {
        lemma_occurrences_at(fps.drop_last(), i);
        assert(fps.drop_last()[i] == fps[i]);
    }
}

proof fn lemma_table_total_count(t: Seq<(Seq<char>, nat)>, fps: Seq<Seq<char>>)
    requires
        ascending(t),
        forall|m: int| 0 <= m < t.len() ==> #[trigger] t[m].1 == occurrences(fps, t[m].0),
    ensures
        table_total(t) == count_in(fps, table_keys(t)),
    decreases t.len(),
{
    if t.len() == 0 {
        assert(table_keys(t) =~= Seq::<Seq<char>>::empty());
        lemma_count_in_none(fps);
    } else {
        let u = t.drop_first();
        assert forall|a: int, b: int| 0 <= a < b < u.len() implies str_lt(#[trigger] u[a].0, #[trigger] u[b].0) by {
            assert(u[a] == t[a + 1] && u[b] == t[b + 1]);
        }
        assert forall|m: int| 0 <= m < u.len() implies #[trigger] u[m].1 == occurrences(fps, u[m].0) by {
            assert(u[m] == t[m + 1]);
        }
        lemma_table_total_count(u, fps);
        assert(table_keys(t) =~= seq![t[0].0] + table_keys(u));
        if table_keys(u).contains(t[0].0) {
            let i = choose|i: int| 0 <= i < table_keys(u).len() && table_keys(u)[i] == t[0].0;
            assert(u[i] == t[i + 1]);
            assert(str_lt(t[0].0, t[i + 1].0));
            lemma_str_lt_irrefl(t[0].0);
        }
        lemma_count_in_cons(fps, t[0].0, table_keys(u));
    }
}

/// Every page is counted under exactly one fingerprint: the counts of a fingerprint table
/// add up to the number of pages.
pub proof fn law_fingerprint_counts_cover_pages(t: Seq<(Seq<char>, nat)>, fps: Seq<Seq<char>>)
    requires
        fingerprint_table(t, fps),
    ensures
        table_total(t) == fps.len(),
{
    assert forall|m: int| 0 <= m < t.len() implies #[trigger] t[m].1 == occurrences(fps, t[m].0) by {
        lemma_lookup_at(t, m);
        assert(lookup(t, t[m].0) == occurrences(fps, t[m].0));
    }
    lemma_table_total_count(t, fps);
    assert forall|i: int| 0 <= i < fps.len() implies table_keys(t).contains(#[trigger] fps[i]) by {
        lemma_occurrences_at(fps, i);
        assert(lookup(t, fps[i]) == occurrences(fps, fps[i]));
        lemma_lookup_entries(t, fps[i]);
        let m = choose|m: int| 0 <= m < t.len() && t[m].0 == fps[i];
        assert(table_keys(t)[m] == fps[i]);
    }
    lemma_count_in_all(fps, table_keys(t));
}

/// The names of clusters, in their order.
pub open spec fn cluster_names(c: Seq<(Seq<char>, Seq<Seq<char>>, nat, Seq<Seq<char>>)>) -> Seq<Seq<char>> {
    c.map_values(|x: (Seq<char>, Seq<Seq<char>>, nat, Seq<Seq<char>>)| x.0)
}

/// Every page falls in exactly one cluster: the clusters' names are distinct, each page's
/// fingerprint is the name of a cluster, and each cluster counts the pages with its
/// fingerprint.
pub proof fn law_clusters_partition_pages(
    t: Seq<(Seq<char>, nat)>,
    all: Seq<(String, PageSignals)>,
    fps: Seq<Seq<char>>,
)
    requires
        fingerprint_table(t, fps),
    ensures
        forall|k1: int, k2: int|
            0 <= k1 < k2 < ranked_clusters(t, all, fps).len() ==> #[trigger] ranked_clusters(t, all, fps)[k1].0
                != #[trigger] ranked_clusters(t, all, fps)[k2].0,
        forall|i: int| 0 <= i < fps.len() ==> cluster_names(ranked_clusters(t, all, fps)).contains(#[trigger] fps[i]),
        forall|k: int|
            0 <= k < ranked_clusters(t, all, fps).len() ==> #[trigger] ranked_clusters(t, all, fps)[k].2
                == occurrences(fps, ranked_clusters(t, all, fps)[k].0),
{
    let c = table_clusters(t, all, fps);
    let counts = cluster_counts(c);
    let o = order_desc(counts);
    let r = ranked_clusters(t, all, fps);
    lemma_order_desc_permutation(counts);
    assert(counts.len() == t.len());
    assert forall|k: int| 0 <= k < r.len() implies #[trigger] r[k] == c[o[k]] && 0 <= o[k] < t.len() by {}
    assert forall|k1: int, k2: int| 0 <= k1 < k2 < r.len() implies #[trigger] r[k1].0 != #[trigger] r[k2].0 by {
        let a = o[k1];
        let b = o[k2];
        assert(r[k1] == c[a] && r[k2] == c[b]);
        assert(a != b);
        lemma_str_lt_irrefl(t[a].0);
        if a < b {
            assert(str_lt(t[a].0, t[b].0));
        } else {
            assert(str_lt(t[b].0, t[a].0));
        }
    }
    assert forall|i: int| 0 <= i < fps.len() implies cluster_names(r).contains(#[trigger] fps[i]) by {
        lemma_occurrences_at(fps, i);
        assert(lookup(t, fps[i]) == occurrences(fps, fps[i]));
        lemma_lookup_entries(t, fps[i]);
        let m = choose|m: int| 0 <= m < t.len() && t[m].0 == fps[i];
        assert(o.contains(m));
        let k = choose|k: int| 0 <= k < o.len() && o[k] == m;
        assert(r[k] == c[m]);
        assert(cluster_names(r)[k] == fps[i]);
    }
    assert forall|k: int| 0 <= k < r.len() implies #[trigger] r[k].2 == occurrences(fps, r[k].0) by {
        let m = o[k];
        assert(r[k] == c[m]);
        lemma_lookup_at(t, m);
        assert(lookup(t, t[m].0) == occurrences(fps, t[m].0));
    }
}

fn copy_string_vec(v: &Vec<String>) -> (r: Vec<String>)
    ensures
        string_views(r@) == string_views(v@),
{
    let mut out: Vec<String> = Vec::new();
    let mut i: usize = 0;
    while i < v.len()
        invariant
            i <= v@.len(),
            string_views(out@) == string_views(v@).take(i as int),
        decreases v@.len() - i,
    {
        let ghost before = string_views(out@);
        out.push(v[i].clone());
        assert(string_views(out@) =~= before.push(v@[i as int]@));
        assert(string_views(v@).take(i + 1) =~= string_views(v@).take(i as int).push(v@[i as int]@));
        i = i + 1;
    }
    assert(string_views(v@).take(v@.len() as int) =~= string_views(v@));
    out
}

// ---------------------------------------------------------------------------
// Laws of the discriminating signals
// ---------------------------------------------------------------------------

proof fn lemma_partial_signals_bounds(t: Seq<(Seq<char>, nat)>, cat: Seq<char>, total: nat)
    ensures
        forall|k: int|
            0 <= k < partial_signals(t, cat, total).len() ==> 0 < #[trigger] partial_signals(t, cat, total)[k].2
                < total,
    decreases t.len(),
{
    if t.len() > 0 {
        let r = partial_signals(t.drop_last(), cat, total);
        lemma_partial_signals_bounds(t.drop_last(), cat, total);
        let e = t.last();
        if 0 < e.1 && e.1 < total {
            assert forall|k: int| 0 <= k < r.push((cat, e.0, e.1)).len() implies 0 < #[trigger] r.push(
                (cat, e.0, e.1),
            )[k].2 < total by {
                if k < r.len() {
                    assert(r.push((cat, e.0, e.1))[k] == r[k]);
                }
            }
        }
    }
}

proof fn lemma_partial_over_bounds(f: ElementFrequencies, cats: Seq<Category>, total: nat)
    ensures
        forall|k: int|
            0 <= k < partial_over(f, cats, total).len() ==> 0 < #[trigger] partial_over(f, cats, total)[k].2 < total,
    decreases cats.len(),
{
    if cats.len() > 0 {
        let a = partial_over(f, cats.drop_last(), total);
        let b = partial_signals(table_of(f, cats.last()), category_name(cats.last()), total);
        lemma_partial_over_bounds(f, cats.drop_last(), total);
        lemma_partial_signals_bounds(table_of(f, cats.last()), category_name(cats.last()), total);
        assert forall|k: int| 0 <= k < (a + b).len() implies 0 < #[trigger] (a + b)[k].2 < total by {
            if k >= a.len() {
                assert((a + b)[k] == b[k - a.len()]);
            }
        }
    }
}

/// A discriminating signal is seen on at least one page and not on all `total` pages, and
/// the signals come most frequent first.
pub proof fn law_discriminating_signals(f: ElementFrequencies, total: usize)
    ensures
        forall|k: int|
            0 <= k < discriminating(f, total as nat).len() ==> 0 < #[trigger] discriminating(f, total as nat)[k].2
                < total,
        forall|i: int, j: int|
            0 <= i < j < discriminating(f, total as nat).len() ==> #[trigger] discriminating(f, total as nat)[i].2
                >= #[trigger] discriminating(f, total as nat)[j].2,
{
    let c = partial_over(f, report_order(), total as nat);
    let counts = signal_counts(c);
    let s = sort_desc(indexed(counts));
    let d = discriminating(f, total as nat);
    lemma_partial_over_bounds(f, report_order(), total as nat);
    lemma_sort_desc_facts(indexed(counts));
    assert forall|m: int| 0 <= m < d.len() implies {
        &&& 0 <= s[m].1 < c.len()
        &&& d[m] == c[s[m].1]
        &&& s[m].0 == d[m].2
    } by {
        let j = choose|j: int| 0 <= j < indexed(counts).len() && #[trigger] s[m] == indexed(counts)[j];
        assert(indexed(counts)[j] == (counts[j] as int, j));
        assert(order_desc(counts)[m] == j);
        assert(c[j].2 < total);
        assert(counts[j] == c[j].2 as u128);
    }
    assert forall|i: int, j: int| 0 <= i < j < d.len() implies #[trigger] d[i].2 >= #[trigger] d[j].2 by {
        assert(s[i].0 >= s[j].0);
    }
}

} // verus!
