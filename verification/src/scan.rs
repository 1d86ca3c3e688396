//! The raw signals of a page, extracted without assumptions about its structure: element
//! counts, identifiers, classes, data attributes, table headers, selects, script variables,
//! AJAX addresses, script types, meta tags and link relations.
//!
//! Elements are visited in the parser's arena order, as `scraper` lists them; values that
//! are collected once are kept in order of first appearance.

use vstd::prelude::*;
use crate::freq::{lookup, table_ok, FreqTable};
use crate::html::{
    element_text, node_attr, parse_document, parsed_html, select, select_under, HtmlDoc, HtmlKind, HtmlKindV, HtmlNodeV,
    Sel, SelV,
};
use crate::captures::{captures_of, group, groups_view, matches_of};
use crate::text::{chars_of, split_words, string_views, trim, trim_string, words};

verus! {

// ---------------------------------------------------------------------------
// First appearances
// ---------------------------------------------------------------------------

/// The non-empty values of `vals`, each once, in order of first appearance.
pub open spec fn first_seen(vals: Seq<Seq<char>>) -> Seq<Seq<char>>
    decreases vals.len(),
{
    if vals.len() == 0 {
        Seq::empty()
    } else {
        let r = first_seen(vals.drop_last());
        let v = vals.last();
        if v.len() == 0 || r.contains(v) {
            r
        } else {
            r.push(v)
        }
    }
}

fn is_among(out: &Vec<String>, v: &String) -> (r: bool)
    ensures
        r == string_views(out@).contains(v@),
{
    let mut i: usize = 0;
    while i < out.len()
        invariant
            i <= out@.len(),
            forall|k: int| 0 <= k < i ==> #[trigger] out@[k]@ != v@,
        decreases out@.len() - i,
    {
        if out[i] == *v {
            assert(string_views(out@)[i as int] == v@);
            return true;
        }
        i = i + 1;
    }
    assert forall|k: int| 0 <= k < string_views(out@).len() implies string_views(out@)[k] != v@ by {
        assert(string_views(out@)[k] == out@[k]@);
    }
    false
}

/// Add `v` unless it is empty or already there.
fn push_first_seen(out: &mut Vec<String>, v: String)
    ensures
        string_views(final(out)@) == if v@.len() == 0 || string_views(old(out)@).contains(v@) {
            string_views(old(out)@)
        } else {
            string_views(old(out)@).push(v@)
        },
{
    if v.as_str().is_empty() {
        return;
    }
    if !is_among(out, &v) {
        let ghost before = string_views(out@);
        out.push(v);
        assert(string_views(out@) =~= before.push(out@[out@.len() - 1]@));
    }
}

// ---------------------------------------------------------------------------
// Element counts
// ---------------------------------------------------------------------------

pub open spec fn element_name(n: HtmlNodeV) -> Option<Seq<char>> {
    match n.kind {
        HtmlKindV::Element { name, .. } => Some(name),
        _ => None,
    }
}

/// The number of elements named `tag`.
pub open spec fn count_named(ns: Seq<HtmlNodeV>, tag: Seq<char>) -> nat
    decreases ns.len(),
{
    if ns.len() == 0 {
        0
    } else {
        count_named(ns.drop_last(), tag) + if element_name(ns.last()) == Some(tag) {
            1nat
        } else {
            0nat
        }
    }
}

proof fn lemma_count_named_bound(ns: Seq<HtmlNodeV>, tag: Seq<char>)
    ensures
        count_named(ns, tag) <= ns.len(),
    decreases ns.len(),
{
    if ns.len() > 0 {
        lemma_count_named_bound(ns.drop_last(), tag);
    }
}

/// Count the elements of a page by name.
pub fn tag_counts(doc: &HtmlDoc) -> (r: FreqTable)
    ensures
        table_ok(r@),
        forall|x: Seq<char>| #[trigger] lookup(r@, x) == count_named(doc@, x),
{
    let ghost ns = doc@;
    let mut t = FreqTable::new();
    let mut i: usize = 0;
    assert(ns.take(0) =~= Seq::<HtmlNodeV>::empty());
    while i < doc.nodes.len()
        invariant
            i <= doc.nodes@.len(),
            ns == doc@,
            ns.len() == doc.nodes@.len(),
            table_ok(t@),
            forall|x: Seq<char>| #[trigger] lookup(t@, x) == count_named(ns.take(i as int), x),
        decreases doc.nodes@.len() - i,
    {
        assert(ns.take(i + 1).drop_last() =~= ns.take(i as int));
        assert(ns.take(i + 1).last() == ns[i as int]);
        assert(ns[i as int] == doc.nodes@[i as int]@);
        match &doc.nodes[i].kind {
            HtmlKind::Element(name, _) => {
                proof {
                    lemma_count_named_bound(ns.take(i as int), name@);
                }
                t.bump(name);
            },
            _ => {},
        }
        i = i + 1;
    }
    assert(ns.take(doc.nodes@.len() as int) =~= ns);
    t
}

// ---------------------------------------------------------------------------
// Attributes and texts in arena order
// ---------------------------------------------------------------------------

pub open spec fn index_view(v: Seq<usize>) -> Seq<int> {
    v.map_values(|k: usize| k as int)
}

/// The values of attribute `key` of the elements `m`, in order.
pub open spec fn attr_values(ns: Seq<HtmlNodeV>, m: Seq<int>, key: Seq<char>) -> Seq<Seq<char>>
    decreases m.len(),
{
    if m.len() == 0 {
        Seq::empty()
    } else {
        attr_values(ns, m.drop_last(), key) + match node_attr(ns[m.last()], key) {
            Some(v) => seq![v],
            None => Seq::empty(),
        }
    }
}

/// The whitespace-separated classes of the elements `m`, in order.
pub open spec fn class_tokens(ns: Seq<HtmlNodeV>, m: Seq<int>) -> Seq<Seq<char>>
    decreases m.len(),
{
    if m.len() == 0 {
        Seq::empty()
    } else {
        class_tokens(ns, m.drop_last()) + match node_attr(ns[m.last()], "class"@) {
            Some(v) => words(v),
            None => Seq::empty(),
        }
    }
}

/// The trimmed texts of the elements `m`, in order.
pub open spec fn trimmed_texts(ns: Seq<HtmlNodeV>, m: Seq<int>) -> Seq<Seq<char>> {
    m.map_values(|i: int| trim(element_text(ns, i)))
}

/// The values of attribute `key` over the elements `els`, each non-empty value once.
fn distinct_attr_values(doc: &HtmlDoc, els: &Vec<usize>, key: &str) -> (r: Vec<String>)
    requires
        forall|k: int| 0 <= k < els@.len() ==> #[trigger] els@[k] < doc@.len(),
    ensures
        string_views(r@) == first_seen(attr_values(doc@, index_view(els@), key@)),
{
    let ghost m = index_view(els@);
    let mut out: Vec<String> = Vec::new();
    let mut j: usize = 0;
    assert(m.take(0) =~= Seq::<int>::empty());
    assert(attr_values(doc@, m.take(0), key@) =~= Seq::<Seq<char>>::empty());
    while j < els.len()
        invariant
            j <= els@.len(),
            m == index_view(els@),
            forall|k: int| 0 <= k < els@.len() ==> #[trigger] els@[k] < doc@.len(),
            string_views(out@) == first_seen(attr_values(doc@, m.take(j as int), key@)),
        decreases els@.len() - j,
    {
        let ghost prev = attr_values(doc@, m.take(j as int), key@);
        assert(m.take(j + 1).drop_last() =~= m.take(j as int));
        assert(m.take(j + 1).last() == els@[j as int] as int);
        match doc.attr(els[j], key) {
            Some(v) => {
                assert(attr_values(doc@, m.take(j + 1), key@) =~= prev.push(v@));
                assert(prev.push(v@).drop_last() =~= prev);
                push_first_seen(&mut out, v);
            },
            None => {
                assert(attr_values(doc@, m.take(j + 1), key@) =~= prev);
            },
        }
        j = j + 1;
    }
    assert(m.take(els@.len() as int) =~= m);
    out
}

proof fn lemma_first_seen_append(a: Seq<Seq<char>>, b: Seq<Seq<char>>, k: int)
    requires
        0 <= k < b.len(),
    ensures
        first_seen(a + b.take(k + 1)) == ({
            let r = first_seen(a + b.take(k));
            if b[k].len() == 0 || r.contains(b[k]) {
                r
            } else {
                r.push(b[k])
            }
        }),
{
    assert((a + b.take(k + 1)).drop_last() =~= a + b.take(k));
    assert((a + b.take(k + 1)).last() == b[k]);
}

/// The classes over the elements `els`, each once.
fn distinct_classes(doc: &HtmlDoc, els: &Vec<usize>) -> (r: Vec<String>)
    requires
        forall|k: int| 0 <= k < els@.len() ==> #[trigger] els@[k] < doc@.len(),
    ensures
        string_views(r@) == first_seen(class_tokens(doc@, index_view(els@))),
{
    let ghost m = index_view(els@);
    let mut out: Vec<String> = Vec::new();
    let mut j: usize = 0;
    assert(m.take(0) =~= Seq::<int>::empty());
    assert(class_tokens(doc@, m.take(0)) =~= Seq::<Seq<char>>::empty());
    while j < els.len()
        invariant
            j <= els@.len(),
            m == index_view(els@),
            forall|k: int| 0 <= k < els@.len() ==> #[trigger] els@[k] < doc@.len(),
            string_views(out@) == first_seen(class_tokens(doc@, m.take(j as int))),
        decreases els@.len() - j,
    {
        let ghost prev = class_tokens(doc@, m.take(j as int));
        assert(m.take(j + 1).drop_last() =~= m.take(j as int));
        assert(m.take(j + 1).last() == els@[j as int] as int);
        match doc.attr(els[j], "class") {
            Some(v) => {
                let toks = split_words(chars_of(v.as_str()).as_slice());
                let ghost tv = string_views(toks@);
                assert(class_tokens(doc@, m.take(j + 1)) =~= prev + tv);
                let mut q: usize = 0;
                assert(prev + tv.take(0) =~= prev);
                while q < toks.len()
                    invariant
                        q <= toks@.len(),
                        tv == string_views(toks@),
                        string_views(out@) == first_seen(prev + tv.take(q as int)),
                    decreases toks@.len() - q,
                {
                    proof {
                        lemma_first_seen_append(prev, tv, q as int);
                    }
                    push_first_seen(&mut out, toks[q].clone());
                    q = q + 1;
                }
                assert(tv.take(toks@.len() as int) =~= tv);
            },
            None => {
                assert(class_tokens(doc@, m.take(j + 1)) =~= prev);
            },
        }
        j = j + 1;
    }
    assert(m.take(els@.len() as int) =~= m);
    out
}

/// The trimmed texts of the elements `els`, each non-empty text once.
fn distinct_texts(doc: &HtmlDoc, els: &Vec<usize>) -> (r: Vec<String>)
    requires
        forall|k: int| 0 <= k < els@.len() ==> #[trigger] els@[k] < doc@.len(),
    ensures
        string_views(r@) == first_seen(trimmed_texts(doc@, index_view(els@))),
{
    let ghost m = index_view(els@);
    let ghost tv = trimmed_texts(doc@, m);
    let mut out: Vec<String> = Vec::new();
    let mut j: usize = 0;
    assert(tv.take(0) =~= Seq::<Seq<char>>::empty());
    while j < els.len()
        invariant
            j <= els@.len(),
            m == index_view(els@),
            tv == trimmed_texts(doc@, m),
            forall|k: int| 0 <= k < els@.len() ==> #[trigger] els@[k] < doc@.len(),
            string_views(out@) == first_seen(tv.take(j as int)),
        decreases els@.len() - j,
    {
        assert(tv.take(j + 1).drop_last() =~= tv.take(j as int));
        let text = trim_string(doc.element_text(els[j]).as_str());
        assert(tv.take(j + 1).last() == text@);
        push_first_seen(&mut out, text);
        j = j + 1;
    }
    assert(tv.take(els@.len() as int) =~= tv);
    out
}

/// The trimmed text of the first `title` element, or nothing.
pub open spec fn title_of(ns: Seq<HtmlNodeV>) -> Seq<char> {
    let m = select(ns, SelV::Tag("title"@));
    if m.len() > 0 {
        trim(element_text(ns, m[0]))
    } else {
        Seq::empty()
    }
}

fn page_title(doc: &HtmlDoc) -> (r: String)
    ensures
        r@ == title_of(doc@),
{
    let m = doc.select(&Sel::Tag("title".to_owned()));
    if m.len() > 0 {
        trim_string(doc.element_text(m[0]).as_str())
    } else {
        String::new()
    }
}

// ---------------------------------------------------------------------------
// Data attributes
// ---------------------------------------------------------------------------

pub open spec fn node_attrs(n: HtmlNodeV) -> Seq<(Seq<char>, Seq<char>)> {
    match n.kind {
        HtmlKindV::Element { attrs, .. } => attrs,
        _ => Seq::empty(),
    }
}

/// The `data-*` attributes among `attrs`, in order.
pub open spec fn data_attr_list(attrs: Seq<(Seq<char>, Seq<char>)>) -> Seq<(Seq<char>, Seq<char>)>
    decreases attrs.len(),
{
    if attrs.len() == 0 {
        Seq::empty()
    } else {
        data_attr_list(attrs.drop_last()) + if crate::text::starts_with(attrs.last().0, "data-"@) {
            seq![attrs.last()]
        } else {
            Seq::empty()
        }
    }
}

/// The `data-*` attributes of the elements `m`, element after element.
pub open spec fn data_pairs(ns: Seq<HtmlNodeV>, m: Seq<int>) -> Seq<(Seq<char>, Seq<char>)>
    decreases m.len(),
{
    if m.len() == 0 {
        Seq::empty()
    } else {
        data_pairs(ns, m.drop_last()) + data_attr_list(node_attrs(ns[m.last()]))
    }
}

/// The values of the pairs named `key`, in order.
pub open spec fn values_for(pairs: Seq<(Seq<char>, Seq<char>)>, key: Seq<char>) -> Seq<Seq<char>>
    decreases pairs.len(),
{
    if pairs.len() == 0 {
        Seq::empty()
    } else {
        values_for(pairs.drop_last(), key) + if pairs.last().0 == key {
            seq![pairs.last().1]
        } else {
            Seq::empty()
        }
    }
}

/// Whether some group is named `x`.
pub open spec fn names_group(r: Seq<(Seq<char>, Seq<Seq<char>>)>, x: Seq<char>) -> bool {
    exists|k: int| 0 <= k < r.len() && #[trigger] r[k].0 == x
}

/// Whether some pair is named `x`.
pub open spec fn names_pair(pairs: Seq<(Seq<char>, Seq<char>)>, x: Seq<char>) -> bool {
    exists|p: int| 0 <= p < pairs.len() && #[trigger] pairs[p].0 == x
}

/// `r` groups `pairs` by name: names in ascending order, each name of the pairs once, each
/// with its values in order.
pub open spec fn grouped(r: Seq<(Seq<char>, Seq<Seq<char>>)>, pairs: Seq<(Seq<char>, Seq<char>)>) -> bool {
    &&& forall|i: int, j: int| 0 <= i < j < r.len() ==> crate::freq::str_lt(#[trigger] r[i].0, #[trigger] r[j].0)
    &&& forall|x: Seq<char>|
        #![trigger names_group(r, x)]
        #![trigger names_pair(pairs, x)]
        names_group(r, x) <==> names_pair(pairs, x)
    &&& forall|k: int| 0 <= k < r.len() ==> (#[trigger] r[k]).1 == values_for(pairs, r[k].0)
}

pub open spec fn group_views(v: Seq<(String, Vec<String>)>) -> Seq<(Seq<char>, Seq<Seq<char>>)> {
    v.map_values(|e: (String, Vec<String>)| (e.0@, string_views(e.1@)))
}

/// The number of pairs named `key`.
pub open spec fn key_count(pairs: Seq<(Seq<char>, Seq<char>)>, key: Seq<char>) -> nat
    decreases pairs.len(),
{
    if pairs.len() == 0 {
        0
    } else {
        key_count(pairs.drop_last(), key) + if pairs.last().0 == key {
            1nat
        } else {
            0nat
        }
    }
}

proof fn lemma_key_count(pairs: Seq<(Seq<char>, Seq<char>)>, key: Seq<char>)
    ensures
        key_count(pairs, key) <= pairs.len(),
        key_count(pairs, key) > 0 <==> names_pair(pairs, key),
    decreases pairs.len(),
{
    if pairs.len() > 0 {
        let q = pairs.drop_last();
        lemma_key_count(q, key);
        if exists|p: int| 0 <= p < q.len() && #[trigger] q[p].0 == key {
            let p = choose|p: int| 0 <= p < q.len() && #[trigger] q[p].0 == key;
            assert(pairs[p] == q[p]);
        }
        if exists|p: int| 0 <= p < pairs.len() && #[trigger] pairs[p].0 == key {
            let p = choose|p: int| 0 <= p < pairs.len() && #[trigger] pairs[p].0 == key;
            if p < q.len() {
                assert(q[p] == pairs[p]);
            }
        }
    }
}

/// The `data-*` attributes of the elements `els` as (name, value) pairs, in order.
fn collect_data_pairs(doc: &HtmlDoc, els: &Vec<usize>) -> (r: Vec<(String, String)>)
    requires
        forall|k: int| 0 <= k < els@.len() ==> #[trigger] els@[k] < doc@.len(),
    ensures
        r@.map_values(|p: (String, String)| (p.0@, p.1@)) == data_pairs(doc@, index_view(els@)),
{
    let ghost m = index_view(els@);
    let mut out: Vec<(String, String)> = Vec::new();
    let mut j: usize = 0;
    assert(m.take(0) =~= Seq::<int>::empty());
    assert(out@.map_values(|p: (String, String)| (p.0@, p.1@)) =~= data_pairs(doc@, m.take(0)));
    while j < els.len()
        invariant
            j <= els@.len(),
            m == index_view(els@),
            forall|k: int| 0 <= k < els@.len() ==> #[trigger] els@[k] < doc@.len(),
            out@.map_values(|p: (String, String)| (p.0@, p.1@)) == data_pairs(doc@, m.take(j as int)),
        decreases els@.len() - j,
    {
        let ghost prev = data_pairs(doc@, m.take(j as int));
        assert(m.take(j + 1).drop_last() =~= m.take(j as int));
        assert(m.take(j + 1).last() == els@[j as int] as int);
        let e = els[j];
        assert(doc@[e as int] == doc.nodes@[e as int]@);
        match &doc.nodes[e].kind {
            HtmlKind::Element(_, attrs) => {
                let ghost av = attrs@.map_values(|a: (String, String)| (a.0@, a.1@));
                assert(node_attrs(doc@[e as int]) == av);
                let mut q: usize = 0;
                assert(av.take(0) =~= Seq::<(Seq<char>, Seq<char>)>::empty());
                assert(prev + data_attr_list(av.take(0)) =~= prev);
                while q < attrs.len()
                    invariant
                        q <= attrs@.len(),
                        av == attrs@.map_values(|a: (String, String)| (a.0@, a.1@)),
                        out@.map_values(|p: (String, String)| (p.0@, p.1@)) == prev + data_attr_list(av.take(q as int)),
                    decreases attrs@.len() - q,
                {
                    assert(av.take(q + 1).drop_last() =~= av.take(q as int));
                    assert(av.take(q + 1).last() == (attrs@[q as int].0@, attrs@[q as int].1@));
                    if crate::text::str_starts_with(attrs[q].0.as_str(), "data-") {
                        let ghost before = out@.map_values(|p: (String, String)| (p.0@, p.1@));
                        out.push((attrs[q].0.clone(), attrs[q].1.clone()));
                        assert(out@.map_values(|p: (String, String)| (p.0@, p.1@)) =~= before.push(
                            (attrs@[q as int].0@, attrs@[q as int].1@),
                        ));
                        assert(prev + data_attr_list(av.take(q + 1)) =~= (prev + data_attr_list(av.take(q as int))).push(
                            (attrs@[q as int].0@, attrs@[q as int].1@),
                        ));
                    } else {
                        assert(prev + data_attr_list(av.take(q + 1)) =~= prev + data_attr_list(av.take(q as int)));
                    }
                    q = q + 1;
                }
                assert(av.take(attrs@.len() as int) =~= av);
            },
            _ => {
                assert(node_attrs(doc@[e as int]) =~= Seq::<(Seq<char>, Seq<char>)>::empty());
                assert(prev + data_attr_list(Seq::<(Seq<char>, Seq<char>)>::empty()) =~= prev);
            },
        }
        j = j + 1;
    }
    assert(m.take(els@.len() as int) =~= m);
    out
}

fn values_named(pairs: &Vec<(String, String)>, key: &String) -> (r: Vec<String>)
    ensures
        string_views(r@) == values_for(pairs@.map_values(|p: (String, String)| (p.0@, p.1@)), key@),
{
    let ghost pv = pairs@.map_values(|p: (String, String)| (p.0@, p.1@));
    let mut out: Vec<String> = Vec::new();
    let mut i: usize = 0;
    assert(pv.take(0) =~= Seq::<(Seq<char>, Seq<char>)>::empty());
    while i < pairs.len()
        invariant
            i <= pairs@.len(),
            pv == pairs@.map_values(|p: (String, String)| (p.0@, p.1@)),
            string_views(out@) == values_for(pv.take(i as int), key@),
        decreases pairs@.len() - i,
    {
        assert(pv.take(i + 1).drop_last() =~= pv.take(i as int));
        assert(pv.take(i + 1).last() == (pairs@[i as int].0@, pairs@[i as int].1@));
        if pairs[i].0 == *key {
            let ghost before = string_views(out@);
            out.push(pairs[i].1.clone());
            assert(string_views(out@) =~= before.push(pairs@[i as int].1@));
        } else {
            assert(values_for(pv.take(i + 1), key@) =~= values_for(pv.take(i as int), key@));
        }
        i = i + 1;
    }
    assert(pv.take(pairs@.len() as int) =~= pv);
    out
}

/// Group name-value pairs by name, names in ascending order.
fn group_pairs(pairs: &Vec<(String, String)>) -> (r: Vec<(String, Vec<String>)>)
    ensures
        grouped(group_views(r@), pairs@.map_values(|p: (String, String)| (p.0@, p.1@))),
{
    let ghost pv = pairs@.map_values(|p: (String, String)| (p.0@, p.1@));
    let mut t = FreqTable::new();
    let mut i: usize = 0;
    assert(pv.take(0) =~= Seq::<(Seq<char>, Seq<char>)>::empty());
    while i < pairs.len()
        invariant
            i <= pairs@.len(),
            pv == pairs@.map_values(|p: (String, String)| (p.0@, p.1@)),
            table_ok(t@),
            forall|x: Seq<char>| #[trigger] lookup(t@, x) == key_count(pv.take(i as int), x),
        decreases pairs@.len() - i,
    {
        assert(pv.take(i + 1).drop_last() =~= pv.take(i as int));
        assert(pv.take(i + 1).last() == (pairs@[i as int].0@, pairs@[i as int].1@));
        proof {
            lemma_key_count(pv.take(i as int), pairs@[i as int].0@);
        }
        t.bump(&pairs[i].0);
        i = i + 1;
    }
    assert(pv.take(pairs@.len() as int) =~= pv);
    let ghost tv = t@;
    let mut out: Vec<(String, Vec<String>)> = Vec::new();
    let mut k: usize = 0;
    while k < t.entries.len()
        invariant
            k <= t.entries@.len(),
            pv == pairs@.map_values(|p: (String, String)| (p.0@, p.1@)),
            tv == t@,
            tv.len() == t.entries@.len(),
            table_ok(tv),
            group_views(out@).len() == k,
            forall|q: int| 0 <= q < k ==> #[trigger] group_views(out@)[q].0 == tv[q].0,
            forall|q: int| 0 <= q < k ==> (#[trigger] group_views(out@)[q]).1 == values_for(pv, tv[q].0),
        decreases t.entries@.len() - k,
    {
        let vals = values_named(pairs, &t.entries[k].0);
        assert(tv[k as int].0 == t.entries@[k as int].0@);
        let ghost before = group_views(out@);
        out.push((t.entries[k].0.clone(), vals));
        assert(group_views(out@) =~= before.push((tv[k as int].0, values_for(pv, tv[k as int].0))));
        k = k + 1;
    }
    let ghost g = group_views(out@);
    assert forall|x: Seq<char>|
        #![trigger names_group(g, x)]
        #![trigger names_pair(pv, x)]
        names_group(g, x) <==> names_pair(pv, x) by {
        lemma_key_count(pv, x);
        crate::freq::lemma_lookup_entries(tv, x);
        if exists|q: int| 0 <= q < g.len() && #[trigger] g[q].0 == x {
            let q = choose|q: int| 0 <= q < g.len() && #[trigger] g[q].0 == x;
            assert(tv[q].0 == x);
            crate::freq::lemma_lookup_at(tv, q);
        }
        if exists|p: int| 0 <= p < pv.len() && #[trigger] pv[p].0 == x {
            let i = choose|i: int| 0 <= i < tv.len() && tv[i].0 == x;
            assert(g[i].0 == x);
        }
    }
    out
}

// ---------------------------------------------------------------------------
// Selects
// ---------------------------------------------------------------------------

/// The options with a non-empty value among `opts`: their values and trimmed texts.
pub open spec fn option_entries(ns: Seq<HtmlNodeV>, opts: Seq<int>) -> (Seq<Seq<char>>, Seq<Seq<char>>)
    decreases opts.len(),
{
    if opts.len() == 0 {
        (Seq::empty(), Seq::empty())
    } else {
        let r = option_entries(ns, opts.drop_last());
        let o = opts.last();
        let v = match node_attr(ns[o], "value"@) {
            Some(v) => v,
            None => Seq::empty(),
        };
        if v.len() == 0 {
            r
        } else {
            (r.0.push(v), r.1.push(trim(element_text(ns, o))))
        }
    }
}

/// A select's signal: its id (empty without one) and its options.
pub open spec fn select_signal(ns: Seq<HtmlNodeV>, s: int) -> (Seq<char>, Seq<Seq<char>>, Seq<Seq<char>>) {
    let e = option_entries(ns, crate::html::select_under(ns, s, SelV::Tag("option"@)));
    (
        match node_attr(ns[s], "id"@) {
            Some(i) => i,
            None => Seq::empty(),
        },
        e.0,
        e.1,
    )
}

/// The signals of the selects `m` that have an id or an option.
pub open spec fn select_signals(ns: Seq<HtmlNodeV>, m: Seq<int>) -> Seq<(Seq<char>, Seq<Seq<char>>, Seq<Seq<char>>)>
    decreases m.len(),
{
    if m.len() == 0 {
        Seq::empty()
    } else {
        let r = select_signals(ns, m.drop_last());
        let s = select_signal(ns, m.last());
        if s.1.len() > 0 || s.0.len() > 0 {
            r.push(s)
        } else {
            r
        }
    }
}

pub open spec fn option_signal_views(v: Seq<crate::signals::OptionSignal>) -> Seq<(Seq<char>, Seq<Seq<char>>, Seq<Seq<char>>)> {
    v.map_values(|o: crate::signals::OptionSignal| (o.select_id@, string_views(o.values@), string_views(o.texts@)))
}

fn one_select(doc: &HtmlDoc, s: usize) -> (r: crate::signals::OptionSignal)
    requires
        s < doc@.len(),
    ensures
        (r.select_id@, string_views(r.values@), string_views(r.texts@)) == select_signal(doc@, s as int),
        r.count == r.values@.len(),
{
    let select_id = match doc.attr(s, "id") {
        Some(i) => i,
        None => String::new(),
    };
    let opts = doc.select_under(s, &Sel::Tag("option".to_owned()));
    let ghost ov = index_view(opts@);
    let mut values: Vec<String> = Vec::new();
    let mut texts: Vec<String> = Vec::new();
    let mut j: usize = 0;
    assert(ov.take(0) =~= Seq::<int>::empty());
    while j < opts.len()
        invariant
            j <= opts@.len(),
            ov == index_view(opts@),
            forall|k: int| 0 <= k < opts@.len() ==> #[trigger] opts@[k] < doc@.len(),
            values@.len() == texts@.len(),
            (string_views(values@), string_views(texts@)) == option_entries(doc@, ov.take(j as int)),
        decreases opts@.len() - j,
    {
        assert(ov.take(j + 1).drop_last() =~= ov.take(j as int));
        assert(ov.take(j + 1).last() == opts@[j as int] as int);
        let v = match doc.attr(opts[j], "value") {
            Some(v) => v,
            None => String::new(),
        };
        if !v.as_str().is_empty() {
            let text = trim_string(doc.element_text(opts[j]).as_str());
            let ghost b0 = string_views(values@);
            let ghost b1 = string_views(texts@);
            values.push(v);
            texts.push(text);
            assert(string_views(values@) =~= b0.push(values@[values@.len() - 1]@));
            assert(string_views(texts@) =~= b1.push(text@));
        }
        j = j + 1;
    }
    assert(ov.take(opts@.len() as int) =~= ov);
    let count = values.len();
    crate::signals::OptionSignal { select_id, count, values, texts }
}

/// The signals of the selects of a page that have an id or an option with a value.
fn select_option_signals(doc: &HtmlDoc) -> (r: Vec<crate::signals::OptionSignal>)
    ensures
        option_signal_views(r@) == select_signals(doc@, select(doc@, SelV::Tag("select"@))),
        forall|k: int| 0 <= k < r@.len() ==> (#[trigger] r@[k]).count == r@[k].values@.len(),
{
    let els = doc.select(&Sel::Tag("select".to_owned()));
    let ghost m = index_view(els@);
    let mut out: Vec<crate::signals::OptionSignal> = Vec::new();
    let mut j: usize = 0;
    assert(m.take(0) =~= Seq::<int>::empty());
    while j < els.len()
        invariant
            j <= els@.len(),
            m == index_view(els@),
            forall|k: int| 0 <= k < els@.len() ==> #[trigger] els@[k] < doc@.len(),
            option_signal_views(out@) == select_signals(doc@, m.take(j as int)),
            forall|k: int| 0 <= k < out@.len() ==> (#[trigger] out@[k]).count == out@[k].values@.len(),
        decreases els@.len() - j,
    {
        assert(m.take(j + 1).drop_last() =~= m.take(j as int));
        assert(m.take(j + 1).last() == els@[j as int] as int);
        let sig = one_select(doc, els[j]);
        if sig.values.len() > 0 || !sig.select_id.as_str().is_empty() {
            let ghost before = option_signal_views(out@);
            out.push(sig);
            assert(option_signal_views(out@) =~= before.push(select_signal(doc@, els@[j as int] as int)));
        }
        j = j + 1;
    }
    assert(m.take(els@.len() as int) =~= m);
    out
}

// ---------------------------------------------------------------------------
// Meta tags, link relations, script types
// ---------------------------------------------------------------------------

/// A meta tag's signal: the attribute that names it (`name`, else `property`, else
/// `http-equiv`), its name, and its content (empty without one); none when unnamed.
pub open spec fn meta_of(n: HtmlNodeV) -> Option<(Seq<char>, Seq<char>, Seq<char>)> {
    let content = match node_attr(n, "content"@) {
        Some(c) => c,
        None => Seq::empty(),
    };
    match node_attr(n, "name"@) {
        Some(v) => Some(("name"@, v, content)),
        None => match node_attr(n, "property"@) {
            Some(v) => Some(("property"@, v, content)),
            None => match node_attr(n, "http-equiv"@) {
                Some(v) => Some(("http-equiv"@, v, content)),
                None => None,
            },
        },
    }
}

pub open spec fn meta_signals(ns: Seq<HtmlNodeV>, m: Seq<int>) -> Seq<(Seq<char>, Seq<char>, Seq<char>)>
    decreases m.len(),
{
    if m.len() == 0 {
        Seq::empty()
    } else {
        let r = meta_signals(ns, m.drop_last());
        match meta_of(ns[m.last()]) {
            Some(x) => r.push(x),
            None => r,
        }
    }
}

pub open spec fn meta_views(v: Seq<crate::signals::MetaSignal>) -> Seq<(Seq<char>, Seq<char>, Seq<char>)> {
    v.map_values(|x: crate::signals::MetaSignal| (x.attr_type@, x.key@, x.content@))
}

fn meta_tags(doc: &HtmlDoc) -> (r: Vec<crate::signals::MetaSignal>)
    ensures
        meta_views(r@) == meta_signals(doc@, select(doc@, SelV::Tag("meta"@))),
{
    let els = doc.select(&Sel::Tag("meta".to_owned()));
    let ghost m = index_view(els@);
    let mut out: Vec<crate::signals::MetaSignal> = Vec::new();
    let mut j: usize = 0;
    assert(m.take(0) =~= Seq::<int>::empty());
    while j < els.len()
        invariant
            j <= els@.len(),
            m == index_view(els@),
            forall|k: int| 0 <= k < els@.len() ==> #[trigger] els@[k] < doc@.len(),
            meta_views(out@) == meta_signals(doc@, m.take(j as int)),
        decreases els@.len() - j,
    {
        assert(m.take(j + 1).drop_last() =~= m.take(j as int));
        assert(m.take(j + 1).last() == els@[j as int] as int);
        let e = els[j];
        let content = match doc.attr(e, "content") {
            Some(c) => c,
            None => String::new(),
        };
        let named = match doc.attr(e, "name") {
            Some(v) => Some(("name".to_owned(), v)),
            None => match doc.attr(e, "property") {
                Some(v) => Some(("property".to_owned(), v)),
                None => match doc.attr(e, "http-equiv") {
                    Some(v) => Some(("http-equiv".to_owned(), v)),
                    None => None,
                },
            },
        };
        match named {
            Some((attr_type, key)) => {
                let ghost before = meta_views(out@);
                out.push(crate::signals::MetaSignal { attr_type, key, content });
                assert(meta_views(out@) =~= before.push(meta_of(doc@[e as int]).unwrap()));
            },
            None => {},
        }
        j = j + 1;
    }
    assert(m.take(els@.len() as int) =~= m);
    out
}

/// The JSON-LD scripts among the scripts `m`.
pub open spec fn ld_scripts(ns: Seq<HtmlNodeV>, m: Seq<int>) -> Seq<int>
    decreases m.len(),
{
    if m.len() == 0 {
        Seq::empty()
    } else {
        let r = ld_scripts(ns, m.drop_last());
        if node_attr(ns[m.last()], "type"@) == Some("application/ld+json"@) {
            r.push(m.last())
        } else {
            r
        }
    }
}

/// The texts of the JSON-LD scripts of a page.
pub open spec fn ld_texts(ns: Seq<HtmlNodeV>) -> Seq<Seq<char>> {
    ld_scripts(ns, select(ns, SelV::Tag("script"@))).map_values(|i: int| element_text(ns, i))
}

fn ld_script_texts(doc: &HtmlDoc) -> (r: Vec<String>)
    ensures
        string_views(r@) == ld_texts(doc@),
{
    let els = doc.select(&Sel::Tag("script".to_owned()));
    let ghost m = index_view(els@);
    let mut out: Vec<String> = Vec::new();
    let mut j: usize = 0;
    assert(m.take(0) =~= Seq::<int>::empty());
    proof {
        reveal_strlit("application/ld+json");
    }
    while j < els.len()
        invariant
            j <= els@.len(),
            m == index_view(els@),
            forall|k: int| 0 <= k < els@.len() ==> #[trigger] els@[k] < doc@.len(),
            string_views(out@) == ld_scripts(doc@, m.take(j as int)).map_values(|i: int| element_text(doc@, i)),
        decreases els@.len() - j,
    {
        assert(m.take(j + 1).drop_last() =~= m.take(j as int));
        assert(m.take(j + 1).last() == els@[j as int] as int);
        let is_ld = match doc.attr(els[j], "type") {
            Some(t) => t == "application/ld+json".to_owned(),
            None => false,
        };
        if is_ld {
            let text = doc.element_text(els[j]);
            let ghost before = string_views(out@);
            out.push(text);
            assert(string_views(out@) =~= before.push(element_text(doc@, els@[j as int] as int)));
            assert(ld_scripts(doc@, m.take(j + 1)).map_values(|i: int| element_text(doc@, i)) =~= ld_scripts(
                doc@,
                m.take(j as int),
            ).map_values(|i: int| element_text(doc@, i)).push(element_text(doc@, els@[j as int] as int)));
        }
        j = j + 1;
    }
    assert(m.take(els@.len() as int) =~= m);
    out
}

/// The texts of a page's JSON-LD scripts (`<script type="application/ld+json">`), in arena
/// order: what a caller parses as JSON for `extract_signals`.
pub fn json_ld_scripts(html: &str) -> (r: Vec<String>)
    ensures
        string_views(r@) == ld_texts(parsed_html(html@, false)),
{
    let doc = parse_document(html);
    ld_script_texts(&doc)
}

/// The `@type` strings of the parsed JSON-LD scripts (`parsed[k]` is script `k` parsed, or
/// `None` when it is not JSON).
pub open spec fn ld_types(parsed: Seq<Option<crate::json::JsonV>>, n: nat) -> Seq<Seq<char>>
    decreases n,
{
    if n == 0 {
        Seq::empty()
    } else {
        let r = ld_types(parsed, (n - 1) as nat);
        let k = n - 1;
        if k < parsed.len() {
            match parsed[k] {
                Some(j) => match crate::json::jget(j, "@type"@) {
                    Some(crate::json::JsonV::Str(t)) => r.push(t),
                    _ => r,
                },
                None => r,
            }
        } else {
            r
        }
    }
}

pub open spec fn parsed_json_views(v: Seq<Option<crate::json::Json>>) -> Seq<Option<crate::json::JsonV>> {
    v.map_values(
        |x: Option<crate::json::Json>|
            match x {
                Some(j) => Some(j@),
                None => None,
            },
    )
}

fn json_ld_types(parsed: &[Option<crate::json::Json>], n: usize) -> (r: Vec<String>)
    ensures
        string_views(r@) == ld_types(parsed_json_views(parsed@), n as nat),
{
    let ghost pv = parsed_json_views(parsed@);
    let mut out: Vec<String> = Vec::new();
    let mut k: usize = 0;
    while k < n
        invariant
            k <= n,
            pv == parsed_json_views(parsed@),
            string_views(out@) == ld_types(pv, k as nat),
        decreases n - k,
    {
        if k < parsed.len() {
            match &parsed[k] {
                Some(j) => match j.get("@type") {
                    Some(t) => match t.as_str() {
                        Some(s) => {
                            let ghost before = string_views(out@);
                            out.push(s.clone());
                            assert(string_views(out@) =~= before.push(s@));
                        },
                        None => {},
                    },
                    None => {},
                },
                None => {},
            }
        }
        k = k + 1;
    }
    out
}

// ---------------------------------------------------------------------------
// Script variables and AJAX addresses
// ---------------------------------------------------------------------------

/// Script variable declarations: `var`, `let` or `const`, a name, `=`, and a value that is
/// a template literal, a quoted string, a number, an object literal or any other text.
pub const JS_VAR_PATTERN: &'static str = r#"(?:var|let|const)\s+(\w+)\s*=\s*(?:(`(?:[^`\\]|\\.)*`)|'([^']*)'|"([^"]*)"|(\d+(?:\.\d+)?)|(\{[^;]*\})|([^;,\n]+))"#;

/// `$.ajax({ ... url: '...' ...` calls.
pub const AJAX_URL_PATTERN: &'static str = r#"\$\.ajax\s*\(\s*\{[^}]*url\s*:\s*['"]([^'"]+)['"]"#;

/// `fetch('...')` calls.
pub const FETCH_URL_PATTERN: &'static str = r#"fetch\s*\(\s*['"]([^'"]+)['"]"#;

/// The kind of a template literal's content.
pub open spec fn template_kind(inner: Seq<char>) -> Seq<char> {
    if trim(inner).len() == 0 {
        "empty"@
    } else if trim(inner) == "undefined"@ {
        "undefined"@
    } else if crate::text::starts_with(crate::text::trim_start(inner), "{"@) {
        "object"@
    } else {
        "string"@
    }
}

/// A declaration's value and its kind, from the group that matched: a template literal
/// (its content), a quoted string (`empty` or `string`), a number, an object literal, or
/// other text (trimmed).
pub open spec fn var_value(c: Seq<Option<Seq<char>>>) -> Option<(Seq<char>, Seq<char>)> {
    match group(c, 2) {
        Some(s) => {
            let inner = if s.len() >= 2 {
                s.subrange(1, s.len() - 1)
            } else {
                Seq::empty()
            };
            Some((inner, template_kind(inner)))
        },
        None => match group(c, 3) {
            Some(s) => Some((s, if s.len() == 0 { "empty"@ } else { "string"@ })),
            None => match group(c, 4) {
                Some(s) => Some((s, if s.len() == 0 { "empty"@ } else { "string"@ })),
                None => match group(c, 5) {
                    Some(s) => Some((s, "number"@)),
                    None => match group(c, 6) {
                        Some(s) => Some((s, "object"@)),
                        None => match group(c, 7) {
                            Some(s) => Some((trim(s), "other"@)),
                            None => None,
                        },
                    },
                },
            },
        },
    }
}

/// The declarations found, in order: name, value and kind.
pub open spec fn var_entries(cs: Seq<Seq<Option<Seq<char>>>>) -> Seq<(Seq<char>, (Seq<char>, Seq<char>))>
    decreases cs.len(),
{
    if cs.len() == 0 {
        Seq::empty()
    } else {
        let r = var_entries(cs.drop_last());
        match (group(cs.last(), 1), var_value(cs.last())) {
            (Some(name), Some(v)) => r.push((name, v)),
            _ => r,
        }
    }
}

/// What is recorded of a variable: its kind, its size in bytes, and its value when that
/// size is at most 100.
pub open spec fn var_info(raw: Seq<char>, kind: Seq<char>) -> (Seq<char>, nat, Option<Seq<char>>) {
    let size = (vstd::utf8::encode_utf8(raw).len() as usize) as nat;
    (kind, size, if size <= 100 { Some(raw) } else { None })
}

pub open spec fn info_view(i: crate::signals::JsVarInfo) -> (Seq<char>, nat, Option<Seq<char>>) {
    (i.value_type@, i.size as nat, crate::catalog::opt_string_view(i.value_preview))
}

/// The last declaration named `name`.
pub open spec fn last_entry(e: Seq<(Seq<char>, (Seq<char>, Seq<char>))>, name: Seq<char>) -> Option<(Seq<char>, Seq<char>)>
    decreases e.len(),
{
    if e.len() == 0 {
        None
    } else if e.last().0 == name {
        Some(e.last().1)
    } else {
        last_entry(e.drop_last(), name)
    }
}

/// The variables of a page as a map from name to what is recorded of the last declaration of
/// that name: names in ascending order, each declared name once.
pub open spec fn vars_ok(r: Seq<(String, crate::signals::JsVarInfo)>, e: Seq<(Seq<char>, (Seq<char>, Seq<char>))>) -> bool {
    &&& forall|i: int, j: int| 0 <= i < j < r.len() ==> crate::freq::str_lt(#[trigger] r[i].0@, #[trigger] r[j].0@)
    &&& forall|x: Seq<char>|
        #![trigger last_entry(e, x)]
        last_entry(e, x) is Some <==> exists|k: int| 0 <= k < r.len() && #[trigger] r[k].0@ == x
    &&& forall|k: int|
        0 <= k < r.len() ==> (last_entry(e, (#[trigger] r[k]).0@) matches Some(v) && info_view(r[k].1) == var_info(
            v.0,
            v.1,
        ))
}

/// The matches of `pattern` on `text` (none when the pattern does not compile).

fn group_at(c: &Vec<Option<String>>, i: usize) -> (r: Option<String>)
    ensures
        crate::catalog::opt_string_view(r) == group(groups_view(c@), i as int),
{
    if i < c.len() {
        match &c[i] {
            Some(s) => Some(s.clone()),
            None => None,
        }
    } else {
        None
    }
}

fn starts_with_brace_after_ws(s: &[char]) -> (r: bool)
    ensures
        r == crate::text::starts_with(crate::text::trim_start(s@), "{"@),
{
    proof {
        reveal_strlit("{");
    }
    let n = s.len();
    let mut lo: usize = 0;
    assert(s@.subrange(0, n as int) =~= s@);
    while lo < n && crate::text::is_whitespace(s[lo])
        invariant
            lo <= n == s@.len(),
            crate::text::trim_start(s@) == crate::text::trim_start(s@.subrange(lo as int, n as int)),
        decreases n - lo,
    {
        assert(s@.subrange(lo as int, n as int).drop_first() =~= s@.subrange(lo + 1, n as int));
        lo = lo + 1;
    }
    let ghost t = s@.subrange(lo as int, n as int);
    assert(crate::text::trim_start(s@) == t);
    assert("{"@ =~= seq!['{']);
    if lo < n {
        assert(t.subrange(0, 1) =~= seq![t[0]]);
        assert(t[0] == s@[lo as int]);
        if s[lo] == '{' {
            return true;
        } else {
            assert(t.subrange(0, 1)[0] != "{"@[0]);
            return false;
        }
    }
    false
}

fn kind_of_template(inner: &[char]) -> (r: String)
    ensures
        r@ == template_kind(inner@),
{
    let t = crate::text::trim_chars(inner);
    if t.len() == 0 {
        return "empty".to_owned();
    }
    let tv = crate::text::string_from_chars(t.as_slice());
    if tv == "undefined".to_owned() {
        return "undefined".to_owned();
    }
    if starts_with_brace_after_ws(inner) {
        "object".to_owned()
    } else {
        "string".to_owned()
    }
}

fn quoted_kind(s: &String) -> (r: String)
    ensures
        r@ == if s@.len() == 0 {
            "empty"@
        } else {
            "string"@
        },
{
    if s.as_str().is_empty() {
        proof {
            assert(s@.len() == 0) by {
                assert(vstd::utf8::encode_utf8(s@).len() == 0);
                if s@.len() > 0 {
                    vstd::utf8::encode_utf8_first_scalar(s@);
                }
            }
        }
        "empty".to_owned()
    } else {
        proof {
            if s@.len() == 0 {
                assert(vstd::utf8::encode_utf8(s@) =~= Seq::<u8>::empty());
            }
        }
        "string".to_owned()
    }
}

fn var_value_exec(c: &Vec<Option<String>>) -> (r: Option<(String, String)>)
    ensures
        match r {
            Some(p) => var_value(groups_view(c@)) == Some((p.0@, p.1@)),
            None => var_value(groups_view(c@)) is None,
        },
{
    if let Some(s) = group_at(c, 2) {
        let v = chars_of(s.as_str());
        let inner = if v.len() >= 2 {
            crate::text::slice_to_vec(v.as_slice(), 1, v.len() - 1)
        } else {
            Vec::new()
        };
        let kind = kind_of_template(inner.as_slice());
        return Some((crate::text::string_from_chars(inner.as_slice()), kind));
    }
    if let Some(s) = group_at(c, 3) {
        let k = quoted_kind(&s);
        return Some((s, k));
    }
    if let Some(s) = group_at(c, 4) {
        let k = quoted_kind(&s);
        return Some((s, k));
    }
    if let Some(s) = group_at(c, 5) {
        return Some((s, "number".to_owned()));
    }
    if let Some(s) = group_at(c, 6) {
        return Some((s, "object".to_owned()));
    }
    if let Some(s) = group_at(c, 7) {
        return Some((trim_string(s.as_str()), "other".to_owned()));
    }
    None
}

pub open spec fn entry_views(v: Seq<(String, String, String)>) -> Seq<(Seq<char>, (Seq<char>, Seq<char>))> {
    v.map_values(|e: (String, String, String)| (e.0@, (e.1@, e.2@)))
}

fn var_entry_list(cs: &Vec<Vec<Option<String>>>) -> (r: Vec<(String, String, String)>)
    ensures
        entry_views(r@) == var_entries(cs@.map_values(|c: Vec<Option<String>>| groups_view(c@))),
{
    let ghost cv = cs@.map_values(|c: Vec<Option<String>>| groups_view(c@));
    let mut out: Vec<(String, String, String)> = Vec::new();
    let mut i: usize = 0;
    assert(cv.take(0) =~= Seq::<Seq<Option<Seq<char>>>>::empty());
    while i < cs.len()
        invariant
            i <= cs@.len(),
            cv == cs@.map_values(|c: Vec<Option<String>>| groups_view(c@)),
            entry_views(out@) == var_entries(cv.take(i as int)),
        decreases cs@.len() - i,
    {
        assert(cv.take(i + 1).drop_last() =~= cv.take(i as int));
        assert(cv.take(i + 1).last() == groups_view(cs@[i as int]@));
        let name = group_at(&cs[i], 1);
        let value = var_value_exec(&cs[i]);
        match (name, value) {
            (Some(n), Some((raw, kind))) => {
                let ghost before = entry_views(out@);
                out.push((n, raw, kind));
                assert(entry_views(out@) =~= before.push((out@[out@.len() - 1].0@, (out@[out@.len() - 1].1@, out@[out@.len() - 1].2@))));
            },
            _ => {},
        }
        i = i + 1;
    }
    assert(cv.take(cs@.len() as int) =~= cv);
    out
}

fn last_named(entries: &Vec<(String, String, String)>, name: &String) -> (r: Option<usize>)
    ensures
        match r {
            Some(k) => k < entries@.len() && last_entry(entry_views(entries@), name@) == Some(
                (entries@[k as int].1@, entries@[k as int].2@),
            ),
            None => last_entry(entry_views(entries@), name@) is None,
        },
{
    let ghost ev = entry_views(entries@);
    let mut i = entries.len();
    assert(ev.take(i as int) =~= ev);
    while i > 0
        invariant
            i <= entries@.len(),
            ev == entry_views(entries@),
            last_entry(ev, name@) == last_entry(ev.take(i as int), name@),
        decreases i,
    {
        assert(ev.take(i as int).last() == (entries@[i - 1].0@, (entries@[i - 1].1@, entries@[i - 1].2@)));
        assert(ev.take(i as int).drop_last() =~= ev.take(i - 1));
        if entries[i - 1].0 == *name {
            return Some(i - 1);
        }
        i = i - 1;
    }
    None
}

fn js_var_info(raw: &String, kind: &String) -> (r: crate::signals::JsVarInfo)
    ensures
        info_view(r) == var_info(raw@, kind@),
{
    let size = raw.as_str().len();
    let value_preview = if size <= 100 {
        Some(raw.clone())
    } else {
        None
    };
    crate::signals::JsVarInfo { value_type: kind.clone(), size, value_preview }
}

/// The script variables of a page: for each name declared, what is recorded of its last
/// declaration, names in ascending order.
fn js_vars_of(entries: &Vec<(String, String, String)>) -> (r: Vec<(String, crate::signals::JsVarInfo)>)
    ensures
        vars_ok(r@, entry_views(entries@)),
{
    let ghost ev = entry_views(entries@);
    let mut t = FreqTable::new();
    let mut i: usize = 0;
    let ghost names = entries@.map_values(|e: (String, String, String)| (e.0@, e.1@));
    assert(names.take(0) =~= Seq::<(Seq<char>, Seq<char>)>::empty());
    while i < entries.len()
        invariant
            i <= entries@.len(),
            names == entries@.map_values(|e: (String, String, String)| (e.0@, e.1@)),
            table_ok(t@),
            forall|x: Seq<char>| #[trigger] lookup(t@, x) == key_count(names.take(i as int), x),
        decreases entries@.len() - i,
    {
        assert(names.take(i + 1).drop_last() =~= names.take(i as int));
        assert(names.take(i + 1).last() == (entries@[i as int].0@, entries@[i as int].1@));
        proof {
            lemma_key_count(names.take(i as int), entries@[i as int].0@);
        }
        t.bump(&entries[i].0);
        i = i + 1;
    }
    assert(names.take(entries@.len() as int) =~= names);
    proof {
        assert forall|x: Seq<char>| (last_entry(ev, x) is Some) == names_pair(names, x) by {
            lemma_last_entry_names(entries@, x);
        }
    }
    let ghost tv = t@;
    let mut out: Vec<(String, crate::signals::JsVarInfo)> = Vec::new();
    let mut k: usize = 0;
    while k < t.entries.len()
        invariant
            k <= t.entries@.len(),
            tv == t@,
            tv.len() == t.entries@.len(),
            table_ok(tv),
            ev == entry_views(entries@),
            names == entries@.map_values(|e: (String, String, String)| (e.0@, e.1@)),
            forall|x: Seq<char>| #[trigger] lookup(tv, x) == key_count(names, x),
            forall|x: Seq<char>| (last_entry(ev, x) is Some) == names_pair(names, x),
            out@.len() == k,
            forall|q: int| 0 <= q < k ==> #[trigger] out@[q].0@ == tv[q].0,
            forall|q: int|
                0 <= q < k ==> (last_entry(ev, (#[trigger] out@[q]).0@) matches Some(v) && info_view(out@[q].1)
                    == var_info(v.0, v.1)),
        decreases t.entries@.len() - k,
    {
        assert(tv[k as int].0 == t.entries@[k as int].0@);
        proof {
            crate::freq::lemma_lookup_at(tv, k as int);
            lemma_key_count(names, tv[k as int].0);
        }
        let idx = match last_named(entries, &t.entries[k].0) {
            Some(j) => j,
            None => {
                proof {
                    assert(false);
                }
                0
            },
        };
        let info = js_var_info(&entries[idx].1, &entries[idx].2);
        out.push((t.entries[k].0.clone(), info));
        k = k + 1;
    }
    proof {
        let r = out@;
        assert forall|x: Seq<char>|
            #![trigger last_entry(ev, x)]
            last_entry(ev, x) is Some <==> exists|q: int| 0 <= q < r.len() && #[trigger] r[q].0@ == x by {
            lemma_key_count(names, x);
            crate::freq::lemma_lookup_entries(tv, x);
            if exists|q: int| 0 <= q < r.len() && #[trigger] r[q].0@ == x {
                let q = choose|q: int| 0 <= q < r.len() && #[trigger] r[q].0@ == x;
                crate::freq::lemma_lookup_at(tv, q);
            }
            if last_entry(ev, x) is Some {
                let i = choose|i: int| 0 <= i < tv.len() && tv[i].0 == x;
                assert(r[i].0@ == x);
            }
        }
        assert forall|a: int, b: int| 0 <= a < b < r.len() implies crate::freq::str_lt(#[trigger] r[a].0@, #[trigger] r[b].0@) by {
            assert(r[a].0@ == tv[a].0 && r[b].0@ == tv[b].0);
        }
    }
    out
}

proof fn lemma_last_entry_names(entries: Seq<(String, String, String)>, x: Seq<char>)
    ensures
        (last_entry(entry_views(entries), x) is Some) == names_pair(
            entries.map_values(|e: (String, String, String)| (e.0@, e.1@)),
            x,
        ),
    decreases entries.len(),
{
    let ev = entry_views(entries);
    let names = entries.map_values(|e: (String, String, String)| (e.0@, e.1@));
    if entries.len() > 0 {
        let d = entries.drop_last();
        lemma_last_entry_names(d, x);
        assert(entry_views(d) =~= ev.drop_last());
        let dn = d.map_values(|e: (String, String, String)| (e.0@, e.1@));
        assert(dn =~= names.drop_last());
        if names_pair(dn, x) {
            let p = choose|p: int| 0 <= p < dn.len() && #[trigger] dn[p].0 == x;
            assert(names[p] == dn[p]);
        }
        if names_pair(names, x) {
            let p = choose|p: int| 0 <= p < names.len() && #[trigger] names[p].0 == x;
            if p < dn.len() {
                assert(dn[p] == names[p]);
            }
        }
        assert(ev.last().0 == entries.last().0@);
        if entries.last().0@ == x {
            assert(names[entries.len() - 1].0 == x);
        }
    }
}

/// The group-1 texts of the matches `cs`, in order.
pub open spec fn first_groups(cs: Seq<Seq<Option<Seq<char>>>>) -> Seq<Seq<char>>
    decreases cs.len(),
{
    if cs.len() == 0 {
        Seq::empty()
    } else {
        first_groups(cs.drop_last()) + match group(cs.last(), 1) {
            Some(u) => seq![u],
            None => Seq::empty(),
        }
    }
}

fn add_first_groups(out: &mut Vec<String>, cs: &Vec<Vec<Option<String>>>, Ghost(prev): Ghost<Seq<Seq<char>>>)
    requires
        string_views(old(out)@) == first_seen(prev),
    ensures
        string_views(final(out)@) == first_seen(prev + first_groups(cs@.map_values(|c: Vec<Option<String>>| groups_view(c@)))),
{
    let ghost cv = cs@.map_values(|c: Vec<Option<String>>| groups_view(c@));
    let mut i: usize = 0;
    assert(cv.take(0) =~= Seq::<Seq<Option<Seq<char>>>>::empty());
    assert(prev + first_groups(cv.take(0)) =~= prev);
    while i < cs.len()
        invariant
            i <= cs@.len(),
            cv == cs@.map_values(|c: Vec<Option<String>>| groups_view(c@)),
            string_views(out@) == first_seen(prev + first_groups(cv.take(i as int))),
        decreases cs@.len() - i,
    {
        assert(cv.take(i + 1).drop_last() =~= cv.take(i as int));
        assert(cv.take(i + 1).last() == groups_view(cs@[i as int]@));
        match group_at(&cs[i], 1) {
            Some(u) => {
                let ghost a = prev + first_groups(cv.take(i as int));
                assert(prev + first_groups(cv.take(i + 1)) =~= a.push(u@));
                assert(a.push(u@).drop_last() =~= a);
                push_first_seen(out, u);
            },
            None => {
                assert(prev + first_groups(cv.take(i + 1)) =~= prev + first_groups(cv.take(i as int)));
            },
        }
        i = i + 1;
    }
    assert(cv.take(cs@.len() as int) =~= cv);
}

/// The AJAX addresses of a page: those of `$.ajax` calls, then those of `fetch` calls,
/// each once.
pub open spec fn ajax_urls_of(html: Seq<char>) -> Seq<Seq<char>> {
    first_seen(first_groups(matches_of(AJAX_URL_PATTERN@, html)) + first_groups(matches_of(FETCH_URL_PATTERN@, html)))
}

/// The script variables and AJAX addresses of a page's text.
pub fn extract_js_signals(html: &str) -> (r: (Vec<(String, crate::signals::JsVarInfo)>, Vec<String>))
    ensures
        vars_ok(r.0@, var_entries(matches_of(JS_VAR_PATTERN@, html@))),
        string_views(r.1@) == ajax_urls_of(html@),
{
    let var_caps = captures_of(JS_VAR_PATTERN, html);
    let entries = var_entry_list(&var_caps);
    let vars = js_vars_of(&entries);
    let ajax_caps = captures_of(AJAX_URL_PATTERN, html);
    let fetch_caps = captures_of(FETCH_URL_PATTERN, html);
    let mut urls: Vec<String> = Vec::new();
    assert(string_views(urls@) =~= first_seen(Seq::<Seq<char>>::empty()));
    add_first_groups(&mut urls, &ajax_caps, Ghost(Seq::empty()));
    let ghost a = Seq::<Seq<char>>::empty() + first_groups(ajax_caps@.map_values(|c: Vec<Option<String>>| groups_view(c@)));
    add_first_groups(&mut urls, &fetch_caps, Ghost(a));
    assert(Seq::<Seq<char>>::empty() + first_groups(ajax_caps@.map_values(|c: Vec<Option<String>>| groups_view(c@))) =~= first_groups(
        matches_of(AJAX_URL_PATTERN@, html@),
    ));
    (vars, urls)
}

// ---------------------------------------------------------------------------
// All signals of a page
// ---------------------------------------------------------------------------

/// The script types of a page (each once) and the `@type` of its parsed JSON-LD scripts
/// (`json_ld[k]` is the `k`-th JSON-LD script parsed as JSON, `None` when it is not JSON).
pub fn extract_script_signals(doc: &HtmlDoc, json_ld: &[Option<crate::json::Json>]) -> (r: (Vec<String>, Vec<String>))
    ensures
        string_views(r.0@) == first_seen(attr_values(doc@, select(doc@, SelV::Tag("script"@)), "type"@)),
        string_views(r.1@) == ld_types(parsed_json_views(json_ld@), ld_texts(doc@).len()),
{
    let scripts = doc.select(&Sel::Tag("script".to_owned()));
    assert(index_view(scripts@) == select(doc@, SelV::Tag("script"@)));
    let types = distinct_attr_values(doc, &scripts, "type");
    let texts = ld_script_texts(doc);
    assert(string_views(texts@).len() == texts@.len());
    let ld = json_ld_types(json_ld, texts.len());
    (types, ld)
}

/// The meta tags of a page and its link relations (each once).
pub fn extract_meta_signals(doc: &HtmlDoc) -> (r: (Vec<crate::signals::MetaSignal>, Vec<String>))
    ensures
        meta_views(r.0@) == meta_signals(doc@, select(doc@, SelV::Tag("meta"@))),
        string_views(r.1@) == first_seen(attr_values(doc@, select(doc@, SelV::Tag("link"@)), "rel"@)),
{
    let metas = meta_tags(doc);
    let links = doc.select(&Sel::Tag("link".to_owned()));
    assert(index_view(links@) == select(doc@, SelV::Tag("link"@)));
    let rels = distinct_attr_values(doc, &links, "rel");
    (metas, rels)
}

/// All signals of a page. `json_ld[k]` is the `k`-th of the page's JSON-LD scripts
/// (`json_ld_scripts`) parsed as JSON, `None` when it is not JSON.
pub fn extract_signals(html: &str, json_ld: &[Option<crate::json::Json>]) -> (r: crate::signals::PageSignals)
    ensures
        ({
            let ns = parsed_html(html@, false);
            let els = select(ns, SelV::AnyElement);
            &&& r.file_size_bytes == html.len()
            &&& r.title@ == title_of(ns)
            &&& table_ok(crate::freq::entries_view(r.tag_counts@))
            &&& forall|x: Seq<char>| #[trigger] lookup(crate::freq::entries_view(r.tag_counts@), x) == count_named(ns, x)
            &&& string_views(r.ids@) == first_seen(attr_values(ns, els, "id"@))
            &&& string_views(r.names@) == first_seen(attr_values(ns, els, "name"@))
            &&& string_views(r.classes@) == first_seen(class_tokens(ns, els))
            &&& grouped(group_views(r.data_attrs@), data_pairs(ns, els))
            &&& string_views(r.th_texts@) == first_seen(trimmed_texts(ns, select(ns, SelV::Tag("th"@))))
            &&& option_signal_views(r.options@) == select_signals(ns, select(ns, SelV::Tag("select"@)))
            &&& forall|k: int| 0 <= k < r.options@.len() ==> (#[trigger] r.options@[k]).count == r.options@[k].values@.len()
            &&& vars_ok(r.js_vars@, var_entries(matches_of(JS_VAR_PATTERN@, html@)))
            &&& string_views(r.ajax_urls@) == ajax_urls_of(html@)
            &&& string_views(r.json_ld_types@) == ld_types(parsed_json_views(json_ld@), ld_texts(ns).len())
            &&& string_views(r.script_types@) == first_seen(attr_values(ns, select(ns, SelV::Tag("script"@)), "type"@))
            &&& meta_views(r.meta_tags@) == meta_signals(ns, select(ns, SelV::Tag("meta"@)))
            &&& string_views(r.link_rels@) == first_seen(attr_values(ns, select(ns, SelV::Tag("link"@)), "rel"@))
        }),
{
    let doc = parse_document(html);
    let title = page_title(&doc);
    let counts = tag_counts(&doc);
    let els = doc.select(&Sel::AnyElement);
    assert(index_view(els@) == select(doc@, SelV::AnyElement));
    let ids = distinct_attr_values(&doc, &els, "id");
    let names = distinct_attr_values(&doc, &els, "name");
    let classes = distinct_classes(&doc, &els);
    let pairs = collect_data_pairs(&doc, &els);
    let data_attrs = group_pairs(&pairs);
    let ths = doc.select(&Sel::Tag("th".to_owned()));
    assert(index_view(ths@) == select(doc@, SelV::Tag("th"@)));
    let th_texts = distinct_texts(&doc, &ths);
    let options = select_option_signals(&doc);
    let (js_vars, ajax_urls) = extract_js_signals(html);
    let (script_types, json_ld_types) = extract_script_signals(&doc, json_ld);
    let (meta_tags, link_rels) = extract_meta_signals(&doc);
    crate::signals::PageSignals {
        file_size_bytes: html.len(),
        tag_counts: counts.entries,
        ids,
        names,
        classes,
        data_attrs,
        th_texts,
        options,
        js_vars,
        ajax_urls,
        json_ld_types,
        script_types,
        meta_tags,
        link_rels,
        title,
    }
}

} // verus!
