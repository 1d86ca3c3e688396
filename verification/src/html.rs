//! Parsed HTML held as plain data, and the element queries that the page parsers make.
//!
//! A parsed page is the list of its nodes in document (pre-)order, each with its depth in
//! the tree and its rank in the parser's node arena. Queries over the whole document
//! report elements in arena order (the order in which the parser created them); queries
//! under an element report its descendants in document order.

use vstd::prelude::*;
use crate::catalog::{order_by_score_desc, order_desc};
use crate::text::{chars_of, occurs_at, string_from_chars};
use scraper::{Html, Node};

verus! {

/// What a node is.
#[derive(Debug)]
pub enum HtmlKind {
    /// An element: its (lowercase) name and its attributes.
    Element(String, Vec<(String, String)>),
    /// A text node.
    Text(String),
    /// The document itself, a comment, a doctype or a processing instruction.
    Other,
}

/// One node of a parsed page.
#[derive(Debug)]
pub struct HtmlNode {
    /// Number of ancestors.
    pub depth: usize,
    /// Position in the parser's arena.
    pub rank: usize,
    pub kind: HtmlKind,
}

pub enum HtmlKindV {
    Element { name: Seq<char>, attrs: Seq<(Seq<char>, Seq<char>)> },
    Text(Seq<char>),
    Other,
}

pub struct HtmlNodeV {
    pub depth: usize,
    pub rank: usize,
    pub kind: HtmlKindV,
}

impl View for HtmlNode {
    type V = HtmlNodeV;

    open spec fn view(&self) -> HtmlNodeV {
        HtmlNodeV {
            depth: self.depth,
            rank: self.rank,
            kind: match self.kind {
                HtmlKind::Element(name, attrs) => HtmlKindV::Element {
                    name: name@,
                    attrs: attrs@.map_values(|a: (String, String)| (a.0@, a.1@)),
                },
                HtmlKind::Text(t) => HtmlKindV::Text(t@),
                HtmlKind::Other => HtmlKindV::Other,
            },
        }
    }
}

pub open spec fn nodes_view(v: Seq<HtmlNode>) -> Seq<HtmlNodeV> {
    v.map_values(|n: HtmlNode| n@)
}

/// Named result of parsing `html` with `scraper` (as a fragment or a whole document):
/// its nodes in document order.
pub uninterp spec fn parsed_html(html: Seq<char>, fragment: bool) -> Seq<HtmlNodeV>;

/// Trusted: parses `html` with `scraper::Html::parse_fragment` or `Html::parse_document`
/// and lists the tree's nodes in document order (`descendants` of the root), each with its
/// number of ancestors, its position among `tree.nodes()` (the arena order that
/// `Html::select` follows), and its element name and attributes (`attrs`) or text. The
/// list is a function of `html` and `fragment` alone.
#[verifier::external_body]
fn html_nodes(html: &str, fragment: bool) -> (r: Vec<HtmlNode>)
    ensures
        nodes_view(r@) == parsed_html(html@, fragment),
{
    let doc = if fragment { Html::parse_fragment(html) } else { Html::parse_document(html) };
    let ids: Vec<_> = doc.tree.nodes().map(|n| n.id()).collect();
    doc.tree.root().descendants().map(|n| HtmlNode {
        depth: n.ancestors().count(),
        rank: ids.binary_search(&n.id()).unwrap_or_default(),
        kind: match n.value() {
            Node::Element(e) => HtmlKind::Element(e.name().into(), e.attrs().map(|(k, v)| (k.into(), v.into())).collect()),
            Node::Text(t) => HtmlKind::Text(t.to_string()),
            _ => HtmlKind::Other
        }
    }).collect()
}

/// A parsed page.
#[derive(Debug)]
pub struct HtmlDoc {
    pub nodes: Vec<HtmlNode>,
}

impl View for HtmlDoc {
    type V = Seq<HtmlNodeV>;

    open spec fn view(&self) -> Seq<HtmlNodeV> {
        nodes_view(self.nodes@)
    }
}

/// Parse a whole document.
pub fn parse_document(html: &str) -> (r: HtmlDoc)
    ensures
        r@ == parsed_html(html@, false),
{
    HtmlDoc { nodes: html_nodes(html, false) }
}

/// Parse a fragment (in a `<body>` context).
pub fn parse_fragment(html: &str) -> (r: HtmlDoc)
    ensures
        r@ == parsed_html(html@, true),
{
    HtmlDoc { nodes: html_nodes(html, true) }
}

// ---------------------------------------------------------------------------
// Node properties
// ---------------------------------------------------------------------------

/// The value of the first attribute named `key`.
pub open spec fn attr_value(attrs: Seq<(Seq<char>, Seq<char>)>, key: Seq<char>) -> Option<Seq<char>>
    decreases attrs.len(),
{
    if attrs.len() == 0 {
        None
    } else if attrs[0].0 == key {
        Some(attrs[0].1)
    } else {
        attr_value(attrs.drop_first(), key)
    }
}

/// An attribute of an element (`None` for other nodes).
pub open spec fn node_attr(n: HtmlNodeV, key: Seq<char>) -> Option<Seq<char>> {
    match n.kind {
        HtmlKindV::Element { attrs, .. } => attr_value(attrs, key),
        _ => None,
    }
}

/// Whether a node is an element named `tag`.
pub open spec fn is_tag(n: HtmlNodeV, tag: Seq<char>) -> bool {
    n.kind matches HtmlKindV::Element { name, .. } && name == tag
}

pub open spec fn is_ascii_ws(c: char) -> bool {
    c == ' ' || c == '\t' || c == '\n' || c == '\x0C' || c == '\r'
}

/// Whether `tok` is one of the ASCII-whitespace-separated tokens of `s`.
pub open spec fn has_token(s: Seq<char>, tok: Seq<char>) -> bool {
    tok.len() > 0 && exists|i: int|
        #![trigger occurs_at(s, tok, i)]
        occurs_at(s, tok, i) && (i == 0 || is_ascii_ws(s[i - 1])) && (i + tok.len() == s.len()
            || is_ascii_ws(s[i + tok.len()]))
}

/// The end of the subtree of node `i`: the first later node that is not deeper.
pub open spec fn end_from(ns: Seq<HtmlNodeV>, i: int, j: int) -> int
    decreases ns.len() - j,
{
    if j < 0 || j >= ns.len() {
        ns.len() as int
    } else if ns[j].depth <= ns[i].depth {
        j
    } else {
        end_from(ns, i, j + 1)
    }
}

pub open spec fn subtree_end(ns: Seq<HtmlNodeV>, i: int) -> int {
    end_from(ns, i, i + 1)
}

/// The parent of node `i`: the nearest earlier node one level up.
pub open spec fn parent_from(ns: Seq<HtmlNodeV>, i: int, k: int) -> Option<int>
    decreases k + 1,
{
    if k < 0 || k >= ns.len() {
        None
    } else if ns[k].depth + 1 == ns[i].depth {
        Some(k)
    } else {
        parent_from(ns, i, k - 1)
    }
}

pub open spec fn parent_of(ns: Seq<HtmlNodeV>, i: int) -> Option<int> {
    parent_from(ns, i, i - 1)
}

/// The text of the text nodes among nodes `lo..hi`, in order.
pub open spec fn text_in(ns: Seq<HtmlNodeV>, lo: int, hi: int) -> Seq<char>
    decreases hi - lo,
{
    if hi <= lo {
        Seq::empty()
    } else {
        text_in(ns, lo, hi - 1) + match ns[hi - 1].kind {
            HtmlKindV::Text(t) => t,
            _ => Seq::empty(),
        }
    }
}

/// The text of an element: the text of its subtree.
pub open spec fn element_text(ns: Seq<HtmlNodeV>, i: int) -> Seq<char> {
    text_in(ns, i, subtree_end(ns, i))
}

// ---------------------------------------------------------------------------
// Selectors
// ---------------------------------------------------------------------------

/// The selectors that the page parsers use.
#[derive(Debug)]
pub enum Sel {
    /// `tag`
    Tag(String),
    /// `tag#id`
    TagId(String, String),
    /// `tag[attr="value"]`
    TagAttrEq(String, String, String),
    /// `tag.class`
    TagClass(String, String),
    /// `tag[attr]`
    TagAttr(String, String),
    /// `#id tag`
    TagUnderId(String, String),
    /// `*`: every element
    AnyElement,
}

pub enum SelV {
    Tag(Seq<char>),
    TagId(Seq<char>, Seq<char>),
    TagAttrEq(Seq<char>, Seq<char>, Seq<char>),
    TagClass(Seq<char>, Seq<char>),
    TagAttr(Seq<char>, Seq<char>),
    TagUnderId(Seq<char>, Seq<char>),
    AnyElement,
}

impl View for Sel {
    type V = SelV;

    open spec fn view(&self) -> SelV {
        match self {
            Sel::Tag(t) => SelV::Tag(t@),
            Sel::TagId(t, i) => SelV::TagId(t@, i@),
            Sel::TagAttrEq(t, a, v) => SelV::TagAttrEq(t@, a@, v@),
            Sel::TagClass(t, c) => SelV::TagClass(t@, c@),
            Sel::TagAttr(t, a) => SelV::TagAttr(t@, a@),
            Sel::TagUnderId(t, i) => SelV::TagUnderId(t@, i@),
            Sel::AnyElement => SelV::AnyElement,
        }
    }
}

/// Whether node `k` is an ancestor of node `i`.
pub open spec fn is_ancestor(ns: Seq<HtmlNodeV>, k: int, i: int) -> bool {
    0 <= k < i && i < subtree_end(ns, k)
}

/// Whether node `i` matches selector `sel` (case-sensitive names and values).
pub open spec fn sel_matches(ns: Seq<HtmlNodeV>, i: int, sel: SelV) -> bool {
    let n = ns[i];
    match sel {
        SelV::Tag(t) => is_tag(n, t),
        SelV::TagId(t, id) => is_tag(n, t) && node_attr(n, "id"@) == Some(id),
        SelV::TagAttrEq(t, a, v) => is_tag(n, t) && node_attr(n, a) == Some(v),
        SelV::TagClass(t, c) => is_tag(n, t) && (node_attr(n, "class"@) matches Some(cv) && has_token(cv, c)),
        SelV::TagAttr(t, a) => is_tag(n, t) && node_attr(n, a) is Some,
        SelV::TagUnderId(t, id) => is_tag(n, t) && exists|k: int|
            #![trigger is_ancestor(ns, k, i)]
            is_ancestor(ns, k, i) && node_attr(ns[k], "id"@) == Some(id),
        SelV::AnyElement => n.kind is Element,
    }
}

/// The nodes among `lo..hi` that match `sel`, in document order.
pub open spec fn matches_in(ns: Seq<HtmlNodeV>, sel: SelV, lo: int, hi: int) -> Seq<int>
    decreases hi - lo,
{
    if hi <= lo {
        Seq::empty()
    } else {
        let r = matches_in(ns, sel, lo, hi - 1);
        if sel_matches(ns, hi - 1, sel) {
            r.push(hi - 1)
        } else {
            r
        }
    }
}

/// Arena keys of nodes: a higher key for an earlier arena position.
pub open spec fn arena_keys(ns: Seq<HtmlNodeV>, m: Seq<int>) -> Seq<u128> {
    m.map_values(|i: int| (usize::MAX - ns[i].rank) as u128)
}

/// The elements of the document that match `sel`, in arena order.
pub open spec fn select(ns: Seq<HtmlNodeV>, sel: SelV) -> Seq<int> {
    let m = matches_in(ns, sel, 0, ns.len() as int);
    let o = order_desc(arena_keys(ns, m));
    Seq::new(m.len(), |k: int| m[o[k]])
}

/// The descendants of node `i` that match `sel`, in document order.
pub open spec fn select_under(ns: Seq<HtmlNodeV>, i: int, sel: SelV) -> Seq<int> {
    matches_in(ns, sel, i + 1, subtree_end(ns, i))
}

/// The texts of the text children of node `p`, in order.
pub open spec fn child_texts_in(ns: Seq<HtmlNodeV>, p: int, lo: int, hi: int) -> Seq<Seq<char>>
    decreases hi - lo,
{
    if hi <= lo {
        Seq::empty()
    } else {
        let r = child_texts_in(ns, p, lo, hi - 1);
        match ns[hi - 1].kind {
            HtmlKindV::Text(t) => if ns[hi - 1].depth == ns[p].depth + 1 {
                r.push(t)
            } else {
                r
            },
            _ => r,
        }
    }
}

pub open spec fn child_texts(ns: Seq<HtmlNodeV>, p: int) -> Seq<Seq<char>> {
    child_texts_in(ns, p, p + 1, subtree_end(ns, p))
}

/// The first later sibling of node `i` that is an element named `tag`.
pub open spec fn sibling_from(ns: Seq<HtmlNodeV>, i: int, tag: Seq<char>, j: int, hi: int) -> Option<int>
    decreases hi - j,
{
    if j >= hi || j < 0 || j >= ns.len() {
        None
    } else if ns[j].depth == ns[i].depth && is_tag(ns[j], tag) {
        Some(j)
    } else {
        sibling_from(ns, i, tag, j + 1, hi)
    }
}

pub open spec fn next_sibling_tag(ns: Seq<HtmlNodeV>, i: int, tag: Seq<char>) -> Option<int> {
    match parent_of(ns, i) {
        Some(p) => sibling_from(ns, i, tag, subtree_end(ns, i), subtree_end(ns, p)),
        None => None,
    }
}

// ---------------------------------------------------------------------------
// Implementation
// ---------------------------------------------------------------------------

impl HtmlDoc {
    /// The end of the subtree of node `i`.
    pub fn subtree_end(&self, i: usize) -> (r: usize)
        requires
            i < self@.len(),
        ensures
            r == subtree_end(self@, i as int),
            i < r <= self@.len(),
    {
        let ns = &self.nodes;
        let d = ns[i].depth;
        let n = ns.len();
        assert(i < n);
        let mut j = i + 1;
        while j < ns.len() && ns[j].depth > d
            invariant
                i < j <= ns@.len(),
                d == self@[i as int].depth,
                nodes_view(ns@) == self@,
                subtree_end(self@, i as int) == end_from(self@, i as int, j as int),
            decreases ns@.len() - j,
        {
            assert(self@[j as int].depth == ns@[j as int].depth);
            j = j + 1;
        }
        if j < ns.len() {
            assert(self@[j as int].depth == ns@[j as int].depth);
        }
        j
    }

    /// The value of attribute `key` of node `i` (`None` for a node that is not an element).
    pub fn attr(&self, i: usize, key: &str) -> (r: Option<String>)
        requires
            i < self@.len(),
        ensures
            match r {
                Some(v) => node_attr(self@[i as int], key@) == Some(v@),
                None => node_attr(self@[i as int], key@) is None,
            },
    {
        let k = key.to_owned();
        assert(self@[i as int] == self.nodes@[i as int]@);
        match &self.nodes[i].kind {
            HtmlKind::Element(_, attrs) => {
                let ghost av = attrs@.map_values(|a: (String, String)| (a.0@, a.1@));
                let mut j: usize = 0;
                assert(av.skip(0) =~= av);
                assert(node_attr(self@[i as int], key@) == attr_value(av, key@));
                while j < attrs.len()
                    invariant
                        j <= attrs@.len(),
                        k@ == key@,
                        node_attr(self@[i as int], key@) == attr_value(av, key@),
                        av == attrs@.map_values(|a: (String, String)| (a.0@, a.1@)),
                        attr_value(av, key@) == attr_value(av.skip(j as int), key@),
                    decreases attrs@.len() - j,
                {
                    assert(av.skip(j as int)[0] == (attrs@[j as int].0@, attrs@[j as int].1@));
                    if attrs[j].0 == k {
                        return Some(attrs[j].1.clone());
                    }
                    assert(av.skip(j as int).drop_first() =~= av.skip(j + 1));
                    j = j + 1;
                }
                None
            },
            _ => None,
        }
    }

    /// Whether node `i` is an element named `tag`.
    pub fn is_tag(&self, i: usize, tag: &str) -> (r: bool)
        requires
            i < self@.len(),
        ensures
            r == is_tag(self@[i as int], tag@),
    {
        assert(self@[i as int] == self.nodes@[i as int]@);
        match &self.nodes[i].kind {
            HtmlKind::Element(name, _) => *name == tag.to_owned(),
            _ => false,
        }
    }

    /// Whether node `k` is an ancestor of node `i`.
    fn is_ancestor_exec(&self, k: usize, i: usize) -> (r: bool)
        requires
            i < self@.len(),
            k < self@.len(),
        ensures
            r == is_ancestor(self@, k as int, i as int),
    {
        k < i && i < self.subtree_end(k)
    }

    /// Whether node `i` matches `sel`.
    pub fn matches(&self, i: usize, sel: &Sel) -> (r: bool)
        requires
            i < self@.len(),
        ensures
            r == sel_matches(self@, i as int, sel@),
    {
        match sel {
            Sel::Tag(t) => self.is_tag(i, t.as_str()),
            Sel::TagId(t, id) => self.is_tag(i, t.as_str()) && opt_eq(&self.attr(i, "id"), id),
            Sel::TagAttrEq(t, a, v) => self.is_tag(i, t.as_str()) && opt_eq(&self.attr(i, a.as_str()), v),
            Sel::TagClass(t, c) => {
                if !self.is_tag(i, t.as_str()) {
                    return false;
                }
                match self.attr(i, "class") {
                    Some(cv) => has_token_exec(chars_of(cv.as_str()).as_slice(), chars_of(c.as_str()).as_slice()),
                    None => false,
                }
            },
            Sel::TagAttr(t, a) => self.is_tag(i, t.as_str()) && self.attr(i, a.as_str()).is_some(),
            Sel::TagUnderId(t, id) => {
                if !self.is_tag(i, t.as_str()) {
                    return false;
                }
                let mut k: usize = 0;
                while k < i
                    invariant
                        k <= i < self@.len(),
                        is_tag(self@[i as int], t@),
                        sel@ == SelV::TagUnderId(t@, id@),
                        forall|q: int|
                            #![trigger is_ancestor(self@, q, i as int)]
                            0 <= q < k ==> !(is_ancestor(self@, q, i as int) && node_attr(self@[q], "id"@)
                                == Some(id@)),
                    decreases i - k,
                {
                    let anc = self.is_ancestor_exec(k, i);
                    let a = self.attr(k, "id");
                    if anc && opt_eq(&a, id) {
                        assert(node_attr(self@[k as int], "id"@) == Some(id@));
                        assert(is_ancestor(self@, k as int, i as int) && node_attr(self@[k as int], "id"@)
                            == Some(id@));
                        return true;
                    }
                    k = k + 1;
                }
                assert forall|q: int|
                    #![trigger is_ancestor(self@, q, i as int)]
                    is_ancestor(self@, q, i as int) implies !(node_attr(self@[q], "id"@) == Some(id@)) by {
                    assert(0 <= q < i);
                }
                false
            },
            Sel::AnyElement => {
                assert(self@[i as int] == self.nodes@[i as int]@);
                match &self.nodes[i].kind {
                    HtmlKind::Element(_, _) => true,
                    _ => false,
                }
            },
        }
    }

    /// The nodes among `lo..hi` that match `sel`, in document order.
    pub fn matches_in(&self, sel: &Sel, lo: usize, hi: usize) -> (r: Vec<usize>)
        requires
            lo <= hi <= self@.len(),
        ensures
            r@.map_values(|k: usize| k as int) == matches_in(self@, sel@, lo as int, hi as int),
            forall|k: int| 0 <= k < r@.len() ==> lo <= #[trigger] r@[k] < hi,
    {
        let mut out: Vec<usize> = Vec::new();
        let mut j = lo;
        assert(out@.map_values(|k: usize| k as int) =~= matches_in(self@, sel@, lo as int, lo as int));
        while j < hi
            invariant
                lo <= j <= hi <= self@.len(),
                out@.map_values(|k: usize| k as int) == matches_in(self@, sel@, lo as int, j as int),
                forall|k: int| 0 <= k < out@.len() ==> lo <= #[trigger] out@[k] < j,
            decreases hi - j,
        {
            if self.matches(j, sel) {
                let ghost before = out@.map_values(|k: usize| k as int);
                out.push(j);
                assert(out@.map_values(|k: usize| k as int) =~= before.push(j as int));
            }
            j = j + 1;
        }
        out
    }

    /// The elements of the document that match `sel`, in arena order.
    pub fn select(&self, sel: &Sel) -> (r: Vec<usize>)
        ensures
            r@.map_values(|k: usize| k as int) == select(self@, sel@),
            forall|k: int| 0 <= k < r@.len() ==> #[trigger] r@[k] < self@.len(),
    {
        let m = self.matches_in(sel, 0, self.nodes.len());
        let ghost mv = m@.map_values(|k: usize| k as int);
        let mut keys: Vec<u128> = Vec::new();
        let mut q: usize = 0;
        while q < m.len()
            invariant
                q <= m@.len(),
                mv == m@.map_values(|k: usize| k as int),
                forall|k: int| 0 <= k < m@.len() ==> #[trigger] m@[k] < self@.len(),
                keys@.len() == q,
                forall|j: int| 0 <= j < q ==> #[trigger] keys@[j] == (usize::MAX - self@[m@[j] as int].rank) as u128,
            decreases m@.len() - q,
        {
            assert(self@[m@[q as int] as int] == self.nodes@[m@[q as int] as int]@);
            keys.push((usize::MAX - self.nodes[m[q]].rank) as u128);
            q = q + 1;
        }
        assert(keys@ =~= arena_keys(self@, mv));
        let order = order_by_score_desc(&keys);
        let mut out: Vec<usize> = Vec::new();
        let mut k: usize = 0;
        while k < order.len()
            invariant
                k <= order@.len(),
                order@.len() == m@.len(),
                mv == m@.map_values(|k: usize| k as int),
                keys@ == arena_keys(self@, mv),
                forall|j: int| 0 <= j < order@.len() ==> #[trigger] order@[j] as int == order_desc(keys@)[j],
                forall|j: int| 0 <= j < order@.len() ==> #[trigger] order@[j] < m@.len(),
                forall|j: int| 0 <= j < m@.len() ==> #[trigger] m@[j] < self@.len(),
                out@.len() == k,
                forall|j: int| 0 <= j < k ==> #[trigger] out@[j] as int == mv[order_desc(keys@)[j]],
                forall|j: int| 0 <= j < k ==> #[trigger] out@[j] < self@.len(),
            decreases order@.len() - k,
        {
            let idx = order[k];
            assert(order@[k as int] as int == order_desc(keys@)[k as int]);
            out.push(m[idx]);
            k = k + 1;
        }
        assert(out@.map_values(|k: usize| k as int) =~= select(self@, sel@));
        out
    }

    /// The descendants of node `i` that match `sel`, in document order.
    pub fn select_under(&self, i: usize, sel: &Sel) -> (r: Vec<usize>)
        requires
            i < self@.len(),
        ensures
            r@.map_values(|k: usize| k as int) == select_under(self@, i as int, sel@),
            forall|k: int| 0 <= k < r@.len() ==> #[trigger] r@[k] < self@.len(),
    {
        let end = self.subtree_end(i);
        self.matches_in(sel, i + 1, end)
    }

    /// The text of the text nodes among `lo..hi`.
    pub fn text_in(&self, lo: usize, hi: usize) -> (r: String)
        requires
            lo <= hi <= self@.len(),
        ensures
            r@ == text_in(self@, lo as int, hi as int),
    {
        let mut out: Vec<char> = Vec::new();
        let mut j = lo;
        while j < hi
            invariant
                lo <= j <= hi <= self@.len(),
                out@ == text_in(self@, lo as int, j as int),
            decreases hi - j,
        {
            assert(self@[j as int] == self.nodes@[j as int]@);
            match &self.nodes[j].kind {
                HtmlKind::Text(t) => {
                    let mut c = chars_of(t.as_str());
                    out.append(&mut c);
                },
                _ => {
                    assert(out@ =~= out@ + Seq::<char>::empty());
                },
            }
            j = j + 1;
        }
        string_from_chars(out.as_slice())
    }

    /// The text of the subtree of node `i`.
    pub fn element_text(&self, i: usize) -> (r: String)
        requires
            i < self@.len(),
        ensures
            r@ == element_text(self@, i as int),
    {
        let end = self.subtree_end(i);
        self.text_in(i, end)
    }

    /// The parent of node `i`.
    pub fn parent(&self, i: usize) -> (r: Option<usize>)
        requires
            i < self@.len(),
        ensures
            match r {
                Some(p) => parent_of(self@, i as int) == Some(p as int) && p < i,
                None => parent_of(self@, i as int) is None,
            },
    {
        let d = self.nodes[i].depth;
        assert(self@[i as int].depth == d);
        let mut k = i;
        while k > 0
            invariant
                k <= i < self@.len(),
                d == self@[i as int].depth,
                parent_of(self@, i as int) == parent_from(self@, i as int, k - 1),
            decreases k,
        {
            assert(self@[k - 1] == self.nodes@[k - 1]@);
            if self.nodes[k - 1].depth as u128 + 1 == d as u128 {
                return Some(k - 1);
            }
            k = k - 1;
        }
        None
    }

    /// The texts of the text children of node `p`, in order.
    pub fn child_texts(&self, p: usize) -> (r: Vec<String>)
        requires
            p < self@.len(),
        ensures
            crate::text::string_views(r@) == child_texts(self@, p as int),
    {
        let end = self.subtree_end(p);
        let d = self.nodes[p].depth;
        assert(self@[p as int].depth == d);
        let mut out: Vec<String> = Vec::new();
        let mut j = p + 1;
        assert(crate::text::string_views(out@) =~= child_texts_in(self@, p as int, p + 1, p + 1));
        while j < end
            invariant
                p + 1 <= j <= end <= self@.len(),
                end == subtree_end(self@, p as int),
                d == self@[p as int].depth,
                crate::text::string_views(out@) == child_texts_in(self@, p as int, p + 1, j as int),
            decreases end - j,
        {
            assert(self@[j as int] == self.nodes@[j as int]@);
            match &self.nodes[j].kind {
                HtmlKind::Text(t) => {
                    if self.nodes[j].depth as u128 == d as u128 + 1 {
                        let ghost before = crate::text::string_views(out@);
                        out.push(t.clone());
                        assert(crate::text::string_views(out@) =~= before.push(t@));
                    }
                },
                _ => {},
            }
            j = j + 1;
        }
        out
    }

    /// The first later sibling of node `i` that is an element named `tag`.
    pub fn next_sibling_tag(&self, i: usize, tag: &str) -> (r: Option<usize>)
        requires
            i < self@.len(),
        ensures
            match r {
                Some(j) => next_sibling_tag(self@, i as int, tag@) == Some(j as int) && j < self@.len(),
                None => next_sibling_tag(self@, i as int, tag@) is None,
            },
    {
        let p = match self.parent(i) {
            Some(p) => p,
            None => {
                return None;
            },
        };
        let hi = self.subtree_end(p);
        let d = self.nodes[i].depth;
        assert(self@[i as int].depth == d);
        let mut j = self.subtree_end(i);
        while j < hi && j < self.nodes.len()
            invariant
                j <= self@.len(),
                hi <= self@.len(),
                d == self@[i as int].depth,
                next_sibling_tag(self@, i as int, tag@) == sibling_from(self@, i as int, tag@, j as int, hi as int),
            decreases self@.len() - j,
        {
            assert(self@[j as int] == self.nodes@[j as int]@);
            if self.nodes[j].depth == d && self.is_tag(j, tag) {
                return Some(j);
            }
            j = j + 1;
        }
        None
    }
}

fn opt_eq(o: &Option<String>, v: &String) -> (r: bool)
    ensures
        r == (match o {
            Some(x) => Some(x@),
            None => None::<Seq<char>>,
        } == Some(v@)),
{
    match o {
        Some(x) => *x == *v,
        None => false,
    }
}

fn is_ascii_ws_exec(c: char) -> (r: bool)
    ensures
        r == is_ascii_ws(c),
{
    c == ' ' || c == '\t' || c == '\n' || c == '\x0C' || c == '\r'
}

/// Whether `tok` is one of the ASCII-whitespace-separated tokens of `s`.
pub fn has_token_exec(s: &[char], tok: &[char]) -> (r: bool)
    ensures
        r == has_token(s@, tok@),
{
    if tok.len() == 0 {
        return false;
    }
    let slen = s.len();
    let mut i: usize = 0;
    while i <= s.len()
        invariant
            i <= s@.len() + 1,
            slen == s@.len(),
            tok@.len() > 0,
            forall|j: int|
                #![trigger occurs_at(s@, tok@, j)]
                0 <= j < i ==> !(occurs_at(s@, tok@, j) && (j == 0 || is_ascii_ws(s@[j - 1])) && (j
                    + tok@.len() == s@.len() || is_ascii_ws(s@[j + tok@.len()]))),
        decreases s@.len() + 1 - i,
    {
        if crate::text::matches_at(s, tok, i) {
            let before_ok = i == 0 || is_ascii_ws_exec(s[i - 1]);
            let end = i + tok.len();
            let after_ok = end == slen || is_ascii_ws_exec(s[end]);
            if before_ok && after_ok {
                return true;
            }
        }
        if i == s.len() {
            assert forall|j: int|
                #![trigger occurs_at(s@, tok@, j)]
                occurs_at(s@, tok@, j) implies !((j == 0 || is_ascii_ws(s@[j - 1])) && (j + tok@.len()
                == s@.len() || is_ascii_ws(s@[j + tok@.len()]))) by {
                assert(j < i + 1);
            }
            return false;
        }
        i = i + 1;
    }
    false
}

} // verus!
