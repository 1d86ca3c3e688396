//! Result codes of the portal's gateway responses, and the easiest call of a gateway spec.
//!
//! A gateway response reports its outcome in one of three places, in this order of
//! precedence: `returnAuthMsg` (authentication errors), `resultCode`, and `errMsg`.

use vstd::prelude::*;
use crate::json::{member, Json, JsonNumber, JsonNumberV, JsonV};
use crate::text::{char_in, skip_none_of};
use crate::text::{chars_of, find_from, occurs_at, slice_to_vec, string_from_chars, trim, trim_chars};
use crate::types::{ApiSpec, Operation, OperationV, Parameter, ParameterV};

verus! {

// ---------------------------------------------------------------------------
// Numbers as text
// ---------------------------------------------------------------------------

/// The decimal digits of `n`.
pub open spec fn decimal(n: nat) -> Seq<char>
    decreases n,
{
    if n < 10 {
        seq![digit_char(n)]
    } else {
        decimal(n / 10).push(digit_char(n % 10))
    }
}

pub open spec fn digit_char(d: nat) -> char {
    if d == 0 {
        '0'
    } else if d == 1 {
        '1'
    } else if d == 2 {
        '2'
    } else if d == 3 {
        '3'
    } else if d == 4 {
        '4'
    } else if d == 5 {
        '5'
    } else if d == 6 {
        '6'
    } else if d == 7 {
        '7'
    } else if d == 8 {
        '8'
    } else {
        '9'
    }
}

fn digit(d: u64) -> (r: char)
    requires
        d < 10,
    ensures
        r == digit_char(d as nat),
{
    if d == 0 {
        '0'
    } else if d == 1 {
        '1'
    } else if d == 2 {
        '2'
    } else if d == 3 {
        '3'
    } else if d == 4 {
        '4'
    } else if d == 5 {
        '5'
    } else if d == 6 {
        '6'
    } else if d == 7 {
        '7'
    } else if d == 8 {
        '8'
    } else {
        '9'
    }
}

/// The decimal text of `n`.
pub fn decimal_chars(n: u64) -> (r: Vec<char>)
    ensures
        r@ == decimal(n as nat),
    decreases n,
{
    if n < 10 {
        vec![digit(n)]
    } else {
        let mut v = decimal_chars(n / 10);
        v.push(digit(n % 10));
        v
    }
}

/// The text of a JSON number: integers in decimal, other numbers as written.
pub open spec fn number_text(n: JsonNumberV) -> Seq<char> {
    match n {
        JsonNumberV::Unsigned(u) => decimal(u as nat),
        JsonNumberV::Negative(i) => if i < 0 {
            seq!['-'] + decimal((-i) as nat)
        } else {
            decimal(i as nat)
        },
        JsonNumberV::Fractional(t) => t,
    }
}

pub fn number_to_string(n: &JsonNumber) -> (r: String)
    ensures
        r@ == number_text(n@),
{
    match n {
        JsonNumber::Unsigned(u) => string_from_chars(decimal_chars(*u).as_slice()),
        JsonNumber::Negative(i) => {
            if *i < 0 {
                let m: u64 = if *i == i64::MIN {
                    9223372036854775808u64
                } else {
                    (-*i) as u64
                };
                let mut v = vec!['-'];
                let mut d = decimal_chars(m);
                v.append(&mut d);
                assert(v@ =~= seq!['-'] + decimal((-*i) as nat));
                string_from_chars(v.as_slice())
            } else {
                string_from_chars(decimal_chars(*i as u64).as_slice())
            }
        },
        JsonNumber::Fractional(t) => t.clone(),
    }
}

// ---------------------------------------------------------------------------
// Searching a parsed response
// ---------------------------------------------------------------------------

/// The text of a scalar found under a key: a string as is, a number as its text.
pub open spec fn scalar_text(v: JsonV) -> Option<Seq<char>> {
    match v {
        JsonV::Str(s) => Some(s),
        JsonV::Number(n) => Some(number_text(n)),
        _ => None,
    }
}

/// The value of the first member named `key`, searched depth first: an object's own
/// member wins over its children; children are searched in order.
pub open spec fn find_key(v: JsonV, key: Seq<char>) -> Option<Seq<char>>
    decreases v, 0nat,
{
    match v {
        JsonV::Object(m) => match member(m, key) {
            Some(x) => scalar_text(x),
            None => find_key_members(m, key, 0),
        },
        JsonV::Array(a) => find_key_elems(a, key, 0),
        _ => None,
    }
}

pub open spec fn find_key_members(m: Seq<(Seq<char>, JsonV)>, key: Seq<char>, i: int) -> Option<Seq<char>>
    decreases m, m.len() - i,
{
    if i < 0 || i >= m.len() {
        None
    } else {
        proof {
            assert(decreases_to!(m => m[i]));
            assert(decreases_to!(m[i] => m[i].1));
        }
        match find_key(m[i].1, key) {
            Some(s) => Some(s),
            None => find_key_members(m, key, i + 1),
        }
    }
}

pub open spec fn find_key_elems(a: Seq<JsonV>, key: Seq<char>, i: int) -> Option<Seq<char>>
    decreases a, a.len() - i,
{
    if i < 0 || i >= a.len() {
        None
    } else {
        match find_key(a[i], key) {
            Some(s) => Some(s),
            None => find_key_elems(a, key, i + 1),
        }
    }
}

fn scalar_to_string(v: &Json) -> (r: Option<String>)
    ensures
        match r {
            Some(s) => scalar_text(v@) == Some(s@),
            None => scalar_text(v@) is None,
        },
{
    match v {
        Json::Str(s) => Some(s.clone()),
        Json::Number(n) => Some(number_to_string(n)),
        _ => None,
    }
}

/// The text under the first member named `key`, searched depth first.
pub fn find_key_recursive(v: &Json, key: &str) -> (r: Option<String>)
    ensures
        match r {
            Some(s) => find_key(v@, key@) == Some(s@),
            None => find_key(v@, key@) is None,
        },
    decreases *v, 2nat,
{
    match v {
        Json::Object(m) => {
            proof {
                crate::json::lemma_object_members(*m);
            }
            match crate::json::find_member(m, key) {
                Some(x) => scalar_to_string(x),
                None => find_in_members(v, m, key, 0),
            }
        },
        Json::Array(a) => {
            proof {
                crate::json::lemma_array_elems(*a);
            }
            find_in_elems(v, a, key, 0)
        },
        _ => None,
    }
}

fn find_in_members(v: &Json, m: &Vec<(String, Json)>, key: &str, i: usize) -> (r: Option<String>)
    requires
        *v == Json::Object(*m),
        i <= m@.len(),
    ensures
        match r {
            Some(s) => find_key_members(crate::json::members_view(m@), key@, i as int) == Some(s@),
            None => find_key_members(crate::json::members_view(m@), key@, i as int) is None,
        },
    decreases *v, 1nat, m@.len() - i,
{
    if i == m.len() {
        return None;
    }
    proof {
        broadcast use vstd::std_specs::vec::axiom_vec_index_decreases;
        assert(decreases_to!(*v => (*v)->Object_0));
        assert(decreases_to!((*v)->Object_0 => (*v)->Object_0[i as int]));
        assert(decreases_to!((*v)->Object_0[i as int] => (*v)->Object_0[i as int].1));
    }
    let ghost mv = crate::json::members_view(m@);
    assert(mv[i as int].1 == m@[i as int].1@);
    match find_key_recursive(&m[i].1, key) {
        Some(s) => Some(s),
        None => find_in_members(v, m, key, i + 1),
    }
}

fn find_in_elems(v: &Json, a: &Vec<Json>, key: &str, i: usize) -> (r: Option<String>)
    requires
        *v == Json::Array(*a),
        i <= a@.len(),
    ensures
        match r {
            Some(s) => find_key_elems(crate::json::elems_view(a@), key@, i as int) == Some(s@),
            None => find_key_elems(crate::json::elems_view(a@), key@, i as int) is None,
        },
    decreases *v, 1nat, a@.len() - i,
{
    if i == a.len() {
        return None;
    }
    proof {
        broadcast use vstd::std_specs::vec::axiom_vec_index_decreases;
        assert(decreases_to!(*v => (*v)->Array_0));
        assert(decreases_to!((*v)->Array_0 => (*v)->Array_0[i as int]));
    }
    let ghost av = crate::json::elems_view(a@);
    assert(av[i as int] == a@[i as int]@);
    match find_key_recursive(&a[i], key) {
        Some(s) => Some(s),
        None => find_in_elems(v, a, key, i + 1),
    }
}

/// The first non-empty text among `returnAuthMsg`, then `resultCode`; else the text of
/// `errMsg`, or nothing.
pub open spec fn result_code_of_value(v: JsonV) -> Seq<char> {
    match find_key(v, "returnAuthMsg"@) {
        Some(s) if s.len() > 0 => s,
        _ => match find_key(v, "resultCode"@) {
            Some(s) if s.len() > 0 => s,
            _ => match find_key(v, "errMsg"@) {
                Some(s) => s,
                None => Seq::empty(),
            },
        },
    }
}

/// The result code of a parsed response.
pub fn extract_result_code_from_value(v: &Json) -> (r: String)
    ensures
        r@ == result_code_of_value(v@),
{
    if let Some(s) = find_key_recursive(v, "returnAuthMsg") {
        if !s.as_str().is_empty() {
            return s;
        }
    }
    if let Some(s) = find_key_recursive(v, "resultCode") {
        if !s.as_str().is_empty() {
            return s;
        }
    }
    match find_key_recursive(v, "errMsg") {
        Some(s) => s,
        None => String::new(),
    }
}

// ---------------------------------------------------------------------------
// Searching a raw response body
// ---------------------------------------------------------------------------

/// The first index at or after `from` where `needle` occurs in `hay`.
pub open spec fn first_occ(hay: Seq<char>, needle: Seq<char>, from: int) -> Option<int>
    decreases hay.len() + 1 - from,
{
    if from < 0 || from > hay.len() {
        None
    } else if occurs_at(hay, needle, from) {
        Some(from)
    } else {
        first_occ(hay, needle, from + 1)
    }
}

proof fn lemma_first_occ(hay: Seq<char>, needle: Seq<char>, from: int, r: Option<int>)
    requires
        0 <= from,
        match r {
            Some(i) => from <= i && occurs_at(hay, needle, i) && forall|j: int|
                from <= j < i ==> !occurs_at(hay, needle, j),
            None => forall|j: int| from <= j ==> !occurs_at(hay, needle, j),
        },
    ensures
        first_occ(hay, needle, from) == r,
    decreases hay.len() + 1 - from,
{
    if from <= hay.len() {
        match r {
            Some(i) => {
                if i > from {
                    lemma_first_occ(hay, needle, from + 1, r);
                }
            },
            None => {
                lemma_first_occ(hay, needle, from + 1, r);
            },
        }
    } else {
        match r {
            Some(i) => {
                assert(!occurs_at(hay, needle, i));
            },
            None => {},
        }
    }
}

fn first_occ_exec(hay: &[char], needle: &[char], from: usize) -> (r: Option<usize>)
    ensures
        match r {
            Some(i) => first_occ(hay@, needle@, from as int) == Some(i as int) && from <= i && i
                + needle@.len() <= hay@.len(),
            None => first_occ(hay@, needle@, from as int) is None,
        },
{
    let r = find_from(hay, needle, from);
    proof {
        lemma_first_occ(
            hay@,
            needle@,
            from as int,
            match r {
                Some(i) => Some(i as int),
                None => None,
            },
        );
    }
    r
}

/// The text between the first `<tag>` and the first `</tag>` after it, trimmed.
pub open spec fn tag_text(body: Seq<char>, tag: Seq<char>) -> Option<Seq<char>> {
    let open = "<"@ + tag + ">"@;
    let close = "</"@ + tag + ">"@;
    match first_occ(body, open, 0) {
        Some(s) => match first_occ(body, close, s + open.len()) {
            Some(e) => Some(trim(body.subrange(s + open.len(), e))),
            None => None,
        },
        None => None,
    }
}

/// The trimmed text of the first `<tag>...</tag>` element of `body`.
pub fn extract_tag(body: &str, tag: &str) -> (r: Option<String>)
    ensures
        match r {
            Some(s) => tag_text(body@, tag@) == Some(s@),
            None => tag_text(body@, tag@) is None,
        },
{
    proof {
        reveal_strlit("<");
        reveal_strlit(">");
        reveal_strlit("</");
    }
    let b = chars_of(body);
    let t = chars_of(tag);
    let mut open: Vec<char> = vec!['<'];
    let mut t1 = t.clone();
    open.append(&mut t1);
    open.push('>');
    let mut close: Vec<char> = vec!['<', '/'];
    let mut t2 = t.clone();
    close.append(&mut t2);
    close.push('>');
    assert(open@ =~= "<"@ + tag@ + ">"@);
    assert(close@ =~= "</"@ + tag@ + ">"@);
    let s = match first_occ_exec(b.as_slice(), open.as_slice(), 0) {
        Some(s) => s,
        None => {
            return None;
        },
    };
    let blen = b.len();
    assert(s + open@.len() <= blen);
    let from = s + open.len();
    let e = match first_occ_exec(b.as_slice(), close.as_slice(), from) {
        Some(e) => e,
        None => {
            return None;
        },
    };
    let inner = slice_to_vec(b.as_slice(), from, e);
    let trimmed = trim_chars(inner.as_slice());
    Some(string_from_chars(trimmed.as_slice()))
}

/// The end of the run of characters of `cs` that starts at `i`.
pub open spec fn skip_any_of(s: Seq<char>, i: int, cs: Seq<char>) -> int
    decreases s.len() - i,
{
    if 0 <= i < s.len() && cs.contains(s[i]) {
        skip_any_of(s, i + 1, cs)
    } else {
        i
    }
}

/// The value of a JSON `"resultCode"` member read from raw text: after the first
/// `"resultCode"`, the first `:`; then leading quotes, spaces and tabs are skipped and the
/// value runs to the next quote, comma or closing brace, trimmed.
pub open spec fn json_code_text(body: Seq<char>) -> Option<Seq<char>> {
    match first_occ(body, "\"resultCode\""@, 0) {
        Some(start) => match first_occ(body, ":"@, start) {
            Some(colon) => {
                let p = skip_any_of(body, colon + 1, seq!['"', ' ', '\t']);
                let e = skip_none_of(body, p, seq!['"', ',', '}']);
                Some(trim(body.subrange(p, e)))
            },
            None => None,
        },
        None => None,
    }
}

/// The result code of a raw response body: a non-empty `returnAuthMsg` element, else a
/// non-empty `resultCode` element, else a JSON `"resultCode"` member, else the `errMsg`
/// element's text, else nothing.
pub open spec fn result_code_of_text(body: Seq<char>) -> Seq<char> {
    match tag_text(body, "returnAuthMsg"@) {
        Some(c) if c.len() > 0 => c,
        _ => match tag_text(body, "resultCode"@) {
            Some(c) if c.len() > 0 => c,
            _ => match json_code_text(body) {
                Some(c) => c,
                None => match tag_text(body, "errMsg"@) {
                    Some(c) => c,
                    None => Seq::empty(),
                },
            },
        },
    }
}

fn skip_any_of_exec(s: &[char], i: usize, cs: &[char]) -> (r: usize)
    requires
        i <= s@.len(),
    ensures
        r == skip_any_of(s@, i as int, cs@),
        i <= r <= s@.len(),
{
    let mut j = i;
    while j < s.len() && char_in(cs, s[j])
        invariant
            i <= j <= s@.len(),
            skip_any_of(s@, i as int, cs@) == skip_any_of(s@, j as int, cs@),
        decreases s@.len() - j,
    {
        j = j + 1;
    }
    j
}

fn skip_none_of_chars(s: &[char], i: usize, cs: &[char]) -> (r: usize)
    requires
        i <= s@.len(),
    ensures
        r == skip_none_of(s@, i as int, cs@),
        i <= r <= s@.len(),
{
    let mut j = i;
    while j < s.len() && !char_in(cs, s[j])
        invariant
            i <= j <= s@.len(),
            skip_none_of(s@, i as int, cs@) == skip_none_of(s@, j as int, cs@),
        decreases s@.len() - j,
    {
        j = j + 1;
    }
    j
}

fn json_code(body: &str) -> (r: Option<String>)
    ensures
        match r {
            Some(s) => json_code_text(body@) == Some(s@),
            None => json_code_text(body@) is None,
        },
{
    proof {
        reveal_strlit("\"resultCode\"");
        reveal_strlit(":");
    }
    let b = chars_of(body);
    let key = chars_of("\"resultCode\"");
    let colon_lit = chars_of(":");
    let start = match first_occ_exec(b.as_slice(), key.as_slice(), 0) {
        Some(s) => s,
        None => {
            return None;
        },
    };
    let colon = match first_occ_exec(b.as_slice(), colon_lit.as_slice(), start) {
        Some(c) => c,
        None => {
            return None;
        },
    };
    let skip = vec!['"', ' ', '\t'];
    let stop = vec!['"', ',', '}'];
    assert(skip@ =~= seq!['"', ' ', '\t']);
    assert(stop@ =~= seq!['"', ',', '}']);
    let blen = b.len();
    assert(colon + colon_lit@.len() <= blen);
    let p = skip_any_of_exec(b.as_slice(), colon + 1, skip.as_slice());
    let e = skip_none_of_chars(b.as_slice(), p, stop.as_slice());
    let inner = slice_to_vec(b.as_slice(), p, e);
    let t = trim_chars(inner.as_slice());
    Some(string_from_chars(t.as_slice()))
}

/// The result code of a raw response body.
pub fn extract_result_code(body: &str) -> (r: String)
    ensures
        r@ == result_code_of_text(body@),
{
    if let Some(code) = extract_tag(body, "returnAuthMsg") {
        if !code.as_str().is_empty() {
            return code;
        }
    }
    if let Some(code) = extract_tag(body, "resultCode") {
        if !code.as_str().is_empty() {
            return code;
        }
    }
    if let Some(code) = json_code(body) {
        return code;
    }
    match extract_tag(body, "errMsg") {
        Some(c) => c,
        None => String::new(),
    }
}

// ---------------------------------------------------------------------------
// The easiest call of a spec
// ---------------------------------------------------------------------------

/// The number of required parameters.
pub open spec fn required_count(ps: Seq<ParameterV>) -> nat
    decreases ps.len(),
{
    if ps.len() == 0 {
        0
    } else {
        required_count(ps.drop_last()) + if ps.last().required {
            1nat
        } else {
            0nat
        }
    }
}

/// Operation `i` has the fewest required parameters, and no operation before it has as few.
pub open spec fn is_easiest(ops: Seq<OperationV>, i: int) -> bool {
    &&& 0 <= i < ops.len()
    &&& forall|j: int| 0 <= j < ops.len() ==> required_count(ops[i].parameters) <= required_count(#[trigger] ops[j].parameters)
    &&& forall|j: int| 0 <= j < i ==> required_count(ops[i].parameters) < required_count(#[trigger] ops[j].parameters)
}

fn count_required(ps: &Vec<Parameter>) -> (r: usize)
    ensures
        r == required_count(ps@.map_values(|p: Parameter| p@)),
{
    let ghost pv = ps@.map_values(|p: Parameter| p@);
    let mut n: usize = 0;
    let mut i: usize = 0;
    assert(pv.take(0) =~= Seq::<ParameterV>::empty());
    while i < ps.len()
        invariant
            i <= ps@.len(),
            pv == ps@.map_values(|p: Parameter| p@),
            n == required_count(pv.take(i as int)),
            n <= i,
        decreases ps@.len() - i,
    {
        assert(pv.take(i + 1).drop_last() =~= pv.take(i as int));
        assert(pv.take(i + 1).last() == ps@[i as int]@);
        if ps[i].required {
            n = n + 1;
        }
        i = i + 1;
    }
    assert(pv.take(ps@.len() as int) =~= pv);
    n
}

/// The operation with the fewest required parameters (the first of them on a tie).
pub fn pick_easy_operation(spec: &ApiSpec) -> (r: Option<&Operation>)
    ensures
        spec.operations@.len() == 0 <==> r is None,
        r matches Some(op) ==> exists|i: int|
            #[trigger] is_easiest(spec@.operations, i) && spec.operations@[i] == *op,
{
    let ops = &spec.operations;
    if ops.len() == 0 {
        return None;
    }
    let ghost ov = spec@.operations;
    assert(ov.len() == ops@.len());
    let mut best: usize = 0;
    let mut best_n: usize = count_required(&ops[0].parameters);
    let mut i: usize = 1;
    while i < ops.len()
        invariant
            1 <= i <= ops@.len(),
            best < i,
            ov == spec@.operations,
            ov.len() == ops@.len(),
            forall|k: int| 0 <= k < ops@.len() ==> #[trigger] ov[k] == ops@[k]@,
            best_n == required_count(ov[best as int].parameters),
            forall|j: int| 0 <= j < i ==> best_n <= required_count(#[trigger] ov[j].parameters),
            forall|j: int| 0 <= j < best ==> best_n < required_count(#[trigger] ov[j].parameters),
        decreases ops@.len() - i,
    {
        let n = count_required(&ops[i].parameters);
        assert(ov[i as int] == ops@[i as int]@);
        if n < best_n {
            best = i;
            best_n = n;
        }
        i = i + 1;
    }
    assert(is_easiest(ov, best as int));
    assert(ov[best as int] == ops@[best as int]@);
    Some(&ops[best])
}

/// The parameters of a first call: one row per page (`pageNo=1`, `numOfRows=1`), then
/// each required parameter not named yet, with its default or `20250101`.
pub open spec fn default_params(ps: Seq<ParameterV>) -> Seq<(Seq<char>, Seq<char>)>
    decreases ps.len(),
{
    if ps.len() == 0 {
        seq![("pageNo"@, "1"@), ("numOfRows"@, "1"@)]
    } else {
        let acc = default_params(ps.drop_last());
        let p = ps.last();
        if p.required && !acc.map_values(|e: (Seq<char>, Seq<char>)| e.0).contains(p.name) {
            acc.push(
                (
                    p.name,
                    match p.default {
                        Some(d) => d,
                        None => "20250101"@,
                    },
                ),
            )
        } else {
            acc
        }
    }
}

pub open spec fn pair_views(v: Seq<(String, String)>) -> Seq<(Seq<char>, Seq<char>)> {
    v.map_values(|e: (String, String)| (e.0@, e.1@))
}

fn has_key(params: &Vec<(String, String)>, key: &String) -> (r: bool)
    ensures
        r == pair_views(params@).map_values(|e: (Seq<char>, Seq<char>)| e.0).contains(key@),
{
    let ghost ks = pair_views(params@).map_values(|e: (Seq<char>, Seq<char>)| e.0);
    let mut i: usize = 0;
    while i < params.len()
        invariant
            i <= params@.len(),
            ks == pair_views(params@).map_values(|e: (Seq<char>, Seq<char>)| e.0),
            forall|j: int| 0 <= j < i ==> #[trigger] ks[j] != key@,
        decreases params@.len() - i,
    {
        assert(ks[i as int] == params@[i as int].0@);
        if params[i].0 == *key {
            return true;
        }
        i = i + 1;
    }
    false
}

/// The parameters for a first call of `op`.
pub fn build_default_params(op: &Operation) -> (r: Vec<(String, String)>)
    ensures
        pair_views(r@) == default_params(op@.parameters),
{
    let ghost pv = op@.parameters;
    let mut params: Vec<(String, String)> = vec![
        ("pageNo".to_owned(), "1".to_owned()),
        ("numOfRows".to_owned(), "1".to_owned()),
    ];
    let mut i: usize = 0;
    assert(pv.take(0) =~= Seq::<ParameterV>::empty());
    assert(pair_views(params@) =~= default_params(pv.take(0)));
    while i < op.parameters.len()
        invariant
            i <= op.parameters@.len(),
            pv == op@.parameters,
            pv.len() == op.parameters@.len(),
            pair_views(params@) == default_params(pv.take(i as int)),
        decreases op.parameters@.len() - i,
    {
        let p = &op.parameters[i];
        assert(pv.take(i + 1).drop_last() =~= pv.take(i as int));
        assert(pv.take(i + 1).last() == p@);
        if p.required && !has_key(&params, &p.name) {
            let val = match &p.default {
                Some(d) => d.clone(),
                None => "20250101".to_owned(),
            };
            let ghost before = pair_views(params@);
            params.push((p.name.clone(), val));
            assert(pair_views(params@) =~= before.push((p.name@, val@)));
        }
        i = i + 1;
    }
    assert(pv.take(pv.len() as int) =~= pv);
    params
}

// ---------------------------------------------------------------------------
// Laws of the gateway helpers
// ---------------------------------------------------------------------------

/// The parameters of a first call name each parameter once, starting with `pageNo` and
/// `numOfRows`.
pub proof fn law_default_params_distinct(ps: Seq<ParameterV>)
    ensures
        default_params(ps).len() >= 2,
        default_params(ps)[0] == ("pageNo"@, "1"@),
        default_params(ps)[1] == ("numOfRows"@, "1"@),
        forall|i: int, j: int|
            0 <= i < j < default_params(ps).len() ==> #[trigger] default_params(ps)[i].0 != #[trigger] default_params(
                ps,
            )[j].0,
    decreases ps.len(),
{
    if ps.len() == 0 {
        reveal_strlit("pageNo");
        reveal_strlit("numOfRows");
        assert("pageNo"@.len() != "numOfRows"@.len());
    } else {
        let acc = default_params(ps.drop_last());
        law_default_params_distinct(ps.drop_last());
        let p = ps.last();
        let keys = acc.map_values(|e: (Seq<char>, Seq<char>)| e.0);
        if p.required && !keys.contains(p.name) {
            let v = match p.default {
                Some(d) => d,
                None => "20250101"@,
            };
            let q = acc.push((p.name, v));
            assert forall|i: int, j: int| 0 <= i < j < q.len() implies #[trigger] q[i].0 != #[trigger] q[j].0 by {
                if j == acc.len() {
                    assert(keys[i] == acc[i].0);
                } else {
                    assert(q[i] == acc[i] && q[j] == acc[j]);
                }
            }
            assert(q[0] == acc[0] && q[1] == acc[1]);
        }
    }
}

/// A result code reported under `returnAuthMsg` (an authentication error) wins over any
/// other code in the same body.
pub proof fn law_auth_message_wins(body: Seq<char>, msg: Seq<char>)
    requires
        tag_text(body, "returnAuthMsg"@) == Some(msg),
        msg.len() > 0,
    ensures
        result_code_of_text(body) == msg,
{
}

} // verus!
