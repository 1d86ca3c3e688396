//! Character-level text utilities with specifications over `Seq<char>`.

use vstd::prelude::*;

verus! {

// ---------------------------------------------------------------------------
// Conversions between `String` and `Vec<char>`
// ---------------------------------------------------------------------------

/// The characters of `s`, in order.
pub fn chars_of(s: &str) -> (r: Vec<char>)
    ensures
        r@ == s@,
{
    let mut out: Vec<char> = Vec::new();
    for c in it: s.chars()
        invariant
            out@ == it.seq().take(it.index() as int),
            it.seq() == s@,
    {
        out.push(c);
    }
    out
}

/// Trusted: `String::push` appends the given character to the end of the string
/// (std documentation: "Appends the given char to the end of this String").
#[verifier::external_body]
pub(crate) fn push_char(s: &mut String, c: char)
    ensures
        final(s)@ == old(s)@.push(c),
{
    s.push(c);
}

/// The string made of the characters of `v`.
pub fn string_from_chars(v: &[char]) -> (r: String)
    ensures
        r@ == v@,
{
    let mut out = String::new();
    let mut i: usize = 0;
    while i < v.len()
        invariant
            i <= v@.len(),
            out@ == v@.take(i as int),
        decreases v@.len() - i,
    {
        push_char(&mut out, v[i]);
        i = i + 1;
        assert(v@.take(i as int) =~= v@.take((i - 1) as int).push(v@[i - 1]));
    }
    assert(v@.take(v@.len() as int) =~= v@);
    out
}

/// A copy of a string.
pub fn copy_string(s: &String) -> (r: String)
    ensures
        r@ == s@,
{
    s.clone()
}

/// Named result of `str::to_lowercase` (Unicode lowercase mapping).
pub uninterp spec fn lowercase(s: Seq<char>) -> Seq<char>;

/// A Hangul character (a Jamo, a compatibility Jamo or a syllable): Korean script has no
/// letter case.
pub open spec fn is_hangul(c: char) -> bool {
    let u = c as u32;
    ||| (0x1100 <= u && u <= 0x11ff)
    ||| (0x3130 <= u && u <= 0x318f)
    ||| (0xac00 <= u && u <= 0xd7a3)
}

/// Every character of `s` is ASCII or Hangul.
pub open spec fn is_ascii_or_hangul_text(s: Seq<char>) -> bool {
    forall|i: int| 0 <= i < s.len() ==> (#[trigger] s[i] as u32) < 128 || is_hangul(s[i])
}

/// `t` is `s` with its ASCII capital letters made small and every other character kept.
pub open spec fn is_ascii_lowering(s: Seq<char>, t: Seq<char>) -> bool {
    t.len() == s.len() && forall|i: int| 0 <= i < s.len() ==> (#[trigger] t[i] as u32) == ascii_lower(s[i] as u32)
}

/// Characters with the same code point are the same character.
pub proof fn lemma_char_code_injective(a: char, b: char)
    requires
        (a as u32) == (b as u32),
    ensures
        a == b,
{
    assert((a as u32) as int == a as int);
    assert((b as u32) as int == b as int);
}

/// Two strings that agree up to ASCII case have the same ASCII lowering.
pub proof fn lemma_ascii_lowering_unique(s1: Seq<char>, s2: Seq<char>, t1: Seq<char>, t2: Seq<char>)
    requires
        eq_ignore_ascii_case(s1, s2),
        is_ascii_lowering(s1, t1),
        is_ascii_lowering(s2, t2),
    ensures
        t1 == t2,
{
    assert forall|i: int| 0 <= i < t1.len() implies t1[i] == t2[i] by {
        assert(ascii_lower(s1[i] as u32) == ascii_lower(s2[i] as u32));
        lemma_char_code_injective(t1[i], t2[i]);
    }
    assert(t1 =~= t2);
}

/// Trusted: `str::to_lowercase` returns the lowercase equivalent of `s`; its result is a
/// function of `s` alone, named `lowercase`. Of the Unicode tables only this part is
/// stated: on text of ASCII and Hangul characters, the capital letters `A`-`Z` become
/// `a`-`z` and every other character stays as it is (std's documentation: languages
/// without case are not changed).
#[verifier::external_body]
pub(crate) fn to_lowercase(s: &str) -> (r: String)
    ensures
        r@ == lowercase(s@),
        is_ascii_or_hangul_text(s@) ==> is_ascii_lowering(s@, r@),
{
    s.to_lowercase()
}

// ---------------------------------------------------------------------------
// Character classes
// ---------------------------------------------------------------------------

/// The Unicode `White_Space` property, as used by `char::is_whitespace`.
pub open spec fn is_ws(c: char) -> bool {
    let u = c as u32;
    ||| (0x09 <= u && u <= 0x0d)
    ||| u == 0x20
    ||| u == 0x85
    ||| u == 0xa0
    ||| u == 0x1680
    ||| (0x2000 <= u && u <= 0x200a)
    ||| u == 0x2028
    ||| u == 0x2029
    ||| u == 0x202f
    ||| u == 0x205f
    ||| u == 0x3000
}

pub fn is_whitespace(c: char) -> (r: bool)
    ensures
        r == is_ws(c),
{
    let u = c as u32;
    (0x09 <= u && u <= 0x0d) || u == 0x20 || u == 0x85 || u == 0xa0 || u == 0x1680 || (0x2000 <= u
        && u <= 0x200a) || u == 0x2028 || u == 0x2029 || u == 0x202f || u == 0x205f || u == 0x3000
}

/// ASCII lowercase of a code point (other code points are unchanged).
pub open spec fn ascii_lower(u: u32) -> u32 {
    if 65 <= u && u <= 90 {
        (u + 32) as u32
    } else {
        u
    }
}

/// Equality ignoring ASCII case (`eq_ignore_ascii_case`).
pub open spec fn eq_ignore_ascii_case(a: Seq<char>, b: Seq<char>) -> bool {
    a.len() == b.len() && forall|i: int|
        0 <= i < a.len() ==> ascii_lower(#[trigger] a[i] as u32) == ascii_lower(b[i] as u32)
}

pub fn ascii_case_eq(a: &[char], b: &[char]) -> (r: bool)
    ensures
        r == eq_ignore_ascii_case(a@, b@),
{
    if a.len() != b.len() {
        return false;
    }
    let mut i: usize = 0;
    while i < a.len()
        invariant
            a@.len() == b@.len(),
            i <= a@.len(),
            forall|k: int| 0 <= k < i ==> ascii_lower(#[trigger] a@[k] as u32) == ascii_lower(
                b@[k] as u32,
            ),
        decreases a@.len() - i,
    {
        let x = a[i] as u32;
        let y = b[i] as u32;
        let lx = if 65 <= x && x <= 90 {
            x + 32
        } else {
            x
        };
        let ly = if 65 <= y && y <= 90 {
            y + 32
        } else {
            y
        };
        if lx != ly {
            return false;
        }
        i = i + 1;
    }
    true
}

// ---------------------------------------------------------------------------
// Trimming
// ---------------------------------------------------------------------------

/// `s` without its leading whitespace.
pub open spec fn trim_start(s: Seq<char>) -> Seq<char>
    decreases s.len(),
{
    if s.len() > 0 && is_ws(s[0]) {
        trim_start(s.drop_first())
    } else {
        s
    }
}

/// `s` without its trailing whitespace.
pub open spec fn trim_end(s: Seq<char>) -> Seq<char>
    decreases s.len(),
{
    if s.len() > 0 && is_ws(s.last()) {
        trim_end(s.drop_last())
    } else {
        s
    }
}

/// `str::trim`: `s` without leading and trailing whitespace.
pub open spec fn trim(s: Seq<char>) -> Seq<char> {
    trim_end(trim_start(s))
}

/// `s` without leading and trailing occurrences of `c` (`str::trim_matches(c)`).
pub open spec fn trim_char_start(s: Seq<char>, c: char) -> Seq<char>
    decreases s.len(),
{
    if s.len() > 0 && s[0] == c {
        trim_char_start(s.drop_first(), c)
    } else {
        s
    }
}

pub open spec fn trim_char_end(s: Seq<char>, c: char) -> Seq<char>
    decreases s.len(),
{
    if s.len() > 0 && s.last() == c {
        trim_char_end(s.drop_last(), c)
    } else {
        s
    }
}

pub open spec fn trim_char(s: Seq<char>, c: char) -> Seq<char> {
    trim_char_end(trim_char_start(s, c), c)
}

/// Index of the first non-whitespace character at or after `lo`, and the end of the trimmed
/// range: `trim(s) == s.subrange(lo, hi)`.
fn trim_bounds(s: &[char]) -> (r: (usize, usize))
    ensures
        r.0 <= r.1 <= s@.len(),
        trim(s@) == s@.subrange(r.0 as int, r.1 as int),
{
    let n = s.len();
    let mut lo: usize = 0;
    assert(s@.subrange(0, n as int) =~= s@);
    while lo < n && is_whitespace(s[lo])
        invariant
            lo <= n == s@.len(),
            trim_start(s@) == trim_start(s@.subrange(lo as int, n as int)),
        decreases n - lo,
    {
        assert(s@.subrange(lo as int, n as int).drop_first() =~= s@.subrange(lo + 1, n as int));
        lo = lo + 1;
    }
    assert(trim_start(s@) == s@.subrange(lo as int, n as int));
    let mut hi: usize = n;
    while hi > lo && is_whitespace(s[hi - 1])
        invariant
            lo <= hi <= n == s@.len(),
            trim(s@) == trim_end(s@.subrange(lo as int, hi as int)),
        decreases hi,
    {
        assert(s@.subrange(lo as int, hi as int).drop_last() =~= s@.subrange(lo as int, hi - 1));
        hi = hi - 1;
    }
    (lo, hi)
}

/// `str::trim` on a character sequence.
pub fn trim_chars(s: &[char]) -> (r: Vec<char>)
    ensures
        r@ == trim(s@),
{
    let (lo, hi) = trim_bounds(s);
    slice_to_vec(s, lo, hi)
}

/// `str::trim` on a string.
pub fn trim_string(s: &str) -> (r: String)
    ensures
        r@ == trim(s@),
{
    let v = chars_of(s);
    let t = trim_chars(&v);
    string_from_chars(&t)
}

/// `str::trim_matches(c)` on a character sequence.
pub fn trim_char_chars(s: &[char], c: char) -> (r: Vec<char>)
    ensures
        r@ == trim_char(s@, c),
{
    let n = s.len();
    let mut lo: usize = 0;
    assert(s@.subrange(0, n as int) =~= s@);
    while lo < n && s[lo] == c
        invariant
            lo <= n == s@.len(),
            trim_char_start(s@, c) == trim_char_start(s@.subrange(lo as int, n as int), c),
        decreases n - lo,
    {
        assert(s@.subrange(lo as int, n as int).drop_first() =~= s@.subrange(lo + 1, n as int));
        lo = lo + 1;
    }
    assert(trim_char_start(s@, c) == s@.subrange(lo as int, n as int));
    let mut hi: usize = n;
    while hi > lo && s[hi - 1] == c
        invariant
            lo <= hi <= n == s@.len(),
            trim_char(s@, c) == trim_char_end(s@.subrange(lo as int, hi as int), c),
        decreases hi,
    {
        assert(s@.subrange(lo as int, hi as int).drop_last() =~= s@.subrange(lo as int, hi - 1));
        hi = hi - 1;
    }
    slice_to_vec(s, lo, hi)
}

/// A copy of `s[lo..hi]`.
pub fn slice_to_vec(s: &[char], lo: usize, hi: usize) -> (r: Vec<char>)
    requires
        lo <= hi <= s@.len(),
    ensures
        r@ == s@.subrange(lo as int, hi as int),
{
    let mut out: Vec<char> = Vec::new();
    let mut i = lo;
    while i < hi
        invariant
            lo <= i <= hi <= s@.len(),
            out@ == s@.subrange(lo as int, i as int),
        decreases hi - i,
    {
        out.push(s[i]);
        i = i + 1;
        assert(out@ =~= s@.subrange(lo as int, i as int));
    }
    out
}

// ---------------------------------------------------------------------------
// Searching
// ---------------------------------------------------------------------------

/// `needle` occurs in `hay` at index `i`.
pub open spec fn occurs_at(hay: Seq<char>, needle: Seq<char>, i: int) -> bool {
    0 <= i && i + needle.len() <= hay.len() && hay.subrange(i, i + needle.len()) == needle
}

/// `str::contains` with a string pattern.
pub open spec fn contains(hay: Seq<char>, needle: Seq<char>) -> bool {
    exists|i: int| occurs_at(hay, needle, i)
}

/// `str::starts_with` with a string pattern.
pub open spec fn starts_with(s: Seq<char>, p: Seq<char>) -> bool {
    p.len() <= s.len() && s.subrange(0, p.len() as int) == p
}

/// Whether `needle` occurs in `hay` at index `i` (exec).
pub fn matches_at(hay: &[char], needle: &[char], i: usize) -> (r: bool)
    ensures
        r == occurs_at(hay@, needle@, i as int),
{
    if i > hay.len() || needle.len() > hay.len() - i {
        return false;
    }
    let mut k: usize = 0;
    while k < needle.len()
        invariant
            i + needle@.len() <= hay@.len(),
            hay@.len() <= usize::MAX,
            k <= needle@.len(),
            forall|j: int| 0 <= j < k ==> hay@[i + j] == needle@[j],
        decreases needle@.len() - k,
    {
        if hay[i + k] != needle[k] {
            assert(hay@.subrange(i as int, i + needle@.len())[k as int] != needle@[k as int]);
            return false;
        }
        k = k + 1;
    }
    assert(hay@.subrange(i as int, i + needle@.len()) =~= needle@);
    true
}

/// The first index at or after `from` where `needle` occurs in `hay`.
pub fn find_from(hay: &[char], needle: &[char], from: usize) -> (r: Option<usize>)
    ensures
        match r {
            Some(i) => from <= i && occurs_at(hay@, needle@, i as int) && forall|j: int|
                from <= j < i ==> !occurs_at(hay@, needle@, j),
            None => forall|j: int| from <= j ==> !occurs_at(hay@, needle@, j),
        },
{
    let mut i = from;
    while i <= hay.len()
        invariant
            from <= i,
            forall|j: int| from <= j < i ==> !occurs_at(hay@, needle@, j),
        decreases hay@.len() + 1 - i,
    {
        if matches_at(hay, needle, i) {
            return Some(i);
        }
        if i == hay.len() {
            assert forall|j: int| from <= j implies !occurs_at(hay@, needle@, j) by {
                if j > i {
                }
            }
            return None;
        }
        i = i + 1;
    }
    None
}

/// `str::contains` on character sequences.
pub fn contains_chars(hay: &[char], needle: &[char]) -> (r: bool)
    ensures
        r == contains(hay@, needle@),
{
    match find_from(hay, needle, 0) {
        Some(i) => true,
        None => {
            assert forall|j: int| !occurs_at(hay@, needle@, j) by {
                if j < 0 {
                }
            }
            false
        },
    }
}

/// `str::contains` on strings.
pub fn str_contains(hay: &str, needle: &str) -> (r: bool)
    ensures
        r == contains(hay@, needle@),
{
    let h = chars_of(hay);
    let n = chars_of(needle);
    contains_chars(&h, &n)
}

/// `str::starts_with` on character sequences.
pub fn starts_with_chars(s: &[char], p: &[char]) -> (r: bool)
    ensures
        r == starts_with(s@, p@),
{
    let r = matches_at(s, p, 0);
    assert(r == occurs_at(s@, p@, 0));
    r
}

/// `str::starts_with` on strings.
pub fn str_starts_with(s: &str, p: &str) -> (r: bool)
    ensures
        r == starts_with(s@, p@),
{
    let a = chars_of(s);
    let b = chars_of(p);
    starts_with_chars(&a, &b)
}


// ---------------------------------------------------------------------------
// Splitting
// ---------------------------------------------------------------------------

/// Separator of a split: `None` splits at whitespace, `Some(c)` at the character `c`.
pub open spec fn is_sep(x: char, sep: Option<char>) -> bool {
    match sep {
        None => is_ws(x),
        Some(c) => x == c,
    }
}

/// The pieces of `s` between separators, empty pieces included (`str::split`).
pub open spec fn split_by(s: Seq<char>, sep: Option<char>) -> Seq<Seq<char>>
    decreases s.len(),
{
    if s.len() == 0 {
        seq![Seq::<char>::empty()]
    } else {
        let p = split_by(s.drop_last(), sep);
        if is_sep(s.last(), sep) {
            p.push(Seq::<char>::empty())
        } else {
            p.update(p.len() - 1, p.last().push(s.last()))
        }
    }
}

/// The non-empty elements of `p`, in order.
pub open spec fn keep_nonempty(p: Seq<Seq<char>>) -> Seq<Seq<char>>
    decreases p.len(),
{
    if p.len() == 0 {
        p
    } else {
        let r = keep_nonempty(p.drop_last());
        if p.last().len() > 0 {
            r.push(p.last())
        } else {
            r
        }
    }
}

/// `str::split_whitespace`: the non-empty runs of non-whitespace characters.
pub open spec fn words(s: Seq<char>) -> Seq<Seq<char>> {
    keep_nonempty(split_by(s, None))
}

/// Each element of `p`, trimmed.
pub open spec fn trim_all(p: Seq<Seq<char>>) -> Seq<Seq<char>> {
    p.map_values(|x: Seq<char>| trim(x))
}

/// The character sequences held by a vector of character vectors.
pub open spec fn views(v: Seq<Vec<char>>) -> Seq<Seq<char>> {
    v.map_values(|x: Vec<char>| x@)
}

/// The character sequences held by a vector of strings.
pub open spec fn string_views(v: Seq<String>) -> Seq<Seq<char>> {
    v.map_values(|x: String| x@)
}

pub proof fn lemma_split_by_nonempty(s: Seq<char>, sep: Option<char>)
    ensures
        split_by(s, sep).len() >= 1,
    decreases s.len(),
{
    if s.len() > 0 {
        lemma_split_by_nonempty(s.drop_last(), sep);
    }
}

pub fn is_separator(x: char, sep: Option<char>) -> (r: bool)
    ensures
        r == is_sep(x, sep),
{
    match sep {
        None => is_whitespace(x),
        Some(c) => x == c,
    }
}

/// `str::split` at a separator, on a character sequence.
pub fn split_pieces(s: &[char], sep: Option<char>) -> (r: Vec<Vec<char>>)
    ensures
        views(r@) == split_by(s@, sep),
{
    let mut done: Vec<Vec<char>> = Vec::new();
    let mut cur: Vec<char> = Vec::new();
    let mut i: usize = 0;
    assert(s@.take(0) =~= Seq::<char>::empty());
    assert(views(done@).push(cur@) =~= seq![Seq::<char>::empty()]);
    while i < s.len()
        invariant
            i <= s@.len(),
            split_by(s@.take(i as int), sep) == views(done@).push(cur@),
        decreases s@.len() - i,
    {
        let x = s[i];
        let ghost prev = s@.take(i as int);
        let ghost d = views(done@);
        let ghost c = cur@;
        assert(s@.take(i + 1).drop_last() =~= prev);
        assert(s@.take(i + 1).last() == x);
        if is_separator(x, sep) {
            let piece = cur;
            done.push(piece);
            cur = Vec::new();
            assert(views(done@) =~= d.push(c));
            assert(split_by(s@.take(i + 1), sep) =~= d.push(c).push(Seq::<char>::empty()));
        } else {
            cur.push(x);
            assert(split_by(s@.take(i + 1), sep) =~= d.push(c.push(x)));
        }
        i = i + 1;
        assert(split_by(s@.take(i as int), sep) =~= views(done@).push(cur@));
    }
    assert(s@.take(s@.len() as int) =~= s@);
    done.push(cur);
    assert(views(done@) =~= split_by(s@, sep));
    done
}


/// How each piece of a split is cleaned before empty pieces are dropped.
pub enum Cleanup {
    Keep,
    Trim,
    TrimQuotes,
}

pub open spec fn clean(x: Seq<char>, mode: Cleanup) -> Seq<char> {
    match mode {
        Cleanup::Keep => x,
        Cleanup::Trim => trim(x),
        Cleanup::TrimQuotes => trim_char(trim(x), '"'),
    }
}

pub open spec fn clean_all(p: Seq<Seq<char>>, mode: Cleanup) -> Seq<Seq<char>> {
    p.map_values(|x: Seq<char>| clean(x, mode))
}

/// The cleaned pieces that are not empty, as strings.
fn nonempty_pieces(pieces: &Vec<Vec<char>>, mode: Cleanup) -> (r: Vec<String>)
    ensures
        string_views(r@) == keep_nonempty(clean_all(views(pieces@), mode)),
{
    let mut out: Vec<String> = Vec::new();
    let mut i: usize = 0;
    assert(clean_all(views(pieces@.take(0)), mode) =~= Seq::<Seq<char>>::empty());
    while i < pieces.len()
        invariant
            i <= pieces@.len(),
            string_views(out@) == keep_nonempty(clean_all(views(pieces@.take(i as int)), mode)),
        decreases pieces@.len() - i,
    {
        let piece = &pieces[i];
        let c = match mode {
            Cleanup::Keep => slice_to_vec(piece.as_slice(), 0, piece.len()),
            Cleanup::Trim => trim_chars(piece.as_slice()),
            Cleanup::TrimQuotes => {
                let t = trim_chars(piece.as_slice());
                trim_char_chars(t.as_slice(), '"')
            },
        };
        assert(piece@.subrange(0, piece@.len() as int) =~= piece@);
        assert(c@ == clean(piece@, mode));
        let ghost before = clean_all(views(pieces@.take(i as int)), mode);
        let ghost o = string_views(out@);
        assert(clean_all(views(pieces@.take(i + 1)), mode) =~= before.push(c@));
        assert(clean_all(views(pieces@.take(i + 1)), mode).drop_last() =~= before);
        if c.len() > 0 {
            out.push(string_from_chars(c.as_slice()));
            assert(string_views(out@) =~= o.push(c@));
        }
        i = i + 1;
    }
    assert(pieces@.take(pieces@.len() as int) =~= pieces@);
    out
}

/// `str::split_whitespace`, collected into strings.
pub fn split_words(s: &[char]) -> (r: Vec<String>)
    ensures
        string_views(r@) == words(s@),
{
    let pieces = split_pieces(s, None);
    let r = nonempty_pieces(&pieces, Cleanup::Keep);
    assert(clean_all(split_by(s@, None), Cleanup::Keep) =~= split_by(s@, None));
    r
}

/// Comma-separated items, each trimmed, empty items dropped.
pub open spec fn csv_items(s: Seq<char>) -> Seq<Seq<char>> {
    keep_nonempty(clean_all(split_by(s, Some(',')), Cleanup::Trim))
}

/// Comma-separated items, each trimmed and stripped of surrounding double quotes,
/// empty items dropped.
pub open spec fn quoted_csv_items(s: Seq<char>) -> Seq<Seq<char>> {
    keep_nonempty(clean_all(split_by(s, Some(',')), Cleanup::TrimQuotes))
}

pub fn split_csv(s: &[char], quoted: bool) -> (r: Vec<String>)
    ensures
        quoted ==> string_views(r@) == quoted_csv_items(s@),
        !quoted ==> string_views(r@) == csv_items(s@),
{
    let pieces = split_pieces(s, Some(','));
    if quoted {
        nonempty_pieces(&pieces, Cleanup::TrimQuotes)
    } else {
        nonempty_pieces(&pieces, Cleanup::Trim)
    }
}

/// A copy of a list of strings.
pub fn copy_string_list(v: &Vec<String>) -> (r: Vec<String>)
    ensures
        string_views(r@) == string_views(v@),
{
    let mut out: Vec<String> = Vec::new();
    let mut i: usize = 0;
    while i < v.len()
        invariant
            i <= v@.len(),
            string_views(out@) == string_views(v@.take(i as int)),
        decreases v@.len() - i,
    {
        let ghost before = string_views(out@);
        out.push(v[i].clone());
        assert(string_views(out@) =~= before.push(v@[i as int]@));
        assert(string_views(v@.take(i + 1)) =~= string_views(v@.take(i as int)).push(v@[i as int]@));
        i = i + 1;
    }
    assert(v@.take(v@.len() as int) =~= v@);
    out
}

/// The end of the run of characters outside `cs` that starts at `i`.
pub open spec fn skip_none_of(s: Seq<char>, i: int, cs: Seq<char>) -> int
    decreases s.len() - i,
{
    if 0 <= i < s.len() && !cs.contains(s[i]) {
        skip_none_of(s, i + 1, cs)
    } else {
        i
    }
}

/// Whether `c` is one of `cs`.
pub fn char_in(cs: &[char], c: char) -> (r: bool)
    ensures
        r == cs@.contains(c),
{
    let mut k: usize = 0;
    while k < cs.len()
        invariant
            k <= cs@.len(),
            forall|j: int| 0 <= j < k ==> cs@[j] != c,
        decreases cs@.len() - k,
    {
        if cs[k] == c {
            assert(cs@[k as int] == c);
            return true;
        }
        k = k + 1;
    }
    false
}

} // verus!
