//! Counting tables keyed by strings, kept in ascending string order (the order of a
//! `BTreeMap<String, _>`: lexicographic by character).

use vstd::prelude::*;
use crate::text::chars_of;

verus! {

/// Lexicographic order on character sequences, by code point.
pub open spec fn str_lt(a: Seq<char>, b: Seq<char>) -> bool
    decreases a.len(),
{
    if b.len() == 0 {
        false
    } else if a.len() == 0 {
        true
    } else if a[0] != b[0] {
        (a[0] as int) < (b[0] as int)
    } else {
        str_lt(a.drop_first(), b.drop_first())
    }
}

pub proof fn lemma_str_lt_irrefl(a: Seq<char>)
    ensures
        !str_lt(a, a),
    decreases a.len(),
{
    if a.len() > 0 {
        lemma_str_lt_irrefl(a.drop_first());
    }
}

pub proof fn lemma_str_lt_trans(a: Seq<char>, b: Seq<char>, c: Seq<char>)
    requires
        str_lt(a, b),
        str_lt(b, c),
    ensures
        str_lt(a, c),
    decreases a.len(),
{
    if a.len() > 0 && b.len() > 0 && c.len() > 0 {
        if a[0] == b[0] && b[0] == c[0] {
            lemma_str_lt_trans(a.drop_first(), b.drop_first(), c.drop_first());
        }
    }
}

pub proof fn lemma_str_lt_total(a: Seq<char>, b: Seq<char>)
    requires
        a != b,
    ensures
        str_lt(a, b) || str_lt(b, a),
    decreases a.len(),
{
    if a.len() > 0 && b.len() > 0 && a[0] == b[0] {
        if a.drop_first() == b.drop_first() {
            assert(a =~= seq![a[0]] + a.drop_first());
            assert(b =~= seq![b[0]] + b.drop_first());
        }
        lemma_str_lt_total(a.drop_first(), b.drop_first());
    } else if a.len() == 0 && b.len() == 0 {
        assert(a =~= b);
    } else if a.len() > 0 && b.len() > 0 {
        assert((a[0] as int) != (b[0] as int));
    }
}

/// Whether `a` sorts before `b`.
pub fn str_less(a: &[char], b: &[char]) -> (r: bool)
    ensures
        r == str_lt(a@, b@),
{
    let mut i: usize = 0;
    assert(a@.skip(0) =~= a@);
    assert(b@.skip(0) =~= b@);
    while i < a.len() && i < b.len() && a[i] == b[i]
        invariant
            i <= a@.len(),
            i <= b@.len(),
            str_lt(a@, b@) == str_lt(a@.skip(i as int), b@.skip(i as int)),
        decreases a@.len() - i,
    {
        assert(a@.skip(i as int).drop_first() =~= a@.skip(i + 1));
        assert(b@.skip(i as int).drop_first() =~= b@.skip(i + 1));
        i = i + 1;
    }
    if i == b.len() {
        false
    } else if i == a.len() {
        true
    } else {
        assert(a@.skip(i as int)[0] == a@[i as int]);
        assert(b@.skip(i as int)[0] == b@[i as int]);
        let x = a[i];
        let y = b[i];
        assert(x != y);
        x < y
    }
}

// ---------------------------------------------------------------------------
// Counting tables
// ---------------------------------------------------------------------------

/// The keys of `t` strictly ascend.
pub open spec fn ascending(t: Seq<(Seq<char>, nat)>) -> bool {
    forall|i: int, j: int| 0 <= i < j < t.len() ==> str_lt(#[trigger] t[i].0, #[trigger] t[j].0)
}

/// The count of `k` in `t` (0 when absent).
pub open spec fn lookup(t: Seq<(Seq<char>, nat)>, k: Seq<char>) -> nat
    decreases t.len(),
{
    if t.len() == 0 {
        0
    } else if t[0].0 == k {
        t[0].1
    } else {
        lookup(t.drop_first(), k)
    }
}

/// A well-formed table: ascending keys, positive counts.
pub open spec fn table_ok(t: Seq<(Seq<char>, nat)>) -> bool {
    ascending(t) && forall|i: int| 0 <= i < t.len() ==> #[trigger] t[i].1 > 0
}

pub proof fn lemma_lookup_at(t: Seq<(Seq<char>, nat)>, i: int)
    requires
        ascending(t),
        0 <= i < t.len(),
    ensures
        lookup(t, t[i].0) == t[i].1,
    decreases i,
{
    if i > 0 {
        assert(str_lt(t[0].0, t[i].0));
        lemma_str_lt_irrefl(t[0].0);
        assert(t[0].0 != t[i].0);
        let u = t.drop_first();
        assert(ascending(u)) by {
            assert forall|a: int, b: int| 0 <= a < b < u.len() implies str_lt(
                #[trigger] u[a].0,
                #[trigger] u[b].0,
            ) by {
                assert(u[a] == t[a + 1] && u[b] == t[b + 1]);
            }
        }
        lemma_lookup_at(u, i - 1);
    }
}

pub proof fn lemma_lookup_absent(t: Seq<(Seq<char>, nat)>, k: Seq<char>)
    requires
        forall|i: int| 0 <= i < t.len() ==> #[trigger] t[i].0 != k,
    ensures
        lookup(t, k) == 0,
    decreases t.len(),
{
    if t.len() > 0 {
        let u = t.drop_first();
        assert forall|i: int| 0 <= i < u.len() implies #[trigger] u[i].0 != k by {
            assert(u[i] == t[i + 1]);
        }
        lemma_lookup_absent(u, k);
    }
}

/// The count of `k` in a well-formed table, by its entries.
pub proof fn lemma_lookup_entries(t: Seq<(Seq<char>, nat)>, k: Seq<char>)
    requires
        ascending(t),
    ensures
        (exists|i: int| 0 <= i < t.len() && t[i].0 == k) ==> (exists|i: int|
            0 <= i < t.len() && t[i].0 == k && lookup(t, k) == t[i].1),
        !(exists|i: int| 0 <= i < t.len() && t[i].0 == k) ==> lookup(t, k) == 0,
{
    if exists|i: int| 0 <= i < t.len() && t[i].0 == k {
        let i = choose|i: int| 0 <= i < t.len() && t[i].0 == k;
        lemma_lookup_at(t, i);
    } else {
        lemma_lookup_absent(t, k);
    }
}

/// A table of counts keyed by strings, in ascending key order.
#[derive(Debug, Clone)]
pub struct FreqTable {
    pub entries: Vec<(String, usize)>,
}

pub open spec fn entries_view(v: Seq<(String, usize)>) -> Seq<(Seq<char>, nat)> {
    v.map_values(|e: (String, usize)| (e.0@, e.1 as nat))
}

impl View for FreqTable {
    type V = Seq<(Seq<char>, nat)>;

    open spec fn view(&self) -> Seq<(Seq<char>, nat)> {
        entries_view(self.entries@)
    }
}

impl FreqTable {
    pub fn new() -> (r: FreqTable)
        ensures
            r@ == Seq::<(Seq<char>, nat)>::empty(),
            table_ok(r@),
    {
        let r = FreqTable { entries: Vec::new() };
        assert(r@ =~= Seq::<(Seq<char>, nat)>::empty());
        r
    }

    /// The count of `key` (0 when absent).
    pub fn get(&self, key: &str) -> (r: usize)
        requires
            table_ok(self@),
        ensures
            r == lookup(self@, key@),
    {
        let k = chars_of(key);
        let mut i: usize = 0;
        while i < self.entries.len()
            invariant
                i <= self.entries@.len(),
                k@ == key@,
                table_ok(self@),
                forall|j: int| 0 <= j < i ==> #[trigger] self@[j].0 != key@,
            decreases self.entries@.len() - i,
        {
            let e = chars_of(self.entries[i].0.as_str());
            if chars_equal(e.as_slice(), k.as_slice()) {
                proof {
                    lemma_lookup_at(self@, i as int);
                }
                return self.entries[i].1;
            }
            i = i + 1;
        }
        proof {
            lemma_lookup_absent(self@, key@);
        }
        0
    }

    /// Add one to the count of `key`, inserting it in order when absent.
    pub fn bump(&mut self, key: &String)
        requires
            table_ok(old(self)@),
            lookup(old(self)@, key@) < usize::MAX,
        ensures
            table_ok(final(self)@),
            forall|x: Seq<char>|
                #[trigger] lookup(final(self)@, x) == lookup(old(self)@, x) + if x == key@ {
                    1nat
                } else {
                    0nat
                },
            final(self)@.len() <= old(self)@.len() + 1,
    {
        let ghost t = self@;
        let k = chars_of(key.as_str());
        let mut p: usize = 0;
        while p < self.entries.len() && str_less(
            chars_of(self.entries[p].0.as_str()).as_slice(),
            k.as_slice(),
        )
            invariant
                p <= self.entries@.len(),
                t == self@,
                k@ == key@,
                table_ok(t),
                forall|i: int| 0 <= i < p ==> str_lt(#[trigger] t[i].0, key@),
            decreases self.entries@.len() - p,
        {
            p = p + 1;
        }
        // every key from `p` on is at least `key`
        assert forall|i: int| p <= i < t.len() implies !str_lt(#[trigger] t[i].0, key@) by {
            if i > p {
                assert(str_lt(t[p as int].0, t[i].0));
                if str_lt(t[i].0, key@) {
                    lemma_str_lt_trans(t[p as int].0, t[i].0, key@);
                }
            }
        }
        let found = p < self.entries.len() && chars_equal(
            chars_of(self.entries[p].0.as_str()).as_slice(),
            k.as_slice(),
        );
        if found {
            proof {
                lemma_lookup_at(t, p as int);
            }
            let c = self.entries[p].1;
            let name = self.entries[p].0.clone();
            self.entries.set(p, (name, c + 1));
            proof {
                let u = self@;
                assert(u =~= t.update(p as int, (key@, t[p as int].1 + 1)));
                assert(ascending(u)) by {
                    assert forall|a: int, b: int| 0 <= a < b < u.len() implies str_lt(
                        #[trigger] u[a].0,
                        #[trigger] u[b].0,
                    ) by {
                        assert(u[a].0 == t[a].0 && u[b].0 == t[b].0);
                    }
                }
                assert forall|x: Seq<char>| #[trigger] lookup(u, x) == lookup(t, x) + if x == key@ {
                    1nat
                } else {
                    0nat
                } by {
                    lemma_lookup_entries(t, x);
                    lemma_lookup_entries(u, x);
                    if x == key@ {
                        lemma_lookup_at(t, p as int);
                        lemma_lookup_at(u, p as int);
                    } else {
                        assert forall|i: int| 0 <= i < t.len() && t[i].0 == x implies u[i].0 == x && u[i].1
                            == t[i].1 by {}
                        assert forall|i: int| 0 <= i < u.len() && u[i].0 == x implies t[i].0 == x && u[i].1
                            == t[i].1 by {}
                        if exists|i: int| 0 <= i < t.len() && t[i].0 == x {
                            let i = choose|i: int| 0 <= i < t.len() && t[i].0 == x;
                            lemma_lookup_at(t, i);
                            lemma_lookup_at(u, i);
                        }
                    }
                }
            }
        } else {
            self.entries.insert(p, (key.clone(), 1));
            proof {
                let u = self@;
                assert(u =~= t.insert(p as int, (key@, 1nat)));
                if p < t.len() {
                    assert(t[p as int].0 != key@);
                    lemma_str_lt_total(t[p as int].0, key@);
                }
                assert(ascending(u)) by {
                    assert forall|a: int, b: int| 0 <= a < b < u.len() implies str_lt(
                        #[trigger] u[a].0,
                        #[trigger] u[b].0,
                    ) by {
                        if b < p {
                            assert(u[a] == t[a] && u[b] == t[b]);
                        } else if b == p {
                            assert(u[a] == t[a]);
                        } else if a == p {
                            assert(u[b] == t[b - 1]);
                            if b - 1 > p {
                                lemma_str_lt_trans(key@, t[p as int].0, t[b - 1].0);
                            }
                        } else if a < p {
                            assert(u[a] == t[a] && u[b] == t[b - 1]);
                        } else {
                            assert(u[a] == t[a - 1] && u[b] == t[b - 1]);
                        }
                    }
                }
                assert forall|i: int| 0 <= i < t.len() implies #[trigger] t[i].0 != key@ by {
                    if i < p {
                        lemma_str_lt_irrefl(key@);
                    } else if i > p {
                        assert(str_lt(t[p as int].0, t[i].0));
                        lemma_str_lt_trans(key@, t[p as int].0, t[i].0);
                        lemma_str_lt_irrefl(key@);
                    }
                }
                assert forall|x: Seq<char>| #[trigger] lookup(u, x) == lookup(t, x) + if x == key@ {
                    1nat
                } else {
                    0nat
                } by {
                    lemma_lookup_entries(t, x);
                    lemma_lookup_entries(u, x);
                    if x == key@ {
                        lemma_lookup_absent(t, x);
                        lemma_lookup_at(u, p as int);
                    } else {
                        if exists|i: int| 0 <= i < t.len() && t[i].0 == x {
                            let i = choose|i: int| 0 <= i < t.len() && t[i].0 == x;
                            lemma_lookup_at(t, i);
                            let j = if i < p { i } else { i + 1 };
                            assert(u[j] == t[i]);
                            lemma_lookup_at(u, j);
                        } else {
                            assert forall|j: int| 0 <= j < u.len() implies #[trigger] u[j].0 != x by {
                                if j < p {
                                    assert(u[j] == t[j]);
                                } else if j > p {
                                    assert(u[j] == t[j - 1]);
                                }
                            }
                            lemma_lookup_absent(u, x);
                        }
                    }
                }
            }
        }
    }
}

/// Whether two character sequences are equal.
pub fn chars_equal(a: &[char], b: &[char]) -> (r: bool)
    ensures
        r == (a@ == b@),
{
    if a.len() != b.len() {
        return false;
    }
    let mut i: usize = 0;
    while i < a.len()
        invariant
            i <= a@.len(),
            a@.len() == b@.len(),
            forall|j: int| 0 <= j < i ==> a@[j] == b@[j],
        decreases a@.len() - i,
    {
        if a[i] != b[i] {
            return false;
        }
        i = i + 1;
    }
    assert(a@ =~= b@);
    true
}

} // verus!
