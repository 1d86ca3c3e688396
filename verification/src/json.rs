//! A JSON value held as plain data, and the lookups that the specification parsers perform.

use vstd::prelude::*;
use crate::text::{chars_of, string_from_chars};

verus! {

/// A JSON number. Integers keep their value; other numbers keep their decimal text.
#[derive(Debug)]
pub enum JsonNumber {
    Unsigned(u64),
    Negative(i64),
    Fractional(String),
}

/// A JSON value. Object members keep the order in which the source presents them.
#[derive(Debug)]
pub enum Json {
    Null,
    Bool(bool),
    Number(JsonNumber),
    Str(String),
    Array(Vec<Json>),
    Object(Vec<(String, Json)>),
}

/// Mathematical model of a JSON number.
pub enum JsonNumberV {
    Unsigned(u64),
    Negative(i64),
    Fractional(Seq<char>),
}

/// Mathematical model of a JSON value.
pub enum JsonV {
    Null,
    Bool(bool),
    Number(JsonNumberV),
    Str(Seq<char>),
    Array(Seq<JsonV>),
    Object(Seq<(Seq<char>, JsonV)>),
}

impl View for JsonNumber {
    type V = JsonNumberV;

    open spec fn view(&self) -> JsonNumberV {
        match self {
            JsonNumber::Unsigned(u) => JsonNumberV::Unsigned(*u),
            JsonNumber::Negative(i) => JsonNumberV::Negative(*i),
            JsonNumber::Fractional(s) => JsonNumberV::Fractional(s@),
        }
    }
}

/// The model of a JSON value.
pub open spec fn json_view(j: Json) -> JsonV
    decreases j,
{
    match j {
        Json::Null => JsonV::Null,
        Json::Bool(b) => JsonV::Bool(b),
        Json::Number(n) => JsonV::Number(n@),
        Json::Str(s) => JsonV::Str(s@),
        Json::Array(v) => JsonV::Array(
            Seq::new(v@.len(), |i: int| if 0 <= i < v@.len() { json_view(v@[i]) } else { JsonV::Null }),
        ),
        Json::Object(m) => JsonV::Object(
            Seq::new(
                m@.len(),
                |i: int|
                    if 0 <= i < m@.len() {
                        (m@[i].0@, json_view(m@[i].1))
                    } else {
                        (Seq::<char>::empty(), JsonV::Null)
                    },
            ),
        ),
    }
}

impl View for Json {
    type V = JsonV;

    open spec fn view(&self) -> JsonV {
        json_view(*self)
    }
}


// ---------------------------------------------------------------------------
// Lookups on the model
// ---------------------------------------------------------------------------

/// The value of the first member named `key`.
pub open spec fn member(m: Seq<(Seq<char>, JsonV)>, key: Seq<char>) -> Option<JsonV>
    decreases m.len(),
{
    if m.len() == 0 {
        None
    } else if m[0].0 == key {
        Some(m[0].1)
    } else {
        member(m.drop_first(), key)
    }
}

/// `value.get(key)`: the member `key` of an object, `None` for a missing key or a non-object.
pub open spec fn jget(v: JsonV, key: Seq<char>) -> Option<JsonV> {
    match v {
        JsonV::Object(m) => member(m, key),
        _ => None,
    }
}

/// `value[key]`: like `jget`, with `Null` where there is no such member.
pub open spec fn jidx(v: JsonV, key: Seq<char>) -> JsonV {
    match jget(v, key) {
        Some(x) => x,
        None => JsonV::Null,
    }
}

pub open spec fn jstr(v: JsonV) -> Option<Seq<char>> {
    match v {
        JsonV::Str(s) => Some(s),
        _ => None,
    }
}

pub open spec fn jarray(v: JsonV) -> Option<Seq<JsonV>> {
    match v {
        JsonV::Array(a) => Some(a),
        _ => None,
    }
}

pub open spec fn jobject(v: JsonV) -> Option<Seq<(Seq<char>, JsonV)>> {
    match v {
        JsonV::Object(m) => Some(m),
        _ => None,
    }
}

pub open spec fn jbool(v: JsonV) -> Option<bool> {
    match v {
        JsonV::Bool(b) => Some(b),
        _ => None,
    }
}

pub open spec fn ju64(v: JsonV) -> Option<u64> {
    match v {
        JsonV::Number(JsonNumberV::Unsigned(u)) => Some(u),
        _ => None,
    }
}

/// `value[key].as_str()`.
pub open spec fn jstr_at(v: JsonV, key: Seq<char>) -> Option<Seq<char>> {
    jstr(jidx(v, key))
}

/// `value[key].as_str().unwrap_or(default)`.
pub open spec fn jstr_or(v: JsonV, key: Seq<char>, default: Seq<char>) -> Seq<char> {
    match jstr_at(v, key) {
        Some(s) => s,
        None => default,
    }
}

// ---------------------------------------------------------------------------
// Exec lookups
// ---------------------------------------------------------------------------

/// The models of the members of an object.
pub open spec fn members_view(m: Seq<(String, Json)>) -> Seq<(Seq<char>, JsonV)> {
    Seq::new(m.len(), |i: int| (m[i].0@, m[i].1@))
}

/// The models of the elements of an array.
pub open spec fn elems_view(v: Seq<Json>) -> Seq<JsonV> {
    Seq::new(v.len(), |i: int| v[i]@)
}

pub proof fn lemma_object_members(m: Vec<(String, Json)>)
    ensures
        Json::Object(m)@ == JsonV::Object(members_view(m@)),
{
    assert(jobject(Json::Object(m)@).unwrap() =~= members_view(m@));
}

pub proof fn lemma_array_elems(v: Vec<Json>)
    ensures
        Json::Array(v)@ == JsonV::Array(elems_view(v@)),
{
    assert(jarray(Json::Array(v)@).unwrap() =~= elems_view(v@));
}

/// The value of the first member of `m` named `key`.
pub fn find_member<'a>(m: &'a Vec<(String, Json)>, key: &str) -> (r: Option<&'a Json>)
    ensures
        match r {
            Some(x) => member(members_view(m@), key@) == Some(x@),
            None => member(members_view(m@), key@) is None,
        },
{
    let k = string_from_chars(chars_of(key).as_slice());
    let ghost o = members_view(m@);
    let mut i: usize = 0;
    assert(o.skip(0) =~= o);
    while i < m.len()
        invariant
            i <= m@.len(),
            k@ == key@,
            o == members_view(m@),
            member(o, key@) == member(o.skip(i as int), key@),
        decreases m@.len() - i,
    {
        if m[i].0 == k {
            return Some(&m[i].1);
        }
        assert(o.skip(i as int).drop_first() =~= o.skip(i + 1));
        i = i + 1;
    }
    None
}

impl Json {
    /// A copy of this value with the same model.
    pub fn copy(&self) -> (r: Json)
        ensures
            r@ == self@,
        decreases *self,
    {
        match self {
            Json::Null => Json::Null,
            Json::Bool(b) => Json::Bool(*b),
            Json::Number(JsonNumber::Unsigned(u)) => Json::Number(JsonNumber::Unsigned(*u)),
            Json::Number(JsonNumber::Negative(i)) => Json::Number(JsonNumber::Negative(*i)),
            Json::Number(JsonNumber::Fractional(t)) => Json::Number(JsonNumber::Fractional(t.clone())),
            Json::Str(t) => Json::Str(t.clone()),
            Json::Array(v) => {
                let mut out: Vec<Json> = Vec::new();
                let mut i: usize = 0;
                while i < v.len()
                    invariant
                        i <= v@.len(),
                        *self == Json::Array(*v),
                        out@.len() == i,
                        forall|k: int| 0 <= k < i ==> (#[trigger] out@[k])@ == v@[k]@,
                    decreases v@.len() - i,
                {
                    proof {
                        broadcast use vstd::std_specs::vec::axiom_vec_index_decreases;
                        assert(decreases_to!(*self => (*self)->Array_0));
                        assert(decreases_to!((*self)->Array_0 => (*self)->Array_0[i as int]));
                    }
                    out.push(v[i].copy());
                    i = i + 1;
                }
                let r = Json::Array(out);
                assert(r@ == self@) by {
                    assert(jarray(r@).unwrap() =~= jarray(self@).unwrap());
                }
                r
            },
            Json::Object(m) => {
                let mut out: Vec<(String, Json)> = Vec::new();
                let mut i: usize = 0;
                while i < m.len()
                    invariant
                        i <= m@.len(),
                        *self == Json::Object(*m),
                        out@.len() == i,
                        forall|k: int|
                            0 <= k < i ==> (#[trigger] out@[k]).0@ == m@[k].0@ && out@[k].1@
                                == m@[k].1@,
                    decreases m@.len() - i,
                {
                    proof {
                        broadcast use vstd::std_specs::vec::axiom_vec_index_decreases;
                        assert(decreases_to!(*self => (*self)->Object_0));
                        assert(decreases_to!((*self)->Object_0 => (*self)->Object_0[i as int]));
                        assert(decreases_to!((*self)->Object_0[i as int] => (*self)->Object_0[i as int].1));
                    }
                    let (key, val) = &m[i];
                    out.push((key.clone(), val.copy()));
                    i = i + 1;
                }
                let r = Json::Object(out);
                assert(r@ == self@) by {
                    assert(jobject(r@).unwrap() =~= jobject(self@).unwrap());
                }
                r
            },
        }
    }

    /// `value.get(key)`.
    pub fn get<'a>(&'a self, key: &str) -> (r: Option<&'a Json>)
        ensures
            match r {
                Some(x) => jget(self@, key@) == Some(x@),
                None => jget(self@, key@) is None,
            },
    {
        match self {
            Json::Object(m) => {
                proof {
                    lemma_object_members(*m);
                }
                find_member(m, key)
            },
            _ => None,
        }
    }

    pub fn as_str(&self) -> (r: Option<&String>)
        ensures
            match r {
                Some(s) => jstr(self@) == Some(s@),
                None => jstr(self@) is None,
            },
    {
        match self {
            Json::Str(s) => Some(s),
            _ => None,
        }
    }

    pub fn as_array(&self) -> (r: Option<&Vec<Json>>)
        ensures
            match r {
                Some(v) => self@ == Json::Array(*v)@ && jarray(self@) is Some,
                None => jarray(self@) is None,
            },
    {
        match self {
            Json::Array(v) => Some(v),
            _ => None,
        }
    }

    pub fn as_object(&self) -> (r: Option<&Vec<(String, Json)>>)
        ensures
            match r {
                Some(m) => self@ == Json::Object(*m)@ && jobject(self@) is Some,
                None => jobject(self@) is None,
            },
    {
        match self {
            Json::Object(m) => Some(m),
            _ => None,
        }
    }

    pub fn as_bool(&self) -> (r: Option<bool>)
        ensures
            r == jbool(self@),
    {
        match self {
            Json::Bool(b) => Some(*b),
            _ => None,
        }
    }

    pub fn as_u64(&self) -> (r: Option<u64>)
        ensures
            r == ju64(self@),
    {
        match self {
            Json::Number(JsonNumber::Unsigned(u)) => Some(*u),
            _ => None,
        }
    }

    pub fn is_null(&self) -> (r: bool)
        ensures
            r == (self@ is Null),
    {
        match self {
            Json::Null => true,
            _ => false,
        }
    }

    /// `value[key].as_str()`.
    pub fn str_at(&self, key: &str) -> (r: Option<&String>)
        ensures
            match r {
                Some(s) => jstr_at(self@, key@) == Some(s@),
                None => jstr_at(self@, key@) is None,
            },
    {
        match self.get(key) {
            Some(x) => x.as_str(),
            None => None,
        }
    }

    /// `value[key].as_str().unwrap_or(default)`, as an owned string.
    pub fn str_or(&self, key: &str, default: &str) -> (r: String)
        ensures
            r@ == jstr_or(self@, key@, default@),
    {
        match self.str_at(key) {
            Some(s) => s.clone(),
            None => string_from_chars(chars_of(default).as_slice()),
        }
    }
}

} // verus!
