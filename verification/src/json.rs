//! JSON documents as the compiler reads and writes them: node inputs, data
//! edges, the command tree, and the bodies of JSON resources.
//!
//! An object keeps its members in a `Vec` in key order with each key once, the
//! shape a parsed document has; a lookup returns the first member with the key.
use vstd::prelude::*;

use crate::text::{copy_string, owned, str_eq};

verus! {

/// A JSON number: a whole number that fits in `i64`, a larger whole number,
/// or any other number, held as its decimal text.
#[derive(Debug, PartialEq)]
pub enum Number {
    Int(i64),
    UInt(u64),
    Other(String),
}

/// A JSON value.
#[derive(Debug, PartialEq)]
pub enum Json {
    Null,
    Bool(bool),
    Number(Number),
    Str(String),
    Array(Vec<Json>),
    Object(Vec<(String, Json)>),
}

/// The mathematical value of a JSON number.
pub enum NumV {
    Int(int),
    Other(Seq<char>),
}

/// The mathematical value of a JSON document.
pub enum JVal {
    Null,
    Bool(bool),
    Num(NumV),
    Str(Seq<char>),
    Arr(Seq<JVal>),
    Obj(Seq<(Seq<char>, JVal)>),
}

pub open spec fn numview(n: Number) -> NumV {
    match n {
        Number::Int(i) => NumV::Int(i as int),
        Number::UInt(u) => NumV::Int(u as int),
        Number::Other(s) => NumV::Other(s@),
    }
}

pub open spec fn jview(j: Json) -> JVal
    decreases j,
{
    match j {
        Json::Null => JVal::Null,
        Json::Bool(b) => JVal::Bool(b),
        Json::Number(n) => JVal::Num(numview(n)),
        Json::Str(s) => JVal::Str(s@),
        Json::Array(items) => JVal::Arr(
            Seq::new(
                items.len() as nat,
                |i: int|
                    {
                        if 0 <= i < items.len() {
                            proof {
                                assert(decreases_to!(items => items@));
                                assert(decreases_to!(items@ => items@[i]));
                            }
                            jview(items@[i])
                        } else {
                            JVal::Null
                        }
                    },
            ),
        ),
        Json::Object(es) => JVal::Obj(
            Seq::new(
                es.len() as nat,
                |i: int|
                    {
                        if 0 <= i < es.len() {
                            proof {
                                assert(decreases_to!(es => es@));
                                assert(decreases_to!(es@ => es@[i]));
                                assert(decreases_to!(es@[i] => es@[i].1));
                            }
                            (es@[i].0@, jview(es@[i].1))
                        } else {
                            (Seq::empty(), JVal::Null)
                        }
                    },
            ),
        ),
    }
}

impl View for Json {
    type V = JVal;

    open spec fn view(&self) -> JVal {
        jview(*self)
    }
}

/// The views of a list of JSON values.
pub open spec fn jviews(items: Seq<Json>) -> Seq<JVal> {
    Seq::new(items.len(), |i: int| jview(items[i]))
}

/// The views of a list of object members.
pub open spec fn eviews(es: Seq<(String, Json)>) -> Seq<(Seq<char>, JVal)> {
    Seq::new(es.len(), |i: int| (es[i].0@, jview(es[i].1)))
}

pub proof fn lemma_array_view(items: Vec<Json>)
    ensures
        jview(Json::Array(items)) == JVal::Arr(jviews(items@)),
{
    let a = jview(Json::Array(items));
    assert(a is Arr);
    assert forall|i: int| 0 <= i < items.len() implies a->Arr_0[i] == jview(items@[i]) by {}
    assert(a->Arr_0 =~= jviews(items@));
}

pub proof fn lemma_object_view(es: Vec<(String, Json)>)
    ensures
        jview(Json::Object(es)) == JVal::Obj(eviews(es@)),
{
    let a = jview(Json::Object(es));
    assert(a is Obj);
    assert forall|i: int| 0 <= i < es.len() implies a->Obj_0[i] == (es@[i].0@, jview(es@[i].1)) by {}
    assert(a->Obj_0 =~= eviews(es@));
}

/// The first position at or after `from` of a member keyed `k`.
pub open spec fn key_from(es: Seq<(Seq<char>, JVal)>, k: Seq<char>, from: int) -> Option<int>
    decreases es.len() - from,
{
    if from < 0 || from >= es.len() {
        None
    } else if es[from].0 == k {
        Some(from)
    } else {
        key_from(es, k, from + 1)
    }
}

pub proof fn lemma_key_from(es: Seq<(Seq<char>, JVal)>, k: Seq<char>, from: int)
    requires
        0 <= from,
    ensures
        key_from(es, k, from) matches Some(i) ==> from <= i < es.len() && es[i].0 == k,
    decreases es.len() - from,
{
    if from < es.len() && es[from].0 != k {
        lemma_key_from(es, k, from + 1);
    }
}

/// The member of an object keyed `k`: the first one, as a lookup finds it.
pub open spec fn obj_get(es: Seq<(Seq<char>, JVal)>, k: Seq<char>) -> Option<JVal> {
    match key_from(es, k, 0) {
        Some(i) => Some(es[i].1),
        None => None,
    }
}

/// `value.get(key)`: the member keyed `key` when `value` is an object.
pub open spec fn jget(v: JVal, k: Seq<char>) -> Option<JVal> {
    match v {
        JVal::Obj(es) => obj_get(es, k),
        _ => None,
    }
}

/// The text of a string value.
pub open spec fn jstr(v: JVal) -> Option<Seq<char>> {
    match v {
        JVal::Str(s) => Some(s),
        _ => None,
    }
}

/// The value of a boolean.
pub open spec fn jbool(v: JVal) -> Option<bool> {
    match v {
        JVal::Bool(b) => Some(b),
        _ => None,
    }
}

/// The value of a whole number that fits in `i64`.
pub open spec fn ji64(v: JVal) -> Option<int> {
    match v {
        JVal::Num(NumV::Int(n)) => if i64::MIN <= n <= i64::MAX {
            Some(n)
        } else {
            None
        },
        _ => None,
    }
}

/// The elements of an array.
pub open spec fn jarr(v: JVal) -> Option<Seq<JVal>> {
    match v {
        JVal::Arr(items) => Some(items),
        _ => None,
    }
}

/// The members of an object.
pub open spec fn jobj(v: JVal) -> Option<Seq<(Seq<char>, JVal)>> {
    match v {
        JVal::Obj(es) => Some(es),
        _ => None,
    }
}

impl Json {
    pub fn is_boolean(&self) -> (r: bool)
        ensures
            r == (self@ is Bool),
    {
        match self {
            Json::Bool(_) => true,
            _ => false,
        }
    }

    pub fn is_number(&self) -> (r: bool)
        ensures
            r == (self@ is Num),
    {
        match self {
            Json::Number(_) => true,
            _ => false,
        }
    }

    pub fn is_string(&self) -> (r: bool)
        ensures
            r == (self@ is Str),
    {
        match self {
            Json::Str(_) => true,
            _ => false,
        }
    }

    pub fn is_array(&self) -> (r: bool)
        ensures
            r == (self@ is Arr),
    {
        match self {
            Json::Array(_) => true,
            _ => false,
        }
    }

    pub fn is_object(&self) -> (r: bool)
        ensures
            r == (self@ is Obj),
    {
        match self {
            Json::Object(_) => true,
            _ => false,
        }
    }

    pub fn as_str(&self) -> (r: Option<&str>)
        ensures
            r matches Some(s) ==> jstr(self@) == Some(s@),
            r is None ==> jstr(self@) is None,
    {
        match self {
            Json::Str(s) => Some(s.as_str()),
            _ => None,
        }
    }

    pub fn as_bool(&self) -> (r: Option<bool>)
        ensures
            r == jbool(self@),
    {
        match self {
            Json::Bool(b) => Some(*b),
            _ => None,
        }
    }

    pub fn as_i64(&self) -> (r: Option<i64>)
        ensures
            r matches Some(n) ==> ji64(self@) == Some(n as int),
            r is None ==> ji64(self@) is None,
    {
        match self {
            Json::Number(Number::Int(n)) => Some(*n),
            Json::Number(Number::UInt(u)) => if *u <= 9223372036854775807u64 {
                Some(*u as i64)
            } else {
                None
            },
            _ => None,
        }
    }

    pub fn as_array(&self) -> (r: Option<&Vec<Json>>)
        ensures
            r matches Some(items) ==> jarr(self@) == Some(jviews(items@)),
            r is None ==> jarr(self@) is None,
    {
        match self {
            Json::Array(items) => {
                proof {
                    lemma_array_view(*items);
                }
                Some(items)
            },
            _ => None,
        }
    }

    pub fn as_object(&self) -> (r: Option<&Vec<(String, Json)>>)
        ensures
            r matches Some(es) ==> jobj(self@) == Some(eviews(es@)),
            r is None ==> jobj(self@) is None,
    {
        match self {
            Json::Object(es) => {
                proof {
                    lemma_object_view(*es);
                }
                Some(es)
            },
            _ => None,
        }
    }

    /// The member keyed `key`, when this is an object that has one.
    pub fn get(&self, key: &str) -> (r: Option<&Json>)
        ensures
            r matches Some(v) ==> jget(self@, key@) == Some(v@),
            r is None ==> jget(self@, key@) is None,
    {
        match self {
            Json::Object(es) => {
                proof {
                    lemma_object_view(*es);
                }
                match member(es, key) {
                    Some(i) => Some(&es[i].1),
                    None => None,
                }
            },
            _ => None,
        }
    }
}

/// The position of the first member of `es` keyed `key`.
pub fn member(es: &Vec<(String, Json)>, key: &str) -> (r: Option<usize>)
    ensures
        r matches Some(i) ==> key_from(eviews(es@), key@, 0) == Some(i as int) && i < es@.len(),
        r is None ==> key_from(eviews(es@), key@, 0) is None,
{
    let ghost ev = eviews(es@);
    let mut i: usize = 0;
    while i < es.len()
        invariant
            i <= es@.len(),
            ev == eviews(es@),
            key_from(ev, key@, 0) == key_from(ev, key@, i as int),
        decreases es@.len() - i,
    {
        if str_eq(es[i].0.as_str(), key) {
            return Some(i);
        }
        i = i + 1;
    }
    None
}

/// A copy of `n`.
pub fn copy_number(n: &Number) -> (r: Number)
    ensures
        numview(r) == numview(*n),
{
    match n {
        Number::Int(i) => Number::Int(*i),
        Number::UInt(u) => Number::UInt(*u),
        Number::Other(s) => Number::Other(copy_string(s)),
    }
}

/// A copy of `j`, equal to it as a value.
pub fn copy_json(j: &Json) -> (r: Json)
    ensures
        r@ == j@,
    decreases j,
{
    match j {
        Json::Null => Json::Null,
        Json::Bool(b) => Json::Bool(*b),
        Json::Number(n) => Json::Number(copy_number(n)),
        Json::Str(s) => Json::Str(copy_string(s)),
        Json::Array(items) => {
            let mut out: Vec<Json> = Vec::new();
            let mut i: usize = 0;
            while i < items.len()
                invariant
                    i <= items@.len(),
                    *j == Json::Array(*items),
                    out@.len() == i,
                    forall|k: int| 0 <= k < i ==> jview(#[trigger] out@[k]) == jview(items@[k]),
                decreases items@.len() - i,
            {
                proof {
                    assert(*items == j->Array_0);
                    assert(decreases_to!(*j => j->Array_0));
                    assert(decreases_to!(*items => items@));
                    assert(decreases_to!(items@ => items@[i as int]));
                    assert(decreases_to!(*j => items@[i as int]));
                }
                let c = copy_json(&items[i]);
                out.push(c);
                i = i + 1;
            }
            proof {
                lemma_array_view(out);
                lemma_array_view(*items);
                assert(jviews(out@) =~= jviews(items@));
            }
            Json::Array(out)
        },
        Json::Object(es) => {
            let mut out: Vec<(String, Json)> = Vec::new();
            let mut i: usize = 0;
            while i < es.len()
                invariant
                    i <= es@.len(),
                    *j == Json::Object(*es),
                    out@.len() == i,
                    forall|k: int|
                        0 <= k < i ==> (#[trigger] out@[k]).0@ == es@[k].0@ && jview(out@[k].1)
                            == jview(es@[k].1),
                decreases es@.len() - i,
            {
                proof {
                    assert(*es == j->Object_0);
                    assert(decreases_to!(*j => j->Object_0));
                    assert(decreases_to!(*es => es@));
                    assert(decreases_to!(es@ => es@[i as int]));
                    assert(decreases_to!(es@[i as int] => es@[i as int].1));
                    assert(decreases_to!(*j => es@[i as int].1));
                }
                let v = copy_json(&es[i].1);
                out.push((copy_string(&es[i].0), v));
                i = i + 1;
            }
            proof {
                lemma_object_view(out);
                lemma_object_view(*es);
                assert(eviews(out@) =~= eviews(es@));
            }
            Json::Object(out)
        },
    }
}



/// The first position at or after `from` whose key does not sort before `k`.
pub open spec fn obj_pos_from(es: Seq<(Seq<char>, JVal)>, k: Seq<char>, from: int) -> int
    decreases es.len() - from,
{
    if from < 0 || from >= es.len() {
        es.len() as int
    } else if !crate::text::seq_lt(es[from].0, k) {
        from
    } else {
        obj_pos_from(es, k, from + 1)
    }
}

/// The members `es` with `k` set to `v`, as a sorted map takes it: replaced
/// where the key is present, otherwise added in its sorted place.
pub open spec fn obj_insert(es: Seq<(Seq<char>, JVal)>, k: Seq<char>, v: JVal) -> Seq<(Seq<char>, JVal)> {
    let p = obj_pos_from(es, k, 0);
    if p < es.len() && es[p].0 == k {
        es.update(p, (k, v))
    } else {
        es.insert(p, (k, v))
    }
}

/// Sets the member `k` of a key-sorted object to `v`.
pub fn obj_set(es: &mut Vec<(String, Json)>, k: String, v: Json)
    ensures
        eviews(final(es)@) == obj_insert(eviews(old(es)@), k@, v@),
{
    let ghost t = eviews(es@);
    let mut i: usize = 0;
    while i < es.len() && crate::text::str_lt(es[i].0.as_str(), k.as_str())
        invariant
            i <= es@.len(),
            t == eviews(es@),
            obj_pos_from(t, k@, 0) == obj_pos_from(t, k@, i as int),
        decreases es@.len() - i,
    {
        i = i + 1;
    }
    let ghost kv = k@;
    let ghost vv = v@;
    if i < es.len() && str_eq(es[i].0.as_str(), k.as_str()) {
        es.set(i, (k, v));
        assert(eviews(es@) =~= obj_insert(t, kv, vv));
    } else {
        es.insert(i, (k, v));
        assert(eviews(es@) =~= obj_insert(t, kv, vv));
    }
}
} // verus!
