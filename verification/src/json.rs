//! A JSON document as plain values, and the lookups the library makes in it.
//!
//! Decoding JSON text into this type is left to the caller.
use crate::text::str_eq;
use vstd::prelude::*;

verus! {

/// A JSON value. Objects keep their members in the order the decoder yields them, each key
/// once.
#[derive(Debug)]
pub enum Json {
    Null,
    Bool(bool),
    Number(String),
    Str(String),
    Array(Vec<Json>),
    Object(Vec<(String, Json)>),
}

/// The value of the first member named `k` at or after position `i`.
pub open spec fn member_from(m: Seq<(String, Json)>, k: Seq<char>, i: int) -> Option<Json>
    decreases m.len() - i,
{
    if i < 0 || i >= m.len() {
        None
    } else if m[i].0@ == k {
        Some(m[i].1)
    } else {
        member_from(m, k, i + 1)
    }
}

/// `Value::get(k)`: the member named `k` of an object; nothing for any other value.
pub open spec fn json_get(v: Json, k: Seq<char>) -> Option<Json> {
    match v {
        Json::Object(m) => member_from(m@, k, 0),
        _ => None,
    }
}

/// `Value::as_str`: the text of a string value.
pub open spec fn json_str(v: Option<Json>) -> Option<Seq<char>> {
    match v {
        Some(Json::Str(s)) => Some(s@),
        _ => None,
    }
}

impl Json {
    /// The member named `k`, if this is an object that has one.
    pub fn get(&self, k: &str) -> (r: Option<&Json>)
        ensures
            match r {
                Some(x) => json_get(*self, k@) == Some(*x),
                None => json_get(*self, k@) is None,
            },
    {
        match self {
            Json::Object(m) => {
                let mut i: usize = 0;
                while i < m.len()
                    invariant
                        i <= m@.len(),
                        json_get(*self, k@) == member_from(m@, k@, 0),
                        member_from(m@, k@, 0) == member_from(m@, k@, i as int),
                    decreases m.len() - i,
                {
                    if str_eq(m[i].0.as_str(), k) {
                        return Some(&m[i].1);
                    }
                    i = i + 1;
                }
                None
            },
            _ => None,
        }
    }

    /// The text of this value, if it is a string.
    pub fn as_str(&self) -> (r: Option<&str>)
        ensures
            match r {
                Some(s) => *self matches Json::Str(t) && t@ == s@,
                None => !(*self is Str),
            },
    {
        match self {
            Json::Str(s) => Some(s.as_str()),
            _ => None,
        }
    }

    /// The items of this value, if it is an array.
    pub fn as_array(&self) -> (r: Option<&Vec<Json>>)
        ensures
            match r {
                Some(a) => *self == Json::Array(*a),
                None => !(*self is Array),
            },
    {
        match self {
            Json::Array(a) => Some(a),
            _ => None,
        }
    }
}

} // verus!
