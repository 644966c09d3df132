//! JSON values, as far as replies of services are read.
use vstd::prelude::*;

use crate::text::same;

verus! {

/// A JSON value.
#[derive(Debug)]
pub enum Json {
    Null,
    Bool(bool),
    /// A number; its value is never read.
    Number,
    Text(String),
    List(Vec<Json>),
    Object(Vec<Member>),
}

/// A member of an object.
#[derive(Debug)]
pub struct Member {
    pub key: String,
    pub value: Json,
}

/// The value of the first member of that key from `i` on.
pub open spec fn member_from(m: Seq<Member>, key: Seq<char>, i: int) -> Option<Json>
    decreases m.len() - i,
{
    if i < 0 || i >= m.len() {
        None
    } else if m[i].key@ == key {
        Some(m[i].value)
    } else {
        member_from(m, key, i + 1)
    }
}

/// The members of an object.
pub open spec fn members_of(v: Json) -> Option<Seq<Member>> {
    match v {
        Json::Object(m) => Some(m@),
        _ => None,
    }
}

/// The value under a key of an object.
pub open spec fn member(v: Json, key: Seq<char>) -> Option<Json> {
    match v {
        Json::Object(m) => member_from(m@, key, 0),
        _ => None,
    }
}

/// The items of a list.
pub open spec fn items_of(v: Json) -> Option<Seq<Json>> {
    match v {
        Json::List(l) => Some(l@),
        _ => None,
    }
}

/// The text a value is.
pub open spec fn text_of(v: Json) -> Option<Seq<char>> {
    match v {
        Json::Text(s) => Some(s@),
        _ => None,
    }
}

/// The boolean a value is.
pub open spec fn bool_of(v: Json) -> Option<bool> {
    match v {
        Json::Bool(b) => Some(b),
        _ => None,
    }
}

impl Json {
    /// The value under a key.
    pub fn get(&self, key: &str) -> (r: Option<&Json>)
        ensures
            match r {
                Some(v) => member(*self, key@) == Some(*v),
                None => member(*self, key@) is None,
            },
    {
        match self {
            Json::Object(m) => {
                let mut i: usize = 0;
                while i < m.len()
                    invariant
                        i <= m@.len(),
                        *self == Json::Object(*m),
                        member_from(m@, key@, 0) == member_from(m@, key@, i as int),
                    decreases m@.len() - i,
                {
                    if same(m[i].key.as_str(), key) {
                        return Some(&m[i].value);
                    }
                    i += 1;
                }
                None
            },
            _ => None,
        }
    }

    /// The text this value is.
    pub fn as_text(&self) -> (r: Option<&str>)
        ensures
            r.deep_view() == text_of(*self),
    {
        match self {
            Json::Text(s) => Some(s.as_str()),
            _ => None,
        }
    }

    /// The boolean this value is.
    pub fn as_bool(&self) -> (r: Option<bool>)
        ensures
            r == bool_of(*self),
    {
        match self {
            Json::Bool(b) => Some(*b),
            _ => None,
        }
    }

    /// The items this value lists.
    pub fn as_items(&self) -> (r: Option<&Vec<Json>>)
        ensures
            match r {
                Some(l) => items_of(*self) == Some(l@),
                None => items_of(*self) is None,
            },
    {
        match self {
            Json::List(l) => Some(l),
            _ => None,
        }
    }

    /// The members of this object.
    pub fn as_members(&self) -> (r: Option<&Vec<Member>>)
        ensures
            match r {
                Some(m) => members_of(*self) == Some(m@),
                None => members_of(*self) is None,
            },
    {
        match self {
            Json::Object(m) => Some(m),
            _ => None,
        }
    }
}

/// A member of an object is the first under its key.
pub proof fn law_members_are_found_by_key(m: Seq<Member>, key: Seq<char>, i: int)
    requires
        0 <= i <= m.len(),
    ensures
        match member_from(m, key, i) {
            Some(v) => exists|k: int|
                {
                    &&& i <= k < m.len()
                    &&& (#[trigger] m[k]).key@ == key
                    &&& m[k].value == v
                    &&& forall|j: int| i <= j < k ==> (#[trigger] m[j]).key@ != key
                },
            None => forall|j: int| i <= j < m.len() ==> (#[trigger] m[j]).key@ != key,
        },
    decreases m.len() - i,
{
    if i < m.len() {
        if m[i].key@ == key {
            assert(m[i].value == m[i].value);
        } else {
            law_members_are_found_by_key(m, key, i + 1);
            if let Some(v) = member_from(m, key, i + 1) {
                let k = choose|k: int|
                    {
                        &&& i + 1 <= k < m.len()
                        &&& (#[trigger] m[k]).key@ == key
                        &&& m[k].value == v
                        &&& forall|j: int| i + 1 <= j < k ==> (#[trigger] m[j]).key@ != key
                    };
                assert(m[k].key@ == key);
            }
        }
    }
}

} // verus!
