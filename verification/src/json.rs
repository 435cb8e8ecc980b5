//! The JSON values the servers send, as the library reads them: what a field holds, by
//! name, and whether it is a number, a text, a flag or a list.

use vstd::prelude::*;

use crate::models::same_text;

verus! {

/// A JSON value. An integer is kept with its value when it fits in 64 bits, signed or not;
/// any other number is kept as the text it is written with.
pub enum Json {
    Null,
    Bool(bool),
    Integer(i128),
    Float(String),
    Text(String),
    Array(Vec<Json>),
    /// The members of an object, in the order the reader gave them, each name once.
    Object(Vec<(String, Json)>),
}

/// The member `key` of an object: the first with that name. `None` for anything else.
pub open spec fn member(json: Json, key: Seq<char>) -> Option<Json> {
    match json {
        Json::Object(members) => first_member(members@, key),
        _ => None,
    }
}

pub open spec fn first_member(members: Seq<(String, Json)>, key: Seq<char>) -> Option<Json>
    decreases members.len(),
{
    if members.len() == 0 {
        None
    } else if members[0].0@ == key {
        Some(members[0].1)
    } else {
        first_member(members.drop_first(), key)
    }
}

/// The value of a member, `null` when there is none, as indexing a JSON value by name does.
pub open spec fn at(json: Json, key: Seq<char>) -> Json {
    match member(json, key) {
        Some(value) => value,
        None => Json::Null,
    }
}

pub open spec fn spec_as_i64(json: Json) -> Option<i64> {
    match json {
        Json::Integer(n) => if i64::MIN <= n <= i64::MAX { Some(n as i64) } else { None },
        _ => None,
    }
}

pub open spec fn spec_as_u64(json: Json) -> Option<u64> {
    match json {
        Json::Integer(n) => if 0 <= n <= u64::MAX { Some(n as u64) } else { None },
        _ => None,
    }
}

pub open spec fn spec_as_str(json: Json) -> Option<Seq<char>> {
    match json {
        Json::Text(text) => Some(text@),
        _ => None,
    }
}

pub open spec fn spec_as_bool(json: Json) -> Option<bool> {
    match json {
        Json::Bool(flag) => Some(flag),
        _ => None,
    }
}

impl Json {
    /// The member `key` of an object.
    pub fn get(&self, key: &str) -> (value: Option<&Json>)
        ensures
            match member(*self, key@) {
                Some(found) => value matches Some(v) && *v == found,
                None => value is None,
            },
    {
        match self {
            Json::Object(members) => {
                let mut index: usize = 0;

                proof {
                    assert(members@.skip(0) =~= members@);
                }

                while index < members.len()
                    invariant
                        index <= members.len(),
                        *self == Json::Object(*members),
                        first_member(members@, key@) == first_member(members@.skip(index as int), key@),
                    decreases members.len() - index,
                {
                    proof {
                        assert(members@.skip(index as int)[0] == members@[index as int]);
                        assert(members@.skip(index as int).drop_first() =~= members@.skip(index + 1));
                    }
                    if same_text(members[index].0.as_str(), key) {
                        return Some(&members[index].1);
                    }
                    index = index + 1;
                }

                proof {
                    assert(members@.skip(index as int) =~= Seq::<(String, Json)>::empty());
                }

                None
            },
            _ => None,
        }
    }

    pub fn as_i64(&self) -> (value: Option<i64>)
        ensures
            value == spec_as_i64(*self),
    {
        match self {
            Json::Integer(n) => if i64::MIN as i128 <= *n && *n <= i64::MAX as i128 {
                Some(*n as i64)
            } else {
                None
            },
            _ => None,
        }
    }

    pub fn as_u64(&self) -> (value: Option<u64>)
        ensures
            value == spec_as_u64(*self),
    {
        match self {
            Json::Integer(n) => if 0 <= *n && *n <= u64::MAX as i128 {
                Some(*n as u64)
            } else {
                None
            },
            _ => None,
        }
    }

    pub fn as_str(&self) -> (text: Option<&str>)
        ensures
            match spec_as_str(*self) {
                Some(found) => text matches Some(t) && t@ == found,
                None => text is None,
            },
    {
        match self {
            Json::Text(text) => Some(text.as_str()),
            _ => None,
        }
    }

    pub fn as_bool(&self) -> (flag: Option<bool>)
        ensures
            flag == spec_as_bool(*self),
    {
        match self {
            Json::Bool(flag) => Some(*flag),
            _ => None,
        }
    }

    pub fn is_null(&self) -> (null: bool)
        ensures
            null == (*self == Json::Null),
    {
        match self {
            Json::Null => true,
            _ => false,
        }
    }
}

/// The text of member `key`, when it is a text.
pub open spec fn str_at(json: Json, key: Seq<char>) -> Option<Seq<char>> {
    spec_as_str(at(json, key))
}

/// The integer of member `key`, when it is one that fits in 64 bits.
pub open spec fn i64_at(json: Json, key: Seq<char>) -> Option<i64> {
    spec_as_i64(at(json, key))
}

pub fn text_at<'a>(json: &'a Json, key: &str) -> (text: Option<&'a str>)
    ensures
        match str_at(*json, key@) {
            Some(found) => text matches Some(t) && t@ == found,
            None => text is None,
        },
{
    match json.get(key) {
        Some(value) => value.as_str(),
        None => None,
    }
}

pub fn integer_at(json: &Json, key: &str) -> (value: Option<i64>)
    ensures
        value == i64_at(*json, key@),
{
    match json.get(key) {
        Some(value) => value.as_i64(),
        None => None,
    }
}

/// The member `key`, `null` when there is none.
pub fn member_at<'a>(json: &'a Json, key: &str, null: &'a Json) -> (value: &'a Json)
    requires
        *null == Json::Null,
    ensures
        *value == at(*json, key@),
{
    match json.get(key) {
        Some(value) => value,
        None => null,
    }
}

} // verus!
