//! JSON documents as plain values.

use crate::text::{dec_string, int_string, str_eq};
use vstd::prelude::*;

verus! {

use crate::text::{dec, dec_int};

/// A JSON value. A number that is no 64-bit integer is kept as its decimal text; the
/// members of an object are kept in the order in which the reader hands them over.
#[derive(Debug)]
pub enum Json {
    Null,
    Bool(bool),
    Int(i64),
    /// An integer above the range of `Int`.
    Big(u64),
    /// The decimal text of any other number.
    Decimal(String),
    Str(String),
    Array(Vec<Json>),
    Object(Vec<(String, Json)>),
}

/// `serde_json::Value`, a parsed document.
#[verifier::external_type_specification]
#[verifier::external_body]
pub struct ExValue(serde_json::Value);

/// What a parsed document holds.
pub uninterp spec fn contents(v: serde_json::Value) -> Json;

/// The document that a text spells, or why it spells none.
pub uninterp spec fn document(text: Seq<char>) -> Result<Json, Seq<char>>;

/// `serde_json::from_str` into a `Value`: the document, or the error's text, depends on
/// the text alone.
#[verifier::external_body]
fn read_value(text: &str) -> (r: Result<serde_json::Value, String>)
    ensures
        match (r, document(text@)) {
            (Ok(v), Ok(d)) => contents(v) == d,
            (Err(e), Err(d)) => e@ == d,
            _ => false,
        },
{
    serde_json::from_str(text).map_err(|e: serde_json::Error| e.to_string())
}

/// The variants of a `serde_json::Value`, one for one.
#[verifier::external_body]
fn from_value(v: serde_json::Value) -> (r: Json)
    ensures
        r == contents(v),
{
    match v {
        serde_json::Value::Null => Json::Null,
        serde_json::Value::Bool(b) => Json::Bool(b),
        serde_json::Value::Number(n) => match (n.as_i64(), n.as_u64()) {
            (Some(i), _) => Json::Int(i),
            (None, Some(u)) => Json::Big(u),
            (None, None) => Json::Decimal(n.to_string()),
        },
        serde_json::Value::String(s) => Json::Str(s),
        serde_json::Value::Array(a) => Json::Array(a.into_iter().map(from_value).collect()),
        serde_json::Value::Object(m) => Json::Object(m.into_iter().map(|e| (e.0, from_value(e.1))).collect()),
    }
}

/// Parses a JSON text.
pub fn parse_json(text: &str) -> (r: Result<Json, String>)
    ensures
        match (r, document(text@)) {
            (Ok(v), Ok(d)) => v == d,
            (Err(e), Err(d)) => e@ == d,
            _ => false,
        },
{
    match read_value(text) {
        Ok(v) => Ok(from_value(v)),
        Err(e) => Err(e),
    }
}

/// The first member with the given key.
pub open spec fn member(ms: Seq<(String, Json)>, key: Seq<char>) -> Option<Json>
    decreases ms.len(),
{
    if ms.len() == 0 {
        None
    } else if ms[0].0@ == key {
        Some(ms[0].1)
    } else {
        member(ms.skip(1), key)
    }
}

impl Json {
    /// The value of an object's member.
    pub open spec fn at(self, key: Seq<char>) -> Option<Json> {
        match self {
            Json::Object(ms) => member(ms@, key),
            _ => None,
        }
    }

    /// The value of an object's member.
    pub fn get(&self, key: &str) -> (r: Option<&Json>)
        ensures
            match r {
                Some(v) => self.at(key@) == Some(*v),
                None => self.at(key@) is None,
            },
    {
        match self {
            Json::Object(ms) => {
                let mut i: usize = 0;
                assert(ms@.skip(0) == ms@);
                while i < ms.len()
                    invariant
                        i <= ms.len(),
                        self.at(key@) == member(ms@, key@),
                        member(ms@, key@) == member(ms@.skip(i as int), key@),
                    decreases ms.len() - i,
                {
                    assert(ms@.skip(i as int)[0] == ms@[i as int]);
                    assert(ms@.skip(i as int).skip(1) == ms@.skip(i + 1));
                    if str_eq(ms[i].0.as_str(), key) {
                        return Some(&ms[i].1);
                    }
                    i = i + 1;
                }
                None
            },
            _ => None,
        }
    }

    /// The text of a string.
    pub open spec fn text(self) -> Option<Seq<char>> {
        match self {
            Json::Str(s) => Some(s@),
            _ => None,
        }
    }

    /// The text of a string.
    pub fn as_str(&self) -> (r: Option<&str>)
        ensures
            match r {
                Some(s) => self.text() == Some(s@),
                None => self.text() is None,
            },
    {
        match self {
            Json::Str(s) => Some(s.as_str()),
            _ => None,
        }
    }

    /// The value of an integer in the range of `i64`.
    pub open spec fn integer(self) -> Option<i64> {
        match self {
            Json::Int(i) => Some(i),
            _ => None,
        }
    }

    /// The value of an integer in the range of `i64`.
    pub fn as_i64(&self) -> (r: Option<i64>)
        ensures
            r == self.integer(),
    {
        match self {
            Json::Int(i) => Some(*i),
            _ => None,
        }
    }

    /// The value of an integer in the range of `u64`.
    pub open spec fn uint(self) -> Option<u64> {
        match self {
            Json::Int(i) => if i >= 0 {
                Some(i as u64)
            } else {
                None
            },
            Json::Big(u) => Some(u),
            _ => None,
        }
    }

    /// The value of an integer in the range of `u64`.
    pub fn as_u64(&self) -> (r: Option<u64>)
        ensures
            r == self.uint(),
    {
        match self {
            Json::Int(i) => if *i >= 0 {
                Some(*i as u64)
            } else {
                None
            },
            Json::Big(u) => Some(*u),
            _ => None,
        }
    }

    /// The value of a boolean.
    pub open spec fn boolean(self) -> Option<bool> {
        match self {
            Json::Bool(b) => Some(b),
            _ => None,
        }
    }

    /// The value of a boolean.
    pub fn as_bool(&self) -> (r: Option<bool>)
        ensures
            r == self.boolean(),
    {
        match self {
            Json::Bool(b) => Some(*b),
            _ => None,
        }
    }

    /// The decimal text of a number of any kind.
    pub open spec fn number(self) -> Option<Seq<char>> {
        match self {
            Json::Int(i) => Some(dec_int(i as int)),
            Json::Big(u) => Some(dec(u as nat)),
            Json::Decimal(s) => Some(s@),
            _ => None,
        }
    }

    /// The decimal text of a number of any kind.
    pub fn as_number(&self) -> (r: Option<String>)
        ensures
            match r {
                Some(s) => self.number() == Some(s@),
                None => self.number() is None,
            },
    {
        match self {
            Json::Int(i) => Some(int_string(*i)),
            Json::Big(u) => Some(dec_string(*u)),
            Json::Decimal(s) => Some(s.clone()),
            _ => None,
        }
    }

    /// The items of an array.
    pub open spec fn items(self) -> Option<Seq<Json>> {
        match self {
            Json::Array(a) => Some(a@),
            _ => None,
        }
    }

    /// The items of an array.
    pub fn as_array(&self) -> (r: Option<&Vec<Json>>)
        ensures
            match r {
                Some(a) => self.items() == Some(a@),
                None => self.items() is None,
            },
    {
        match self {
            Json::Array(a) => Some(a),
            _ => None,
        }
    }

    /// The members of an object.
    pub open spec fn members(self) -> Option<Seq<(String, Json)>> {
        match self {
            Json::Object(m) => Some(m@),
            _ => None,
        }
    }

    /// The members of an object.
    pub fn as_object(&self) -> (r: Option<&Vec<(String, Json)>>)
        ensures
            match r {
                Some(m) => self.members() == Some(m@),
                None => self.members() is None,
            },
    {
        match self {
            Json::Object(m) => Some(m),
            _ => None,
        }
    }

    /// The text of a string member.
    pub open spec fn text_at(self, key: Seq<char>) -> Option<Seq<char>> {
        match self.at(key) {
            Some(v) => v.text(),
            None => None,
        }
    }

    /// The text of a string member.
    pub fn get_str(&self, key: &str) -> (r: Option<&str>)
        ensures
            match r {
                Some(s) => self.text_at(key@) == Some(s@),
                None => self.text_at(key@) is None,
            },
    {
        match self.get(key) {
            Some(v) => v.as_str(),
            None => None,
        }
    }

    /// The value of an integer member.
    pub open spec fn int_at(self, key: Seq<char>) -> Option<i64> {
        match self.at(key) {
            Some(v) => v.integer(),
            None => None,
        }
    }

    /// The value of an integer member.
    pub fn get_i64(&self, key: &str) -> (r: Option<i64>)
        ensures
            r == self.int_at(key@),
    {
        match self.get(key) {
            Some(v) => v.as_i64(),
            None => None,
        }
    }

    /// The value of a member that is a whole number.
    pub open spec fn uint_at(self, key: Seq<char>) -> Option<u64> {
        match self.at(key) {
            Some(v) => v.uint(),
            None => None,
        }
    }

    /// The value of a member that is a whole number.
    pub fn get_u64(&self, key: &str) -> (r: Option<u64>)
        ensures
            r == self.uint_at(key@),
    {
        match self.get(key) {
            Some(v) => v.as_u64(),
            None => None,
        }
    }

    /// The items of an array member; none where there is no such array.
    pub open spec fn items_at(self, key: Seq<char>) -> Option<Seq<Json>> {
        match self.at(key) {
            Some(v) => v.items(),
            None => None,
        }
    }

    /// The items of an array member.
    pub fn get_array(&self, key: &str) -> (r: Option<&Vec<Json>>)
        ensures
            match r {
                Some(a) => self.items_at(key@) == Some(a@),
                None => self.items_at(key@) is None,
            },
    {
        match self.get(key) {
            Some(v) => v.as_array(),
            None => None,
        }
    }

    /// Whether a boolean member is there and true.
    pub open spec fn is_set(self, key: Seq<char>) -> bool {
        match self.at(key) {
            Some(v) => v.boolean() == Some(true),
            None => false,
        }
    }

    /// Whether a boolean member is there and true.
    pub fn flag(&self, key: &str) -> (r: bool)
        ensures
            r == self.is_set(key@),
    {
        match self.get(key) {
            Some(v) => match v.as_bool() {
                Some(b) => b,
                None => false,
            },
            None => false,
        }
    }
}

} // verus!
