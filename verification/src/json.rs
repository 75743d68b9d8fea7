//! JSON documents as plain values, and the lookups that the scanners make.

use vstd::prelude::*;
use crate::decimal::{
    dollars_to_picodollars,
    parse_picodollars,
    picodollars,
    picodollars_of_dollars,
};
use crate::text::{parse_unsigned, str_eq, trim, trimmed, unsigned_value};

verus! {

/// A JSON number: a non-negative integer within `u64`, a negative integer
/// within `i64`, or any other number by its decimal text.
#[derive(Debug, PartialEq, Eq)]
pub enum JsonNumber {
    Unsigned(u64),
    Negative(i64),
    Decimal(String),
}

/// A JSON document. The members of an object keep the order in which the
/// parser hands them out; a lookup takes the first member with the key.
#[derive(Debug, PartialEq, Eq)]
pub enum Json {
    Null,
    Bool(bool),
    Number(JsonNumber),
    Text(String),
    Array(Vec<Json>),
    Object(Vec<(String, Json)>),
}

/// `serde_json::Value`, of which nothing is known here but that it exists.
#[verifier::external_type_specification]
#[verifier::external_body]
pub struct ExValue(serde_json::Value);

/// `serde_json::Number`, of which nothing is known here but that it exists.
#[verifier::external_type_specification]
#[verifier::external_body]
pub struct ExNumber(serde_json::Number);

/// The document that `serde_json::from_str` reads from `text`, or `None` where
/// it reports an error.
pub uninterp spec fn parsed_json(text: Seq<char>) -> Option<Json>;

/// Carries a `serde_json::Number` over: `as_u64` where it answers, else
/// `as_i64`, else the text that its `Display` writes.
#[verifier::external_body]
fn from_number(number: &serde_json::Number) -> JsonNumber {
    match (number.as_u64(), number.as_i64()) {
        (Some(u), _) => JsonNumber::Unsigned(u),
        (None, Some(i)) => JsonNumber::Negative(i),
        (None, None) => JsonNumber::Decimal(number.to_string()),
    }
}

/// Carries a `serde_json::Value` over, variant by variant; the members of an
/// object come in the order of `serde_json::Map::into_iter`.
#[verifier::external_body]
fn from_value(value: serde_json::Value) -> Json {
    match value {
        serde_json::Value::Null => Json::Null,
        serde_json::Value::Bool(b) => Json::Bool(b),
        serde_json::Value::Number(n) => Json::Number(from_number(&n)),
        serde_json::Value::String(s) => Json::Text(s),
        serde_json::Value::Array(items) => Json::Array(items.into_iter().map(from_value).collect()),
        serde_json::Value::Object(members) => Json::Object(
            members.into_iter().map(|(k, v)| (k, from_value(v))).collect(),
        ),
    }
}

/// `serde_json::from_str` into a `serde_json::Value`, carried over into a
/// `Json`. The contract only names the result: the same text always gives
/// the same document, and an error gives `None`.
#[verifier::external_body]
pub(crate) fn from_str(text: &str) -> (document: Option<Json>)
    ensures
        document == parsed_json(text@),
{
    match serde_json::from_str::<serde_json::Value>(text) {
        Ok(value) => Some(from_value(value)),
        Err(_) => None,
    }
}

/// The value of the first member of `members` whose key is `key`.
pub open spec fn first_member(members: Seq<(String, Json)>, key: Seq<char>) -> Option<Json>
    decreases members.len(),
{
    if members.len() == 0 {
        None
    } else if members[0].0@ == key {
        Some(members[0].1)
    } else {
        first_member(members.drop_first(), key)
    }
}

/// The member `key` of `parent`, where `parent` is an object that has one.
pub open spec fn child(parent: Option<Json>, key: Seq<char>) -> Option<Json> {
    match parent {
        Some(value) => value.field(key),
        None => None,
    }
}

/// The text of `value`, where it is a string.
pub open spec fn text_of(value: Option<Json>) -> Option<Seq<char>> {
    match value {
        Some(Json::Text(s)) => Some(s@),
        _ => None,
    }
}

/// The document that `found` refers to, if any.
pub open spec fn owned(found: Option<&Json>) -> Option<Json> {
    match found {
        Some(value) => Some(*value),
        None => None,
    }
}

/// The token count that `value` holds: a non-negative integer as it stands, a
/// string by the unsigned integer it writes once trimmed, anything else 0.
pub open spec fn token_count(value: Option<Json>) -> u64 {
    match value {
        Some(Json::Number(JsonNumber::Unsigned(u))) => u,
        Some(Json::Number(JsonNumber::Negative(i))) => if i > 0 {
            i as u64
        } else {
            0
        },
        Some(Json::Text(s)) => match unsigned_value(trimmed(s@)) {
            Some(u) => u,
            None => 0,
        },
        _ => 0,
    }
}

/// The cost in picodollars that `value` holds as a dollar amount: a number by
/// its value, a string by the decimal literal it writes once trimmed, anything
/// else 0. Negative amounts count as 0.
pub open spec fn cost_amount(value: Option<Json>) -> u64 {
    match value {
        Some(Json::Number(JsonNumber::Unsigned(u))) => dollars_to_picodollars(u),
        Some(Json::Number(JsonNumber::Negative(i))) => if i > 0 {
            dollars_to_picodollars(i as u64)
        } else {
            0
        },
        Some(Json::Number(JsonNumber::Decimal(s))) => picodollars(s@),
        Some(Json::Text(s)) => picodollars(trimmed(s@)),
        _ => 0,
    }
}

impl Json {
    /// The member `key` of this document, where it is an object that has one.
    pub open spec fn field(self, key: Seq<char>) -> Option<Json> {
        match self {
            Json::Object(members) => first_member(members@, key),
            _ => None,
        }
    }

    /// Looks up the member `key` of an object.
    pub fn get(&self, key: &str) -> (found: Option<&Json>)
        ensures
            owned(found) == self.field(key@),
    {
        match self {
            Json::Object(members) => {
                let mut i: usize = 0;
                assert(members@.skip(0) =~= members@);
                while i < members.len()
                    invariant
                        i <= members.len(),
                        self.field(key@) == first_member(members@.skip(i as int), key@),
                    decreases members.len() - i,
                {
                    assert(members@.skip(i as int).drop_first() =~= members@.skip(i + 1));
                    assert(members@.skip(i as int)[0] == members@[i as int]);
                    if str_eq(members[i].0.as_str(), key) {
                        return Some(&members[i].1);
                    }
                    i += 1;
                }
                None
            },
            _ => None,
        }
    }

    /// The text of this document, where it is a string.
    pub fn as_str(&self) -> (text: Option<&str>)
        ensures
            match text {
                Some(s) => text_of(Some(*self)) == Some(s@),
                None => text_of(Some(*self)) is None,
            },
    {
        match self {
            Json::Text(s) => Some(s.as_str()),
            _ => None,
        }
    }
}

/// Looks up the member `key` of `parent`, where there is a parent.
pub fn get_child<'a>(parent: Option<&'a Json>, key: &str) -> (found: Option<&'a Json>)
    ensures
        owned(found) == child(owned(parent), key@),
{
    match parent {
        Some(value) => value.get(key),
        None => None,
    }
}

/// Reads a token count.
pub fn value_u64(value: Option<&Json>) -> (count: u64)
    ensures
        count == token_count(owned(value)),
{
    match value {
        Some(Json::Number(JsonNumber::Unsigned(u))) => *u,
        Some(Json::Number(JsonNumber::Negative(i))) => if *i > 0 {
            *i as u64
        } else {
            0
        },
        Some(Json::Text(s)) => match parse_unsigned(trim(s.as_str())) {
            Some(u) => u,
            None => 0,
        },
        _ => 0,
    }
}

/// Reads a reported cost, given in dollars, as picodollars.
pub fn value_cost(value: Option<&Json>) -> (cost: u64)
    ensures
        cost == cost_amount(owned(value)),
{
    match value {
        Some(Json::Number(JsonNumber::Unsigned(u))) => picodollars_of_dollars(*u),
        Some(Json::Number(JsonNumber::Negative(i))) => if *i > 0 {
            picodollars_of_dollars(*i as u64)
        } else {
            0
        },
        Some(Json::Number(JsonNumber::Decimal(s))) => parse_picodollars(s.as_str()),
        Some(Json::Text(s)) => parse_picodollars(trim(s.as_str())),
        _ => 0,
    }
}

} // verus!
