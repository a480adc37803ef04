//! A plain-value model of the JSON documents the local API serves.
//!
//! The session payload reaches the library as a tree of [`JsonValue`]s;
//! numbers are carried exactly for integers and in thousandths for
//! fractional values, so that timer arithmetic stays exact to the
//! millisecond without floating point.

use vstd::prelude::*;

use crate::num::{parse_i64_str, spec_parse_i64};
use crate::text::str_eq;

verus! {

/// A JSON document. A fractional number is held in thousandths of its
/// value; an integral number is held exactly.
pub enum JsonValue {
    Null,
    Bool(bool),
    Int(i64),
    Frac(i64),
    Str(String),
    Arr(Vec<JsonValue>),
    Obj(Vec<(String, JsonValue)>),
}

/// Look a key up among object entries: the first entry with that key.
pub open spec fn spec_get_entries(es: Seq<(String, JsonValue)>, key: Seq<char>) -> Option<
    JsonValue,
>
    decreases es.len(),
{
    if es.len() == 0 {
        None
    } else if es[0].0@ == key {
        Some(es[0].1)
    } else {
        spec_get_entries(es.drop_first(), key)
    }
}

/// Look a field up: yields a value only on an object that has the key.
pub open spec fn spec_get(v: JsonValue, key: Seq<char>) -> Option<JsonValue> {
    match v {
        JsonValue::Obj(entries) => spec_get_entries(entries@, key),
        _ => None,
    }
}

pub open spec fn opt_get(o: Option<JsonValue>, key: Seq<char>) -> Option<JsonValue> {
    match o {
        Some(v) => spec_get(v, key),
        None => None,
    }
}

pub open spec fn spec_as_i64(v: JsonValue) -> Option<i64> {
    match v {
        JsonValue::Int(n) => Some(n),
        _ => None,
    }
}

pub open spec fn spec_as_bool(v: JsonValue) -> Option<bool> {
    match v {
        JsonValue::Bool(b) => Some(b),
        _ => None,
    }
}

pub open spec fn spec_as_str(v: JsonValue) -> Option<Seq<char>> {
    match v {
        JsonValue::Str(s) => Some(s@),
        _ => None,
    }
}

pub open spec fn spec_as_array(v: JsonValue) -> Option<Seq<JsonValue>> {
    match v {
        JsonValue::Arr(items) => Some(items@),
        _ => None,
    }
}

/// The value of a number in thousandths; an integral number whose
/// thousandfold leaves `i64` yields nothing.
pub open spec fn spec_as_milli(v: JsonValue) -> Option<i64> {
    match v {
        JsonValue::Int(n) => if -9_223_372_036_854_775 <= n && n <= 9_223_372_036_854_775 {
            Some((n * 1000) as i64)
        } else {
            None
        },
        JsonValue::Frac(m) => Some(m),
        _ => None,
    }
}

/// An integer field that may arrive as a number or as a string-encoded
/// number.
pub open spec fn spec_as_int_lenient(v: JsonValue) -> Option<i64> {
    match v {
        JsonValue::Int(n) => Some(n),
        JsonValue::Str(s) => spec_parse_i64(s@),
        _ => None,
    }
}

pub open spec fn opt_as_i64(o: Option<JsonValue>) -> Option<i64> {
    match o {
        Some(v) => spec_as_i64(v),
        None => None,
    }
}

pub open spec fn opt_as_bool(o: Option<JsonValue>) -> Option<bool> {
    match o {
        Some(v) => spec_as_bool(v),
        None => None,
    }
}

pub open spec fn opt_as_str(o: Option<JsonValue>) -> Option<Seq<char>> {
    match o {
        Some(v) => spec_as_str(v),
        None => None,
    }
}

pub open spec fn opt_as_array(o: Option<JsonValue>) -> Option<Seq<JsonValue>> {
    match o {
        Some(v) => spec_as_array(v),
        None => None,
    }
}

pub open spec fn opt_as_milli(o: Option<JsonValue>) -> Option<i64> {
    match o {
        Some(v) => spec_as_milli(v),
        None => None,
    }
}

pub open spec fn opt_as_int_lenient(o: Option<JsonValue>) -> Option<i64> {
    match o {
        Some(v) => spec_as_int_lenient(v),
        None => None,
    }
}

impl JsonValue {
    /// Look a field up on an object.
    pub fn get<'a>(&'a self, key: &str) -> (r: Option<&'a JsonValue>)
        ensures
            match r {
                Some(u) => spec_get(*self, key@) == Some(*u),
                None => spec_get(*self, key@) is None,
            },
    {
        match self {
            JsonValue::Obj(entries) => {
                let n = entries.len();
                let mut i: usize = 0;
                proof {
                    assert(entries@.skip(0) =~= entries@);
                    assert(spec_get(*self, key@) == spec_get_entries(entries@, key@));
                }
                while i < n
                    invariant
                        i <= n,
                        n == entries@.len(),
                        spec_get(*self, key@) == spec_get_entries(entries@, key@),
                        spec_get_entries(entries@, key@) == spec_get_entries(
                            entries@.skip(i as int),
                            key@,
                        ),
                    decreases n - i,
                {
                    proof {
                        assert(entries@.skip(i as int).drop_first() =~= entries@.skip(i as int + 1));
                        assert(entries@.skip(i as int)[0] == entries@[i as int]);
                    }
                    if str_eq(entries[i].0.as_str(), key) {
                        proof {
                            assert(entries@[i as int].0@ == key@);
                            assert(spec_get_entries(entries@.skip(i as int), key@) == Some(
                                entries@[i as int].1,
                            ));
                        }
                        return Some(&entries[i].1);
                    }
                    i += 1;
                }
                proof {
                    assert(entries@.skip(n as int) =~= Seq::<(String, JsonValue)>::empty());
                }
                None
            },
            _ => None,
        }
    }

    pub fn as_i64(&self) -> (r: Option<i64>)
        ensures
            r == spec_as_i64(*self),
    {
        match self {
            JsonValue::Int(n) => Some(*n),
            _ => None,
        }
    }

    pub fn as_bool(&self) -> (r: Option<bool>)
        ensures
            r == spec_as_bool(*self),
    {
        match self {
            JsonValue::Bool(b) => Some(*b),
            _ => None,
        }
    }

    pub fn as_string<'a>(&'a self) -> (r: Option<&'a String>)
        ensures
            match r {
                Some(s) => spec_as_str(*self) == Some(s@),
                None => spec_as_str(*self) is None,
            },
    {
        match self {
            JsonValue::Str(s) => Some(s),
            _ => None,
        }
    }

    pub fn as_array<'a>(&'a self) -> (r: Option<&'a Vec<JsonValue>>)
        ensures
            match r {
                Some(items) => spec_as_array(*self) == Some(items@),
                None => spec_as_array(*self) is None,
            },
    {
        match self {
            JsonValue::Arr(items) => Some(items),
            _ => None,
        }
    }

    /// The value of a number in thousandths.
    pub fn as_milli(&self) -> (r: Option<i64>)
        ensures
            r == spec_as_milli(*self),
    {
        match self {
            JsonValue::Int(n) => {
                if -9_223_372_036_854_775i64 <= *n && *n <= 9_223_372_036_854_775i64 {
                    Some(*n * 1000)
                } else {
                    None
                }
            },
            JsonValue::Frac(m) => Some(*m),
            _ => None,
        }
    }

    /// An integer field, accepting a string-encoded integer as well.
    pub fn as_int_lenient(&self) -> (r: Option<i64>)
        ensures
            r == spec_as_int_lenient(*self),
    {
        match self {
            JsonValue::Int(n) => Some(*n),
            JsonValue::Str(s) => parse_i64_str(s.as_str()),
            _ => None,
        }
    }

    /// Whether the value is an object.
    pub fn is_object(&self) -> (r: bool)
        ensures
            r == (self is Obj),
    {
        match self {
            JsonValue::Obj(_) => true,
            _ => false,
        }
    }
}

/// An `i64` field of an object.
pub fn field_i64(v: &JsonValue, key: &str) -> (r: Option<i64>)
    ensures
        r == opt_as_i64(spec_get(*v, key@)),
{
    match v.get(key) {
        Some(u) => u.as_i64(),
        None => None,
    }
}

/// An integer field that may be string-encoded.
pub fn field_int_lenient(v: &JsonValue, key: &str) -> (r: Option<i64>)
    ensures
        r == opt_as_int_lenient(spec_get(*v, key@)),
{
    match v.get(key) {
        Some(u) => u.as_int_lenient(),
        None => None,
    }
}

/// A boolean field of an object.
pub fn field_bool(v: &JsonValue, key: &str) -> (r: Option<bool>)
    ensures
        r == opt_as_bool(spec_get(*v, key@)),
{
    match v.get(key) {
        Some(u) => u.as_bool(),
        None => None,
    }
}

/// The view of an optional owned string.
pub open spec fn opt_string_view(o: Option<String>) -> Option<Seq<char>> {
    match o {
        Some(s) => Some(s@),
        None => None,
    }
}

/// A string field of an object, cloned out.
pub fn field_str_owned(v: &JsonValue, key: &str) -> (r: Option<String>)
    ensures
        opt_string_view(r) == opt_as_str(spec_get(*v, key@)),
{
    match v.get(key) {
        Some(u) => match u.as_string() {
            Some(s) => Some(s.clone()),
            None => None,
        },
        None => None,
    }
}

/// A string field with a default for a missing or non-string value.
pub fn field_str_or(v: &JsonValue, key: &str, default: &str) -> (r: String)
    ensures
        r@ == (match opt_as_str(spec_get(*v, key@)) {
            Some(s) => s,
            None => default@,
        }),
{
    match v.get(key) {
        Some(u) => match u.as_string() {
            Some(s) => s.clone(),
            None => default.to_owned(),
        },
        None => default.to_owned(),
    }
}

/// An `i64` field with a default of zero, the usual fallback of the
/// payload traversal.
pub fn field_i64_or_zero(v: &JsonValue, key: &str) -> (r: i64)
    ensures
        r == (match opt_as_i64(spec_get(*v, key@)) {
            Some(n) => n,
            None => 0,
        }),
{
    match field_i64(v, key) {
        Some(n) => n,
        None => 0,
    }
}

/// Look a field up through an optional value, for a traversal whose
/// parent may itself be missing.
pub fn opt_field<'a>(v: Option<&'a JsonValue>, key: &str) -> (r: Option<&'a JsonValue>)
    ensures
        match r {
            Some(u) => opt_get(deref_opt(v), key@) == Some(*u),
            None => opt_get(deref_opt(v), key@) is None,
        },
{
    match v {
        Some(v) => v.get(key),
        None => None,
    }
}

/// The spec-level value of an optional reference.
pub open spec fn deref_opt(v: Option<&JsonValue>) -> Option<JsonValue> {
    match v {
        Some(u) => Some(*u),
        None => None,
    }
}

} // verus!
