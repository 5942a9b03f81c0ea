//! The value tree that the JSON parser builds, and its mathematical model.
use vstd::prelude::*;

use crate::assoc::{
    assoc_get, assoc_insert, assoc_view, insert_member, keys_distinct, lemma_insert_keeps_keys_distinct,
    lookup,
};

verus! {

/// The model of a JSON value.
///
/// A number is kept as the literal text that the grammar accepted; an object
/// is the list of its members, in the order in which each key first appeared
/// (the parser never repeats a key: see `json_laws`).
pub enum Json {
    Null,
    Bool(bool),
    Number(Seq<char>),
    Str(Seq<char>),
    Array(Seq<Json>),
    Object(Seq<(Seq<char>, Json)>),
}

/// A parsed JSON value.
///
/// `Number` holds the literal exactly as it stood in the input (for example
/// `-2.5e3`); converting it to a binary floating-point number is left to the
/// caller.
#[derive(Debug, PartialEq)]
pub enum JsonValue {
    Null,
    Bool(bool),
    Number(String),
    String(String),
    Array(Vec<JsonValue>),
    Object(JsonObject),
}

/// The members of a JSON object, in the order in which each key was first
/// stored.
#[derive(Debug, PartialEq)]
pub struct JsonObject {
    pub members: Vec<(String, JsonValue)>,
}

impl JsonValue {
    pub open spec fn model(self) -> Json
        decreases self,
    {
        match self {
            JsonValue::Null => Json::Null,
            JsonValue::Bool(b) => Json::Bool(b),
            JsonValue::Number(n) => Json::Number(n@),
            JsonValue::String(s) => Json::Str(s@),
            JsonValue::Array(items) => Json::Array(
                Seq::new(
                    items.len() as nat,
                    |i: int|
                        if 0 <= i < items.len() {
                            items[i].model()
                        } else {
                            Json::Null
                        },
                ),
            ),
            JsonValue::Object(o) => Json::Object(o.entries()),
        }
    }
}

impl JsonObject {
    /// The members, in order, as key and model of the value.
    pub open spec fn entries(self) -> Seq<(Seq<char>, Json)>
        decreases self,
    {
        Seq::new(
            self.members.len() as nat,
            |i: int|
                if 0 <= i < self.members.len() {
                    (self.members[i].0@, self.members[i].1.model())
                } else {
                    (Seq::empty(), Json::Null)
                },
        )
    }

    /// An object with no members.
    pub fn new() -> (o: JsonObject)
        ensures
            o.entries() == Seq::<(Seq<char>, Json)>::empty(),
    {
        let o = JsonObject { members: Vec::new() };
        assert(o.entries() =~= Seq::<(Seq<char>, Json)>::empty());
        o
    }

    /// The number of members.
    pub fn len(&self) -> (n: usize)
        ensures
            n == self.entries().len(),
    {
        self.members.len()
    }

    /// The value stored under `key`, if any.
    pub fn get(&self, key: &str) -> (r: Option<&JsonValue>)
        ensures
            match lookup(self.entries(), key@) {
                Some(v) => r matches Some(x) && x@ == v,
                None => r is None,
            },
    {
        proof {
            lemma_entries_view(*self);
        }
        assoc_get(&self.members, key)
    }

    /// Stores `value` under `key`: a member with that key takes the new value
    /// in place; otherwise the member is added at the end.
    pub fn insert(&mut self, key: String, value: JsonValue)
        ensures
            final(self).entries() == insert_member(old(self).entries(), key@, value@),
            keys_distinct(old(self).entries()) ==> keys_distinct(final(self).entries()),
    {
        proof {
            lemma_entries_view(*self);
            if keys_distinct(self.entries()) {
                lemma_insert_keeps_keys_distinct(self.entries(), key@, value@);
            }
        }
        assoc_insert(&mut self.members, key, value);
        proof {
            lemma_entries_view(*self);
        }
    }
}

impl View for JsonValue {
    type V = Json;

    open spec fn view(&self) -> Json {
        self.model()
    }
}

proof fn lemma_entries_view(o: JsonObject)
    ensures
        o.entries() == assoc_view(o.members@),
{
    assert(o.entries() =~= assoc_view(o.members@));
}

/// Why and where parsing stopped.
#[derive(Debug, Clone, PartialEq)]
pub struct ParseError {
    pub message: String,
    /// The number of characters consumed before the violation was detected.
    pub position: usize,
}

/// The model of a [`ParseError`].
pub struct Failure {
    pub message: Seq<char>,
    pub position: nat,
}

impl View for ParseError {
    type V = Failure;

    open spec fn view(&self) -> Failure {
        Failure { message: self.message@, position: self.position as nat }
    }
}

} // verus!
