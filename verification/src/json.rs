//! A structural document: the tree of values that a catalogue response decodes to.

use vstd::prelude::*;
use vstd::string::*;
use crate::text::same_text;

verus! {

/// One value of a structural document.
#[derive(Debug, PartialEq, Eq)]
pub enum Json {
    /// The absent value.
    Null,
    /// A truth value.
    Bool(bool),
    /// A number, kept as the text it was written in.
    Number(String),
    /// A string.
    Text(String),
    /// An ordered list of values.
    List(Vec<Json>),
    /// Named members, in document order.
    Object(Vec<(String, Json)>),
}

/// The value of the first of `fields` that is named `key`, if there is one.
pub open spec fn find_field(fields: Seq<(String, Json)>, key: Seq<char>) -> Option<Json>
    decreases fields.len(),
{
    if fields.len() == 0 {
        None
    } else if fields[0].0@ == key {
        Some(fields[0].1)
    } else {
        find_field(fields.drop_first(), key)
    }
}

/// Searches `fields` from the front for a member named `key`.
pub fn find_in<'a>(fields: &'a Vec<(String, Json)>, key: &str) -> (r: Option<&'a Json>)
    ensures
        match r {
            Some(j) => find_field(fields@, key@) == Some(*j),
            None => find_field(fields@, key@) is None,
        },
{
    let mut i: usize = 0;
    assert(fields@.skip(0) =~= fields@);
    while i < fields.len()
        invariant
            i <= fields.len(),
            find_field(fields@, key@) == find_field(fields@.skip(i as int), key@),
        decreases fields.len() - i,
    {
        assert(fields@.skip(i as int)[0] == fields@[i as int]);
        assert(fields@.skip(i as int).drop_first() =~= fields@.skip(i + 1));
        if same_text(fields[i].0.as_str(), key) {
            return Some(&fields[i].1);
        }
        i += 1;
    }
    None
}

impl Json {
    /// The characters of a string value; `None` for any other value.
    pub open spec fn text(self) -> Option<Seq<char>> {
        match self {
            Json::Text(s) => Some(s@),
            _ => None,
        }
    }

    /// The elements of a list value; `None` for any other value.
    pub open spec fn items(self) -> Option<Seq<Json>> {
        match self {
            Json::List(v) => Some(v@),
            _ => None,
        }
    }

    /// The member of an object that is named `key`, the first if several are;
    /// `None` when there is none or the value is no object.
    pub open spec fn member(self, key: Seq<char>) -> Option<Json> {
        match self {
            Json::Object(fields) => find_field(fields@, key),
            _ => None,
        }
    }

    /// The characters of the string member named `key`.
    pub open spec fn text_at(self, key: Seq<char>) -> Option<Seq<char>> {
        match self.member(key) {
            Some(j) => j.text(),
            None => None,
        }
    }

    /// The elements of the list member named `key`.
    pub open spec fn items_at(self, key: Seq<char>) -> Option<Seq<Json>> {
        match self.member(key) {
            Some(j) => j.items(),
            None => None,
        }
    }

    /// The string that this value holds, if it is one.
    pub fn as_str(&self) -> (r: Option<&str>)
        ensures
            match r {
                Some(s) => self.text() == Some(s@),
                None => self.text() is None,
            },
    {
        match self {
            Json::Text(s) => Some(s.as_str()),
            _ => None,
        }
    }

    /// The list that this value holds, if it is one.
    pub fn as_array(&self) -> (r: Option<&Vec<Json>>)
        ensures
            match r {
                Some(v) => self.items() == Some(v@),
                None => self.items() is None,
            },
    {
        match self {
            Json::List(v) => Some(v),
            _ => None,
        }
    }

    /// The member named `key`, if this value is an object that has one.
    pub fn get(&self, key: &str) -> (r: Option<&Json>)
        ensures
            match r {
                Some(j) => self.member(key@) == Some(*j),
                None => self.member(key@) is None,
            },
    {
        match self {
            Json::Object(fields) => find_in(fields, key),
            _ => None,
        }
    }

    /// The string member named `key`.
    pub fn get_str(&self, key: &str) -> (r: Option<&str>)
        ensures
            match r {
                Some(s) => self.text_at(key@) == Some(s@),
                None => self.text_at(key@) is None,
            },
    {
        match self.get(key) {
            Some(j) => j.as_str(),
            None => None,
        }
    }

    /// The list member named `key`.
    pub fn get_array(&self, key: &str) -> (r: Option<&Vec<Json>>)
        ensures
            match r {
                Some(v) => self.items_at(key@) == Some(v@),
                None => self.items_at(key@) is None,
            },
    {
        match self.get(key) {
            Some(j) => j.as_array(),
            None => None,
        }
    }
}

} // verus!
