//! A JSON document as a tree of plain values, and the lookups that the
//! pipeline makes in it.

use crate::quantity::Quantity;
use crate::text::{opt_view, same};
use vstd::prelude::*;

verus! {

/// A JSON number: an integer that is not negative, a negative integer, or a
/// number with a fraction or an exponent.
#[derive(Debug, Clone, Copy)]
pub enum Number {
    Natural(u64),
    Negative(i64),
    Fraction(Quantity),
}

/// A JSON value. An object holds its members by name, each name once.
#[derive(Debug)]
pub enum Json {
    Null,
    Bool(bool),
    Number(Number),
    Text(String),
    Array(Vec<Json>),
    Object(Vec<(String, Json)>),
}

/// The first member named `key` at or after position `from`.
pub open spec fn member_from<'a>(
    members: Seq<(String, Json)>,
    key: Seq<char>,
    from: int,
) -> Option<&'a Json>
    decreases members.len() - from,
{
    if from < 0 || from >= members.len() {
        None
    } else if members[from].0@ == key {
        Some(&members[from].1)
    } else {
        member_from(members, key, from + 1)
    }
}

impl Json {
    /// The member named `key`; none if there is no such member or the value
    /// is no object.
    pub open spec fn field(&self, key: Seq<char>) -> Option<&Json> {
        match self {
            Json::Object(members) => member_from(members@, key, 0),
            _ => None,
        }
    }

    /// The text, if the value is one.
    pub open spec fn text(&self) -> Option<Seq<char>> {
        match self {
            Json::Text(s) => Some(s@),
            _ => None,
        }
    }

    /// The number, if the value is an integer in the range of `u64`.
    pub open spec fn natural(&self) -> Option<u64> {
        match self {
            Json::Number(Number::Natural(n)) => Some(*n),
            _ => None,
        }
    }

    /// The number, if the value is an integer in the range of `i64`.
    pub open spec fn integer(&self) -> Option<i64> {
        match self {
            Json::Number(Number::Natural(n)) => if *n <= i64::MAX {
                Some(*n as i64)
            } else {
                None
            },
            Json::Number(Number::Negative(n)) => Some(*n),
            _ => None,
        }
    }

    /// The truth value, if the value is one.
    pub open spec fn boolean(&self) -> Option<bool> {
        match self {
            Json::Bool(b) => Some(*b),
            _ => None,
        }
    }

    /// The elements, if the value is an array.
    pub open spec fn elements(&self) -> Option<Seq<Json>> {
        match self {
            Json::Array(items) => Some(items@),
            _ => None,
        }
    }

    pub open spec fn text_at(&self, key: Seq<char>) -> Option<Seq<char>> {
        match self.field(key) {
            Some(v) => v.text(),
            None => None,
        }
    }

    pub open spec fn natural_at(&self, key: Seq<char>) -> Option<u64> {
        match self.field(key) {
            Some(v) => v.natural(),
            None => None,
        }
    }

    pub open spec fn integer_at(&self, key: Seq<char>) -> Option<i64> {
        match self.field(key) {
            Some(v) => v.integer(),
            None => None,
        }
    }

    pub open spec fn boolean_at(&self, key: Seq<char>) -> Option<bool> {
        match self.field(key) {
            Some(v) => v.boolean(),
            None => None,
        }
    }

    pub open spec fn elements_at(&self, key: Seq<char>) -> Option<Seq<Json>> {
        match self.field(key) {
            Some(v) => v.elements(),
            None => None,
        }
    }

    /// The member named `key`.
    pub fn get(&self, key: &str) -> (r: Option<&Json>)
        ensures
            r == self.field(key@),
    {
        match self {
            Json::Object(members) => {
                let mut i: usize = 0;
                while i < members.len()
                    invariant
                        i <= members@.len(),
                        member_from(members@, key@, i as int) == self.field(key@),
                    decreases members@.len() - i,
                {
                    if same(members[i].0.as_str(), key) {
                        return Some(&members[i].1);
                    }
                    i = i + 1;
                }
                None
            },
            _ => None,
        }
    }

    /// The text, if the value is one.
    pub fn as_text(&self) -> (r: Option<String>)
        ensures
            opt_view(r) == self.text(),
    {
        match self {
            Json::Text(s) => Some(s.clone()),
            _ => None,
        }
    }

    /// The number, if the value is an integer in the range of `u64`.
    pub fn as_natural(&self) -> (r: Option<u64>)
        ensures
            r == self.natural(),
    {
        match self {
            Json::Number(Number::Natural(n)) => Some(*n),
            _ => None,
        }
    }

    /// The number, if the value is an integer in the range of `i64`.
    pub fn as_integer(&self) -> (r: Option<i64>)
        ensures
            r == self.integer(),
    {
        match self {
            Json::Number(Number::Natural(n)) => if *n <= i64::MAX as u64 {
                Some(*n as i64)
            } else {
                None
            },
            Json::Number(Number::Negative(n)) => Some(*n),
            _ => None,
        }
    }

    /// The text of the member named `key`.
    pub fn get_text(&self, key: &str) -> (r: Option<String>)
        ensures
            opt_view(r) == self.text_at(key@),
    {
        match self.get(key) {
            Some(v) => v.as_text(),
            None => None,
        }
    }

    /// The text of the member named `key`, or `default`.
    pub fn get_text_or(&self, key: &str, default: &str) -> (r: String)
        ensures
            r@ == self.text_at(key@).unwrap_or(default@),
    {
        match self.get_text(key) {
            Some(s) => s,
            None => default.to_owned(),
        }
    }

    /// Whether the member named `key` is a text.
    pub fn has_text(&self, key: &str) -> (r: bool)
        ensures
            r == self.text_at(key@) is Some,
    {
        match self.get(key) {
            Some(Json::Text(_)) => true,
            _ => false,
        }
    }

    /// The member named `key` as an integer that is not negative.
    pub fn get_natural(&self, key: &str) -> (r: Option<u64>)
        ensures
            r == self.natural_at(key@),
    {
        match self.get(key) {
            Some(v) => v.as_natural(),
            None => None,
        }
    }

    /// The member named `key` as an integer.
    pub fn get_integer(&self, key: &str) -> (r: Option<i64>)
        ensures
            r == self.integer_at(key@),
    {
        match self.get(key) {
            Some(v) => v.as_integer(),
            None => None,
        }
    }

    /// The member named `key` as a truth value.
    pub fn get_boolean(&self, key: &str) -> (r: Option<bool>)
        ensures
            r == self.boolean_at(key@),
    {
        match self.get(key) {
            Some(Json::Bool(b)) => Some(*b),
            _ => None,
        }
    }

    /// The elements of the member named `key`.
    pub fn get_array(&self, key: &str) -> (r: Option<&Vec<Json>>)
        ensures
            match r {
                Some(items) => self.elements_at(key@) == Some(items@),
                None => self.elements_at(key@) is None,
            },
    {
        match self.get(key) {
            Some(Json::Array(items)) => Some(items),
            _ => None,
        }
    }
}

/// The texts among `items` from position `from` on, in order.
pub open spec fn texts_from(items: Seq<Json>, from: int) -> Seq<Seq<char>>
    decreases items.len() - from,
{
    if from < 0 || from >= items.len() {
        Seq::empty()
    } else {
        match items[from].text() {
            Some(s) => seq![s] + texts_from(items, from + 1),
            None => texts_from(items, from + 1),
        }
    }
}

/// The texts among `items`, in order.
pub fn texts_of(items: &Vec<Json>) -> (r: Vec<String>)
    ensures
        crate::text::views(r@) == texts_from(items@, 0),
{
    broadcast use crate::text::lemma_views_push;

    let mut out: Vec<String> = Vec::new();
    let mut i: usize = 0;
    assert(crate::text::views(out@) + texts_from(items@, 0) =~= texts_from(items@, 0));
    while i < items.len()
        invariant
            i <= items@.len(),
            crate::text::views(out@) + texts_from(items@, i as int) == texts_from(items@, 0),
        decreases items@.len() - i,
    {
        let ghost before = crate::text::views(out@);
        match items[i].as_text() {
            Some(s) => {
                out.push(s);
                assert(before + (seq![s@] + texts_from(items@, i + 1)) =~= crate::text::views(out@)
                    + texts_from(items@, i + 1));
            },
            None => {},
        }
        i = i + 1;
    }
    assert(crate::text::views(out@) =~= texts_from(items@, 0));
    out
}

} // verus!
