//! One unit of pipeline data: text, or an integer produced by the range
//! generator. Every stage reads an item through its text; an integer's text
//! is its decimal rendering.

use vstd::prelude::*;

use crate::chars::{dec_of_int, int_to_string};

verus! {

/// A pipeline item.
#[derive(Debug, Clone, PartialEq, Eq)]
pub enum Item {
    Text(String),
    Int(i64),
}

impl Item {
    /// The characters every stage sees when it reads this item.
    pub open spec fn text_view(self) -> Seq<char> {
        match self {
            Item::Text(s) => s@,
            Item::Int(i) => dec_of_int(i as int),
        }
    }

    /// The item's text, consuming the item.
    pub fn into_text(self) -> (r: String)
        ensures
            r@ == self.text_view(),
    {
        match self {
            Item::Text(s) => s,
            Item::Int(i) => int_to_string(i),
        }
    }

    /// A copy carrying the same text.
    pub fn duplicate(&self) -> (r: Item)
        ensures
            r.text_view() == self.text_view(),
    {
        match self {
            Item::Text(s) => Item::Text(s.clone()),
            Item::Int(i) => Item::Int(*i),
        }
    }

    /// The item's text, leaving the item in place.
    pub fn to_text(&self) -> (r: String)
        ensures
            r@ == self.text_view(),
    {
        match self {
            Item::Text(s) => s.clone(),
            Item::Int(i) => int_to_string(*i),
        }
    }
}

/// The texts of a whole sequence of items.
pub open spec fn texts_of(items: Seq<Item>) -> Seq<Seq<char>> {
    items.map_values(|it: Item| it.text_view())
}

} // verus!
