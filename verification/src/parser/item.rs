//! The items of the scanner: a token or text with its kind and position.
use vstd::prelude::*;

use crate::util::text::{append_str, str_to_string};

verus! {

/// A token or text returned from the scanner.
#[derive(Debug)]
pub struct Item {
    /// The kind of the item.
    typ: ItemType,
    /// The byte offset of the item in the input.
    pos: i32,
    /// The text of the item.
    val: String,
}

impl View for Item {
    /// The kind, the byte offset and the text of the item.
    type V = (ItemType, i32, Seq<char>);

    closed spec fn view(&self) -> (ItemType, i32, Seq<char>) {
        (self.typ, self.pos, self.val@)
    }
}

impl Item {
    pub fn new(typ: ItemType, pos: i32, val: String) -> (i: Item)
        ensures
            i@ == (typ, pos, val@),
    {
        Item { typ, pos, val }
    }

    /// `item ` followed by the text of the item.
    pub fn to_string(&self) -> (s: String)
        ensures
            s@ == "item "@ + self@.2,
    {
        let mut s = str_to_string("item ");
        append_str(&mut s, self.val.as_str());
        s
    }
}

#[derive(Debug, Clone, Copy, PartialEq, Eq, Structural)]
pub enum ItemType {
    TokenItemType,
    OperatorItemType,
    AggregatorItemType,
    KeywordItemType,
    PreprocessorsItemType,
}

#[derive(Debug, Clone, Copy, PartialEq, Eq, Structural)]
pub enum TokenItemType {
    Eql,
    Blank,
    Colon,
    Comma,
    Comment,
    Duration,
    Eof,
    Error,
    Identifier,
    LeftBrace,
    LeftBracket,
    LeftParen,
    MetricIdentifier,
    Number,
    RightBrace,
    RightBracket,
    RightParen,
    Semicolon,
    Space,
    String,
    Times,
}

#[derive(Debug, Clone, Copy, PartialEq, Eq, Structural)]
pub enum OperatorItemType {
    Add,
    Div,
    Eqlc,
    EqlRegex,
    Gte,
    Gtr,
    Land,
    Lor,
    Lss,
    Lte,
    Lunless,
    Mod,
    Mul,
    Neq,
    NeqRegex,
    Pow,
    Sub,
    At,
    Atan2,
}

#[derive(Debug, Clone, Copy, PartialEq, Eq, Structural)]
pub enum AggregatorItemType {
    Avg,
    Bottomk,
    Count,
    CountValues,
    Group,
    Max,
    Min,
    Quantile,
    Stddev,
    Stdvar,
    Sum,
    Topk,
}

#[derive(Debug, Clone, Copy, PartialEq, Eq, Structural)]
pub enum KeywordItemType {
    Bool,
    By,
    GroupLeft,
    GroupRight,
    Ignoring,
    Offset,
    On,
    Without,
}

#[derive(Debug, Clone, Copy, PartialEq, Eq, Structural)]
pub enum PreprocessorsItemType {
    Start,
    End,
}

} // verus!
