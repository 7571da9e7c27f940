//! The token record.
use std::ops::Range;
use vstd::prelude::*;

use crate::kind::Kind;

verus! {

/// The decoded value of a token.
#[derive(Debug, PartialEq, Eq)]
pub enum TokenValue {
    /// Punctuation, trivia and sentinels carry no value.
    Empty,
    /// The decoded text of an identifier, a variable or a string.
    String(String),
    /// The literal text of a number, exactly as it stands in the source.
    Number(String),
}

/// The mathematical value of a [`TokenValue`].
pub enum ValueView {
    Empty,
    String(Seq<char>),
    Number(Seq<char>),
}

impl View for TokenValue {
    type V = ValueView;

    open spec fn view(&self) -> ValueView {
        match self {
            TokenValue::Empty => ValueView::Empty,
            TokenValue::String(text) => ValueView::String(text@),
            TokenValue::Number(text) => ValueView::Number(text@),
        }
    }
}

impl Default for TokenValue {
    fn default() -> (value: TokenValue)
        ensures
            value@ == ValueView::Empty,
    {
        TokenValue::Empty
    }
}

impl Clone for TokenValue {
    fn clone(&self) -> (copy: TokenValue)
        ensures
            copy@ == self@,
    {
        match self {
            TokenValue::Empty => TokenValue::Empty,
            TokenValue::String(text) => TokenValue::String(text.clone()),
            TokenValue::Number(text) => TokenValue::Number(text.clone()),
        }
    }
}

/// One lexical unit of the source text.
#[derive(Debug, PartialEq, Eq)]
pub struct Token {
    /// What the token represents.
    pub kind: Kind,
    /// Byte offset of its first character in the source.
    pub start: usize,
    /// Byte offset just past its last character.
    pub end: usize,
    /// Whether its text held a backslash escape.
    pub escaped: bool,
    /// Its decoded value.
    pub value: TokenValue,
}

/// The mathematical value of a [`Token`].
pub struct TokenView {
    pub kind: Kind,
    pub start: usize,
    pub end: usize,
    pub escaped: bool,
    pub value: ValueView,
}

impl View for Token {
    type V = TokenView;

    open spec fn view(&self) -> TokenView {
        TokenView {
            kind: self.kind,
            start: self.start,
            end: self.end,
            escaped: self.escaped,
            value: self.value@,
        }
    }
}

impl Default for Token {
    fn default() -> (token: Token)
        ensures
            token@ == (TokenView {
                kind: Kind::EOF,
                start: 0,
                end: 0,
                escaped: false,
                value: ValueView::Empty,
            }),
    {
        Token { kind: Kind::EOF, start: 0, end: 0, escaped: false, value: TokenValue::Empty }
    }
}

impl Clone for Token {
    fn clone(&self) -> (copy: Token)
        ensures
            copy@ == self@,
    {
        Token {
            kind: self.kind,
            start: self.start,
            end: self.end,
            escaped: self.escaped,
            value: self.value.clone(),
        }
    }
}

impl Token {
    /// The span of the token: its byte offsets as a range.
    #[must_use]
    pub fn range(&self) -> (span: Range<usize>)
        ensures
            span.start == self.start,
            span.end == self.end,
    {
        self.start..self.end
    }
}

} // verus!
