//! Lexical defects, and the list that collects them during a scan.
use std::ops::Range;
use vstd::prelude::*;

verus! {

/// A half-open range `start..end` of byte offsets into the source text.
pub type Span = Range<usize>;

/// A recoverable defect found in the source text, with the span it was found at.
#[derive(Debug, PartialEq, Eq)]
pub enum Diagnostic {
    Panic(Span),
    UnexpectedEnd(Span),
    ExpectedDigit(Span),
    InvalidCharacter(char, Span),
    InvalidNumber(&'static str, Span),
    UnterminatedBlockComment(Span),
    InvalidUnicodeCodePoint(Span),
    ExpectedIdentifier(Span),
    ExpectedEscapeSequence(Span),
    /// Raised by consumers of the token stream, not by the scanner.
    ExceptedToken,
}

impl Clone for Diagnostic {
    fn clone(&self) -> (copy: Diagnostic)
        ensures
            copy == *self,
    {
        match self {
            Diagnostic::Panic(span) => Diagnostic::Panic(span.start..span.end),
            Diagnostic::UnexpectedEnd(span) => Diagnostic::UnexpectedEnd(span.start..span.end),
            Diagnostic::ExpectedDigit(span) => Diagnostic::ExpectedDigit(span.start..span.end),
            Diagnostic::InvalidCharacter(c, span) => Diagnostic::InvalidCharacter(
                *c,
                span.start..span.end,
            ),
            Diagnostic::InvalidNumber(reason, span) => Diagnostic::InvalidNumber(
                reason,
                span.start..span.end,
            ),
            Diagnostic::UnterminatedBlockComment(span) => Diagnostic::UnterminatedBlockComment(
                span.start..span.end,
            ),
            Diagnostic::InvalidUnicodeCodePoint(span) => Diagnostic::InvalidUnicodeCodePoint(
                span.start..span.end,
            ),
            Diagnostic::ExpectedIdentifier(span) => Diagnostic::ExpectedIdentifier(
                span.start..span.end,
            ),
            Diagnostic::ExpectedEscapeSequence(span) => Diagnostic::ExpectedEscapeSequence(
                span.start..span.end,
            ),
            Diagnostic::ExceptedToken => Diagnostic::ExceptedToken,
        }
    }
}

/// An ordered list of diagnostics that only grows until it is taken apart.
#[derive(Debug)]
pub struct Diagnostics(pub Vec<Diagnostic>);

impl Default for Diagnostics {
    fn default() -> (diagnostics: Diagnostics)
        ensures
            diagnostics@ == Seq::<Diagnostic>::empty(),
    {
        Diagnostics(Vec::new())
    }
}

impl View for Diagnostics {
    type V = Seq<Diagnostic>;

    open spec fn view(&self) -> Seq<Diagnostic> {
        self.0@
    }
}

impl Diagnostics {
    /// An empty list.
    pub fn new() -> (diagnostics: Diagnostics)
        ensures
            diagnostics@ == Seq::<Diagnostic>::empty(),
    {
        Diagnostics(Vec::new())
    }

    /// Appends `diagnostic`; the entries that were there stay as they are.
    pub fn push(&mut self, diagnostic: Diagnostic)
        ensures
            final(self)@ == old(self)@.push(diagnostic),
    {
        self.0.push(diagnostic);
    }

    /// The number of diagnostics collected so far.
    pub fn len(&self) -> (n: usize)
        ensures
            n == self@.len(),
    {
        self.0.len()
    }

    /// Whether nothing has been collected.
    pub fn is_empty(&self) -> (b: bool)
        ensures
            b == (self@.len() == 0),
    {
        self.0.len() == 0
    }

    /// Takes the list apart: hands out the diagnostics in the order in which
    /// they were raised. The list is consumed by this.
    #[must_use]
    pub fn into_inner(self) -> (list: Vec<Diagnostic>)
        ensures
            list@ == self@,
    {
        self.0
    }
}

} // verus!
