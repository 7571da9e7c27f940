//! The scanner: a cursor over the source that hands out one token per call.
use std::borrow::Cow;
use vstd::prelude::*;
use vstd::string::*;
use vstd::utf8::encode_utf8;

use crate::definitions::{
    is_dight, is_hex_digit, is_ident, is_ident_start, is_newline, is_whitespace, EOF_CHAR,
};
use crate::diagnostics::{Diagnostic, Diagnostics, Span};
use crate::grammar;
use crate::grammar::{
    bang_token, block_comment, block_comment_end, char_at, digit, digits, dollar_token,
    dot_token, escape_at, escape_errors, exponent, fraction, gt_token, hex_digit,
    hex_digit_value, hex_end, hex_value, ident_escape, ident_name, lemma_escape_at, lower_hex,
    lt_token, minus_token, number, run_end, span, string_body, string_escape, string_token,
    token_at, whitespace, within_line, Escape, Lexeme,
};
use crate::kind::Kind;
use crate::source_type::SourceType;
use crate::stream::{
    lemma_byte_spans_cover, lemma_spans_cover, lemma_stream_ends_with_eof, lemma_token_advances,
    stream_errors, token_stream,
};
use crate::string_builder::AutoCow;
use crate::token::{Token, TokenValue, TokenView, ValueView};
use crate::utf8::{
    byte_offset, chars_of, len_utf8, lemma_byte_offset_end, lemma_byte_offset_monotone,
    lemma_byte_offset_step, lemma_byte_offset_zero, substring,
};

verus! {

/// The state of the cursor: how far the scan has come, and the token in
/// progress. It can be copied out of a [`Lexer`] and put back later, which
/// takes the scan back to where the copy was made.
#[derive(Debug)]
pub struct LexerCheckpoint {
    /// Character position of the cursor.
    pos: usize,
    /// Byte offset of the cursor.
    offset: usize,
    /// The token in progress.
    token: Token,
}

impl LexerCheckpoint {
    /// The character position of the cursor.
    pub closed spec fn position(&self) -> int {
        self.pos as int
    }

    /// The token in progress.
    pub closed spec fn token(&self) -> TokenView {
        self.token@
    }

    /// Whether this is a state of a cursor over `source`: the cursor stands
    /// within the source, at the byte offset of its character position.
    pub closed spec fn wf(&self, source: Seq<char>) -> bool {
        &&& self.pos <= source.len()
        &&& self.offset == byte_offset(source, self.pos as int)
    }
}

impl Clone for LexerCheckpoint {
    fn clone(&self) -> (copy: LexerCheckpoint)
        ensures
            copy.position() == self.position(),
            copy.token() == self.token(),
            forall|source: Seq<char>| self.wf(source) <==> copy.wf(source),
    {
        LexerCheckpoint { pos: self.pos, offset: self.offset, token: self.token.clone() }
    }
}

/// A scanner over one source text.
pub struct Lexer<'a> {
    /// The source text.
    source: &'a str,
    /// The characters of the source text.
    chars: Vec<char>,
    /// The dialect of the source text.
    source_type: SourceType,
    /// The cursor.
    pub current: LexerCheckpoint,
    /// The diagnostics raised so far.
    errors: Diagnostics,
}

/// Whether `builder` is what `before` becomes by appending `text` while the
/// cursor of the scanner moves to `pos`; `escaped` says whether an escape was
/// met on the way.
spec fn appended<'a>(
    builder: &AutoCow<'a>,
    before: &AutoCow<'a>,
    text: Seq<char>,
    escaped: bool,
    pos: int,
) -> bool {
    &&& builder.wf()
    &&& builder.source() == before.source()
    &&& builder.anchor() == before.anchor()
    &&& builder@ == before@ + text
    &&& builder.has_escape() == (before.has_escape() || escaped)
    &&& !builder.has_escape() ==> builder.cursor() == pos
}

/// `char::from_u32` gives the character with the code point `i`, and nothing
/// where `i` is a surrogate or lies beyond U+10FFFF.
pub assume_specification[ char::from_u32 ](i: u32) -> (c: Option<char>)
    ensures
        i <= 0xd7ff || 0xe000 <= i <= 0x10ffff ==> c == Some(i as char),
        !(i <= 0xd7ff || 0xe000 <= i <= 0x10ffff) ==> c is None,
;

/// The value of the hex digit `c`.
fn hex_digit_of(c: char) -> (value: u32)
    requires
        is_hex_digit(c),
    ensures
        value == hex_digit_value(c),
        value < 16,
{
    if '0' <= c && c <= '9' {
        c as u32 - '0' as u32
    } else if 'a' <= c && c <= 'f' {
        c as u32 - 'a' as u32 + 10
    } else {
        c as u32 - 'A' as u32 + 10
    }
}

/// The lower-case hex digit for `d`.
fn hex_char(d: u32) -> (c: char)
    requires
        d < 16,
    ensures
        c == hex_digit(d as nat),
{
    if d < 10 {
        (48 + d as u8) as char
    } else {
        (87 + d as u8) as char
    }
}

/// Appending one text after another appends their concatenation.
proof fn lemma_appended_twice<'a>(
    last: &AutoCow<'a>,
    mid: &AutoCow<'a>,
    first: &AutoCow<'a>,
    t1: Seq<char>,
    e1: bool,
    at1: int,
    t2: Seq<char>,
    e2: bool,
    at2: int,
)
    requires
        appended(mid, first, t1, e1, at1),
        appended(last, mid, t2, e2, at2),
    ensures
        appended(last, first, t1 + t2, e1 || e2, at2),
{
    assert(first@ + t1 + t2 =~= first@ + (t1 + t2));
}

impl<'a> Lexer<'a> {
    /// The characters of the source text.
    pub closed spec fn source(&self) -> Seq<char> {
        self.source@
    }

    /// The dialect that the scan runs under.
    pub closed spec fn source_type(&self) -> SourceType {
        self.source_type
    }

    /// The character position of the cursor.
    pub closed spec fn position(&self) -> int {
        self.current.position()
    }

    /// The token in progress.
    pub closed spec fn token_in_progress(&self) -> TokenView {
        self.current.token()
    }

    /// The diagnostics raised so far, in the order in which they were raised.
    pub closed spec fn diagnostics(&self) -> Seq<Diagnostic> {
        self.errors@
    }

    /// The invariant of the scanner: its cursor is a cursor over its source.
    pub closed spec fn wf(&self) -> bool {
        &&& self.chars@ == self.source@
        &&& encode_utf8(self.source@).len() <= usize::MAX
        &&& self.current.wf(self.source@)
    }

    /// Whether `self` scans the same source under the same dialect as `old`.
    pub closed spec fn same_input(&self, old: &Lexer<'a>) -> bool {
        &&& self.source@ == old.source@
        &&& self.chars@ == old.chars@
        &&& self.source_type == old.source_type
    }

    /// Whether `self` is what `old` becomes by moving the cursor to position
    /// `end` and raising `errors`; the token in progress stays as it is.
    spec fn scanned(&self, old: &Lexer<'a>, end: int, errors: Seq<Diagnostic>) -> bool {
        &&& self.wf()
        &&& self.same_input(old)
        &&& self.current.token@ == old.current.token@
        &&& old.current.pos <= end == self.current.pos
        &&& self.errors@ == old.errors@ + errors
    }

    /// Whether `builder` reads from the source of this scanner and, while it
    /// borrows, has matched the source up to the cursor.
    spec fn in_step(&self, builder: &AutoCow<'a>) -> bool {
        &&& builder.wf()
        &&& builder.source() == self.source@
        &&& !builder.has_escape() ==> builder.cursor() == self.current.pos
    }

    /// Whether the token in progress starts at character position `start`.
    spec fn token_from(&self, start: int) -> bool {
        &&& 0 <= start <= self.current.pos
        &&& self.current.token.start == byte_offset(self.source@, start)
    }

    /// Whether the token in progress holds nothing yet.
    spec fn fresh_token(&self) -> bool {
        &&& !self.current.token.escaped
        &&& self.current.token.value@ == ValueView::Empty
    }

    /// Whether `self` is what `old` becomes by scanning the token `t` to its
    /// end: the cursor stands at the end of `t`, the diagnostics of `t` are
    /// raised, and the token in progress holds what `t` holds.
    spec fn lexed(&self, old: &Lexer<'a>, kind: Kind, t: Lexeme) -> bool {
        &&& self.wf()
        &&& self.same_input(old)
        &&& self.current.token.start == old.current.token.start
        &&& old.current.pos <= t.end == self.current.pos
        &&& self.errors@ == old.errors@ + t.errors
        &&& kind == t.kind
        &&& self.current.token.escaped == t.escaped
        &&& self.current.token.value@ == t.value
    }

    /// Two moves of the cursor, one after the other, make one move that raises
    /// the diagnostics of both.
    proof fn lemma_scanned_twice(
        &self,
        mid: &Lexer<'a>,
        first: &Lexer<'a>,
        at1: int,
        e1: Seq<Diagnostic>,
        at2: int,
        e2: Seq<Diagnostic>,
    )
        requires
            mid.scanned(first, at1, e1),
            self.scanned(mid, at2, e2),
        ensures
            self.scanned(first, at2, e1 + e2),
    {
        assert(first.errors@ + e1 + e2 =~= first.errors@ + (e1 + e2));
    }

    /// A scanner at the start of `source`, which appends its diagnostics to
    /// `errors`.
    pub fn new(source: &'a str, errors: Diagnostics, source_type: SourceType) -> (lexer: Lexer<'a>)
        ensures
            lexer.wf(),
            lexer.source() == source@,
            lexer.source_type() == source_type,
            lexer.position() == 0,
            lexer.diagnostics() == errors@,
    {
        let chars = chars_of(source);
        let bytes = source.as_bytes();
        let _ = bytes.len();
        proof {
            lemma_byte_offset_zero(source@);
        }
        Lexer {
            source,
            chars,
            source_type,
            current: LexerCheckpoint { pos: 0, offset: 0, token: Token::default() },
            errors,
        }
    }

    /// The part of the source that has not been scanned yet.
    pub fn remaining(&self) -> (rest: &'a str)
        requires
            self.wf(),
        ensures
            rest@ == self.source().skip(self.position()),
    {
        proof {
            lemma_byte_offset_end(self.source@);
        }
        substring(
            self.source,
            self.current.offset,
            self.source.len(),
            Ghost(self.current.pos as int),
            Ghost(self.source@.len() as int),
        )
    }

    /// The diagnostics raised so far.
    pub fn errors(&self) -> (errors: &Diagnostics)
        ensures
            errors@ == self.diagnostics(),
    {
        &self.errors
    }

    /// Ends the scan and hands out the diagnostics it raised.
    pub fn into_errors(self) -> (errors: Diagnostics)
        ensures
            errors@ == self.diagnostics(),
    {
        self.errors
    }

    /// A copy of the cursor, to come back to with [`Lexer::rewind`].
    pub fn checkpoint(&self) -> (checkpoint: LexerCheckpoint)
        requires
            self.wf(),
        ensures
            checkpoint.wf(self.source()),
            checkpoint.position() == self.position(),
            checkpoint.token() == self.token_in_progress(),
    {
        self.current.clone()
    }

    /// Whether `checkpoint` is a state of a cursor over the source of this
    /// scanner, so that [`Lexer::rewind`] may take it.
    pub fn accepts(&self, checkpoint: &LexerCheckpoint) -> (b: bool)
        requires
            self.wf(),
        ensures
            b == checkpoint.wf(self.source()),
    {
        if checkpoint.pos > self.chars.len() {
            return false;
        }
        let ghost s = self.source@;
        let mut offset: usize = 0;
        let mut i: usize = 0;
        proof {
            lemma_byte_offset_zero(s);
        }
        while i < checkpoint.pos
            invariant
                self.wf(),
                s == self.source@,
                i <= checkpoint.pos <= self.chars.len(),
                offset == byte_offset(s, i as int),
            decreases checkpoint.pos - i,
        {
            proof {
                lemma_byte_offset_step(s, i as int);
                lemma_byte_offset_monotone(s, i + 1, s.len() as int);
                lemma_byte_offset_end(s);
            }
            offset = offset + len_utf8(self.chars[i]);
            i += 1;
        }
        offset == checkpoint.offset
    }

    /// Takes the scan back to `checkpoint`. The diagnostics raised since stay.
    pub fn rewind(&mut self, checkpoint: LexerCheckpoint)
        requires
            old(self).wf(),
            checkpoint.wf(old(self).source()),
        ensures
            final(self).wf(),
            final(self).same_input(old(self)),
            final(self).source() == old(self).source(),
            final(self).source_type() == old(self).source_type(),
            final(self).position() == checkpoint.position(),
            final(self).token_in_progress() == checkpoint.token(),
            final(self).diagnostics() == old(self).diagnostics(),
    {
        self.current = checkpoint;
    }

    /// The cursor stands within the source, whose encoding has a length that
    /// fits the machine.
    pub proof fn lemma_cursor_within_source(&self)
        requires
            self.wf(),
        ensures
            0 <= self.position() <= self.source().len(),
            encode_utf8(self.source()).len() <= usize::MAX,
    {
    }

    /// The source text.
    pub fn source_text(&self) -> (source: &'a str)
        ensures
            source@ == self.source(),
    {
        self.source
    }

    /// Records that the literal of a numeric token, found at `span`, does not
    /// read as a number; `reason` says why.
    pub fn invalid_number(&mut self, reason: &'static str, span: Span)
        requires
            old(self).wf(),
        ensures
            final(self).wf(),
            final(self).same_input(old(self)),
            final(self).source() == old(self).source(),
            final(self).source_type() == old(self).source_type(),
            final(self).position() == old(self).position(),
            final(self).diagnostics() == old(self).diagnostics().push(
                Diagnostic::InvalidNumber(reason, span),
            ),
    {
        self.errors.push(Diagnostic::InvalidNumber(reason, span));
    }

    fn is_eof(&self) -> (b: bool)
        requires
            self.wf(),
        ensures
            b == (self.current.pos >= self.source@.len()),
    {
        self.current.pos >= self.chars.len()
    }

    /// The byte offset of the cursor.
    #[inline]
    pub fn offset(&self) -> (offset: usize)
        requires
            self.wf(),
        ensures
            offset == byte_offset(self.source(), self.position()),
    {
        self.current.offset
    }

    #[inline]
    fn peek(&self) -> (c: char)
        requires
            self.wf(),
        ensures
            c == char_at(self.source@, self.current.pos as int),
    {
        self.nth_char(0)
    }

    fn nth_char(&self, n: usize) -> (c: char)
        requires
            self.wf(),
        ensures
            c == char_at(self.source@, self.current.pos + n),
    {
        if n < self.chars.len() - self.current.pos {
            self.chars[self.current.pos + n]
        } else {
            EOF_CHAR
        }
    }

    fn bump(&mut self) -> (c: Option<char>)
        requires
            old(self).wf(),
        ensures
            old(self).current.pos < old(self).source@.len() ==> {
                &&& c == Some(old(self).source@[old(self).current.pos as int])
                &&& final(self).scanned(old(self), old(self).current.pos + 1, Seq::empty())
            },
            old(self).current.pos >= old(self).source@.len() ==> {
                &&& c.is_none()
                &&& final(self).scanned(old(self), old(self).current.pos as int, Seq::empty())
            },
    {
        if self.current.pos < self.chars.len() {
            let c = self.chars[self.current.pos];
            proof {
                lemma_byte_offset_step(self.source@, self.current.pos as int);
                lemma_byte_offset_monotone(
                    self.source@,
                    self.current.pos + 1,
                    self.source@.len() as int,
                );
                lemma_byte_offset_end(self.source@);
            }
            self.current.pos = self.current.pos + 1;
            self.current.offset = self.current.offset + len_utf8(c);
            Some(c)
        } else {
            None
        }
    }

    #[inline]
    fn next_eq(&mut self, c: char) -> (eq: bool)
        requires
            old(self).wf(),
            c != EOF_CHAR,
        ensures
            eq == (char_at(old(self).source@, old(self).current.pos as int) == c),
            final(self).scanned(
                old(self),
                if eq {
                    old(self).current.pos + 1
                } else {
                    old(self).current.pos as int
                },
                Seq::empty(),
            ),
    {
        let eq = self.peek() == c;
        if eq {
            self.bump();
        }
        eq
    }

    fn unterminated_range(&self, Ghost(start): Ghost<int>) -> (range: Span)
        requires
            self.wf(),
            self.current.token.start == byte_offset(self.source@, start),
        ensures
            range == span(self.source@, start, self.current.pos as int),
    {
        self.current.token.start..self.offset()
    }

    fn error(&mut self, error: Diagnostic)
        requires
            old(self).wf(),
        ensures
            final(self).scanned(old(self), old(self).current.pos as int, seq![error]),
    {
        self.errors.push(error);
        assert(self.errors@ =~= old(self).errors@ + seq![error]);
    }

    fn current_offset(&self) -> (range: Span)
        requires
            self.wf(),
        ensures
            range == span(self.source@, self.current.pos as int, self.current.pos as int),
    {
        self.offset()..self.offset()
    }

    fn unexpected_err(&mut self)
        requires
            old(self).wf(),
        ensures
            final(self).scanned(
                old(self),
                old(self).current.pos as int,
                seq![
                    if char_at(old(self).source@, old(self).current.pos as int) == EOF_CHAR {
                        Diagnostic::UnexpectedEnd(
                            span(
                                old(self).source@,
                                old(self).current.pos as int,
                                old(self).current.pos as int,
                            ),
                        )
                    } else {
                        Diagnostic::InvalidCharacter(
                            char_at(old(self).source@, old(self).current.pos as int),
                            span(
                                old(self).source@,
                                old(self).current.pos as int,
                                old(self).current.pos as int,
                            ),
                        )
                    },
                ],
            ),
    {
        let c = self.peek();
        let error = if c == EOF_CHAR {
            Diagnostic::UnexpectedEnd(self.current_offset())
        } else {
            Diagnostic::InvalidCharacter(c, self.current_offset())
        };
        self.error(error)
    }
}

impl<'a> Lexer<'a> {
    /// Moves the cursor over the longest run of characters that `predicate`
    /// accepts.
    fn eat_while(
        &mut self,
        predicate: impl Fn(char) -> bool,
        Ghost(class): Ghost<spec_fn(char) -> bool>,
    )
        requires
            old(self).wf(),
            forall|c: char| call_requires(predicate, (c,)),
            forall|c: char, b: bool| call_ensures(predicate, (c,), b) ==> b == class(c),
        ensures
            final(self).scanned(
                old(self),
                run_end(old(self).source@, old(self).current.pos as int, class),
                Seq::empty(),
            ),
    {
        loop
            invariant_except_break
                self.wf(),
                self.same_input(old(self)),
                self.current.token@ == old(self).current.token@,
                self.errors@ == old(self).errors@,
                old(self).current.pos <= self.current.pos,
                run_end(old(self).source@, old(self).current.pos as int, class) == run_end(
                    self.source@,
                    self.current.pos as int,
                    class,
                ),
                forall|c: char| call_requires(predicate, (c,)),
                forall|c: char, b: bool| call_ensures(predicate, (c,), b) ==> b == class(c),
            ensures
                self.scanned(
                    old(self),
                    run_end(old(self).source@, old(self).current.pos as int, class),
                    Seq::empty(),
                ),
            decreases self.source@.len() - self.current.pos,
        {
            let accepted = predicate(self.peek()) && !self.is_eof();
            if !accepted {
                break;
            }
            self.bump();
        }
    }

    fn read_line_comment(&mut self) -> (kind: Kind)
        requires
            old(self).wf(),
            char_at(old(self).source@, old(self).current.pos - 1) == '/',
            char_at(old(self).source@, old(self).current.pos as int) == '/',
        ensures
            kind == Kind::LineComment,
            final(self).scanned(
                old(self),
                run_end(old(self).source@, old(self).current.pos + 1, within_line()),
                Seq::empty(),
            ),
    {
        self.bump();
        let within = |c: char| -> (b: bool)
            ensures
                b == !is_newline(c),
            {
                !is_newline(c)
            };
        self.eat_while(within, Ghost(within_line()));
        Kind::LineComment
    }

    fn read_block_comment(&mut self, Ghost(start): Ghost<int>) -> (kind: Kind)
        requires
            old(self).wf(),
            old(self).token_from(start),
            start + 1 == old(self).current.pos,
            char_at(old(self).source@, start) == '/',
            char_at(old(self).source@, start + 1) == '*',
        ensures
            kind == block_comment(old(self).source@, start).kind,
            final(self).scanned(
                old(self),
                block_comment(old(self).source@, start).end,
                block_comment(old(self).source@, start).errors,
            ),
    {
        self.bump();
        let ghost s = self.source@;
        // Comments nest: every `/*` inside opens one more level.
        let mut depth: usize = 1;
        loop
            invariant_except_break
                self.wf(),
                self.same_input(old(self)),
                self.current.token@ == old(self).current.token@,
                self.errors@ == old(self).errors@,
                s == self.source@,
                start + 2 <= self.current.pos,
                1 <= depth < self.current.pos,
                block_comment_end(s, start + 2, 1) == block_comment_end(
                    s,
                    self.current.pos as int,
                    depth as nat,
                ),
            ensures
                self.wf(),
                self.same_input(old(self)),
                self.current.token@ == old(self).current.token@,
                self.errors@ == old(self).errors@,
                s == self.source@,
                start + 2 <= self.current.pos,
                block_comment_end(s, start + 2, 1) == (self.current.pos as int, depth == 0),
            decreases self.source@.len() - self.current.pos,
        {
            match self.bump() {
                None => {
                    break ;
                },
                Some(c) => {
                    if c == '/' {
                        if self.next_eq('*') {
                            depth += 1;
                        }
                    } else if c == '*' {
                        if self.next_eq('/') {
                            depth -= 1;
                            if depth == 0 {
                                assert(block_comment_end(s, self.current.pos as int, 0) == (
                                    self.current.pos as int,
                                    true,
                                ));
                                break ;
                            }
                        }
                    }
                },
            }
        }

        if depth != 0 {
            let range = self.unterminated_range(Ghost(start));
            self.error(Diagnostic::UnterminatedBlockComment(range));
            return Kind::EOF;
        }
        Kind::BlockComment
    }

    fn read_whitespace(&mut self) -> (kind: Kind)
        requires
            old(self).wf(),
            is_whitespace(char_at(old(self).source@, old(self).current.pos - 1)),
        ensures
            kind == Kind::Whitespace,
            final(self).scanned(
                old(self),
                run_end(old(self).source@, old(self).current.pos as int, whitespace()),
                Seq::empty(),
            ),
    {
        self.eat_while(is_whitespace, Ghost(whitespace()));
        Kind::Whitespace
    }

    fn read_digit(&mut self, builder: &mut AutoCow<'a>) -> (kind: Kind)
        requires
            old(self).wf(),
            old(self).in_step(old(builder)),
            !old(builder).has_escape(),
        ensures
            kind == (if number(old(self).source@, old(self).current.pos as int).float {
                Kind::Float
            } else {
                Kind::Number
            }),
            final(self).scanned(
                old(self),
                number(old(self).source@, old(self).current.pos as int).end,
                number(old(self).source@, old(self).current.pos as int).errors,
            ),
            appended(
                final(builder),
                old(builder),
                old(self).source@.subrange(
                    old(self).current.pos as int,
                    number(old(self).source@, old(self).current.pos as int).end,
                ),
                false,
                number(old(self).source@, old(self).current.pos as int).end,
            ),
    {
        let ghost s = self.source@;
        let ghost p = self.current.pos as int;
        self.read_digits_possible(builder);
        let ghost j = self.current.pos as int;
        let ghost l1 = *self;
        let ghost b1 = *builder;
        let ghost none = Seq::<Diagnostic>::empty();
        if self.next_eq('.') {
            builder.push_matching('.');
            let ghost l2 = *self;
            let ghost b2 = *builder;
            let kind = self.read_digits_after_point(builder);
            proof {
                let end = self.current.pos as int;
                let f = fraction(s, j + 1);
                l2.lemma_scanned_twice(&l1, old(self), j, none, j + 1, none);
                self.lemma_scanned_twice(&l2, old(self), j + 1, none + none, end, f.errors);
                assert(none + none + f.errors =~= f.errors);
                assert(b2@ =~= b1@ + seq!['.']);
                lemma_appended_twice(&b2, &b1, old(builder), s.subrange(p, j), false, j, seq!['.'], false, j + 1);
                lemma_appended_twice(builder, &b2, old(builder), s.subrange(p, j) + seq!['.'], false, j + 1, s.subrange(j + 1, end), false, end);
                assert(s.subrange(p, j) + seq!['.'] + s.subrange(j + 1, end) =~= s.subrange(p, end));
            }
            return kind;
        }
        let ghost l2 = *self;
        let has_exponent = self.optional_exponent(builder);
        proof {
            let end = self.current.pos as int;
            let e = exponent(s, j);
            l2.lemma_scanned_twice(&l1, old(self), j, none, j, none);
            self.lemma_scanned_twice(&l2, old(self), j, none + none, end, e.errors);
            assert(none + none + e.errors =~= e.errors);
            lemma_appended_twice(builder, &b1, old(builder), s.subrange(p, j), false, j, s.subrange(j, end), false, end);
            assert(s.subrange(p, j) + s.subrange(j, end) =~= s.subrange(p, end));
        }
        self.check_numeric_literal(
            if has_exponent {
                Kind::Float
            } else {
                Kind::Number
            },
        )
    }

    /// Stores the literal text of a numeric token as its value.
    fn set_numeric_value(&mut self, src: Cow<'a, str>)
        requires
            old(self).wf(),
        ensures
            final(self).wf(),
            final(self).same_input(old(self)),
            final(self).current.pos == old(self).current.pos,
            final(self).errors@ == old(self).errors@,
            final(self).current.token.start == old(self).current.token.start,
            final(self).current.token.escaped == old(self).current.token.escaped,
            final(self).current.token.value@ == ValueView::Number(src@),
    {
        self.current.token.value = TokenValue::Number(
            match src {
                Cow::Borrowed(text) => text.to_owned(),
                Cow::Owned(text) => text,
            },
        );
    }

    fn check_numeric_literal(&self, kind: Kind) -> (checked: Kind)
        ensures
            checked == kind,
    {
        kind
    }

    fn read_digits_after_point(&mut self, builder: &mut AutoCow<'a>) -> (kind: Kind)
        requires
            old(self).wf(),
            old(self).in_step(old(builder)),
            !old(builder).has_escape(),
        ensures
            kind == Kind::Float,
            final(self).scanned(
                old(self),
                fraction(old(self).source@, old(self).current.pos as int).end,
                fraction(old(self).source@, old(self).current.pos as int).errors,
            ),
            appended(
                final(builder),
                old(builder),
                old(self).source@.subrange(
                    old(self).current.pos as int,
                    fraction(old(self).source@, old(self).current.pos as int).end,
                ),
                false,
                fraction(old(self).source@, old(self).current.pos as int).end,
            ),
    {
        let ghost s = self.source@;
        let ghost p = self.current.pos as int;
        self.read_digits(builder);
        let ghost j = self.current.pos as int;
        let ghost l1 = *self;
        let ghost b1 = *builder;
        self.optional_exponent(builder);
        proof {
            let end = self.current.pos as int;
            self.lemma_scanned_twice(&l1, old(self), j, digits(s, p).errors, end, exponent(s, j).errors);
            lemma_appended_twice(builder, &b1, old(builder), s.subrange(p, j), false, j, s.subrange(j, end), false, end);
            assert(s.subrange(p, j) + s.subrange(j, end) =~= s.subrange(p, end));
        }
        self.check_numeric_literal(Kind::Float)
    }

    fn read_digits(&mut self, builder: &mut AutoCow<'a>)
        requires
            old(self).wf(),
            old(self).in_step(old(builder)),
            !old(builder).has_escape(),
        ensures
            final(self).scanned(
                old(self),
                digits(old(self).source@, old(self).current.pos as int).end,
                digits(old(self).source@, old(self).current.pos as int).errors,
            ),
            appended(
                final(builder),
                old(builder),
                old(self).source@.subrange(
                    old(self).current.pos as int,
                    digits(old(self).source@, old(self).current.pos as int).end,
                ),
                false,
                digits(old(self).source@, old(self).current.pos as int).end,
            ),
    {
        let ghost s = self.source@;
        let ghost p = self.current.pos as int;
        if is_dight(self.peek()) {
            let c = self.bump().unwrap();
            builder.push_matching(c);
        } else {
            let range = self.current_offset();
            self.error(Diagnostic::ExpectedDigit(range));
            assert(builder@ =~= old(builder)@ + s.subrange(p, p));
            return ;
        }
        self.read_digits_possible(builder);
        proof {
            let end = self.current.pos as int;
            assert(s.subrange(p, p + 1) =~= seq![s[p]]);
            assert(old(builder)@.push(s[p]) + s.subrange(p + 1, end) =~= old(builder)@
                + s.subrange(p, end));
        }
    }

    fn read_digits_possible(&mut self, builder: &mut AutoCow<'a>)
        requires
            old(self).wf(),
            old(self).in_step(old(builder)),
            !old(builder).has_escape(),
        ensures
            final(self).scanned(
                old(self),
                run_end(old(self).source@, old(self).current.pos as int, digit()),
                Seq::empty(),
            ),
            appended(
                final(builder),
                old(builder),
                old(self).source@.subrange(
                    old(self).current.pos as int,
                    run_end(old(self).source@, old(self).current.pos as int, digit()),
                ),
                false,
                run_end(old(self).source@, old(self).current.pos as int, digit()),
            ),
    {
        let ghost s = self.source@;
        let ghost p = self.current.pos as int;
        assert(builder@ =~= old(builder)@ + s.subrange(p, p));
        loop
            invariant_except_break
                self.wf(),
                self.same_input(old(self)),
                self.current.token@ == old(self).current.token@,
                self.errors@ == old(self).errors@,
                s == self.source@,
                p == old(self).current.pos,
                p <= self.current.pos <= s.len(),
                run_end(s, p, digit()) == run_end(s, self.current.pos as int, digit()),
                appended(
                    builder,
                    old(builder),
                    s.subrange(p, self.current.pos as int),
                    false,
                    self.current.pos as int,
                ),
                self.in_step(builder),
                !builder.has_escape(),
            ensures
                self.scanned(old(self), run_end(s, p, digit()), Seq::empty()),
                appended(
                    builder,
                    old(builder),
                    s.subrange(p, run_end(s, p, digit())),
                    false,
                    run_end(s, p, digit()),
                ),
            decreases s.len() - self.current.pos,
        {
            let c = self.peek();
            if is_dight(c) {
                let ghost i = self.current.pos as int;
                self.bump();
                builder.push_matching(c);
                assert(s.subrange(p, i).push(c) =~= s.subrange(p, i + 1));
            } else {
                assert(self.errors@ =~= old(self).errors@ + Seq::<Diagnostic>::empty());
                break ;
            }
        }
    }

    fn optional_exponent(&mut self, builder: &mut AutoCow<'a>) -> (found: bool)
        requires
            old(self).wf(),
            old(self).in_step(old(builder)),
            !old(builder).has_escape(),
        ensures
            found == exponent(old(self).source@, old(self).current.pos as int).float,
            final(self).scanned(
                old(self),
                exponent(old(self).source@, old(self).current.pos as int).end,
                exponent(old(self).source@, old(self).current.pos as int).errors,
            ),
            appended(
                final(builder),
                old(builder),
                old(self).source@.subrange(
                    old(self).current.pos as int,
                    exponent(old(self).source@, old(self).current.pos as int).end,
                ),
                false,
                exponent(old(self).source@, old(self).current.pos as int).end,
            ),
    {
        let ghost s = self.source@;
        let ghost p = self.current.pos as int;
        let c = self.peek();
        if c == 'e' || c == 'E' {
            let c = self.bump().unwrap();
            builder.push_matching(c);
            self.read_exponent(builder);
            proof {
                let end = self.current.pos as int;
                assert(old(builder)@.push(s[p]) + s.subrange(p + 1, end) =~= old(builder)@
                    + s.subrange(p, end));
            }
            return true;
        }
        assert(builder@ =~= old(builder)@ + s.subrange(p, p));
        false
    }

    fn read_exponent(&mut self, builder: &mut AutoCow<'a>) -> (kind: Kind)
        requires
            old(self).wf(),
            old(self).in_step(old(builder)),
            !old(builder).has_escape(),
            char_at(old(self).source@, old(self).current.pos - 1) == 'e' || char_at(
                old(self).source@,
                old(self).current.pos - 1,
            ) == 'E',
        ensures
            kind == Kind::Float,
            final(self).scanned(
                old(self),
                exponent(old(self).source@, old(self).current.pos - 1).end,
                exponent(old(self).source@, old(self).current.pos - 1).errors,
            ),
            appended(
                final(builder),
                old(builder),
                old(self).source@.subrange(
                    old(self).current.pos as int,
                    exponent(old(self).source@, old(self).current.pos - 1).end,
                ),
                false,
                exponent(old(self).source@, old(self).current.pos - 1).end,
            ),
    {
        let ghost s = self.source@;
        let ghost p = self.current.pos as int;
        let ghost none = Seq::<Diagnostic>::empty();
        let c = self.peek();
        if c == '+' || c == '-' {
            self.bump();
            builder.push_matching(c);
            assert(s.subrange(p, p + 1) =~= seq![c]);
            assert(builder@ =~= old(builder)@ + s.subrange(p, p + 1));
        } else {
            assert(builder@ =~= old(builder)@ + s.subrange(p, p));
            assert(self.errors@ =~= old(self).errors@ + none);
        }
        let ghost k = self.current.pos as int;
        let ghost l1 = *self;
        let ghost b1 = *builder;
        self.read_digits(builder);
        proof {
            let end = self.current.pos as int;
            self.lemma_scanned_twice(&l1, old(self), k, none, end, digits(s, k).errors);
            assert(none + digits(s, k).errors =~= digits(s, k).errors);
            lemma_appended_twice(builder, &b1, old(builder), s.subrange(p, k), false, k, s.subrange(k, end), false, end);
            assert(s.subrange(p, k) + s.subrange(k, end) =~= s.subrange(p, end));
        }
        Kind::Float
    }
}

impl<'a> Lexer<'a> {
    /// Decodes the escape whose backslash the cursor has just passed.
    fn read_escape(&mut self, Ghost(start): Ghost<int>) -> (decoded: Option<char>)
        requires
            old(self).wf(),
            old(self).token_from(start),
        ensures
            final(self).scanned(
                old(self),
                escape_at(old(self).source@, old(self).current.pos as int).end,
                escape_errors(
                    old(self).source@,
                    start,
                    escape_at(old(self).source@, old(self).current.pos as int),
                ),
            ),
            decoded == match escape_at(old(self).source@, old(self).current.pos as int).outcome {
                Escape::Char(c) => Some(c),
                _ => None,
            },
    {
        let ghost s = self.source@;
        let ghost i = self.current.pos as int;
        let ghost none = Seq::<Diagnostic>::empty();
        let c = self.peek();
        if self.is_eof() || is_newline(c) {
            let range = self.unterminated_range(Ghost(start));
            self.error(Diagnostic::ExpectedEscapeSequence(range));
            None
        } else if is_hex_digit(c) {
            let mut counter: u32 = 0;
            let mut number: u32 = 0;
            assert(s.subrange(i, i) =~= Seq::<char>::empty());
            while counter < 6
                invariant_except_break
                    self.wf(),
                    self.same_input(old(self)),
                    self.current.token@ == old(self).current.token@,
                    self.errors@ == old(self).errors@,
                    s == self.source@,
                    i == old(self).current.pos,
                    i <= self.current.pos <= s.len(),
                    counter == self.current.pos - i,
                    counter <= 6,
                    hex_end(s, i, 6) == hex_end(s, self.current.pos as int, (6 - counter) as nat),
                    number == hex_value(s.subrange(i, self.current.pos as int)),
                    counter == 0 ==> number == 0,
                    counter == 1 ==> number < 0x10,
                    counter == 2 ==> number < 0x100,
                    counter == 3 ==> number < 0x1000,
                    counter == 4 ==> number < 0x10000,
                    counter == 5 ==> number < 0x100000,
                    number < 0x1000000,
                ensures
                    self.wf(),
                    self.same_input(old(self)),
                    self.current.token@ == old(self).current.token@,
                    self.errors@ == old(self).errors@,
                    self.current.pos == hex_end(s, i, 6),
                    i <= self.current.pos <= s.len(),
                    number == hex_value(s.subrange(i, self.current.pos as int)),
                    number < 0x1000000,
                decreases 6 - counter,
            {
                let next = self.peek();
                if !is_hex_digit(next) {
                    break ;
                }
                let ghost k = self.current.pos as int;
                counter += 1;
                self.bump();
                number = number * 16 + hex_digit_of(next);
                proof {
                    let digits = s.subrange(i, k + 1);
                    assert(digits.drop_last() =~= s.subrange(i, k));
                    assert(digits.last() == next);
                }
            }
            if is_whitespace(self.peek()) {
                self.bump();
            }
            if number == 0 || (number >= 0xd800 && number <= 0xdfff) || number > 0x0010_ffff {
                let range = self.unterminated_range(Ghost(start));
                self.error(Diagnostic::InvalidUnicodeCodePoint(range));
                None
            } else {
                assert(self.errors@ =~= old(self).errors@ + none);
                char::from_u32(number)
            }
        } else {
            let decoded = self.bump();
            assert(self.errors@ =~= old(self).errors@ + none);
            decoded
        }
    }

    /// Decodes an escape inside an identifier and appends what it stands for.
    fn ident_escaped(
        &mut self,
        builder: &mut AutoCow<'a>,
        ident_start: bool,
        Ghost(start): Ghost<int>,
    )
        requires
            old(self).wf(),
            old(self).token_from(start),
            old(self).in_step(old(builder)),
            old(builder).has_escape(),
            char_at(old(self).source@, old(self).current.pos - 1) == '\\',
        ensures
            final(self).scanned(
                old(self),
                ident_escape(old(self).source@, old(self).current.pos as int, start, ident_start).end,
                ident_escape(
                    old(self).source@,
                    old(self).current.pos as int,
                    start,
                    ident_start,
                ).errors,
            ),
            appended(
                final(builder),
                old(builder),
                ident_escape(
                    old(self).source@,
                    old(self).current.pos as int,
                    start,
                    ident_start,
                ).text,
                true,
                ident_escape(old(self).source@, old(self).current.pos as int, start, ident_start).end,
            ),
    {
        let escape_char = self.read_escape(Ghost(start));
        if let Some(c) = escape_char {
            let matched = if ident_start {
                is_ident_start(c)
            } else {
                is_ident(c)
            };
            if matched {
                builder.push_matching(c);
                assert(builder@ =~= old(builder)@ + seq![c]);
            } else if (ident_start && is_dight(c)) || c <= '\x1f' || c == '\x7f' {
                builder.push_matching('\\');
                let value = c as u32;
                if c > '\x0f' {
                    builder.push_matching(hex_char(value / 16));
                }
                builder.push_matching(hex_char(value % 16));
                builder.push_matching(' ');
                proof {
                    reveal_with_fuel(lower_hex, 2);
                    assert(builder@ =~= old(builder)@ + (seq!['\\'] + lower_hex(c as nat) + seq![' ']));
                }
            } else {
                builder.push_matching('\\');
                builder.push_matching(c);
                assert(builder@ =~= old(builder)@ + seq!['\\', c]);
            }
        } else {
            assert(builder@ =~= old(builder)@ + Seq::<char>::empty());
        }
    }

    /// Scans the rest of an identifier and hands out its text, with whether it
    /// held an escape.
    fn identifier_name(&mut self, mut builder: AutoCow<'a>, Ghost(start): Ghost<int>) -> (name: (
        bool,
        Cow<'a, str>,
    ))
        requires
            old(self).wf(),
            old(self).token_from(start),
            old(self).in_step(&builder),
        ensures
            final(self).scanned(
                old(self),
                ident_name(old(self).source@, old(self).current.pos as int, start).end,
                ident_name(old(self).source@, old(self).current.pos as int, start).errors,
            ),
            name.0 == (builder.has_escape() || ident_name(
                old(self).source@,
                old(self).current.pos as int,
                start,
            ).escaped),
            name.1@ == builder@ + ident_name(
                old(self).source@,
                old(self).current.pos as int,
                start,
            ).text,
    {
        let ghost s = self.source@;
        let ghost p = self.current.pos as int;
        let ghost b0 = builder;
        let ghost whole = ident_name(s, p, start);
        loop
            invariant_except_break
                self.wf(),
                self.same_input(old(self)),
                self.token_from(start),
                self.current.token@ == old(self).current.token@,
                s == self.source@,
                p == old(self).current.pos,
                p <= self.current.pos,
                whole == ident_name(s, p, start),
                self.in_step(&builder),
                ident_name(s, self.current.pos as int, start).end == whole.end,
                builder@ + ident_name(s, self.current.pos as int, start).text == b0@ + whole.text,
                self.errors@ + ident_name(s, self.current.pos as int, start).errors == old(
                    self,
                ).errors@ + whole.errors,
                (builder.has_escape() || ident_name(s, self.current.pos as int, start).escaped)
                    == (b0.has_escape() || whole.escaped),
            ensures
                self.scanned(old(self), whole.end, whole.errors),
                builder.wf(),
                builder@ == b0@ + whole.text,
                builder.has_escape() == (b0.has_escape() || whole.escaped),
            decreases s.len() - self.current.pos,
        {
            let ghost i = self.current.pos as int;
            let ghost rest = ident_name(s, i, start);
            let c = self.peek();
            if is_ident(c) {
                self.bump();
                builder.push_matching(c);
                proof {
                    let next = ident_name(s, i + 1, start);
                    assert(rest.text =~= seq![c] + next.text);
                    assert(rest.errors =~= next.errors);
                    assert(builder@ + next.text =~= b0@ + whole.text);
                }
            } else if self.next_eq('\\') {
                builder.force_allocation();
                let ghost forced = builder;
                let ghost before = *self;
                self.ident_escaped(&mut builder, false, Ghost(start));
                proof {
                    let e = ident_escape(s, i + 1, start, false);
                    let next = ident_name(s, e.end, start);
                    lemma_escape_at(s, i + 1);
                    assert(rest.text =~= e.text + next.text);
                    assert(rest.errors =~= e.errors + next.errors);
                    assert(builder@ + next.text =~= forced@ + (e.text + next.text));
                    assert(self.errors@ + next.errors =~= before.errors@ + (e.errors + next.errors));
                }
            } else {
                proof {
                    assert(builder@ + rest.text =~= builder@);
                    assert(self.errors@ + rest.errors =~= self.errors@);
                }
                break ;
            }
        }
        (builder.has_escape(), builder.finish())
    }

    /// Scans an identifier from its first character on: an optional `-` or
    /// `--`, then an identifier start or an escape, then the rest.
    fn identifier(&mut self, mut builder: AutoCow<'a>, Ghost(start): Ghost<int>) -> (name: (
        bool,
        Cow<'a, str>,
    ))
        requires
            old(self).wf(),
            old(self).token_from(start),
            old(self).in_step(&builder),
        ensures
            final(self).scanned(
                old(self),
                grammar::identifier(old(self).source@, old(self).current.pos as int, start).end,
                grammar::identifier(old(self).source@, old(self).current.pos as int, start).errors,
            ),
            name.0 == (builder.has_escape() || grammar::identifier(
                old(self).source@,
                old(self).current.pos as int,
                start,
            ).escaped),
            name.1@ == builder@ + grammar::identifier(
                old(self).source@,
                old(self).current.pos as int,
                start,
            ).text,
    {
        let ghost s = self.source@;
        let ghost p = self.current.pos as int;
        let ghost b0 = builder;
        let ghost whole = grammar::identifier(s, p, start);
        let ghost none = Seq::<Diagnostic>::empty();
        if self.next_eq('-') {
            builder.push_matching('-');
            if self.next_eq('-') {
                builder.push_matching('-');
                let ghost mid = *self;
                let ghost b1 = builder;
                let name = self.identifier_name(builder, Ghost(start));
                proof {
                    let next = ident_name(s, p + 2, start);
                    self.lemma_scanned_twice(&mid, old(self), p + 2, none, next.end, next.errors);
                    assert(none + next.errors =~= whole.errors);
                    assert(b1@ + next.text =~= b0@ + whole.text);
                }
                return name;
            }
        }
        assert(self.errors@ =~= old(self).errors@ + none);
        let first = self.peek();
        if is_ident_start(first) {
            builder.push_matching(first);
            self.bump();
        } else if first == '\\' {
            self.bump();
            builder.force_allocation();
            self.ident_escaped(&mut builder, true, Ghost(start));
        } else {
            let range = self.unterminated_range(Ghost(start));
            self.error(Diagnostic::ExpectedIdentifier(range));
        }
        let ghost mid = *self;
        let ghost b2 = builder;
        let name = self.identifier_name(builder, Ghost(start));
        proof {
            let next = ident_name(s, mid.current.pos as int, start);
            assert(mid.errors@ + next.errors =~= old(self).errors@ + whole.errors);
            assert(b2@ + next.text =~= b0@ + whole.text);
        }
        name
    }
}

impl<'a> Lexer<'a> {
    /// The value of a token that holds text.
    fn string_to_token_value(&self, s: Cow<'a, str>) -> (value: TokenValue)
        ensures
            value@ == ValueView::String(s@),
    {
        TokenValue::String(
            match s {
                Cow::Borrowed(text) => text.to_owned(),
                Cow::Owned(text) => text,
            },
        )
    }

    /// Stores the text of an identifier, and whether it held an escape, in the
    /// token in progress.
    fn set_text_value(&mut self, name: (bool, Cow<'a, str>))
        requires
            old(self).wf(),
        ensures
            final(self).wf(),
            final(self).same_input(old(self)),
            final(self).current.pos == old(self).current.pos,
            final(self).errors@ == old(self).errors@,
            final(self).current.token.start == old(self).current.token.start,
            final(self).current.token.escaped == name.0,
            final(self).current.token.value@ == ValueView::String(name.1@),
    {
        let (escape, text) = name;
        self.current.token.escaped = escape;
        self.current.token.value = self.string_to_token_value(text);
    }

    /// Decodes an escape inside a string and appends the character it stands
    /// for.
    fn string_escaped(&mut self, builder: &mut AutoCow<'a>, Ghost(start): Ghost<int>)
        requires
            old(self).wf(),
            old(self).token_from(start),
            old(self).in_step(old(builder)),
            old(builder).has_escape(),
            char_at(old(self).source@, old(self).current.pos - 1) == '\\',
        ensures
            final(self).scanned(
                old(self),
                string_escape(old(self).source@, old(self).current.pos as int, start).end,
                string_escape(old(self).source@, old(self).current.pos as int, start).errors,
            ),
            appended(
                final(builder),
                old(builder),
                string_escape(old(self).source@, old(self).current.pos as int, start).text,
                true,
                string_escape(old(self).source@, old(self).current.pos as int, start).end,
            ),
    {
        match self.read_escape(Ghost(start)) {
            Some(c) => {
                builder.push_matching(c);
                assert(builder@ =~= old(builder)@ + seq![c]);
            },
            None => {
                assert(builder@ =~= old(builder)@ + Seq::<char>::empty());
            },
        }
    }

    /// Scans a string from just past its opening quote to its end.
    fn read_string(&mut self, quote: char, Ghost(start): Ghost<int>) -> (kind: Kind)
        requires
            old(self).wf(),
            old(self).token_from(start),
            start + 1 == old(self).current.pos,
            old(self).source@[start] == quote,
            quote != EOF_CHAR,
        ensures
            final(self).lexed(old(self), kind, string_token(old(self).source@, start)),
    {
        let ghost s = self.source@;
        let ghost p = self.current.pos as int;
        let ghost whole = string_body(s, p, quote, start);
        let mut builder = AutoCow::new(self);
        let ghost b0 = builder;
        loop
            invariant_except_break
                self.wf(),
                self.same_input(old(self)),
                self.token_from(start),
                self.current.token@ == old(self).current.token@,
                s == self.source@,
                p == old(self).current.pos,
                p <= self.current.pos,
                quote != EOF_CHAR,
                whole == string_body(s, p, quote, start),
                b0@ == Seq::<char>::empty(),
                !b0.has_escape(),
                self.in_step(&builder),
                string_body(s, self.current.pos as int, quote, start).end == whole.end,
                builder@ + string_body(s, self.current.pos as int, quote, start).text == b0@
                    + whole.text,
                self.errors@ + string_body(s, self.current.pos as int, quote, start).errors
                    == old(self).errors@ + whole.errors,
                (builder.has_escape() || string_body(
                    s,
                    self.current.pos as int,
                    quote,
                    start,
                ).escaped) == (b0.has_escape() || whole.escaped),
            ensures
                self.scanned(old(self), whole.end, whole.errors),
                builder.wf(),
                builder@ == whole.text,
                builder.has_escape() == whole.escaped,
            decreases s.len() - self.current.pos,
        {
            let ghost i = self.current.pos as int;
            let ghost rest = string_body(s, i, quote, start);
            let c = self.peek();
            if self.is_eof() {
                self.unexpected_err();
                proof {
                    assert(builder@ + rest.text =~= builder@);
                    assert(b0@ + whole.text =~= whole.text);
                }
                break ;
            } else if c == quote {
                self.bump();
                proof {
                    assert(builder@ + rest.text =~= builder@);
                    assert(self.errors@ + rest.errors =~= self.errors@);
                    assert(b0@ + whole.text =~= whole.text);
                }
                break ;
            } else if is_newline(c) {
                self.unexpected_err();
                proof {
                    assert(builder@ + rest.text =~= builder@);
                    assert(b0@ + whole.text =~= whole.text);
                }
                break ;
            } else if c == '\\' {
                self.bump();
                builder.force_allocation();
                let ghost forced = builder;
                let ghost before = *self;
                self.string_escaped(&mut builder, Ghost(start));
                proof {
                    let e = string_escape(s, i + 1, start);
                    let next = string_body(s, e.end, quote, start);
                    lemma_escape_at(s, i + 1);
                    assert(rest.text =~= e.text + next.text);
                    assert(rest.errors =~= e.errors + next.errors);
                    assert(builder@ + next.text =~= forced@ + (e.text + next.text));
                    assert(self.errors@ + next.errors =~= before.errors@ + (e.errors + next.errors));
                }
            } else {
                self.bump();
                builder.push_matching(c);
                proof {
                    let next = string_body(s, i + 1, quote, start);
                    assert(rest.text =~= seq![c] + next.text);
                    assert(rest.errors =~= next.errors);
                    assert(builder@ + next.text =~= b0@ + whole.text);
                }
            }
        }
        let escaped = builder.has_escape();
        let text = builder.finish();
        self.set_text_value((escaped, text));
        Kind::Str
    }

    fn read_lt(&mut self) -> (kind: Kind)
        requires
            old(self).wf(),
            old(self).fresh_token(),
            char_at(old(self).source@, old(self).current.pos - 1) == '<',
            old(self).current.pos >= 1,
        ensures
            final(self).lexed(
                old(self),
                kind,
                lt_token(
                    old(self).source@,
                    old(self).current.pos - 1,
                    old(self).source_type.allows_sass_tokens(),
                ),
            ),
    {
        let ghost none = Seq::<Diagnostic>::empty();
        assert(self.errors@ =~= old(self).errors@ + none);
        if self.nth_char(0) == '!' && self.nth_char(1) == '-' && self.nth_char(2) == '-' {
            self.bump();
            self.bump();
            self.bump();
            assert(self.errors@ =~= old(self).errors@ + none);
            return Kind::CDO;
        }
        if self.source_type.allows_sass_tokens() && self.next_eq('=') {
            assert(self.errors@ =~= old(self).errors@ + none);
            return Kind::LtEq;
        }
        Kind::Lt
    }

    fn read_gt(&mut self) -> (kind: Kind)
        requires
            old(self).wf(),
            old(self).fresh_token(),
            char_at(old(self).source@, old(self).current.pos - 1) == '>',
            old(self).current.pos >= 1,
        ensures
            final(self).lexed(
                old(self),
                kind,
                gt_token(
                    old(self).source@,
                    old(self).current.pos - 1,
                    old(self).source_type.allows_sass_tokens(),
                ),
            ),
    {
        let ghost none = Seq::<Diagnostic>::empty();
        assert(self.errors@ =~= old(self).errors@ + none);
        if self.source_type.allows_sass_tokens() && self.next_eq('=') {
            assert(self.errors@ =~= old(self).errors@ + none);
            return Kind::GtEq;
        }
        Kind::Gt
    }

    fn read_bang(&mut self) -> (kind: Kind)
        requires
            old(self).wf(),
            old(self).fresh_token(),
            char_at(old(self).source@, old(self).current.pos - 1) == '!',
            old(self).current.pos >= 1,
        ensures
            final(self).lexed(
                old(self),
                kind,
                bang_token(
                    old(self).source@,
                    old(self).current.pos - 1,
                    old(self).source_type.allows_sass_tokens(),
                ),
            ),
    {
        let ghost none = Seq::<Diagnostic>::empty();
        assert(self.errors@ =~= old(self).errors@ + none);
        if self.source_type.allows_sass_tokens() && self.next_eq('=') {
            assert(self.errors@ =~= old(self).errors@ + none);
            return Kind::Neq;
        }
        Kind::Bang
    }

    fn read_dot(&mut self, mut builder: AutoCow<'a>, Ghost(start): Ghost<int>) -> (kind: Kind)
        requires
            old(self).wf(),
            old(self).token_from(start),
            old(self).fresh_token(),
            start + 1 == old(self).current.pos,
            old(self).source@[start] == '.',
            builder.wf(),
            builder.source() == old(self).source@,
            !builder.has_escape(),
            builder.cursor() == start,
            builder.anchor() == start,
            builder@ == Seq::<char>::empty(),
        ensures
            final(self).lexed(
                old(self),
                kind,
                dot_token(old(self).source@, start, old(self).source_type.allows_sass_tokens()),
            ),
    {
        let ghost s = self.source@;
        let ghost none = Seq::<Diagnostic>::empty();
        assert(self.errors@ =~= old(self).errors@ + none);
        if is_dight(self.peek()) {
            builder.push_matching('.');
            let ghost b1 = builder;
            let kind = self.read_digits_after_point(&mut builder);
            proof {
                let end = self.current.pos as int;
                assert(b1@ =~= seq!['.']);
                assert(seq!['.'] + s.subrange(start + 1, end) =~= s.subrange(start, end));
            }
            self.set_numeric_value(builder.finish());
            return kind;
        }
        if self.source_type.allows_sass_tokens() && self.nth_char(0) == '.' && self.nth_char(1)
            == '.' {
            self.bump();
            self.bump();
            assert(self.errors@ =~= old(self).errors@ + none);
            return Kind::Dot3;
        }
        Kind::Dot
    }

    fn read_dollar(&mut self, mut builder: AutoCow<'a>, Ghost(start): Ghost<int>) -> (kind: Kind)
        requires
            old(self).wf(),
            old(self).token_from(start),
            old(self).fresh_token(),
            start + 1 == old(self).current.pos,
            old(self).source@[start] == '$',
            builder.wf(),
            builder.source() == old(self).source@,
            !builder.has_escape(),
            builder.cursor() == start,
            builder.anchor() == start,
            builder@ == Seq::<char>::empty(),
        ensures
            final(self).lexed(
                old(self),
                kind,
                dollar_token(old(self).source@, start, old(self).source_type.allows_sass_tokens()),
            ),
    {
        let ghost s = self.source@;
        let ghost none = Seq::<Diagnostic>::empty();
        assert(self.errors@ =~= old(self).errors@ + none);
        let next = self.peek();
        if self.source_type.allows_sass_tokens() && (is_ident_start(next) || next == '-' || next
            == '\\') {
            builder.push_matching('$');
            let ghost b1 = builder;
            let name = self.identifier(builder, Ghost(start));
            proof {
                let n = grammar::identifier(s, start + 1, start);
                assert(b1@ =~= seq!['$']);
                assert(Seq::<Diagnostic>::empty() + n.errors =~= n.errors);
            }
            self.set_text_value(name);
            return Kind::Variable;
        }
        Kind::Dollar
    }

    fn read_minus(&mut self, mut builder: AutoCow<'a>, Ghost(start): Ghost<int>) -> (kind: Kind)
        requires
            old(self).wf(),
            old(self).token_from(start),
            old(self).fresh_token(),
            start + 1 == old(self).current.pos,
            old(self).source@[start] == '-',
            builder.wf(),
            builder.source() == old(self).source@,
            !builder.has_escape(),
            builder.cursor() == start,
            builder.anchor() == start,
            builder@ == Seq::<char>::empty(),
        ensures
            final(self).lexed(old(self), kind, minus_token(old(self).source@, start)),
    {
        let ghost s = self.source@;
        let ghost none = Seq::<Diagnostic>::empty();
        assert(self.errors@ =~= old(self).errors@ + none);
        builder.push_matching('-');
        let ghost b1 = builder;
        assert(b1@ =~= seq!['-']);
        if is_dight(self.peek()) {
            let kind = self.read_digit(&mut builder);
            proof {
                let end = self.current.pos as int;
                assert(seq!['-'] + s.subrange(start + 1, end) =~= s.subrange(start, end));
            }
            self.set_numeric_value(builder.finish());
            return kind;
        } else if self.nth_char(0) == '.' && is_dight(self.nth_char(1)) {
            self.bump();
            builder.push_matching('.');
            let ghost b2 = builder;
            let ghost l2 = *self;
            let kind = self.read_digits_after_point(&mut builder);
            proof {
                let end = self.current.pos as int;
                let f = fraction(s, start + 2);
                assert(b2@ =~= seq!['-', '.']);
                assert(seq!['-', '.'] + s.subrange(start + 2, end) =~= s.subrange(start, end));
                assert(l2.errors@ =~= old(self).errors@);
                assert(self.errors@ =~= old(self).errors@ + f.errors);
            }
            self.set_numeric_value(builder.finish());
            return kind;
        } else if self.nth_char(0) == '-' && self.nth_char(1) == '>' {
            self.bump();
            self.bump();
            assert(self.errors@ =~= old(self).errors@ + none);
            return Kind::CDC;
        } else if is_ident(self.peek()) {
            let name = self.identifier_name(builder, Ghost(start));
            proof {
                let n = ident_name(s, start + 1, start);
                assert(Seq::<Diagnostic>::empty() + n.errors =~= n.errors);
            }
            self.set_text_value(name);
            return Kind::Ident;
        }
        Kind::Minus
    }
}

impl<'a> Lexer<'a> {
    /// Scans the token whose first character `c` the cursor has just passed.
    fn match_char(&mut self, c: char, mut builder: AutoCow<'a>, Ghost(start): Ghost<int>) -> (kind:
        Kind)
        requires
            old(self).wf(),
            old(self).token_from(start),
            old(self).fresh_token(),
            start + 1 == old(self).current.pos,
            old(self).source@[start] == c,
            builder.wf(),
            builder.source() == old(self).source@,
            !builder.has_escape(),
            builder.cursor() == start,
            builder.anchor() == start,
            builder@ == Seq::<char>::empty(),
        ensures
            final(self).lexed(
                old(self),
                kind,
                token_at(old(self).source@, start, old(self).source_type.allows_sass_tokens()),
            ),
    {
        let ghost s = self.source@;
        let ghost none = Seq::<Diagnostic>::empty();
        proof {
            reveal(token_at);
        }
        assert(self.errors@ =~= old(self).errors@ + none);
        if c == '/' {
            let next = self.peek();
            if next == '/' {
                self.read_line_comment()
            } else if next == '*' {
                self.read_block_comment(Ghost(start))
            } else {
                Kind::Slash
            }
        } else if is_whitespace(c) {
            self.read_whitespace()
        } else if is_ident_start(c) {
            builder.push_matching(c);
            let ghost b1 = builder;
            let name = self.identifier_name(builder, Ghost(start));
            proof {
                let n = ident_name(s, start + 1, start);
                assert(b1@ =~= seq![c]);
                assert(none + n.errors =~= n.errors);
            }
            self.set_text_value(name);
            Kind::Ident
        } else if is_dight(c) {
            builder.push_matching(c);
            let ghost b1 = builder;
            let kind = self.read_digit(&mut builder);
            proof {
                let end = self.current.pos as int;
                assert(b1@ =~= seq![c]);
                assert(seq![c] + s.subrange(start + 1, end) =~= s.subrange(start, end));
            }
            self.set_numeric_value(builder.finish());
            kind
        } else if c == '\\' {
            builder.force_allocation();
            let ghost b1 = builder;
            self.ident_escaped(&mut builder, true, Ghost(start));
            let ghost b2 = builder;
            let ghost l2 = *self;
            let name = self.identifier_name(builder, Ghost(start));
            proof {
                let e = ident_escape(s, start + 1, start, true);
                let n = ident_name(s, e.end, start);
                assert(b2@ =~= e.text);
                self.lemma_scanned_twice(&l2, old(self), e.end, e.errors, n.end, n.errors);
            }
            self.set_text_value(name);
            Kind::Ident
        } else if c == '\'' || c == '"' {
            self.read_string(c, Ghost(start))
        } else if c == '-' {
            self.read_minus(builder, Ghost(start))
        } else if c == '.' {
            self.read_dot(builder, Ghost(start))
        } else if c == '$' {
            self.read_dollar(builder, Ghost(start))
        } else if c == '<' {
            self.read_lt()
        } else if c == '>' {
            self.read_gt()
        } else if c == '!' {
            self.read_bang()
        } else {
            match c {
                '+' => Kind::Plus,
                '=' => Kind::Eq,
                '&' => Kind::Amp,
                '@' => Kind::At,
                '[' => Kind::BracketL,
                ']' => Kind::BracketR,
                ':' => Kind::Colon,
                ',' => Kind::Comma,
                '{' => Kind::CurlyL,
                '}' => Kind::CurlyR,
                '(' => Kind::ParenL,
                ')' => Kind::ParenR,
                '%' => Kind::Percentage,
                '#' => Kind::Pound,
                ';' => Kind::Semicolon,
                '*' => Kind::Star,
                '^' => Kind::Caret,
                '~' => Kind::Tilde,
                _ => {
                    let range = self.unterminated_range(Ghost(start));
                    self.error(Diagnostic::InvalidCharacter(c, range));
                    Kind::Unknown
                },
            }
        }
    }

    /// Scans one token and leaves what it holds in the token in progress.
    fn read_next_token(&mut self) -> (kind: Kind)
        requires
            old(self).wf(),
        ensures
            final(self).wf(),
            final(self).same_input(old(self)),
            final(self).current.token.start == byte_offset(
                old(self).source@,
                old(self).current.pos as int,
            ),
            kind == token_at(
                old(self).source@,
                old(self).current.pos as int,
                old(self).source_type.allows_sass_tokens(),
            ).kind,
            final(self).current.pos == token_at(
                old(self).source@,
                old(self).current.pos as int,
                old(self).source_type.allows_sass_tokens(),
            ).end,
            final(self).current.token.escaped == token_at(
                old(self).source@,
                old(self).current.pos as int,
                old(self).source_type.allows_sass_tokens(),
            ).escaped,
            final(self).current.token.value@ == token_at(
                old(self).source@,
                old(self).current.pos as int,
                old(self).source_type.allows_sass_tokens(),
            ).value,
            final(self).errors@ == old(self).errors@ + token_at(
                old(self).source@,
                old(self).current.pos as int,
                old(self).source_type.allows_sass_tokens(),
            ).errors,
    {
        proof {
            reveal(token_at);
        }
        self.current.token.start = self.offset();
        self.current.token.escaped = false;
        self.current.token.value = TokenValue::Empty;
        let ghost start = self.current.pos as int;
        let builder = AutoCow::new(self);

        if let Some(c) = self.bump() {
            return self.match_char(c, builder, Ghost(start));
        } else {
            assert(self.errors@ =~= old(self).errors@ + Seq::<Diagnostic>::empty());
            return Kind::EOF;
        }
    }

    /// Completes the token in progress with its kind and its end, and hands it
    /// out.
    fn finish_next(&mut self, kind: Kind) -> (token: Token)
        requires
            old(self).wf(),
        ensures
            final(self).wf(),
            final(self).same_input(old(self)),
            final(self).current.pos == old(self).current.pos,
            final(self).errors@ == old(self).errors@,
            token@ == (TokenView {
                kind,
                start: old(self).current.token.start,
                end: byte_offset(old(self).source@, old(self).current.pos as int) as usize,
                escaped: old(self).current.token.escaped,
                value: old(self).current.token.value@,
            }),
    {
        self.current.token.kind = kind;
        self.current.token.end = self.offset();
        let mut token = Token::default();
        core::mem::swap(&mut self.current.token, &mut token);
        token
    }

    /// Scans the next token and hands it out.
    ///
    /// The token is the one that the grammar defines at the cursor, with byte
    /// offsets for its span. The cursor moves to its end, and the diagnostics
    /// it raises are appended to those raised before. At the end of the source
    /// every call hands out an empty [`Kind::EOF`] token.
    pub fn next_token(&mut self) -> (token: Token)
        requires
            old(self).wf(),
        ensures
            final(self).wf(),
            final(self).same_input(old(self)),
            final(self).source() == old(self).source(),
            final(self).source_type() == old(self).source_type(),
            token@ == token_at(
                old(self).source(),
                old(self).position(),
                old(self).source_type().allows_sass_tokens(),
            ).token(old(self).source()),
            final(self).position() == token_at(
                old(self).source(),
                old(self).position(),
                old(self).source_type().allows_sass_tokens(),
            ).end,
            final(self).diagnostics() == old(self).diagnostics() + token_at(
                old(self).source(),
                old(self).position(),
                old(self).source_type().allows_sass_tokens(),
            ).errors,
            token.start == byte_offset(old(self).source(), old(self).position()),
            token.end == byte_offset(old(self).source(), final(self).position()),
            token.start <= token.end,
            old(self).position() <= final(self).position() <= old(self).source().len(),
            old(self).position() < old(self).source().len() ==> old(self).position()
                < final(self).position(),
            old(self).position() == old(self).source().len() ==> token.kind == Kind::EOF,
            token.kind == Kind::EOF ==> final(self).position() == old(self).source().len(),
    {
        proof {
            reveal(token_at);
            let s = self.source@;
            let i = self.current.pos as int;
            lemma_token_advances(s, i, self.source_type.allows_sass_tokens());
            let end = token_at(s, i, self.source_type.allows_sass_tokens()).end;
            lemma_byte_offset_monotone(s, i, end);
            lemma_byte_offset_monotone(s, end, s.len() as int);
            lemma_byte_offset_end(s);
        }
        let kind = self.read_next_token();
        self.finish_next(kind)
    }
}

/// Scans the whole of `source` under the dialect `source_type`.
///
/// Hands out the tokens of the source in order, the last of them the
/// [`Kind::EOF`] token, and the diagnostics that they raised, in order.
pub fn tokenize(source: &str, source_type: SourceType) -> (result: (Vec<Token>, Diagnostics))
    ensures
        result.0@.len() == token_stream(source@, 0, source_type.allows_sass_tokens()).len(),
        forall|k: int|
            0 <= k < result.0@.len() ==> (#[trigger] result.0@[k])@ == token_stream(
                source@,
                0,
                source_type.allows_sass_tokens(),
            )[k].token(source@),
        result.1@ == stream_errors(token_stream(source@, 0, source_type.allows_sass_tokens())),
        result.0@.len() >= 1,
        result.0@.last().kind == Kind::EOF,
        forall|k: int| 0 <= k < result.0@.len() - 1 ==> (#[trigger] result.0@[k]).kind != Kind::EOF,
        result.0@[0].start == 0,
        result.0@.last().end == encode_utf8(source@).len(),
        forall|k: int| 0 <= k < result.0@.len() ==> (#[trigger] result.0@[k]).start <= result.0@[k].end,
        forall|j: int, k: int|
            0 <= j && k == j + 1 && k < result.0@.len() ==> (#[trigger] result.0@[j]).end == (
            #[trigger] result.0@[k]).start,
{
    let ghost s = source@;
    let ghost sass = source_type.allows_sass_tokens();
    let ghost all = token_stream(s, 0, sass);
    let mut lexer = Lexer::new(source, Diagnostics::new(), source_type);
    let mut tokens: Vec<Token> = Vec::new();
    let ghost mut done: Seq<Lexeme> = Seq::empty();
    proof {
        assert(all =~= done + token_stream(s, 0, sass));
    }
    loop
        invariant_except_break
            lexer.wf(),
            lexer.source() == s,
            lexer.source_type() == source_type,
            sass == source_type.allows_sass_tokens(),
            all == done + token_stream(s, lexer.position(), sass),
            tokens@.len() == done.len(),
            forall|k: int| 0 <= k < tokens@.len() ==> (#[trigger] tokens@[k])@ == done[k].token(s),
            lexer.diagnostics() == stream_errors(done),
        ensures
            lexer.wf(),
            lexer.source() == s,
            all == done,
            tokens@.len() == done.len(),
            forall|k: int| 0 <= k < tokens@.len() ==> (#[trigger] tokens@[k])@ == done[k].token(s),
            lexer.diagnostics() == stream_errors(done),
        decreases s.len() - lexer.position(),
    {
        let ghost pos = lexer.position();
        let ghost t = token_at(s, pos, sass);
        let ghost rest = token_stream(s, pos, sass);
        proof {
            lexer.lemma_cursor_within_source();
            lemma_token_advances(s, pos, sass);
        }
        let token = lexer.next_token();
        let kind = token.kind;
        tokens.push(token);
        proof {
            let before = done;
            done = done.push(t);
            assert(done.drop_last() =~= before);
            assert(kind == t.kind);
            if kind == Kind::EOF {
                assert(rest =~= seq![t]);
                assert(all =~= done);
            } else {
                assert(rest =~= seq![t] + token_stream(s, t.end, sass));
                assert(all =~= done + token_stream(s, t.end, sass));
            }
        }
        if kind == Kind::EOF {
            break ;
        }
    }
    proof {
        lemma_stream_ends_with_eof(s, 0, sass);
        lemma_spans_cover(s, 0, sass);
        lemma_byte_spans_cover(s, 0, sass);
        lemma_byte_offset_zero(s);
        lemma_byte_offset_end(s);
        lexer.lemma_cursor_within_source();
        assert forall|k: int| 0 <= k < tokens@.len() implies {
            &&& (#[trigger] tokens@[k]).start == byte_offset(s, all[k].start)
            &&& tokens@[k].end == byte_offset(s, all[k].end)
            &&& tokens@[k].kind == all[k].kind
        } by {
            assert(tokens@[k]@ == all[k].token(s));
            lemma_byte_offset_monotone(s, all[k].start, all[k].end);
            lemma_byte_offset_monotone(s, all[k].end, s.len() as int);
        }
        assert(tokens@[0].start == 0);
        assert(tokens@.last() == tokens@[tokens@.len() - 1]);
    }
    (tokens, lexer.into_errors())
}

} // verus!
