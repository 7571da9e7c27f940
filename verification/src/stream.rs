//! The token stream of a source, and what holds of it.
//!
//! [`token_stream`] is the sequence of tokens that repeated scanning yields.
//! The proofs below show that every token advances, that the stream ends with
//! the one [`Kind::EOF`] token it holds, that its spans tile the source, and
//! that an identifier without a backslash is the source text itself.
use vstd::prelude::*;

use crate::definitions::{is_dight, is_ident, is_ident_start};
use crate::diagnostics::Diagnostic;
use crate::grammar::{
    char_at, digit, digits, exponent, fraction, ident_escape, ident_head,
    ident_name, identifier, lemma_block_comment_end, lemma_escape_at, lemma_run_end, number,
    run_end, string_body, string_escape, token_at, whitespace, within_line, Lexeme,
};
use crate::kind::Kind;
use crate::token::ValueView;
use crate::utf8::{byte_offset, lemma_byte_offset_monotone};

verus! {

/// The rest of an identifier ends within the source, not before its start.
pub proof fn lemma_ident_name_end(s: Seq<char>, i: int, start: int)
    requires
        0 <= i <= s.len(),
    ensures
        i <= ident_name(s, i, start).end <= s.len(),
    decreases s.len() - i,
{
    let c = char_at(s, i);
    if i >= s.len() {
    } else if is_ident(c) {
        lemma_ident_name_end(s, i + 1, start);
    } else if c == '\\' {
        lemma_escape_at(s, i + 1);
        lemma_ident_name_end(s, ident_escape(s, i + 1, start, false).end, start);
    }
}

/// An identifier ends within the source, not before its start.
pub proof fn lemma_identifier_end(s: Seq<char>, i: int, start: int)
    requires
        0 <= i <= s.len(),
    ensures
        i <= identifier(s, i, start).end <= s.len(),
        i <= ident_head(s, i, start).end <= s.len(),
{
    lemma_ident_head_end(s, i, start);
    if char_at(s, i) == '-' {
        if char_at(s, i + 1) == '-' {
            lemma_ident_name_end(s, i + 2, start);
        } else {
            lemma_ident_head_end(s, i + 1, start);
        }
    }
}

proof fn lemma_ident_head_end(s: Seq<char>, i: int, start: int)
    requires
        0 <= i <= s.len(),
    ensures
        i <= ident_head(s, i, start).end <= s.len(),
{
    let c = char_at(s, i);
    if is_ident_start(c) {
        lemma_ident_name_end(s, i + 1, start);
    } else if c == '\\' {
        lemma_escape_at(s, i + 1);
        lemma_ident_name_end(s, ident_escape(s, i + 1, start, true).end, start);
    } else {
        lemma_ident_name_end(s, i, start);
    }
}

/// The body of a string ends within the source, not before its start.
pub proof fn lemma_string_body_end(s: Seq<char>, i: int, quote: char, start: int)
    requires
        0 <= i <= s.len(),
    ensures
        i <= string_body(s, i, quote, start).end <= s.len(),
    decreases s.len() - i,
{
    let c = char_at(s, i);
    if i >= s.len() {
    } else if c == quote {
    } else if crate::definitions::is_newline(c) {
    } else if c == '\\' {
        lemma_escape_at(s, i + 1);
        lemma_string_body_end(s, string_escape(s, i + 1, start).end, quote, start);
    } else {
        lemma_string_body_end(s, i + 1, quote, start);
    }
}

/// The parts of a number end within the source, not before their start.
pub proof fn lemma_number_end(s: Seq<char>, i: int)
    requires
        0 <= i <= s.len(),
    ensures
        i <= digits(s, i).end <= s.len(),
        i <= exponent(s, i).end <= s.len(),
        i <= fraction(s, i).end <= s.len(),
        i <= number(s, i).end <= s.len(),
{
    lemma_run_end(s, i, digit());
    let sign = char_at(s, i + 1);
    if char_at(s, i) == 'e' || char_at(s, i) == 'E' {
        if sign == '+' || sign == '-' {
            lemma_run_end(s, i + 2, digit());
        } else {
            lemma_run_end(s, i + 1, digit());
        }
    }
    lemma_exponent_end(s, digits(s, i).end);
    let j = run_end(s, i, digit());
    if char_at(s, j) == '.' {
        lemma_run_end(s, j + 1, digit());
        lemma_exponent_end(s, digits(s, j + 1).end);
    } else {
        lemma_exponent_end(s, j);
    }
}

proof fn lemma_exponent_end(s: Seq<char>, i: int)
    requires
        0 <= i <= s.len(),
    ensures
        i <= exponent(s, i).end <= s.len(),
{
    let sign = char_at(s, i + 1);
    if char_at(s, i) == 'e' || char_at(s, i) == 'E' {
        if sign == '+' || sign == '-' {
            lemma_run_end(s, i + 2, digit());
        } else {
            lemma_run_end(s, i + 1, digit());
        }
    }
}

/// Scanning never stalls and never runs off the source.
///
/// The token at a position within the source starts there and ends past it,
/// within the source. At the end of the source the token is the empty
/// [`Kind::EOF`] token, and a token of that kind, wherever it starts, ends at
/// the end of the source.
pub proof fn lemma_token_advances(s: Seq<char>, i: int, sass: bool)
    requires
        0 <= i <= s.len(),
    ensures
        token_at(s, i, sass).start == i,
        i <= token_at(s, i, sass).end <= s.len(),
        i < s.len() ==> i < token_at(s, i, sass).end,
        i == s.len() ==> token_at(s, i, sass).kind == Kind::EOF,
        token_at(s, i, sass).kind == Kind::EOF ==> token_at(s, i, sass).end == s.len(),
{
    reveal(token_at);
    if i < s.len() {
        let c = s[i];
        lemma_run_end(s, i + 1, whitespace());
        lemma_run_end(s, i + 1, digit());
        lemma_ident_name_end(s, i + 1, i);
        lemma_number_end(s, i);
        lemma_number_end(s, i + 1);
        lemma_identifier_end(s, i + 1, i);
        lemma_string_body_end(s, i + 1, c, i);
        if c == '/' {
            if char_at(s, i + 1) == '/' {
                lemma_run_end(s, i + 2, within_line());
            } else if char_at(s, i + 1) == '*' {
                lemma_block_comment_end(s, i + 2, 1);
            }
        } else if c == '\\' {
            lemma_escape_at(s, i + 1);
            lemma_ident_name_end(s, ident_escape(s, i + 1, i, true).end, i);
        } else if c == '-' {
            if char_at(s, i + 1) == '.' && is_dight(char_at(s, i + 2)) {
                lemma_number_end(s, i + 2);
            }
        }
    }
}

/// The tokens that scanning yields from position `i` on, up to and including
/// the first [`Kind::EOF`] token.
pub open spec fn token_stream(s: Seq<char>, i: int, sass: bool) -> Seq<Lexeme>
    decreases s.len() - i,
{
    let t = token_at(s, i, sass);
    if i < 0 || i >= s.len() || t.kind == Kind::EOF {
        seq![t]
    } else {
        proof {
            lemma_token_advances(s, i, sass);
        }
        seq![t] + token_stream(s, t.end, sass)
    }
}

/// The diagnostics of a sequence of tokens, in order.
pub open spec fn stream_errors(tokens: Seq<Lexeme>) -> Seq<Diagnostic>
    decreases tokens.len(),
{
    if tokens.len() == 0 {
        Seq::empty()
    } else {
        stream_errors(tokens.drop_last()) + tokens.last().errors
    }
}

/// The source text that a sequence of tokens covers: their slices of the
/// source, one after the other.
pub open spec fn stream_text(s: Seq<char>, tokens: Seq<Lexeme>) -> Seq<char>
    decreases tokens.len(),
{
    if tokens.len() == 0 {
        Seq::empty()
    } else {
        stream_text(s, tokens.drop_last()) + s.subrange(tokens.last().start, tokens.last().end)
    }
}

/// Scanning any source under any dialect ends: the stream is finite, holds at
/// most one token per character and one more, and ends with its only
/// [`Kind::EOF`] token. Every token before that one is not empty.
pub proof fn lemma_stream_ends_with_eof(s: Seq<char>, i: int, sass: bool)
    requires
        0 <= i <= s.len(),
    ensures
        1 <= token_stream(s, i, sass).len() <= s.len() - i + 1,
        token_stream(s, i, sass).last().kind == Kind::EOF,
        forall|k: int|
            0 <= k < token_stream(s, i, sass).len() - 1 ==> {
                &&& (#[trigger] token_stream(s, i, sass)[k]).kind != Kind::EOF
                &&& token_stream(s, i, sass)[k].start < token_stream(s, i, sass)[k].end
            },
    decreases s.len() - i,
{
    let t = token_at(s, i, sass);
    lemma_token_advances(s, i, sass);
    if i < s.len() && t.kind != Kind::EOF {
        lemma_stream_ends_with_eof(s, t.end, sass);
        let rest = token_stream(s, t.end, sass);
        let all = token_stream(s, i, sass);
        assert(all =~= seq![t] + rest);
        assert forall|k: int| 0 <= k < all.len() - 1 implies {
            &&& (#[trigger] all[k]).kind != Kind::EOF
            &&& all[k].start < all[k].end
        } by {
            if k > 0 {
                assert(all[k] == rest[k - 1]);
            }
        }
    }
}

/// The spans of the stream tile the source: the first token starts where the
/// scan starts, each token starts where the one before it ends, and the last
/// one ends at the end of the source. So the slices of the source that the
/// tokens cover, put together, are the source from the start of the scan on.
pub proof fn lemma_spans_cover(s: Seq<char>, i: int, sass: bool)
    requires
        0 <= i <= s.len(),
    ensures
        token_stream(s, i, sass)[0].start == i,
        token_stream(s, i, sass).last().end == s.len(),
        forall|k: int|
            0 <= k < token_stream(s, i, sass).len() ==> i <= (#[trigger] token_stream(
                s,
                i,
                sass,
            )[k]).start <= token_stream(s, i, sass)[k].end <= s.len(),
        forall|j: int, k: int|
            0 <= j && k == j + 1 && k < token_stream(s, i, sass).len() ==> (
            #[trigger] token_stream(s, i, sass)[j]).end == (#[trigger] token_stream(
                s,
                i,
                sass,
            )[k]).start,
        stream_text(s, token_stream(s, i, sass)) == s.subrange(i, s.len() as int),
    decreases s.len() - i,
{
    let t = token_at(s, i, sass);
    let all = token_stream(s, i, sass);
    lemma_token_advances(s, i, sass);
    if i < s.len() && t.kind != Kind::EOF {
        let rest = token_stream(s, t.end, sass);
        lemma_spans_cover(s, t.end, sass);
        lemma_stream_ends_with_eof(s, t.end, sass);
        assert(all =~= seq![t] + rest);
        assert forall|k: int| 0 <= k < all.len() implies i <= (#[trigger] all[k]).start
            <= all[k].end <= s.len() by {
            if k > 0 {
                assert(all[k] == rest[k - 1]);
            }
        }
        assert forall|j: int, k: int| 0 <= j && k == j + 1 && k < all.len() implies (
        #[trigger] all[j]).end == (#[trigger] all[k]).start by {
            assert(all[k] == rest[k - 1]);
            if j > 0 {
                assert(all[j] == rest[j - 1]);
            }
        }
        lemma_stream_text_prepend(s, t, rest);
        assert(s.subrange(i, t.end) + s.subrange(t.end, s.len() as int) =~= s.subrange(
            i,
            s.len() as int,
        ));
    } else {
        assert(all =~= seq![t]);
        assert(all.drop_last() =~= Seq::<Lexeme>::empty());
        assert(stream_text(s, all) =~= s.subrange(t.start, t.end)) by {
            reveal_with_fuel(stream_text, 2);
        }
    }
}

/// The text that a stream covers, with one more token in front.
proof fn lemma_stream_text_prepend(s: Seq<char>, t: Lexeme, rest: Seq<Lexeme>)
    ensures
        stream_text(s, seq![t] + rest) == s.subrange(t.start, t.end) + stream_text(s, rest),
    decreases rest.len(),
{
    let all = seq![t] + rest;
    if rest.len() == 0 {
        assert(all.drop_last() =~= Seq::<Lexeme>::empty());
        assert(stream_text(s, all) =~= s.subrange(t.start, t.end) + stream_text(s, rest)) by {
            reveal_with_fuel(stream_text, 2);
        }
    } else {
        assert(all.drop_last() =~= seq![t] + rest.drop_last());
        assert(all.last() == rest.last());
        lemma_stream_text_prepend(s, t, rest.drop_last());
        assert(stream_text(s, all) =~= s.subrange(t.start, t.end) + stream_text(s, rest));
    }
}

/// In byte offsets, too, each token of the stream starts where the one before
/// it ends; the first starts at the byte offset of the scan's start and the
/// last ends at the length of the encoded source. No token has its end before
/// its start.
pub proof fn lemma_byte_spans_cover(s: Seq<char>, i: int, sass: bool)
    requires
        0 <= i <= s.len(),
    ensures
        byte_offset(s, token_stream(s, i, sass)[0].start) == byte_offset(s, i),
        byte_offset(s, token_stream(s, i, sass).last().end) == byte_offset(s, s.len() as int),
        forall|k: int|
            0 <= k < token_stream(s, i, sass).len() ==> byte_offset(
                s,
                (#[trigger] token_stream(s, i, sass)[k]).start,
            ) <= byte_offset(s, token_stream(s, i, sass)[k].end),
        forall|j: int, k: int|
            0 <= j && k == j + 1 && k < token_stream(s, i, sass).len() ==> byte_offset(
                s,
                (#[trigger] token_stream(s, i, sass)[j]).end,
            ) == byte_offset(s, (#[trigger] token_stream(s, i, sass)[k]).start),
{
    lemma_spans_cover(s, i, sass);
    let all = token_stream(s, i, sass);
    assert forall|k: int| 0 <= k < all.len() implies byte_offset(s, (#[trigger] all[k]).start)
        <= byte_offset(s, all[k].end) by {
        lemma_byte_offset_monotone(s, all[k].start, all[k].end);
    }
}

/// An identifier's rest that holds no backslash is the source text itself: no
/// escape, no diagnostic.
pub proof fn lemma_ident_name_plain(s: Seq<char>, i: int, start: int)
    requires
        0 <= i <= s.len(),
        forall|k: int| i <= k < ident_name(s, i, start).end ==> s[k] != '\\',
    ensures
        ident_name(s, i, start).text == s.subrange(i, ident_name(s, i, start).end),
        !ident_name(s, i, start).escaped,
        ident_name(s, i, start).errors == Seq::<Diagnostic>::empty(),
    decreases s.len() - i,
{
    let c = char_at(s, i);
    let n = ident_name(s, i, start);
    if i >= s.len() {
        assert(n.text =~= s.subrange(i, n.end));
    } else if is_ident(c) {
        lemma_ident_name_end(s, i + 1, start);
        lemma_ident_name_plain(s, i + 1, start);
        assert(n.text =~= s.subrange(i, n.end));
        assert(n.errors =~= Seq::<Diagnostic>::empty());
    } else if c == '\\' {
        lemma_escape_at(s, i + 1);
        lemma_ident_name_end(s, ident_escape(s, i + 1, start, false).end, start);
        assert(s[i] != '\\');
    } else {
        assert(n.text =~= s.subrange(i, n.end));
    }
}

/// The value of an identifier that holds no backslash is the exact slice of
/// the source that the token covers, and the token is not marked as escaped.
pub proof fn lemma_unescaped_identifier(s: Seq<char>, i: int, sass: bool)
    requires
        0 <= i < s.len(),
        token_at(s, i, sass).kind == Kind::Ident,
        forall|k: int| i <= k < token_at(s, i, sass).end ==> s[k] != '\\',
    ensures
        token_at(s, i, sass).value == ValueView::String(
            s.subrange(i, token_at(s, i, sass).end),
        ),
        !token_at(s, i, sass).escaped,
        token_at(s, i, sass).errors == Seq::<Diagnostic>::empty(),
{
    reveal(token_at);
    let t = token_at(s, i, sass);
    let c = s[i];
    lemma_token_advances(s, i, sass);
    lemma_number_end(s, i);
    lemma_number_end(s, i + 1);
    if c == '/' {
        lemma_block_comment_end(s, i + 2, 1);
    } else if is_ident_start(c) || (c == '-' && t.kind == Kind::Ident) {
        lemma_ident_name_end(s, i + 1, i);
        lemma_ident_name_plain(s, i + 1, i);
        let n = ident_name(s, i + 1, i);
        assert(seq![c] + n.text =~= s.subrange(i, t.end));
        assert(Seq::<Diagnostic>::empty() + n.errors =~= Seq::<Diagnostic>::empty());
        if c == '-' {
            if char_at(s, i + 1) == '.' && is_dight(char_at(s, i + 2)) {
                lemma_number_end(s, i + 2);
            }
        }
    } else if c == '\\' {
        assert(s[i] != '\\');
    } else if c == '-' {
    } else if c == '\'' || c == '"' {
    } else if c == '$' {
    } else {
    }
}

} // verus!
