//! The token grammar, stated over the characters of the source.
//!
//! Everything here is specification: [`token_at`] says which token starts at a
//! position, where it ends, what it holds and which diagnostics it raises.
//! Positions are character indices; the spans of diagnostics are byte offsets,
//! as [`byte_offset`] gives them.
use std::ops::Range;
use vstd::prelude::*;

use crate::definitions::{
    is_dight, is_hex_digit, is_ident, is_ident_start, is_newline, is_whitespace, EOF_CHAR,
};
use crate::diagnostics::{Diagnostic, Span};
use crate::kind::Kind;
use crate::token::{TokenView, ValueView};
use crate::utf8::byte_offset;

verus! {

/// The character at position `i`, or [`EOF_CHAR`] outside the source.
pub open spec fn char_at(s: Seq<char>, i: int) -> char {
    if 0 <= i < s.len() {
        s[i]
    } else {
        EOF_CHAR
    }
}

/// The byte span of the characters from position `i` up to position `j`.
pub open spec fn span(s: Seq<char>, i: int, j: int) -> Span {
    Range { start: byte_offset(s, i) as usize, end: byte_offset(s, j) as usize }
}

/// The class of whitespace characters.
pub open spec fn whitespace() -> spec_fn(char) -> bool {
    |c: char| is_whitespace(c)
}

/// The class of characters that do not end a line.
pub open spec fn within_line() -> spec_fn(char) -> bool {
    |c: char| !is_newline(c)
}

/// The class of digits.
pub open spec fn digit() -> spec_fn(char) -> bool {
    |c: char| is_dight(c)
}

/// The end of the longest run of characters of class `class` that starts at
/// `i`: the first position from `i` on that holds no such character.
pub open spec fn run_end(s: Seq<char>, i: int, class: spec_fn(char) -> bool) -> int
    decreases s.len() - i,
{
    if 0 <= i < s.len() && class(s[i]) {
        run_end(s, i + 1, class)
    } else {
        i
    }
}

/// Where a block comment ends that is open `depth` levels deep at position `i`,
/// and whether it is closed there. `/*` opens one more level at any depth and
/// `*/` closes one; an unclosed comment runs to the end of the source.
pub open spec fn block_comment_end(s: Seq<char>, i: int, depth: nat) -> (int, bool)
    decreases s.len() - i,
{
    if depth == 0 {
        (i, true)
    } else if i < 0 || i >= s.len() {
        (i, false)
    } else if s[i] == '/' && char_at(s, i + 1) == '*' {
        block_comment_end(s, i + 2, depth + 1)
    } else if s[i] == '*' && char_at(s, i + 1) == '/' {
        block_comment_end(s, i + 2, (depth - 1) as nat)
    } else {
        block_comment_end(s, i + 1, depth)
    }
}

/// The end of the run of at most `limit` hex digits that starts at `i`.
pub open spec fn hex_end(s: Seq<char>, i: int, limit: nat) -> int
    decreases limit,
{
    if limit > 0 && 0 <= i < s.len() && is_hex_digit(s[i]) {
        hex_end(s, i + 1, (limit - 1) as nat)
    } else {
        i
    }
}

/// The value of one hex digit.
pub open spec fn hex_digit_value(c: char) -> nat {
    if '0' <= c <= '9' {
        (c as nat - '0' as nat) as nat
    } else if 'a' <= c <= 'f' {
        (c as nat - 'a' as nat + 10) as nat
    } else if 'A' <= c <= 'F' {
        (c as nat - 'A' as nat + 10) as nat
    } else {
        0
    }
}

/// The number that a sequence of hex digits writes.
pub open spec fn hex_value(digits: Seq<char>) -> nat
    decreases digits.len(),
{
    if digits.len() == 0 {
        0
    } else {
        hex_value(digits.drop_last()) * 16 + hex_digit_value(digits.last())
    }
}

/// Whether an escape may name the code point `n`: not zero, not a surrogate,
/// and not beyond U+10FFFF.
pub open spec fn is_valid_code_point(n: nat) -> bool {
    n != 0 && !(0xd800 <= n <= 0xdfff) && n <= 0x10ffff
}

/// What a backslash escape decodes to.
pub enum Escape {
    /// The source ends, or a line ends, right after the backslash.
    Missing,
    /// Hex digits that name no valid code point.
    Invalid,
    /// The decoded character.
    Char(char),
}

/// An escape as it stands in the source: where it ends and what it decodes to.
pub struct EscapeScan {
    pub end: int,
    pub outcome: Escape,
}

/// The escape whose backslash stands just before position `i`.
///
/// Up to six hex digits, with one whitespace character after them absorbed,
/// name a code point. Any other character, except a newline, stands for itself.
pub open spec fn escape_at(s: Seq<char>, i: int) -> EscapeScan {
    let c = char_at(s, i);
    if i >= s.len() || is_newline(c) {
        EscapeScan { end: i, outcome: Escape::Missing }
    } else if is_hex_digit(c) {
        let j = hex_end(s, i, 6);
        let end = if is_whitespace(char_at(s, j)) {
            j + 1
        } else {
            j
        };
        let n = hex_value(s.subrange(i, j));
        EscapeScan {
            end,
            outcome: if is_valid_code_point(n) {
                Escape::Char(n as char)
            } else {
                Escape::Invalid
            },
        }
    } else {
        EscapeScan { end: i + 1, outcome: Escape::Char(c) }
    }
}

/// The diagnostics of an escape inside the token that starts at `start`.
pub open spec fn escape_errors(s: Seq<char>, start: int, e: EscapeScan) -> Seq<Diagnostic> {
    match e.outcome {
        Escape::Missing => seq![Diagnostic::ExpectedEscapeSequence(span(s, start, e.end))],
        Escape::Invalid => seq![Diagnostic::InvalidUnicodeCodePoint(span(s, start, e.end))],
        Escape::Char(_) => Seq::empty(),
    }
}

/// The lower-case hex digit for `d < 16`.
pub open spec fn hex_digit(d: nat) -> char {
    if d < 10 {
        (48 + d) as char
    } else {
        (87 + d) as char
    }
}

/// The number `n` in lower-case hex digits, without leading zeros.
pub open spec fn lower_hex(n: nat) -> Seq<char>
    decreases n,
{
    if n < 16 {
        seq![hex_digit(n)]
    } else {
        lower_hex(n / 16).push(hex_digit(n % 16))
    }
}

/// The text that a decoded escape contributes to an identifier.
///
/// A character that may stand at this position of an identifier is taken as it
/// is. A digit at the start, or a control character anywhere, is written back
/// as a hex escape with a space after it. Any other character keeps its
/// backslash.
pub open spec fn escaped_text(c: char, ident_start: bool) -> Seq<char> {
    if (if ident_start {
        is_ident_start(c)
    } else {
        is_ident(c)
    }) {
        seq![c]
    } else if (ident_start && is_dight(c)) || c <= '\x1f' || c == '\x7f' {
        seq!['\\'] + lower_hex(c as nat) + seq![' ']
    } else {
        seq!['\\', c]
    }
}

/// A stretch of decoded text: where it ends in the source, the text, whether a
/// backslash occurred, and the diagnostics raised on the way.
pub struct Scan {
    pub end: int,
    pub text: Seq<char>,
    pub escaped: bool,
    pub errors: Seq<Diagnostic>,
}

impl Scan {
    /// No text, ending at `end`.
    pub open spec fn nothing(end: int) -> Scan {
        Scan { end, text: Seq::empty(), escaped: false, errors: Seq::empty() }
    }

    /// The single character `c` taken as it is, ending at `end`.
    pub open spec fn literal(end: int, c: char) -> Scan {
        Scan { end, text: seq![c], escaped: false, errors: Seq::empty() }
    }

    /// No text, ending at `end`, with one diagnostic.
    pub open spec fn failure(end: int, error: Diagnostic) -> Scan {
        Scan { end, text: Seq::empty(), escaped: false, errors: seq![error] }
    }

    /// This stretch with `next` after it.
    pub open spec fn followed_by(self, next: Scan) -> Scan {
        Scan {
            end: next.end,
            text: self.text + next.text,
            escaped: self.escaped || next.escaped,
            errors: self.errors + next.errors,
        }
    }
}

/// An escape inside an identifier of the token that starts at `start`; the
/// backslash stands just before position `i`.
pub open spec fn ident_escape(s: Seq<char>, i: int, start: int, ident_start: bool) -> Scan {
    let e = escape_at(s, i);
    Scan {
        end: e.end,
        text: match e.outcome {
            Escape::Char(c) => escaped_text(c, ident_start),
            _ => Seq::empty(),
        },
        escaped: true,
        errors: escape_errors(s, start, e),
    }
}

/// The rest of an identifier from position `i` on: ident characters and
/// escapes for as long as they last.
pub open spec fn ident_name(s: Seq<char>, i: int, start: int) -> Scan
    decreases s.len() - i,
{
    let c = char_at(s, i);
    if i < 0 || i >= s.len() {
        Scan::nothing(i)
    } else if is_ident(c) {
        Scan::literal(i + 1, c).followed_by(ident_name(s, i + 1, start))
    } else if c == '\\' {
        let e = ident_escape(s, i + 1, start, false);
        proof {
            lemma_escape_at(s, i + 1);
        }
        e.followed_by(ident_name(s, e.end, start))
    } else {
        Scan::nothing(i)
    }
}

/// The first character of an identifier at position `i`, then the rest of it.
/// Where no identifier starts, [`Diagnostic::ExpectedIdentifier`] is raised and
/// whatever identifier characters follow are taken all the same.
pub open spec fn ident_head(s: Seq<char>, i: int, start: int) -> Scan {
    let c = char_at(s, i);
    if is_ident_start(c) {
        Scan::literal(i + 1, c).followed_by(ident_name(s, i + 1, start))
    } else if c == '\\' {
        let e = ident_escape(s, i + 1, start, true);
        e.followed_by(ident_name(s, e.end, start))
    } else {
        Scan::failure(i, Diagnostic::ExpectedIdentifier(span(s, start, i))).followed_by(
            ident_name(s, i, start),
        )
    }
}

/// An identifier at position `i`: an optional `-` or `--`, then the identifier
/// proper. After `--` any identifier characters may follow, or none.
pub open spec fn identifier(s: Seq<char>, i: int, start: int) -> Scan {
    if char_at(s, i) == '-' {
        if char_at(s, i + 1) == '-' {
            Scan::literal(i + 1, '-').followed_by(Scan::literal(i + 2, '-')).followed_by(
                ident_name(s, i + 2, start),
            )
        } else {
            Scan::literal(i + 1, '-').followed_by(ident_head(s, i + 1, start))
        }
    } else {
        ident_head(s, i, start)
    }
}

/// An escape inside a string: the decoded character stands for itself.
pub open spec fn string_escape(s: Seq<char>, i: int, start: int) -> Scan {
    let e = escape_at(s, i);
    Scan {
        end: e.end,
        text: match e.outcome {
            Escape::Char(c) => seq![c],
            _ => Seq::empty(),
        },
        escaped: true,
        errors: escape_errors(s, start, e),
    }
}

/// The body of a string from position `i` on, up to and including the closing
/// `quote`. A newline ends the string before it, and so does the end of the
/// source; both raise a diagnostic.
pub open spec fn string_body(s: Seq<char>, i: int, quote: char, start: int) -> Scan
    decreases s.len() - i,
{
    let c = char_at(s, i);
    if i < 0 || i >= s.len() {
        Scan::failure(i, Diagnostic::UnexpectedEnd(span(s, i, i)))
    } else if c == quote {
        Scan::nothing(i + 1)
    } else if is_newline(c) {
        Scan::failure(i, Diagnostic::InvalidCharacter(c, span(s, i, i)))
    } else if c == '\\' {
        let e = string_escape(s, i + 1, start);
        proof {
            lemma_escape_at(s, i + 1);
        }
        e.followed_by(string_body(s, e.end, quote, start))
    } else {
        Scan::literal(i + 1, c).followed_by(string_body(s, i + 1, quote, start))
    }
}

/// The shape of a numeric literal: where it ends, whether a fraction or an
/// exponent makes it a float, and the diagnostics raised on the way.
pub struct NumberScan {
    pub end: int,
    pub float: bool,
    pub errors: Seq<Diagnostic>,
}

/// A run of digits at position `i` that must hold at least one digit.
pub open spec fn digits(s: Seq<char>, i: int) -> NumberScan {
    if is_dight(char_at(s, i)) {
        NumberScan { end: run_end(s, i, digit()), float: false, errors: Seq::empty() }
    } else {
        NumberScan { end: i, float: false, errors: seq![Diagnostic::ExpectedDigit(span(s, i, i))] }
    }
}

/// An optional exponent at position `i`: `e` or `E`, an optional sign, digits.
pub open spec fn exponent(s: Seq<char>, i: int) -> NumberScan {
    let c = char_at(s, i);
    if c == 'e' || c == 'E' {
        let sign = char_at(s, i + 1);
        let d = digits(
            s,
            if sign == '+' || sign == '-' {
                i + 2
            } else {
                i + 1
            },
        );
        NumberScan { end: d.end, float: true, errors: d.errors }
    } else {
        NumberScan { end: i, float: false, errors: Seq::empty() }
    }
}

/// What follows the decimal point of a number; `i` is just past the point.
pub open spec fn fraction(s: Seq<char>, i: int) -> NumberScan {
    let d = digits(s, i);
    let e = exponent(s, d.end);
    NumberScan { end: e.end, float: true, errors: d.errors + e.errors }
}

/// A number whose integer part starts at position `i`.
pub open spec fn number(s: Seq<char>, i: int) -> NumberScan {
    let j = run_end(s, i, digit());
    if char_at(s, j) == '.' {
        fraction(s, j + 1)
    } else {
        exponent(s, j)
    }
}

/// The token kind of a punctuation character that forms a token by itself.
pub open spec fn punctuation(c: char) -> Option<Kind> {
    if c == '&' {
        Some(Kind::Amp)
    } else if c == '@' {
        Some(Kind::At)
    } else if c == '!' {
        Some(Kind::Bang)
    } else if c == '[' {
        Some(Kind::BracketL)
    } else if c == ']' {
        Some(Kind::BracketR)
    } else if c == '^' {
        Some(Kind::Caret)
    } else if c == ':' {
        Some(Kind::Colon)
    } else if c == ',' {
        Some(Kind::Comma)
    } else if c == '{' {
        Some(Kind::CurlyL)
    } else if c == '}' {
        Some(Kind::CurlyR)
    } else if c == '$' {
        Some(Kind::Dollar)
    } else if c == '.' {
        Some(Kind::Dot)
    } else if c == '=' {
        Some(Kind::Eq)
    } else if c == '-' {
        Some(Kind::Minus)
    } else if c == '(' {
        Some(Kind::ParenL)
    } else if c == ')' {
        Some(Kind::ParenR)
    } else if c == '%' {
        Some(Kind::Percentage)
    } else if c == '+' {
        Some(Kind::Plus)
    } else if c == '#' {
        Some(Kind::Pound)
    } else if c == ';' {
        Some(Kind::Semicolon)
    } else if c == '/' {
        Some(Kind::Slash)
    } else if c == '*' {
        Some(Kind::Star)
    } else if c == '~' {
        Some(Kind::Tilde)
    } else if c == '>' {
        Some(Kind::Gt)
    } else if c == '<' {
        Some(Kind::Lt)
    } else {
        None
    }
}

/// A token as the grammar defines it: its kind, the character positions it
/// covers, and what it holds.
pub struct Lexeme {
    pub kind: Kind,
    pub start: int,
    pub end: int,
    pub escaped: bool,
    pub value: ValueView,
    pub errors: Seq<Diagnostic>,
}

impl Lexeme {
    /// The token record of this token of the source `s`: the same, with byte
    /// offsets in place of character positions.
    pub open spec fn token(self, s: Seq<char>) -> TokenView {
        TokenView {
            kind: self.kind,
            start: byte_offset(s, self.start) as usize,
            end: byte_offset(s, self.end) as usize,
            escaped: self.escaped,
            value: self.value,
        }
    }

    /// A token without value or diagnostics.
    pub open spec fn plain(kind: Kind, start: int, end: int) -> Lexeme {
        Lexeme {
            kind,
            start,
            end,
            escaped: false,
            value: ValueView::Empty,
            errors: Seq::empty(),
        }
    }

    /// A token that holds decoded text.
    pub open spec fn text(kind: Kind, start: int, scan: Scan) -> Lexeme {
        Lexeme {
            kind,
            start,
            end: scan.end,
            escaped: scan.escaped,
            value: ValueView::String(scan.text),
            errors: scan.errors,
        }
    }

    /// A numeric token; its value is the literal as it stands in the source.
    pub open spec fn numeric(s: Seq<char>, start: int, scan: NumberScan) -> Lexeme {
        Lexeme {
            kind: if scan.float {
                Kind::Float
            } else {
                Kind::Number
            },
            start,
            end: scan.end,
            escaped: false,
            value: ValueView::Number(s.subrange(start, scan.end)),
            errors: scan.errors,
        }
    }
}

/// The block comment whose `/*` stands at position `i`.
pub open spec fn block_comment(s: Seq<char>, i: int) -> Lexeme {
    let (end, closed) = block_comment_end(s, i + 2, 1);
    if closed {
        Lexeme::plain(Kind::BlockComment, i, end)
    } else {
        Lexeme {
            kind: Kind::EOF,
            start: i,
            end,
            escaped: false,
            value: ValueView::Empty,
            errors: seq![Diagnostic::UnterminatedBlockComment(span(s, i, end))],
        }
    }
}

/// The token that starts with the `-` at position `i`.
pub open spec fn minus_token(s: Seq<char>, i: int) -> Lexeme {
    let c1 = char_at(s, i + 1);
    let c2 = char_at(s, i + 2);
    if is_dight(c1) {
        Lexeme::numeric(s, i, number(s, i + 1))
    } else if c1 == '.' && is_dight(c2) {
        Lexeme::numeric(s, i, fraction(s, i + 2))
    } else if c1 == '-' && c2 == '>' {
        Lexeme::plain(Kind::CDC, i, i + 3)
    } else if is_ident(c1) {
        Lexeme::text(
            Kind::Ident,
            i,
            Scan::literal(i + 1, '-').followed_by(ident_name(s, i + 1, i)),
        )
    } else {
        Lexeme::plain(Kind::Minus, i, i + 1)
    }
}

/// The token that starts with the `/` at position `i`: a comment or a slash.
pub open spec fn slash_token(s: Seq<char>, i: int) -> Lexeme {
    let c1 = char_at(s, i + 1);
    if c1 == '/' {
        Lexeme::plain(Kind::LineComment, i, run_end(s, i + 2, within_line()))
    } else if c1 == '*' {
        block_comment(s, i)
    } else {
        Lexeme::plain(Kind::Slash, i, i + 1)
    }
}

/// The identifier that starts with the ident-start character at position `i`.
pub open spec fn ident_token(s: Seq<char>, i: int) -> Lexeme {
    Lexeme::text(Kind::Ident, i, Scan::literal(i + 1, s[i]).followed_by(ident_name(s, i + 1, i)))
}

/// The identifier that starts with the backslash at position `i`.
pub open spec fn escaped_ident_token(s: Seq<char>, i: int) -> Lexeme {
    let e = ident_escape(s, i + 1, i, true);
    Lexeme::text(Kind::Ident, i, e.followed_by(ident_name(s, e.end, i)))
}

/// The string that starts with the quote at position `i`. Its value is the
/// decoded text between the quotes.
pub open spec fn string_token(s: Seq<char>, i: int) -> Lexeme {
    Lexeme::text(Kind::Str, i, string_body(s, i + 1, s[i], i))
}

/// The token that starts with the `.` at position `i`: a number that starts
/// with its decimal point, `...` under Sass, or a dot.
pub open spec fn dot_token(s: Seq<char>, i: int, sass: bool) -> Lexeme {
    if is_dight(char_at(s, i + 1)) {
        Lexeme::numeric(s, i, fraction(s, i + 1))
    } else if sass && char_at(s, i + 1) == '.' && char_at(s, i + 2) == '.' {
        Lexeme::plain(Kind::Dot3, i, i + 3)
    } else {
        Lexeme::plain(Kind::Dot, i, i + 1)
    }
}

/// Whether a variable name may start with the character `c`.
pub open spec fn opens_variable(c: char) -> bool {
    is_ident_start(c) || c == '-' || c == '\\'
}

/// The token that starts with the `$` at position `i`: under Sass a variable,
/// where an identifier follows, and a dollar sign otherwise.
pub open spec fn dollar_token(s: Seq<char>, i: int, sass: bool) -> Lexeme {
    if sass && opens_variable(char_at(s, i + 1)) {
        Lexeme::text(
            Kind::Variable,
            i,
            Scan::literal(i + 1, '$').followed_by(identifier(s, i + 1, i)),
        )
    } else {
        Lexeme::plain(Kind::Dollar, i, i + 1)
    }
}

/// The token that starts with the `<` at position `i`.
pub open spec fn lt_token(s: Seq<char>, i: int, sass: bool) -> Lexeme {
    if char_at(s, i + 1) == '!' && char_at(s, i + 2) == '-' && char_at(s, i + 3) == '-' {
        Lexeme::plain(Kind::CDO, i, i + 4)
    } else if sass && char_at(s, i + 1) == '=' {
        Lexeme::plain(Kind::LtEq, i, i + 2)
    } else {
        Lexeme::plain(Kind::Lt, i, i + 1)
    }
}

/// The token that starts with the `>` at position `i`.
pub open spec fn gt_token(s: Seq<char>, i: int, sass: bool) -> Lexeme {
    if sass && char_at(s, i + 1) == '=' {
        Lexeme::plain(Kind::GtEq, i, i + 2)
    } else {
        Lexeme::plain(Kind::Gt, i, i + 1)
    }
}

/// The token that starts with the `!` at position `i`.
pub open spec fn bang_token(s: Seq<char>, i: int, sass: bool) -> Lexeme {
    if sass && char_at(s, i + 1) == '=' {
        Lexeme::plain(Kind::Neq, i, i + 2)
    } else {
        Lexeme::plain(Kind::Bang, i, i + 1)
    }
}

/// The token of the single character at position `i`: punctuation, or an
/// unknown token with a diagnostic for a character that no rule accepts.
pub open spec fn punctuation_token(s: Seq<char>, i: int) -> Lexeme {
    match punctuation(s[i]) {
        Some(kind) => Lexeme::plain(kind, i, i + 1),
        None => Lexeme {
            kind: Kind::Unknown,
            start: i,
            end: i + 1,
            escaped: false,
            value: ValueView::Empty,
            errors: seq![Diagnostic::InvalidCharacter(s[i], span(s, i, i + 1))],
        },
    }
}

/// The token that starts at position `i` of the source `s`. With `sass` the
/// tokens that only the Sass dialects have are recognised as well: variables,
/// `...`, `>=`, `<=` and `!=`.
///
/// At the end of the source this is an empty [`Kind::EOF`] token.
#[verifier::opaque]
pub open spec fn token_at(s: Seq<char>, i: int, sass: bool) -> Lexeme {
    if i < 0 || i >= s.len() {
        Lexeme::plain(Kind::EOF, i, i)
    } else {
        let c = s[i];
        if c == '/' {
            slash_token(s, i)
        } else if is_whitespace(c) {
            Lexeme::plain(Kind::Whitespace, i, run_end(s, i + 1, whitespace()))
        } else if is_ident_start(c) {
            ident_token(s, i)
        } else if is_dight(c) {
            Lexeme::numeric(s, i, number(s, i))
        } else if c == '\\' {
            escaped_ident_token(s, i)
        } else if c == '\'' || c == '"' {
            string_token(s, i)
        } else if c == '-' {
            minus_token(s, i)
        } else if c == '.' {
            dot_token(s, i, sass)
        } else if c == '$' {
            dollar_token(s, i, sass)
        } else if c == '<' {
            lt_token(s, i, sass)
        } else if c == '>' {
            gt_token(s, i, sass)
        } else if c == '!' {
            bang_token(s, i, sass)
        } else {
            punctuation_token(s, i)
        }
    }
}

/// Positions do not run backwards along a run, nor past the end of the source;
/// the run holds only characters of the class, and stops at one that is not.
pub proof fn lemma_run_end(s: Seq<char>, i: int, class: spec_fn(char) -> bool)
    requires
        0 <= i <= s.len(),
    ensures
        i <= run_end(s, i, class) <= s.len(),
        forall|k: int| i <= k < run_end(s, i, class) ==> class(#[trigger] s[k]),
        run_end(s, i, class) < s.len() ==> !class(s[run_end(s, i, class)]),
    decreases s.len() - i,
{
    if i < s.len() && class(s[i]) {
        lemma_run_end(s, i + 1, class);
    }
}

/// A block comment ends within the source, past where its scan began; one that
/// is not closed ends at the end of the source.
pub proof fn lemma_block_comment_end(s: Seq<char>, i: int, depth: nat)
    requires
        0 <= i <= s.len(),
    ensures
        i <= block_comment_end(s, i, depth).0 <= s.len(),
        !block_comment_end(s, i, depth).1 ==> block_comment_end(s, i, depth).0 == s.len(),
    decreases s.len() - i,
{
    if depth == 0 {
    } else if i >= s.len() {
    } else if s[i] == '/' && char_at(s, i + 1) == '*' {
        lemma_block_comment_end(s, i + 2, depth + 1);
    } else if s[i] == '*' && char_at(s, i + 1) == '/' {
        lemma_block_comment_end(s, i + 2, (depth - 1) as nat);
    } else {
        lemma_block_comment_end(s, i + 1, depth);
    }
}

/// A run of hex digits stays within its limit and within the source.
pub proof fn lemma_hex_end(s: Seq<char>, i: int, limit: nat)
    requires
        0 <= i <= s.len(),
    ensures
        i <= hex_end(s, i, limit) <= s.len(),
        hex_end(s, i, limit) <= i + limit,
        forall|k: int| i <= k < hex_end(s, i, limit) ==> is_hex_digit(#[trigger] s[k]),
        i < s.len() && is_hex_digit(s[i]) && limit > 0 ==> i < hex_end(s, i, limit),
    decreases limit,
{
    if limit > 0 && i < s.len() && is_hex_digit(s[i]) {
        lemma_hex_end(s, i + 1, (limit - 1) as nat);
    }
}

/// An escape ends within the source, and past where it began unless nothing
/// follows the backslash.
pub proof fn lemma_escape_at(s: Seq<char>, i: int)
    requires
        0 <= i <= s.len(),
    ensures
        i <= escape_at(s, i).end <= s.len(),
        !(escape_at(s, i).outcome is Missing) ==> i < escape_at(s, i).end,
{
    lemma_hex_end(s, i, 6);
}

} // verus!
