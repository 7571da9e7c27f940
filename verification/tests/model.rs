use scr_parser::definitions::{
    is_dight, is_hex_digit, is_ident, is_ident_start, is_letter, is_newline, is_non_ascii,
    is_non_printable, is_whitespace, EOF_CHAR,
};
use scr_parser::diagnostics::{Diagnostic, Diagnostics};
use scr_parser::kind::Kind;
use scr_parser::source_type::{SourceType, Syntax};
use scr_parser::token::{Token, TokenValue};
use scr_parser::utf8::len_utf8;

#[test]
fn digits() {
    assert!(is_dight('0') && is_dight('9'));
    assert!(!is_dight('/') && !is_dight(':') && !is_dight('a') && !is_dight('\u{661}'));
}

#[test]
fn hex_digits() {
    for c in "0123456789abcdefABCDEF".chars() {
        assert!(is_hex_digit(c));
    }
    for c in "gG@`/:".chars() {
        assert!(!is_hex_digit(c));
    }
}

#[test]
fn letters() {
    assert!(is_letter('a') && is_letter('z') && is_letter('A') && is_letter('Z'));
    assert!(!is_letter('@') && !is_letter('[') && !is_letter('`') && !is_letter('{'));
    assert!(!is_letter('\u{e9}'));
}

#[test]
fn non_ascii() {
    assert!(is_non_ascii('\u{80}') && is_non_ascii('\u{10ffff}'));
    assert!(!is_non_ascii('\u{7f}') && !is_non_ascii('a'));
}

#[test]
fn ident_start_and_ident() {
    assert!(is_ident_start('a') && is_ident_start('_') && is_ident_start('\u{e9}'));
    assert!(!is_ident_start('1') && !is_ident_start('-') && !is_ident_start(EOF_CHAR));
    assert!(is_ident('a') && is_ident('1') && is_ident('-') && is_ident('_'));
    assert!(!is_ident(' ') && !is_ident('\\') && !is_ident(EOF_CHAR));
}

#[test]
fn non_printable() {
    for c in ['\0', '\x08', '\x0b', '\x0e', '\x1f', '\x7f'] {
        assert!(is_non_printable(c));
    }
    for c in ['\t', '\n', '\x0c', '\r', ' ', 'a', '\u{80}'] {
        assert!(!is_non_printable(c));
    }
}

#[test]
fn newline_and_whitespace() {
    assert!(is_newline('\n') && is_newline('\r') && is_newline('\x0c'));
    assert!(!is_newline(' ') && !is_newline('\t') && !is_newline('\x0b'));
    assert!(is_whitespace('\n') && is_whitespace('\t') && is_whitespace(' '));
    assert!(!is_whitespace('\x0b') && !is_whitespace('\u{a0}') && !is_whitespace(EOF_CHAR));
}

#[test]
fn encoded_lengths() {
    for c in ['\0', 'a', '\u{7f}', '\u{80}', '\u{7ff}', '\u{800}', '\u{ffff}', '\u{10000}', '\u{10ffff}'] {
        assert_eq!(len_utf8(c), c.len_utf8());
    }
}

#[test]
fn kind_display_strings() {
    assert_eq!(Kind::Unknown.to_str(), "Unknown");
    assert_eq!(Kind::EOF.to_str(), "EOF");
    assert_eq!(Kind::Whitespace.to_str(), " ");
    assert_eq!(Kind::LineComment.to_str(), "//");
    assert_eq!(Kind::BlockComment.to_str(), "/* */");
    assert_eq!(Kind::Ident.to_str(), "Identifier");
    assert_eq!(Kind::Str.to_str(), "String");
    assert_eq!(Kind::Dot3.to_str(), "...");
    assert_eq!(Kind::Eq2.to_str(), "==");
    assert_eq!(Kind::GtEq.to_str(), ">=");
    assert_eq!(Kind::LtEq.to_str(), "<=");
    assert_eq!(Kind::Neq.to_str(), "!=");
    assert_eq!(Kind::CDO.to_str(), "<!--");
    assert_eq!(Kind::CDC.to_str(), "-->");
    assert_eq!(Kind::Tilde.to_str(), "~");
    assert_eq!(Kind::Pound.to_str(), "#");
}

#[test]
fn trivia_kinds() {
    assert!(Kind::Whitespace.is_trivia());
    assert!(Kind::LineComment.is_trivia());
    assert!(Kind::BlockComment.is_trivia());
    assert!(!Kind::Ident.is_trivia() && !Kind::EOF.is_trivia() && !Kind::Unknown.is_trivia());
}

#[test]
fn defaults() {
    assert_eq!(Kind::default(), Kind::EOF);
    assert_eq!(SourceType::default().syntax(), Syntax::Scss);
    let token = Token::default();
    assert_eq!(token.kind, Kind::EOF);
    assert_eq!(token.range(), 0..0);
    assert!(!token.escaped);
    assert_eq!(token.value, TokenValue::Empty);
    assert_eq!(TokenValue::default(), TokenValue::Empty);
    assert!(Diagnostics::default().is_empty());
}

#[test]
fn token_clone_is_equal() {
    let token = Token {
        kind: Kind::Ident,
        start: 3,
        end: 6,
        escaped: true,
        value: TokenValue::String("abc".to_string()),
    };
    assert_eq!(token.clone(), token);
    assert_eq!(token.range(), 3..6);
}

#[test]
fn source_type_from_path() {
    let any = SourceType::default();
    assert_eq!(any.from_path("a/b.css").syntax(), Syntax::Css);
    assert_eq!(any.from_path("a/b.sass").syntax(), Syntax::Sass);
    assert_eq!(any.from_path("a/b.scss").syntax(), Syntax::Scss);
    assert_eq!(any.from_path("a/b.txt").syntax(), Syntax::Scss);
    assert_eq!(any.from_path("a.css/b").syntax(), Syntax::Scss);
    assert_eq!(any.from_path(".css").syntax(), Syntax::Scss);
    assert_eq!(any.from_path("css").syntax(), Syntax::Scss);
    assert_eq!(any.from_path("").syntax(), Syntax::Scss);
}

#[test]
fn source_type_from_extension() {
    assert_eq!(SourceType::from_extension(Some("css")).syntax(), Syntax::Css);
    assert_eq!(SourceType::from_extension(Some("sass")).syntax(), Syntax::Sass);
    assert_eq!(SourceType::from_extension(Some("scss")).syntax(), Syntax::Scss);
    assert_eq!(SourceType::from_extension(Some("CSS")).syntax(), Syntax::Scss);
    assert_eq!(SourceType::from_extension(None).syntax(), Syntax::Scss);
}

#[test]
fn sass_tokens_by_dialect() {
    assert!(!SourceType { syntax: Syntax::Css }.allows_sass_tokens());
    assert!(SourceType { syntax: Syntax::Scss }.allows_sass_tokens());
    assert!(SourceType { syntax: Syntax::Sass }.allows_sass_tokens());
}

#[test]
fn diagnostics_grow_in_order_and_drain_once() {
    let mut list = Diagnostics::new();
    assert!(list.is_empty());
    list.push(Diagnostic::Panic(0..1));
    list.push(Diagnostic::UnexpectedEnd(1..1));
    assert_eq!(list.len(), 2);
    assert!(!list.is_empty());
    assert_eq!(
        list.into_inner(),
        vec![Diagnostic::Panic(0..1), Diagnostic::UnexpectedEnd(1..1)]
    );
}

#[test]
fn diagnostic_clone_is_equal() {
    let all = vec![
        Diagnostic::Panic(0..1),
        Diagnostic::UnexpectedEnd(1..2),
        Diagnostic::ExpectedDigit(2..3),
        Diagnostic::InvalidCharacter('x', 3..4),
        Diagnostic::InvalidNumber("invalid float", 4..5),
        Diagnostic::UnterminatedBlockComment(5..6),
        Diagnostic::InvalidUnicodeCodePoint(6..7),
        Diagnostic::ExpectedIdentifier(7..8),
        Diagnostic::ExpectedEscapeSequence(8..9),
        Diagnostic::ExceptedToken,
    ];
    for diagnostic in &all {
        assert_eq!(&diagnostic.clone(), diagnostic);
    }
}
