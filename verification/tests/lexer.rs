use scr_parser::diagnostics::{Diagnostic, Diagnostics};
use scr_parser::kind::Kind;
use scr_parser::lexer::{tokenize, Lexer};
use scr_parser::source_type::{SourceType, Syntax};
use scr_parser::token::{Token, TokenValue};

fn scss(source: &str) -> (Vec<Token>, Vec<Diagnostic>) {
    let (tokens, errors) = tokenize(source, SourceType::default());
    (tokens, errors.into_inner())
}

fn css(source: &str) -> (Vec<Token>, Vec<Diagnostic>) {
    let (tokens, errors) = tokenize(source, SourceType { syntax: Syntax::Css });
    (tokens, errors.into_inner())
}

fn kinds(tokens: &[Token]) -> Vec<Kind> {
    tokens.iter().map(|t| t.kind).collect()
}

fn text(token: &Token) -> &str {
    match &token.value {
        TokenValue::String(text) => text,
        other => panic!("no text in {other:?}"),
    }
}

fn number(token: &Token) -> f64 {
    match &token.value {
        TokenValue::Number(text) => text.parse::<f64>().unwrap(),
        other => panic!("no number in {other:?}"),
    }
}

#[test]
fn empty_source_is_one_eof() {
    let (tokens, errors) = scss("");
    assert_eq!(kinds(&tokens), vec![Kind::EOF]);
    assert_eq!((tokens[0].start, tokens[0].end), (0, 0));
    assert_eq!(tokens[0].value, TokenValue::Empty);
    assert!(errors.is_empty());
}

#[test]
fn eof_is_idempotent() {
    let mut lexer = Lexer::new("a", Diagnostics::new(), SourceType::default());
    assert_eq!(lexer.next_token().kind, Kind::Ident);
    for _ in 0..3 {
        let token = lexer.next_token();
        assert_eq!(token.kind, Kind::EOF);
        assert_eq!((token.start, token.end), (1, 1));
    }
    assert!(lexer.into_errors().is_empty());
}

#[test]
fn every_stream_ends_with_its_only_eof() {
    for source in ["", "a b", "/* x", "1.5e3 'str' $v", "\u{e9}\u{4e2d}\u{1f600}", "\\", "`", "\"open"] {
        for syntax in [Syntax::Css, Syntax::Scss, Syntax::Sass] {
            let (tokens, _) = tokenize(source, SourceType { syntax });
            let (last, before) = tokens.split_last().unwrap();
            assert_eq!(last.kind, Kind::EOF);
            assert!(before.iter().all(|t| t.kind != Kind::EOF && t.start < t.end));
            assert!(tokens.len() <= source.chars().count() + 1);
        }
    }
}

#[test]
fn spans_tile_the_source() {
    let source = "a { b: -1.5e3 /* c /* d */ */ \u{e9}x: 'q\\41 '; } // end\n$v... <!-- -->";
    let (tokens, _) = scss(source);
    let mut at = 0;
    let mut rebuilt = String::new();
    for token in &tokens {
        assert_eq!(token.start, at);
        assert!(token.start <= token.end);
        rebuilt.push_str(&source[token.start..token.end]);
        at = token.end;
    }
    assert_eq!(at, source.len());
    assert_eq!(rebuilt, source);
}

#[test]
fn spans_tile_a_source_with_errors() {
    let source = "a`b 1. \\\n /* open";
    let (tokens, errors) = scss(source);
    let mut at = 0;
    for token in &tokens {
        assert_eq!(token.start, at);
        at = token.end;
    }
    assert_eq!(at, source.len());
    assert!(!errors.is_empty());
}

#[test]
fn offsets_are_bytes_not_characters() {
    let (tokens, errors) = scss("\u{e9}\u{4e2d} \u{1f600}a");
    assert_eq!(kinds(&tokens), vec![Kind::Ident, Kind::Whitespace, Kind::Ident, Kind::EOF]);
    assert_eq!((tokens[0].start, tokens[0].end), (0, 5));
    assert_eq!((tokens[1].start, tokens[1].end), (5, 6));
    assert_eq!((tokens[2].start, tokens[2].end), (6, 11));
    assert_eq!((tokens[3].start, tokens[3].end), (11, 11));
    assert_eq!(text(&tokens[0]), "\u{e9}\u{4e2d}");
    assert_eq!(text(&tokens[2]), "\u{1f600}a");
    assert!(errors.is_empty());
}

#[test]
fn unescaped_identifier_is_the_source_slice() {
    for source in ["foo", "_a-b9", "--custom-prop", "-foo", "caf\u{e9}"] {
        let (tokens, errors) = scss(source);
        assert_eq!(kinds(&tokens), vec![Kind::Ident, Kind::EOF]);
        assert_eq!(text(&tokens[0]), source);
        assert!(!tokens[0].escaped);
        assert_eq!(tokens[0].range(), 0..source.len());
        assert!(errors.is_empty());
    }
}

#[test]
fn escape_decodes_hex_and_absorbs_one_space() {
    let (tokens, errors) = scss("a\\41 b");
    assert_eq!(kinds(&tokens), vec![Kind::Ident, Kind::EOF]);
    assert_eq!(text(&tokens[0]), "aAb");
    assert!(tokens[0].escaped);
    assert_eq!((tokens[0].start, tokens[0].end), (0, 6));
    assert!(errors.is_empty());
}

#[test]
fn escape_at_the_start_opens_an_identifier() {
    let (tokens, errors) = scss("\\41 bc");
    assert_eq!(kinds(&tokens), vec![Kind::Ident, Kind::EOF]);
    assert_eq!(text(&tokens[0]), "Abc");
    assert!(tokens[0].escaped);
    assert!(errors.is_empty());
}

#[test]
fn escape_takes_at_most_six_hex_digits() {
    let (tokens, errors) = scss("\\0000411");
    assert_eq!(kinds(&tokens), vec![Kind::Ident, Kind::EOF]);
    assert_eq!(text(&tokens[0]), "A1");
    assert!(errors.is_empty());
}

#[test]
fn escape_of_a_large_code_point() {
    let (tokens, errors) = scss("x\\1F600");
    assert_eq!(text(&tokens[0]), "x\u{1f600}");
    assert!(errors.is_empty());
}

#[test]
fn escape_of_null_is_invalid() {
    let (tokens, errors) = scss("a\\0");
    assert_eq!(kinds(&tokens), vec![Kind::Ident, Kind::EOF]);
    assert_eq!(text(&tokens[0]), "a");
    assert!(tokens[0].escaped);
    assert_eq!(errors, vec![Diagnostic::InvalidUnicodeCodePoint(0..3)]);
}

#[test]
fn escape_of_a_surrogate_is_invalid() {
    let (tokens, errors) = scss("a\\d800");
    assert_eq!(kinds(&tokens), vec![Kind::Ident, Kind::EOF]);
    assert_eq!(text(&tokens[0]), "a");
    assert_eq!(errors, vec![Diagnostic::InvalidUnicodeCodePoint(0..6)]);
}

#[test]
fn escape_beyond_the_last_code_point_is_invalid() {
    let (_, errors) = scss("a\\110000");
    assert_eq!(errors, vec![Diagnostic::InvalidUnicodeCodePoint(0..8)]);
    let (tokens, errors) = scss("a\\10FFFF");
    assert_eq!(text(&tokens[0]), "a\u{10ffff}");
    assert!(errors.is_empty());
}

#[test]
fn escape_before_a_newline_or_the_end_is_missing() {
    let (tokens, errors) = scss("a\\\nb");
    assert_eq!(kinds(&tokens), vec![Kind::Ident, Kind::Whitespace, Kind::Ident, Kind::EOF]);
    assert_eq!(text(&tokens[0]), "a");
    assert!(tokens[0].escaped);
    assert_eq!(errors, vec![Diagnostic::ExpectedEscapeSequence(0..2)]);

    let (tokens, errors) = scss("\\");
    assert_eq!(kinds(&tokens), vec![Kind::Ident, Kind::EOF]);
    assert_eq!(text(&tokens[0]), "");
    assert_eq!(errors, vec![Diagnostic::ExpectedEscapeSequence(0..1)]);
}

#[test]
fn escaped_digit_at_the_start_is_written_back_as_hex() {
    let (tokens, errors) = scss("\\31 a");
    assert_eq!(text(&tokens[0]), "\\31 a");
    assert!(errors.is_empty());
    // Past the start a digit may stand as it is.
    let (tokens, _) = scss("a\\31 ");
    assert_eq!(text(&tokens[0]), "a1");
}

#[test]
fn escaped_control_character_is_written_back_as_hex() {
    let (tokens, _) = scss("a\\9 b");
    assert_eq!(text(&tokens[0]), "a\\9 b");
    let (tokens, _) = scss("a\\1f b");
    assert_eq!(text(&tokens[0]), "a\\1f b");
    let (tokens, _) = scss("a\\7F b");
    assert_eq!(text(&tokens[0]), "a\\7f b");
}

#[test]
fn escaped_punctuation_keeps_its_backslash() {
    let (tokens, errors) = scss("a\\.b");
    assert_eq!(kinds(&tokens), vec![Kind::Ident, Kind::EOF]);
    assert_eq!(text(&tokens[0]), "a\\.b");
    assert!(tokens[0].escaped);
    assert!(errors.is_empty());
}

#[test]
fn integer_is_a_number() {
    let (tokens, errors) = scss("10");
    assert_eq!(kinds(&tokens), vec![Kind::Number, Kind::EOF]);
    assert_eq!(tokens[0].value, TokenValue::Number("10".to_string()));
    assert_eq!(number(&tokens[0]), 10.0);
    assert!(errors.is_empty());
}

#[test]
fn fraction_is_a_float() {
    let (tokens, errors) = scss("10.5");
    assert_eq!(kinds(&tokens), vec![Kind::Float, Kind::EOF]);
    assert_eq!(number(&tokens[0]), 10.5);
    assert!(errors.is_empty());
}

#[test]
fn exponent_is_a_float() {
    let (tokens, errors) = scss("1e3");
    assert_eq!(kinds(&tokens), vec![Kind::Float, Kind::EOF]);
    assert_eq!(number(&tokens[0]), 1000.0);
    assert!(errors.is_empty());
    let (tokens, _) = scss("2.5E-2");
    assert_eq!(kinds(&tokens), vec![Kind::Float, Kind::EOF]);
    assert_eq!(number(&tokens[0]), 0.025);
    let (tokens, _) = scss("1e+2");
    assert_eq!(number(&tokens[0]), 100.0);
}

#[test]
fn point_without_digits_expects_a_digit() {
    let (tokens, errors) = scss("1.");
    assert_eq!(kinds(&tokens), vec![Kind::Float, Kind::EOF]);
    assert_eq!(tokens[0].value, TokenValue::Number("1.".to_string()));
    assert_eq!(errors, vec![Diagnostic::ExpectedDigit(2..2)]);
}

#[test]
fn exponent_without_digits_expects_a_digit() {
    let (tokens, errors) = scss("1em");
    assert_eq!(kinds(&tokens), vec![Kind::Float, Kind::Ident, Kind::EOF]);
    assert_eq!(tokens[0].value, TokenValue::Number("1e".to_string()));
    assert_eq!(text(&tokens[1]), "m");
    assert_eq!(errors, vec![Diagnostic::ExpectedDigit(2..2)]);
}

#[test]
fn number_may_start_with_its_point() {
    let (tokens, errors) = scss(".5");
    assert_eq!(kinds(&tokens), vec![Kind::Float, Kind::EOF]);
    assert_eq!(number(&tokens[0]), 0.5);
    assert!(errors.is_empty());
    let (tokens, _) = scss("-.5");
    assert_eq!(kinds(&tokens), vec![Kind::Float, Kind::EOF]);
    assert_eq!(number(&tokens[0]), -0.5);
}

#[test]
fn nested_block_comment_is_one_token() {
    let source = "/* a /* b */ c */";
    let (tokens, errors) = scss(source);
    assert_eq!(kinds(&tokens), vec![Kind::BlockComment, Kind::EOF]);
    assert_eq!((tokens[0].start, tokens[0].end), (0, source.len()));
    assert!(errors.is_empty());
}

#[test]
fn block_comment_ends_at_its_own_close() {
    let (tokens, errors) = scss("/**/a");
    assert_eq!(kinds(&tokens), vec![Kind::BlockComment, Kind::Ident, Kind::EOF]);
    assert_eq!((tokens[0].start, tokens[0].end), (0, 4));
    assert!(errors.is_empty());
}

#[test]
fn unterminated_block_comment_yields_eof() {
    let source = "/* unterminated";
    let (tokens, errors) = scss(source);
    assert_eq!(kinds(&tokens), vec![Kind::EOF]);
    assert_eq!((tokens[0].start, tokens[0].end), (0, source.len()));
    assert_eq!(errors, vec![Diagnostic::UnterminatedBlockComment(0..source.len())]);
}

#[test]
fn half_closed_nested_comment_is_unterminated() {
    let source = "a /* b /* c */";
    let (tokens, errors) = scss(source);
    assert_eq!(kinds(&tokens), vec![Kind::Ident, Kind::Whitespace, Kind::EOF]);
    assert_eq!(errors, vec![Diagnostic::UnterminatedBlockComment(2..source.len())]);
}

#[test]
fn line_comment_stops_before_the_newline() {
    let (tokens, errors) = scss("// x y\r\nz");
    assert_eq!(kinds(&tokens), vec![Kind::LineComment, Kind::Whitespace, Kind::Ident, Kind::EOF]);
    assert_eq!((tokens[0].start, tokens[0].end), (0, 6));
    assert_eq!((tokens[1].start, tokens[1].end), (6, 8));
    assert!(errors.is_empty());
}

#[test]
fn whitespace_collapses_into_one_token() {
    let (tokens, _) = scss(" \t\n\r\x0c  a");
    assert_eq!(kinds(&tokens), vec![Kind::Whitespace, Kind::Ident, Kind::EOF]);
    assert_eq!((tokens[0].start, tokens[0].end), (0, 7));
    assert_eq!(tokens[0].value, TokenValue::Empty);
}

#[test]
fn legacy_comment_tokens() {
    let (tokens, _) = scss("<!--");
    assert_eq!(kinds(&tokens), vec![Kind::CDO, Kind::EOF]);
    assert_eq!((tokens[0].start, tokens[0].end), (0, 4));
    let (tokens, _) = scss("-->");
    assert_eq!(kinds(&tokens), vec![Kind::CDC, Kind::EOF]);
    assert_eq!((tokens[0].start, tokens[0].end), (0, 3));
    let (tokens, _) = css("<!---->");
    assert_eq!(kinds(&tokens), vec![Kind::CDO, Kind::CDC, Kind::EOF]);
}

#[test]
fn less_than_falls_back() {
    let (tokens, _) = scss("<!-");
    assert_eq!(kinds(&tokens), vec![Kind::Lt, Kind::Bang, Kind::Minus, Kind::EOF]);
}

#[test]
fn minus_before_a_digit_is_a_number() {
    let (tokens, errors) = scss("-5");
    assert_eq!(kinds(&tokens), vec![Kind::Number, Kind::EOF]);
    assert_eq!(number(&tokens[0]), -5.0);
    assert_eq!((tokens[0].start, tokens[0].end), (0, 2));
    assert!(errors.is_empty());
}

#[test]
fn minus_before_a_name_is_an_identifier() {
    let (tokens, errors) = scss("-foo");
    assert_eq!(kinds(&tokens), vec![Kind::Ident, Kind::EOF]);
    assert_eq!(text(&tokens[0]), "-foo");
    assert!(errors.is_empty());
}

#[test]
fn minus_alone_is_an_operator() {
    let (tokens, errors) = scss("- ");
    assert_eq!(kinds(&tokens), vec![Kind::Minus, Kind::Whitespace, Kind::EOF]);
    assert_eq!(tokens[0].value, TokenValue::Empty);
    assert!(errors.is_empty());
    let (tokens, _) = scss("-.a");
    assert_eq!(kinds(&tokens), vec![Kind::Minus, Kind::Dot, Kind::Ident, Kind::EOF]);
}

#[test]
fn invalid_character_is_reported_once() {
    let (tokens, errors) = scss("a`b");
    assert_eq!(kinds(&tokens), vec![Kind::Ident, Kind::Unknown, Kind::Ident, Kind::EOF]);
    assert_eq!(text(&tokens[0]), "a");
    assert_eq!(text(&tokens[2]), "b");
    assert_eq!(tokens[1].value, TokenValue::Empty);
    assert_eq!(errors, vec![Diagnostic::InvalidCharacter('`', 1..2)]);
}

#[test]
fn single_character_punctuation() {
    let (tokens, errors) = scss("&@![]^:,{}$.=()%+#;*/~><");
    assert_eq!(
        kinds(&tokens),
        vec![
            Kind::Amp,
            Kind::At,
            Kind::Bang,
            Kind::BracketL,
            Kind::BracketR,
            Kind::Caret,
            Kind::Colon,
            Kind::Comma,
            Kind::CurlyL,
            Kind::CurlyR,
            Kind::Dollar,
            Kind::Dot,
            Kind::Eq,
            Kind::ParenL,
            Kind::ParenR,
            Kind::Percentage,
            Kind::Plus,
            Kind::Pound,
            Kind::Semicolon,
            Kind::Star,
            Kind::Slash,
            Kind::Tilde,
            Kind::Gt,
            Kind::Lt,
            Kind::EOF,
        ]
    );
    assert!(errors.is_empty());
}

#[test]
fn comparison_operators_under_sass() {
    let (tokens, _) = scss(">=<=!=");
    assert_eq!(kinds(&tokens), vec![Kind::GtEq, Kind::LtEq, Kind::Neq, Kind::EOF]);
    let (tokens, _) = tokenize("a>=b", SourceType { syntax: Syntax::Sass });
    assert_eq!(kinds(&tokens), vec![Kind::Ident, Kind::GtEq, Kind::Ident, Kind::EOF]);
}

#[test]
fn plain_css_has_no_sass_tokens() {
    let (tokens, errors) = css(">=<=!=...$a");
    assert_eq!(
        kinds(&tokens),
        vec![
            Kind::Gt,
            Kind::Eq,
            Kind::Lt,
            Kind::Eq,
            Kind::Bang,
            Kind::Eq,
            Kind::Dot,
            Kind::Dot,
            Kind::Dot,
            Kind::Dollar,
            Kind::Ident,
            Kind::EOF,
        ]
    );
    assert!(errors.is_empty());
}

#[test]
fn variadic_marker() {
    let (tokens, _) = scss("$args...");
    assert_eq!(kinds(&tokens), vec![Kind::Variable, Kind::Dot3, Kind::EOF]);
    let (tokens, _) = scss("..");
    assert_eq!(kinds(&tokens), vec![Kind::Dot, Kind::Dot, Kind::EOF]);
}

#[test]
fn variable_holds_its_whole_text() {
    let (tokens, errors) = scss("$foo-bar: 1");
    assert_eq!(
        kinds(&tokens),
        vec![Kind::Variable, Kind::Colon, Kind::Whitespace, Kind::Number, Kind::EOF]
    );
    assert_eq!(text(&tokens[0]), "$foo-bar");
    assert!(!tokens[0].escaped);
    assert!(errors.is_empty());
    let (tokens, _) = scss("$--x");
    assert_eq!(text(&tokens[0]), "$--x");
    let (tokens, _) = scss("$\\41 b");
    assert_eq!(text(&tokens[0]), "$Ab");
    assert!(tokens[0].escaped);
}

#[test]
fn variable_without_a_name_expects_an_identifier() {
    let (tokens, errors) = scss("$-1");
    assert_eq!(kinds(&tokens), vec![Kind::Variable, Kind::EOF]);
    assert_eq!(text(&tokens[0]), "$-1");
    assert_eq!(errors, vec![Diagnostic::ExpectedIdentifier(0..2)]);
    let (tokens, errors) = scss("$ a");
    assert_eq!(kinds(&tokens), vec![Kind::Dollar, Kind::Whitespace, Kind::Ident, Kind::EOF]);
    assert!(errors.is_empty());
}

#[test]
fn string_value_is_the_text_between_the_quotes() {
    let (tokens, errors) = scss("'a b' \"c'd\"");
    assert_eq!(kinds(&tokens), vec![Kind::Str, Kind::Whitespace, Kind::Str, Kind::EOF]);
    assert_eq!(text(&tokens[0]), "a b");
    assert_eq!((tokens[0].start, tokens[0].end), (0, 5));
    assert!(!tokens[0].escaped);
    assert_eq!(text(&tokens[2]), "c'd");
    assert!(errors.is_empty());
}

#[test]
fn string_escapes_are_decoded() {
    let (tokens, errors) = scss("'a\\41 b\\'c'");
    assert_eq!(kinds(&tokens), vec![Kind::Str, Kind::EOF]);
    assert_eq!(text(&tokens[0]), "aAb'c");
    assert!(tokens[0].escaped);
    assert!(errors.is_empty());
}

#[test]
fn string_ends_at_a_newline() {
    let (tokens, errors) = scss("'ab\ncd");
    assert_eq!(kinds(&tokens), vec![Kind::Str, Kind::Whitespace, Kind::Ident, Kind::EOF]);
    assert_eq!(text(&tokens[0]), "ab");
    assert_eq!((tokens[0].start, tokens[0].end), (0, 3));
    assert_eq!(errors, vec![Diagnostic::InvalidCharacter('\n', 3..3)]);
}

#[test]
fn string_ends_at_the_end_of_the_source() {
    let (tokens, errors) = scss("\"ab");
    assert_eq!(kinds(&tokens), vec![Kind::Str, Kind::EOF]);
    assert_eq!(text(&tokens[0]), "ab");
    assert_eq!(errors, vec![Diagnostic::UnexpectedEnd(3..3)]);
}

#[test]
fn diagnostics_keep_their_order() {
    let (_, errors) = scss("1. ` a\\0");
    assert_eq!(
        errors,
        vec![
            Diagnostic::ExpectedDigit(2..2),
            Diagnostic::InvalidCharacter('`', 3..4),
            Diagnostic::InvalidUnicodeCodePoint(5..8),
        ]
    );
}

#[test]
fn diagnostics_are_appended_to_those_given() {
    let mut given = Diagnostics::new();
    given.push(Diagnostic::ExceptedToken);
    let mut lexer = Lexer::new("`", given, SourceType::default());
    assert_eq!(lexer.errors().len(), 1);
    lexer.next_token();
    assert_eq!(
        lexer.into_errors().into_inner(),
        vec![Diagnostic::ExceptedToken, Diagnostic::InvalidCharacter('`', 0..1)]
    );
}

#[test]
fn invalid_number_is_recorded() {
    let mut lexer = Lexer::new("1e", Diagnostics::new(), SourceType::default());
    let token = lexer.next_token();
    lexer.invalid_number("invalid float", token.range());
    assert_eq!(
        lexer.into_errors().into_inner(),
        vec![Diagnostic::ExpectedDigit(2..2), Diagnostic::InvalidNumber("invalid float", 0..2)]
    );
}

#[test]
fn remaining_is_the_unscanned_suffix() {
    let source = "\u{e9}a b";
    let mut lexer = Lexer::new(source, Diagnostics::new(), SourceType::default());
    assert_eq!(lexer.remaining(), source);
    assert_eq!(lexer.offset(), 0);
    lexer.next_token();
    assert_eq!(lexer.remaining(), " b");
    assert_eq!(lexer.offset(), 3);
    lexer.next_token();
    lexer.next_token();
    assert_eq!(lexer.remaining(), "");
    assert_eq!(lexer.source_text(), source);
}

#[test]
fn rewind_takes_the_scan_back() {
    let mut lexer = Lexer::new("a b c", Diagnostics::new(), SourceType::default());
    lexer.next_token();
    let checkpoint = lexer.checkpoint();
    let first = lexer.next_token();
    let second = lexer.next_token();
    assert_eq!(lexer.remaining(), " c");
    lexer.rewind(checkpoint);
    assert_eq!(lexer.remaining(), " b c");
    assert_eq!(lexer.next_token(), first);
    assert_eq!(lexer.next_token(), second);
}

#[test]
fn pull_and_tokenize_agree() {
    let source = "a{b:1.5}";
    let (tokens, _) = scss(source);
    let mut lexer = Lexer::new(source, Diagnostics::new(), SourceType::default());
    for expected in &tokens {
        assert_eq!(&lexer.next_token(), expected);
    }
}

#[test]
fn foreign_checkpoint_is_not_accepted() {
    let mut long = Lexer::new("\u{e9}\u{e9} b", Diagnostics::new(), SourceType::default());
    long.next_token();
    long.next_token();
    let far = long.checkpoint();
    assert!(long.accepts(&far));
    let short = Lexer::new("ab", Diagnostics::new(), SourceType::default());
    assert!(!short.accepts(&far));
    let other = Lexer::new("abcdefgh", Diagnostics::new(), SourceType::default());
    assert!(!other.accepts(&far));
    let start = other.checkpoint();
    assert!(long.accepts(&start) && short.accepts(&start));
}

#[test]
fn rewind_keeps_the_diagnostics() {
    let mut lexer = Lexer::new("` a", Diagnostics::new(), SourceType::default());
    let start = lexer.checkpoint();
    lexer.next_token();
    lexer.rewind(start);
    lexer.next_token();
    assert_eq!(
        lexer.into_errors().into_inner(),
        vec![Diagnostic::InvalidCharacter('`', 0..1), Diagnostic::InvalidCharacter('`', 0..1)]
    );
}

#[test]
fn invalid_escape_at_the_start() {
    let (tokens, errors) = scss("\\0");
    assert_eq!(kinds(&tokens), vec![Kind::Ident, Kind::EOF]);
    assert_eq!(text(&tokens[0]), "");
    assert!(tokens[0].escaped);
    assert_eq!(errors, vec![Diagnostic::InvalidUnicodeCodePoint(0..2)]);
}

#[test]
fn null_character_is_an_ordinary_character() {
    let (tokens, errors) = scss("a\0'b\0'\\\0");
    assert_eq!(kinds(&tokens), vec![Kind::Ident, Kind::Unknown, Kind::Str, Kind::Ident, Kind::EOF]);
    assert_eq!(text(&tokens[2]), "b\0");
    assert_eq!(text(&tokens[3]), "\\0 ");
    assert_eq!(errors, vec![Diagnostic::InvalidCharacter('\0', 1..2)]);
}

#[test]
fn exponent_may_follow_a_bare_point() {
    let (tokens, errors) = scss("1.e5");
    assert_eq!(kinds(&tokens), vec![Kind::Float, Kind::EOF]);
    assert_eq!(tokens[0].value, TokenValue::Number("1.e5".to_string()));
    assert_eq!(errors, vec![Diagnostic::ExpectedDigit(2..2)]);
}
