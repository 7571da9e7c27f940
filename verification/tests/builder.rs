use std::borrow::Cow;

use scr_parser::diagnostics::Diagnostics;
use scr_parser::lexer::Lexer;
use scr_parser::source_type::SourceType;
use scr_parser::string_builder::AutoCow;

#[test]
fn builder_borrows_while_it_matches_the_source() {
    let lexer = Lexer::new("\u{e9}bc", Diagnostics::new(), SourceType::default());
    let mut builder = AutoCow::new(&lexer);
    assert!(!builder.has_escape());
    builder.push_matching('\u{e9}');
    builder.push_matching('b');
    assert!(!builder.has_escape());
    let text = builder.finish();
    assert!(matches!(text, Cow::Borrowed("\u{e9}b")));
}

#[test]
fn empty_builder_is_an_empty_slice() {
    let mut lexer = Lexer::new("ab", Diagnostics::new(), SourceType::default());
    lexer.next_token();
    let builder = AutoCow::new(&lexer);
    assert!(matches!(builder.finish(), Cow::Borrowed("")));
}

#[test]
fn forced_builder_owns_what_it_matched() {
    let lexer = Lexer::new("ab\\41 ", Diagnostics::new(), SourceType::default());
    let mut builder = AutoCow::new(&lexer);
    builder.push_matching('a');
    builder.push_matching('b');
    builder.force_allocation();
    assert!(builder.has_escape());
    builder.push_matching('A');
    builder.push_matching('\u{1f600}');
    builder.force_allocation();
    let text = builder.finish();
    assert!(matches!(&text, Cow::Owned(owned) if owned == "abA\u{1f600}"));
}

#[test]
fn builder_starts_at_the_cursor() {
    let mut lexer = Lexer::new("a b", Diagnostics::new(), SourceType::default());
    lexer.next_token();
    lexer.next_token();
    let mut builder = AutoCow::new(&lexer);
    builder.push_matching('b');
    assert!(matches!(builder.finish(), Cow::Borrowed("b")));
}
