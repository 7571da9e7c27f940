use scr_parser::coverage::csstree::{
    to_decimal, CsstreeAstJson, CsstreeCase, CsstreeEntry, CsstreeErrorCase, CsstreeMember,
    TestCsstreeCase,
};
use scr_parser::coverage::postcss::TestPostcssCase;
use scr_parser::coverage::sass_spec::{
    create_case_from_hrx, is_input, section_to_cases, TestSassSpecCase, FILE_PREFIX,
    HRX_SECTION_SEPARATOR,
};
use scr_parser::coverage::suite::{file_to_cases, Case};
use scr_parser::coverage::{csstree, sass_spec};

fn origin<T: Case>(case: &T) -> (String, String, Option<String>) {
    (case.path().to_string(), case.code().to_string(), case.virtual_path().clone())
}

fn lines(text: &[&str]) -> Vec<String> {
    text.iter().map(|l| l.to_string()).collect()
}

#[test]
fn decimal_digits() {
    assert_eq!(to_decimal(0), "0");
    assert_eq!(to_decimal(7), "7");
    assert_eq!(to_decimal(10), "10");
    assert_eq!(to_decimal(1234567890), "1234567890");
    assert_eq!(to_decimal(usize::MAX), usize::MAX.to_string());
}

#[test]
fn a_plain_file_is_one_case() {
    let cases: Vec<TestPostcssCase> = file_to_cases("a.css".to_string(), "b {}".to_string());
    assert_eq!(cases.len(), 1);
    assert_eq!(origin(&cases[0]), ("a.css".to_string(), "b {}".to_string(), None));
}

#[test]
fn csstree_fixture_defaults() {
    assert_eq!(CsstreeCase::default().source, None);
    let error = CsstreeErrorCase::default();
    assert_eq!((error.source.clone(), error.error.clone()), (None, None));
    assert!(CsstreeAstJson::default().error.is_none());
    let case = CsstreeErrorCase { source: Some("a".to_string()), error: Some("b".to_string()) };
    let copy = case.clone();
    assert_eq!((copy.source, copy.error), (case.source, case.error));
    let case = CsstreeCase { source: Some("a".to_string()) };
    assert_eq!(case.clone().source, case.source);
}

#[test]
fn csstree_fixture_to_cases() {
    let members = vec![
        CsstreeMember { key: "basic".to_string(), value: CsstreeEntry::Single("\"a{}\"".to_string()) },
        CsstreeMember {
            key: "error".to_string(),
            value: CsstreeEntry::List(vec!["\"x\"".to_string(), "null".to_string()]),
        },
        CsstreeMember { key: "other".to_string(), value: CsstreeEntry::Other },
        CsstreeMember { key: "list".to_string(), value: CsstreeEntry::List(vec!["1".to_string()]) },
        CsstreeMember { key: "second".to_string(), value: CsstreeEntry::Single("\"b\"".to_string()) },
    ];
    let cases: Vec<TestCsstreeCase> = csstree::file_to_cases("f.json".to_string(), &members);
    let found: Vec<_> = cases.iter().map(origin).collect();
    let case = |code: &str, name: &str| {
        ("f.json".to_string(), code.to_string(), Some(name.to_string()))
    };
    assert_eq!(
        found,
        vec![
            case("\"a{}\"", "basic"),
            case("\"x\"", "error #1"),
            case("null", "error #2"),
            case("\"b\"", "second"),
        ]
    );
    let expected: Vec<bool> = cases.iter().map(|c| c.should_fail()).collect();
    assert_eq!(expected, vec![false, true, true, false]);
}

#[test]
fn csstree_error_key_with_an_object_makes_no_case() {
    let members = vec![CsstreeMember {
        key: "error".to_string(),
        value: CsstreeEntry::Single("\"a\"".to_string()),
    }];
    let cases: Vec<TestCsstreeCase> = csstree::file_to_cases("f.json".to_string(), &members);
    assert!(cases.is_empty());
    let none: Vec<TestCsstreeCase> = csstree::file_to_cases("f.json".to_string(), &Vec::new());
    assert!(none.is_empty());
}

#[test]
fn archive_constants() {
    assert_eq!(FILE_PREFIX, "<===>");
    assert_eq!(HRX_SECTION_SEPARATOR, format!("\n<===>\n{}\n", "=".repeat(80)));
}

#[test]
fn input_file_names() {
    assert!(is_input(Some("input.scss")));
    assert!(is_input(Some("input.sass")));
    assert!(!is_input(Some("input.css")));
    assert!(!is_input(Some("output.css")));
    assert!(!is_input(Some("Input.scss")));
    assert!(!is_input(None));
}

#[test]
fn section_with_two_inputs() {
    let mut cases: Vec<TestSassSpecCase> = Vec::new();
    section_to_cases(
        &mut cases,
        &"a.hrx".to_string(),
        &lines(&[
            "ignored",
            "<===> one/input.scss",
            "a {",
            "  b: c;",
            "}",
            "<===> one/output.css",
            "a { b: c; }",
            "<===>   two/input.sass  ",
            "a",
        ]),
    );
    let found: Vec<_> = cases.iter().map(origin).collect();
    assert_eq!(
        found,
        vec![
            ("a.hrx".to_string(), "a {  b: c;}".to_string(), Some("one/input.scss".to_string())),
            ("a.hrx".to_string(), "a".to_string(), Some("two/input.sass".to_string())),
        ]
    );
}

#[test]
fn section_keeps_the_cases_that_were_there() {
    let mut cases: Vec<TestSassSpecCase> =
        vec![TestSassSpecCase::new("x".to_string(), "y".to_string(), None)];
    section_to_cases(&mut cases, &"a.hrx".to_string(), &lines(&["<===> input.scss"]));
    let found: Vec<_> = cases.iter().map(origin).collect();
    assert_eq!(
        found,
        vec![
            ("x".to_string(), "y".to_string(), None),
            ("a.hrx".to_string(), String::new(), Some("input.scss".to_string())),
        ]
    );
    section_to_cases(&mut cases, &"a.hrx".to_string(), &lines(&["no header", "<===> README.md"]));
    assert_eq!(cases.len(), 2);
}

#[test]
fn archive_is_split_into_sections() {
    let source = format!(
        "<===> a/input.scss\nx\n<===> a/output.css\ny{sep}<===> error/input.scss\nz\n",
        sep = HRX_SECTION_SEPARATOR
    );
    let mut cases: Vec<TestSassSpecCase> = Vec::new();
    create_case_from_hrx(&mut cases, "dir/t.hrx".to_string(), source.clone());
    let found: Vec<_> = cases.iter().map(origin).collect();
    assert_eq!(
        found,
        vec![
            ("dir/t.hrx".to_string(), "x".to_string(), Some("a/input.scss".to_string())),
            ("dir/t.hrx".to_string(), "z".to_string(), Some("error/input.scss".to_string())),
        ]
    );
    assert!(!cases[0].should_fail());
    assert!(cases[1].should_fail());

    let same: Vec<TestSassSpecCase> = sass_spec::file_to_cases("dir/t.hrx".to_string(), source);
    assert_eq!(same.iter().map(origin).collect::<Vec<_>>(), found);
}

#[test]
fn archive_without_text_has_no_cases() {
    let mut cases: Vec<TestSassSpecCase> = Vec::new();
    create_case_from_hrx(&mut cases, "t.hrx".to_string(), String::new());
    assert!(cases.is_empty());
    create_case_from_hrx(&mut cases, "t.hrx".to_string(), HRX_SECTION_SEPARATOR.to_string());
    assert!(cases.is_empty());
}

#[test]
fn sass_file_that_is_no_archive_is_one_case() {
    let cases: Vec<TestSassSpecCase> =
        sass_spec::file_to_cases("a/error.scss".to_string(), "<===> input.scss\nx".to_string());
    assert_eq!(cases.len(), 1);
    assert_eq!(
        origin(&cases[0]),
        ("a/error.scss".to_string(), "<===> input.scss\nx".to_string(), None)
    );
    assert!(cases[0].should_fail());
}
