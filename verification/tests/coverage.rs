use scr_parser::coverage::csstree::TestCsstreeCase;
use scr_parser::coverage::postcss::TestPostcssCase;
use scr_parser::coverage::sass_spec::TestSassSpecCase;
use scr_parser::coverage::suite::{coverage_report, Case, TestResult};
use scr_parser::coverage::{csstree, postcss, sass_spec, CliArgs};
use scr_parser::utf8::{chars_of, contains, starts_with};

fn sass(path: &str, name: Option<&str>) -> TestSassSpecCase {
    TestSassSpecCase::new(path.to_string(), "a {}".to_string(), name.map(|n| n.to_string()))
}

#[test]
fn detail_is_printed_when_asked_or_filtered() {
    assert!(!CliArgs::default().should_print_detail());
    assert!(CliArgs { filter: None, detail: true, diff: false }.should_print_detail());
    assert!(CliArgs { filter: Some("x".to_string()), detail: false, diff: false }
        .should_print_detail());
    assert!(!CliArgs { filter: None, detail: false, diff: true }.should_print_detail());
}

#[test]
fn text_search() {
    assert!(starts_with("error #1", "error #"));
    assert!(starts_with("error #", "error #"));
    assert!(starts_with("abc", ""));
    assert!(!starts_with("error", "error #"));
    assert!(!starts_with("an error #1", "error #"));
    assert!(contains("spec/errors/a", "error"));
    assert!(contains("error", "error"));
    assert!(contains("xerror", "error"));
    assert!(contains("abc", ""));
    assert!(contains("", ""));
    assert!(!contains("erro", "error"));
    assert!(!contains("err-or", "error"));
    assert!(!contains("", "a"));
    assert_eq!(chars_of("a\u{e9}\u{1f600}"), vec!['a', '\u{e9}', '\u{1f600}']);
}

#[test]
fn new_case_is_to_be_run() {
    let case = TestPostcssCase::new("a.css".to_string(), "b".to_string(), None);
    assert!(matches!(case.test_result(), TestResult::ToBeRun));
    assert_eq!(case.path(), "a.css");
    assert_eq!(case.code(), "b");
    assert_eq!(case.virtual_path(), &None);
    assert!(!case.skip_test_case());
    assert!(!case.should_fail());
}

#[test]
fn csstree_error_cases_should_fail() {
    let named = |name: &str| {
        TestCsstreeCase::new("f.json".to_string(), "x".to_string(), Some(name.to_string()))
    };
    assert!(named("error #1").should_fail());
    assert!(!named("basic").should_fail());
    assert!(!named("an error #1").should_fail());
    assert!(!TestCsstreeCase::new("error #1".to_string(), "x".to_string(), None).should_fail());
}

#[test]
fn sass_cases_with_error_in_a_path_should_fail() {
    assert!(sass("spec/errors/a.scss", None).should_fail());
    assert!(sass("spec/a.hrx", Some("error/input.scss")).should_fail());
    assert!(!sass("spec/a.hrx", Some("ok/input.scss")).should_fail());
    assert!(!sass("spec/a.scss", None).should_fail());
}

#[test]
fn outcome_follows_what_was_expected() {
    let positive = sass("a.scss", None);
    let negative = sass("error.scss", None);
    let ok = || Ok("ast".to_string());
    let err = || Err("bad".to_string());
    assert!(matches!(positive.parser_rusult_to_test_result(ok()), TestResult::Passed));
    assert!(matches!(
        positive.parser_rusult_to_test_result(err()),
        TestResult::PassError(e) if e == "bad"
    ));
    assert!(matches!(negative.parser_rusult_to_test_result(ok()), TestResult::IncorrectPassed));
    assert!(matches!(
        negative.parser_rusult_to_test_result(err()),
        TestResult::CorrectError(e) if e == "bad"
    ));
}

#[test]
fn running_without_a_parser_counts_as_an_error() {
    let mut positive = sass("a.scss", None);
    let mut negative = sass("error.scss", None);
    positive.run();
    negative.run();
    assert!(matches!(positive.test_result(), TestResult::PassError(e) if e.is_empty()));
    assert!(matches!(negative.test_result(), TestResult::CorrectError(e) if e.is_empty()));
    assert!(!positive.test_passed() && !positive.test_parsed());
    assert!(negative.test_passed() && !negative.test_parsed());
    assert!(matches!(positive.execute(), TestResult::PassError(_)));
}

#[test]
fn report_counts_each_kind() {
    let mut cases = vec![
        sass("a.scss", None),
        sass("errors/b.scss", None),
        sass("c.scss", None),
        sass("d.hrx", Some("error/input.scss")),
        sass("e.scss", None),
    ];
    for case in cases.iter_mut() {
        case.run();
    }
    let report = coverage_report(&cases);
    assert_eq!(report.all_positives, 3);
    assert_eq!(report.all_negatives, 2);
    assert_eq!(report.parsed_positives, 0);
    assert_eq!(report.passed_positives, 0);
    assert_eq!(report.passed_negatives, 2);
    let failed: Vec<&str> = report.failed_positives.iter().map(|c| c.path()).collect();
    assert_eq!(failed, vec!["a.scss", "c.scss", "e.scss"]);
    assert!(report.failed_negatives.is_empty());
}

#[test]
fn report_on_nothing() {
    let cases: Vec<TestCsstreeCase> = Vec::new();
    let report = coverage_report(&cases);
    assert_eq!((report.all_positives, report.all_negatives), (0, 0));
    assert_eq!(
        (report.parsed_positives, report.passed_positives, report.passed_negatives),
        (0, 0, 0)
    );
    assert!(report.failed_positives.is_empty() && report.failed_negatives.is_empty());
}

#[test]
fn skipped_paths() {
    assert!(postcss::skip_test_path("cases/a.json"));
    assert!(postcss::skip_test_path("cases/README"));
    assert!(!postcss::skip_test_path("cases/a.css"));
    assert!(sass_spec::skip_test_path("spec/libsass/a.scss"));
    assert!(sass_spec::skip_test_path("spec/README.md"));
    assert!(sass_spec::skip_test_path("spec/options.yml"));
    assert!(sass_spec::skip_test_path("spec/LICENSE"));
    assert!(!sass_spec::skip_test_path("spec/a.scss"));
    assert!(!sass_spec::skip_test_path("spec/a.hrx"));
    assert!(sass_spec::is_archive("spec/a.hrx"));
    assert!(!sass_spec::is_archive("spec/a.scss"));
    assert!(!sass_spec::is_archive("spec/hrx"));
    assert!(!csstree::skip_test_path("fixtures/a.json"));
}
