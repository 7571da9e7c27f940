//! Cases, their outcomes, and the report on a suite of them.
use vstd::prelude::*;
use vstd::string::*;

verus! {

/// The outcome of one case.
#[derive(Debug)]
pub enum TestResult {
    /// The case has not been run yet.
    ToBeRun,
    /// Parsed, as expected.
    Passed,
    /// Parsed, though it should have failed.
    IncorrectPassed,
    /// Failed with this message, though it should have parsed.
    PassError(String),
    /// Parsed, but into something else than expected.
    Mismatch(String, String),
    /// Failed with this message, as expected.
    CorrectError(String),
}

/// The mathematical value of a [`TestResult`].
pub enum Outcome {
    ToBeRun,
    Passed,
    IncorrectPassed,
    PassError(Seq<char>),
    Mismatch(Seq<char>, Seq<char>),
    CorrectError(Seq<char>),
}

impl View for TestResult {
    type V = Outcome;

    open spec fn view(&self) -> Outcome {
        match self {
            TestResult::ToBeRun => Outcome::ToBeRun,
            TestResult::Passed => Outcome::Passed,
            TestResult::IncorrectPassed => Outcome::IncorrectPassed,
            TestResult::PassError(error) => Outcome::PassError(error@),
            TestResult::Mismatch(found, expected) => Outcome::Mismatch(found@, expected@),
            TestResult::CorrectError(error) => Outcome::CorrectError(error@),
        }
    }
}

impl Outcome {
    /// Whether the case did what was expected of it.
    pub open spec fn passed(self) -> bool {
        self is Passed || self is CorrectError
    }

    /// Whether the source of the case parsed.
    pub open spec fn parsed(self) -> bool {
        self is Passed || self is Mismatch
    }
}

/// The outcome of a case from what the parser returned for it and whether the
/// case was expected to fail.
pub open spec fn classify(should_fail: bool, result: Result<Seq<char>, Seq<char>>) -> Outcome {
    match result {
        Err(error) => if should_fail {
            Outcome::CorrectError(error)
        } else {
            Outcome::PassError(error)
        },
        Ok(_) => if should_fail {
            Outcome::IncorrectPassed
        } else {
            Outcome::Passed
        },
    }
}

/// The mathematical value of what a parser returns.
pub open spec fn result_view(result: Result<String, String>) -> Result<Seq<char>, Seq<char>> {
    match result {
        Ok(text) => Ok(text@),
        Err(error) => Err(error@),
    }
}

/// Where a case comes from and what its source is.
pub struct CaseOrigin {
    /// The path of the file that the case was read from.
    pub path: Seq<char>,
    /// The source text of the case.
    pub code: Seq<char>,
    /// The name of the case inside a file that holds several.
    pub virtual_path: Option<Seq<char>>,
}

/// The mathematical value of an optional text.
pub open spec fn option_view(text: Option<String>) -> Option<Seq<char>> {
    match text {
        Some(text) => Some(text@),
        None => None,
    }
}

/// One test source with what is expected of it.
pub trait Case: Sized {
    /// Where the case comes from and what its source is.
    spec fn origin(&self) -> CaseOrigin;

    /// Whether the case is expected to fail.
    spec fn fails(&self) -> bool;

    /// The outcome of the case.
    spec fn outcome(&self) -> Outcome;

    /// A case that has not been run, from the file at `path` with the source
    /// `code`; `virtual_path` names the case inside a file that holds several.
    fn new(path: String, code: String, virtual_path: Option<String>) -> (case: Self)
        ensures
            case.outcome() is ToBeRun,
            case.origin() == (CaseOrigin {
                path: path@,
                code: code@,
                virtual_path: option_view(virtual_path),
            }),
    ;

    /// The source text of the case.
    fn code(&self) -> (code: &str)
        ensures
            code@ == self.origin().code,
    ;

    /// The path of the file that the case was read from.
    fn path(&self) -> (path: &str)
        ensures
            path@ == self.origin().path,
    ;

    /// The name of the case inside its file.
    fn virtual_path(&self) -> (virtual_path: &Option<String>)
        ensures
            option_view(*virtual_path) == self.origin().virtual_path,
    ;

    /// Whether the case is left out of the run. No case is: every case that a
    /// file holds is run.
    fn skip_test_case(&self) -> (skip: bool)
        ensures
            !skip,
    {
        false
    }

    /// Whether the case is expected to fail.
    fn should_fail(&self) -> (b: bool)
        ensures
            b == self.fails(),
    ;

    /// The outcome of the case.
    fn test_result(&self) -> (result: &TestResult)
        ensures
            result@ == self.outcome(),
    ;

    /// Runs the case and keeps the outcome.
    fn run(&mut self)
        ensures
            final(self).origin() == old(self).origin(),
            final(self).fails() == old(self).fails(),
            final(self).outcome() == classify(old(self).fails(), Err(Seq::empty())),
    ;

    /// Runs the case and hands out the outcome. No parser is attached, so
    /// every source counts as one that failed, with an empty message.
    fn execute(&self) -> (result: TestResult)
        ensures
            result@ == classify(self.fails(), Err(Seq::empty())),
    {
        self.parser_rusult_to_test_result(Err(String::new()))
    }

    /// The outcome of the case, given what the parser returned for it.
    fn parser_rusult_to_test_result(&self, result: Result<String, String>) -> (outcome: TestResult)
        ensures
            outcome@ == classify(self.fails(), result_view(result)),
    {
        let should_fail = self.should_fail();
        match result {
            Err(err) => if should_fail {
                TestResult::CorrectError(err)
            } else {
                TestResult::PassError(err)
            },
            Ok(_) => if should_fail {
                TestResult::IncorrectPassed
            } else {
                TestResult::Passed
            },
        }
    }

    /// Whether the case did what was expected of it. The case must have been
    /// run.
    fn test_passed(&self) -> (b: bool)
        requires
            !(self.outcome() is ToBeRun),
        ensures
            b == self.outcome().passed(),
    {
        let result = self.test_result();
        matches!(result, TestResult::Passed | TestResult::CorrectError(_))
    }

    /// Whether the source of the case parsed. The case must have been run.
    fn test_parsed(&self) -> (b: bool)
        requires
            !(self.outcome() is ToBeRun),
        ensures
            b == self.outcome().parsed(),
    {
        let result = self.test_result();
        matches!(result, TestResult::Passed | TestResult::Mismatch(_, _))
    }
}

/// How a suite fared: counts of its cases, and the cases that did not do what
/// was expected of them. Positives are the cases expected to parse, negatives
/// those expected to fail.
pub struct CoverageReport<'a, T> {
    pub all_positives: usize,
    pub all_negatives: usize,
    pub parsed_positives: usize,
    pub passed_positives: usize,
    pub passed_negatives: usize,
    pub failed_positives: Vec<&'a T>,
    pub failed_negatives: Vec<&'a T>,
}

/// The cases of `cases` that `want` accepts, in order.
pub open spec fn select<T>(cases: Seq<T>, want: spec_fn(T) -> bool) -> Seq<T>
    decreases cases.len(),
{
    if cases.len() == 0 {
        Seq::empty()
    } else if want(cases.last()) {
        select(cases.drop_last(), want).push(cases.last())
    } else {
        select(cases.drop_last(), want)
    }
}

/// The cases expected to parse.
pub open spec fn positive<T: Case>() -> spec_fn(T) -> bool {
    |case: T| !case.fails()
}

/// The cases expected to fail.
pub open spec fn negative<T: Case>() -> spec_fn(T) -> bool {
    |case: T| case.fails()
}

/// The cases expected to parse whose source parsed.
pub open spec fn parsed_positive<T: Case>() -> spec_fn(T) -> bool {
    |case: T| !case.fails() && case.outcome().parsed()
}

/// The cases expected to parse that passed.
pub open spec fn passed_positive<T: Case>() -> spec_fn(T) -> bool {
    |case: T| !case.fails() && case.outcome().passed()
}

/// The cases expected to fail that passed, which is to say: failed.
pub open spec fn passed_negative<T: Case>() -> spec_fn(T) -> bool {
    |case: T| case.fails() && case.outcome().passed()
}

/// The cases expected to parse that did not pass.
pub open spec fn failed_positive<T: Case>() -> spec_fn(T) -> bool {
    |case: T| !case.fails() && !case.outcome().passed()
}

/// The cases expected to fail that did not pass.
pub open spec fn failed_negative<T: Case>() -> spec_fn(T) -> bool {
    |case: T| case.fails() && !case.outcome().passed()
}

/// What a list of borrowed cases refers to.
pub open spec fn referred<'a, T>(cases: Seq<&'a T>) -> Seq<T> {
    cases.map_values(|case: &T| *case)
}

/// The report on `cases`, all of which must have been run.
///
/// Every count is the number of cases of its kind, and the two lists hold the
/// cases that did not pass, in the order of `cases`.
pub fn coverage_report<'a, T: Case>(cases: &'a Vec<T>) -> (report: CoverageReport<'a, T>)
    requires
        forall|k: int| 0 <= k < cases@.len() ==> !(#[trigger] cases@[k].outcome() is ToBeRun),
    ensures
        report.all_positives == select(cases@, positive()).len(),
        report.all_negatives == select(cases@, negative()).len(),
        report.parsed_positives == select(cases@, parsed_positive()).len(),
        report.passed_positives == select(cases@, passed_positive()).len(),
        report.passed_negatives == select(cases@, passed_negative()).len(),
        referred(report.failed_positives@) == select(cases@, failed_positive()),
        referred(report.failed_negatives@) == select(cases@, failed_negative()),
        report.all_positives + report.all_negatives == cases@.len(),
{
    let mut all_positives: usize = 0;
    let mut all_negatives: usize = 0;
    let mut parsed_positives: usize = 0;
    let mut passed_positives: usize = 0;
    let mut passed_negatives: usize = 0;
    let mut failed_positives: Vec<&'a T> = Vec::new();
    let mut failed_negatives: Vec<&'a T> = Vec::new();
    let mut i: usize = 0;
    proof {
        assert(cases@.take(0) =~= Seq::<T>::empty());
        assert(referred(failed_positives@) =~= Seq::<T>::empty());
        assert(referred(failed_negatives@) =~= Seq::<T>::empty());
    }
    while i < cases.len()
        invariant
            i <= cases.len(),
            forall|k: int| 0 <= k < cases@.len() ==> !(#[trigger] cases@[k].outcome() is ToBeRun),
            all_positives == select(cases@.take(i as int), positive()).len(),
            all_negatives == select(cases@.take(i as int), negative()).len(),
            parsed_positives == select(cases@.take(i as int), parsed_positive()).len(),
            passed_positives == select(cases@.take(i as int), passed_positive()).len(),
            passed_negatives == select(cases@.take(i as int), passed_negative()).len(),
            referred(failed_positives@) == select(cases@.take(i as int), failed_positive()),
            referred(failed_negatives@) == select(cases@.take(i as int), failed_negative()),
            all_positives + all_negatives == i,
            parsed_positives <= all_positives,
            passed_positives <= all_positives,
            passed_negatives <= all_negatives,
        decreases cases.len() - i,
    {
        let case = &cases[i];
        proof {
            let next = cases@.take(i + 1);
            assert(next.drop_last() =~= cases@.take(i as int));
            assert(next.last() == cases@[i as int]);
        }
        let ghost before_positives = failed_positives@;
        let ghost before_negatives = failed_negatives@;
        if case.should_fail() {
            all_negatives += 1;
            if case.test_passed() {
                passed_negatives += 1;
            } else {
                failed_negatives.push(case);
                assert(referred(failed_negatives@) =~= referred(before_negatives).push(*case));
            }
        } else {
            all_positives += 1;
            if case.test_parsed() {
                parsed_positives += 1;
            }
            if case.test_passed() {
                passed_positives += 1;
            } else {
                failed_positives.push(case);
                assert(referred(failed_positives@) =~= referred(before_positives).push(*case));
            }
        }
        i += 1;
    }
    proof {
        assert(cases@.take(i as int) =~= cases@);
    }
    CoverageReport {
        all_positives,
        all_negatives,
        parsed_positives,
        passed_positives,
        passed_negatives,
        failed_positives,
        failed_negatives,
    }
}

/// The origins of `cases`, in order.
pub open spec fn origins<T: Case>(cases: Seq<T>) -> Seq<CaseOrigin> {
    cases.map_values(|case: T| case.origin())
}

/// The cases of a file that holds one case: the file itself.
pub fn file_to_cases<T: Case>(path: String, code: String) -> (cases: Vec<T>)
    ensures
        origins(cases@) == seq![CaseOrigin { path: path@, code: code@, virtual_path: None }],
{
    let mut cases: Vec<T> = Vec::new();
    cases.push(T::new(path, code, None));
    assert(origins(cases@) =~= seq![
        CaseOrigin { path: path@, code: code@, virtual_path: None },
    ]);
    cases
}

} // verus!
