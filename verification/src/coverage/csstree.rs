//! The CSSTree fixtures.
use vstd::prelude::*;
use vstd::string::*;

use crate::coverage::suite::{option_view, origins, Case, CaseOrigin, Outcome, TestResult};
use crate::utf8::{spec_starts_with, starts_with};

verus! {

/// A case of the CSSTree fixtures. The cases that a fixture lists under
/// `error` are named `error #1`, `error #2` and so on, and are expected to fail.
pub struct TestCsstreeCase {
    path: String,
    code: String,
    virtual_path: Option<String>,
    result: TestResult,
}

impl Case for TestCsstreeCase {
    closed spec fn origin(&self) -> CaseOrigin {
        CaseOrigin {
            path: self.path@,
            code: self.code@,
            virtual_path: option_view(self.virtual_path),
        }
    }

    closed spec fn fails(&self) -> bool {
        match self.virtual_path {
            Some(name) => spec_starts_with(name@, "error #"@),
            None => false,
        }
    }

    closed spec fn outcome(&self) -> Outcome {
        self.result@
    }

    fn new(path: String, code: String, virtual_path: Option<String>) -> (case: Self) {
        Self { path, code, virtual_path, result: TestResult::ToBeRun }
    }

    fn should_fail(&self) -> (b: bool) {
        match &self.virtual_path {
            Some(name) => starts_with(name.as_str(), "error #"),
            None => false,
        }
    }

    fn code(&self) -> (code: &str) {
        self.code.as_str()
    }

    fn path(&self) -> (path: &str) {
        self.path.as_str()
    }

    fn virtual_path(&self) -> (virtual_path: &Option<String>) {
        &self.virtual_path
    }

    fn test_result(&self) -> (result: &TestResult) {
        &self.result
    }

    fn run(&mut self) {
        self.result = self.execute();
    }
}

/// One case of a fixture, as the fixture file states it.
#[derive(Debug)]
pub struct CsstreeCase {
    pub source: Option<String>,
}

impl Default for CsstreeCase {
    fn default() -> (case: CsstreeCase)
        ensures
            case.source is None,
    {
        CsstreeCase { source: None }
    }
}

impl Clone for CsstreeCase {
    fn clone(&self) -> (copy: CsstreeCase)
        ensures
            option_view(copy.source) == option_view(self.source),
    {
        CsstreeCase {
            source: match &self.source {
                Some(source) => Some(source.clone()),
                None => None,
            },
        }
    }
}

/// One case that is expected to fail, as the fixture file states it.
#[derive(Debug)]
pub struct CsstreeErrorCase {
    pub source: Option<String>,
    pub error: Option<String>,
}

impl Default for CsstreeErrorCase {
    fn default() -> (case: CsstreeErrorCase)
        ensures
            case.source is None,
            case.error is None,
    {
        CsstreeErrorCase { source: None, error: None }
    }
}

impl Clone for CsstreeErrorCase {
    fn clone(&self) -> (copy: CsstreeErrorCase)
        ensures
            option_view(copy.source) == option_view(self.source),
            option_view(copy.error) == option_view(self.error),
    {
        CsstreeErrorCase {
            source: match &self.source {
                Some(source) => Some(source.clone()),
                None => None,
            },
            error: match &self.error {
                Some(error) => Some(error.clone()),
                None => None,
            },
        }
    }
}

/// The cases of a fixture file that are expected to fail.
#[derive(Debug)]
pub struct CsstreeAstJson {
    pub error: Option<Vec<CsstreeErrorCase>>,
}

impl Default for CsstreeAstJson {
    fn default() -> (fixture: CsstreeAstJson)
        ensures
            fixture.error is None,
    {
        CsstreeAstJson { error: None }
    }
}

/// What a fixture file holds under one key, as far as cases are made of it.
#[derive(Debug)]
pub enum CsstreeEntry {
    /// A list; of each of its items, the `source` as JSON text.
    List(Vec<String>),
    /// An object; its `source` as JSON text.
    Single(String),
    /// Anything else.
    Other,
}

/// One key of a fixture file with what it holds.
#[derive(Debug)]
pub struct CsstreeMember {
    pub key: String,
    pub value: CsstreeEntry,
}

/// The digit `d < 10` as a character.
pub open spec fn digit_char(d: nat) -> char {
    (48 + d) as char
}

/// The number `n` in decimal digits, without leading zeros.
pub open spec fn decimal(n: nat) -> Seq<char>
    decreases n,
{
    if n < 10 {
        seq![digit_char(n)]
    } else {
        decimal(n / 10).push(digit_char(n % 10))
    }
}

/// The number `n` in decimal digits.
pub fn to_decimal(n: usize) -> (text: String)
    ensures
        text@ == decimal(n as nat),
    decreases n,
{
    if n < 10 {
        let mut text = String::new();
        text.push((48 + n as u8) as char);
        assert(text@ =~= seq![digit_char(n as nat)]);
        text
    } else {
        let mut text = to_decimal(n / 10);
        text.push((48 + (n % 10) as u8) as char);
        text
    }
}

/// The name of the `index`-th case that is expected to fail, counted from one.
pub open spec fn error_name(index: nat) -> Seq<char> {
    "error #"@ + decimal(index)
}

/// The cases of a list of sources that are expected to fail.
pub open spec fn error_cases(path: Seq<char>, sources: Seq<String>) -> Seq<CaseOrigin> {
    Seq::new(
        sources.len(),
        |i: int|
            CaseOrigin {
                path,
                code: sources[i]@,
                virtual_path: Some(error_name((i + 1) as nat)),
            },
    )
}

/// The cases that one key of a fixture file makes. Under the key `error` a
/// list makes one case for each item, named by its number. Under any other
/// key an object makes one case, named by the key.
pub open spec fn member_cases(path: Seq<char>, member: CsstreeMember) -> Seq<CaseOrigin> {
    if member.key@ == "error"@ {
        match member.value {
            CsstreeEntry::List(sources) => error_cases(path, sources@),
            _ => Seq::empty(),
        }
    } else {
        match member.value {
            CsstreeEntry::Single(source) => seq![
                CaseOrigin { path, code: source@, virtual_path: Some(member.key@) },
            ],
            _ => Seq::empty(),
        }
    }
}

/// The cases of a fixture file, key by key.
pub open spec fn fixture_cases(path: Seq<char>, members: Seq<CsstreeMember>) -> Seq<CaseOrigin>
    decreases members.len(),
{
    if members.len() == 0 {
        Seq::empty()
    } else {
        fixture_cases(path, members.drop_last()) + member_cases(path, members.last())
    }
}

/// The cases of the fixture file at `path`, whose keys are `members`.
pub fn file_to_cases<T: Case>(path: String, members: &Vec<CsstreeMember>) -> (cases: Vec<T>)
    ensures
        origins(cases@) == fixture_cases(path@, members@),
{
    let mut cases: Vec<T> = Vec::new();
    let mut m: usize = 0;
    assert(origins(cases@) =~= Seq::<CaseOrigin>::empty());
    assert(members@.take(0) =~= Seq::<CsstreeMember>::empty());
    while m < members.len()
        invariant
            m <= members.len(),
            origins(cases@) == fixture_cases(path@, members@.take(m as int)),
        decreases members.len() - m,
    {
        let member = &members[m];
        let ghost before = cases@;
        proof {
            let next = members@.take(m + 1);
            assert(next.drop_last() =~= members@.take(m as int));
            assert(next.last() == *member);
        }
        if member.key == "error".to_owned() {
            match &member.value {
                CsstreeEntry::List(errors) => {
                    let mut index: usize = 0;
                    assert(origins(cases@) =~= origins(before) + error_cases(
                        path@,
                        errors@,
                    ).take(0));
                    while index < errors.len()
                        invariant
                            index <= errors.len(),
                            origins(cases@) == origins(before) + error_cases(path@, errors@).take(
                                index as int,
                            ),
                        decreases errors.len() - index,
                    {
                        let ghost so_far = cases@;
                        let mut name = "error #".to_owned();
                        name.append(to_decimal(index + 1).as_str());
                        cases.push(T::new(path.clone(), errors[index].clone(), Some(name)));
                        proof {
                            let all = error_cases(path@, errors@);
                            assert(origins(cases@) =~= origins(so_far).push(all[index as int]));
                            assert(all.take(index + 1) =~= all.take(index as int).push(
                                all[index as int],
                            ));
                        }
                        index += 1;
                    }
                    proof {
                        let all = error_cases(path@, errors@);
                        assert(all.take(index as int) =~= all);
                    }
                },
                _ => {
                    assert(origins(cases@) =~= origins(before) + Seq::<CaseOrigin>::empty());
                },
            }
        } else {
            match &member.value {
                CsstreeEntry::Single(source) => {
                    cases.push(T::new(path.clone(), source.clone(), Some(member.key.clone())));
                    assert(origins(cases@) =~= origins(before) + seq![
                        CaseOrigin { path: path@, code: source@, virtual_path: Some(member.key@) },
                    ]);
                },
                _ => {
                    assert(origins(cases@) =~= origins(before) + Seq::<CaseOrigin>::empty());
                },
            }
        }
        m += 1;
    }
    assert(members@.take(m as int) =~= members@);
    cases
}

/// No file of the CSSTree fixtures is left out.
#[allow(unused_variables)]
pub fn skip_test_path(path: &str) -> (skip: bool)
    ensures
        !skip,
{
    false
}

} // verus!
