//! The PostCSS parser tests.
use vstd::prelude::*;
use vstd::string::*;

use crate::coverage::suite::{option_view, Case, CaseOrigin, Outcome, TestResult};
use crate::source_type::{extension_of, path_extension};

verus! {

/// A case of the PostCSS parser tests. None of them is expected to fail.
pub struct TestPostcssCase {
    path: String,
    code: String,
    virtual_path: Option<String>,
    should_fail: bool,
    result: TestResult,
}

impl Case for TestPostcssCase {
    closed spec fn origin(&self) -> CaseOrigin {
        CaseOrigin {
            path: self.path@,
            code: self.code@,
            virtual_path: option_view(self.virtual_path),
        }
    }

    closed spec fn fails(&self) -> bool {
        self.should_fail
    }

    closed spec fn outcome(&self) -> Outcome {
        self.result@
    }

    fn new(path: String, code: String, virtual_path: Option<String>) -> (case: Self) {
        Self { path, code, should_fail: false, virtual_path, result: TestResult::ToBeRun }
    }

    fn code(&self) -> (code: &str) {
        self.code.as_str()
    }

    fn path(&self) -> (path: &str) {
        self.path.as_str()
    }

    fn virtual_path(&self) -> (virtual_path: &Option<String>) {
        &self.virtual_path
    }

    fn test_result(&self) -> (result: &TestResult) {
        &self.result
    }

    fn should_fail(&self) -> (b: bool) {
        self.should_fail
    }

    fn run(&mut self) {
        self.result = self.execute();
    }
}

/// Whether the PostCSS suite leaves out the file at `path`: it does where the
/// file has no extension, and where it is a JSON file.
pub fn skip_test_path(path: &str) -> (skip: bool)
    ensures
        skip == match path_extension(path@) {
            Some(extension) => extension == "json"@,
            None => true,
        },
{
    match extension_of(path) {
        Some(extension) => extension == "json".to_owned(),
        None => true,
    }
}

} // verus!
