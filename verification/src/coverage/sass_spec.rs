//! The Sass specification tests, and the archives that hold several of them.
use vstd::prelude::*;
use vstd::string::*;

use crate::coverage::suite::{option_view, origins, Case, CaseOrigin, Outcome, TestResult};
use crate::source_type::{extension_of, path_extension};
use crate::utf8::{contains, skip_chars, spec_contains, spec_starts_with, starts_with};

verus! {

/// A case of the Sass specification tests. A case is expected to fail where
/// its path, or its name inside an archive, holds the word `error`.
pub struct TestSassSpecCase {
    path: String,
    virtual_path: Option<String>,
    code: String,
    result: TestResult,
}

impl Case for TestSassSpecCase {
    closed spec fn origin(&self) -> CaseOrigin {
        CaseOrigin {
            path: self.path@,
            code: self.code@,
            virtual_path: option_view(self.virtual_path),
        }
    }

    closed spec fn fails(&self) -> bool {
        spec_contains(self.path@, "error"@) || match self.virtual_path {
            Some(name) => spec_contains(name@, "error"@),
            None => false,
        }
    }

    closed spec fn outcome(&self) -> Outcome {
        self.result@
    }

    fn new(path: String, code: String, virtual_path: Option<String>) -> (case: Self) {
        Self { path, virtual_path, code, result: TestResult::ToBeRun }
    }

    fn code(&self) -> (code: &str) {
        self.code.as_str()
    }

    fn path(&self) -> (path: &str) {
        self.path.as_str()
    }

    fn virtual_path(&self) -> (virtual_path: &Option<String>) {
        &self.virtual_path
    }

    fn test_result(&self) -> (result: &TestResult) {
        &self.result
    }

    fn should_fail(&self) -> (b: bool) {
        let virtual_path_contain_error = match &self.virtual_path {
            Some(name) => contains(name.as_str(), "error"),
            None => false,
        };
        contains(self.path.as_str(), "error") || virtual_path_contain_error
    }

    fn run(&mut self) {
        self.result = self.execute();
    }
}

/// Whether the Sass suite leaves out the file at `path`: it does where the
/// path holds `libsass`, where the file has no extension, and where it is a
/// Markdown or a YAML file.
pub fn skip_test_path(path: &str) -> (skip: bool)
    ensures
        skip == (spec_contains(path@, "libsass"@) || match path_extension(path@) {
            Some(extension) => extension == "md"@ || extension == "yml"@,
            None => true,
        }),
{
    contains(path, "libsass") || match extension_of(path) {
        Some(extension) => extension == "md".to_owned() || extension == "yml".to_owned(),
        None => true,
    }
}

/// Whether the Sass suite reads the file at `path` as an archive of several
/// cases: it does where the extension is `hrx`.
pub fn is_archive(path: &str) -> (archive: bool)
    ensures
        archive == (path_extension(path@) == Some("hrx"@)),
{
    match extension_of(path) {
        Some(extension) => extension == "hrx".to_owned(),
        None => false,
    }
}

/// The line that parts the sections of an archive from each other, with the
/// line breaks around it.
pub const HRX_SECTION_SEPARATOR: &'static str =
    "\n<===>\n================================================================================\n";

/// What the line that opens a file inside an archive starts with.
pub const FILE_PREFIX: &'static str = "<===>";

/// The views of a list of texts.
pub open spec fn texts(list: Seq<String>) -> Seq<Seq<char>> {
    list.map_values(|text: String| text@)
}

/// The parts of `text` between the occurrences of `separator`, as
/// `str::split` finds them.
pub uninterp spec fn split_parts(text: Seq<char>, separator: Seq<char>) -> Seq<Seq<char>>;

/// `str::split` with a text as the pattern: the substrings of `text` that the
/// occurrences of `separator` part, in order. The result is named by
/// [`split_parts`].
#[verifier::external_body]
fn split(text: &str, separator: &str) -> (parts: Vec<String>)
    ensures
        texts(parts@) == split_parts(text@, separator@),
{
    text.split(separator).map(str::to_owned).collect()
}

/// The lines of `text`, without their line endings, as `str::lines` finds
/// them.
pub uninterp spec fn text_lines(text: Seq<char>) -> Seq<Seq<char>>;

/// `str::lines`: the lines of `text`, in order, each without its line ending.
/// The result is named by [`text_lines`].
#[verifier::external_body]
fn lines(text: &str) -> (lines: Vec<String>)
    ensures
        texts(lines@) == text_lines(text@),
{
    text.lines().map(str::to_owned).collect()
}

/// `text` without the whitespace at its start and its end, as `str::trim`
/// removes it.
pub uninterp spec fn trimmed(text: Seq<char>) -> Seq<char>;

/// `str::trim` gives the text without its leading and trailing whitespace.
/// The result is named by [`trimmed`].
pub assume_specification[ str::trim ](text: &str) -> (rest: &str)
    ensures
        rest@ == trimmed(text@),
;

/// The final component of the path `path`, if it has one, as
/// `std::path::Path::file_name` finds it.
pub uninterp spec fn path_file_name(path: Seq<char>) -> Option<Seq<char>>;

/// `std::path::Path::file_name`, on a path given as text. The result is named
/// by [`path_file_name`]: there is a file name exactly where that says so, and
/// it is the text that it says.
#[verifier::external_body]
fn file_name(path: &str) -> (name: Option<String>)
    ensures
        option_view(name) == path_file_name(path@),
{
    std::path::Path::new(path).file_name().map(|name| name.to_string_lossy().into_owned())
}

/// The path that a line names, where the line opens a file inside an archive:
/// what follows the prefix, trimmed.
pub open spec fn header_path(line: Seq<char>) -> Option<Seq<char>> {
    if spec_starts_with(line, FILE_PREFIX@) {
        Some(trimmed(line.skip(FILE_PREFIX@.len() as int)))
    } else {
        None
    }
}

/// Whether a file of this name inside an archive is the source of a case:
/// `name` is the final component of its path.
pub open spec fn spec_is_input(name: Option<Seq<char>>) -> bool {
    name == Some("input.scss"@) || name == Some("input.sass"@)
}

/// Whether a file of this name inside an archive is the source of a case.
pub fn is_input(name: Option<&str>) -> (b: bool)
    ensures
        b == spec_is_input(
            match name {
                Some(name) => Some(name@),
                None => None,
            },
        ),
{
    match name {
        Some(name) => {
            let name = name.to_owned();
            name == "input.scss".to_owned() || name == "input.sass".to_owned()
        },
        None => false,
    }
}

/// The source file that is being read inside an archive: its path inside the
/// archive and what has been read of its text.
pub struct OpenFile {
    pub name: Seq<char>,
    pub code: Seq<char>,
}

/// The source file that is open after `line` has been read. A line that
/// opens a file closes the one before it; the new one counts where it is the
/// source of a case. Any other line is added to the open file, without its
/// line ending.
pub open spec fn after_line(open: Option<OpenFile>, line: Seq<char>) -> Option<OpenFile> {
    match header_path(line) {
        Some(name) => if spec_is_input(path_file_name(name)) {
            Some(OpenFile { name, code: Seq::empty() })
        } else {
            None
        },
        None => match open {
            Some(file) => Some(OpenFile { name: file.name, code: file.code + line }),
            None => None,
        },
    }
}

/// The case that the source file `file` of the archive at `path` makes.
pub open spec fn case_of(path: Seq<char>, file: OpenFile) -> CaseOrigin {
    CaseOrigin { path, code: file.code, virtual_path: Some(file.name) }
}

/// The case that `line` completes: the open file, where the line opens the
/// next one.
pub open spec fn completed_by(path: Seq<char>, open: Option<OpenFile>, line: Seq<char>) -> Seq<
    CaseOrigin,
> {
    match open {
        Some(file) => if header_path(line) is Some {
            seq![case_of(path, file)]
        } else {
            Seq::empty()
        },
        None => Seq::empty(),
    }
}

/// The source file that is open after `lines` have been read.
pub open spec fn open_after(lines: Seq<Seq<char>>) -> Option<OpenFile>
    decreases lines.len(),
{
    if lines.len() == 0 {
        None
    } else {
        after_line(open_after(lines.drop_last()), lines.last())
    }
}

/// The cases that `lines` have completed.
pub open spec fn completed(path: Seq<char>, lines: Seq<Seq<char>>) -> Seq<CaseOrigin>
    decreases lines.len(),
{
    if lines.len() == 0 {
        Seq::empty()
    } else {
        completed(path, lines.drop_last()) + completed_by(
            path,
            open_after(lines.drop_last()),
            lines.last(),
        )
    }
}

/// The cases of one section of an archive, given by its lines: those that the
/// lines complete, and the one that is open at the end.
pub open spec fn section_cases(path: Seq<char>, lines: Seq<Seq<char>>) -> Seq<CaseOrigin> {
    completed(path, lines) + match open_after(lines) {
        Some(file) => seq![case_of(path, file)],
        None => Seq::empty(),
    }
}

/// The cases of an archive, given by its sections. An empty section makes
/// none.
pub open spec fn archive_cases(path: Seq<char>, sections: Seq<Seq<char>>) -> Seq<CaseOrigin>
    decreases sections.len(),
{
    if sections.len() == 0 {
        Seq::empty()
    } else {
        archive_cases(path, sections.drop_last()) + if sections.last().len() == 0 {
            Seq::empty()
        } else {
            section_cases(path, text_lines(sections.last()))
        }
    }
}

/// Whether the state that the reading of a section keeps stands for `open`.
pub open spec fn reading(
    code: String,
    is_case_file: bool,
    virtual_path: Option<String>,
    open: Option<OpenFile>,
) -> bool {
    match open {
        Some(file) => is_case_file && virtual_path is Some && virtual_path.unwrap()@ == file.name
            && code@ == file.code,
        None => !is_case_file,
    }
}

/// Appends to `cases` the cases of one section of the archive at `path`,
/// given by the lines of the section.
pub fn section_to_cases<T: Case>(cases: &mut Vec<T>, path: &String, lines: &Vec<String>)
    ensures
        origins(final(cases)@) == origins(old(cases)@) + section_cases(path@, texts(lines@)),
{
    let ghost all = texts(lines@);
    let mut code = String::new();
    let mut is_case_file = false;
    let mut virtual_path: Option<String> = None;
    let prefix_len = FILE_PREFIX.unicode_len();
    let mut l: usize = 0;
    proof {
        assert(all.take(0) =~= Seq::<Seq<char>>::empty());
        assert(origins(cases@) =~= origins(old(cases)@) + completed(path@, all.take(0)));
    }
    while l < lines.len()
        invariant
            l <= lines.len(),
            all == texts(lines@),
            prefix_len == FILE_PREFIX@.len(),
            reading(code, is_case_file, virtual_path, open_after(all.take(l as int))),
            origins(cases@) == origins(old(cases)@) + completed(path@, all.take(l as int)),
        decreases lines.len() - l,
    {
        let line = lines[l].as_str();
        let ghost before = cases@;
        let ghost seen = all.take(l as int);
        let ghost open = open_after(seen);
        proof {
            let next = all.take(l + 1);
            assert(next.drop_last() =~= seen);
            assert(next.last() == line@);
        }
        if starts_with(line, FILE_PREFIX) {
            if is_case_file {
                cases.push(
                    T::new(
                        path.clone(),
                        code.clone(),
                        match &virtual_path {
                            Some(name) => Some(name.clone()),
                            None => None,
                        },
                    ),
                );
                assert(origins(cases@) =~= origins(before) + seq![case_of(path@, open.unwrap())]);
            } else {
                assert(origins(cases@) =~= origins(before) + Seq::<CaseOrigin>::empty());
            }
            is_case_file = false;
            virtual_path = None;
            code = String::new();

            let rest = skip_chars(line, prefix_len);
            let file_path = rest.as_str().trim();
            let name = file_name(file_path);
            if is_input(
                match &name {
                    Some(name) => Some(name.as_str()),
                    None => None,
                },
            ) {
                is_case_file = true;
                virtual_path = Some(file_path.to_owned());
            }
        } else if is_case_file {
            code.append(line);
            assert(origins(cases@) =~= origins(before) + Seq::<CaseOrigin>::empty());
        } else {
            assert(origins(cases@) =~= origins(before) + Seq::<CaseOrigin>::empty());
        }
        l += 1;
    }
    proof {
        assert(all.take(l as int) =~= all);
    }
    let ghost before = cases@;
    if is_case_file {
        cases.push(T::new(path.clone(), code, virtual_path));
        assert(origins(cases@) =~= origins(before) + seq![
            case_of(path@, open_after(all).unwrap()),
        ]);
    } else {
        assert(origins(cases@) =~= origins(before) + Seq::<CaseOrigin>::empty());
    }
}

/// Appends to `cases` the cases of the archive at `path`, whose text is
/// `source`: in each section of the archive the files named `input.scss` or
/// `input.sass`, each under its path inside the archive.
pub fn create_case_from_hrx<T: Case>(cases: &mut Vec<T>, path: String, source: String)
    ensures
        origins(final(cases)@) == origins(old(cases)@) + archive_cases(
            path@,
            split_parts(source@, HRX_SECTION_SEPARATOR@),
        ),
{
    let sections = split(source.as_str(), HRX_SECTION_SEPARATOR);
    let ghost all = texts(sections@);
    let mut k: usize = 0;
    proof {
        assert(all.take(0) =~= Seq::<Seq<char>>::empty());
        assert(origins(cases@) =~= origins(old(cases)@) + archive_cases(path@, all.take(0)));
    }
    while k < sections.len()
        invariant
            k <= sections.len(),
            all == texts(sections@),
            origins(cases@) == origins(old(cases)@) + archive_cases(path@, all.take(k as int)),
        decreases sections.len() - k,
    {
        let section = sections[k].as_str();
        let ghost before = cases@;
        proof {
            let next = all.take(k + 1);
            assert(next.drop_last() =~= all.take(k as int));
            assert(next.last() == section@);
        }
        if !section.is_empty() {
            let section_lines = lines(section);
            section_to_cases(cases, &path, &section_lines);
            proof {
                let done = archive_cases(path@, all.take(k as int));
                let more = section_cases(path@, text_lines(section@));
                assert(origins(old(cases)@) + done + more =~= origins(old(cases)@) + (done + more));
            }
        } else {
            assert(origins(cases@) =~= origins(before) + Seq::<CaseOrigin>::empty());
        }
        k += 1;
    }
    proof {
        assert(all.take(k as int) =~= all);
    }
}

/// The cases of the file at `path`, whose text is `code`: those inside it
/// where the file is an archive, and else the file itself.
pub fn file_to_cases<T: Case>(path: String, code: String) -> (cases: Vec<T>)
    ensures
        origins(cases@) == if path_extension(path@) == Some("hrx"@) {
            archive_cases(path@, split_parts(code@, HRX_SECTION_SEPARATOR@))
        } else {
            seq![CaseOrigin { path: path@, code: code@, virtual_path: None }]
        },
{
    let is_hrx = is_archive(path.as_str());
    let mut cases: Vec<T> = Vec::new();
    assert(origins(cases@) =~= Seq::<CaseOrigin>::empty());
    if is_hrx {
        create_case_from_hrx(&mut cases, path, code);
        assert(Seq::<CaseOrigin>::empty() + archive_cases(
            path@,
            split_parts(code@, HRX_SECTION_SEPARATOR@),
        ) =~= archive_cases(path@, split_parts(code@, HRX_SECTION_SEPARATOR@)));
    } else {
        cases.push(T::new(path, code, None));
        assert(origins(cases@) =~= seq![
            CaseOrigin { path: path@, code: code@, virtual_path: None },
        ]);
    }
    cases
}

} // verus!
