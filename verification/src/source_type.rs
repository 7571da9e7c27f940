//! Which of the three stylesheet syntaxes a source is written in.
use vstd::prelude::*;
use vstd::string::*;

verus! {

/// The syntax of a stylesheet.
#[derive(Debug, Clone, Copy, PartialEq, Eq, Structural, Hash)]
pub enum Syntax {
    Sass,
    Scss,
    Css,
}

/// The dialect that a scan runs under. It is chosen before the scan and read
/// only during it.
#[derive(Debug, Clone, Copy, PartialEq, Eq, Structural, Hash)]
pub struct SourceType {
    pub syntax: Syntax,
}

impl Default for SourceType {
    fn default() -> (source_type: SourceType)
        ensures
            source_type.syntax == Syntax::Scss,
    {
        SourceType { syntax: Syntax::Scss }
    }
}

/// The extension of the file that `path` names: what follows the last dot of its
/// final component, if that component has a dot that is not its first character.
pub uninterp spec fn path_extension(path: Seq<char>) -> Option<Seq<char>>;

/// `std::path::Path::extension`, on a path given as text. The result is named
/// by [`path_extension`]: there is an extension exactly where that says so, and
/// it is the text that it says.
#[verifier::external_body]
pub(crate) fn extension_of(path: &str) -> (extension: Option<String>)
    ensures
        extension.is_some() == path_extension(path@).is_some(),
        extension.is_some() ==> extension.unwrap()@ == path_extension(path@).unwrap(),
{
    std::path::Path::new(path).extension().map(|e| e.to_string_lossy().into_owned())
}

/// The syntax that a file extension stands for: `css` is plain CSS, `sass` is
/// Sass, and everything else, a missing extension included, is SCSS.
pub open spec fn syntax_of_extension(extension: Option<Seq<char>>) -> Syntax {
    match extension {
        Some(e) => if e == "css"@ {
            Syntax::Css
        } else if e == "sass"@ {
            Syntax::Sass
        } else {
            Syntax::Scss
        },
        None => Syntax::Scss,
    }
}

impl SourceType {
    /// The syntax of this source type.
    pub fn syntax(&self) -> (syntax: Syntax)
        ensures
            syntax == self.syntax,
    {
        self.syntax
    }

    /// Whether the Sass-only tokens are recognised: variables, the variadic
    /// marker and the comparison operators. Plain CSS has none of them.
    pub open spec fn spec_allows_sass_tokens(&self) -> bool {
        self.syntax != Syntax::Css
    }

    /// Whether the Sass-only tokens are recognised under this source type.
    #[verifier::when_used_as_spec(spec_allows_sass_tokens)]
    pub fn allows_sass_tokens(&self) -> (b: bool)
        ensures
            b == self.spec_allows_sass_tokens(),
    {
        match self.syntax {
            Syntax::Css => false,
            _ => true,
        }
    }

    /// The source type for a file extension.
    pub fn from_extension(extension: Option<&str>) -> (source_type: SourceType)
        ensures
            source_type.syntax == syntax_of_extension(
                match extension {
                    Some(e) => Some(e@),
                    None => None,
                },
            ),
    {
        let syntax = match extension {
            Some(e) => {
                let e = e.to_owned();
                if e == "css".to_owned() {
                    Syntax::Css
                } else if e == "sass".to_owned() {
                    Syntax::Sass
                } else {
                    Syntax::Scss
                }
            },
            None => Syntax::Scss,
        };
        SourceType { syntax }
    }

    /// The source type of the file at `path`, chosen by its extension.
    pub fn from_path(&self, path: &str) -> (source_type: SourceType)
        ensures
            source_type.syntax == syntax_of_extension(path_extension(path@)),
    {
        match extension_of(path) {
            Some(e) => SourceType::from_extension(Some(e.as_str())),
            None => SourceType::from_extension(None),
        }
    }
}

} // verus!
