//! The kinds of token.
use vstd::prelude::*;

verus! {

/// What a token represents.
#[derive(Debug, Clone, Copy, PartialEq, Eq, Structural, Hash)]
#[allow(clippy::upper_case_acronyms)]
pub enum Kind {
    Unknown,
    EOF,
    /// Any run of whitespace characters, newlines included.
    Whitespace,
    LineComment,
    BlockComment,
    Ident,
    Variable,
    Float,
    Number,
    Str,
    /// `&`
    Amp,
    At,
    Bang,
    BracketL,
    BracketR,
    /// `^`
    Caret,
    Colon,
    Comma,
    CurlyL,
    CurlyR,
    Dollar,
    Dot,
    Dot3,
    Eq,
    Eq2,
    Minus,
    ParenL,
    ParenR,
    Percentage,
    Plus,
    /// `#`
    Pound,
    Semicolon,
    Slash,
    Star,
    /// `~`
    Tilde,
    Gt,
    Lt,
    /// `>=`
    GtEq,
    /// `<=`
    LtEq,
    /// `!=`
    Neq,
    /// `<!--`
    CDO,
    /// `-->`
    CDC,
}

impl Default for Kind {
    fn default() -> (kind: Kind)
        ensures
            kind == Kind::EOF,
    {
        Kind::EOF
    }
}

impl Kind {
    /// The canonical display string of each kind.
    pub open spec fn spec_to_str(self) -> Seq<char> {
        match self {
            Kind::Unknown => "Unknown"@,
            Kind::EOF => "EOF"@,
            Kind::Whitespace => " "@,
            Kind::LineComment => "//"@,
            Kind::BlockComment => "/* */"@,
            Kind::Ident => "Identifier"@,
            Kind::Variable => "Variable"@,
            Kind::Float => "Float"@,
            Kind::Number => "Number"@,
            Kind::Str => "String"@,
            Kind::Amp => "&"@,
            Kind::At => "@"@,
            Kind::Bang => "!"@,
            Kind::BracketL => "["@,
            Kind::BracketR => "]"@,
            Kind::Caret => "^"@,
            Kind::Colon => ":"@,
            Kind::Comma => ","@,
            Kind::CurlyL => "{"@,
            Kind::CurlyR => "}"@,
            Kind::Dollar => "$"@,
            Kind::Dot => "."@,
            Kind::Dot3 => "..."@,
            Kind::Eq => "="@,
            Kind::Eq2 => "=="@,
            Kind::Minus => "-"@,
            Kind::ParenL => "("@,
            Kind::ParenR => ")"@,
            Kind::Percentage => "%"@,
            Kind::Pound => "#"@,
            Kind::Plus => "+"@,
            Kind::Semicolon => ";"@,
            Kind::Slash => "/"@,
            Kind::Star => "*"@,
            Kind::Tilde => "~"@,
            Kind::Gt => ">"@,
            Kind::Lt => "<"@,
            Kind::GtEq => ">="@,
            Kind::LtEq => "<="@,
            Kind::Neq => "!="@,
            Kind::CDC => "-->"@,
            Kind::CDO => "<!--"@,
        }
    }

    /// The canonical display string of this kind, as used in messages.
    pub fn to_str(self) -> (s: &'static str)
        ensures
            s@ == self.spec_to_str(),
    {
        match self {
            Kind::Unknown => "Unknown",
            Kind::EOF => "EOF",
            Kind::Whitespace => " ",
            Kind::LineComment => "//",
            Kind::BlockComment => "/* */",
            Kind::Ident => "Identifier",
            Kind::Variable => "Variable",
            Kind::Float => "Float",
            Kind::Number => "Number",
            Kind::Str => "String",
            Kind::Amp => "&",
            Kind::At => "@",
            Kind::Bang => "!",
            Kind::BracketL => "[",
            Kind::BracketR => "]",
            Kind::Caret => "^",
            Kind::Colon => ":",
            Kind::Comma => ",",
            Kind::CurlyL => "{",
            Kind::CurlyR => "}",
            Kind::Dollar => "$",
            Kind::Dot => ".",
            Kind::Dot3 => "...",
            Kind::Eq => "=",
            Kind::Eq2 => "==",
            Kind::Minus => "-",
            Kind::ParenL => "(",
            Kind::ParenR => ")",
            Kind::Percentage => "%",
            Kind::Pound => "#",
            Kind::Plus => "+",
            Kind::Semicolon => ";",
            Kind::Slash => "/",
            Kind::Star => "*",
            Kind::Tilde => "~",
            Kind::Gt => ">",
            Kind::Lt => "<",
            Kind::GtEq => ">=",
            Kind::LtEq => "<=",
            Kind::Neq => "!=",
            Kind::CDC => "-->",
            Kind::CDO => "<!--",
        }
    }

    pub open spec fn spec_is_trivia(self) -> bool {
        self == Kind::Whitespace || self == Kind::LineComment || self == Kind::BlockComment
    }

    /// Whether tokens of this kind carry no grammatical meaning: whitespace and
    /// comments.
    #[verifier::when_used_as_spec(spec_is_trivia)]
    pub fn is_trivia(self) -> (b: bool)
        ensures
            b == self.spec_is_trivia(),
    {
        matches!(self, Kind::Whitespace | Kind::LineComment | Kind::BlockComment)
    }
}

} // verus!
