use vstd::prelude::*;

verus! {

/// The stage at which a compilation failure was detected.
#[derive(Clone, Copy, Debug, PartialEq, Eq)]
pub enum ErrorKind {
    /// An illegal character or a word missing a required letter.
    Lexical,
    /// An odd word count, a wrong word-class order in a pair, or a bad header record.
    Format,
    /// A record stream that the grammar rejects.
    Syntax,
    /// A function body rejected by the backend's verifier.
    Codegen,
}

/// A fatal compilation error carrying the 1-based source position of the
/// word or record responsible.
#[derive(Clone, Copy, Debug, PartialEq, Eq)]
pub struct Error {
    pub kind: ErrorKind,
    pub line: usize,
    pub col: usize,
}

impl Error {
    /// A short description of the failing stage, for diagnostics.
    pub fn describe(&self) -> (r: &'static str)
        ensures
            r@ == (match self.kind {
                ErrorKind::Lexical => "lexical error"@,
                ErrorKind::Format => "format error"@,
                ErrorKind::Syntax => "syntax error"@,
                ErrorKind::Codegen => "codegen error"@,
            }),
    {
        match self.kind {
            ErrorKind::Lexical => "lexical error",
            ErrorKind::Format => "format error",
            ErrorKind::Syntax => "syntax error",
            ErrorKind::Codegen => "codegen error",
        }
    }
}

} // verus!
