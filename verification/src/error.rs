//! Lexical errors: a scan stops at the first one, and reports its kind and
//! the 1-based line it arose on.

use vstd::prelude::*;

verus! {

/// The two kinds of lexical error.
#[derive(Debug, Clone, Copy, PartialEq, Eq, Structural)]
pub enum ScanErrorKind {
    /// A character matched none of the recognized dispatch cases.
    UnexpectedCharacter,
    /// A string literal's opening quote was never matched by a closing quote.
    UnterminatedString,
}

/// The mathematical value of a lexical error: its kind and the 1-based line
/// it is reported at.
pub struct ScanErrorModel {
    pub kind: ScanErrorKind,
    pub line: int,
}

/// A lexical error, fatal to the scan that raised it.
#[derive(Debug)]
pub struct ScanError {
    pub kind: ScanErrorKind,
    pub line: i64,
}

impl View for ScanError {
    type V = ScanErrorModel;

    open spec fn view(&self) -> ScanErrorModel {
        ScanErrorModel { kind: self.kind, line: self.line as int }
    }
}

impl ScanError {
    /// A human-readable description of the error, fixed by its kind.
    pub fn message(&self) -> (msg: String)
        ensures
            self.kind == ScanErrorKind::UnexpectedCharacter ==> msg@ == "Unexpected character"@,
            self.kind == ScanErrorKind::UnterminatedString ==> msg@ == "Unterminated string."@,
    {
        match self.kind {
            ScanErrorKind::UnexpectedCharacter => "Unexpected character".to_owned(),
            ScanErrorKind::UnterminatedString => "Unterminated string.".to_owned(),
        }
    }
}

} // verus!
