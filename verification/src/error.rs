//! What can go wrong while a body is read.
use crate::text::{append, append_str, to_chars, to_text};
use vstd::prelude::*;

verus! {

/// The kinds of failure.
#[derive(Clone, Copy, Debug, PartialEq, Eq, Structural)]
pub enum ErrorKind {
    /// A `lambda` signature without `(` and `)` in this order, or with an
    /// argument that is not a type and a name.
    MalformedSignature,
    /// A declaration that holds a type and nothing else.
    MalformedDeclaration,
    /// An assignment with more than one `=`.
    MalformedAssignment,
    /// An expression that is neither a literal nor a known name.
    UnresolvedExpression,
}

/// A failure as a value of the specification: its kind and the text that
/// it is about.
pub struct Failure {
    pub kind: ErrorKind,
    pub text: Seq<char>,
}

/// A failure: its kind and the text that it is about, which is the line
/// for a malformed line and the expression for an unresolved one.
#[derive(Debug)]
pub struct GeneratorError {
    pub kind: ErrorKind,
    pub text: String,
}

impl View for GeneratorError {
    type V = Failure;

    open spec fn view(&self) -> Failure {
        Failure { kind: self.kind, text: self.text@ }
    }
}

/// The words that describe a kind of failure.
pub open spec fn kind_label(kind: ErrorKind) -> Seq<char> {
    match kind {
        ErrorKind::MalformedSignature => "Invalid lambda signature"@,
        ErrorKind::MalformedDeclaration => "Invalid variable declaration"@,
        ErrorKind::MalformedAssignment => "Invalid assignment"@,
        ErrorKind::UnresolvedExpression => "Unresolved expression"@,
    }
}

impl GeneratorError {
    /// The failure of kind `kind` about `text`.
    pub fn new(kind: ErrorKind, text: &[char]) -> (r: Self)
        ensures
            r@ == (Failure { kind, text: text@ }),
    {
        GeneratorError { kind, text: to_text(text) }
    }

    /// The failure in words: the label of its kind, a colon, a space and
    /// the text.
    pub fn message(&self) -> (r: String)
        ensures
            r@ == kind_label(self.kind) + ": "@ + self.text@,
    {
        let mut out: Vec<char> = Vec::new();
        match self.kind {
            ErrorKind::MalformedSignature => append_str(&mut out, "Invalid lambda signature"),
            ErrorKind::MalformedDeclaration => append_str(&mut out, "Invalid variable declaration"),
            ErrorKind::MalformedAssignment => append_str(&mut out, "Invalid assignment"),
            ErrorKind::UnresolvedExpression => append_str(&mut out, "Unresolved expression"),
        }
        append_str(&mut out, ": ");
        let text = to_chars(self.text.as_str());
        append(&mut out, text.as_slice());
        assert(out@ =~= kind_label(self.kind) + ": "@ + self.text@);
        to_text(out.as_slice())
    }
}

} // verus!
