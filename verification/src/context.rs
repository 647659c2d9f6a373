//! Where a document came from, for the errors that point into it.
use vstd::prelude::*;

verus! {

/// The path and the text of the document that is being compiled.
#[derive(Debug, Clone)]
pub struct ParsingContext {
    pub file: String,
    pub spec: String,
}

impl ParsingContext {
    /// The context of the document with the text `spec` that came from
    /// `file`.
    pub fn new(file: &str, spec: &str) -> (r: ParsingContext)
        ensures
            r.file@ == file@,
            r.spec@ == spec@,
    {
        ParsingContext { file: file.to_owned(), spec: spec.to_owned() }
    }
}

impl Default for ParsingContext {
    /// The context of a document that came from no file.
    fn default() -> (r: ParsingContext)
        ensures
            r.file@ == Seq::<char>::empty(),
            r.spec@ == Seq::<char>::empty(),
    {
        ParsingContext { file: String::new(), spec: String::new() }
    }
}

} // verus!
