//! The primitive kinds of value that an argument, flag or option can take.
use vstd::prelude::*;
use crate::text::str_eq;

verus! {

/// The kind of value that an argument, a flag or a configuration option takes.
#[derive(Debug, Clone, Copy, PartialEq, Eq, Structural)]
pub enum SpecDataTypes {
    Null,
    String,
    Integer,
    Float,
    Boolean,
}

impl Default for SpecDataTypes {
    fn default() -> (r: SpecDataTypes)
        ensures
            r == SpecDataTypes::Null,
    {
        SpecDataTypes::Null
    }
}

impl SpecDataTypes {
    /// The lower-case identifier by which a document names this kind.
    pub open spec fn identifier(self) -> Seq<char> {
        match self {
            SpecDataTypes::Null => "null"@,
            SpecDataTypes::String => "string"@,
            SpecDataTypes::Integer => "integer"@,
            SpecDataTypes::Float => "float"@,
            SpecDataTypes::Boolean => "boolean"@,
        }
    }

    /// The kind that an identifier names, if it names one.
    pub open spec fn named(s: Seq<char>) -> Option<SpecDataTypes> {
        if s == "null"@ {
            Some(SpecDataTypes::Null)
        } else if s == "string"@ {
            Some(SpecDataTypes::String)
        } else if s == "integer"@ {
            Some(SpecDataTypes::Integer)
        } else if s == "float"@ {
            Some(SpecDataTypes::Float)
        } else if s == "boolean"@ {
            Some(SpecDataTypes::Boolean)
        } else {
            None
        }
    }

    /// The five identifiers are pairwise different, so every kind is found
    /// again from its own identifier.
    pub proof fn lemma_named_identifier(self)
        ensures
            SpecDataTypes::named(self.identifier()) == Some(self),
    {
        reveal_strlit("null");
        reveal_strlit("string");
        reveal_strlit("integer");
        reveal_strlit("float");
        reveal_strlit("boolean");
        assert("null"@.len() == 4);
        assert("string"@.len() == 6);
        assert("integer"@.len() == 7);
        assert("float"@.len() == 5);
        assert("boolean"@.len() == 7);
        assert("integer"@[0] == 'i');
        assert("boolean"@[0] == 'b');
    }

    /// The identifier of this kind.
    pub fn as_str(&self) -> (r: &'static str)
        ensures
            r@ == self.identifier(),
    {
        match self {
            SpecDataTypes::Null => "null",
            SpecDataTypes::String => "string",
            SpecDataTypes::Integer => "integer",
            SpecDataTypes::Float => "float",
            SpecDataTypes::Boolean => "boolean",
        }
    }

    /// Reads a kind from its identifier. Any other text names no kind.
    pub fn from_name(s: &str) -> (r: Option<SpecDataTypes>)
        ensures
            r == SpecDataTypes::named(s@),
    {
        if str_eq(s, "null") {
            Some(SpecDataTypes::Null)
        } else if str_eq(s, "string") {
            Some(SpecDataTypes::String)
        } else if str_eq(s, "integer") {
            Some(SpecDataTypes::Integer)
        } else if str_eq(s, "float") {
            Some(SpecDataTypes::Float)
        } else if str_eq(s, "boolean") {
            Some(SpecDataTypes::Boolean)
        } else {
            None
        }
    }
}

} // verus!
