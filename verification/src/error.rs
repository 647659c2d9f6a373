//! Errors of compilation, each with the place in the source it points at.
use vstd::prelude::*;
use crate::data_types::SpecDataTypes;
use crate::text::concat;

verus! {

/// A stretch of the source text: where it starts and how long it is.
#[derive(Debug, Clone, Copy, PartialEq, Eq, Structural)]
pub struct Span {
    pub offset: usize,
    pub len: usize,
}

impl Span {
    /// The empty stretch at the start of the text.
    pub open spec fn zero() -> Span {
        Span { offset: 0, len: 0 }
    }

    /// The empty stretch at the start of the text.
    pub fn empty() -> (r: Span)
        ensures
            r == Span::zero(),
    {
        Span { offset: 0, len: 0 }
    }
}

/// Why a document could not be compiled.
#[derive(Debug, Clone)]
pub enum UsageErr {
    /// The text is not a well-formed document.
    DocumentSyntax { file: String, span: Span, message: String },
    /// A node lacks the positional value at `index`.
    MissingPositionalArgument { file: String, span: Span, index: usize },
    /// A value is not of the kind that its place asks for.
    TypeMismatch { file: String, span: Span, expected: SpecDataTypes },
    /// A node lacks the keyed value `key`.
    MissingProperty { file: String, span: Span, key: String },
    /// A node or a keyed value has a name outside the vocabulary.
    UnsupportedSpecKey { file: String, span: Span, key: String },
    /// A document refers to another one, `path`, that was not supplied.
    UnresolvedInclude { file: String, span: Span, path: String },
    /// A document could not be read.
    Io { file: String, message: String },
    /// A document refers, directly or through others, to itself.
    CircularInclude { file: String },
}

/// What a `UsageErr` stands for.
pub enum UsageErrModel {
    DocumentSyntax { file: Seq<char>, span: Span, message: Seq<char> },
    MissingPositionalArgument { file: Seq<char>, span: Span, index: usize },
    TypeMismatch { file: Seq<char>, span: Span, expected: SpecDataTypes },
    MissingProperty { file: Seq<char>, span: Span, key: Seq<char> },
    UnsupportedSpecKey { file: Seq<char>, span: Span, key: Seq<char> },
    UnresolvedInclude { file: Seq<char>, span: Span, path: Seq<char> },
    Io { file: Seq<char>, message: Seq<char> },
    CircularInclude { file: Seq<char> },
}

impl View for UsageErr {
    type V = UsageErrModel;

    open spec fn view(&self) -> UsageErrModel {
        match *self {
            UsageErr::DocumentSyntax { file, span, message } => UsageErrModel::DocumentSyntax {
                file: file@,
                span,
                message: message@,
            },
            UsageErr::MissingPositionalArgument { file, span, index } => {
                UsageErrModel::MissingPositionalArgument { file: file@, span, index }
            },
            UsageErr::TypeMismatch { file, span, expected } => UsageErrModel::TypeMismatch {
                file: file@,
                span,
                expected,
            },
            UsageErr::MissingProperty { file, span, key } => UsageErrModel::MissingProperty {
                file: file@,
                span,
                key: key@,
            },
            UsageErr::UnsupportedSpecKey { file, span, key } => UsageErrModel::UnsupportedSpecKey {
                file: file@,
                span,
                key: key@,
            },
            UsageErr::UnresolvedInclude { file, span, path } => UsageErrModel::UnresolvedInclude {
                file: file@,
                span,
                path: path@,
            },
            UsageErr::Io { file, message } => UsageErrModel::Io { file: file@, message: message@ },
            UsageErr::CircularInclude { file } => UsageErrModel::CircularInclude { file: file@ },
        }
    }
}

impl UsageErrModel {
    /// The file that the error points into.
    pub open spec fn file(self) -> Seq<char> {
        match self {
            UsageErrModel::DocumentSyntax { file, .. } => file,
            UsageErrModel::MissingPositionalArgument { file, .. } => file,
            UsageErrModel::TypeMismatch { file, .. } => file,
            UsageErrModel::MissingProperty { file, .. } => file,
            UsageErrModel::UnsupportedSpecKey { file, .. } => file,
            UsageErrModel::UnresolvedInclude { file, .. } => file,
            UsageErrModel::Io { file, .. } => file,
            UsageErrModel::CircularInclude { file } => file,
        }
    }

    /// The stretch of the file that the error points at; errors about a
    /// whole file point at its start.
    pub open spec fn span(self) -> Span {
        match self {
            UsageErrModel::DocumentSyntax { span, .. } => span,
            UsageErrModel::MissingPositionalArgument { span, .. } => span,
            UsageErrModel::TypeMismatch { span, .. } => span,
            UsageErrModel::MissingProperty { span, .. } => span,
            UsageErrModel::UnsupportedSpecKey { span, .. } => span,
            UsageErrModel::UnresolvedInclude { span, .. } => span,
            UsageErrModel::Io { .. } => Span::zero(),
            UsageErrModel::CircularInclude { .. } => Span::zero(),
        }
    }
}

impl UsageErrModel {
    /// What the error says, without its place.
    pub open spec fn message(self) -> Seq<char> {
        match self {
            UsageErrModel::DocumentSyntax { message, .. } => message,
            UsageErrModel::MissingPositionalArgument { .. } => "missing positional argument"@,
            UsageErrModel::TypeMismatch { expected, .. } => "expected "@ + expected.identifier(),
            UsageErrModel::MissingProperty { key, .. } => "missing "@ + key,
            UsageErrModel::UnsupportedSpecKey { key, .. } => "unsupported spec key "@ + key,
            UsageErrModel::UnresolvedInclude { path, .. } => "unresolved include "@ + path,
            UsageErrModel::Io { message, .. } => message,
            UsageErrModel::CircularInclude { file } => "circular include "@ + file,
        }
    }
}

impl UsageErr {
    /// What the error says, without its place.
    pub fn to_string(&self) -> (r: String)
        ensures
            r@ == self@.message(),
    {
        match self {
            UsageErr::DocumentSyntax { message, .. } => message.clone(),
            UsageErr::MissingPositionalArgument { .. } => "missing positional argument".to_owned(),
            UsageErr::TypeMismatch { expected, .. } => concat("expected ", expected.as_str()),
            UsageErr::MissingProperty { key, .. } => concat("missing ", key.as_str()),
            UsageErr::UnsupportedSpecKey { key, .. } => concat(
                "unsupported spec key ",
                key.as_str(),
            ),
            UsageErr::UnresolvedInclude { path, .. } => concat("unresolved include ", path.as_str()),
            UsageErr::Io { message, .. } => message.clone(),
            UsageErr::CircularInclude { file } => concat("circular include ", file.as_str()),
        }
    }

    /// The file that the error points into.
    pub fn file(&self) -> (r: &String)
        ensures
            r@ == self@.file(),
    {
        match self {
            UsageErr::DocumentSyntax { file, .. } => file,
            UsageErr::MissingPositionalArgument { file, .. } => file,
            UsageErr::TypeMismatch { file, .. } => file,
            UsageErr::MissingProperty { file, .. } => file,
            UsageErr::UnsupportedSpecKey { file, .. } => file,
            UsageErr::UnresolvedInclude { file, .. } => file,
            UsageErr::Io { file, .. } => file,
            UsageErr::CircularInclude { file } => file,
        }
    }

    /// The stretch of the file that the error points at.
    pub fn span(&self) -> (r: Span)
        ensures
            r == self@.span(),
    {
        match self {
            UsageErr::DocumentSyntax { span, .. } => *span,
            UsageErr::MissingPositionalArgument { span, .. } => *span,
            UsageErr::TypeMismatch { span, .. } => *span,
            UsageErr::MissingProperty { span, .. } => *span,
            UsageErr::UnsupportedSpecKey { span, .. } => *span,
            UsageErr::UnresolvedInclude { span, .. } => *span,
            UsageErr::Io { .. } => Span::empty(),
            UsageErr::CircularInclude { .. } => Span::empty(),
        }
    }
}

} // verus!
