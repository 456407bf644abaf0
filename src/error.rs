//! Errors of analysis and of lookup.

use vstd::prelude::*;

verus! {

/// The type that a configuration value has.
#[derive(Clone, Copy, Debug, PartialEq, Eq, Structural)]
pub enum ValueKind {
    Bool,
    Str,
    Vis,
}

/// A declaration that cannot be analyzed.
#[derive(Clone, Debug, PartialEq, Eq)]
pub enum AnalysisError {
    /// A declaration that must carry documentation has none.
    MissingDocumentation,
    /// A documentation attribute whose payload is not literal text.
    NotAStringLiteral,
    /// A configuration key that is not recognized.
    UnknownOption(String),
    /// A configuration key given twice within one annotation.
    DuplicateOption(String),
    /// A configuration value of the wrong type: key, expected, found.
    TypeMismatch(String, ValueKind, ValueKind),
    /// A declaration shape that the requested mode does not support.
    UnsupportedShape,
}

/// A failed lookup of a member's documentation.
#[derive(Clone, Debug, PartialEq, Eq)]
pub enum Error {
    /// The name is not a member of the container.
    NoSuchField(String),
    /// The member exists but has no documentation and no default.
    NoDocComments(String),
}

} // verus!
