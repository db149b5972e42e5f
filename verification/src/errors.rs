//! The error taxonomy of the loading pipeline.  Every failure carries enough
//! context to identify the offending path, name or volume; nothing is
//! silently defaulted.

use vstd::prelude::*;

verus! {

/// Ghost mirror of [`LoadError`] with character sequences for the context
/// strings; contracts speak of this model.
pub enum ErrorModel {
    IoError { context: Seq<char> },
    MissingDescriptor,
    PackError { context: Seq<char> },
    ParseError { context: Seq<char> },
    InvalidPackageName { name: Seq<char> },
    UnresolvedCommandAtom { command: Seq<char> },
    MissingAtom { atom: Seq<char> },
    InvalidBindingMetadata { context: Seq<char> },
    MissingExports,
    NonUtf8Interface { path: Seq<char> },
    InterfaceParseError { path: Seq<char> },
    MissingModuleAtom { atom: Seq<char> },
    UndeterminableModuleName { path: Seq<char> },
    MalformedReference { reference: Seq<char> },
    MissingVolume { volume: Seq<char> },
    MissingFileInVolume { path: Seq<char> },
    InternalInvariant { context: Seq<char> },
}

/// Whether an error agrees with an expected one.  A parse or pack failure is
/// matched by kind: its context string describes the offending position in
/// words and is not pinned by the specification.  Every other error is
/// matched exactly, context included.
pub open spec fn err_like(actual: ErrorModel, expected: ErrorModel) -> bool {
    match expected {
        ErrorModel::ParseError { context: _ } => actual is ParseError,
        ErrorModel::PackError { context: _ } => actual is PackError,
        _ => actual == expected,
    }
}

/// Why a `load`, pack or resolve operation failed.
#[derive(Debug, Clone, PartialEq, Eq)]
pub enum LoadError {
    /// The input path could not be read (reported by the caller's I/O layer).
    IoError { context: String },
    /// A directory input lacks the top-level package descriptor file.
    MissingDescriptor,
    /// Packing a directory mapping into container bytes failed.
    PackError { context: String },
    /// The container bytes are malformed.
    ParseError { context: String },
    /// The name part of the fully-qualified identifier breaks the
    /// package-naming grammar.
    InvalidPackageName { name: String },
    /// A manifest-declared command has no entry in the `wasi` namespace map.
    UnresolvedCommandAtom { command: String },
    /// The atom named by the `wasi` namespace map is not in the container.
    MissingAtom { atom: String },
    /// A manifest binding record is malformed.
    InvalidBindingMetadata { context: String },
    /// A binding lacks its mandatory exports-interface path.
    MissingExports,
    /// Interface-definition bytes are not valid UTF-8.
    NonUtf8Interface { path: String },
    /// Interface-definition text was rejected by the interface parser.
    InterfaceParseError { path: String },
    /// The atom referenced by a binding's module path is not in the container.
    MissingModuleAtom { atom: String },
    /// The binding's module path has no file stem to name the module by.
    UndeterminableModuleName { path: String },
    /// A volume reference lacks the `://` scheme separator.
    MalformedReference { reference: String },
    /// The referenced volume is not in the container.
    MissingVolume { volume: String },
    /// The referenced volume holds neither a nested nor a flat file entry of
    /// that name.
    MissingFileInVolume { path: String },
    /// A structural guarantee of the container format was broken.
    InternalInvariant { context: String },
}

impl View for LoadError {
    type V = ErrorModel;

    open spec fn view(&self) -> ErrorModel {
        match self {
            LoadError::IoError { context } => ErrorModel::IoError { context: context@ },
            LoadError::MissingDescriptor => ErrorModel::MissingDescriptor,
            LoadError::PackError { context } => ErrorModel::PackError { context: context@ },
            LoadError::ParseError { context } => ErrorModel::ParseError { context: context@ },
            LoadError::InvalidPackageName { name } => ErrorModel::InvalidPackageName {
                name: name@,
            },
            LoadError::UnresolvedCommandAtom { command } => ErrorModel::UnresolvedCommandAtom {
                command: command@,
            },
            LoadError::MissingAtom { atom } => ErrorModel::MissingAtom { atom: atom@ },
            LoadError::InvalidBindingMetadata { context } => ErrorModel::InvalidBindingMetadata {
                context: context@,
            },
            LoadError::MissingExports => ErrorModel::MissingExports,
            LoadError::NonUtf8Interface { path } => ErrorModel::NonUtf8Interface { path: path@ },
            LoadError::InterfaceParseError { path } => ErrorModel::InterfaceParseError {
                path: path@,
            },
            LoadError::MissingModuleAtom { atom } => ErrorModel::MissingModuleAtom { atom: atom@ },
            LoadError::UndeterminableModuleName { path } => ErrorModel::UndeterminableModuleName {
                path: path@,
            },
            LoadError::MalformedReference { reference } => ErrorModel::MalformedReference {
                reference: reference@,
            },
            LoadError::MissingVolume { volume } => ErrorModel::MissingVolume { volume: volume@ },
            LoadError::MissingFileInVolume { path } => ErrorModel::MissingFileInVolume {
                path: path@,
            },
            LoadError::InternalInvariant { context } => ErrorModel::InternalInvariant {
                context: context@,
            },
        }
    }
}

} // verus!
