//! One parsed source file: its typed contents, its originating path, and the
//! identifier derived from the path's file stem.

use vstd::prelude::*;
use vstd::string::StringExecFns;

use crate::file_parser::ParseFrom;
use crate::ident::{lemma_normalize_valid, normalize_spec, to_valid_ident, valid_ident};
use crate::strutil::{file_name_spec, stem_spec, file_name_of, stem_of};

verus! {

/// The identifier a module takes from its source path: the normalized stem
/// of the path's file name.
pub open spec fn derived_name(path: Seq<char>) -> Seq<char> {
    normalize_spec(stem_spec(file_name_spec(path)))
}

/// A module with a name, parsed contents, and a source path.
pub struct Module<T> {
    /// Parsed contents of the module.
    pub contents: T,
    /// Source file for the module.
    pub source: String,
    /// Name of the module.
    pub name: String,
}

impl<T> Module<T> {
    /// The module's invariant: its name is the identifier derived from its
    /// source path, and is a valid identifier.
    pub open spec fn wf(&self) -> bool {
        &&& self.name@ == derived_name(self.source@)
        &&& valid_ident(self.name@)
    }

    /// Build a module from a source path and the file's read text: derive the
    /// name from the path and hand the text to the parsing capability. A read
    /// failure is returned as a `ReadFile` error, a rejection by the
    /// capability as a `ParseContents` error, each carrying the path; the
    /// call fails no other way.
    pub fn parse<State>(path: &str, text: Result<String, String>, state: &mut State) -> (r: Result<
        Module<T>,
        ParseModuleError<<T as ParseFrom<String, State>>::Error>,
    >) where T: ParseFrom<String, State>
        ensures
            (match r {
                Ok(m) => m.wf() && m.source@ == path@ && text is Ok,
                Err(e) => e.path@ == path@ && (match e.kind {
                    ParseModuleErrorKind::ReadFile { message } => text matches Err(t) && message@
                        == t@,
                    ParseModuleErrorKind::ParseContents { source } => text is Ok,
                }),
            }),
    {
        match text {
            Err(message) => Err(
                ParseModuleError {
                    path: String::from_str(path),
                    kind: ParseModuleErrorKind::ReadFile { message },
                },
            ),
            Ok(raw) => {
                let file_name = file_name_of(path);
                let stem = stem_of(file_name.as_str());
                let name = to_valid_ident(stem.as_str());
                proof {
                    lemma_normalize_valid(stem@);
                }
                match T::parse(raw, state) {
                    Ok(contents) => Ok(
                        Module { contents, source: String::from_str(path), name },
                    ),
                    Err(source) => Err(
                        ParseModuleError {
                            path: String::from_str(path),
                            kind: ParseModuleErrorKind::ParseContents { source },
                        },
                    ),
                }
            },
        }
    }
}

/// Failed to build a module from its source file.
#[derive(Debug)]
#[non_exhaustive]
pub struct ParseModuleError<E> {
    /// Path to the source file.
    pub path: String,
    /// The error variants.
    pub kind: ParseModuleErrorKind<E>,
}

/// The ways building a module can fail.
#[derive(Debug)]
#[non_exhaustive]
pub enum ParseModuleErrorKind<E> {
    /// Failed to read the source file.
    #[non_exhaustive]
    ReadFile {
        /// The underlying read failure.
        message: String,
    },
    /// The parsing capability rejected the contents of the source file.
    #[non_exhaustive]
    ParseContents {
        /// The capability's error.
        source: E,
    },
}

/// The message of a [`ParseModuleError`]: `failed to parse module ` and the
/// path.
pub open spec fn parse_module_error_message(path: Seq<char>) -> Seq<char> {
    "failed to parse module "@ + path
}

impl<E> ParseModuleError<E> {
    /// Render this error's own message, per [`parse_module_error_message`].
    pub fn message(&self) -> (r: String)
        ensures
            r@ == parse_module_error_message(self.path@),
    {
        String::from_str("failed to parse module ").concat(self.path.as_str())
    }
}

impl<E> ParseModuleErrorKind<E> {
    /// The fixed message of each variant.
    pub fn message(&self) -> (r: String)
        ensures
            (match self {
                ParseModuleErrorKind::ReadFile { .. } => r@ == "failed to read module file"@,
                ParseModuleErrorKind::ParseContents { .. } => r@
                    == "failed to parse module contents"@,
            }),
    {
        match self {
            ParseModuleErrorKind::ReadFile { .. } => String::from_str("failed to read module file"),
            ParseModuleErrorKind::ParseContents { .. } => String::from_str(
                "failed to parse module contents",
            ),
        }
    }
}

} // verus!
