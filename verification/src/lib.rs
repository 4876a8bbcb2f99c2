//! Building blocks for small command-line tools: a file-to-module parsing
//! pipeline with a pluggable parsing capability, an identifier normalizer,
//! a typed error taxonomy, and helpers for rendering ordered output.

pub mod action;
pub mod chars;
pub mod error_report;
pub mod file_parser;
pub mod file_type;
pub mod ident;
pub mod log;
pub mod strutil;
pub mod style;

pub use action::{Action, ActionResult, State};
pub use error_report::{Report, ReportResult};
pub use file_parser::{
    FileParser, Module, ParseFileError, ParseFileErrorKind, ParseFrom, Render, SourceData,
    SourceEntry, WriteError, WriteErrorKind,
};
pub use file_type::FileType;
pub use ident::to_valid_ident;
pub use log::{error_line, fail_line, success_line, warning_line};
