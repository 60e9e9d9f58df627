//! The top-level error type of the tool and its rendering: every failure
//! is reported as one of three kinds carrying a human-readable message.

use vstd::prelude::*;

use crate::cmake_codegen::{CMakeCodegenError, CodegenErrorV};
use crate::codegen::GenerationErrorV;
use crate::parse::ParseError;

verus! {

broadcast use vstd::string::group_string_axioms;

/// The kinds of failure the tool reports to its caller.
#[derive(Debug, PartialEq, Eq)]
pub enum Error {
    ConfigError(String),
    IO(String),
    ExitStatusError(String),
}

/// Mathematical image of an [`Error`].
pub enum ErrorV {
    ConfigError(Seq<char>),
    IO(Seq<char>),
    ExitStatusError(Seq<char>),
}

impl View for Error {
    type V = ErrorV;

    open spec fn view(&self) -> ErrorV {
        match self {
            Error::ConfigError(m) => ErrorV::ConfigError(m@),
            Error::IO(m) => ErrorV::IO(m@),
            Error::ExitStatusError(m) => ErrorV::ExitStatusError(m@),
        }
    }
}

impl Clone for Error {
    /// The copy carries the same kind and message.
    fn clone(&self) -> (r: Self)
        ensures
            r@ == self@,
    {
        match self {
            Error::ConfigError(m) => Error::ConfigError(m.clone()),
            Error::IO(m) => Error::IO(m.clone()),
            Error::ExitStatusError(m) => Error::ExitStatusError(m.clone()),
        }
    }
}

/// The message a codegen failure is reported with.
pub open spec fn codegen_error_message(v: CodegenErrorV) -> Seq<char> {
    match v {
        CodegenErrorV::Parse(p) => match p {
            ParseError::IoFailure => "Failed to read CMakeCache.txt file"@,
            ParseError::InvalidTypeHint => "Invalid type hint in CMakeCache.txt file"@,
            ParseError::PropertyMissingKeyTypeValueTriple => "Invalid property definition in CMakeCache.txt file"@,
        },
        CodegenErrorV::Generation(g) => match g {
            GenerationErrorV::InvalidIdentifier(s) => "Invalid identifier interpreted from CMakeCache.txt: "@
                + s,
            GenerationErrorV::InvalidStringLiteral(s) => "Invalid Rust string literal generated from a value in CMakeCache.txt: "@
                + s,
        },
        CodegenErrorV::Duplicate(i) => "Duplicate identifiers generated in rust config from CMakeCache.txt: "@
            + i,
        CodegenErrorV::WriteIo => "Failure to write out generated rust config."@,
    }
}

impl Error {
    /// Report a codegen failure as a command failure carrying the
    /// message fixed for its kind.
    pub fn from_codegen_error(c: &CMakeCodegenError) -> (r: Error)
        ensures
            r@ == ErrorV::ExitStatusError(codegen_error_message(c@)),
    {
        match c {
            CMakeCodegenError::ParseError(p) => match p {
                ParseError::IoFailure => Error::ExitStatusError(
                    "Failed to read CMakeCache.txt file".to_owned(),
                ),
                ParseError::InvalidTypeHint => Error::ExitStatusError(
                    "Invalid type hint in CMakeCache.txt file".to_owned(),
                ),
                ParseError::PropertyMissingKeyTypeValueTriple => Error::ExitStatusError(
                    "Invalid property definition in CMakeCache.txt file".to_owned(),
                ),
            },
            CMakeCodegenError::GenerationError(g) => match g {
                crate::codegen::RustCodeGenerationError::InvalidIdentifier(s) => {
                    let mut m = String::new();
                    m.append("Invalid identifier interpreted from CMakeCache.txt: ");
                    m.append(s.as_str());
                    Error::ExitStatusError(m)
                },
                crate::codegen::RustCodeGenerationError::InvalidStringLiteral(s) => {
                    let mut m = String::new();
                    m.append("Invalid Rust string literal generated from a value in CMakeCache.txt: ");
                    m.append(s.as_str());
                    Error::ExitStatusError(m)
                },
            },
            CMakeCodegenError::DuplicateIdentifiers(i) => {
                let mut m = String::new();
                m.append("Duplicate identifiers generated in rust config from CMakeCache.txt: ");
                m.append(i.as_str());
                Error::ExitStatusError(m)
            },
            CMakeCodegenError::WriteIoError => Error::ExitStatusError(
                "Failure to write out generated rust config.".to_owned(),
            ),
        }
    }

    /// The message an error displays as, prefixed by its kind.
    pub open spec fn message_spec(v: ErrorV) -> Seq<char> {
        match v {
            ErrorV::IO(m) => "[IO error] "@ + m,
            ErrorV::ExitStatusError(m) => "[command error] "@ + m,
            ErrorV::ConfigError(m) => "[config error] "@ + m
                + "\n\nCheck your project's toml files for invalid syntax"@,
        }
    }

    /// Render the error for a human reader.
    pub fn message(&self) -> (r: String)
        ensures
            r@ == Self::message_spec(self@),
    {
        match self {
            Error::IO(m) => {
                let mut s = String::new();
                s.append("[IO error] ");
                s.append(m.as_str());
                s
            },
            Error::ExitStatusError(m) => {
                let mut s = String::new();
                s.append("[command error] ");
                s.append(m.as_str());
                s
            },
            Error::ConfigError(m) => {
                let mut s = String::new();
                s.append("[config error] ");
                s.append(m.as_str());
                s.append("\n\nCheck your project's toml files for invalid syntax");
                s
            },
        }
    }
}

} // verus!
