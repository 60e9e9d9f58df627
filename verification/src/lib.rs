//! Verified core of a CMake-cache-to-Rust configuration pipeline.
//!
//! The library parses the flat `KEY:TYPE=VALUE` lines of a CMake cache,
//! reduces each flag to a small typed model, filters and orders the flags
//! worth exposing, and renders one Rust `const` declaration per flag,
//! guarding against invalid identifiers, invalid string literals and
//! duplicate declarations.

pub mod cmake_codegen;
pub mod codegen;
pub mod error;
pub mod model;
pub mod parse;
pub mod profile;
pub mod text;
