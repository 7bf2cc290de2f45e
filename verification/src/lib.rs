//! Span-preserving editing of package manifests.
//!
//! A release bumps one version field inside a manifest (JSON for npm, XML
//! for Maven, a properties line for Gradle) while leaving every other byte
//! of the file untouched.  The parsers here read just enough structure to
//! locate one scalar value by a path, stamp it with the range of buffer
//! positions it was read from, and splice replacement text into exactly
//! that range.  Each parser is verified against a mathematical account of
//! its grammar, and each codec's `replace` is proved to rewrite only the
//! located range.

pub mod changelog;
pub mod git;
pub mod package;
pub mod parser;
pub mod project;
pub mod text;
pub mod utils;
pub mod version;
