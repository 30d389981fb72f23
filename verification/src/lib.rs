//! Extraction of function signatures from a simplified C-like source text.
//!
//! A source text is scanned once, character by character, into a sequence
//! of function records: return type, name, arguments and body. The records
//! are then written out as a JSON document that lists the names and the
//! arguments.
//!
//! The scanner is no parser of C or C++. It expects a return type of one
//! word, a name, `type name` pairs between parentheses, and a body between
//! one pair of braces, and it does not report text of any other shape,
//! except for an argument that is not a pair of words.
//!
//! - [`scanner`] holds the scanner, [`arguments`] the reading of argument
//!   lists, [`record`] the data they produce.
//! - [`emitter`] writes the document, and [`json`] brings a document into
//!   compact form.
//! - [`text`] holds the operations on character sequences that the others
//!   are stated with.
//! - [`properties`] and [`declaration`] state and prove what holds of every
//!   scan, and of the scan of well-formed text.

pub mod arguments;
pub mod declaration;
pub mod emitter;
pub mod json;
pub mod properties;
pub mod record;
pub mod scanner;
pub mod text;

pub use arguments::extract_arguments;
pub use emitter::emit;
pub use json::compact_json;
pub use record::{Argument, FunctionRecord, ParseError};
pub use scanner::parse_cpp_function_syntax;
