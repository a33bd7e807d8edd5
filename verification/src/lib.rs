//! Parser for the link map that a linker writes: which object files went into
//! a binary, where its sections lie, and which symbols stayed or were stripped.
//!
//! `parse_linkmap` reads a whole map from its lines; `LinkMapParser` reads it
//! line by line. What either returns is stated over `run` and `step`, the
//! mathematical description of the parser.

pub mod demangle;
pub mod number;
pub mod parser;
pub mod record;
pub mod text;

pub use parser::{parse_linkmap, LineReport, LinkMapParser, ParsingPhase};
pub use record::{
    parse_object_file_line, parse_section_line, parse_symbol_line, LineError, LinkMap, ObjectFile,
    SectionObject, SymbolObject,
};
