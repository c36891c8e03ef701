//! A parser for the line-oriented configuration format of the Nix package
//! manager (`nix.conf`).
//!
//! Each line is scanned into whitespace-separated tokens after its comment is
//! removed, classified as an assignment, an inclusion directive or nothing, and
//! applied to an insertion-ordered settings map. Reading included files is left
//! to the caller, which drives a [`ConfigParser`] and hands back what each
//! included file produced.
pub mod error;
pub mod laws;
pub mod line;
pub mod parser;
pub mod settings;
pub mod text;

pub use error::{ParseError, ParseErrorModel};
pub use laws::{
    lemma_blank_text, lemma_comments_dropped, lemma_first_insertion_order, lemma_parse_order,
    lemma_scan_deterministic, lemma_separator_runs, lemma_value_shape,
};
pub use line::{interpret_line, Line, LineModel};
pub use parser::{ConfigParser, ScanModel};
pub use settings::{lemma_insert_all_concat, NixConfig};
