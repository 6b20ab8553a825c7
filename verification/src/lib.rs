//! Analysis of templated SQL sources: template expansion with a bidirectional
//! position map, a small SQL grammar, and column-level lineage resolution.
//!
//! The pipeline has three stages.  First the template layer is stripped from a
//! raw source file, producing plain SQL together with a position map that
//! remembers, for every byte of the generated text, where it came from in the
//! original file.  Second, the generated SQL is parsed into a structural model
//! of queries, common table expressions and set operations.  Third, the query
//! structure is resolved scope by scope into models whose columns carry their
//! provenance.  Errors found in the later stages are translated back through
//! the position map so that they point into the original file.

pub mod utils;

pub mod jinja_parser;

pub mod parser;

pub mod validation;

pub mod diagnostics;
