//! Filtering of line-oriented RDF statement dumps: a parser for one statement per
//! line, the decisions that keep a statement, give an entity's label and count an
//! entity's direct statements, and the batching and per-worker state of a pipeline
//! that streams a dump through several workers.
use vstd::prelude::*;

pub mod classify;
pub mod counts;
pub mod escape;
pub mod parser;
pub mod pipeline;
pub mod statement;
pub mod tables;
mod text;

pub use classify::{
    direct_property, entity, handle, ignored_subject, is_acceptable, label, maybe_count_statement,
    maybe_write_label, maybe_write_line, LineError, DIRECT_PROPERTY_IRI_PREFIX, ENTITY_IRI_PREFIX,
};
pub use counts::Counts;
pub use escape::{parse_unicode, unescape, EscapeError};
pub use parser::{parse, ParseError};
pub use pipeline::{merge_results, worker_count, Producer, Work, WorkResult, Worker, BATCH_SIZE};
pub use statement::{Extra, Object, Statement, Subject};
pub use tables::{line_set, lines, Tables};

verus! {

} // verus!
