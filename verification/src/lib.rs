//! A lowering of the _jeff_ hypergraph exchange format for hybrid
//! quantum/classical programs into the hierarchical HUGR dataflow IR.
//!
//! The translation engine works on explicit models of both IRs: a source
//! module is a table of functions whose bodies are regions of typed
//! operations over hyperedge values, and the output is a hierarchical graph
//! of typed nodes joined by data and ordering edges. Reading the source
//! format from disk and realizing the output graph against the target IR's
//! own builder are left to the surrounding tooling.

pub mod alist;
pub mod extension;
pub mod graph;
pub mod wiring;
pub mod jeff_ir;
pub mod optype;
pub mod to_hugr;
pub mod to_jeff;
pub mod types;

pub use to_hugr::{jeff_to_hugr, JeffToHugrError};
pub use to_jeff::HugrToJeffError;
