//! Derives short "trigger -> expansion" pairs from an OWL/RDF ontology.
//!
//! The library selects ontology subjects by type from an in-memory triple
//! store, recovers an English label for each, qualifies the subject IRI
//! against a prefix table, and synthesizes typed match records for a
//! text-expansion tool.

pub mod extract;
pub mod labels;
pub mod model;
pub mod pipeline;
pub mod sort;
pub mod store;
pub mod text;
pub mod triggers;
