//! Publishing of Gemini capsules: documents that belong to an owner are
//! classified, composed with their shared fragments, aggregated into tag
//! listings and laid out as a tree of output files.
pub mod error;
pub mod text;
pub mod utils;
pub mod database;
pub mod capsule;
pub mod capsule_proofs;
