//! Chapter-tree flattening, merging and naming for audiobook splitting,
//! together with the progress bookkeeping of the per-chapter conversion run.
pub mod chapters;
pub mod cli;
pub mod files;
pub mod models;
pub mod naming;
pub mod orchestrator;
pub mod policy;
pub mod progress;
pub mod text;
