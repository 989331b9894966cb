//! Decides which dependencies of a Cargo workspace are to be taken down to the lowest versions
//! that their requirements admit, and in which steps the manifests are rewritten.
pub mod action;
pub mod failures;
pub mod laws;
pub mod manifests;
pub mod message;
pub mod models;
pub mod outside;
pub mod package;
pub mod results;
pub mod runs;
pub mod selection;
pub mod session;
pub mod table;
pub mod text;
pub mod traces;
pub mod upgrades;
