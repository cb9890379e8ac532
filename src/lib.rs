//! Converts crate dependency metadata into a package graph for a
//! binary packaging system.
pub mod text;
pub mod version;
pub mod range;
pub mod naming;
pub mod translate;
pub mod features;
pub mod database;
pub mod lockfile;
pub mod walker;
pub mod control;
pub mod config;
pub mod util;
pub mod pkgname;
pub mod graph;
