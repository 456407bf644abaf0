//! Extraction of documentation text from declarations, cascading
//! configuration, and name-keyed lookup of member documentation.

pub mod text;
pub mod error;
pub mod config;
pub mod decl;
pub mod ordered;
pub mod lookup;
pub mod item;
