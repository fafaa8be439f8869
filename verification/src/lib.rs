//! oadig: extracting structured slices from OpenAPI documents.

pub mod cli;
pub mod commands;
pub mod encode;
pub mod error;
pub mod json;
pub mod loader;
pub mod matcher;
pub mod output;
pub mod pointer;
pub mod resolver;
pub mod table;
pub mod text;
pub mod warnings;
