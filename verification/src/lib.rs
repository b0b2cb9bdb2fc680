//! A preprocessor for legal-citation markup in Pandoc-style markdown.
//!
//! The library turns inline citation markers (`[@key]`), cross-references
//! (`[?id]`), and cite-breaks (`[$]`) inside footnotes (`^[...]`) into fully
//! formatted legal citations: long form on first use, short form or `*Id.*`
//! afterwards, with footnote numbers resolved for cross-references.

pub mod build_types;
pub mod buildsource;
pub mod citetools;
pub mod config;
pub mod crossref;
pub mod csljson;
pub mod laws;
pub mod lexer;
pub mod options;
pub mod parser;
pub mod post;
pub mod pre;
pub mod render;
pub mod sourcemap;
pub mod text;
pub mod userjournals;
