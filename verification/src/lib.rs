//! Tree-based document indexing and retrieval: documents are organised as
//! hierarchical trees of sections (from Markdown headers or a PDF table of
//! contents) that a language model can navigate, with no vector index.

pub mod text;
pub mod node;
pub mod pdf;
pub mod pagespec;
pub mod document;
pub mod outline;
pub mod toc;
pub mod tree_builder;
pub mod markdown;
pub mod retrieve;
pub mod config;
pub mod storage;
pub mod client;
pub mod llm;
pub mod sdk;
pub mod parse;
pub mod summary;
pub mod service;
pub mod cli;
