//! Indexing and search core for a cmdlet documentation search service.
//!
//! The crate holds the tokenization pipeline that splits compound command
//! names such as `Set-HTMLContent` into searchable sub-words with exact byte
//! offsets, the document schema shared by the indexing and the query side,
//! the indexing pipeline that turns `Cmdlet` records into engine documents,
//! and the query resolver with its sanitize-and-retry parsing strategy.
//! Calls into the full-text engine stand behind a small set of trusted
//! bindings; everything around them is verified.

pub mod analyzer;
pub mod chars;
pub mod cmdlet;
pub mod engine;
pub mod error;
pub mod gallery;
pub mod indexer;
pub mod markdown;
pub mod schema;
pub mod search;
pub mod splitter;
pub mod tags;
pub mod token;
