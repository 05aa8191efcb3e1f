//! Semantic search indexing: the decisions, formats and bookkeeping of a crawler
//! that keeps a Qdrant collection in step with source trees.

pub mod audit;
pub mod batching;
pub mod clock;
pub mod crawl;
pub mod display;
pub mod dump;
pub mod engine;
pub mod files;
pub mod hash;
pub mod json;
pub mod mcp;
pub mod order;
pub mod report;
pub mod scan;
pub mod selector;
pub mod settings;
pub mod text;
pub mod text_map;
pub mod tracking;
pub mod warnings;
pub mod watcher;
