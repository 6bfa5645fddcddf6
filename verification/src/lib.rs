//! Embedding pipeline for document templates, fonts and remotely hosted
//! packages: a package resolver with cache-priority lookup, a
//! content-addressed deduplicating compression cache, and a directory
//! embedder that turns file trees into reproducible embeddable entries.

pub mod cache;
pub mod config;
pub mod downloader;
pub mod embed;
pub mod error;
pub mod resolver;
pub mod scanner;
pub mod stats;
pub mod text;
