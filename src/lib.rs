//! A single-domain crawler's core: fingerprint deduplication with a
//! write-ahead log, chunked saving, page text extraction and link filtering.

pub mod bloom;
pub mod crawl;
pub mod extract;
pub mod globals;
pub mod save;
pub mod text;
