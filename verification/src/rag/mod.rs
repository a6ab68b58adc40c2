//! Retrieval over local documents: chunking, keyword search and formatting.
pub mod chunk;
pub mod chunk_laws;
pub mod docx;
pub mod docx_laws;
pub mod format;
pub mod query;
pub mod result_laws;
pub mod sources;
pub mod search_laws;
pub mod store;
pub mod store_laws;
pub mod terms;
pub mod tool;
