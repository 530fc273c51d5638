//! OmitFS: the rules of an intent-driven semantic file system.
//!
//! What OmitFS decides and computes, but for floating point, lives here with its contract. Reading
//! disks, talking to the kernel, the vector store, the embedding model and Ollama is left to the
//! program around it.
pub mod config;
pub mod crypto;
pub mod db;
pub mod embedding;
pub mod fuse;
pub mod gui;
pub mod hasher;
pub mod ingest;
pub mod json;
pub mod laws;
pub mod mcp;
pub mod ocr;
pub mod rag;
pub mod reranker;
pub mod select;
pub mod server;
pub mod step;
pub mod text;
pub mod whisper_transcribe;
