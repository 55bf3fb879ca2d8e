//! Offline legal assistant core: document chunking, contradiction-report
//! processing, prompt construction and engine bookkeeping.

pub mod chat;
pub mod chat_db;
pub mod document_analysis;
pub mod document_text;
pub mod embeddings;
pub mod engine_progress;
pub mod grounding;
pub mod hello;
pub mod json;
pub mod llm;
pub mod model_download;
pub mod models;
pub mod paths;
pub mod rag;
pub mod settings;
pub mod text;
pub mod vector_store;
pub mod warmup;
