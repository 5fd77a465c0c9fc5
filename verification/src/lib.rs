//! A personal bank of reusable text prompts: the record model, the
//! `{{name}}` template engine and the in-memory store, with their contracts.

pub mod bank;
pub mod bank_laws;
pub mod claude;
pub mod community;
pub mod error;
pub mod input;
pub mod input_laws;
pub mod order;
pub mod outside;
pub mod prompt;
pub mod storage;
pub mod template;
pub mod template_laws;
pub mod text;
