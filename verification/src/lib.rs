//! Core logic of a lightweight chat client for OpenAI-compatible APIs:
//! conversations and their state transitions, version comparison for the
//! self-updater, text extraction from attached documents, and a Markdown
//! event-to-tree parser.

pub mod text;
pub mod types;
pub mod update;
pub mod files;
pub mod markdown;
pub mod chat;
pub mod imaging;
pub mod pdf;
pub mod epub;
pub mod config;
pub mod view;
pub mod api;
