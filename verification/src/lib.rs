//! Verified core of a small command-line client for chat-completion models:
//! conversation history, the streamed-reply assembler, the tool-calling loop,
//! agent pipelines, and the text formats the program reads and writes.

pub mod text;
pub mod config;
pub mod message;
pub mod stream;
pub mod chat;
pub mod tools;
pub mod crew;
pub mod skills;
pub mod cli;
pub mod ui;
pub mod toolbox;
pub mod team;
pub mod mcp;
