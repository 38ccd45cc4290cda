//! Core engine of a local conversation-history search tool.
//!
//! The crate indexes conversation records produced by coding assistants,
//! keeps a parallel vector store aligned by document id, and builds the
//! session summaries and previews that an interactive front end displays.
//! Every function here carries a contract checked by Verus; terminal
//! rendering, file handling and the embedding runtimes live outside the
//! library and talk to it through plain values.

pub mod config;
pub mod engine;
pub mod error;
pub mod index;
pub mod ingest;
pub mod model;
pub mod preview;
pub mod session;
pub mod strutil;
pub mod text;
pub mod tokens;
pub mod types;
pub mod ui;
pub mod vector;
