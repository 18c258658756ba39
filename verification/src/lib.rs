//! Focus Pane: Markdown task parsing and editing, Pomodoro timer decisions,
//! and the command registry of the terminal front end, with their contracts.

pub mod models;
pub mod text;
pub mod grammar;
pub mod unicode;
pub mod dates;
pub mod numbers;
pub mod body;
pub mod lines;
pub mod repository;
pub mod outline;
pub mod edits;
pub mod ids;
pub mod locate;
pub mod mutations;
pub mod timer;
pub mod revision;
pub mod config;
pub mod workspace;
pub mod herdr;
pub mod commands;
pub mod search;
pub mod rows;
pub mod interface;
pub mod input;
pub mod sync;
pub mod store;
pub mod markdown_laws;
pub mod metadata_laws;
pub mod list_laws;
