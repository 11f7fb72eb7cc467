//! The core of a terminal reader for EPUB, Markdown and plain text books.
pub mod app;
pub mod buffer;
pub mod cli;
pub mod command;
pub mod document;
pub mod encoding;
pub mod file_picker;
pub mod filter;
pub mod history;
pub mod input;
pub mod loose_match;
pub mod matching;
pub mod natural;
pub mod order;
pub mod search;
pub mod state;
pub mod strings;
pub mod terminal;
pub mod terminal_palette;
pub mod text;
pub mod theme;
pub mod ui;
pub mod unicode;
pub mod viewport;
pub mod wrap;
