//! FastUp's library: the configuration of the elements it manages, the
//! state of the ones running, the decisions taken when starting, stopping
//! and refreshing them, and the text processing behind its log file and its
//! reading of `ss` listings.
pub mod config;
pub mod elements;
pub mod groups;
pub mod logger;
pub mod paint;
pub mod ports;
pub mod process;
pub mod state;
pub mod text;
pub mod utils;
