pub mod archive;
pub mod config;
pub mod known_words;
pub mod session;
pub mod tracker;
