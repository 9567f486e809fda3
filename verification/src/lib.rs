pub mod cli;
pub mod config;
pub mod executor;
pub mod lines;
pub mod operations;
pub mod pool;
pub mod summarize;
pub mod text;
pub mod tui;
