//! Batch orchestration for scraping a faceted component catalog.

pub mod batch_manager;
pub mod cli;
pub mod components;
pub mod config;
pub mod counts;
pub mod data_manager;
pub mod json;
pub mod prompts;
pub mod request_sender;
pub mod response_handler;
pub mod tasks;
pub mod text;
pub mod types;
