//! A pool of Codex accounts: which of them to use, what is left of each, and a
//! local proxy in front of them.

pub mod aliases;
pub mod auth;
pub mod commands;
pub mod context;
pub mod json;
pub mod models;
pub mod output;
pub mod percent;
pub mod percent_text;
pub mod proxy;
pub mod ranking;
pub mod store;
pub mod text;
pub mod updater;
pub mod usage;
pub mod utils;
