//! Verified core of a status-line tool for vast.ai GPU usage.
pub mod text;
pub mod json;
pub mod key;
pub mod install;
pub mod fmt;
pub mod render;
pub mod cli;
pub mod api;
pub mod config;
