//! hitpoint: the verified core of a terminal API tester for FastAPI backends.

pub mod auth;
pub mod cli;
pub mod config;
pub mod error;
pub mod http;
pub mod json;
pub mod lists;
pub mod mcp;
pub mod model;
pub mod names;
pub mod pairs;
pub mod spec;
pub mod text;
pub mod tui;
