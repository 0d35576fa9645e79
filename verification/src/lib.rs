//! Verified core of a GitHub repository discovery service.
pub mod text;
pub mod decimal;
pub mod models;
pub mod pattern;
pub mod config;
pub mod filter;
mod clock;
pub mod crawler;
pub mod tokens;
pub mod db;
pub mod state;
pub mod engine;
pub mod notifier;
pub mod ui;
pub mod cli;
pub mod gui;
