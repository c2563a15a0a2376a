//! Flodo's core: the to-do model, the command line, markdown, quick capture,
//! and the small formats the app reads and writes.

pub mod text;
pub mod model;
pub mod platform;
pub mod capture;
pub mod cli;
pub mod markdown;
pub mod icon;
pub mod theme;
pub mod store;
pub mod settings;
pub mod app;
pub mod fonts;
pub mod hotkey;
