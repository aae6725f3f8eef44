//! The logic of CMD Runner, a tabbed launcher for Windows batch files.

pub mod app;
pub mod cards;
pub mod config;
pub mod laws;
pub mod model;
pub mod output;
pub mod paths;
pub mod text;
pub mod theme;
pub mod tray;
