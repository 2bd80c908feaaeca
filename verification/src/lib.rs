//! State of a fleet of coding agents, rebuilt from the hook events they send.

pub mod text;
pub mod json;
pub mod wire;
pub mod clock;
pub mod state;
pub mod model;
pub mod settings;
pub mod tray;
pub mod feed;
pub mod daemon;
pub mod discover;
pub mod laws;
