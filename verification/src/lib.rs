pub mod config;
pub mod debug;
pub mod diagnose;
pub mod engine;
pub mod error;
pub mod local_player;
pub mod memory;
pub mod overlay;
pub mod process;
pub mod position;
pub mod state;
pub mod text;
pub mod util;
pub mod window;
