//! The launcher's window: what it shows, what it answers, and what it starts.

pub mod archive;
pub mod events;
pub mod install;
pub mod json;
pub mod launch;
pub mod laws;
pub mod scripts;
pub mod settings;
pub mod skin;
pub mod update;
