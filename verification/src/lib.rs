//! Model-list synchronisation for editor configuration files.

pub mod text;
pub mod jsonc;
pub mod json;
pub mod names;
pub mod sync;
pub mod opencode;
pub mod zed;
pub mod anthropic;
pub mod cli;
