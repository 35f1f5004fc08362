//! Verified core of a sync bridge between a local Luau project and Roblox Studio.

pub mod config;
pub mod events;
pub mod lsp;
pub mod mapping;
pub mod mappings;
pub mod plain_path;
pub mod pull;
pub mod sync;
pub mod text;
