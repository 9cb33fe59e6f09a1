//! Verified core of the server modpack installer, the embedded mod metadata
//! reader and the Minecraft library download planner.

pub mod text;
pub mod prune;
pub mod modpack;
pub mod download;
pub mod mod_metadata;
pub mod jar;
pub mod mods_toml;
pub mod install_plan;
pub mod version_info;
pub mod natives;
