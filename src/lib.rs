//! Finds Minecraft mods on a mod-hosting service, works out every file that a chosen mod
//! needs through its hard dependencies, and decides which of them to download.

pub mod cli;
pub mod models;
pub mod planner;
pub mod repo;
pub mod resolver;
pub mod search;
pub mod selection;
pub mod text;
pub mod url;
