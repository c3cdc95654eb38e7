//! Core of MihomoManifold: the settings model, the rules and config written
//! for the mihomo core, subscription parsing, and the decisions the UI makes.

pub mod text;
pub mod api;
pub mod paths;
pub mod headers;
pub mod config;
pub mod yaml;
pub mod template;
pub mod json;
pub mod subscription;
pub mod corectl;
pub mod state;
pub mod hwid;
pub mod pages;
