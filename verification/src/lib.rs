//! Friendolls: the verified core of a desktop companion that shares presence,
//! cursor and activity data between friends through relay servers.

pub mod strings;
pub mod presence;
pub mod routing;
pub mod common;
pub mod scene;
pub mod screenshot;
pub mod settings;
pub mod identity;
pub mod media;
pub mod relay;
pub mod records;
pub mod network;
pub mod session;
pub mod interactions;
pub mod skins;
pub mod activity;
pub mod permission;
pub mod control_panel;
pub mod images;
