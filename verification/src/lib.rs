//! The decision logic of a media server that adopts and serves Jellyfin
//! databases, with machine-checked contracts.

pub mod adoption_repairs;
pub mod api_client;
pub mod application_host;
pub mod base_url;
pub mod casing;
pub mod interfaces;
pub mod json;
pub mod macos_interfaces;
pub mod net;
pub mod normalized_usernames;
pub mod outbox;
pub mod outside;
pub mod server_discovery;
pub mod sqlite_casing;
pub mod text;
pub mod virtual_paths;
