//! Desktop shell for the Kimi Code web UI.
pub mod attach;
pub mod boot;
pub mod chrome;
pub mod cli;
pub mod connections;
pub mod download;
pub mod embedded;
pub mod http;
pub mod json;
pub mod menu;
pub mod net;
pub mod rc;
pub mod registry;
pub mod restart;
pub mod sessions;
pub mod static_server;
pub mod tabs;
pub mod terminate;
pub mod text;
pub mod update;
pub mod usage;
pub mod version;
pub mod web;
