//! Session and configuration core of `dmlive`.

pub mod browser;
pub mod chrome;
pub mod config;
pub mod cookies;
pub mod error;
pub mod file_path;
pub mod firefox;
pub mod ini;
pub mod login;
pub mod outside;
pub mod profiles;
pub mod refresh;
pub mod room;
pub mod save;
pub mod string_map;
pub mod text;
pub mod unix_path;
