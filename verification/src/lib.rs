use vstd::prelude::*;

pub mod api;
pub mod text;
pub mod db;
pub mod deploy;
pub mod docker;
pub mod env_backup;
pub mod firewall;
pub mod fw_helper;
pub mod health;
pub mod git_providers;
pub mod ingress;
pub mod logs;
pub mod maintenance;
pub mod ports;
pub mod service;

