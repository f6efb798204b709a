//! The daemon's HTTP surface, apart from the transport: which route a
//! request takes, who may call it, and the public routes' decisions.

pub mod http_api;
pub mod public_routes;
pub mod server;
pub mod cache;
