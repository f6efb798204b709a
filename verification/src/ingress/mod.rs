//! The reverse proxy's routing: domains and external ports to backends.

pub mod router;
pub mod proxy;
pub mod tls;
