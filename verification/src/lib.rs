//! Planning and bookkeeping for SSH local port forwards grouped into namespaces.

pub mod text;
pub mod config;
pub mod connection;
pub mod tui;
pub mod shutdown;
