//! Multi-chain RPC load balancer: the verified core.

pub mod benchmark;
pub mod config;
pub mod connection_pool;
pub mod extensions;
pub mod json;
pub mod load_balancer;
pub mod node;
pub mod retry;
pub mod server;
pub mod text;
