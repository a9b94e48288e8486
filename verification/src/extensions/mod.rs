//! Extensions: external programs that the server exposes under `/extensions`.

pub mod executor;
pub mod manager;
