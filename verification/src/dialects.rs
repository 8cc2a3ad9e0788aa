//! The per-provider dialect implementations.
pub mod mysql;
pub mod postgres;
