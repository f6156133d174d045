pub mod address;
pub mod collect;
pub mod config;
pub mod metrics;
pub mod session;
pub mod text;
pub mod usage;
