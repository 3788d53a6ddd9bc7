//! Supervision core for the Lapsus daemon controller.
//!
//! The crate locates the supervised binary, decides how to start and stop it
//! (through the service manager or by direct process control), interprets the
//! liveness probe's two signals, keeps the persisted configuration document in
//! sync, and detects out-of-band state changes.

pub mod codec;
pub mod config;
pub mod platform;
pub mod probe;
pub mod reconcile;
pub mod resolve;
pub mod supervise;
pub mod system;
pub mod text;

pub use config::Config;
