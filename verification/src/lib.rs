//! Extensions and utility layers for OpenDAL: configuration helpers, write quotas and a virtual
//! file system that mounts several operators into one namespace.
//!
//! What the library decides is decided here, by functions with contracts; the calls to the
//! storage backends are made by the program around it.

/// Configuration types and helpers for constructing operators.
pub mod config;
/// The errors of this library.
pub mod error;
/// A layer that makes an operator read-only.
pub mod layers;
/// The mounts of a virtual file system.
pub mod mount;
/// Unsigned numbers and their decimal notation.
pub mod number;
/// Storage operators and the layers on them.
pub mod operator;
/// Virtual paths.
pub mod path;
/// Write quotas.
pub mod quota;
/// How often a call is repeated.
pub mod retry;
/// The storage services and their names.
pub mod service;
/// Tables keyed by text.
pub mod table;
/// Operations on text.
pub mod text;
/// How much data may pass in a second.
pub mod throttle;
/// Configuration and builder of a virtual file system.
pub mod vfs;

pub use retry::RetrySetting;
pub use throttle::Throttle;
