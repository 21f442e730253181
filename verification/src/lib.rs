//! A verified model of a sysroot build-and-install protocol.
//!
//! The library decides whether a cached sysroot installation is still
//! current, and if not, drives a rebuild: construct an isolated build
//! workspace, invoke an (injectable) external build driver, stage the
//! produced artifacts next to the installation target, and promote the
//! staging directory with a single atomic rename.  All of the protocol's
//! logic runs over an in-memory filesystem model, so every decision and
//! every state change is verified; an unverified shell can replay the
//! same steps against a real filesystem.

pub mod digits;
pub mod paths;
pub mod fingerprint;
pub mod fsmodel;
pub mod driver;
pub mod manifest;
pub mod sysroot;
pub mod laws;
