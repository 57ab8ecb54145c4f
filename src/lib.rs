//! Hero grid detection: locating the game client's configuration directory,
//! fingerprinting the grid file and matching the fingerprint against a
//! published catalog of known grids.
pub mod catalog;
pub mod digest;
pub mod manifest;
pub mod matcher;
pub mod resolver;
pub mod settings;
pub mod text;
