//! Verified core of the Ambient ember tooling: manifest checks, TOML value
//! conversion, build scheduling, module pairing and project-path rules.

pub mod asset;
pub mod value;
pub mod manifest;
pub mod paths;
pub mod modules;
pub mod scheduling;
pub mod address;
