//! A minimal container launcher library.
//!
//! Given an image reference `repository:tag`, the registry session fetches a
//! pull-scoped token, the image manifest, and each filesystem layer; layers
//! are decompressed, decoded from the tar format, checked against path
//! traversal, and applied in listed order to an in-memory sandbox-root model.
//! The launcher half decides the in-root command path, the isolation outcome,
//! and the propagated exit status. All network and filesystem effects are
//! performed by the surrounding program; this crate holds the decisions and
//! the data transforms, verified.

pub mod err;
pub mod gzip;
pub mod json;
pub mod launch;
pub mod manifest;
pub mod paths;
pub mod registry;
pub mod sandbox;
pub mod tar;
pub mod unpack;
