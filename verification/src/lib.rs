//! Drives an externally distributed zkSync Solidity compiler.
//!
//! The library decides and computes; it touches neither the disk, the network
//! nor any process. It tells a version to fetch from a compiler on disk,
//! computes where a compiler is cached and how it is downloaded, assembles
//! the compilation request, writes it as JSON, classifies how the compiler's
//! process ended, reads the JSON it printed, and says what the build came to.
//! [`pipeline::Pipeline`] strings these steps together: the caller carries
//! out each action it is handed and reports back what happened.

pub mod args;
pub mod error;
pub mod invoke;
pub mod json;
pub mod manager;
pub mod output;
pub mod pipeline;
pub mod platform;
pub mod request;
pub mod roundtrip;
pub mod text;
pub mod version;
