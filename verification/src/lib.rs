//! An offline password-recovery engine: it replays a wordlist against a target
//! digest (or a WPA handshake MIC) and reports the first candidate that matches.
//!
//! The crate holds the matching logic and its proofs. Devices, files and the
//! console belong to the program built around it.

pub mod algo;
pub mod cpu;
pub mod digest;
pub mod dispatch;
pub mod encoder;
pub mod engine;
pub mod handshake;
pub mod kernel;
pub mod outcome;
pub mod target;
