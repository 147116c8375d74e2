//! Readers for weather-radar volumes.
//!
//! The crate decodes NEXRAD Level II (Archive II) byte streams and prepares the
//! metadata of CfRadial1 files. IEEE-754 quantities travel through it as bit
//! patterns and scaled quantities as the integers that were transmitted.

pub mod backends;
pub mod errors;
pub mod float32;
pub mod text;
pub mod time;
pub mod types;
pub mod wire;
