//! A content-addressed, append-only packet store with a wave transform, and
//! a salience detector for one-dimensional signals.
//!
//! The store side: `wave` turns bytes into wave points and back, `lite`
//! signs payloads and keeps the index of packets, `log` frames the records
//! of the append-only log and reads them back. The library works on bytes:
//! reading and writing the log file, and laying a packet out as the payload
//! of a record, is the caller's part.
//!
//! The detector side: `marine` scans a signal for salient peaks and reduces
//! them to a description; `audio` holds the settings that suit common
//! sample rates.
//!
//! Real-valued quantities are fixed-point numbers, whole counts of
//! millionths (see `fixed`): 1.0 is `1_000_000`. Every function states its
//! result as a mathematical function of its inputs, and the laws that tie
//! the functions together stand beside them as proof functions.

pub mod audio;
pub mod audio_loader;
pub mod error;
pub mod fixed;
pub mod fs;
pub mod lite;
pub mod log;
pub mod marine;
pub mod mcp_server;
pub mod mood_engine;
pub mod sensor_ingress;
pub mod tidal_dj;
pub mod wave;

pub use error::StoreError;
pub use lite::{Mem8Lite, WavePacket};
pub use marine::{MarineMetadata, MarineProcessor};
