//! A local music library and a single-stream player, as pure decision logic.
//!
//! Every function here takes plain values and returns plain values: the
//! program around it keeps the file system, the audio device, the clock and
//! the threads to itself, hands in what it read and does what it is told.
//!
//! - [`playback`]: the playback engine, from commands to actions on the sink.
//! - [`library`]: tunes, paths, tags, and the identifier of a track.
//! - [`reconcile`]: the scan that brings the index in line with the
//!   directory; [`reconcile_laws`] holds what is true of every scan.
//! - [`sorting`]: the order of the index.
//! - [`watcher`]: which file system events matter, and the debouncer.
//! - [`text`] and [`filters`]: texts and filtered sequences.

pub mod filters;
pub mod library;
pub mod playback;
pub mod reconcile;
pub mod reconcile_laws;
pub mod sorting;
pub mod text;
pub mod watcher;
