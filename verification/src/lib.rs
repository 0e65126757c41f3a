//! Tools for recorded RoboCup Small Size League matches: the framed binary
//! log, the seek-indexed labeler archive built from it, the decisions of
//! the two playback engines, and the counting behind the scoring of label
//! files.
//!
//! Everything here works on bytes and plain values; reading files, sleeping
//! and sending datagrams are left to the caller.

pub mod cursor;
pub mod endian;
pub mod labeler;
pub mod persistence;
pub mod player;
pub mod protos;
pub mod score;
