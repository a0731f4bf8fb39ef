//! Piece-addressable repair of an incomplete torrent job from a second job
//! that shares files with it.
//!
//! A job is a concatenation of files cut into fixed-size pieces, each with an
//! expected SHA-1 digest. The library converts between piece indices and
//! byte ranges inside files, pairs files of two jobs by size, finds the window
//! of source pieces that covers a missing destination piece, and decides, from
//! the bytes read, whether they may be written: only bytes whose digest equals
//! the expected one are ever handed out for writing.

pub mod address;
pub mod block;
pub mod digest;
pub mod engine;
pub mod equivalence;
pub mod error;
pub mod layout;
pub mod piece;
pub mod repair;
pub mod schedule;
pub mod torrent;
