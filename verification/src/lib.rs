//! Core of a minimal BitTorrent client: a bencode codec, the metainfo model,
//! the peer-wire message framing, the handshake record and the state machine
//! that downloads and verifies one piece.
//!
//! The library does no input or output. The caller reads the torrent file,
//! talks to the tracker and to the peer, and hands what it read to the
//! library, which says what it means and what to do next.

pub mod common;
pub mod config;
pub mod error;

pub mod value;
pub mod grammar;
pub mod de;
pub mod ser;
pub mod roundtrip;

pub mod text;
pub mod hashes;
pub mod torrent;
pub mod torrent_laws;
pub mod tracker;

pub mod buffer;
pub mod digest;
pub mod peer;
pub mod framing;
pub mod download;
pub mod download_laws;
