//! The logic of a small BitTorrent client: metainfo, tracker replies, the peer
//! wire protocol and the rules by which pieces are requested, checked and
//! handed on. Reading files, talking to trackers and peers, and running worker
//! threads is left to the program around this library.
pub mod bencode;
pub mod bencode_reader;
pub mod bitfield;
pub mod bytes;
pub mod collector;
pub mod connection;
pub mod digest;
pub mod download;
pub mod download_laws;
pub mod download_run;
pub mod downloaded_piece;
pub mod endian;
pub mod handshake;
pub mod message;
pub mod metainfo;
pub mod peer_id;
pub mod piece_request;
pub mod text;
pub mod torrent;
pub mod tracker;
pub mod worker;
