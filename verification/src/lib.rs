//! A small BitTorrent client and tracker: the wire formats, the tracker's
//! bookkeeping and the decisions of the download and upload sessions.

pub mod codec;
pub mod models;
pub mod text;
pub mod bt;
pub mod tracker;
pub mod ipv4;
pub mod single_peer;
