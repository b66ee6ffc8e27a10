//! The client: torrent metadata, the peer wire protocol, the tracker
//! requests, and the download and upload sessions.

pub mod torrent;
pub mod peer_download;
pub mod peer_upload;
pub mod http;
pub mod cli;
