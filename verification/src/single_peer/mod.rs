//! A simpler client that downloads from the first peer a tracker names.

pub mod cli;
pub mod http;
pub mod torrent;
