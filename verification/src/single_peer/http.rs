//! The simpler client's announce.

use vstd::prelude::*;
use crate::models::{is_compact_decoding, AnnounceResponseRaw, SocketAddress};
use crate::single_peer::torrent::Torrent;

verus! {

/// The peer id the simpler client announces itself with.
pub const ANNOUNCE_PEER_ID: &'static str = "00112233445566778899";

/// A tracker's answer with the peer list decoded.
#[derive(Debug)]
pub struct AnnounceResponse {
    pub interval: i64,
    pub peers: Vec<SocketAddress>,
}

impl AnnounceResponse {
    /// Decodes the compact peer list, six bytes per peer.
    pub fn from_raw(value: AnnounceResponseRaw) -> (r: Self)
        requires
            value.peers@.len() % 6 == 0,
        ensures
            r.interval == value.interval,
            is_compact_decoding(value.peers@, r.peers@),
    {
        let decoded = crate::models::AnnounceResponse::from_raw(value);
        AnnounceResponse { interval: decoded.interval, peers: decoded.peers }
    }
}

/// Why an announce could not be made.
#[derive(Debug, Clone, Copy, PartialEq, Eq)]
pub enum AnnounceError {
    /// The torrent names no tracker.
    MissingAnnounceUrl,
}

/// The URL of the announce: the tracker's URL, then `/?info_hash=` and the
/// form-urlencoded info hash.
pub fn announce_url(torrent: &Torrent) -> (r: Result<String, AnnounceError>)
    ensures
        torrent.torrent.announce is None ==> r == Err::<String, AnnounceError>(AnnounceError::MissingAnnounceUrl),
        torrent.torrent.announce matches Some(url) ==> (r matches Ok(s) && s@ == url@ + "/?info_hash="@
            + torrent.info_hash@),
{
    match &torrent.torrent.announce {
        Some(url) => {
            let mut s = url.clone();
            s.append("/?info_hash=");
            s.append(torrent.info_hash.as_str());
            Ok(s)
        },
        None => Err(AnnounceError::MissingAnnounceUrl),
    }
}

} // verus!
