//! What the client asks a tracker: announces, registrations, the file list.

use vstd::prelude::*;
use crate::bt::torrent::{is_valid_peer_id, PeerId, TorrentFile};
use crate::models::RegisterRequest;
use crate::text::ascii_text;

verus! {

/// The port the client says it listens on.
pub const CLIENT_PORT: u16 = 6881;

/// What an announce tells the tracker: where it is sent, for which torrent,
/// and how many bytes are still to be downloaded.
#[derive(Debug)]
pub struct AnnounceRequest {
    pub announce_url: String,
    pub info_hash: String,
    pub left: i64,
}

impl<'a> From<&'a TorrentFile> for AnnounceRequest {
    fn from(value: &'a TorrentFile) -> (r: Self) {
        let announce_url = value.announce_url.clone();
        let info_hash = value.info_hash.clone();
        let left = value.torrent.length;
        AnnounceRequest { announce_url, info_hash, left }
    }
}

impl<'a> vstd::std_specs::convert::FromSpecImpl<&'a TorrentFile> for AnnounceRequest {
    open spec fn obeys_from_spec() -> bool {
        true
    }

    open spec fn from_spec(v: &'a TorrentFile) -> Self {
        AnnounceRequest {
            announce_url: v.announce_url,
            info_hash: v.info_hash,
            left: v.torrent.length,
        }
    }
}

/// The query of an announce: the info hash, the client's peer id, its port,
/// what it uploaded and downloaded so far (nothing), what is left, and that
/// the peer list is wanted compact.
#[derive(Debug)]
pub struct AnnounceQuery {
    pub info_hash: String,
    pub peer_id: String,
    pub port: u16,
    pub uploaded: u64,
    pub downloaded: u64,
    pub left: i64,
    pub compact: u8,
}

impl AnnounceRequest {
    /// The query sent with the announce by the client with `peer_id`.
    pub fn query(&self, peer_id: &PeerId) -> (r: AnnounceQuery)
        ensures
            r.info_hash@ == self.info_hash@,
            is_valid_peer_id(peer_id@),
            r.peer_id@ == ascii_text(peer_id@),
            r.port == CLIENT_PORT,
            r.uploaded == 0,
            r.downloaded == 0,
            r.left == self.left,
            r.compact == 1,
    {
        AnnounceQuery {
            info_hash: self.info_hash.clone(),
            peer_id: peer_id.to_string(),
            port: CLIENT_PORT,
            uploaded: 0,
            downloaded: 0,
            left: self.left,
            compact: 1,
        }
    }
}

/// An HTTP status that reports success (200 to 299).
pub fn is_success_status(status: u16) -> (r: bool)
    ensures
        r == (200 <= status <= 299),
{
    200 <= status && status <= 299
}

/// The address a seeding peer registers with.
pub const REGISTER_IP: &'static str = "127.0.0.1";

/// The registration of a seeding peer listening on `port` for a torrent.
pub fn register_request(peer_id: &PeerId, port: u16, torrent: &TorrentFile) -> (r: RegisterRequest)
    ensures
        r.name@ == torrent.torrent.name@,
        r.info_hash@ == torrent.info_hash@,
        is_valid_peer_id(peer_id@),
        r.peer_id@ == ascii_text(peer_id@),
        r.ip@ == REGISTER_IP@,
        r.port == port,
{
    RegisterRequest {
        name: torrent.torrent.name.clone(),
        info_hash: torrent.info_hash.clone(),
        peer_id: peer_id.to_string(),
        ip: REGISTER_IP.to_owned(),
        port,
    }
}

/// Where the list of shared files is asked for: the announce URL followed
/// by `/files`.
pub fn files_url(announce_url: &str) -> (r: String)
    ensures
        r@ == announce_url@ + "/files"@,
{
    let mut url = announce_url.to_owned();
    url.append("/files");
    url
}

/// Why the tracker's list of shared files could not be had.
#[derive(Debug, Clone, Copy, PartialEq, Eq)]
pub enum ListError {
    /// The tracker answered with this status, which is not a success.
    Status(u16),
    /// The body is not a JSON list of strings.
    InvalidJson,
}

/// The list of strings that serde_json reads from a JSON text, `None` where
/// the text is not a JSON list of strings.
pub uninterp spec fn json_string_list(text: Seq<char>) -> Option<Seq<Seq<char>>>;

/// `serde_json::from_str` into a list of strings, its error turned into
/// `None`. Its contract names the outcome: the list read, or `None` where
/// the text is not a JSON list of strings.
#[verifier::external_body]
fn parse_string_list(text: &str) -> (r: Option<Vec<String>>)
    ensures
        r is Some <==> json_string_list(text@) is Some,
        r matches Some(v) ==> json_string_list(text@) == Some(v@.map_values(|s: String| s@)),
{
    serde_json::from_str::<Vec<String>>(text).ok()
}

/// The tracker's answer to a request for the shared files: a status that is
/// not a success is reported as such; otherwise the body must be a JSON
/// list of strings, the names of the files.
pub fn file_list_reply(status: u16, body: &str) -> (r: Result<Vec<String>, ListError>)
    ensures
        !(200 <= status <= 299) ==> r == Err::<Vec<String>, ListError>(ListError::Status(status)),
        200 <= status <= 299 ==> match json_string_list(body@) {
            None => r == Err::<Vec<String>, ListError>(ListError::InvalidJson),
            Some(names) => r matches Ok(v) && v@.map_values(|s: String| s@) == names,
        },
{
    if !is_success_status(status) {
        return Err(ListError::Status(status));
    }
    match parse_string_list(body) {
        Some(files) => Ok(files),
        None => Err(ListError::InvalidJson),
    }
}

} // verus!
