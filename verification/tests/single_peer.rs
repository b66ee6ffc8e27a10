use rust_bittorrent::bt::torrent::TorrentMeta;
use rust_bittorrent::models::AnnounceResponseRaw;
use rust_bittorrent::single_peer::http::{announce_url, AnnounceError, AnnounceResponse};
use rust_bittorrent::single_peer::torrent::{
    HandshakeMessage, PeerMessage, PeerMessageError, Torrent,
};

fn torrent(announce: Option<&str>) -> Torrent {
    Torrent::from_meta(TorrentMeta {
        announce: announce.map(|s| s.to_string()),
        name: "x".to_string(),
        length: 1,
        piece_length: 1,
        pieces: vec![],
        info_hash_bytes: vec![0xff; 20],
    })
}

#[test]
fn announce_url_with_info_hash() {
    let t = torrent(Some("http://t/announce"));
    assert_eq!(t.info_hash, "%FF".repeat(20));
    assert_eq!(announce_url(&t).unwrap(), format!("http://t/announce/?info_hash={}", "%FF".repeat(20)));
    assert_eq!(announce_url(&torrent(None)), Err(AnnounceError::MissingAnnounceUrl));
}

#[test]
fn handshake_buffer_and_reply() {
    let mut h = HandshakeMessage::new([3; 20]);
    h.fill_buffer();
    assert_eq!(h.buffer.len(), 68);
    assert_eq!(&h.buffer[48..], &[0, 0, 1, 1, 2, 2, 3, 3, 4, 4, 5, 5, 6, 6, 7, 7, 8, 8, 9, 9]);
    assert_eq!(h.peer_id_hex(), "0000010102020303040405050606070708080909");
}

#[test]
fn interested_frame_and_reading() {
    assert_eq!(PeerMessage::Interested.to_frame(), vec![0, 0, 0, 1, 2]);
    assert_eq!(PeerMessage::body_len(1, 1), Ok(0));
    assert_eq!(PeerMessage::body_len(5, 4), Ok(3));
    assert_eq!(PeerMessage::body_len(7, 9), Err(PeerMessageError::UnexpectedTag));
    assert!(matches!(PeerMessage::from_body(1, &[]), Ok(PeerMessage::Unchoke)));
    assert!(matches!(PeerMessage::from_body(5, &[1, 2]), Ok(PeerMessage::Bitfield(b)) if b == vec![1, 2]));
    assert!(matches!(PeerMessage::from_body(2, &[]), Err(PeerMessageError::UnexpectedTag)));
}

#[test]
fn announce_response_decoding() {
    let r = AnnounceResponse::from_raw(AnnounceResponseRaw { interval: 9, peers: vec![10, 0, 0, 1, 0, 80] });
    assert_eq!(r.interval, 9);
    assert_eq!(r.peers.len(), 1);
    assert_eq!(r.peers[0].port(), 80);
}

#[test]
fn single_peer_torrent_from_bytes() {
    let mut bytes = b"d8:announce30:http://127.0.0.1:9999/announce4:infod6:lengthi5e4:name4:test12:piece lengthi32768e6:pieces20:".to_vec();
    bytes.extend_from_slice(&[0xff; 20]);
    bytes.extend_from_slice(b"ee");
    let t = Torrent::from_bytes(&bytes).unwrap();
    assert_eq!(t.torrent.announce.as_deref(), Some("http://127.0.0.1:9999/announce"));
    assert_eq!(t.info_hash_bytes.to_vec(), t.torrent.info_hash_bytes);
    assert_eq!(t.info_hash, form_urlencoded::byte_serialize(&t.torrent.info_hash_bytes).collect::<String>());
    assert!(Torrent::from_bytes(b"garbage").is_none());
}
