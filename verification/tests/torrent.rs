use rust_bittorrent::bt::torrent::{
    FrameRead, HandshakeMessage, MessageTag, PeerId, PeerMessage, TorrentError, TorrentFile,
    TorrentMeta, TrackerProtocol, PEER_ID_BT_VERSION,
};
use sha1::{Digest, Sha1};

#[test]
fn test_generate_peer_id() {
    let peer_id = PeerId::new();
    assert!(peer_id.to_string().contains(PEER_ID_BT_VERSION));
    assert!(peer_id.to_string().len() == 20);
}

#[test]
fn peer_id_tail_is_alphanumeric() {
    for _ in 0..50 {
        let bytes = PeerId::new().bytes();
        assert_eq!(&bytes[..8], b"-BT0001-");
        assert!(bytes[8..].iter().all(|b| b.is_ascii_alphanumeric()));
    }
}

#[test]
fn test_peer_handshake() {
    let mock_info_hash_bytes = [0_u8; 20];
    let mock_peer_id = PeerId::new();
    let handshake = HandshakeMessage::new(mock_peer_id, mock_info_hash_bytes);
    let sent = handshake.to_bytes();
    // a peer that echoes the handshake back
    let mut reply = [0u8; 68];
    reply.copy_from_slice(&sent);
    let peer_id = HandshakeMessage::peer_id_from_reply(&reply).unwrap();
    assert_eq!(peer_id, mock_peer_id.to_string());
}

#[test]
fn handshake_layout() {
    let peer_id = PeerId::new();
    let info = [7u8; 20];
    let bytes = HandshakeMessage::new(peer_id, info).to_bytes();
    assert_eq!(bytes.len(), 68);
    assert_eq!(bytes[0], 19);
    assert_eq!(&bytes[1..20], b"BitTorrent protocol");
    assert_eq!(&bytes[20..28], &[0u8; 8]);
    assert_eq!(&bytes[28..48], &info);
    assert_eq!(&bytes[48..], &peer_id.bytes());
}

#[test]
fn handshake_reply_with_invalid_utf8_peer_id() {
    let mut reply = [0u8; 68];
    reply[48] = 0xff;
    assert_eq!(HandshakeMessage::peer_id_from_reply(&reply), Err(TorrentError::PeerIdNotUtf8));
}

#[test]
fn tracker_protocol_from_url() {
    assert_eq!(TrackerProtocol::try_from("udp://tracker:80"), Ok(TrackerProtocol::Udp));
    assert_eq!(TrackerProtocol::try_from("http://tracker/announce"), Ok(TrackerProtocol::Tcp));
    assert_eq!(TrackerProtocol::try_from("https://tracker/announce"), Ok(TrackerProtocol::Tcp));
    assert_eq!(
        TrackerProtocol::try_from("ftp://tracker"),
        Err(TorrentError::UnrecognizedTrackerProtocol)
    );
    assert_eq!(TrackerProtocol::try_from("udp:/x"), Err(TorrentError::UnrecognizedTrackerProtocol));
}

fn meta(announce: Option<&str>, hash: Vec<u8>) -> TorrentMeta {
    TorrentMeta {
        announce: announce.map(|s| s.to_string()),
        name: "file.txt".to_string(),
        length: 100,
        piece_length: 32,
        pieces: vec![vec![1; 20], vec![2; 20], vec![3; 20], vec![4; 20]],
        info_hash_bytes: hash,
    }
}

#[test]
fn torrent_file_from_meta() {
    let mut hash = vec![0u8; 20];
    hash[0] = b' ';
    hash[1] = b'a';
    hash[2] = 0xab;
    let t = TorrentFile::from_meta(meta(Some("http://t/announce"), hash.clone())).unwrap();
    assert_eq!(t.announce_url, "http://t/announce");
    assert_eq!(t.tracker_protocol, TrackerProtocol::Tcp);
    assert_eq!(&t.info_hash_bytes[..], &hash[..]);
    assert_eq!(t.info_hash, format!("+a%AB{}", "%00".repeat(17)));
    assert_eq!(t.length(), 100);
    assert_eq!(t.piece_length(), 32);
    assert_eq!(t.pieces(), vec![vec![1; 20], vec![2; 20], vec![3; 20], vec![4; 20]]);
}

#[test]
fn torrent_file_from_meta_errors() {
    assert_eq!(
        TorrentFile::from_meta(meta(Some("http://t"), vec![0; 19])).err(),
        Some(TorrentError::InvalidInfoHashLength)
    );
    assert_eq!(
        TorrentFile::from_meta(meta(None, vec![0; 20])).err(),
        Some(TorrentError::MissingAnnounceUrl)
    );
    assert_eq!(
        TorrentFile::from_meta(meta(Some("wss://t"), vec![0; 20])).err(),
        Some(TorrentError::UnrecognizedTrackerProtocol)
    );
}

fn decode(frame: &[u8]) -> PeerMessage {
    let size = u32::from_be_bytes([frame[0], frame[1], frame[2], frame[3]]);
    let tag = MessageTag::from_byte(frame[4]).unwrap();
    let n = PeerMessage::body_len(tag, size);
    assert_eq!(n, frame.len() - 5);
    PeerMessage::from_body(tag, &frame[5..])
}

#[test]
fn message_frames() {
    assert_eq!(PeerMessage::Interested.to_frame(), vec![0, 0, 0, 1, 2]);
    assert_eq!(PeerMessage::Unchoke.to_frame(), vec![0, 0, 0, 1, 1]);
    assert_eq!(PeerMessage::Bitfield(vec![0]).to_frame(), vec![0, 0, 0, 2, 5, 0]);
    assert_eq!(
        PeerMessage::Request { index: 1, begin: 0x4000, length: 0x4000 }.to_frame(),
        vec![0, 0, 0, 13, 6, 0, 0, 0, 1, 0, 0, 0x40, 0, 0, 0, 0x40, 0]
    );
    assert_eq!(
        PeerMessage::Piece { index: 2, begin: 3, block: vec![9, 8] }.to_frame(),
        vec![0, 0, 0, 11, 7, 0, 0, 0, 2, 0, 0, 0, 3, 9, 8]
    );
}

#[test]
fn message_roundtrip() {
    let messages = vec![
        PeerMessage::Unchoke,
        PeerMessage::Interested,
        PeerMessage::Bitfield(vec![0xff, 0x01]),
        PeerMessage::Request { index: 7, begin: 16384, length: 100 },
        PeerMessage::Piece { index: 7, begin: 16384, block: vec![1, 2, 3] },
    ];
    for m in messages {
        let frame = m.to_frame();
        let back = decode(&frame);
        assert_eq!(format!("{:?}", back), format!("{:?}", m));
    }
}

#[test]
fn unknown_message_tag() {
    assert_eq!(MessageTag::from_byte(0), None);
    assert_eq!(MessageTag::from_byte(3), None);
    assert_eq!(MessageTag::from_byte(7), Some(MessageTag::Piece));
    assert_eq!(MessageTag::Bitfield.to_byte(), 5);
}

fn info() -> Vec<u8> {
    let mut info = b"d6:lengthi5e4:name4:test12:piece lengthi32768e6:pieces20:".to_vec();
    info.extend_from_slice(&[0xff; 20]);
    info.push(b'e');
    info
}

fn torrent_bytes(announce: Option<&str>) -> Vec<u8> {
    let mut bytes = b"d".to_vec();
    if let Some(url) = announce {
        bytes.extend_from_slice(format!("8:announce{}:{}", url.len(), url).as_bytes());
    }
    bytes.extend_from_slice(b"4:info");
    bytes.extend_from_slice(&info());
    bytes.push(b'e');
    bytes
}

#[test]
fn torrent_read_from_bytes() {
    let torrent = TorrentFile::from_bytes(&torrent_bytes(Some("http://127.0.0.1:9999/announce"))).unwrap();
    let info_hash: Vec<u8> = Sha1::digest(info()).to_vec();
    assert_eq!(torrent.announce_url, "http://127.0.0.1:9999/announce");
    assert_eq!(torrent.tracker_protocol, TrackerProtocol::Tcp);
    assert_eq!(torrent.info_hash_bytes.to_vec(), info_hash);
    assert_eq!(torrent.info_hash, form_urlencoded::byte_serialize(&info_hash).collect::<String>());
    assert_eq!(torrent.torrent.name, "test");
    assert_eq!(torrent.length(), 5);
    assert_eq!(torrent.piece_length(), 32768);
    assert_eq!(torrent.pieces(), vec![vec![0xff; 20]]);
}

#[test]
fn torrent_bytes_refused() {
    assert_eq!(TorrentFile::from_bytes(b"not a torrent").err(), Some(TorrentError::Unreadable));
    assert_eq!(TorrentFile::from_bytes(&torrent_bytes(None)).err(), Some(TorrentError::MissingAnnounceUrl));
    assert_eq!(
        TorrentFile::from_bytes(&torrent_bytes(Some("ftp://host/announce"))).err(),
        Some(TorrentError::UnrecognizedTrackerProtocol)
    );
    let udp = TorrentFile::from_bytes(&torrent_bytes(Some("udp://host:80"))).unwrap();
    assert_eq!(udp.tracker_protocol, TrackerProtocol::Udp);
}

#[test]
fn keep_alive_frames_are_skipped() {
    assert_eq!(FrameRead::on_size(0), FrameRead::Size);
    assert_eq!(FrameRead::on_size(5), FrameRead::Tag { size: 5 });
}
