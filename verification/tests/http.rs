use rust_bittorrent::bt::http::{
    file_list_reply, files_url, is_success_status, register_request, AnnounceRequest, ListError,
};
use rust_bittorrent::bt::torrent::{
    local_announce_url, PeerId, TorrentFile, TorrentMeta, DEFAULT_TRACKER_PORT,
};
use rust_bittorrent::text::decimal_string;

fn torrent() -> TorrentFile {
    TorrentFile::from_meta(TorrentMeta {
        announce: Some("http://localhost:9999/announce".to_string()),
        name: "movie.mkv".to_string(),
        length: 12345,
        piece_length: 1024,
        pieces: vec![],
        info_hash_bytes: vec![0x41; 20],
    })
    .unwrap()
}

#[test]
fn announce_request_from_torrent() {
    let t = torrent();
    let request = AnnounceRequest::from(&t);
    assert_eq!(request.announce_url, "http://localhost:9999/announce");
    assert_eq!(request.info_hash, "A".repeat(20));
    assert_eq!(request.left, 12345);
    let peer_id = PeerId::new();
    let q = request.query(&peer_id);
    assert_eq!(q.info_hash, "A".repeat(20));
    assert_eq!(q.peer_id, peer_id.to_string());
    assert_eq!((q.port, q.uploaded, q.downloaded, q.left, q.compact), (6881, 0, 0, 12345, 1));
}

#[test]
fn registration_of_a_seeder() {
    let t = torrent();
    let peer_id = PeerId::new();
    let r = register_request(&peer_id, 7000, &t);
    assert_eq!(r.name, "movie.mkv");
    assert_eq!(r.info_hash, "A".repeat(20));
    assert_eq!(r.peer_id, peer_id.to_string());
    assert_eq!(r.ip, "127.0.0.1");
    assert_eq!(r.port, 7000);
}

#[test]
fn urls() {
    assert_eq!(files_url("http://localhost:9999/announce"), "http://localhost:9999/announce/files");
    assert_eq!(local_announce_url(DEFAULT_TRACKER_PORT), "http://127.0.0.1:9999/announce");
    assert_eq!(local_announce_url(0), "http://127.0.0.1:0/announce");
    assert_eq!(decimal_string(u64::MAX), u64::MAX.to_string());
    assert_eq!(decimal_string(10), "10");
}

#[test]
fn success_statuses() {
    assert!(is_success_status(200));
    assert!(is_success_status(204));
    assert!(!is_success_status(199));
    assert!(!is_success_status(300));
    assert!(!is_success_status(500));
}

#[test]
fn file_list_reply_of_tracker() {
    assert_eq!(file_list_reply(200, "[\"a.txt\",\"b c\"]"), Ok(vec!["a.txt".to_string(), "b c".to_string()]));
    assert_eq!(file_list_reply(200, " [ ] "), Ok(vec![]));
    assert_eq!(file_list_reply(200, "{}"), Err(ListError::InvalidJson));
    assert_eq!(file_list_reply(200, "[1]"), Err(ListError::InvalidJson));
    assert_eq!(file_list_reply(404, "[]"), Err(ListError::Status(404)));
}
