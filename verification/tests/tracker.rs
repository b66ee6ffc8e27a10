use rust_bittorrent::ipv4::parse_ipv4;
use rust_bittorrent::models::{AnnounceResponse, RegisterRequest, SocketAddress};
use rust_bittorrent::tracker::{
    register_status, AnnounceLookup, FileListing, InfoHashRequest, PeersDb, Tracker, TrackerError,
};

fn ip_text(peer: &SocketAddress) -> String {
    match peer {
        SocketAddress::V4 { ip, .. } => format!("{}.{}.{}.{}", ip[0], ip[1], ip[2], ip[3]),
        SocketAddress::V6 { .. } => panic!("expected an IPv4 peer"),
    }
}

fn post(tracker: &mut Tracker, request: &RegisterRequest) -> u16 {
    register_status(&tracker.announce_post(request))
}

#[test]
fn test_announce_get_no_peers() {
    let tracker = Tracker::new();
    let info_hash_request = InfoHashRequest::new("testhash");
    let response = tracker.announce_get(&info_hash_request);
    assert_eq!(response.status(), 404);
    match response {
        AnnounceLookup::NotFound(body) => {
            assert_eq!(body, "No peers found for the given info hash: testhash")
        }
        AnnounceLookup::Found(_) => panic!("expected no peers"),
    }
}

#[test]
fn test_announce_get() {
    let mut tracker = Tracker::new();
    let peer_1 = RegisterRequest::new("test1", "info_hash_1", "peer1", "127.0.0.1", 8080);
    assert_eq!(post(&mut tracker, &peer_1), 204);

    let info_hash_request = InfoHashRequest::new("info_hash_1");
    let response_2 = tracker.announce_get(&info_hash_request);
    assert_eq!(response_2.status(), 200);
    let raw = match response_2 {
        AnnounceLookup::Found(raw) => raw,
        AnnounceLookup::NotFound(_) => panic!("expected peers"),
    };
    let announce_response = AnnounceResponse::from_raw(raw);
    assert_eq!(announce_response.interval, 1800);
    assert_eq!(announce_response.peers.len(), 1);
    assert_eq!(ip_text(&announce_response.peers[0]), "127.0.0.1");
    assert_eq!(announce_response.peers[0].port(), 8080);
}

#[test]
fn test_announce_post() {
    let mut tracker = Tracker::new();
    let announce_register = RegisterRequest::new("test", "info_hash_1", "peer1", "127.0.0.1", 8080);
    assert_eq!(post(&mut tracker, &announce_register), 204);

    let peers = tracker.peers_db.peers(&"info_hash_1".to_string()).unwrap();
    assert_eq!(peers.len(), 1);
    assert_eq!(ip_text(&peers[0]), "127.0.0.1");
    assert_eq!(peers[0].port(), 8080);
}

#[test]
fn test_multiple_peers_announce() {
    let mut tracker = Tracker::new();
    let peer_1 = RegisterRequest::new("test1", "info_hash_1", "peer1", "192.168.1.2", 6881);
    let peer_2 = RegisterRequest::new("test2", "info_hash_1", "peer2", "192.168.1.3", 6882);
    let peer_3 = RegisterRequest::new("test3", "info_hash_2", "peer3", "192.168.1.4", 6883);

    assert_eq!(post(&mut tracker, &peer_1), 204);
    assert_eq!(post(&mut tracker, &peer_2), 204);
    assert_eq!(post(&mut tracker, &peer_3), 204);

    let peers_info_hash_1 = tracker.peers_db.peers(&"info_hash_1".to_string()).unwrap();
    assert_eq!(peers_info_hash_1.len(), 2);
    assert!(peers_info_hash_1
        .iter()
        .any(|peer| ip_text(peer) == "192.168.1.2" && peer.port() == 6881));
    assert!(peers_info_hash_1
        .iter()
        .any(|peer| ip_text(peer) == "192.168.1.3" && peer.port() == 6882));

    let peers_info_hash_2 = tracker.peers_db.peers(&"info_hash_2".to_string()).unwrap();
    assert_eq!(peers_info_hash_2.len(), 1);
    assert!(peers_info_hash_2
        .iter()
        .any(|peer| ip_text(peer) == "192.168.1.4" && peer.port() == 6883));
}

#[test]
fn test_announce_get_with_optional_params() {
    let mut tracker = Tracker::new();
    let peer_1 = RegisterRequest::new("test1", "testhash", "peer1", "127.0.0.1", 8080);
    assert_eq!(post(&mut tracker, &peer_1), 204);

    let info_hash_request = InfoHashRequest::new("testhash");
    let response = tracker.announce_get(&info_hash_request);
    assert_eq!(response.status(), 200);
    let raw = match response {
        AnnounceLookup::Found(raw) => raw,
        AnnounceLookup::NotFound(_) => panic!("expected peers"),
    };
    let announce_response = AnnounceResponse::from_raw(raw);
    assert_eq!(announce_response.interval, 1800);
    assert_eq!(announce_response.peers.len(), 1);
    assert_eq!(ip_text(&announce_response.peers[0]), "127.0.0.1");
    assert_eq!(announce_response.peers[0].port(), 8080);
}

#[test]
fn test_empty_file_listing() {
    let tracker = Tracker::new();
    assert_eq!(tracker.file_listing_json().unwrap(), "[]");
}

#[test]
fn test_post_and_get_file_listing() {
    let mut tracker = Tracker::new();
    let peer_1 = RegisterRequest::new("test1", "info_hash_1", "peer1", "192.168.1.2", 6881);
    assert_eq!(post(&mut tracker, &peer_1), 204);
    assert_eq!(tracker.file_listing_json().unwrap(), "[\"test1\"]");
}

#[test]
fn test_post_and_get_file_listing_conflict_file_name() {
    let mut tracker = Tracker::new();
    let peer_1 = RegisterRequest::new("test", "info_hash_1", "peer1", "192.168.1.2", 6881);
    assert_eq!(post(&mut tracker, &peer_1), 204);

    let peer_2 = RegisterRequest::new("test", "info_hash_2", "peer2", "192.168.1.3", 6882);
    let result = tracker.announce_post(&peer_2);
    assert_eq!(register_status(&result), 400);
    assert_eq!(
        result,
        Err(TrackerError::FileAlreadyExists(format!("file already exists: {}", peer_2.name)))
    );
    // the refused registration left the peers alone
    assert!(tracker.peers_db.peers(&"info_hash_2".to_string()).is_none());
}

#[test]
fn peers_keep_registration_order() {
    let mut db = PeersDb::new();
    let h = "h".to_string();
    db.add_peer(&h, SocketAddress::V4 { ip: [1, 1, 1, 1], port: 1 });
    db.add_peer(&h, SocketAddress::V4 { ip: [2, 2, 2, 2], port: 2 });
    assert_eq!(
        db.peers(&h).unwrap(),
        vec![
            SocketAddress::V4 { ip: [1, 1, 1, 1], port: 1 },
            SocketAddress::V4 { ip: [2, 2, 2, 2], port: 2 }
        ]
    );
    assert!(db.peers(&"other".to_string()).is_none());
}

#[test]
fn file_listing_add_and_all() {
    let mut listing = FileListing::new();
    assert!(listing.all().is_empty());
    assert!(listing.add(&"a".to_string(), &"ha".to_string()).is_ok());
    assert!(listing.add(&"b".to_string(), &"hb".to_string()).is_ok());
    assert!(listing.add(&"a".to_string(), &"hc".to_string()).is_err());
    let mut names = listing.all();
    names.sort();
    assert_eq!(names, vec!["a".to_string(), "b".to_string()]);
}

#[test]
fn ipv4_parsing() {
    assert_eq!(parse_ipv4("127.0.0.1"), Some([127, 0, 0, 1]));
    assert_eq!(parse_ipv4("255.255.255.255"), Some([255, 255, 255, 255]));
    assert_eq!(parse_ipv4("0.0.0.0"), Some([0, 0, 0, 0]));
    assert_eq!(parse_ipv4("192.168.1.20"), Some([192, 168, 1, 20]));
    for bad in [
        "", "1.2.3", "1.2.3.4.", "1.2.3.4.5", "256.1.1.1", "01.2.3.4", "1.2.3.04", "1..2.3",
        " 1.2.3.4", "1.2.3.4 ", "+1.2.3.4", "1.2.3.1000", "a.b.c.d", "1.2.3.-4",
    ] {
        assert_eq!(parse_ipv4(bad), None, "{}", bad);
    }
}

#[test]
fn file_listing_json_escapes_names() {
    let mut tracker = Tracker::new();
    let peer = RegisterRequest::new("a\"b\\c\n\u{1}", "info_hash_1", "peer1", "192.168.1.2", 6881);
    assert_eq!(post(&mut tracker, &peer), 204);
    assert_eq!(tracker.file_listing_json().unwrap(), "[\"a\\\"b\\\\c\\n\\u0001\"]");
}
