use rust_bittorrent::bt::peer_download::{
    DownloadError, PeerDownload, PeerSetup, PieceCollector, PieceDownload, PieceRequest,
    TorrentFileMetadata, BLOCK_MAX_SIZE,
};
use rust_bittorrent::bt::torrent::PeerMessage;
use sha1::{Digest, Sha1};

fn metadata(length: i64, piece_length: i64, pieces: Vec<Vec<u8>>) -> TorrentFileMetadata {
    TorrentFileMetadata::new(length, pieces, "hash".to_string(), [0; 20], piece_length)
}

#[test]
fn piece_request_sizes() {
    let m = metadata(100, 40, vec![vec![1], vec![2], vec![3]]);
    let r0 = PieceRequest::new(&m, 0);
    let r2 = PieceRequest::new(&m, 2);
    assert_eq!(r0.piece_length, 40);
    assert_eq!(r0.piece_hash, vec![1]);
    assert_eq!(r2.piece_index, 2);
    assert_eq!(r2.piece_length, 20);
    assert_eq!(r2.piece_hash, vec![3]);
}

#[test]
fn piece_requests_for_every_piece() {
    let d = PeerDownload::new("out/file", metadata(100, 40, vec![vec![1], vec![2], vec![3]]));
    assert_eq!(d.output_path, "out/file");
    let requests = d.piece_requests();
    let sizes: Vec<u32> = requests.iter().map(|r| r.piece_length).collect();
    assert_eq!(sizes, vec![40, 40, 20]);
    let indices: Vec<i64> = requests.iter().map(|r| r.piece_index).collect();
    assert_eq!(indices, vec![0, 1, 2]);
}

fn sha1(data: &[u8]) -> Vec<u8> {
    Sha1::digest(data).to_vec()
}

/// Serves a piece the way a well-behaved peer does.
fn fetch(data: &[u8], hash: Vec<u8>) -> (Result<Vec<u8>, DownloadError>, Vec<(u32, u32)>) {
    let request = PieceRequest { piece_index: 3, piece_length: data.len() as u32, piece_hash: hash };
    let mut download = PieceDownload::start(request);
    let mut asked = Vec::new();
    while let Some(m) = download.next_request() {
        let (index, begin, length) = match m {
            PeerMessage::Request { index, begin, length } => (index, begin, length),
            other => panic!("unexpected {:?}", other),
        };
        assert_eq!(index, 3);
        asked.push((begin, length));
        let block = data[begin as usize..(begin + length) as usize].to_vec();
        download.accept(PeerMessage::Piece { index, begin, block }).unwrap();
    }
    (download.finish(), asked)
}

#[test]
fn piece_download_in_blocks() {
    let data: Vec<u8> = (0..40000u32).map(|i| (i % 251) as u8).collect();
    let (result, asked) = fetch(&data, sha1(&data));
    assert_eq!(result.unwrap(), data);
    assert_eq!(asked, vec![(0, BLOCK_MAX_SIZE), (16384, 16384), (32768, 40000 - 32768)]);
}

#[test]
fn piece_download_hash_mismatch() {
    let data = vec![1u8, 2, 3];
    let wrong = vec![0u8; 20];
    let (result, asked) = fetch(&data, wrong);
    assert_eq!(asked, vec![(0, 3)]);
    assert_eq!(
        result,
        Err(DownloadError::HashMismatch {
            index: 3,
            expected: "0".repeat(40),
            got: hex_lower(&sha1(&data)),
        })
    );
}

fn hex_lower(bytes: &[u8]) -> String {
    bytes.iter().map(|b| format!("{:02x}", b)).collect()
}

#[test]
fn empty_piece_asks_nothing() {
    let request = PieceRequest { piece_index: 0, piece_length: 0, piece_hash: sha1(&[]) };
    let download = PieceDownload::start(request);
    assert!(download.next_request().is_none());
    assert_eq!(download.finish().unwrap(), Vec::<u8>::new());
}

#[test]
fn piece_download_refuses_other_messages() {
    let request = PieceRequest { piece_index: 0, piece_length: 5, piece_hash: vec![] };
    let mut download = PieceDownload::start(request);
    assert_eq!(download.accept(PeerMessage::Unchoke), Err(DownloadError::ExpectedPiece));
    assert_eq!(download.remain, 5);
}

#[test]
fn peer_setup_sequence() {
    let s = PeerSetup::AwaitingBitfield;
    let (s, reply) = s.on_message(&PeerMessage::Bitfield(vec![0])).unwrap();
    assert_eq!(s, PeerSetup::AwaitingUnchoke);
    assert!(matches!(reply, Some(PeerMessage::Interested)));
    let (s, reply) = s.on_message(&PeerMessage::Unchoke).unwrap();
    assert_eq!(s, PeerSetup::Ready);
    assert!(reply.is_none());

    assert_eq!(
        PeerSetup::AwaitingBitfield.on_message(&PeerMessage::Unchoke).err(),
        Some(DownloadError::ExpectedBitfield)
    );
    assert_eq!(
        PeerSetup::AwaitingUnchoke.on_message(&PeerMessage::Interested).err(),
        Some(DownloadError::ExpectedUnchoke)
    );
}

#[test]
fn collector_joins_in_index_order() {
    let mut c = PieceCollector::new(3);
    assert!(!c.is_complete());
    assert!(!c.add(2, vec![5]));
    assert!(!c.add(0, vec![1, 2]));
    assert!(!c.add(7, vec![9]));
    assert!(c.add(1, vec![3, 4]));
    assert!(c.is_complete());
    assert_eq!(c.into_bytes(), vec![1, 2, 3, 4, 5]);
}

#[test]
fn collector_of_no_pieces_is_complete() {
    let c = PieceCollector::new(0);
    assert!(c.is_complete());
    assert_eq!(c.into_bytes(), Vec::<u8>::new());
}
