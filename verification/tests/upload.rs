use rust_bittorrent::bt::peer_upload::{
    initial_bitfield, piece_offset, piece_reply, PeerUpload, UploadAction, UploadEvent,
    UploadSession, UploadState,
};
use rust_bittorrent::bt::torrent::PeerMessage;

#[test]
fn session_serves_requests() {
    let mut s = UploadSession::new(32768);
    assert_eq!(s.step(UploadEvent::Message(PeerMessage::Interested)), UploadAction::SendUnchoke);
    assert_eq!(
        s.step(UploadEvent::Message(PeerMessage::Request { index: 2, begin: 16384, length: 100 })),
        UploadAction::ServeBlock { index: 2, begin: 16384, length: 100, offset: 2 * 32768 + 16384 }
    );
    assert_eq!(s.step(UploadEvent::Message(PeerMessage::Unchoke)), UploadAction::Continue);
    assert_eq!(s.step(UploadEvent::ServeFailed), UploadAction::Close);
    assert_eq!(s.state, UploadState::Closed);
}

#[test]
fn session_requires_interest() {
    let mut s = UploadSession::new(1);
    assert_eq!(
        s.step(UploadEvent::Message(PeerMessage::Bitfield(vec![]))),
        UploadAction::ExpectedInterested
    );
    assert_eq!(s.state, UploadState::Closed);
    let mut s = UploadSession::new(1);
    assert_eq!(s.step(UploadEvent::ReceiveFailed), UploadAction::ReceiveError);
}

#[test]
fn session_closes_after_three_timeouts() {
    let mut s = UploadSession::new(1);
    s.step(UploadEvent::Message(PeerMessage::Interested));
    assert_eq!(s.step(UploadEvent::TimedOut), UploadAction::Continue);
    assert_eq!(s.step(UploadEvent::TimedOut), UploadAction::Continue);
    // a message resets the count
    assert_eq!(s.step(UploadEvent::Message(PeerMessage::Interested)), UploadAction::Continue);
    assert_eq!(s.state, UploadState::Serving { consecutive_timeouts: 0 });
    assert_eq!(s.step(UploadEvent::TimedOut), UploadAction::Continue);
    assert_eq!(s.step(UploadEvent::TimedOut), UploadAction::Continue);
    assert_eq!(s.step(UploadEvent::TimedOut), UploadAction::Close);
    assert_eq!(s.state, UploadState::Closed);
}

#[test]
fn block_offsets_and_replies() {
    assert_eq!(piece_offset(16, 3, 5), 53);
    assert_eq!(piece_offset(-1, 0, 7), 7);
    match piece_reply(1, 2, vec![5]) {
        PeerMessage::Piece { index, begin, block } => {
            assert_eq!((index, begin, block), (1, 2, vec![5]));
        }
        other => panic!("unexpected {:?}", other),
    }
    assert!(matches!(initial_bitfield(), PeerMessage::Bitfield(b) if b == vec![0]));
    let up = PeerUpload::new();
    assert_eq!(up.peer_id.to_string().len(), 20);
}

#[test]
fn request_before_interest_is_refused_whatever_its_offset() {
    let mut s = UploadSession::new(i64::MAX);
    let request = UploadEvent::Message(PeerMessage::Request { index: u32::MAX, begin: 0, length: 1 });
    assert!(s.can_take(&request));
    assert_eq!(s.step(request), UploadAction::ExpectedInterested);
    let mut serving = UploadSession::new(i64::MAX);
    serving.step(UploadEvent::Message(PeerMessage::Interested));
    assert!(!serving.can_take(&UploadEvent::Message(PeerMessage::Request { index: u32::MAX, begin: 0, length: 1 })));
}
