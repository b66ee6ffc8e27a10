//! Seeding a file: the decisions of a session with one downloading peer.

use vstd::prelude::*;
use crate::bt::torrent::{is_valid_peer_id, PeerId, PeerMessage, PeerMessageView, TorrentFile};

verus! {

/// How many timeouts in a row close a session.
pub const MAX_CONSECUTIVE_TIMEOUTS: usize = 3;

/// What the uploader knows of the shared file.
#[derive(Debug)]
pub struct TorrentFileMetadata {
    pub file_path: String,
    pub info_hash: String,
    pub info_hash_bytes: [u8; 20],
    pub piece_length: i64,
}

impl TorrentFileMetadata {
    pub fn new(torrent: TorrentFile, file_path: &str) -> (r: Self)
        ensures
            r.file_path@ == file_path@,
            r.info_hash == torrent.info_hash,
            r.info_hash_bytes == torrent.info_hash_bytes,
            r.piece_length == torrent.torrent.piece_length,
    {
        let piece_length = torrent.piece_length();
        TorrentFileMetadata {
            file_path: file_path.to_owned(),
            info_hash: torrent.info_hash,
            info_hash_bytes: torrent.info_hash_bytes,
            piece_length,
        }
    }
}

/// A seeding peer.
pub struct PeerUpload {
    pub peer_id: PeerId,
}

impl PeerUpload {
    pub fn new() -> (r: Self)
        ensures
            is_valid_peer_id(r.peer_id@),
    {
        PeerUpload { peer_id: PeerId::new() }
    }
}

/// Where in the file a block starts: `index` pieces of `piece_length` bytes
/// (the size taken as a `u64`), then `begin` bytes.
pub open spec fn block_offset(piece_length: i64, index: u32, begin: u32) -> int {
    (piece_length as u64) * index + begin
}

/// The offset of a block, if it fits in a `u64`.
pub open spec fn block_offset_fits(piece_length: i64, index: u32, begin: u32) -> bool {
    block_offset(piece_length, index, begin) <= u64::MAX
}

/// The offset in the file where a requested block starts.
pub fn piece_offset(piece_length: i64, index: u32, begin: u32) -> (r: u64)
    requires
        block_offset_fits(piece_length, index, begin),
    ensures
        r == block_offset(piece_length, index, begin),
{
    #[verifier::truncate]
    let piece_length = piece_length as u64;
    let index = index as u64;
    assert(piece_length * index <= u64::MAX) by (nonlinear_arith)
        requires
            piece_length * index + begin <= u64::MAX,
            begin >= 0,
    ;
    piece_length * index + begin as u64
}

/// The offset in the file where a requested block starts, if it fits in a
/// `u64`.
pub fn piece_offset_checked(piece_length: i64, index: u32, begin: u32) -> (r: Option<u64>)
    ensures
        r is Some <==> block_offset_fits(piece_length, index, begin),
        r matches Some(o) ==> o == block_offset(piece_length, index, begin),
{
    #[verifier::truncate]
    let size = piece_length as u64;
    match size.checked_mul(index as u64) {
        Some(start) => match start.checked_add(begin as u64) {
            Some(_) => Some(piece_offset(piece_length, index, begin)),
            None => None,
        },
        None => {
            assert(size * index + begin > u64::MAX) by (nonlinear_arith)
                requires
                    size * index > u64::MAX,
                    begin >= 0,
            ;
            None
        },
    }
}

/// The bitfield sent to a peer once the handshake is done.
pub fn initial_bitfield() -> (r: PeerMessage)
    ensures
        r@ == PeerMessageView::Bitfield(seq![0u8]),
{
    let mut bits: Vec<u8> = Vec::new();
    bits.push(0);
    PeerMessage::Bitfield(bits)
}

/// Where a session with a downloading peer stands.
#[derive(Debug, Clone, Copy, PartialEq, Eq)]
pub enum UploadState {
    /// The bitfield was sent; the peer must say it is interested.
    AwaitingInterested,
    /// The peer is served; `consecutive_timeouts` waits in a row went unanswered.
    Serving { consecutive_timeouts: usize },
    /// The session is over.
    Closed,
}

/// What happened while waiting for the peer.
#[derive(Debug)]
pub enum UploadEvent {
    /// The peer sent a message.
    Message(PeerMessage),
    /// Reading from the peer failed.
    ReceiveFailed,
    /// The peer sent nothing in time.
    TimedOut,
    /// Reading or sending a requested block failed.
    ServeFailed,
}

/// The content of an event.
pub enum UploadEventView {
    Message(PeerMessageView),
    ReceiveFailed,
    TimedOut,
    ServeFailed,
}

impl View for UploadEvent {
    type V = UploadEventView;

    open spec fn view(&self) -> UploadEventView {
        match self {
            UploadEvent::Message(m) => UploadEventView::Message(m@),
            UploadEvent::ReceiveFailed => UploadEventView::ReceiveFailed,
            UploadEvent::TimedOut => UploadEventView::TimedOut,
            UploadEvent::ServeFailed => UploadEventView::ServeFailed,
        }
    }
}

/// What the uploader does next.
#[derive(Debug, Clone, Copy, PartialEq, Eq)]
pub enum UploadAction {
    /// Send `Unchoke` and serve the peer.
    SendUnchoke,
    /// Read `length` bytes of the file at `offset` and send them as the
    /// block `begin` of piece `index`.
    ServeBlock { index: u32, begin: u32, length: u32, offset: u64 },
    /// Wait for the next event.
    Continue,
    /// End the session normally.
    Close,
    /// End the session: the peer did not say it was interested.
    ExpectedInterested,
    /// End the session: reading the peer's message failed before it was served.
    ReceiveError,
}

/// A message the session can take while serving: a block request whose
/// offset fits in a `u64`.
pub open spec fn servable(piece_length: i64, event: UploadEventView) -> bool {
    event matches UploadEventView::Message(PeerMessageView::Request { index, begin, .. })
        ==> block_offset_fits(piece_length, index, begin)
}

/// The next state and the action after an event.
pub open spec fn upload_step(piece_length: i64, state: UploadState, event: UploadEventView) -> (
    UploadState,
    UploadAction,
) {
    match state {
        UploadState::AwaitingInterested => match event {
            UploadEventView::Message(PeerMessageView::Interested) => (
                UploadState::Serving { consecutive_timeouts: 0 },
                UploadAction::SendUnchoke,
            ),
            UploadEventView::Message(_) => (UploadState::Closed, UploadAction::ExpectedInterested),
            UploadEventView::ReceiveFailed => (UploadState::Closed, UploadAction::ReceiveError),
            _ => (UploadState::AwaitingInterested, UploadAction::Continue),
        },
        UploadState::Serving { consecutive_timeouts } => match event {
            UploadEventView::Message(PeerMessageView::Request { index, begin, length }) => (
                UploadState::Serving { consecutive_timeouts: 0 },
                UploadAction::ServeBlock {
                    index,
                    begin,
                    length,
                    offset: block_offset(piece_length, index, begin) as u64,
                },
            ),
            UploadEventView::Message(_) => (
                UploadState::Serving { consecutive_timeouts: 0 },
                UploadAction::Continue,
            ),
            UploadEventView::TimedOut => if consecutive_timeouts + 1 >= MAX_CONSECUTIVE_TIMEOUTS {
                (UploadState::Closed, UploadAction::Close)
            } else {
                (
                    UploadState::Serving { consecutive_timeouts: (consecutive_timeouts + 1) as usize },
                    UploadAction::Continue,
                )
            },
            _ => (UploadState::Closed, UploadAction::Close),
        },
        UploadState::Closed => (UploadState::Closed, UploadAction::Close),
    }
}

/// A session with one downloading peer, after the handshake and the bitfield.
#[derive(Debug)]
pub struct UploadSession {
    pub piece_length: i64,
    pub state: UploadState,
}

impl UploadSession {
    /// The count of timeouts stays below the limit while serving.
    pub open spec fn wf(&self) -> bool {
        self.state matches UploadState::Serving { consecutive_timeouts } ==> consecutive_timeouts
            < MAX_CONSECUTIVE_TIMEOUTS
    }

    pub fn new(piece_length: i64) -> (r: Self)
        ensures
            r.wf(),
            r.piece_length == piece_length,
            r.state == UploadState::AwaitingInterested,
    {
        UploadSession { piece_length, state: UploadState::AwaitingInterested }
    }

    /// Whether the session can take the event: while serving, a block
    /// request must have an offset that fits in a `u64`.
    pub fn can_take(&self, event: &UploadEvent) -> (r: bool)
        ensures
            r == (self.state is Serving ==> servable(self.piece_length, event@)),
    {
        if !matches!(self.state, UploadState::Serving { .. }) {
            return true;
        }
        match event {
            UploadEvent::Message(PeerMessage::Request { index, begin, .. }) => piece_offset_checked(
                self.piece_length,
                *index,
                *begin,
            ).is_some(),
            _ => true,
        }
    }

    /// Moves the session on after an event and says what to do.
    pub fn step(&mut self, event: UploadEvent) -> (action: UploadAction)
        requires
            old(self).wf(),
            old(self).state is Serving ==> servable(old(self).piece_length, event@),
        ensures
            final(self).wf(),
            final(self).piece_length == old(self).piece_length,
            (final(self).state, action) == upload_step(
                old(self).piece_length,
                old(self).state,
                event@,
            ),
    {
        match self.state {
            UploadState::AwaitingInterested => match event {
                UploadEvent::Message(PeerMessage::Interested) => {
                    self.state = UploadState::Serving { consecutive_timeouts: 0 };
                    UploadAction::SendUnchoke
                },
                UploadEvent::Message(_) => {
                    self.state = UploadState::Closed;
                    UploadAction::ExpectedInterested
                },
                UploadEvent::ReceiveFailed => {
                    self.state = UploadState::Closed;
                    UploadAction::ReceiveError
                },
                _ => UploadAction::Continue,
            },
            UploadState::Serving { consecutive_timeouts } => match event {
                UploadEvent::Message(PeerMessage::Request { index, begin, length }) => {
                    let offset = piece_offset(self.piece_length, index, begin);
                    self.state = UploadState::Serving { consecutive_timeouts: 0 };
                    UploadAction::ServeBlock { index, begin, length, offset }
                },
                UploadEvent::Message(_) => {
                    self.state = UploadState::Serving { consecutive_timeouts: 0 };
                    UploadAction::Continue
                },
                UploadEvent::TimedOut => {
                    if consecutive_timeouts + 1 >= MAX_CONSECUTIVE_TIMEOUTS {
                        self.state = UploadState::Closed;
                        UploadAction::Close
                    } else {
                        self.state = UploadState::Serving {
                            consecutive_timeouts: consecutive_timeouts + 1,
                        };
                        UploadAction::Continue
                    }
                },
                _ => {
                    self.state = UploadState::Closed;
                    UploadAction::Close
                },
            },
            UploadState::Closed => UploadAction::Close,
        }
    }
}

/// The reply to a served block request: the block, as a piece message.
pub fn piece_reply(index: u32, begin: u32, block: Vec<u8>) -> (r: PeerMessage)
    ensures
        r@ == (PeerMessageView::Piece { index, begin, block: block@ }),
{
    PeerMessage::Piece { index, begin, block }
}

/// The state after a run of timeouts.
pub open spec fn after_timeouts(piece_length: i64, state: UploadState, k: nat) -> UploadState
    decreases k,
{
    if k == 0 {
        state
    } else {
        after_timeouts(
            piece_length,
            upload_step(piece_length, state, UploadEventView::TimedOut).0,
            (k - 1) as nat,
        )
    }
}

/// A served peer that stays silent is dropped after exactly
/// `MAX_CONSECUTIVE_TIMEOUTS` timeouts in a row counted from its last
/// message: fewer leave it served, that many close the session.
pub proof fn lemma_silent_peer_closed(piece_length: i64, k: nat)
    ensures
        k < MAX_CONSECUTIVE_TIMEOUTS ==> after_timeouts(
            piece_length,
            UploadState::Serving { consecutive_timeouts: 0 },
            k,
        ) == (UploadState::Serving { consecutive_timeouts: k as usize }),
        k >= MAX_CONSECUTIVE_TIMEOUTS ==> after_timeouts(
            piece_length,
            UploadState::Serving { consecutive_timeouts: 0 },
            k,
        ) == UploadState::Closed,
{
    lemma_timeouts_from(piece_length, 0, k);
}

proof fn lemma_closed_stays(piece_length: i64, k: nat)
    ensures
        after_timeouts(piece_length, UploadState::Closed, k) == UploadState::Closed,
    decreases k,
{
    if k > 0 {
        lemma_closed_stays(piece_length, (k - 1) as nat);
    }
}

proof fn lemma_timeouts_from(piece_length: i64, n: nat, k: nat)
    requires
        n < MAX_CONSECUTIVE_TIMEOUTS,
    ensures
        n + k < MAX_CONSECUTIVE_TIMEOUTS ==> after_timeouts(
            piece_length,
            UploadState::Serving { consecutive_timeouts: n as usize },
            k,
        ) == (UploadState::Serving { consecutive_timeouts: (n + k) as usize }),
        n + k >= MAX_CONSECUTIVE_TIMEOUTS ==> after_timeouts(
            piece_length,
            UploadState::Serving { consecutive_timeouts: n as usize },
            k,
        ) == UploadState::Closed,
    decreases k,
{
    if k > 0 {
        if n + 1 >= MAX_CONSECUTIVE_TIMEOUTS {
            lemma_closed_stays(piece_length, (k - 1) as nat);
        } else {
            lemma_timeouts_from(piece_length, n + 1, (k - 1) as nat);
        }
    }
}

/// Any message from a served peer resets its count of timeouts, and every
/// block request is answered with the block at its offset in the file.
pub proof fn lemma_message_keeps_serving(
    piece_length: i64,
    consecutive_timeouts: usize,
    m: PeerMessageView,
)
    ensures
        upload_step(
            piece_length,
            UploadState::Serving { consecutive_timeouts },
            UploadEventView::Message(m),
        ).0 == (UploadState::Serving { consecutive_timeouts: 0 }),
        m matches PeerMessageView::Request { index, begin, length } ==> upload_step(
            piece_length,
            UploadState::Serving { consecutive_timeouts },
            UploadEventView::Message(m),
        ).1 == (UploadAction::ServeBlock {
            index,
            begin,
            length,
            offset: block_offset(piece_length, index, begin) as u64,
        }),
{
}

/// A served peer whose connection fails, or to which a block could not be
/// sent, is dropped: the session closes, whatever its count of timeouts. A
/// peer whose first message cannot be read ends the session with an error,
/// and a closed session stays closed.
pub proof fn lemma_failure_closes(
    piece_length: i64,
    consecutive_timeouts: usize,
    event: UploadEventView,
)
    ensures
        upload_step(
            piece_length,
            UploadState::Serving { consecutive_timeouts },
            UploadEventView::ReceiveFailed,
        ) == (UploadState::Closed, UploadAction::Close),
        upload_step(
            piece_length,
            UploadState::Serving { consecutive_timeouts },
            UploadEventView::ServeFailed,
        ) == (UploadState::Closed, UploadAction::Close),
        upload_step(piece_length, UploadState::AwaitingInterested, UploadEventView::ReceiveFailed)
            == (UploadState::Closed, UploadAction::ReceiveError),
        upload_step(piece_length, UploadState::Closed, event) == (
            UploadState::Closed,
            UploadAction::Close,
        ),
{
}

/// While serving, a block request can be taken exactly when its offset in
/// the file, `piece_length * index + begin`, fits in a `u64`, whatever the
/// length asked for; every other event can always be taken. A request that
/// can be taken is answered with the block at that offset.
pub proof fn lemma_servable_requests(
    piece_length: i64,
    consecutive_timeouts: usize,
    index: u32,
    begin: u32,
    length: u32,
    event: UploadEventView,
)
    requires
        piece_length >= 0,
    ensures
        servable(
            piece_length,
            UploadEventView::Message(PeerMessageView::Request { index, begin, length }),
        ) <==> piece_length * index + begin <= u64::MAX,
        !(event matches UploadEventView::Message(PeerMessageView::Request { .. })) ==> servable(
            piece_length,
            event,
        ),
        piece_length * index + begin <= u64::MAX ==> upload_step(
            piece_length,
            UploadState::Serving { consecutive_timeouts },
            UploadEventView::Message(PeerMessageView::Request { index, begin, length }),
        ) == (
            UploadState::Serving { consecutive_timeouts: 0 },
            UploadAction::ServeBlock {
                index,
                begin,
                length,
                offset: (piece_length * index + begin) as u64,
            },
        ),
{
    assert(piece_length as u64 == piece_length);
}

} // verus!
