//! Peer ids, torrent metadata, the handshake and the peer wire messages.

use vstd::prelude::*;
use vstd::utf8::{decode_utf8, valid_utf8};
use rand::Rng;
use crate::codec::{
    be_u32_bytes, be_u32_value, copy_range, lemma_be_u32_roundtrip, push_be_u32, read_be_u32,
};
use crate::text::{
    ascii_string, ascii_text, decimal_digits, decimal_string, form_urlencode, is_ascii_alphanumeric, is_ascii_bytes,
    lemma_ascii_utf8, str_starts_with, string_from_utf8, urlencode,
};

verus! {

/// The client's name and version, the first eight bytes of every peer id.
pub const PEER_ID_BT_VERSION: &'static str = "-BT0001-";

/// The bytes of `PEER_ID_BT_VERSION`.
pub open spec fn peer_id_prefix() -> Seq<u8> {
    seq![45u8, 66u8, 84u8, 48u8, 48u8, 48u8, 49u8, 45u8]
}

/// Twenty bytes: the version prefix, then twelve ASCII letters or digits.
pub open spec fn is_valid_peer_id(bytes: Seq<u8>) -> bool {
    &&& bytes.len() == 20
    &&& bytes.subrange(0, 8) == peer_id_prefix()
    &&& forall|i: int| 8 <= i < 20 ==> #[trigger] is_ascii_alphanumeric(bytes[i])
}

/// A valid peer id is ASCII.
pub proof fn lemma_peer_id_ascii(bytes: Seq<u8>)
    requires
        is_valid_peer_id(bytes),
    ensures
        is_ascii_bytes(bytes),
{
    assert forall|i: int| 0 <= i < bytes.len() implies #[trigger] bytes[i] < 128 by {
        if i < 8 {
            assert(bytes[i] == bytes.subrange(0, 8)[i]);
        } else {
            assert(is_ascii_alphanumeric(bytes[i]));
        }
    }
}

/// The `k`-th of the 62 ASCII letters and digits, digits first, then
/// uppercase, then lowercase letters.
pub open spec fn alphanumeric_at(k: int) -> u8 {
    if k < 10 {
        (48 + k) as u8
    } else if k < 36 {
        (55 + k) as u8
    } else {
        (61 + k) as u8
    }
}

/// `rand::thread_rng().gen_range(0..n)`. Its contract claims what every
/// outcome of the crate's uniform sampling satisfies: a number below `n`.
#[verifier::external_body]
fn random_below(n: usize) -> (r: usize)
    requires
        n > 0,
    ensures
        r < n,
{
    rand::thread_rng().gen_range(0..n)
}

/// The `k`-th ASCII letter or digit.
fn alphanumeric(k: usize) -> (r: u8)
    requires
        k < 62,
    ensures
        r == alphanumeric_at(k as int),
        is_ascii_alphanumeric(r),
{
    if k < 10 {
        48 + k as u8
    } else if k < 36 {
        55 + k as u8
    } else {
        61 + k as u8
    }
}

/// A peer id: the client's version prefix and twelve random ASCII letters
/// or digits.
#[derive(Debug, Clone, Copy)]
pub struct PeerId([u8; 20]);

impl View for PeerId {
    type V = Seq<u8>;

    closed spec fn view(&self) -> Seq<u8> {
        self.0@
    }
}

impl PeerId {
    #[verifier::type_invariant]
    spec fn well_formed(self) -> bool {
        is_valid_peer_id(self.0@)
    }

    /// A fresh peer id; each of the last twelve bytes is drawn uniformly
    /// from the 62 ASCII letters and digits.
    pub fn new() -> (r: Self)
        ensures
            is_valid_peer_id(r@),
    {
        let mut peer_id: [u8; 20] = [0u8; 20];
        peer_id[0] = 45;
        peer_id[1] = 66;
        peer_id[2] = 84;
        peer_id[3] = 48;
        peer_id[4] = 48;
        peer_id[5] = 48;
        peer_id[6] = 49;
        peer_id[7] = 45;
        let mut i: usize = 8;
        while i < 20
            invariant
                8 <= i <= 20,
                peer_id@.subrange(0, 8) == peer_id_prefix(),
                forall|j: int| 8 <= j < i ==> #[trigger] is_ascii_alphanumeric(peer_id@[j]),
            decreases 20 - i,
        {
            let k = random_below(62);
            peer_id[i] = alphanumeric(k);
            assert(peer_id@.subrange(0, 8) =~= peer_id_prefix());
            i = i + 1;
        }
        assert(peer_id@.subrange(0, 8) =~= peer_id_prefix());
        PeerId(peer_id)
    }

    /// The twenty bytes of the id.
    pub fn bytes(&self) -> (r: [u8; 20])
        ensures
            r@ == self@,
            is_valid_peer_id(r@),
    {
        proof {
            use_type_invariant(self);
        }
        self.0
    }

    /// The id as text; every byte is an ASCII character.
    pub fn to_string(&self) -> (r: String)
        ensures
            is_valid_peer_id(self@),
            r@ == ascii_text(self@),
            r@.len() == 20,
            r@.subrange(0, 8) == PEER_ID_BT_VERSION@,
    {
        proof {
            use_type_invariant(self);
            lemma_peer_id_ascii(self.0@);
            reveal_strlit("-BT0001-");
            assert(ascii_text(self.0@).subrange(0, 8) =~= PEER_ID_BT_VERSION@) by {
                assert(self.0@.subrange(0, 8) == peer_id_prefix());
                assert forall|i: int| 0 <= i < 8 implies self.0@[i] == #[trigger] peer_id_prefix()[i] by {
                    assert(self.0@[i] == self.0@.subrange(0, 8)[i]);
                }
            }
        }
        ascii_string(&self.0)
    }
}

/// Why torrent metadata or a peer's handshake was refused.
#[derive(Debug, Clone, Copy, PartialEq, Eq)]
pub enum TorrentError {
    /// The info hash is not twenty bytes long.
    InvalidInfoHashLength,
    /// The torrent names no tracker.
    MissingAnnounceUrl,
    /// The tracker's URL is neither `udp://`, `http://` nor `https://`.
    UnrecognizedTrackerProtocol,
    /// The peer id in a handshake reply is not UTF-8.
    PeerIdNotUtf8,
    /// The bytes are not a `.torrent` file.
    Unreadable,
}

/// The way a tracker is reached.
#[derive(Debug, Clone, Copy, PartialEq, Eq)]
pub enum TrackerProtocol {
    Udp,
    Tcp,
}

/// `prefix` begins `s`.
pub open spec fn has_prefix(s: Seq<char>, prefix: Seq<char>) -> bool {
    prefix.len() <= s.len() && s.subrange(0, prefix.len() as int) == prefix
}

/// The protocol named by a tracker URL's scheme.
pub open spec fn tracker_protocol_of(url: Seq<char>) -> Result<TrackerProtocol, TorrentError> {
    if has_prefix(url, "udp://"@) {
        Ok(TrackerProtocol::Udp)
    } else if has_prefix(url, "http://"@) || has_prefix(url, "https://"@) {
        Ok(TrackerProtocol::Tcp)
    } else {
        Err(TorrentError::UnrecognizedTrackerProtocol)
    }
}

impl<'a> TryFrom<&'a str> for TrackerProtocol {
    type Error = TorrentError;

    fn try_from(value: &'a str) -> (r: Result<Self, Self::Error>) {
        if str_starts_with(value, "udp://") {
            Ok(TrackerProtocol::Udp)
        } else if str_starts_with(value, "http://") || str_starts_with(value, "https://") {
            Ok(TrackerProtocol::Tcp)
        } else {
            Err(TorrentError::UnrecognizedTrackerProtocol)
        }
    }
}

impl<'a> vstd::std_specs::convert::TryFromSpecImpl<&'a str> for TrackerProtocol {
    open spec fn obeys_try_from_spec() -> bool {
        true
    }

    open spec fn try_from_spec(v: &'a str) -> Result<Self, Self::Error> {
        tracker_protocol_of(v@)
    }
}


/// What the client reads of a `.torrent` file: the tracker, the file's name
/// and size, the piece size, the pieces' SHA-1 hashes, and the info hash.
#[derive(Debug, Clone)]
pub struct TorrentMeta {
    pub announce: Option<String>,
    pub name: String,
    pub length: i64,
    pub piece_length: i64,
    pub pieces: Vec<Vec<u8>>,
    pub info_hash_bytes: Vec<u8>,
}

/// The view of a list of byte strings.
pub open spec fn bytes_list(v: Seq<Vec<u8>>) -> Seq<Seq<u8>> {
    Seq::new(v.len(), |i: int| v[i]@)
}

/// A copy of a list of byte strings.
pub fn clone_bytes_list(v: &Vec<Vec<u8>>) -> (r: Vec<Vec<u8>>)
    ensures
        bytes_list(r@) == bytes_list(v@),
{
    let mut r: Vec<Vec<u8>> = Vec::new();
    let mut i: usize = 0;
    while i < v.len()
        invariant
            i <= v@.len(),
            r@.len() == i,
            forall|j: int| 0 <= j < i ==> (#[trigger] r@[j])@ == v@[j]@,
        decreases v@.len() - i,
    {
        let item = v[i].clone();
        assert(item@ =~= v@[i as int]@);
        r.push(item);
        i = i + 1;
    }
    assert(bytes_list(r@) =~= bytes_list(v@));
    r
}

/// The plain values of torrent metadata: tracker, name, length, piece
/// size, piece hashes and info hash.
pub open spec fn meta_fields(m: TorrentMeta) -> (
    Option<Seq<char>>,
    Seq<char>,
    i64,
    i64,
    Seq<Seq<u8>>,
    Seq<u8>,
) {
    (
        match m.announce {
            Some(a) => Some(a@),
            None => None,
        },
        m.name@,
        m.length,
        m.piece_length,
        bytes_list(m.pieces@),
        m.info_hash_bytes@,
    )
}

/// What lava_torrent reads of the bytes of a `.torrent` file, in the order
/// of `meta_fields`; `None` where it refuses them.
pub uninterp spec fn torrent_fields(bytes: Seq<u8>) -> Option<
    (Option<Seq<char>>, Seq<char>, i64, i64, Seq<Seq<u8>>, Seq<u8>),
>;

/// `Torrent::read_from_bytes` of lava_torrent, and the info hash that
/// `Torrent::info_hash_bytes` computes of what it read. The contract names
/// the outcome: the fields read, or `None` where the bytes are refused; the
/// info hash is a SHA-1 digest, twenty bytes.
#[verifier::external_body]
pub(crate) fn read_torrent_meta(bytes: &[u8]) -> (r: Option<TorrentMeta>)
    ensures
        r is Some <==> torrent_fields(bytes@) is Some,
        r matches Some(m) ==> torrent_fields(bytes@) == Some(meta_fields(m)),
        r matches Some(m) ==> m.info_hash_bytes@.len() == 20,
{
    match lava_torrent::torrent::v1::Torrent::read_from_bytes(bytes) {
        Ok(t) => Some(TorrentMeta {
            info_hash_bytes: t.info_hash_bytes(),
            announce: t.announce,
            name: t.name,
            length: t.length,
            piece_length: t.piece_length,
            pieces: t.pieces,
        }),
        Err(_) => None,
    }
}

/// A torrent the client can work with: its tracker's URL and protocol, and
/// its info hash both as bytes and form-urlencoded.
#[derive(Debug)]
pub struct TorrentFile {
    pub torrent: TorrentMeta,
    pub announce_url: String,
    pub tracker_protocol: TrackerProtocol,
    pub info_hash: String,
    pub info_hash_bytes: [u8; 20],
}

impl TorrentFile {
    /// Checks the metadata read from a `.torrent` file: the info hash must be
    /// twenty bytes, a tracker must be named, and its URL must be
    /// `udp://`, `http://` or `https://`; the first failed check is reported.
    pub fn from_meta(torrent: TorrentMeta) -> (r: Result<Self, TorrentError>)
        ensures
            torrent.info_hash_bytes@.len() != 20 ==> r == Err::<Self, TorrentError>(
                TorrentError::InvalidInfoHashLength,
            ),
            torrent.info_hash_bytes@.len() == 20 && torrent.announce is None ==> r == Err::<
                Self,
                TorrentError,
            >(TorrentError::MissingAnnounceUrl),
            torrent.info_hash_bytes@.len() == 20 && torrent.announce is Some ==> match tracker_protocol_of(
                torrent.announce->0@,
            ) {
                Err(e) => r == Err::<Self, TorrentError>(e),
                Ok(p) => r matches Ok(f) && {
                    &&& f.tracker_protocol == p
                    &&& f.announce_url@ == torrent.announce->0@
                    &&& f.info_hash@ == urlencode(torrent.info_hash_bytes@)
                    &&& f.info_hash_bytes@ == torrent.info_hash_bytes@
                    &&& f.torrent == torrent
                },
            },
    {
        let info_hash = form_urlencode(torrent.info_hash_bytes.as_slice());
        if torrent.info_hash_bytes.len() != 20 {
            return Err(TorrentError::InvalidInfoHashLength);
        }
        let mut info_hash_bytes: [u8; 20] = [0u8; 20];
        let mut i: usize = 0;
        while i < 20
            invariant
                i <= 20,
                torrent.info_hash_bytes@.len() == 20,
                forall|j: int| 0 <= j < i ==> info_hash_bytes@[j] == torrent.info_hash_bytes@[j],
            decreases 20 - i,
        {
            info_hash_bytes[i] = torrent.info_hash_bytes[i];
            i = i + 1;
        }
        assert(info_hash_bytes@ =~= torrent.info_hash_bytes@);
        let announce_url = match &torrent.announce {
            Some(url) => url.clone(),
            None => {
                return Err(TorrentError::MissingAnnounceUrl);
            },
        };
        let tracker_protocol = match TrackerProtocol::try_from(announce_url.as_str()) {
            Ok(p) => p,
            Err(e) => {
                return Err(e);
            },
        };
        Ok(TorrentFile { torrent, announce_url, tracker_protocol, info_hash, info_hash_bytes })
    }

    /// Reads a `.torrent` file's bytes and checks the metadata as
    /// `from_meta` does; bytes that are no `.torrent` file are refused.
    pub fn from_bytes(bytes: &[u8]) -> (r: Result<Self, TorrentError>)
        ensures
            torrent_fields(bytes@) is None ==> r == Err::<Self, TorrentError>(
                TorrentError::Unreadable,
            ),
            torrent_fields(bytes@) matches Some(f) ==> {
                &&& f.5.len() != 20 ==> r == Err::<Self, TorrentError>(
                    TorrentError::InvalidInfoHashLength,
                )
                &&& f.5.len() == 20 && f.0 is None ==> r == Err::<Self, TorrentError>(
                    TorrentError::MissingAnnounceUrl,
                )
                &&& f.5.len() == 20 && f.0 is Some ==> match tracker_protocol_of(f.0->0) {
                    Err(e) => r == Err::<Self, TorrentError>(e),
                    Ok(p) => r matches Ok(t) && {
                        &&& t.tracker_protocol == p
                        &&& t.announce_url@ == f.0->0
                        &&& t.info_hash@ == urlencode(f.5)
                        &&& t.info_hash_bytes@ == f.5
                        &&& meta_fields(t.torrent) == f
                    },
                }
            },
    {
        match read_torrent_meta(bytes) {
            Some(meta) => Self::from_meta(meta),
            None => Err(TorrentError::Unreadable),
        }
    }

    /// The size of every piece but the last.
    pub fn piece_length(&self) -> (r: i64)
        ensures
            r == self.torrent.piece_length,
    {
        self.torrent.piece_length
    }

    /// The SHA-1 hash of every piece, in order.
    pub fn pieces(&self) -> (r: Vec<Vec<u8>>)
        ensures
            bytes_list(r@) == bytes_list(self.torrent.pieces@),
    {
        clone_bytes_list(&self.torrent.pieces)
    }

    /// The size of the shared file.
    pub fn length(&self) -> (r: i64)
        ensures
            r == self.torrent.length,
    {
        self.torrent.length
    }
}

/// The piece size of torrents the client builds for a local file.
pub const PIECE_LENGTH: i64 = 32768;

/// The port of the local tracker that `.torrent` files written by the client
/// name.
pub const DEFAULT_TRACKER_PORT: u16 = 9999;

/// The announce URL of a tracker on this machine listening on `port`.
pub fn local_announce_url(port: u16) -> (r: String)
    ensures
        r@ == "http://127.0.0.1:"@ + ascii_text(decimal_digits(port as nat)) + "/announce"@,
{
    let mut url = "http://127.0.0.1:".to_owned();
    let digits = decimal_string(port as u64);
    url.append(digits.as_str());
    url.append("/announce");
    url
}

/// The bytes of the protocol name, `BitTorrent protocol`.
pub open spec fn protocol_name() -> Seq<u8> {
    seq![
        66u8, 105u8, 116u8, 84u8, 111u8, 114u8, 114u8, 101u8, 110u8, 116u8, 32u8, 112u8, 114u8,
        111u8, 116u8, 111u8, 99u8, 111u8, 108u8,
    ]
}

/// The 68-byte handshake: the name's length (19), the name, eight reserved
/// zero bytes, the info hash, and the peer id.
pub open spec fn handshake_bytes(peer_id: Seq<u8>, info_hash: Seq<u8>) -> Seq<u8> {
    seq![19u8] + protocol_name() + Seq::new(8, |i: int| 0u8) + info_hash + peer_id
}

/// The peer id text of a 68-byte handshake reply: its last twenty bytes read
/// as UTF-8, if they are UTF-8.
pub open spec fn reply_peer_id(reply: Seq<u8>) -> Option<Seq<char>> {
    let id = reply.subrange(48, 68);
    if valid_utf8(id) {
        Some(decode_utf8(id))
    } else {
        None
    }
}

/// The handshake the client sends to a peer.
#[derive(Debug)]
pub struct HandshakeMessage {
    peer_id: [u8; 20],
    info_hash_bytes: [u8; 20],
}

impl View for HandshakeMessage {
    type V = (Seq<u8>, Seq<u8>);

    closed spec fn view(&self) -> (Seq<u8>, Seq<u8>) {
        (self.peer_id@, self.info_hash_bytes@)
    }
}

impl HandshakeMessage {
    pub fn new(peer_id: PeerId, info_hash_bytes: [u8; 20]) -> (r: Self)
        ensures
            r@ == (peer_id@, info_hash_bytes@),
            is_valid_peer_id(r@.0),
    {
        HandshakeMessage { peer_id: peer_id.bytes(), info_hash_bytes }
    }

    /// A handshake with the given peer id bytes.
    pub(crate) fn from_parts(peer_id: [u8; 20], info_hash_bytes: [u8; 20]) -> (r: Self)
        ensures
            r@ == (peer_id@, info_hash_bytes@),
    {
        HandshakeMessage { peer_id, info_hash_bytes }
    }

    /// The 68 bytes sent to the peer.
    pub fn to_bytes(&self) -> (r: Vec<u8>)
        ensures
            r@ == handshake_bytes(self@.0, self@.1),
            r@.len() == 68,
    {
        let mut buffer: Vec<u8> = Vec::new();
        buffer.push(19);
        let name: [u8; 19] = [
            66, 105, 116, 84, 111, 114, 114, 101, 110, 116, 32, 112, 114, 111, 116, 111, 99, 111,
            108,
        ];
        let mut i: usize = 0;
        while i < 19
            invariant
                i <= 19,
                name@ == protocol_name(),
                buffer@ == seq![19u8] + protocol_name().subrange(0, i as int),
            decreases 19 - i,
        {
            buffer.push(name[i]);
            assert(protocol_name().subrange(0, i + 1) =~= protocol_name().subrange(0, i as int)
                + seq![name@[i as int]]);
            i = i + 1;
        }
        let ghost head = buffer@;
        let mut j: usize = 0;
        while j < 8
            invariant
                j <= 8,
                buffer@ == head + Seq::new(j as nat, |k: int| 0u8),
            decreases 8 - j,
        {
            buffer.push(0);
            assert(Seq::new((j + 1) as nat, |k: int| 0u8) =~= Seq::new(j as nat, |k: int| 0u8)
                + seq![0u8]);
            j = j + 1;
        }
        let ghost head = buffer@;
        buffer.extend_from_slice(&self.info_hash_bytes);
        assert(buffer@ =~= head + self.info_hash_bytes@);
        let ghost head = buffer@;
        buffer.extend_from_slice(&self.peer_id);
        assert(buffer@ =~= head + self.peer_id@);
        assert(protocol_name().subrange(0, 19) =~= protocol_name());
        assert(buffer@ =~= handshake_bytes(self@.0, self@.1));
        buffer
    }

    /// The peer id a peer sent back in its 68-byte handshake reply.
    pub fn peer_id_from_reply(reply: &[u8; 68]) -> (r: Result<String, TorrentError>)
        ensures
            match reply_peer_id(reply@) {
                Some(id) => r matches Ok(s) && s@ == id,
                None => r == Err::<String, TorrentError>(TorrentError::PeerIdNotUtf8),
            },
    {
        let id = copy_range(reply, 48, 68);
        match string_from_utf8(id) {
            Some(s) => Ok(s),
            None => Err(TorrentError::PeerIdNotUtf8),
        }
    }
}

/// A peer that echoes the client's handshake back is seen to have the
/// client's own peer id.
pub proof fn lemma_handshake_echo(peer_id: Seq<u8>, info_hash: Seq<u8>)
    requires
        is_valid_peer_id(peer_id),
        info_hash.len() == 20,
    ensures
        handshake_bytes(peer_id, info_hash).len() == 68,
        reply_peer_id(handshake_bytes(peer_id, info_hash)) == Some(ascii_text(peer_id)),
{
    let h = handshake_bytes(peer_id, info_hash);
    assert(h.subrange(48, 68) =~= peer_id);
    lemma_peer_id_ascii(peer_id);
    lemma_ascii_utf8(peer_id);
}


/// A message of the peer wire protocol.
#[derive(Debug)]
pub enum PeerMessage {
    Unchoke,
    Interested,
    Bitfield(Vec<u8>),
    Request { index: u32, begin: u32, length: u32 },
    Piece { index: u32, begin: u32, block: Vec<u8> },
}

/// The content of a peer wire message.
pub enum PeerMessageView {
    Unchoke,
    Interested,
    Bitfield(Seq<u8>),
    Request { index: u32, begin: u32, length: u32 },
    Piece { index: u32, begin: u32, block: Seq<u8> },
}

impl View for PeerMessage {
    type V = PeerMessageView;

    open spec fn view(&self) -> PeerMessageView {
        match self {
            PeerMessage::Unchoke => PeerMessageView::Unchoke,
            PeerMessage::Interested => PeerMessageView::Interested,
            PeerMessage::Bitfield(b) => PeerMessageView::Bitfield(b@),
            PeerMessage::Request { index, begin, length } => PeerMessageView::Request {
                index: *index,
                begin: *begin,
                length: *length,
            },
            PeerMessage::Piece { index, begin, block } => PeerMessageView::Piece {
                index: *index,
                begin: *begin,
                block: block@,
            },
        }
    }
}

/// The kind of a peer wire message, named on the wire by its tag byte.
#[derive(Debug, Clone, Copy, PartialEq, Eq)]
pub enum MessageTag {
    Unchoke,
    Interested,
    Bitfield,
    Request,
    Piece,
}

/// The tag byte of each kind of message.
pub open spec fn tag_byte(tag: MessageTag) -> u8 {
    match tag {
        MessageTag::Unchoke => 1,
        MessageTag::Interested => 2,
        MessageTag::Bitfield => 5,
        MessageTag::Request => 6,
        MessageTag::Piece => 7,
    }
}

/// The kind of message a tag byte names, if it names one the client knows.
pub open spec fn tag_of_byte(b: u8) -> Option<MessageTag> {
    if b == 1 {
        Some(MessageTag::Unchoke)
    } else if b == 2 {
        Some(MessageTag::Interested)
    } else if b == 5 {
        Some(MessageTag::Bitfield)
    } else if b == 6 {
        Some(MessageTag::Request)
    } else if b == 7 {
        Some(MessageTag::Piece)
    } else {
        None
    }
}

/// The kind of a message.
pub open spec fn tag_of(m: PeerMessageView) -> MessageTag {
    match m {
        PeerMessageView::Unchoke => MessageTag::Unchoke,
        PeerMessageView::Interested => MessageTag::Interested,
        PeerMessageView::Bitfield(_) => MessageTag::Bitfield,
        PeerMessageView::Request { .. } => MessageTag::Request,
        PeerMessageView::Piece { .. } => MessageTag::Piece,
    }
}

/// Where a reader of the peer's frames stands.
#[derive(Debug, Clone, Copy, PartialEq, Eq)]
pub enum FrameRead {
    /// The next four bytes are a frame's size.
    Size,
    /// The next byte is the tag of a message of this size.
    Tag { size: u32 },
}

impl FrameRead {
    /// The step after a frame's size was read: a frame of size zero is a
    /// keep-alive, carries no message and is skipped, so the next size is
    /// read; any other frame holds a message whose tag comes next.
    pub fn on_size(size: u32) -> (r: FrameRead)
        ensures
            size == 0 ==> r == FrameRead::Size,
            size != 0 ==> r == (FrameRead::Tag { size }),
    {
        if size == 0 {
            FrameRead::Size
        } else {
            FrameRead::Tag { size }
        }
    }
}

impl MessageTag {
    /// The kind of message a tag byte names.
    pub fn from_byte(value: u8) -> (r: Option<MessageTag>)
        ensures
            r == tag_of_byte(value),
    {
        match value {
            1 => Some(MessageTag::Unchoke),
            2 => Some(MessageTag::Interested),
            5 => Some(MessageTag::Bitfield),
            6 => Some(MessageTag::Request),
            7 => Some(MessageTag::Piece),
            _ => None,
        }
    }

    /// The tag byte of this kind of message.
    pub fn to_byte(&self) -> (r: u8)
        ensures
            r == tag_byte(*self),
    {
        match self {
            MessageTag::Unchoke => 1,
            MessageTag::Interested => 2,
            MessageTag::Bitfield => 5,
            MessageTag::Request => 6,
            MessageTag::Piece => 7,
        }
    }
}

/// The payload of a message: its tag byte, then its fields, integers
/// big-endian.
pub open spec fn message_payload(m: PeerMessageView) -> Seq<u8> {
    match m {
        PeerMessageView::Unchoke => seq![1u8],
        PeerMessageView::Interested => seq![2u8],
        PeerMessageView::Bitfield(b) => seq![5u8] + b,
        PeerMessageView::Request { index, begin, length } => seq![6u8] + be_u32_bytes(index)
            + be_u32_bytes(begin) + be_u32_bytes(length),
        PeerMessageView::Piece { index, begin, block } => seq![7u8] + be_u32_bytes(index)
            + be_u32_bytes(begin) + block,
    }
}

/// A message as sent: the payload's length as a big-endian `u32`, then
/// the payload.
pub open spec fn message_frame(m: PeerMessageView) -> Seq<u8> {
    be_u32_bytes(message_payload(m).len() as u32) + message_payload(m)
}

/// How many bytes follow the tag byte of a message of this kind whose
/// announced size is `size`.
pub open spec fn body_len(tag: MessageTag, size: u32) -> int {
    match tag {
        MessageTag::Unchoke => 0,
        MessageTag::Interested => 0,
        MessageTag::Bitfield => size - 1,
        MessageTag::Request => 12,
        MessageTag::Piece => size - 1,
    }
}

/// A body long enough for a message of this kind.
pub open spec fn body_fits(tag: MessageTag, len: int) -> bool {
    match tag {
        MessageTag::Request => len >= 12,
        MessageTag::Piece => len >= 8,
        _ => true,
    }
}

/// The message of this kind whose body (the bytes after the tag) is `body`.
pub open spec fn message_from_body(tag: MessageTag, body: Seq<u8>) -> PeerMessageView {
    match tag {
        MessageTag::Unchoke => PeerMessageView::Unchoke,
        MessageTag::Interested => PeerMessageView::Interested,
        MessageTag::Bitfield => PeerMessageView::Bitfield(body),
        MessageTag::Request => PeerMessageView::Request {
            index: be_u32_value(body[0], body[1], body[2], body[3]),
            begin: be_u32_value(body[4], body[5], body[6], body[7]),
            length: be_u32_value(body[8], body[9], body[10], body[11]),
        },
        MessageTag::Piece => PeerMessageView::Piece {
            index: be_u32_value(body[0], body[1], body[2], body[3]),
            begin: be_u32_value(body[4], body[5], body[6], body[7]),
            block: body.subrange(8, body.len() as int),
        },
    }
}

impl PeerMessage {
    /// The payload: the tag byte and the fields.
    pub fn payload(&self) -> (r: Vec<u8>)
        ensures
            r@ == message_payload(self@),
    {
        let mut buffer: Vec<u8> = Vec::new();
        match self {
            PeerMessage::Unchoke => {
                buffer.push(1);
            },
            PeerMessage::Interested => {
                buffer.push(2);
            },
            PeerMessage::Bitfield(bitfield) => {
                buffer.push(5);
                buffer.extend_from_slice(bitfield.as_slice());
            },
            PeerMessage::Request { index, begin, length } => {
                buffer.push(6);
                push_be_u32(&mut buffer, *index);
                push_be_u32(&mut buffer, *begin);
                push_be_u32(&mut buffer, *length);
            },
            PeerMessage::Piece { index, begin, block } => {
                buffer.push(7);
                push_be_u32(&mut buffer, *index);
                push_be_u32(&mut buffer, *begin);
                let ghost head = buffer@;
                buffer.extend_from_slice(block.as_slice());
                assert(buffer@ =~= head + block@);
            },
        }
        assert(buffer@ =~= message_payload(self@));
        buffer
    }

    /// The bytes sent for the message: the payload's length, truncated to a
    /// `u32`, big-endian, then the payload.
    pub fn to_frame(&self) -> (r: Vec<u8>)
        ensures
            r@ == message_frame(self@),
    {
        let payload = self.payload();
        let mut frame: Vec<u8> = Vec::new();
        #[verifier::truncate]
        let size = payload.len() as u32;
        push_be_u32(&mut frame, size);
        let ghost head = frame@;
        frame.extend_from_slice(payload.as_slice());
        assert(frame@ =~= head + payload@);
        frame
    }

    /// How many bytes to read after the tag byte of a message of this kind
    /// whose announced size is `message_size`.
    pub fn body_len(tag: MessageTag, message_size: u32) -> (r: usize)
        requires
            message_size >= 1,
            tag == MessageTag::Piece ==> message_size >= 9,
        ensures
            r == body_len(tag, message_size),
    {
        match tag {
            MessageTag::Unchoke => 0,
            MessageTag::Interested => 0,
            MessageTag::Bitfield => (message_size - 1) as usize,
            MessageTag::Request => 12,
            MessageTag::Piece => 8 + (message_size - 9) as usize,
        }
    }

    /// The message of this kind whose body (the bytes after the tag) is
    /// `body`.
    pub fn from_body(tag: MessageTag, body: &[u8]) -> (r: PeerMessage)
        requires
            body_fits(tag, body@.len() as int),
        ensures
            r@ == message_from_body(tag, body@),
    {
        match tag {
            MessageTag::Unchoke => PeerMessage::Unchoke,
            MessageTag::Interested => PeerMessage::Interested,
            MessageTag::Bitfield => {
                let v = copy_range(body, 0, body.len());
                assert(v@ =~= body@);
                PeerMessage::Bitfield(v)
            },
            MessageTag::Request => PeerMessage::Request {
                index: read_be_u32(body, 0),
                begin: read_be_u32(body, 4),
                length: read_be_u32(body, 8),
            },
            MessageTag::Piece => {
                let index = read_be_u32(body, 0);
                let begin = read_be_u32(body, 4);
                let block = copy_range(body, 8, body.len());
                PeerMessage::Piece { index, begin, block }
            },
        }
    }
}

/// Reading a sent message back, as the receiving side does, gives the
/// message: the announced size is the payload's length and is not zero, the
/// tag byte names the message's kind, the body has the length that the kind
/// and size call for, and the body decodes to the message.
pub proof fn lemma_message_roundtrip(m: PeerMessageView)
    requires
        message_payload(m).len() <= u32::MAX,
    ensures
        ({
            let frame = message_frame(m);
            let size = be_u32_value(frame[0], frame[1], frame[2], frame[3]);
            let tag = tag_of(m);
            &&& frame.len() >= 5
            &&& size as int == frame.len() - 4
            &&& size >= 1
            &&& tag_of_byte(frame[4]) == Some(tag)
            &&& (tag == MessageTag::Piece ==> size >= 9)
            &&& body_len(tag, size) == frame.len() - 5
            &&& body_fits(tag, frame.len() - 5)
            &&& message_from_body(tag, frame.subrange(5, frame.len() as int)) == m
        }),
{
    let payload = message_payload(m);
    let frame = message_frame(m);
    let n = payload.len() as u32;
    assert(n as int == payload.len());
    lemma_be_u32_roundtrip(n);
    assert(frame[0] == be_u32_bytes(n)[0]);
    assert(frame[1] == be_u32_bytes(n)[1]);
    assert(frame[2] == be_u32_bytes(n)[2]);
    assert(frame[3] == be_u32_bytes(n)[3]);
    assert(frame[4] == payload[0]);
    let body = frame.subrange(5, frame.len() as int);
    assert(body =~= payload.subrange(1, payload.len() as int));
    match m {
        PeerMessageView::Request { index, begin, length } => {
            lemma_be_u32_roundtrip(index);
            lemma_be_u32_roundtrip(begin);
            lemma_be_u32_roundtrip(length);
            assert(body =~= be_u32_bytes(index) + be_u32_bytes(begin) + be_u32_bytes(length));
        },
        PeerMessageView::Piece { index, begin, block } => {
            lemma_be_u32_roundtrip(index);
            lemma_be_u32_roundtrip(begin);
            assert(body =~= be_u32_bytes(index) + be_u32_bytes(begin) + block);
            assert(body.subrange(8, body.len() as int) =~= block);
        },
        PeerMessageView::Bitfield(b) => {
            assert(body =~= b);
        },
        _ => {},
    }
}

} // verus!
