//! The simpler client's torrent, handshake and messages.

use vstd::prelude::*;
use crate::bt::torrent::{handshake_bytes, meta_fields, read_torrent_meta, torrent_fields, TorrentMeta};
use crate::codec::copy_range;
use crate::text::{form_urlencode, hex_encode, hex_lower, urlencode};

verus! {

/// A torrent with its info hash, both as bytes and form-urlencoded.
#[derive(Debug)]
pub struct Torrent {
    pub torrent: TorrentMeta,
    pub info_hash: String,
    pub info_hash_bytes: [u8; 20],
}

impl Torrent {
    /// The torrent of metadata whose info hash is twenty bytes.
    pub fn from_meta(torrent: TorrentMeta) -> (r: Self)
        requires
            torrent.info_hash_bytes@.len() == 20,
        ensures
            r.info_hash@ == urlencode(torrent.info_hash_bytes@),
            r.info_hash_bytes@ == torrent.info_hash_bytes@,
            r.torrent == torrent,
    {
        let info_hash = form_urlencode(torrent.info_hash_bytes.as_slice());
        let mut info_hash_bytes: [u8; 20] = [0u8; 20];
        let mut i: usize = 0;
        while i < 20
            invariant
                i <= 20,
                torrent.info_hash_bytes@.len() == 20,
                forall|j: int| 0 <= j < i ==> info_hash_bytes@[j] == torrent.info_hash_bytes@[j],
            decreases 20 - i,
        {
            info_hash_bytes[i] = torrent.info_hash_bytes[i];
            i = i + 1;
        }
        assert(info_hash_bytes@ =~= torrent.info_hash_bytes@);
        Torrent { torrent, info_hash, info_hash_bytes }
    }

    /// The torrent read from the bytes of a `.torrent` file, `None` where
    /// they are not one.
    pub fn from_bytes(bytes: &[u8]) -> (r: Option<Self>)
        ensures
            r is Some <==> torrent_fields(bytes@) is Some,
            r matches Some(t) ==> {
                &&& torrent_fields(bytes@) == Some(meta_fields(t.torrent))
                &&& t.info_hash@ == urlencode(t.torrent.info_hash_bytes@)
                &&& t.info_hash_bytes@ == t.torrent.info_hash_bytes@
            },
    {
        match read_torrent_meta(bytes) {
            Some(meta) => Some(Self::from_meta(meta)),
            None => None,
        }
    }
}

/// The peer id this client always uses.
pub open spec fn fixed_peer_id() -> Seq<u8> {
    seq![0u8, 0u8, 1u8, 1u8, 2u8, 2u8, 3u8, 3u8, 4u8, 4u8, 5u8, 5u8, 6u8, 6u8, 7u8, 7u8, 8u8, 8u8, 9u8, 9u8]
}

/// The handshake: the bytes sent and, once the reply was read over them, the
/// reply.
#[derive(Debug)]
pub struct HandshakeMessage {
    pub peer_id: [u8; 20],
    pub info_hash_bytes: [u8; 20],
    pub buffer: Vec<u8>,
}

impl HandshakeMessage {
    pub fn new(info_hash_bytes: [u8; 20]) -> (r: Self)
        ensures
            r.peer_id@ == fixed_peer_id(),
            r.info_hash_bytes == info_hash_bytes,
            r.buffer@.len() == 0,
    {
        let peer_id: [u8; 20] = [0, 0, 1, 1, 2, 2, 3, 3, 4, 4, 5, 5, 6, 6, 7, 7, 8, 8, 9, 9];
        assert(peer_id@ =~= fixed_peer_id());
        HandshakeMessage { peer_id, info_hash_bytes, buffer: Vec::new() }
    }

    /// Appends the handshake to the buffer.
    pub fn fill_buffer(&mut self)
        ensures
            final(self).peer_id == old(self).peer_id,
            final(self).info_hash_bytes == old(self).info_hash_bytes,
            final(self).buffer@ == old(self).buffer@ + handshake_bytes(
                old(self).peer_id@,
                old(self).info_hash_bytes@,
            ),
    {
        let message = crate::bt::torrent::HandshakeMessage::from_parts(self.peer_id, self.info_hash_bytes);
        let bytes = message.to_bytes();
        let ghost head = self.buffer@;
        self.buffer.extend_from_slice(bytes.as_slice());
        assert(self.buffer@ =~= head + bytes@);
    }

    /// The peer id of the 68-byte reply in the buffer, in lowercase hex.
    pub fn peer_id_hex(&self) -> (r: String)
        requires
            self.buffer@.len() == 68,
        ensures
            r@ == hex_lower(self.buffer@.subrange(48, 68)),
    {
        let id = copy_range(self.buffer.as_slice(), 48, 68);
        hex_encode(id.as_slice())
    }
}

/// A peer wire message; the client can send only `Interested` and read
/// only `Unchoke` and `Bitfield`.
#[derive(Debug)]
pub enum PeerMessage {
    Choke,
    Unchoke,
    Interested,
    NotInterested,
    Have,
    Bitfield(Vec<u8>),
    Request,
    Piece,
    Cancel,
}

/// Why a received message could not be read.
#[derive(Debug, Clone, Copy, PartialEq, Eq)]
pub enum PeerMessageError {
    /// The tag byte names a message the client does not read.
    UnexpectedTag,
}

impl PeerMessage {
    /// The bytes sent for `Interested`: length 1, tag 2.
    pub fn to_frame(&self) -> (r: Vec<u8>)
        requires
            *self is Interested,
        ensures
            r@ == seq![0u8, 0u8, 0u8, 1u8, 2u8],
    {
        let mut frame: Vec<u8> = Vec::new();
        frame.push(0);
        frame.push(0);
        frame.push(0);
        frame.push(1);
        frame.push(2);
        assert(frame@ =~= seq![0u8, 0u8, 0u8, 1u8, 2u8]);
        frame
    }

    /// How many bytes follow the tag byte of a message whose announced size
    /// is `message_size`, if the tag names a message the client reads.
    pub fn body_len(tag: u8, message_size: u32) -> (r: Result<usize, PeerMessageError>)
        requires
            message_size >= 1,
        ensures
            tag == 1 ==> r == Ok::<usize, PeerMessageError>(0),
            tag == 5 ==> r == Ok::<usize, PeerMessageError>((message_size - 1) as usize),
            tag != 1 && tag != 5 ==> r == Err::<usize, PeerMessageError>(PeerMessageError::UnexpectedTag),
    {
        if tag == 1 {
            Ok(0)
        } else if tag == 5 {
            Ok((message_size - 1) as usize)
        } else {
            Err(PeerMessageError::UnexpectedTag)
        }
    }

    /// The message with tag `tag` and body `body`, if the client reads it.
    pub fn from_body(tag: u8, body: &[u8]) -> (r: Result<PeerMessage, PeerMessageError>)
        ensures
            tag == 1 ==> r matches Ok(PeerMessage::Unchoke),
            tag == 5 ==> (r matches Ok(PeerMessage::Bitfield(b)) && b@ == body@),
            tag != 1 && tag != 5 ==> r == Err::<PeerMessage, PeerMessageError>(PeerMessageError::UnexpectedTag),
    {
        if tag == 1 {
            Ok(PeerMessage::Unchoke)
        } else if tag == 5 {
            let b = copy_range(body, 0, body.len());
            assert(b@ =~= body@);
            Ok(PeerMessage::Bitfield(b))
        } else {
            Err(PeerMessageError::UnexpectedTag)
        }
    }
}

} // verus!
