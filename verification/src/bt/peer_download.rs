//! Downloading a torrent: splitting it into pieces, fetching a piece block by
//! block, checking its SHA-1 hash, and putting the pieces together.

use vstd::prelude::*;
use sha1::{Digest, Sha1};
use crate::bt::torrent::{is_valid_peer_id, PeerId, PeerMessage, PeerMessageView};
use crate::codec::copy_range;
use crate::text::{hex_encode, hex_lower};

verus! {

/// The largest block asked of a peer at once.
pub const BLOCK_MAX_SIZE: u32 = 16384;

/// The SHA-1 digest of a byte string.
pub uninterp spec fn sha1_digest(data: Seq<u8>) -> Seq<u8>;

/// `Sha1::digest` of the `sha1` crate. Its contract names the result: the
/// SHA-1 digest of the data, twenty bytes.
#[verifier::external_body]
fn sha1(data: &[u8]) -> (r: [u8; 20])
    ensures
        r@ == sha1_digest(data@),
{
    Sha1::digest(data).into()
}

/// Whether two byte strings are equal.
fn bytes_equal(a: &[u8], b: &[u8]) -> (r: bool)
    ensures
        r == (a@ == b@),
{
    if a.len() != b.len() {
        return false;
    }
    let mut i: usize = 0;
    while i < a.len()
        invariant
            a@.len() == b@.len(),
            i <= a@.len(),
            forall|j: int| 0 <= j < i ==> a@[j] == b@[j],
        decreases a@.len() - i,
    {
        if a[i] != b[i] {
            return false;
        }
        i = i + 1;
    }
    assert(a@ =~= b@);
    true
}

/// What the downloader knows of the torrent.
#[derive(Debug)]
pub struct TorrentFileMetadata {
    pub length: i64,
    pub pieces: Vec<Vec<u8>>,
    pub info_hash: String,
    pub info_hash_bytes: [u8; 20],
    pub piece_length: i64,
}

impl TorrentFileMetadata {
    pub fn new(
        length: i64,
        pieces: Vec<Vec<u8>>,
        info_hash: String,
        info_hash_bytes: [u8; 20],
        piece_length: i64,
    ) -> (r: Self)
        ensures
            r.length == length,
            r.pieces == pieces,
            r.info_hash == info_hash,
            r.info_hash_bytes == info_hash_bytes,
            r.piece_length == piece_length,
    {
        TorrentFileMetadata { length, pieces, info_hash, info_hash_bytes, piece_length }
    }
}

/// The size of piece `index`: the piece size, or what is left of the file
/// after the earlier pieces if that is less.
pub open spec fn piece_size(length: i64, piece_length: i64, index: int) -> int {
    let left = length - piece_length * index;
    if piece_length <= left {
        piece_length as int
    } else {
        left
    }
}

/// The sizes of the pieces before `index`, and what is left of the file
/// after them, fit in an `i64`.
pub open spec fn piece_arith_fits(length: i64, piece_length: i64, index: int) -> bool {
    &&& i64::MIN <= piece_length * index <= i64::MAX
    &&& i64::MIN <= length - piece_length * index <= i64::MAX
}

/// The total size of the first `k` pieces.
pub open spec fn pieces_total(length: i64, piece_length: i64, k: nat) -> int
    decreases k,
{
    if k == 0 {
        0
    } else {
        pieces_total(length, piece_length, (k - 1) as nat) + piece_size(
            length,
            piece_length,
            k - 1,
        )
    }
}

proof fn lemma_full_pieces(length: i64, piece_length: i64, n: nat, k: nat)
    requires
        piece_length > 0,
        n >= 1,
        k <= n - 1,
        piece_length * (n - 1) < length,
    ensures
        pieces_total(length, piece_length, k) == piece_length * k,
        forall|i: int| 0 <= i < k ==> #[trigger] piece_size(length, piece_length, i) == piece_length,
    decreases k,
{
    if k > 0 {
        lemma_full_pieces(length, piece_length, n, (k - 1) as nat);
        let i = k - 1;
        assert(piece_length * i + piece_length <= piece_length * (n - 1)) by (nonlinear_arith)
            requires
                piece_length > 0,
                i + 1 <= n - 1,
        ;
        assert(piece_length * k == piece_length * i + piece_length) by (nonlinear_arith)
            requires
                k == i + 1,
        ;
    }
}

/// When the torrent has as many pieces as its size divided by the piece size,
/// rounded up, the pieces cover the file exactly: every piece but the last
/// has the piece size, the last has what is left, and together they have the
/// file's size.
pub proof fn lemma_pieces_cover_file(length: i64, piece_length: i64, n: nat)
    requires
        piece_length > 0,
        n >= 1,
        piece_length * (n - 1) < length <= piece_length * n,
    ensures
        pieces_total(length, piece_length, n) == length,
        forall|i: int|
            0 <= i < n - 1 ==> #[trigger] piece_size(length, piece_length, i) == piece_length,
        0 < piece_size(length, piece_length, n - 1) <= piece_length,
{
    lemma_full_pieces(length, piece_length, n, (n - 1) as nat);
    assert(piece_length * n == piece_length * (n - 1) + piece_length) by (nonlinear_arith);
}

/// A piece to fetch: its index, its size and its expected SHA-1 hash.
#[derive(Debug)]
pub struct PieceRequest {
    pub piece_index: i64,
    pub piece_length: u32,
    pub piece_hash: Vec<u8>,
}

impl PieceRequest {
    /// The request for piece `piece_index`; its size is truncated to a `u32`.
    pub fn new(torrent_metadata: &TorrentFileMetadata, piece_index: i64) -> (r: Self)
        requires
            0 <= piece_index < torrent_metadata.pieces@.len(),
            piece_arith_fits(
                torrent_metadata.length,
                torrent_metadata.piece_length,
                piece_index as int,
            ),
        ensures
            r.piece_index == piece_index,
            r.piece_length == piece_size(
                torrent_metadata.length,
                torrent_metadata.piece_length,
                piece_index as int,
            ) as u32,
            r.piece_hash@ == torrent_metadata.pieces@[piece_index as int]@,
    {
        let left = torrent_metadata.length - torrent_metadata.piece_length * piece_index;
        let size = if torrent_metadata.piece_length <= left {
            torrent_metadata.piece_length
        } else {
            left
        };
        #[verifier::truncate]
        let piece_length = size as u32;
        let n = torrent_metadata.pieces.len();
        let idx = piece_index as usize;
        assert(idx as int == piece_index as int);
        let hash = &torrent_metadata.pieces[idx];
        let piece_hash = copy_range(hash.as_slice(), 0, hash.len());
        assert(hash@.subrange(0, hash@.len() as int) =~= hash@);
        assert(piece_hash@ =~= torrent_metadata.pieces@[piece_index as int]@);
        PieceRequest { piece_index, piece_length, piece_hash }
    }
}

/// A download of one torrent into `output_path`.
pub struct PeerDownload {
    pub peer_id: PeerId,
    pub output_path: String,
    pub torrent_metadata: TorrentFileMetadata,
}

impl PeerDownload {
    pub fn new(output_path: &str, torrent_metadata: TorrentFileMetadata) -> (r: Self)
        ensures
            is_valid_peer_id(r.peer_id@),
            r.output_path@ == output_path@,
            r.torrent_metadata == torrent_metadata,
    {
        PeerDownload { peer_id: PeerId::new(), output_path: output_path.to_owned(), torrent_metadata }
    }

    /// The piece sizes can all be worked out in `i64` arithmetic.
    pub open spec fn pieces_fit(&self) -> bool {
        &&& self.torrent_metadata.pieces@.len() <= i64::MAX
        &&& forall|i: int|
            0 <= i < self.torrent_metadata.pieces@.len() ==> #[trigger] piece_arith_fits(
                self.torrent_metadata.length,
                self.torrent_metadata.piece_length,
                i,
            )
    }

    /// One request per piece, in order of index, if the piece sizes can all
    /// be worked out in `i64` arithmetic.
    pub fn try_piece_requests(&self) -> (r: Option<Vec<PieceRequest>>)
        ensures
            r is Some <==> self.pieces_fit(),
            r matches Some(v) ==> v@.len() == self.torrent_metadata.pieces@.len() && forall|i: int|
                0 <= i < v@.len() ==> {
                    &&& (#[trigger] v@[i]).piece_index == i
                    &&& v@[i].piece_length == piece_size(
                        self.torrent_metadata.length,
                        self.torrent_metadata.piece_length,
                        i,
                    ) as u32
                    &&& v@[i].piece_hash@ == self.torrent_metadata.pieces@[i]@
                },
    {
        let n = self.torrent_metadata.pieces.len();
        if n as u64 > 9223372036854775807u64 {
            return None;
        }
        let length = self.torrent_metadata.length;
        let piece_length = self.torrent_metadata.piece_length;
        let mut i: usize = 0;
        while i < n
            invariant
                n == self.torrent_metadata.pieces@.len(),
                n <= i64::MAX,
                i <= n,
                length == self.torrent_metadata.length,
                piece_length == self.torrent_metadata.piece_length,
                forall|j: int| 0 <= j < i ==> #[trigger] piece_arith_fits(length, piece_length, j),
            decreases n - i,
        {
            match piece_length.checked_mul(i as i64) {
                Some(start) => match length.checked_sub(start) {
                    Some(_) => {},
                    None => {
                        assert(!piece_arith_fits(length, piece_length, i as int));
                        return None;
                    },
                },
                None => {
                    assert(!piece_arith_fits(length, piece_length, i as int));
                    return None;
                },
            }
            i = i + 1;
        }
        Some(self.piece_requests())
    }

    /// One request per piece, in order of index.
    pub fn piece_requests(&self) -> (r: Vec<PieceRequest>)
        requires
            self.torrent_metadata.pieces@.len() <= i64::MAX,
            forall|i: int|
                0 <= i < self.torrent_metadata.pieces@.len() ==> #[trigger] piece_arith_fits(
                    self.torrent_metadata.length,
                    self.torrent_metadata.piece_length,
                    i,
                ),
        ensures
            r@.len() == self.torrent_metadata.pieces@.len(),
            forall|i: int|
                0 <= i < r@.len() ==> {
                    &&& (#[trigger] r@[i]).piece_index == i
                    &&& r@[i].piece_length == piece_size(
                        self.torrent_metadata.length,
                        self.torrent_metadata.piece_length,
                        i,
                    ) as u32
                    &&& r@[i].piece_hash@ == self.torrent_metadata.pieces@[i]@
                },
    {
        let mut requests: Vec<PieceRequest> = Vec::new();
        let n = self.torrent_metadata.pieces.len();
        let mut i: usize = 0;
        while i < n
            invariant
                n == self.torrent_metadata.pieces@.len(),
                n <= i64::MAX,
                i <= n,
                requests@.len() == i,
                forall|j: int|
                    0 <= j < n ==> #[trigger] piece_arith_fits(
                        self.torrent_metadata.length,
                        self.torrent_metadata.piece_length,
                        j,
                    ),
                forall|j: int|
                    0 <= j < i ==> {
                        &&& (#[trigger] requests@[j]).piece_index == j
                        &&& requests@[j].piece_length == piece_size(
                            self.torrent_metadata.length,
                            self.torrent_metadata.piece_length,
                            j,
                        ) as u32
                        &&& requests@[j].piece_hash@ == self.torrent_metadata.pieces@[j]@
                    },
            decreases n - i,
        {
            assert(piece_arith_fits(
                self.torrent_metadata.length,
                self.torrent_metadata.piece_length,
                i as int,
            ));
            let request = PieceRequest::new(&self.torrent_metadata, i as i64);
            requests.push(request);
            i = i + 1;
        }
        requests
    }
}

/// Why a piece could not be had.
#[derive(Debug, Clone, PartialEq, Eq)]
pub enum DownloadError {
    /// The peer answered a request with something else than a piece.
    ExpectedPiece,
    /// The peer's first message after the handshake was not its bitfield.
    ExpectedBitfield,
    /// The peer did not unchoke the client after it said it was interested.
    ExpectedUnchoke,
    /// The piece's SHA-1 hash is not the one the torrent gives.
    HashMismatch { index: i64, expected: String, got: String },
}

/// The block sizes in which `remain` bytes are asked for, in order.
pub open spec fn block_sizes(remain: nat) -> Seq<nat>
    decreases remain,
{
    if remain == 0 {
        Seq::empty()
    } else if remain <= BLOCK_MAX_SIZE {
        seq![remain]
    } else {
        seq![BLOCK_MAX_SIZE as nat] + block_sizes((remain - BLOCK_MAX_SIZE) as nat)
    }
}

/// The sum of a list of sizes.
pub open spec fn total(sizes: Seq<nat>) -> nat
    decreases sizes.len(),
{
    if sizes.len() == 0 {
        0
    } else {
        sizes[0] + total(sizes.drop_first())
    }
}

/// A piece is asked for in blocks of at most `BLOCK_MAX_SIZE` bytes, all but
/// the last of exactly that size, that together cover it: as many blocks as
/// the piece size divided by `BLOCK_MAX_SIZE`, rounded up.
pub proof fn lemma_blocks_cover(remain: nat)
    ensures
        total(block_sizes(remain)) == remain,
        block_sizes(remain).len() == (remain + BLOCK_MAX_SIZE - 1) / (BLOCK_MAX_SIZE as int),
        forall|i: int|
            0 <= i < block_sizes(remain).len() ==> 0 < #[trigger] block_sizes(remain)[i]
                <= BLOCK_MAX_SIZE,
        forall|i: int|
            0 <= i < block_sizes(remain).len() - 1 ==> #[trigger] block_sizes(remain)[i]
                == BLOCK_MAX_SIZE,
    decreases remain,
{
    if remain > BLOCK_MAX_SIZE {
        let rest = (remain - BLOCK_MAX_SIZE) as nat;
        lemma_blocks_cover(rest);
        let s = block_sizes(remain);
        assert(s.drop_first() =~= block_sizes(rest));
        assert(total(s) == s[0] + total(s.drop_first()));
        assert((rest + BLOCK_MAX_SIZE - 1) / (BLOCK_MAX_SIZE as int) + 1 == (remain
            + BLOCK_MAX_SIZE - 1) / (BLOCK_MAX_SIZE as int));
        assert forall|i: int| 0 <= i < s.len() implies 0 < #[trigger] s[i] <= BLOCK_MAX_SIZE by {
            if i > 0 {
                assert(s[i] == block_sizes(rest)[i - 1]);
            }
        }
        assert forall|i: int| 0 <= i < s.len() - 1 implies #[trigger] s[i] == BLOCK_MAX_SIZE by {
            if i > 0 {
                assert(s[i] == block_sizes(rest)[i - 1]);
            }
        }
    } else if remain > 0 {
        assert(block_sizes(remain) =~= seq![remain]);
        assert(block_sizes(remain).drop_first() =~= Seq::<nat>::empty());
        assert(total(Seq::<nat>::empty()) == 0);
        assert(total(block_sizes(remain)) == remain + total(block_sizes(remain).drop_first()));
    }
}

/// A piece being fetched block by block from one peer.
#[derive(Debug)]
pub struct PieceDownload {
    pub piece_index: i64,
    pub piece_length: u32,
    pub piece_hash: Vec<u8>,
    pub piece: Vec<u8>,
    pub begin_offset: u32,
    pub remain: u32,
}

impl PieceDownload {
    /// The offsets add up: what was asked for and what is left make the piece.
    pub open spec fn wf(&self) -> bool {
        self.begin_offset + self.remain == self.piece_length
    }

    /// What a reply must satisfy to be taken into the piece: a piece block
    /// for this piece, at the offset asked for, that can be placed there.
    pub open spec fn acceptable(&self, reply: PeerMessageView) -> bool {
        reply matches PeerMessageView::Piece { index, begin, block } ==> {
            &&& index == self.piece_index as u32
            &&& begin == self.begin_offset
            &&& begin <= self.piece@.len()
        }
    }

    /// Whether a reply can be taken into the piece.
    pub fn is_acceptable(&self, reply: &PeerMessage) -> (r: bool)
        ensures
            r == self.acceptable(reply@),
    {
        match reply {
            PeerMessage::Piece { index, begin, .. } => {
                #[verifier::truncate]
                let expected = self.piece_index as u32;
                *index == expected && *begin == self.begin_offset && (*begin as usize)
                    <= self.piece.len()
            },
            _ => true,
        }
    }

    /// A download of the requested piece, nothing fetched yet.
    pub fn start(request: PieceRequest) -> (r: Self)
        ensures
            r.wf(),
            r.piece_index == request.piece_index,
            r.piece_length == request.piece_length,
            r.piece_hash == request.piece_hash,
            r.piece@.len() == 0,
            r.begin_offset == 0,
            r.remain == request.piece_length,
    {
        PieceDownload {
            piece_index: request.piece_index,
            piece_length: request.piece_length,
            piece_hash: request.piece_hash,
            piece: Vec::new(),
            begin_offset: 0,
            remain: request.piece_length,
        }
    }

    /// The size of the next block: `BLOCK_MAX_SIZE`, or what is left if less.
    pub open spec fn next_block_size(&self) -> u32 {
        if BLOCK_MAX_SIZE <= self.remain {
            BLOCK_MAX_SIZE
        } else {
            self.remain
        }
    }

    /// The next request to send, or `None` once the whole piece was asked for.
    pub fn next_request(&self) -> (r: Option<PeerMessage>)
        ensures
            self.remain == 0 ==> r is None,
            self.remain != 0 ==> (r matches Some(m) && m@ == (PeerMessageView::Request {
                index: self.piece_index as u32,
                begin: self.begin_offset,
                length: self.next_block_size(),
            })),
    {
        if self.remain == 0 {
            return None;
        }
        let block_size = if BLOCK_MAX_SIZE <= self.remain {
            BLOCK_MAX_SIZE
        } else {
            self.remain
        };
        #[verifier::truncate]
        let index = self.piece_index as u32;
        Some(PeerMessage::Request { index, begin: self.begin_offset, length: block_size })
    }

    /// Takes the peer's reply to the last request: a piece block is put in
    /// at its offset and the next block is asked for; any other message
    /// fails the download.
    pub fn accept(&mut self, reply: PeerMessage) -> (r: Result<(), DownloadError>)
        requires
            old(self).wf(),
            old(self).remain != 0,
            old(self).acceptable(reply@),
        ensures
            final(self).wf(),
            final(self).piece_index == old(self).piece_index,
            final(self).piece_length == old(self).piece_length,
            final(self).piece_hash == old(self).piece_hash,
            match reply@ {
                PeerMessageView::Piece { begin, block, .. } => {
                    &&& r is Ok
                    &&& final(self).piece@ == old(self).piece@.subrange(0, begin as int) + block
                        + old(self).piece@.subrange(begin as int, old(self).piece@.len() as int)
                    &&& final(self).begin_offset == old(self).begin_offset
                        + old(self).next_block_size()
                    &&& final(self).remain == old(self).remain - old(self).next_block_size()
                },
                _ => r == Err::<(), DownloadError>(DownloadError::ExpectedPiece) && *final(self)
                    == *old(self),
            },
    {
        match reply {
            PeerMessage::Piece { index, begin, block } => {
                let block_size = if BLOCK_MAX_SIZE <= self.remain {
                    BLOCK_MAX_SIZE
                } else {
                    self.remain
                };
                let at = begin as usize;
                let mut piece: Vec<u8> = Vec::new();
                let mut i: usize = 0;
                while i < at
                    invariant
                        at <= self.piece@.len(),
                        i <= at,
                        piece@ == self.piece@.subrange(0, i as int),
                    decreases at - i,
                {
                    piece.push(self.piece[i]);
                    assert(self.piece@.subrange(0, i + 1) =~= self.piece@.subrange(0, i as int)
                        + seq![self.piece@[i as int]]);
                    i = i + 1;
                }
                let ghost head = piece@;
                piece.extend_from_slice(block.as_slice());
                assert(piece@ =~= head + block@);
                let mut j: usize = at;
                let ghost mid = piece@;
                while j < self.piece.len()
                    invariant
                        at <= j <= self.piece@.len(),
                        piece@ == mid + self.piece@.subrange(at as int, j as int),
                    decreases self.piece@.len() - j,
                {
                    piece.push(self.piece[j]);
                    assert(self.piece@.subrange(at as int, j + 1) =~= self.piece@.subrange(
                        at as int,
                        j as int,
                    ) + seq![self.piece@[j as int]]);
                    j = j + 1;
                }
                self.piece = piece;
                self.begin_offset = self.begin_offset + block_size;
                self.remain = self.remain - block_size;
                Ok(())
            },
            _ => Err(DownloadError::ExpectedPiece),
        }
    }

    /// The finished piece, if its SHA-1 hash is the one the torrent gives.
    pub fn finish(self) -> (r: Result<Vec<u8>, DownloadError>)
        requires
            self.remain == 0,
        ensures
            sha1_digest(self.piece@) == self.piece_hash@ ==> (r matches Ok(p) && p@ == self.piece@),
            sha1_digest(self.piece@) != self.piece_hash@ ==> (r matches Err(
                DownloadError::HashMismatch { index, expected, got },
            ) && index == self.piece_index && expected@ == hex_lower(self.piece_hash@) && got@
                == hex_lower(sha1_digest(self.piece@))),
    {
        let current_hash = sha1(self.piece.as_slice());
        if !bytes_equal(self.piece_hash.as_slice(), &current_hash) {
            return Err(
                DownloadError::HashMismatch {
                    index: self.piece_index,
                    expected: hex_encode(self.piece_hash.as_slice()),
                    got: hex_encode(&current_hash),
                },
            );
        }
        Ok(self.piece)
    }
}

/// The pieces of a download, each kept under its index, until all are there.
#[derive(Debug)]
pub struct PieceCollector {
    slots: Vec<Option<Vec<u8>>>,
    received: usize,
}

/// The concatenation of a list of byte strings.
pub open spec fn concat(parts: Seq<Seq<u8>>) -> Seq<u8>
    decreases parts.len(),
{
    if parts.len() == 0 {
        Seq::empty()
    } else {
        concat(parts.drop_last()) + parts.last()
    }
}

/// A slot's bytes: the piece held there, or nothing.
pub open spec fn slot_bytes(slot: Option<Seq<u8>>) -> Seq<u8> {
    match slot {
        Some(p) => p,
        None => Seq::empty(),
    }
}

/// Every slot holds a piece.
pub open spec fn all_present(slots: Seq<Option<Seq<u8>>>) -> bool {
    forall|i: int| 0 <= i < slots.len() ==> (#[trigger] slots[i]) is Some
}

/// The number of slots that hold a piece.
pub open spec fn filled(slots: Seq<Option<Seq<u8>>>) -> nat
    decreases slots.len(),
{
    if slots.len() == 0 {
        0
    } else {
        filled(slots.drop_last()) + if slots.last() is Some {
            1nat
        } else {
            0nat
        }
    }
}

/// At most every slot is filled, and all of them exactly when each holds a
/// piece.
proof fn lemma_filled_bound(slots: Seq<Option<Seq<u8>>>)
    ensures
        filled(slots) <= slots.len(),
        filled(slots) == slots.len() <==> all_present(slots),
    decreases slots.len(),
{
    if slots.len() > 0 {
        let init = slots.drop_last();
        lemma_filled_bound(init);
        if filled(slots) == slots.len() {
            assert forall|i: int| 0 <= i < slots.len() implies (#[trigger] slots[i]) is Some by {
                if i < slots.len() - 1 {
                    assert(init[i] == slots[i]);
                }
            }
        }
        if all_present(slots) {
            assert forall|i: int| 0 <= i < init.len() implies (#[trigger] init[i]) is Some by {
                assert(slots[i] is Some);
            }
        }
    }
}

/// Filling one slot adds one to the count if it was empty.
proof fn lemma_filled_update(slots: Seq<Option<Seq<u8>>>, i: int, piece: Seq<u8>)
    requires
        0 <= i < slots.len(),
    ensures
        filled(slots.update(i, Some(piece))) == filled(slots) + if slots[i] is None {
            1nat
        } else {
            0nat
        },
    decreases slots.len(),
{
    let upd = slots.update(i, Some(piece));
    if i == slots.len() - 1 {
        assert(upd.drop_last() =~= slots.drop_last());
    } else {
        assert(upd.drop_last() =~= slots.drop_last().update(i, Some(piece)));
        lemma_filled_update(slots.drop_last(), i, piece);
    }
}

/// No slot of an empty collector is filled.
proof fn lemma_filled_empty(n: nat)
    ensures
        filled(Seq::new(n, |i: int| None::<Seq<u8>>)) == 0,
    decreases n,
{
    if n > 0 {
        let m = (n - 1) as nat;
        assert(Seq::new(n, |i: int| None::<Seq<u8>>).drop_last() =~= Seq::new(
            m,
            |i: int| None::<Seq<u8>>,
        ));
        lemma_filled_empty(m);
    }
}

/// Pieces stored under different indices give the same collection whichever
/// arrives first.
pub proof fn lemma_arrival_order_irrelevant(
    slots: Seq<Option<Seq<u8>>>,
    i: int,
    a: Seq<u8>,
    j: int,
    b: Seq<u8>,
)
    requires
        0 <= i < slots.len(),
        0 <= j < slots.len(),
        i != j,
    ensures
        slots.update(i, Some(a)).update(j, Some(b)) == slots.update(j, Some(b)).update(i, Some(a)),
{
    assert(slots.update(i, Some(a)).update(j, Some(b)) =~= slots.update(j, Some(b)).update(
        i,
        Some(a),
    ));
}

/// The slots after pieces arrive under the indices of `order`, one after
/// another: the `k`-th arrival stores piece `order[k]` of `pieces`.
pub open spec fn arrive(
    slots: Seq<Option<Seq<u8>>>,
    order: Seq<int>,
    pieces: Seq<Seq<u8>>,
) -> Seq<Option<Seq<u8>>>
    decreases order.len(),
{
    if order.len() == 0 {
        slots
    } else {
        arrive(slots, order.drop_last(), pieces).update(order.last(), Some(pieces[order.last()]))
    }
}

/// After a run of arrivals, a slot holds its own piece if its index arrived,
/// and what it held before otherwise.
proof fn lemma_arrive_slot(slots: Seq<Option<Seq<u8>>>, order: Seq<int>, pieces: Seq<Seq<u8>>)
    requires
        forall|k: int| 0 <= k < order.len() ==> 0 <= #[trigger] order[k] < slots.len(),
    ensures
        arrive(slots, order, pieces).len() == slots.len(),
        forall|i: int|
            0 <= i < slots.len() ==> #[trigger] arrive(slots, order, pieces)[i] == if order.contains(
                i,
            ) {
                Some(pieces[i])
            } else {
                slots[i]
            },
    decreases order.len(),
{
    if order.len() > 0 {
        let init = order.drop_last();
        assert forall|k: int| 0 <= k < init.len() implies 0 <= #[trigger] init[k] < slots.len() by {
            assert(init[k] == order[k]);
        }
        lemma_arrive_slot(slots, init, pieces);
        assert forall|i: int| 0 <= i < slots.len() implies #[trigger] arrive(
            slots,
            order,
            pieces,
        )[i] == if order.contains(i) {
            Some(pieces[i])
        } else {
            slots[i]
        } by {
            if i != order.last() {
                if order.contains(i) {
                    let k = choose|k: int| 0 <= k < order.len() && order[k] == i;
                    assert(init[k] == i);
                }
                if init.contains(i) {
                    let k = choose|k: int| 0 <= k < init.len() && init[k] == i;
                    assert(order[k] == i);
                }
            } else {
                assert(order[order.len() - 1] == i);
            }
        }
    }
}

/// However the pieces of a download arrive, once every index from the first
/// to the last has arrived, slot `i` holds piece `i` and the joined file is
/// the pieces in index order.
pub proof fn lemma_collected_in_index_order(order: Seq<int>, pieces: Seq<Seq<u8>>)
    requires
        forall|k: int| 0 <= k < order.len() ==> 0 <= #[trigger] order[k] < pieces.len(),
        forall|i: int| 0 <= i < pieces.len() ==> #[trigger] order.contains(i),
    ensures
        arrive(Seq::new(pieces.len(), |i: int| None::<Seq<u8>>), order, pieces) == Seq::new(
            pieces.len(),
            |i: int| Some(pieces[i]),
        ),
        concat(
            arrive(Seq::new(pieces.len(), |i: int| None::<Seq<u8>>), order, pieces).map_values(
                |s: Option<Seq<u8>>| slot_bytes(s),
            ),
        ) == concat(pieces),
{
    let empty = Seq::new(pieces.len(), |i: int| None::<Seq<u8>>);
    lemma_arrive_slot(empty, order, pieces);
    let full = arrive(empty, order, pieces);
    assert(full =~= Seq::new(pieces.len(), |i: int| Some(pieces[i])));
    assert(full.map_values(|s: Option<Seq<u8>>| slot_bytes(s)) =~= pieces);
}

impl View for PieceCollector {
    /// Slot `i` holds piece `i` once it arrived.
    type V = Seq<Option<Seq<u8>>>;

    closed spec fn view(&self) -> Seq<Option<Seq<u8>>> {
        Seq::new(
            self.slots@.len(),
            |i: int|
                match self.slots@[i] {
                    Some(p) => Some(p@),
                    None => None,
                },
        )
    }
}

impl PieceCollector {
    /// The count of received pieces matches the slots.
    pub closed spec fn wf(&self) -> bool {
        self.received == filled(self@)
    }

    /// A collector for `expected` pieces, none of them there yet.
    pub fn new(expected: usize) -> (r: Self)
        ensures
            r.wf(),
            r@ == Seq::new(expected as nat, |i: int| None::<Seq<u8>>),
    {
        let mut slots: Vec<Option<Vec<u8>>> = Vec::new();
        let mut i: usize = 0;
        while i < expected
            invariant
                i <= expected,
                slots@.len() == i,
                forall|k: int| 0 <= k < i ==> (#[trigger] slots@[k]) is None,
            decreases expected - i,
        {
            slots.push(None);
            i = i + 1;
        }
        let r = PieceCollector { slots, received: 0 };
        assert(r@ =~= Seq::new(expected as nat, |i: int| None::<Seq<u8>>));
        proof {
            lemma_filled_empty(expected as nat);
        }
        r
    }

    /// The number of pieces the download has.
    pub fn expected(&self) -> (r: usize)
        ensures
            r == self@.len(),
    {
        self.slots.len()
    }

    /// Whether every piece has arrived.
    pub fn is_complete(&self) -> (r: bool)
        requires
            self.wf(),
        ensures
            r == all_present(self@),
    {
        proof {
            lemma_filled_bound(self@);
        }
        self.received == self.slots.len()
    }

    /// Stores piece `index`, replacing one stored there before; an index
    /// past the last piece is ignored. True once every piece has arrived.
    pub fn add(&mut self, index: usize, piece: Vec<u8>) -> (done: bool)
        requires
            old(self).wf(),
        ensures
            final(self).wf(),
            index < old(self)@.len() ==> final(self)@ == old(self)@.update(
                index as int,
                Some(piece@),
            ),
            index >= old(self)@.len() ==> final(self)@ == old(self)@,
            done == all_present(final(self)@),
    {
        proof {
            lemma_filled_bound(self@);
        }
        if index < self.slots.len() {
            let ghost before = self@;
            let was_empty = self.slots[index].is_none();
            proof {
                lemma_filled_update(before, index as int, piece@);
                lemma_filled_bound(before.update(index as int, Some(piece@)));
            }
            self.slots[index] = Some(piece);
            assert(self@ =~= before.update(index as int, Some(piece@)));
            if was_empty {
                self.received = self.received + 1;
            }
        }
        proof {
            lemma_filled_bound(self@);
        }
        self.received == self.slots.len()
    }

    /// The stored pieces joined in index order, whatever order they arrived
    /// in; once all are there, piece 0 through the last piece.
    pub fn into_bytes(self) -> (r: Vec<u8>)
        ensures
            r@ == concat(self@.map_values(|s: Option<Seq<u8>>| slot_bytes(s))),
            all_present(self@) ==> r@ == concat(
                Seq::new(self@.len(), |i: int| self@[i]->0),
            ),
    {
        let ghost parts = self@.map_values(|s: Option<Seq<u8>>| slot_bytes(s));
        let mut out: Vec<u8> = Vec::new();
        let mut i: usize = 0;
        while i < self.slots.len()
            invariant
                i <= self.slots@.len(),
                parts == self@.map_values(|s: Option<Seq<u8>>| slot_bytes(s)),
                self@.len() == self.slots@.len(),
                out@ == concat(parts.take(i as int)),
            decreases self.slots@.len() - i,
        {
            let ghost before = out@;
            match &self.slots[i] {
                Some(p) => {
                    out.extend_from_slice(p.as_slice());
                },
                None => {},
            }
            assert(out@ =~= before + parts[i as int]);
            assert(parts.take(i + 1).drop_last() =~= parts.take(i as int));
            i = i + 1;
        }
        assert(parts.take(self.slots@.len() as int) =~= parts);
        proof {
            if all_present(self@) {
                assert(parts =~= Seq::new(self@.len(), |i: int| self@[i]->0));
            }
        }
        out
    }
}

/// How far the client got in readying a connection to a peer after the
/// handshake.
#[derive(Debug, Clone, Copy, PartialEq, Eq)]
pub enum PeerSetup {
    /// Waiting for the peer's bitfield.
    AwaitingBitfield,
    /// `Interested` was sent; waiting for the peer to unchoke the client.
    AwaitingUnchoke,
    /// The peer can be asked for blocks.
    Ready,
}

/// The next setup state after a message from the peer, and the message to
/// send it: a bitfield is answered with `Interested`, an unchoke makes the
/// connection ready, and anything else fails the setup.
pub open spec fn setup_step(state: PeerSetup, m: PeerMessageView) -> Result<
    (PeerSetup, Option<PeerMessageView>),
    DownloadError,
> {
    match state {
        PeerSetup::AwaitingBitfield => match m {
            PeerMessageView::Bitfield(_) => Ok(
                (PeerSetup::AwaitingUnchoke, Some(PeerMessageView::Interested)),
            ),
            _ => Err(DownloadError::ExpectedBitfield),
        },
        PeerSetup::AwaitingUnchoke => match m {
            PeerMessageView::Unchoke => Ok((PeerSetup::Ready, None)),
            _ => Err(DownloadError::ExpectedUnchoke),
        },
        PeerSetup::Ready => Ok((PeerSetup::Ready, None)),
    }
}

impl PeerSetup {
    /// Moves the setup on after a message from the peer.
    pub fn on_message(self, m: &PeerMessage) -> (r: Result<(PeerSetup, Option<PeerMessage>), DownloadError>)
        ensures
            match setup_step(self, m@) {
                Ok((next, None)) => r matches Ok((n, None)) && n == next,
                Ok((next, Some(reply))) => r matches Ok((n, Some(x))) && n == next && x@ == reply,
                Err(e) => r == Err::<(PeerSetup, Option<PeerMessage>), DownloadError>(e),
            },
    {
        match self {
            PeerSetup::AwaitingBitfield => match m {
                PeerMessage::Bitfield(_) => Ok((PeerSetup::AwaitingUnchoke, Some(PeerMessage::Interested))),
                _ => Err(DownloadError::ExpectedBitfield),
            },
            PeerSetup::AwaitingUnchoke => match m {
                PeerMessage::Unchoke => Ok((PeerSetup::Ready, None)),
                _ => Err(DownloadError::ExpectedUnchoke),
            },
            PeerSetup::Ready => Ok((PeerSetup::Ready, None)),
        }
    }
}

/// A connection becomes ready exactly when the peer sends its bitfield and
/// then, after the client said it is interested, unchokes it.
pub proof fn lemma_setup_ready(first: PeerMessageView, second: PeerMessageView)
    ensures
        (setup_step(PeerSetup::AwaitingBitfield, first) matches Ok((s, _)) && setup_step(
            s,
            second,
        ) matches Ok((PeerSetup::Ready, _))) <==> (first is Bitfield && second is Unchoke),
{
}

/// The block of the next request is the first of the sizes in which what
/// is left of the piece is asked for, and accepting it leaves the rest.
pub proof fn lemma_next_block(remain: u32)
    requires
        remain > 0,
    ensures
        block_sizes(remain as nat).len() > 0,
        block_sizes(remain as nat)[0] == (if BLOCK_MAX_SIZE <= remain {
            BLOCK_MAX_SIZE
        } else {
            remain
        }),
        block_sizes(remain as nat).drop_first() == block_sizes(
            (remain - (if BLOCK_MAX_SIZE <= remain {
                BLOCK_MAX_SIZE
            } else {
                remain
            })) as nat,
        ),
{
    if remain > BLOCK_MAX_SIZE {
        assert(block_sizes(remain as nat).drop_first() =~= block_sizes(
            (remain - BLOCK_MAX_SIZE) as nat,
        ));
    } else {
        assert(block_sizes(remain as nat).drop_first() =~= Seq::<nat>::empty());
    }
}

/// The reply of a well-behaved peer to the request just sent, a block of
/// this piece at the offset asked for while the piece holds the bytes
/// before that offset, is taken in; a block of another piece or at another
/// offset is refused; any other message is taken, for `accept` to report.
pub proof fn lemma_requested_block_acceptable(
    d: PieceDownload,
    block: Seq<u8>,
    reply: PeerMessageView,
)
    ensures
        d.begin_offset <= d.piece@.len() ==> d.acceptable(
            PeerMessageView::Piece { index: d.piece_index as u32, begin: d.begin_offset, block },
        ),
        (reply matches PeerMessageView::Piece { index, begin, .. } && (index != d.piece_index as u32
            || begin != d.begin_offset)) ==> !d.acceptable(reply),
        !(reply is Piece) ==> d.acceptable(reply),
{
}

/// A file of `length` bytes cut into pieces of `piece_length` bytes, the
/// last one possibly shorter (as many pieces as the length divided by the
/// piece size, rounded up), can always be planned.
pub proof fn lemma_cut_file_fits(d: PeerDownload)
    requires
        d.torrent_metadata.piece_length > 0,
        d.torrent_metadata.pieces@.len() >= 1,
        d.torrent_metadata.piece_length * (d.torrent_metadata.pieces@.len() - 1)
            < d.torrent_metadata.length <= d.torrent_metadata.piece_length
            * d.torrent_metadata.pieces@.len(),
    ensures
        d.pieces_fit(),
{
    let p = d.torrent_metadata.piece_length as int;
    let l = d.torrent_metadata.length as int;
    let n = d.torrent_metadata.pieces@.len() as int;
    assert(n - 1 <= p * (n - 1)) by (nonlinear_arith)
        requires
            p >= 1,
            n >= 1,
    ;
    assert forall|i: int| 0 <= i < n implies #[trigger] piece_arith_fits(
        d.torrent_metadata.length,
        d.torrent_metadata.piece_length,
        i,
    ) by {
        assert(0 <= p * i <= p * (n - 1)) by (nonlinear_arith)
            requires
                p >= 1,
                0 <= i < n,
        ;
    }
}

} // verus!
