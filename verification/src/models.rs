//! Values exchanged between the client and the tracker, and the compact
//! peer list format (six bytes per IPv4 peer: four address bytes, then the
//! port big-endian).

use vstd::prelude::*;
use crate::codec::{
    be_u16_bytes, be_u16_value, lemma_be_u16_bytes_of_value, lemma_be_u16_roundtrip, push_be_u16,
    read_be_u16,
};

verus! {

/// A peer's socket address.
#[derive(Debug, Clone, Copy, PartialEq, Eq)]
pub enum SocketAddress {
    V4 { ip: [u8; 4], port: u16 },
    V6 { segments: [u16; 8], port: u16 },
}

impl SocketAddress {
    /// The port of the address.
    pub fn port(&self) -> (r: u16)
        ensures
            r == match *self {
                SocketAddress::V4 { port, .. } => port,
                SocketAddress::V6 { port, .. } => port,
            },
    {
        match self {
            SocketAddress::V4 { port, .. } => *port,
            SocketAddress::V6 { port, .. } => *port,
        }
    }
}

/// The six compact bytes of an IPv4 peer; an IPv6 peer has none.
pub open spec fn compact_entry(peer: SocketAddress) -> Seq<u8> {
    match peer {
        SocketAddress::V4 { ip, port } => ip@ + be_u16_bytes(port),
        SocketAddress::V6 { .. } => Seq::empty(),
    }
}

/// The compact encoding of a peer list: the entries of its IPv4 peers, in order.
pub open spec fn compact_encoding(peers: Seq<SocketAddress>) -> Seq<u8>
    decreases peers.len(),
{
    if peers.len() == 0 {
        Seq::empty()
    } else {
        compact_encoding(peers.drop_last()) + compact_entry(peers.last())
    }
}

/// `peer` is the IPv4 peer stored in the `i`-th six-byte chunk of `bytes`.
pub open spec fn decodes_chunk(bytes: Seq<u8>, i: int, peer: SocketAddress) -> bool {
    &&& peer is V4
    &&& peer->V4_ip@ == bytes.subrange(6 * i, 6 * i + 4)
    &&& peer->V4_port == be_u16_value(bytes[6 * i + 4], bytes[6 * i + 5])
}

/// `peers` is what the compact list `bytes` holds: one IPv4 peer per
/// six-byte chunk, in order.
pub open spec fn is_compact_decoding(bytes: Seq<u8>, peers: Seq<SocketAddress>) -> bool {
    &&& bytes.len() == 6 * peers.len()
    &&& forall|i: int| 0 <= i < peers.len() ==> #[trigger] decodes_chunk(bytes, i, peers[i])
}

/// Every peer of the list is an IPv4 peer.
pub open spec fn all_v4(peers: Seq<SocketAddress>) -> bool {
    forall|i: int| 0 <= i < peers.len() ==> (#[trigger] peers[i]) is V4
}

/// A request by which a peer registers a file it shares with the tracker.
#[derive(Debug, Clone)]
pub struct RegisterRequest {
    pub name: String,
    pub info_hash: String,
    pub peer_id: String,
    pub ip: String,
    pub port: u16,
}

impl RegisterRequest {
    pub fn new(name: &str, info_hash: &str, peer_id: &str, ip: &str, port: u16) -> (r: Self)
        ensures
            r.name@ == name@,
            r.info_hash@ == info_hash@,
            r.peer_id@ == peer_id@,
            r.ip@ == ip@,
            r.port == port,
    {
        RegisterRequest {
            name: name.to_owned(),
            info_hash: info_hash.to_owned(),
            peer_id: peer_id.to_owned(),
            ip: ip.to_owned(),
            port,
        }
    }
}

/// A tracker's answer as it travels: the re-announce interval and the
/// compact peer list.
#[derive(Debug)]
pub struct AnnounceResponseRaw {
    pub interval: i64,
    pub peers: Vec<u8>,
}

impl AnnounceResponseRaw {
    /// Encodes the IPv4 peers of `peers` compactly; IPv6 peers are left out.
    pub fn from_socket_addrs(interval: i64, peers: &[SocketAddress]) -> (r: Self)
        ensures
            r.interval == interval,
            r.peers@ == compact_encoding(peers@),
    {
        let mut buf: Vec<u8> = Vec::new();
        let mut i: usize = 0;
        while i < peers.len()
            invariant
                i <= peers@.len(),
                buf@ == compact_encoding(peers@.take(i as int)),
            decreases peers@.len() - i,
        {
            let peer = peers[i];
            match peer {
                SocketAddress::V4 { ip, port } => {
                    buf.push(ip[0]);
                    buf.push(ip[1]);
                    buf.push(ip[2]);
                    buf.push(ip[3]);
                    push_be_u16(&mut buf, port);
                    assert(ip@ =~= seq![ip[0], ip[1], ip[2], ip[3]]);
                },
                SocketAddress::V6 { .. } => {},
            }
            assert(peers@.take(i + 1).drop_last() =~= peers@.take(i as int));
            i = i + 1;
        }
        assert(peers@.take(peers@.len() as int) =~= peers@);
        AnnounceResponseRaw { interval, peers: buf }
    }
}

/// A tracker's answer with the peer list decoded.
#[derive(Debug)]
pub struct AnnounceResponse {
    pub interval: i64,
    pub peers: Vec<SocketAddress>,
}

impl AnnounceResponse {
    /// Decodes the compact peer list, six bytes per peer.
    pub fn from_raw(value: AnnounceResponseRaw) -> (r: Self)
        requires
            value.peers@.len() % 6 == 0,
        ensures
            r.interval == value.interval,
            is_compact_decoding(value.peers@, r.peers@),
    {
        let bytes = &value.peers;
        let n = bytes.len() / 6;
        let mut peers: Vec<SocketAddress> = Vec::new();
        let mut k: usize = 0;
        while k < n
            invariant
                n * 6 == bytes@.len(),
                bytes@.len() <= usize::MAX,
                k <= n,
                peers@.len() == k,
                forall|i: int| 0 <= i < k ==> #[trigger] decodes_chunk(bytes@, i, peers@[i]),
            decreases n - k,
        {
            let at = 6 * k;
            let ip: [u8; 4] = [bytes[at], bytes[at + 1], bytes[at + 2], bytes[at + 3]];
            let port = read_be_u16(bytes.as_slice(), at + 4);
            let peer = SocketAddress::V4 { ip, port };
            assert(ip@ =~= bytes@.subrange(6 * k as int, 6 * k + 4));
            peers.push(peer);
            assert(decodes_chunk(bytes@, k as int, peers@[k as int]));
            k = k + 1;
        }
        AnnounceResponse { interval: value.interval, peers }
    }
}

/// The compact encoding of an IPv4-only list has six bytes per peer.
proof fn lemma_compact_encoding_len(peers: Seq<SocketAddress>)
    requires
        all_v4(peers),
    ensures
        compact_encoding(peers).len() == 6 * peers.len(),
    decreases peers.len(),
{
    if peers.len() > 0 {
        assert(all_v4(peers.drop_last())) by {
            assert forall|i: int| 0 <= i < peers.drop_last().len() implies (
            #[trigger] peers.drop_last()[i]) is V4 by {
                assert(peers.drop_last()[i] == peers[i]);
            }
        }
        lemma_compact_encoding_len(peers.drop_last());
        assert(peers[peers.len() - 1] is V4);
    }
}

/// Decoding the compact encoding of a list of IPv4 peers gives back that list.
pub proof fn lemma_compact_roundtrip(peers: Seq<SocketAddress>)
    requires
        all_v4(peers),
    ensures
        is_compact_decoding(compact_encoding(peers), peers),
    decreases peers.len(),
{
    lemma_compact_encoding_len(peers);
    if peers.len() > 0 {
        let init = peers.drop_last();
        assert(all_v4(init)) by {
            assert forall|i: int| 0 <= i < init.len() implies (#[trigger] init[i]) is V4 by {
                assert(init[i] == peers[i]);
            }
        }
        lemma_compact_roundtrip(init);
        let prefix = compact_encoding(init);
        let bytes = compact_encoding(peers);
        let n = peers.len() - 1;
        assert(peers[n] is V4);
        let last = peers[n];
        assert(bytes == prefix + compact_entry(last));
        assert(prefix.len() == 6 * n);
        assert forall|i: int| 0 <= i < peers.len() implies #[trigger] decodes_chunk(
            bytes,
            i,
            peers[i],
        ) by {
            if i < n {
                assert(decodes_chunk(prefix, i, init[i]));
                assert(init[i] == peers[i]);
                assert(bytes.subrange(6 * i, 6 * i + 4) =~= prefix.subrange(6 * i, 6 * i + 4));
                assert(bytes[6 * i + 4] == prefix[6 * i + 4]);
                assert(bytes[6 * i + 5] == prefix[6 * i + 5]);
            } else {
                let entry = compact_entry(last);
                assert(bytes.subrange(6 * i, 6 * i + 4) =~= last->V4_ip@);
                assert(bytes[6 * i + 4] == be_u16_bytes(last->V4_port)[0]);
                assert(bytes[6 * i + 5] == be_u16_bytes(last->V4_port)[1]);
                lemma_be_u16_roundtrip(last->V4_port);
            }
        }
    }
}

/// What the compact list holds is determined by its bytes: two decodings of
/// the same bytes are the same list.
pub proof fn lemma_compact_decoding_unique(
    bytes: Seq<u8>,
    a: Seq<SocketAddress>,
    b: Seq<SocketAddress>,
)
    requires
        is_compact_decoding(bytes, a),
        is_compact_decoding(bytes, b),
    ensures
        a == b,
{
    assert forall|i: int| 0 <= i < a.len() implies a[i] == b[i] by {
        assert(decodes_chunk(bytes, i, a[i]));
        assert(decodes_chunk(bytes, i, b[i]));
        assert(a[i]->V4_ip =~= b[i]->V4_ip);
    }
    assert(a =~= b);
}

/// A tracker's answer keeps its interval and every IPv4 peer, in order, from
/// the moment it is encoded to the moment it is decoded.
pub proof fn lemma_announce_response_roundtrip(
    interval: i64,
    peers: Seq<SocketAddress>,
    raw: AnnounceResponseRaw,
    decoded: AnnounceResponse,
)
    requires
        all_v4(peers),
        raw.interval == interval,
        raw.peers@ == compact_encoding(peers),
        decoded.interval == raw.interval,
        is_compact_decoding(raw.peers@, decoded.peers@),
    ensures
        decoded.interval == interval,
        decoded.peers@ == peers,
{
    lemma_compact_roundtrip(peers);
    lemma_compact_decoding_unique(raw.peers@, decoded.peers@, peers);
}

/// Encoding again the peers decoded from a compact list gives back the
/// list's bytes.
pub proof fn lemma_compact_reencode(bytes: Seq<u8>, peers: Seq<SocketAddress>)
    requires
        is_compact_decoding(bytes, peers),
    ensures
        compact_encoding(peers) == bytes,
{
    assert(all_v4(peers)) by {
        assert forall|i: int| 0 <= i < peers.len() implies (#[trigger] peers[i]) is V4 by {
            assert(decodes_chunk(bytes, i, peers[i]));
        }
    }
    lemma_compact_roundtrip(peers);
    let enc = compact_encoding(peers);
    assert forall|j: int| 0 <= j < bytes.len() implies enc[j] == bytes[j] by {
        let i = j / 6;
        let r = j % 6;
        assert(0 <= i < peers.len());
        assert(j == 6 * i + r);
        assert(decodes_chunk(bytes, i, peers[i]));
        assert(decodes_chunk(enc, i, peers[i]));
        if r < 4 {
            assert(enc[j] == enc.subrange(6 * i, 6 * i + 4)[r]);
            assert(bytes[j] == bytes.subrange(6 * i, 6 * i + 4)[r]);
        } else {
            lemma_be_u16_bytes_of_value(bytes[6 * i + 4], bytes[6 * i + 5]);
            lemma_be_u16_bytes_of_value(enc[6 * i + 4], enc[6 * i + 5]);
            assert(seq![bytes[6 * i + 4], bytes[6 * i + 5]] == seq![enc[6 * i + 4], enc[6 * i + 5]]);
            assert(seq![bytes[6 * i + 4], bytes[6 * i + 5]][0] == bytes[6 * i + 4]);
            assert(seq![bytes[6 * i + 4], bytes[6 * i + 5]][1] == bytes[6 * i + 5]);
            assert(seq![enc[6 * i + 4], enc[6 * i + 5]][0] == enc[6 * i + 4]);
            assert(seq![enc[6 * i + 4], enc[6 * i + 5]][1] == enc[6 * i + 5]);
        }
    }
    assert(enc =~= bytes);
}

/// A tracker's answer decoded and encoded again keeps its interval and its
/// compact peer list byte for byte.
pub proof fn lemma_announce_response_reencode(
    raw: AnnounceResponseRaw,
    decoded: AnnounceResponse,
    reencoded: AnnounceResponseRaw,
)
    requires
        decoded.interval == raw.interval,
        is_compact_decoding(raw.peers@, decoded.peers@),
        reencoded.interval == decoded.interval,
        reencoded.peers@ == compact_encoding(decoded.peers@),
    ensures
        reencoded.interval == raw.interval,
        reencoded.peers@ == raw.peers@,
{
    lemma_compact_reencode(raw.peers@, decoded.peers@);
}

} // verus!
