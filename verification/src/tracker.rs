//! The tracker: which files are shared, which peers share each info hash,
//! and its answers to announces and registrations.

use vstd::prelude::*;
use vstd::utf8::encode_utf8;
use crate::ipv4::{ipv4_text, parse_ipv4};
use crate::models::{
    all_v4, compact_encoding, is_compact_decoding, lemma_compact_roundtrip, AnnounceResponseRaw,
    RegisterRequest, SocketAddress,
};

verus! {

/// A table keyed by strings, with no key twice.
pub struct KeyedTable<V: View> {
    keys: Vec<String>,
    values: Vec<V>,
    map: Ghost<Map<Seq<char>, V::V>>,
}

impl<V: View> View for KeyedTable<V> {
    type V = Map<Seq<char>, V::V>;

    closed spec fn view(&self) -> Map<Seq<char>, V::V> {
        self.map@
    }
}

impl<V: View> KeyedTable<V> {
    #[verifier::type_invariant]
    spec fn well_formed(self) -> bool {
        &&& self.keys@.len() == self.values@.len()
        &&& forall|i: int, j: int|
            0 <= i < j < self.keys@.len() ==> (#[trigger] self.keys@[i])@ != (
            #[trigger] self.keys@[j])@
        &&& forall|i: int|
            0 <= i < self.keys@.len() ==> self.map@.contains_key((#[trigger] self.keys@[i])@)
                && self.map@[self.keys@[i]@] == self.values@[i]@
        &&& forall|k: Seq<char>|
            #[trigger] self.map@.contains_key(k) ==> exists|i: int|
                0 <= i < self.keys@.len() && (#[trigger] self.keys@[i])@ == k
    }

    /// An empty table.
    pub fn new() -> (r: Self)
        ensures
            r@ == Map::<Seq<char>, V::V>::empty(),
    {
        KeyedTable { keys: Vec::new(), values: Vec::new(), map: Ghost(Map::empty()) }
    }

    /// The position of `key`, if it is in the table.
    fn position(&self, key: &String) -> (r: Option<usize>)
        ensures
            r is None <==> !self@.contains_key(key@),
            r matches Some(i) ==> i < self.keys@.len() && self.keys@[i as int]@ == key@
                && self.values@.len() == self.keys@.len() && self.map@[key@]
                == self.values@[i as int]@,
    {
        proof {
            use_type_invariant(self);
        }
        let mut i: usize = 0;
        while i < self.keys.len()
            invariant
                i <= self.keys@.len(),
                forall|j: int| 0 <= j < i ==> (#[trigger] self.keys@[j])@ != key@,
            decreases self.keys@.len() - i,
        {
            if self.keys[i] == *key {
                proof {
                    use_type_invariant(self);
                }
                return Some(i);
            }
            i = i + 1;
        }
        proof {
            use_type_invariant(self);
        }
        None
    }

    /// Whether `key` is in the table.
    pub fn contains_key(&self, key: &String) -> (r: bool)
        ensures
            r == self@.contains_key(key@),
    {
        self.position(key).is_some()
    }

    /// The value of `key`, if it is in the table.
    pub fn get(&self, key: &String) -> (r: Option<&V>)
        ensures
            r is None <==> !self@.contains_key(key@),
            r matches Some(v) ==> v@ == self@[key@],
    {
        match self.position(key) {
            Some(i) => Some(&self.values[i]),
            None => None,
        }
    }

    /// Sets the value of `key`, replacing the value it had.
    pub fn insert(&mut self, key: String, value: V)
        ensures
            final(self)@ == old(self)@.insert(key@, value@),
    {
        proof {
            use_type_invariant(&*self);
        }
        let pos = self.position(&key);
        let mut table = KeyedTable::new();
        std::mem::swap(self, &mut table);
        proof {
            use_type_invariant(&table);
        }
        let KeyedTable { mut keys, mut values, map } = table;
        let ghost new_map = map@.insert(key@, value@);
        match pos {
            Some(i) => {
                values.set(i, value);
                assert forall|k: Seq<char>| #[trigger] new_map.contains_key(k) implies exists|
                    j: int,
                | 0 <= j < keys@.len() && (#[trigger] keys@[j])@ == k by {
                    if k != key@ {
                        assert(map@.contains_key(k));
                    }
                }
                *self = KeyedTable { keys, values, map: Ghost(new_map) };
            },
            None => {
                let ghost old_keys = keys@;
                keys.push(key);
                values.push(value);
                assert forall|k: Seq<char>| #[trigger] new_map.contains_key(k) implies exists|
                    j: int,
                | 0 <= j < keys@.len() && (#[trigger] keys@[j])@ == k by {
                    if k != key@ {
                        assert(map@.contains_key(k));
                        let j = choose|j: int|
                            0 <= j < old_keys.len() && (#[trigger] old_keys[j])@ == k;
                        assert(keys@[j] == old_keys[j]);
                    } else {
                        assert(keys@[keys@.len() - 1]@ == k);
                    }
                }
                *self = KeyedTable { keys, values, map: Ghost(new_map) };
            },
        }
    }

    /// The keys of the table, each once.
    pub fn keys(&self) -> (r: Vec<String>)
        ensures
            forall|i: int| 0 <= i < r@.len() ==> self@.contains_key((#[trigger] r@[i])@),
            forall|k: Seq<char>|
                #[trigger] self@.contains_key(k) ==> exists|i: int|
                    0 <= i < r@.len() && (#[trigger] r@[i])@ == k,
            forall|i: int, j: int|
                0 <= i < j < r@.len() ==> (#[trigger] r@[i])@ != (#[trigger] r@[j])@,
    {
        proof {
            use_type_invariant(self);
        }
        let mut r: Vec<String> = Vec::new();
        let mut i: usize = 0;
        while i < self.keys.len()
            invariant
                i <= self.keys@.len(),
                r@.len() == i,
                forall|j: int| 0 <= j < i ==> (#[trigger] r@[j])@ == self.keys@[j]@,
            decreases self.keys@.len() - i,
        {
            r.push(self.keys[i].clone());
            i = i + 1;
        }
        proof {
            assert forall|k: Seq<char>| #[trigger] self@.contains_key(k) implies exists|j: int|
                0 <= j < r@.len() && (#[trigger] r@[j])@ == k by {
                let j = choose|j: int|
                    0 <= j < self.keys@.len() && (#[trigger] self.keys@[j])@ == k;
                assert(r@[j]@ == k);
            }
            assert forall|a: int, b: int| 0 <= a < b < r@.len() implies (#[trigger] r@[a])@ != (
            #[trigger] r@[b])@ by {
                assert(self.keys@[a]@ != self.keys@[b]@);
            }
        }
        r
    }
}

/// A request for the peers that share an info hash.
#[derive(Debug, Clone)]
pub struct InfoHashRequest {
    pub info_hash: String,
    pub peer_id: Option<String>,
    pub ip: Option<String>,
    pub port: Option<u16>,
    pub uploaded: Option<u64>,
    pub downloaded: Option<u64>,
    pub left: Option<u64>,
    pub compact: Option<u8>,
}

impl InfoHashRequest {
    /// A request naming only the info hash.
    pub fn new(info_hash: &str) -> (r: Self)
        ensures
            r.info_hash@ == info_hash@,
            r.peer_id is None,
            r.ip is None,
            r.port is None,
            r.uploaded is None,
            r.downloaded is None,
            r.left is None,
            r.compact is None,
    {
        InfoHashRequest {
            info_hash: info_hash.to_owned(),
            peer_id: None,
            ip: None,
            port: None,
            uploaded: None,
            downloaded: None,
            left: None,
            compact: None,
        }
    }
}

/// Why the tracker refused a registration.
#[derive(Debug, Clone, PartialEq, Eq)]
pub enum TrackerError {
    /// A file of that name is already listed; the message says which.
    FileAlreadyExists(String),
}

/// The names of the shared files, each with its info hash.
pub struct FileListing {
    inner: KeyedTable<String>,
}

impl View for FileListing {
    type V = Map<Seq<char>, Seq<char>>;

    closed spec fn view(&self) -> Map<Seq<char>, Seq<char>> {
        self.inner@
    }
}

impl FileListing {
    pub fn new() -> (r: Self)
        ensures
            r@ == Map::<Seq<char>, Seq<char>>::empty(),
    {
        FileListing { inner: KeyedTable::new() }
    }

    /// Lists a file under a name no listed file has yet.
    pub fn add(&mut self, file_name: &String, info_hash: &String) -> (r: Result<(), TrackerError>)
        ensures
            old(self)@.contains_key(file_name@) ==> (r matches Err(
                TrackerError::FileAlreadyExists(message),
            ) && message@ == "file already exists: "@ + file_name@ && final(self)@ == old(
                self,
            )@),
            !old(self)@.contains_key(file_name@) ==> r is Ok && final(self)@ == old(
                self,
            )@.insert(file_name@, info_hash@),
    {
        if self.inner.contains_key(file_name) {
            let mut message = "file already exists: ".to_owned();
            message.append(file_name.as_str());
            return Err(TrackerError::FileAlreadyExists(message));
        }
        self.inner.insert(file_name.clone(), info_hash.clone());
        Ok(())
    }

    /// Whether a file is listed under the name.
    pub fn contains(&self, file_name: &String) -> (r: bool)
        ensures
            r == self@.contains_key(file_name@),
    {
        self.inner.contains_key(file_name)
    }

    /// The names of the listed files, each once.
    pub fn all(&self) -> (r: Vec<String>)
        ensures
            forall|i: int| 0 <= i < r@.len() ==> self@.contains_key((#[trigger] r@[i])@),
            forall|k: Seq<char>|
                #[trigger] self@.contains_key(k) ==> exists|i: int|
                    0 <= i < r@.len() && (#[trigger] r@[i])@ == k,
            forall|i: int, j: int|
                0 <= i < j < r@.len() ==> (#[trigger] r@[i])@ != (#[trigger] r@[j])@,
    {
        self.inner.keys()
    }
}

/// Every list of the table holds IPv4 peers only.
pub open spec fn all_lists_v4(db: Map<Seq<char>, Seq<SocketAddress>>) -> bool {
    forall|k: Seq<char>| #[trigger] db.contains_key(k) ==> all_v4(db[k])
}

/// The peers known for an info hash, none if it is unknown.
pub open spec fn known_peers(db: Map<Seq<char>, Seq<SocketAddress>>, h: Seq<char>) -> Seq<
    SocketAddress,
> {
    if db.contains_key(h) {
        db[h]
    } else {
        Seq::empty()
    }
}

/// The table after `peer` registered for `h`: it follows the peers known
/// before.
pub open spec fn with_peer(
    db: Map<Seq<char>, Seq<SocketAddress>>,
    h: Seq<char>,
    peer: SocketAddress,
) -> Map<Seq<char>, Seq<SocketAddress>> {
    db.insert(h, known_peers(db, h).push(peer))
}

/// The peers sharing each info hash.
pub struct PeersDb {
    inner: KeyedTable<Vec<SocketAddress>>,
}

impl View for PeersDb {
    type V = Map<Seq<char>, Seq<SocketAddress>>;

    closed spec fn view(&self) -> Map<Seq<char>, Seq<SocketAddress>> {
        self.inner@
    }
}

impl PeersDb {
    #[verifier::type_invariant]
    spec fn well_formed(self) -> bool {
        all_lists_v4(self.inner@)
    }

    pub fn new() -> (r: Self)
        ensures
            r@ == Map::<Seq<char>, Seq<SocketAddress>>::empty(),
    {
        PeersDb { inner: KeyedTable::new() }
    }

    /// The peers of an info hash, if any registered for it.
    pub fn peers(&self, info_hash: &String) -> (r: Option<Vec<SocketAddress>>)
        ensures
            all_lists_v4(self@),
            r is None <==> !self@.contains_key(info_hash@),
            r matches Some(v) ==> v@ == self@[info_hash@],
    {
        proof {
            use_type_invariant(self);
        }
        match self.inner.get(info_hash) {
            Some(list) => {
                let copy = list.clone();
                assert(copy@ =~= list@);
                Some(copy)
            },
            None => None,
        }
    }

    /// Adds an IPv4 peer after the peers known for the info hash.
    pub fn add_peer(&mut self, info_hash: &String, peer: SocketAddress)
        requires
            peer is V4,
        ensures
            final(self)@ == with_peer(old(self)@, info_hash@, peer),
    {
        proof {
            use_type_invariant(&*self);
        }
        let mut list = match self.inner.get(info_hash) {
            Some(list) => {
                let copy = list.clone();
                assert(copy@ =~= list@);
                copy
            },
            None => Vec::new(),
        };
        list.push(peer);
        let ghost new_map = with_peer(self.inner@, info_hash@, peer);
        let mut inner = KeyedTable::new();
        std::mem::swap(&mut self.inner, &mut inner);
        inner.insert(info_hash.clone(), list);
        proof {
            assert(inner@ == new_map);
            assert forall|k: Seq<char>| #[trigger] new_map.contains_key(k) implies all_v4(
                new_map[k],
            ) by {
                if k == info_hash@ {
                    let l = known_peers(old(self)@, k);
                    assert forall|i: int| 0 <= i < l.push(peer).len() implies (#[trigger] l.push(
                        peer,
                    )[i]) is V4 by {
                        if i < l.len() {
                            assert(l.push(peer)[i] == l[i]);
                        }
                    }
                }
            }
        }
        *self = PeersDb { inner };
    }
}

/// How often, in seconds, peers should announce themselves again.
pub const ANNOUNCE_INTERVAL: i64 = 1800;

/// The tracker's answer to a request for the peers of an info hash.
#[derive(Debug)]
pub enum AnnounceLookup {
    /// The peers that registered for it, compactly encoded.
    Found(AnnounceResponseRaw),
    /// No peer registered for it; the message says so.
    NotFound(String),
}

impl AnnounceLookup {
    /// The HTTP status of the answer: 200 with the peers, 404 without.
    pub fn status(&self) -> (r: u16)
        ensures
            *self is Found ==> r == 200,
            *self is NotFound ==> r == 404,
    {
        match self {
            AnnounceLookup::Found(_) => 200,
            AnnounceLookup::NotFound(_) => 404,
        }
    }
}

/// The HTTP status of the answer to a registration: 204 when it was taken,
/// 400 when it was refused.
pub fn register_status(result: &Result<(), TrackerError>) -> (r: u16)
    ensures
        result is Ok ==> r == 204,
        result is Err ==> r == 400,
{
    match result {
        Ok(()) => 204,
        Err(_) => 400,
    }
}

/// The text `b` is the dotted-decimal text of some IPv4 address.
pub open spec fn is_ipv4_text(b: Seq<u8>) -> bool {
    exists|ip: Seq<u8>| ip.len() == 4 && b == ipv4_text(ip)
}

/// The tracker's state: the peers of each info hash and the shared files.
pub struct Tracker {
    pub peers_db: PeersDb,
    pub file_listing: FileListing,
}

/// The names in `names` are the keys of `listing`, each once.
pub open spec fn lists_names(names: Seq<Seq<char>>, listing: Map<Seq<char>, Seq<char>>) -> bool {
    &&& forall|i: int| 0 <= i < names.len() ==> listing.contains_key(#[trigger] names[i])
    &&& forall|k: Seq<char>|
        #[trigger] listing.contains_key(k) ==> exists|i: int|
            0 <= i < names.len() && names[i] == k
    &&& forall|i: int, j: int| 0 <= i < j < names.len() ==> names[i] != names[j]
}

/// The lower-case hexadecimal digit of a value below sixteen.
pub open spec fn hex_char(v: int) -> char {
    seq!['0', '1', '2', '3', '4', '5', '6', '7', '8', '9', 'a', 'b', 'c', 'd', 'e', 'f'][v]
}

/// A character as it is written inside a JSON string: the quote and the
/// backslash after a backslash, the control characters as `\b`, `\t`,
/// `\n`, `\f`, `\r` or `\u00` and two hexadecimal digits, anything else
/// as it is.
pub open spec fn json_escape(c: char) -> Seq<char> {
    let v = c as int;
    if c == '"' {
        seq!['\\', '"']
    } else if c == '\\' {
        seq!['\\', '\\']
    } else if v == 8 {
        seq!['\\', 'b']
    } else if v == 9 {
        seq!['\\', 't']
    } else if v == 10 {
        seq!['\\', 'n']
    } else if v == 12 {
        seq!['\\', 'f']
    } else if v == 13 {
        seq!['\\', 'r']
    } else if v < 32 {
        seq!['\\', 'u', '0', '0', hex_char(v / 16), hex_char(v % 16)]
    } else {
        seq![c]
    }
}

/// The characters of a string, each as it is written inside a JSON string.
pub open spec fn json_escaped(s: Seq<char>) -> Seq<char>
    decreases s.len(),
{
    if s.len() == 0 {
        Seq::empty()
    } else {
        json_escaped(s.drop_last()) + json_escape(s.last())
    }
}

/// A string as a JSON string: between double quotes, escaped.
pub open spec fn json_string(s: Seq<char>) -> Seq<char> {
    seq!['"'] + json_escaped(s) + seq!['"']
}

/// The JSON strings of a list, separated by commas.
pub open spec fn json_items(items: Seq<Seq<char>>) -> Seq<char>
    decreases items.len(),
{
    if items.len() == 0 {
        Seq::empty()
    } else if items.len() == 1 {
        json_string(items[0])
    } else {
        json_items(items.drop_last()) + seq![','] + json_string(items.last())
    }
}

/// The compact JSON text of a list of strings: the JSON strings between
/// square brackets, separated by commas, with no spaces.
pub open spec fn json_string_array(items: Seq<Seq<char>>) -> Seq<char> {
    seq!['['] + json_items(items) + seq![']']
}

/// `serde_json::to_string` on a list of strings, its error turned into
/// `None`. Its contract claims that the call succeeds and returns the
/// compact JSON text of the list, written as serde_json's serializer writes
/// a sequence of strings. The crate documents two ways for the
/// call to fail, a `Serialize` impl that fails and a map with keys that are
/// not strings; its source writes a list of strings into a `Vec<u8>`, whose
/// writes do not fail, so neither can happen here.
#[verifier::external_body]
fn json_of_strings(items: &Vec<String>) -> (r: Option<String>)
    ensures
        r is Some,
        r matches Some(s) ==> s@ == json_string_array(items@.map_values(|x: String| x@)),
{
    serde_json::to_string(items).ok()
}

impl Tracker {
    pub fn new() -> (r: Self)
        ensures
            r.peers_db@ == Map::<Seq<char>, Seq<SocketAddress>>::empty(),
            r.file_listing@ == Map::<Seq<char>, Seq<char>>::empty(),
    {
        Tracker { peers_db: PeersDb::new(), file_listing: FileListing::new() }
    }

    /// The answer to a request for the peers of an info hash.
    pub fn announce_get(&self, request: &InfoHashRequest) -> (r: AnnounceLookup)
        ensures
            self.peers_db@.contains_key(request.info_hash@) ==> (r matches AnnounceLookup::Found(
                raw,
            ) && raw.interval == ANNOUNCE_INTERVAL && raw.peers@ == compact_encoding(
                self.peers_db@[request.info_hash@],
            )),
            !self.peers_db@.contains_key(request.info_hash@) ==> (r matches AnnounceLookup::NotFound(
                message,
            ) && message@ == "No peers found for the given info hash: "@ + request.info_hash@),
    {
        match self.peers_db.peers(&request.info_hash) {
            Some(peers) => AnnounceLookup::Found(
                AnnounceResponseRaw::from_socket_addrs(ANNOUNCE_INTERVAL, peers.as_slice()),
            ),
            None => {
                let mut message = "No peers found for the given info hash: ".to_owned();
                message.append(request.info_hash.as_str());
                AnnounceLookup::NotFound(message)
            },
        }
    }

    /// Registers a peer sharing a file: the file is listed under its name,
    /// unless that name is taken, and the peer is added after the peers of
    /// its info hash.
    pub fn announce_post(&mut self, request: &RegisterRequest) -> (r: Result<(), TrackerError>)
        requires
            !old(self).file_listing@.contains_key(request.name@) ==> is_ipv4_text(
                encode_utf8(request.ip@),
            ),
        ensures
            old(self).file_listing@.contains_key(request.name@) ==> (r matches Err(
                TrackerError::FileAlreadyExists(message),
            ) && message@ == "file already exists: "@ + request.name@ && final(self).file_listing@
                == old(self).file_listing@ && final(self).peers_db@ == old(self).peers_db@),
            !old(self).file_listing@.contains_key(request.name@) ==> {
                &&& r is Ok
                &&& final(self).file_listing@ == old(self).file_listing@.insert(
                    request.name@,
                    request.info_hash@,
                )
                &&& exists|ip: [u8; 4]|
                    ipv4_text(ip@) == encode_utf8(request.ip@) && final(self).peers_db@
                        == with_peer(
                        old(self).peers_db@,
                        request.info_hash@,
                        SocketAddress::V4 { ip, port: request.port },
                    )
            },
    {
        match self.file_listing.add(&request.name, &request.info_hash) {
            Ok(()) => {},
            Err(e) => {
                return Err(e);
            },
        }
        let ip = match parse_ipv4(request.ip.as_str()) {
            Some(ip) => ip,
            None => {
                proof {
                    let ip2 = choose|ip2: Seq<u8>| ip2.len() == 4 && encode_utf8(request.ip@)
                        == ipv4_text(ip2);
                    assert(encode_utf8(request.ip@) == ipv4_text(ip2));
                    assert(false);
                }
                return Ok(());
            },
        };
        let peer = SocketAddress::V4 { ip, port: request.port };
        self.peers_db.add_peer(&request.info_hash, peer);
        Ok(())
    }

    /// The JSON list of the names of the shared files.
    pub fn file_listing_json(&self) -> (r: Option<String>)
        ensures
            r is Some,
            r matches Some(s) ==> exists|names: Seq<Seq<char>>|
                lists_names(names, self.file_listing@) && s@ == json_string_array(names),
    {
        let names = self.file_listing.all();
        let ghost views = names@.map_values(|x: String| x@);
        proof {
            assert forall|k: Seq<char>| #[trigger] self.file_listing@.contains_key(k) implies exists|
                i: int,
            | 0 <= i < views.len() && views[i] == k by {
                let i = choose|i: int| 0 <= i < names@.len() && (#[trigger] names@[i])@ == k;
                assert(views[i] == k);
            }
            assert forall|i: int, j: int| 0 <= i < j < views.len() implies views[i] != views[j] by {
                assert(names@[i]@ != names@[j]@);
            }
            assert forall|i: int| 0 <= i < views.len() implies self.file_listing@.contains_key(
                #[trigger] views[i],
            ) by {
                assert(self.file_listing@.contains_key(names@[i]@));
            }
        }
        json_of_strings(&names)
    }
}

/// A peer that registered for an info hash is, from then on, in the
/// tracker's answer for that hash: decoding the answer gives the peers known
/// before, then the new peer.
pub proof fn lemma_registered_peer_announced(
    db: Map<Seq<char>, Seq<SocketAddress>>,
    h: Seq<char>,
    peer: SocketAddress,
)
    requires
        all_lists_v4(db),
        peer is V4,
    ensures
        with_peer(db, h, peer).contains_key(h),
        is_compact_decoding(
            compact_encoding(with_peer(db, h, peer)[h]),
            known_peers(db, h).push(peer),
        ),
        known_peers(db, h).push(peer).last() == peer,
{
    let l = known_peers(db, h).push(peer);
    assert(all_v4(l)) by {
        assert forall|i: int| 0 <= i < l.len() implies (#[trigger] l[i]) is V4 by {
            if i < l.len() - 1 {
                assert(l[i] == known_peers(db, h)[i]);
            }
        }
    }
    lemma_compact_roundtrip(l);
}

/// Registering a peer leaves the peers of every other info hash as they were.
pub proof fn lemma_register_keeps_other_hashes(
    db: Map<Seq<char>, Seq<SocketAddress>>,
    h: Seq<char>,
    other: Seq<char>,
    peer: SocketAddress,
)
    requires
        other != h,
    ensures
        with_peer(db, h, peer).contains_key(other) == db.contains_key(other),
        db.contains_key(other) ==> with_peer(db, h, peer)[other] == db[other],
{
}

/// Registering a peer for an info hash keeps every peer registered for it
/// before, in order, and puts the new peer after them.
pub proof fn lemma_registration_appends(
    db: Map<Seq<char>, Seq<SocketAddress>>,
    h: Seq<char>,
    peer: SocketAddress,
)
    ensures
        with_peer(db, h, peer).contains_key(h),
        db.contains_key(h) ==> with_peer(db, h, peer)[h] == db[h].push(peer),
        !db.contains_key(h) ==> with_peer(db, h, peer)[h] == seq![peer],
{
    if !db.contains_key(h) {
        assert(Seq::<SocketAddress>::empty().push(peer) =~= seq![peer]);
    }
}

/// The table after the peers of `peers` registered for `h`, one after
/// another.
pub open spec fn with_peers(
    db: Map<Seq<char>, Seq<SocketAddress>>,
    h: Seq<char>,
    peers: Seq<SocketAddress>,
) -> Map<Seq<char>, Seq<SocketAddress>>
    decreases peers.len(),
{
    if peers.len() == 0 {
        db
    } else {
        with_peer(with_peers(db, h, peers.drop_last()), h, peers.last())
    }
}

/// However many peers register for an info hash, the tracker keeps them all:
/// the peers known for it are those known before, then every new one in the
/// order in which they registered.
pub proof fn lemma_registrations_kept(
    db: Map<Seq<char>, Seq<SocketAddress>>,
    h: Seq<char>,
    peers: Seq<SocketAddress>,
)
    requires
        peers.len() > 0,
    ensures
        with_peers(db, h, peers).contains_key(h),
        db.contains_key(h) ==> with_peers(db, h, peers)[h] == db[h] + peers,
        !db.contains_key(h) ==> with_peers(db, h, peers)[h] == peers,
    decreases peers.len(),
{
    let init = peers.drop_last();
    let last = peers.last();
    lemma_registration_appends(with_peers(db, h, init), h, last);
    if init.len() == 0 {
        if db.contains_key(h) {
            assert(db[h].push(last) =~= db[h] + peers);
        } else {
            assert(seq![last] =~= peers);
        }
    } else {
        lemma_registrations_kept(db, h, init);
        if db.contains_key(h) {
            assert((db[h] + init).push(last) =~= db[h] + peers);
        } else {
            assert(init.push(last) =~= peers);
        }
    }
}

} // verus!
