use vstd::prelude::*;
use vstd::relations::sorted_by;

use crate::codec::{
    lemma_opt_u64_round_trip, lemma_u16_bytes_len, lemma_u16_round_trip, lemma_u64_bytes_len,
    lemma_u64_round_trip, opt_u64_bytes, parse_opt_u64, parse_u16, parse_u64, read_opt_u64,
    read_u16, read_u64, read_u8, u16_bytes, u64_bytes, write_opt_u64, write_u16, write_u64,
    write_u8, ReaderError,
};
use crate::config::{P2P_EXTEND_PEERLIST_DELAY, PEER_FAIL_TO_CONNECT_LIMIT, PEER_TEMP_BAN_TIME_ON_CONNECT};
use crate::keyed::{lemma_map_of, lemma_map_of_push, lemma_map_of_remove, lemma_map_of_update, map_of, unique_keys};

verus! {

/// An IP address, version 4 or 6, as its bits.
#[derive(Debug, Clone, Copy, PartialEq, Eq, Structural)]
pub enum IpAddress {
    V4(u32),
    V6(u128),
}

/// An IP address with a port.
#[derive(Debug, Clone, Copy, PartialEq, Eq, Structural)]
pub struct PeerAddress {
    pub ip: IpAddress,
    pub port: u16,
}

/// Whether a peer address was received from a peer (`In`), shared with it
/// (`Out`), or both.
#[derive(Debug, Clone, Copy, PartialEq, Eq, Structural)]
pub enum Direction {
    In,
    Out,
    Both,
}

/// The access policy of a stored address.
#[derive(Debug, Clone, Copy, PartialEq, Eq, Structural)]
pub enum StoredPeerState {
    Whitelist,
    Graylist,
    Blacklist,
}

/// What is kept of an address across restarts.
#[derive(Debug, Clone, Copy, PartialEq, Eq, Structural)]
pub struct StoredPeer {
    pub first_seen: u64,
    pub last_seen: u64,
    pub last_connection_try: u64,
    pub fail_count: u8,
    pub local_port: u16,
    pub temp_ban_until: Option<u64>,
    pub state: StoredPeerState,
}

/// A record first observed at `now`.
pub open spec fn fresh_record(local_port: u16, state: StoredPeerState, now: u64) -> StoredPeer {
    StoredPeer {
        first_seen: now,
        last_seen: now,
        last_connection_try: 0,
        fail_count: 0,
        local_port,
        temp_ban_until: None,
        state,
    }
}

pub open spec fn state_byte(s: StoredPeerState) -> u8 {
    match s {
        StoredPeerState::Whitelist => 0,
        StoredPeerState::Graylist => 1,
        StoredPeerState::Blacklist => 2,
    }
}

/// The byte encoding of a record.
pub open spec fn stored_peer_bytes(p: StoredPeer) -> Seq<u8> {
    u64_bytes(p.first_seen) + u64_bytes(p.last_seen) + u64_bytes(p.last_connection_try) + seq![
        p.fail_count,
    ] + u16_bytes(p.local_port) + opt_u64_bytes(p.temp_ban_until) + seq![state_byte(p.state)]
}

pub open spec fn parse_state(s: Seq<u8>, pos: int) -> Option<(StoredPeerState, int)> {
    if 0 <= pos < s.len() {
        if s[pos] == 0 {
            Some((StoredPeerState::Whitelist, pos + 1))
        } else if s[pos] == 1 {
            Some((StoredPeerState::Graylist, pos + 1))
        } else if s[pos] == 2 {
            Some((StoredPeerState::Blacklist, pos + 1))
        } else {
            None
        }
    } else {
        None
    }
}

/// The record encoded at `pos`, with the position after it.
pub open spec fn parse_stored_peer(s: Seq<u8>, pos: int) -> Option<(StoredPeer, int)> {
    match parse_u64(s, pos) {
        None => None,
        Some((first_seen, at1)) => match parse_u64(s, at1) {
            None => None,
            Some((last_seen, at2)) => match parse_u64(s, at2) {
                None => None,
                Some((last_connection_try, at3)) => if at3 < s.len() {
                    match parse_u16(s, at3 + 1) {
                        None => None,
                        Some((local_port, at5)) => match parse_opt_u64(s, at5) {
                            None => None,
                            Some((temp_ban_until, at6)) => match parse_state(s, at6) {
                                None => None,
                                Some((state, at7)) => Some(
                                    (
                                        StoredPeer {
                                            first_seen,
                                            last_seen,
                                            last_connection_try,
                                            fail_count: s[at3],
                                            local_port,
                                            temp_ban_until,
                                            state,
                                        },
                                        at7,
                                    ),
                                ),
                            },
                        },
                    }
                } else {
                    None
                },
            },
        },
    }
}

/// Why the bytes at `pos` are no record: too few bytes for the fixed part,
/// an option tag other than 0 or 1, too few bytes for the ban time or the
/// state, or a state byte other than 0, 1 or 2.
pub open spec fn stored_peer_error(s: Seq<u8>, pos: int) -> ReaderError {
    if !(0 <= pos && pos + 29 <= s.len()) {
        ReaderError::InvalidSize
    } else if s[pos + 27] > 1 {
        ReaderError::InvalidValue
    } else {
        let state_at = if s[pos + 27] == 1 {
            pos + 36
        } else {
            pos + 28
        };
        if state_at >= s.len() {
            ReaderError::InvalidSize
        } else {
            ReaderError::InvalidValue
        }
    }
}

/// Reading back the encoding of a record, from any position of any
/// surrounding bytes, gives the record and the position right after it.
pub proof fn lemma_stored_peer_round_trip(p: StoredPeer, prefix: Seq<u8>, suffix: Seq<u8>)
    ensures
        parse_stored_peer(prefix + stored_peer_bytes(p) + suffix, prefix.len() as int) == Some(
            (p, (prefix.len() + stored_peer_bytes(p).len()) as int),
        ),
{
    let e = stored_peer_bytes(p);
    let s = prefix + e + suffix;
    let b = prefix.len() as int;
    lemma_u64_bytes_len(p.first_seen);
    lemma_u64_bytes_len(p.last_seen);
    lemma_u64_bytes_len(p.last_connection_try);
    lemma_u16_bytes_len(p.local_port);
    let o = opt_u64_bytes(p.temp_ban_until);
    if let Some(x) = p.temp_ban_until {
        lemma_u64_bytes_len(x);
    }
    assert(s.subrange(b, b + 8) =~= u64_bytes(p.first_seen));
    lemma_u64_round_trip(p.first_seen, s, b);
    assert(s.subrange(b + 8, b + 16) =~= u64_bytes(p.last_seen));
    lemma_u64_round_trip(p.last_seen, s, b + 8);
    assert(s.subrange(b + 16, b + 24) =~= u64_bytes(p.last_connection_try));
    lemma_u64_round_trip(p.last_connection_try, s, b + 16);
    assert(s[b + 24] == p.fail_count);
    assert(s.subrange(b + 25, b + 27) =~= u16_bytes(p.local_port));
    lemma_u16_round_trip(p.local_port, s, b + 25);
    assert(s.subrange(b + 27, b + 27 + o.len()) =~= o);
    lemma_opt_u64_round_trip(p.temp_ban_until, s, b + 27);
    assert(s[b + 27 + o.len()] == state_byte(p.state));
    assert(e.len() == 28 + o.len());
}

impl StoredPeer {
    pub fn new(local_port: u16, state: StoredPeerState, now: u64) -> (r: StoredPeer)
        ensures
            r == fresh_record(local_port, state, now),
    {
        StoredPeer {
            first_seen: now,
            last_seen: now,
            last_connection_try: 0,
            fail_count: 0,
            local_port,
            temp_ban_until: None,
            state,
        }
    }

    pub fn get_first_seen(&self) -> (r: u64)
        ensures
            r == self.first_seen,
    {
        self.first_seen
    }

    pub fn get_last_seen(&self) -> (r: u64)
        ensures
            r == self.last_seen,
    {
        self.last_seen
    }

    pub fn get_last_connection_try(&self) -> (r: u64)
        ensures
            r == self.last_connection_try,
    {
        self.last_connection_try
    }

    pub fn get_state(&self) -> (r: &StoredPeerState)
        ensures
            *r == self.state,
    {
        &self.state
    }

    pub fn get_temp_ban_until(&self) -> (r: Option<u64>)
        ensures
            r == self.temp_ban_until,
    {
        self.temp_ban_until
    }

    pub fn get_fail_count(&self) -> (r: u8)
        ensures
            r == self.fail_count,
    {
        self.fail_count
    }

    pub fn get_local_port(&self) -> (r: u16)
        ensures
            r == self.local_port,
    {
        self.local_port
    }

    pub fn set_last_seen(&mut self, last_seen: u64)
        ensures
            *final(self) == (StoredPeer { last_seen, ..*old(self) }),
    {
        self.last_seen = last_seen;
    }

    pub fn set_last_connection_try(&mut self, last_connection_try: u64)
        ensures
            *final(self) == (StoredPeer { last_connection_try, ..*old(self) }),
    {
        self.last_connection_try = last_connection_try;
    }

    pub fn set_state(&mut self, state: StoredPeerState)
        ensures
            *final(self) == (StoredPeer { state, ..*old(self) }),
    {
        self.state = state;
    }

    pub fn set_temp_ban_until(&mut self, temp_ban_until: Option<u64>)
        ensures
            *final(self) == (StoredPeer { temp_ban_until, ..*old(self) }),
    {
        self.temp_ban_until = temp_ban_until;
    }

    pub fn set_fail_count(&mut self, fail_count: u8)
        ensures
            *final(self) == (StoredPeer { fail_count, ..*old(self) }),
    {
        self.fail_count = fail_count;
    }

    pub fn set_local_port(&mut self, local_port: u16)
        ensures
            *final(self) == (StoredPeer { local_port, ..*old(self) }),
    {
        self.local_port = local_port;
    }

    pub fn write(&self, out: &mut Vec<u8>)
        ensures
            final(out)@ == old(out)@ + stored_peer_bytes(*self),
    {
        let ghost start = out@;
        write_u64(out, self.first_seen);
        write_u64(out, self.last_seen);
        write_u64(out, self.last_connection_try);
        write_u8(out, self.fail_count);
        write_u16(out, self.local_port);
        write_opt_u64(out, self.temp_ban_until);
        let tag: u8 = match self.state {
            StoredPeerState::Whitelist => 0,
            StoredPeerState::Graylist => 1,
            StoredPeerState::Blacklist => 2,
        };
        write_u8(out, tag);
        assert(out@ =~= start + stored_peer_bytes(*self));
    }

    pub fn to_bytes(&self) -> (r: Vec<u8>)
        ensures
            r@ == stored_peer_bytes(*self),
    {
        let mut out: Vec<u8> = Vec::new();
        self.write(&mut out);
        assert(out@ =~= stored_peer_bytes(*self));
        out
    }

    /// Reads the record encoded at `pos`; an unknown state byte or an
    /// option tag other than 0 or 1 is an invalid value.
    pub fn read(data: &Vec<u8>, pos: usize) -> (r: Result<(StoredPeer, usize), ReaderError>)
        ensures
            match r {
                Ok((p, next)) => parse_stored_peer(data@, pos as int) == Some((p, next as int)),
                Err(e) => parse_stored_peer(data@, pos as int) is None && e == stored_peer_error(
                    data@,
                    pos as int,
                ),
            },
    {
        if pos > data.len() || data.len() - pos < 29 {
            return Err(ReaderError::InvalidSize);
        }
        let first_seen = read_u64(data, pos)?;
        let last_seen = read_u64(data, pos + 8)?;
        let last_connection_try = read_u64(data, pos + 16)?;
        let fail_count = data[pos + 24];
        let local_port = read_u16(data, pos + 25)?;
        let temp_ban_until = read_opt_u64(data, pos + 27)?;
        proof {
            if let Some(x) = temp_ban_until {
                lemma_u64_bytes_len(x);
            }
        }
        let at6: usize = match temp_ban_until {
            None => pos + 28,
            Some(_) => pos + 36,
        };
        let tag = read_u8(data, at6)?;
        let state = if tag == 0 {
            StoredPeerState::Whitelist
        } else if tag == 1 {
            StoredPeerState::Graylist
        } else if tag == 2 {
            StoredPeerState::Blacklist
        } else {
            return Err(ReaderError::InvalidValue);
        };
        Ok(
            (
                StoredPeer {
                    first_seen,
                    last_seen,
                    last_connection_try,
                    fail_count,
                    local_port,
                    temp_ban_until,
                    state,
                },
                at6 + 1,
            ),
        )
    }
}

/// A connected peer, as the registry sees it.
#[derive(Debug)]
pub struct Peer {
    pub id: u64,
    /// The address the connection came from.
    pub connection_address: PeerAddress,
    /// The address the peer listens on.
    pub outgoing_address: PeerAddress,
    pub local_port: u16,
    pub topoheight: u64,
    /// Whether the peer lets its address be shared with others.
    pub sharable: bool,
    /// Addresses exchanged with this peer, with the direction of the exchange.
    pub shared_peers: Vec<(PeerAddress, Direction)>,
}

pub struct PeerModel {
    pub id: u64,
    pub connection_address: PeerAddress,
    pub outgoing_address: PeerAddress,
    pub local_port: u16,
    pub topoheight: u64,
    pub sharable: bool,
    pub shared_peers: Seq<(PeerAddress, Direction)>,
}

impl View for Peer {
    type V = PeerModel;

    open spec fn view(&self) -> PeerModel {
        PeerModel {
            id: self.id,
            connection_address: self.connection_address,
            outgoing_address: self.outgoing_address,
            local_port: self.local_port,
            topoheight: self.topoheight,
            sharable: self.sharable,
            shared_peers: self.shared_peers@,
        }
    }
}

impl Peer {
    pub fn get_id(&self) -> (r: u64)
        ensures
            r == self.id,
    {
        self.id
    }

    pub fn get_topoheight(&self) -> (r: u64)
        ensures
            r == self.topoheight,
    {
        self.topoheight
    }

    pub fn get_outgoing_address(&self) -> (r: &PeerAddress)
        ensures
            *r == self.outgoing_address,
    {
        &self.outgoing_address
    }

    pub fn get_connection_address(&self) -> (r: &PeerAddress)
        ensures
            *r == self.connection_address,
    {
        &self.connection_address
    }

    pub fn get_local_port(&self) -> (r: u16)
        ensures
            r == self.local_port,
    {
        self.local_port
    }

    pub fn sharable(&self) -> (r: bool)
        ensures
            r == self.sharable,
    {
        self.sharable
    }
}

impl Clone for Peer {
    fn clone(&self) -> (r: Self)
        ensures
            r@ == self@,
    {
        let mut shared_peers: Vec<(PeerAddress, Direction)> = Vec::new();
        let mut i: usize = 0;
        while i < self.shared_peers.len()
            invariant
                i <= self.shared_peers@.len(),
                shared_peers@ == self.shared_peers@.take(i as int),
            decreases self.shared_peers@.len() - i,
        {
            shared_peers.push(self.shared_peers[i]);
            i += 1;
            assert(shared_peers@ =~= self.shared_peers@.take(i as int));
        }
        assert(self.shared_peers@.take(self.shared_peers@.len() as int) =~= self.shared_peers@);
        Peer {
            id: self.id,
            connection_address: self.connection_address,
            outgoing_address: self.outgoing_address,
            local_port: self.local_port,
            topoheight: self.topoheight,
            sharable: self.sharable,
            shared_peers,
        }
    }
}

/// Why the registry refused an operation.
#[derive(Debug, Clone, Copy, PartialEq, Eq, Structural)]
pub enum P2pError {
    PeerNotFoundById(u64),
    PeerListFull,
    PeerIdAlreadyUsed(u64),
}

pub struct PeerListModel {
    pub peers: Seq<PeerModel>,
    pub store: Seq<(IpAddress, StoredPeer)>,
}

/// The live peers, in order of connection, and the policy store, in order
/// of first observation, one record per IP address.
#[derive(Debug)]
pub struct PeerList {
    peers: Vec<Peer>,
    store: Vec<(IpAddress, StoredPeer)>,
}

impl View for PeerList {
    type V = PeerListModel;

    closed spec fn view(&self) -> PeerListModel {
        PeerListModel { peers: self.peers@.map_values(|p: Peer| p@), store: self.store@ }
    }
}

pub open spec fn ids_unique(peers: Seq<PeerModel>) -> bool {
    forall|i: int, j: int| 0 <= i < j < peers.len() ==> #[trigger] peers[i].id != #[trigger] peers[j].id
}

pub open spec fn peer_list_wf(m: PeerListModel) -> bool {
    &&& ids_unique(m.peers)
    &&& unique_keys(m.store)
}

/// The store with `ip` set to `record`: in place if the address is known,
/// appended otherwise.
pub open spec fn store_put(s: Seq<(IpAddress, StoredPeer)>, ip: IpAddress, record: StoredPeer) -> Seq<
    (IpAddress, StoredPeer),
> {
    if exists|i: int| 0 <= i < s.len() && s[i].0 == ip {
        let i = choose|i: int| 0 <= i < s.len() && s[i].0 == ip;
        s.update(i, (ip, record))
    } else {
        s.push((ip, record))
    }
}

/// Whether a live peer uses `addr`, as its connection or as its listening
/// address.
pub open spec fn peer_uses(p: PeerModel, addr: PeerAddress) -> bool {
    p.connection_address == addr || p.outgoing_address == addr
}

pub open spec fn connected_to(peers: Seq<PeerModel>, addr: PeerAddress) -> bool {
    exists|i: int| 0 <= i < peers.len() && peer_uses(#[trigger] peers[i], addr)
}

/// Whether the access policy lets `ip` in at `now`.
pub open spec fn allowed(store: Seq<(IpAddress, StoredPeer)>, ip: IpAddress, now: u64) -> bool {
    let m = map_of(store);
    !m.contains_key(ip) || (m[ip].state != StoredPeerState::Blacklist && match m[ip].temp_ban_until {
        Some(until) => until < now,
        None => true,
    })
}

/// Whether a stored record may be tried at `now`.
pub open spec fn eligible(peers: Seq<PeerModel>, e: (IpAddress, StoredPeer), now: u64) -> bool {
    &&& e.1.state != StoredPeerState::Blacklist
    &&& e.1.last_connection_try + e.1.fail_count * P2P_EXTEND_PEERLIST_DELAY <= now
    &&& !connected_to(peers, PeerAddress { ip: e.0, port: e.1.local_port })
}

pub open spec fn first_eligible(
    peers: Seq<PeerModel>,
    store: Seq<(IpAddress, StoredPeer)>,
    state: StoredPeerState,
    now: u64,
    i: int,
) -> bool {
    &&& 0 <= i < store.len()
    &&& eligible(peers, store[i], now)
    &&& store[i].1.state == state
    &&& forall|j: int|
        0 <= j < i ==> !(eligible(peers, #[trigger] store[j], now) && store[j].1.state == state)
}

/// The median of a sorted sequence: the middle value, or the floored mean
/// of the two middle values; zero when empty.
pub open spec fn median_of_sorted(s: Seq<u64>) -> u64 {
    if s.len() == 0 {
        0
    } else if s.len() % 2 == 0 {
        ((s[(s.len() / 2 - 1) as int] + s[(s.len() / 2) as int]) / 2) as u64
    } else {
        s[(s.len() / 2) as int]
    }
}

pub open spec fn u64_leq() -> spec_fn(u64, u64) -> bool {
    |a: u64, b: u64| a <= b
}

/// The median of a multiset of values given as a sequence.
pub open spec fn median(values: Seq<u64>) -> u64 {
    median_of_sorted(values.sort_by(u64_leq()))
}

pub open spec fn topoheights(peers: Seq<PeerModel>) -> Seq<u64> {
    peers.map_values(|p: PeerModel| p.topoheight)
}

fn sorted_copy(values: &Vec<u64>) -> (r: Vec<u64>)
    ensures
        r@ == values@.sort_by(u64_leq()),
{
    let ghost leq = u64_leq();
    let mut out: Vec<u64> = Vec::new();
    let mut i: usize = 0;
    proof {
        assert(values@.take(0) =~= Seq::<u64>::empty());
        assert(out@ =~= Seq::<u64>::empty());
    }
    while i < values.len()
        invariant
            leq == u64_leq(),
            i <= values@.len(),
            sorted_by(out@, leq),
            out@.to_multiset() == values@.take(i as int).to_multiset(),
        decreases values@.len() - i,
    {
        let x = values[i];
        let mut p: usize = 0;
        while p < out.len() && out[p] <= x
            invariant
                p <= out@.len(),
                forall|j: int| 0 <= j < p ==> out@[j] <= x,
            decreases out@.len() - p,
        {
            p += 1;
        }
        let ghost before = out@;
        out.insert(p, x);
        proof {
            vstd::seq_lib::to_multiset_insert(before, p as int, x);
            assert(values@.take(i + 1) =~= values@.take(i as int).push(x));
            vstd::seq_lib::to_multiset_build(values@.take(i as int), x);
            assert(out@ == before.insert(p as int, x));
            assert forall|a: int, b: int| 0 <= a < b < out@.len() implies #[trigger] leq(
                out@[a],
                out@[b],
            ) by {
                if p < before.len() {
                    assert(before[p as int] > x);
                }
                if a < p && b == p {
                } else if a == p && b > p {
                    assert(out@[b] == before[b - 1]);
                    assert(before[p as int] <= before[b - 1]) by {
                        if p < b - 1 {
                            assert(leq(before[p as int], before[b - 1]));
                        }
                    }
                } else {
                    let oa = if a < p { a } else { a - 1 };
                    let ob = if b < p { b } else { b - 1 };
                    assert(out@[a] == before[oa]);
                    assert(out@[b] == before[ob]);
                    assert(leq(before[oa], before[ob]));
                }
            }
        }
        i += 1;
    }
    proof {
        assert(values@.take(values@.len() as int) =~= values@);
        assert(vstd::relations::total_ordering(leq)) by {
            assert(vstd::relations::reflexive(leq));
            assert(vstd::relations::antisymmetric(leq));
            assert(vstd::relations::transitive(leq));
            assert(vstd::relations::strongly_connected(leq));
        }
        values@.lemma_sort_by_ensures(leq);
        vstd::seq_lib::lemma_sorted_unique(out@, values@.sort_by(leq), leq);
    }
    out
}

/// The store after a peer listening on `port` at `ip` connected at `now`.
pub open spec fn store_after_connect(
    store: Seq<(IpAddress, StoredPeer)>,
    ip: IpAddress,
    port: u16,
    now: u64,
) -> Seq<(IpAddress, StoredPeer)> {
    let m = map_of(store);
    if m.contains_key(ip) {
        store_put(store, ip, StoredPeer { fail_count: 0, last_seen: now, local_port: port, ..m[ip] })
    } else {
        store_put(store, ip, fresh_record(port, StoredPeerState::Graylist, now))
    }
}

/// The store after a failed connection to `ip` at `now`: whitelisted
/// records are left alone; otherwise the record (created if missing) is
/// temporarily banned when `temp_ban` is set and its count is a non-zero
/// multiple of `PEER_FAIL_TO_CONNECT_LIMIT`, and its count goes up by one,
/// wrapping at 256.
pub open spec fn store_after_failure(
    store: Seq<(IpAddress, StoredPeer)>,
    ip: IpAddress,
    temp_ban: bool,
    now: u64,
) -> Seq<(IpAddress, StoredPeer)> {
    let m = map_of(store);
    let rec = if m.contains_key(ip) {
        m[ip]
    } else {
        fresh_record(0, StoredPeerState::Graylist, now)
    };
    if rec.state == StoredPeerState::Whitelist {
        store
    } else {
        let banned = if temp_ban && rec.fail_count != 0 && rec.fail_count
            % PEER_FAIL_TO_CONNECT_LIMIT == 0 {
            StoredPeer { temp_ban_until: Some((now + PEER_TEMP_BAN_TIME_ON_CONNECT) as u64), ..rec }
        } else {
            rec
        };
        store_put(
            store,
            ip,
            StoredPeer { fail_count: ((rec.fail_count + 1) % 256) as u8, ..banned },
        )
    }
}

/// The store with the state of `ip` set, the record created if missing.
pub open spec fn store_with_state(
    store: Seq<(IpAddress, StoredPeer)>,
    ip: IpAddress,
    state: StoredPeerState,
    now: u64,
) -> Seq<(IpAddress, StoredPeer)> {
    let m = map_of(store);
    if m.contains_key(ip) {
        store_put(store, ip, StoredPeer { state, ..m[ip] })
    } else {
        store_put(store, ip, fresh_record(0, state, now))
    }
}

/// The store with `ip` banned until `until`, the record created if missing.
pub open spec fn store_with_ban(
    store: Seq<(IpAddress, StoredPeer)>,
    ip: IpAddress,
    until: u64,
    now: u64,
) -> Seq<(IpAddress, StoredPeer)> {
    let m = map_of(store);
    if m.contains_key(ip) {
        store_put(store, ip, StoredPeer { temp_ban_until: Some(until), ..m[ip] })
    } else {
        store_put(
            store,
            ip,
            StoredPeer { temp_ban_until: Some(until), ..fresh_record(0, StoredPeerState::Graylist, now) },
        )
    }
}

/// The entries of a shared-peers list other than those for `addr`.
pub open spec fn without_addr(s: Seq<(PeerAddress, Direction)>, addr: PeerAddress) -> Seq<
    (PeerAddress, Direction),
>
    decreases s.len(),
{
    if s.len() == 0 {
        Seq::empty()
    } else {
        let r = without_addr(s.drop_last(), addr);
        if s.last().0 == addr {
            r
        } else {
            r.push(s.last())
        }
    }
}

/// The direction recorded for `addr`, by its first entry.
pub open spec fn direction_of(s: Seq<(PeerAddress, Direction)>, addr: PeerAddress) -> Option<Direction>
    decreases s.len(),
{
    if s.len() == 0 {
        None
    } else if s[0].0 == addr {
        Some(s[0].1)
    } else {
        direction_of(s.drop_first(), addr)
    }
}

/// Whether peer `q` is told that `addr` left: it holds `addr` with a
/// direction other than `In`.
pub open spec fn must_notify(q: PeerModel, addr: PeerAddress) -> bool {
    match direction_of(q.shared_peers, addr) {
        Some(d) => d != Direction::In,
        None => false,
    }
}

pub open spec fn after_departure(q: PeerModel, addr: PeerAddress, active: bool) -> PeerModel {
    if active && must_notify(q, addr) {
        PeerModel { shared_peers: without_addr(q.shared_peers, addr), ..q }
    } else {
        q
    }
}

/// Ids of the peers to notify, in order.
pub open spec fn notified_ids(peers: Seq<PeerModel>, addr: PeerAddress, active: bool) -> Seq<u64>
    decreases peers.len(),
{
    if peers.len() == 0 {
        Seq::empty()
    } else {
        let r = notified_ids(peers.drop_last(), addr, active);
        if active && must_notify(peers.last(), addr) {
            r.push(peers.last().id)
        } else {
            r
        }
    }
}

pub open spec fn max_topoheight(peers: Seq<PeerModel>) -> u64
    decreases peers.len(),
{
    if peers.len() == 0 {
        0
    } else {
        let m = max_topoheight(peers.drop_last());
        if peers.last().topoheight > m {
            peers.last().topoheight
        } else {
            m
        }
    }
}

pub open spec fn with_state(store: Seq<(IpAddress, StoredPeer)>, state: StoredPeerState) -> Seq<
    (IpAddress, StoredPeer),
>
    decreases store.len(),
{
    if store.len() == 0 {
        Seq::empty()
    } else {
        let r = with_state(store.drop_last(), state);
        if store.last().1.state == state {
            r.push(store.last())
        } else {
            r
        }
    }
}

fn without_addr_exec(s: &Vec<(PeerAddress, Direction)>, addr: &PeerAddress) -> (r: Vec<(PeerAddress, Direction)>)
    ensures
        r@ == without_addr(s@, *addr),
{
    let mut out: Vec<(PeerAddress, Direction)> = Vec::new();
    let mut i: usize = 0;
    assert(s@.take(0) =~= Seq::<(PeerAddress, Direction)>::empty());
    while i < s.len()
        invariant
            i <= s@.len(),
            out@ == without_addr(s@.take(i as int), *addr),
        decreases s@.len() - i,
    {
        let e = s[i];
        assert(s@.take(i + 1).drop_last() =~= s@.take(i as int));
        if e.0 != *addr {
            out.push(e);
        }
        i += 1;
    }
    assert(s@.take(s@.len() as int) =~= s@);
    out
}

fn direction_of_exec(s: &Vec<(PeerAddress, Direction)>, addr: &PeerAddress) -> (r: Option<Direction>)
    ensures
        r == direction_of(s@, *addr),
{
    let mut i: usize = 0;
    assert(s@.subrange(0, s@.len() as int) =~= s@);
    while i < s.len()
        invariant
            i <= s@.len(),
            direction_of(s@, *addr) == direction_of(s@.subrange(i as int, s@.len() as int), *addr),
        decreases s@.len() - i,
    {
        assert(s@.subrange(i as int, s@.len() as int).drop_first() =~= s@.subrange(i + 1, s@.len() as int));
        if s[i].0 == *addr {
            return Some(s[i].1);
        }
        i += 1;
    }
    None
}

impl PeerList {
    pub open spec fn wf(&self) -> bool {
        peer_list_wf(self@)
    }

    pub fn new() -> (r: PeerList)
        ensures
            r.wf(),
            r@.peers == Seq::<PeerModel>::empty(),
            r@.store == Seq::<(IpAddress, StoredPeer)>::empty(),
    {
        let r = PeerList { peers: Vec::new(), store: Vec::new() };
        assert(r@.peers =~= Seq::<PeerModel>::empty());
        r
    }

    /// Forgets every stored record.
    pub fn clear_peerlist(&mut self)
        requires
            old(self).wf(),
        ensures
            final(self).wf(),
            final(self)@.peers == old(self)@.peers,
            final(self)@.store == Seq::<(IpAddress, StoredPeer)>::empty(),
    {
        self.store = Vec::new();
        assert(self@.store =~= Seq::<(IpAddress, StoredPeer)>::empty());
    }

    pub fn size(&self) -> (r: usize)
        ensures
            r == self@.peers.len(),
    {
        self.peers.len()
    }

    pub fn get_peers(&self) -> (r: &Vec<Peer>)
        ensures
            r@.map_values(|p: Peer| p@) == self@.peers,
    {
        &self.peers
    }

    /// Copies of the live peers, in order of connection.
    pub fn get_cloned_peers(&self) -> (r: Vec<Peer>)
        ensures
            r@.map_values(|p: Peer| p@) == self@.peers,
    {
        let mut out: Vec<Peer> = Vec::new();
        let mut i: usize = 0;
        while i < self.peers.len()
            invariant
                i <= self@.peers.len(),
                out@.len() == i,
                forall|k: int| 0 <= k < i ==> #[trigger] out@[k]@ == self@.peers[k],
            decreases self@.peers.len() - i,
        {
            out.push(self.peers[i].clone());
            i += 1;
        }
        assert(out@.map_values(|p: Peer| p@) =~= self@.peers);
        out
    }

    pub fn get_stored_peers(&self) -> (r: &Vec<(IpAddress, StoredPeer)>)
        ensures
            r@ == self@.store,
    {
        &self.store
    }

    fn find_peer(&self, id: u64) -> (r: Option<usize>)
        ensures
            match r {
                Some(i) => i < self@.peers.len() && self@.peers[i as int].id == id,
                None => forall|j: int| 0 <= j < self@.peers.len() ==> #[trigger] self@.peers[j].id != id,
            },
    {
        let mut i: usize = 0;
        while i < self.peers.len()
            invariant
                i <= self@.peers.len(),
                forall|j: int| 0 <= j < i ==> #[trigger] self@.peers[j].id != id,
            decreases self@.peers.len() - i,
        {
            if self.peers[i].id == id {
                return Some(i);
            }
            i += 1;
        }
        None
    }

    pub fn has_peer(&self, id: u64) -> (r: bool)
        ensures
            r == exists|j: int| 0 <= j < self@.peers.len() && #[trigger] self@.peers[j].id == id,
    {
        self.find_peer(id).is_some()
    }

    fn find_stored(&self, ip: &IpAddress) -> (r: Option<usize>)
        requires
            self.wf(),
        ensures
            match r {
                Some(i) => i < self@.store.len() && self@.store[i as int].0 == *ip
                    && map_of(self@.store).contains_key(*ip) && map_of(self@.store)[*ip]
                    == self@.store[i as int].1,
                None => !map_of(self@.store).contains_key(*ip) && forall|j: int|
                    0 <= j < self@.store.len() ==> #[trigger] self@.store[j].0 != *ip,
            },
    {
        proof {
            lemma_map_of(self@.store);
        }
        let mut i: usize = 0;
        while i < self.store.len()
            invariant
                self.wf(),
                i <= self@.store.len(),
                forall|j: int| 0 <= j < i ==> #[trigger] self@.store[j].0 != *ip,
            decreases self@.store.len() - i,
        {
            if self.store[i].0 == *ip {
                proof {
                    lemma_map_of(self@.store);
                }
                return Some(i);
            }
            i += 1;
        }
        None
    }

    pub fn has_peer_stored(&self, ip: &IpAddress) -> (r: bool)
        requires
            self.wf(),
        ensures
            r == map_of(self@.store).contains_key(*ip),
    {
        self.find_stored(ip).is_some()
    }

    pub fn get_stored_peer(&self, ip: &IpAddress) -> (r: Option<StoredPeer>)
        requires
            self.wf(),
        ensures
            r == (if map_of(self@.store).contains_key(*ip) {
                Some(map_of(self@.store)[*ip])
            } else {
                None
            }),
    {
        match self.find_stored(ip) {
            Some(i) => Some(self.store[i].1),
            None => None,
        }
    }

    fn put_stored(&mut self, ip: IpAddress, record: StoredPeer)
        requires
            old(self).wf(),
        ensures
            final(self).wf(),
            final(self)@.peers == old(self)@.peers,
            final(self)@.store == store_put(old(self)@.store, ip, record),
            map_of(final(self)@.store) == map_of(old(self)@.store).insert(ip, record),
    {
        let ghost s = self@.store;
        match self.find_stored(&ip) {
            Some(i) => {
                proof {
                    lemma_map_of_update(s, i as int, record);
                    assert(s[i as int].0 == ip);
                    let c = choose|k: int| 0 <= k < s.len() && s[k].0 == ip;
                    assert(c == i as int);
                }
                self.store.set(i, (ip, record));
            },
            None => {
                proof {
                    lemma_map_of_push(s, ip, record);
                }
                self.store.push((ip, record));
            },
        }
    }

    /// Registers a newly connected peer, unless the list already holds
    /// `max_peers` peers or one with the same id, and records its address.
    pub fn add_peer(&mut self, peer: Peer, max_peers: usize, now: u64) -> (r: Result<(), P2pError>)
        requires
            old(self).wf(),
        ensures
            final(self).wf(),
            match r {
                Ok(()) => old(self)@.peers.len() < max_peers && !(exists|j: int|
                    0 <= j < old(self)@.peers.len() && #[trigger] old(self)@.peers[j].id == peer.id)
                    && final(self)@.peers == old(self)@.peers.push(peer@) && final(self)@.store
                    == store_after_connect(
                    old(self)@.store,
                    peer.outgoing_address.ip,
                    peer.local_port,
                    now,
                ),
                Err(e) => final(self)@ == old(self)@ && if old(self)@.peers.len() >= max_peers {
                    e == P2pError::PeerListFull
                } else {
                    e == P2pError::PeerIdAlreadyUsed(peer.id) && exists|j: int|
                        0 <= j < old(self)@.peers.len() && #[trigger] old(self)@.peers[j].id == peer.id
                },
            },
    {
        if self.peers.len() >= max_peers {
            return Err(P2pError::PeerListFull);
        }
        if self.find_peer(peer.id).is_some() {
            return Err(P2pError::PeerIdAlreadyUsed(peer.id));
        }
        let ip = peer.outgoing_address.ip;
        let port = peer.local_port;
        let ghost old_peers = self@.peers;
        let ghost pm = peer@;
        self.peers.push(peer);
        proof {
            assert(self@.peers =~= old_peers.push(pm));
            assert forall|i: int, j: int| 0 <= i < j < self@.peers.len() implies #[trigger] self@.peers[i].id
                != #[trigger] self@.peers[j].id by {
                if j == old_peers.len() {
                    assert(self@.peers[i] == old_peers[i]);
                } else {
                    assert(self@.peers[i] == old_peers[i]);
                    assert(self@.peers[j] == old_peers[j]);
                }
            }
        }
        self.update_peer(ip, port, now);
        Ok(())
    }

    /// Records that a peer listening on `port` at `ip` connected at `now`.
    fn update_peer(&mut self, ip: IpAddress, port: u16, now: u64)
        requires
            old(self).wf(),
        ensures
            final(self).wf(),
            final(self)@.peers == old(self)@.peers,
            final(self)@.store == store_after_connect(old(self)@.store, ip, port, now),
    {
        match self.get_stored_peer(&ip) {
            Some(rec) => {
                let mut rec = rec;
                rec.set_fail_count(0);
                rec.set_last_seen(now);
                rec.set_local_port(port);
                self.put_stored(ip, rec);
            },
            None => {
                self.put_stored(ip, StoredPeer::new(port, StoredPeerState::Graylist, now));
            },
        }
    }

    /// Takes peer `peer_id` out of the live list. When `notify` is set and
    /// the peer is sharable, every remaining peer holding its listening
    /// address with a direction other than `In` drops that address; their
    /// ids come back, in order, for the caller to send each of them a
    /// disconnection notice.
    pub fn remove_peer(&mut self, peer_id: u64, notify: bool) -> (r: Result<(Peer, Vec<u64>), P2pError>)
        requires
            old(self).wf(),
        ensures
            final(self).wf(),
            final(self)@.store == old(self)@.store,
            match r {
                Ok((p, ids)) => exists|i: int|
                    0 <= i < old(self)@.peers.len() && #[trigger] old(self)@.peers[i].id == peer_id
                        && p@ == old(self)@.peers[i] && final(self)@.peers == old(self)@.peers.remove(
                        i,
                    ).map_values(
                        |q: PeerModel| after_departure(q, p@.outgoing_address, notify && p@.sharable),
                    ) && ids@ == notified_ids(
                        old(self)@.peers.remove(i),
                        p@.outgoing_address,
                        notify && p@.sharable,
                    ),
                Err(e) => e == P2pError::PeerNotFoundById(peer_id) && final(self)@ == old(self)@
                    && forall|j: int|
                    0 <= j < old(self)@.peers.len() ==> #[trigger] old(self)@.peers[j].id != peer_id,
            },
    {
        let i = match self.find_peer(peer_id) {
            Some(i) => i,
            None => {
                return Err(P2pError::PeerNotFoundById(peer_id));
            },
        };
        let ghost old_peers = self@.peers;
        let ghost old_store = self@.store;
        let peer = self.peers.remove(i);
        let ghost rest = old_peers.remove(i as int);
        proof {
            assert(self@.peers =~= rest);
        }
        let active = notify && peer.sharable;
        let addr = peer.outgoing_address;
        let mut ids: Vec<u64> = Vec::new();
        let mut j: usize = 0;
        proof {
            assert(rest.take(0) =~= Seq::<PeerModel>::empty());
            assert(ids@ =~= notified_ids(rest.take(0), addr, active));
        }
        while j < self.peers.len()
            invariant
                rest.len() == self@.peers.len(),
                self@.store == old_store,
                j <= rest.len(),
                forall|k: int| 0 <= k < j ==> #[trigger] self@.peers[k] == after_departure(rest[k], addr, active),
                forall|k: int| j <= k < rest.len() ==> #[trigger] self@.peers[k] == rest[k],
                ids@ == notified_ids(rest.take(j as int), addr, active),
            decreases rest.len() - j,
        {
            assert(self@.peers[j as int] == rest[j as int]);
            let dir = direction_of_exec(&self.peers[j].shared_peers, &addr);
            let send = active && match dir {
                Some(d) => d != Direction::In,
                None => false,
            };
            proof {
                assert(rest.take(j + 1).drop_last() =~= rest.take(j as int));
                assert(rest.take(j + 1).last() == rest[j as int]);
            }
            if send {
                let kept = without_addr_exec(&self.peers[j].shared_peers, &addr);
                let ghost before = self@.peers;
                self.peers[j].shared_peers = kept;
                proof {
                    assert forall|k: int| 0 <= k < self@.peers.len() && k != j implies #[trigger] self@.peers[k]
                        == before[k] by {}
                }
                ids.push(self.peers[j].id);
            }
            j += 1;
        }
        proof {
            assert(rest.take(rest.len() as int) =~= rest);
            assert(self@.peers =~= rest.map_values(|q: PeerModel| after_departure(q, addr, active)));
            assert forall|a: int, b: int| 0 <= a < b < self@.peers.len() implies #[trigger] self@.peers[a].id
                != #[trigger] self@.peers[b].id by {
                let oa = if a < i { a } else { a + 1 };
                let ob = if b < i { b } else { b + 1 };
                assert(rest[a] == old_peers[oa]);
                assert(rest[b] == old_peers[ob]);
            }
        }
        Ok((peer, ids))
    }

    /// Empties the live list and hands the peers back, for the caller to
    /// close them.
    pub fn close_all(&mut self) -> (r: Vec<Peer>)
        requires
            old(self).wf(),
        ensures
            final(self).wf(),
            r@.map_values(|p: Peer| p@) == old(self)@.peers,
            final(self)@.peers == Seq::<PeerModel>::empty(),
            final(self)@.store == old(self)@.store,
    {
        let mut drained: Vec<Peer> = Vec::new();
        std::mem::swap(&mut drained, &mut self.peers);
        assert(self@.peers =~= Seq::<PeerModel>::empty());
        drained
    }

    /// The highest topoheight among the live peers, zero if there are none.
    pub fn get_best_topoheight(&self) -> (r: u64)
        ensures
            r == max_topoheight(self@.peers),
    {
        let mut best: u64 = 0;
        let mut i: usize = 0;
        assert(self@.peers.take(0) =~= Seq::<PeerModel>::empty());
        while i < self.peers.len()
            invariant
                i <= self@.peers.len(),
                best == max_topoheight(self@.peers.take(i as int)),
            decreases self@.peers.len() - i,
        {
            assert(self@.peers.take(i + 1).drop_last() =~= self@.peers.take(i as int));
            let h = self.peers[i].topoheight;
            if h > best {
                best = h;
            }
            i += 1;
        }
        assert(self@.peers.take(self@.peers.len() as int) =~= self@.peers);
        best
    }

    /// The median topoheight of the live peers, together with
    /// `our_topoheight` when given.
    pub fn get_median_topoheight(&self, our_topoheight: Option<u64>) -> (r: u64)
        ensures
            r == median(
                match our_topoheight {
                    Some(h) => topoheights(self@.peers).push(h),
                    None => topoheights(self@.peers),
                },
            ),
    {
        let mut values: Vec<u64> = Vec::new();
        let mut i: usize = 0;
        while i < self.peers.len()
            invariant
                i <= self@.peers.len(),
                values@ == topoheights(self@.peers.take(i as int)),
            decreases self@.peers.len() - i,
        {
            values.push(self.peers[i].topoheight);
            i += 1;
            assert(values@ =~= topoheights(self@.peers.take(i as int)));
        }
        assert(self@.peers.take(self@.peers.len() as int) =~= self@.peers);
        if let Some(h) = our_topoheight {
            values.push(h);
        }
        let sorted = sorted_copy(&values);
        let len = sorted.len();
        if len == 0 {
            return 0;
        }
        if len % 2 == 0 {
            let left = sorted[len / 2 - 1] as u128;
            let right = sorted[len / 2] as u128;
            ((left + right) / 2) as u64
        } else {
            sorted[len / 2]
        }
    }

    fn internal_get_peer_by_addr(&self, addr: &PeerAddress) -> (r: Option<usize>)
        ensures
            match r {
                Some(i) => i < self@.peers.len() && peer_uses(self@.peers[i as int], *addr)
                    && forall|j: int| 0 <= j < i ==> !peer_uses(#[trigger] self@.peers[j], *addr),
                None => !connected_to(self@.peers, *addr),
            },
    {
        let mut i: usize = 0;
        while i < self.peers.len()
            invariant
                i <= self@.peers.len(),
                forall|j: int| 0 <= j < i ==> !peer_uses(#[trigger] self@.peers[j], *addr),
            decreases self@.peers.len() - i,
        {
            let p = &self.peers[i];
            if p.connection_address == *addr || p.outgoing_address == *addr {
                return Some(i);
            }
            i += 1;
        }
        None
    }

    /// The first live peer that uses `addr`.
    pub fn get_peer_by_addr(&self, addr: &PeerAddress) -> (r: Option<&Peer>)
        ensures
            match r {
                Some(p) => exists|i: int|
                    0 <= i < self@.peers.len() && p@ == #[trigger] self@.peers[i] && peer_uses(
                        self@.peers[i],
                        *addr,
                    ) && forall|j: int| 0 <= j < i ==> !peer_uses(#[trigger] self@.peers[j], *addr),
                None => !connected_to(self@.peers, *addr),
            },
    {
        match self.internal_get_peer_by_addr(addr) {
            Some(i) => Some(&self.peers[i]),
            None => None,
        }
    }

    pub fn is_connected_to_addr(&self, addr: &PeerAddress) -> (r: bool)
        ensures
            r == connected_to(self@.peers, *addr),
    {
        self.internal_get_peer_by_addr(addr).is_some()
    }

    fn addr_has_state(&self, ip: &IpAddress, state: StoredPeerState) -> (r: bool)
        requires
            self.wf(),
        ensures
            r == (map_of(self@.store).contains_key(*ip) && map_of(self@.store)[*ip].state == state),
    {
        match self.get_stored_peer(ip) {
            Some(rec) => rec.state == state,
            None => false,
        }
    }

    pub fn is_blacklisted(&self, ip: &IpAddress) -> (r: bool)
        requires
            self.wf(),
        ensures
            r == (map_of(self@.store).contains_key(*ip) && map_of(self@.store)[*ip].state
                == StoredPeerState::Blacklist),
    {
        self.addr_has_state(ip, StoredPeerState::Blacklist)
    }

    pub fn is_whitelisted(&self, ip: &IpAddress) -> (r: bool)
        requires
            self.wf(),
        ensures
            r == (map_of(self@.store).contains_key(*ip) && map_of(self@.store)[*ip].state
                == StoredPeerState::Whitelist),
    {
        self.addr_has_state(ip, StoredPeerState::Whitelist)
    }

    /// Whether `ip` may connect at `now`: unknown addresses may; known ones
    /// may unless blacklisted or banned until `now` or later.
    pub fn is_allowed(&self, ip: &IpAddress, now: u64) -> (r: bool)
        requires
            self.wf(),
        ensures
            r == allowed(self@.store, *ip, now),
    {
        match self.get_stored_peer(ip) {
            None => true,
            Some(rec) => rec.state != StoredPeerState::Blacklist && match rec.temp_ban_until {
                Some(until) => until < now,
                None => true,
            },
        }
    }

    fn set_state_to_address(&mut self, ip: &IpAddress, state: StoredPeerState, now: u64)
        requires
            old(self).wf(),
        ensures
            final(self).wf(),
            final(self)@.peers == old(self)@.peers,
            final(self)@.store == store_with_state(old(self)@.store, *ip, state, now),
    {
        match self.get_stored_peer(ip) {
            Some(rec) => {
                let mut rec = rec;
                rec.set_state(state);
                self.put_stored(*ip, rec);
            },
            None => {
                self.put_stored(*ip, StoredPeer::new(0, state, now));
            },
        }
    }

    pub fn whitelist_address(&mut self, ip: &IpAddress, now: u64)
        requires
            old(self).wf(),
        ensures
            final(self).wf(),
            final(self)@.peers == old(self)@.peers,
            final(self)@.store == store_with_state(
                old(self)@.store,
                *ip,
                StoredPeerState::Whitelist,
                now,
            ),
    {
        self.set_state_to_address(ip, StoredPeerState::Whitelist, now)
    }

    /// Blacklists `ip`; returns the id of the first live peer connected from
    /// that address, for the caller to close.
    pub fn blacklist_address(&mut self, ip: &IpAddress, now: u64) -> (r: Option<u64>)
        requires
            old(self).wf(),
        ensures
            final(self).wf(),
            final(self)@.peers == old(self)@.peers,
            final(self)@.store == store_with_state(
                old(self)@.store,
                *ip,
                StoredPeerState::Blacklist,
                now,
            ),
            match r {
                Some(id) => exists|i: int|
                    0 <= i < old(self)@.peers.len() && #[trigger] old(self)@.peers[i].id == id
                        && old(self)@.peers[i].connection_address.ip == *ip && forall|j: int|
                        0 <= j < i ==> (#[trigger] old(self)@.peers[j]).connection_address.ip != *ip,
                None => forall|j: int|
                    0 <= j < old(self)@.peers.len() ==> (#[trigger] old(self)@.peers[j]).connection_address.ip
                        != *ip,
            },
    {
        self.set_state_to_address(ip, StoredPeerState::Blacklist, now);
        self.first_connected_from(ip)
    }

    fn first_connected_from(&self, ip: &IpAddress) -> (r: Option<u64>)
        ensures
            match r {
                Some(id) => exists|i: int|
                    0 <= i < self@.peers.len() && #[trigger] self@.peers[i].id == id
                        && self@.peers[i].connection_address.ip == *ip && forall|j: int|
                        0 <= j < i ==> (#[trigger] self@.peers[j]).connection_address.ip != *ip,
                None => forall|j: int|
                    0 <= j < self@.peers.len() ==> (#[trigger] self@.peers[j]).connection_address.ip
                        != *ip,
            },
    {
        let mut i: usize = 0;
        while i < self.peers.len()
            invariant
                i <= self@.peers.len(),
                forall|j: int| 0 <= j < i ==> (#[trigger] self@.peers[j]).connection_address.ip != *ip,
            decreases self@.peers.len() - i,
        {
            if self.peers[i].connection_address.ip == *ip {
                assert(self@.peers[i as int] == self.peers@[i as int]@);
                assert(self@.peers[i as int].id == self.peers[i as int].id);
                return Some(self.peers[i].id);
            }
            i += 1;
        }
        None
    }

    /// Bans `ip` until `now + seconds`, creating its record if missing.
    pub fn temp_ban_address(&mut self, ip: &IpAddress, seconds: u64, now: u64)
        requires
            old(self).wf(),
            now + seconds <= u64::MAX,
        ensures
            final(self).wf(),
            final(self)@.peers == old(self)@.peers,
            final(self)@.store == store_with_ban(old(self)@.store, *ip, (now + seconds) as u64, now),
    {
        match self.get_stored_peer(ip) {
            Some(rec) => {
                let mut rec = rec;
                rec.set_temp_ban_until(Some(now + seconds));
                self.put_stored(*ip, rec);
            },
            None => {
                let mut rec = StoredPeer::new(0, StoredPeerState::Graylist, now);
                rec.set_temp_ban_until(Some(now + seconds));
                self.put_stored(*ip, rec);
            },
        }
    }

    /// Moves `ip` back to the graylist; a record that never had a port
    /// (added by hand and never connected) is deleted instead.
    pub fn set_graylist_for_peer(&mut self, ip: &IpAddress)
        requires
            old(self).wf(),
        ensures
            final(self).wf(),
            final(self)@.peers == old(self)@.peers,
            map_of(final(self)@.store) == (if map_of(old(self)@.store).contains_key(*ip) {
                if map_of(old(self)@.store)[*ip].local_port == 0 {
                    map_of(old(self)@.store).remove(*ip)
                } else {
                    map_of(old(self)@.store).insert(
                        *ip,
                        StoredPeer { state: StoredPeerState::Graylist, ..map_of(old(self)@.store)[*ip] },
                    )
                }
            } else {
                map_of(old(self)@.store)
            }),
    {
        match self.find_stored(ip) {
            Some(i) => {
                let mut rec = self.store[i].1;
                if rec.local_port == 0 {
                    proof {
                        lemma_map_of_remove(self@.store, i as int);
                    }
                    self.store.remove(i);
                } else {
                    rec.set_state(StoredPeerState::Graylist);
                    self.put_stored(*ip, rec);
                }
            },
            None => {},
        }
    }

    fn get_list_with_state(&self, state: StoredPeerState) -> (r: Vec<(IpAddress, StoredPeer)>)
        ensures
            r@ == with_state(self@.store, state),
    {
        let mut out: Vec<(IpAddress, StoredPeer)> = Vec::new();
        let mut i: usize = 0;
        assert(self@.store.take(0) =~= Seq::<(IpAddress, StoredPeer)>::empty());
        while i < self.store.len()
            invariant
                i <= self@.store.len(),
                out@ == with_state(self@.store.take(i as int), state),
            decreases self@.store.len() - i,
        {
            assert(self@.store.take(i + 1).drop_last() =~= self@.store.take(i as int));
            let e = self.store[i];
            if e.1.state == state {
                out.push(e);
            }
            i += 1;
        }
        assert(self@.store.take(self@.store.len() as int) =~= self@.store);
        out
    }

    pub fn get_blacklist(&self) -> (r: Vec<(IpAddress, StoredPeer)>)
        ensures
            r@ == with_state(self@.store, StoredPeerState::Blacklist),
    {
        self.get_list_with_state(StoredPeerState::Blacklist)
    }

    pub fn get_whitelist(&self) -> (r: Vec<(IpAddress, StoredPeer)>)
        ensures
            r@ == with_state(self@.store, StoredPeerState::Whitelist),
    {
        self.get_list_with_state(StoredPeerState::Whitelist)
    }

    fn is_eligible(&self, i: usize, now: u64) -> (r: bool)
        requires
            i < self@.store.len(),
        ensures
            r == eligible(self@.peers, self@.store[i as int], now),
    {
        let (ip, rec) = self.store[i];
        if rec.state == StoredPeerState::Blacklist {
            return false;
        }
        let next_try = rec.last_connection_try as u128 + rec.fail_count as u128
            * P2P_EXTEND_PEERLIST_DELAY as u128;
        if next_try > now as u128 {
            return false;
        }
        !self.is_connected_to_addr(&PeerAddress { ip, port: rec.local_port })
    }

    fn stamp_connection_try(&mut self, i: usize, now: u64)
        requires
            old(self).wf(),
            i < old(self)@.store.len(),
        ensures
            final(self).wf(),
            final(self)@.peers == old(self)@.peers,
            final(self)@.store == old(self)@.store.update(
                i as int,
                (
                    old(self)@.store[i as int].0,
                    StoredPeer { last_connection_try: now, ..old(self)@.store[i as int].1 },
                ),
            ),
    {
        let (ip, rec) = self.store[i];
        let mut rec = rec;
        rec.set_last_connection_try(now);
        proof {
            lemma_map_of_update(self@.store, i as int, rec);
        }
        self.store.set(i, (ip, rec));
    }

    /// Picks a stored address to connect to at `now`: the first eligible
    /// whitelisted record, else the first eligible graylisted one, and
    /// stamps its connection try. A record is eligible when it is not
    /// blacklisted, its back-off has elapsed and no live peer uses it.
    pub fn find_peer_to_connect(&mut self, now: u64) -> (r: Option<PeerAddress>)
        requires
            old(self).wf(),
        ensures
            final(self).wf(),
            final(self)@.peers == old(self)@.peers,
            match r {
                Some(addr) => exists|i: int|
                    (first_eligible(
                        old(self)@.peers,
                        old(self)@.store,
                        StoredPeerState::Whitelist,
                        now,
                        i,
                    ) || (!(exists|w: int|
                        first_eligible(
                            old(self)@.peers,
                            old(self)@.store,
                            StoredPeerState::Whitelist,
                            now,
                            w,
                        )) && first_eligible(
                        old(self)@.peers,
                        old(self)@.store,
                        StoredPeerState::Graylist,
                        now,
                        i,
                    ))) && addr == (PeerAddress {
                        ip: old(self)@.store[i].0,
                        port: old(self)@.store[i].1.local_port,
                    }) && final(self)@.store == old(self)@.store.update(
                        i,
                        (
                            old(self)@.store[i].0,
                            StoredPeer { last_connection_try: now, ..old(self)@.store[i].1 },
                        ),
                    ),
                None => final(self)@.store == old(self)@.store && forall|j: int|
                    0 <= j < old(self)@.store.len() ==> !eligible(
                        old(self)@.peers,
                        #[trigger] old(self)@.store[j],
                        now,
                    ) || old(self)@.store[j].1.state == StoredPeerState::Blacklist,
            },
    {
        let ghost peers = self@.peers;
        let ghost store = self@.store;
        let mut gray: Option<usize> = None;
        let mut i: usize = 0;
        while i < self.store.len()
            invariant
                self@.peers == peers,
                self@.store == store,
                peers == old(self)@.peers,
                store == old(self)@.store,
                self.wf(),
                i <= store.len(),
                forall|j: int|
                    0 <= j < i ==> !(eligible(peers, #[trigger] store[j], now) && store[j].1.state
                        == StoredPeerState::Whitelist),
                match gray {
                    Some(g) => g < i && first_eligible(peers, store, StoredPeerState::Graylist, now, g as int),
                    None => forall|j: int|
                        0 <= j < i ==> !(eligible(peers, #[trigger] store[j], now) && store[j].1.state
                            == StoredPeerState::Graylist),
                },
            decreases store.len() - i,
        {
            if self.is_eligible(i, now) {
                let state = self.store[i].1.state;
                if gray.is_none() && state == StoredPeerState::Graylist {
                    gray = Some(i);
                } else if state == StoredPeerState::Whitelist {
                    let addr = PeerAddress { ip: self.store[i].0, port: self.store[i].1.local_port };
                    self.stamp_connection_try(i, now);
                    assert(first_eligible(peers, store, StoredPeerState::Whitelist, now, i as int));
                    return Some(addr);
                }
            }
            i += 1;
        }
        match gray {
            Some(g) => {
                let addr = PeerAddress { ip: self.store[g].0, port: self.store[g].1.local_port };
                self.stamp_connection_try(g, now);
                proof {
                    assert forall|w: int| !first_eligible(peers, store, StoredPeerState::Whitelist, now, w) by {}
                }
                Some(addr)
            },
            None => None,
        }
    }

    /// Records a failed connection to `ip` at `now`.
    pub fn increase_fail_count_for_stored_peer(&mut self, ip: &IpAddress, temp_ban: bool, now: u64)
        requires
            old(self).wf(),
            now + PEER_TEMP_BAN_TIME_ON_CONNECT <= u64::MAX,
        ensures
            final(self).wf(),
            final(self)@.peers == old(self)@.peers,
            final(self)@.store == store_after_failure(old(self)@.store, *ip, temp_ban, now),
    {
        let mut rec = match self.get_stored_peer(ip) {
            Some(rec) => rec,
            None => StoredPeer::new(0, StoredPeerState::Graylist, now),
        };
        let fail_count = rec.get_fail_count();
        if rec.state != StoredPeerState::Whitelist {
            if temp_ban && fail_count != 0 && fail_count % PEER_FAIL_TO_CONNECT_LIMIT == 0 {
                rec.set_temp_ban_until(Some(now + PEER_TEMP_BAN_TIME_ON_CONNECT));
            }
            rec.set_fail_count(fail_count.wrapping_add(1));
            self.put_stored(*ip, rec);
        }
    }

    /// Stores the address of a peer heard of, unless its IP is known;
    /// returns whether it was stored.
    pub fn store_peer_address(&mut self, addr: PeerAddress, now: u64) -> (r: bool)
        requires
            old(self).wf(),
        ensures
            final(self).wf(),
            final(self)@.peers == old(self)@.peers,
            r == !map_of(old(self)@.store).contains_key(addr.ip),
            final(self)@.store == (if r {
                store_put(old(self)@.store, addr.ip, fresh_record(addr.port, StoredPeerState::Graylist, now))
            } else {
                old(self)@.store
            }),
    {
        if self.has_peer_stored(&addr.ip) {
            return false;
        }
        self.put_stored(addr.ip, StoredPeer::new(addr.port, StoredPeerState::Graylist, now));
        true
    }
}

/// The median of a multiset of values is the integer median of the values
/// sorted ascending, whichever sorted arrangement is taken.
pub proof fn lemma_median_of_any_sorting(values: Seq<u64>, sorted: Seq<u64>)
    requires
        sorted_by(sorted, u64_leq()),
        sorted.to_multiset() == values.to_multiset(),
    ensures
        median(values) == median_of_sorted(sorted),
{
    let leq = u64_leq();
    assert(vstd::relations::total_ordering(leq)) by {
        assert(vstd::relations::reflexive(leq));
        assert(vstd::relations::antisymmetric(leq));
        assert(vstd::relations::transitive(leq));
        assert(vstd::relations::strongly_connected(leq));
    }
    values.lemma_sort_by_ensures(leq);
    vstd::seq_lib::lemma_sorted_unique(sorted, values.sort_by(leq), leq);
}

/// A whitelisted address is exempt from failure counting: its record, and
/// the whole store, stay as they were.
pub proof fn lemma_whitelist_bypass(
    store: Seq<(IpAddress, StoredPeer)>,
    ip: IpAddress,
    temp_ban: bool,
    now: u64,
)
    requires
        map_of(store).contains_key(ip),
        map_of(store)[ip].state == StoredPeerState::Whitelist,
    ensures
        store_after_failure(store, ip, temp_ban, now) == store,
{
}

pub proof fn lemma_failure_record(store: Seq<(IpAddress, StoredPeer)>, ip: IpAddress, temp_ban: bool, now: u64)
    requires
        unique_keys(store),
    ensures
        unique_keys(store_after_failure(store, ip, temp_ban, now)),
        ({
            let m = map_of(store);
            let rec = if m.contains_key(ip) {
                m[ip]
            } else {
                fresh_record(0, StoredPeerState::Graylist, now)
            };
            rec.state != StoredPeerState::Whitelist ==> map_of(
                store_after_failure(store, ip, temp_ban, now),
            ) == m.insert(
                ip,
                StoredPeer {
                    fail_count: ((rec.fail_count + 1) % 256) as u8,
                    temp_ban_until: if temp_ban && rec.fail_count != 0 && rec.fail_count
                        % PEER_FAIL_TO_CONNECT_LIMIT == 0 {
                        Some((now + PEER_TEMP_BAN_TIME_ON_CONNECT) as u64)
                    } else {
                        rec.temp_ban_until
                    },
                    ..rec
                },
            )
        }),
{
    let m = map_of(store);
    let rec = if m.contains_key(ip) {
        m[ip]
    } else {
        fresh_record(0, StoredPeerState::Graylist, now)
    };
    if rec.state != StoredPeerState::Whitelist {
        let banned = if temp_ban && rec.fail_count != 0 && rec.fail_count
            % PEER_FAIL_TO_CONNECT_LIMIT == 0 {
            StoredPeer { temp_ban_until: Some((now + PEER_TEMP_BAN_TIME_ON_CONNECT) as u64), ..rec }
        } else {
            rec
        };
        let nr = StoredPeer { fail_count: ((rec.fail_count + 1) % 256) as u8, ..banned };
        lemma_map_of(store);
        if exists|i: int| 0 <= i < store.len() && store[i].0 == ip {
            let i = choose|i: int| 0 <= i < store.len() && store[i].0 == ip;
            lemma_map_of_update(store, i, nr);
        } else {
            lemma_map_of_push(store, ip, nr);
        }
    }
}

/// Failures counted with temporary bans allowed, all at `now`, on an
/// address with no record: the first `PEER_FAIL_TO_CONNECT_LIMIT` calls
/// only count, and the next one, finding a count that is a non-zero
/// multiple of the limit, bans the address until
/// `now + PEER_TEMP_BAN_TIME_ON_CONNECT`.
pub proof fn lemma_temp_ban_cycle(store: Seq<(IpAddress, StoredPeer)>, ip: IpAddress, now: u64)
    requires
        unique_keys(store),
        !map_of(store).contains_key(ip),
        now + PEER_TEMP_BAN_TIME_ON_CONNECT <= u64::MAX,
    ensures
        ({
            let s1 = store_after_failure(store, ip, true, now);
            let s2 = store_after_failure(s1, ip, true, now);
            let s3 = store_after_failure(s2, ip, true, now);
            let s4 = store_after_failure(s3, ip, true, now);
            &&& map_of(s1)[ip].fail_count == 1 && map_of(s1)[ip].temp_ban_until is None
            &&& map_of(s2)[ip].fail_count == 2 && map_of(s2)[ip].temp_ban_until is None
            &&& map_of(s3)[ip].fail_count == 3 && map_of(s3)[ip].temp_ban_until is None
            &&& map_of(s4)[ip].fail_count == 4 && map_of(s4)[ip].temp_ban_until == Some(
                (now + PEER_TEMP_BAN_TIME_ON_CONNECT) as u64,
            )
        }),
{
    let s1 = store_after_failure(store, ip, true, now);
    lemma_failure_record(store, ip, true, now);
    let s2 = store_after_failure(s1, ip, true, now);
    lemma_failure_record(s1, ip, true, now);
    let s3 = store_after_failure(s2, ip, true, now);
    lemma_failure_record(s2, ip, true, now);
    lemma_failure_record(s3, ip, true, now);
}

/// Octet `i` of an address of `n` octets, most significant first.
pub open spec fn octet(v: u128, n: int, i: int) -> u8 {
    ((v >> ((8 * (n - 1 - i)) as u128)) & 0xff) as u8
}

/// The payload announcing that the peer at `addr` left: the IP version
/// (4 or 6), the address octets in network order, then the port.
pub open spec fn peer_disconnected_bytes(addr: PeerAddress) -> Seq<u8> {
    let head = match addr.ip {
        IpAddress::V4(v) => seq![4u8] + Seq::new(4, |i: int| octet(v as u128, 4, i)),
        IpAddress::V6(v) => seq![6u8] + Seq::new(16, |i: int| octet(v, 16, i)),
    };
    head + u16_bytes(addr.port)
}

/// Encodes the payload announcing that the peer at `addr` left.
pub fn encode_peer_disconnected(addr: &PeerAddress) -> (r: Vec<u8>)
    ensures
        r@ == peer_disconnected_bytes(*addr),
{
    let mut out: Vec<u8> = Vec::new();
    let (tag, v, n): (u8, u128, usize) = match addr.ip {
        IpAddress::V4(v) => (4, v as u128, 4),
        IpAddress::V6(v) => (6, v, 16),
    };
    write_u8(&mut out, tag);
    let mut i: usize = 0;
    while i < n
        invariant
            n == 4 || n == 16,
            i <= n,
            out@ == seq![tag] + Seq::new(i as nat, |k: int| octet(v, n as int, k)),
        decreases n - i,
    {
        let shift: u128 = (8 * (n - 1 - i)) as u128;
        let o = ((v >> shift) & 0xff) as u8;
        out.push(o);
        i += 1;
        assert(out@ =~= seq![tag] + Seq::new(i as nat, |k: int| octet(v, n as int, k)));
    }
    write_u16(&mut out, addr.port);
    assert(out@ =~= peer_disconnected_bytes(*addr));
    out
}

} // verus!
