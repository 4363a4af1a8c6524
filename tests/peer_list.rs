use xelis_core::codec::ReaderError;
use xelis_core::config::{PEER_FAIL_TO_CONNECT_LIMIT, PEER_TEMP_BAN_TIME_ON_CONNECT};
use xelis_core::peer_list::{
    Direction, IpAddress, P2pError, Peer, PeerAddress, PeerList, StoredPeer, StoredPeerState,
};

fn ip(n: u32) -> IpAddress {
    IpAddress::V4(n)
}

fn addr(n: u32, port: u16) -> PeerAddress {
    PeerAddress { ip: ip(n), port }
}

fn peer(id: u64, n: u32, topoheight: u64) -> Peer {
    Peer {
        id,
        connection_address: addr(n, 40000),
        outgoing_address: addr(n, 2125),
        local_port: 2125,
        topoheight,
        sharable: true,
        shared_peers: Vec::new(),
    }
}

fn list_with_topoheights(hs: &[u64]) -> PeerList {
    let mut list = PeerList::new();
    for (i, h) in hs.iter().enumerate() {
        list.add_peer(peer(i as u64, 100 + i as u32, *h), 100, 10).unwrap();
    }
    list
}

#[test]
fn stored_peer_round_trip() {
    let p = StoredPeer {
        first_seen: 1_700_000_000,
        last_seen: 1_700_000_100,
        last_connection_try: 42,
        fail_count: 7,
        local_port: 2125,
        temp_ban_until: Some(1_800_000_000),
        state: StoredPeerState::Blacklist,
    };
    let bytes = p.to_bytes();
    assert_eq!(bytes.len(), 8 + 8 + 8 + 1 + 2 + 1 + 8 + 1);
    assert_eq!(StoredPeer::read(&bytes, 0), Ok((p, bytes.len())));
    let q = StoredPeer { temp_ban_until: None, state: StoredPeerState::Whitelist, ..p };
    let bytes = q.to_bytes();
    assert_eq!(bytes.len(), 29);
    assert_eq!(StoredPeer::read(&bytes, 0), Ok((q, 29)));
}

#[test]
fn stored_peer_layout_is_little_endian() {
    let p = StoredPeer {
        first_seen: 1,
        last_seen: 2,
        last_connection_try: 3,
        fail_count: 4,
        local_port: 0x0102,
        temp_ban_until: None,
        state: StoredPeerState::Graylist,
    };
    let b = p.to_bytes();
    assert_eq!(b[0], 1);
    assert_eq!(b[8], 2);
    assert_eq!(b[16], 3);
    assert_eq!(b[24], 4);
    assert_eq!(b[25], 0x02);
    assert_eq!(b[26], 0x01);
    assert_eq!(b[27], 0);
    assert_eq!(b[28], 1);
}

#[test]
fn stored_peer_rejects_bad_state_and_short_input() {
    let p = StoredPeer {
        first_seen: 1,
        last_seen: 2,
        last_connection_try: 3,
        fail_count: 0,
        local_port: 1,
        temp_ban_until: None,
        state: StoredPeerState::Graylist,
    };
    let mut b = p.to_bytes();
    let last = b.len() - 1;
    b[last] = 3;
    assert_eq!(StoredPeer::read(&b, 0), Err(ReaderError::InvalidValue));
    b[last] = 1;
    b[27] = 2;
    assert_eq!(StoredPeer::read(&b, 0), Err(ReaderError::InvalidValue));
    let short = p.to_bytes()[..20].to_vec();
    assert_eq!(StoredPeer::read(&short, 0), Err(ReaderError::InvalidSize));
}

#[test]
fn median_of_no_peers_is_zero() {
    let list = PeerList::new();
    assert_eq!(list.get_median_topoheight(None), 0);
    assert_eq!(list.get_median_topoheight(Some(9)), 9);
    assert_eq!(list.get_best_topoheight(), 0);
}

#[test]
fn median_odd_and_even() {
    let list = list_with_topoheights(&[5, 1, 9]);
    assert_eq!(list.get_median_topoheight(None), 5);
    assert_eq!(list.get_median_topoheight(Some(2)), (2 + 5) / 2);
    let list = list_with_topoheights(&[10, 4, 7, 1]);
    assert_eq!(list.get_median_topoheight(None), 5);
    assert_eq!(list.get_best_topoheight(), 10);
}

#[test]
fn median_does_not_overflow() {
    let list = list_with_topoheights(&[u64::MAX, u64::MAX - 1]);
    assert_eq!(list.get_median_topoheight(None), u64::MAX - 1);
}

#[test]
fn add_peer_limits_and_ids() {
    let mut list = PeerList::new();
    assert_eq!(list.add_peer(peer(1, 1, 0), 2, 10), Ok(()));
    assert_eq!(list.add_peer(peer(1, 2, 0), 2, 10), Err(P2pError::PeerIdAlreadyUsed(1)));
    assert_eq!(list.add_peer(peer(2, 2, 0), 2, 10), Ok(()));
    assert_eq!(list.add_peer(peer(3, 3, 0), 2, 10), Err(P2pError::PeerListFull));
    assert_eq!(list.size(), 2);
    assert!(list.has_peer(1));
    assert!(!list.has_peer(3));
    let rec = list.get_stored_peer(&ip(1)).unwrap();
    assert_eq!(rec.state, StoredPeerState::Graylist);
    assert_eq!(rec.local_port, 2125);
    assert_eq!(rec.first_seen, 10);
}

#[test]
fn reconnect_resets_fail_count() {
    let mut list = PeerList::new();
    list.increase_fail_count_for_stored_peer(&ip(1), false, 5);
    list.increase_fail_count_for_stored_peer(&ip(1), false, 6);
    assert_eq!(list.get_stored_peer(&ip(1)).unwrap().fail_count, 2);
    list.add_peer(peer(1, 1, 0), 10, 50).unwrap();
    let rec = list.get_stored_peer(&ip(1)).unwrap();
    assert_eq!(rec.fail_count, 0);
    assert_eq!(rec.last_seen, 50);
    assert_eq!(rec.first_seen, 5);
}

#[test]
fn remove_peer_notifies_common_peers() {
    let mut list = PeerList::new();
    let gone = peer(1, 1, 0);
    let gone_addr = gone.outgoing_address;
    let mut a = peer(2, 2, 0);
    a.shared_peers = vec![(gone_addr, Direction::Out), (addr(9, 1), Direction::In)];
    let mut b = peer(3, 3, 0);
    b.shared_peers = vec![(gone_addr, Direction::In)];
    let mut c = peer(4, 4, 0);
    c.shared_peers = vec![(gone_addr, Direction::Both)];
    list.add_peer(gone, 10, 1).unwrap();
    list.add_peer(a, 10, 1).unwrap();
    list.add_peer(b, 10, 1).unwrap();
    list.add_peer(c, 10, 1).unwrap();
    let (removed, notified) = list.remove_peer(1, true).unwrap();
    assert_eq!(removed.id, 1);
    assert_eq!(notified, vec![2, 4]);
    let peers = list.get_peers();
    assert_eq!(peers.len(), 3);
    assert_eq!(peers[0].shared_peers, vec![(addr(9, 1), Direction::In)]);
    assert_eq!(peers[1].shared_peers, vec![(gone_addr, Direction::In)]);
    assert!(peers[2].shared_peers.is_empty());
    assert_eq!(list.remove_peer(1, true).unwrap_err(), P2pError::PeerNotFoundById(1));
}

#[test]
fn remove_peer_without_notify_keeps_shared_lists() {
    let mut list = PeerList::new();
    let gone = peer(1, 1, 0);
    let gone_addr = gone.outgoing_address;
    let mut a = peer(2, 2, 0);
    a.shared_peers = vec![(gone_addr, Direction::Out)];
    list.add_peer(gone, 10, 1).unwrap();
    list.add_peer(a, 10, 1).unwrap();
    let (_, notified) = list.remove_peer(1, false).unwrap();
    assert!(notified.is_empty());
    assert_eq!(list.get_peers()[0].shared_peers.len(), 1);
}

#[test]
fn is_allowed_rules() {
    let mut list = PeerList::new();
    assert!(list.is_allowed(&ip(1), 100));
    list.temp_ban_address(&ip(1), 50, 100);
    assert_eq!(list.get_stored_peer(&ip(1)).unwrap().temp_ban_until, Some(150));
    assert!(!list.is_allowed(&ip(1), 100));
    assert!(!list.is_allowed(&ip(1), 150));
    assert!(list.is_allowed(&ip(1), 151));
    list.blacklist_address(&ip(2), 100);
    assert!(!list.is_allowed(&ip(2), 1000));
    assert!(list.is_blacklisted(&ip(2)));
}

#[test]
fn is_allowed_is_idempotent() {
    let mut list = PeerList::new();
    list.temp_ban_address(&ip(1), 10, 100);
    let first = list.is_allowed(&ip(1), 105);
    for _ in 0..5 {
        assert_eq!(list.is_allowed(&ip(1), 105), first);
    }
    assert!(!first);
}

#[test]
fn temp_ban_cycle() {
    let mut list = PeerList::new();
    let now = 1000;
    for call in 1..=PEER_FAIL_TO_CONNECT_LIMIT {
        list.increase_fail_count_for_stored_peer(&ip(7), true, now);
        let rec = list.get_stored_peer(&ip(7)).unwrap();
        assert_eq!(rec.fail_count, call);
        assert_eq!(rec.temp_ban_until, None);
    }
    list.increase_fail_count_for_stored_peer(&ip(7), true, now);
    let rec = list.get_stored_peer(&ip(7)).unwrap();
    assert_eq!(rec.fail_count, PEER_FAIL_TO_CONNECT_LIMIT + 1);
    assert_eq!(rec.temp_ban_until, Some(now + PEER_TEMP_BAN_TIME_ON_CONNECT));
}

#[test]
fn fail_count_wraps() {
    let mut list = PeerList::new();
    for _ in 0..256 {
        list.increase_fail_count_for_stored_peer(&ip(3), false, 5);
    }
    assert_eq!(list.get_stored_peer(&ip(3)).unwrap().fail_count, 0);
}

#[test]
fn whitelist_bypass() {
    let mut list = PeerList::new();
    list.whitelist_address(&ip(4), 10);
    let before = list.get_stored_peers().clone();
    list.increase_fail_count_for_stored_peer(&ip(4), true, 20);
    assert_eq!(list.get_stored_peers(), &before);
    assert!(list.is_whitelisted(&ip(4)));
}

#[test]
fn graylisting_manual_entry_deletes_it() {
    let mut list = PeerList::new();
    list.whitelist_address(&ip(5), 10);
    list.set_graylist_for_peer(&ip(5));
    assert!(!list.has_peer_stored(&ip(5)));
    assert!(list.store_peer_address(addr(6, 3000), 10));
    assert!(!list.store_peer_address(addr(6, 4000), 11));
    list.whitelist_address(&ip(6), 12);
    list.set_graylist_for_peer(&ip(6));
    let rec = list.get_stored_peer(&ip(6)).unwrap();
    assert_eq!(rec.state, StoredPeerState::Graylist);
    assert_eq!(rec.local_port, 3000);
}

#[test]
fn find_peer_prefers_whitelist() {
    let mut list = PeerList::new();
    list.store_peer_address(addr(1, 1001), 0);
    list.store_peer_address(addr(2, 1002), 0);
    list.store_peer_address(addr(3, 1003), 0);
    list.whitelist_address(&ip(3), 0);
    list.blacklist_address(&ip(1), 0);
    assert_eq!(list.find_peer_to_connect(100), Some(addr(3, 1003)));
    assert_eq!(list.get_stored_peer(&ip(3)).unwrap().last_connection_try, 100);
    list.blacklist_address(&ip(3), 0);
    assert_eq!(list.find_peer_to_connect(200), Some(addr(2, 1002)));
    assert_eq!(list.get_stored_peer(&ip(2)).unwrap().last_connection_try, 200);
}

#[test]
fn find_peer_waits_for_backoff_and_skips_connected() {
    let mut list = PeerList::new();
    list.store_peer_address(addr(1, 2125), 0);
    list.increase_fail_count_for_stored_peer(&ip(1), false, 0);
    assert_eq!(list.find_peer_to_connect(59), None);
    assert_eq!(list.find_peer_to_connect(60), Some(addr(1, 2125)));
    let mut other = PeerList::new();
    other.store_peer_address(addr(1, 2125), 0);
    other.add_peer(peer(9, 1, 0), 10, 0).unwrap();
    assert!(other.is_connected_to_addr(&addr(1, 2125)));
    assert_eq!(other.find_peer_to_connect(1000), None);
}

#[test]
fn blacklist_reports_connected_peer() {
    let mut list = PeerList::new();
    list.add_peer(peer(5, 8, 0), 10, 0).unwrap();
    assert_eq!(list.blacklist_address(&ip(8), 1), Some(5));
    assert_eq!(list.blacklist_address(&ip(9), 1), None);
    assert_eq!(list.get_blacklist().len(), 2);
    assert!(list.get_whitelist().is_empty());
    let closed = list.close_all();
    assert_eq!(closed.len(), 1);
    assert_eq!(list.size(), 0);
}

#[test]
fn cloned_peers_match_live_ones() {
    let mut list = PeerList::new();
    let mut p = peer(1, 1, 33);
    p.shared_peers = vec![(addr(2, 5), Direction::Both)];
    list.add_peer(p, 10, 0).unwrap();
    let copies = list.get_cloned_peers();
    assert_eq!(copies.len(), 1);
    assert_eq!(copies[0].topoheight, 33);
    assert_eq!(copies[0].shared_peers, vec![(addr(2, 5), Direction::Both)]);
    assert_eq!(list.get_peer_by_addr(&addr(1, 2125)).map(|p| p.id), Some(1));
    assert!(list.get_peer_by_addr(&addr(1, 9)).is_none());
}
