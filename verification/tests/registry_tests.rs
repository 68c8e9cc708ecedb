use sn_dbc_examples::peer::{resolve_send_addr, NodeAddr, PeerId};
use sn_dbc_examples::registry::PeerRegistry;

fn pid(n: u8) -> PeerId {
    PeerId { hi: 0, lo: n as u128 }
}

fn addr(port: u16) -> NodeAddr {
    NodeAddr { ip: 0x7f000001, port, v6: false }
}

#[test]
fn registry_starts_with_self() {
    let reg = PeerRegistry::singleton(pid(7), addr(1000));
    assert_eq!(reg.len(), 1);
    assert!(reg.contains(&pid(7)));
    assert!(!reg.contains(&pid(8)));
}

#[test]
fn handle_peer_records_newcomer_and_announces_all_rows() {
    let mut reg = PeerRegistry::singleton(pid(5), addr(1000));
    let outcome = reg.handle_peer(pid(2), addr(1001), 3);
    assert_eq!(reg.len(), 2);
    assert!(reg.contains(&pid(2)));
    assert!(!outcome.quorum_reached);
    // the newcomer is owed every row held before it joined
    assert_eq!(outcome.announce.len(), 1);
    assert_eq!(outcome.announce[0].id, pid(5));
    assert_eq!(outcome.announce[0].addr, addr(1000));
}

#[test]
fn handle_peer_is_idempotent() {
    let mut reg = PeerRegistry::singleton(pid(5), addr(1000));
    reg.handle_peer(pid(2), addr(1001), 3);
    let before = reg.len();
    // the same announcement again: no growth, nothing owed, no trigger
    let outcome = reg.handle_peer(pid(2), addr(1001), 3);
    assert_eq!(reg.len(), before);
    assert_eq!(outcome.announce.len(), 0);
    assert!(!outcome.quorum_reached);
    // even with a different address: the first announcement wins
    let outcome2 = reg.handle_peer(pid(2), addr(9999), 3);
    assert_eq!(reg.len(), before);
    assert!(!outcome2.quorum_reached);
    assert_eq!(reg.lookup(&pid(2)), Some(addr(1001)));
}

#[test]
fn quorum_triggers_exactly_once() {
    let mut reg = PeerRegistry::singleton(pid(5), addr(1000));
    let mut fires = 0;
    let announcements = [
        (pid(2), addr(1001)),
        (pid(2), addr(1001)), // duplicate
        (pid(9), addr(1002)), // completes the quorum of 3
        (pid(1), addr(1003)), // beyond quorum size: recorded, no re-trigger
        (pid(9), addr(1002)), // duplicate after quorum
    ];
    for (id, a) in announcements.iter() {
        let outcome = reg.handle_peer(*id, *a, 3);
        if outcome.quorum_reached {
            fires += 1;
        }
    }
    assert_eq!(fires, 1);
    assert_eq!(reg.len(), 4);
}

#[test]
fn rows_stay_sorted_by_identifier() {
    let mut reg = PeerRegistry::singleton(pid(5), addr(1000));
    reg.handle_peer(pid(9), addr(1001), 10);
    reg.handle_peer(pid(2), addr(1002), 10);
    reg.handle_peer(PeerId { hi: 1, lo: 0 }, addr(1003), 10);
    let ids = reg.ids();
    assert_eq!(ids, vec![pid(2), pid(5), pid(9), PeerId { hi: 1, lo: 0 }]);
}

#[test]
fn snapshot_is_a_value_not_a_view() {
    let mut reg = PeerRegistry::singleton(pid(5), addr(1000));
    let snap = reg.snapshot();
    reg.handle_peer(pid(2), addr(1001), 10);
    assert_eq!(snap.len(), 1);
    assert_eq!(reg.len(), 2);
    assert!(!snap.contains(&pid(2)));
}

#[test]
fn sending_to_self_uses_the_local_address() {
    let public = addr(5000);
    let local = addr(5001);
    let other = addr(6000);
    assert_eq!(resolve_send_addr(&public, &public, &local), local);
    assert_eq!(resolve_send_addr(&other, &public, &local), other);
}
