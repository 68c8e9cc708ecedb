use sn_dbc_examples::client::WalletNodeClient;
use sn_dbc_examples::node::{ack_after_append, EnvelopeOutcome, SpentbookNodeServer};
use sn_dbc_examples::peer::{NodeAddr, PeerId};
use sn_dbc_examples::wire::{Msg, ReplyMsg, RequestMsg, SendAction, WalletError, WalletMsg};

fn pid(n: u8) -> PeerId {
    PeerId { hi: 0, lo: n as u128 }
}

fn addr(port: u16) -> NodeAddr {
    NodeAddr { ip: 0x7f000001, port, v6: false }
}

/// Three authority nodes with each other as bootstrap peers, as in the
/// smallest deployment. Returns the nodes and their in-memory durable logs
/// after every in-flight message has been delivered.
fn form_quorum() -> (Vec<SpentbookNodeServer>, Vec<Vec<String>>) {
    let ids = [pid(1), pid(2), pid(3)];
    let addrs = [addr(9001), addr(9002), addr(9003)];
    let mut nodes: Vec<SpentbookNodeServer> = Vec::new();
    let mut logs: Vec<Vec<String>> = vec![Vec::new(), Vec::new(), Vec::new()];
    for i in 0..3 {
        nodes.push(SpentbookNodeServer::new(ids[i], addrs[i], 3));
    }
    let mut queue: Vec<SendAction> = Vec::new();
    for i in 0..3 {
        let bootstrap: Vec<NodeAddr> =
            addrs.iter().cloned().filter(|a| *a != addrs[i]).collect();
        queue.extend(nodes[i].announce(&bootstrap));
    }
    deliver_all(&mut nodes, &mut logs, queue);
    (nodes, logs)
}

/// Deliver every queued message to the node its destination names, feeding
/// whatever each handler sends back into the queue, until nothing is left.
fn deliver_all(
    nodes: &mut Vec<SpentbookNodeServer>,
    logs: &mut Vec<Vec<String>>,
    mut queue: Vec<SendAction>,
) {
    while !queue.is_empty() {
        let action = queue.remove(0);
        let Some(i) = nodes.iter().position(|n| n.our_addr == action.dest) else {
            panic!("message to an unknown endpoint");
        };
        match nodes[i].handle_envelope(action.msg) {
            EnvelopeOutcome::Deliver(actions, _installed) => queue.extend(actions),
            EnvelopeOutcome::SessionFailed(_) => panic!("key generation failed"),
            EnvelopeOutcome::Reply(_) => panic!("peer traffic got a reply"),
            EnvelopeOutcome::AppendThenReply(_, _, line) => {
                logs[i].push(line);
            }
            EnvelopeOutcome::Ignored => {}
        }
    }
}

/// Send one client request to one node and take the reply, appending any
/// accepted spend to the node's durable log first (or failing the append
/// when `fail_append` asks for the fault).
fn client_request(
    node: &mut SpentbookNodeServer,
    log: &mut Vec<String>,
    msg: Msg,
    fail_append: bool,
) -> ReplyMsg {
    match node.handle_envelope(msg) {
        EnvelopeOutcome::Reply(reply) => reply,
        EnvelopeOutcome::AppendThenReply(share, _entry, line) => {
            let append_ok = !fail_append;
            if append_ok {
                log.push(line);
            }
            ReplyMsg::LogSpent(ack_after_append(share, append_ok))
        }
        _ => panic!("a client request got no reply"),
    }
}

#[test]
fn three_nodes_reach_quorum_and_finish_key_generation() {
    let (mut nodes, _logs) = form_quorum();
    for node in nodes.iter() {
        assert_eq!(node.peers.len(), 3);
        assert!(node.is_ready());
    }
    // each node reports the same verification material, with the
    // all-but-one threshold of a three-member quorum
    let mut sets = Vec::new();
    for node in nodes.iter_mut() {
        match node.handle_discover() {
            ReplyMsg::Discover(Some(pks), snap) => {
                assert_eq!(snap.len(), 3);
                assert_eq!(pks.threshold(), 2);
                sets.push(pks);
            }
            _ => panic!("discover on a ready node must carry the material"),
        }
    }
    assert_eq!(sets[0], sets[1]);
    assert_eq!(sets[1], sets[2]);
}

#[test]
fn discover_before_quorum_has_registry_but_no_material() {
    let mut node = SpentbookNodeServer::new(pid(1), addr(9001), 3);
    node.handle_peer_msg(pid(2), addr(9002));
    match node.handle_discover() {
        ReplyMsg::Discover(None, snap) => assert_eq!(snap.len(), 2),
        _ => panic!("an unready node must not hand out verification material"),
    }
}

#[test]
fn request_before_key_material_returns_not_ready() {
    let mut node = SpentbookNodeServer::new(pid(1), addr(9001), 3);
    let mut log = Vec::new();
    // a real signed spend, minted elsewhere, arrives too early
    let (_, _, material, _) = sn_dbc::mock::GenesisBuilder::init_genesis_single().unwrap();
    let builder = sn_dbc::TransactionBuilder::default()
        .add_input(
            material.genesis_tx.0.inputs[0].clone(),
            material.genesis_tx.1.clone(),
            material.genesis_tx.2.clone(),
        )
        .add_output(
            material.genesis_tx.0.outputs[0].token,
            material.main_key.public_address(),
            material.derivation_index,
        )
        .build(sn_dbc::Hash::default())
        .unwrap();
    let spend = builder.signed_spends()[0].clone();
    let msg = Msg::Wallet(WalletMsg::Request(RequestMsg::LogSpent(
        builder.spent_tx.clone(),
        spend,
    )));
    let reply = client_request(&mut node, &mut log, msg, false);
    assert!(matches!(reply, ReplyMsg::LogSpent(Err(WalletError::NotReady))));
    assert!(log.is_empty());
}

#[test]
fn acknowledgment_follows_durability() {
    let (mut nodes, mut logs) = form_quorum();
    let mut client = WalletNodeClient::new();
    let reply = client_request(
        &mut nodes[0],
        &mut logs[0],
        WalletNodeClient::discover_request(),
        false,
    );
    client.apply_discover_reply(reply).unwrap();
    let prepared = client.prepare_genesis().unwrap();
    assert_eq!(prepared.entries.len(), 1);
    let msg = WalletNodeClient::log_spent_request(&prepared.entries[0]);
    // a node whose append fails must answer with a failure, even though its
    // ledger accepted the spend
    let reply = client_request(&mut nodes[1], &mut logs[1], msg, true);
    assert!(matches!(reply, ReplyMsg::LogSpent(Err(WalletError::Internal))));
    assert!(logs[1].is_empty());
    // the same spend at a healthy node is acknowledged after the append
    let msg = WalletNodeClient::log_spent_request(&prepared.entries[0]);
    let reply = client_request(&mut nodes[2], &mut logs[2], msg, false);
    assert!(matches!(reply, ReplyMsg::LogSpent(Ok(_))));
    assert_eq!(logs[2].len(), 1);
}

#[test]
fn genesis_broadcast_collects_a_share_from_every_member() {
    let (mut nodes, mut logs) = form_quorum();
    let mut client = WalletNodeClient::new();
    let reply = client_request(
        &mut nodes[0],
        &mut logs[0],
        WalletNodeClient::discover_request(),
        false,
    );
    client.apply_discover_reply(reply).unwrap();
    assert_eq!(client.spentbook_nodes.len(), 3);

    let prepared = client.prepare_genesis().unwrap();
    let targets = client.broadcast_targets();
    assert_eq!(targets.len(), 3);

    let mut replies = Vec::new();
    for target in targets.iter() {
        let i = nodes.iter().position(|n| n.our_addr == *target).unwrap();
        let msg = WalletNodeClient::log_spent_request(&prepared.entries[0]);
        let mut log = std::mem::take(&mut logs[i]);
        let reply = client_request(&mut nodes[i], &mut log, msg, false);
        logs[i] = log;
        replies.push(reply);
    }
    let shares = WalletNodeClient::collect_log_spent_replies(&replies).unwrap();
    assert_eq!(shares.len(), 3);

    // the shares combine into the quorum's signature over the spend bytes
    let sig = client.combine_acknowledgments(&shares).unwrap();
    let pks = client.spentbook_pks.as_ref().unwrap();
    let spend_bytes = bincode::serialize(&prepared.entries[0].signed_spend).unwrap();
    assert!(pks.public_key().verify(&sig, &spend_bytes));

    // the wallet now owns the whole minted supply
    let outcome = client
        .complete_reissue(prepared.dbc_builder, &prepared.input_ids, "Genesis Dbc".to_string())
        .unwrap();
    assert!(!outcome.recipient_hex.is_empty());
    // the minted value is stored under its note
    assert_eq!(client.wallet.dbcs[outcome.recipient_row].notes, "Genesis Dbc");
    assert_eq!(client.wallet.balance(), Some(u64::MAX));
}

#[test]
fn broadcast_fails_when_any_member_fails() {
    let (mut nodes, mut logs) = form_quorum();
    let mut client = WalletNodeClient::new();
    let reply = client_request(
        &mut nodes[0],
        &mut logs[0],
        WalletNodeClient::discover_request(),
        false,
    );
    client.apply_discover_reply(reply).unwrap();
    let prepared = client.prepare_genesis().unwrap();
    let mut replies = Vec::new();
    for i in 0..3 {
        let msg = WalletNodeClient::log_spent_request(&prepared.entries[0]);
        // the second member's append fails
        let reply = client_request(&mut nodes[i], &mut logs[i], msg, i == 1);
        replies.push(reply);
    }
    match WalletNodeClient::collect_log_spent_replies(&replies) {
        Err(WalletError::Internal) => {}
        _ => panic!("one failed member must fail the whole broadcast"),
    }
}

#[test]
fn replaying_the_log_reproduces_every_valid_entry() {
    let (mut nodes, mut logs) = form_quorum();
    let mut client = WalletNodeClient::new();
    let reply = client_request(
        &mut nodes[0],
        &mut logs[0],
        WalletNodeClient::discover_request(),
        false,
    );
    client.apply_discover_reply(reply).unwrap();
    let prepared = client.prepare_genesis().unwrap();
    for i in 0..3 {
        let msg = WalletNodeClient::log_spent_request(&prepared.entries[0]);
        let reply = client_request(&mut nodes[i], &mut logs[i], msg, false);
        assert!(matches!(reply, ReplyMsg::LogSpent(Ok(_))));
    }
    // each node's log holds one line; reading it back gives the entry, and
    // replaying it is accepted in full
    for i in 0..3 {
        assert_eq!(logs[i].len(), 1);
        let entries = SpentbookNodeServer::parse_log(&logs[i]);
        assert_eq!(entries.len(), 1);
        assert_eq!(entries[0].transaction, prepared.entries[0].transaction);
        assert_eq!(entries[0].signed_spend, prepared.entries[0].signed_spend);
        let count = nodes[i].replay_entries(&entries);
        assert_eq!(count, 1);
    }
    // a malformed line is skipped, not fatal
    let mut bad = logs[0].clone();
    bad.push("not a log entry".to_string());
    let entries = SpentbookNodeServer::parse_log(&bad);
    assert_eq!(entries.len(), 1);
}

#[test]
fn discover_reflects_snapshot_not_live_state() {
    let mut node = SpentbookNodeServer::new(pid(1), addr(9001), 10);
    node.handle_peer_msg(pid(2), addr(9002));
    let mut client = WalletNodeClient::new();
    let reply = node.handle_discover();
    client.apply_discover_reply(reply).unwrap();
    assert_eq!(client.spentbook_nodes.len(), 2);
    // a third peer joins after the discover
    node.handle_peer_msg(pid(3), addr(9003));
    assert_eq!(node.peers.len(), 3);
    // the client's snapshot does not show it until it discovers again
    assert_eq!(client.spentbook_nodes.len(), 2);
    assert!(!client.spentbook_nodes.contains(&pid(3)));
    let reply = node.handle_discover();
    client.apply_discover_reply(reply).unwrap();
    assert_eq!(client.spentbook_nodes.len(), 3);
}

#[test]
fn join_announcements_cover_the_whole_registry() {
    let mut node = SpentbookNodeServer::new(pid(1), addr(9001), 10);
    node.handle_peer_msg(pid(2), addr(9002));
    let actions = node.handle_peer_msg(pid(3), addr(9003));
    // the newcomer is told about both rows held before it joined
    assert_eq!(actions.len(), 2);
    let mut seen = Vec::new();
    for action in actions.iter() {
        assert_eq!(action.dest, addr(9003));
        match &action.msg {
            Msg::P2p(sn_dbc_examples::wire::PeerMsg::Peer(id, a)) => seen.push((*id, *a)),
            _ => panic!("a join owes only peer announcements"),
        }
    }
    assert!(seen.contains(&(pid(1), addr(9001))));
    assert!(seen.contains(&(pid(2), addr(9002))));
}

#[test]
fn a_conflicting_spend_is_refused_by_the_ledger() {
    let (mut nodes, mut logs) = form_quorum();
    let mut client = WalletNodeClient::new();
    let reply = client_request(
        &mut nodes[0],
        &mut logs[0],
        WalletNodeClient::discover_request(),
        false,
    );
    client.apply_discover_reply(reply).unwrap();
    let prepared = client.prepare_genesis().unwrap();
    let msg = WalletNodeClient::log_spent_request(&prepared.entries[0]);
    let reply = client_request(&mut nodes[0], &mut logs[0], msg, false);
    assert!(matches!(reply, ReplyMsg::LogSpent(Ok(_))));

    // the same genesis input spent again, toward a different output
    let material = sn_dbc::mock::GenesisMaterial::default();
    let other = sn_dbc::TransactionBuilder::default()
        .add_input(
            material.genesis_tx.0.inputs[0].clone(),
            material.genesis_tx.1.clone(),
            material.genesis_tx.2.clone(),
        )
        .add_output(
            material.genesis_tx.0.outputs[0].token,
            material.main_key.public_address(),
            [7u8; 32],
        )
        .build(sn_dbc::Hash::default())
        .unwrap();
    let spend = other.signed_spends()[0].clone();
    let msg = Msg::Wallet(WalletMsg::Request(RequestMsg::LogSpent(
        other.spent_tx.clone(),
        spend.clone(),
    )));
    let reply = client_request(&mut nodes[0], &mut logs[0], msg, false);
    assert!(matches!(reply, ReplyMsg::LogSpent(Err(WalletError::Dbc(_)))));
    // the refusal left the durable log alone
    assert_eq!(logs[0].len(), 1);

    // during replay the same refusal is skipped, not fatal: the log's own
    // entry is reproduced, the conflicting one is passed over
    let mut entries = SpentbookNodeServer::parse_log(&logs[0]);
    entries.push(sn_dbc_examples::spentbook::SpentLogEntry {
        transaction: other.spent_tx.clone(),
        signed_spend: spend,
    });
    let count = nodes[1].replay_entries(&entries);
    assert_eq!(count, 1);
}

#[test]
fn failed_append_never_acknowledges() {
    let (mut nodes, mut logs) = form_quorum();
    let mut client = WalletNodeClient::new();
    let reply = client_request(
        &mut nodes[0],
        &mut logs[0],
        WalletNodeClient::discover_request(),
        false,
    );
    client.apply_discover_reply(reply).unwrap();
    let prepared = client.prepare_genesis().unwrap();
    let msg = WalletNodeClient::log_spent_request(&prepared.entries[0]);
    match nodes[0].handle_envelope(msg) {
        EnvelopeOutcome::AppendThenReply(share, _entry, _line) => {
            match ack_after_append(share, false) {
                Err(WalletError::Internal) => {}
                _ => panic!("no success may be visible without a durable record"),
            }
        }
        _ => panic!("a ready node must accept the genesis spend"),
    }
}
