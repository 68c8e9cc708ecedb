use sn_dbc_examples::codec::{decode, encode};
use sn_dbc_examples::client::{ReissueError, WalletNodeClient};
use sn_dbc_examples::node::{ack_after_append, EnvelopeOutcome, SpentbookNodeServer};
use sn_dbc_examples::peer::{NodeAddr, PeerId};
use sn_dbc_examples::wallet::{bytes_eq, copy_bytes, DbcInfo, Wallet};
use sn_dbc_examples::wire::{Msg, ReplyMsg, SendAction};

fn pid(n: u8) -> PeerId {
    PeerId { hi: 0, lo: n as u128 }
}

fn addr(port: u16) -> NodeAddr {
    NodeAddr { ip: 0x7f000001, port, v6: false }
}

/// A wallet whose genesis value was minted by a real three-node quorum.
fn funded_wallet() -> (Vec<SpentbookNodeServer>, Vec<Vec<String>>, WalletNodeClient) {
    let ids = [pid(1), pid(2), pid(3)];
    let addrs = [addr(9001), addr(9002), addr(9003)];
    let mut nodes: Vec<SpentbookNodeServer> = Vec::new();
    let mut logs: Vec<Vec<String>> = vec![Vec::new(), Vec::new(), Vec::new()];
    for i in 0..3 {
        nodes.push(SpentbookNodeServer::new(ids[i], addrs[i], 3));
    }
    let mut queue: Vec<SendAction> = Vec::new();
    for i in 0..3 {
        let bootstrap: Vec<NodeAddr> =
            addrs.iter().cloned().filter(|a| *a != addrs[i]).collect();
        queue.extend(nodes[i].announce(&bootstrap));
    }
    while !queue.is_empty() {
        let action = queue.remove(0);
        let i = nodes.iter().position(|n| n.our_addr == action.dest).unwrap();
        match nodes[i].handle_envelope(action.msg) {
            EnvelopeOutcome::Deliver(actions, _) => queue.extend(actions),
            EnvelopeOutcome::Ignored => {}
            _ => panic!("unexpected outcome while forming the quorum"),
        }
    }
    let mut client = WalletNodeClient::new();
    match nodes[0].handle_envelope(WalletNodeClient::discover_request()) {
        EnvelopeOutcome::Reply(reply) => client.apply_discover_reply(reply).unwrap(),
        _ => panic!("discover must be answered"),
    }
    let prepared = client.prepare_genesis().unwrap();
    broadcast(&mut nodes, &mut logs, &mut client, &prepared.entries);
    client
        .complete_reissue(prepared.dbc_builder, &prepared.input_ids, "Genesis Dbc".to_string())
        .unwrap();
    (nodes, logs, client)
}

/// Record every spend of a reissue at every member and fail on any refusal.
fn broadcast(
    nodes: &mut Vec<SpentbookNodeServer>,
    logs: &mut Vec<Vec<String>>,
    client: &mut WalletNodeClient,
    entries: &Vec<sn_dbc_examples::spentbook::SpentLogEntry>,
) {
    for entry in entries.iter() {
        let mut replies = Vec::new();
        for target in client.broadcast_targets().iter() {
            let i = nodes.iter().position(|n| n.our_addr == *target).unwrap();
            let msg = WalletNodeClient::log_spent_request(entry);
            let reply = match nodes[i].handle_envelope(msg) {
                EnvelopeOutcome::Reply(reply) => reply,
                EnvelopeOutcome::AppendThenReply(share, _entry, line) => {
                    logs[i].push(line);
                    ReplyMsg::LogSpent(ack_after_append(share, true))
                }
                _ => panic!("a spend request must be answered"),
            };
            replies.push(reply);
        }
        WalletNodeClient::collect_log_spent_replies(&replies).unwrap();
    }
}

#[test]
fn reissue_moves_value_and_keeps_the_change() {
    let (mut nodes, mut logs, mut client) = funded_wallet();
    assert_eq!(client.wallet.balance(), Some(u64::MAX));

    // a third party hands out an address; the wallet reissues 1000 to it
    let recipient_key = sn_dbc::MainKey::random();
    let prepared = client.prepare_reissue(1000, &recipient_key.public_address()).unwrap();
    assert_eq!(prepared.input_ids.len(), 1);
    broadcast(&mut nodes, &mut logs, &mut client, &prepared.entries);
    let outcome = client
        .complete_reissue(prepared.dbc_builder, &prepared.input_ids, String::new())
        .unwrap();
    let hex_form = outcome.recipient_hex;

    // the recipient's value is stored but not ours; the change is ours,
    // noted as change
    assert_eq!(client.wallet.balance(), Some(u64::MAX - 1000));
    assert_eq!(client.wallet.unspent_indices().len(), 2);
    assert_eq!(client.wallet.spent_indices().len(), 1);
    let change_row = outcome.change_row.unwrap();
    assert_eq!(client.wallet.dbcs[change_row].notes, "change");
    assert!(client.wallet.dbcs[change_row].spent.is_none());
    assert_eq!(client.wallet.dbcs[outcome.recipient_row].notes, "");

    // the handed-over form is the value itself: depositing it into the
    // recipient's own wallet makes it spendable there
    let mut recipient = WalletNodeClient::new();
    recipient.wallet.addkey(recipient_key);
    let amount = recipient.deposit_dbc(&hex_form, "gift".to_string()).unwrap();
    assert_eq!(amount, 1000);
    assert_eq!(recipient.wallet.balance(), Some(1000));
}

#[test]
fn reissue_rejects_an_amount_beyond_the_balance() {
    let mut client = WalletNodeClient::new();
    let recipient = sn_dbc::MainKey::random();
    match client.prepare_reissue(5, &recipient.public_address()) {
        Err(ReissueError::InsufficientFunds) => {}
        _ => panic!("an empty wallet covers nothing"),
    }
}

#[test]
fn ownership_follows_the_key_ring() {
    let (_nodes, _logs, client) = funded_wallet();
    let w = &client.wallet;
    assert_eq!(w.dbcs.len(), 1);
    assert_eq!(w.ownership(0).label(), "mine");
    let stranger = Wallet::new();
    assert_eq!(stranger.keys.len(), 0);
}

#[test]
fn select_inputs_takes_values_until_the_amount_is_covered() {
    let (_nodes, _logs, client) = funded_wallet();
    // craft a wallet of three owned values of 5, 7 and 9 by reusing the
    // genesis value and overriding the plain bookkeeping fields
    let genesis = &client.wallet.dbcs[0];
    let mut w = Wallet::new();
    for (n, amount) in [(1u8, 5u64), (2, 7), (3, 9)] {
        let key = sn_dbc::MainKey::random();
        let address = w.addkey(key);
        w.dbcs.push(DbcInfo {
            dbc: genesis.dbc.clone(),
            id: vec![n; 32],
            amount,
            owner: address,
            received: 0,
            spent: None,
            notes: String::new(),
        });
    }
    assert_eq!(w.balance(), Some(21));
    let (chosen, change) = w.select_inputs(10).unwrap();
    // the first two values cover 10, with 2 change
    assert_eq!(chosen, vec![0, 1]);
    assert_eq!(change, 2);
    let (chosen, change) = w.select_inputs(21).unwrap();
    assert_eq!(chosen, vec![0, 1, 2]);
    assert_eq!(change, 0);
    assert!(w.select_inputs(22).is_none());
    // a spent value is passed over
    w.mark_spent(&vec![1u8; 32]);
    assert_eq!(w.balance(), Some(16));
    let (chosen, change) = w.select_inputs(8).unwrap();
    assert_eq!(chosen, vec![1, 2]);
    assert_eq!(change, 8);
}

#[test]
fn new_receive_key_hands_out_its_address() {
    let mut client = WalletNodeClient::new();
    let hex_form = client.new_receive_key();
    assert_eq!(hex_form.len(), 96);
    let bytes = decode(&hex_form).unwrap();
    assert_eq!(bytes.len(), 48);
    assert!(client.wallet.find_key(&bytes).is_some());
}

#[test]
fn hex_encodes_two_lower_case_digits_per_byte() {
    let empty: Vec<u8> = Vec::new();
    assert_eq!(encode(&empty), "");
    assert_eq!(encode(&vec![0x00, 0xab, 0x1f]), "00ab1f");
    assert_eq!(decode(&"00ab1f".to_string()).unwrap(), vec![0x00, 0xab, 0x1f]);
    assert_eq!(decode(&"00AB1F".to_string()).unwrap(), vec![0x00, 0xab, 0x1f]);
    assert!(decode(&"0g".to_string()).is_err());
    assert!(decode(&"abc".to_string()).is_err());
}

#[test]
fn byte_strings_compare_by_content() {
    let a = vec![1u8, 2, 3];
    let b = copy_bytes(&a);
    assert!(bytes_eq(&a, &b));
    assert!(!bytes_eq(&a, &vec![1u8, 2]));
    assert!(!bytes_eq(&a, &vec![1u8, 2, 4]));
}

#[test]
fn deposit_rejects_malformed_text() {
    let mut client = WalletNodeClient::new();
    assert!(client.deposit_dbc(&"zz".to_string(), String::new()).is_err());
    assert!(client.deposit_dbc(&"abc".to_string(), String::new()).is_err());
    assert!(client.deposit_dbc(&"00ff".to_string(), String::new()).is_err());
    assert_eq!(client.wallet.dbcs.len(), 0);
}

#[test]
fn replacing_a_key_keeps_the_ring_unique() {
    let mut w = Wallet::new();
    let key = sn_dbc::MainKey::random();
    let key_bytes = key.to_bytes();
    let a1 = w.addkey(key);
    let again = sn_dbc::MainKey::new(sn_dbc::blsttc::SecretKey::from_bytes({
        let mut b = [0u8; 32];
        b.copy_from_slice(&key_bytes);
        b
    }).unwrap());
    let a2 = w.addkey(again);
    assert_eq!(a1, a2);
    assert_eq!(w.keys.len(), 1);
}

#[test]
fn messages_stay_in_the_envelope_taxonomy() {
    let msg = WalletNodeClient::discover_request();
    assert!(matches!(
        msg,
        Msg::Wallet(sn_dbc_examples::wire::WalletMsg::Request(
            sn_dbc_examples::wire::RequestMsg::Discover
        ))
    ));
}
