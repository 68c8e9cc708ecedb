use vstd::prelude::*;

use crate::peer::{NodeAddr, PeerId};
use crate::registry::PeerRegistry;

verus! {

/// Peer-to-peer traffic between authority nodes: a peer announcing itself,
/// or one round of the key-generation protocol relayed to a fellow member.
pub enum PeerMsg {
    Peer(PeerId, NodeAddr),
    Dkg(bls_dkg::key_gen::message::Message),
}

/// Why a client request failed. `NotReady` is distinct from a ledger
/// refusal, so a client may retry later instead of giving up.
#[derive(Debug)]
pub enum WalletError {
    NotReady,
    Internal,
    Dbc(sn_dbc::Error),
    /// A member's refusal as it crossed the wire: the ledger's error value
    /// has no byte form, so a client receives only its text. A node itself
    /// answers with the typed `Dbc` refusal.
    Rejected(String),
}

/// One node's acknowledging signature share over a recorded spend, with the
/// node's index among the quorum members, so a client can combine a
/// threshold's worth of them.
pub struct SpentProofShare {
    pub index: u64,
    pub signature_share: bls_dkg::blsttc::SignatureShare,
}

/// What a client may ask an authority node: the quorum membership, or the
/// recording of one spend.
pub enum RequestMsg {
    Discover,
    LogSpent(sn_dbc::DbcTransaction, sn_dbc::SignedSpend),
}

/// What an authority node answers: the verification material (absent until
/// key generation finished) with a registry snapshot, or the outcome of one
/// spend.
pub enum ReplyMsg {
    Discover(Option<bls_dkg::PublicKeySet>, PeerRegistry),
    LogSpent(Result<SpentProofShare, WalletError>),
}

/// Client-facing traffic: a request or the reply to one.
pub enum WalletMsg {
    Request(RequestMsg),
    Reply(ReplyMsg),
}

/// The whole envelope one connection carries, serialized as a single byte
/// blob per message by the transport layer.
pub enum Msg {
    Wallet(WalletMsg),
    P2p(PeerMsg),
}

/// One delivery the node asks the transport to make.
pub struct SendAction {
    pub dest: NodeAddr,
    pub msg: Msg,
}

} // verus!
