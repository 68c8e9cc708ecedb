use vstd::prelude::*;

use crate::dkg::{
    clone_public_key_set, dkg_generate_keys, dkg_handle_message, dkg_initialize, dkg_is_finalized,
    sign_with_share, DkgOutbound, KeyMaterial,
};
use crate::peer::{NodeAddr, PeerId};
use crate::registry::{
    lemma_map_of_value, lemma_sorted_distinct, step_fires, PeerEntry, PeerRegistry,
};
use crate::spentbook::{
    clone_signed_spend, clone_transaction, encode_log_entry, new_spentbook_ledger,
    parse_log_entry, signed_spend_bytes, spentbook_log_spent, SpentLogEntry,
};
use crate::wire::{Msg, PeerMsg, ReplyMsg, RequestMsg, SendAction, SpentProofShare, WalletError, WalletMsg};

verus! {

/// A fault of the node's own handling, fatal for the message that caused
/// it: the key-generation session refused a relayed message.
pub enum NodeError {
    Dkg(bls_dkg::key_gen::Error),
}

/// What one spend request came to.
pub enum LogSpentOutcome {
    /// Key material is absent: the ledger was not consulted, and the client
    /// is told to retry later.
    NotReady,
    /// The ledger refused the spend.
    Rejected(sn_dbc::Error),
    /// The node could not put the spend into byte form for signing.
    Internal,
    /// The ledger accepted the spend. The entry — whose durable line form
    /// comes along — must be appended before the share is acknowledged to
    /// the client.
    Logged(SpentProofShare, SpentLogEntry, String),
}

/// What one inbound envelope asks the caller to do.
pub enum EnvelopeOutcome {
    /// Deliveries to make; the flag says whether this very message
    /// completed key generation, so that the caller replays the durable log.
    Deliver(Vec<SendAction>, bool),
    /// The session refused the message; fatal for this message.
    SessionFailed(NodeError),
    /// An answer to send back on the same connection.
    Reply(ReplyMsg),
    /// An accepted spend: append the line durably, then build the reply
    /// with `ack_after_append`.
    AppendThenReply(SpentProofShare, SpentLogEntry, String),
    /// A reply envelope arriving at a node carries no request; ignored.
    Ignored,
}

/// Durability before acknowledgment: a client sees success only after the
/// entry reached the durable log. A failed append turns an accepted spend
/// into a failed request.
pub fn ack_after_append(share: SpentProofShare, append_ok: bool) -> (r: Result<
    SpentProofShare,
    WalletError,
>)
    ensures
        append_ok ==> r == Ok::<SpentProofShare, WalletError>(share),
        !append_ok ==> r == Err::<SpentProofShare, WalletError>(WalletError::Internal),
{
    if append_ok {
        Ok(share)
    } else {
        Err(WalletError::Internal)
    }
}

/// One authority node of the spentbook quorum: its identity, its view of
/// the peer set, the running key-generation session once the quorum is
/// complete, and — after the session finishes — the installed key material
/// and the ledger it serves requests from.
///
/// The node never performs network or file work itself: each handler
/// returns the deliveries it wants made, and the caller performs them.
pub struct SpentbookNodeServer {
    pub our_id: PeerId,
    pub our_addr: NodeAddr,
    pub quorum_size: usize,
    pub peers: PeerRegistry,
    pub keygen: Option<bls_dkg::key_gen::KeyGen>,
    /// The polynomial degree the running session was created with: all but
    /// one of the quorum must cooperate.
    pub dkg_threshold: Ghost<nat>,
    pub key_material: Option<KeyMaterial>,
    pub ledger: Option<sn_dbc::mock::SpentbookNode>,
    /// The spends the ledger has accepted, in the order it accepted them.
    pub applied: Ghost<Seq<SpentLogEntry>>,
}

impl SpentbookNodeServer {
    /// What every handler preserves: a sound registry that includes the
    /// node itself, key material and ledger installed together, and a
    /// session only ever started once the registry reached quorum size.
    pub open spec fn wf(self) -> bool {
        &&& self.peers.wf()
        &&& self.peers.spec_contains(self.our_id)
        &&& self.quorum_size >= 1
        &&& (self.key_material is Some <==> self.ledger is Some)
        &&& (self.keygen is Some ==> self.peers.entries@.len() >= self.quorum_size)
        &&& (self.keygen is Some ==> self.dkg_threshold@ == self.quorum_size - 1)
    }

    /// A node starts alone, with no session, no key material and no ledger.
    pub fn new(our_id: PeerId, our_addr: NodeAddr, quorum_size: usize) -> (r: Self)
        requires
            quorum_size >= 1,
        ensures
            r.wf(),
            r.our_id == our_id,
            r.our_addr == our_addr,
            r.quorum_size == quorum_size,
            r.peers.entries@ =~= seq![PeerEntry { id: our_id, addr: our_addr }],
            r.keygen is None,
            r.key_material is None,
            r.ledger is None,
    {
        let r = SpentbookNodeServer {
            our_id,
            our_addr,
            quorum_size,
            peers: PeerRegistry::singleton(our_id, our_addr),
            keygen: None,
            dkg_threshold: Ghost(0),
            key_material: None,
            ledger: None,
            applied: Ghost(Seq::empty()),
        };
        proof {
            assert(r.peers.entries@[0].id == our_id);
            assert(r.peers.spec_contains(our_id));
        }
        r
    }

    /// On startup the node announces itself to each configured bootstrap
    /// endpoint.
    pub fn announce(&self, bootstrap: &Vec<NodeAddr>) -> (actions: Vec<SendAction>)
        ensures
            actions@.len() == bootstrap@.len(),
            forall|i: int|
                0 <= i < actions@.len() ==> actions@[i] == (SendAction {
                    dest: bootstrap@[i],
                    msg: Msg::P2p(PeerMsg::Peer(self.our_id, self.our_addr)),
                }),
    {
        let mut actions: Vec<SendAction> = Vec::new();
        let mut k: usize = 0;
        while k < bootstrap.len()
            invariant
                0 <= k <= bootstrap@.len(),
                actions@.len() == k,
                forall|i: int|
                    0 <= i < k ==> actions@[i] == (SendAction {
                        dest: bootstrap@[i],
                        msg: Msg::P2p(PeerMsg::Peer(self.our_id, self.our_addr)),
                    }),
            decreases bootstrap@.len() - k,
        {
            actions.push(SendAction {
                dest: bootstrap[k],
                msg: Msg::P2p(PeerMsg::Peer(self.our_id, self.our_addr)),
            });
            k = k + 1;
        }
        actions
    }

    /// Handle one peer announcement.
    ///
    /// A known peer changes nothing and is owed nothing. A new peer is told
    /// every row the node already held, then recorded; and the moment the
    /// registry first reaches quorum size — and only then — the node starts
    /// the key-generation session and addresses its opening message to
    /// every member at that member's registered endpoint.
    pub fn handle_peer_msg(&mut self, actor: PeerId, addr: NodeAddr) -> (actions: Vec<SendAction>)
        requires
            old(self).wf(),
        ensures
            final(self).wf(),
            final(self).our_id == old(self).our_id,
            final(self).our_addr == old(self).our_addr,
            final(self).quorum_size == old(self).quorum_size,
            final(self).key_material == old(self).key_material,
            final(self).ledger == old(self).ledger,
            final(self).applied == old(self).applied,
            // Idempotent admission: a repeated announcement is a no-op.
            old(self).peers.spec_contains(actor) ==> {
                &&& *final(self) == *old(self)
                &&& actions@ =~= Seq::<SendAction>::empty()
            },
            // Full propagation on join: the newcomer is sent every row the
            // node held, and is recorded.
            !old(self).peers.spec_contains(actor) ==> {
                &&& final(self).peers.view_map() == old(self).peers.view_map().insert(actor, addr)
                &&& final(self).peers.entries@.len() == old(self).peers.entries@.len() + 1
                &&& actions@.len() >= old(self).peers.entries@.len()
                &&& (forall|i: int|
                    0 <= i < old(self).peers.entries@.len() ==> actions@[i] == (SendAction {
                        dest: addr,
                        msg: Msg::P2p(
                            PeerMsg::Peer(
                                old(self).peers.entries@[i].id,
                                old(self).peers.entries@[i].addr,
                            ),
                        ),
                    }))
            },
            // The session starts exactly when the registry first reaches
            // quorum size, created with the all-but-one threshold.
            final(self).keygen is Some <==> (old(self).keygen is Some || step_fires(
                old(self).peers.view_map(),
                PeerEntry { id: actor, addr },
                old(self).quorum_size as nat,
            )),
            final(self).keygen is Some ==> final(self).dkg_threshold@ == old(self).quorum_size
                - 1,
            // When it does, one opening message is addressed to every
            // member, at that member's registered endpoint.
            step_fires(
                old(self).peers.view_map(),
                PeerEntry { id: actor, addr },
                old(self).quorum_size as nat,
            ) ==> {
                &&& actions@.len() == old(self).peers.entries@.len()
                    + final(self).peers.entries@.len()
                &&& (forall|i: int|
                    old(self).peers.entries@.len() <= i < actions@.len() ==> {
                        &&& actions@[i].dest == final(self).peers.entries@[i - old(
                            self,
                        ).peers.entries@.len()].addr
                        &&& actions@[i].msg matches Msg::P2p(PeerMsg::Dkg(_))
                    })
            },
            !step_fires(
                old(self).peers.view_map(),
                PeerEntry { id: actor, addr },
                old(self).quorum_size as nat,
            ) ==> {
                &&& final(self).keygen == old(self).keygen
                &&& (!old(self).peers.spec_contains(actor) ==> actions@.len() == old(
                    self,
                ).peers.entries@.len())
            },
    {
        let outcome = self.peers.handle_peer(actor, addr, self.quorum_size);
        let mut actions: Vec<SendAction> = Vec::new();
        let mut k: usize = 0;
        while k < outcome.announce.len()
            invariant
                0 <= k <= outcome.announce@.len(),
                actions@.len() == k,
                forall|i: int|
                    0 <= i < k ==> actions@[i] == (SendAction {
                        dest: addr,
                        msg: Msg::P2p(
                            PeerMsg::Peer(outcome.announce@[i].id, outcome.announce@[i].addr),
                        ),
                    }),
            decreases outcome.announce@.len() - k,
        {
            actions.push(SendAction {
                dest: addr,
                msg: Msg::P2p(PeerMsg::Peer(outcome.announce[k].id, outcome.announce[k].addr)),
            });
            k = k + 1;
        }
        if outcome.quorum_reached {
            let ghost n_announced = actions@.len();
            proof {
                assert(!old(self).peers.spec_contains(actor));
                assert(n_announced == old(self).peers.entries@.len());
                assert(self.peers.spec_contains(self.our_id));
            }
            let names = self.peers.ids();
            proof {
                assert forall|i: int, j: int|
                    0 <= i < j < names@.len() implies #[trigger] names@[i].lt_spec(
                    #[trigger] names@[j],
                ) by {
                    assert(self.peers.entries@[i].id.lt_spec(self.peers.entries@[j].id));
                }
                let w = choose|w: int|
                    0 <= w < self.peers.entries@.len() && self.peers.entries@[w].id
                        == self.our_id;
                assert(names@[w] == self.our_id);
                assert(names@.len() == self.quorum_size);
            }
            let (kg, outbound) = dkg_initialize(&self.our_id, self.quorum_size - 1, &names);
            self.keygen = Some(kg);
            self.dkg_threshold = Ghost((self.quorum_size - 1) as nat);
            let ghost snap = *self;
            let mut rest = outbound;
            let mut j: usize = 0;
            let n = names.len();
            while j < n
                invariant
                    n == names@.len(),
                    *self == snap,
                    0 <= j <= names@.len(),
                    j + rest@.len() == names@.len(),
                    actions@.len() == n_announced + j,
                    n_announced == outcome.announce@.len(),
                    self.peers.entries@.len() == names@.len(),
                    forall|i: int|
                        n_announced <= i < actions@.len() ==> {
                            &&& (#[trigger] actions@[i]).dest == self.peers.entries@[i
                                - n_announced].addr
                            &&& actions@[i].msg matches Msg::P2p(PeerMsg::Dkg(_))
                        },
                    forall|i: int|
                        0 <= i < n_announced ==> actions@[i] == (SendAction {
                            dest: addr,
                            msg: Msg::P2p(
                                PeerMsg::Peer(outcome.announce@[i].id, outcome.announce@[i].addr),
                            ),
                        }),
                decreases n - j,
            {
                let (_target, m) = rest.remove(0);
                actions.push(SendAction { dest: self.peers.entries[j].addr, msg: Msg::P2p(PeerMsg::Dkg(m)) });
                j = j + 1;
            }
        }
        proof {
            crate::registry::lemma_map_of_matches_rows(old(self).peers.entries@);
        }
        actions
    }

    /// Answer a discover request: the verification material if and only if
    /// key material is installed, and a snapshot of the registry as it is
    /// at this moment. The snapshot is a value of its own: peers that join
    /// later do not appear in it.
    pub fn handle_discover(&self) -> (r: ReplyMsg)
        requires
            self.wf(),
        ensures
            match r {
                ReplyMsg::Discover(pks, snap) => {
                    &&& snap.entries@ == self.peers.entries@
                    &&& (match self.key_material {
                        Some(km) => pks == Some(km.public_key_set),
                        None => pks is None,
                    })
                },
                _ => false,
            },
    {
        let pks = match &self.key_material {
            Some(km) => Some(clone_public_key_set(&km.public_key_set)),
            None => None,
        };
        let snap = self.peers.snapshot();
        proof {
            assert(snap.entries@ =~= self.peers.entries@);
        }
        ReplyMsg::Discover(pks, snap)
    }

    /// Relay the session's outbound messages: each message whose target is
    /// a known peer is addressed to that peer's registered endpoint, in
    /// order; one whose target is not yet registered is skipped — a defined
    /// outcome, not a fault.
    pub fn relay_outbound(&self, outbound: Vec<DkgOutbound>) -> (actions: Vec<SendAction>)
        requires
            self.wf(),
        ensures
            actions@ == relay_spec(*self, outbound@),
    {
        proof {
            lemma_sorted_distinct(self.peers.entries@);
        }
        let mut actions: Vec<SendAction> = Vec::new();
        let mut rest = outbound;
        let ghost all = rest@;
        let mut k: usize = 0;
        let n = rest.len();
        while k < n
            invariant
                self.wf(),
                n == all.len(),
                k + rest@.len() == all.len(),
                rest@ =~= all.skip(k as int),
                actions@ == relay_spec(*self, all.take(k as int)),
                forall|a: int, b: int|
                    0 <= a < b < self.peers.entries@.len() ==> #[trigger] self.peers.entries@[a].id
                        != #[trigger] self.peers.entries@[b].id,
            decreases n - k,
        {
            let (target, m) = rest.remove(0);
            match self.peers.lookup(&target) {
                Some(dest) => {
                    proof {
                        let w = choose|w: int|
                            0 <= w < self.peers.entries@.len() && self.peers.entries@[w]
                                == (PeerEntry { id: target, addr: dest });
                        lemma_map_of_value(self.peers.entries@, w);
                    }
                    actions.push(SendAction { dest, msg: Msg::P2p(PeerMsg::Dkg(m)) });
                },
                None => {
                    proof {
                        crate::registry::lemma_map_of_matches_rows(self.peers.entries@);
                    }
                },
            }
            k = k + 1;
            proof {
                assert(all.take(k as int).drop_last() =~= all.take(k - 1));
                assert(all.take(k as int).last() == all[k - 1]);
            }
        }
        proof {
            assert(all.take(n as int) =~= all);
        }
        actions
    }

    /// Handle one relayed key-generation message.
    ///
    /// A message arriving before the session exists is dropped, and so is
    /// one arriving after key material is installed: the session is then
    /// complete. A finalized session drops further messages too. Otherwise
    /// the message is handed to
    /// the session; a session failure is fatal for this message; whatever
    /// messages the session produced are relayed as `relay_outbound` says.
    /// The first time the session reports itself finished and yields an
    /// outcome, the key material and a fresh ledger are installed, exactly
    /// once: key material, once present, is never replaced.
    pub fn handle_dkg_msg(&mut self, msg: &bls_dkg::key_gen::message::Message) -> (r: Result<
        (Vec<SendAction>, bool),
        NodeError,
    >)
        requires
            old(self).wf(),
        ensures
            final(self).wf(),
            final(self).our_id == old(self).our_id,
            final(self).our_addr == old(self).our_addr,
            final(self).quorum_size == old(self).quorum_size,
            final(self).peers == old(self).peers,
            final(self).keygen is Some <==> old(self).keygen is Some,
            // a message before the session exists is dropped, not buffered
            old(self).keygen is None ==> {
                &&& *final(self) == *old(self)
                &&& r matches Ok(p) && p.0@ =~= Seq::<SendAction>::empty() && !p.1
            },
            // one after key material is installed is dropped the same way
            old(self).key_material is Some ==> {
                &&& *final(self) == *old(self)
                &&& r matches Ok(p) && p.0@ =~= Seq::<SendAction>::empty() && !p.1
            },
            // key material, once installed, is never replaced
            old(self).key_material is Some ==> {
                &&& final(self).key_material == old(self).key_material
                &&& final(self).ledger == old(self).ledger
                &&& final(self).applied == old(self).applied
            },
            // installation happens exactly on the step that reports it, and
            // comes with a fresh, empty ledger
            match r {
                Ok(p) => {
                    &&& (p.1 ==> final(self).key_material is Some && old(self).key_material
                        is None && final(self).applied@ =~= Seq::<SpentLogEntry>::empty())
                    &&& (!p.1 ==> final(self).key_material == old(self).key_material
                        && final(self).ledger == old(self).ledger && final(self).applied == old(
                        self,
                    ).applied)
                },
                Err(_) => {
                    &&& final(self).key_material == old(self).key_material
                    &&& final(self).ledger == old(self).ledger
                    &&& final(self).applied == old(self).applied
                },
            },
            // whatever the session produced, the deliveries have the relay's
            // shape: each is one of its messages, addressed to its target's
            // registered endpoint
            r matches Ok(p) ==> exists|out: Seq<DkgOutbound>|
                p.0@ == relay_spec(*final(self), out),
    {
        let finished_or_absent = match &self.keygen {
            None => true,
            Some(kg) => dkg_is_finalized(kg),
        };
        if self.key_material.is_some() || finished_or_absent {
            let actions: Vec<SendAction> = Vec::new();
            proof {
                assert(actions@ =~= relay_spec(*self, Seq::<DkgOutbound>::empty()));
            }
            return Ok((actions, false));
        }
        let outbound_res = match &mut self.keygen {
            Some(kg) => dkg_handle_message(kg, msg),
            None => vstd::pervasive::unreached(),
        };
        let outbound = match outbound_res {
            Ok(o) => o,
            Err(e) => {
                return Err(NodeError::Dkg(e));
            },
        };
        let ghost out0 = outbound@;
        let ghost mid = *self;
        let actions = self.relay_outbound(outbound);
        let mut installed = false;
        let finished = match &self.keygen {
            Some(kg) => dkg_is_finalized(kg),
            None => false,
        };
        if finished && self.key_material.is_none() {
            let km_opt = match &self.keygen {
                Some(kg) => dkg_generate_keys(kg),
                None => None,
            };
            match km_opt {
                Some(km) => {
                    self.key_material = Some(km);
                    self.ledger = Some(new_spentbook_ledger());
                    self.applied = Ghost(Seq::empty());
                    installed = true;
                },
                None => {
                    // The session reported itself finished but yielded no
                    // outcome: the node continues without key material.
                },
            }
        }
        proof {
            lemma_relay_spec_same_peers(mid, *self, out0);
            assert(actions@ == relay_spec(*self, out0));
        }
        Ok((actions, installed))
    }

    /// Whether the node can serve application requests.
    pub fn is_ready(&self) -> (r: bool)
        ensures
            r == (self.key_material is Some),
    {
        self.key_material.is_some()
    }

    /// Handle one spend request.
    ///
    /// Without key material the ledger is not consulted and the caller is
    /// told the node is not ready. Otherwise the ledger decides; only a
    /// spend the ledger accepted extends the record of applied spends, by
    /// exactly the entry that must now be made durable, and the share that
    /// acknowledges it carries this node's member index.
    pub fn handle_log_spent_request(
        &mut self,
        tx: &sn_dbc::DbcTransaction,
        signed_spend: &sn_dbc::SignedSpend,
    ) -> (r: LogSpentOutcome)
        requires
            old(self).wf(),
        ensures
            final(self).wf(),
            final(self).our_id == old(self).our_id,
            final(self).our_addr == old(self).our_addr,
            final(self).quorum_size == old(self).quorum_size,
            final(self).peers == old(self).peers,
            final(self).keygen == old(self).keygen,
            final(self).key_material == old(self).key_material,
            // the not-ready guard: without key material nothing reaches the
            // ledger and the node is left exactly as it was
            old(self).key_material is None ==> {
                &&& *final(self) == *old(self)
                &&& r is NotReady
            },
            old(self).key_material is Some ==> !(r is NotReady),
            match r {
                LogSpentOutcome::Logged(share, entry, _line) => {
                    &&& entry.transaction == *tx
                    &&& entry.signed_spend == *signed_spend
                    &&& final(self).applied@ =~= old(self).applied@.push(entry)
                    &&& (match old(self).key_material {
                        Some(km) => share.index == km.index,
                        None => false,
                    })
                },
                LogSpentOutcome::NotReady => final(self).applied == old(self).applied,
                LogSpentOutcome::Rejected(_) => final(self).applied == old(self).applied,
                LogSpentOutcome::Internal => final(self).applied == old(self).applied,
            },
    {
        if self.key_material.is_none() {
            return LogSpentOutcome::NotReady;
        }
        let bytes = match signed_spend_bytes(signed_spend) {
            Some(b) => b,
            None => {
                return LogSpentOutcome::Internal;
            },
        };
        let entry = SpentLogEntry {
            transaction: clone_transaction(tx),
            signed_spend: clone_signed_spend(signed_spend),
        };
        let line = match encode_log_entry(&entry) {
            Some(l) => l,
            None => {
                return LogSpentOutcome::Internal;
            },
        };
        let res = match &mut self.ledger {
            Some(ledger) => spentbook_log_spent(ledger, tx, signed_spend),
            None => vstd::pervasive::unreached(),
        };
        match res {
            Err(e) => LogSpentOutcome::Rejected(e),
            Ok(_) => {
                self.applied = Ghost(self.applied@.push(entry));
                let share = match &self.key_material {
                    Some(km) => SpentProofShare {
                        index: km.index,
                        signature_share: sign_with_share(&km.secret_key_share, &bytes),
                    },
                    None => vstd::pervasive::unreached(),
                };
                LogSpentOutcome::Logged(share, entry, line)
            },
        }
    }

    /// Replay a durable log into the ledger, in file order. An entry the
    /// ledger rejects is skipped, not fatal. The record of applied spends
    /// grows by exactly the accepted entries, in log order; a log whose
    /// entries are all accepted — the normal case for a log this node wrote
    /// itself — is reproduced exactly.
    pub fn replay_entries(&mut self, entries: &Vec<SpentLogEntry>) -> (count: usize)
        requires
            old(self).wf(),
            old(self).ledger is Some,
        ensures
            final(self).wf(),
            final(self).our_id == old(self).our_id,
            final(self).our_addr == old(self).our_addr,
            final(self).quorum_size == old(self).quorum_size,
            final(self).peers == old(self).peers,
            final(self).keygen == old(self).keygen,
            final(self).key_material == old(self).key_material,
            final(self).ledger is Some,
            count <= entries@.len(),
            final(self).applied@.len() == old(self).applied@.len() + count,
            // the applied record grows by the accepted entries themselves,
            // in log order
            exists|picks: Seq<int>|
                {
                    &&& picks.len() == count
                    &&& (forall|a: int, b: int|
                        0 <= a < b < picks.len() ==> #[trigger] picks[a] < #[trigger] picks[b])
                    &&& (forall|a: int| 0 <= a < picks.len() ==> 0 <= #[trigger] picks[a]
                        < entries@.len())
                    &&& final(self).applied@ =~= old(self).applied@ + picks.map_values(
                        |p: int| entries@[p],
                    )
                },
            count == entries@.len() ==> final(self).applied@ =~= old(self).applied@ + entries@,
    {
        let ghost applied0 = self.applied@;
        let ghost mut picks: Seq<int> = Seq::empty();
        let mut count: usize = 0;
        let mut k: usize = 0;
        let n = entries.len();
        while k < n
            invariant
                self.wf(),
                self.ledger is Some,
                self.our_id == old(self).our_id,
                self.our_addr == old(self).our_addr,
                self.quorum_size == old(self).quorum_size,
                self.peers == old(self).peers,
                self.keygen == old(self).keygen,
                self.key_material == old(self).key_material,
                n == entries@.len(),
                count <= k <= n,
                picks.len() == count,
                forall|a: int, b: int|
                    0 <= a < b < picks.len() ==> #[trigger] picks[a] < #[trigger] picks[b],
                forall|a: int| 0 <= a < picks.len() ==> 0 <= #[trigger] picks[a] < k,
                self.applied@ =~= applied0 + picks.map_values(|p: int| entries@[p]),
                self.applied@.len() == applied0.len() + count,
                applied0 == old(self).applied@,
                count == k ==> self.applied@ =~= applied0 + entries@.take(k as int),
            decreases n - k,
        {
            let accepted = match &mut self.ledger {
                Some(ledger) => spentbook_log_spent(
                    ledger,
                    &entries[k].transaction,
                    &entries[k].signed_spend,
                ).is_ok(),
                None => vstd::pervasive::unreached(),
            };
            if accepted {
                self.applied = Ghost(self.applied@.push(entries@[k as int]));
                proof {
                    let picks0 = picks;
                    picks = picks.push(k as int);
                    assert(picks.drop_last() =~= picks0);
                    assert(picks.map_values(|p: int| entries@[p]) =~= picks0.map_values(
                        |p: int| entries@[p],
                    ).push(entries@[k as int]));
                }
                count = count + 1;
            }
            k = k + 1;
            proof {
                if count == k {
                    assert(entries@.take(k as int).drop_last() =~= entries@.take(k - 1));
                    assert(entries@.take(k as int).last() == entries@[k - 1]);
                    assert(self.applied@ =~= applied0 + entries@.take(k as int));
                }
            }
        }
        proof {
            assert(entries@.take(n as int) =~= entries@);
        }
        count
    }

    /// Read a durable log's lines back into entries, in file order. A line
    /// that does not parse is skipped, not fatal.
    pub fn parse_log(lines: &Vec<String>) -> (entries: Vec<SpentLogEntry>)
        ensures
            entries@.len() <= lines@.len(),
    {
        let mut entries: Vec<SpentLogEntry> = Vec::new();
        let mut k: usize = 0;
        while k < lines.len()
            invariant
                0 <= k <= lines@.len(),
                entries@.len() <= k,
            decreases lines@.len() - k,
        {
            match parse_log_entry(&lines[k]) {
                Some(e) => entries.push(e),
                None => (),
            }
            k = k + 1;
        }
        entries
    }

    /// Dispatch one inbound envelope, as the node's listening loop does:
    /// peer traffic feeds the registry and the session, a discover request
    /// is answered from the current state, a spend request goes through the
    /// not-ready guard and the ledger, and a stray reply is ignored.
    pub fn handle_envelope(&mut self, msg: Msg) -> (r: EnvelopeOutcome)
        requires
            old(self).wf(),
        ensures
            final(self).wf(),
            final(self).our_id == old(self).our_id,
            final(self).our_addr == old(self).our_addr,
            final(self).quorum_size == old(self).quorum_size,
            // key material, once installed, is never replaced
            old(self).key_material is Some ==> final(self).key_material == old(
                self,
            ).key_material,
            // the not-ready guard, seen from the dispatch level
            ((msg matches Msg::Wallet(WalletMsg::Request(RequestMsg::LogSpent(_, _)))) && old(
                self,
            ).key_material is None) ==> {
                &&& *final(self) == *old(self)
                &&& (r matches EnvelopeOutcome::Reply(ReplyMsg::LogSpent(res)) && res == Err::<
                    SpentProofShare,
                    WalletError,
                >(WalletError::NotReady))
            },
            // only an accepted spend asks for an append, and carries the
            // entry that the request itself named
            match r {
                EnvelopeOutcome::AppendThenReply(share, entry, _line) => match msg {
                    Msg::Wallet(WalletMsg::Request(RequestMsg::LogSpent(tx, ss))) => {
                        &&& entry.transaction == tx
                        &&& entry.signed_spend == ss
                        &&& final(self).applied@ =~= old(self).applied@.push(entry)
                    },
                    _ => false,
                },
                _ => true,
            },
            // a discover request reads the state and answers from it
            (msg matches Msg::Wallet(WalletMsg::Request(RequestMsg::Discover))) ==> {
                &&& *final(self) == *old(self)
                &&& match r {
                    EnvelopeOutcome::Reply(ReplyMsg::Discover(pks, snap)) => {
                        &&& snap.entries@ == old(self).peers.entries@
                        &&& (match old(self).key_material {
                            Some(km) => pks == Some(km.public_key_set),
                            None => pks is None,
                        })
                    },
                    _ => false,
                }
            },
            // a peer announcement is handled exactly as `handle_peer_msg`
            // says: the installed state is untouched, a repeated
            // announcement is a no-op, a newcomer is told the full registry
            // and recorded, and the quorum gate starts the session exactly
            // when the registry first reaches quorum size, with one opening
            // message to every member's registered endpoint
            msg matches Msg::P2p(PeerMsg::Peer(actor, addr)) ==> {
                &&& final(self).key_material == old(self).key_material
                &&& final(self).ledger == old(self).ledger
                &&& final(self).applied == old(self).applied
                &&& match r {
                    EnvelopeOutcome::Deliver(actions, installed) => {
                        &&& !installed
                        &&& (old(self).peers.spec_contains(actor) ==> *final(self) == *old(self)
                            && actions@ =~= Seq::<SendAction>::empty())
                        &&& (!old(self).peers.spec_contains(actor) ==> {
                            &&& final(self).peers.view_map() == old(
                                self,
                            ).peers.view_map().insert(actor, addr)
                            &&& final(self).peers.entries@.len() == old(
                                self,
                            ).peers.entries@.len() + 1
                            &&& actions@.len() >= old(self).peers.entries@.len()
                            &&& (forall|i: int|
                                0 <= i < old(self).peers.entries@.len() ==> actions@[i]
                                    == (SendAction {
                                    dest: addr,
                                    msg: Msg::P2p(
                                        PeerMsg::Peer(
                                            old(self).peers.entries@[i].id,
                                            old(self).peers.entries@[i].addr,
                                        ),
                                    ),
                                }))
                        })
                        &&& (final(self).keygen is Some <==> (old(self).keygen is Some
                            || step_fires(
                            old(self).peers.view_map(),
                            PeerEntry { id: actor, addr },
                            old(self).quorum_size as nat,
                        )))
                        &&& (step_fires(
                            old(self).peers.view_map(),
                            PeerEntry { id: actor, addr },
                            old(self).quorum_size as nat,
                        ) ==> {
                            &&& actions@.len() == old(self).peers.entries@.len()
                                + final(self).peers.entries@.len()
                            &&& (forall|i: int|
                                old(self).peers.entries@.len() <= i < actions@.len() ==> {
                                    &&& (#[trigger] actions@[i]).dest
                                        == final(self).peers.entries@[i - old(
                                        self,
                                    ).peers.entries@.len()].addr
                                    &&& actions@[i].msg matches Msg::P2p(PeerMsg::Dkg(_))
                                })
                        })
                        &&& (!step_fires(
                            old(self).peers.view_map(),
                            PeerEntry { id: actor, addr },
                            old(self).quorum_size as nat,
                        ) ==> final(self).keygen == old(self).keygen)
                    },
                    _ => false,
                }
            },
            // a key-generation message is handled exactly as
            // `handle_dkg_msg` says: the registry is untouched, one arriving
            // before the session exists or after key material is installed
            // is dropped without effect, a session failure surfaces as such
            // and leaves the installed state alone, and the deliveries have
            // the relay's shape
            (msg matches Msg::P2p(PeerMsg::Dkg(_))) ==> {
                &&& final(self).peers == old(self).peers
                &&& (final(self).keygen is Some <==> old(self).keygen is Some)
                &&& (old(self).keygen is None ==> *final(self) == *old(self) && (r matches
                    EnvelopeOutcome::Deliver(a, inst) && a@ =~= Seq::<SendAction>::empty()
                    && !inst))
                &&& (old(self).key_material is Some ==> *final(self) == *old(self) && (r matches
                    EnvelopeOutcome::Deliver(a, inst) && a@ =~= Seq::<SendAction>::empty()
                    && !inst))
                &&& match r {
                    EnvelopeOutcome::Deliver(actions, installed) => {
                        &&& (installed ==> old(self).key_material is None
                            && final(self).key_material is Some
                            && final(self).applied@ =~= Seq::<SpentLogEntry>::empty())
                        &&& (!installed ==> final(self).key_material == old(self).key_material
                            && final(self).ledger == old(self).ledger && final(self).applied
                            == old(self).applied)
                        &&& exists|out: Seq<DkgOutbound>|
                            actions@ == relay_spec(*final(self), out)
                    },
                    EnvelopeOutcome::SessionFailed(_) => {
                        &&& final(self).key_material == old(self).key_material
                        &&& final(self).ledger == old(self).ledger
                        &&& final(self).applied == old(self).applied
                    },
                    _ => false,
                }
            },
            // key material is installed exactly on the step that reports it
            (r matches EnvelopeOutcome::Deliver(_, installed) && installed) ==> (old(
                self,
            ).key_material is None && final(self).key_material is Some),
            // a stray reply changes nothing
            (msg matches Msg::Wallet(WalletMsg::Reply(_))) ==> (*final(self) == *old(self) && r
                is Ignored),
            // a spend request is always answered: accepted spends ask for
            // the append, everything else is a typed failure reply, where
            // not-ready appears exactly when key material is absent and a
            // ledger refusal keeps its typed form
            (msg matches Msg::Wallet(WalletMsg::Request(RequestMsg::LogSpent(_, _)))) ==> match r {
                EnvelopeOutcome::AppendThenReply(_, _, _) => old(self).key_material is Some,
                EnvelopeOutcome::Reply(ReplyMsg::LogSpent(res)) => match res {
                    Ok(_) => false,
                    Err(e) => ((e is NotReady) <==> old(self).key_material is None) && !(e
                        is Rejected),
                },
                _ => false,
            },
    {
        match msg {
            Msg::P2p(PeerMsg::Peer(actor, addr)) => {
                let actions = self.handle_peer_msg(actor, addr);
                EnvelopeOutcome::Deliver(actions, false)
            },
            Msg::P2p(PeerMsg::Dkg(m)) => match self.handle_dkg_msg(&m) {
                Ok((actions, installed)) => EnvelopeOutcome::Deliver(actions, installed),
                Err(e) => EnvelopeOutcome::SessionFailed(e),
            },
            Msg::Wallet(WalletMsg::Request(RequestMsg::Discover)) => {
                EnvelopeOutcome::Reply(self.handle_discover())
            },
            Msg::Wallet(WalletMsg::Request(RequestMsg::LogSpent(tx, ss))) => {
                match self.handle_log_spent_request(&tx, &ss) {
                    LogSpentOutcome::NotReady => EnvelopeOutcome::Reply(
                        ReplyMsg::LogSpent(Err(WalletError::NotReady)),
                    ),
                    LogSpentOutcome::Rejected(e) => EnvelopeOutcome::Reply(
                        ReplyMsg::LogSpent(Err(WalletError::Dbc(e))),
                    ),
                    LogSpentOutcome::Internal => EnvelopeOutcome::Reply(
                        ReplyMsg::LogSpent(Err(WalletError::Internal)),
                    ),
                    LogSpentOutcome::Logged(share, entry, line) => {
                        EnvelopeOutcome::AppendThenReply(share, entry, line)
                    },
                }
            },
            Msg::Wallet(WalletMsg::Reply(_)) => EnvelopeOutcome::Ignored,
        }
    }
}

/// The faithful relay of a message batch through a registry: the messages
/// with a registered target, in order, each addressed to its target's
/// registered endpoint.
pub open spec fn relay_spec(node: SpentbookNodeServer, out: Seq<DkgOutbound>) -> Seq<SendAction>
    decreases out.len(),
{
    if out.len() == 0 {
        Seq::empty()
    } else {
        let rest = relay_spec(node, out.drop_last());
        if node.peers.view_map().dom().contains(out.last().0) {
            rest.push(
                SendAction {
                    dest: node.peers.view_map()[out.last().0],
                    msg: Msg::P2p(PeerMsg::Dkg(out.last().1)),
                },
            )
        } else {
            rest
        }
    }
}

/// The relay reads nothing of a node but its registry: two nodes with the
/// same registry relay a batch identically.
proof fn lemma_relay_spec_same_peers(
    a: SpentbookNodeServer,
    b: SpentbookNodeServer,
    out: Seq<DkgOutbound>,
)
    requires
        a.peers == b.peers,
    ensures
        relay_spec(a, out) == relay_spec(b, out),
    decreases out.len(),
{
    if out.len() > 0 {
        lemma_relay_spec_same_peers(a, b, out.drop_last());
    }
}

/// Full participation loses nothing: as long as every message's target is a
/// registered peer — which holds for all quorum members once the quorum is
/// complete — the relay delivers every message, in order, each to its
/// target's registered endpoint. Under full participation the session is
/// starved of nothing by this node.
pub proof fn lemma_relay_complete(node: SpentbookNodeServer, out: Seq<DkgOutbound>)
    requires
        forall|i: int|
            0 <= i < out.len() ==> node.peers.view_map().dom().contains((#[trigger] out[i]).0),
    ensures
        relay_spec(node, out).len() == out.len(),
        forall|i: int|
            0 <= i < out.len() ==> relay_spec(node, out)[i] == (SendAction {
                dest: node.peers.view_map()[(#[trigger] out[i]).0],
                msg: Msg::P2p(PeerMsg::Dkg(out[i].1)),
            }),
    decreases out.len(),
{
    if out.len() > 0 {
        assert forall|i: int|
            0 <= i < out.drop_last().len() implies node.peers.view_map().dom().contains(
            (#[trigger] out.drop_last()[i]).0,
        ) by {
            assert(out.drop_last()[i] == out[i]);
        }
        lemma_relay_complete(node, out.drop_last());
        assert forall|i: int|
            0 <= i < out.len() implies relay_spec(node, out)[i] == (SendAction {
            dest: node.peers.view_map()[(#[trigger] out[i]).0],
            msg: Msg::P2p(PeerMsg::Dkg(out[i].1)),
        }) by {
            if i < out.len() - 1 {
                assert(out.drop_last()[i] == out[i]);
                assert(relay_spec(node, out)[i] == relay_spec(node, out.drop_last())[i]);
            }
        }
    }
}

/// A discover reply reflects the registry as it was at that moment, not the
/// live state: a peer that joins afterwards does not appear in the snapshot
/// a client already holds, until the client discovers again.
pub proof fn lemma_snapshot_is_stale(
    snap: PeerRegistry,
    before: SpentbookNodeServer,
    after: SpentbookNodeServer,
    joined: PeerId,
    joined_addr: NodeAddr,
)
    requires
        // what handle_discover said of the snapshot
        snap.entries@ == before.peers.entries@,
        // what handle_peer_msg said of the join of a then-unknown peer
        !before.peers.spec_contains(joined),
        after.peers.view_map() == before.peers.view_map().insert(joined, joined_addr),
    ensures
        !snap.spec_contains(joined),
        after.peers.view_map().dom().contains(joined),
{
    assert(!snap.spec_contains(joined)) by {
        if snap.spec_contains(joined) {
            let w = choose|w: int|
                0 <= w < snap.entries@.len() && snap.entries@[w].id == joined;
            assert(before.peers.entries@[w].id == joined);
            assert(before.peers.spec_contains(joined));
        }
    }
}

} // verus!
