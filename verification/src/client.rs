use vstd::prelude::*;

use crate::codec::{encode, decode, hex_of, is_hex_char, lemma_hex_of_len};
use crate::dkg::{clone_signature_share, combine_shares};
use crate::peer::NodeAddr;
use crate::registry::PeerRegistry;
use crate::spentbook::{
    clone_dbc_error, clone_signed_spend, clone_transaction, dbc_builder_outputs, dbc_builder_spends,
    dbc_derived_key, dbc_from_bytes, dbc_to_bytes, dbc_token_nano, main_key_public_address,
    new_derivation_index, new_main_key, prepare_genesis_builder, tx_add_input_dbc, tx_add_output,
    tx_build, tx_builder_new, SpentLogEntry,
};
use crate::wallet::{copy_bytes, holds_id, holds_spent, holds_unspent, is_unspent, ring_covers, spendable, Wallet};
use crate::wire::{Msg, ReplyMsg, RequestMsg, SpentProofShare, WalletError, WalletMsg};

verus! {

/// Why a reissue could not even be prepared or finished locally.
#[derive(Debug)]
pub enum ReissueError {
    /// The wallet cannot cover the amount.
    InsufficientFunds,
    /// A value-transfer operation refused its input.
    Build(sn_dbc::Error),
    /// The node could not put a value into byte form.
    Internal,
}

/// What finishing a reissue left behind: the recipient's value in its
/// hexadecimal byte form, for handing over, and where that value — and the
/// change, when there was change — now sit in the wallet.
pub struct ReissueOutcome {
    pub recipient_hex: String,
    pub recipient_row: usize,
    pub change_row: Option<usize>,
}

/// A reissue that is built and signed but not yet recorded by the quorum:
/// the builder of the output values, the wallet names of the inputs that
/// will be marked spent, and the spends that every quorum member must
/// record first.
pub struct PreparedReissue {
    pub dbc_builder: sn_dbc::DbcBuilder,
    pub input_ids: Vec<Vec<u8>>,
    pub entries: Vec<SpentLogEntry>,
}

/// That the reply at one position is the first failure of a broadcast, and
/// what error it carries: every member before it acknowledged, and the
/// reply there is a refusal, or not the kind of reply a spend request gets.
pub open spec fn first_failure_at(replies: Seq<ReplyMsg>, i: int, e: WalletError) -> bool {
    &&& 0 <= i < replies.len()
    &&& (forall|j: int| 0 <= j < i ==> (#[trigger] replies[j]) matches ReplyMsg::LogSpent(Ok(_)))
    &&& match replies[i] {
        ReplyMsg::LogSpent(Err(e2)) => e == e2,
        ReplyMsg::LogSpent(Ok(_)) => false,
        _ => e == WalletError::Internal,
    }
}

/// The wallet-side client of a spentbook quorum: the wallet it manages, and
/// the view of the quorum that the last discover reply carried. The view is
/// a snapshot: members that join the quorum later are not seen until the
/// client discovers again.
pub struct WalletNodeClient {
    pub wallet: Wallet,
    pub spentbook_nodes: PeerRegistry,
    pub spentbook_pks: Option<bls_dkg::PublicKeySet>,
}

impl WalletNodeClient {
    pub fn new() -> (r: Self)
        ensures
            r.wallet.wf(),
            r.wallet.dbcs@ =~= Seq::<crate::wallet::DbcInfo>::empty(),
            r.wallet.keys@ =~= Seq::<crate::wallet::KeyEntry>::empty(),
            r.spentbook_nodes.entries@ =~= Seq::<crate::registry::PeerEntry>::empty(),
            r.spentbook_pks is None,
    {
        WalletNodeClient {
            wallet: Wallet::new(),
            spentbook_nodes: PeerRegistry { entries: Vec::new() },
            spentbook_pks: None,
        }
    }

    /// The request that asks a node for the quorum membership.
    pub fn discover_request() -> (r: Msg)
        ensures
            r == Msg::Wallet(WalletMsg::Request(RequestMsg::Discover)),
    {
        Msg::Wallet(WalletMsg::Request(RequestMsg::Discover))
    }

    /// The request that asks a node to record one spend.
    pub fn log_spent_request(entry: &SpentLogEntry) -> (r: Msg)
        ensures
            r == Msg::Wallet(
                WalletMsg::Request(RequestMsg::LogSpent(entry.transaction, entry.signed_spend)),
            ),
    {
        Msg::Wallet(
            WalletMsg::Request(
                RequestMsg::LogSpent(
                    clone_transaction(&entry.transaction),
                    clone_signed_spend(&entry.signed_spend),
                ),
            ),
        )
    }

    /// Adopt a discover reply: the client's view of the quorum becomes
    /// exactly the snapshot the reply carries — no more and no less — and
    /// stays that way until the client discovers again. Any other reply is
    /// refused and changes nothing.
    pub fn apply_discover_reply(&mut self, reply: ReplyMsg) -> (r: Result<(), ()>)
        ensures
            match reply {
                ReplyMsg::Discover(pks, snap) => {
                    &&& r is Ok
                    &&& final(self).spentbook_pks == pks
                    &&& final(self).spentbook_nodes == snap
                    &&& final(self).wallet == old(self).wallet
                },
                _ => r is Err && *final(self) == *old(self),
            },
    {
        match reply {
            ReplyMsg::Discover(pks, snap) => {
                self.spentbook_pks = pks;
                self.spentbook_nodes = snap;
                Ok(())
            },
            _ => Err(()),
        }
    }

    /// Every member of the cached snapshot, in order: a broadcast goes to
    /// all of them, not only to a threshold's worth.
    pub fn broadcast_targets(&self) -> (r: Vec<NodeAddr>)
        ensures
            r@.len() == self.spentbook_nodes.entries@.len(),
            forall|i: int|
                0 <= i < r@.len() ==> r@[i] == self.spentbook_nodes.entries@[i].addr,
    {
        let mut out: Vec<NodeAddr> = Vec::new();
        let mut k: usize = 0;
        while k < self.spentbook_nodes.entries.len()
            invariant
                0 <= k <= self.spentbook_nodes.entries@.len(),
                out@.len() == k,
                forall|i: int|
                    0 <= i < k ==> out@[i] == self.spentbook_nodes.entries@[i].addr,
            decreases self.spentbook_nodes.entries@.len() - k,
        {
            out.push(self.spentbook_nodes.entries[k].addr);
            k = k + 1;
        }
        out
    }

    /// Collect a broadcast's replies, all or nothing: every member must
    /// have acknowledged the spend for the broadcast to succeed, and the
    /// shares come back in member order; the first failure, or a reply of
    /// the wrong kind, fails the whole broadcast with that member's error.
    pub fn collect_log_spent_replies(replies: &Vec<ReplyMsg>) -> (r: Result<
        Vec<SpentProofShare>,
        WalletError,
    >)
        ensures
            match r {
                Ok(shares) => {
                    &&& shares@.len() == replies@.len()
                    &&& (forall|i: int|
                        0 <= i < replies@.len() ==> ((#[trigger] replies@[i]) matches
                            ReplyMsg::LogSpent(Ok(sh)) && shares@[i] == sh))
                },
                Err(e) => exists|i: int| first_failure_at(replies@, i, e),
            },
    {
        let mut shares: Vec<SpentProofShare> = Vec::new();
        let mut k: usize = 0;
        let n = replies.len();
        while k < n
            invariant
                n == replies@.len(),
                0 <= k <= n,
                shares@.len() == k,
                forall|i: int|
                    0 <= i < k ==> ((#[trigger] replies@[i]) matches ReplyMsg::LogSpent(Ok(sh))
                        && shares@[i] == sh),
            decreases n - k,
        {
            match &replies[k] {
                ReplyMsg::LogSpent(Ok(share)) => {
                    let copy = SpentProofShare {
                        index: share.index,
                        signature_share: clone_signature_share(&share.signature_share),
                    };
                    proof {
                        assert(replies@[k as int] matches ReplyMsg::LogSpent(Ok(sh)) && copy
                            == sh);
                    }
                    shares.push(copy);
                },
                ReplyMsg::LogSpent(Err(e)) => {
                    let failure = clone_wallet_error(e);
                    proof {
                        assert(first_failure_at(replies@, k as int, failure));
                    }
                    return Err(failure);
                },
                _ => {
                    proof {
                        assert(first_failure_at(replies@, k as int, WalletError::Internal));
                    }
                    return Err(WalletError::Internal);
                },
            }
            k = k + 1;
        }
        Ok(shares)
    }

    /// Build and sign a reissue of the given amount to the given recipient:
    /// inputs are chosen from the wallet as `select_inputs` says, the
    /// change goes to a fresh key that enters the ring, and the resulting
    /// spends must be recorded by every quorum member before the outputs
    /// can be built. The wallet's stored values are untouched; every chosen
    /// input is still held and unspent.
    pub fn prepare_reissue(&mut self, amount: u64, to: &sn_dbc::PublicAddress) -> (r: Result<
        PreparedReissue,
        ReissueError,
    >)
        requires
            old(self).wallet.wf(),
        ensures
            final(self).wallet.wf(),
            final(self).wallet.dbcs@ == old(self).wallet.dbcs@,
            final(self).spentbook_nodes == old(self).spentbook_nodes,
            final(self).spentbook_pks == old(self).spentbook_pks,
            match r {
                Ok(p) => forall|i: int|
                    0 <= i < p.input_ids@.len() ==> #[trigger] holds_unspent(
                        final(self).wallet.dbcs@,
                        p.input_ids@[i]@,
                    ),
                Err(ReissueError::InsufficientFunds) => crate::wallet::spendable_sum(
                    old(self).wallet.dbcs@,
                    old(self).wallet.keys@,
                ) < amount || crate::wallet::spendable_sum(
                    old(self).wallet.dbcs@,
                    old(self).wallet.keys@,
                ) > u64::MAX,
                Err(ReissueError::Internal) => false,
                Err(ReissueError::Build(_)) => true,
            },
            // a wallet that cannot cover the amount is refused as exactly
            // that, never as anything else
            crate::wallet::spendable_sum(old(self).wallet.dbcs@, old(self).wallet.keys@) < amount
                ==> r == Err::<PreparedReissue, ReissueError>(ReissueError::InsufficientFunds),
    {
        let sel = match self.wallet.select_inputs(amount) {
            Some(s) => s,
            None => {
                return Err(ReissueError::InsufficientFunds);
            },
        };
        let (chosen, change) = sel;
        proof {
            // the selection's total is covered by the spendable total, so a
            // successful selection means the wallet covers the amount
            crate::wallet::lemma_selected_le_spendable(
                self.wallet.dbcs@,
                self.wallet.keys@,
                chosen@,
                self.wallet.dbcs@.len() as int,
            );
            assert(self.wallet.dbcs@.take(self.wallet.dbcs@.len() as int) =~= self.wallet.dbcs@);
            assert(crate::wallet::spendable_sum(self.wallet.dbcs@, self.wallet.keys@) >= amount);
        }
        let mut builder = tx_builder_new();
        let mut input_ids: Vec<Vec<u8>> = Vec::new();
        let mut k: usize = 0;
        while k < chosen.len()
            invariant
                self.wallet == old(self).wallet,
                self.wallet.wf(),
                self.spentbook_nodes == old(self).spentbook_nodes,
                self.spentbook_pks == old(self).spentbook_pks,
                crate::wallet::spendable_sum(old(self).wallet.dbcs@, old(self).wallet.keys@)
                    >= amount,
                forall|j: int|
                    0 <= j < chosen@.len() ==> 0 <= #[trigger] chosen@[j]
                        < self.wallet.dbcs@.len() && spendable(
                        self.wallet.keys@,
                        self.wallet.dbcs@[chosen@[j] as int],
                    ),
                forall|i: int|
                    0 <= i < input_ids@.len() ==> #[trigger] holds_unspent(
                        self.wallet.dbcs@,
                        input_ids@[i]@,
                    ),
            decreases chosen@.len() - k,
        {
            let idx = chosen[k];
            let key_pos = match self.wallet.find_key(&self.wallet.dbcs[idx].owner) {
                Some(p) => p,
                None => {
                    proof {
                        assert(ring_covers(
                            self.wallet.keys@,
                            self.wallet.dbcs@[idx as int].owner@,
                        ));
                    }
                    vstd::pervasive::unreached()
                },
            };
            let derived = match dbc_derived_key(
                &self.wallet.dbcs[idx].dbc,
                &self.wallet.keys[key_pos].key,
            ) {
                Ok(d) => d,
                Err(e) => {
                    return Err(ReissueError::Build(e));
                },
            };
            builder = match tx_add_input_dbc(builder, &self.wallet.dbcs[idx].dbc, &derived) {
                Ok(b) => b,
                Err(e) => {
                    return Err(ReissueError::Build(e));
                },
            };
            let id_copy = copy_bytes(&self.wallet.dbcs[idx].id);
            proof {
                assert(is_unspent(self.wallet.dbcs@[idx as int]));
                assert(holds_unspent(self.wallet.dbcs@, id_copy@));
            }
            input_ids.push(id_copy);
            k = k + 1;
        }
        builder = tx_add_output(builder, amount, to, new_derivation_index());
        if change > 0 {
            let change_key = new_main_key();
            let change_address = main_key_public_address(&change_key);
            let _ = self.wallet.addkey(change_key);
            builder = tx_add_output(builder, change, &change_address, new_derivation_index());
        }
        let dbc_builder = match tx_build(builder) {
            Ok(b) => b,
            Err(e) => {
                return Err(ReissueError::Build(e));
            },
        };
        let entries = dbc_builder_spends(&dbc_builder);
        Ok(PreparedReissue { dbc_builder, input_ids, entries })
    }

    /// Finish a reissue whose spends every quorum member has recorded: the
    /// output values are built and stored — the recipient's value under the
    /// given note, then the change, noted as such — and every consumed
    /// input is marked spent. The outcome says where the stored values sit
    /// and carries the recipient's value in its hexadecimal byte form, for
    /// handing over.
    pub fn complete_reissue(
        &mut self,
        dbc_builder: sn_dbc::DbcBuilder,
        input_ids: &Vec<Vec<u8>>,
        recipient_notes: String,
    ) -> (r: Result<ReissueOutcome, ReissueError>)
        requires
            old(self).wallet.wf(),
            forall|i: int|
                0 <= i < input_ids@.len() ==> #[trigger] holds_id(
                    old(self).wallet.dbcs@,
                    input_ids@[i]@,
                ),
        ensures
            final(self).wallet.wf(),
            final(self).spentbook_nodes == old(self).spentbook_nodes,
            final(self).spentbook_pks == old(self).spentbook_pks,
            final(self).wallet.keys@ == old(self).wallet.keys@,
            match r {
                Ok(o) => {
                    // every consumed input is marked spent
                    &&& (forall|i: int|
                        0 <= i < input_ids@.len() ==> #[trigger] holds_spent(
                            final(self).wallet.dbcs@,
                            input_ids@[i]@,
                        ))
                    // the recipient's value is stored under the given note
                    &&& o.recipient_row < final(self).wallet.dbcs@.len()
                    &&& final(self).wallet.dbcs@[o.recipient_row as int].notes == recipient_notes
                    // the change, when there is one, is stored and noted as
                    // change
                    &&& match o.change_row {
                        Some(c) => {
                            &&& c < final(self).wallet.dbcs@.len()
                            &&& final(self).wallet.dbcs@[c as int].notes@ == "change"@
                        },
                        None => true,
                    }
                    // with nothing to mark — the genesis issue — the stored
                    // value stands unspent
                    &&& (input_ids@.len() == 0 ==> is_unspent(
                        final(self).wallet.dbcs@[o.recipient_row as int],
                    ))
                },
                Err(_) => true,
            },
    {
        let outputs = match dbc_builder_outputs(dbc_builder) {
            Ok(o) => o,
            Err(e) => {
                return Err(ReissueError::Build(e));
            },
        };
        let mut rest_out = outputs;
        if rest_out.len() == 0 {
            return Err(ReissueError::Internal);
        }
        let (recipient_dbc, _amount) = rest_out.remove(0);
        let recipient_bytes = match dbc_to_bytes(&recipient_dbc) {
            Some(b) => b,
            None => {
                return Err(ReissueError::Internal);
            },
        };
        let recipient_hex = encode(&recipient_bytes);
        let recipient_row = match self.wallet.add_dbc(recipient_dbc, recipient_notes, false) {
            Ok((_a, row)) => row,
            Err(_) => {
                return Err(ReissueError::Internal);
            },
        };
        let ghost after_recipient = self.wallet.dbcs@;
        let mut change_row: Option<usize> = None;
        if rest_out.len() > 0 {
            let (change_dbc, _amount) = rest_out.remove(0);
            match self.wallet.add_dbc(change_dbc, change_note(), false) {
                Ok((_a, row)) => {
                    if row == recipient_row {
                        // the two outputs collided on one name; refuse
                        // rather than lose the recipient's record
                        return Err(ReissueError::Internal);
                    }
                    change_row = Some(row);
                },
                Err(_) => {
                    return Err(ReissueError::Internal);
                },
            }
        }
        proof {
            assert forall|i: int|
                0 <= i < input_ids@.len() implies #[trigger] holds_id(
                self.wallet.dbcs@,
                input_ids@[i]@,
            ) by {
                lemma_id_survives_update(
                    old(self).wallet.dbcs@,
                    after_recipient,
                    recipient_row as int,
                    input_ids@[i]@,
                );
                match change_row {
                    Some(c) => {
                        lemma_id_survives_update(
                            after_recipient,
                            self.wallet.dbcs@,
                            c as int,
                            input_ids@[i]@,
                        );
                    },
                    None => {
                        assert(self.wallet.dbcs@ == after_recipient);
                    },
                }
            }
        }
        let n = input_ids.len();
        let mut k: usize = 0;
        while k < n
            invariant
                n == input_ids@.len(),
                0 <= k <= n,
                self.wallet.wf(),
                self.spentbook_nodes == old(self).spentbook_nodes,
                self.spentbook_pks == old(self).spentbook_pks,
                self.wallet.keys@ == old(self).wallet.keys@,
                recipient_row < self.wallet.dbcs@.len(),
                self.wallet.dbcs@[recipient_row as int].notes == recipient_notes,
                input_ids@.len() == 0 ==> is_unspent(
                    self.wallet.dbcs@[recipient_row as int],
                ),
                match change_row {
                    Some(c) => c < self.wallet.dbcs@.len() && self.wallet.dbcs@[c as int].notes@
                        == "change"@,
                    None => true,
                },
                forall|i: int|
                    0 <= i < k ==> #[trigger] holds_spent(self.wallet.dbcs@, input_ids@[i]@),
                forall|i: int|
                    k <= i < n ==> #[trigger] holds_id(self.wallet.dbcs@, input_ids@[i]@),
            decreases n - k,
        {
            let ghost dbcs0 = self.wallet.dbcs@;
            proof {
                assert(holds_id(self.wallet.dbcs@, input_ids@[k as int]@));
            }
            self.wallet.mark_spent(&input_ids[k]);
            proof {
                assert forall|i: int|
                    0 <= i < k + 1 implies #[trigger] holds_spent(
                    self.wallet.dbcs@,
                    input_ids@[i]@,
                ) by {
                    if i < k {
                        assert(holds_spent(dbcs0, input_ids@[i]@));
                        let w = choose|w: int|
                            0 <= w < dbcs0.len() && dbcs0[w].id@ == input_ids@[i]@ && !is_unspent(
                                dbcs0[w],
                            );
                        assert(self.wallet.dbcs@[w].id@ == dbcs0[w].id@ && !is_unspent(
                            self.wallet.dbcs@[w],
                        ));
                    } else {
                        assert(holds_spent(self.wallet.dbcs@, input_ids@[k as int]@));
                    }
                }
                assert forall|i: int|
                    k + 1 <= i < n implies #[trigger] holds_id(
                    self.wallet.dbcs@,
                    input_ids@[i]@,
                ) by {
                    assert(holds_id(dbcs0, input_ids@[i]@));
                    let w = choose|w: int|
                        0 <= w < dbcs0.len() && dbcs0[w].id@ == input_ids@[i]@;
                    assert(self.wallet.dbcs@[w].id@ == dbcs0[w].id@);
                }
            }
            k = k + 1;
        }
        Ok(ReissueOutcome { recipient_hex, recipient_row, change_row })
    }

    /// Build and sign the one transaction that mints the whole supply; the
    /// key owning its output enters the ring, and the resulting spends must
    /// be recorded by every quorum member, like any reissue's.
    pub fn prepare_genesis(&mut self) -> (r: Result<PreparedReissue, ReissueError>)
        requires
            old(self).wallet.wf(),
        ensures
            final(self).wallet.wf(),
            final(self).wallet.dbcs@ == old(self).wallet.dbcs@,
            final(self).spentbook_nodes == old(self).spentbook_nodes,
            final(self).spentbook_pks == old(self).spentbook_pks,
            match r {
                Ok(p) => p.input_ids@ =~= Seq::<Vec<u8>>::empty(),
                Err(ReissueError::Build(_)) => true,
                Err(ReissueError::InsufficientFunds) => false,
                Err(ReissueError::Internal) => false,
            },
    {
        let (dbc_builder, main_key) = match prepare_genesis_builder() {
            Ok(p) => p,
            Err(e) => {
                return Err(ReissueError::Build(e));
            },
        };
        let _ = self.wallet.addkey(main_key);
        let entries = dbc_builder_spends(&dbc_builder);
        Ok(PreparedReissue { dbc_builder, input_ids: Vec::new(), entries })
    }

    /// Store a value received in its hexadecimal byte form; its face value
    /// is reported back. Malformed text or bytes are refused, and a value
    /// whose face value cannot be read is refused too.
    pub fn deposit_dbc(&mut self, dbc_hex: &String, notes: String) -> (r: Result<u64, ()>)
        requires
            old(self).wallet.wf(),
        ensures
            final(self).wallet.wf(),
            final(self).wallet.keys@ == old(self).wallet.keys@,
            final(self).spentbook_nodes == old(self).spentbook_nodes,
            final(self).spentbook_pks == old(self).spentbook_pks,
            r is Err ==> final(self).wallet.dbcs@ == old(self).wallet.dbcs@,
            // text that is not even-length hexadecimal never deposits
            // anything
            !(dbc_hex@.len() % 2 == 0 && (forall|i: int|
                0 <= i < dbc_hex@.len() ==> is_hex_char(#[trigger] dbc_hex@[i]))) ==> r is Err,
            // on success a row with the returned face value and the given
            // note stands in the wallet, unspent
            match r {
                Ok(a) => exists|j: int|
                    0 <= j < final(self).wallet.dbcs@.len() && {
                        let e = #[trigger] final(self).wallet.dbcs@[j];
                        &&& e.amount == a
                        &&& e.notes == notes
                        &&& is_unspent(e)
                    },
                Err(_) => true,
            },
    {
        let bytes = match decode(dbc_hex) {
            Ok(b) => b,
            Err(_) => {
                return Err(());
            },
        };
        let dbc = match dbc_from_bytes(&bytes) {
            Some(d) => d,
            None => {
                return Err(());
            },
        };
        match self.wallet.add_dbc(dbc, notes, false) {
            Ok((amount, row)) => {
                proof {
                    assert(self.wallet.dbcs@[row as int].amount == amount);
                }
                Ok(amount)
            },
            Err(_) => Err(()),
        }
    }

    /// Make a fresh receiving key, put it on the ring, and give back the
    /// hexadecimal form of the address it controls, for handing out.
    pub fn new_receive_key(&mut self) -> (r: String)
        requires
            old(self).wallet.wf(),
        ensures
            final(self).wallet.wf(),
            final(self).wallet.dbcs@ == old(self).wallet.dbcs@,
            final(self).spentbook_nodes == old(self).spentbook_nodes,
            final(self).spentbook_pks == old(self).spentbook_pks,
            r@.len() == 96,
            // the returned text names an address the ring now covers
            exists|a: Seq<u8>|
                a.len() == 48 && r@ == hex_of(a) && ring_covers(final(self).wallet.keys@, a),
    {
        let key = new_main_key();
        let address = self.wallet.addkey(key);
        proof {
            lemma_hex_of_len(address@);
        }
        let r = encode(&address);
        proof {
            assert(address@.len() == 48 && r@ == hex_of(address@) && ring_covers(
                self.wallet.keys@,
                address@,
            ));
        }
        r
    }
}

impl WalletNodeClient {
    /// Combine a broadcast's collected acknowledgment shares into the
    /// quorum's one signature over the spend, with the verification
    /// material the last discover reply carried. Fails without that
    /// material, and when the shares are too few or repeat a member.
    pub fn combine_acknowledgments(&self, shares: &Vec<SpentProofShare>) -> (r: Result<
        bls_dkg::blsttc::Signature,
        (),
    >)
        ensures
            self.spentbook_pks is None ==> r is Err,
    {
        let pks = match &self.spentbook_pks {
            Some(p) => p,
            None => {
                return Err(());
            },
        };
        let mut pairs: Vec<(u64, bls_dkg::blsttc::SignatureShare)> = Vec::new();
        let mut k: usize = 0;
        while k < shares.len()
            decreases shares@.len() - k,
        {
            pairs.push((shares[k].index, clone_signature_share(&shares[k].signature_share)));
            k = k + 1;
        }
        match combine_shares(pks, &pairs) {
            Ok(sig) => Ok(sig),
            Err(_) => Err(()),
        }
    }
}

/// A name held before a store is still held after it: the store either
/// replaced one row in place, keeping that row's name, or pushed a fresh
/// row at the end, leaving every old row as it was.
proof fn lemma_id_survives_update(
    old_rows: Seq<crate::wallet::DbcInfo>,
    new_rows: Seq<crate::wallet::DbcInfo>,
    k: int,
    id: Seq<u8>,
)
    requires
        crate::wallet::updated_at(old_rows, new_rows, k),
        new_rows.len() == old_rows.len() ==> old_rows[k].id@ == new_rows[k].id@,
        holds_id(old_rows, id),
    ensures
        holds_id(new_rows, id),
{
    let w = choose|w: int| 0 <= w < old_rows.len() && old_rows[w].id@ == id;
    if w == k {
        assert(new_rows.len() == old_rows.len());
        assert(new_rows[k].id@ == id);
    } else {
        assert(new_rows[w] == old_rows[w]);
    }
}

/// An exact copy of a request failure.
pub fn clone_wallet_error(e: &WalletError) -> (r: WalletError)
    ensures
        r == *e,
{
    match e {
        WalletError::NotReady => WalletError::NotReady,
        WalletError::Internal => WalletError::Internal,
        WalletError::Dbc(de) => WalletError::Dbc(clone_dbc_error(de)),
        WalletError::Rejected(text) => WalletError::Rejected(text.clone()),
    }
}

/// The note a change value is stored under.
fn change_note() -> (r: String)
    ensures
        r@ == "change"@,
{
    "change".to_string()
}

} // verus!
