use vstd::prelude::*;

use crate::spentbook::{
    dbc_address_bytes, dbc_hash_bytes, dbc_token_nano, main_key_address_bytes, now_timestamp,
};

verus! {

/// Whether a stored value can be spent by this wallet: it is ours when the
/// wallet holds the main key of the value's recipient address.
pub enum Ownership {
    Mine,
    NotMine,
}

impl Ownership {
    /// The word the command line shows for this ownership.
    pub fn label(&self) -> (r: &'static str)
        ensures
            self is Mine ==> r@ == "mine"@,
            self is NotMine ==> r@ == "not mine"@,
    {
        match self {
            Ownership::Mine => "mine",
            Ownership::NotMine => "not mine",
        }
    }
}

/// One stored value and what the wallet knows about it: the value itself,
/// its 32-byte name, its face value and recipient address read once at
/// receipt, when it arrived, when it was spent, and a free note.
pub struct DbcInfo {
    pub dbc: sn_dbc::Dbc,
    pub id: Vec<u8>,
    pub amount: u64,
    pub owner: Vec<u8>,
    pub received: i64,
    pub spent: Option<i64>,
    pub notes: String,
}

/// One receiving key and the 48-byte address it controls.
pub struct KeyEntry {
    pub address: Vec<u8>,
    pub key: sn_dbc::MainKey,
}

/// The wallet: stored values named by their hash, and the keys this wallet
/// controls, named by their address. Both names are unique.
pub struct Wallet {
    pub dbcs: Vec<DbcInfo>,
    pub keys: Vec<KeyEntry>,
}

/// Whether a stored value is still unspent.
pub open spec fn is_unspent(e: DbcInfo) -> bool {
    e.spent is None
}

/// Whether the wallet's key ring covers an owner address.
pub open spec fn ring_covers(keys: Seq<KeyEntry>, owner: Seq<u8>) -> bool {
    exists|k: int| 0 <= k < keys.len() && keys[k].address@ == owner
}

/// Whether a stored value can be spent by this wallet right now.
pub open spec fn spendable(keys: Seq<KeyEntry>, e: DbcInfo) -> bool {
    is_unspent(e) && ring_covers(keys, e.owner@)
}

/// Whether some stored value bears the given name.
pub open spec fn holds_id(dbcs: Seq<DbcInfo>, id: Seq<u8>) -> bool {
    exists|j: int| 0 <= j < dbcs.len() && dbcs[j].id@ == id
}

/// Whether some stored value bears the given name and is still unspent.
pub open spec fn holds_unspent(dbcs: Seq<DbcInfo>, id: Seq<u8>) -> bool {
    exists|j: int| 0 <= j < dbcs.len() && dbcs[j].id@ == id && is_unspent(dbcs[j])
}

/// Whether some stored value bears the given name and is marked spent.
pub open spec fn holds_spent(dbcs: Seq<DbcInfo>, id: Seq<u8>) -> bool {
    exists|j: int| 0 <= j < dbcs.len() && dbcs[j].id@ == id && !is_unspent(dbcs[j])
}

/// That a row sequence changed in one place only: every other position is
/// carried over, and the sequence either kept its length or grew by the one
/// row at the end.
pub open spec fn updated_at<T>(old_rows: Seq<T>, new_rows: Seq<T>, k: int) -> bool {
    &&& 0 <= k < new_rows.len()
    &&& (forall|j: int|
        0 <= j < new_rows.len() && j != k ==> 0 <= j < old_rows.len() && #[trigger] new_rows[j]
            == old_rows[j])
    &&& (new_rows.len() == old_rows.len() || (new_rows.len() == old_rows.len() + 1 && k
        == old_rows.len()))
}

/// The total face value this wallet can still spend, as an unbounded
/// integer.
pub open spec fn spendable_sum(dbcs: Seq<DbcInfo>, keys: Seq<KeyEntry>) -> int
    decreases dbcs.len(),
{
    if dbcs.len() == 0 {
        0
    } else {
        spendable_sum(dbcs.drop_last(), keys) + (if spendable(keys, dbcs.last()) {
            dbcs.last().amount as int
        } else {
            0
        })
    }
}

/// A prefix never sums to more than the whole: every term is nonnegative.
pub proof fn lemma_spendable_sum_prefix(dbcs: Seq<DbcInfo>, keys: Seq<KeyEntry>, n: int)
    requires
        0 <= n <= dbcs.len(),
    ensures
        spendable_sum(dbcs.take(n), keys) <= spendable_sum(dbcs, keys),
        spendable_sum(dbcs, keys) >= 0,
    decreases dbcs.len(),
{
    if dbcs.len() > 0 {
        lemma_spendable_sum_prefix(dbcs.drop_last(), keys, if n < dbcs.len() {
            n
        } else {
            dbcs.len() - 1
        });
        if n < dbcs.len() {
            assert(dbcs.take(n) =~= dbcs.drop_last().take(n));
        } else {
            assert(dbcs.take(n) =~= dbcs);
        }
    } else {
        assert(dbcs.take(n) =~= dbcs);
    }
}

/// Whether two byte strings are equal, decided without trust.
pub fn bytes_eq(a: &Vec<u8>, b: &Vec<u8>) -> (r: bool)
    ensures
        r == (a@ == b@),
{
    if a.len() != b.len() {
        return false;
    }
    let mut k: usize = 0;
    while k < a.len()
        invariant
            a@.len() == b@.len(),
            0 <= k <= a@.len(),
            forall|i: int| 0 <= i < k ==> a@[i] == b@[i],
        decreases a@.len() - k,
    {
        if a[k] != b[k] {
            return false;
        }
        k = k + 1;
    }
    proof {
        assert(a@ =~= b@);
    }
    true
}

impl Wallet {
    /// Both name spaces are duplicate-free: no value name occurs twice, and
    /// no address holds two keys.
    pub open spec fn wf(self) -> bool {
        &&& (forall|i: int, j: int|
            0 <= i < j < self.dbcs@.len() ==> (#[trigger] self.dbcs@[i]).id@ != (
            #[trigger] self.dbcs@[j]).id@)
        &&& (forall|i: int, j: int|
            0 <= i < j < self.keys@.len() ==> (#[trigger] self.keys@[i]).address@ != (
            #[trigger] self.keys@[j]).address@)
    }

    pub fn new() -> (r: Wallet)
        ensures
            r.wf(),
            r.dbcs@ =~= Seq::<DbcInfo>::empty(),
            r.keys@ =~= Seq::<KeyEntry>::empty(),
    {
        Wallet { dbcs: Vec::new(), keys: Vec::new() }
    }

    /// Where the key ring holds the given address, if anywhere.
    pub fn find_key(&self, address: &Vec<u8>) -> (r: Option<usize>)
        ensures
            match r {
                Some(k) => 0 <= k < self.keys@.len() && self.keys@[k as int].address@ == address@,
                None => !ring_covers(self.keys@, address@),
            },
    {
        let mut k: usize = 0;
        while k < self.keys.len()
            invariant
                0 <= k <= self.keys@.len(),
                forall|i: int| 0 <= i < k ==> self.keys@[i].address@ != address@,
            decreases self.keys@.len() - k,
        {
            if bytes_eq(&self.keys[k].address, address) {
                return Some(k);
            }
            k = k + 1;
        }
        None
    }

    /// Where the wallet holds the value of the given name, if anywhere.
    pub fn find_dbc(&self, id: &Vec<u8>) -> (r: Option<usize>)
        ensures
            match r {
                Some(k) => 0 <= k < self.dbcs@.len() && self.dbcs@[k as int].id@ == id@,
                None => forall|i: int| 0 <= i < self.dbcs@.len() ==> self.dbcs@[i].id@ != id@,
            },
    {
        let mut k: usize = 0;
        while k < self.dbcs.len()
            invariant
                0 <= k <= self.dbcs@.len(),
                forall|i: int| 0 <= i < k ==> self.dbcs@[i].id@ != id@,
            decreases self.dbcs@.len() - k,
        {
            if bytes_eq(&self.dbcs[k].id, id) {
                return Some(k);
            }
            k = k + 1;
        }
        None
    }

    /// Put a receiving key on the ring, replacing any key already held for
    /// the same address, and say which address the key controls. The given
    /// key is the one now stored at that address; every other row is
    /// carried over.
    pub fn addkey(&mut self, key: sn_dbc::MainKey) -> (address: Vec<u8>)
        requires
            old(self).wf(),
        ensures
            final(self).wf(),
            final(self).dbcs@ == old(self).dbcs@,
            address@.len() == 48,
            ring_covers(final(self).keys@, address@),
            // nothing else enters or leaves the ring
            forall|a: Seq<u8>|
                #[trigger] ring_covers(final(self).keys@, a) <==> (ring_covers(
                    old(self).keys@,
                    a,
                ) || a == address@),
            // the given key sits at its address; one row changed, the rest
            // are carried over
            exists|k: int|
                {
                    &&& #[trigger] updated_at(old(self).keys@, final(self).keys@, k)
                    &&& final(self).keys@[k].address@ == address@
                    &&& final(self).keys@[k].key == key
                },
    {
        let address = main_key_address_bytes(&key);
        let found = self.find_key(&address);
        let ghost old_keys = self.keys@;
        let addr_copy = copy_bytes(&address);
        let entry = KeyEntry { address: addr_copy, key };
        match found {
            Some(k) => {
                self.keys.set(k, entry);
                proof {
                    let kk = k as int;
                    assert(updated_at(old_keys, self.keys@, kk));
                    assert(self.keys@[kk].address@ == address@ && self.keys@[kk].key == key);
                    assert forall|i: int, j: int|
                        0 <= i < j < self.keys@.len() implies (#[trigger] self.keys@[i]).address@
                        != (#[trigger] self.keys@[j]).address@ by {
                        if i != kk && j != kk {
                            assert(self.keys@[i] == old_keys[i] && self.keys@[j] == old_keys[j]);
                        } else if i == kk {
                            assert(self.keys@[j] == old_keys[j]);
                            assert(old_keys[kk].address@ == address@);
                        } else {
                            assert(self.keys@[i] == old_keys[i]);
                            assert(old_keys[kk].address@ == address@);
                        }
                    }
                    assert forall|a: Seq<u8>|
                        #[trigger] ring_covers(self.keys@, a) <==> (ring_covers(old_keys, a) || a
                            == address@) by {
                        if ring_covers(self.keys@, a) {
                            let w = choose|w: int|
                                0 <= w < self.keys@.len() && self.keys@[w].address@ == a;
                            if w != kk {
                                assert(old_keys[w].address@ == a);
                            }
                        }
                        if ring_covers(old_keys, a) {
                            let w = choose|w: int| 0 <= w < old_keys.len() && old_keys[w].address@ == a;
                            if w != kk {
                                assert(self.keys@[w].address@ == a);
                            } else {
                                assert(a == address@);
                            }
                        }
                        if a == address@ {
                            assert(self.keys@[kk].address@ == a);
                        }
                    }
                }
            },
            None => {
                self.keys.push(entry);
                proof {
                    let kk = self.keys@.len() - 1;
                    assert(updated_at(old_keys, self.keys@, kk));
                    assert(self.keys@[kk].address@ == address@ && self.keys@[kk].key == key);
                    assert forall|i: int, j: int|
                        0 <= i < j < self.keys@.len() implies (#[trigger] self.keys@[i]).address@
                        != (#[trigger] self.keys@[j]).address@ by {
                        if j < kk {
                            assert(self.keys@[i] == old_keys[i] && self.keys@[j] == old_keys[j]);
                        } else {
                            assert(self.keys@[i] == old_keys[i]);
                            assert(old_keys[i].address@ != address@);
                        }
                    }
                    assert forall|a: Seq<u8>|
                        #[trigger] ring_covers(self.keys@, a) <==> (ring_covers(old_keys, a) || a
                            == address@) by {
                        if ring_covers(self.keys@, a) {
                            let w = choose|w: int|
                                0 <= w < self.keys@.len() && self.keys@[w].address@ == a;
                            if w < old_keys.len() {
                                assert(old_keys[w].address@ == a);
                            }
                        }
                        if ring_covers(old_keys, a) {
                            let w = choose|w: int| 0 <= w < old_keys.len() && old_keys[w].address@ == a;
                            assert(self.keys@[w].address@ == a);
                        }
                        if a == address@ {
                            assert(self.keys@[self.keys@.len() - 1].address@ == a);
                        }
                    }
                }
            },
        }
        address
    }

    /// Mark a held value as spent now. The value must be held. Every row
    /// keeps its name, value, face value, owner, receipt time and note;
    /// only the named row's spent mark may change, and it is set.
    pub fn mark_spent(&mut self, id: &Vec<u8>)
        requires
            old(self).wf(),
            holds_id(old(self).dbcs@, id@),
        ensures
            final(self).wf(),
            final(self).keys@ == old(self).keys@,
            final(self).dbcs@.len() == old(self).dbcs@.len(),
            forall|i: int|
                0 <= i < final(self).dbcs@.len() ==> {
                    let n = #[trigger] final(self).dbcs@[i];
                    let o = old(self).dbcs@[i];
                    &&& n.id@ == o.id@
                    &&& n.dbc == o.dbc
                    &&& n.amount == o.amount
                    &&& n.owner@ == o.owner@
                    &&& n.received == o.received
                    &&& n.notes == o.notes
                    &&& (n.spent == o.spent || (o.id@ == id@ && n.spent is Some))
                },
            exists|i: int|
                0 <= i < final(self).dbcs@.len() && (#[trigger] final(self).dbcs@[i]).id@ == id@
                    && !is_unspent(final(self).dbcs@[i]),
            forall|i: int|
                0 <= i < final(self).dbcs@.len() && (#[trigger] final(self).dbcs@[i].id@) != id@
                    ==> final(self).dbcs@[i] == old(self).dbcs@[i],
    {
        let found = self.find_dbc(id);
        match found {
            Some(k) => {
                let stamp = now_timestamp();
                let e = self.dbcs.remove(k);
                let DbcInfo { dbc, id: eid, amount, owner, received, spent: _, notes } = e;
                let e2 = DbcInfo {
                    dbc,
                    id: eid,
                    amount,
                    owner,
                    received,
                    spent: Some(stamp),
                    notes,
                };
                self.dbcs.insert(k, e2);
                proof {
                    assert(self.dbcs@[k as int].id@ == id@);
                    assert(!is_unspent(self.dbcs@[k as int]));
                }
            },
            None => {
                proof {
                    assert(false);
                }
            },
        }
    }

    /// Store a received value: its name, face value and owner address are
    /// read once; a value of the same name already held is replaced. On
    /// success the face value and the row where the value now sits are
    /// handed back: that row holds the given value and note, spent exactly
    /// when it was sent, and every other row is carried over. A value whose
    /// face value cannot be read is refused and nothing changes.
    pub fn add_dbc(&mut self, dbc: sn_dbc::Dbc, notes: String, sent: bool) -> (r: Result<
        (u64, usize),
        (),
    >)
        requires
            old(self).wf(),
        ensures
            final(self).wf(),
            final(self).keys@ == old(self).keys@,
            r is Err ==> final(self).dbcs@ == old(self).dbcs@,
            match r {
                Ok(p) => {
                    let k = p.1 as int;
                    &&& updated_at(old(self).dbcs@, final(self).dbcs@, k)
                    &&& final(self).dbcs@[k].dbc == dbc
                    &&& final(self).dbcs@[k].notes == notes
                    &&& final(self).dbcs@[k].amount == p.0
                    &&& (final(self).dbcs@[k].spent is Some <==> sent)
                    &&& (final(self).dbcs@.len() == old(self).dbcs@.len() ==> old(
                        self,
                    ).dbcs@[k].id@ == final(self).dbcs@[k].id@)
                },
                Err(_) => true,
            },
    {
        let amount = match dbc_token_nano(&dbc) {
            Some(a) => a,
            None => {
                return Err(());
            },
        };
        let id = dbc_hash_bytes(&dbc);
        let owner = dbc_address_bytes(&dbc);
        let stamp = now_timestamp();
        let spent: Option<i64> = if sent {
            Some(stamp)
        } else {
            None
        };
        let info = DbcInfo { dbc, id, amount, owner, received: stamp, spent, notes };
        let found = self.find_dbc(&info.id);
        let ghost old_rows = self.dbcs@;
        let row: usize;
        match found {
            Some(k) => {
                self.dbcs.set(k, info);
                row = k;
                proof {
                    let kk = k as int;
                    assert(self.dbcs@[kk].dbc == dbc);
                    assert(updated_at(old_rows, self.dbcs@, kk));
                    assert forall|i: int, j: int|
                        0 <= i < j < self.dbcs@.len() implies (#[trigger] self.dbcs@[i]).id@ != (
                        #[trigger] self.dbcs@[j]).id@ by {
                        if i != kk && j != kk {
                            assert(self.dbcs@[i] == old_rows[i] && self.dbcs@[j] == old_rows[j]);
                        } else if i == kk {
                            assert(self.dbcs@[j] == old_rows[j]);
                            assert(old_rows[kk].id@ == self.dbcs@[kk].id@);
                        } else {
                            assert(self.dbcs@[i] == old_rows[i]);
                            assert(old_rows[kk].id@ == self.dbcs@[kk].id@);
                        }
                    }
                }
            },
            None => {
                row = self.dbcs.len();
                self.dbcs.push(info);
                proof {
                    let kk = self.dbcs@.len() - 1;
                    assert(self.dbcs@[kk].dbc == dbc);
                    assert(updated_at(old_rows, self.dbcs@, kk));
                    assert forall|i: int, j: int|
                        0 <= i < j < self.dbcs@.len() implies (#[trigger] self.dbcs@[i]).id@ != (
                        #[trigger] self.dbcs@[j]).id@ by {
                        if j < kk {
                            assert(self.dbcs@[i] == old_rows[i] && self.dbcs@[j] == old_rows[j]);
                        } else {
                            assert(self.dbcs@[i] == old_rows[i]);
                            assert(old_rows[i].id@ != self.dbcs@[kk].id@);
                        }
                    }
                }
            },
        }
        Ok((amount, row))
    }

    /// The positions of the values that are still unspent, in order.
    pub fn unspent_indices(&self) -> (r: Vec<usize>)
        ensures
            forall|j: int|
                0 <= j < r@.len() ==> 0 <= #[trigger] r@[j] < self.dbcs@.len() && is_unspent(
                    self.dbcs@[r@[j] as int],
                ),
            forall|i: int|
                0 <= i < self.dbcs@.len() && is_unspent(#[trigger] self.dbcs@[i]) ==> exists|j: int|
                    0 <= j < r@.len() && r@[j] == i,
    {
        let mut out: Vec<usize> = Vec::new();
        let mut k: usize = 0;
        while k < self.dbcs.len()
            invariant
                0 <= k <= self.dbcs@.len(),
                forall|j: int|
                    0 <= j < out@.len() ==> 0 <= #[trigger] out@[j] < k && is_unspent(
                        self.dbcs@[out@[j] as int],
                    ),
                forall|i: int|
                    0 <= i < k && is_unspent(#[trigger] self.dbcs@[i]) ==> exists|j: int|
                        0 <= j < out@.len() && out@[j] == i,
            decreases self.dbcs@.len() - k,
        {
            let ghost out0 = out@;
            let pushed = self.dbcs[k].spent.is_none();
            if pushed {
                out.push(k);
            }
            proof {
                assert forall|i: int|
                    0 <= i < k + 1 && is_unspent(#[trigger] self.dbcs@[i]) implies exists|j: int|
                    0 <= j < out@.len() && out@[j] == i by {
                    if i < k {
                        let w = choose|w: int| 0 <= w < out0.len() && out0[w] == i;
                        assert(out@[w] == i);
                    } else {
                        assert(out@[out@.len() - 1] == i);
                    }
                }
            }
            k = k + 1;
        }
        out
    }

    /// The positions of the values already spent, in order.
    pub fn spent_indices(&self) -> (r: Vec<usize>)
        ensures
            forall|j: int|
                0 <= j < r@.len() ==> 0 <= #[trigger] r@[j] < self.dbcs@.len() && !is_unspent(
                    self.dbcs@[r@[j] as int],
                ),
            forall|i: int|
                0 <= i < self.dbcs@.len() && !is_unspent(#[trigger] self.dbcs@[i]) ==> exists|
                    j: int,
                |
                    0 <= j < r@.len() && r@[j] == i,
    {
        let mut out: Vec<usize> = Vec::new();
        let mut k: usize = 0;
        while k < self.dbcs.len()
            invariant
                0 <= k <= self.dbcs@.len(),
                forall|j: int|
                    0 <= j < out@.len() ==> 0 <= #[trigger] out@[j] < k && !is_unspent(
                        self.dbcs@[out@[j] as int],
                    ),
                forall|i: int|
                    0 <= i < k && !is_unspent(#[trigger] self.dbcs@[i]) ==> exists|j: int|
                        0 <= j < out@.len() && out@[j] == i,
            decreases self.dbcs@.len() - k,
        {
            let ghost out0 = out@;
            let pushed = self.dbcs[k].spent.is_some();
            if pushed {
                out.push(k);
            }
            proof {
                assert forall|i: int|
                    0 <= i < k + 1 && !is_unspent(#[trigger] self.dbcs@[i]) implies exists|j: int|
                    0 <= j < out@.len() && out@[j] == i by {
                    if i < k {
                        let w = choose|w: int| 0 <= w < out0.len() && out0[w] == i;
                        assert(out@[w] == i);
                    } else {
                        assert(out@[out@.len() - 1] == i);
                    }
                }
            }
            k = k + 1;
        }
        out
    }

    /// Whether a stored value is ours to spend.
    pub fn ownership(&self, k: usize) -> (r: Ownership)
        requires
            k < self.dbcs@.len(),
        ensures
            r is Mine <==> ring_covers(self.keys@, self.dbcs@[k as int].owner@),
    {
        if self.find_key(&self.dbcs[k].owner).is_some() {
            Ownership::Mine
        } else {
            Ownership::NotMine
        }
    }

    /// The total face value this wallet can still spend, or nothing if that
    /// total does not fit a machine word.
    pub fn balance(&self) -> (r: Option<u64>)
        ensures
            match r {
                Some(v) => v == spendable_sum(self.dbcs@, self.keys@),
                None => spendable_sum(self.dbcs@, self.keys@) > u64::MAX,
            },
    {
        let mut acc: u64 = 0;
        let mut k: usize = 0;
        while k < self.dbcs.len()
            invariant
                0 <= k <= self.dbcs@.len(),
                acc == spendable_sum(self.dbcs@.take(k as int), self.keys@),
            decreases self.dbcs@.len() - k,
        {
            let e_spendable = self.dbcs[k].spent.is_none() && self.find_key(
                &self.dbcs[k].owner,
            ).is_some();
            if e_spendable {
                let next = self.dbcs[k].amount;
                if acc > u64::MAX - next {
                    proof {
                        lemma_spendable_sum_prefix(self.dbcs@, self.keys@, k as int + 1);
                        assert(self.dbcs@.take(k as int + 1).drop_last() =~= self.dbcs@.take(
                            k as int,
                        ));
                        assert(self.dbcs@.take(k as int + 1).last() == self.dbcs@[k as int]);
                    }
                    return None;
                }
                acc = acc + next;
            }
            k = k + 1;
            proof {
                assert(self.dbcs@.take(k as int).drop_last() =~= self.dbcs@.take(k as int - 1));
                assert(self.dbcs@.take(k as int).last() == self.dbcs@[k as int - 1]);
            }
        }
        proof {
            assert(self.dbcs@.take(self.dbcs@.len() as int) =~= self.dbcs@);
        }
        Some(acc)
    }

    /// Choose values to cover a spend, walking the wallet in order and
    /// taking every spendable value until the amount is reached, as one
    /// does when reissuing. On success the chosen positions are strictly
    /// ascending, each spendable, and their total is the amount plus the
    /// change. Nothing is chosen when the spendable total cannot cover the
    /// amount within a machine word.
    pub fn select_inputs(&self, amount: u64) -> (r: Option<(Vec<usize>, u64)>)
        ensures
            match r {
                Some(sel) => {
                    &&& forall|a: int, b: int|
                        0 <= a < b < sel.0@.len() ==> sel.0@[a] < sel.0@[b]
                    &&& forall|j: int|
                        0 <= j < sel.0@.len() ==> 0 <= #[trigger] sel.0@[j] < self.dbcs@.len()
                            && spendable(self.keys@, self.dbcs@[sel.0@[j] as int])
                    &&& selected_sum(self.dbcs@, sel.0@) == amount + sel.1
                },
                None => spendable_sum(self.dbcs@, self.keys@) < amount || spendable_sum(
                    self.dbcs@,
                    self.keys@,
                ) > u64::MAX,
            },
    {
        if amount == 0 {
            let empty_sel: Vec<usize> = Vec::new();
            return Some((empty_sel, 0));
        }
        let mut chosen: Vec<usize> = Vec::new();
        let mut acc: u64 = 0;
        let mut k: usize = 0;
        while k < self.dbcs.len()
            invariant
                0 <= k <= self.dbcs@.len(),
                acc < amount,
                acc == spendable_sum(self.dbcs@.take(k as int), self.keys@),
                acc == selected_sum(self.dbcs@, chosen@),
                forall|a: int, b: int| 0 <= a < b < chosen@.len() ==> chosen@[a] < chosen@[b],
                forall|j: int|
                    0 <= j < chosen@.len() ==> 0 <= #[trigger] chosen@[j] < k && spendable(
                        self.keys@,
                        self.dbcs@[chosen@[j] as int],
                    ),
            decreases self.dbcs@.len() - k,
        {
            let e_spendable = self.dbcs[k].spent.is_none() && self.find_key(
                &self.dbcs[k].owner,
            ).is_some();
            if e_spendable {
                let next = self.dbcs[k].amount;
                if acc > u64::MAX - next {
                    proof {
                        lemma_spendable_sum_prefix(self.dbcs@, self.keys@, k as int + 1);
                        assert(self.dbcs@.take(k as int + 1).drop_last() =~= self.dbcs@.take(
                            k as int,
                        ));
                        assert(self.dbcs@.take(k as int + 1).last() == self.dbcs@[k as int]);
                    }
                    return None;
                }
                let ghost chosen0 = chosen@;
                chosen.push(k);
                proof {
                    assert(chosen@.drop_last() =~= chosen0);
                }
                acc = acc + next;
                if acc >= amount {
                    return Some((chosen, acc - amount));
                }
            }
            k = k + 1;
            proof {
                assert(self.dbcs@.take(k as int).drop_last() =~= self.dbcs@.take(k as int - 1));
                assert(self.dbcs@.take(k as int).last() == self.dbcs@[k as int - 1]);
            }
        }
        proof {
            assert(self.dbcs@.take(self.dbcs@.len() as int) =~= self.dbcs@);
        }
        None
    }
}

/// The total face value of the values at the chosen positions.
pub open spec fn selected_sum(dbcs: Seq<DbcInfo>, chosen: Seq<usize>) -> int
    decreases chosen.len(),
{
    if chosen.len() == 0 {
        0
    } else {
        selected_sum(dbcs, chosen.drop_last()) + (if 0 <= chosen.last() < dbcs.len() {
            dbcs[chosen.last() as int].amount as int
        } else {
            0
        })
    }
}

/// A longer prefix never sums to less: every term is nonnegative.
pub proof fn lemma_spendable_sum_mono(dbcs: Seq<DbcInfo>, keys: Seq<KeyEntry>, a: int, b: int)
    requires
        0 <= a <= b <= dbcs.len(),
    ensures
        spendable_sum(dbcs.take(a), keys) <= spendable_sum(dbcs.take(b), keys),
{
    lemma_spendable_sum_prefix(dbcs.take(b), keys, a);
    assert(dbcs.take(b).take(a) =~= dbcs.take(a));
}

/// A strictly ascending choice of spendable positions below `k` never sums
/// to more than the spendable total of the first `k` rows: what a selection
/// covers, the wallet can cover.
pub proof fn lemma_selected_le_spendable(
    dbcs: Seq<DbcInfo>,
    keys: Seq<KeyEntry>,
    chosen: Seq<usize>,
    k: int,
)
    requires
        0 <= k <= dbcs.len(),
        forall|a: int, b: int| 0 <= a < b < chosen.len() ==> chosen[a] < chosen[b],
        forall|j: int|
            0 <= j < chosen.len() ==> #[trigger] chosen[j] < k && spendable(
                keys,
                dbcs[chosen[j] as int],
            ),
    ensures
        selected_sum(dbcs, chosen) <= spendable_sum(dbcs.take(k), keys),
    decreases chosen.len(),
{
    if chosen.len() == 0 {
        lemma_spendable_sum_prefix(dbcs.take(k), keys, 0);
    } else {
        let p = chosen.last() as int;
        assert forall|j: int|
            0 <= j < chosen.drop_last().len() implies #[trigger] chosen.drop_last()[j] < p
                && spendable(keys, dbcs[chosen.drop_last()[j] as int]) by {
            assert(chosen[j] < chosen.last());
            assert(chosen[j] < k && spendable(keys, dbcs[chosen[j] as int]));
        }
        lemma_selected_le_spendable(dbcs, keys, chosen.drop_last(), p);
        assert(dbcs.take(p + 1).drop_last() =~= dbcs.take(p));
        assert(dbcs.take(p + 1).last() == dbcs[p]);
        assert(spendable_sum(dbcs.take(p + 1), keys) == spendable_sum(dbcs.take(p), keys)
            + dbcs[p].amount);
        lemma_spendable_sum_mono(dbcs, keys, p + 1, k);
    }
}

/// An exact copy of a byte string.
pub fn copy_bytes(a: &Vec<u8>) -> (r: Vec<u8>)
    ensures
        r@ == a@,
{
    let mut out: Vec<u8> = Vec::new();
    let mut k: usize = 0;
    while k < a.len()
        invariant
            0 <= k <= a@.len(),
            out@ =~= a@.take(k as int),
        decreases a@.len() - k,
    {
        out.push(a[k]);
        k = k + 1;
    }
    proof {
        assert(out@ =~= a@);
    }
    out
}

} // verus!
