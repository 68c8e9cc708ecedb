use vstd::prelude::*;

use crate::peer::{NodeAddr, PeerId};

verus! {

/// One row of the registry: a peer's identifier and the endpoint it
/// announced.
#[derive(Clone, Copy, PartialEq, Eq, Structural, Debug)]
pub struct PeerEntry {
    pub id: PeerId,
    pub addr: NodeAddr,
}

/// The mathematical content of a row sequence: the map from identifier to
/// announced endpoint. Later rows win, but a well-formed registry never
/// holds an identifier twice.
pub open spec fn map_of(s: Seq<PeerEntry>) -> Map<PeerId, NodeAddr>
    decreases s.len(),
{
    if s.len() == 0 {
        Map::empty()
    } else {
        map_of(s.drop_last()).insert(s.last().id, s.last().addr)
    }
}

/// The set of identifiers a node knows, with each one's announced endpoint.
/// Rows are kept sorted strictly by identifier, so the sequence order is the
/// identifier order and every identifier occurs at most once.
pub struct PeerRegistry {
    pub entries: Vec<PeerEntry>,
}

impl PeerRegistry {
    /// Row order is strict: the registry is sorted and duplicate-free.
    pub open spec fn wf(self) -> bool {
        forall|i: int, j: int|
            0 <= i < j < self.entries@.len() ==> #[trigger] self.entries@[i].id.lt_spec(
                self.entries@[j].id,
            )
    }

    /// The registry as a map from identifier to endpoint.
    pub open spec fn view_map(self) -> Map<PeerId, NodeAddr> {
        map_of(self.entries@)
    }

    pub open spec fn spec_contains(self, id: PeerId) -> bool {
        exists|i: int| 0 <= i < self.entries@.len() && self.entries@[i].id == id
    }

    /// A node starts out knowing only itself.
    pub fn singleton(id: PeerId, addr: NodeAddr) -> (r: PeerRegistry)
        ensures
            r.wf(),
            r.entries@ =~= seq![PeerEntry { id, addr }],
    {
        let mut entries: Vec<PeerEntry> = Vec::new();
        entries.push(PeerEntry { id, addr });
        PeerRegistry { entries }
    }

    pub fn len(&self) -> (r: usize)
        ensures
            r == self.entries@.len(),
    {
        self.entries.len()
    }

    pub fn contains(&self, id: &PeerId) -> (r: bool)
        ensures
            r == self.spec_contains(*id),
    {
        let mut k: usize = 0;
        while k < self.entries.len()
            invariant
                0 <= k <= self.entries@.len(),
                forall|i: int| 0 <= i < k ==> self.entries@[i].id != *id,
            decreases self.entries@.len() - k,
        {
            if self.entries[k].id == *id {
                return true;
            }
            k = k + 1;
        }
        false
    }

    /// The endpoint a peer announced, if the peer is known at all.
    pub fn lookup(&self, id: &PeerId) -> (r: Option<NodeAddr>)
        ensures
            match r {
                Some(addr) => exists|i: int|
                    0 <= i < self.entries@.len() && self.entries@[i] == (PeerEntry {
                        id: *id,
                        addr,
                    }),
                None => !self.spec_contains(*id),
            },
    {
        let mut k: usize = 0;
        while k < self.entries.len()
            invariant
                0 <= k <= self.entries@.len(),
                forall|i: int| 0 <= i < k ==> self.entries@[i].id != *id,
            decreases self.entries@.len() - k,
        {
            if self.entries[k].id == *id {
                return Some(self.entries[k].addr);
            }
            k = k + 1;
        }
        None
    }

    /// The identifiers of all known peers, in registry order.
    pub fn ids(&self) -> (r: Vec<PeerId>)
        ensures
            r@.len() == self.entries@.len(),
            forall|i: int| 0 <= i < r@.len() ==> r@[i] == self.entries@[i].id,
    {
        let mut out: Vec<PeerId> = Vec::new();
        let mut k: usize = 0;
        while k < self.entries.len()
            invariant
                0 <= k <= self.entries@.len(),
                out@.len() == k,
                forall|i: int| 0 <= i < k ==> out@[i] == self.entries@[i].id,
            decreases self.entries@.len() - k,
        {
            out.push(self.entries[k].id);
            k = k + 1;
        }
        out
    }

    /// An exact copy of the rows: what a discover reply carries. The copy is
    /// a value of its own; later changes to the registry do not reach it.
    pub fn snapshot(&self) -> (r: PeerRegistry)
        ensures
            r.entries@ =~= self.entries@,
    {
        let mut entries: Vec<PeerEntry> = Vec::new();
        let mut k: usize = 0;
        while k < self.entries.len()
            invariant
                0 <= k <= self.entries@.len(),
                entries@ =~= self.entries@.take(k as int),
            decreases self.entries@.len() - k,
        {
            entries.push(self.entries[k]);
            k = k + 1;
        }
        proof {
            assert(entries@ =~= self.entries@);
        }
        PeerRegistry { entries }
    }

    /// Insert a row for an identifier that is not yet present, keeping the
    /// rows sorted.
    pub fn insert_new(&mut self, id: PeerId, addr: NodeAddr)
        requires
            old(self).wf(),
            !old(self).spec_contains(id),
        ensures
            final(self).wf(),
            final(self).entries@.len() == old(self).entries@.len() + 1,
            final(self).spec_contains(id),
            final(self).view_map() == old(self).view_map().insert(id, addr),
            forall|p: PeerId|
                #[trigger] final(self).spec_contains(p) <==> (old(self).spec_contains(p) || p
                    == id),
    {
        let ghost old_entries = self.entries@;
        let mut pos: usize = 0;
        while pos < self.entries.len() && self.entries[pos].id.lt(&id)
            invariant
                0 <= pos <= self.entries@.len(),
                self.entries@ == old_entries,
                forall|i: int| 0 <= i < pos ==> self.entries@[i].id.lt_spec(id),
            decreases self.entries@.len() - pos,
        {
            pos = pos + 1;
        }
        proof {
            assert forall|i: int| 0 <= i < old_entries.len() implies old_entries[i].id != id by {
                if old_entries[i].id == id {
                    assert(old(self).spec_contains(id));
                }
            }
            if pos < old_entries.len() {
                assert(!old_entries[pos as int].id.lt_spec(id));
                assert(id.lt_spec(old_entries[pos as int].id));
            }
        }
        self.entries.insert(pos, PeerEntry { id, addr });
        proof {
            let s = self.entries@;
            assert forall|i: int, j: int| 0 <= i < j < s.len() implies #[trigger] s[i].id.lt_spec(
                s[j].id,
            ) by {
                if i < pos && j > pos {
                    assert(s[i] == old_entries[i]);
                    assert(s[j] == old_entries[j - 1]);
                } else if j == pos {
                    assert(s[i] == old_entries[i]);
                } else if i == pos {
                    assert(s[j] == old_entries[j - 1]);
                    assert(id.lt_spec(old_entries[pos as int].id));
                    if j - 1 > pos {
                        assert(old_entries[pos as int].id.lt_spec(old_entries[j - 1].id));
                    }
                } else if j < pos {
                    assert(s[i] == old_entries[i]);
                    assert(s[j] == old_entries[j]);
                } else {
                    assert(s[i] == old_entries[i - 1]);
                    assert(s[j] == old_entries[j - 1]);
                }
            }
            lemma_map_of_insert(old_entries, id, addr, pos as int);
            assert(final(self).view_map() == old(self).view_map().insert(id, addr));
            assert forall|p: PeerId|
                #[trigger] self.spec_contains(p) <==> (old(self).spec_contains(p) || p
                    == id) by {
                if self.spec_contains(p) {
                    let j = choose|j: int| 0 <= j < s.len() && s[j].id == p;
                    if j < pos {
                        assert(old_entries[j].id == p);
                        assert(old(self).spec_contains(p));
                    } else if j > pos {
                        assert(old_entries[j - 1].id == p);
                        assert(old(self).spec_contains(p));
                    }
                }
                if old(self).spec_contains(p) {
                    let i = choose|i: int|
                        0 <= i < old_entries.len() && old_entries[i].id == p;
                    if i < pos {
                        assert(s[i].id == p);
                    } else {
                        assert(s[i + 1].id == p);
                    }
                }
                if p == id {
                    assert(s[pos as int].id == p);
                }
            }
        }
    }
}

/// What one peer announcement produced.
pub struct PeerOutcome {
    /// One announcement per row already held, owed to the newcomer, so that
    /// it learns the full registry.
    pub announce: Vec<PeerEntry>,
    /// Whether this announcement made the registry reach quorum size.
    pub quorum_reached: bool,
}

/// The registry step as a function on the map it denotes: a known identifier
/// changes nothing, a new one is recorded.
pub open spec fn peer_step(m: Map<PeerId, NodeAddr>, e: PeerEntry) -> Map<PeerId, NodeAddr> {
    if m.dom().contains(e.id) {
        m
    } else {
        m.insert(e.id, e.addr)
    }
}

/// Whether one announcement is the one that completes the quorum.
pub open spec fn step_fires(m: Map<PeerId, NodeAddr>, e: PeerEntry, q: nat) -> bool {
    !m.dom().contains(e.id) && m.dom().len() + 1 == q
}

/// The registry after a whole sequence of announcements.
pub open spec fn run_steps(m: Map<PeerId, NodeAddr>, events: Seq<PeerEntry>) -> Map<
    PeerId,
    NodeAddr,
>
    decreases events.len(),
{
    if events.len() == 0 {
        m
    } else {
        run_steps(peer_step(m, events[0]), events.drop_first())
    }
}

/// How many announcements of a sequence complete the quorum.
pub open spec fn fire_count(m: Map<PeerId, NodeAddr>, events: Seq<PeerEntry>, q: nat) -> nat
    decreases events.len(),
{
    if events.len() == 0 {
        0
    } else {
        (if step_fires(m, events[0], q) {
            1nat
        } else {
            0
        }) + fire_count(peer_step(m, events[0]), events.drop_first(), q)
    }
}

impl PeerRegistry {
    /// Handle one peer announcement. A peer already held leaves the registry
    /// untouched and is owed nothing; a new peer is told every row the node
    /// already holds, then recorded, and the outcome says whether its arrival
    /// completed the quorum.
    pub fn handle_peer(&mut self, actor: PeerId, actor_addr: NodeAddr, quorum_size: usize) -> (r:
        PeerOutcome)
        requires
            old(self).wf(),
        ensures
            final(self).wf(),
            old(self).spec_contains(actor) ==> {
                &&& *final(self) == *old(self)
                &&& r.announce@ =~= Seq::<PeerEntry>::empty()
                &&& !r.quorum_reached
            },
            !old(self).spec_contains(actor) ==> {
                &&& r.announce@ == old(self).entries@
                &&& final(self).entries@.len() == old(self).entries@.len() + 1
                &&& (forall|p: PeerId|
                    #[trigger] final(self).spec_contains(p) <==> (old(self).spec_contains(p) || p
                        == actor))
                &&& r.quorum_reached == (final(self).entries@.len() == quorum_size)
            },
            final(self).view_map() == peer_step(
                old(self).view_map(),
                PeerEntry { id: actor, addr: actor_addr },
            ),
            r.quorum_reached == step_fires(
                old(self).view_map(),
                PeerEntry { id: actor, addr: actor_addr },
                quorum_size as nat,
            ),
    {
        proof {
            lemma_map_of_matches_rows(old(self).entries@);
            lemma_sorted_distinct(old(self).entries@);
            lemma_map_of_len(old(self).entries@);
        }
        if self.contains(&actor) {
            PeerOutcome { announce: Vec::new(), quorum_reached: false }
        } else {
            let announce = self.snapshot().entries;
            self.insert_new(actor, actor_addr);
            proof {
                lemma_sorted_distinct(self.entries@);
                lemma_map_of_len(self.entries@);
            }
            let quorum_reached = self.entries.len() == quorum_size;
            PeerOutcome { announce, quorum_reached }
        }
    }
}

/// Strictly sorted rows never repeat an identifier.
pub proof fn lemma_sorted_distinct(s: Seq<PeerEntry>)
    requires
        forall|i: int, j: int| 0 <= i < j < s.len() ==> #[trigger] s[i].id.lt_spec(s[j].id),
    ensures
        forall|i: int, j: int| 0 <= i < j < s.len() ==> #[trigger] s[i].id != #[trigger] s[j].id,
{
    assert forall|i: int, j: int|
        0 <= i < j < s.len() implies #[trigger] s[i].id != #[trigger] s[j].id by {
        assert(s[i].id.lt_spec(s[j].id));
    }
}

/// The map a row sequence denotes holds exactly the identifiers of the rows.
pub proof fn lemma_map_of_matches_rows(s: Seq<PeerEntry>)
    ensures
        forall|p: PeerId|
            #[trigger] map_of(s).dom().contains(p) <==> exists|i: int|
                0 <= i < s.len() && s[i].id == p,
    decreases s.len(),
{
    if s.len() > 0 {
        lemma_map_of_matches_rows(s.drop_last());
        assert forall|p: PeerId| #[trigger]
            map_of(s).dom().contains(p) <==> exists|i: int|
                0 <= i < s.len() && s[i].id == p by {
            if map_of(s).dom().contains(p) {
                if p == s.last().id {
                    assert(0 <= s.len() - 1 < s.len() && s[s.len() - 1].id == p);
                } else {
                    assert(map_of(s.drop_last()).dom().contains(p));
                    let i = choose|i: int| 0 <= i < s.drop_last().len() && s.drop_last()[i].id == p;
                    assert(s.drop_last()[i] == s[i]);
                    assert(0 <= i < s.len() && s[i].id == p);
                }
                assert(exists|i: int| 0 <= i < s.len() && s[i].id == p);
            }
            if exists|i: int| 0 <= i < s.len() && s[i].id == p {
                let i = choose|i: int| 0 <= i < s.len() && s[i].id == p;
                if i == s.len() - 1 {
                    assert(map_of(s).dom().contains(s.last().id));
                } else {
                    assert(s.drop_last()[i].id == p);
                    assert(map_of(s.drop_last()).dom().contains(p));
                    assert(map_of(s).dom().contains(p));
                }
            }
        }
    }
}

/// With no identifier repeated, the denoted map is exactly as large as the
/// row sequence, and finite.
pub proof fn lemma_map_of_len(s: Seq<PeerEntry>)
    requires
        forall|i: int, j: int| 0 <= i < j < s.len() ==> #[trigger] s[i].id != #[trigger] s[j].id,
    ensures
        map_of(s).dom().finite(),
        map_of(s).dom().len() == s.len(),
    decreases s.len(),
{
    if s.len() > 0 {
        assert forall|i: int, j: int|
            0 <= i < j < s.drop_last().len() implies #[trigger] s.drop_last()[i].id != #[trigger] s.drop_last()[j].id by {
            assert(s[i].id != s[j].id);
        }
        lemma_map_of_len(s.drop_last());
        lemma_map_of_matches_rows(s.drop_last());
        assert(!map_of(s.drop_last()).dom().contains(s.last().id)) by {
            if map_of(s.drop_last()).dom().contains(s.last().id) {
                let i = choose|i: int|
                    0 <= i < s.drop_last().len() && s.drop_last()[i].id == s.last().id;
                assert(s[i].id == s[s.len() - 1].id);
            }
        }
    }
}

/// In a duplicate-free row sequence, the denoted map sends each row's
/// identifier to that row's endpoint.
pub proof fn lemma_map_of_value(s: Seq<PeerEntry>, i: int)
    requires
        forall|a: int, b: int| 0 <= a < b < s.len() ==> #[trigger] s[a].id != #[trigger] s[b].id,
        0 <= i < s.len(),
    ensures
        map_of(s).dom().contains(s[i].id),
        map_of(s)[s[i].id] == s[i].addr,
    decreases s.len(),
{
    if i == s.len() - 1 {
    } else {
        assert forall|a: int, b: int|
            0 <= a < b < s.drop_last().len() implies #[trigger] s.drop_last()[a].id
            != #[trigger] s.drop_last()[b].id by {
            assert(s[a].id != s[b].id);
        }
        lemma_map_of_value(s.drop_last(), i);
        assert(s.last().id != s[i].id);
        assert(s.drop_last()[i] == s[i]);
    }
}

/// A registry step never shrinks the denoted map, and keeps it finite.
proof fn lemma_peer_step_grows(m: Map<PeerId, NodeAddr>, e: PeerEntry)
    requires
        m.dom().finite(),
    ensures
        peer_step(m, e).dom().finite(),
        m.dom().len() <= peer_step(m, e).dom().len() <= m.dom().len() + 1,
        step_fires(m, e, (m.dom().len() + 1) as nat) ==> peer_step(m, e).dom().len() == m.dom().len() + 1,
{
}

/// Once the registry has reached quorum size, no later announcement can
/// complete the quorum again.
proof fn lemma_no_fire_once_reached(m: Map<PeerId, NodeAddr>, events: Seq<PeerEntry>, q: nat)
    requires
        m.dom().finite(),
        m.dom().len() >= q,
    ensures
        fire_count(m, events, q) == 0,
    decreases events.len(),
{
    if events.len() > 0 {
        lemma_peer_step_grows(m, events[0]);
        lemma_no_fire_once_reached(peer_step(m, events[0]), events.drop_first(), q);
    }
}

/// The quorum triggers at most once: over any sequence of announcements, at
/// most one of them completes the quorum.
pub proof fn lemma_quorum_at_most_once(m: Map<PeerId, NodeAddr>, events: Seq<PeerEntry>, q: nat)
    requires
        m.dom().finite(),
    ensures
        fire_count(m, events, q) <= 1,
    decreases events.len(),
{
    if events.len() > 0 {
        lemma_peer_step_grows(m, events[0]);
        if step_fires(m, events[0], q) {
            lemma_no_fire_once_reached(peer_step(m, events[0]), events.drop_first(), q);
        } else {
            lemma_quorum_at_most_once(peer_step(m, events[0]), events.drop_first(), q);
        }
    }
}

/// The quorum triggers exactly once on any sequence of announcements that
/// takes the registry from below quorum size to quorum size or beyond, at
/// the moment the registry first reaches quorum size.
pub proof fn lemma_quorum_exactly_once(m: Map<PeerId, NodeAddr>, events: Seq<PeerEntry>, q: nat)
    requires
        m.dom().finite(),
        m.dom().len() < q,
        run_steps(m, events).dom().len() >= q,
    ensures
        fire_count(m, events, q) == 1,
    decreases events.len(),
{
    lemma_quorum_at_most_once(m, events, q);
    if events.len() > 0 {
        lemma_peer_step_grows(m, events[0]);
        if !step_fires(m, events[0], q) {
            assert(peer_step(m, events[0]).dom().len() < q);
            lemma_quorum_exactly_once(peer_step(m, events[0]), events.drop_first(), q);
        }
    }
}

/// Inserting a fresh identifier anywhere in a row sequence adds exactly that
/// binding to the map the rows denote.
proof fn lemma_map_of_insert(s: Seq<PeerEntry>, id: PeerId, addr: NodeAddr, pos: int)
    requires
        0 <= pos <= s.len(),
        forall|i: int| 0 <= i < s.len() ==> s[i].id != id,
    ensures
        map_of(s.insert(pos, PeerEntry { id, addr })) == map_of(s).insert(id, addr),
    decreases s.len(),
{
    let e = PeerEntry { id, addr };
    let t = s.insert(pos, e);
    if pos == s.len() {
        assert(t.drop_last() =~= s);
        assert(map_of(t) == map_of(s).insert(id, addr));
    } else {
        assert(t.last() == s.last());
        assert(t.drop_last() =~= s.drop_last().insert(pos, e));
        lemma_map_of_insert(s.drop_last(), id, addr, pos);
        assert(map_of(t) == map_of(s.drop_last()).insert(id, addr).insert(
            s.last().id,
            s.last().addr,
        ));
        assert(s.last().id != id);
        assert(map_of(s.drop_last()).insert(id, addr).insert(s.last().id, s.last().addr)
            =~= map_of(s.drop_last()).insert(s.last().id, s.last().addr).insert(id, addr));
    }
}

} // verus!
