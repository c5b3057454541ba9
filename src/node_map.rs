use std::collections::HashMap;
use vstd::prelude::*;

use crate::addr::Endpoint;

verus! {

broadcast use vstd::std_specs::hash::group_hash_axioms;

/// One participant of the overlay: where its virtual address is reachable,
/// when it was last heard from, and the version of this binding.
#[derive(Clone, Copy, Debug, PartialEq, Eq, Structural)]
pub struct NodeEntry {
    pub virtual_addr: u32,
    pub endpoint: Endpoint,
    pub last_seen: u64,
    pub generation: u64,
}

/// Whether `new` replaces `cur` for the same address: the higher generation
/// wins, and on equal generations the later (or equal) `last_seen` wins.
pub open spec fn supersedes(new: NodeEntry, cur: NodeEntry) -> bool {
    new.generation > cur.generation || (new.generation == cur.generation && new.last_seen
        >= cur.last_seen)
}

/// The map after one upsert of `e`.
pub open spec fn upsert_spec(m: Map<u32, NodeEntry>, e: NodeEntry) -> Map<u32, NodeEntry> {
    if m.contains_key(e.virtual_addr) && !supersedes(e, m[e.virtual_addr]) {
        m
    } else {
        m.insert(e.virtual_addr, e)
    }
}

/// The map after upserting each entry of `s` in order.
pub open spec fn upsert_all_spec(m: Map<u32, NodeEntry>, s: Seq<NodeEntry>) -> Map<
    u32,
    NodeEntry,
>
    decreases s.len(),
{
    if s.len() == 0 {
        m
    } else {
        upsert_spec(upsert_all_spec(m, s.drop_last()), s.last())
    }
}

/// Every entry is stored under its own virtual address.
pub open spec fn keyed_by_addr(m: Map<u32, NodeEntry>) -> bool {
    forall|k: u32| #[trigger] m.contains_key(k) ==> m[k].virtual_addr == k
}

/// `s` lists the entries of `m`, each once.
pub open spec fn is_listing(s: Seq<NodeEntry>, m: Map<u32, NodeEntry>) -> bool {
    &&& s.len() == m.len()
    &&& forall|i: int, j: int|
        0 <= i < j < s.len() ==> #[trigger] s[i].virtual_addr != #[trigger] s[j].virtual_addr
    &&& forall|i: int|
        0 <= i < s.len() ==> m.contains_key(#[trigger] s[i].virtual_addr) && m[s[i].virtual_addr]
            == s[i]
    &&& forall|k: u32| #[trigger]
        m.contains_key(k) ==> exists|i: int| 0 <= i < s.len() && #[trigger] s[i].virtual_addr == k
}

/// An entry not refreshed since `now - timeout`.
pub open spec fn is_stale(e: NodeEntry, now: u64, timeout: u64) -> bool {
    (e.last_seen as int) < now as int - timeout as int
}

/// The generation a fresh registration of `addr` gets: one above the current
/// one (held at the largest value), or 1 for a new address.
pub open spec fn next_generation(m: Map<u32, NodeEntry>, addr: u32) -> u64 {
    if m.contains_key(addr) {
        if m[addr].generation == u64::MAX {
            u64::MAX
        } else {
            (m[addr].generation + 1) as u64
        }
    } else {
        1
    }
}

/// Generation monotonicity: after any sequence of upserts `s` applied to `m`,
/// each address that occurs in `m` or in `s` is present, its entry carries a
/// generation at least as high as every one seen for that address, and that
/// entry is the one `m` held or one of the upserted entries.
pub proof fn lemma_upserts_keep_highest_generation(m: Map<u32, NodeEntry>, s: Seq<NodeEntry>)
    ensures
        forall|i: int|
            0 <= i < s.len() ==> upsert_all_spec(m, s).contains_key(
                #[trigger] s[i].virtual_addr,
            ) && upsert_all_spec(m, s)[s[i].virtual_addr].generation >= s[i].generation,
        forall|k: u32| #[trigger]
            m.contains_key(k) ==> upsert_all_spec(m, s).contains_key(k) && upsert_all_spec(
                m,
                s,
            )[k].generation >= m[k].generation,
        forall|k: u32| #[trigger]
            upsert_all_spec(m, s).contains_key(k) ==> (m.contains_key(k) && upsert_all_spec(
                m,
                s,
            )[k] == m[k]) || exists|i: int|
                0 <= i < s.len() && #[trigger] s[i] == upsert_all_spec(m, s)[k],
    decreases s.len(),
{
    if s.len() > 0 {
        let p = s.drop_last();
        let e = s.last();
        lemma_upserts_keep_highest_generation(m, p);
        let before = upsert_all_spec(m, p);
        let after = upsert_all_spec(m, s);
        assert(after == upsert_spec(before, e));
        assert forall|i: int| 0 <= i < s.len() implies after.contains_key(
            #[trigger] s[i].virtual_addr,
        ) && after[s[i].virtual_addr].generation >= s[i].generation by {
            if i < p.len() {
                assert(p[i] == s[i]);
            }
        }
        assert forall|k: u32| #[trigger] after.contains_key(k) implies (m.contains_key(k)
            && after[k] == m[k]) || exists|i: int| 0 <= i < s.len() && #[trigger] s[i] == after[k] by {
            if k == e.virtual_addr && after[k] == e {
                assert(s[s.len() - 1] == after[k]);
            } else {
                assert(before.contains_key(k) && after[k] == before[k]);
                if !(m.contains_key(k) && before[k] == m[k]) {
                    let i = choose|i: int| 0 <= i < p.len() && #[trigger] p[i] == before[k];
                    assert(s[i] == after[k]);
                }
            }
        }
    }
}

/// Upserting entries with distinct addresses into an empty map stores each
/// of them under its address, and nothing else.
proof fn lemma_distinct_upserts(s: Seq<NodeEntry>)
    requires
        forall|i: int, j: int|
            0 <= i < j < s.len() ==> #[trigger] s[i].virtual_addr != #[trigger] s[j].virtual_addr,
    ensures
        forall|k: u32| #[trigger]
            upsert_all_spec(Map::empty(), s).contains_key(k) <==> exists|i: int|
                0 <= i < s.len() && #[trigger] s[i].virtual_addr == k,
        forall|i: int|
            0 <= i < s.len() ==> #[trigger] upsert_all_spec(Map::empty(), s)[s[i].virtual_addr]
                == s[i],
    decreases s.len(),
{
    if s.len() > 0 {
        let p = s.drop_last();
        let e = s.last();
        assert forall|i: int, j: int| 0 <= i < j < p.len() implies #[trigger] p[i].virtual_addr
            != #[trigger] p[j].virtual_addr by {
            assert(s[i] == p[i] && s[j] == p[j]);
        }
        lemma_distinct_upserts(p);
        let before = upsert_all_spec(Map::empty(), p);
        assert(!before.contains_key(e.virtual_addr)) by {
            if before.contains_key(e.virtual_addr) {
                let i = choose|i: int| 0 <= i < p.len() && #[trigger] p[i].virtual_addr
                    == e.virtual_addr;
                assert(s[i].virtual_addr == s[s.len() - 1].virtual_addr);
            }
        }
        let after = upsert_all_spec(Map::empty(), s);
        assert(after == before.insert(e.virtual_addr, e));
        assert forall|k: u32| #[trigger] after.contains_key(k) <==> exists|i: int|
            0 <= i < s.len() && #[trigger] s[i].virtual_addr == k by {
            if after.contains_key(k) && k != e.virtual_addr {
                let i = choose|i: int| 0 <= i < p.len() && #[trigger] p[i].virtual_addr == k;
                assert(s[i].virtual_addr == k);
            }
            if k == e.virtual_addr {
                assert(s[s.len() - 1].virtual_addr == k);
            }
            if exists|i: int| 0 <= i < s.len() && #[trigger] s[i].virtual_addr == k {
                let i = choose|i: int| 0 <= i < s.len() && #[trigger] s[i].virtual_addr == k;
                if i < p.len() {
                    assert(p[i].virtual_addr == k);
                }
            }
        }
        assert forall|i: int| 0 <= i < s.len() implies #[trigger] after[s[i].virtual_addr]
            == s[i] by {
            if i < p.len() {
                assert(p[i] == s[i]);
                assert(s[i].virtual_addr != e.virtual_addr);
            }
        }
    }
}

/// Rebuilding a map by upserting a listing of its entries, in any order,
/// gives back exactly that map.
pub proof fn lemma_listing_rebuilds(s: Seq<NodeEntry>, m: Map<u32, NodeEntry>)
    requires
        is_listing(s, m),
    ensures
        upsert_all_spec(Map::empty(), s) == m,
{
    lemma_distinct_upserts(s);
    let r = upsert_all_spec(Map::empty(), s);
    assert forall|k: u32| #[trigger] r.contains_key(k) <==> m.contains_key(k) by {
        if r.contains_key(k) {
            let i = choose|i: int| 0 <= i < s.len() && #[trigger] s[i].virtual_addr == k;
            assert(m.contains_key(s[i].virtual_addr));
        }
    }
    assert forall|k: u32| #[trigger] r.contains_key(k) implies r[k] == m[k] by {
        let i = choose|i: int| 0 <= i < s.len() && #[trigger] s[i].virtual_addr == k;
        assert(r[s[i].virtual_addr] == s[i]);
    }
    assert(r =~= m);
}

/// The registry of virtual address to endpoint bindings. Keys are unique; a
/// list of the keys beside the hash table lets the map be walked in order of
/// first insertion.
pub struct NodeMap {
    entries: HashMap<u32, NodeEntry>,
    keys: Vec<u32>,
}

impl View for NodeMap {
    type V = Map<u32, NodeEntry>;

    closed spec fn view(&self) -> Map<u32, NodeEntry> {
        self.entries@
    }
}

impl NodeMap {
    /// The map's internal invariant: the key list holds each key of the table
    /// once, and each entry is stored under its own address.
    pub closed spec fn wf(&self) -> bool {
        &&& self.keys@.no_duplicates()
        &&& forall|k: u32| #[trigger]
            self.entries@.contains_key(k) <==> self.keys@.contains(k)
        &&& keyed_by_addr(self.entries@)
    }

    /// An empty map.
    pub fn new() -> (r: NodeMap)
        ensures
            r.wf(),
            r@ == Map::<u32, NodeEntry>::empty(),
    {
        NodeMap { entries: HashMap::new(), keys: Vec::new() }
    }

    /// The number of entries.
    pub fn len(&self) -> (r: usize)
        requires
            self.wf(),
        ensures
            r == self@.len(),
    {
        self.entries.len()
    }

    /// The entry for `addr`, if any.
    pub fn get(&self, addr: u32) -> (r: Option<NodeEntry>)
        requires
            self.wf(),
        ensures
            r == (if self@.contains_key(addr) {
                Some(self@[addr])
            } else {
                None
            }),
    {
        match self.entries.get(&addr) {
            Some(e) => Some(*e),
            None => None,
        }
    }

    /// The endpoint bound to `addr`; `None` is a routing miss, not an error.
    pub fn lookup(&self, addr: u32) -> (r: Option<Endpoint>)
        requires
            self.wf(),
        ensures
            r == (if self@.contains_key(addr) {
                Some(self@[addr].endpoint)
            } else {
                None
            }),
    {
        match self.entries.get(&addr) {
            Some(e) => Some(e.endpoint),
            None => None,
        }
    }

    /// Stores `e` under its address, whether or not one is there.
    fn put(&mut self, e: NodeEntry)
        requires
            old(self).wf(),
        ensures
            final(self).wf(),
            final(self)@ == old(self)@.insert(e.virtual_addr, e),
    {
        let addr = e.virtual_addr;
        if !self.entries.contains_key(&addr) {
            self.keys.push(addr);
        }
        self.entries.insert(addr, e);
        proof {
            let m = self.entries@;
            assert forall|k: u32| #[trigger] m.contains_key(k) implies m[k].virtual_addr == k by {
                if k != addr {
                    assert(old(self).entries@.contains_key(k));
                }
            }
            assert forall|k: u32| #[trigger]
                self.entries@.contains_key(k) <==> self.keys@.contains(k) by {
                let ok = old(self).keys@;
                if self.keys@.contains(k) {
                    let j = choose|j: int| 0 <= j < self.keys@.len() && self.keys@[j] == k;
                    if j < ok.len() {
                        assert(ok[j] == k);
                    }
                }
                if ok.contains(k) {
                    let j = choose|j: int| 0 <= j < ok.len() && ok[j] == k;
                    assert(self.keys@[j] == k);
                }
                if k == addr && !old(self).entries@.contains_key(addr) {
                    assert(self.keys@[ok.len() as int] == k);
                }
            }
        }
    }

    /// Inserts `e`, or replaces the entry for its address when `e` supersedes
    /// it. Returns whether `e` was stored. The entry keeps the generation it
    /// carries: this is how racing versions of a binding are reconciled. The
    /// server's own writes go through `register`, which increments the
    /// generation.
    pub fn upsert(&mut self, e: NodeEntry) -> (r: bool)
        requires
            old(self).wf(),
        ensures
            final(self).wf(),
            final(self)@ == upsert_spec(old(self)@, e),
            r == (!old(self)@.contains_key(e.virtual_addr) || supersedes(
                e,
                old(self)@[e.virtual_addr],
            )),
    {
        let take = match self.entries.get(&e.virtual_addr) {
            Some(cur) => e.generation > cur.generation || (e.generation == cur.generation
                && e.last_seen >= cur.last_seen),
            None => true,
        };
        if take {
            self.put(e);
        }
        take
    }

    /// Upserts each entry of `es` in order.
    pub fn upsert_all(&mut self, es: &[NodeEntry])
        requires
            old(self).wf(),
        ensures
            final(self).wf(),
            final(self)@ == upsert_all_spec(old(self)@, es@),
    {
        let mut i: usize = 0;
        while i < es.len()
            invariant
                self.wf(),
                i <= es@.len(),
                self@ == upsert_all_spec(old(self)@, es@.subrange(0, i as int)),
            decreases es@.len() - i,
        {
            let ghost before = es@.subrange(0, i as int);
            self.upsert(es[i]);
            proof {
                let after = es@.subrange(0, i + 1);
                assert(after.drop_last() == before);
                assert(after.last() == es@[i as int]);
            }
            i = i + 1;
        }
        assert(es@.subrange(0, es@.len() as int) == es@);
    }

    /// Binds `addr` to `endpoint` as last seen at `now`, under the next
    /// generation of that address. This is the server's source-address
    /// learning: the endpoint is the one the transport observed.
    pub fn register(&mut self, addr: u32, endpoint: Endpoint, now: u64) -> (r: NodeEntry)
        requires
            old(self).wf(),
        ensures
            final(self).wf(),
            r == (NodeEntry {
                virtual_addr: addr,
                endpoint,
                last_seen: now,
                generation: next_generation(old(self)@, addr),
            }),
            final(self)@ == old(self)@.insert(addr, r),
    {
        let generation = match self.entries.get(&addr) {
            Some(cur) => cur.generation.saturating_add(1),
            None => 1,
        };
        let e = NodeEntry { virtual_addr: addr, endpoint, last_seen: now, generation };
        self.put(e);
        e
    }

    /// Removes exactly the entries with `last_seen < now - timeout`.
    pub fn evict_stale(&mut self, now: u64, timeout: u64)
        requires
            old(self).wf(),
        ensures
            final(self).wf(),
            forall|k: u32| #[trigger]
                final(self)@.contains_key(k) <==> (old(self)@.contains_key(k) && !is_stale(
                    old(self)@[k],
                    now,
                    timeout,
                )),
            forall|k: u32| #[trigger] final(self)@.contains_key(k) ==> final(self)@[k] == old(self)@[k],
    {
        let cutoff = now.saturating_sub(timeout);
        let mut kept: Vec<u32> = Vec::new();
        let mut i: usize = 0;
        let ghost m0 = self.entries@;
        while i < self.keys.len()
            invariant
                i <= self.keys@.len(),
                self.keys@ == old(self).keys@,
                m0 == old(self).entries@,
                self.keys@.no_duplicates(),
                forall|k: u32| #[trigger] m0.contains_key(k) <==> self.keys@.contains(k),
                keyed_by_addr(m0),
                cutoff as int == if now >= timeout { now - timeout } else { 0 },
                kept@.no_duplicates(),
                forall|k: u32| #[trigger]
                    self.entries@.contains_key(k) <==> (m0.contains_key(k) && !(
                    self.keys@.subrange(0, i as int).contains(k) && is_stale(m0[k], now, timeout))),
                forall|k: u32| #[trigger]
                    self.entries@.contains_key(k) ==> self.entries@[k] == m0[k],
                forall|k: u32| #[trigger]
                    kept@.contains(k) <==> (self.keys@.subrange(0, i as int).contains(k)
                        && !is_stale(m0[k], now, timeout)),
            decreases self.keys@.len() - i,
        {
            let k = self.keys[i];
            let ghost done = self.keys@.subrange(0, i as int);
            let ghost done2 = self.keys@.subrange(0, i + 1);
            proof {
                assert(done2 == done.push(k));
                assert(!done.contains(k)) by {
                    if done.contains(k) {
                        let j = choose|j: int| 0 <= j < done.len() && done[j] == k;
                        assert(self.keys@[j] == self.keys@[i as int]);
                    }
                }
                assert(self.keys@.contains(k)) by {
                    assert(self.keys@[i as int] == k);
                }
                assert forall|x: u32| #[trigger] done2.contains(x) <==> (done.contains(x) || x == k) by {
                    if done2.contains(x) {
                        let j = choose|j: int| 0 <= j < done2.len() && done2[j] == x;
                        if j < done.len() {
                            assert(done[j] == x);
                        }
                    }
                    if done.contains(x) {
                        let j = choose|j: int| 0 <= j < done.len() && done[j] == x;
                        assert(done2[j] == x);
                    }
                    if x == k {
                        assert(done2[i as int] == x);
                    }
                }
            }
            let stale = match self.entries.get(&k) {
                Some(e) => e.last_seen < cutoff,
                None => false,
            };
            if stale {
                self.entries.remove(&k);
            } else {
                let ghost kept0 = kept@;
                kept.push(k);
                proof {
                    assert(!kept0.contains(k));
                    assert forall|a: int, b: int|
                        0 <= a < kept@.len() && 0 <= b < kept@.len() && a != b implies kept@[a]
                        != kept@[b] by {
                        if a == kept0.len() {
                            assert(kept0[b] == kept@[b]);
                        } else if b == kept0.len() {
                            assert(kept0[a] == kept@[a]);
                        }
                    }
                    assert forall|x: u32| #[trigger] kept@.contains(x) <==> (kept0.contains(x) || x == k) by {
                        if kept@.contains(x) {
                            let j = choose|j: int| 0 <= j < kept@.len() && kept@[j] == x;
                            if j < kept0.len() {
                                assert(kept0[j] == x);
                            }
                        }
                        if kept0.contains(x) {
                            let j = choose|j: int| 0 <= j < kept0.len() && kept0[j] == x;
                            assert(kept@[j] == x);
                        }
                        if x == k {
                            assert(kept@[kept0.len() as int] == x);
                        }
                    }
                }
            }
            i = i + 1;
        }
        proof {
            assert(self.keys@.subrange(0, self.keys@.len() as int) == self.keys@);
        }
        self.keys = kept;
    }

    /// A point-in-time copy, for a client to install as its cache.
    pub fn snapshot(&self) -> (r: NodeMap)
        requires
            self.wf(),
        ensures
            r.wf(),
            r@ == self@,
    {
        let mut copy = NodeMap::new();
        let mut i: usize = 0;
        while i < self.keys.len()
            invariant
                self.wf(),
                copy.wf(),
                i <= self.keys@.len(),
                forall|k: u32| #[trigger]
                    copy@.contains_key(k) <==> self.keys@.subrange(0, i as int).contains(k),
                forall|k: u32| #[trigger] copy@.contains_key(k) ==> copy@[k] == self@[k],
            decreases self.keys@.len() - i,
        {
            let k = self.keys[i];
            proof {
                assert(self.keys@.contains(k)) by {
                    assert(self.keys@[i as int] == k);
                }
            }
            let e = *self.entries.get(&k).unwrap();
            let ghost done = self.keys@.subrange(0, i as int);
            let ghost done2 = self.keys@.subrange(0, i + 1);
            copy.put(e);
            proof {
                assert(done2 == done.push(k));
                assert forall|x: u32| #[trigger] done2.contains(x) <==> (done.contains(x) || x == k) by {
                    if done2.contains(x) {
                        let j = choose|j: int| 0 <= j < done2.len() && done2[j] == x;
                        if j < done.len() {
                            assert(done[j] == x);
                        }
                    }
                    if done.contains(x) {
                        let j = choose|j: int| 0 <= j < done.len() && done[j] == x;
                        assert(done2[j] == x);
                    }
                    if x == k {
                        assert(done2[i as int] == x);
                    }
                }
            }
            i = i + 1;
        }
        proof {
            assert(self.keys@.subrange(0, self.keys@.len() as int) == self.keys@);
            assert(copy@ == self@);
        }
        copy
    }

    /// Installs `snap` in place of the whole map at once.
    pub fn replace_with(&mut self, snap: NodeMap)
        requires
            snap.wf(),
        ensures
            final(self).wf(),
            final(self)@ == snap@,
    {
        *self = snap;
    }

    /// Every entry, in order of first insertion: the answer to an
    /// administrative node-map query.
    pub fn to_vec(&self) -> (r: Vec<NodeEntry>)
        requires
            self.wf(),
        ensures
            is_listing(r@, self@),
    {
        let mut out: Vec<NodeEntry> = Vec::new();
        let mut i: usize = 0;
        while i < self.keys.len()
            invariant
                self.wf(),
                i <= self.keys@.len(),
                out@.len() == i,
                forall|j: int| 0 <= j < i ==> #[trigger] out@[j] == self@[self.keys@[j]],
                forall|j: int| 0 <= j < i ==> #[trigger] out@[j].virtual_addr == self.keys@[j],
            decreases self.keys@.len() - i,
        {
            let k = self.keys[i];
            proof {
                assert(self.keys@.contains(k)) by {
                    assert(self.keys@[i as int] == k);
                }
            }
            let e = *self.entries.get(&k).unwrap();
            out.push(e);
            i = i + 1;
        }
        proof {
            assert forall|j: int| 0 <= j < out@.len() implies self@.contains_key(
                #[trigger] out@[j].virtual_addr,
            ) && self@[out@[j].virtual_addr] == out@[j] by {
                assert(self.keys@.contains(self.keys@[j]));
            }
            assert forall|k: u32| #[trigger] self@.contains_key(k) implies exists|j: int|
                0 <= j < out@.len() && #[trigger] out@[j].virtual_addr == k by {
                let j = choose|j: int| 0 <= j < self.keys@.len() && self.keys@[j] == k;
                assert(out@[j].virtual_addr == k);
            }
            self.keys@.unique_seq_to_set();
            assert(self@.dom() == self.keys@.to_set());
        }
        assert forall|a: int, b: int| 0 <= a < b < out@.len() implies #[trigger] out@[a].virtual_addr
            != #[trigger] out@[b].virtual_addr by {
            assert(self.keys@[a] != self.keys@[b]);
        }
        assert(is_listing(out@, self@));
        out
    }
}

} // verus!
