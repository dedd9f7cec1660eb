//! The routing table: peers keyed by 32-byte key id, ranked by XOR distance.
//!
//! Each peer has exactly one entry, found under the bucket index
//! `matching_bits(local, peer)`; an insert for a known key id replaces the
//! descriptor only when the incoming version is strictly greater. Queries
//! rank peers by the bucket metric relative to a target key.

use vstd::prelude::*;

use crate::crypto::key_id_of;
use crate::dist::{key_distance, lemma_distinct_keys_bound, matching_bits};
use crate::model;
use crate::types::{clone_node, Node};

verus! {

/// One routing-table entry: a key id and the latest descriptor accepted
/// for it.
pub struct Entry {
    pub key_id: [u8; 32],
    pub node: Node,
}

/// The routing table of one node.
pub struct RoutingTable {
    pub local_id: [u8; 32],
    pub entries: Vec<Entry>,
}

/// What one insert does to the stored descriptor of a key id.
pub open spec fn upsert_result(cur: Option<model::Node>, n: model::Node) -> Option<model::Node> {
    match cur {
        None => Some(n),
        Some(c) => if c.version >= n.version {
            Some(c)
        } else {
            Some(n)
        },
    }
}

/// What one insert does to the stored version of a key id.
pub open spec fn version_after_insert(cur: Option<int>, v: int) -> Option<int> {
    match cur {
        None => Some(v),
        Some(c) => if c >= v {
            Some(c)
        } else {
            Some(v)
        },
    }
}

pub open spec fn version_after_inserts(cur: Option<int>, vs: Seq<int>) -> Option<int>
    decreases vs.len(),
{
    if vs.len() == 0 {
        cur
    } else {
        version_after_inserts(version_after_insert(cur, vs[0]), vs.drop_first())
    }
}

pub open spec fn seq_max(vs: Seq<int>) -> int
    recommends
        vs.len() > 0,
    decreases vs.len(),
{
    if vs.len() <= 1 {
        vs[0]
    } else {
        let m = seq_max(vs.drop_first());
        if vs[0] >= m {
            vs[0]
        } else {
            m
        }
    }
}

proof fn lemma_version_fold(cur: int, vs: Seq<int>)
    ensures
        version_after_inserts(Some(cur), vs) == Some(
            if vs.len() == 0 {
                cur
            } else if cur >= seq_max(vs) {
                cur
            } else {
                seq_max(vs)
            },
        ),
    decreases vs.len(),
{
    if vs.len() > 0 {
        if cur >= vs[0] {
            lemma_version_fold(cur, vs.drop_first());
        } else {
            lemma_version_fold(vs[0], vs.drop_first());
        }
    }
}

/// Version monotonicity: after any sequence of accepted inserts under one
/// key id, starting from an empty slot, the stored version is the greatest
/// version offered. Each call of `upsert` advances the stored version by
/// exactly `version_after_insert`, so this fold describes any such run.
pub proof fn lemma_version_monotonic(vs: Seq<int>)
    requires
        vs.len() > 0,
    ensures
        version_after_inserts(None, vs) == Some(seq_max(vs)),
    decreases vs.len(),
{
    lemma_version_fold(vs[0], vs.drop_first());
}

/// Whether a list of descriptor models carries `x`.
pub open spec fn model_nodes_has(s: Seq<model::Node>, x: model::Node) -> bool {
    exists|j: int| 0 <= j < s.len() && (#[trigger] s[j]) == x
}

/// Whether some element of a descriptor list views as `x`.
pub open spec fn seq_has_node(s: Seq<Node>, x: model::Node) -> bool {
    exists|j: int| 0 <= j < s.len() && (#[trigger] s[j])@ == x
}

/// Whether some ranked working entry carries the descriptor view `x`.
pub open spec fn work_has(s: Seq<(u16, Node)>, x: model::Node) -> bool {
    exists|t: int| 0 <= t < s.len() && (#[trigger] s[t]).1@ == x
}

/// A correct ranked selection of `want` descriptors from a table towards
/// `target`: right length, ascending rank, drawn from the table, pairwise
/// distinct, and no unreturned table descriptor ranks below a returned one.
pub open spec fn ranked_selection_ok(
    rt: RoutingTable,
    target: Seq<u8>,
    want: int,
    nodes: Seq<model::Node>,
) -> bool {
    &&& nodes.len() == (if want <= rt.entries@.len() {
        want
    } else {
        rt.entries@.len() as int
    })
    &&& forall|i: int, j: int|
        0 <= i < j < nodes.len() ==> RoutingTable::rank_of(target, nodes[i])
            <= RoutingTable::rank_of(target, nodes[j])
    &&& forall|i: int| 0 <= i < nodes.len() ==> rt.has_node(#[trigger] nodes[i])
    &&& forall|i: int, j: int| 0 <= i < j < nodes.len() ==> nodes[i] != nodes[j]
    &&& forall|i: int, x: model::Node|
        #![trigger RoutingTable::rank_of(target, x), nodes[i]]
        0 <= i < nodes.len() && rt.has_node(x) && !model_nodes_has(nodes, x)
            ==> RoutingTable::rank_of(target, x) >= RoutingTable::rank_of(target, nodes[i])
}

proof fn lemma_seq_has_views(s: Seq<Node>, x: model::Node)
    ensures
        seq_has_node(s, x) == model_nodes_has(crate::types::views_of_nodes(s), x),
{
    let vs = crate::types::views_of_nodes(s);
    if seq_has_node(s, x) {
        let j = choose|j: int| 0 <= j < s.len() && (#[trigger] s[j])@ == x;
        assert(vs[j] == x);
    }
    if model_nodes_has(vs, x) {
        let j = choose|j: int| 0 <= j < vs.len() && (#[trigger] vs[j]) == x;
        assert(s[j]@ == x);
    }
}

/// The descriptor stored under `kid` in a flat entry sequence.
pub open spec fn seq_node_of(entries: Seq<Entry>, kid: Seq<u8>) -> Option<model::Node>
    decreases entries.len(),
{
    if entries.len() == 0 {
        None
    } else if entries[0].key_id@ == kid {
        Some(entries[0].node@)
    } else {
        seq_node_of(entries.drop_first(), kid)
    }
}

impl RoutingTable {
    /// A single entry is sound: its key id is derived from its descriptor's
    /// public key and is not the local id.
    pub open spec fn entry_ok(&self, e: Entry) -> bool {
        &&& e.key_id@ == key_id_of(e.node.id@)
        &&& e.key_id@ != self.local_id@
    }

    /// Well-formed: sound entries, one per key id.
    pub open spec fn wf(&self) -> bool {
        &&& forall|i: int|
            0 <= i < self.entries@.len() ==> self.entry_ok(#[trigger] self.entries@[i])
        &&& forall|i: int, j: int|
            0 <= i < j < self.entries@.len() ==> (#[trigger] self.entries@[i]).key_id@ != (
            #[trigger] self.entries@[j]).key_id@
    }

    /// The descriptor stored under a key id.
    pub open spec fn stored_node(&self, kid: Seq<u8>) -> Option<model::Node> {
        seq_node_of(self.entries@, kid)
    }

    /// The version stored under a key id.
    pub open spec fn stored_version(&self, kid: Seq<u8>) -> Option<int> {
        match self.stored_node(kid) {
            Some(n) => Some(n.version as int),
            None => None,
        }
    }

    /// Whether some entry holds this descriptor.
    pub open spec fn has_node(&self, n: model::Node) -> bool {
        exists|j: int| 0 <= j < self.entries@.len() && (#[trigger] self.entries@[j]).node@ == n
    }

    /// An empty table for a local key id.
    pub fn new(local_id: [u8; 32]) -> (r: RoutingTable)
        ensures
            r.wf(),
            r.entries@.len() == 0,
            r.local_id == local_id,
    {
        RoutingTable { local_id, entries: Vec::new() }
    }

    /// How many peers the table holds.
    pub fn count(&self) -> (r: usize)
        ensures
            r == self.entries@.len(),
    {
        self.entries.len()
    }

    /// Insert or refresh the descriptor for a key id. The stored descriptor
    /// afterwards is the incoming one exactly when the slot was empty or
    /// held a strictly smaller version; every other key id is untouched.
    pub fn upsert(&mut self, key_id: [u8; 32], node: Node) -> (fresh: bool)
        requires
            old(self).wf(),
            key_id@ == key_id_of(node@.id),
            key_id@ != old(self).local_id@,
            old(self).entries@.len() < usize::MAX,
        ensures
            final(self).wf(),
            final(self).local_id == old(self).local_id,
            final(self).stored_node(key_id@) == upsert_result(
                old(self).stored_node(key_id@),
                node@,
            ),
            final(self).stored_version(key_id@) == version_after_insert(
                old(self).stored_version(key_id@),
                node@.version as int,
            ),
            forall|k2: Seq<u8>|
                k2 != key_id@ ==> final(self).stored_node(k2) == old(self).stored_node(k2),
            fresh == (old(self).stored_node(key_id@) is None),
            fresh ==> final(self).entries@.len() == old(self).entries@.len() + 1,
            !fresh ==> final(self).entries@.len() == old(self).entries@.len(),
    {
        let n = self.entries.len();
        let mut i: usize = 0;
        while i < n
            invariant
                0 <= i <= n,
                n == self.entries@.len(),
                self.entries@ == old(self).entries@,
                self.local_id == old(self).local_id,
                old(self).wf(),
                key_id@ == key_id_of(node@.id),
                key_id@ != old(self).local_id@,
                forall|j: int| 0 <= j < i ==> (#[trigger] old(self).entries@[j]).key_id@ != key_id@,
            decreases n - i,
        {
            if crate::types::arr32_eq(&self.entries[i].key_id, &key_id) {
                proof {
                    lemma_seq_node_skip(old(self).entries@, key_id@, i as int);
                    assert(old(self).entries@.skip(i as int)[0] == old(self).entries@[i as int]);
                    assert(old(self).stored_node(key_id@) == Some(
                        old(self).entries@[i as int].node@,
                    ));
                }
                if self.entries[i].node.version < node.version {
                    let e = Entry { key_id, node };
                    self.entries.set(i, e);
                    proof {
                        let newe = self.entries@[i as int];
                        assert forall|j: int|
                            0 <= j < old(self).entries@.len() && j != i as int implies (
                        #[trigger] old(self).entries@[j]).key_id@ != key_id@ by {
                            if j >= i as int {
                                assert(old(self).entries@[i as int].key_id@ != old(
                                    self,
                                ).entries@[j].key_id@);
                            }
                        }
                        assert forall|k2: Seq<u8>| true implies seq_node_of(self.entries@, k2)
                            == (if k2 == key_id@ {
                            Some(newe.node@)
                        } else {
                            seq_node_of(old(self).entries@, k2)
                        }) by {
                            lemma_seq_node_update(old(self).entries@, i as int, newe, k2);
                        }
                        assert forall|j: int|
                            0 <= j < self.entries@.len() implies self.entry_ok(
                            #[trigger] self.entries@[j],
                        ) by {
                            if j != i as int {
                                assert(self.entries@[j] == old(self).entries@[j]);
                                assert(old(self).entry_ok(old(self).entries@[j]));
                            }
                        }
                        assert forall|j: int, l: int|
                            0 <= j < l < self.entries@.len() implies (
                        #[trigger] self.entries@[j]).key_id@ != (#[trigger] self.entries@[l]).key_id@ by {
                            assert(old(self).entries@[j].key_id@ != old(self).entries@[l].key_id@);
                            assert(self.entries@[j].key_id@ == old(self).entries@[j].key_id@);
                            assert(self.entries@[l].key_id@ == old(self).entries@[l].key_id@);
                        }
                    }
                    return false;
                } else {
                    return false;
                }
            }
            i = i + 1;
        }
        proof {
            lemma_seq_node_skip(old(self).entries@, key_id@, n as int);
            assert(old(self).entries@.skip(n as int) =~= Seq::<Entry>::empty());
            assert(seq_node_of(Seq::<Entry>::empty(), key_id@) is None);
            assert(old(self).stored_node(key_id@) is None);
        }
        let e = Entry { key_id, node };
        self.entries.push(e);
        proof {
            let newe = self.entries@[old(self).entries@.len() as int];
            assert forall|k2: Seq<u8>| true implies seq_node_of(self.entries@, k2) == (if k2
                == key_id@ {
                Some(newe.node@)
            } else {
                seq_node_of(old(self).entries@, k2)
            }) by {
                lemma_seq_node_push(old(self).entries@, newe, k2);
            }
            assert forall|j: int|
                0 <= j < self.entries@.len() implies self.entry_ok(#[trigger] self.entries@[j]) by {
                if j < old(self).entries@.len() {
                    assert(self.entries@[j] == old(self).entries@[j]);
                    assert(old(self).entry_ok(old(self).entries@[j]));
                }
            }
            assert forall|j: int, l: int|
                0 <= j < l < self.entries@.len() implies (#[trigger] self.entries@[j]).key_id@ != (
            #[trigger] self.entries@[l]).key_id@ by {
                if l < old(self).entries@.len() {
                    assert(old(self).entries@[j].key_id@ != old(self).entries@[l].key_id@);
                } else {
                    assert(self.entries@[l] == newe);
                    assert(old(self).entries@[j].key_id@ != key_id@);
                }
            }
        }
        true
    }
}

proof fn lemma_seq_node_skip(entries: Seq<Entry>, kid: Seq<u8>, i: int)
    requires
        0 <= i <= entries.len(),
        forall|j: int| 0 <= j < i ==> (#[trigger] entries[j]).key_id@ != kid,
    ensures
        seq_node_of(entries, kid) == seq_node_of(entries.skip(i), kid),
    decreases i,
{
    if i > 0 {
        lemma_seq_node_skip(entries, kid, i - 1);
        assert(entries.skip(i - 1)[0] == entries[i - 1]);
        assert(entries.skip(i - 1).drop_first() =~= entries.skip(i));
    } else {
        assert(entries.skip(0) =~= entries);
    }
}

proof fn lemma_seq_node_update(entries: Seq<Entry>, i: int, e: Entry, kid2: Seq<u8>)
    requires
        0 <= i < entries.len(),
        entries[i].key_id@ == e.key_id@,
        forall|j: int|
            0 <= j < entries.len() && j != i ==> (#[trigger] entries[j]).key_id@ != e.key_id@,
    ensures
        seq_node_of(entries.update(i, e), kid2) == if kid2 == e.key_id@ {
            Some(e.node@)
        } else {
            seq_node_of(entries, kid2)
        },
    decreases entries.len(),
{
    let upd = entries.update(i, e);
    assert(upd.len() == entries.len());
    if i == 0 {
        assert(upd[0] == e);
        assert(upd.drop_first() =~= entries.drop_first());
    } else {
        assert(upd[0] == entries[0]);
        assert(upd.drop_first() =~= entries.drop_first().update(i - 1, e));
        assert forall|j: int|
            0 <= j < entries.drop_first().len() && j != i - 1 implies (#[trigger] entries
            .drop_first()[j]).key_id@ != e.key_id@ by {
            assert(entries.drop_first()[j] == entries[j + 1]);
        }
        lemma_seq_node_update(entries.drop_first(), i - 1, e, kid2);
    }
}

proof fn lemma_seq_node_push(entries: Seq<Entry>, e: Entry, kid2: Seq<u8>)
    requires
        seq_node_of(entries, e.key_id@) is None,
    ensures
        seq_node_of(entries.push(e), kid2) == if kid2 == e.key_id@ {
            Some(e.node@)
        } else {
            seq_node_of(entries, kid2)
        },
    decreases entries.len(),
{
    let p = entries.push(e);
    if entries.len() == 0 {
        assert(p[0] == e);
        assert(p.drop_first() =~= Seq::<Entry>::empty());
        assert(seq_node_of(Seq::<Entry>::empty(), kid2) is None);
    } else {
        assert(p[0] == entries[0]);
        assert(p.drop_first() =~= entries.drop_first().push(e));
        lemma_seq_node_push(entries.drop_first(), e, kid2);
    }
}


impl RoutingTable {
    /// The rank of a descriptor relative to a target key: the count of
    /// leading bits its key id shares with the target.
    pub open spec fn rank_of(target: Seq<u8>, n: model::Node) -> int {
        matching_bits(target, key_id_of(n.id))
    }

    /// Up to `k` peers ordered by XOR distance to `target`: ascending count
    /// of leading matching bits, ties in a fixed traversal order.
    pub fn find_k_closest(&self, target: &[u8; 32], k: usize) -> (r: Vec<Node>)
        requires
            self.wf(),
        ensures
            r@.len() == (if k <= self.entries@.len() {
                k as int
            } else {
                self.entries@.len() as int
            }),
            forall|i: int, j: int|
                0 <= i < j < r@.len() ==> Self::rank_of(target@, r@[i]@) <= Self::rank_of(
                    target@,
                    r@[j]@,
                ),
            forall|i: int| 0 <= i < r@.len() ==> self.has_node(#[trigger] r@[i]@),
            forall|i: int, j: int| 0 <= i < j < r@.len() ==> r@[i]@ != r@[j]@,
            forall|i: int, x: model::Node|
                #![trigger Self::rank_of(target@, x), r@[i]]
                0 <= i < r@.len() && self.has_node(x) && !seq_has_node(r@, x) ==> Self::rank_of(
                    target@,
                    x,
                ) >= Self::rank_of(target@, r@[i]@),
            ranked_selection_ok(*self, target@, k as int, crate::types::views_of_nodes(r@)),
    {
        proof {
            assert forall|a: int, b: int|
                0 <= a < b < self.entries@.len() implies (#[trigger] self.entries@[a]).node@ != (
            #[trigger] self.entries@[b]).node@ by {
                assert(self.entry_ok(self.entries@[a]));
                assert(self.entry_ok(self.entries@[b]));
            }
        }
        let total = self.entries.len();
        let mut work: Vec<(u16, Node)> = Vec::new();
        let mut i: usize = 0;
        while i < total
            invariant
                self.wf(),
                0 <= i <= total,
                total == self.entries@.len(),
                work@.len() == i,
                forall|t: int| 0 <= t < i ==> (#[trigger] work@[t]).1@ == self.entries@[t].node@,
                forall|t: int|
                    0 <= t < work@.len() ==> (#[trigger] work@[t]).0 as int == Self::rank_of(
                        target@,
                        work@[t].1@,
                    ) && self.has_node(work@[t].1@),
            decreases total - i,
        {
            let d = key_distance(target, &self.entries[i].key_id);
            let nd = clone_node(&self.entries[i].node);
            proof {
                assert(self.entry_ok(self.entries@[i as int]));
                assert(self.has_node(self.entries@[i as int].node@));
            }
            work.push((d, nd));
            i = i + 1;
        }
        proof {
            assert forall|a: int, b: int|
                0 <= a < b < self.entries@.len() implies (#[trigger] self.entries@[a]).node@ != (
            #[trigger] self.entries@[b]).node@ by {
                assert(self.entry_ok(self.entries@[a]));
                assert(self.entry_ok(self.entries@[b]));
            }
            assert forall|x: model::Node| #[trigger]
                self.has_node(x) implies work_has(work@, x) by {
                let j = choose|j: int|
                    0 <= j < self.entries@.len() && (#[trigger] self.entries@[j]).node@ == x;
                assert(work@[j].1@ == x);
            }
        }
        let mut r: Vec<Node> = Vec::new();
        while r.len() < k && work.len() > 0
            invariant
                self.wf(),
                total == self.entries@.len(),
                r@.len() + work@.len() == total,
                r@.len() <= k,
                forall|t: int|
                    0 <= t < work@.len() ==> (#[trigger] work@[t]).0 as int == Self::rank_of(
                        target@,
                        work@[t].1@,
                    ) && self.has_node(work@[t].1@),
                forall|a: int| 0 <= a < r@.len() ==> self.has_node(#[trigger] r@[a]@),
                forall|a: int, b: int|
                    0 <= a < b < r@.len() ==> Self::rank_of(target@, r@[a]@) <= Self::rank_of(
                        target@,
                        r@[b]@,
                    ),
                forall|a: int, t: int|
                    #![trigger r@[a], work@[t]]
                    0 <= a < r@.len() && 0 <= t < work@.len() ==> Self::rank_of(target@, r@[a]@)
                        <= work@[t].0 as int,
                forall|a: int, b: int| 0 <= a < b < r@.len() ==> r@[a]@ != r@[b]@,
                forall|t: int, u: int|
                    0 <= t < u < work@.len() ==> (#[trigger] work@[t]).1@ != (
                    #[trigger] work@[u]).1@,
                forall|a: int, t: int|
                    #![trigger r@[a], work@[t]]
                    0 <= a < r@.len() && 0 <= t < work@.len() ==> r@[a]@ != work@[t].1@,
                forall|x: model::Node| #[trigger]
                    self.has_node(x) ==> seq_has_node(r@, x) || work_has(work@, x),
            decreases k - r@.len(),
        {
            let mut m: usize = 0;
            let mut j: usize = 1;
            while j < work.len()
                invariant
                    work@.len() > 0,
                    0 <= m < work@.len(),
                    1 <= j <= work@.len(),
                    forall|t: int| 0 <= t < j ==> work@[m as int].0 <= (#[trigger] work@[t]).0,
                decreases work@.len() - j,
            {
                if work[j].0 < work[m].0 {
                    m = j;
                }
                j = j + 1;
            }
            let ghost prework = work@;
            let picked = work.remove(m);
            let ghost prer = r@;
            r.push(picked.1);
            proof {
                assert(work@ =~= prework.remove(m as int));
                assert(picked == prework[m as int]);
                assert(r@ == prer.push(picked.1));
                assert(Self::rank_of(target@, picked.1@) == picked.0 as int);
                assert forall|t: int|
                    0 <= t < work@.len() implies (#[trigger] work@[t]).0 as int == Self::rank_of(
                    target@,
                    work@[t].1@,
                ) && self.has_node(work@[t].1@) && picked.0 <= work@[t].0 by {
                    if t < m as int {
                        assert(work@[t] == prework[t]);
                    } else {
                        assert(work@[t] == prework[t + 1]);
                    }
                }
                assert forall|a: int, b: int| 0 <= a < b < r@.len() implies r@[a]@ != r@[b]@ by {
                    if b == prer.len() as int {
                        assert(r@[b] == picked.1);
                        assert(prer[a]@ != prework[m as int].1@);
                    }
                }
                assert forall|t: int, u: int|
                    0 <= t < u < work@.len() implies (#[trigger] work@[t]).1@ != (
                #[trigger] work@[u]).1@ by {
                    let t0: int = if t < m as int {
                        t
                    } else {
                        t + 1
                    };
                    let u0: int = if u < m as int {
                        u
                    } else {
                        u + 1
                    };
                    assert(work@[t] == prework[t0] && work@[u] == prework[u0]);
                }
                assert forall|a: int, t: int|
                    #![trigger r@[a], work@[t]]
                    0 <= a < r@.len() && 0 <= t < work@.len() implies r@[a]@ != work@[t].1@ by {
                    let t0: int = if t < m as int {
                        t
                    } else {
                        t + 1
                    };
                    assert(work@[t] == prework[t0]);
                    if a < prer.len() as int {
                        assert(prer[a]@ != prework[t0].1@);
                    } else {
                        assert(r@[a] == picked.1);
                        assert(prework[m as int].1@ != prework[t0].1@);
                    }
                }
                assert forall|x: model::Node| #[trigger]
                    self.has_node(x) implies seq_has_node(r@, x) || work_has(work@, x) by {
                    if seq_has_node(prer, x) {
                        let a = choose|a: int| 0 <= a < prer.len() && (#[trigger] prer[a])@ == x;
                        assert(r@[a]@ == x);
                    } else if work_has(prework, x) {
                        let t = choose|t: int|
                            0 <= t < prework.len() && (#[trigger] prework[t]).1@ == x;
                        if t == m as int {
                            assert(r@[prer.len() as int]@ == x);
                        } else if t < m as int {
                            assert(work@[t].1@ == x);
                        } else {
                            assert(work@[t - 1].1@ == x);
                        }
                    }
                }
            }
        }
        proof {
            assert forall|i: int, x: model::Node|
                #![trigger Self::rank_of(target@, x), r@[i]]
                0 <= i < r@.len() && self.has_node(x) && !seq_has_node(r@, x) implies Self::rank_of(
                target@,
                x,
            ) >= Self::rank_of(target@, r@[i]@) by {
                assert(work_has(work@, x));
                let t = choose|t: int| 0 <= t < work@.len() && (#[trigger] work@[t]).1@ == x;
                assert(work@[t].0 as int == Self::rank_of(target@, x));
                assert(Self::rank_of(target@, r@[i]@) <= work@[t].0 as int);
            }
            let vs = crate::types::views_of_nodes(r@);
            assert forall|i: int, x: model::Node|
                #![trigger Self::rank_of(target@, x), vs[i]]
                0 <= i < vs.len() && self.has_node(x) && !model_nodes_has(vs, x)
                    implies Self::rank_of(target@, x) >= Self::rank_of(target@, vs[i]) by {
                lemma_seq_has_views(r@, x);
                assert(vs[i] == r@[i]@);
            }
            assert forall|i: int, j: int| 0 <= i < j < vs.len() implies vs[i] != vs[j] by {
                assert(vs[i] == r@[i]@ && vs[j] == r@[j]@);
            }
            assert forall|i: int, j: int|
                0 <= i < j < vs.len() implies Self::rank_of(target@, vs[i]) <= Self::rank_of(
                target@,
                vs[j],
            ) by {
                assert(vs[i] == r@[i]@ && vs[j] == r@[j]@);
            }
            assert forall|i: int| 0 <= i < vs.len() implies self.has_node(#[trigger] vs[i]) by {
                assert(vs[i] == r@[i]@);
            }
        }
        r
    }

    /// The first `limit` known descriptors in bucket order: ascending count
    /// of bits shared with the local key id. Asking for none is refused.
    pub fn get_known_nodes(&self, limit: usize) -> (r: Result<
        Vec<Node>,
        crate::types::DhtError,
    >)
        requires
            self.wf(),
        ensures
            (limit == 0) <==> (r is Err),
            r matches Err(e) ==> e == crate::types::DhtError::Unsupported,
            r matches Ok(v) ==> {
                &&& v@.len() == (if limit <= self.entries@.len() {
                    limit as int
                } else {
                    self.entries@.len() as int
                })
                &&& forall|i: int, j: int|
                    0 <= i < j < v@.len() ==> Self::rank_of(self.local_id@, v@[i]@)
                        <= Self::rank_of(self.local_id@, v@[j]@)
                &&& forall|i: int| 0 <= i < v@.len() ==> self.has_node(#[trigger] v@[i]@)
                &&& forall|i: int, j: int| 0 <= i < j < v@.len() ==> v@[i]@ != v@[j]@
                &&& forall|i: int, x: model::Node|
                    #![trigger Self::rank_of(self.local_id@, x), v@[i]]
                    0 <= i < v@.len() && self.has_node(x) && !seq_has_node(v@, x)
                        ==> Self::rank_of(self.local_id@, x) >= Self::rank_of(
                        self.local_id@,
                        v@[i]@,
                    )
                &&& ranked_selection_ok(
                    *self,
                    self.local_id@,
                    limit as int,
                    crate::types::views_of_nodes(v@),
                )
            },
    {
        if limit == 0 {
            return Err(crate::types::DhtError::Unsupported);
        }
        let t = self.local_id;
        Ok(self.find_k_closest(&t, limit))
    }
}

} // verus!

