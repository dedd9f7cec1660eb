//! The keyed, signed, typed storage engine.
//!
//! Records live in a concurrent map from 32-byte key hashes to values; the
//! map itself is dashmap's, taken on trust through named contents, while
//! both update rules — ttl-monotonic signed replacement and the overlay
//! node merge — are verified against an exact functional outcome.

use vstd::prelude::*;

use std::collections::hash_map::RandomState;

use crate::codec::{dec_payload_full, enc_payload, deserialize_payload, serialize_payload};
use crate::crypto::{key_id_of, overlay_node_verified, value_verified, verify_value_signatures};
use crate::model;
use crate::types::{clone_value, DhtError, OverlayNode, Payload, Value};

verus! {

#[verifier::external_type_specification]
#[verifier::external_body]
#[verifier::reject_recursive_types(K)]
#[verifier::reject_recursive_types(V)]
#[verifier::reject_recursive_types(S)]
pub struct ExDashMap<K, V, S>(dashmap::DashMap<K, V, S>);

pub type ValueMap = dashmap::DashMap<[u8; 32], Value, RandomState>;

/// What the concurrent map holds: key bytes to records.
pub uninterp spec fn stored_map(m: ValueMap) -> Map<Seq<u8>, model::Value>;

/// Relies on dashmap::DashMap::new: a fresh map holds nothing.
#[verifier::external_body]
fn value_map_new() -> (r: ValueMap)
    ensures
        forall|h: Seq<u8>| !stored_map(r).contains_key(h),
{
    dashmap::DashMap::new()
}

/// Relies on dashmap::DashMap::get: the record stored under the key, if
/// any, cloned out of the map.
#[verifier::external_body]
fn value_map_get(m: &ValueMap, k: &[u8; 32]) -> (r: Option<Value>)
    ensures
        r matches Some(v) ==> stored_map(*m).contains_key(k@) && v@ == stored_map(*m)[k@],
        r is None ==> !stored_map(*m).contains_key(k@),
{
    m.get(k).map(|e| e.value().clone())
}

/// Relies on dashmap::DashMap::insert: the map afterwards holds the record
/// under the key, every other key untouched.
#[verifier::external_body]
fn value_map_insert(m: &mut ValueMap, k: [u8; 32], v: Value)
    ensures
        stored_map(*final(m)) == stored_map(*old(m)).insert(k@, v@),
{
    m.insert(k, v);
}

/// The structured key under which an overlay publishes its member list.
pub open spec fn nodes_dht_key(short_id: Seq<u8>) -> model::DhtKey {
    model::DhtKey { id: short_id, idx: 0, name: nodes_name() }
}

/// The bytes of the key name `nodes`.
pub open spec fn nodes_name() -> Seq<u8> {
    seq![110u8, 111u8, 100u8, 101u8, 115u8]
}

/// The executable form of the key name `nodes`.
pub fn nodes_name_bytes() -> (r: Vec<u8>)
    ensures
        r@ == nodes_name(),
{
    let mut v: Vec<u8> = Vec::new();
    v.push(110);
    v.push(111);
    v.push(100);
    v.push(101);
    v.push(115);
    proof {
        assert(v@ =~= nodes_name());
    }
    v
}

/// The overlay nodes among `nodes` that verify for the overlay `short_id`,
/// in their original order.
pub open spec fn filtered_valid(nodes: Seq<model::OverlayNode>, short_id: Seq<u8>) -> Seq<
    model::OverlayNode,
>
    decreases nodes.len(),
{
    if nodes.len() == 0 {
        Seq::empty()
    } else {
        (if overlay_node_verified(nodes[0], short_id) {
            seq![nodes[0]]
        } else {
            Seq::empty()
        }) + filtered_valid(nodes.drop_first(), short_id)
    }
}

/// The first position in `s` holding an overlay node with this id, or -1.
pub open spec fn find_id(s: Seq<model::OverlayNode>, id: model::PublicKey) -> int
    decreases s.len(),
{
    if s.len() == 0 {
        -1
    } else if s[0].id == id {
        0
    } else {
        let t = find_id(s.drop_first(), id);
        if t == -1 {
            -1
        } else {
            t + 1
        }
    }
}

/// Merge incoming overlay nodes into a stored list: a known id is replaced
/// only by a strictly greater version, and one stale incoming node makes
/// the whole store a no-op; unknown ids are appended.
pub open spec fn merge_nodes(cur: Seq<model::OverlayNode>, new: Seq<model::OverlayNode>) -> Option<
    Seq<model::OverlayNode>,
>
    decreases new.len(),
{
    if new.len() == 0 {
        Some(cur)
    } else {
        let n0 = new[0];
        let i = find_id(cur, n0.id);
        if i >= 0 {
            if n0.version > cur[i].version {
                merge_nodes(cur.update(i, n0), new.drop_first())
            } else {
                None
            }
        } else {
            merge_nodes(cur.push(n0), new.drop_first())
        }
    }
}

/// The exact outcome of a signed store: result and map afterwards.
pub open spec fn signed_store_outcome(
    m: Map<Seq<u8>, model::Value>,
    hash: Seq<u8>,
    v: model::Value,
    now: i64,
) -> (Result<bool, DhtError>, Map<Seq<u8>, model::Value>) {
    if v.ttl <= now {
        (Err(DhtError::Expired), m)
    } else if !value_verified(v) {
        (Err(DhtError::SignatureInvalid), m)
    } else if !m.contains_key(hash) || m[hash].ttl < v.ttl {
        (Ok(true), m.insert(hash, v))
    } else {
        (Ok(false), m)
    }
}

/// The exact outcome of an overlay-nodes store: result and map afterwards.
pub open spec fn overlay_store_outcome(
    m: Map<Seq<u8>, model::Value>,
    hash: Seq<u8>,
    v: model::Value,
    now: i64,
) -> (Result<bool, DhtError>, Map<Seq<u8>, model::Value>) {
    if v.signature.len() != 0 || v.key.signature.len() != 0 {
        (Err(DhtError::SignatureInvalid), m)
    } else if !(v.key.id is Overlay) {
        (Err(DhtError::MalformedMessage), m)
    } else if v.key.key != nodes_dht_key(key_id_of(v.key.id)) {
        (Err(DhtError::MalformedMessage), m)
    } else {
        let short = key_id_of(v.key.id);
        match dec_payload_full(v.value) {
            Some(model::Payload::OverlayNodes { nodes }) => {
                let valid = filtered_valid(nodes, short);
                if valid.len() == 0 {
                    (Err(DhtError::MalformedMessage), m)
                } else if m.contains_key(hash) && m[hash].ttl > now && m[hash].ttl > v.ttl {
                    (Ok(false), m)
                } else {
                    let cur = if m.contains_key(hash) && m[hash].ttl > now {
                        match dec_payload_full(m[hash].value) {
                            Some(model::Payload::OverlayNodes { nodes: on }) => Some(on),
                            _ => None,
                        }
                    } else {
                        Some(Seq::empty())
                    };
                    match cur {
                        None => (Err(DhtError::Internal), m),
                        Some(on) => match merge_nodes(on, valid) {
                            None => (Ok(false), m),
                            Some(merged) => {
                                let v2 = model::Value {
                                    value: enc_payload(
                                        model::Payload::OverlayNodes { nodes: merged },
                                    ),
                                    ..v
                                };
                                (Ok(true), m.insert(hash, v2))
                            },
                        },
                    }
                }
            },
            _ => (Err(DhtError::MalformedMessage), m),
        }
    }
}

/// Two maps hold the same thing at a key.
pub open spec fn maps_agree_at(
    m1: Map<Seq<u8>, model::Value>,
    m2: Map<Seq<u8>, model::Value>,
    k: Seq<u8>,
) -> bool {
    &&& m2.contains_key(k) == m1.contains_key(k)
    &&& m1.contains_key(k) ==> m2[k] == m1[k]
}

/// The storage engine.
pub struct Storage {
    map: ValueMap,
}

impl Storage {
    /// The records held, keyed by 32-byte hash.
    pub closed spec fn view_map(&self) -> Map<Seq<u8>, model::Value> {
        stored_map(self.map)
    }

    /// An empty store.
    pub fn new() -> (r: Storage)
        ensures
            r.view_map() == Map::<Seq<u8>, model::Value>::empty(),
    {
        let r = Storage { map: value_map_new() };
        proof {
            assert(r.view_map() =~= Map::<Seq<u8>, model::Value>::empty());
        }
        r
    }

    /// The record under `hash`, unless it is absent or expired.
    pub fn get(&self, hash: &[u8; 32], now: i64) -> (r: Option<Value>)
        ensures
            (r is Some) == (self.view_map().contains_key(hash@) && self.view_map()[hash@].ttl
                > now),
            r matches Some(v) ==> v@ == self.view_map()[hash@],
    {
        match value_map_get(&self.map, hash) {
            Some(v) => {
                if v.ttl > now {
                    Some(v)
                } else {
                    None
                }
            },
            None => None,
        }
    }

    /// Apply a store under the signature rule: rejected when expired or
    /// unverifiable, replacing an absent or shorter-lived record otherwise.
    /// The stored ttl for a hash never decreases.
    pub fn process_store_signed_value(&mut self, hash: [u8; 32], value: Value, now: i64) -> (r:
        Result<bool, DhtError>)
        ensures
            ({
                let outcome = signed_store_outcome(old(self).view_map(), hash@, value@, now);
                r == outcome.0 && final(self).view_map() == outcome.1
            }),
            old(self).view_map().contains_key(hash@) && final(self).view_map().contains_key(hash@)
                ==> final(self).view_map()[hash@].ttl >= old(self).view_map()[hash@].ttl,
            value@.ttl <= now ==> final(self).view_map() == old(self).view_map(),
            forall|h2: Seq<u8>|
                h2 != hash@ ==> maps_agree_at(old(self).view_map(), final(self).view_map(), h2),
    {
        if value.ttl <= now {
            return Err(DhtError::Expired);
        }
        if !verify_value_signatures(&value) {
            return Err(DhtError::SignatureInvalid);
        }
        let replace = match value_map_get(&self.map, &hash) {
            Some(cur) => cur.ttl < value.ttl,
            None => true,
        };
        if replace {
            value_map_insert(&mut self.map, hash, value);
            Ok(true)
        } else {
            Ok(false)
        }
    }

    /// Apply a store under the overlay-nodes rule: unsigned, keyed by the
    /// overlay's derived id, merged member-wise with what is stored.
    #[verifier::rlimit(60)]
    pub fn process_store_overlay_nodes(&mut self, hash: [u8; 32], value: Value, now: i64) -> (r:
        Result<bool, DhtError>)
        ensures
            ({
                let outcome = overlay_store_outcome(old(self).view_map(), hash@, value@, now);
                r == outcome.0 && final(self).view_map() == outcome.1
            }),
            forall|h2: Seq<u8>|
                h2 != hash@ ==> maps_agree_at(old(self).view_map(), final(self).view_map(), h2),
    {
        if value.signature.len() != 0 || value.key.signature.len() != 0 {
            return Err(DhtError::SignatureInvalid);
        }
        let is_overlay = match &value.key.id {
            crate::types::PublicKey::Overlay { .. } => true,
            _ => false,
        };
        if !is_overlay {
            return Err(DhtError::MalformedMessage);
        }
        let short = crate::crypto::key_id(&value.key.id);
        let name = nodes_name_bytes();
        let key_matches = crate::types::arr32_eq(&value.key.key.id, &short) && value.key.key.idx
            == 0 && crate::types::bytes_eq(&value.key.key.name, &name);
        proof {
            assert(key_matches == (value@.key.key == nodes_dht_key(key_id_of(value@.key.id))));
        }
        if !key_matches {
            return Err(DhtError::MalformedMessage);
        }
        let nodes = match crate::codec::deserialize_payload(&value.value) {
            Some(Payload::OverlayNodes { nodes }) => nodes,
            _ => {
                return Err(DhtError::MalformedMessage);
            },
        };
        let valid = filter_valid_nodes(&short, &nodes);
        if valid.len() == 0 {
            return Err(DhtError::MalformedMessage);
        }
        let cur_rec = value_map_get(&self.map, &hash);
        let fresh_cur = match &cur_rec {
            Some(c) => c.ttl > now,
            None => false,
        };
        match &cur_rec {
            Some(c) => {
                if c.ttl > now && c.ttl > value.ttl {
                    return Ok(false);
                }
            },
            None => {},
        }
        let cur_nodes: Vec<OverlayNode> = if fresh_cur {
            let c = match &cur_rec {
                Some(c) => c,
                None => {
                    return Err(DhtError::Internal);
                },
            };
            match crate::codec::deserialize_payload(&c.value) {
                Some(Payload::OverlayNodes { nodes }) => nodes,
                _ => {
                    return Err(DhtError::Internal);
                },
            }
        } else {
            Vec::new()
        };
        proof {
            if !fresh_cur {
                assert(crate::types::views_of_overlay_nodes(Seq::<OverlayNode>::empty())
                    =~= Seq::<model::OverlayNode>::empty());
            }
        }
        let merged = match merge_overlay_lists(&cur_nodes, &valid) {
            Some(m) => m,
            None => {
                return Ok(false);
            },
        };
        let new_payload = crate::codec::serialize_payload(&(Payload::OverlayNodes {
            nodes: merged,
        }));
        let v2 = Value {
            key: crate::types::clone_key_description(&value.key),
            value: new_payload,
            ttl: value.ttl,
            signature: crate::types::clone_bytes(&value.signature),
        };
        value_map_insert(&mut self.map, hash, v2);
        Ok(true)
    }
}


proof fn lemma_filtered_valid_snoc(s: Seq<model::OverlayNode>, x: model::OverlayNode, oid: Seq<u8>)
    ensures
        filtered_valid(s.push(x), oid) == filtered_valid(s, oid) + (if overlay_node_verified(
            x,
            oid,
        ) {
            seq![x]
        } else {
            Seq::<model::OverlayNode>::empty()
        }),
    decreases s.len(),
{
    let tail = (if overlay_node_verified(x, oid) {
        seq![x]
    } else {
        Seq::<model::OverlayNode>::empty()
    });
    if s.len() == 0 {
        assert(s.push(x)[0] == x);
        assert(s.push(x).drop_first() =~= Seq::<model::OverlayNode>::empty());
        assert(filtered_valid(Seq::<model::OverlayNode>::empty(), oid)
            =~= Seq::<model::OverlayNode>::empty());
        assert(filtered_valid(s.push(x), oid) =~= tail);
        assert(filtered_valid(s, oid) + tail =~= tail);
    } else {
        assert(s.push(x)[0] == s[0]);
        assert(s.push(x).drop_first() =~= s.drop_first().push(x));
        lemma_filtered_valid_snoc(s.drop_first(), x, oid);
        let h = (if overlay_node_verified(s[0], oid) {
            seq![s[0]]
        } else {
            Seq::<model::OverlayNode>::empty()
        });
        assert(filtered_valid(s.push(x), oid) == h + (filtered_valid(s.drop_first(), oid) + tail));
        assert(h + (filtered_valid(s.drop_first(), oid) + tail) =~= (h + filtered_valid(
            s.drop_first(),
            oid,
        )) + tail);
    }
}

proof fn lemma_find_id_at(s: Seq<model::OverlayNode>, id: model::PublicKey, j: int)
    requires
        0 <= j < s.len(),
        s[j].id == id,
        forall|t: int| 0 <= t < j ==> (#[trigger] s[t]).id != id,
    ensures
        find_id(s, id) == j,
    decreases j,
{
    if j > 0 {
        assert forall|t: int| 0 <= t < j - 1 implies (#[trigger] s.drop_first()[t]).id != id by {
            assert(s.drop_first()[t] == s[t + 1]);
        }
        assert(s.drop_first()[j - 1] == s[j]);
        lemma_find_id_at(s.drop_first(), id, j - 1);
    }
}

proof fn lemma_find_id_none(s: Seq<model::OverlayNode>, id: model::PublicKey)
    requires
        forall|t: int| 0 <= t < s.len() ==> (#[trigger] s[t]).id != id,
    ensures
        find_id(s, id) == -1,
    decreases s.len(),
{
    if s.len() > 0 {
        assert forall|t: int|
            0 <= t < s.drop_first().len() implies (#[trigger] s.drop_first()[t]).id != id by {
            assert(s.drop_first()[t] == s[t + 1]);
        }
        lemma_find_id_none(s.drop_first(), id);
    }
}

/// Keep the overlay nodes that verify for `short`, in order.
fn filter_valid_nodes(short: &[u8; 32], nodes: &Vec<OverlayNode>) -> (r: Vec<OverlayNode>)
    ensures
        crate::types::views_of_overlay_nodes(r@) == filtered_valid(
            crate::types::views_of_overlay_nodes(nodes@),
            short@,
        ),
{
    let ghost nv = crate::types::views_of_overlay_nodes(nodes@);
    let mut r: Vec<OverlayNode> = Vec::new();
    let mut i: usize = 0;
    while i < nodes.len()
        invariant
            0 <= i <= nodes@.len(),
            nv == crate::types::views_of_overlay_nodes(nodes@),
            nv.len() == nodes@.len(),
            crate::types::views_of_overlay_nodes(r@) == filtered_valid(nv.take(i as int), short@),
        decreases nodes@.len() - i,
    {
        let ghost pre = nv.take(i as int);
        let ghost rv = crate::types::views_of_overlay_nodes(r@);
        if crate::crypto::verify_overlay_node(short, &nodes[i]) {
            r.push(crate::types::clone_overlay_node(&nodes[i]));
            proof {
                assert(crate::types::views_of_overlay_nodes(r@) =~= rv.push(nv[i as int]));
            }
        }
        proof {
            assert(nv.take(i + 1) =~= pre.push(nv[i as int]));
            lemma_filtered_valid_snoc(pre, nv[i as int], short@);
            assert(nodes@[i as int]@ == nv[i as int]);
            if overlay_node_verified(nv[i as int], short@) {
                assert(crate::types::views_of_overlay_nodes(r@) =~= filtered_valid(pre, short@)
                    + seq![nv[i as int]]);
            } else {
                assert(filtered_valid(pre, short@) + Seq::<model::OverlayNode>::empty()
                    =~= filtered_valid(pre, short@));
            }
        }
        i = i + 1;
    }
    proof {
        assert(nv.take(nv.len() as int) =~= nv);
    }
    r
}

/// Merge incoming nodes into the current list as `merge_nodes` describes;
/// the whole merge is refused if any incoming node is stale.
fn merge_overlay_lists(cur: &Vec<OverlayNode>, add: &Vec<OverlayNode>) -> (r: Option<
    Vec<OverlayNode>,
>)
    ensures
        r matches Some(v) ==> merge_nodes(
            crate::types::views_of_overlay_nodes(cur@),
            crate::types::views_of_overlay_nodes(add@),
        ) == Some(crate::types::views_of_overlay_nodes(v@)),
        r is None ==> merge_nodes(
            crate::types::views_of_overlay_nodes(cur@),
            crate::types::views_of_overlay_nodes(add@),
        ) is None,
{
    let ghost on0 = crate::types::views_of_overlay_nodes(cur@);
    let ghost av = crate::types::views_of_overlay_nodes(add@);
    let mut work: Vec<OverlayNode> = Vec::new();
    let mut t: usize = 0;
    while t < cur.len()
        invariant
            0 <= t <= cur@.len(),
            crate::types::views_of_overlay_nodes(work@) == crate::types::views_of_overlay_nodes(
                cur@,
            ).take(t as int),
        decreases cur@.len() - t,
    {
        let ghost wv0 = crate::types::views_of_overlay_nodes(work@);
        work.push(crate::types::clone_overlay_node(&cur[t]));
        proof {
            assert(crate::types::views_of_overlay_nodes(work@) =~= wv0.push(
                crate::types::views_of_overlay_nodes(cur@)[t as int],
            ));
            assert(crate::types::views_of_overlay_nodes(cur@).take(t + 1)
                =~= crate::types::views_of_overlay_nodes(cur@).take(t as int).push(
                crate::types::views_of_overlay_nodes(cur@)[t as int],
            ));
        }
        t = t + 1;
    }
    proof {
        assert(on0.take(on0.len() as int) =~= on0);
        assert(av.skip(0) =~= av);
    }
    let mut i: usize = 0;
    while i < add.len()
        invariant
            0 <= i <= add@.len(),
            av == crate::types::views_of_overlay_nodes(add@),
            av.len() == add@.len(),
            on0 == crate::types::views_of_overlay_nodes(cur@),
            merge_nodes(on0, av) == merge_nodes(
                crate::types::views_of_overlay_nodes(work@),
                av.skip(i as int),
            ),
        decreases add@.len() - i,
    {
        let ghost wv = crate::types::views_of_overlay_nodes(work@);
        proof {
            assert(av.skip(i as int)[0] == av[i as int]);
            assert(av.skip(i as int).drop_first() =~= av.skip(i as int + 1));
            assert(add@[i as int]@ == av[i as int]);
        }
        let n = add.len();
        let wlen = work.len();
        let mut j: usize = 0;
        let mut found: bool = false;
        while j < wlen && !found
            invariant
                0 <= j <= wlen,
                wlen == work@.len(),
                wv == crate::types::views_of_overlay_nodes(work@),
                wv.len() == work@.len(),
                i < add@.len(),
                av.len() == add@.len(),
                av == crate::types::views_of_overlay_nodes(add@),
                !found ==> forall|t: int| 0 <= t < j ==> (#[trigger] wv[t]).id != av[i as int].id,
                found ==> j < wlen && wv[j as int].id == av[i as int].id && (forall|t: int|
                    0 <= t < j ==> (#[trigger] wv[t]).id != av[i as int].id),
            decreases wlen - j + (if found {
                0int
            } else {
                1int
            }),
        {
            if crate::types::pubkey_eq(&work[j].id, &add[i].id) {
                found = true;
            } else {
                j = j + 1;
            }
        }
        if found {
            proof {
                lemma_find_id_at(wv, av[i as int].id, j as int);
            }
            if add[i].version > work[j].version {
                work.set(j, crate::types::clone_overlay_node(&add[i]));
                proof {
                    assert(crate::types::views_of_overlay_nodes(work@) =~= wv.update(
                        j as int,
                        av[i as int],
                    ));
                }
            } else {
                proof {
                    assert(merge_nodes(wv, av.skip(i as int)) is None);
                }
                return None;
            }
        } else {
            proof {
                lemma_find_id_none(wv, av[i as int].id);
            }
            work.push(crate::types::clone_overlay_node(&add[i]));
            proof {
                assert(crate::types::views_of_overlay_nodes(work@) =~= wv.push(av[i as int]));
            }
        }
        i = i + 1;
    }
    proof {
        assert(av.skip(av.len() as int) =~= Seq::<model::OverlayNode>::empty());
        assert(merge_nodes(
            crate::types::views_of_overlay_nodes(work@),
            Seq::<model::OverlayNode>::empty(),
        ) == Some(crate::types::views_of_overlay_nodes(work@)));
    }
    Some(work)
}


/// No two entries of an overlay member list share an id.
pub open spec fn unique_ids(s: Seq<model::OverlayNode>) -> bool {
    forall|i: int, j: int|
        0 <= i < j < s.len() ==> (#[trigger] s[i]).id != (#[trigger] s[j]).id
}

/// Whether a member list carries exactly this node.
pub open spec fn list_has(s: Seq<model::OverlayNode>, n: model::OverlayNode) -> bool
    decreases s.len(),
{
    if s.len() == 0 {
        false
    } else {
        s[0] == n || list_has(s.drop_first(), n)
    }
}

proof fn lemma_list_has_index(s: Seq<model::OverlayNode>, j: int)
    requires
        0 <= j < s.len(),
    ensures
        list_has(s, s[j]),
    decreases j,
{
    if j > 0 {
        assert(s.drop_first()[j - 1] == s[j]);
        lemma_list_has_index(s.drop_first(), j - 1);
    }
}

proof fn lemma_find_id_found(s: Seq<model::OverlayNode>, id: model::PublicKey)
    ensures
        find_id(s, id) == -1 || (0 <= find_id(s, id) < s.len() && s[find_id(s, id)].id == id),
    decreases s.len(),
{
    if s.len() > 0 && s[0].id != id {
        lemma_find_id_found(s.drop_first(), id);
        if find_id(s.drop_first(), id) != -1 {
            assert(s[find_id(s, id)] == s.drop_first()[find_id(s.drop_first(), id)]);
        }
    }
}

proof fn lemma_find_id_miss(s: Seq<model::OverlayNode>, id: model::PublicKey)
    requires
        find_id(s, id) == -1,
    ensures
        forall|t: int| 0 <= t < s.len() ==> (#[trigger] s[t]).id != id,
    decreases s.len(),
{
    if s.len() > 0 {
        lemma_find_id_found(s.drop_first(), id);
        assert(find_id(s.drop_first(), id) == -1);
        lemma_find_id_miss(s.drop_first(), id);
        assert forall|t: int| 0 <= t < s.len() implies (#[trigger] s[t]).id != id by {
            if t > 0 {
                assert(s[t] == s.drop_first()[t - 1]);
            }
        }
    }
}

/// The merged member list never holds two entries with one id: what the
/// merge produces stays a set keyed by node id.
pub proof fn lemma_merge_unique(
    cur: Seq<model::OverlayNode>,
    new: Seq<model::OverlayNode>,
    m: Seq<model::OverlayNode>,
)
    requires
        unique_ids(cur),
        merge_nodes(cur, new) == Some(m),
    ensures
        unique_ids(m),
    decreases new.len(),
{
    if new.len() == 0 {
    } else {
        let n0 = new[0];
        let i = find_id(cur, n0.id);
        lemma_find_id_found(cur, n0.id);
        if i >= 0 {
            let upd = cur.update(i, n0);
            assert forall|a: int, b: int|
                0 <= a < b < upd.len() implies (#[trigger] upd[a]).id != (#[trigger] upd[b]).id by {
                assert(upd[a].id == cur[a].id && upd[b].id == cur[b].id);
            }
            lemma_merge_unique(upd, new.drop_first(), m);
        } else {
            lemma_find_id_miss(cur, n0.id);
            let ext = cur.push(n0);
            assert forall|a: int, b: int|
                0 <= a < b < ext.len() implies (#[trigger] ext[a]).id != (#[trigger] ext[b]).id by {
                if b == cur.len() as int {
                    assert(ext[a] == cur[a] && ext[b] == n0);
                } else {
                    assert(ext[a] == cur[a] && ext[b] == cur[b]);
                }
            }
            lemma_merge_unique(ext, new.drop_first(), m);
        }
    }
}

/// Every merged entry comes from the stored list or from the incoming
/// list: nothing else — in particular nothing that failed verification,
/// since only verified nodes are handed to the merge — can appear.
pub proof fn lemma_merge_members(
    cur: Seq<model::OverlayNode>,
    new: Seq<model::OverlayNode>,
    m: Seq<model::OverlayNode>,
)
    requires
        merge_nodes(cur, new) == Some(m),
    ensures
        forall|j: int| 0 <= j < m.len() ==> list_has(cur, #[trigger] m[j]) || list_has(new, m[j]),
    decreases new.len(),
{
    if new.len() == 0 {
        assert forall|j: int| 0 <= j < m.len() implies list_has(cur, #[trigger] m[j]) || list_has(
            new,
            m[j],
        ) by {
            lemma_list_has_index(cur, j);
        }
    } else {
        let n0 = new[0];
        let i = find_id(cur, n0.id);
        lemma_find_id_found(cur, n0.id);
        let nxt = if i >= 0 {
            cur.update(i, n0)
        } else {
            cur.push(n0)
        };
        lemma_merge_members(nxt, new.drop_first(), m);
        assert forall|j: int| 0 <= j < m.len() implies list_has(cur, #[trigger] m[j]) || list_has(
            new,
            m[j],
        ) by {
            if list_has(nxt, m[j]) {
                lemma_member_of_step(cur, n0, nxt, m[j]);
                if m[j] == n0 {
                    lemma_list_has_index(new, 0);
                }
            } else {
                lemma_tail_member(new, m[j]);
            }
        }
    }
}

proof fn lemma_tail_member(s: Seq<model::OverlayNode>, x: model::OverlayNode)
    requires
        s.len() > 0,
        list_has(s.drop_first(), x),
    ensures
        list_has(s, x),
{
}

proof fn lemma_member_of_step(
    cur: Seq<model::OverlayNode>,
    n0: model::OverlayNode,
    nxt: Seq<model::OverlayNode>,
    x: model::OverlayNode,
)
    requires
        nxt == cur.update(find_id(cur, n0.id), n0) && 0 <= find_id(cur, n0.id) < cur.len() || nxt
            == cur.push(n0),
        list_has(nxt, x),
    ensures
        list_has(cur, x) || x == n0,
{
    lemma_member_index(nxt, x);
    let j = choose|j: int| 0 <= j < nxt.len() && nxt[j] == x;
    if nxt == cur.push(n0) {
        if j < cur.len() {
            assert(cur[j] == x);
            lemma_list_has_index(cur, j);
        }
    } else {
        let i = find_id(cur, n0.id);
        if j != i {
            assert(cur[j] == x);
            lemma_list_has_index(cur, j);
        }
    }
}

proof fn lemma_member_index(s: Seq<model::OverlayNode>, x: model::OverlayNode)
    requires
        list_has(s, x),
    ensures
        exists|j: int| 0 <= j < s.len() && s[j] == x,
    decreases s.len(),
{
    if s.len() > 0 {
        if s[0] == x {
            assert(s[0] == x && 0 < s.len());
        } else {
            lemma_member_index(s.drop_first(), x);
            let j = choose|j: int| 0 <= j < s.drop_first().len() && s.drop_first()[j] == x;
            assert(s[j + 1] == x);
        }
    }
}

/// Each surviving id's version is the greatest offered for it, across the
/// stored list and the valid incoming nodes: a successful merge never
/// keeps a smaller version where a greater one was seen.
pub proof fn lemma_merge_version_max(
    cur: Seq<model::OverlayNode>,
    new: Seq<model::OverlayNode>,
    m: Seq<model::OverlayNode>,
)
    requires
        unique_ids(cur),
        merge_nodes(cur, new) == Some(m),
    ensures
        forall|j: int, t: int|
            #![trigger m[j], new[t]]
            0 <= j < m.len() && 0 <= t < new.len() && new[t].id == m[j].id ==> m[j].version
                >= new[t].version,
        forall|j: int, t: int|
            #![trigger m[j], cur[t]]
            0 <= j < m.len() && 0 <= t < cur.len() && cur[t].id == m[j].id ==> m[j].version
                >= cur[t].version,
    decreases new.len(),
{
    if new.len() == 0 {
    } else {
        let n0 = new[0];
        let i = find_id(cur, n0.id);
        lemma_find_id_found(cur, n0.id);
        if i >= 0 {
            let upd = cur.update(i, n0);
            assert forall|a: int, b: int|
                0 <= a < b < upd.len() implies (#[trigger] upd[a]).id != (#[trigger] upd[b]).id by {
                assert(upd[a].id == cur[a].id && upd[b].id == cur[b].id);
            }
            lemma_merge_version_max(upd, new.drop_first(), m);
            assert forall|j: int, t: int|
                #![trigger m[j], new[t]]
                0 <= j < m.len() && 0 <= t < new.len() && new[t].id == m[j].id implies m[j].version
                >= new[t].version by {
                if t == 0 {
                    assert(upd[i] == n0);
                } else {
                    assert(new.drop_first()[t - 1] == new[t]);
                }
            }
            assert forall|j: int, t: int|
                #![trigger m[j], cur[t]]
                0 <= j < m.len() && 0 <= t < cur.len() && cur[t].id == m[j].id implies m[j].version
                >= cur[t].version by {
                assert(upd[t].id == cur[t].id);
                assert(upd[t].version >= cur[t].version);
            }
        } else {
            lemma_find_id_miss(cur, n0.id);
            let ext = cur.push(n0);
            assert forall|a: int, b: int|
                0 <= a < b < ext.len() implies (#[trigger] ext[a]).id != (#[trigger] ext[b]).id by {
                if b == cur.len() as int {
                    assert(ext[a] == cur[a] && ext[b] == n0);
                } else {
                    assert(ext[a] == cur[a] && ext[b] == cur[b]);
                }
            }
            lemma_merge_version_max(ext, new.drop_first(), m);
            assert forall|j: int, t: int|
                #![trigger m[j], new[t]]
                0 <= j < m.len() && 0 <= t < new.len() && new[t].id == m[j].id implies m[j].version
                >= new[t].version by {
                if t == 0 {
                    assert(ext[cur.len() as int] == n0);
                } else {
                    assert(new.drop_first()[t - 1] == new[t]);
                }
            }
            assert forall|j: int, t: int|
                #![trigger m[j], cur[t]]
                0 <= j < m.len() && 0 <= t < cur.len() && cur[t].id == m[j].id implies m[j].version
                >= cur[t].version by {
                assert(ext[t] == cur[t]);
            }
        }
    }
}

} // verus!


