//! The node facade and the query/response protocol handler.
//!
//! The node owns the routing table, the known-peer cache and the storage
//! engine, self-signs its descriptor, and answers the five inbound queries.
//! Sending and receiving datagrams is the embedding application's part;
//! every decision between a received message and the reply is here.

use vstd::prelude::*;

use crate::cache::{PeerCache, PeerCursor, MAX_PEERS};
use crate::codec::{dec_msg_full, dec_payload_full, serialize_message, serialize_payload};
use crate::crypto::{
    dht_key_hash, dht_key_hash_spec, ed_pub_of, key_id, key_id_of, node_signing_payload,
    node_verified, now_secs, overlay_node_verified, random_query_id, sign_node,
    sign_key_description, sign_value_record, verify_node_signature, verify_overlay_node,
    ed25519_public_key, ed_sig_of, ed_verifies, key_desc_signing_payload, value_signing_payload,
    value_verified,
};
use crate::model;
use crate::routing::{upsert_result, RoutingTable};
use crate::storage::{
    nodes_dht_key, nodes_name_bytes, overlay_store_outcome, signed_store_outcome, Storage,
};
use crate::types::{
    clone_address_list, clone_bytes, clone_dht_key, clone_key_description, clone_node,
    clone_overlay_node, clone_pubkey, clone_value, views_of_nodes, AddressList, DhtError, DhtKey,
    KeyDescription, Message, Node, OverlayNode, Payload, PublicKey, UpdateRule, Value,
};

verus! {

pub const MAX_TASKS: usize = 5;

pub const TIMEOUT_VALUE: i64 = 3600;

pub const FIND_NODE_K: i32 = 10;

pub const FIND_VALUE_K: i32 = 6;

/// Which payload kind a lookup accepts.
#[derive(Clone, Copy, Debug, PartialEq, Eq)]
pub enum PayloadKind {
    AddressList,
    OverlayNodes,
}

/// How the handler disposed of an inbound query.
pub enum QueryOutcome {
    Consumed { reply: Message },
    Rejected { query: Message },
    RejectedBundle { queries: Vec<Message> },
}

/// The DHT node.
pub struct DhtNode {
    node_key: [u8; 32],
    pub_key: [u8; 32],
    key_id: [u8; 32],
    buckets: RoutingTable,
    known_peers: PeerCache,
    storage: Storage,
    query_prefix: Vec<u8>,
    addr_list: AddressList,
}

/// A freshly signed descriptor for a key pair and address list: the clock
/// as version, and a signature that verifies under the derived public key.
fn make_signed_descriptor(secret: &[u8; 32], pub_key: &[u8; 32], addr_list: &AddressList) -> (r:
    Node)
    requires
        pub_key@ == ed_pub_of(secret@),
    ensures
        node_verified(r@),
        r@.id == (model::PublicKey::Ed25519 { key: pub_key@ }),
        r@.addr_list == addr_list@,
        r@.signature.len() == 64,
{
    let now = now_secs();
    let version: i32 = if now > 0x7fff_ffff {
        0x7fff_ffff
    } else {
        now as i32
    };
    let unsigned = Node {
        id: PublicKey::Ed25519 { key: *pub_key },
        addr_list: clone_address_list(addr_list),
        version,
        signature: Vec::new(),
    };
    sign_node(&unsigned, secret)
}

impl DhtNode {
    pub closed spec fn spec_secret(&self) -> Seq<u8> {
        self.node_key@
    }

    pub closed spec fn spec_pub_key(&self) -> Seq<u8> {
        self.pub_key@
    }

    pub closed spec fn spec_key_id(&self) -> Seq<u8> {
        self.key_id@
    }

    pub closed spec fn spec_routing(&self) -> RoutingTable {
        self.buckets
    }

    pub closed spec fn spec_cache(&self) -> PeerCache {
        self.known_peers
    }

    pub closed spec fn spec_storage(&self) -> Map<Seq<u8>, model::Value> {
        self.storage.view_map()
    }

    pub closed spec fn spec_addr_list(&self) -> model::AddressList {
        self.addr_list@
    }

    pub closed spec fn spec_query_prefix(&self) -> Seq<u8> {
        self.query_prefix@
    }

    /// The cached prefix is the serialized envelope announcing this node:
    /// it decodes to a query message carrying a verifying descriptor whose
    /// id is the node's own key.
    pub open spec fn spec_prefix_ok(&self) -> bool {
        match dec_msg_full(self.spec_query_prefix()) {
            Some(m) => match m {
                model::Message::Query { node } => node_verified(node) && node.id == self.spec_id(),
                _ => false,
            },
            None => false,
        }
    }

    /// The node's public-key descriptor.
    pub open spec fn spec_id(&self) -> model::PublicKey {
        model::PublicKey::Ed25519 { key: self.spec_pub_key() }
    }

    pub open spec fn wf(&self) -> bool {
        &&& self.spec_routing().wf()
        &&& self.spec_cache().wf()
        &&& self.spec_cache().limit_spec() == MAX_PEERS
        &&& self.spec_routing().local_id@ == self.spec_key_id()
        &&& self.spec_pub_key() == ed_pub_of(self.spec_secret())
        &&& self.spec_key_id() == key_id_of(self.spec_id())
        &&& self.spec_prefix_ok()
    }

    /// Build a node for a 32-byte secret key and its own address list. The
    /// node derives its key id and caches the serialized query envelope
    /// that prefixes outbound queries.
    pub fn with_key(secret: [u8; 32], addr_list: AddressList) -> (r: DhtNode)
        ensures
            r.wf(),
            r.spec_secret() == secret@,
            r.spec_cache().view_seq().len() == 0,
            r.spec_routing().entries@.len() == 0,
            r.spec_storage() == Map::<Seq<u8>, model::Value>::empty(),
            r.spec_addr_list() == addr_list@,
    {
        let pub_key = ed25519_public_key(&secret);
        let id = PublicKey::Ed25519 { key: pub_key };
        let kid = key_id(&id);
        let signed = make_signed_descriptor(&secret, &pub_key, &addr_list);
        let n_addrs = addr_list.addrs.len();
        proof {
            assert(addr_list.addrs@.len() == n_addrs);
            assert(model::wf_node(signed@));
            crate::codec::lemma_msg_roundtrip(model::Message::Query { node: signed@ });
        }
        let prefix = serialize_message(&(Message::Query { node: signed }));
        DhtNode {
            node_key: secret,
            pub_key,
            key_id: kid,
            buckets: RoutingTable::new(kid),
            known_peers: PeerCache::with_limit(MAX_PEERS),
            storage: Storage::new(),
            query_prefix: prefix,
            addr_list,
        }
    }

    /// The local key id.
    pub fn key(&self) -> (r: [u8; 32])
        ensures
            r@ == self.spec_key_id(),
    {
        self.key_id
    }

    /// The local public key bytes.
    pub fn public_key(&self) -> (r: [u8; 32])
        ensures
            r@ == self.spec_pub_key(),
    {
        self.pub_key
    }

    /// The node's own first endpoint, if it has one.
    pub fn ip_address(&self) -> (r: Option<crate::types::Address>)
        ensures
            self.spec_addr_list().addrs.len() > 0 ==> (r matches Some(a) && a@
                == self.spec_addr_list().addrs[0]),
            self.spec_addr_list().addrs.len() == 0 ==> r is None,
    {
        if self.addr_list.addrs.len() > 0 {
            Some(self.addr_list.addrs[0])
        } else {
            None
        }
    }

    /// The serialized query envelope sent ahead of outbound queries: it
    /// decodes to the self-announcing query carrying a verifying descriptor.
    pub fn query_prefix(&self) -> (r: &Vec<u8>)
        ensures
            r@ == self.spec_query_prefix(),
            self.wf() ==> (dec_msg_full(r@) matches Some(m) && (m matches model::Message::Query {
                node,
            } && node_verified(node) && node.id == self.spec_id())),
    {
        &self.query_prefix
    }

    /// A freshly self-signed descriptor: the node's id, addresses, the
    /// clock as version, and a signature that verifies under its own key.
    pub fn sign_local_node(&self) -> (r: Node)
        requires
            self.wf(),
        ensures
            node_verified(r@),
            r@.id == self.spec_id(),
            r@.addr_list == self.spec_addr_list(),
    {
        make_signed_descriptor(&self.node_key, &self.pub_key, &self.addr_list)
    }

    /// The self-signed descriptor handed to peers.
    pub fn get_signed_node(&self) -> (r: Node)
        requires
            self.wf(),
        ensures
            node_verified(r@),
            r@.id == self.spec_id(),
            r@.addr_list == self.spec_addr_list(),
    {
        self.sign_local_node()
    }

    /// The structured key `{id, 0, name}` of a key id.
    pub fn dht_key_from_key_id(id: &[u8; 32], name: &Vec<u8>) -> (r: DhtKey)
        ensures
            r@ == (model::DhtKey { id: id@, idx: 0, name: name@ }),
    {
        DhtKey { id: *id, idx: 0, name: clone_bytes(name) }
    }

    /// Add a peer: verify its signature, derive its key id, remember it,
    /// and keep the greatest-version descriptor ever accepted for that id
    /// in the routing table. A descriptor that fails verification, or that
    /// names this node itself, changes nothing and yields no key id.
    pub fn add_peer(&mut self, peer: &Node) -> (r: Option<[u8; 32]>)
        requires
            old(self).wf(),
            old(self).spec_routing().entries@.len() < usize::MAX,
        ensures
            final(self).wf(),
            final(self).spec_secret() == old(self).spec_secret(),
            final(self).spec_pub_key() == old(self).spec_pub_key(),
            final(self).spec_key_id() == old(self).spec_key_id(),
            final(self).spec_storage() == old(self).spec_storage(),
            final(self).spec_addr_list() == old(self).spec_addr_list(),
            final(self).spec_routing().entries@.len() <= old(self).spec_routing().entries@.len()
                + 1,
            final(self).spec_cache().view_seq().len() <= old(self).spec_cache().view_seq().len()
                + 1,
            add_peer_effect(*old(self), *final(self), peer@, r),
    {
        if !verify_node_signature(peer) {
            return None;
        }
        let kid = key_id(&peer.id);
        if crate::types::arr32_eq(&kid, &self.key_id) {
            return None;
        }
        let known = self.known_peers.contains(&kid);
        let fresh = self.known_peers.put(kid);
        if known || fresh {
            self.buckets.upsert(kid, clone_node(peer));
        }
        Some(kid)
    }

    /// Add every descriptor of a list, each under `add_peer`'s rule. The
    /// cache only grows at its end, so live cursors stay valid; stored
    /// versions never fall; and when capacity cannot run out, every
    /// verified descriptor ends up stored under its key id with at least
    /// its own version.
    pub fn add_peers(&mut self, nodes: &Vec<Node>)
        requires
            old(self).wf(),
        ensures
            final(self).wf(),
            final(self).spec_secret() == old(self).spec_secret(),
            final(self).spec_pub_key() == old(self).spec_pub_key(),
            final(self).spec_key_id() == old(self).spec_key_id(),
            final(self).spec_storage() == old(self).spec_storage(),
            final(self).spec_addr_list() == old(self).spec_addr_list(),
            old(self).spec_cache().view_seq().is_prefix_of(final(self).spec_cache().view_seq()),
            final(self).spec_cache().view_seq().len() <= old(self).spec_cache().view_seq().len()
                + nodes@.len(),
            final(self).spec_routing().entries@.len() <= old(self).spec_routing().entries@.len()
                + nodes@.len(),
            forall|kid: Seq<u8>|
                (#[trigger] old(self).spec_routing().stored_node(kid)) matches Some(n0) ==> (final(self).spec_routing().stored_node(kid) matches Some(n1) && n1.version >= n0.version),
            old(self).spec_cache().view_seq().len() + nodes@.len() <= MAX_PEERS && old(self).spec_routing().entries@.len() + nodes@.len() < usize::MAX ==> (forall|t: int|
                0 <= t < nodes@.len() && node_verified((#[trigger] nodes@[t])@) && key_id_of(
                    nodes@[t]@.id,
                ) != old(self).spec_key_id() ==> (final(self).spec_routing().stored_node(
                    key_id_of(nodes@[t]@.id),
                ) matches Some(n) && n.version >= nodes@[t]@.version)),
    {
        let ghost cap_ok = old(self).spec_cache().view_seq().len() + nodes@.len() <= MAX_PEERS
            && old(self).spec_routing().entries@.len() + nodes@.len() < usize::MAX;
        let mut i: usize = 0;
        while i < nodes.len()
            invariant
                self.wf(),
                0 <= i <= nodes@.len(),
                self.spec_secret() == old(self).spec_secret(),
                self.spec_pub_key() == old(self).spec_pub_key(),
                self.spec_key_id() == old(self).spec_key_id(),
                self.spec_storage() == old(self).spec_storage(),
                self.spec_addr_list() == old(self).spec_addr_list(),
                cap_ok == (old(self).spec_cache().view_seq().len() + nodes@.len() <= MAX_PEERS
                    && old(self).spec_routing().entries@.len() + nodes@.len() < usize::MAX),
                old(self).spec_cache().view_seq().is_prefix_of(self.spec_cache().view_seq()),
                self.spec_cache().view_seq().len() <= old(self).spec_cache().view_seq().len() + i,
                self.spec_routing().entries@.len() <= old(self).spec_routing().entries@.len() + i,
                forall|kid: Seq<u8>|
                    (#[trigger] old(self).spec_routing().stored_node(kid)) matches Some(n0) ==> (
                    self.spec_routing().stored_node(kid) matches Some(n1) && n1.version
                        >= n0.version),
                cap_ok ==> (forall|t: int|
                    0 <= t < i && node_verified((#[trigger] nodes@[t])@) && key_id_of(
                        nodes@[t]@.id,
                    ) != old(self).spec_key_id() ==> (self.spec_routing().stored_node(
                        key_id_of(nodes@[t]@.id),
                    ) matches Some(n) && n.version >= nodes@[t]@.version)),
            decreases nodes@.len() - i,
        {
            let ghost mid = *self;
            if self.buckets.count() < usize::MAX {
                self.add_peer(&nodes[i]);
                proof {
                    lemma_cache_prefix_step(
                        old(self).spec_cache().view_seq(),
                        mid.spec_cache().view_seq(),
                        self.spec_cache().view_seq(),
                        *self,
                        mid,
                        nodes@[i as int]@,
                    );
                }
            }
            i = i + 1;
        }
    }

    /// Walk the known-peer cache: a fresh cursor yields the first id (none
    /// only if the cache is empty), an existing cursor advances to the next
    /// unvisited id, or stays put when it has seen everything so far.
    pub fn get_known_peer(&self, iter: &mut Option<PeerCursor>) -> (r: Option<[u8; 32]>)
        ensures
            r matches Some(a) ==> ((*final(iter)) matches Some(c) && 0 < c.pos
                <= self.spec_cache().view_seq().len() && a@ == self.spec_cache().view_seq()[c.pos
                - 1]),
            (*old(iter)) is None ==> ((*final(iter)) matches Some(c) && (match r {
                Some(a) => self.spec_cache().view_seq().len() > 0 && a@
                    == self.spec_cache().view_seq()[0] && c.pos == 1,
                None => self.spec_cache().view_seq().len() == 0 && c.pos == 0,
            })),
            (*old(iter)) matches Some(c0) ==> (match r {
                Some(a) => c0.pos < self.spec_cache().view_seq().len() && a@
                    == self.spec_cache().view_seq()[c0.pos as int] && (*final(iter)) == Some(
                    PeerCursor { pos: (c0.pos + 1) as usize },
                ),
                None => c0.pos >= self.spec_cache().view_seq().len() && *final(iter) == *old(iter),
            }),
    {
        match iter {
            Some(cursor) => self.known_peers.next(cursor),
            None => {
                let (cursor, first) = self.known_peers.first();
                *iter = Some(cursor);
                first
            },
        }
    }

    /// Re-yield the peer the cursor returned last, if it returned one:
    /// the lookup engine retries it when the cache may have grown.
    pub fn get_given_peer(&self, iter: &Option<PeerCursor>) -> (r: Option<[u8; 32]>)
        ensures
            match *iter {
                Some(c) => (match r {
                    Some(a) => 0 < c.pos <= self.spec_cache().view_seq().len() && a@
                        == self.spec_cache().view_seq()[c.pos - 1],
                    None => !(0 < c.pos <= self.spec_cache().view_seq().len()),
                }),
                None => r is None,
            },
    {
        match iter {
            Some(cursor) => self.known_peers.given(cursor),
            None => None,
        }
    }

    /// The first `limit` known descriptors, ranked towards the local key:
    /// exactly min(limit, peers) of them, ascending bucket index, pairwise
    /// distinct, all from the table, leaving out only farther-ranked peers.
    pub fn get_known_nodes(&self, limit: usize) -> (r: Result<Vec<Node>, DhtError>)
        requires
            self.wf(),
        ensures
            (limit == 0) <==> (r is Err),
            r matches Err(e) ==> e == DhtError::Unsupported,
            r matches Ok(v) ==> crate::routing::ranked_selection_ok(
                self.spec_routing(),
                self.spec_key_id(),
                limit as int,
                views_of_nodes(v@),
            ),
    {
        self.buckets.get_known_nodes(limit)
    }

    /// Up to `k` peers ranked by XOR distance to a target key.
    pub fn find_k_closest(&self, target: &[u8; 32], k: usize) -> (r: Vec<Node>)
        requires
            self.wf(),
        ensures
            r@.len() == (if k <= self.spec_routing().entries@.len() {
                k as int
            } else {
                self.spec_routing().entries@.len() as int
            }),
            forall|i: int, j: int|
                0 <= i < j < r@.len() ==> RoutingTable::rank_of(target@, r@[i]@)
                    <= RoutingTable::rank_of(target@, r@[j]@),
            forall|i: int| 0 <= i < r@.len() ==> self.spec_routing().has_node(#[trigger] r@[i]@),
    {
        self.buckets.find_k_closest(target, k)
    }

    /// The stored record under a hash, unless absent or expired.
    pub fn search_dht_key(&self, hash: &[u8; 32], now: i64) -> (r: Option<Value>)
        ensures
            (r is Some) == (self.spec_storage().contains_key(hash@)
                && self.spec_storage()[hash@].ttl > now),
            r matches Some(v) ==> v@ == self.spec_storage()[hash@],
    {
        self.storage.get(hash, now)
    }

    /// Apply a signed store to local storage.
    pub fn process_store_signed_value(&mut self, hash: [u8; 32], value: Value, now: i64) -> (r:
        Result<bool, DhtError>)
        requires
            old(self).wf(),
        ensures
            final(self).wf(),
            self_unchanged_but_storage(*old(self), *final(self)),
            ({
                let outcome = signed_store_outcome(old(self).spec_storage(), hash@, value@, now);
                r == outcome.0 && final(self).spec_storage() == outcome.1
            }),
            old(self).spec_storage().contains_key(hash@) && final(self).spec_storage().contains_key(
                hash@,
            ) ==> final(self).spec_storage()[hash@].ttl >= old(self).spec_storage()[hash@].ttl,
    {
        self.storage.process_store_signed_value(hash, value, now)
    }

    /// Apply an overlay-nodes store to local storage.
    pub fn process_store_overlay_nodes(&mut self, hash: [u8; 32], value: Value, now: i64) -> (r:
        Result<bool, DhtError>)
        requires
            old(self).wf(),
        ensures
            final(self).wf(),
            self_unchanged_but_storage(*old(self), *final(self)),
            ({
                let outcome = overlay_store_outcome(old(self).spec_storage(), hash@, value@, now);
                r == outcome.0 && final(self).spec_storage() == outcome.1
            }),
    {
        self.storage.process_store_overlay_nodes(hash, value, now)
    }
}

proof fn lemma_cache_prefix_step(
    base: Seq<Seq<u8>>,
    mid_view: Seq<Seq<u8>>,
    post_view: Seq<Seq<u8>>,
    post: DhtNode,
    mid: DhtNode,
    peer: model::Node,
)
    requires
        base.is_prefix_of(mid_view),
        add_peer_state_effect(mid, post, peer),
        mid_view == mid.spec_cache().view_seq(),
        post_view == post.spec_cache().view_seq(),
    ensures
        base.is_prefix_of(post_view),
{
    if post_view == mid_view.push(key_id_of(peer.id)) {
        assert(mid_view.push(key_id_of(peer.id)).take(base.len() as int) =~= mid_view.take(
            base.len() as int,
        ));
    }
}

/// What `add_peer` does to the cache and routing table: nothing for an
/// unverifiable or self-naming descriptor; otherwise a first sighting
/// appends the key id to the cache, and any verified sighting applies the
/// version-monotonic upsert.
pub open spec fn add_peer_state_effect(pre: DhtNode, post: DhtNode, peer: model::Node) -> bool {
    if !node_verified(peer) || key_id_of(peer.id) == pre.spec_key_id() {
        &&& post.spec_routing() == pre.spec_routing()
        &&& post.spec_cache() == pre.spec_cache()
    } else {
        let kid = key_id_of(peer.id);
        let known = pre.spec_cache().contains_spec(kid);
        let fresh = !known && pre.spec_cache().view_seq().len() < MAX_PEERS;
        &&& (if fresh {
            post.spec_cache().view_seq() == pre.spec_cache().view_seq().push(kid)
        } else {
            post.spec_cache().view_seq() == pre.spec_cache().view_seq()
        })
        &&& (if known || fresh {
            &&& post.spec_routing().stored_node(kid) == upsert_result(
                pre.spec_routing().stored_node(kid),
                peer,
            )
            &&& forall|k2: Seq<u8>|
                k2 != kid ==> post.spec_routing().stored_node(k2) == pre.spec_routing().stored_node(
                    k2,
                )
        } else {
            post.spec_routing() == pre.spec_routing()
        })
    }
}

/// `add_peer_state_effect` together with the returned key id: absent
/// exactly for the rejected descriptors.
pub open spec fn add_peer_effect(
    pre: DhtNode,
    post: DhtNode,
    peer: model::Node,
    r: Option<[u8; 32]>,
) -> bool {
    &&& add_peer_state_effect(pre, post, peer)
    &&& (if !node_verified(peer) || key_id_of(peer.id) == pre.spec_key_id() {
        r is None
    } else {
        r matches Some(a) && a@ == key_id_of(peer.id)
    })
}

/// Everything of a node except its storage is the same.
pub open spec fn self_unchanged_but_storage(a: DhtNode, b: DhtNode) -> bool {
    &&& b.spec_secret() == a.spec_secret()
    &&& b.spec_pub_key() == a.spec_pub_key()
    &&& b.spec_key_id() == a.spec_key_id()
    &&& b.spec_routing() == a.spec_routing()
    &&& b.spec_cache() == a.spec_cache()
    &&& b.spec_addr_list() == a.spec_addr_list()
}


/// The exact outcome of an inbound store: dispatch on the update rule
/// after the expiry check, keyed by the hash of the structured key.
pub open spec fn store_outcome(
    m: Map<Seq<u8>, model::Value>,
    v: model::Value,
    now: i64,
) -> (Result<bool, DhtError>, Map<Seq<u8>, model::Value>) {
    let hash = dht_key_hash_spec(v.key.key);
    if v.ttl <= now {
        (Err(DhtError::Expired), m)
    } else {
        match v.key.update_rule {
            model::UpdateRule::Signature => signed_store_outcome(m, hash, v, now),
            model::UpdateRule::OverlayNodes => overlay_store_outcome(m, hash, v, now),
        }
    }
}

/// Whether a decoded payload is of the kind a lookup accepts.
pub open spec fn kind_matches(pl: model::Payload, k: PayloadKind) -> bool {
    match (pl, k) {
        (model::Payload::AddressList { .. }, PayloadKind::AddressList) => true,
        (model::Payload::OverlayNodes { .. }, PayloadKind::OverlayNodes) => true,
        _ => false,
    }
}

/// What a lookup does with one peer's reply.
pub enum ValueReplyAction {
    Found { key: KeyDescription, payload: Payload },
    AddPeers { nodes: Vec<Node> },
    Ignore,
}

/// One lookup session: bounded fan-out, accumulation, termination.
pub struct FindValueSession {
    pub hkey: [u8; 32],
    pub all: bool,
    pub outstanding: usize,
    pub finished: bool,
    pub results: Vec<(KeyDescription, Payload)>,
}

impl FindValueSession {
    pub open spec fn wf(&self) -> bool {
        self.outstanding <= MAX_TASKS
    }

    /// A fresh session for a hashed key.
    pub fn new_session(hkey: [u8; 32], all: bool) -> (r: FindValueSession)
        ensures
            r.wf(),
            r.hkey == hkey,
            r.all == all,
            r.outstanding == 0,
            !r.finished,
            r.results@.len() == 0,
    {
        FindValueSession { hkey, all, outstanding: 0, finished: false, results: Vec::new() }
    }

    /// Whether another peer query may be put in flight.
    pub fn can_spawn(&self) -> (r: bool)
        ensures
            r == (self.outstanding < MAX_TASKS),
    {
        self.outstanding < MAX_TASKS
    }

    /// Record one query put in flight.
    pub fn spawned(&mut self)
        requires
            old(self).wf(),
            old(self).outstanding < MAX_TASKS,
        ensures
            final(self).wf(),
            *final(self) == (FindValueSession {
                outstanding: (old(self).outstanding + 1) as usize,
                ..*old(self)
            }),
    {
        self.outstanding = self.outstanding + 1;
    }

    /// Record one completion, keeping a found record if there is one.
    pub fn completed(&mut self, found: Option<(KeyDescription, Payload)>)
        requires
            old(self).wf(),
            old(self).outstanding > 0,
            old(self).results@.len() < usize::MAX,
        ensures
            final(self).wf(),
            final(self).outstanding == old(self).outstanding - 1,
            found matches Some(f) ==> final(self).results@ == old(self).results@.push(f),
            found is None ==> final(self).results@ == old(self).results@,
            final(self).hkey == old(self).hkey,
            final(self).all == old(self).all,
            final(self).finished == old(self).finished,
    {
        self.outstanding = self.outstanding - 1;
        match found {
            Some(f) => self.results.push(f),
            None => (),
        }
    }

    /// Mark that the completion queue drained with nothing in flight.
    pub fn mark_finished(&mut self)
        requires
            old(self).wf(),
        ensures
            final(self).wf(),
            *final(self) == (FindValueSession { finished: true, ..*old(self) }),
    {
        self.finished = true;
    }

    /// Whether the session is done: enough records for an exhaustive
    /// lookup, any record for a first-hit lookup, or exhaustion.
    pub fn should_stop(&self) -> (r: bool)
        ensures
            r == ((self.all && self.results@.len() >= MAX_TASKS) || (!self.all && self.results@.len()
                > 0) || self.finished),
    {
        (self.all && self.results.len() >= MAX_TASKS) || (!self.all && self.results.len() > 0)
            || self.finished
    }
}

impl DhtNode {
    /// A ping query under a fresh random id, returned beside the id the
    /// echo must carry.
    pub fn prepare_ping(&self) -> (r: (Message, i64))
        ensures
            r.0@ == (model::Message::Ping { random_id: r.1 }),
    {
        let random_id = random_query_id();
        (Message::Ping { random_id }, random_id)
    }

    /// Whether a reply is the pong that echoes the expected id.
    pub fn check_pong(expected: i64, reply: &Option<Message>) -> (r: bool)
        ensures
            r == match *reply {
                Some(m) => m@ == (model::Message::Pong { random_id: expected }),
                None => false,
            },
    {
        match reply {
            Some(Message::Pong { random_id }) => *random_id == expected,
            _ => false,
        }
    }

    /// The find-node query this node fans out.
    pub fn prepare_find_node_query(&self) -> (r: Message)
        ensures
            r@ == (model::Message::FindNode { key: self.spec_key_id(), k: FIND_NODE_K }),
    {
        Message::FindNode { key: self.key_id, k: FIND_NODE_K }
    }

    /// The find-value query for a structured key, beside the storage hash
    /// it queries.
    pub fn prepare_find_value(key: &DhtKey) -> (r: (Message, [u8; 32]))
        ensures
            r.1@ == dht_key_hash_spec(key@),
            r.0@ == (model::Message::FindValue { key: r.1@, k: FIND_VALUE_K }),
    {
        let hkey = dht_key_hash(key);
        (Message::FindValue { key: hkey, k: FIND_VALUE_K }, hkey)
    }

    /// Classify one peer's reply to a find-value query: a matching record
    /// is kept, suggested peers are to be added, all else is ignored.
    pub fn classify_value_reply(reply: Option<Message>, kind: PayloadKind) -> (r: ValueReplyAction)
        ensures
            match reply {
                Some(m) => match m@ {
                    model::Message::ValueFound { value } => match dec_payload_full(value.value) {
                        Some(pl) => if kind_matches(pl, kind) {
                            r matches ValueReplyAction::Found { key, payload } && key@ == value.key
                                && payload@ == pl
                        } else {
                            r is Ignore
                        },
                        None => r is Ignore,
                    },
                    model::Message::ValueNotFound { nodes } => r matches ValueReplyAction::AddPeers {
                        nodes: ns,
                    } && views_of_nodes(ns@) == nodes,
                    _ => r is Ignore,
                },
                None => r is Ignore,
            },
    {
        match reply {
            Some(Message::ValueFound { value }) => {
                match crate::codec::deserialize_payload(&value.value) {
                    Some(pl) => {
                        let matches_kind = match (&pl, kind) {
                            (Payload::AddressList { .. }, PayloadKind::AddressList) => true,
                            (Payload::OverlayNodes { .. }, PayloadKind::OverlayNodes) => true,
                            _ => false,
                        };
                        if matches_kind {
                            ValueReplyAction::Found { key: value.key, payload: pl }
                        } else {
                            ValueReplyAction::Ignore
                        }
                    },
                    None => ValueReplyAction::Ignore,
                }
            },
            Some(Message::ValueNotFound { nodes }) => ValueReplyAction::AddPeers { nodes },
            _ => ValueReplyAction::Ignore,
        }
    }
}


/// The bytes of the key name `address`.
pub open spec fn address_name() -> Seq<u8> {
    seq![97u8, 100u8, 100u8, 114u8, 101u8, 115u8, 115u8]
}

/// The executable form of the key name `address`.
pub fn address_name_bytes() -> (r: Vec<u8>)
    ensures
        r@ == address_name(),
{
    let mut v: Vec<u8> = Vec::new();
    v.push(97);
    v.push(100);
    v.push(100);
    v.push(114);
    v.push(101);
    v.push(115);
    v.push(115);
    proof {
        assert(v@ =~= address_name());
    }
    v
}

impl DhtNode {
    /// Answer a ping: echo the random id.
    pub fn process_ping(&self, random_id: i64) -> (r: Message)
        ensures
            r@ == (model::Message::Pong { random_id }),
    {
        Message::Pong { random_id }
    }

    /// Answer a find-node query: up to `k` peers ranked towards the key.
    pub fn process_find_node(&self, key: &[u8; 32], k: i32) -> (r: Message)
        requires
            self.wf(),
        ensures
            r@ matches model::Message::Nodes { nodes } && crate::routing::ranked_selection_ok(
                self.spec_routing(),
                key@,
                if k >= 0 {
                    k as int
                } else {
                    0
                },
                nodes,
            ),
    {
        let kk: usize = if k >= 0 {
            k as usize
        } else {
            0
        };
        let found = self.buckets.find_k_closest(key, kk);
        Message::Nodes { nodes: found }
    }

    /// Answer a find-value query: the fresh stored record, or up to `k`
    /// known peers to try instead.
    pub fn process_find_value(&self, key: &[u8; 32], k: i32, now: i64) -> (r: Result<
        Message,
        DhtError,
    >)
        requires
            self.wf(),
        ensures
            self.spec_storage().contains_key(key@) && self.spec_storage()[key@].ttl > now ==> (
            r matches Ok(m) && m@ == (model::Message::ValueFound {
                value: self.spec_storage()[key@],
            })),
            !(self.spec_storage().contains_key(key@) && self.spec_storage()[key@].ttl > now) && k
                <= 0 ==> r == Err::<Message, DhtError>(DhtError::Unsupported),
            !(self.spec_storage().contains_key(key@) && self.spec_storage()[key@].ttl > now) && k
                > 0 ==> (r matches Ok(m) && (m@ matches model::Message::ValueNotFound { nodes }
                && crate::routing::ranked_selection_ok(
                self.spec_routing(),
                self.spec_key_id(),
                k as int,
                nodes,
            ))),
    {
        match self.storage.get(key, now) {
            Some(value) => Ok(Message::ValueFound { value }),
            None => {
                if k <= 0 {
                    return Err(DhtError::Unsupported);
                }
                let nodes = match self.buckets.get_known_nodes(k as usize) {
                    Ok(v) => v,
                    Err(e) => {
                        return Err(e);
                    },
                };
                proof {
                    assert(views_of_nodes(nodes@).len() == nodes@.len());
                }
                Ok(Message::ValueNotFound { nodes })
            },
        }
    }

    /// Apply an inbound store: expiry first, then the rule the key names.
    pub fn process_store(&mut self, value: Value, now: i64) -> (r: Result<Message, DhtError>)
        requires
            old(self).wf(),
        ensures
            final(self).wf(),
            self_unchanged_but_storage(*old(self), *final(self)),
            ({
                let outcome = store_outcome(old(self).spec_storage(), value@, now);
                &&& final(self).spec_storage() == outcome.1
                &&& (r matches Ok(m) ==> outcome.0 is Ok && m@ == model::Message::Stored)
                &&& (r matches Err(e) ==> outcome.0 == Err::<bool, DhtError>(e))
            }),
    {
        let hash = dht_key_hash(&value.key.key);
        if value.ttl <= now {
            return Err(DhtError::Expired);
        }
        let applied = match value.key.update_rule {
            UpdateRule::Signature => self.storage.process_store_signed_value(hash, value, now),
            UpdateRule::OverlayNodes => self.storage.process_store_overlay_nodes(hash, value, now),
        };
        match applied {
            Ok(_) => Ok(Message::Stored),
            Err(e) => Err(e),
        }
    }

    /// Dispatch one inbound query to its handler; a message that is not a
    /// query is handed back.
    pub fn try_consume_query(&mut self, query: Message, now: i64) -> (r: Result<
        QueryOutcome,
        DhtError,
    >)
        requires
            old(self).wf(),
        ensures
            final(self).wf(),
            self_unchanged_but_storage(*old(self), *final(self)),
            query@ matches model::Message::Ping { random_id } ==> (r matches Ok(o) && o matches
                QueryOutcome::Consumed { reply } && reply@ == (model::Message::Pong { random_id })
                && final(self).spec_storage() == old(self).spec_storage()),
            query@ matches model::Message::FindNode { key, k } ==> (r matches Ok(o) && (o matches
                QueryOutcome::Consumed { reply } && (reply@ matches model::Message::Nodes { nodes }
                && crate::routing::ranked_selection_ok(
                old(self).spec_routing(),
                key,
                if k >= 0 {
                    k as int
                } else {
                    0
                },
                nodes,
            ))) && final(self).spec_storage() == old(self).spec_storage()),
            query@ matches model::Message::GetSignedAddressList ==> (r matches Ok(o) && o matches
                QueryOutcome::Consumed { reply } && (reply@ matches model::Message::NodeInfo { node }
                && node_verified(node) && node.id == old(self).spec_id()) && final(self).spec_storage() == old(self).spec_storage()),
            query@ matches model::Message::Store { value } ==> ({
                let outcome = store_outcome(old(self).spec_storage(), value, now);
                &&& final(self).spec_storage() == outcome.1
                &&& (r matches Ok(o) ==> (outcome.0 is Ok && (o matches QueryOutcome::Consumed {
                    reply } && reply@ == model::Message::Stored)))
                &&& (r matches Err(e) ==> outcome.0 == Err::<bool, DhtError>(e))
            }),
            query@ matches model::Message::FindValue { key, k } ==> ({
                let m = old(self).spec_storage();
                let fresh = m.contains_key(key) && m[key].ttl > now;
                &&& final(self).spec_storage() == m
                &&& (fresh ==> (r matches Ok(o) && (o matches QueryOutcome::Consumed { reply }
                    && reply@ == (model::Message::ValueFound { value: m[key] }))))
                &&& (!fresh && k <= 0 ==> r == Err::<QueryOutcome, DhtError>(DhtError::Unsupported))
                &&& (!fresh && k > 0 ==> (r matches Ok(o) && (o matches QueryOutcome::Consumed {
                    reply } && (reply@ matches model::Message::ValueNotFound { nodes }
                    && crate::routing::ranked_selection_ok(
                    old(self).spec_routing(),
                    old(self).spec_key_id(),
                    k as int,
                    nodes,
                )))))
            }),
            !is_solo_query(query@) ==> (r matches Ok(o) && (o matches QueryOutcome::Rejected {
                query: q,
            } && q@ == query@) && final(self).spec_storage() == old(self).spec_storage()),
    {
        match query {
            Message::Ping { random_id } => Ok(QueryOutcome::Consumed {
                reply: self.process_ping(random_id),
            }),
            Message::FindNode { key, k } => Ok(QueryOutcome::Consumed {
                reply: self.process_find_node(&key, k),
            }),
            Message::FindValue { key, k } => {
                match self.process_find_value(&key, k, now) {
                    Ok(reply) => Ok(QueryOutcome::Consumed { reply }),
                    Err(e) => Err(e),
                }
            },
            Message::GetSignedAddressList => Ok(QueryOutcome::Consumed {
                reply: Message::NodeInfo { node: self.get_signed_node() },
            }),
            Message::Store { value } => {
                match self.process_store(value, now) {
                    Ok(reply) => Ok(QueryOutcome::Consumed { reply }),
                    Err(e) => Err(e),
                }
            },
            other => Ok(QueryOutcome::Rejected { query: other }),
        }
    }

    /// Handle a two-message bundle: the first message must announce the
    /// sender's signed descriptor, which is added as a peer; the second is
    /// handled as a solo query. Any other shape is handed back whole.
    pub fn try_consume_query_bundle(&mut self, queries: Vec<Message>, now: i64) -> (r: Result<
        QueryOutcome,
        DhtError,
    >)
        requires
            old(self).wf(),
        ensures
            final(self).wf(),
            final(self).spec_secret() == old(self).spec_secret(),
            final(self).spec_pub_key() == old(self).spec_pub_key(),
            final(self).spec_key_id() == old(self).spec_key_id(),
            queries@.len() != 2 ==> (r matches Ok(o) && o matches QueryOutcome::RejectedBundle {
                queries: qs,
            } && qs@ == queries@ && final(self).spec_storage() == old(self).spec_storage() && final(self).spec_cache() == old(self).spec_cache() && final(self).spec_routing() == old(self).spec_routing()),
            queries@.len() == 2 && !(queries@[0]@ is Query) ==> (r matches Ok(o) && o matches
                QueryOutcome::RejectedBundle { queries: qs } && qs@ == queries@ && final(self).spec_storage() == old(self).spec_storage() && final(self).spec_cache() == old(self).spec_cache() && final(self).spec_routing() == old(self).spec_routing()),
            queries@.len() == 2 ==> (queries@[0]@ matches model::Message::Query { node } ==> (
            queries@[1]@ matches model::Message::Ping { random_id } ==> (r matches Ok(o) && (
            o matches QueryOutcome::Consumed { reply } && reply@ == (model::Message::Pong {
                random_id,
            }))))),
            queries@.len() == 2 ==> (queries@[0]@ matches model::Message::Query { node } ==> (
            !is_solo_query(queries@[1]@) ==> r == Err::<QueryOutcome, DhtError>(
                DhtError::Unsupported,
            ))),
            queries@.len() == 2 ==> (queries@[0]@ matches model::Message::Query { node } ==> (old(self).spec_routing().entries@.len() < usize::MAX ==> add_peer_state_effect(
                *old(self),
                *final(self),
                node,
            ))),
    {
        if queries.len() != 2 {
            return Ok(QueryOutcome::RejectedBundle { queries });
        }
        let is_envelope = match &queries[0] {
            Message::Query { .. } => true,
            _ => false,
        };
        if !is_envelope {
            return Ok(QueryOutcome::RejectedBundle { queries });
        }
        let mut queries = queries;
        let second = match queries.pop() {
            Some(m) => m,
            None => {
                return Err(DhtError::Internal);
            },
        };
        let first = match queries.pop() {
            Some(m) => m,
            None => {
                return Err(DhtError::Internal);
            },
        };
        match &first {
            Message::Query { node } => {
                if self.buckets.count() < usize::MAX {
                    self.add_peer(node);
                }
            },
            _ => {
                return Err(DhtError::Internal);
            },
        }
        let outcome = self.try_consume_query(second, now);
        match outcome {
            Ok(QueryOutcome::Rejected { .. }) => Err(DhtError::Unsupported),
            other => other,
        }
    }
}

/// Whether a sequence of overlay nodes carries exactly this node.
pub open spec fn seq_contains_node(s: Seq<model::OverlayNode>, n: model::OverlayNode) -> bool
    decreases s.len(),
{
    if s.len() == 0 {
        false
    } else {
        s[0] == n || seq_contains_node(s.drop_first(), n)
    }
}

pub proof fn lemma_index_implies_contains(s: Seq<model::OverlayNode>, n: model::OverlayNode, j: int)
    requires
        0 <= j < s.len(),
        s[j] == n,
    ensures
        seq_contains_node(s, n),
    decreases j,
{
    if j > 0 {
        assert(s.drop_first()[j - 1] == s[j]);
        lemma_index_implies_contains(s.drop_first(), n, j - 1);
    }
}

pub proof fn lemma_no_index_implies_not_contains(s: Seq<model::OverlayNode>, n: model::OverlayNode)
    requires
        forall|t: int| 0 <= t < s.len() ==> (#[trigger] s[t]) != n,
    ensures
        !seq_contains_node(s, n),
    decreases s.len(),
{
    if s.len() > 0 {
        assert forall|t: int| 0 <= t < s.drop_first().len() implies (#[trigger] s.drop_first()[t])
            != n by {
            assert(s.drop_first()[t] == s[t + 1]);
        }
        lemma_no_index_implies_not_contains(s.drop_first(), n);
    }
}

/// Whether a decoded payload is a node list carrying exactly this node.
pub open spec fn payload_has_overlay_node(pl: model::Payload, n: model::OverlayNode) -> bool {
    match pl {
        model::Payload::OverlayNodes { nodes } => seq_contains_node(nodes, n),
        model::Payload::AddressList { .. } => false,
    }
}

/// A message the handler accepts as a solo inbound query; everything else
/// is handed back rejected.
pub open spec fn is_solo_query(m: model::Message) -> bool {
    match m {
        model::Message::Ping { .. } => true,
        model::Message::FindNode { .. } => true,
        model::Message::FindValue { .. } => true,
        model::Message::GetSignedAddressList => true,
        model::Message::Store { .. } => true,
        _ => false,
    }
}


impl DhtNode {
    /// A signed key description naming this node as owner of `{id,0,name}`.
    pub fn sign_key_description(&self, name: &Vec<u8>) -> (r: KeyDescription)
        requires
            self.wf(),
        ensures
            r@.id == self.spec_id(),
            r@.key == (model::DhtKey { id: self.spec_key_id(), idx: 0, name: name@ }),
            r@.update_rule == model::UpdateRule::Signature,
            ed_verifies(self.spec_pub_key(), key_desc_signing_payload(r@), r@.signature),
    {
        let unsigned = KeyDescription {
            id: PublicKey::Ed25519 { key: self.pub_key },
            key: DhtKey { id: self.key_id, idx: 0, name: clone_bytes(name) },
            update_rule: UpdateRule::Signature,
            signature: Vec::new(),
        };
        sign_key_description(&unsigned, &self.node_key)
    }

    /// A signed record of `payload` under `{self,0,name}`, expiring at
    /// `now` plus the store timeout. It verifies under this node's key.
    pub fn sign_value(&self, name: &Vec<u8>, payload: Vec<u8>, now: i64) -> (r: Value)
        requires
            self.wf(),
            0 <= now <= crate::crypto::CLOCK_CAP,
        ensures
            value_verified(r@),
            r@.key.id == self.spec_id(),
            r@.key.key == (model::DhtKey { id: self.spec_key_id(), idx: 0, name: name@ }),
            r@.key.update_rule == model::UpdateRule::Signature,
            r@.value == payload@,
            r@.ttl == now + TIMEOUT_VALUE,
    {
        let key = self.sign_key_description(name);
        let unsigned = Value {
            key,
            value: payload,
            ttl: now + TIMEOUT_VALUE,
            signature: Vec::new(),
        };
        sign_value_record(&unsigned, &self.node_key)
    }

    /// Build and locally apply this node's own address record; the caller
    /// broadcasts the returned key and record to every known peer.
    pub fn store_ip_address(&mut self, now: i64) -> (r: (DhtKey, Value))
        requires
            old(self).wf(),
            0 <= now <= crate::crypto::CLOCK_CAP,
        ensures
            final(self).wf(),
            self_unchanged_but_storage(*old(self), *final(self)),
            value_verified(r.1@),
            r.0@ == (model::DhtKey { id: old(self).spec_key_id(), idx: 0, name: address_name() }),
            r.1@.key.key == r.0@,
            r.1@.key.update_rule == model::UpdateRule::Signature,
            r.1@.ttl == now + TIMEOUT_VALUE,
            dec_payload_full(r.1@.value) == Some(
                model::Payload::AddressList { list: old(self).spec_addr_list() },
            ),
            final(self).spec_storage() == signed_store_outcome(
                old(self).spec_storage(),
                dht_key_hash_spec(r.0@),
                r.1@,
                now,
            ).1,
    {
        let name = address_name_bytes();
        let payload = serialize_payload(&(Payload::AddressList {
            list: clone_address_list(&self.addr_list),
        }));
        let n_addrs = self.addr_list.addrs.len();
        proof {
            assert(self.addr_list.addrs@.len() == n_addrs);
            crate::codec::lemma_payload_roundtrip(
                model::Payload::AddressList { list: self.spec_addr_list() },
            );
        }
        let value = self.sign_value(&name, payload, now);
        let key = DhtKey { id: self.key_id, idx: 0, name };
        let hash = dht_key_hash(&key);
        let stored = clone_value(&value);
        let _ = self.storage.process_store_signed_value(hash, stored, now);
        (key, value)
    }

    /// Build and locally apply an overlay-membership record for this
    /// node's own overlay node; the caller broadcasts it. The overlay node
    /// must verify for the overlay derived from `overlay_id`.
    pub fn store_overlay_node(&mut self, overlay_id: &Vec<u8>, node: &OverlayNode, now: i64) -> (r:
        Result<(DhtKey, Value), DhtError>)
        requires
            old(self).wf(),
            0 <= now <= crate::crypto::CLOCK_CAP,
        ensures
            final(self).wf(),
            self_unchanged_but_storage(*old(self), *final(self)),
            ({
                let short = key_id_of(model::PublicKey::Overlay { name: overlay_id@ });
                &&& (r is Err) == !overlay_node_verified(node@, short)
                &&& (r matches Ok(kv) ==> kv.1@.key.key == (model::DhtKey {
                    id: short,
                    idx: 0,
                    name: crate::storage::nodes_name(),
                }) && kv.0@ == kv.1@.key.key && kv.1@.ttl == now + TIMEOUT_VALUE
                    && kv.1@.key.update_rule == model::UpdateRule::OverlayNodes
                    && dec_payload_full(kv.1@.value) == Some(
                    model::Payload::OverlayNodes { nodes: seq![node@] },
                ))
                &&& (r matches Ok(kv) ==> final(self).spec_storage() == overlay_store_outcome(
                    old(self).spec_storage(),
                    dht_key_hash_spec(kv.0@),
                    kv.1@,
                    now,
                ).1)
                &&& (r is Err ==> final(self).spec_storage() == old(self).spec_storage())
            }),
    {
        let overlay_key = PublicKey::Overlay { name: clone_bytes(overlay_id) };
        let short = key_id(&overlay_key);
        if !verify_overlay_node(&short, node) {
            return Err(DhtError::SignatureInvalid);
        }
        let mut nodes: Vec<OverlayNode> = Vec::new();
        nodes.push(clone_overlay_node(node));
        proof {
            assert(crate::types::views_of_overlay_nodes(nodes@) =~= seq![node@]);
        }
        let payload = serialize_payload(&(Payload::OverlayNodes { nodes }));
        let n_sig = node.signature.len();
        let n_name: usize = match &node.id {
            PublicKey::Overlay { name } => name.len(),
            PublicKey::Ed25519 { .. } => 0,
        };
        proof {
            assert(node.signature@.len() == n_sig);
            assert(model::wf_overlay_node(node@));
            assert(model::wf_overlay_node_seq(seq![node@]));
            crate::codec::lemma_payload_roundtrip(
                model::Payload::OverlayNodes { nodes: seq![node@] },
            );
        }
        let name = nodes_name_bytes();
        let key = DhtKey { id: short, idx: 0, name };
        let value = Value {
            key: KeyDescription {
                id: overlay_key,
                key: clone_dht_key(&key),
                update_rule: UpdateRule::OverlayNodes,
                signature: Vec::new(),
            },
            value: payload,
            ttl: now + TIMEOUT_VALUE,
            signature: Vec::new(),
        };
        let hash = dht_key_hash(&key);
        let stored = clone_value(&value);
        let _ = self.storage.process_store_overlay_nodes(hash, stored, now);
        Ok((key, value))
    }

    /// Read a record payload as an address list beside its owner's key.
    pub fn parse_value_as_address(key: &KeyDescription, payload: &Vec<u8>) -> (r: Result<
        (AddressList, PublicKey),
        DhtError,
    >)
        ensures
            match dec_payload_full(payload@) {
                Some(pl) => match pl {
                    model::Payload::AddressList { list } => r matches Ok(p) && p.0@ == list && p.1@
                        == key@.id,
                    _ => r == Err::<(AddressList, PublicKey), DhtError>(DhtError::MalformedMessage),
                },
                None => r == Err::<(AddressList, PublicKey), DhtError>(DhtError::MalformedMessage),
            },
    {
        match crate::codec::deserialize_payload(payload) {
            Some(Payload::AddressList { list }) => Ok((list, clone_pubkey(&key.id))),
            _ => Err(DhtError::MalformedMessage),
        }
    }

    /// Fetch a peer's address record from local storage only: the parsed
    /// fresh record if one is stored, nothing if the slot is absent or
    /// expired, an error if the stored payload is not an address list.
    pub fn fetch_address(&self, key_id: &[u8; 32], now: i64) -> (r: Result<
        Option<(AddressList, PublicKey)>,
        DhtError,
    >)
        requires
            self.wf(),
        ensures
            ({
                let hash = dht_key_hash_spec(
                    model::DhtKey { id: key_id@, idx: 0, name: address_name() },
                );
                let m = self.spec_storage();
                if m.contains_key(hash) && m[hash].ttl > now {
                    match dec_payload_full(m[hash].value) {
                        Some(pl) => match pl {
                            model::Payload::AddressList { list } => r matches Ok(o) && (o matches
                                Some(p) && p.0@ == list && p.1@ == m[hash].key.id),
                            _ => r == Err::<Option<(AddressList, PublicKey)>, DhtError>(
                                DhtError::MalformedMessage,
                            ),
                        },
                        None => r == Err::<Option<(AddressList, PublicKey)>, DhtError>(
                            DhtError::MalformedMessage,
                        ),
                    }
                } else {
                    r == Ok::<Option<(AddressList, PublicKey)>, DhtError>(None)
                }
            }),
    {
        let name = address_name_bytes();
        let key = DhtKey { id: *key_id, idx: 0, name };
        let hash = dht_key_hash(&key);
        match self.storage.get(&hash, now) {
            Some(value) => {
                match Self::parse_value_as_address(&value.key, &value.value) {
                    Ok(p) => Ok(Some(p)),
                    Err(e) => Err(e),
                }
            },
            None => Ok(None),
        }
    }

    /// Whether a lookup result set proves this node's own address record
    /// was stored: some record decodes to exactly its address list.
    pub fn check_stored_address(results: &Vec<(KeyDescription, Payload)>, own: &AddressList) -> (r:
        bool)
        ensures
            r == exists|i: int|
                0 <= i < results@.len() && (#[trigger] results@[i].1)@ == (
                model::Payload::AddressList { list: own@ }),
    {
        let mut i: usize = 0;
        while i < results.len()
            invariant
                0 <= i <= results@.len(),
                forall|j: int|
                    0 <= j < i ==> (#[trigger] results@[j].1)@ != (model::Payload::AddressList {
                        list: own@,
                    }),
            decreases results@.len() - i,
        {
            match &results[i].1 {
                Payload::AddressList { list } => {
                    if crate::types::addr_list_eq(list, own) {
                        return true;
                    }
                },
                _ => {},
            }
            i = i + 1;
        }
        false
    }

    /// Whether a lookup result set proves an overlay node was stored: some
    /// record's node list carries exactly that node.
    pub fn check_stored_overlay_node(results: &Vec<(KeyDescription, Payload)>, node: &OverlayNode)
        -> (r: bool)
        ensures
            r == exists|i: int|
                0 <= i < results@.len() && payload_has_overlay_node(
                    (#[trigger] results@[i].1)@,
                    node@,
                ),
    {
        let mut i: usize = 0;
        while i < results.len()
            invariant
                0 <= i <= results@.len(),
                forall|j2: int|
                    0 <= j2 < i ==> !payload_has_overlay_node((#[trigger] results@[j2].1)@, node@),
            decreases results@.len() - i,
        {
            match &results[i].1 {
                Payload::OverlayNodes { nodes } => {
                    proof {
                        assert(results@[i as int].1@ == (model::Payload::OverlayNodes {
                            nodes: crate::types::views_of_overlay_nodes(nodes@),
                        }));
                    }
                    let mut l: usize = 0;
                    while l < nodes.len()
                        invariant
                            0 <= l <= nodes@.len(),
                            i < results@.len(),
                            results@[i as int].1@ == (model::Payload::OverlayNodes {
                                nodes: crate::types::views_of_overlay_nodes(nodes@),
                            }),
                            forall|t: int| 0 <= t < l ==> nodes@[t]@ != node@,
                        decreases nodes@.len() - l,
                    {
                        if crate::types::overlay_node_eq(&nodes[l], node) {
                            proof {
                                let vs = crate::types::views_of_overlay_nodes(nodes@);
                                assert(vs.len() == nodes@.len());
                                assert(vs[l as int] == node@);
                                lemma_index_implies_contains(vs, node@, l as int);
                                assert(payload_has_overlay_node(results@[i as int].1@, node@));
                            }
                            return true;
                        }
                        l = l + 1;
                    }
                    proof {
                        assert forall|t: int|
                            0 <= t < crate::types::views_of_overlay_nodes(nodes@).len()
                                implies crate::types::views_of_overlay_nodes(nodes@)[t]
                            != node@ by {
                            assert(crate::types::views_of_overlay_nodes(nodes@)[t] == nodes@[t]@);
                        }
                        lemma_no_index_implies_not_contains(
                            crate::types::views_of_overlay_nodes(nodes@),
                            node@,
                        );
                        assert(!payload_has_overlay_node(results@[i as int].1@, node@));
                    }
                },
                _ => {},
            }
            i = i + 1;
        }
        false
    }
}

/// Build a peer descriptor from an endpoint and base64 key material, as
/// published in network directories: a fixed version of -1 and the given
/// signature, to be checked on first contact.
pub fn build_dht_node_info(ip: u32, port: u16, key: &str, signature: &str) -> (r: Result<
    Node,
    DhtError,
>)
    ensures
        match crate::crypto::base64_decoded(key@) {
            Some(kb) => if kb.len() == 32 {
                match crate::crypto::base64_decoded(signature@) {
                    Some(sb) => r matches Ok(n) && n@.id == (model::PublicKey::Ed25519 {
                        key: kb,
                    }) && n@.signature == sb && n@.version == -1 && n@.addr_list.addrs == seq![
                        model::Address { ip, port },
                    ],
                    None => r is Err,
                }
            } else {
                r is Err
            },
            None => r is Err,
        },
{
    let kb = match crate::crypto::base64_decode_key32(key) {
        Some(a) => a,
        None => {
            return Err(DhtError::MalformedMessage);
        },
    };
    let sb = match crate::crypto::base64_decode_bytes(signature) {
        Some(v) => v,
        None => {
            return Err(DhtError::MalformedMessage);
        },
    };
    let mut addrs: Vec<crate::types::Address> = Vec::new();
    addrs.push(crate::types::Address { ip, port });
    let node = Node {
        id: PublicKey::Ed25519 { key: kb },
        addr_list: AddressList { addrs, version: 0, reinit_date: 0, priority: 0, expire_at: 0 },
        version: -1,
        signature: sb,
    };
    proof {
        assert(node@.addr_list.addrs =~= seq![model::Address { ip, port }]);
    }
    Ok(node)
}


/// What a store round does next: finish on a satisfied read-back check,
/// run another round when the peer list has grown, give up otherwise.
#[derive(Clone, Copy, Debug, PartialEq, Eq)]
pub enum StoreAction {
    Finish { ok: bool },
    Repeat,
}

/// Decide how a store-and-read-back round continues.
pub fn store_round_next(check_ok: bool, new_peer: bool) -> (r: StoreAction)
    ensures
        check_ok ==> r == (StoreAction::Finish { ok: true }),
        !check_ok && new_peer ==> r == StoreAction::Repeat,
        !check_ok && !new_peer ==> r == (StoreAction::Finish { ok: false }),
{
    if check_ok {
        StoreAction::Finish { ok: true }
    } else if new_peer {
        StoreAction::Repeat
    } else {
        StoreAction::Finish { ok: false }
    }
}

/// Whether a key id occurs in a list of taken ids.
pub open spec fn id_seen(seen: Seq<Seq<u8>>, kid: Seq<u8>) -> bool {
    exists|i: int| 0 <= i < seen.len() && (#[trigger] seen[i]) == kid
}

/// The member a search works on next: scanning the pending list from its
/// end, the first member whose key id is unseen and fits the seen bound.
pub open spec fn next_pick(p: Seq<model::OverlayNode>, seen: Seq<Seq<u8>>, limit: u32) -> Option<
    (int, model::OverlayNode),
>
    decreases p.len(),
{
    if p.len() == 0 {
        None
    } else {
        let m = p.last();
        if !id_seen(seen, key_id_of(m.id)) && seen.len() < limit {
            Some((p.len() - 1, m))
        } else {
            next_pick(p.drop_last(), seen, limit)
        }
    }
}

/// One overlay member search: members still to resolve, the member key ids
/// already taken up, and the members resolved to an address.
pub struct OverlaySearch {
    pub pending: Vec<OverlayNode>,
    pub seen: PeerCache,
    pub found: Vec<(AddressList, OverlayNode)>,
}

impl OverlaySearch {
    pub open spec fn spec_seen(&self) -> PeerCache {
        self.seen
    }

    pub open spec fn wf(&self) -> bool {
        &&& self.spec_seen().wf()
        &&& self.spec_seen().limit_spec() == MAX_PEERS
    }

    /// An empty search.
    pub fn new_search() -> (r: OverlaySearch)
        ensures
            r.wf(),
            r.pending@.len() == 0,
            r.found@.len() == 0,
            r.spec_seen().view_seq().len() == 0,
    {
        OverlaySearch {
            pending: Vec::new(),
            seen: PeerCache::with_limit(MAX_PEERS),
            found: Vec::new(),
        }
    }

    /// Queue freshly learned members for resolution.
    pub fn push_members(&mut self, nodes: &mut Vec<OverlayNode>)
        requires
            old(self).wf(),
        ensures
            final(self).wf(),
            final(self).pending@ == old(self).pending@ + old(nodes)@,
            final(nodes)@.len() == 0,
            final(self).found@ == old(self).found@,
            final(self).spec_seen() == old(self).spec_seen(),
    {
        self.pending.append(nodes);
    }

    /// The next member to resolve: the last pending member whose key id
    /// was not taken up before, skipped members being dropped; its key id
    /// is marked seen. None once every pending member's id is taken or
    /// does not fit the bound; the pending list is then empty.
    #[verifier::rlimit(60)]
    pub fn next_member(&mut self) -> (r: Option<OverlayNode>)
        requires
            old(self).wf(),
        ensures
            final(self).wf(),
            final(self).found@ == old(self).found@,
            ({
                let pv = crate::types::views_of_overlay_nodes(old(self).pending@);
                let sv = old(self).spec_seen().view_seq();
                match next_pick(pv, sv, MAX_PEERS) {
                    Some(jm) => (r matches Some(x) && x@ == jm.1)
                        && crate::types::views_of_overlay_nodes(final(self).pending@) == pv.take(
                        jm.0,
                    ) && final(self).spec_seen().view_seq() == sv.push(key_id_of(jm.1.id)),
                    None => r is None && final(self).pending@.len() == 0 && final(self).spec_seen().view_seq() == sv,
                }
            }),
    {
        let ghost pv = crate::types::views_of_overlay_nodes(old(self).pending@);
        let ghost sv = old(self).spec_seen().view_seq();
        proof {
            assert(crate::types::views_of_overlay_nodes(self.pending@) =~= pv.take(
                self.pending@.len() as int,
            ));
        }
        loop
            invariant
                self.wf(),
                self.found@ == old(self).found@,
                self.seen.view_seq() == sv,
                sv == old(self).spec_seen().view_seq(),
                pv == crate::types::views_of_overlay_nodes(old(self).pending@),
                self.pending@.len() <= old(self).pending@.len(),
                crate::types::views_of_overlay_nodes(self.pending@) == pv.take(
                    self.pending@.len() as int,
                ),
                next_pick(pv, sv, MAX_PEERS) == next_pick(
                    pv.take(self.pending@.len() as int),
                    sv,
                    MAX_PEERS,
                ),
            decreases self.pending@.len(),
        {
            let ghost l = self.pending@.len() as int;
            let m = match self.pending.pop() {
                Some(m) => m,
                None => {
                    proof {
                        assert(pv.take(0) =~= Seq::<model::OverlayNode>::empty());
                    }
                    return None;
                },
            };
            proof {
                assert(pv.take(l).last() == m@);
                assert(crate::types::views_of_overlay_nodes(self.pending@) =~= pv.take(l)
                    .drop_last());
                assert(pv.take(l).drop_last() =~= pv.take(l - 1));
            }
            let kid = key_id(&m.id);
            let taken = self.seen.put(kid);
            proof {
                assert(id_seen(sv, kid@) == old(self).spec_seen().contains_spec(kid@));
            }
            if taken {
                proof {
                    assert(next_pick(pv.take(l), sv, MAX_PEERS) == Some((l - 1, m@)));
                }
                return Some(m);
            }
            proof {
                assert(next_pick(pv.take(l), sv, MAX_PEERS) == next_pick(
                    pv.take(l - 1),
                    sv,
                    MAX_PEERS,
                ));
            }
        }
    }

    /// Take back the outcome of resolving one member: a member with an
    /// address joins the found list; one without returns to the pending
    /// list for a later round.
    pub fn resolved(&mut self, m: OverlayNode, a: Option<AddressList>)
        requires
            old(self).wf(),
            old(self).pending@.len() < usize::MAX,
            old(self).found@.len() < usize::MAX,
        ensures
            final(self).wf(),
            final(self).spec_seen() == old(self).spec_seen(),
            a matches Some(list) ==> final(self).found@ == old(self).found@.push((list, m))
                && final(self).pending@ == old(self).pending@,
            a is None ==> final(self).pending@ == old(self).pending@.push(m) && final(self).found@
                == old(self).found@,
    {
        match a {
            Some(list) => self.found.push((list, m)),
            None => self.pending.push(m),
        }
    }

    /// Whether the search is over: something was found, or the peer
    /// cursor driving it is exhausted.
    pub fn should_stop(&self, cursor_exhausted: bool) -> (r: bool)
        ensures
            r == (self.found@.len() > 0 || cursor_exhausted),
    {
        self.found.len() > 0 || cursor_exhausted
    }
}

} // verus!




