//! Executable data types of the node: peer descriptors, keys, stored values.

use vstd::prelude::*;

use crate::model;

verus! {

/// A UDP endpoint.
#[derive(Clone, Copy, Debug, PartialEq, Eq)]
pub struct Address {
    pub ip: u32,
    pub port: u16,
}

/// Endpoints of a peer plus freshness metadata.
#[derive(Clone, Debug, PartialEq, Eq)]
pub struct AddressList {
    pub addrs: Vec<Address>,
    pub version: i32,
    pub reinit_date: i32,
    pub priority: i32,
    pub expire_at: i32,
}

/// A public-key descriptor: an Ed25519 key or an overlay name.
#[derive(Clone, Debug, PartialEq, Eq)]
pub enum PublicKey {
    Ed25519 { key: [u8; 32] },
    Overlay { name: Vec<u8> },
}

/// A signed peer descriptor.
#[derive(Clone, Debug, PartialEq, Eq)]
pub struct Node {
    pub id: PublicKey,
    pub addr_list: AddressList,
    pub version: i32,
    pub signature: Vec<u8>,
}

/// The structured key whose hash is the storage key.
#[derive(Clone, Debug, PartialEq, Eq)]
pub struct DhtKey {
    pub id: [u8; 32],
    pub idx: i32,
    pub name: Vec<u8>,
}

/// How a stored value may be replaced.
#[derive(Clone, Copy, Debug, PartialEq, Eq)]
pub enum UpdateRule {
    Signature,
    OverlayNodes,
}

/// A key, its owner and the update rule, signed by the owner.
#[derive(Clone, Debug, PartialEq, Eq)]
pub struct KeyDescription {
    pub id: PublicKey,
    pub key: DhtKey,
    pub update_rule: UpdateRule,
    pub signature: Vec<u8>,
}

/// A stored record: described key, payload bytes, expiry, signature.
#[derive(Clone, Debug, PartialEq, Eq)]
pub struct Value {
    pub key: KeyDescription,
    pub value: Vec<u8>,
    pub ttl: i64,
    pub signature: Vec<u8>,
}

/// A member record of an overlay.
#[derive(Clone, Debug, PartialEq, Eq)]
pub struct OverlayNode {
    pub id: PublicKey,
    pub overlay: [u8; 32],
    pub version: i32,
    pub signature: Vec<u8>,
}

/// The error kinds of the node.
#[derive(Clone, Copy, Debug, PartialEq, Eq)]
pub enum DhtError {
    MalformedMessage,
    SignatureInvalid,
    Expired,
    Unsupported,
    TransportError,
    Internal,
}

/// A typed query or response of the protocol.
#[derive(Clone, Debug, PartialEq, Eq)]
pub enum Message {
    Ping { random_id: i64 },
    Pong { random_id: i64 },
    FindNode { key: [u8; 32], k: i32 },
    FindValue { key: [u8; 32], k: i32 },
    GetSignedAddressList,
    Store { value: Value },
    Nodes { nodes: Vec<Node> },
    ValueFound { value: Value },
    ValueNotFound { nodes: Vec<Node> },
    Stored,
    Query { node: Node },
    NodeInfo { node: Node },
}

/// A decoded record payload: either an address list or an overlay-node list.
#[derive(Clone, Debug, PartialEq, Eq)]
pub enum Payload {
    AddressList { list: AddressList },
    OverlayNodes { nodes: Vec<OverlayNode> },
}

impl View for Address {
    type V = model::Address;

    open spec fn view(&self) -> model::Address {
        model::Address { ip: self.ip, port: self.port }
    }
}

impl View for AddressList {
    type V = model::AddressList;

    open spec fn view(&self) -> model::AddressList {
        model::AddressList {
            addrs: self.addrs@.map_values(|a: Address| a@),
            version: self.version,
            reinit_date: self.reinit_date,
            priority: self.priority,
            expire_at: self.expire_at,
        }
    }
}

impl View for PublicKey {
    type V = model::PublicKey;

    open spec fn view(&self) -> model::PublicKey {
        match self {
            PublicKey::Ed25519 { key } => model::PublicKey::Ed25519 { key: key@ },
            PublicKey::Overlay { name } => model::PublicKey::Overlay { name: name@ },
        }
    }
}

impl View for Node {
    type V = model::Node;

    open spec fn view(&self) -> model::Node {
        model::Node {
            id: self.id@,
            addr_list: self.addr_list@,
            version: self.version,
            signature: self.signature@,
        }
    }
}

impl View for DhtKey {
    type V = model::DhtKey;

    open spec fn view(&self) -> model::DhtKey {
        model::DhtKey { id: self.id@, idx: self.idx, name: self.name@ }
    }
}

impl View for UpdateRule {
    type V = model::UpdateRule;

    open spec fn view(&self) -> model::UpdateRule {
        match self {
            UpdateRule::Signature => model::UpdateRule::Signature,
            UpdateRule::OverlayNodes => model::UpdateRule::OverlayNodes,
        }
    }
}

impl View for KeyDescription {
    type V = model::KeyDescription;

    open spec fn view(&self) -> model::KeyDescription {
        model::KeyDescription {
            id: self.id@,
            key: self.key@,
            update_rule: self.update_rule@,
            signature: self.signature@,
        }
    }
}

impl View for Value {
    type V = model::Value;

    open spec fn view(&self) -> model::Value {
        model::Value {
            key: self.key@,
            value: self.value@,
            ttl: self.ttl,
            signature: self.signature@,
        }
    }
}

impl View for OverlayNode {
    type V = model::OverlayNode;

    open spec fn view(&self) -> model::OverlayNode {
        model::OverlayNode {
            id: self.id@,
            overlay: self.overlay@,
            version: self.version,
            signature: self.signature@,
        }
    }
}

/// The view of a sequence of peer descriptors.
pub open spec fn views_of_nodes(s: Seq<Node>) -> Seq<model::Node> {
    s.map_values(|n: Node| n@)
}

/// The view of a sequence of overlay nodes.
pub open spec fn views_of_overlay_nodes(s: Seq<OverlayNode>) -> Seq<model::OverlayNode> {
    s.map_values(|n: OverlayNode| n@)
}

impl View for Message {
    type V = model::Message;

    open spec fn view(&self) -> model::Message {
        match self {
            Message::Ping { random_id } => model::Message::Ping { random_id: *random_id },
            Message::Pong { random_id } => model::Message::Pong { random_id: *random_id },
            Message::FindNode { key, k } => model::Message::FindNode { key: key@, k: *k },
            Message::FindValue { key, k } => model::Message::FindValue { key: key@, k: *k },
            Message::GetSignedAddressList => model::Message::GetSignedAddressList,
            Message::Store { value } => model::Message::Store { value: value@ },
            Message::Nodes { nodes } => model::Message::Nodes { nodes: views_of_nodes(nodes@) },
            Message::ValueFound { value } => model::Message::ValueFound { value: value@ },
            Message::ValueNotFound { nodes } => model::Message::ValueNotFound {
                nodes: views_of_nodes(nodes@),
            },
            Message::Stored => model::Message::Stored,
            Message::Query { node } => model::Message::Query { node: node@ },
            Message::NodeInfo { node } => model::Message::NodeInfo { node: node@ },
        }
    }
}

impl View for Payload {
    type V = model::Payload;

    open spec fn view(&self) -> model::Payload {
        match self {
            Payload::AddressList { list } => model::Payload::AddressList { list: list@ },
            Payload::OverlayNodes { nodes } => model::Payload::OverlayNodes {
                nodes: views_of_overlay_nodes(nodes@),
            },
        }
    }
}

/// Equality of two 32-byte ids, byte for byte.
pub fn arr32_eq(a: &[u8; 32], b: &[u8; 32]) -> (r: bool)
    ensures
        r == (a@ == b@),
{
    let mut i: usize = 0;
    while i < 32
        invariant
            0 <= i <= 32,
            forall|j: int| 0 <= j < i ==> a@[j] == b@[j],
        decreases 32 - i,
    {
        if a[i] != b[i] {
            return false;
        }
        i = i + 1;
    }
    proof {
        assert(a@ =~= b@);
    }
    true
}

/// Equality of two byte strings.
pub fn bytes_eq(a: &Vec<u8>, b: &Vec<u8>) -> (r: bool)
    ensures
        r == (a@ == b@),
{
    if a.len() != b.len() {
        proof {
            assert(a@.len() != b@.len());
        }
        return false;
    }
    let mut i: usize = 0;
    while i < a.len()
        invariant
            0 <= i <= a@.len(),
            a@.len() == b@.len(),
            forall|j: int| 0 <= j < i ==> a@[j] == b@[j],
        decreases a@.len() - i,
    {
        if a[i] != b[i] {
            return false;
        }
        i = i + 1;
    }
    proof {
        assert(a@ =~= b@);
    }
    true
}

/// Equality of two public-key descriptors.
pub fn pubkey_eq(a: &PublicKey, b: &PublicKey) -> (r: bool)
    ensures
        r == (a@ == b@),
{
    match (a, b) {
        (PublicKey::Ed25519 { key: ka }, PublicKey::Ed25519 { key: kb }) => arr32_eq(ka, kb),
        (PublicKey::Overlay { name: na }, PublicKey::Overlay { name: nb }) => bytes_eq(na, nb),
        _ => false,
    }
}


/// A verified deep copy of a byte string.
pub fn clone_bytes(v: &Vec<u8>) -> (r: Vec<u8>)
    ensures
        r@ == v@,
{
    let mut r: Vec<u8> = Vec::new();
    let mut i: usize = 0;
    while i < v.len()
        invariant
            0 <= i <= v@.len(),
            r@ == v@.take(i as int),
        decreases v@.len() - i,
    {
        r.push(v[i]);
        i = i + 1;
        assert(r@ =~= v@.take(i as int));
    }
    proof {
        assert(v@.take(v@.len() as int) =~= v@);
    }
    r
}

/// A verified deep copy of an address list.
pub fn clone_address_list(l: &AddressList) -> (r: AddressList)
    ensures
        r@ == l@,
{
    let mut addrs: Vec<Address> = Vec::new();
    let mut i: usize = 0;
    while i < l.addrs.len()
        invariant
            0 <= i <= l.addrs@.len(),
            addrs@ == l.addrs@.take(i as int),
        decreases l.addrs@.len() - i,
    {
        addrs.push(l.addrs[i]);
        i = i + 1;
        assert(addrs@ =~= l.addrs@.take(i as int));
    }
    proof {
        assert(l.addrs@.take(l.addrs@.len() as int) =~= l.addrs@);
    }
    let r = AddressList {
        addrs,
        version: l.version,
        reinit_date: l.reinit_date,
        priority: l.priority,
        expire_at: l.expire_at,
    };
    proof {
        assert(r@.addrs =~= l@.addrs);
    }
    r
}

/// A verified deep copy of a public-key descriptor.
pub fn clone_pubkey(k: &PublicKey) -> (r: PublicKey)
    ensures
        r@ == k@,
{
    match k {
        PublicKey::Ed25519 { key } => PublicKey::Ed25519 { key: *key },
        PublicKey::Overlay { name } => PublicKey::Overlay { name: clone_bytes(name) },
    }
}

/// A verified deep copy of a structured key.
pub fn clone_dht_key(k: &DhtKey) -> (r: DhtKey)
    ensures
        r@ == k@,
{
    DhtKey { id: k.id, idx: k.idx, name: clone_bytes(&k.name) }
}

/// A verified deep copy of a key description.
pub fn clone_key_description(d: &KeyDescription) -> (r: KeyDescription)
    ensures
        r@ == d@,
{
    KeyDescription {
        id: clone_pubkey(&d.id),
        key: clone_dht_key(&d.key),
        update_rule: d.update_rule,
        signature: clone_bytes(&d.signature),
    }
}

/// A verified deep copy of a stored record.
pub fn clone_value(v: &Value) -> (r: Value)
    ensures
        r@ == v@,
{
    Value {
        key: clone_key_description(&v.key),
        value: clone_bytes(&v.value),
        ttl: v.ttl,
        signature: clone_bytes(&v.signature),
    }
}

/// A verified deep copy of a peer descriptor.
pub fn clone_node(n: &Node) -> (r: Node)
    ensures
        r@ == n@,
{
    Node {
        id: clone_pubkey(&n.id),
        addr_list: clone_address_list(&n.addr_list),
        version: n.version,
        signature: clone_bytes(&n.signature),
    }
}

/// A verified deep copy of an overlay node.
pub fn clone_overlay_node(n: &OverlayNode) -> (r: OverlayNode)
    ensures
        r@ == n@,
{
    OverlayNode {
        id: clone_pubkey(&n.id),
        overlay: n.overlay,
        version: n.version,
        signature: clone_bytes(&n.signature),
    }
}


/// Equality of two endpoint lists, field for field.
pub fn addr_list_eq(a: &AddressList, b: &AddressList) -> (r: bool)
    ensures
        r == (a@ == b@),
{
    if a.version != b.version || a.reinit_date != b.reinit_date || a.priority != b.priority
        || a.expire_at != b.expire_at {
        proof {
            assert(a@ != b@);
        }
        return false;
    }
    if a.addrs.len() != b.addrs.len() {
        proof {
            assert(a@.addrs.len() != b@.addrs.len());
        }
        return false;
    }
    let mut i: usize = 0;
    while i < a.addrs.len()
        invariant
            0 <= i <= a.addrs@.len(),
            a.addrs@.len() == b.addrs@.len(),
            a.version == b.version,
            a.reinit_date == b.reinit_date,
            a.priority == b.priority,
            a.expire_at == b.expire_at,
            forall|j: int| 0 <= j < i ==> a.addrs@[j]@ == b.addrs@[j]@,
        decreases a.addrs@.len() - i,
    {
        if a.addrs[i].ip != b.addrs[i].ip || a.addrs[i].port != b.addrs[i].port {
            proof {
                assert(a@.addrs[i as int] != b@.addrs[i as int]);
            }
            return false;
        }
        i = i + 1;
    }
    proof {
        assert(a@.addrs =~= b@.addrs);
    }
    true
}

/// Equality of two overlay nodes, field for field.
pub fn overlay_node_eq(a: &OverlayNode, b: &OverlayNode) -> (r: bool)
    ensures
        r == (a@ == b@),
{
    if !pubkey_eq(&a.id, &b.id) {
        return false;
    }
    if !arr32_eq(&a.overlay, &b.overlay) {
        return false;
    }
    if a.version != b.version {
        return false;
    }
    bytes_eq(&a.signature, &b.signature)
}

} // verus!


