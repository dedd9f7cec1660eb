//! Mathematical models of the wire-level data types.
//!
//! Every executable data type of the crate has a ghost counterpart here,
//! reached through its view. Contracts are stated over these models.

use vstd::prelude::*;

verus! {

/// A UDP endpoint.
pub struct Address {
    pub ip: u32,
    pub port: u16,
}

/// Endpoints of a peer plus freshness metadata.
pub struct AddressList {
    pub addrs: Seq<Address>,
    pub version: i32,
    pub reinit_date: i32,
    pub priority: i32,
    pub expire_at: i32,
}

/// A public-key descriptor: an Ed25519 key or an overlay name.
pub enum PublicKey {
    Ed25519 { key: Seq<u8> },
    Overlay { name: Seq<u8> },
}

/// A signed peer descriptor.
pub struct Node {
    pub id: PublicKey,
    pub addr_list: AddressList,
    pub version: i32,
    pub signature: Seq<u8>,
}

/// The structured key whose hash is the storage key.
pub struct DhtKey {
    pub id: Seq<u8>,
    pub idx: i32,
    pub name: Seq<u8>,
}

/// How a stored value may be replaced.
pub enum UpdateRule {
    Signature,
    OverlayNodes,
}

/// A key, its owner and the update rule, signed by the owner.
pub struct KeyDescription {
    pub id: PublicKey,
    pub key: DhtKey,
    pub update_rule: UpdateRule,
    pub signature: Seq<u8>,
}

/// A stored record: described key, payload bytes, expiry, signature.
pub struct Value {
    pub key: KeyDescription,
    pub value: Seq<u8>,
    pub ttl: i64,
    pub signature: Seq<u8>,
}

/// A member record of an overlay.
pub struct OverlayNode {
    pub id: PublicKey,
    pub overlay: Seq<u8>,
    pub version: i32,
    pub signature: Seq<u8>,
}

/// A typed query or response of the protocol.
pub enum Message {
    Ping { random_id: i64 },
    Pong { random_id: i64 },
    FindNode { key: Seq<u8>, k: i32 },
    FindValue { key: Seq<u8>, k: i32 },
    GetSignedAddressList,
    Store { value: Value },
    Nodes { nodes: Seq<Node> },
    ValueFound { value: Value },
    ValueNotFound { nodes: Seq<Node> },
    Stored,
    Query { node: Node },
    NodeInfo { node: Node },
}

/// A decoded record payload: either an address list or an overlay-node list.
pub enum Payload {
    AddressList { list: AddressList },
    OverlayNodes { nodes: Seq<OverlayNode> },
}

pub const LEN_LIMIT: u64 = 0xffff_ffff_ffff_ffff;

pub open spec fn wf_bytes(s: Seq<u8>) -> bool {
    s.len() <= LEN_LIMIT
}

pub open spec fn wf_pubkey(k: PublicKey) -> bool {
    match k {
        PublicKey::Ed25519 { key } => key.len() == 32,
        PublicKey::Overlay { name } => wf_bytes(name),
    }
}

pub open spec fn wf_address_list(l: AddressList) -> bool {
    l.addrs.len() <= LEN_LIMIT
}

pub open spec fn wf_node(n: Node) -> bool {
    &&& wf_pubkey(n.id)
    &&& wf_address_list(n.addr_list)
    &&& wf_bytes(n.signature)
}

pub open spec fn wf_dht_key(k: DhtKey) -> bool {
    &&& k.id.len() == 32
    &&& wf_bytes(k.name)
}

pub open spec fn wf_key_description(d: KeyDescription) -> bool {
    &&& wf_pubkey(d.id)
    &&& wf_dht_key(d.key)
    &&& wf_bytes(d.signature)
}

pub open spec fn wf_value(v: Value) -> bool {
    &&& wf_key_description(v.key)
    &&& wf_bytes(v.value)
    &&& wf_bytes(v.signature)
}

pub open spec fn wf_overlay_node(n: OverlayNode) -> bool {
    &&& wf_pubkey(n.id)
    &&& n.overlay.len() == 32
    &&& wf_bytes(n.signature)
}

pub open spec fn wf_node_seq(s: Seq<Node>) -> bool {
    &&& s.len() <= LEN_LIMIT
    &&& forall|i: int| 0 <= i < s.len() ==> wf_node(#[trigger] s[i])
}

pub open spec fn wf_overlay_node_seq(s: Seq<OverlayNode>) -> bool {
    &&& s.len() <= LEN_LIMIT
    &&& forall|i: int| 0 <= i < s.len() ==> wf_overlay_node(#[trigger] s[i])
}

pub open spec fn wf_message(m: Message) -> bool {
    match m {
        Message::Ping { .. } => true,
        Message::Pong { .. } => true,
        Message::FindNode { key, .. } => key.len() == 32,
        Message::FindValue { key, .. } => key.len() == 32,
        Message::GetSignedAddressList => true,
        Message::Store { value } => wf_value(value),
        Message::Nodes { nodes } => wf_node_seq(nodes),
        Message::ValueFound { value } => wf_value(value),
        Message::ValueNotFound { nodes } => wf_node_seq(nodes),
        Message::Stored => true,
        Message::Query { node } => wf_node(node),
        Message::NodeInfo { node } => wf_node(node),
    }
}

pub open spec fn wf_payload(p: Payload) -> bool {
    match p {
        Payload::AddressList { list } => wf_address_list(list),
        Payload::OverlayNodes { nodes } => wf_overlay_node_seq(nodes),
    }
}

} // verus!
