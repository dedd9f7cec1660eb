//! Key derivation, signing and verification.
//!
//! The Ed25519 primitives and the digest are outside collaborators; each is
//! reached through one trusted wrapper whose contract names its result. What
//! is signed — the encoding of a descriptor with its signature field cleared
//! — and every decision taken on a verification outcome is verified code.

use vstd::prelude::*;

use ed25519_dalek::Signer;
use ed25519_dalek::Verifier;
use sha2::Digest;

use crate::codec::{
    enc_dht_key, enc_key_desc, enc_node, enc_overlay_node, encode_dht_key, encode_key_desc,
    encode_node, encode_overlay_node, lemma_add_empty_left,
};
use crate::model;
use crate::types::{
    clone_address_list, clone_bytes, clone_dht_key, clone_pubkey, DhtKey, KeyDescription, Node,
    OverlayNode, PublicKey,
};

verus! {

/// The 32-byte digest of a byte string.
pub uninterp spec fn sha256_of(data: Seq<u8>) -> Seq<u8>;

/// The Ed25519 public key derived from a 32-byte secret key.
pub uninterp spec fn ed_pub_of(sk: Seq<u8>) -> Seq<u8>;

/// The Ed25519 signature of a message under a 32-byte secret key.
pub uninterp spec fn ed_sig_of(sk: Seq<u8>, msg: Seq<u8>) -> Seq<u8>;

/// Whether an Ed25519 signature check of `sig` on `msg` under the public key
/// bytes `pk` succeeds.
pub uninterp spec fn ed_verifies(pk: Seq<u8>, msg: Seq<u8>, sig: Seq<u8>) -> bool;

/// What standard, padded base64 text decodes to, if it is well formed.
pub uninterp spec fn base64_decoded(s: Seq<char>) -> Option<Seq<u8>>;

/// Relies on sha2::Sha256 through digest's Digest::digest: a 32-byte value
/// that is a function of the input bytes alone.
#[verifier::external_body]
pub fn sha256(data: &Vec<u8>) -> (r: [u8; 32])
    ensures
        r@ == sha256_of(data@),
        r@.len() == 32,
{
    let out = sha2::Sha256::digest(data.as_slice());
    let mut a = [0u8; 32];
    a.copy_from_slice(&out);
    a
}

/// Relies on ed25519_dalek::SigningKey::from_bytes and
/// SigningKey::verifying_key: every 32-byte string is accepted as a secret
/// key, and the verifying key is a function of it alone.
#[verifier::external_body]
pub fn ed25519_public_key(sk: &[u8; 32]) -> (r: [u8; 32])
    ensures
        r@ == ed_pub_of(sk@),
        r@.len() == 32,
{
    let key = ed25519_dalek::SigningKey::from_bytes(sk);
    key.verifying_key().to_bytes()
}

/// Relies on ed25519_dalek's Signer::sign: Ed25519 signing is deterministic
/// (RFC 8032), yields 64 bytes, and what it signs verifies under the
/// matching verifying key.
#[verifier::external_body]
fn ed25519_sign(sk: &[u8; 32], msg: &Vec<u8>) -> (r: Vec<u8>)
    ensures
        r@ == ed_sig_of(sk@, msg@),
        r@.len() == 64,
        ed_verifies(ed_pub_of(sk@), msg@, r@),
{
    let key = ed25519_dalek::SigningKey::from_bytes(sk);
    key.sign(msg.as_slice()).to_bytes().to_vec()
}

/// Relies on ed25519_dalek::VerifyingKey::from_bytes and Verifier::verify:
/// the outcome is a function of key, message and signature alone; key bytes
/// that decode to no curve point, and signatures that are not 64 bytes,
/// never verify.
#[verifier::external_body]
fn ed25519_verify(pk: &[u8; 32], msg: &Vec<u8>, sig: &Vec<u8>) -> (r: bool)
    ensures
        r == ed_verifies(pk@, msg@, sig@),
        sig@.len() != 64 ==> !r,
{
    if sig.len() != 64 {
        return false;
    }
    let vk = match ed25519_dalek::VerifyingKey::from_bytes(pk) {
        Ok(vk) => vk,
        Err(_) => return false,
    };
    let mut sb = [0u8; 64];
    sb.copy_from_slice(sig.as_slice());
    let sig = ed25519_dalek::Signature::from_bytes(&sb);
    vk.verify(msg.as_slice(), &sig).is_ok()
}

/// Relies on base64's STANDARD engine decode: the result is a function of
/// the characters alone, present exactly on well-formed padded base64.
#[verifier::external_body]
fn base64_decode(s: &str) -> (r: Option<Vec<u8>>)
    ensures
        r matches Some(v) ==> base64_decoded(s@) == Some(v@),
        r is None ==> base64_decoded(s@) is None,
{
    base64::engine::Engine::decode(&base64::engine::general_purpose::STANDARD, s).ok()
}

/// Relies on rand::random: nothing is promised of the drawn value.
#[verifier::external_body]
pub fn random_query_id() -> (r: i64) {
    rand::random::<i64>()
}

/// Relies on std::time::SystemTime::now and duration_since: seconds since
/// the epoch as the clock reports them; nothing more is promised.
#[verifier::external_body]
fn system_now_secs() -> (r: u64) {
    match std::time::SystemTime::now().duration_since(std::time::UNIX_EPOCH) {
        Ok(d) => d.as_secs(),
        Err(_) => 0,
    }
}

pub const CLOCK_CAP: i64 = 0x7fff_ffff_ffff;

/// The wall clock in whole seconds, capped so that adding any protocol
/// timeout cannot overflow.
pub fn now_secs() -> (r: i64)
    ensures
        0 <= r <= CLOCK_CAP,
{
    let s = system_now_secs();
    if s > CLOCK_CAP as u64 {
        CLOCK_CAP
    } else {
        s as i64
    }
}

// ----------------------------------------------------------- signed encodings

/// A peer descriptor with its signature cleared.
pub open spec fn node_cleared(n: model::Node) -> model::Node {
    model::Node { signature: Seq::empty(), ..n }
}

/// The bytes a peer descriptor signs: its encoding, signature cleared.
pub open spec fn node_signing_payload(n: model::Node) -> Seq<u8> {
    enc_node(node_cleared(n))
}

/// A key description with its signature cleared.
pub open spec fn key_desc_cleared(d: model::KeyDescription) -> model::KeyDescription {
    model::KeyDescription { signature: Seq::empty(), ..d }
}

/// The bytes a key description signs: its encoding, signature cleared.
pub open spec fn key_desc_signing_payload(d: model::KeyDescription) -> Seq<u8> {
    enc_key_desc(key_desc_cleared(d))
}

/// A stored record with its signature cleared.
pub open spec fn value_cleared(v: model::Value) -> model::Value {
    model::Value { signature: Seq::empty(), ..v }
}

/// The bytes a stored record signs: its encoding, signature cleared.
pub open spec fn value_signing_payload(v: model::Value) -> Seq<u8> {
    crate::codec::enc_value(value_cleared(v))
}

/// An overlay node with its signature cleared.
pub open spec fn overlay_node_cleared(n: model::OverlayNode) -> model::OverlayNode {
    model::OverlayNode { signature: Seq::empty(), ..n }
}

/// The bytes an overlay node signs: its encoding, signature cleared.
pub open spec fn overlay_node_signing_payload(n: model::OverlayNode) -> Seq<u8> {
    enc_overlay_node(overlay_node_cleared(n))
}

/// A verifying peer descriptor: its id is an Ed25519 key under which the
/// cleared encoding carries a valid signature.
pub open spec fn node_verified(n: model::Node) -> bool {
    match n.id {
        model::PublicKey::Ed25519 { key } => ed_verifies(key, node_signing_payload(n), n.signature),
        model::PublicKey::Overlay { .. } => false,
    }
}

/// A verifying stored record: both the key description and the record
/// itself verify under the Ed25519 key named in the key description.
pub open spec fn value_verified(v: model::Value) -> bool {
    match v.key.id {
        model::PublicKey::Ed25519 { key } => ed_verifies(
            key,
            key_desc_signing_payload(v.key),
            v.key.signature,
        ) && ed_verifies(key, value_signing_payload(v), v.signature),
        model::PublicKey::Overlay { .. } => false,
    }
}

/// A verifying overlay node for a given overlay: it names that overlay and
/// its cleared encoding verifies under its Ed25519 key.
pub open spec fn overlay_node_verified(n: model::OverlayNode, overlay_id: Seq<u8>) -> bool {
    &&& n.overlay == overlay_id
    &&& match n.id {
        model::PublicKey::Ed25519 { key } => ed_verifies(
            key,
            overlay_node_signing_payload(n),
            n.signature,
        ),
        model::PublicKey::Overlay { .. } => false,
    }
}

/// The bytes of the cleared encoding of a peer descriptor.
pub fn node_to_sign_bytes(n: &Node) -> (r: Vec<u8>)
    ensures
        r@ == node_signing_payload(n@),
{
    let cleared = Node {
        id: clone_pubkey(&n.id),
        addr_list: clone_address_list(&n.addr_list),
        version: n.version,
        signature: Vec::new(),
    };
    proof {
        assert(cleared@ == node_cleared(n@));
    }
    let mut out: Vec<u8> = Vec::new();
    encode_node(&cleared, &mut out);
    proof {
        lemma_add_empty_left(enc_node(cleared@));
    }
    out
}

/// The bytes of the cleared encoding of a key description.
pub fn key_desc_to_sign_bytes(d: &KeyDescription) -> (r: Vec<u8>)
    ensures
        r@ == key_desc_signing_payload(d@),
{
    let cleared = KeyDescription {
        id: clone_pubkey(&d.id),
        key: clone_dht_key(&d.key),
        update_rule: d.update_rule,
        signature: Vec::new(),
    };
    proof {
        assert(cleared@ == key_desc_cleared(d@));
    }
    let mut out: Vec<u8> = Vec::new();
    encode_key_desc(&cleared, &mut out);
    proof {
        lemma_add_empty_left(enc_key_desc(cleared@));
    }
    out
}

/// The bytes of the cleared encoding of a stored record.
pub fn value_to_sign_bytes(v: &crate::types::Value) -> (r: Vec<u8>)
    ensures
        r@ == value_signing_payload(v@),
{
    let cleared = crate::types::Value {
        key: crate::types::clone_key_description(&v.key),
        value: clone_bytes(&v.value),
        ttl: v.ttl,
        signature: Vec::new(),
    };
    proof {
        assert(cleared@ == value_cleared(v@));
    }
    let mut out: Vec<u8> = Vec::new();
    crate::codec::encode_value(&cleared, &mut out);
    proof {
        lemma_add_empty_left(crate::codec::enc_value(cleared@));
    }
    out
}

/// The bytes of the cleared encoding of an overlay node.
pub fn overlay_node_to_sign_bytes(n: &OverlayNode) -> (r: Vec<u8>)
    ensures
        r@ == overlay_node_signing_payload(n@),
{
    let cleared = OverlayNode {
        id: clone_pubkey(&n.id),
        overlay: n.overlay,
        version: n.version,
        signature: Vec::new(),
    };
    proof {
        assert(cleared@ == overlay_node_cleared(n@));
    }
    let mut out: Vec<u8> = Vec::new();
    encode_overlay_node(&cleared, &mut out);
    proof {
        lemma_add_empty_left(enc_overlay_node(cleared@));
    }
    out
}

/// Sign a peer descriptor: the signature field is replaced by the Ed25519
/// signature of the cleared encoding. A descriptor whose id is the public
/// key derived from `sk` then verifies: the sign/verify round trip.
pub fn sign_node(n: &Node, sk: &[u8; 32]) -> (r: Node)
    ensures
        r@ == (model::Node { signature: ed_sig_of(sk@, node_signing_payload(n@)), ..n@ }),
        r@.signature.len() == 64,
        n@.id == (model::PublicKey::Ed25519 { key: ed_pub_of(sk@) }) ==> node_verified(r@),
{
    let payload = node_to_sign_bytes(n);
    let signature = ed25519_sign(sk, &payload);
    let r = Node {
        id: clone_pubkey(&n.id),
        addr_list: clone_address_list(&n.addr_list),
        version: n.version,
        signature,
    };
    proof {
        assert(node_cleared(r@) == node_cleared(n@));
    }
    r
}

/// Sign a key description in the same way.
pub fn sign_key_description(d: &KeyDescription, sk: &[u8; 32]) -> (r: KeyDescription)
    ensures
        r@ == (model::KeyDescription {
            signature: ed_sig_of(sk@, key_desc_signing_payload(d@)),
            ..d@
        }),
        d@.id == (model::PublicKey::Ed25519 { key: ed_pub_of(sk@) }) ==> ed_verifies(
            ed_pub_of(sk@),
            key_desc_signing_payload(r@),
            r@.signature,
        ),
{
    let payload = key_desc_to_sign_bytes(d);
    let signature = ed25519_sign(sk, &payload);
    let r = KeyDescription {
        id: clone_pubkey(&d.id),
        key: clone_dht_key(&d.key),
        update_rule: d.update_rule,
        signature,
    };
    proof {
        assert(key_desc_cleared(r@) == key_desc_cleared(d@));
    }
    r
}

/// Sign a stored record in the same way.
pub fn sign_value_record(v: &crate::types::Value, sk: &[u8; 32]) -> (r: crate::types::Value)
    ensures
        r@ == (model::Value { signature: ed_sig_of(sk@, value_signing_payload(v@)), ..v@ }),
        v@.key.id == (model::PublicKey::Ed25519 { key: ed_pub_of(sk@) }) && ed_verifies(
            ed_pub_of(sk@),
            key_desc_signing_payload(v@.key),
            v@.key.signature,
        ) ==> value_verified(r@),
{
    let payload = value_to_sign_bytes(v);
    let signature = ed25519_sign(sk, &payload);
    let r = crate::types::Value {
        key: crate::types::clone_key_description(&v.key),
        value: clone_bytes(&v.value),
        ttl: v.ttl,
        signature,
    };
    proof {
        assert(value_cleared(r@) == value_cleared(v@));
    }
    r
}

/// Sign an overlay node in the same way.
pub fn sign_overlay_node(n: &OverlayNode, sk: &[u8; 32]) -> (r: OverlayNode)
    ensures
        r@ == (model::OverlayNode {
            signature: ed_sig_of(sk@, overlay_node_signing_payload(n@)),
            ..n@
        }),
        n@.id == (model::PublicKey::Ed25519 { key: ed_pub_of(sk@) }) ==> overlay_node_verified(
            r@,
            n@.overlay,
        ),
{
    let payload = overlay_node_to_sign_bytes(n);
    let signature = ed25519_sign(sk, &payload);
    let r = OverlayNode {
        id: clone_pubkey(&n.id),
        overlay: n.overlay,
        version: n.version,
        signature,
    };
    proof {
        assert(overlay_node_cleared(r@) == overlay_node_cleared(n@));
    }
    r
}

/// Check a peer descriptor as received: signature of the cleared encoding
/// under the descriptor's own Ed25519 key.
pub fn verify_node_signature(n: &Node) -> (r: bool)
    ensures
        r == node_verified(n@),
{
    match &n.id {
        PublicKey::Ed25519 { key } => {
            let payload = node_to_sign_bytes(n);
            ed25519_verify(key, &payload, &n.signature)
        },
        PublicKey::Overlay { .. } => false,
    }
}

/// Check a stored record: key description and record both verify under the
/// key named in the key description.
pub fn verify_value_signatures(v: &crate::types::Value) -> (r: bool)
    ensures
        r == value_verified(v@),
{
    match &v.key.id {
        PublicKey::Ed25519 { key } => {
            let key_payload = key_desc_to_sign_bytes(&v.key);
            if !ed25519_verify(key, &key_payload, &v.key.signature) {
                return false;
            }
            let value_payload = value_to_sign_bytes(v);
            ed25519_verify(key, &value_payload, &v.signature)
        },
        PublicKey::Overlay { .. } => false,
    }
}

/// Check an overlay node against the overlay it claims.
pub fn verify_overlay_node(overlay_id: &[u8; 32], n: &OverlayNode) -> (r: bool)
    ensures
        r == overlay_node_verified(n@, overlay_id@),
{
    if !crate::types::arr32_eq(&n.overlay, overlay_id) {
        return false;
    }
    match &n.id {
        PublicKey::Ed25519 { key } => {
            let payload = overlay_node_to_sign_bytes(n);
            ed25519_verify(key, &payload, &n.signature)
        },
        PublicKey::Overlay { .. } => false,
    }
}

/// The storage key of a structured key: the digest of its encoding.
pub open spec fn dht_key_hash_spec(k: model::DhtKey) -> Seq<u8> {
    sha256_of(enc_dht_key(k))
}

/// Hash a structured key to its 32-byte storage key.
pub fn dht_key_hash(k: &DhtKey) -> (r: [u8; 32])
    ensures
        r@ == dht_key_hash_spec(k@),
        r@ == sha256_of(enc_dht_key(k@)),
{
    let mut out: Vec<u8> = Vec::new();
    encode_dht_key(k, &mut out);
    proof {
        lemma_add_empty_left(enc_dht_key(k@));
    }
    sha256(&out)
}

/// The key id of a public-key descriptor: the digest of its encoding.
pub open spec fn key_id_of(k: model::PublicKey) -> Seq<u8> {
    sha256_of(crate::codec::enc_pubkey(k))
}

/// Derive the 32-byte key id of a public-key descriptor.
pub fn key_id(k: &PublicKey) -> (r: [u8; 32])
    ensures
        r@ == key_id_of(k@),
{
    let mut out: Vec<u8> = Vec::new();
    crate::codec::encode_pubkey(k, &mut out);
    proof {
        lemma_add_empty_left(crate::codec::enc_pubkey(k@));
    }
    sha256(&out)
}

/// Decode a base64 string that must hold exactly 32 bytes.
pub fn base64_decode_key32(s: &str) -> (r: Option<[u8; 32]>)
    ensures
        r matches Some(a) ==> base64_decoded(s@) == Some(a@),
        r is None ==> (base64_decoded(s@) is None || base64_decoded(s@)->0.len() != 32),
{
    match base64_decode(s) {
        Some(v) => {
            if v.len() != 32 {
                return None;
            }
            let mut a = [0u8; 32];
            let mut i: usize = 0;
            while i < 32
                invariant
                    0 <= i <= 32,
                    v@.len() == 32,
                    forall|j: int| 0 <= j < i ==> a@[j] == v@[j],
                decreases 32 - i,
            {
                a[i] = v[i];
                i = i + 1;
            }
            proof {
                assert(a@ =~= v@);
            }
            Some(a)
        },
        None => None,
    }
}

/// Decode arbitrary-length base64 text.
pub fn base64_decode_bytes(s: &str) -> (r: Option<Vec<u8>>)
    ensures
        r matches Some(v) ==> base64_decoded(s@) == Some(v@),
        r is None ==> base64_decoded(s@) is None,
{
    base64_decode(s)
}

} // verus!
