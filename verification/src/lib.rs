//! A Kademlia-style distributed hash table core: an XOR-bucketed routing
//! table, a signed key/value store with expiry, a deterministic wire codec,
//! and the query/response protocol state machine. Network transport is left
//! to the embedding application; everything that decides or computes is here.
#![allow(unused_imports)]

pub mod dist;
pub mod model;
pub mod types;
pub mod codec;
pub mod crypto;
pub mod cache;
pub mod routing;
pub mod storage;
pub mod node;

use vstd::prelude::*;

verus! {

} // verus!
