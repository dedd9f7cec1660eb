//! Deterministic wire codec.
//!
//! Every message and record is encoded length-delimited, little-endian,
//! tag-discriminated. For each shape there is a specification encoder
//! `enc_*`, a specification decoder `dec_*` that consumes a prefix and
//! returns the remainder, a proved round-trip lemma, and executable
//! `encode_*` / `decode_*` functions tied exactly to the specifications.

use vstd::prelude::*;

use vstd::arithmetic::div_mod::{lemma_div_denominator, lemma_fundamental_div_mod};

use crate::model;
use crate::types::{Address, AddressList, DhtKey, KeyDescription, Message, Node, OverlayNode, Payload, PublicKey, UpdateRule, Value, views_of_nodes, views_of_overlay_nodes};

verus! {

pub proof fn lemma_add_assoc(a: Seq<u8>, b: Seq<u8>, c: Seq<u8>)
    ensures
        (a + b) + c == a + (b + c),
{
    assert((a + b) + c =~= a + (b + c));
}

pub proof fn lemma_add_empty_right(a: Seq<u8>)
    ensures
        a + Seq::<u8>::empty() == a,
{
    assert(a + Seq::<u8>::empty() =~= a);
}

pub proof fn lemma_add_empty_left(a: Seq<u8>)
    ensures
        Seq::<u8>::empty() + a == a,
{
    assert(Seq::<u8>::empty() + a =~= a);
}

// ---------------------------------------------------------------- primitives

pub open spec fn enc_u16(x: u16) -> Seq<u8> {
    seq![(x % 0x100) as u8, (x / 0x100) as u8]
}

pub open spec fn dec_u16(s: Seq<u8>) -> Option<(u16, Seq<u8>)> {
    if s.len() >= 2 {
        Some(((s[0] + s[1] * 0x100) as u16, s.skip(2)))
    } else {
        None
    }
}

pub proof fn lemma_rt_u16(x: u16, rest: Seq<u8>)
    ensures
        dec_u16(enc_u16(x) + rest) == Some((x, rest)),
{
    let s = enc_u16(x) + rest;
    lemma_fundamental_div_mod(x as int, 0x100);
    assert(s.skip(2) =~= rest);
}

pub open spec fn enc_u32(x: u32) -> Seq<u8> {
    seq![
        (x % 0x100) as u8,
        ((x / 0x100) % 0x100) as u8,
        ((x / 0x1_0000) % 0x100) as u8,
        (x / 0x100_0000) as u8,
    ]
}

pub open spec fn le4_val(s: Seq<u8>) -> int {
    s[0] + s[1] * 0x100 + s[2] * 0x1_0000 + s[3] * 0x100_0000
}

pub open spec fn dec_u32(s: Seq<u8>) -> Option<(u32, Seq<u8>)> {
    if s.len() >= 4 {
        Some((le4_val(s) as u32, s.skip(4)))
    } else {
        None
    }
}

pub proof fn lemma_rt_u32(x: u32, rest: Seq<u8>)
    ensures
        dec_u32(enc_u32(x) + rest) == Some((x, rest)),
{
    let s = enc_u32(x) + rest;
    let xi = x as int;
    lemma_fundamental_div_mod(xi, 0x100);
    lemma_fundamental_div_mod(xi / 0x100, 0x100);
    lemma_fundamental_div_mod(xi / 0x1_0000, 0x100);
    lemma_div_denominator(xi, 0x100, 0x100);
    lemma_div_denominator(xi, 0x1_0000, 0x100);
    assert(le4_val(s) == xi);
    assert(s.skip(4) =~= rest);
}

pub open spec fn enc_u64(x: u64) -> Seq<u8> {
    seq![
        (x % 0x100) as u8,
        ((x / 0x100) % 0x100) as u8,
        ((x / 0x1_0000) % 0x100) as u8,
        ((x / 0x100_0000) % 0x100) as u8,
        ((x / 0x1_0000_0000) % 0x100) as u8,
        ((x / 0x100_0000_0000) % 0x100) as u8,
        ((x / 0x1_0000_0000_0000) % 0x100) as u8,
        (x / 0x100_0000_0000_0000) as u8,
    ]
}

pub open spec fn le8_val(s: Seq<u8>) -> int {
    s[0] + s[1] * 0x100 + s[2] * 0x1_0000 + s[3] * 0x100_0000 + s[4] * 0x1_0000_0000 + s[5]
        * 0x100_0000_0000 + s[6] * 0x1_0000_0000_0000 + s[7] * 0x100_0000_0000_0000
}

pub open spec fn dec_u64(s: Seq<u8>) -> Option<(u64, Seq<u8>)> {
    if s.len() >= 8 {
        Some((le8_val(s) as u64, s.skip(8)))
    } else {
        None
    }
}

pub proof fn lemma_rt_u64(x: u64, rest: Seq<u8>)
    ensures
        dec_u64(enc_u64(x) + rest) == Some((x, rest)),
{
    let s = enc_u64(x) + rest;
    let xi = x as int;
    lemma_fundamental_div_mod(xi, 0x100);
    lemma_fundamental_div_mod(xi / 0x100, 0x100);
    lemma_fundamental_div_mod(xi / 0x1_0000, 0x100);
    lemma_fundamental_div_mod(xi / 0x100_0000, 0x100);
    lemma_fundamental_div_mod(xi / 0x1_0000_0000, 0x100);
    lemma_fundamental_div_mod(xi / 0x100_0000_0000, 0x100);
    lemma_fundamental_div_mod(xi / 0x1_0000_0000_0000, 0x100);
    lemma_div_denominator(xi, 0x100, 0x100);
    lemma_div_denominator(xi, 0x1_0000, 0x100);
    lemma_div_denominator(xi, 0x100_0000, 0x100);
    lemma_div_denominator(xi, 0x1_0000_0000, 0x100);
    lemma_div_denominator(xi, 0x100_0000_0000, 0x100);
    lemma_div_denominator(xi, 0x1_0000_0000_0000, 0x100);
    assert(le8_val(s) == xi);
    assert(s.skip(8) =~= rest);
}

pub open spec fn enc_i32(x: i32) -> Seq<u8> {
    enc_u32(x as u32)
}

pub open spec fn dec_i32(s: Seq<u8>) -> Option<(i32, Seq<u8>)> {
    match dec_u32(s) {
        Some((v, r)) => Some((v as i32, r)),
        None => None,
    }
}

pub proof fn lemma_rt_i32(x: i32, rest: Seq<u8>)
    ensures
        dec_i32(enc_i32(x) + rest) == Some((x, rest)),
{
    lemma_rt_u32(x as u32, rest);
    assert((x as u32) as i32 == x) by (bit_vector);
}

pub open spec fn enc_i64(x: i64) -> Seq<u8> {
    enc_u64(x as u64)
}

pub open spec fn dec_i64(s: Seq<u8>) -> Option<(i64, Seq<u8>)> {
    match dec_u64(s) {
        Some((v, r)) => Some((v as i64, r)),
        None => None,
    }
}

pub proof fn lemma_rt_i64(x: i64, rest: Seq<u8>)
    ensures
        dec_i64(enc_i64(x) + rest) == Some((x, rest)),
{
    lemma_rt_u64(x as u64, rest);
    assert((x as u64) as i64 == x) by (bit_vector);
}

// -------------------------------------------------------- byte strings, ids

pub open spec fn enc_bytes(b: Seq<u8>) -> Seq<u8> {
    enc_u64(b.len() as u64) + b
}

pub open spec fn dec_bytes(s: Seq<u8>) -> Option<(Seq<u8>, Seq<u8>)> {
    match dec_u64(s) {
        Some((n, r)) => if r.len() >= n {
            Some((r.take(n as int), r.skip(n as int)))
        } else {
            None
        },
        None => None,
    }
}

pub proof fn lemma_rt_bytes(b: Seq<u8>, rest: Seq<u8>)
    requires
        model::wf_bytes(b),
    ensures
        dec_bytes(enc_bytes(b) + rest) == Some((b, rest)),
{
    let n = b.len() as u64;
    lemma_add_assoc(enc_u64(n), b, rest);
    lemma_rt_u64(n, b + rest);
    assert((b + rest).take(n as int) =~= b);
    assert((b + rest).skip(n as int) =~= rest);
}

pub open spec fn enc_arr32(b: Seq<u8>) -> Seq<u8> {
    b
}

pub open spec fn dec_arr32(s: Seq<u8>) -> Option<(Seq<u8>, Seq<u8>)> {
    if s.len() >= 32 {
        Some((s.take(32), s.skip(32)))
    } else {
        None
    }
}

pub proof fn lemma_rt_arr32(b: Seq<u8>, rest: Seq<u8>)
    requires
        b.len() == 32,
    ensures
        dec_arr32(enc_arr32(b) + rest) == Some((b, rest)),
{
    assert((b + rest).take(32) =~= b);
    assert((b + rest).skip(32) =~= rest);
}

// --------------------------------------------------------------- exec layer

/// Append the two little-endian bytes of `x`.
pub fn encode_u16(x: u16, out: &mut Vec<u8>)
    ensures
        final(out)@ == old(out)@ + enc_u16(x),
{
    out.push((x % 0x100) as u8);
    out.push((x / 0x100) as u8);
    assert(out@ =~= old(out)@ + enc_u16(x));
}

/// Append the four little-endian bytes of `x`.
pub fn encode_u32(x: u32, out: &mut Vec<u8>)
    ensures
        final(out)@ == old(out)@ + enc_u32(x),
{
    out.push((x % 0x100) as u8);
    out.push(((x / 0x100) % 0x100) as u8);
    out.push(((x / 0x1_0000) % 0x100) as u8);
    out.push((x / 0x100_0000) as u8);
    assert(out@ =~= old(out)@ + enc_u32(x));
}

/// Append the eight little-endian bytes of `x`.
pub fn encode_u64(x: u64, out: &mut Vec<u8>)
    ensures
        final(out)@ == old(out)@ + enc_u64(x),
{
    out.push((x % 0x100) as u8);
    out.push(((x / 0x100) % 0x100) as u8);
    out.push(((x / 0x1_0000) % 0x100) as u8);
    out.push(((x / 0x100_0000) % 0x100) as u8);
    out.push(((x / 0x1_0000_0000) % 0x100) as u8);
    out.push(((x / 0x100_0000_0000) % 0x100) as u8);
    out.push(((x / 0x1_0000_0000_0000) % 0x100) as u8);
    out.push((x / 0x100_0000_0000_0000) as u8);
    assert(out@ =~= old(out)@ + enc_u64(x));
}

pub fn encode_i32(x: i32, out: &mut Vec<u8>)
    ensures
        final(out)@ == old(out)@ + enc_i32(x),
{
    encode_u32(x as u32, out);
}

pub fn encode_i64(x: i64, out: &mut Vec<u8>)
    ensures
        final(out)@ == old(out)@ + enc_i64(x),
{
    encode_u64(x as u64, out);
}

/// Append a length-delimited byte string.
pub fn encode_bytes(b: &Vec<u8>, out: &mut Vec<u8>)
    ensures
        final(out)@ == old(out)@ + enc_bytes(b@),
{
    encode_u64(b.len() as u64, out);
    let mut i: usize = 0;
    while i < b.len()
        invariant
            0 <= i <= b@.len(),
            out@ == old(out)@ + enc_u64(b@.len() as u64) + b@.take(i as int),
        decreases b@.len() - i,
    {
        out.push(b[i]);
        i = i + 1;
        assert(out@ =~= old(out)@ + enc_u64(b@.len() as u64) + b@.take(i as int));
    }
    proof {
        assert(b@.take(b@.len() as int) =~= b@);
        assert(out@ =~= old(out)@ + enc_bytes(b@));
    }
}

/// Append a fixed 32-byte id.
pub fn encode_arr32(b: &[u8; 32], out: &mut Vec<u8>)
    ensures
        final(out)@ == old(out)@ + enc_arr32(b@),
{
    let mut i: usize = 0;
    while i < 32
        invariant
            0 <= i <= 32,
            out@ == old(out)@ + b@.take(i as int),
        decreases 32 - i,
    {
        out.push(b[i]);
        i = i + 1;
        assert(out@ =~= old(out)@ + b@.take(i as int));
    }
    assert(b@.take(32) =~= b@);
}

/// Read two little-endian bytes at `pos`.
pub fn decode_u16(buf: &Vec<u8>, pos: usize) -> (r: Option<(u16, usize)>)
    requires
        pos <= buf@.len(),
    ensures
        match r {
            Some(vp) => pos <= vp.1 <= buf@.len() && dec_u16(buf@.skip(pos as int)) == Some(
                (vp.0, buf@.skip(vp.1 as int)),
            ),
            None => dec_u16(buf@.skip(pos as int)) is None,
        },
{
    let s = Ghost(buf@.skip(pos as int));
    if buf.len() - pos >= 2 {
        let b0 = buf[pos];
        let b1 = buf[pos + 1];
        let v: u16 = b0 as u16 + (b1 as u16) * 0x100;
        proof {
            assert(s@[0] == b0 && s@[1] == b1);
            assert(s@.skip(2) =~= buf@.skip(pos as int + 2));
        }
        Some((v, pos + 2))
    } else {
        None
    }
}

/// Read four little-endian bytes at `pos`.
pub fn decode_u32(buf: &Vec<u8>, pos: usize) -> (r: Option<(u32, usize)>)
    requires
        pos <= buf@.len(),
    ensures
        match r {
            Some(vp) => pos <= vp.1 <= buf@.len() && dec_u32(buf@.skip(pos as int)) == Some(
                (vp.0, buf@.skip(vp.1 as int)),
            ),
            None => dec_u32(buf@.skip(pos as int)) is None,
        },
{
    let s = Ghost(buf@.skip(pos as int));
    if buf.len() - pos >= 4 {
        let b0 = buf[pos] as u32;
        let b1 = buf[pos + 1] as u32;
        let b2 = buf[pos + 2] as u32;
        let b3 = buf[pos + 3] as u32;
        let v: u32 = b0 + b1 * 0x100 + b2 * 0x1_0000 + b3 * 0x100_0000;
        proof {
            assert(forall|j: int| 0 <= j < 4 ==> s@[j] == buf@[pos + j]);
            assert(v as int == le4_val(s@));
            assert(s@.skip(4) =~= buf@.skip(pos as int + 4));
        }
        Some((v, pos + 4))
    } else {
        None
    }
}

/// Read eight little-endian bytes at `pos`.
pub fn decode_u64(buf: &Vec<u8>, pos: usize) -> (r: Option<(u64, usize)>)
    requires
        pos <= buf@.len(),
    ensures
        match r {
            Some(vp) => pos <= vp.1 <= buf@.len() && dec_u64(buf@.skip(pos as int)) == Some(
                (vp.0, buf@.skip(vp.1 as int)),
            ),
            None => dec_u64(buf@.skip(pos as int)) is None,
        },
{
    let s = Ghost(buf@.skip(pos as int));
    if buf.len() - pos >= 8 {
        let b0 = buf[pos] as u64;
        let b1 = buf[pos + 1] as u64;
        let b2 = buf[pos + 2] as u64;
        let b3 = buf[pos + 3] as u64;
        let b4 = buf[pos + 4] as u64;
        let b5 = buf[pos + 5] as u64;
        let b6 = buf[pos + 6] as u64;
        let b7 = buf[pos + 7] as u64;
        let v: u64 = b0 + b1 * 0x100 + b2 * 0x1_0000 + b3 * 0x100_0000 + b4 * 0x1_0000_0000 + b5
            * 0x100_0000_0000 + b6 * 0x1_0000_0000_0000 + b7 * 0x100_0000_0000_0000;
        proof {
            assert(forall|j: int| 0 <= j < 8 ==> s@[j] == buf@[pos + j]);
            assert(v as int == le8_val(s@));
            assert(s@.skip(8) =~= buf@.skip(pos as int + 8));
        }
        Some((v, pos + 8))
    } else {
        None
    }
}

pub fn decode_i32(buf: &Vec<u8>, pos: usize) -> (r: Option<(i32, usize)>)
    requires
        pos <= buf@.len(),
    ensures
        match r {
            Some(vp) => pos <= vp.1 <= buf@.len() && dec_i32(buf@.skip(pos as int)) == Some(
                (vp.0, buf@.skip(vp.1 as int)),
            ),
            None => dec_i32(buf@.skip(pos as int)) is None,
        },
{
    match decode_u32(buf, pos) {
        Some((v, p2)) => Some((v as i32, p2)),
        None => None,
    }
}

pub fn decode_i64(buf: &Vec<u8>, pos: usize) -> (r: Option<(i64, usize)>)
    requires
        pos <= buf@.len(),
    ensures
        match r {
            Some(vp) => pos <= vp.1 <= buf@.len() && dec_i64(buf@.skip(pos as int)) == Some(
                (vp.0, buf@.skip(vp.1 as int)),
            ),
            None => dec_i64(buf@.skip(pos as int)) is None,
        },
{
    match decode_u64(buf, pos) {
        Some((v, p2)) => Some((v as i64, p2)),
        None => None,
    }
}

/// Read a length-delimited byte string at `pos`.
pub fn decode_bytes(buf: &Vec<u8>, pos: usize) -> (r: Option<(Vec<u8>, usize)>)
    requires
        pos <= buf@.len(),
    ensures
        match r {
            Some(vp) => pos <= vp.1 <= buf@.len() && dec_bytes(buf@.skip(pos as int)) == Some(
                (vp.0@, buf@.skip(vp.1 as int)),
            ),
            None => dec_bytes(buf@.skip(pos as int)) is None,
        },
{
    let s = Ghost(buf@.skip(pos as int));
    match decode_u64(buf, pos) {
        Some((n, p1)) => {
            let ghost r1 = buf@.skip(p1 as int);
            if n <= (buf.len() - p1) as u64 {
                let len = n as usize;
                let mut v: Vec<u8> = Vec::new();
                let mut i: usize = 0;
                while i < len
                    invariant
                        0 <= i <= len,
                        p1 + len <= buf@.len(),
                        buf@.len() <= usize::MAX,
                        v@ == buf@.subrange(p1 as int, p1 as int + i),
                    decreases len - i,
                {
                    v.push(buf[p1 + i]);
                    i = i + 1;
                    assert(v@ =~= buf@.subrange(p1 as int, p1 as int + i));
                }
                proof {
                    assert(v@ =~= r1.take(n as int));
                    assert(r1.skip(n as int) =~= buf@.skip(p1 as int + len));
                }
                Some((v, p1 + len))
            } else {
                None
            }
        },
        None => None,
    }
}

/// Read a fixed 32-byte id at `pos`.
pub fn decode_arr32(buf: &Vec<u8>, pos: usize) -> (r: Option<([u8; 32], usize)>)
    requires
        pos <= buf@.len(),
    ensures
        match r {
            Some(vp) => pos <= vp.1 <= buf@.len() && dec_arr32(buf@.skip(pos as int)) == Some(
                (vp.0@, buf@.skip(vp.1 as int)),
            ),
            None => dec_arr32(buf@.skip(pos as int)) is None,
        },
{
    let s = Ghost(buf@.skip(pos as int));
    if buf.len() - pos >= 32 {
        let mut a = [0u8; 32];
        let mut i: usize = 0;
        while i < 32
            invariant
                0 <= i <= 32,
                pos + 32 <= buf@.len(),
                buf@.len() <= usize::MAX,
                forall|j: int| 0 <= j < i ==> a@[j] == buf@[pos + j],
            decreases 32 - i,
        {
            a[i] = buf[pos + i];
            i = i + 1;
        }
        proof {
            assert(a@ =~= s@.take(32));
            assert(s@.skip(32) =~= buf@.skip(pos as int + 32));
        }
        Some((a, pos + 32))
    } else {
        None
    }
}


// ------------------------------------------------------------------ tag byte

pub open spec fn enc_u8(x: u8) -> Seq<u8> {
    seq![x]
}

pub open spec fn dec_u8(s: Seq<u8>) -> Option<(u8, Seq<u8>)> {
    if s.len() >= 1 {
        Some((s[0], s.skip(1)))
    } else {
        None
    }
}

pub proof fn lemma_rt_u8(x: u8, rest: Seq<u8>)
    ensures
        dec_u8(enc_u8(x) + rest) == Some((x, rest)),
{
    assert((enc_u8(x) + rest).skip(1) =~= rest);
}

// ----------------------------------------------------------------- addresses

pub open spec fn enc_addr(a: model::Address) -> Seq<u8> {
    enc_u32(a.ip) + enc_u16(a.port)
}

pub open spec fn dec_addr(s: Seq<u8>) -> Option<(model::Address, Seq<u8>)> {
    match dec_u32(s) {
        Some((ip, r1)) => match dec_u16(r1) {
            Some((port, r2)) => Some((model::Address { ip, port }, r2)),
            None => None,
        },
        None => None,
    }
}

pub proof fn lemma_rt_addr(a: model::Address, rest: Seq<u8>)
    ensures
        dec_addr(enc_addr(a) + rest) == Some((a, rest)),
{
    lemma_add_assoc(enc_u32(a.ip), enc_u16(a.port), rest);
    lemma_rt_u32(a.ip, enc_u16(a.port) + rest);
    lemma_rt_u16(a.port, rest);
}

pub open spec fn enc_addr_seq_body(s: Seq<model::Address>) -> Seq<u8>
    decreases s.len(),
{
    if s.len() == 0 {
        Seq::empty()
    } else {
        enc_addr(s[0]) + enc_addr_seq_body(s.drop_first())
    }
}

pub open spec fn dec_addr_seq_body(s: Seq<u8>, n: int) -> Option<(Seq<model::Address>, Seq<u8>)>
    decreases n,
{
    if n <= 0 {
        Some((Seq::empty(), s))
    } else {
        match dec_addr(s) {
            Some((a, r1)) => match dec_addr_seq_body(r1, n - 1) {
                Some((vs, r2)) => Some((seq![a] + vs, r2)),
                None => None,
            },
            None => None,
        }
    }
}

pub proof fn lemma_rt_addr_seq_body(s: Seq<model::Address>, rest: Seq<u8>)
    ensures
        dec_addr_seq_body(enc_addr_seq_body(s) + rest, s.len() as int) == Some((s, rest)),
    decreases s.len(),
{
    if s.len() == 0 {
        assert(enc_addr_seq_body(s) + rest =~= rest);
    } else {
        let tail = s.drop_first();
        lemma_add_assoc(enc_addr(s[0]), enc_addr_seq_body(tail), rest);
        lemma_rt_addr(s[0], enc_addr_seq_body(tail) + rest);
        lemma_rt_addr_seq_body(tail, rest);
        assert(seq![s[0]] + tail =~= s);
    }
}

#[verifier::opaque]
pub open spec fn enc_addr_list(l: model::AddressList) -> Seq<u8> {
    enc_u64(l.addrs.len() as u64) + enc_addr_seq_body(l.addrs) + enc_i32(l.version) + enc_i32(
        l.reinit_date,
    ) + enc_i32(l.priority) + enc_i32(l.expire_at)
}

#[verifier::opaque]
pub open spec fn dec_addr_list(s: Seq<u8>) -> Option<(model::AddressList, Seq<u8>)> {
    match dec_u64(s) {
        Some((n, r1)) => match dec_addr_seq_body(r1, n as int) {
            Some((addrs, r2)) => match dec_i32(r2) {
                Some((version, r3)) => match dec_i32(r3) {
                    Some((reinit_date, r4)) => match dec_i32(r4) {
                        Some((priority, r5)) => match dec_i32(r5) {
                            Some((expire_at, r6)) => Some(
                                (
                                    model::AddressList {
                                        addrs,
                                        version,
                                        reinit_date,
                                        priority,
                                        expire_at,
                                    },
                                    r6,
                                ),
                            ),
                            None => None,
                        },
                        None => None,
                    },
                    None => None,
                },
                None => None,
            },
            None => None,
        },
        None => None,
    }
}

pub proof fn lemma_rt_addr_list(l: model::AddressList, rest: Seq<u8>)
    requires
        model::wf_address_list(l),
    ensures
        dec_addr_list(enc_addr_list(l) + rest) == Some((l, rest)),
{
    reveal(enc_addr_list);
    reveal(dec_addr_list);
    let e1 = enc_u64(l.addrs.len() as u64);
    let e2 = enc_addr_seq_body(l.addrs);
    let e3 = enc_i32(l.version);
    let e4 = enc_i32(l.reinit_date);
    let e5 = enc_i32(l.priority);
    let e6 = enc_i32(l.expire_at);
    lemma_add_assoc(e1 + e2 + e3 + e4 + e5, e6, rest);
    lemma_add_assoc(e1 + e2 + e3 + e4, e5, e6 + rest);
    lemma_add_assoc(e1 + e2 + e3, e4, e5 + (e6 + rest));
    lemma_add_assoc(e1 + e2, e3, e4 + (e5 + (e6 + rest)));
    lemma_add_assoc(e1, e2, e3 + (e4 + (e5 + (e6 + rest))));
    lemma_rt_u64(l.addrs.len() as u64, e2 + (e3 + (e4 + (e5 + (e6 + rest)))));
    lemma_rt_addr_seq_body(l.addrs, e3 + (e4 + (e5 + (e6 + rest))));
    lemma_rt_i32(l.version, e4 + (e5 + (e6 + rest)));
    lemma_rt_i32(l.reinit_date, e5 + (e6 + rest));
    lemma_rt_i32(l.priority, e6 + rest);
    lemma_rt_i32(l.expire_at, rest);
}

// ---------------------------------------------------------------- public key

pub const TAG_KEY_ED25519: u8 = 1;

pub const TAG_KEY_OVERLAY: u8 = 2;

pub open spec fn enc_pubkey(k: model::PublicKey) -> Seq<u8> {
    match k {
        model::PublicKey::Ed25519 { key } => enc_u8(TAG_KEY_ED25519) + enc_arr32(key),
        model::PublicKey::Overlay { name } => enc_u8(TAG_KEY_OVERLAY) + enc_bytes(name),
    }
}

pub open spec fn dec_pubkey(s: Seq<u8>) -> Option<(model::PublicKey, Seq<u8>)> {
    match dec_u8(s) {
        Some((tag, r1)) => if tag == TAG_KEY_ED25519 {
            match dec_arr32(r1) {
                Some((key, r2)) => Some((model::PublicKey::Ed25519 { key }, r2)),
                None => None,
            }
        } else if tag == TAG_KEY_OVERLAY {
            match dec_bytes(r1) {
                Some((name, r2)) => Some((model::PublicKey::Overlay { name }, r2)),
                None => None,
            }
        } else {
            None
        },
        None => None,
    }
}

pub proof fn lemma_rt_pubkey(k: model::PublicKey, rest: Seq<u8>)
    requires
        model::wf_pubkey(k),
    ensures
        dec_pubkey(enc_pubkey(k) + rest) == Some((k, rest)),
{
    match k {
        model::PublicKey::Ed25519 { key } => {
            lemma_add_assoc(enc_u8(TAG_KEY_ED25519), enc_arr32(key), rest);
            lemma_rt_u8(TAG_KEY_ED25519, enc_arr32(key) + rest);
            lemma_rt_arr32(key, rest);
        },
        model::PublicKey::Overlay { name } => {
            lemma_add_assoc(enc_u8(TAG_KEY_OVERLAY), enc_bytes(name), rest);
            lemma_rt_u8(TAG_KEY_OVERLAY, enc_bytes(name) + rest);
            lemma_rt_bytes(name, rest);
        },
    }
}

// -------------------------------------------------------------------- dht key

pub open spec fn enc_dht_key(k: model::DhtKey) -> Seq<u8> {
    enc_arr32(k.id) + enc_i32(k.idx) + enc_bytes(k.name)
}

pub open spec fn dec_dht_key(s: Seq<u8>) -> Option<(model::DhtKey, Seq<u8>)> {
    match dec_arr32(s) {
        Some((id, r1)) => match dec_i32(r1) {
            Some((idx, r2)) => match dec_bytes(r2) {
                Some((name, r3)) => Some((model::DhtKey { id, idx, name }, r3)),
                None => None,
            },
            None => None,
        },
        None => None,
    }
}

pub proof fn lemma_rt_dht_key(k: model::DhtKey, rest: Seq<u8>)
    requires
        model::wf_dht_key(k),
    ensures
        dec_dht_key(enc_dht_key(k) + rest) == Some((k, rest)),
{
    let e2 = enc_i32(k.idx);
    let e3 = enc_bytes(k.name);
    lemma_add_assoc(enc_arr32(k.id) + e2, e3, rest);
    lemma_add_assoc(enc_arr32(k.id), e2, e3 + rest);
    lemma_rt_arr32(k.id, e2 + (e3 + rest));
    lemma_rt_i32(k.idx, e3 + rest);
    lemma_rt_bytes(k.name, rest);
}

// ---------------------------------------------------------------- update rule

pub const TAG_RULE_SIGNATURE: u8 = 1;

pub const TAG_RULE_OVERLAY_NODES: u8 = 2;

pub open spec fn enc_rule(r: model::UpdateRule) -> Seq<u8> {
    match r {
        model::UpdateRule::Signature => enc_u8(TAG_RULE_SIGNATURE),
        model::UpdateRule::OverlayNodes => enc_u8(TAG_RULE_OVERLAY_NODES),
    }
}

pub open spec fn dec_rule(s: Seq<u8>) -> Option<(model::UpdateRule, Seq<u8>)> {
    match dec_u8(s) {
        Some((tag, r1)) => if tag == TAG_RULE_SIGNATURE {
            Some((model::UpdateRule::Signature, r1))
        } else if tag == TAG_RULE_OVERLAY_NODES {
            Some((model::UpdateRule::OverlayNodes, r1))
        } else {
            None
        },
        None => None,
    }
}

pub proof fn lemma_rt_rule(r: model::UpdateRule, rest: Seq<u8>)
    ensures
        dec_rule(enc_rule(r) + rest) == Some((r, rest)),
{
    match r {
        model::UpdateRule::Signature => lemma_rt_u8(TAG_RULE_SIGNATURE, rest),
        model::UpdateRule::OverlayNodes => lemma_rt_u8(TAG_RULE_OVERLAY_NODES, rest),
    }
}

// ------------------------------------------------------------ key description

#[verifier::opaque]
pub open spec fn enc_key_desc(d: model::KeyDescription) -> Seq<u8> {
    enc_pubkey(d.id) + enc_dht_key(d.key) + enc_rule(d.update_rule) + enc_bytes(d.signature)
}

#[verifier::opaque]
pub open spec fn dec_key_desc(s: Seq<u8>) -> Option<(model::KeyDescription, Seq<u8>)> {
    match dec_pubkey(s) {
        Some((id, r1)) => match dec_dht_key(r1) {
            Some((key, r2)) => match dec_rule(r2) {
                Some((update_rule, r3)) => match dec_bytes(r3) {
                    Some((signature, r4)) => Some(
                        (model::KeyDescription { id, key, update_rule, signature }, r4),
                    ),
                    None => None,
                },
                None => None,
            },
            None => None,
        },
        None => None,
    }
}

pub proof fn lemma_rt_key_desc(d: model::KeyDescription, rest: Seq<u8>)
    requires
        model::wf_key_description(d),
    ensures
        dec_key_desc(enc_key_desc(d) + rest) == Some((d, rest)),
{
    reveal(enc_key_desc);
    reveal(dec_key_desc);
    let e2 = enc_dht_key(d.key);
    let e3 = enc_rule(d.update_rule);
    let e4 = enc_bytes(d.signature);
    lemma_add_assoc(enc_pubkey(d.id) + e2 + e3, e4, rest);
    lemma_add_assoc(enc_pubkey(d.id) + e2, e3, e4 + rest);
    lemma_add_assoc(enc_pubkey(d.id), e2, e3 + (e4 + rest));
    lemma_rt_pubkey(d.id, e2 + (e3 + (e4 + rest)));
    lemma_rt_dht_key(d.key, e3 + (e4 + rest));
    lemma_rt_rule(d.update_rule, e4 + rest);
    lemma_rt_bytes(d.signature, rest);
}

// ---------------------------------------------------------------------- value

#[verifier::opaque]
pub open spec fn enc_value(v: model::Value) -> Seq<u8> {
    enc_key_desc(v.key) + enc_bytes(v.value) + enc_i64(v.ttl) + enc_bytes(v.signature)
}

#[verifier::opaque]
pub open spec fn dec_value(s: Seq<u8>) -> Option<(model::Value, Seq<u8>)> {
    match dec_key_desc(s) {
        Some((key, r1)) => match dec_bytes(r1) {
            Some((value, r2)) => match dec_i64(r2) {
                Some((ttl, r3)) => match dec_bytes(r3) {
                    Some((signature, r4)) => Some((model::Value { key, value, ttl, signature }, r4)),
                    None => None,
                },
                None => None,
            },
            None => None,
        },
        None => None,
    }
}

pub proof fn lemma_rt_value(v: model::Value, rest: Seq<u8>)
    requires
        model::wf_value(v),
    ensures
        dec_value(enc_value(v) + rest) == Some((v, rest)),
{
    reveal(enc_value);
    reveal(dec_value);
    reveal(enc_key_desc);
    let e2 = enc_bytes(v.value);
    let e3 = enc_i64(v.ttl);
    let e4 = enc_bytes(v.signature);
    lemma_add_assoc(enc_key_desc(v.key) + e2 + e3, e4, rest);
    lemma_add_assoc(enc_key_desc(v.key) + e2, e3, e4 + rest);
    lemma_add_assoc(enc_key_desc(v.key), e2, e3 + (e4 + rest));
    lemma_rt_key_desc(v.key, e2 + (e3 + (e4 + rest)));
    lemma_rt_bytes(v.value, e3 + (e4 + rest));
    lemma_rt_i64(v.ttl, e4 + rest);
    lemma_rt_bytes(v.signature, rest);
}

// ----------------------------------------------------------------------- node

#[verifier::opaque]
pub open spec fn enc_node(n: model::Node) -> Seq<u8> {
    enc_pubkey(n.id) + enc_addr_list(n.addr_list) + enc_i32(n.version) + enc_bytes(n.signature)
}

#[verifier::opaque]
pub open spec fn dec_node(s: Seq<u8>) -> Option<(model::Node, Seq<u8>)> {
    match dec_pubkey(s) {
        Some((id, r1)) => match dec_addr_list(r1) {
            Some((addr_list, r2)) => match dec_i32(r2) {
                Some((version, r3)) => match dec_bytes(r3) {
                    Some((signature, r4)) => Some(
                        (model::Node { id, addr_list, version, signature }, r4),
                    ),
                    None => None,
                },
                None => None,
            },
            None => None,
        },
        None => None,
    }
}

pub proof fn lemma_rt_node(n: model::Node, rest: Seq<u8>)
    requires
        model::wf_node(n),
    ensures
        dec_node(enc_node(n) + rest) == Some((n, rest)),
{
    reveal(enc_node);
    reveal(dec_node);
    reveal(enc_addr_list);
    let e2 = enc_addr_list(n.addr_list);
    let e3 = enc_i32(n.version);
    let e4 = enc_bytes(n.signature);
    lemma_add_assoc(enc_pubkey(n.id) + e2 + e3, e4, rest);
    lemma_add_assoc(enc_pubkey(n.id) + e2, e3, e4 + rest);
    lemma_add_assoc(enc_pubkey(n.id), e2, e3 + (e4 + rest));
    lemma_rt_pubkey(n.id, e2 + (e3 + (e4 + rest)));
    lemma_rt_addr_list(n.addr_list, e3 + (e4 + rest));
    lemma_rt_i32(n.version, e4 + rest);
    lemma_rt_bytes(n.signature, rest);
}

// ----------------------------------------------------------------- node lists

pub open spec fn enc_node_seq_body(s: Seq<model::Node>) -> Seq<u8>
    decreases s.len(),
{
    if s.len() == 0 {
        Seq::empty()
    } else {
        enc_node(s[0]) + enc_node_seq_body(s.drop_first())
    }
}

pub open spec fn enc_node_seq(s: Seq<model::Node>) -> Seq<u8> {
    enc_u64(s.len() as u64) + enc_node_seq_body(s)
}

pub open spec fn dec_node_seq_body(s: Seq<u8>, n: int) -> Option<(Seq<model::Node>, Seq<u8>)>
    decreases n,
{
    if n <= 0 {
        Some((Seq::empty(), s))
    } else {
        match dec_node(s) {
            Some((v, r1)) => match dec_node_seq_body(r1, n - 1) {
                Some((vs, r2)) => Some((seq![v] + vs, r2)),
                None => None,
            },
            None => None,
        }
    }
}

pub open spec fn dec_node_seq(s: Seq<u8>) -> Option<(Seq<model::Node>, Seq<u8>)> {
    match dec_u64(s) {
        Some((n, r1)) => dec_node_seq_body(r1, n as int),
        None => None,
    }
}

#[verifier::rlimit(100)]
#[verifier::spinoff_prover]
pub proof fn lemma_rt_node_seq_body(s: Seq<model::Node>, rest: Seq<u8>)
    requires
        forall|i: int| 0 <= i < s.len() ==> model::wf_node(#[trigger] s[i]),
    ensures
        dec_node_seq_body(enc_node_seq_body(s) + rest, s.len() as int) == Some((s, rest)),
    decreases s.len(),
{
    if s.len() == 0 {
        assert(enc_node_seq_body(s) + rest =~= rest);
    } else {
        let tail = s.drop_first();
        lemma_add_assoc(enc_node(s[0]), enc_node_seq_body(tail), rest);
        lemma_rt_node(s[0], enc_node_seq_body(tail) + rest);
        lemma_rt_node_seq_body(tail, rest);
        assert(seq![s[0]] + tail =~= s);
    }
}

pub proof fn lemma_rt_node_seq(s: Seq<model::Node>, rest: Seq<u8>)
    requires
        model::wf_node_seq(s),
    ensures
        dec_node_seq(enc_node_seq(s) + rest) == Some((s, rest)),
{
    lemma_add_assoc(enc_u64(s.len() as u64), enc_node_seq_body(s), rest);
    lemma_rt_u64(s.len() as u64, enc_node_seq_body(s) + rest);
    lemma_rt_node_seq_body(s, rest);
}

// -------------------------------------------------------------- overlay nodes

#[verifier::opaque]
pub open spec fn enc_overlay_node(n: model::OverlayNode) -> Seq<u8> {
    enc_pubkey(n.id) + enc_arr32(n.overlay) + enc_i32(n.version) + enc_bytes(n.signature)
}

#[verifier::opaque]
pub open spec fn dec_overlay_node(s: Seq<u8>) -> Option<(model::OverlayNode, Seq<u8>)> {
    match dec_pubkey(s) {
        Some((id, r1)) => match dec_arr32(r1) {
            Some((overlay, r2)) => match dec_i32(r2) {
                Some((version, r3)) => match dec_bytes(r3) {
                    Some((signature, r4)) => Some(
                        (model::OverlayNode { id, overlay, version, signature }, r4),
                    ),
                    None => None,
                },
                None => None,
            },
            None => None,
        },
        None => None,
    }
}

pub proof fn lemma_rt_overlay_node(n: model::OverlayNode, rest: Seq<u8>)
    requires
        model::wf_overlay_node(n),
    ensures
        dec_overlay_node(enc_overlay_node(n) + rest) == Some((n, rest)),
{
    reveal(enc_overlay_node);
    reveal(dec_overlay_node);
    let e2 = enc_arr32(n.overlay);
    let e3 = enc_i32(n.version);
    let e4 = enc_bytes(n.signature);
    lemma_add_assoc(enc_pubkey(n.id) + e2 + e3, e4, rest);
    lemma_add_assoc(enc_pubkey(n.id) + e2, e3, e4 + rest);
    lemma_add_assoc(enc_pubkey(n.id), e2, e3 + (e4 + rest));
    lemma_rt_pubkey(n.id, e2 + (e3 + (e4 + rest)));
    lemma_rt_arr32(n.overlay, e3 + (e4 + rest));
    lemma_rt_i32(n.version, e4 + rest);
    lemma_rt_bytes(n.signature, rest);
}

pub open spec fn enc_overlay_seq_body(s: Seq<model::OverlayNode>) -> Seq<u8>
    decreases s.len(),
{
    if s.len() == 0 {
        Seq::empty()
    } else {
        enc_overlay_node(s[0]) + enc_overlay_seq_body(s.drop_first())
    }
}

pub open spec fn enc_overlay_seq(s: Seq<model::OverlayNode>) -> Seq<u8> {
    enc_u64(s.len() as u64) + enc_overlay_seq_body(s)
}

pub open spec fn dec_overlay_seq_body(s: Seq<u8>, n: int) -> Option<
    (Seq<model::OverlayNode>, Seq<u8>),
>
    decreases n,
{
    if n <= 0 {
        Some((Seq::empty(), s))
    } else {
        match dec_overlay_node(s) {
            Some((v, r1)) => match dec_overlay_seq_body(r1, n - 1) {
                Some((vs, r2)) => Some((seq![v] + vs, r2)),
                None => None,
            },
            None => None,
        }
    }
}

pub open spec fn dec_overlay_seq(s: Seq<u8>) -> Option<(Seq<model::OverlayNode>, Seq<u8>)> {
    match dec_u64(s) {
        Some((n, r1)) => dec_overlay_seq_body(r1, n as int),
        None => None,
    }
}

#[verifier::rlimit(100)]
#[verifier::spinoff_prover]
pub proof fn lemma_rt_overlay_seq_body(s: Seq<model::OverlayNode>, rest: Seq<u8>)
    requires
        forall|i: int| 0 <= i < s.len() ==> model::wf_overlay_node(#[trigger] s[i]),
    ensures
        dec_overlay_seq_body(enc_overlay_seq_body(s) + rest, s.len() as int) == Some((s, rest)),
    decreases s.len(),
{
    if s.len() == 0 {
        assert(enc_overlay_seq_body(s) + rest =~= rest);
    } else {
        let tail = s.drop_first();
        lemma_add_assoc(enc_overlay_node(s[0]), enc_overlay_seq_body(tail), rest);
        lemma_rt_overlay_node(s[0], enc_overlay_seq_body(tail) + rest);
        lemma_rt_overlay_seq_body(tail, rest);
        assert(seq![s[0]] + tail =~= s);
    }
}

pub proof fn lemma_rt_overlay_seq(s: Seq<model::OverlayNode>, rest: Seq<u8>)
    requires
        model::wf_overlay_node_seq(s),
    ensures
        dec_overlay_seq(enc_overlay_seq(s) + rest) == Some((s, rest)),
{
    lemma_add_assoc(enc_u64(s.len() as u64), enc_overlay_seq_body(s), rest);
    lemma_rt_u64(s.len() as u64, enc_overlay_seq_body(s) + rest);
    lemma_rt_overlay_seq_body(s, rest);
}


// ------------------------------------------------------------------ messages

pub const TAG_MSG_PING: u8 = 10;

pub const TAG_MSG_PONG: u8 = 11;

pub const TAG_MSG_FIND_NODE: u8 = 12;

pub const TAG_MSG_FIND_VALUE: u8 = 13;

pub const TAG_MSG_GET_SIGNED_ADDRESS_LIST: u8 = 14;

pub const TAG_MSG_STORE: u8 = 15;

pub const TAG_MSG_NODES: u8 = 16;

pub const TAG_MSG_VALUE_FOUND: u8 = 17;

pub const TAG_MSG_VALUE_NOT_FOUND: u8 = 18;

pub const TAG_MSG_STORED: u8 = 19;

pub const TAG_MSG_QUERY: u8 = 20;

pub const TAG_MSG_NODE_INFO: u8 = 21;

pub open spec fn enc_msg(m: model::Message) -> Seq<u8> {
    match m {
        model::Message::Ping { random_id } => enc_u8(TAG_MSG_PING) + enc_i64(random_id),
        model::Message::Pong { random_id } => enc_u8(TAG_MSG_PONG) + enc_i64(random_id),
        model::Message::FindNode { key, k } => enc_u8(TAG_MSG_FIND_NODE) + enc_arr32(key) + enc_i32(
            k,
        ),
        model::Message::FindValue { key, k } => enc_u8(TAG_MSG_FIND_VALUE) + enc_arr32(key)
            + enc_i32(k),
        model::Message::GetSignedAddressList => enc_u8(TAG_MSG_GET_SIGNED_ADDRESS_LIST),
        model::Message::Store { value } => enc_u8(TAG_MSG_STORE) + enc_value(value),
        model::Message::Nodes { nodes } => enc_u8(TAG_MSG_NODES) + enc_node_seq(nodes),
        model::Message::ValueFound { value } => enc_u8(TAG_MSG_VALUE_FOUND) + enc_value(value),
        model::Message::ValueNotFound { nodes } => enc_u8(TAG_MSG_VALUE_NOT_FOUND) + enc_node_seq(
            nodes,
        ),
        model::Message::Stored => enc_u8(TAG_MSG_STORED),
        model::Message::Query { node } => enc_u8(TAG_MSG_QUERY) + enc_node(node),
        model::Message::NodeInfo { node } => enc_u8(TAG_MSG_NODE_INFO) + enc_node(node),
    }
}

pub open spec fn dec_msg(s: Seq<u8>) -> Option<(model::Message, Seq<u8>)> {
    match dec_u8(s) {
        Some((tag, r1)) => if tag == TAG_MSG_PING {
            match dec_i64(r1) {
                Some((random_id, r2)) => Some((model::Message::Ping { random_id }, r2)),
                None => None,
            }
        } else if tag == TAG_MSG_PONG {
            match dec_i64(r1) {
                Some((random_id, r2)) => Some((model::Message::Pong { random_id }, r2)),
                None => None,
            }
        } else if tag == TAG_MSG_FIND_NODE {
            match dec_arr32(r1) {
                Some((key, r2)) => match dec_i32(r2) {
                    Some((k, r3)) => Some((model::Message::FindNode { key, k }, r3)),
                    None => None,
                },
                None => None,
            }
        } else if tag == TAG_MSG_FIND_VALUE {
            match dec_arr32(r1) {
                Some((key, r2)) => match dec_i32(r2) {
                    Some((k, r3)) => Some((model::Message::FindValue { key, k }, r3)),
                    None => None,
                },
                None => None,
            }
        } else if tag == TAG_MSG_GET_SIGNED_ADDRESS_LIST {
            Some((model::Message::GetSignedAddressList, r1))
        } else if tag == TAG_MSG_STORE {
            match dec_value(r1) {
                Some((value, r2)) => Some((model::Message::Store { value }, r2)),
                None => None,
            }
        } else if tag == TAG_MSG_NODES {
            match dec_node_seq(r1) {
                Some((nodes, r2)) => Some((model::Message::Nodes { nodes }, r2)),
                None => None,
            }
        } else if tag == TAG_MSG_VALUE_FOUND {
            match dec_value(r1) {
                Some((value, r2)) => Some((model::Message::ValueFound { value }, r2)),
                None => None,
            }
        } else if tag == TAG_MSG_VALUE_NOT_FOUND {
            match dec_node_seq(r1) {
                Some((nodes, r2)) => Some((model::Message::ValueNotFound { nodes }, r2)),
                None => None,
            }
        } else if tag == TAG_MSG_STORED {
            Some((model::Message::Stored, r1))
        } else if tag == TAG_MSG_QUERY {
            match dec_node(r1) {
                Some((node, r2)) => Some((model::Message::Query { node }, r2)),
                None => None,
            }
        } else if tag == TAG_MSG_NODE_INFO {
            match dec_node(r1) {
                Some((node, r2)) => Some((model::Message::NodeInfo { node }, r2)),
                None => None,
            }
        } else {
            None
        },
        None => None,
    }
}

#[verifier::rlimit(60)]
pub proof fn lemma_rt_msg(m: model::Message, rest: Seq<u8>)
    requires
        model::wf_message(m),
    ensures
        dec_msg(enc_msg(m) + rest) == Some((m, rest)),
{
    match m {
        model::Message::Ping { random_id } => {
            lemma_add_assoc(enc_u8(TAG_MSG_PING), enc_i64(random_id), rest);
            lemma_rt_u8(TAG_MSG_PING, enc_i64(random_id) + rest);
            lemma_rt_i64(random_id, rest);
        },
        model::Message::Pong { random_id } => {
            lemma_add_assoc(enc_u8(TAG_MSG_PONG), enc_i64(random_id), rest);
            lemma_rt_u8(TAG_MSG_PONG, enc_i64(random_id) + rest);
            lemma_rt_i64(random_id, rest);
        },
        model::Message::FindNode { key, k } => {
            lemma_add_assoc(enc_u8(TAG_MSG_FIND_NODE) + enc_arr32(key), enc_i32(k), rest);
            lemma_add_assoc(enc_u8(TAG_MSG_FIND_NODE), enc_arr32(key), enc_i32(k) + rest);
            lemma_rt_u8(TAG_MSG_FIND_NODE, enc_arr32(key) + (enc_i32(k) + rest));
            lemma_rt_arr32(key, enc_i32(k) + rest);
            lemma_rt_i32(k, rest);
        },
        model::Message::FindValue { key, k } => {
            lemma_add_assoc(enc_u8(TAG_MSG_FIND_VALUE) + enc_arr32(key), enc_i32(k), rest);
            lemma_add_assoc(enc_u8(TAG_MSG_FIND_VALUE), enc_arr32(key), enc_i32(k) + rest);
            lemma_rt_u8(TAG_MSG_FIND_VALUE, enc_arr32(key) + (enc_i32(k) + rest));
            lemma_rt_arr32(key, enc_i32(k) + rest);
            lemma_rt_i32(k, rest);
        },
        model::Message::GetSignedAddressList => {
            lemma_rt_u8(TAG_MSG_GET_SIGNED_ADDRESS_LIST, rest);
        },
        model::Message::Store { value } => {
            lemma_add_assoc(enc_u8(TAG_MSG_STORE), enc_value(value), rest);
            lemma_rt_u8(TAG_MSG_STORE, enc_value(value) + rest);
            lemma_rt_value(value, rest);
        },
        model::Message::Nodes { nodes } => {
            lemma_add_assoc(enc_u8(TAG_MSG_NODES), enc_node_seq(nodes), rest);
            lemma_rt_u8(TAG_MSG_NODES, enc_node_seq(nodes) + rest);
            lemma_rt_node_seq(nodes, rest);
        },
        model::Message::ValueFound { value } => {
            lemma_add_assoc(enc_u8(TAG_MSG_VALUE_FOUND), enc_value(value), rest);
            lemma_rt_u8(TAG_MSG_VALUE_FOUND, enc_value(value) + rest);
            lemma_rt_value(value, rest);
        },
        model::Message::ValueNotFound { nodes } => {
            lemma_add_assoc(enc_u8(TAG_MSG_VALUE_NOT_FOUND), enc_node_seq(nodes), rest);
            lemma_rt_u8(TAG_MSG_VALUE_NOT_FOUND, enc_node_seq(nodes) + rest);
            lemma_rt_node_seq(nodes, rest);
        },
        model::Message::Stored => {
            lemma_rt_u8(TAG_MSG_STORED, rest);
        },
        model::Message::Query { node } => {
            lemma_add_assoc(enc_u8(TAG_MSG_QUERY), enc_node(node), rest);
            lemma_rt_u8(TAG_MSG_QUERY, enc_node(node) + rest);
            lemma_rt_node(node, rest);
        },
        model::Message::NodeInfo { node } => {
            lemma_add_assoc(enc_u8(TAG_MSG_NODE_INFO), enc_node(node), rest);
            lemma_rt_u8(TAG_MSG_NODE_INFO, enc_node(node) + rest);
            lemma_rt_node(node, rest);
        },
    }
}

// ------------------------------------------------------------------ payloads

pub const TAG_PAYLOAD_ADDRESS_LIST: u8 = 30;

pub const TAG_PAYLOAD_OVERLAY_NODES: u8 = 31;

pub open spec fn enc_payload(pl: model::Payload) -> Seq<u8> {
    match pl {
        model::Payload::AddressList { list } => enc_u8(TAG_PAYLOAD_ADDRESS_LIST) + enc_addr_list(
            list,
        ),
        model::Payload::OverlayNodes { nodes } => enc_u8(TAG_PAYLOAD_OVERLAY_NODES)
            + enc_overlay_seq(nodes),
    }
}

pub open spec fn dec_payload(s: Seq<u8>) -> Option<(model::Payload, Seq<u8>)> {
    match dec_u8(s) {
        Some((tag, r1)) => if tag == TAG_PAYLOAD_ADDRESS_LIST {
            match dec_addr_list(r1) {
                Some((list, r2)) => Some((model::Payload::AddressList { list }, r2)),
                None => None,
            }
        } else if tag == TAG_PAYLOAD_OVERLAY_NODES {
            match dec_overlay_seq(r1) {
                Some((nodes, r2)) => Some((model::Payload::OverlayNodes { nodes }, r2)),
                None => None,
            }
        } else {
            None
        },
        None => None,
    }
}

pub proof fn lemma_rt_payload(pl: model::Payload, rest: Seq<u8>)
    requires
        model::wf_payload(pl),
    ensures
        dec_payload(enc_payload(pl) + rest) == Some((pl, rest)),
{
    match pl {
        model::Payload::AddressList { list } => {
            lemma_add_assoc(enc_u8(TAG_PAYLOAD_ADDRESS_LIST), enc_addr_list(list), rest);
            lemma_rt_u8(TAG_PAYLOAD_ADDRESS_LIST, enc_addr_list(list) + rest);
            lemma_rt_addr_list(list, rest);
        },
        model::Payload::OverlayNodes { nodes } => {
            lemma_add_assoc(enc_u8(TAG_PAYLOAD_OVERLAY_NODES), enc_overlay_seq(nodes), rest);
            lemma_rt_u8(TAG_PAYLOAD_OVERLAY_NODES, enc_overlay_seq(nodes) + rest);
            lemma_rt_overlay_seq(nodes, rest);
        },
    }
}

// ---------------------------------------------------- whole-buffer decoding

/// Decoding of a buffer that must hold exactly one message.
pub open spec fn dec_msg_full(s: Seq<u8>) -> Option<model::Message> {
    match dec_msg(s) {
        Some((m, r)) => if r.len() == 0 {
            Some(m)
        } else {
            None
        },
        None => None,
    }
}

/// Decoding of a buffer that must hold exactly one payload.
pub open spec fn dec_payload_full(s: Seq<u8>) -> Option<model::Payload> {
    match dec_payload(s) {
        Some((pl, r)) => if r.len() == 0 {
            Some(pl)
        } else {
            None
        },
        None => None,
    }
}

/// Round trip: decoding an encoded wire message yields the message itself.
pub proof fn lemma_msg_roundtrip(m: model::Message)
    requires
        model::wf_message(m),
    ensures
        dec_msg_full(enc_msg(m)) == Some(m),
{
    lemma_rt_msg(m, Seq::empty());
    assert(enc_msg(m) + Seq::<u8>::empty() =~= enc_msg(m));
}

/// Round trip: decoding an encoded record payload yields the payload itself.
pub proof fn lemma_payload_roundtrip(pl: model::Payload)
    requires
        model::wf_payload(pl),
    ensures
        dec_payload_full(enc_payload(pl)) == Some(pl),
{
    lemma_rt_payload(pl, Seq::empty());
    assert(enc_payload(pl) + Seq::<u8>::empty() =~= enc_payload(pl));
}


// --------------------------------------------------------- exec: composites

proof fn lemma_enc_addr_seq_body_snoc(s: Seq<model::Address>, x: model::Address)
    ensures
        enc_addr_seq_body(s.push(x)) == enc_addr_seq_body(s) + enc_addr(x),
    decreases s.len(),
{
    if s.len() == 0 {
        let e = Seq::<model::Address>::empty();
        assert(s =~= e);
        assert(enc_addr_seq_body(e) == Seq::<u8>::empty());
        assert(s.push(x)[0] == x);
        assert(s.push(x).drop_first() =~= e);
        assert(enc_addr_seq_body(s.push(x)) == enc_addr(x) + enc_addr_seq_body(e));
        lemma_add_empty_right(enc_addr(x));
        lemma_add_empty_left(enc_addr(x));
    } else {
        assert(s.push(x)[0] == s[0]);
        assert(s.push(x).drop_first() =~= s.drop_first().push(x));
        lemma_enc_addr_seq_body_snoc(s.drop_first(), x);
        lemma_add_assoc(enc_addr(s[0]), enc_addr_seq_body(s.drop_first()), enc_addr(x));
    }
}

proof fn lemma_enc_node_seq_body_snoc(s: Seq<model::Node>, x: model::Node)
    ensures
        enc_node_seq_body(s.push(x)) == enc_node_seq_body(s) + enc_node(x),
    decreases s.len(),
{
    if s.len() == 0 {
        let e = Seq::<model::Node>::empty();
        assert(s =~= e);
        assert(enc_node_seq_body(e) == Seq::<u8>::empty());
        assert(s.push(x)[0] == x);
        assert(s.push(x).drop_first() =~= e);
        assert(enc_node_seq_body(s.push(x)) == enc_node(x) + enc_node_seq_body(e));
        lemma_add_empty_right(enc_node(x));
        lemma_add_empty_left(enc_node(x));
    } else {
        assert(s.push(x)[0] == s[0]);
        assert(s.push(x).drop_first() =~= s.drop_first().push(x));
        lemma_enc_node_seq_body_snoc(s.drop_first(), x);
        lemma_add_assoc(enc_node(s[0]), enc_node_seq_body(s.drop_first()), enc_node(x));
    }
}

proof fn lemma_enc_overlay_seq_body_snoc(s: Seq<model::OverlayNode>, x: model::OverlayNode)
    ensures
        enc_overlay_seq_body(s.push(x)) == enc_overlay_seq_body(s) + enc_overlay_node(x),
    decreases s.len(),
{
    if s.len() == 0 {
        let e = Seq::<model::OverlayNode>::empty();
        assert(s =~= e);
        assert(enc_overlay_seq_body(e) == Seq::<u8>::empty());
        assert(s.push(x)[0] == x);
        assert(s.push(x).drop_first() =~= e);
        assert(enc_overlay_seq_body(s.push(x)) == enc_overlay_node(x) + enc_overlay_seq_body(e));
        lemma_add_empty_right(enc_overlay_node(x));
        lemma_add_empty_left(enc_overlay_node(x));
    } else {
        assert(s.push(x)[0] == s[0]);
        assert(s.push(x).drop_first() =~= s.drop_first().push(x));
        lemma_enc_overlay_seq_body_snoc(s.drop_first(), x);
        lemma_add_assoc(
            enc_overlay_node(s[0]),
            enc_overlay_seq_body(s.drop_first()),
            enc_overlay_node(x),
        );
    }
}

/// Append the encoding of one endpoint.
pub fn encode_addr(a: &Address, out: &mut Vec<u8>)
    ensures
        final(out)@ == old(out)@ + enc_addr(a@),
{
    let ghost base = out@;
    encode_u32(a.ip, out);
    encode_u16(a.port, out);
    proof {
        lemma_add_assoc(base, enc_u32(a.ip), enc_u16(a.port));
    }
}

/// Append the encoding of an address list.
pub fn encode_addr_list(l: &AddressList, out: &mut Vec<u8>)
    ensures
        final(out)@ == old(out)@ + enc_addr_list(l@),
{
    proof {
        reveal(enc_addr_list);
    }
    let ghost base = out@;
    let ghost va = l@.addrs;
    let ghost e1 = enc_u64(va.len() as u64);
    encode_u64(l.addrs.len() as u64, out);
    let mut i: usize = 0;
    while i < l.addrs.len()
        invariant
            0 <= i <= l.addrs@.len(),
            va == l@.addrs,
            e1 == enc_u64(va.len() as u64),
            va.len() == l.addrs@.len(),
            out@ == base + e1 + enc_addr_seq_body(va.take(i as int)),
        decreases l.addrs@.len() - i,
    {
        let ghost pre = va.take(i as int);
        encode_addr(&l.addrs[i], out);
        proof {
            assert(va.take(i + 1) =~= pre.push(va[i as int]));
            assert(l.addrs@[i as int]@ == va[i as int]);
            lemma_enc_addr_seq_body_snoc(pre, va[i as int]);
            lemma_add_assoc(base + e1, enc_addr_seq_body(pre), enc_addr(va[i as int]));
        }
        i = i + 1;
    }
    proof {
        assert(va.take(va.len() as int) =~= va);
    }
    let ghost eb = enc_addr_seq_body(va);
    let ghost e3 = enc_i32(l.version);
    let ghost e4 = enc_i32(l.reinit_date);
    let ghost e5 = enc_i32(l.priority);
    let ghost e6 = enc_i32(l.expire_at);
    encode_i32(l.version, out);
    encode_i32(l.reinit_date, out);
    encode_i32(l.priority, out);
    encode_i32(l.expire_at, out);
    proof {
        lemma_add_assoc(base, e1, eb);
        lemma_add_assoc(base, e1 + eb, e3);
        lemma_add_assoc(base, e1 + eb + e3, e4);
        lemma_add_assoc(base, e1 + eb + e3 + e4, e5);
        lemma_add_assoc(base, e1 + eb + e3 + e4 + e5, e6);
    }
}

/// Append the encoding of a public-key descriptor.
pub fn encode_pubkey(k: &PublicKey, out: &mut Vec<u8>)
    ensures
        final(out)@ == old(out)@ + enc_pubkey(k@),
{
    let ghost base = out@;
    match k {
        PublicKey::Ed25519 { key } => {
            out.push(TAG_KEY_ED25519);
            encode_arr32(key, out);
            proof {
                assert(base.push(TAG_KEY_ED25519) =~= base + enc_u8(TAG_KEY_ED25519));
                lemma_add_assoc(base, enc_u8(TAG_KEY_ED25519), enc_arr32(key@));
            }
        },
        PublicKey::Overlay { name } => {
            out.push(TAG_KEY_OVERLAY);
            encode_bytes(name, out);
            proof {
                assert(base.push(TAG_KEY_OVERLAY) =~= base + enc_u8(TAG_KEY_OVERLAY));
                lemma_add_assoc(base, enc_u8(TAG_KEY_OVERLAY), enc_bytes(name@));
            }
        },
    }
}

/// Append the encoding of a structured key.
pub fn encode_dht_key(k: &DhtKey, out: &mut Vec<u8>)
    ensures
        final(out)@ == old(out)@ + enc_dht_key(k@),
{
    let ghost base = out@;
    let ghost e1 = enc_arr32(k.id@);
    let ghost e2 = enc_i32(k.idx);
    let ghost e3 = enc_bytes(k.name@);
    encode_arr32(&k.id, out);
    encode_i32(k.idx, out);
    encode_bytes(&k.name, out);
    proof {
        lemma_add_assoc(base, e1, e2);
        lemma_add_assoc(base, e1 + e2, e3);
    }
}

/// Append the encoding of an update rule.
pub fn encode_rule(r: &UpdateRule, out: &mut Vec<u8>)
    ensures
        final(out)@ == old(out)@ + enc_rule(r@),
{
    let ghost base = out@;
    match r {
        UpdateRule::Signature => {
            out.push(TAG_RULE_SIGNATURE);
            proof {
                assert(base.push(TAG_RULE_SIGNATURE) =~= base + enc_u8(TAG_RULE_SIGNATURE));
            }
        },
        UpdateRule::OverlayNodes => {
            out.push(TAG_RULE_OVERLAY_NODES);
            proof {
                assert(base.push(TAG_RULE_OVERLAY_NODES) =~= base + enc_u8(TAG_RULE_OVERLAY_NODES));
            }
        },
    }
}

/// Append the encoding of a key description.
pub fn encode_key_desc(d: &KeyDescription, out: &mut Vec<u8>)
    ensures
        final(out)@ == old(out)@ + enc_key_desc(d@),
{
    proof {
        reveal(enc_key_desc);
    }
    let ghost base = out@;
    let ghost e1 = enc_pubkey(d.id@);
    let ghost e2 = enc_dht_key(d.key@);
    let ghost e3 = enc_rule(d.update_rule@);
    let ghost e4 = enc_bytes(d.signature@);
    encode_pubkey(&d.id, out);
    encode_dht_key(&d.key, out);
    encode_rule(&d.update_rule, out);
    encode_bytes(&d.signature, out);
    proof {
        lemma_add_assoc(base, e1, e2);
        lemma_add_assoc(base, e1 + e2, e3);
        lemma_add_assoc(base, e1 + e2 + e3, e4);
    }
}

/// Append the encoding of a stored record.
pub fn encode_value(v: &Value, out: &mut Vec<u8>)
    ensures
        final(out)@ == old(out)@ + enc_value(v@),
{
    proof {
        reveal(enc_value);
    }
    let ghost base = out@;
    let ghost e1 = enc_key_desc(v.key@);
    let ghost e2 = enc_bytes(v.value@);
    let ghost e3 = enc_i64(v.ttl);
    let ghost e4 = enc_bytes(v.signature@);
    encode_key_desc(&v.key, out);
    encode_bytes(&v.value, out);
    encode_i64(v.ttl, out);
    encode_bytes(&v.signature, out);
    proof {
        lemma_add_assoc(base, e1, e2);
        lemma_add_assoc(base, e1 + e2, e3);
        lemma_add_assoc(base, e1 + e2 + e3, e4);
    }
}

/// Append the encoding of a peer descriptor.
pub fn encode_node(n: &Node, out: &mut Vec<u8>)
    ensures
        final(out)@ == old(out)@ + enc_node(n@),
{
    proof {
        reveal(enc_node);
    }
    let ghost base = out@;
    let ghost e1 = enc_pubkey(n.id@);
    let ghost e2 = enc_addr_list(n.addr_list@);
    let ghost e3 = enc_i32(n.version);
    let ghost e4 = enc_bytes(n.signature@);
    encode_pubkey(&n.id, out);
    encode_addr_list(&n.addr_list, out);
    encode_i32(n.version, out);
    encode_bytes(&n.signature, out);
    proof {
        lemma_add_assoc(base, e1, e2);
        lemma_add_assoc(base, e1 + e2, e3);
        lemma_add_assoc(base, e1 + e2 + e3, e4);
    }
}

/// Append the encoding of an overlay node.
pub fn encode_overlay_node(n: &OverlayNode, out: &mut Vec<u8>)
    ensures
        final(out)@ == old(out)@ + enc_overlay_node(n@),
{
    proof {
        reveal(enc_overlay_node);
    }
    let ghost base = out@;
    let ghost e1 = enc_pubkey(n.id@);
    let ghost e2 = enc_arr32(n.overlay@);
    let ghost e3 = enc_i32(n.version);
    let ghost e4 = enc_bytes(n.signature@);
    encode_pubkey(&n.id, out);
    encode_arr32(&n.overlay, out);
    encode_i32(n.version, out);
    encode_bytes(&n.signature, out);
    proof {
        lemma_add_assoc(base, e1, e2);
        lemma_add_assoc(base, e1 + e2, e3);
        lemma_add_assoc(base, e1 + e2 + e3, e4);
    }
}

/// Append the encoding of a list of peer descriptors.
pub fn encode_node_vec(nodes: &Vec<Node>, out: &mut Vec<u8>)
    ensures
        final(out)@ == old(out)@ + enc_node_seq(views_of_nodes(nodes@)),
{
    let ghost base = out@;
    let ghost vs = views_of_nodes(nodes@);
    let ghost e1 = enc_u64(vs.len() as u64);
    encode_u64(nodes.len() as u64, out);
    let mut i: usize = 0;
    while i < nodes.len()
        invariant
            0 <= i <= nodes@.len(),
            vs == views_of_nodes(nodes@),
            e1 == enc_u64(vs.len() as u64),
            vs.len() == nodes@.len(),
            out@ == base + e1 + enc_node_seq_body(vs.take(i as int)),
        decreases nodes@.len() - i,
    {
        let ghost pre = vs.take(i as int);
        encode_node(&nodes[i], out);
        proof {
            assert(vs.take(i + 1) =~= pre.push(vs[i as int]));
            assert(nodes@[i as int]@ == vs[i as int]);
            lemma_enc_node_seq_body_snoc(pre, vs[i as int]);
            lemma_add_assoc(base + e1, enc_node_seq_body(pre), enc_node(vs[i as int]));
        }
        i = i + 1;
    }
    proof {
        assert(vs.take(vs.len() as int) =~= vs);
        lemma_add_assoc(base, e1, enc_node_seq_body(vs));
    }
}

/// Append the encoding of a list of overlay nodes.
pub fn encode_overlay_vec(nodes: &Vec<OverlayNode>, out: &mut Vec<u8>)
    ensures
        final(out)@ == old(out)@ + enc_overlay_seq(views_of_overlay_nodes(nodes@)),
{
    let ghost base = out@;
    let ghost vs = views_of_overlay_nodes(nodes@);
    let ghost e1 = enc_u64(vs.len() as u64);
    encode_u64(nodes.len() as u64, out);
    let mut i: usize = 0;
    while i < nodes.len()
        invariant
            0 <= i <= nodes@.len(),
            vs == views_of_overlay_nodes(nodes@),
            e1 == enc_u64(vs.len() as u64),
            vs.len() == nodes@.len(),
            out@ == base + e1 + enc_overlay_seq_body(vs.take(i as int)),
        decreases nodes@.len() - i,
    {
        let ghost pre = vs.take(i as int);
        encode_overlay_node(&nodes[i], out);
        proof {
            assert(vs.take(i + 1) =~= pre.push(vs[i as int]));
            assert(nodes@[i as int]@ == vs[i as int]);
            lemma_enc_overlay_seq_body_snoc(pre, vs[i as int]);
            lemma_add_assoc(base + e1, enc_overlay_seq_body(pre), enc_overlay_node(vs[i as int]));
        }
        i = i + 1;
    }
    proof {
        assert(vs.take(vs.len() as int) =~= vs);
        lemma_add_assoc(base, e1, enc_overlay_seq_body(vs));
    }
}

/// Append the encoding of a protocol message.
pub fn encode_message(m: &Message, out: &mut Vec<u8>)
    ensures
        final(out)@ == old(out)@ + enc_msg(m@),
{
    let ghost base = out@;
    match m {
        Message::Ping { random_id } => {
            out.push(TAG_MSG_PING);
            encode_i64(*random_id, out);
            proof {
                assert(base.push(TAG_MSG_PING) =~= base + enc_u8(TAG_MSG_PING));
                lemma_add_assoc(base, enc_u8(TAG_MSG_PING), enc_i64(*random_id));
            }
        },
        Message::Pong { random_id } => {
            out.push(TAG_MSG_PONG);
            encode_i64(*random_id, out);
            proof {
                assert(base.push(TAG_MSG_PONG) =~= base + enc_u8(TAG_MSG_PONG));
                lemma_add_assoc(base, enc_u8(TAG_MSG_PONG), enc_i64(*random_id));
            }
        },
        Message::FindNode { key, k } => {
            out.push(TAG_MSG_FIND_NODE);
            encode_arr32(key, out);
            encode_i32(*k, out);
            proof {
                assert(base.push(TAG_MSG_FIND_NODE) =~= base + enc_u8(TAG_MSG_FIND_NODE));
                lemma_add_assoc(base, enc_u8(TAG_MSG_FIND_NODE), enc_arr32(key@));
                lemma_add_assoc(base, enc_u8(TAG_MSG_FIND_NODE) + enc_arr32(key@), enc_i32(*k));
            }
        },
        Message::FindValue { key, k } => {
            out.push(TAG_MSG_FIND_VALUE);
            encode_arr32(key, out);
            encode_i32(*k, out);
            proof {
                assert(base.push(TAG_MSG_FIND_VALUE) =~= base + enc_u8(TAG_MSG_FIND_VALUE));
                lemma_add_assoc(base, enc_u8(TAG_MSG_FIND_VALUE), enc_arr32(key@));
                lemma_add_assoc(base, enc_u8(TAG_MSG_FIND_VALUE) + enc_arr32(key@), enc_i32(*k));
            }
        },
        Message::GetSignedAddressList => {
            out.push(TAG_MSG_GET_SIGNED_ADDRESS_LIST);
            proof {
                assert(base.push(TAG_MSG_GET_SIGNED_ADDRESS_LIST) =~= base + enc_u8(
                    TAG_MSG_GET_SIGNED_ADDRESS_LIST,
                ));
            }
        },
        Message::Store { value } => {
            out.push(TAG_MSG_STORE);
            encode_value(value, out);
            proof {
                assert(base.push(TAG_MSG_STORE) =~= base + enc_u8(TAG_MSG_STORE));
                lemma_add_assoc(base, enc_u8(TAG_MSG_STORE), enc_value(value@));
            }
        },
        Message::Nodes { nodes } => {
            out.push(TAG_MSG_NODES);
            encode_node_vec(nodes, out);
            proof {
                assert(base.push(TAG_MSG_NODES) =~= base + enc_u8(TAG_MSG_NODES));
                lemma_add_assoc(base, enc_u8(TAG_MSG_NODES), enc_node_seq(views_of_nodes(nodes@)));
            }
        },
        Message::ValueFound { value } => {
            out.push(TAG_MSG_VALUE_FOUND);
            encode_value(value, out);
            proof {
                assert(base.push(TAG_MSG_VALUE_FOUND) =~= base + enc_u8(TAG_MSG_VALUE_FOUND));
                lemma_add_assoc(base, enc_u8(TAG_MSG_VALUE_FOUND), enc_value(value@));
            }
        },
        Message::ValueNotFound { nodes } => {
            out.push(TAG_MSG_VALUE_NOT_FOUND);
            encode_node_vec(nodes, out);
            proof {
                assert(base.push(TAG_MSG_VALUE_NOT_FOUND) =~= base + enc_u8(
                    TAG_MSG_VALUE_NOT_FOUND,
                ));
                lemma_add_assoc(
                    base,
                    enc_u8(TAG_MSG_VALUE_NOT_FOUND),
                    enc_node_seq(views_of_nodes(nodes@)),
                );
            }
        },
        Message::Stored => {
            out.push(TAG_MSG_STORED);
            proof {
                assert(base.push(TAG_MSG_STORED) =~= base + enc_u8(TAG_MSG_STORED));
            }
        },
        Message::Query { node } => {
            out.push(TAG_MSG_QUERY);
            encode_node(node, out);
            proof {
                assert(base.push(TAG_MSG_QUERY) =~= base + enc_u8(TAG_MSG_QUERY));
                lemma_add_assoc(base, enc_u8(TAG_MSG_QUERY), enc_node(node@));
            }
        },
        Message::NodeInfo { node } => {
            out.push(TAG_MSG_NODE_INFO);
            encode_node(node, out);
            proof {
                assert(base.push(TAG_MSG_NODE_INFO) =~= base + enc_u8(TAG_MSG_NODE_INFO));
                lemma_add_assoc(base, enc_u8(TAG_MSG_NODE_INFO), enc_node(node@));
            }
        },
    }
}

/// Append the encoding of a record payload.
pub fn encode_payload(pl: &Payload, out: &mut Vec<u8>)
    ensures
        final(out)@ == old(out)@ + enc_payload(pl@),
{
    let ghost base = out@;
    match pl {
        Payload::AddressList { list } => {
            out.push(TAG_PAYLOAD_ADDRESS_LIST);
            encode_addr_list(list, out);
            proof {
                assert(base.push(TAG_PAYLOAD_ADDRESS_LIST) =~= base + enc_u8(
                    TAG_PAYLOAD_ADDRESS_LIST,
                ));
                lemma_add_assoc(base, enc_u8(TAG_PAYLOAD_ADDRESS_LIST), enc_addr_list(list@));
            }
        },
        Payload::OverlayNodes { nodes } => {
            out.push(TAG_PAYLOAD_OVERLAY_NODES);
            encode_overlay_vec(nodes, out);
            proof {
                assert(base.push(TAG_PAYLOAD_OVERLAY_NODES) =~= base + enc_u8(
                    TAG_PAYLOAD_OVERLAY_NODES,
                ));
                lemma_add_assoc(
                    base,
                    enc_u8(TAG_PAYLOAD_OVERLAY_NODES),
                    enc_overlay_seq(views_of_overlay_nodes(nodes@)),
                );
            }
        },
    }
}


// ----------------------------------------------------------- exec: decoders

/// Read one endpoint at `pos`.
pub fn decode_addr(buf: &Vec<u8>, pos: usize) -> (r: Option<(Address, usize)>)
    requires
        pos <= buf@.len(),
    ensures
        match r {
            Some(vp) => pos <= vp.1 <= buf@.len() && dec_addr(buf@.skip(pos as int)) == Some(
                (vp.0@, buf@.skip(vp.1 as int)),
            ),
            None => dec_addr(buf@.skip(pos as int)) is None,
        },
{
    match decode_u32(buf, pos) {
        Some((ip, p1)) => match decode_u16(buf, p1) {
            Some((port, p2)) => Some((Address { ip, port }, p2)),
            None => None,
        },
        None => None,
    }
}

/// Read an address list at `pos`.
#[verifier::rlimit(80)]
pub fn decode_addr_list(buf: &Vec<u8>, pos: usize) -> (r: Option<(AddressList, usize)>)
    requires
        pos <= buf@.len(),
    ensures
        match r {
            Some(vp) => pos <= vp.1 <= buf@.len() && dec_addr_list(buf@.skip(pos as int)) == Some(
                (vp.0@, buf@.skip(vp.1 as int)),
            ),
            None => dec_addr_list(buf@.skip(pos as int)) is None,
        },
{
    proof {
        reveal(dec_addr_list);
    }
    match decode_u64(buf, pos) {
        Some((n, p1)) => {
            let mut addrs: Vec<Address> = Vec::new();
            let mut cur: usize = p1;
            let mut i: u64 = 0;
            while i < n
                invariant
                    i <= n,
                    pos <= p1 <= buf@.len(),
                    p1 <= cur <= buf@.len(),
                    dec_u64(buf@.skip(pos as int)) == Some((n, buf@.skip(p1 as int))),
                    ({
                        let full = dec_addr_seq_body(buf@.skip(p1 as int), n as int);
                        let part = dec_addr_seq_body(buf@.skip(cur as int), n as int - i as int);
                        match part {
                            Some(vp) => full == Some(
                                (addrs@.map_values(|a: Address| a@) + vp.0, vp.1),
                            ),
                            None => full is None,
                        }
                    }),
                decreases n - i,
            {
                proof {
                    reveal(dec_addr_list);
                }
                match decode_addr(buf, cur) {
                    Some((a, c2)) => {
                        proof {
                            let va = addrs@.map_values(|q: Address| q@);
                            let part1 = dec_addr_seq_body(
                                buf@.skip(c2 as int),
                                n as int - i as int - 1,
                            );
                            assert(addrs@.push(a).map_values(|q: Address| q@) =~= va.push(a@));
                            match part1 {
                                Some(vp) => {
                                    assert(va + (seq![a@] + vp.0) =~= va.push(a@) + vp.0);
                                },
                                None => {},
                            }
                        }
                        addrs.push(a);
                        cur = c2;
                        i = i + 1;
                    },
                    None => {
                        return None;
                    },
                }
            }
            proof {
                let va = addrs@.map_values(|q: Address| q@);
                assert(va + Seq::<model::Address>::empty() =~= va);
            }
            match decode_i32(buf, cur) {
                Some((version, p3)) => match decode_i32(buf, p3) {
                    Some((reinit_date, p4)) => match decode_i32(buf, p4) {
                        Some((priority, p5)) => match decode_i32(buf, p5) {
                            Some((expire_at, p6)) => {
                                let l = AddressList {
                                    addrs,
                                    version,
                                    reinit_date,
                                    priority,
                                    expire_at,
                                };
                                Some((l, p6))
                            },
                            None => None,
                        },
                        None => None,
                    },
                    None => None,
                },
                None => None,
            }
        },
        None => None,
    }
}

/// Read a public-key descriptor at `pos`.
pub fn decode_pubkey(buf: &Vec<u8>, pos: usize) -> (r: Option<(PublicKey, usize)>)
    requires
        pos <= buf@.len(),
    ensures
        match r {
            Some(vp) => pos <= vp.1 <= buf@.len() && dec_pubkey(buf@.skip(pos as int)) == Some(
                (vp.0@, buf@.skip(vp.1 as int)),
            ),
            None => dec_pubkey(buf@.skip(pos as int)) is None,
        },
{
    proof {
        if buf@.skip(pos as int).len() >= 1 {
            assert(buf@.skip(pos as int)[0] == buf@[pos as int]);
            assert(buf@.skip(pos as int).skip(1) =~= buf@.skip(pos as int + 1));
        }
    }
    if pos < buf.len() {
        let tag = buf[pos];
        let p1 = pos + 1;
        if tag == TAG_KEY_ED25519 {
            match decode_arr32(buf, p1) {
                Some((key, p2)) => Some((PublicKey::Ed25519 { key }, p2)),
                None => None,
            }
        } else if tag == TAG_KEY_OVERLAY {
            match decode_bytes(buf, p1) {
                Some((name, p2)) => Some((PublicKey::Overlay { name }, p2)),
                None => None,
            }
        } else {
            None
        }
    } else {
        None
    }
}

/// Read a structured key at `pos`.
pub fn decode_dht_key(buf: &Vec<u8>, pos: usize) -> (r: Option<(DhtKey, usize)>)
    requires
        pos <= buf@.len(),
    ensures
        match r {
            Some(vp) => pos <= vp.1 <= buf@.len() && dec_dht_key(buf@.skip(pos as int)) == Some(
                (vp.0@, buf@.skip(vp.1 as int)),
            ),
            None => dec_dht_key(buf@.skip(pos as int)) is None,
        },
{
    match decode_arr32(buf, pos) {
        Some((id, p1)) => match decode_i32(buf, p1) {
            Some((idx, p2)) => match decode_bytes(buf, p2) {
                Some((name, p3)) => Some((DhtKey { id, idx, name }, p3)),
                None => None,
            },
            None => None,
        },
        None => None,
    }
}

/// Read an update rule at `pos`.
pub fn decode_rule(buf: &Vec<u8>, pos: usize) -> (r: Option<(UpdateRule, usize)>)
    requires
        pos <= buf@.len(),
    ensures
        match r {
            Some(vp) => pos <= vp.1 <= buf@.len() && dec_rule(buf@.skip(pos as int)) == Some(
                (vp.0@, buf@.skip(vp.1 as int)),
            ),
            None => dec_rule(buf@.skip(pos as int)) is None,
        },
{
    proof {
        if buf@.skip(pos as int).len() >= 1 {
            assert(buf@.skip(pos as int)[0] == buf@[pos as int]);
            assert(buf@.skip(pos as int).skip(1) =~= buf@.skip(pos as int + 1));
        }
    }
    if pos < buf.len() {
        let tag = buf[pos];
        let p1 = pos + 1;
        if tag == TAG_RULE_SIGNATURE {
            Some((UpdateRule::Signature, p1))
        } else if tag == TAG_RULE_OVERLAY_NODES {
            Some((UpdateRule::OverlayNodes, p1))
        } else {
            None
        }
    } else {
        None
    }
}

/// Read a key description at `pos`.
pub fn decode_key_desc(buf: &Vec<u8>, pos: usize) -> (r: Option<(KeyDescription, usize)>)
    requires
        pos <= buf@.len(),
    ensures
        match r {
            Some(vp) => pos <= vp.1 <= buf@.len() && dec_key_desc(buf@.skip(pos as int)) == Some(
                (vp.0@, buf@.skip(vp.1 as int)),
            ),
            None => dec_key_desc(buf@.skip(pos as int)) is None,
        },
{
    proof {
        reveal(dec_key_desc);
    }
    match decode_pubkey(buf, pos) {
        Some((id, p1)) => match decode_dht_key(buf, p1) {
            Some((key, p2)) => match decode_rule(buf, p2) {
                Some((update_rule, p3)) => match decode_bytes(buf, p3) {
                    Some((signature, p4)) => Some(
                        (KeyDescription { id, key, update_rule, signature }, p4),
                    ),
                    None => None,
                },
                None => None,
            },
            None => None,
        },
        None => None,
    }
}

/// Read a stored record at `pos`.
pub fn decode_value(buf: &Vec<u8>, pos: usize) -> (r: Option<(Value, usize)>)
    requires
        pos <= buf@.len(),
    ensures
        match r {
            Some(vp) => pos <= vp.1 <= buf@.len() && dec_value(buf@.skip(pos as int)) == Some(
                (vp.0@, buf@.skip(vp.1 as int)),
            ),
            None => dec_value(buf@.skip(pos as int)) is None,
        },
{
    proof {
        reveal(dec_value);
    }
    match decode_key_desc(buf, pos) {
        Some((key, p1)) => match decode_bytes(buf, p1) {
            Some((value, p2)) => match decode_i64(buf, p2) {
                Some((ttl, p3)) => match decode_bytes(buf, p3) {
                    Some((signature, p4)) => Some((Value { key, value, ttl, signature }, p4)),
                    None => None,
                },
                None => None,
            },
            None => None,
        },
        None => None,
    }
}

/// Read a peer descriptor at `pos`.
pub fn decode_node(buf: &Vec<u8>, pos: usize) -> (r: Option<(Node, usize)>)
    requires
        pos <= buf@.len(),
    ensures
        match r {
            Some(vp) => pos <= vp.1 <= buf@.len() && dec_node(buf@.skip(pos as int)) == Some(
                (vp.0@, buf@.skip(vp.1 as int)),
            ),
            None => dec_node(buf@.skip(pos as int)) is None,
        },
{
    proof {
        reveal(dec_node);
    }
    match decode_pubkey(buf, pos) {
        Some((id, p1)) => match decode_addr_list(buf, p1) {
            Some((addr_list, p2)) => match decode_i32(buf, p2) {
                Some((version, p3)) => match decode_bytes(buf, p3) {
                    Some((signature, p4)) => Some((Node { id, addr_list, version, signature }, p4)),
                    None => None,
                },
                None => None,
            },
            None => None,
        },
        None => None,
    }
}

/// Read an overlay node at `pos`.
pub fn decode_overlay_node(buf: &Vec<u8>, pos: usize) -> (r: Option<(OverlayNode, usize)>)
    requires
        pos <= buf@.len(),
    ensures
        match r {
            Some(vp) => pos <= vp.1 <= buf@.len() && dec_overlay_node(buf@.skip(pos as int))
                == Some((vp.0@, buf@.skip(vp.1 as int))),
            None => dec_overlay_node(buf@.skip(pos as int)) is None,
        },
{
    proof {
        reveal(dec_overlay_node);
    }
    match decode_pubkey(buf, pos) {
        Some((id, p1)) => match decode_arr32(buf, p1) {
            Some((overlay, p2)) => match decode_i32(buf, p2) {
                Some((version, p3)) => match decode_bytes(buf, p3) {
                    Some((signature, p4)) => Some(
                        (OverlayNode { id, overlay, version, signature }, p4),
                    ),
                    None => None,
                },
                None => None,
            },
            None => None,
        },
        None => None,
    }
}

/// Read a list of peer descriptors at `pos`.
#[verifier::rlimit(80)]
pub fn decode_node_vec(buf: &Vec<u8>, pos: usize) -> (r: Option<(Vec<Node>, usize)>)
    requires
        pos <= buf@.len(),
    ensures
        match r {
            Some(vp) => pos <= vp.1 <= buf@.len() && dec_node_seq(buf@.skip(pos as int)) == Some(
                (views_of_nodes(vp.0@), buf@.skip(vp.1 as int)),
            ),
            None => dec_node_seq(buf@.skip(pos as int)) is None,
        },
{
    match decode_u64(buf, pos) {
        Some((n, p1)) => {
            let mut acc: Vec<Node> = Vec::new();
            let mut cur: usize = p1;
            let mut i: u64 = 0;
            while i < n
                invariant
                    i <= n,
                    pos <= p1 <= buf@.len(),
                    p1 <= cur <= buf@.len(),
                    dec_u64(buf@.skip(pos as int)) == Some((n, buf@.skip(p1 as int))),
                    ({
                        let full = dec_node_seq_body(buf@.skip(p1 as int), n as int);
                        let part = dec_node_seq_body(buf@.skip(cur as int), n as int - i as int);
                        match part {
                            Some(vp) => full == Some((views_of_nodes(acc@) + vp.0, vp.1)),
                            None => full is None,
                        }
                    }),
                decreases n - i,
            {
                match decode_node(buf, cur) {
                    Some((nd, c2)) => {
                        proof {
                            let va = views_of_nodes(acc@);
                            let part1 = dec_node_seq_body(
                                buf@.skip(c2 as int),
                                n as int - i as int - 1,
                            );
                            assert(views_of_nodes(acc@.push(nd)) =~= va.push(nd@));
                            match part1 {
                                Some(vp) => {
                                    assert(va + (seq![nd@] + vp.0) =~= va.push(nd@) + vp.0);
                                },
                                None => {},
                            }
                        }
                        acc.push(nd);
                        cur = c2;
                        i = i + 1;
                    },
                    None => {
                        return None;
                    },
                }
            }
            proof {
                assert(views_of_nodes(acc@) + Seq::<model::Node>::empty() =~= views_of_nodes(
                    acc@,
                ));
            }
            Some((acc, cur))
        },
        None => None,
    }
}

/// Read a list of overlay nodes at `pos`.
#[verifier::rlimit(80)]
pub fn decode_overlay_vec(buf: &Vec<u8>, pos: usize) -> (r: Option<(Vec<OverlayNode>, usize)>)
    requires
        pos <= buf@.len(),
    ensures
        match r {
            Some(vp) => pos <= vp.1 <= buf@.len() && dec_overlay_seq(buf@.skip(pos as int)) == Some(
                (views_of_overlay_nodes(vp.0@), buf@.skip(vp.1 as int)),
            ),
            None => dec_overlay_seq(buf@.skip(pos as int)) is None,
        },
{
    match decode_u64(buf, pos) {
        Some((n, p1)) => {
            let mut acc: Vec<OverlayNode> = Vec::new();
            let mut cur: usize = p1;
            let mut i: u64 = 0;
            while i < n
                invariant
                    i <= n,
                    pos <= p1 <= buf@.len(),
                    p1 <= cur <= buf@.len(),
                    dec_u64(buf@.skip(pos as int)) == Some((n, buf@.skip(p1 as int))),
                    ({
                        let full = dec_overlay_seq_body(buf@.skip(p1 as int), n as int);
                        let part = dec_overlay_seq_body(buf@.skip(cur as int), n as int - i as int);
                        match part {
                            Some(vp) => full == Some((views_of_overlay_nodes(acc@) + vp.0, vp.1)),
                            None => full is None,
                        }
                    }),
                decreases n - i,
            {
                match decode_overlay_node(buf, cur) {
                    Some((nd, c2)) => {
                        proof {
                            let va = views_of_overlay_nodes(acc@);
                            let part1 = dec_overlay_seq_body(
                                buf@.skip(c2 as int),
                                n as int - i as int - 1,
                            );
                            assert(views_of_overlay_nodes(acc@.push(nd)) =~= va.push(nd@));
                            match part1 {
                                Some(vp) => {
                                    assert(va + (seq![nd@] + vp.0) =~= va.push(nd@) + vp.0);
                                },
                                None => {},
                            }
                        }
                        acc.push(nd);
                        cur = c2;
                        i = i + 1;
                    },
                    None => {
                        return None;
                    },
                }
            }
            proof {
                assert(views_of_overlay_nodes(acc@) + Seq::<model::OverlayNode>::empty()
                    =~= views_of_overlay_nodes(acc@));
            }
            Some((acc, cur))
        },
        None => None,
    }
}

/// Shared ensures shape of the per-tag message decoders.
pub open spec fn msg_decode_post(
    buf: Seq<u8>,
    pos: usize,
    r: Option<(Message, usize)>,
) -> bool {
    match r {
        Some(vp) => pos <= vp.1 <= buf.len() && dec_msg(buf.skip(pos as int)) == Some(
            (vp.0@, buf.skip(vp.1 as int)),
        ),
        None => dec_msg(buf.skip(pos as int)) is None,
    }
}

/// Read a store message body.
#[verifier::rlimit(100)]
#[verifier::spinoff_prover]
fn decode_msg_store(buf: &Vec<u8>, pos: usize) -> (r: Option<(Message, usize)>)
    requires
        pos < buf@.len(),
        buf@[pos as int] == TAG_MSG_STORE,
    ensures
        msg_decode_post(buf@, pos, r),
{
    let blen = buf.len();
    proof {
        assert(buf@.skip(pos as int)[0] == buf@[pos as int]);
        assert(buf@.skip(pos as int).skip(1) =~= buf@.skip(pos as int + 1));
    }
    match decode_value(buf, pos + 1) {
        Some((value, p2)) => Some((Message::Store { value }, p2)),
        None => None,
    }
}

/// Read a nodes message body.
#[verifier::rlimit(100)]
#[verifier::spinoff_prover]
fn decode_msg_nodes(buf: &Vec<u8>, pos: usize) -> (r: Option<(Message, usize)>)
    requires
        pos < buf@.len(),
        buf@[pos as int] == TAG_MSG_NODES,
    ensures
        msg_decode_post(buf@, pos, r),
{
    let blen = buf.len();
    proof {
        assert(buf@.skip(pos as int)[0] == buf@[pos as int]);
        assert(buf@.skip(pos as int).skip(1) =~= buf@.skip(pos as int + 1));
    }
    match decode_node_vec(buf, pos + 1) {
        Some((nodes, p2)) => Some((Message::Nodes { nodes }, p2)),
        None => None,
    }
}

/// Read a value-found message body.
#[verifier::rlimit(100)]
#[verifier::spinoff_prover]
fn decode_msg_value_found(buf: &Vec<u8>, pos: usize) -> (r: Option<(Message, usize)>)
    requires
        pos < buf@.len(),
        buf@[pos as int] == TAG_MSG_VALUE_FOUND,
    ensures
        msg_decode_post(buf@, pos, r),
{
    let blen = buf.len();
    proof {
        assert(buf@.skip(pos as int)[0] == buf@[pos as int]);
        assert(buf@.skip(pos as int).skip(1) =~= buf@.skip(pos as int + 1));
    }
    match decode_value(buf, pos + 1) {
        Some((value, p2)) => Some((Message::ValueFound { value }, p2)),
        None => None,
    }
}

/// Read a value-not-found message body.
#[verifier::rlimit(100)]
#[verifier::spinoff_prover]
fn decode_msg_value_not_found(buf: &Vec<u8>, pos: usize) -> (r: Option<(Message, usize)>)
    requires
        pos < buf@.len(),
        buf@[pos as int] == TAG_MSG_VALUE_NOT_FOUND,
    ensures
        msg_decode_post(buf@, pos, r),
{
    let blen = buf.len();
    proof {
        assert(buf@.skip(pos as int)[0] == buf@[pos as int]);
        assert(buf@.skip(pos as int).skip(1) =~= buf@.skip(pos as int + 1));
    }
    match decode_node_vec(buf, pos + 1) {
        Some((nodes, p2)) => Some((Message::ValueNotFound { nodes }, p2)),
        None => None,
    }
}

/// Read a query-envelope message body.
#[verifier::rlimit(100)]
#[verifier::spinoff_prover]
fn decode_msg_query(buf: &Vec<u8>, pos: usize) -> (r: Option<(Message, usize)>)
    requires
        pos < buf@.len(),
        buf@[pos as int] == TAG_MSG_QUERY,
    ensures
        msg_decode_post(buf@, pos, r),
{
    let blen = buf.len();
    proof {
        assert(buf@.skip(pos as int)[0] == buf@[pos as int]);
        assert(buf@.skip(pos as int).skip(1) =~= buf@.skip(pos as int + 1));
    }
    match decode_node(buf, pos + 1) {
        Some((node, p2)) => Some((Message::Query { node }, p2)),
        None => None,
    }
}

/// Read a signed-node reply body.
#[verifier::rlimit(100)]
#[verifier::spinoff_prover]
fn decode_msg_node_info(buf: &Vec<u8>, pos: usize) -> (r: Option<(Message, usize)>)
    requires
        pos < buf@.len(),
        buf@[pos as int] == TAG_MSG_NODE_INFO,
    ensures
        msg_decode_post(buf@, pos, r),
{
    let blen = buf.len();
    proof {
        assert(buf@.skip(pos as int)[0] == buf@[pos as int]);
        assert(buf@.skip(pos as int).skip(1) =~= buf@.skip(pos as int + 1));
    }
    match decode_node(buf, pos + 1) {
        Some((node, p2)) => Some((Message::NodeInfo { node }, p2)),
        None => None,
    }
}

/// Read a protocol message at `pos`.
#[verifier::rlimit(100)]
pub fn decode_message(buf: &Vec<u8>, pos: usize) -> (r: Option<(Message, usize)>)
    requires
        pos <= buf@.len(),
    ensures
        match r {
            Some(vp) => pos <= vp.1 <= buf@.len() && dec_msg(buf@.skip(pos as int)) == Some(
                (vp.0@, buf@.skip(vp.1 as int)),
            ),
            None => dec_msg(buf@.skip(pos as int)) is None,
        },
{
    proof {
        if buf@.skip(pos as int).len() >= 1 {
            assert(buf@.skip(pos as int)[0] == buf@[pos as int]);
            assert(buf@.skip(pos as int).skip(1) =~= buf@.skip(pos as int + 1));
        }
    }
    if pos >= buf.len() {
        return None;
    }
    let tag = buf[pos];
    let p1 = pos + 1;
    if tag == TAG_MSG_PING {
        match decode_i64(buf, p1) {
            Some((random_id, p2)) => Some((Message::Ping { random_id }, p2)),
            None => None,
        }
    } else if tag == TAG_MSG_PONG {
        match decode_i64(buf, p1) {
            Some((random_id, p2)) => Some((Message::Pong { random_id }, p2)),
            None => None,
        }
    } else if tag == TAG_MSG_FIND_NODE {
        match decode_arr32(buf, p1) {
            Some((key, p2)) => match decode_i32(buf, p2) {
                Some((k, p3)) => Some((Message::FindNode { key, k }, p3)),
                None => None,
            },
            None => None,
        }
    } else if tag == TAG_MSG_FIND_VALUE {
        match decode_arr32(buf, p1) {
            Some((key, p2)) => match decode_i32(buf, p2) {
                Some((k, p3)) => Some((Message::FindValue { key, k }, p3)),
                None => None,
            },
            None => None,
        }
    } else if tag == TAG_MSG_GET_SIGNED_ADDRESS_LIST {
        Some((Message::GetSignedAddressList, p1))
    } else if tag == TAG_MSG_STORED {
        Some((Message::Stored, p1))
    } else if tag == TAG_MSG_STORE {
        decode_msg_store(buf, pos)
    } else if tag == TAG_MSG_NODES {
        decode_msg_nodes(buf, pos)
    } else if tag == TAG_MSG_VALUE_FOUND {
        decode_msg_value_found(buf, pos)
    } else if tag == TAG_MSG_VALUE_NOT_FOUND {
        decode_msg_value_not_found(buf, pos)
    } else if tag == TAG_MSG_QUERY {
        decode_msg_query(buf, pos)
    } else if tag == TAG_MSG_NODE_INFO {
        decode_msg_node_info(buf, pos)
    } else {
        None
    }
}

/// Read a record payload at `pos`.
pub fn decode_payload_at(buf: &Vec<u8>, pos: usize) -> (r: Option<(Payload, usize)>)
    requires
        pos <= buf@.len(),
    ensures
        match r {
            Some(vp) => pos <= vp.1 <= buf@.len() && dec_payload(buf@.skip(pos as int)) == Some(
                (vp.0@, buf@.skip(vp.1 as int)),
            ),
            None => dec_payload(buf@.skip(pos as int)) is None,
        },
{
    proof {
        if buf@.skip(pos as int).len() >= 1 {
            assert(buf@.skip(pos as int)[0] == buf@[pos as int]);
            assert(buf@.skip(pos as int).skip(1) =~= buf@.skip(pos as int + 1));
        }
    }
    if pos >= buf.len() {
        return None;
    }
    let tag = buf[pos];
    let p1 = pos + 1;
    if tag == TAG_PAYLOAD_ADDRESS_LIST {
        match decode_addr_list(buf, p1) {
            Some((list, p2)) => Some((Payload::AddressList { list }, p2)),
            None => None,
        }
    } else if tag == TAG_PAYLOAD_OVERLAY_NODES {
        match decode_overlay_vec(buf, p1) {
            Some((nodes, p2)) => Some((Payload::OverlayNodes { nodes }, p2)),
            None => None,
        }
    } else {
        None
    }
}

// ----------------------------------------------------------- whole messages

/// Encode one protocol message into a fresh buffer.
pub fn serialize_message(m: &Message) -> (out: Vec<u8>)
    ensures
        out@ == enc_msg(m@),
{
    let mut out: Vec<u8> = Vec::new();
    encode_message(m, &mut out);
    proof {
        lemma_add_empty_left(enc_msg(m@));
    }
    out
}

/// Decode a buffer that must hold exactly one protocol message.
pub fn deserialize_message(buf: &Vec<u8>) -> (r: Option<Message>)
    ensures
        match r {
            Some(m) => dec_msg_full(buf@) == Some(m@),
            None => dec_msg_full(buf@) is None,
        },
{
    proof {
        assert(buf@.skip(0) =~= buf@);
    }
    match decode_message(buf, 0) {
        Some((m, p)) => if p == buf.len() {
            proof {
                assert(buf@.skip(p as int).len() == 0);
            }
            Some(m)
        } else {
            None
        },
        None => None,
    }
}

/// Encode one record payload into a fresh buffer.
pub fn serialize_payload(pl: &Payload) -> (out: Vec<u8>)
    ensures
        out@ == enc_payload(pl@),
{
    let mut out: Vec<u8> = Vec::new();
    encode_payload(pl, &mut out);
    proof {
        lemma_add_empty_left(enc_payload(pl@));
    }
    out
}

/// Decode a buffer that must hold exactly one record payload.
pub fn deserialize_payload(buf: &Vec<u8>) -> (r: Option<Payload>)
    ensures
        match r {
            Some(pl) => dec_payload_full(buf@) == Some(pl@),
            None => dec_payload_full(buf@) is None,
        },
{
    proof {
        assert(buf@.skip(0) =~= buf@);
    }
    match decode_payload_at(buf, 0) {
        Some((pl, p)) => if p == buf.len() {
            proof {
                assert(buf@.skip(p as int).len() == 0);
            }
            Some(pl)
        } else {
            None
        },
        None => None,
    }
}

} // verus!




