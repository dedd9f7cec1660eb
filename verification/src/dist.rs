//! XOR distance between 32-byte key ids.
//!
//! The routing table buckets peers by the number of leading bits in which a
//! peer's key id agrees with the local key id. Two distinct ids agree in at
//! most 255 leading bits; equal ids agree in all 256.

use vstd::prelude::*;

verus! {

/// Number of leading zero bits of a byte (8 for zero).
pub open spec fn byte_leading_zeros(x: u8) -> int {
    if x >= 128 {
        0
    } else if x >= 64 {
        1
    } else if x >= 32 {
        2
    } else if x >= 16 {
        3
    } else if x >= 8 {
        4
    } else if x >= 4 {
        5
    } else if x >= 2 {
        6
    } else if x >= 1 {
        7
    } else {
        8
    }
}

/// Leading bits in which `a` and `b` agree, counting from byte `i` onward.
pub open spec fn matching_bits_from(a: Seq<u8>, b: Seq<u8>, i: int) -> int
    recommends
        a.len() == 32,
        b.len() == 32,
        0 <= i <= 32,
    decreases 32 - i,
{
    if i < 0 || i >= 32 {
        0
    } else if a[i] == b[i] {
        8 + matching_bits_from(a, b, i + 1)
    } else {
        byte_leading_zeros(a[i] ^ b[i])
    }
}

/// Number of leading bits in which the 32-byte ids `a` and `b` agree.
pub open spec fn matching_bits(a: Seq<u8>, b: Seq<u8>) -> int {
    matching_bits_from(a, b, 0)
}

pub proof fn lemma_matching_bits_from_range(a: Seq<u8>, b: Seq<u8>, i: int)
    requires
        0 <= i <= 32,
    ensures
        0 <= matching_bits_from(a, b, i) <= 8 * (32 - i),
    decreases 32 - i,
{
    if i < 32 {
        lemma_matching_bits_from_range(a, b, i + 1);
    }
}

/// The count of matching leading bits never exceeds 256, and it reaches 256
/// only when every byte agrees.
pub proof fn lemma_matching_bits_bound(a: Seq<u8>, b: Seq<u8>)
    ensures
        0 <= matching_bits(a, b) <= 256,
{
    lemma_matching_bits_from_range(a, b, 0);
}

proof fn lemma_full_match_means_equal_from(a: Seq<u8>, b: Seq<u8>, i: int)
    requires
        0 <= i <= 32,
        matching_bits_from(a, b, i) == 8 * (32 - i),
    ensures
        forall|j: int| i <= j < 32 ==> a[j] == b[j],
    decreases 32 - i,
{
    if i < 32 {
        if a[i] == b[i] {
            lemma_full_match_means_equal_from(a, b, i + 1);
        } else {
            let av = a[i];
            let bv = b[i];
            assert(av != bv ==> (av ^ bv) != 0) by (bit_vector);
            assert(byte_leading_zeros(av ^ bv) <= 7);
        }
    }
}

/// Distinct ids agree in strictly fewer than 256 leading bits.
pub proof fn lemma_distinct_keys_bound(a: Seq<u8>, b: Seq<u8>)
    requires
        a.len() == 32,
        b.len() == 32,
        a != b,
    ensures
        0 <= matching_bits(a, b) < 256,
{
    lemma_matching_bits_bound(a, b);
    if matching_bits(a, b) == 256 {
        lemma_full_match_means_equal_from(a, b, 0);
        assert(a =~= b);
    }
}

proof fn lemma_matching_prefix(a: Seq<u8>, b: Seq<u8>, i: int)
    requires
        a.len() == 32,
        b.len() == 32,
        0 <= i <= 32,
        forall|j: int| 0 <= j < i ==> a[j] == b[j],
    ensures
        matching_bits(a, b) == 8 * i + matching_bits_from(a, b, i),
    decreases i,
{
    if i > 0 {
        lemma_matching_prefix(a, b, i - 1);
    }
}

/// Leading zero bits of a byte, by range comparison.
fn byte_lz(x: u8) -> (r: u8)
    ensures
        r as int == byte_leading_zeros(x),
{
    if x >= 128 {
        0
    } else if x >= 64 {
        1
    } else if x >= 32 {
        2
    } else if x >= 16 {
        3
    } else if x >= 8 {
        4
    } else if x >= 4 {
        5
    } else if x >= 2 {
        6
    } else if x >= 1 {
        7
    } else {
        8
    }
}

/// XOR distance of two key ids: the count of leading bits in which they
/// agree. Distinct ids always yield a value below 256; equal ids yield 256.
pub fn key_distance(a: &[u8; 32], b: &[u8; 32]) -> (d: u16)
    ensures
        d as int == matching_bits(a@, b@),
        d <= 256,
        a@ != b@ ==> d < 256,
{
    let mut d: u16 = 0;
    let mut i: usize = 0;
    while i < 32
        invariant
            0 <= i <= 32,
            d as int == 8 * i,
            forall|j: int| 0 <= j < i ==> a@[j] == b@[j],
        decreases 32 - i,
    {
        let x = a[i] ^ b[i];
        if x == 0 {
            proof {
                let av = a@[i as int];
                let bv = b@[i as int];
                assert((av ^ bv) == 0 ==> av == bv) by (bit_vector);
            }
            d = d + 8;
            i = i + 1;
        } else {
            let lz = byte_lz(x);
            proof {
                lemma_matching_prefix(a@, b@, i as int);
                let av = a@[i as int];
                let bv = b@[i as int];
                assert(av == bv ==> (av ^ bv) == 0) by (bit_vector);
                assert(byte_leading_zeros(x) <= 7);
            }
            d = d + lz as u16;
            proof {
                lemma_matching_bits_bound(a@, b@);
            }
            return d;
        }
    }
    proof {
        lemma_matching_prefix(a@, b@, 32);
        assert(a@ =~= b@);
    }
    d
}

} // verus!
