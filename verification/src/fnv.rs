//! The 32-bit FNV-1a hash.

use vstd::prelude::*;

verus! {

/// The value every hash starts from.
pub const FNV_OFFSET_BASIS: u32 = 2166136261;

/// The multiplier applied after each byte.
pub const FNV_PRIME: u32 = 16777619;

/// One round: fold `byte` into `hash` by exclusive or, then multiply by the
/// prime and keep the low 32 bits.
pub open spec fn fnv1a_round(hash: u32, byte: u8) -> u32 {
    (((hash ^ (byte as u32)) as nat * (FNV_PRIME as nat)) % 0x1_0000_0000) as u32
}

/// The hash of `bytes`: the rounds applied from the offset basis, first byte
/// first.
pub open spec fn fnv1a(bytes: Seq<u8>) -> u32
    decreases bytes.len(),
{
    if bytes.len() == 0 {
        FNV_OFFSET_BASIS
    } else {
        fnv1a_round(fnv1a(bytes.drop_last()), bytes.last())
    }
}

/// Hashes `bytes`.
pub fn fnv1a_hash(bytes: &[u8]) -> (hash: u32)
    ensures
        hash == fnv1a(bytes@),
{
    let mut hash: u32 = FNV_OFFSET_BASIS;
    let mut i: usize = 0;
    while i < bytes.len()
        invariant
            i <= bytes@.len(),
            hash == fnv1a(bytes@.take(i as int)),
        decreases bytes@.len() - i,
    {
        proof {
            let next = bytes@.take(i + 1);
            assert(next.drop_last() =~= bytes@.take(i as int));
            assert(next.last() == bytes@[i as int]);
        }
        hash = (hash ^ (bytes[i] as u32)).wrapping_mul(FNV_PRIME);
        i = i + 1;
    }
    proof {
        assert(bytes@.take(bytes@.len() as int) =~= bytes@);
    }
    hash
}

} // verus!
