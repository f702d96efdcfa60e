//! Stable 64-bit hashing of canonical names.
//!
//! Component types and resources are identified by the hash of a name that the
//! program text fixes, so an identifier is the same in every run.

use vstd::prelude::*;

verus! {

/// The value a hash starts from, before any byte is mixed in.
pub const HASH_OFFSET: u64 = 0xcbf2_9ce4_8422_2325;

/// The multiplier of one mixing step.
pub const HASH_PRIME: u64 = 0x0000_0100_0000_01b3;

/// One mixing step: fold the byte into the low bits, then multiply modulo 2^64.
pub open spec fn hash_step(state: u64, byte: u8) -> u64 {
    (state ^ (byte as u64)).wrapping_mul(HASH_PRIME)
}

/// The hash of a byte string: the bytes are mixed in from first to last.
pub open spec fn hash_of_bytes(bytes: Seq<u8>) -> u64
    decreases bytes.len(),
{
    if bytes.len() == 0 {
        HASH_OFFSET
    } else {
        hash_step(hash_of_bytes(bytes.drop_last()), bytes.last())
    }
}

/// The hash of a name: the hash of its UTF-8 bytes.
pub open spec fn hash_of_name(name: Seq<char>) -> u64 {
    hash_of_bytes(vstd::utf8::encode_utf8(name))
}

/// Hashes a byte string.
pub fn bytes_hash(bytes: &[u8]) -> (hash: u64)
    ensures
        hash == hash_of_bytes(bytes@),
{
    let mut state: u64 = HASH_OFFSET;
    let mut i: usize = 0;
    while i < bytes.len()
        invariant
            i <= bytes.len(),
            state == hash_of_bytes(bytes@.subrange(0, i as int)),
        decreases bytes.len() - i,
    {
        proof {
            let next = bytes@.subrange(0, i + 1);
            assert(next.drop_last() =~= bytes@.subrange(0, i as int));
            assert(next.last() == bytes@[i as int]);
        }
        state = (state ^ (bytes[i] as u64)).wrapping_mul(HASH_PRIME);
        i += 1;
    }
    proof {
        assert(bytes@.subrange(0, i as int) =~= bytes@);
    }
    state
}

/// Hashes a name. Equal names give equal hashes, in every run.
pub fn string_hash(name: &str) -> (hash: u64)
    ensures
        hash == hash_of_name(name@),
{
    bytes_hash(name.as_bytes())
}

} // verus!
