//! Hashing shortcuts for keys that are already uniformly random: a hasher
//! that passes an eight-byte key through unchanged, and the key derivations
//! for outpoints and script hashes. An optimisation, not a contract.

use vstd::prelude::*;

use crate::types::{OutPoint, ScriptHash};

verus! {

/// A hasher that returns the one `u64` written into it.
pub struct LazyHasher {
    hash: u64,
}

impl LazyHasher {
    /// The recorded key.
    pub closed spec fn spec_hash(&self) -> u64 {
        self.hash
    }

    pub fn new() -> (r: LazyHasher)
        ensures
            r.spec_hash() == 0,
    {
        LazyHasher { hash: 0 }
    }

    /// Record the key; the only write this hasher supports.
    pub fn write_u64(&mut self, i: u64)
        ensures
            final(self).spec_hash() == i,
    {
        self.hash = i;
    }

    pub fn finish(&self) -> (r: u64)
        ensures
            r == self.spec_hash(),
    {
        self.hash
    }
}

/// Builder handing out fresh `LazyHasher`s.
pub struct LazyHasherBuilder {}

impl LazyHasherBuilder {
    pub fn new() -> (r: LazyHasherBuilder) {
        LazyHasherBuilder {  }
    }

    pub fn build_hasher(&self) -> (r: LazyHasher)
        ensures
            r.spec_hash() == 0,
    {
        LazyHasher::new()
    }
}

/// The first eight bytes read as a little-endian integer.
pub open spec fn spec_u64_from_le_prefix(b: Seq<u8>) -> int
    recommends
        b.len() >= 8,
{
    b[0] + b[1] * 0x100 + b[2] * 0x1_0000 + b[3] * 0x100_0000 + b[4] * 0x1_0000_0000 + b[5]
        * 0x100_0000_0000 + b[6] * 0x1_0000_0000_0000 + b[7] * 0x100_0000_0000_0000
}

fn u64_from_le_prefix_32(b: &[u8; 32]) -> (r: u64)
    ensures
        r == spec_u64_from_le_prefix(b@),
{
    (b[0] as u64) + (b[1] as u64) * 0x100 + (b[2] as u64) * 0x1_0000 + (b[3] as u64) * 0x100_0000
        + (b[4] as u64) * 0x1_0000_0000 + (b[5] as u64) * 0x100_0000_0000 + (b[6] as u64)
        * 0x1_0000_0000_0000 + (b[7] as u64) * 0x100_0000_0000_0000
}

fn u64_from_le_prefix_20(b: &[u8; 20]) -> (r: u64)
    ensures
        r == spec_u64_from_le_prefix(b@),
{
    (b[0] as u64) + (b[1] as u64) * 0x100 + (b[2] as u64) * 0x1_0000 + (b[3] as u64) * 0x100_0000
        + (b[4] as u64) * 0x1_0000_0000 + (b[5] as u64) * 0x100_0000_0000 + (b[6] as u64)
        * 0x1_0000_0000_0000 + (b[7] as u64) * 0x100_0000_0000_0000
}

/// An outpoint wrapped to hash by its first txid bytes plus the index;
/// collisions are harmless, the table still compares full keys.
#[derive(Clone, Copy, PartialEq, Eq)]
pub struct CollidingOutPoint {
    pub outpoint: OutPoint,
}

impl CollidingOutPoint {
    pub fn new(outpoint: OutPoint) -> (r: CollidingOutPoint)
        ensures
            r.outpoint == outpoint,
    {
        CollidingOutPoint { outpoint }
    }

    /// The key this wrapper hands a hasher: the txid's first eight bytes,
    /// little-endian, plus the output index, modulo 2^64.
    pub fn hash_key(&self) -> (r: u64)
        ensures
            r == (spec_u64_from_le_prefix(self.outpoint.txid.bytes@) + self.outpoint.vout) % 0x1_0000_0000_0000_0000,
    {
        let a = u64_from_le_prefix_32(&self.outpoint.txid.bytes);
        let b = self.outpoint.vout as u64;
        if b <= u64::MAX - a {
            a + b
        } else {
            b - (u64::MAX - a) - 1
        }
    }
}

/// A script hash wrapped to hash by its first eight bytes.
#[derive(Clone, Copy, PartialEq, Eq)]
pub struct CollidingScriptHash {
    pub script_hash: ScriptHash,
}

impl CollidingScriptHash {
    pub fn new(script_hash: ScriptHash) -> (r: CollidingScriptHash)
        ensures
            r.script_hash == script_hash,
    {
        CollidingScriptHash { script_hash }
    }

    /// The key this wrapper hands a hasher: its first eight bytes,
    /// little-endian.
    pub fn hash_key(&self) -> (r: u64)
        ensures
            r == spec_u64_from_le_prefix(self.script_hash.bytes@),
    {
        u64_from_le_prefix_20(&self.script_hash.bytes)
    }
}

} // verus!
