//! The block header, its canonical byte layouts, and the local proof-of-work
//! check.

use vstd::prelude::*;

use crate::hash::{be_bytes, be_expand, be_value, sha256, sha256_of, truncate_low};

verus! {

/// A block header. Only `nonces` changes while a template is mined.
#[derive(Clone, Debug)]
pub struct Block {
    pub version: u8,
    pub root: crate::hash::Hash,
    pub parentid: crate::hash::Hash,
    pub difficulty: u64,
    pub timestamp: u64,
    pub nonces: [u64; 3],
}

/// The bytes that are hashed to mine with `nonce`:
/// `parentid ‖ root ‖ be64(difficulty) ‖ be64(timestamp) ‖ be64(nonce) ‖ [version]`.
pub open spec fn canonical(b: Block, nonce: u64) -> Seq<u8> {
    b.parentid@ + b.root@ + be_bytes(b.difficulty) + be_bytes(b.timestamp) + be_bytes(nonce)
        + seq![b.version]
}

/// The bytes of the whole header, all three nonces in order, which name the
/// block.
pub open spec fn explorer_bytes(b: Block) -> Seq<u8> {
    b.parentid@ + b.root@ + be_bytes(b.difficulty) + be_bytes(b.timestamp) + be_bytes(
        b.nonces@[0],
    ) + be_bytes(b.nonces@[1]) + be_bytes(b.nonces@[2]) + seq![b.version]
}

/// The image of `nonce` under the block: the low `difficulty` bits of the
/// digest of its canonical bytes.
pub open spec fn image(b: Block, nonce: u64) -> u64 {
    truncate_low(sha256_of(canonical(b, nonce)), b.difficulty as nat)
}

/// The three nonces are pairwise distinct.
pub open spec fn nonces_distinct(b: Block) -> bool {
    b.nonces@[0] != b.nonces@[1] && b.nonces@[0] != b.nonces@[2] && b.nonces@[1] != b.nonces@[2]
}

/// The block is solved: distinct nonces with one image.
pub open spec fn pow_valid(b: Block) -> bool {
    nonces_distinct(b) && image(b, b.nonces@[0]) == image(b, b.nonces@[1]) && image(
        b,
        b.nonces@[1],
    ) == image(b, b.nonces@[2])
}

/// `b` with its nonces replaced.
pub open spec fn with_nonces(b: Block, n0: u64, n1: u64, n2: u64) -> Block {
    Block { nonces: [n0, n1, n2], ..b }
}

/// Appends `src` to `buf`.
fn push_all(buf: &mut Vec<u8>, src: &[u8])
    ensures
        final(buf)@ == old(buf)@ + src@,
{
    let mut i: usize = 0;
    while i < src.len()
        invariant
            i <= src@.len(),
            buf@ == old(buf)@ + src@.subrange(0, i as int),
        decreases src@.len() - i,
    {
        buf.push(src[i]);
        i = i + 1;
        assert(buf@ =~= old(buf)@ + src@.subrange(0, i as int));
    }
    assert(src@.subrange(0, src@.len() as int) =~= src@);
}

impl Block {
    /// Digests are 32 bytes and the difficulty is at most 64.
    pub open spec fn wf(&self) -> bool {
        self.root@.len() == 32 && self.parentid@.len() == 32 && self.difficulty <= 64
    }

    /// Whether the digests are 32 bytes and the difficulty at most 64.
    pub fn is_well_formed(&self) -> (r: bool)
        ensures
            r == self.wf(),
    {
        self.root.0.len() == 32 && self.parentid.0.len() == 32 && self.difficulty <= 64
    }

    /// A copy of the header.
    pub fn duplicate(&self) -> (r: Block)
        ensures
            r.version == self.version,
            r.root@ == self.root@,
            r.parentid@ == self.parentid@,
            r.difficulty == self.difficulty,
            r.timestamp == self.timestamp,
            r.nonces@ == self.nonces@,
    {
        Block {
            version: self.version,
            root: self.root.duplicate(),
            parentid: self.parentid.duplicate(),
            difficulty: self.difficulty,
            timestamp: self.timestamp,
            nonces: self.nonces,
        }
    }

    /// The digest that mining with `nonce` produces.
    pub fn hash_with_nonce(&self, nonce: u64) -> (r: crate::hash::Hash)
        requires
            self.wf(),
        ensures
            r@ == sha256_of(canonical(*self, nonce)),
            r@.len() == 32,
    {
        let mut buf: Vec<u8> = Vec::new();
        push_all(&mut buf, self.parentid.0.as_slice());
        push_all(&mut buf, self.root.0.as_slice());
        push_all(&mut buf, be_expand(self.difficulty).as_slice());
        push_all(&mut buf, be_expand(self.timestamp).as_slice());
        push_all(&mut buf, be_expand(nonce).as_slice());
        buf.push(self.version);
        assert(buf@ =~= canonical(*self, nonce));
        crate::hash::Hash(sha256(buf.as_slice()))
    }

    /// The digest that mining with nonce number `i` produces.
    pub fn hash(&self, i: usize) -> (r: crate::hash::Hash)
        requires
            self.wf(),
            i < 3,
        ensures
            r@ == sha256_of(canonical(*self, self.nonces@[i as int])),
            r@.len() == 32,
    {
        self.hash_with_nonce(self.nonces[i])
    }

    /// The digest of the whole header with all three nonces: the block's
    /// name, and the parent reference of the next block.
    pub fn hash_for_explorer(&self) -> (r: crate::hash::Hash)
        requires
            self.wf(),
        ensures
            r@ == sha256_of(explorer_bytes(*self)),
            r@.len() == 32,
    {
        let mut buf: Vec<u8> = Vec::new();
        push_all(&mut buf, self.parentid.0.as_slice());
        push_all(&mut buf, self.root.0.as_slice());
        push_all(&mut buf, be_expand(self.difficulty).as_slice());
        push_all(&mut buf, be_expand(self.timestamp).as_slice());
        let mut k: usize = 0;
        while k < 3
            invariant
                k <= 3,
                buf@ == self.parentid@ + self.root@ + be_bytes(self.difficulty) + be_bytes(
                    self.timestamp,
                ) + (if k == 0 {
                    Seq::<u8>::empty()
                } else if k == 1 {
                    be_bytes(self.nonces@[0])
                } else if k == 2 {
                    be_bytes(self.nonces@[0]) + be_bytes(self.nonces@[1])
                } else {
                    be_bytes(self.nonces@[0]) + be_bytes(self.nonces@[1]) + be_bytes(
                        self.nonces@[2],
                    )
                }),
            decreases 3 - k,
        {
            let ghost before = buf@;
            push_all(&mut buf, be_expand(self.nonces[k]).as_slice());
            k = k + 1;
            assert(buf@ =~= self.parentid@ + self.root@ + be_bytes(self.difficulty) + be_bytes(
                self.timestamp,
            ) + (if k == 1 {
                be_bytes(self.nonces@[0])
            } else if k == 2 {
                be_bytes(self.nonces@[0]) + be_bytes(self.nonces@[1])
            } else {
                be_bytes(self.nonces@[0]) + be_bytes(self.nonces@[1]) + be_bytes(self.nonces@[2])
            }));
        }
        buf.push(self.version);
        assert(buf@ =~= explorer_bytes(*self));
        crate::hash::Hash(sha256(buf.as_slice()))
    }

    /// The image of `nonce`: the low `difficulty` bits of its digest.
    pub fn image_of(&self, nonce: u64) -> (r: u64)
        requires
            self.wf(),
        ensures
            r == image(*self, nonce),
    {
        self.hash_with_nonce(nonce).to_u64(self.difficulty)
    }

    /// Whether the block is solved: its three nonces are pairwise distinct
    /// and have one image.
    pub fn has_valid_proof_of_work(&self) -> (r: bool)
        requires
            self.wf(),
        ensures
            r == pow_valid(*self),
    {
        if self.nonces[0] == self.nonces[1] || self.nonces[0] == self.nonces[2] || self.nonces[1]
            == self.nonces[2] {
            return false;
        }
        let hash_0 = self.hash(0).to_u64(self.difficulty);
        let hash_1 = self.hash(1).to_u64(self.difficulty);
        let hash_2 = self.hash(2).to_u64(self.difficulty);
        hash_0 == hash_1 && hash_1 == hash_2
    }
}

/// A solved block has three pairwise distinct nonces whose digests agree on
/// their low `difficulty` bits.
pub proof fn lemma_valid_pow_is_collision(b: Block)
    requires
        pow_valid(b),
    ensures
        b.nonces@[0] != b.nonces@[1],
        b.nonces@[0] != b.nonces@[2],
        b.nonces@[1] != b.nonces@[2],
        forall|i: int, j: int|
            0 <= i < 3 && 0 <= j < 3 ==> truncate_low(
                sha256_of(canonical(b, #[trigger] b.nonces@[i])),
                b.difficulty as nat,
            ) == truncate_low(sha256_of(canonical(b, #[trigger] b.nonces@[j])), b.difficulty as nat),
{
}

/// Hashing is a function of the canonical bytes alone: two headers and nonces
/// with the same canonical bytes have the same digest, and the same image when
/// their difficulties agree.
pub proof fn lemma_digest_deterministic(b1: Block, n1: u64, b2: Block, n2: u64)
    requires
        canonical(b1, n1) == canonical(b2, n2),
    ensures
        sha256_of(canonical(b1, n1)) == sha256_of(canonical(b2, n2)),
        b1.difficulty == b2.difficulty ==> image(b1, n1) == image(b2, n2),
{
}

/// At difficulty 0 every image is 0, so any three distinct nonces solve the
/// block.
pub proof fn lemma_difficulty_zero_accepts_distinct(b: Block)
    requires
        b.difficulty == 0,
        nonces_distinct(b),
    ensures
        pow_valid(b),
{
    assert forall|n: u64| #[trigger] image(b, n) == 0 by {
        let v = be_value(sha256_of(canonical(b, n)).subrange(24, 32)) as u64;
        assert(v & (((1u64 << 0u64) - 1) as u64) == 0) by (bit_vector);
    }
}

/// At difficulty 64 the images are the whole 64-bit tails of the digests, so
/// a solution needs three digests whose last eight bytes agree exactly.
pub proof fn lemma_difficulty_64_needs_full_match(b: Block)
    requires
        b.difficulty == 64,
    ensures
        pow_valid(b) <==> (nonces_distinct(b) && forall|i: int, j: int|
            0 <= i < 3 && 0 <= j < 3 ==> be_value(
                sha256_of(canonical(b, #[trigger] b.nonces@[i])).subrange(24, 32),
            ) as u64 == be_value(
                sha256_of(canonical(b, #[trigger] b.nonces@[j])).subrange(24, 32),
            ) as u64),
{
}

} // verus!
