//! Digests, the big-endian integer layout, and the reduction of a digest to
//! its low bits.

use vstd::prelude::*;

verus! {

/// `256^k`.
pub open spec fn byte_pow(k: nat) -> nat
    decreases k,
{
    if k == 0 {
        1
    } else {
        256 * byte_pow((k - 1) as nat)
    }
}

/// The unsigned integer that `b` spells in big-endian order.
pub open spec fn be_value(b: Seq<u8>) -> nat
    decreases b.len(),
{
    if b.len() == 0 {
        0
    } else {
        (be_value(b.drop_last()) * 256 + b.last()) as nat
    }
}

/// The eight bytes of `x`, most significant first.
pub open spec fn be_bytes(x: u64) -> Seq<u8> {
    Seq::new(8, |i: int| ((x as nat / byte_pow((7 - i) as nat)) % 256) as u8)
}

/// The low `d` bits of the integer read big-endian from bytes 24 to 31 of a
/// 32-byte digest; all 64 of them when `d` is 64.
pub open spec fn truncate_low(h: Seq<u8>, d: nat) -> u64 {
    let v = be_value(h.subrange(24, 32)) as u64;
    if d >= 64 {
        v
    } else {
        v & (((1u64 << (d as u64)) - 1) as u64)
    }
}

proof fn lemma_byte_pow_positive(k: nat)
    ensures
        byte_pow(k) >= 1,
    decreases k,
{
    if k > 0 {
        lemma_byte_pow_positive((k - 1) as nat);
    }
}

proof fn lemma_be_value_bound(b: Seq<u8>)
    ensures
        be_value(b) < byte_pow(b.len()),
    decreases b.len(),
{
    if b.len() > 0 {
        let p = b.drop_last();
        lemma_be_value_bound(p);
        let v = be_value(p);
        let q = byte_pow(p.len());
        let l = b.last();
        assert(v * 256 + l < q * 256) by (nonlinear_arith)
            requires
                v < q,
                l < 256,
        ;
    }
}

/// Reads the eight bytes of `b` from `start` as a big-endian integer.
fn read_be_u64(b: &Vec<u8>, start: usize) -> (r: u64)
    requires
        start + 8 <= b@.len(),
    ensures
        r == be_value(b@.subrange(start as int, start + 8)),
{
    let mut acc: u64 = 0;
    let mut i: usize = start;
    let n: usize = b.len();
    assert(start + 8 <= n);
    let end: usize = start + 8;
    assert(b@.subrange(start as int, start as int) =~= Seq::<u8>::empty());
    while i < end
        invariant
            end == start + 8,
            start <= i <= start + 8,
            start + 8 <= b@.len(),
            acc == be_value(b@.subrange(start as int, i as int)),
        decreases start + 8 - i,
    {
        proof {
            lemma_be_value_bound(b@.subrange(start as int, i as int));
            lemma_byte_pow_7();
            let k = (i - start) as nat;
            assert(byte_pow(k) <= byte_pow(7)) by {
                lemma_byte_pow_monotone(k, 7);
            }
        }
        let next = acc * 256 + b[i] as u64;
        assert(b@.subrange(start as int, i + 1).drop_last() =~= b@.subrange(start as int, i as int));
        acc = next;
        i = i + 1;
    }
    acc
}

proof fn lemma_byte_pow_7()
    ensures
        byte_pow(7) == 0x100_0000_0000_0000,
        byte_pow(8) == 0x1_0000_0000_0000_0000,
{
    reveal_with_fuel(byte_pow, 9);
}

proof fn lemma_byte_pow_monotone(j: nat, k: nat)
    requires
        j <= k,
    ensures
        byte_pow(j) <= byte_pow(k),
    decreases k,
{
    if j < k {
        lemma_byte_pow_monotone(j, (k - 1) as nat);
        lemma_byte_pow_positive((k - 1) as nat);
    }
}

/// The big-endian bytes of `x`.
pub fn be_expand(x: u64) -> (r: Vec<u8>)
    ensures
        r@ == be_bytes(x),
{
    let mut out: Vec<u8> = vec![0u8; 8];
    let mut rest: u64 = x;
    let mut i: usize = 0;
    assert(byte_pow(0) == 1);
    while i < 8
        invariant
            i <= 8,
            out@.len() == 8,
            rest as nat == x as nat / byte_pow(i as nat),
            forall|k: int| 7 - i < k < 8 ==> #[trigger] out@[k] == be_bytes(x)[k],
        decreases 8 - i,
    {
        proof {
            lemma_byte_pow_positive(i as nat);
            vstd::arithmetic::div_mod::lemma_div_denominator(x as int, byte_pow(i as nat) as int, 256);
            assert(byte_pow(i as nat) * 256 == byte_pow((i + 1) as nat)) by (nonlinear_arith)
                requires byte_pow((i + 1) as nat) == 256 * byte_pow(i as nat);
        }
        out.set(7 - i, (rest % 256) as u8);
        rest = rest / 256;
        i = i + 1;
    }
    assert(out@ =~= be_bytes(x));
    out
}

/// What SHA-256 yields for a byte string.
pub uninterp spec fn sha256_of(data: Seq<u8>) -> Seq<u8>;

/// Relies on rust-crypto's `Sha256` (`Digest::input`, then `Digest::result`):
/// the 32-byte SHA-256 digest of `data`. Its engine panics once the message
/// length in bits overflows a `u64`, which `requires` rules out.
#[verifier::external_body]
pub(crate) fn sha256(data: &[u8]) -> (r: Vec<u8>)
    requires
        data@.len() < 0x2000_0000_0000_0000,
    ensures
        r@ == sha256_of(data@),
        r@.len() == 32,
{
    let mut digest = crypto::sha2::Sha256::new();
    crypto::digest::Digest::input(&mut digest, data);
    let mut out = vec![0u8; 32];
    crypto::digest::Digest::result(&mut digest, &mut out);
    out
}

/// The lower-case hexadecimal digit of `n`.
pub open spec fn hex_digit(n: int) -> char {
    seq!['0', '1', '2', '3', '4', '5', '6', '7', '8', '9', 'a', 'b', 'c', 'd', 'e', 'f'][n]
}

/// Two lower-case digits per byte, the high half first.
pub open spec fn hex_of(b: Seq<u8>) -> Seq<char> {
    Seq::new(
        2 * b.len(),
        |i: int|
            if i % 2 == 0 {
                hex_digit(b[i / 2] as int / 16)
            } else {
                hex_digit(b[i / 2] as int % 16)
            },
    )
}

/// Relies on rustc_serialize's `ToHex for [u8]`, which writes each byte as two
/// digits of `0123456789abcdef`, the high half first.
#[verifier::external_body]
fn hex_string(b: &[u8]) -> (r: String)
    ensures
        r@ == hex_of(b@),
{
    rustc_serialize::hex::ToHex::to_hex(b)
}

/// A SHA-256 digest: 32 bytes, read big-endian.
#[derive(Clone, Debug)]
pub struct Hash(pub Vec<u8>);

impl View for Hash {
    type V = Seq<u8>;

    open spec fn view(&self) -> Seq<u8> {
        self.0@
    }
}

impl Hash {
    /// The low `difficulty` bits of the digest's last eight bytes, read as a
    /// big-endian integer.
    pub fn to_u64(self, difficulty: u64) -> (r: u64)
        requires
            self@.len() == 32,
            difficulty <= 64,
        ensures
            r == truncate_low(self@, difficulty as nat),
    {
        let v = read_be_u64(&self.0, 24);
        if difficulty >= 64 {
            v
        } else {
            assert((1u64 << difficulty) >= 1) by (bit_vector)
                requires
                    difficulty < 64,
            ;
            let mask = (1u64 << difficulty) - 1;
            v & mask
        }
    }

    /// The digest in lower-case hexadecimal.
    pub fn to_hex(&self) -> (r: String)
        ensures
            r@ == hex_of(self@),
    {
        hex_string(self.0.as_slice())
    }

    /// A copy of the digest.
    pub fn duplicate(&self) -> (r: Hash)
        ensures
            r@ == self@,
    {
        Hash(self.0.clone())
    }
}

} // verus!
