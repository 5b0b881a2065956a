//! A prover-solution record: an address, a nonce and a commitment, with a
//! fixed-width little-endian byte encoding.

use vstd::prelude::*;

verus! {

/// The account the solution credits, as its numeric identifier.
#[derive(Clone, Copy, PartialEq, Eq, Structural, Hash, Debug)]
pub struct Address {
    pub value: u64,
}

/// The solution's commitment, as its numeric identifier.
#[derive(Clone, Copy, PartialEq, Eq, Structural, Hash, Debug)]
pub struct Commitment {
    pub value: u64,
}

/// A partial prover solution: who is credited, the nonce tried, and the
/// commitment it produced.
#[derive(Clone, Copy, PartialEq, Eq, Structural, Hash, Debug)]
pub struct PartialProverSolution {
    pub address: Address,
    pub nonce: u64,
    pub commitment: Commitment,
}

/// The eight little-endian bytes of a word.
pub open spec fn u64_le_bytes(v: u64) -> Seq<u8> {
    seq![
        (v & 0xff) as u8,
        ((v >> 8) & 0xff) as u8,
        ((v >> 16) & 0xff) as u8,
        ((v >> 24) & 0xff) as u8,
        ((v >> 32) & 0xff) as u8,
        ((v >> 40) & 0xff) as u8,
        ((v >> 48) & 0xff) as u8,
        ((v >> 56) & 0xff) as u8,
    ]
}

/// The word eight little-endian bytes denote.
pub open spec fn u64_from_le_bytes(s: Seq<u8>) -> u64 {
    (s[0] as u64) | ((s[1] as u64) << 8) | ((s[2] as u64) << 16) | ((s[3] as u64) << 24) | ((
    s[4] as u64) << 32) | ((s[5] as u64) << 40) | ((s[6] as u64) << 48) | ((s[7] as u64) << 56)
}

/// Reading back the eight bytes of a word yields the word.
pub proof fn lemma_u64_bytes_round_trip(v: u64)
    ensures
        u64_from_le_bytes(u64_le_bytes(v)) == v,
{
    assert((v & 0xff) | (((v >> 8) & 0xff) << 8) | (((v >> 16) & 0xff) << 16) | (((v >> 24)
        & 0xff) << 24) | (((v >> 32) & 0xff) << 32) | (((v >> 40) & 0xff) << 40) | (((v >> 48)
        & 0xff) << 48) | (((v >> 56) & 0xff) << 56) == v) by (bit_vector);
    assert(((v & 0xff) as u8) as u64 == v & 0xff) by (bit_vector);
    assert((((v >> 8) & 0xff) as u8) as u64 == (v >> 8) & 0xff) by (bit_vector);
    assert((((v >> 16) & 0xff) as u8) as u64 == (v >> 16) & 0xff) by (bit_vector);
    assert((((v >> 24) & 0xff) as u8) as u64 == (v >> 24) & 0xff) by (bit_vector);
    assert((((v >> 32) & 0xff) as u8) as u64 == (v >> 32) & 0xff) by (bit_vector);
    assert((((v >> 40) & 0xff) as u8) as u64 == (v >> 40) & 0xff) by (bit_vector);
    assert((((v >> 48) & 0xff) as u8) as u64 == (v >> 48) & 0xff) by (bit_vector);
    assert((((v >> 56) & 0xff) as u8) as u64 == (v >> 56) & 0xff) by (bit_vector);
}

/// Writes the eight little-endian bytes of a word.
fn u64_to_bytes(v: u64) -> (r: Vec<u8>)
    ensures
        r@ == u64_le_bytes(v),
{
    let mut out: Vec<u8> = Vec::new();
    out.push((v & 0xff) as u8);
    out.push(((v >> 8) & 0xff) as u8);
    out.push(((v >> 16) & 0xff) as u8);
    out.push(((v >> 24) & 0xff) as u8);
    out.push(((v >> 32) & 0xff) as u8);
    out.push(((v >> 40) & 0xff) as u8);
    out.push(((v >> 48) & 0xff) as u8);
    out.push(((v >> 56) & 0xff) as u8);
    proof {
        assert(out@ =~= u64_le_bytes(v));
    }
    out
}

/// Reads a word from eight little-endian bytes at the given offset.
fn u64_from_bytes(bytes: &Vec<u8>, off: usize) -> (r: u64)
    requires
        off + 8 <= bytes@.len(),
    ensures
        r == u64_from_le_bytes(bytes@.subrange(off as int, off + 8)),
{
    let n = bytes.len();
    proof {
        assert(off + 8 <= n);
    }
    let r = (bytes[off] as u64) | ((bytes[off + 1] as u64) << 8u64) | ((bytes[off + 2] as u64)
        << 16u64) | ((bytes[off + 3] as u64) << 24u64) | ((bytes[off + 4] as u64) << 32u64) | ((
    bytes[off + 5] as u64) << 40u64) | ((bytes[off + 6] as u64) << 48u64) | ((bytes[off
        + 7] as u64) << 56u64);
    proof {
        let s = bytes@.subrange(off as int, off + 8);
        assert(forall|k: int| 0 <= k < 8 ==> #[trigger] s[k] == bytes@[off + k]);
    }
    r
}

impl PartialProverSolution {
    /// Assembles a record from its parts.
    pub fn new(address: Address, nonce: u64, commitment: Commitment) -> (r: Self)
        ensures
            r == (PartialProverSolution { address, nonce, commitment }),
    {
        Self { address, nonce, commitment }
    }

    /// The credited address.
    pub fn address(&self) -> (r: &Address)
        ensures
            r == &self.address,
    {
        &self.address
    }

    /// The nonce tried.
    pub fn nonce(&self) -> (r: u64)
        ensures
            r == self.nonce,
    {
        self.nonce
    }

    /// The commitment produced.
    pub fn commitment(&self) -> (r: &Commitment)
        ensures
            r == &self.commitment,
    {
        &self.commitment
    }

    /// The record's little-endian byte encoding: address, nonce, commitment.
    pub open spec fn bytes_spec(self) -> Seq<u8> {
        u64_le_bytes(self.address.value) + u64_le_bytes(self.nonce) + u64_le_bytes(
            self.commitment.value,
        )
    }

    /// Encodes the record, little-endian fields in order.
    pub fn to_bytes_le(&self) -> (r: Vec<u8>)
        ensures
            r@ == self.bytes_spec(),
            r@.len() == 24,
    {
        let mut out = u64_to_bytes(self.address.value);
        let mut mid = u64_to_bytes(self.nonce);
        let mut tail = u64_to_bytes(self.commitment.value);
        out.append(&mut mid);
        out.append(&mut tail);
        proof {
            assert(out@ =~= self.bytes_spec());
        }
        out
    }

    /// Decodes a record from exactly 24 little-endian bytes; any other
    /// length is rejected.
    pub fn from_bytes_le(bytes: &Vec<u8>) -> (r: Option<Self>)
        ensures
            bytes@.len() != 24 ==> r is None,
            bytes@.len() == 24 ==> (r matches Some(s) && s == (PartialProverSolution {
                address: Address { value: u64_from_le_bytes(bytes@.subrange(0, 8)) },
                nonce: u64_from_le_bytes(bytes@.subrange(8, 16)),
                commitment: Commitment { value: u64_from_le_bytes(bytes@.subrange(16, 24)) },
            })),
    {
        if bytes.len() != 24 {
            return None;
        }
        let address = Address { value: u64_from_bytes(bytes, 0) };
        let nonce = u64_from_bytes(bytes, 8);
        let commitment = Commitment { value: u64_from_bytes(bytes, 16) };
        Some(Self { address, nonce, commitment })
    }

    /// Decoding an encoded record yields the record back.
    pub proof fn lemma_bytes_round_trip(self)
        ensures
            self.bytes_spec().len() == 24,
            u64_from_le_bytes(self.bytes_spec().subrange(0, 8)) == self.address.value,
            u64_from_le_bytes(self.bytes_spec().subrange(8, 16)) == self.nonce,
            u64_from_le_bytes(self.bytes_spec().subrange(16, 24)) == self.commitment.value,
    {
        assert(self.bytes_spec().subrange(0, 8) =~= u64_le_bytes(self.address.value));
        assert(self.bytes_spec().subrange(8, 16) =~= u64_le_bytes(self.nonce));
        assert(self.bytes_spec().subrange(16, 24) =~= u64_le_bytes(self.commitment.value));
        lemma_u64_bytes_round_trip(self.address.value);
        lemma_u64_bytes_round_trip(self.nonce);
        lemma_u64_bytes_round_trip(self.commitment.value);
    }
}

} // verus!
