//! The prime field's derived constants, circuit-resident field elements, and
//! the write-once cache holding an element's little-endian bit decomposition.

use vstd::prelude::*;
use vstd::arithmetic::power2::{
    pow2, lemma_pow2_adds, lemma_pow2_pos, lemma_pow2_strictly_increases, lemma2_to64,
};
use vstd::arithmetic::div_mod::{
    lemma_basic_div, lemma_breakdown, lemma_div_denominator, lemma_small_div_converse,
    lemma_small_mod,
};

use crate::binary::{bit_vals, bool_value, value_of};
use crate::bits::{Bit, Mode};
use crate::circuit::Circuit;

verus! {

/// The number of `false` entries of `p` at or above index `lo`.
pub open spec fn zeros_from(p: Seq<bool>, lo: int) -> nat
    decreases p.len() - lo,
{
    if lo < 0 || lo >= p.len() {
        0
    } else {
        (if !p[lo] {
            1nat
        } else {
            0nat
        }) + zeros_from(p, lo + 1)
    }
}

/// A window holds no more zeros than positions.
pub proof fn lemma_zeros_from_bound(p: Seq<bool>, lo: int)
    requires
        0 <= lo <= p.len(),
    ensures
        zeros_from(p, lo) <= p.len() - lo,
    decreases p.len() - lo,
{
    if lo < p.len() {
        lemma_zeros_from_bound(p, lo + 1);
    }
}

/// A window containing a one-bit holds strictly fewer zeros than positions.
pub proof fn lemma_zeros_from_one(p: Seq<bool>, lo: int, u: int)
    requires
        0 <= lo <= u < p.len(),
        p[u],
    ensures
        zeros_from(p, lo) <= p.len() - lo - 1,
    decreases u - lo,
{
    if lo == u {
        lemma_zeros_from_bound(p, lo + 1);
    } else {
        lemma_zeros_from_one(p, lo + 1, u);
    }
}

/// Constants derived once from the prime field's definition: the modulus, the
/// bit-widths, and the big-endian bit pattern of `modulus - 1` that the
/// canonicity check walks.
pub struct FieldConstants {
    /// The field's odd prime modulus.
    pub modulus: u64,
    /// Total bits needed to represent any canonical value.
    pub total_bits: usize,
    /// Largest prefix length that is canonical regardless of content.
    pub data_bits: usize,
    /// The bits of `modulus - 1`, most significant first.
    pub modulus_minus_one_be: Vec<bool>,
    /// The number of zero bits in that pattern.
    pub pattern_zeros: usize,
}

impl FieldConstants {
    /// The pattern of `modulus - 1` read back least-significant-first.
    pub open spec fn pattern_le(self) -> Seq<bool> {
        Seq::new(
            self.modulus_minus_one_be@.len(),
            |i: int| self.modulus_minus_one_be@[self.modulus_minus_one_be@.len() - 1 - i],
        )
    }

    /// Well-formedness: the widths and the pattern agree with the modulus.
    pub open spec fn wf(self) -> bool {
        &&& 3 <= self.modulus < 0x8000000000000000u64
        &&& self.modulus % 2 == 1
        &&& self.total_bits >= 2
        &&& self.data_bits + 1 == self.total_bits
        &&& pow2(self.data_bits as nat) < self.modulus
        &&& self.modulus < pow2(self.total_bits as nat)
        &&& self.modulus_minus_one_be@.len() == self.total_bits
        &&& bool_value(self.pattern_le()) == self.modulus - 1
        &&& self.pattern_zeros == zeros_from(self.pattern_le(), 0)
    }

    /// A well-formed field is at most 63 bits wide.
    pub proof fn lemma_width_bound(self)
        requires
            self.wf(),
        ensures
            self.total_bits <= 63,
    {
        if self.data_bits >= 63 {
            if self.data_bits > 63 {
                lemma_pow2_strictly_increases(63, self.data_bits as nat);
            }
            assert(pow2(63) == 0x8000000000000000) by {
                lemma2_to64();
                lemma_pow2_adds(32, 31);
            }
        }
    }

    /// Derives the constants from an odd prime modulus.
    pub fn new(modulus: u64) -> (r: FieldConstants)
        requires
            3 <= modulus < 0x8000000000000000u64,
            modulus % 2 == 1,
        ensures
            r.wf(),
            r.modulus == modulus,
    {
        proof {
            lemma2_to64();
            vstd::arithmetic::div_mod::lemma_div_basics(modulus as int);
        }
        // Bit width of the modulus.
        let mut w: usize = 0;
        let mut t: u64 = modulus;
        while t > 0
            invariant
                3 <= modulus < 0x8000000000000000u64,
                w <= 63,
                t as nat == modulus as nat / pow2(w as nat),
                w > 0 ==> pow2((w - 1) as nat) <= modulus,
            decreases t,
        {
            proof {
                lemma2_to64();
                lemma_pow2_pos(w as nat);
                assert(modulus as nat >= pow2(w as nat)) by {
                    if (modulus as nat) < pow2(w as nat) {
                        lemma_basic_div(modulus as int, pow2(w as nat) as int);
                    }
                }
                lemma_pow2_adds(w as nat, 1);
                lemma_div_denominator(modulus as int, pow2(w as nat) as int, 2);
                assert(w < 63) by {
                    if w >= 63 {
                        if w > 63 {
                            lemma_pow2_strictly_increases(63, w as nat);
                        }
                        assert(pow2(63) == 0x8000000000000000) by {
                            vstd::arithmetic::power2::lemma2_to64_rest();
                        }
                    }
                }
                assert(t / 2 == modulus as nat / pow2((w + 1) as nat));
            }
            t = t / 2;
            w = w + 1;
        }
        proof {
            lemma_pow2_pos(w as nat);
            lemma_small_div_converse(modulus as int, pow2(w as nat) as int);
            assert(modulus < pow2(w as nat));
            assert(w >= 2) by {
                if w < 2 {
                    assert(pow2(w as nat) <= pow2(1)) by {
                        if w < 1 {
                            lemma_pow2_strictly_increases(w as nat, 1);
                        }
                    }
                }
            }
            // The modulus is odd, so it strictly exceeds the power of two
            // below it.
            assert(pow2((w - 1) as nat) < modulus) by {
                if modulus == pow2((w - 1) as nat) {
                    lemma_pow2_adds((w - 2) as nat, 1);
                    assert(modulus == 2 * pow2((w - 2) as nat));
                    assert(modulus % 2 == 0) by {
                        vstd::arithmetic::div_mod::lemma_mod_multiples_basic(
                            pow2((w - 2) as nat) as int,
                            2,
                        );
                        assert(2 * pow2((w - 2) as nat) == pow2((w - 2) as nat) * 2)
                            by (nonlinear_arith);
                    }
                }
            }
        }
        // Little-endian bits of modulus - 1.
        let m1: u64 = modulus - 1;
        proof {
            vstd::arithmetic::div_mod::lemma_div_basics(m1 as int);
        }
        let mut le: Vec<bool> = Vec::new();
        let mut x: u64 = m1;
        let mut i: usize = 0;
        while i < w
            invariant
                w <= 63,
                m1 + 1 < pow2(w as nat),
                i <= w,
                le@.len() == i,
                x as nat == m1 as nat / pow2(i as nat),
                forall|k: int|
                    0 <= k < i ==> le@[k] == ((m1 as nat / pow2(k as nat)) % 2 == 1),
            decreases w - i,
        {
            proof {
                lemma2_to64();
                lemma_pow2_pos(i as nat);
                lemma_pow2_adds(i as nat, 1);
                lemma_div_denominator(m1 as int, pow2(i as nat) as int, 2);
            }
            le.push(x % 2 == 1);
            x = x / 2;
            i = i + 1;
        }
        // The pattern, most significant bit first.
        let mut be: Vec<bool> = Vec::new();
        let mut j: usize = 0;
        while j < w
            invariant
                w == le@.len(),
                j <= w,
                be@.len() == j,
                forall|k: int| 0 <= k < j ==> be@[k] == le@[w - 1 - k],
            decreases w - j,
        {
            be.push(le[w - 1 - j]);
            j = j + 1;
        }
        // Count the pattern's zero bits.
        let mut zeros: usize = 0;
        let mut back: usize = w;
        while back > 0
            invariant
                w == le@.len(),
                w <= 63,
                back <= w,
                zeros <= w - back,
                zeros as nat == zeros_from(le@, back as int),
            decreases back,
        {
            if !le[back - 1] {
                zeros = zeros + 1;
            }
            back = back - 1;
        }
        let r = FieldConstants {
            modulus,
            total_bits: w,
            data_bits: w - 1,
            modulus_minus_one_be: be,
            pattern_zeros: zeros,
        };
        proof {
            assert(r.pattern_le() =~= le@);
            lemma_canonical_le_value(m1 as nat, le@);
            lemma_small_mod(m1 as nat, pow2(w as nat));
        }
        r
    }
}

/// The little-endian digits of `v`: bit `i` is set when `v / 2^i` is odd.
pub open spec fn canonical_bool_bits(v: nat, w: int) -> Seq<bool> {
    Seq::new(w as nat, |i: int| (v / pow2(i as nat)) % 2 == 1)
}

/// The canonical decomposition of `v` into `w` bits of one mode.
pub open spec fn canonical_bits(v: nat, mode: Mode, w: int) -> Seq<Bit> {
    Seq::new(w as nat, |i: int| Bit { value: (v / pow2(i as nat)) % 2 == 1, mode })
}

/// A sequence of digit bits evaluates to `v` modulo the power of two at its
/// length.
pub proof fn lemma_le_digits_value(v: nat, s: Seq<bool>, w: int)
    requires
        w >= 0,
        s.len() == w,
        forall|k: int| 0 <= k < w ==> s[k] == ((v / pow2(k as nat)) % 2 == 1),
    ensures
        bool_value(s) == v % pow2(w as nat),
    decreases w,
{
    if w == 0 {
        assert(pow2(0) == 1) by {
            lemma2_to64();
        }
        assert(v as int % 1 == 0) by (nonlinear_arith);
    } else {
        let d = s.drop_last();
        lemma_le_digits_value(v, d, w - 1);
        lemma_pow2_pos((w - 1) as nat);
        lemma_breakdown(v as int, pow2((w - 1) as nat) as int, 2);
        lemma_pow2_adds((w - 1) as nat, 1);
        assert(pow2(1) == 2) by {
            lemma2_to64();
        }
        assert(pow2((w - 1) as nat) * 2 == pow2(w as nat));
        let q = (v / pow2((w - 1) as nat)) % 2;
        assert(v % pow2(w as nat) == pow2((w - 1) as nat) * q + v % pow2((w - 1) as nat));
        assert(s.last() == (q == 1));
        assert(q == 0 || q == 1) by {
            vstd::arithmetic::div_mod::lemma_mod_division_less_than_divisor(
                (v / pow2((w - 1) as nat)) as int,
                2,
            );
        }
        if q == 1 {
            assert(pow2((w - 1) as nat) * 1 == pow2((w - 1) as nat));
        } else {
            assert(pow2((w - 1) as nat) * 0 == 0);
        }
    }
}

/// Helper form of the digit-value lemma for a full-width pattern.
pub proof fn lemma_canonical_le_value(v: nat, s: Seq<bool>)
    requires
        forall|k: int| 0 <= k < s.len() ==> s[k] == ((v / pow2(k as nat)) % 2 == 1),
    ensures
        bool_value(s) == v % pow2(s.len() as nat),
{
    lemma_le_digits_value(v, s, s.len() as int);
}

/// Whether a write-once store succeeded or found the slot already filled.
#[derive(Clone, Copy, PartialEq, Eq, Structural, Debug)]
pub enum CacheStatus {
    /// The slot was empty and now holds the given bits.
    Stored,
    /// The slot was already filled; it is unchanged. Callers must treat this
    /// as a fatal internal-consistency fault, never as a recoverable error.
    Rejected,
}

/// A write-once slot for a field element's little-endian bit decomposition.
pub struct BitCache {
    pub slot: Option<Vec<Bit>>,
}

impl BitCache {
    /// An empty slot.
    pub fn new() -> (r: BitCache)
        ensures
            r.slot is None,
    {
        BitCache { slot: None }
    }

    /// Read access to the cached bits, if any.
    pub fn get(&self) -> (r: &Option<Vec<Bit>>)
        ensures
            r == &self.slot,
    {
        &self.slot
    }

    /// Stores the bits if the slot is empty; a filled slot is left unchanged
    /// and the store is rejected.
    pub fn set(&mut self, bits: Vec<Bit>) -> (r: CacheStatus)
        ensures
            old(self).slot is None ==> final(self).slot == Some(bits) && r == CacheStatus::Stored,
            old(self).slot is Some ==> *final(self) == *old(self) && r == CacheStatus::Rejected,
    {
        match self.slot {
            Option::None => {
                self.slot = Some(bits);
                CacheStatus::Stored
            },
            Option::Some(_) => CacheStatus::Rejected,
        }
    }
}

/// A circuit-resident field element: a canonical value, its evaluation mode,
/// and a lazily populated, write-once little-endian bit decomposition.
pub struct FieldElement {
    pub value: u64,
    pub mode: Mode,
    pub bits_le: BitCache,
}

impl FieldElement {
    /// A canonical value is below the modulus.
    pub open spec fn wf(self, fc: FieldConstants) -> bool {
        self.value < fc.modulus
    }

    /// A fresh element with an empty bit cache.
    pub fn new(fc: &FieldConstants, mode: Mode, value: u64) -> (r: FieldElement)
        requires
            value < fc.modulus,
        ensures
            r == (FieldElement { value, mode, bits_le: BitCache { slot: None } }),
            r.wf(*fc),
    {
        FieldElement { value, mode, bits_le: BitCache::new() }
    }

    /// Read access to the cached decomposition.
    pub fn cached_bits(&self) -> (r: &Option<Vec<Bit>>)
        ensures
            r == &self.bits_le.slot,
    {
        self.bits_le.get()
    }

    /// The little-endian bit decomposition of the element, of exactly
    /// `total_bits` entries. A populated cache is returned as is, at no
    /// cost; otherwise the canonical decomposition of the value is computed,
    /// cached, and—for a witnessed element—paid for with one private
    /// variable and one boolean constraint per bit.
    pub fn to_bits_le(&mut self, c: &mut Circuit, fc: &FieldConstants) -> (r: Vec<Bit>)
        requires
            fc.wf(),
            old(self).wf(*fc),
            old(c).private_count + fc.total_bits <= u64::MAX,
            old(c).constraint_count + fc.total_bits <= u64::MAX,
        ensures
            final(self).value == old(self).value,
            final(self).mode == old(self).mode,
            final(c).satisfied == old(c).satisfied,
            old(self).bits_le.slot matches Some(cached) ==> {
                &&& r@ == cached@
                &&& *final(self) == *old(self)
                &&& *final(c) == *old(c)
            },
            old(self).bits_le.slot is None ==> {
                &&& r@ == canonical_bits(old(self).value as nat, old(self).mode, fc.total_bits as int)
                &&& value_of(r@) == old(self).value
                &&& final(self).bits_le.slot matches Some(cb) && cb@ == r@
                &&& final(c).private_count == old(c).private_count + if old(self).mode
                    == Mode::Constant {
                    0int
                } else {
                    fc.total_bits as int
                }
                &&& final(c).constraint_count == old(c).constraint_count + if old(self).mode
                    == Mode::Constant {
                    0int
                } else {
                    fc.total_bits as int
                }
            },
    {
        match self.bits_le.get() {
            Option::Some(cached) => cached.clone(),
            Option::None => {
                let w = fc.total_bits;
                proof {
                    lemma2_to64();
                    vstd::arithmetic::div_mod::lemma_div_basics(self.value as int);
                }
                let mut bits: Vec<Bit> = Vec::new();
                let mut x: u64 = self.value;
                let mut i: usize = 0;
                while i < w
                    invariant
                        i <= w,
                        bits@.len() == i,
                        x as nat == self.value as nat / pow2(i as nat),
                        forall|k: int|
                            0 <= k < i ==> bits@[k] == (Bit {
                                value: (self.value as nat / pow2(k as nat)) % 2 == 1,
                                mode: self.mode,
                            }),
                    decreases w - i,
                {
                    proof {
                        lemma_pow2_pos(i as nat);
                        lemma_pow2_adds(i as nat, 1);
                        lemma_div_denominator(self.value as int, pow2(i as nat) as int, 2);
                        assert(pow2(1) == 2) by {
                            lemma2_to64();
                        }
                    }
                    bits.push(Bit { value: x % 2 == 1, mode: self.mode });
                    x = x / 2;
                    i = i + 1;
                }
                proof {
                    assert(bits@ =~= canonical_bits(
                        self.value as nat,
                        self.mode,
                        fc.total_bits as int,
                    ));
                    assert(bit_vals(bits@) =~= canonical_bool_bits(
                        self.value as nat,
                        fc.total_bits as int,
                    ));
                    lemma_canonical_le_value(self.value as nat, bit_vals(bits@));
                    lemma_small_mod(self.value as nat, pow2(fc.total_bits as nat));
                }
                if !self.mode.is_constant() {
                    c.private_count = c.private_count + w as u64;
                    c.constraint_count = c.constraint_count + w as u64;
                }
                let out = bits.clone();
                match self.bits_le.set(bits) {
                    CacheStatus::Stored => {},
                    CacheStatus::Rejected => {
                        proof {
                            assert(false);
                        }
                    },
                }
                out
            },
        }
    }
}

} // verus!
