//! Field-wide laws of the reconstruction gadget and its oracle, stated over
//! the same spec functions the public contracts use.

use vstd::prelude::*;
use vstd::arithmetic::power2::{pow2, lemma_pow2_strictly_increases};
use vstd::arithmetic::div_mod::lemma_small_mod;

use crate::binary::{
    bit_vals, bool_value, lemma_bool_value_bound, lemma_bool_value_lower, lemma_bool_value_split,
    lemma_bool_value_zero, value_of,
};
use crate::bits::Mode;
use crate::field::{canonical_bits, lemma_canonical_le_value, FieldConstants};
use crate::oracle::{all_constant_types, count_spec, BitType, Count};
use crate::reconstruct::{
    kept_bits, pad_bit, reconstructed_value, sanitized_bits, witnessed_constraint_cost,
    witnessed_private_cost,
};

verus! {

/// Round-trip: decomposing a canonical value into its little-endian bits
/// and reconstructing yields the value back, and the sanitized
/// decomposition the gadget caches holds exactly `total_bits` entries.
pub proof fn lemma_round_trip(fc: FieldConstants, value: nat, mode: Mode)
    requires
        fc.wf(),
        value < fc.modulus,
    ensures
        reconstructed_value(canonical_bits(value, mode, fc.total_bits as int), fc) == value,
        value_of(canonical_bits(value, mode, fc.total_bits as int)) == value,
        sanitized_bits(canonical_bits(value, mode, fc.total_bits as int), fc).len()
            == fc.total_bits,
{
    let bits = canonical_bits(value, mode, fc.total_bits as int);
    assert(kept_bits(bits, fc) =~= bits);
    assert(forall|k: int|
        0 <= k < bits.len() ==> #[trigger] bit_vals(bits)[k] == ((value / pow2(k as nat)) % 2
            == 1));
    lemma_canonical_le_value(value, bit_vals(bits));
    lemma_small_mod(value, pow2(fc.total_bits as nat));
    lemma_small_mod(value, fc.modulus as nat);
}

/// Excess-zero tolerance: appending constant-false padding to any input
/// leaves both the reconstructed value and the canonicity of the whole
/// input unchanged.
pub proof fn lemma_excess_zero_tolerance(fc: FieldConstants, bits: Seq<crate::bits::Bit>, extra: nat)
    requires
        fc.wf(),
    ensures
        reconstructed_value(bits + Seq::new(extra, |i: int| pad_bit()), fc)
            == reconstructed_value(bits, fc),
        value_of(bits + Seq::new(extra, |i: int| pad_bit())) == value_of(bits),
{
    let ext = bits + Seq::new(extra, |i: int| pad_bit());
    let n = bits.len() as int;
    let s = bit_vals(ext);
    assert(s.take(n) =~= bit_vals(bits));
    lemma_bool_value_split(s, n);
    lemma_bool_value_zero(s.skip(n));
    assert(forall|k: int| 0 <= k < s.skip(n).len() ==> !#[trigger] s.skip(n)[k]) by {
        assert(forall|k: int|
            0 <= k < s.skip(n).len() ==> #[trigger] s.skip(n)[k] == ext[k + n].value);
    }
    assert(pow2(n as nat) * 0 == 0) by (nonlinear_arith);
    assert(value_of(ext) == value_of(bits));
    let kn = crate::reconstruct::kept_len(ext.len() as int, fc);
    let kb = crate::reconstruct::kept_len(bits.len() as int, fc);
    assert(kb <= kn);
    let t = bit_vals(kept_bits(ext, fc));
    assert(t =~= s.take(kn));
    lemma_bool_value_split(s.take(kn), kb);
    assert(s.take(kn).take(kb) =~= bit_vals(kept_bits(bits, fc)));
    lemma_bool_value_zero(s.take(kn).skip(kb));
    assert(forall|k: int|
        0 <= k < s.take(kn).skip(kb).len() ==> !#[trigger] s.take(kn).skip(kb)[k]) by {
        assert(forall|k: int|
            0 <= k < s.take(kn).skip(kb).len() ==> #[trigger] s.take(kn).skip(kb)[k] == ext[k
                + kb].value);
        assert(forall|k: int| kb <= k < kn ==> !(#[trigger] ext[k]).value) by {
            assert(forall|k: int| n <= k < ext.len() ==> #[trigger] ext[k] == pad_bit());
        }
    }
    assert(pow2(kb as nat) * 0 == 0) by (nonlinear_arith);
    assert(value_of(kept_bits(ext, fc)) == value_of(kept_bits(bits, fc)));
}

/// Excess-nonzero rejection: a true bit at or beyond `total_bits` puts the
/// input's value at or above the modulus, so the gadget's satisfaction
/// clause forces the circuit unsatisfiable.
pub proof fn lemma_excess_nonzero_rejection(fc: FieldConstants, bits: Seq<crate::bits::Bit>, k: int)
    requires
        fc.wf(),
        fc.total_bits <= k < bits.len(),
        bits[k].value,
    ensures
        value_of(bits) >= fc.modulus,
{
    let s = bit_vals(bits);
    assert(s[k]);
    lemma_bool_value_lower(s, k);
    if fc.total_bits < k {
        lemma_pow2_strictly_increases(fc.total_bits as nat, k as nat);
    }
}

/// Boundary at the data-bit-width: a witnessed input of exactly `data_bits`
/// bits pays nothing, while one bit more pays the full calibrated base
/// cost.
pub proof fn lemma_boundary_at_data_bits(fc: FieldConstants)
    requires
        fc.wf(),
    ensures
        witnessed_private_cost(fc.data_bits as int, fc) == 0,
        witnessed_constraint_cost(fc.data_bits as int, fc) == 0,
        witnessed_private_cost(fc.data_bits + 1, fc) == fc.total_bits - 1,
        witnessed_constraint_cost(fc.data_bits + 1, fc) == fc.total_bits - 1 + fc.pattern_zeros,
        witnessed_private_cost(fc.data_bits + 1, fc) > 0,
        witnessed_constraint_cost(fc.data_bits + 1, fc) > 0,
{
}

/// Cost monotonicity: on witnessed shapes, the predicted constraint and
/// private-variable counts never decrease as the input grows, and at zero
/// excess they are exactly the calibrated base counts.
pub proof fn lemma_cost_monotone(fc: FieldConstants, case1: Seq<BitType>, case2: Seq<BitType>)
    requires
        fc.wf(),
        !all_constant_types(case1),
        !all_constant_types(case2),
        case1.len() <= case2.len(),
        case2.len() + 2 * fc.total_bits <= u64::MAX,
    ensures
        count_spec(case1, fc).constraints <= count_spec(case2, fc).constraints,
        count_spec(case1, fc).private <= count_spec(case2, fc).private,
{
    crate::field::lemma_zeros_from_bound(fc.pattern_le(), 0);
}

/// A witnessed shape with no excess bits costs exactly the calibrated base.
pub proof fn lemma_cost_base_at_zero_excess(fc: FieldConstants, case: Seq<BitType>)
    requires
        fc.wf(),
        !all_constant_types(case),
        case.len() <= fc.total_bits,
    ensures
        count_spec(case, fc).private == fc.total_bits - 1,
        count_spec(case, fc).constraints == fc.total_bits - 1 + fc.pattern_zeros,
{
    crate::field::lemma_zeros_from_bound(fc.pattern_le(), 0);
    fc.lemma_width_bound();
}

/// On a fully witnessed shape long enough to trigger the canonicity check,
/// the oracle's prediction is exactly what the gadget's cost contract
/// charges for input of that shape.
pub proof fn lemma_oracle_exact_on_witnessed(fc: FieldConstants, case: Seq<BitType>)
    requires
        fc.wf(),
        forall|i: int| 0 <= i < case.len() ==> !((#[trigger] case[i]) is Constant),
        case.len() > fc.data_bits,
        case.len() + 2 * fc.total_bits <= u64::MAX,
    ensures
        count_spec(case, fc).private == witnessed_private_cost(case.len() as int, fc),
        count_spec(case, fc).constraints == witnessed_constraint_cost(case.len() as int, fc),
{
    assert(!all_constant_types(case)) by {
        assert(!(case[0] is Constant));
    }
    crate::field::lemma_zeros_from_bound(fc.pattern_le(), 0);
    fc.lemma_width_bound();
}

/// Constant-mode zero cost: a fully constant shape is predicted to consume
/// nothing in any resource category.
pub proof fn lemma_constant_mode_zero_cost(fc: FieldConstants, case: Seq<BitType>)
    requires
        all_constant_types(case),
    ensures
        count_spec(case, fc) == (Count { constants: 0, public: 0, private: 0, constraints: 0 }),
{
}

/// Short inputs are canonical outright: a value carried by at most
/// `data_bits` bits is below the modulus, so the gadget leaves the circuit's
/// satisfaction untouched on such input.
pub proof fn lemma_short_input_canonical(fc: FieldConstants, bits: Seq<crate::bits::Bit>)
    requires
        fc.wf(),
        bits.len() <= fc.data_bits,
    ensures
        value_of(bits) < fc.modulus,
{
    let s = bit_vals(bits);
    lemma_bool_value_bound(s);
    if s.len() < fc.data_bits {
        lemma_pow2_strictly_increases(s.len() as nat, fc.data_bits as nat);
    }
}

} // verus!
