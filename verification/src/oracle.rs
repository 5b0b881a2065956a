//! The cost and output-type oracle: pure functions of the shape of a bit
//! sequence (length and per-bit modes) predicting the resources the
//! reconstruction gadget consumes and the mode of its result.

use vstd::prelude::*;

use crate::bits::{Bit, Mode};
use crate::circuit::Circuit;
use crate::field::FieldConstants;
use crate::reconstruct::{from_bits_le, reconstructed_value};

verus! {

/// The shape of one input bit: its mode, with the value kept only for a
/// compile-time constant.
#[derive(Clone, Copy, PartialEq, Eq, Structural, Debug)]
pub enum BitType {
    Constant(bool),
    Public,
    Private,
}

/// The predicted result: a definite constant value, or an abstract
/// proof-time tag.
#[derive(Clone, Copy, PartialEq, Eq, Structural, Debug)]
pub enum OutputType {
    Constant(u64),
    Public,
    Private,
}

/// Resources consumed: allocated constants, public and private variables,
/// and emitted constraints.
#[derive(Clone, Copy, PartialEq, Eq, Structural, Debug)]
pub struct Count {
    pub constants: u64,
    pub public: u64,
    pub private: u64,
    pub constraints: u64,
}

/// Every bit of the shape is a compile-time constant.
pub open spec fn all_constant_types(case: Seq<BitType>) -> bool {
    forall|i: int| 0 <= i < case.len() ==> (#[trigger] case[i]) is Constant
}

/// Some bit of the shape is private.
pub open spec fn some_private_type(case: Seq<BitType>) -> bool {
    exists|i: int| 0 <= i < case.len() && (#[trigger] case[i]) is Private
}

/// The mode of the whole shape: private dominates public, and a shape is
/// constant only when every bit is.
pub open spec fn case_mode(case: Seq<BitType>) -> Mode {
    if all_constant_types(case) {
        Mode::Constant
    } else if some_private_type(case) {
        Mode::Private
    } else {
        Mode::Public
    }
}

/// The bits a fully constant shape describes.
pub open spec fn constant_bit(t: BitType) -> Bit {
    match t {
        BitType::Constant(b) => Bit { value: b, mode: Mode::Constant },
        _ => Bit { value: false, mode: Mode::Constant },
    }
}

/// The bit sequence a fully constant shape describes.
pub open spec fn constant_bits(case: Seq<BitType>) -> Seq<Bit> {
    Seq::new(case.len(), |i: int| constant_bit(case[i]))
}

/// The predicted cost: zero for a fully constant shape; otherwise a base
/// cost calibrated to witnessed full-width input, plus one constraint per
/// excess bit and one private variable per excess bit beyond the first.
pub open spec fn count_spec(case: Seq<BitType>, fc: FieldConstants) -> Count {
    if all_constant_types(case) {
        Count { constants: 0, public: 0, private: 0, constraints: 0 }
    } else {
        let excess = if case.len() > fc.total_bits {
            case.len() - fc.total_bits
        } else {
            0int
        };
        Count {
            constants: 0,
            public: 0,
            private: ((fc.total_bits - 1) + (if excess > 1 {
                excess - 1
            } else {
                0int
            })) as u64,
            constraints: ((fc.total_bits - 1 + fc.pattern_zeros) + excess) as u64,
        }
    }
}

/// The shape that a bit sequence presents to the oracle.
pub open spec fn shape_of_bits(bits: Seq<Bit>) -> Seq<BitType> {
    Seq::new(
        bits.len(),
        |i: int|
            match bits[i].mode {
                Mode::Constant => BitType::Constant(bits[i].value),
                Mode::Public => BitType::Public,
                Mode::Private => BitType::Private,
            },
    )
}

/// The oracle's mode prediction agrees with the mode the gadget gives its
/// result, and a fully constant shape retains the exact bits the gadget
/// would be run on.
pub proof fn lemma_shape_tracks_bits(bits: Seq<Bit>)
    ensures
        case_mode(shape_of_bits(bits)) == crate::bits::seq_mode(bits),
        crate::bits::all_constant(bits) ==> constant_bits(shape_of_bits(bits)) == bits,
{
    let case = shape_of_bits(bits);
    assert(all_constant_types(case) == crate::bits::all_constant(bits)) by {
        if all_constant_types(case) {
            assert forall|i: int| 0 <= i < bits.len() implies (#[trigger] bits[i]).mode
                == Mode::Constant by {
                assert(case[i] is Constant);
            }
        }
        if crate::bits::all_constant(bits) {
            assert forall|i: int| 0 <= i < case.len() implies (#[trigger] case[i]) is Constant by {
                assert(bits[i].mode == Mode::Constant);
            }
        }
    }
    assert(some_private_type(case) == crate::bits::some_private(bits)) by {
        if some_private_type(case) {
            let i = choose|i: int| 0 <= i < case.len() && (#[trigger] case[i]) is Private;
            assert(bits[i].mode == Mode::Private);
        }
        if crate::bits::some_private(bits) {
            let i = choose|i: int|
                0 <= i < bits.len() && (#[trigger] bits[i]).mode == Mode::Private;
            assert(case[i] is Private);
        }
    }
    if crate::bits::all_constant(bits) {
        assert(constant_bits(case) =~= bits) by {
            assert forall|i: int| 0 <= i < bits.len() implies #[trigger] constant_bits(case)[i]
                == bits[i] by {
                assert(bits[i].mode == Mode::Constant);
            }
        }
    }
}

/// The mode of the whole shape, scanned left to right.
pub fn eject_mode(case: &Vec<BitType>) -> (r: Mode)
    ensures
        r == case_mode(case@),
{
    let n = case.len();
    let mut has_witness = false;
    let mut has_private = false;
    let mut k: usize = 0;
    while k < n
        invariant
            n == case@.len(),
            0 <= k <= n,
            has_witness == !all_constant_types(case@.take(k as int)),
            has_private == some_private_type(case@.take(k as int)),
        decreases n - k,
    {
        proof {
            lemma_case_take_succ(case@, k as int);
        }
        match case[k] {
            BitType::Constant(_) => {},
            BitType::Public => {
                has_witness = true;
            },
            BitType::Private => {
                has_witness = true;
                has_private = true;
            },
        }
        k = k + 1;
    }
    proof {
        assert(case@.take(n as int) =~= case@);
    }
    if !has_witness {
        Mode::Constant
    } else if has_private {
        Mode::Private
    } else {
        Mode::Public
    }
}

/// Extending a prefix of a shape by one bit.
proof fn lemma_case_take_succ(case: Seq<BitType>, k: int)
    requires
        0 <= k < case.len(),
    ensures
        all_constant_types(case.take(k + 1)) == (all_constant_types(case.take(k)) && case[k]
            is Constant),
        some_private_type(case.take(k + 1)) == (some_private_type(case.take(k)) || case[k]
            is Private),
{
    let pre = case.take(k);
    let post = case.take(k + 1);
    if all_constant_types(post) {
        assert forall|t: int| 0 <= t < pre.len() implies (#[trigger] pre[t]) is Constant by {
            assert(pre[t] == post[t]);
        }
        assert(post[k] is Constant);
    } else if all_constant_types(pre) && case[k] is Constant {
        assert forall|t: int| 0 <= t < post.len() implies (#[trigger] post[t]) is Constant by {
            if t < k {
                assert(post[t] == pre[t]);
                assert(pre[t] is Constant);
            } else {
                assert(post[t] == case[k]);
            }
        }
    }
    if some_private_type(post) {
        let t = choose|t: int| 0 <= t < post.len() && (#[trigger] post[t]) is Private;
        if t < k {
            assert(pre[t] == post[t]);
            assert(pre[t] is Private);
        } else {
            assert(post[t] == case[k]);
        }
    } else {
        if some_private_type(pre) {
            let t = choose|t: int| 0 <= t < pre.len() && (#[trigger] pre[t]) is Private;
            assert(post[t] == pre[t]);
            assert(post[t] is Private);
        }
        if case[k] is Private {
            assert(post[k] is Private);
        }
    }
}

/// Predicts the exact resources the gadget consumes on an input of this
/// shape: zero when every bit is constant, and otherwise the calibrated
/// base cost plus the per-excess-bit terms.
pub fn count(fc: &FieldConstants, case: &Vec<BitType>) -> (r: Count)
    requires
        fc.wf(),
        case@.len() + 2 * fc.total_bits <= u64::MAX,
    ensures
        r == count_spec(case@, *fc),
{
    proof {
        crate::field::lemma_zeros_from_bound(fc.pattern_le(), 0);
    }
    let m = eject_mode(case);
    if matches!(m, Mode::Constant) {
        Count { constants: 0, public: 0, private: 0, constraints: 0 }
    } else {
        let n = case.len();
        let w = fc.total_bits;
        let excess: u64 = if n > w {
            (n - w) as u64
        } else {
            0
        };
        let excess_private: u64 = if excess > 1 {
            excess - 1
        } else {
            0
        };
        Count {
            constants: 0,
            public: 0,
            private: (w as u64 - 1) + excess_private,
            constraints: (w as u64 - 1 + fc.pattern_zeros as u64) + excess,
        }
    }
}

/// Predicts the result's mode. A fully constant shape is evaluated eagerly,
/// by literally running the reconstruction on the known bits, and yields the
/// definite constant value; otherwise any private bit makes the result
/// private, and it is public else.
pub fn output_type(fc: &FieldConstants, case: Vec<BitType>) -> (r: OutputType)
    requires
        fc.wf(),
        case@.len() + 3 * fc.total_bits + 1 <= u64::MAX,
    ensures
        all_constant_types(case@) ==> (r matches OutputType::Constant(v) && v
            == reconstructed_value(constant_bits(case@), *fc)),
        !all_constant_types(case@) && some_private_type(case@) ==> r == OutputType::Private,
        !all_constant_types(case@) && !some_private_type(case@) ==> r == OutputType::Public,
{
    let m = eject_mode(&case);
    match m {
        Mode::Constant => {
            let n = case.len();
            let mut bits: Vec<Bit> = Vec::new();
            let mut k: usize = 0;
            while k < n
                invariant
                    n == case@.len(),
                    0 <= k <= n,
                    bits@.len() == k,
                    forall|t: int| 0 <= t < k ==> #[trigger] bits@[t] == constant_bit(case@[t]),
                decreases n - k,
            {
                let b = match case[k] {
                    BitType::Constant(v) => Bit { value: v, mode: Mode::Constant },
                    BitType::Public => Bit { value: false, mode: Mode::Constant },
                    BitType::Private => Bit { value: false, mode: Mode::Constant },
                };
                bits.push(b);
                k = k + 1;
            }
            proof {
                assert(bits@ =~= constant_bits(case@));
            }
            let mut scratch = Circuit::new();
            let element = from_bits_le(&mut scratch, fc, &bits);
            OutputType::Constant(element.value)
        },
        Mode::Public => OutputType::Public,
        Mode::Private => OutputType::Private,
    }
}

} // verus!
