//! The canonical reconstruction gadget: turns a little-endian sequence of
//! circuit bits into a field element, constraining the represented value to
//! be the canonical residue of the field.

use vstd::prelude::*;
use vstd::arithmetic::power2::pow2;
use vstd::arithmetic::div_mod::{
    lemma_add_mod_noop, lemma_mod_division_less_than_divisor, lemma_mul_mod_noop_right,
    lemma_small_mod,
};
use vstd::arithmetic::power2::{lemma_pow2_adds, lemma_pow2_pos, lemma_pow2_strictly_increases, lemma2_to64};

use crate::binary::{
    bit_vals, bool_value, lemma_bool_value_bound, lemma_bool_value_parity, lemma_bool_value_split,
    lemma_bool_value_take_succ, lemma_bool_value_top_bit, lemma_bool_value_zero,
    lemma_run_checks_value, ones_match_from, run_checks_from, run_checks_hold, value_of,
};
use crate::bits::{all_constant, none_constant, seq_mode, Bit, Mode};
use crate::circuit::Circuit;
use crate::field::{zeros_from, BitCache, CacheStatus, FieldConstants, FieldElement};

verus! {

/// How many of the input bits take part in the weighted sum: all of them,
/// capped at the field's total bit-width.
pub open spec fn kept_len(len: int, fc: FieldConstants) -> int {
    if len <= fc.total_bits {
        len
    } else {
        fc.total_bits as int
    }
}

/// The input bits that take part in the weighted sum.
pub open spec fn kept_bits(bits: Seq<Bit>, fc: FieldConstants) -> Seq<Bit> {
    bits.take(kept_len(bits.len() as int, fc))
}

/// The value the gadget reconstructs: the weighted sum of the kept bits,
/// reduced by the field's native arithmetic.
pub open spec fn reconstructed_value(bits: Seq<Bit>, fc: FieldConstants) -> nat {
    value_of(kept_bits(bits, fc)) % (fc.modulus as nat)
}

/// The constant-false bit used to pad a short input.
pub open spec fn pad_bit() -> Bit {
    Bit { value: false, mode: Mode::Constant }
}

/// The sanitized decomposition the gadget caches: the kept bits, padded with
/// constant-false bits up to the field's total bit-width.
pub open spec fn sanitized_bits(bits: Seq<Bit>, fc: FieldConstants) -> Seq<Bit> {
    kept_bits(bits, fc) + Seq::new(
        (fc.total_bits - kept_len(bits.len() as int, fc)) as nat,
        |i: int| pad_bit(),
    )
}

/// The number of excess bits: those beyond the field's total bit-width.
pub open spec fn excess_count(len: int, fc: FieldConstants) -> int {
    if len > fc.total_bits {
        len - fc.total_bits
    } else {
        0
    }
}

/// Private variables the gadget allocates on fully witnessed input: none
/// below the data-bit-width, and otherwise one per gate of the canonicity
/// walk (one gate of the walk is free, absorbed by the constant seed of its
/// running conjunction) plus one per excess bit beyond the first.
pub open spec fn witnessed_private_cost(len: int, fc: FieldConstants) -> int {
    if len > fc.data_bits {
        (fc.total_bits - 1) + (if len > fc.total_bits + 1 {
            len - fc.total_bits - 1
        } else {
            0
        })
    } else {
        0
    }
}

/// Constraints the gadget emits on fully witnessed input: the canonicity
/// walk's gates plus one assertion per pattern zero, and one constraint per
/// excess bit.
pub open spec fn witnessed_constraint_cost(len: int, fc: FieldConstants) -> int {
    if len > fc.data_bits {
        (fc.total_bits - 1 + fc.pattern_zeros) + excess_count(len, fc)
    } else {
        0
    }
}

/// Some bit in `bits[lo..hi]` is true.
pub open spec fn any_true(bits: Seq<Bit>, lo: int, hi: int) -> bool {
    exists|k: int| lo <= k < hi && (#[trigger] bits[k]).value
}

/// Reconstructs a field element from little-endian bits, constraining the
/// represented value to be canonical.
///
/// Excess bits beyond `total_bits` are OR-reduced and asserted to be false;
/// the kept bits are accumulated into a weighted sum; and whenever the input
/// is long enough that a non-canonical value is structurally possible, the
/// kept bits are compared, most significant first, against the pattern of
/// `modulus - 1` by the run-length walk. The circuit stays satisfied exactly
/// when the whole input's numeric value is below the modulus. The sanitized
/// decomposition is cached in the returned element, write-once.
pub fn from_bits_le(c: &mut Circuit, fc: &FieldConstants, bits_le: &Vec<Bit>) -> (r: FieldElement)
    requires
        fc.wf(),
        old(c).private_count + 2 * fc.total_bits + bits_le@.len() <= u64::MAX,
        old(c).constraint_count + 3 * fc.total_bits + bits_le@.len() + 1 <= u64::MAX,
    ensures
        r.wf(*fc),
        r.value == reconstructed_value(bits_le@, *fc),
        r.mode == seq_mode(bits_le@),
        r.bits_le.slot matches Some(cb) && cb@ == sanitized_bits(bits_le@, *fc),
        final(c).satisfied == (old(c).satisfied && value_of(bits_le@) < fc.modulus),
        bits_le@.len() <= fc.data_bits ==> {
            &&& final(c).private_count == old(c).private_count
            &&& final(c).constraint_count == old(c).constraint_count
        },
        all_constant(bits_le@) ==> {
            &&& final(c).private_count == old(c).private_count
            &&& final(c).constraint_count == old(c).constraint_count
        },
        none_constant(bits_le@) ==> {
            &&& final(c).private_count == old(c).private_count + witnessed_private_cost(
                bits_le@.len() as int,
                *fc,
            )
            &&& final(c).constraint_count == old(c).constraint_count + witnessed_constraint_cost(
                bits_le@.len() as int,
                *fc,
            )
        },
        old(c).private_count <= final(c).private_count <= old(c).private_count + 2 * fc.total_bits
            + bits_le@.len(),
        old(c).constraint_count <= final(c).constraint_count <= old(c).constraint_count + 3
            * fc.total_bits + bits_le@.len() + 1,
{
    let n = bits_le.len();
    let w = fc.total_bits;
    let d = fc.data_bits;
    let ghost m = fc.modulus as nat;
    let ghost pc0 = c.private_count;
    let ghost cc0 = c.constraint_count;
    let ghost sat0 = c.satisfied;

    // Excess bits must collectively be false.
    if n > w {
        let mut acc = Bit::constant(false);
        let mut i: usize = w;
        while i < n
            invariant
                fc.wf(),
                w == fc.total_bits,
                n == bits_le@.len(),
                w <= i <= n,
                acc.value == any_true(bits_le@, w as int, i as int),
                acc.mode == Mode::Constant <==> all_constant(bits_le@.subrange(w as int, i as int)),
                c.satisfied == sat0,
                pc0 <= c.private_count,
                cc0 <= c.constraint_count,
                c.private_count <= pc0 + if i > w {
                    (i - w - 1) as int
                } else {
                    0int
                },
                c.constraint_count <= cc0 + if i > w {
                    (i - w - 1) as int
                } else {
                    0int
                },
                none_constant(bits_le@) ==> {
                    &&& c.private_count == pc0 + if i > w {
                        (i - w - 1) as int
                    } else {
                        0int
                    }
                    &&& c.constraint_count == cc0 + if i > w {
                        (i - w - 1) as int
                    } else {
                        0int
                    }
                },
                all_constant(bits_le@) ==> {
                    &&& c.private_count == pc0
                    &&& c.constraint_count == cc0
                },
                pc0 + 2 * w + n <= u64::MAX,
                cc0 + 3 * w + n + 1 <= u64::MAX,
            decreases n - i,
        {
            proof {
                if none_constant(bits_le@) {
                    assert(bits_le@[i as int].mode != Mode::Constant);
                    if i > w {
                        assert(bits_le@.subrange(w as int, i as int)[0] == bits_le@[w as int]);
                        assert(bits_le@[w as int].mode != Mode::Constant);
                    }
                }
                if all_constant(bits_le@) {
                    assert(bits_le@[i as int].mode == Mode::Constant);
                }
            }
            let next = c.or(&acc, &bits_le[i]);
            proof {
                crate::bits::lemma_all_constant_window_succ(bits_le@, w as int, i as int);
                if next.value {
                    if acc.value {
                        let k = choose|k: int| w <= k < i && (#[trigger] bits_le@[k]).value;
                        assert(w <= k < i + 1 && bits_le@[k].value);
                    } else {
                        assert(w <= i < i + 1 && bits_le@[i as int].value);
                    }
                }
            }
            acc = next;
            i = i + 1;
        }
        proof {
            if none_constant(bits_le@) {
                assert(bits_le@.subrange(w as int, n as int)[0] == bits_le@[w as int]);
                assert(bits_le@[w as int].mode != Mode::Constant);
            }
        }
        let zero = Bit::constant(false);
        c.assert_eq_bit(&zero, &acc);
    }

    // Weighted sum of the kept bits.
    let take_n = if n < w {
        n
    } else {
        w
    };
    let mut output: u64 = 0;
    let mut coeff: u64 = 1;
    let ghost sat1 = c.satisfied;
    let ghost pc1 = c.private_count;
    let ghost cc1 = c.constraint_count;
    let mut i: usize = 0;
    proof {
        lemma2_to64();
        lemma_small_mod(0, m);
        lemma_small_mod(1, m);
        assert(bit_vals(bits_le@).take(0) =~= Seq::<bool>::empty());
    }
    while i < take_n
        invariant
            fc.wf(),
            w == fc.total_bits,
            n == bits_le@.len(),
            m == fc.modulus as nat,
            take_n <= n,
            take_n <= w,
            0 <= i <= take_n,
            output < fc.modulus,
            coeff < fc.modulus,
            output as nat == bool_value(bit_vals(bits_le@).take(i as int)) % m,
            coeff as nat == pow2(i as nat) % m,
            c.satisfied == sat1,
            c.private_count == pc1,
            c.constraint_count == cc1,
        decreases take_n - i,
    {
        proof {
            let s = bit_vals(bits_le@);
            lemma_bool_value_take_succ(s, i as int);
            lemma_pow2_pos(i as nat);
            lemma_add_mod_noop(bool_value(s.take(i as int)) as int, pow2(i as nat) as int, m as int);
            lemma_small_mod(output as nat, m);
            lemma_mul_mod_noop_right(2, pow2(i as nat) as int, m as int);
            lemma_pow2_adds(i as nat, 1);
            lemma2_to64();
            lemma_mod_division_less_than_divisor((bool_value(s.take(i as int)) + pow2(i as nat)) as int, m as int);
            lemma_mod_division_less_than_divisor((2 * pow2(i as nat)) as int, m as int);
        }
        if bits_le[i].value {
            output = (output + coeff) % fc.modulus;
        }
        coeff = (coeff + coeff) % fc.modulus;
        i = i + 1;
    }

    // Canonicity: compare the kept bits against the pattern of modulus - 1,
    // most significant first, buffering runs of pattern ones.
    let ghost p = fc.pattern_le();
    let ghost cs = bit_vals(bits_le@).take(w as int);
    let ghost pc2 = c.private_count;
    let ghost cc2 = c.constraint_count;
    let ghost sat2 = c.satisfied;
    if n > d {
        proof {
            assert(n >= w);
            assert(cs.len() == w);
            // The pattern's most significant bit is one.
            assert(p[w - 1]) by {
                assert(bool_value(p) == fc.modulus - 1);
                lemma_pow2_pos((w - 1) as nat);
                assert(p.last() == p[w - 1]);
                lemma_bool_value_top_bit(p);
            }
            // The pattern's least significant bit is zero.
            assert(!p[0]) by {
                lemma_bool_value_parity(p);
            }
        }
        let mut previous = Bit::constant(true);
        let mut run: Vec<Bit> = Vec::new();
        let mut j: usize = 0;
        while j < w
            invariant
                fc.wf(),
                w == fc.total_bits,
                n == bits_le@.len(),
                n >= w,
                0 <= j <= w,
                p == fc.pattern_le(),
                cs == bit_vals(bits_le@).take(w as int),
                cs.len() == w,
                p.len() == w,
                p[w - 1],
                !p[0],
                run@.len() <= j,
                (w - j) + run@.len() <= w,
                forall|t: int|
                    w - j <= t < w - j + run@.len() ==> #[trigger] p[t],
                forall|f: int|
                    0 <= f < run@.len() ==> #[trigger] run@[f] == bits_le@[w - j + run@.len() - 1
                        - f],
                previous.value == ones_match_from(cs, p, w - j + run@.len()),
                c.satisfied == (sat2 && run_checks_from(cs, p, w - j)),
                pc2 <= c.private_count,
                cc2 <= c.constraint_count,
                c.private_count <= pc2 + j - run@.len(),
                c.constraint_count <= cc2 + j - run@.len() + zeros_from(p, w - j),
                all_constant(bits_le@) ==> {
                    &&& previous.mode == Mode::Constant
                    &&& (forall|f: int|
                        0 <= f < run@.len() ==> (#[trigger] run@[f]).mode == Mode::Constant)
                    &&& c.private_count == pc2
                    &&& c.constraint_count == cc2
                },
                none_constant(bits_le@) ==> {
                    &&& (forall|f: int|
                        0 <= f < run@.len() ==> (#[trigger] run@[f]).mode != Mode::Constant)
                    &&& (previous.mode == Mode::Constant <==> j - zeros_from(p, w - j)
                        - run@.len() == 0)
                    &&& c.private_count == pc2 + (if j - zeros_from(p, w - j) - run@.len() >= 1 {
                        j - zeros_from(p, w - j) - run@.len() - 1
                    } else {
                        0int
                    }) + zeros_from(p, w - j)
                    &&& c.constraint_count == cc2 + (if j - zeros_from(p, w - j) - run@.len()
                        >= 1 {
                        j - zeros_from(p, w - j) - run@.len() - 1
                    } else {
                        0int
                    }) + 2 * zeros_from(p, w - j)
                },
                zeros_from(p, w - j) <= j,
                pc2 + 2 * w <= u64::MAX,
                cc2 + 3 * w <= u64::MAX,
            decreases w - j,
        {
            let ghost t = w - 1 - j;
            proof {
                assert(p[t as int] == fc.modulus_minus_one_be@[j as int]);
                assert(zeros_from(p, t as int) == (if !p[t as int] {
                    1nat
                } else {
                    0nat
                }) + zeros_from(p, w - j));
            }
            let pattern_bit = fc.modulus_minus_one_be[j];
            let cur = bits_le[w - 1 - j];
            proof {
                assert(cs[t as int] == bits_le@[t as int].value);
                if none_constant(bits_le@) {
                    assert(bits_le@[t as int].mode != Mode::Constant);
                }
            }
            if pattern_bit {
                run.push(cur);
                proof {
                    assert(previous.value == ones_match_from(cs, p, w - j + run@.len() - 1));
                }
            } else {
                proof {
                    // The walk opens on the pattern's top one, so a boundary
                    // is never its first step.
                    assert(j >= 1) by {
                        if j == 0 {
                            assert(p[w - 1]);
                        }
                    }
                    crate::field::lemma_zeros_from_one(p, w - j, w - 1);
                }
                if run.len() > 0 {
                    let ghost prev_entry = previous;
                    let ghost run_entry = run@;
                    let ghost pce = c.private_count;
                    let ghost cce = c.constraint_count;
                    let mut f: usize = 0;
                    while f < run.len()
                        invariant
                            0 <= f <= run@.len(),
                            run@ == run_entry,
                            run@.len() >= 1,
                            c.satisfied == (sat2 && run_checks_from(cs, p, w - j)),
                            previous.value == (prev_entry.value && (forall|g: int|
                                0 <= g < f ==> (#[trigger] run@[g]).value)),
                            previous.mode == Mode::Constant <==> (prev_entry.mode
                                == Mode::Constant && (forall|g: int|
                                0 <= g < f ==> (#[trigger] run@[g]).mode == Mode::Constant)),
                            pce <= c.private_count <= pce + f,
                            cce <= c.constraint_count <= cce + f,
                            (forall|g: int|
                                0 <= g < run@.len() ==> (#[trigger] run@[g]).mode
                                    == Mode::Constant) && prev_entry.mode == Mode::Constant ==> {
                                &&& c.private_count == pce
                                &&& c.constraint_count == cce
                                &&& previous.mode == Mode::Constant
                            },
                            (forall|g: int|
                                0 <= g < run@.len() ==> (#[trigger] run@[g]).mode
                                    != Mode::Constant) ==> {
                                &&& c.private_count == pce + (if prev_entry.mode
                                    == Mode::Constant {
                                    if f >= 1 {
                                        f - 1
                                    } else {
                                        0int
                                    }
                                } else {
                                    f as int
                                })
                                &&& c.constraint_count == cce + (if prev_entry.mode
                                    == Mode::Constant {
                                    if f >= 1 {
                                        f - 1
                                    } else {
                                        0int
                                    }
                                } else {
                                    f as int
                                })
                                &&& (previous.mode == Mode::Constant <==> (prev_entry.mode
                                    == Mode::Constant && f == 0))
                            },
                            pce + run@.len() <= u64::MAX - 1,
                            cce + run@.len() <= u64::MAX - 2,
                        decreases run@.len() - f,
                    {
                        let folded = c.and(&previous, &run[f]);
                        previous = folded;
                        f = f + 1;
                    }
                    proof {
                        // Closing the run extends the running conjunction
                        // down to just above the current position.
                        let len = run@.len() as int;
                        assert(previous.value == ones_match_from(cs, p, t + 1)) by {
                            assert(prev_entry.value == ones_match_from(cs, p, t + 1 + len));
                            assert(forall|u: int|
                                0 <= u < w ==> #[trigger] cs[u] == bits_le@[u].value);
                            if previous.value {
                                assert forall|u: int|
                                    t + 1 <= u < p.len() && #[trigger] p[u] implies cs[u] by {
                                    if u < t + 1 + len {
                                        let g = t + len - u;
                                        assert(run@[g] == bits_le@[u]);
                                        assert(run@[g].value);
                                    }
                                }
                            } else {
                                if !prev_entry.value {
                                    let u = choose|u: int|
                                        t + 1 + len <= u < p.len() && (#[trigger] p[u]) && !cs[u];
                                    assert(t + 1 <= u < p.len() && p[u] && !cs[u]);
                                } else {
                                    let g = choose|g: int|
                                        0 <= g < len && !(#[trigger] run@[g]).value;
                                    let u = t + len - g;
                                    assert(run@[g] == bits_le@[u]);
                                    assert(p[u]);
                                    assert(t + 1 <= u < p.len() && p[u] && !cs[u]);
                                }
                            }
                        }
                    }
                    run = Vec::new();
                }
                proof {
                    assert(previous.value == ones_match_from(cs, p, t + 1));
                    assert(ones_match_from(cs, p, t as int) == ones_match_from(cs, p, t + 1)) by {
                        if ones_match_from(cs, p, t + 1) {
                            assert forall|u: int|
                                t <= u < p.len() && #[trigger] p[u] implies cs[u] by {
                                assert(u != t);
                            }
                        }
                    }
                }
                let gate = c.nand(&previous, &cur);
                c.assert_true(&gate);
                proof {
                    assert(run_checks_from(cs, p, t as int) == (run_checks_from(cs, p, w - j)
                        && !(ones_match_from(cs, p, t + 1) && cs[t as int]))) by {
                        if run_checks_from(cs, p, w - j) {
                            if !p[t as int] && cs[t as int] && ones_match_from(cs, p, t + 1) {
                                if run_checks_from(cs, p, t as int) {
                                    let u = choose|u: int|
                                        t < u < p.len() && p[u] && !#[trigger] cs[u];
                                    assert(cs[u]);
                                    assert(false);
                                }
                            }
                            if !(ones_match_from(cs, p, t + 1) && cs[t as int]) {
                                assert forall|jj: int|
                                    t <= jj < p.len() && !p[jj] && cs[jj] implies exists|k: int|
                                    jj < k < p.len() && p[k] && !#[trigger] cs[k] by {
                                    if jj > t {
                                        assert(run_checks_from(cs, p, w - j));
                                    } else {
                                        assert(!ones_match_from(cs, p, t + 1));
                                        let u = choose|u: int|
                                            t + 1 <= u < p.len() && #[trigger] p[u] && !cs[u];
                                        assert(jj < u < p.len() && p[u] && !cs[u]);
                                    }
                                }
                            }
                        }
                    }
                }
            }
            j = j + 1;
        }
        proof {
            // The walk always ends with its run buffer empty, because the
            // modulus is odd and the pattern therefore ends in a zero.
            assert(run@.len() == 0) by {
                if run@.len() > 0 {
                    assert(p[0]);
                }
            }
            assert(run_checks_from(cs, p, 0) == run_checks_hold(cs, p));
            lemma_run_checks_value(cs, p);
            crate::field::lemma_zeros_from_one(p, 0, w - 1);
            assert(zeros_from(p, 0) == fc.pattern_zeros);
        }
    }

    // The element's evaluation mode, following the whole input.
    let mut has_witness = false;
    let mut has_private = false;
    let mut k: usize = 0;
    while k < n
        invariant
            n == bits_le@.len(),
            0 <= k <= n,
            has_witness == !all_constant(bits_le@.take(k as int)),
            has_private == crate::bits::some_private(bits_le@.take(k as int)),
        decreases n - k,
    {
        let b = bits_le[k];
        proof {
            crate::bits::lemma_all_constant_take_succ(bits_le@, k as int);
            crate::bits::lemma_some_private_take_succ(bits_le@, k as int);
        }
        if !b.is_constant() {
            has_witness = true;
        }
        if matches!(b.mode, Mode::Private) {
            has_private = true;
        }
        k = k + 1;
    }
    let mode = if !has_witness {
        Mode::Constant
    } else if has_private {
        Mode::Private
    } else {
        Mode::Public
    };
    proof {
        assert(bits_le@.take(n as int) =~= bits_le@);
        assert(mode == seq_mode(bits_le@));
    }

    // The sanitized decomposition: the kept bits, padded to full width.
    let mut clean: Vec<Bit> = Vec::new();
    let mut k: usize = 0;
    while k < take_n
        invariant
            take_n <= bits_le@.len(),
            0 <= k <= take_n,
            clean@ == bits_le@.take(k as int),
        decreases take_n - k,
    {
        proof {
            assert(bits_le@.take(k + 1).drop_last() =~= bits_le@.take(k as int));
        }
        clean.push(bits_le[k]);
        k = k + 1;
    }
    while clean.len() < w
        invariant
            w == fc.total_bits,
            take_n <= clean@.len() <= w,
            clean@.take(take_n as int) == bits_le@.take(take_n as int),
            forall|t: int| take_n <= t < clean@.len() ==> #[trigger] clean@[t] == pad_bit(),
        decreases w - clean@.len(),
    {
        clean.push(Bit { value: false, mode: Mode::Constant });
        proof {
            assert(clean@.take(take_n as int) =~= clean@.drop_last().take(take_n as int));
        }
    }
    proof {
        assert(clean@ =~= sanitized_bits(bits_le@, *fc)) by {
            assert(kept_bits(bits_le@, *fc) == bits_le@.take(take_n as int));
            assert(forall|t: int|
                0 <= t < take_n ==> #[trigger] clean@[t] == clean@.take(take_n as int)[t]);
        }
    }

    let mut out = FieldElement { value: output, mode, bits_le: BitCache::new() };
    match out.bits_le.set(clean) {
        CacheStatus::Stored => {},
        CacheStatus::Rejected => {
            // A doubly populated cache would mean corrupt internal state;
            // on a freshly built element the store provably succeeds.
            proof {
                assert(false);
            }
        },
    }

    proof {
        let s = bit_vals(bits_le@);
        assert(s.take(take_n as int) =~= bit_vals(kept_bits(bits_le@, *fc)));
        assert(output as nat == reconstructed_value(bits_le@, *fc));
        lemma_mod_division_less_than_divisor(value_of(kept_bits(bits_le@, *fc)) as int, m as int);

        // Satisfiability agrees with canonicity of the whole input.
        lemma_bool_value_split(s, kept_len(n as int, *fc));
        lemma_bool_value_bound(s.take(kept_len(n as int, *fc)));
        if n <= d {
            // Short inputs are canonical outright.
            assert(value_of(bits_le@) < fc.modulus) by {
                assert(s.take(n as int) =~= s);
                lemma_bool_value_bound(s);
                assert(pow2(s.len() as nat) <= pow2(d as nat)) by {
                    if s.len() < d {
                        lemma_pow2_strictly_increases(s.len() as nat, d as nat);
                    }
                }
            }
        } else {
            assert(cs == s.take(w as int));
            assert(bool_value(p) == fc.modulus - 1);
            if n > w {
                let hi = s.skip(w as int);
                lemma_bool_value_split(s, w as int);
                lemma_bool_value_zero(hi);
                assert(forall|k2: int|
                    0 <= k2 < hi.len() ==> hi[k2] == (#[trigger] bits_le@[k2 + w]).value);
                assert((!any_true(bits_le@, w as int, n as int)) == (bool_value(hi) == 0)) by {
                    if any_true(bits_le@, w as int, n as int) {
                        let k2 = choose|k2: int|
                            w <= k2 < n && (#[trigger] bits_le@[k2]).value;
                        assert(hi[k2 - w]);
                    } else {
                        assert forall|k2: int| 0 <= k2 < hi.len() implies !hi[k2] by {
                            assert(!bits_le@[k2 + w].value);
                        }
                    }
                }
                if bool_value(hi) > 0 {
                    lemma_pow2_pos(w as nat);
                    assert(pow2(w as nat) * bool_value(hi) >= pow2(w as nat)) by (nonlinear_arith)
                        requires
                            bool_value(hi) >= 1,
                            pow2(w as nat) > 0,
                    ;
                }
                assert(pow2(w as nat) * 0 == 0) by (nonlinear_arith);
            } else {
                assert(n == w);
                assert(cs =~= s);
            }
        }
    }
    out
}

} // verus!
