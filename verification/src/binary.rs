//! Little-endian binary interpretation of bit sequences, and the
//! order-theoretic fact behind the run-length canonicity check: the emitted
//! assertions hold exactly when the candidate value is at most the pattern
//! value.

use vstd::prelude::*;
use vstd::arithmetic::power2::{pow2, lemma_pow2_adds, lemma_pow2_pos, lemma_pow2_strictly_increases};

use crate::bits::Bit;

verus! {

/// The numeric value of a little-endian sequence of booleans.
pub open spec fn bool_value(s: Seq<bool>) -> nat
    decreases s.len(),
{
    if s.len() == 0 {
        0
    } else {
        bool_value(s.drop_last()) + if s.last() {
            pow2((s.len() - 1) as nat)
        } else {
            0nat
        }
    }
}

/// The truth values carried by a sequence of circuit bits.
pub open spec fn bit_vals(bits: Seq<Bit>) -> Seq<bool> {
    Seq::new(bits.len(), |i: int| bits[i].value)
}

/// The numeric value of a little-endian sequence of circuit bits.
pub open spec fn value_of(bits: Seq<Bit>) -> nat {
    bool_value(bit_vals(bits))
}

/// A little-endian value is below the power of two at its length.
pub proof fn lemma_bool_value_bound(s: Seq<bool>)
    ensures
        bool_value(s) < pow2(s.len() as nat),
    decreases s.len(),
{
    if s.len() == 0 {
        assert(pow2(0) == 1) by {
            vstd::arithmetic::power2::lemma2_to64();
        }
    } else {
        lemma_bool_value_bound(s.drop_last());
        lemma_pow2_adds((s.len() - 1) as nat, 1);
        assert(pow2(1) == 2) by {
            vstd::arithmetic::power2::lemma2_to64();
        }
    }
}

/// Extending a prefix by one bit adds that bit's weight.
pub proof fn lemma_bool_value_take_succ(s: Seq<bool>, i: int)
    requires
        0 <= i < s.len(),
    ensures
        bool_value(s.take(i + 1)) == bool_value(s.take(i)) + if s[i] {
            pow2(i as nat)
        } else {
            0nat
        },
{
    assert(s.take(i + 1).drop_last() =~= s.take(i));
    assert(s.take(i + 1).last() == s[i]);
}

/// The value of a sequence splits at any cut point into the value of the low
/// part plus the shifted value of the high part.
pub proof fn lemma_bool_value_split(s: Seq<bool>, m: int)
    requires
        0 <= m <= s.len(),
    ensures
        bool_value(s) == bool_value(s.take(m)) + pow2(m as nat) * bool_value(s.skip(m)),
    decreases s.len(),
{
    if s.len() == m {
        assert(s.take(m) =~= s);
        assert(s.skip(m) =~= Seq::<bool>::empty());
        assert(bool_value(s.skip(m)) == 0);
        assert(pow2(m as nat) * 0 == 0) by (nonlinear_arith);
        assert(bool_value(s) == bool_value(s.take(m)) + pow2(m as nat) * bool_value(s.skip(m)));
    } else {
        let d = s.drop_last();
        lemma_bool_value_split(d, m);
        assert(d.take(m) =~= s.take(m));
        assert(s.skip(m).drop_last() =~= d.skip(m));
        assert(s.skip(m).last() == s.last());
        let a = pow2(m as nat);
        let lo = bool_value(d.skip(m));
        if s.last() {
            let w = pow2((s.len() - m - 1) as nat);
            lemma_pow2_adds(m as nat, (s.len() - m - 1) as nat);
            assert(bool_value(s.skip(m)) == lo + w);
            assert(a * (lo + w) == a * lo + a * w) by (nonlinear_arith);
            assert(bool_value(s) == bool_value(d) + a * w);
            assert(bool_value(s) == bool_value(s.take(m)) + a * (lo + w));
            assert(bool_value(s) == bool_value(s.take(m)) + pow2(m as nat) * bool_value(
                s.skip(m),
            ));
        } else {
            assert(bool_value(s.skip(m)) == lo);
            assert(bool_value(s) == bool_value(d));
            assert(bool_value(s) == bool_value(s.take(m)) + pow2(m as nat) * bool_value(
                s.skip(m),
            ));
        }
    }
}

/// A sequence has value zero exactly when every bit in it is false.
pub proof fn lemma_bool_value_zero(s: Seq<bool>)
    ensures
        (bool_value(s) == 0) <==> (forall|i: int| 0 <= i < s.len() ==> !s[i]),
    decreases s.len(),
{
    if s.len() > 0 {
        let d = s.drop_last();
        lemma_bool_value_zero(d);
        lemma_pow2_pos((s.len() - 1) as nat);
        if bool_value(s) == 0 {
            assert(forall|i: int| 0 <= i < s.len() ==> !s[i]) by {
                assert(forall|i: int| 0 <= i < d.len() ==> d[i] == s[i]);
                assert(!s.last());
            }
        } else {
            if forall|i: int| 0 <= i < s.len() ==> !#[trigger] s[i] {
                assert(forall|i: int| 0 <= i < d.len() ==> !d[i]);
                assert(!s.last());
                assert(false);
            }
        }
    }
}

/// A true bit at position `i` puts the value at or above `pow2(i)`.
pub proof fn lemma_bool_value_lower(s: Seq<bool>, i: int)
    requires
        0 <= i < s.len(),
        s[i],
    ensures
        bool_value(s) >= pow2(i as nat),
{
    lemma_bool_value_split(s, i);
    lemma_pow2_pos(i as nat);
    let hi = s.skip(i);
    assert(hi[0] == s[i]);
    lemma_bool_value_zero(hi);
    assert(bool_value(hi) >= 1);
    assert(pow2(i as nat) * bool_value(hi) >= pow2(i as nat) * 1) by (nonlinear_arith)
        requires
            bool_value(hi) >= 1,
            pow2(i as nat) > 0,
    ;
}

/// The parity of a value is its lowest bit.
pub proof fn lemma_bool_value_parity(s: Seq<bool>)
    requires
        s.len() >= 1,
    ensures
        bool_value(s) % 2 == if s[0] {
            1nat
        } else {
            0nat
        },
    decreases s.len(),
{
    if s.len() == 1 {
        assert(s.drop_last() =~= Seq::<bool>::empty());
        assert(s.last() == s[0]);
        assert(pow2(0) == 1) by {
            vstd::arithmetic::power2::lemma2_to64();
        }
        assert(bool_value(Seq::<bool>::empty()) == 0);
        assert(bool_value(s) == if s[0] { 1nat } else { 0nat });
    } else {
        let d = s.drop_last();
        lemma_bool_value_parity(d);
        assert(d[0] == s[0]);
        if s.last() {
            lemma_pow2_adds((s.len() - 2) as nat, 1);
            assert(pow2(1) == 2) by {
                vstd::arithmetic::power2::lemma2_to64();
            }
            let k = pow2((s.len() - 2) as nat);
            assert(pow2((s.len() - 1) as nat) == 2 * k) by (nonlinear_arith)
                requires
                    pow2((s.len() - 1) as nat) == pow2((s.len() - 2) as nat) * pow2(1),
                    pow2(1) == 2,
                    k == pow2((s.len() - 2) as nat),
            ;
            assert(bool_value(s) == 2 * k + bool_value(d));
            assert((2 * k + bool_value(d)) % 2 == bool_value(d) % 2) by {
                vstd::arithmetic::div_mod::lemma_mod_multiples_vanish(
                    k as int,
                    bool_value(d) as int,
                    2,
                );
            }
        } else {
            assert(bool_value(s) == bool_value(d));
        }
    }
}

/// The run-length checks emitted so far, walking most significant first: for
/// every position at or above `lo` where the pattern holds a zero but the
/// candidate holds a one, some more significant position must hold a pattern
/// one against a candidate zero.
pub open spec fn run_checks_from(c: Seq<bool>, p: Seq<bool>, lo: int) -> bool {
    forall|j: int|
        lo <= j < p.len() && !p[j] && c[j] ==> exists|k: int| j < k < p.len() && p[k] && !#[trigger] c[k]
}

/// All candidate bits at pattern-one positions at or above `lo` are true:
/// what the walk's running conjunction over closed runs of ones tracks.
pub open spec fn ones_match_from(c: Seq<bool>, p: Seq<bool>, lo: int) -> bool {
    forall|t: int| lo <= t < p.len() && #[trigger] p[t] ==> c[t]
}

/// The full set of run-length checks: exactly the conjunction of the
/// assertions that the canonicity walk emits.
pub open spec fn run_checks_hold(c: Seq<bool>, p: Seq<bool>) -> bool {
    run_checks_from(c, p, 0)
}

/// The emitted run-length checks hold exactly when the candidate's value is
/// at most the pattern's value.
pub proof fn lemma_run_checks_value(c: Seq<bool>, p: Seq<bool>)
    requires
        c.len() == p.len(),
    ensures
        run_checks_hold(c, p) <==> bool_value(c) <= bool_value(p),
    decreases c.len(),
{
    if c.len() == 0 {
    } else {
        let n = c.len() - 1;
        let cd = c.drop_last();
        let pd = p.drop_last();
        lemma_run_checks_value(cd, pd);
        assert(forall|i: int| 0 <= i < n ==> cd[i] == c[i] && pd[i] == p[i]);
        if c[n] == p[n] {
            assert(run_checks_hold(c, p) <==> run_checks_hold(cd, pd)) by {
                if run_checks_hold(c, p) {
                    assert forall|j: int| 0 <= j < n && !pd[j] && cd[j] implies exists|k: int|
                        j < k < n && pd[k] && !#[trigger] cd[k] by {
                        let k = choose|k: int| j < k < c.len() && p[k] && !#[trigger] c[k];
                        assert(k < n) by {
                            if k == n {
                                assert(p[n] && !c[n]);
                            }
                        }
                        assert(pd[k] && !cd[k]);
                    }
                }
                if run_checks_hold(cd, pd) {
                    assert forall|j: int| 0 <= j < c.len() && !p[j] && c[j] implies exists|k: int|
                        j < k < c.len() && p[k] && !#[trigger] c[k] by {
                        assert(j < n);
                        let k = choose|k: int| j < k < n && pd[k] && !#[trigger] cd[k];
                        assert(p[k] && !c[k]);
                    }
                }
            }
        } else if c[n] && !p[n] {
            assert(!run_checks_hold(c, p)) by {
                assert(!p[n] && c[n]);
            }
            lemma_bool_value_bound(pd);
            assert(bool_value(c) >= bool_value(cd) + pow2(n as nat));
            assert(bool_value(p) == bool_value(pd));
            assert(bool_value(c) > bool_value(p));
        } else {
            assert(!c[n] && p[n]);
            assert(run_checks_hold(c, p)) by {
                assert forall|j: int| 0 <= j < c.len() && !p[j] && c[j] implies exists|k: int|
                    j < k < c.len() && p[k] && !#[trigger] c[k] by {
                    assert(j < n);
                    assert(n < c.len() && p[n] && !c[n]);
                }
            }
            lemma_bool_value_bound(cd);
            assert(bool_value(c) == bool_value(cd));
            assert(bool_value(p) >= pow2(n as nat));
        }
    }
}

/// Strictness at the top: among sequences of one length, a false top bit
/// keeps the value under the top weight, used to read the pattern's most
/// significant bit off its value.
pub proof fn lemma_bool_value_top_bit(s: Seq<bool>)
    requires
        s.len() >= 1,
        bool_value(s) >= pow2((s.len() - 1) as nat),
    ensures
        s.last(),
{
    if !s.last() {
        lemma_bool_value_bound(s.drop_last());
    }
}

} // verus!
