//! Circuit-resident booleans: a truth value paired with an evaluation mode.

use vstd::prelude::*;

verus! {

/// How a circuit value is evaluated: known at compile time (`Constant`),
/// revealed at proof time (`Public`), or hidden at proof time (`Private`).
#[derive(Clone, Copy, PartialEq, Eq, Structural, Debug)]
pub enum Mode {
    Constant,
    Public,
    Private,
}

impl Mode {
    /// True when the mode is `Constant`.
    pub fn is_constant(&self) -> (r: bool)
        ensures
            r == (*self == Mode::Constant),
    {
        matches!(*self, Mode::Constant)
    }

    /// The mode of a value derived from two others: constant only when both
    /// inputs are constant, and private as soon as either input is private.
    pub fn join(self, other: Mode) -> (r: Mode)
        ensures
            r == self.join_spec(other),
    {
        match (self, other) {
            (Mode::Constant, Mode::Constant) => Mode::Constant,
            (Mode::Private, _) => Mode::Private,
            (_, Mode::Private) => Mode::Private,
            _ => Mode::Public,
        }
    }

    /// Specification of `join`.
    pub open spec fn join_spec(self, other: Mode) -> Mode {
        if self == Mode::Constant && other == Mode::Constant {
            Mode::Constant
        } else if self == Mode::Private || other == Mode::Private {
            Mode::Private
        } else {
            Mode::Public
        }
    }
}

/// A circuit-resident boolean: a semantic truth value together with the mode
/// under which the circuit evaluates it.
#[derive(Clone, Copy, PartialEq, Eq, Structural, Debug)]
pub struct Bit {
    pub value: bool,
    pub mode: Mode,
}

impl Bit {
    /// A compile-time-constant bit.
    pub fn constant(value: bool) -> (r: Bit)
        ensures
            r == (Bit { value, mode: Mode::Constant }),
    {
        Bit { value, mode: Mode::Constant }
    }

    /// A bit with an explicit mode.
    pub fn new(mode: Mode, value: bool) -> (r: Bit)
        ensures
            r == (Bit { value, mode }),
    {
        Bit { value, mode }
    }

    /// True when the bit is a compile-time constant.
    pub fn is_constant(&self) -> (r: bool)
        ensures
            r == (self.mode == Mode::Constant),
    {
        self.mode.is_constant()
    }
}

/// True when every bit in the sequence is a compile-time constant.
pub open spec fn all_constant(bits: Seq<Bit>) -> bool {
    forall|i: int| 0 <= i < bits.len() ==> (#[trigger] bits[i]).mode == Mode::Constant
}

/// True when no bit in the sequence is a compile-time constant.
pub open spec fn none_constant(bits: Seq<Bit>) -> bool {
    forall|i: int| 0 <= i < bits.len() ==> (#[trigger] bits[i]).mode != Mode::Constant
}

/// True when some bit in the sequence is private.
pub open spec fn some_private(bits: Seq<Bit>) -> bool {
    exists|i: int| 0 <= i < bits.len() && (#[trigger] bits[i]).mode == Mode::Private
}

/// The mode of a value reconstructed from a sequence of bits: constant when
/// every bit is constant, private when any bit is private, public otherwise.
pub open spec fn seq_mode(bits: Seq<Bit>) -> Mode {
    if all_constant(bits) {
        Mode::Constant
    } else if some_private(bits) {
        Mode::Private
    } else {
        Mode::Public
    }
}

/// Extending a prefix by one bit: the prefix stays all-constant exactly when
/// it was and the new bit is constant.
pub proof fn lemma_all_constant_take_succ(bits: Seq<Bit>, k: int)
    requires
        0 <= k < bits.len(),
    ensures
        all_constant(bits.take(k + 1)) == (all_constant(bits.take(k)) && bits[k].mode
            == Mode::Constant),
{
    let pre = bits.take(k);
    let post = bits.take(k + 1);
    if all_constant(post) {
        assert forall|t: int| 0 <= t < pre.len() implies (#[trigger] pre[t]).mode
            == Mode::Constant by {
            assert(pre[t] == post[t]);
        }
        assert(post[k].mode == Mode::Constant);
    } else if all_constant(pre) && bits[k].mode == Mode::Constant {
        assert forall|t: int| 0 <= t < post.len() implies (#[trigger] post[t]).mode
            == Mode::Constant by {
            if t < k {
                assert(post[t] == pre[t]);
                assert(pre[t].mode == Mode::Constant);
            } else {
                assert(post[t] == bits[k]);
            }
        }
    }
}

/// Extending a prefix by one bit: it holds a private bit exactly when it did
/// or the new bit is private.
pub proof fn lemma_some_private_take_succ(bits: Seq<Bit>, k: int)
    requires
        0 <= k < bits.len(),
    ensures
        some_private(bits.take(k + 1)) == (some_private(bits.take(k)) || bits[k].mode
            == Mode::Private),
{
    let pre = bits.take(k);
    let post = bits.take(k + 1);
    if some_private(post) {
        let t = choose|t: int| 0 <= t < post.len() && (#[trigger] post[t]).mode == Mode::Private;
        if t < k {
            assert(pre[t] == post[t]);
            assert(pre[t].mode == Mode::Private);
        } else {
            assert(post[t] == bits[k]);
        }
    } else {
        if some_private(pre) {
            let t = choose|t: int| 0 <= t < pre.len() && (#[trigger] pre[t]).mode == Mode::Private;
            assert(post[t] == pre[t]);
            assert(post[t].mode == Mode::Private);
        }
        if bits[k].mode == Mode::Private {
            assert(post[k].mode == Mode::Private);
        }
    }
}

/// The same step for a window `bits[lo..i]` growing on the right.
pub proof fn lemma_all_constant_window_succ(bits: Seq<Bit>, lo: int, i: int)
    requires
        0 <= lo <= i < bits.len(),
    ensures
        all_constant(bits.subrange(lo, i + 1)) == (all_constant(bits.subrange(lo, i))
            && bits[i].mode == Mode::Constant),
{
    let pre = bits.subrange(lo, i);
    let post = bits.subrange(lo, i + 1);
    if all_constant(post) {
        assert forall|t: int| 0 <= t < pre.len() implies (#[trigger] pre[t]).mode
            == Mode::Constant by {
            assert(pre[t] == post[t]);
        }
        assert(post[i - lo].mode == Mode::Constant);
        assert(post[i - lo] == bits[i]);
    } else if all_constant(pre) && bits[i].mode == Mode::Constant {
        assert forall|t: int| 0 <= t < post.len() implies (#[trigger] post[t]).mode
            == Mode::Constant by {
            if t < i - lo {
                assert(post[t] == pre[t]);
                assert(pre[t].mode == Mode::Constant);
            } else {
                assert(post[t] == bits[i]);
            }
        }
    }
}

} // verus!
