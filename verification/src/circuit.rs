//! The constraint substrate: a single-writer resource that counts allocated
//! private variables and constraints, tracks whether every assertion emitted
//! so far is satisfied by the resident witness, and realizes the boolean
//! gates over circuit bits.
//!
//! Cost model: a binary gate between two non-constant bits allocates one
//! private variable and one constraint; a gate with a constant operand is
//! folded away for free. An assertion over a non-constant bit emits one
//! constraint; an assertion over constants is checked eagerly and emits
//! nothing. Either way the assertion's truth is recorded in `satisfied`.

use vstd::prelude::*;

use crate::bits::{Bit, Mode};

verus! {

/// The cost of one binary gate: one private variable and one constraint when
/// both operands are circuit-witnessed, nothing when either is constant.
pub open spec fn gate_cost(a: Bit, b: Bit) -> nat {
    if a.mode != Mode::Constant && b.mode != Mode::Constant {
        1
    } else {
        0
    }
}

/// The cost of asserting one bit: one constraint when the bit is witnessed,
/// nothing when it is a compile-time constant.
pub open spec fn assert_cost(a: Bit) -> nat {
    if a.mode != Mode::Constant {
        1
    } else {
        0
    }
}

/// The constraint-system substrate for one circuit-construction session.
pub struct Circuit {
    /// Number of private variables allocated so far.
    pub private_count: u64,
    /// Number of constraints emitted so far.
    pub constraint_count: u64,
    /// Whether the resident witness satisfies every assertion emitted so far.
    pub satisfied: bool,
}

impl Circuit {
    /// A fresh substrate with nothing allocated and nothing asserted.
    pub fn new() -> (r: Circuit)
        ensures
            r == (Circuit { private_count: 0, constraint_count: 0, satisfied: true }),
    {
        Circuit { private_count: 0, constraint_count: 0, satisfied: true }
    }

    /// The AND gate over two circuit bits.
    pub fn and(&mut self, a: &Bit, b: &Bit) -> (r: Bit)
        requires
            old(self).private_count + gate_cost(*a, *b) <= u64::MAX,
            old(self).constraint_count + gate_cost(*a, *b) <= u64::MAX,
        ensures
            r.value == (a.value && b.value),
            r.mode == a.mode.join_spec(b.mode),
            final(self).private_count == old(self).private_count + gate_cost(*a, *b),
            final(self).constraint_count == old(self).constraint_count + gate_cost(*a, *b),
            final(self).satisfied == old(self).satisfied,
    {
        self.charge_gate(a, b);
        Bit { value: a.value && b.value, mode: a.mode.join(b.mode) }
    }

    /// The OR gate over two circuit bits.
    pub fn or(&mut self, a: &Bit, b: &Bit) -> (r: Bit)
        requires
            old(self).private_count + gate_cost(*a, *b) <= u64::MAX,
            old(self).constraint_count + gate_cost(*a, *b) <= u64::MAX,
        ensures
            r.value == (a.value || b.value),
            r.mode == a.mode.join_spec(b.mode),
            final(self).private_count == old(self).private_count + gate_cost(*a, *b),
            final(self).constraint_count == old(self).constraint_count + gate_cost(*a, *b),
            final(self).satisfied == old(self).satisfied,
    {
        self.charge_gate(a, b);
        Bit { value: a.value || b.value, mode: a.mode.join(b.mode) }
    }

    /// The NAND gate over two circuit bits.
    pub fn nand(&mut self, a: &Bit, b: &Bit) -> (r: Bit)
        requires
            old(self).private_count + gate_cost(*a, *b) <= u64::MAX,
            old(self).constraint_count + gate_cost(*a, *b) <= u64::MAX,
        ensures
            r.value == !(a.value && b.value),
            r.mode == a.mode.join_spec(b.mode),
            final(self).private_count == old(self).private_count + gate_cost(*a, *b),
            final(self).constraint_count == old(self).constraint_count + gate_cost(*a, *b),
            final(self).satisfied == old(self).satisfied,
    {
        self.charge_gate(a, b);
        Bit { value: !(a.value && b.value), mode: a.mode.join(b.mode) }
    }

    /// Requires the given bit to be true: emits a constraint for a witnessed
    /// bit, and records whether the witness meets it.
    pub fn assert_true(&mut self, a: &Bit)
        requires
            old(self).constraint_count + assert_cost(*a) <= u64::MAX,
        ensures
            final(self).private_count == old(self).private_count,
            final(self).constraint_count == old(self).constraint_count + assert_cost(*a),
            final(self).satisfied == (old(self).satisfied && a.value),
    {
        if !a.is_constant() {
            self.constraint_count = self.constraint_count + 1;
        }
        self.satisfied = self.satisfied && a.value;
    }

    /// Requires two bits to agree: emits a constraint unless both are
    /// compile-time constants, and records whether the witness meets it.
    pub fn assert_eq_bit(&mut self, a: &Bit, b: &Bit)
        requires
            old(self).constraint_count + 1 <= u64::MAX,
        ensures
            final(self).private_count == old(self).private_count,
            final(self).constraint_count == old(self).constraint_count + (
                if a.mode == Mode::Constant && b.mode == Mode::Constant {
                    0int
                } else {
                    1int
                }
            ),
            final(self).satisfied == (old(self).satisfied && a.value == b.value),
    {
        if !a.is_constant() || !b.is_constant() {
            self.constraint_count = self.constraint_count + 1;
        }
        self.satisfied = self.satisfied && a.value == b.value;
    }

    /// Charges the cost of one binary gate over the two given operands.
    fn charge_gate(&mut self, a: &Bit, b: &Bit)
        requires
            old(self).private_count + gate_cost(*a, *b) <= u64::MAX,
            old(self).constraint_count + gate_cost(*a, *b) <= u64::MAX,
        ensures
            final(self).private_count == old(self).private_count + gate_cost(*a, *b),
            final(self).constraint_count == old(self).constraint_count + gate_cost(*a, *b),
            final(self).satisfied == old(self).satisfied,
    {
        if !a.is_constant() && !b.is_constant() {
            self.private_count = self.private_count + 1;
            self.constraint_count = self.constraint_count + 1;
        }
    }
}

} // verus!
