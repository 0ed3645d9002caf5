//! The constraint system: the column registry, the selectors, and the
//! gates, built once during a configuration phase.
//!
//! Finalization is by ownership: `crate::layout::Layouter::new` consumes
//! the system, so no column, selector, or gate can be added once
//! assignment has begun.

use vstd::prelude::*;

use crate::ir::{wf_expr, Column, ColumnKind, Expression, Selector};

verus! {

/// A named set of polynomial constraints, each of which must evaluate to
/// the field zero at every row where its selector is active.
pub struct Gate {
    pub name: String,
    pub selector: Selector,
    pub constraints: Vec<(String, Expression)>,
}

impl Gate {
    /// Every stored constraint expression is well-formed.
    pub open spec fn wf(self) -> bool {
        forall|i: int|
            0 <= i < self.constraints@.len() ==> wf_expr((#[trigger] self.constraints@[i]).1)
    }
}

/// The column registry, the selectors, and the ordered list of gates.
pub struct ConstraintSystem {
    pub num_advice: usize,
    pub num_fixed: usize,
    pub num_instance: usize,
    pub num_selectors: usize,
    pub equality_enabled: Vec<Column>,
    pub gates: Vec<Gate>,
}

impl ConstraintSystem {
    /// How many columns of one kind have been allocated.
    pub open spec fn kind_count(self, kind: ColumnKind) -> usize {
        match kind {
            ColumnKind::Advice => self.num_advice,
            ColumnKind::Fixed => self.num_fixed,
            ColumnKind::Instance => self.num_instance,
        }
    }

    /// Whether a column handle was allocated by this system.
    pub open spec fn column_allocated(self, c: Column) -> bool {
        c.index < self.kind_count(c.kind)
    }

    /// Whether a column's cells may participate in copy constraints.
    pub open spec fn equality_on(self, c: Column) -> bool {
        self.equality_enabled@.contains(c)
    }

    /// Every gate is well-formed, keyed on an allocated selector, and
    /// every equality-enabled column was allocated.
    pub open spec fn wf(self) -> bool {
        &&& forall|g: int|
            0 <= g < self.gates@.len() ==> (#[trigger] self.gates@[g]).wf()
                && self.gates@[g].selector.index < self.num_selectors
        &&& forall|i: int|
            0 <= i < self.equality_enabled@.len() ==> self.column_allocated(
                #[trigger] self.equality_enabled@[i],
            )
    }

    /// Whether the column handle was allocated by this system.
    pub fn has_column(&self, c: Column) -> (r: bool)
        ensures
            r == self.column_allocated(c),
    {
        let count = match c.kind {
            ColumnKind::Advice => self.num_advice,
            ColumnKind::Fixed => self.num_fixed,
            ColumnKind::Instance => self.num_instance,
        };
        c.index < count
    }

    /// Whether the column was marked eligible for copy constraints.
    pub fn has_equality(&self, c: Column) -> (r: bool)
        ensures
            r == self.equality_on(c),
    {
        let mut i: usize = 0;
        while i < self.equality_enabled.len()
            invariant
                i <= self.equality_enabled@.len(),
                forall|j: int| 0 <= j < i ==> self.equality_enabled@[j] != c,
            decreases self.equality_enabled.len() - i,
        {
            if self.equality_enabled[i] == c {
                return true;
            }
            i = i + 1;
        }
        false
    }

    /// An empty system: no columns, no selectors, no gates.
    pub fn new() -> (r: ConstraintSystem)
        ensures
            r.num_advice == 0,
            r.num_fixed == 0,
            r.num_instance == 0,
            r.num_selectors == 0,
            r.equality_enabled@ == Seq::<Column>::empty(),
            r.gates@ == Seq::<Gate>::empty(),
            r.wf(),
    {
        ConstraintSystem {
            num_advice: 0,
            num_fixed: 0,
            num_instance: 0,
            num_selectors: 0,
            equality_enabled: Vec::new(),
            gates: Vec::new(),
        }
    }

    /// Allocates the next advice (witness) column.
    pub fn advice_column(&mut self) -> (c: Column)
        requires
            old(self).num_advice < usize::MAX,
        ensures
            c == (Column { kind: ColumnKind::Advice, index: old(self).num_advice }),
            *final(self) == (ConstraintSystem { num_advice: (old(self).num_advice + 1) as usize, ..*old(self) }),
            old(self).wf() ==> final(self).wf(),
    {
        let c = Column { kind: ColumnKind::Advice, index: self.num_advice };
        self.num_advice = self.num_advice + 1;
        c
    }

    /// Allocates the next fixed (constant) column.
    pub fn fixed_column(&mut self) -> (c: Column)
        requires
            old(self).num_fixed < usize::MAX,
        ensures
            c == (Column { kind: ColumnKind::Fixed, index: old(self).num_fixed }),
            *final(self) == (ConstraintSystem { num_fixed: (old(self).num_fixed + 1) as usize, ..*old(self) }),
            old(self).wf() ==> final(self).wf(),
    {
        let c = Column { kind: ColumnKind::Fixed, index: self.num_fixed };
        self.num_fixed = self.num_fixed + 1;
        c
    }

    /// Allocates the next instance (public input) column.
    pub fn instance_column(&mut self) -> (c: Column)
        requires
            old(self).num_instance < usize::MAX,
        ensures
            c == (Column { kind: ColumnKind::Instance, index: old(self).num_instance }),
            *final(self) == (ConstraintSystem { num_instance: (old(self).num_instance + 1) as usize, ..*old(self) }),
            old(self).wf() ==> final(self).wf(),
    {
        let c = Column { kind: ColumnKind::Instance, index: self.num_instance };
        self.num_instance = self.num_instance + 1;
        c
    }

    /// Allocates the next selector.
    pub fn selector(&mut self) -> (s: Selector)
        requires
            old(self).num_selectors < usize::MAX,
        ensures
            s == (Selector { index: old(self).num_selectors }),
            *final(self) == (ConstraintSystem { num_selectors: (old(self).num_selectors + 1) as usize, ..*old(self) }),
            old(self).wf() ==> final(self).wf(),
    {
        let s = Selector { index: self.num_selectors };
        self.num_selectors = self.num_selectors + 1;
        s
    }

    /// Marks an allocated column as eligible for copy constraints.
    pub fn enable_equality(&mut self, c: Column)
        requires
            old(self).column_allocated(c),
        ensures
            *final(self) == (ConstraintSystem {
                equality_enabled: final(self).equality_enabled,
                ..*old(self)
            }),
            final(self).equality_enabled@ == old(self).equality_enabled@.push(c),
            final(self).equality_on(c),
            forall|d: Column| old(self).equality_on(d) ==> final(self).equality_on(d),
            old(self).wf() ==> final(self).wf(),
    {
        self.equality_enabled.push(c);
        proof {
            assert(self.equality_enabled@.last() == c);
            assert(forall|d: Column|
                old(self).equality_enabled@.contains(d)
                    ==> self.equality_enabled@.contains(d)) by {
                assert forall|d: Column| old(self).equality_enabled@.contains(d)
                    implies self.equality_enabled@.contains(d) by {
                    let i = choose|i: int|
                        0 <= i < old(self).equality_enabled@.len() && old(
                            self,
                        ).equality_enabled@[i] == d;
                    assert(self.equality_enabled@[i] == d);
                }
            }
        }
    }

    /// Stores a named gate keyed on one selector. The selector must have
    /// been allocated and every constraint expression must be well-formed;
    /// violating either is a configuration-order error on the circuit
    /// author's side, so both are preconditions.
    pub fn create_gate(
        &mut self,
        name: String,
        selector: Selector,
        constraints: Vec<(String, Expression)>,
    )
        requires
            selector.index < old(self).num_selectors,
            forall|i: int|
                0 <= i < constraints@.len() ==> wf_expr((#[trigger] constraints@[i]).1),
        ensures
            *final(self) == (ConstraintSystem { gates: final(self).gates, ..*old(self) }),
            final(self).gates@ == old(self).gates@.push(
                Gate { name, selector, constraints },
            ),
            old(self).wf() ==> final(self).wf(),
    {
        let ghost pre = *self;
        self.gates.push(Gate { name, selector, constraints });
        proof {
            if pre.wf() {
                assert forall|g: int| 0 <= g < self.gates@.len() implies (
                #[trigger] self.gates@[g]).wf() && self.gates@[g].selector.index
                    < self.num_selectors by {
                    if g < pre.gates@.len() {
                        assert(pre.gates@[g].wf());
                    }
                }
            }
        }
    }
}

} // verus!
