//! The sequence-recurrence arithmetization: three advice columns
//! `a, b, c` and one selector `s`, with one gate, `s * (a + b - c)`.
//! Rows are chained with copy constraints so that `b, c` of one region
//! become `a, b` of the next, which checks a linear recurrence — the
//! Fibonacci sequence when the first row holds `1, 1`.

use vstd::prelude::*;

use crate::check::{
    constraint_violations_at, constraints_upto, copy_ok, gates_upto,
    lemma_copies_upto_all_empty, lemma_rows_upto_all_empty, lemma_rows_upto_single,
    row_violations, violations_spec, ViolationV,
};
use crate::field::{fadd, lemma_add_neg, lemma_sub_zero_iff_eq, Fp};
use crate::ir::{advice_cells_spec, eval_spec, Cell, Column, ColumnKind, Expression, Selector, Table};
use crate::layout::{compat, unassigned_from, AssignedCell, Error, Layouter, Region};
use crate::system::ConstraintSystem;

verus! {

broadcast use vstd::string::to_string_from_display_ensures_for_str;

/// The columns and the selector of the recurrence gate.
#[derive(Clone, Copy, Debug, PartialEq, Eq, Structural)]
pub struct FiboConfig {
    pub col_a: Column,
    pub col_b: Column,
    pub col_c: Column,
    pub selector: Selector,
}

/// The polynomial `a + b - c` over the three advice columns at the
/// current row.
pub open spec fn recurrence_expr(a: usize, b: usize, c: usize) -> Expression {
    Expression::Sum(
        Box::new(
            Expression::Sum(
                Box::new(Expression::Advice(a, 0i64)),
                Box::new(Expression::Advice(b, 0i64)),
            ),
        ),
        Box::new(Expression::Negate(Box::new(Expression::Advice(c, 0i64)))),
    )
}

/// The configuration handles are valid against the system: three
/// distinct, allocated, equality-enabled advice columns and an
/// allocated selector.
pub open spec fn config_wf(cs: ConstraintSystem, cfg: FiboConfig) -> bool {
    &&& cfg.col_a.kind == ColumnKind::Advice && cs.column_allocated(cfg.col_a) && cs.equality_on(
        cfg.col_a,
    )
    &&& cfg.col_b.kind == ColumnKind::Advice && cs.column_allocated(cfg.col_b) && cs.equality_on(
        cfg.col_b,
    )
    &&& cfg.col_c.kind == ColumnKind::Advice && cs.column_allocated(cfg.col_c) && cs.equality_on(
        cfg.col_c,
    )
    &&& cfg.col_a != cfg.col_b && cfg.col_a != cfg.col_c && cfg.col_b != cfg.col_c
    &&& cfg.selector.index < cs.num_selectors
}

/// The system holds exactly one gate: the recurrence constraint, keyed
/// on the configuration's selector.
pub open spec fn recurrence_system(cs: ConstraintSystem, cfg: FiboConfig) -> bool {
    &&& config_wf(cs, cfg)
    &&& cs.gates@.len() == 1
    &&& cs.gates@[0].selector == cfg.selector
    &&& cs.gates@[0].name@ == "add"@
    &&& cs.gates@[0].constraints@.len() == 1
    &&& cs.gates@[0].constraints@[0].0@ == "add"@
    &&& cs.gates@[0].constraints@[0].1 == recurrence_expr(
        cfg.col_a.index,
        cfg.col_b.index,
        cfg.col_c.index,
    )
}

/// The three cells of the recurrence row are all assigned.
pub open spec fn recurrence_row_assigned(cfg: FiboConfig, t: Table, r: int) -> bool {
    &&& t.advice@[cfg.col_a.index as int]@[r] is Some
    &&& t.advice@[cfg.col_b.index as int]@[r] is Some
    &&& t.advice@[cfg.col_c.index as int]@[r] is Some
}

/// The recurrence holds at a row: all three cells are assigned and
/// `c = a + b` in the field.
pub open spec fn recurrence_row_ok(cfg: FiboConfig, t: Table, r: int) -> bool {
    recurrence_row_assigned(cfg, t, r) && t.advice@[cfg.col_c.index as int]@[r]->Some_0@ == fadd(
        t.advice@[cfg.col_a.index as int]@[r]->Some_0@,
        t.advice@[cfg.col_b.index as int]@[r]->Some_0@,
    )
}

/// The chip owning the recurrence gate's configuration.
pub struct FiboChip {
    pub config: FiboConfig,
}

impl FiboChip {
    /// Wraps an already-built configuration.
    pub fn construct(config: FiboConfig) -> (r: Self)
        ensures
            r.config == config,
    {
        FiboChip { config }
    }

    /// Allocates the three advice columns and the selector, enables
    /// equality on all three columns, and stores the recurrence gate.
    pub fn configure(cs: &mut ConstraintSystem) -> (cfg: FiboConfig)
        requires
            old(cs).wf(),
            old(cs).num_advice + 3 <= usize::MAX,
            old(cs).num_selectors < usize::MAX,
        ensures
            final(cs).wf(),
            config_wf(*final(cs), cfg),
            cfg.col_a == (Column { kind: ColumnKind::Advice, index: old(cs).num_advice }),
            cfg.col_b == (Column {
                kind: ColumnKind::Advice,
                index: (old(cs).num_advice + 1) as usize,
            }),
            cfg.col_c == (Column {
                kind: ColumnKind::Advice,
                index: (old(cs).num_advice + 2) as usize,
            }),
            cfg.selector == (Selector { index: old(cs).num_selectors }),
            final(cs).num_advice == old(cs).num_advice + 3,
            final(cs).num_fixed == old(cs).num_fixed,
            final(cs).num_instance == old(cs).num_instance,
            final(cs).num_selectors == old(cs).num_selectors + 1,
            final(cs).equality_enabled@ == old(cs).equality_enabled@.push(cfg.col_a).push(
                cfg.col_b,
            ).push(cfg.col_c),
            final(cs).gates@.len() == old(cs).gates@.len() + 1,
            forall|g: int|
                0 <= g < old(cs).gates@.len() ==> final(cs).gates@[g] == old(cs).gates@[g],
            final(cs).gates@.last().selector == cfg.selector,
            final(cs).gates@.last().name@ == "add"@,
            final(cs).gates@.last().constraints@.len() == 1,
            final(cs).gates@.last().constraints@[0].0@ == "add"@,
            final(cs).gates@.last().constraints@[0].1 == recurrence_expr(
                cfg.col_a.index,
                cfg.col_b.index,
                cfg.col_c.index,
            ),
            old(cs).gates@.len() == 0 ==> recurrence_system(*final(cs), cfg),
    {
        let col_a = cs.advice_column();
        let col_b = cs.advice_column();
        let col_c = cs.advice_column();
        let selector = cs.selector();
        cs.enable_equality(col_a);
        cs.enable_equality(col_b);
        cs.enable_equality(col_c);
        let expr = Expression::Sum(
            Box::new(
                Expression::Sum(
                    Box::new(Expression::Advice(col_a.index, 0)),
                    Box::new(Expression::Advice(col_b.index, 0)),
                ),
            ),
            Box::new(Expression::Negate(Box::new(Expression::Advice(col_c.index, 0)))),
        );
        proof {
            reveal_with_fuel(crate::ir::wf_expr, 6);
            assert(crate::ir::wf_expr(expr));
        }
        let mut constraints: Vec<(String, Expression)> = Vec::new();
        let ghost e = expr;
        constraints.push(("add".to_string(), expr));
        proof {
            assert(constraints@[0].1 == e);
            assert(forall|i: int|
                0 <= i < constraints@.len() ==> crate::ir::wf_expr(
                    (#[trigger] constraints@[i]).1,
                ));
        }
        cs.create_gate("add".to_string(), selector, constraints);
        FiboConfig { col_a, col_b, col_c, selector }
    }

    /// Opens the first region: enables the selector, assigns `a` and `b`
    /// from the witness, and assigns `c = a + b`. Succeeds exactly when
    /// both witness values are present and one row is free; a missing
    /// witness aborts this region only, leaving the layouter unchanged.
    pub fn assign_first_row(&self, l: &mut Layouter, a: Option<Fp>, b: Option<Fp>) -> (r: Result<
        (AssignedCell, AssignedCell, AssignedCell),
        Error,
    >)
        requires
            old(l).wf(),
            unassigned_from(*old(l)),
            config_wf(old(l).cs, self.config),
            a matches Some(x) ==> x.inv(),
            b matches Some(x) ==> x.inv(),
        ensures
            final(l).wf(),
            unassigned_from(*final(l)),
            final(l).cs == old(l).cs,
            final(l).table.height == old(l).table.height,
            r is Ok <==> (a is Some && b is Some && old(l).next_row < old(l).table.height),
            r is Err ==> *final(l) == *old(l),
            r matches Err(Error::MissingWitness) <==> (a is None || b is None),
            r matches Ok(cells) ==> ({
                let row = old(l).next_row;
                &&& final(l).next_row == row + 1
                &&& cells.0 == (AssignedCell {
                    cell: Cell { column: self.config.col_a, row },
                    value: a->Some_0,
                })
                &&& cells.1 == (AssignedCell {
                    cell: Cell { column: self.config.col_b, row },
                    value: b->Some_0,
                })
                &&& cells.2.cell == (Cell { column: self.config.col_c, row })
                &&& cells.2.value@ == fadd(a->Some_0@, b->Some_0@)
                &&& cells.2.value.inv()
                &&& final(l).table.cell_value(cells.0.cell) == Some(cells.0.value)
                &&& final(l).table.cell_value(cells.1.cell) == Some(cells.1.value)
                &&& final(l).table.cell_value(cells.2.cell) == Some(cells.2.value)
                &&& final(l).table.sel_on(self.config.selector.index as int, row as int)
                &&& forall|cell: Cell|
                    cell != cells.0.cell && cell != cells.1.cell && cell != cells.2.cell
                        ==> final(l).table.cell_value(cell) == old(l).table.cell_value(cell)
                &&& forall|s: int, rr: int|
                    !(s == self.config.selector.index as int && rr == row as int)
                        ==> final(l).table.sel_on(s, rr) == old(l).table.sel_on(s, rr)
                &&& final(l).table.copies@ == old(l).table.copies@
            }),
    {
        let a_val = match a {
            Some(x) => x,
            None => {
                return Err(Error::MissingWitness);
            },
        };
        let b_val = match b {
            Some(x) => x,
            None => {
                return Err(Error::MissingWitness);
            },
        };
        if l.next_row >= l.table.height {
            return Err(Error::Configuration);
        }
        let row = l.next_row;
        let c_val = a_val.add(b_val);
        let mut region = Region::new("first row".to_string());
        region.enable_selector(self.config.selector, 0);
        region.assign_advice(self.config.col_a, 0, a_val);
        region.assign_advice(self.config.col_b, 0, b_val);
        region.assign_advice(self.config.col_c, 0, c_val);
        let ghost reg = region;
        proof {
            assert(reg.assignments@.len() == 3);
            assert(reg.assignments@[0] == (0usize, self.config.col_a, a_val));
            assert(reg.assignments@[1] == (0usize, self.config.col_b, b_val));
            assert(reg.assignments@[2] == (0usize, self.config.col_c, c_val));
            assert(reg.selectors_on@.len() == 1);
            assert(reg.selectors_on@[0] == (self.config.selector.index, 0usize));
            assert(reg.extent == 1);
            assert(crate::layout::region_structure_ok(l.cs, l.table, row as int, reg));
            assert(crate::layout::region_conflict_free(l.table, row as int, reg)) by {
                assert(l.table.cell_value(Cell { column: self.config.col_a, row }) is None);
                assert(l.table.cell_value(Cell { column: self.config.col_b, row }) is None);
                assert(l.table.cell_value(Cell { column: self.config.col_c, row }) is None);
            }
        }
        match l.commit_region(region) {
            Ok(base) => {
                let ca = AssignedCell { cell: Cell { column: self.config.col_a, row }, value: a_val };
                let cb = AssignedCell { cell: Cell { column: self.config.col_b, row }, value: b_val };
                let cc = AssignedCell { cell: Cell { column: self.config.col_c, row }, value: c_val };
                proof {
                    assert(l.table.cell_value(ca.cell) == Some(a_val));
                    assert(l.table.cell_value(cb.cell) == Some(b_val));
                    assert(l.table.cell_value(cc.cell) == Some(c_val));
                    assert(l.table.sel_on(
                        reg.selectors_on@[0].0 as int,
                        row + reg.selectors_on@[0].1,
                    ));
                    assert forall|cell: Cell|
                        cell != ca.cell && cell != cb.cell && cell != cc.cell implies
                        !crate::layout::region_assigns_cell(
                            reg,
                            row as int,
                            cell.column,
                            cell.row as int,
                        ) by {
                        if crate::layout::region_assigns_cell(
                            reg,
                            row as int,
                            cell.column,
                            cell.row as int,
                        ) {
                            let i = choose|i: int|
                                0 <= i < reg.assignments@.len() && (
                                #[trigger] reg.assignments@[i]).1 == cell.column && row
                                    + reg.assignments@[i].0 == cell.row as int;
                            assert(i == 0 || i == 1 || i == 2);
                        }
                    }
                    assert forall|s: int, rr: int|
                        !(s == self.config.selector.index as int && rr == row as int) implies
                        l.table.sel_on(s, rr) == old(l).table.sel_on(s, rr) by {
                        if crate::layout::region_sets_selector(reg, row as int, s, rr) {
                            let i = choose|i: int|
                                0 <= i < reg.selectors_on@.len() && (
                                #[trigger] reg.selectors_on@[i]).0 == s && row
                                    + reg.selectors_on@[i].1 == rr;
                            assert(i == 0);
                        }
                    }
                    assert(l.table.copies@ =~= old(l).table.copies@);
                    assert(unassigned_from(*l)) by {
                        assert forall|cell: Cell| cell.row >= l.next_row implies l.table.cell_value(
                            cell,
                        ) is None by {
                            assert(cell != ca.cell && cell != cb.cell && cell != cc.cell);
                        }
                        assert forall|s: int, rr: int| rr >= l.next_row implies !l.table.sel_on(
                            s,
                            rr,
                        ) by {
                            if crate::layout::region_sets_selector(reg, row as int, s, rr) {
                                let i = choose|i: int|
                                    0 <= i < reg.selectors_on@.len() && (
                                    #[trigger] reg.selectors_on@[i]).0 == s && row
                                        + reg.selectors_on@[i].1 == rr;
                                assert(i == 0);
                            }
                        }
                    }
                }
                Ok((ca, cb, cc))
            },
            Err(e) => {
                proof {
                    assert(false);
                }
                Err(e)
            },
        }
    }

    /// Opens a chaining region: copies the previous row's `b` and `c`
    /// cells into this row's `a` and `b` (recording the two equality
    /// links), and assigns `c` as their sum. Succeeds exactly when one
    /// row is free.
    pub fn assign_row(&self, l: &mut Layouter, prev_b: &AssignedCell, prev_c: &AssignedCell) -> (r:
        Result<AssignedCell, Error>)
        requires
            old(l).wf(),
            unassigned_from(*old(l)),
            config_wf(old(l).cs, self.config),
            old(l).cs.equality_on(prev_b.cell.column),
            old(l).cs.equality_on(prev_c.cell.column),
            prev_b.cell.row < old(l).table.height,
            prev_c.cell.row < old(l).table.height,
            prev_b.value.inv(),
            prev_c.value.inv(),
        ensures
            final(l).wf(),
            unassigned_from(*final(l)),
            final(l).cs == old(l).cs,
            final(l).table.height == old(l).table.height,
            r is Ok <==> old(l).next_row < old(l).table.height,
            r is Err ==> *final(l) == *old(l) && r == Err::<AssignedCell, Error>(
                Error::Configuration,
            ),
            r matches Ok(cc) ==> ({
                let row = old(l).next_row;
                &&& final(l).next_row == row + 1
                &&& cc.cell == (Cell { column: self.config.col_c, row })
                &&& cc.value@ == fadd(prev_b.value@, prev_c.value@)
                &&& cc.value.inv()
                &&& final(l).table.cell_value(Cell { column: self.config.col_a, row }) == Some(
                    prev_b.value,
                )
                &&& final(l).table.cell_value(Cell { column: self.config.col_b, row }) == Some(
                    prev_c.value,
                )
                &&& final(l).table.cell_value(cc.cell) == Some(cc.value)
                &&& final(l).table.sel_on(self.config.selector.index as int, row as int)
                &&& forall|cell: Cell|
                    cell != (Cell { column: self.config.col_a, row }) && cell != (Cell {
                        column: self.config.col_b,
                        row,
                    }) && cell != (Cell { column: self.config.col_c, row })
                        ==> final(l).table.cell_value(cell) == old(l).table.cell_value(cell)
                &&& forall|s: int, rr: int|
                    !(s == self.config.selector.index as int && rr == row as int)
                        ==> final(l).table.sel_on(s, rr) == old(l).table.sel_on(s, rr)
                &&& final(l).table.copies@ == old(l).table.copies@ + seq![
                    (prev_b.cell, Cell { column: self.config.col_a, row }),
                    (prev_c.cell, Cell { column: self.config.col_b, row }),
                ]
            }),
    {
        if l.next_row >= l.table.height {
            return Err(Error::Configuration);
        }
        let row = l.next_row;
        let c_val = prev_b.value.add(prev_c.value);
        let mut region = Region::new("next row".to_string());
        region.enable_selector(self.config.selector, 0);
        region.copy_advice(prev_b, self.config.col_a, 0);
        region.copy_advice(prev_c, self.config.col_b, 0);
        region.assign_advice(self.config.col_c, 0, c_val);
        let ghost reg = region;
        proof {
            assert(reg.assignments@.len() == 3);
            assert(reg.assignments@[0] == (0usize, self.config.col_a, prev_b.value));
            assert(reg.assignments@[1] == (0usize, self.config.col_b, prev_c.value));
            assert(reg.assignments@[2] == (0usize, self.config.col_c, c_val));
            assert(reg.selectors_on@.len() == 1);
            assert(reg.selectors_on@[0] == (self.config.selector.index, 0usize));
            assert(reg.copies@.len() == 2);
            assert(reg.copies@[0] == (prev_b.cell, (self.config.col_a, 0usize)));
            assert(reg.copies@[1] == (prev_c.cell, (self.config.col_b, 0usize)));
            assert(reg.extent == 1);
            assert(l.cs.column_allocated(prev_b.cell.column)) by {
                let j = choose|j: int|
                    0 <= j < l.cs.equality_enabled@.len() && l.cs.equality_enabled@[j]
                        == prev_b.cell.column;
                assert(l.cs.column_allocated(l.cs.equality_enabled@[j]));
            }
            assert(l.cs.column_allocated(prev_c.cell.column)) by {
                let j = choose|j: int|
                    0 <= j < l.cs.equality_enabled@.len() && l.cs.equality_enabled@[j]
                        == prev_c.cell.column;
                assert(l.cs.column_allocated(l.cs.equality_enabled@[j]));
            }
            assert(crate::layout::region_structure_ok(l.cs, l.table, row as int, reg));
            assert(crate::layout::region_conflict_free(l.table, row as int, reg)) by {
                assert(l.table.cell_value(Cell { column: self.config.col_a, row }) is None);
                assert(l.table.cell_value(Cell { column: self.config.col_b, row }) is None);
                assert(l.table.cell_value(Cell { column: self.config.col_c, row }) is None);
            }
        }
        match l.commit_region(region) {
            Ok(_base) => {
                let cc = AssignedCell { cell: Cell { column: self.config.col_c, row }, value: c_val };
                proof {
                    let ca_cell = Cell { column: self.config.col_a, row };
                    let cb_cell = Cell { column: self.config.col_b, row };
                    assert(l.table.cell_value(ca_cell) == Some(prev_b.value));
                    assert(l.table.cell_value(cb_cell) == Some(prev_c.value));
                    assert(l.table.cell_value(cc.cell) == Some(c_val));
                    assert(l.table.sel_on(
                        reg.selectors_on@[0].0 as int,
                        row + reg.selectors_on@[0].1,
                    ));
                    assert forall|cell: Cell|
                        cell != ca_cell && cell != cb_cell && cell != cc.cell implies
                        !crate::layout::region_assigns_cell(
                            reg,
                            row as int,
                            cell.column,
                            cell.row as int,
                        ) by {
                        if crate::layout::region_assigns_cell(
                            reg,
                            row as int,
                            cell.column,
                            cell.row as int,
                        ) {
                            let i = choose|i: int|
                                0 <= i < reg.assignments@.len() && (
                                #[trigger] reg.assignments@[i]).1 == cell.column && row
                                    + reg.assignments@[i].0 == cell.row as int;
                            assert(i == 0 || i == 1 || i == 2);
                        }
                    }
                    assert forall|s: int, rr: int|
                        !(s == self.config.selector.index as int && rr == row as int) implies
                        l.table.sel_on(s, rr) == old(l).table.sel_on(s, rr) by {
                        if crate::layout::region_sets_selector(reg, row as int, s, rr) {
                            let i = choose|i: int|
                                0 <= i < reg.selectors_on@.len() && (
                                #[trigger] reg.selectors_on@[i]).0 == s && row
                                    + reg.selectors_on@[i].1 == rr;
                            assert(i == 0);
                        }
                    }
                    assert(l.table.copies@ =~= old(l).table.copies@ + seq![
                        (prev_b.cell, ca_cell),
                        (prev_c.cell, cb_cell),
                    ]) by {
                        assert(crate::layout::copies_abs(reg.copies@, row as int) =~= seq![
                            (prev_b.cell, ca_cell),
                            (prev_c.cell, cb_cell),
                        ]);
                    }
                    assert(unassigned_from(*l)) by {
                        assert forall|cell: Cell| cell.row >= l.next_row implies l.table.cell_value(
                            cell,
                        ) is None by {
                            assert(cell != ca_cell && cell != cb_cell && cell != cc.cell);
                        }
                        assert forall|s: int, rr: int| rr >= l.next_row implies !l.table.sel_on(
                            s,
                            rr,
                        ) by {
                            if crate::layout::region_sets_selector(reg, row as int, s, rr) {
                                let i = choose|i: int|
                                    0 <= i < reg.selectors_on@.len() && (
                                    #[trigger] reg.selectors_on@[i]).0 == s && row
                                        + reg.selectors_on@[i].1 == rr;
                                assert(i == 0);
                            }
                        }
                    }
                }
                Ok(cc)
            },
            Err(e) => {
                proof {
                    assert(false);
                }
                Err(e)
            },
        }
    }
}

/// The configuration that `FiboChip::configure` hands back on a fresh
/// system: the first three advice columns and the first selector.
pub open spec fn fresh_recurrence_config() -> FiboConfig {
    FiboConfig {
        col_a: Column { kind: ColumnKind::Advice, index: 0 },
        col_b: Column { kind: ColumnKind::Advice, index: 1 },
        col_c: Column { kind: ColumnKind::Advice, index: 2 },
        selector: Selector { index: 0 },
    }
}

/// The recurrence chain seeded `a, b`: each later value is the field
/// sum of the two before it. Seeded `1, 1` these are the Fibonacci
/// numbers — 1, 1, 2, 3, 5, 8, 13, 21, 34, 55, ...
pub open spec fn chain_value(a: nat, b: nat, i: nat) -> nat
    decreases i,
{
    if i == 0 {
        a
    } else if i == 1 {
        b
    } else {
        fadd(chain_value(a, b, (i - 2) as nat), chain_value(a, b, (i - 1) as nat))
    }
}

/// The cell at the given column and row holds exactly this canonical
/// value.
pub open spec fn cell_holds(t: Table, col: Column, row: int, v: nat) -> bool {
    t.cell_value(Cell { column: col, row: row as usize }) matches Some(f) && f@ == v
}

/// Constrained row `j` of a chain placed at `base` and seeded `av, bv`
/// is fully populated: its selector bit is set and its three cells hold
/// the chain values `j`, `j + 1`, `j + 2`.
pub open spec fn chain_row_holds(
    t: Table,
    cfg: FiboConfig,
    base: int,
    av: nat,
    bv: nat,
    j: int,
) -> bool {
    &&& t.sel_on(cfg.selector.index as int, base + j)
    &&& cell_holds(t, cfg.col_a, base + j, chain_value(av, bv, j as nat))
    &&& cell_holds(t, cfg.col_b, base + j, chain_value(av, bv, (j + 1) as nat))
    &&& cell_holds(t, cfg.col_c, base + j, chain_value(av, bv, (j + 2) as nat))
}

/// Where chained row `n` (`n >= 1`, counted from the first-row region at
/// `base`) copies its `a` cell from: the first row's `b` cell, and
/// afterwards the `c` cell two rows back.
pub open spec fn chain_src_a(cfg: FiboConfig, base: int, n: int) -> Cell {
    if n == 1 {
        Cell { column: cfg.col_b, row: base as usize }
    } else {
        Cell { column: cfg.col_c, row: (base + n - 2) as usize }
    }
}

/// Where chained row `n` copies its `b` cell from: the `c` cell one row
/// back.
pub open spec fn chain_src_b(cfg: FiboConfig, base: int, n: int) -> Cell {
    Cell { column: cfg.col_c, row: (base + n - 1) as usize }
}

/// The equality links registered by the first `n` chained rows, in
/// commit order: each row's `a` and `b` cells are linked to the cells
/// they were copied from.
pub open spec fn chain_links(cfg: FiboConfig, base: int, n: int) -> Seq<(Cell, Cell)>
    decreases n,
{
    if n <= 0 {
        Seq::empty()
    } else {
        chain_links(cfg, base, n - 1) + seq![
            (chain_src_a(cfg, base, n), Cell { column: cfg.col_a, row: (base + n) as usize }),
            (chain_src_b(cfg, base, n), Cell { column: cfg.col_b, row: (base + n) as usize }),
        ]
    }
}

/// The circuit: two optional witness inputs that seed the recurrence.
pub struct MyCircuit {
    pub a: Option<Fp>,
    pub b: Option<Fp>,
}

impl Default for MyCircuit {
    /// The circuit with no witness values.
    fn default() -> (r: Self)
        ensures
            r.a is None,
            r.b is None,
    {
        MyCircuit { a: None, b: None }
    }
}

impl MyCircuit {
    /// The same circuit shape with the witness values dropped.
    pub fn without_witnesses(&self) -> (r: Self)
        ensures
            r.a is None,
            r.b is None,
    {
        MyCircuit::default()
    }

    /// Declares the recurrence gate's columns and selector.
    pub fn configure(cs: &mut ConstraintSystem) -> (cfg: FiboConfig)
        requires
            old(cs).wf(),
            old(cs).num_advice + 3 <= usize::MAX,
            old(cs).num_selectors < usize::MAX,
        ensures
            final(cs).wf(),
            config_wf(*final(cs), cfg),
            cfg.col_a == (Column { kind: ColumnKind::Advice, index: old(cs).num_advice }),
            cfg.col_b == (Column {
                kind: ColumnKind::Advice,
                index: (old(cs).num_advice + 1) as usize,
            }),
            cfg.col_c == (Column {
                kind: ColumnKind::Advice,
                index: (old(cs).num_advice + 2) as usize,
            }),
            cfg.selector == (Selector { index: old(cs).num_selectors }),
            final(cs).num_advice == old(cs).num_advice + 3,
            final(cs).num_fixed == old(cs).num_fixed,
            final(cs).num_instance == old(cs).num_instance,
            final(cs).num_selectors == old(cs).num_selectors + 1,
            final(cs).equality_enabled@ == old(cs).equality_enabled@.push(cfg.col_a).push(
                cfg.col_b,
            ).push(cfg.col_c),
            final(cs).gates@.len() == old(cs).gates@.len() + 1,
            forall|g: int|
                0 <= g < old(cs).gates@.len() ==> final(cs).gates@[g] == old(cs).gates@[g],
            final(cs).gates@.last().selector == cfg.selector,
            final(cs).gates@.last().name@ == "add"@,
            final(cs).gates@.last().constraints@.len() == 1,
            final(cs).gates@.last().constraints@[0].0@ == "add"@,
            final(cs).gates@.last().constraints@[0].1 == recurrence_expr(
                cfg.col_a.index,
                cfg.col_b.index,
                cfg.col_c.index,
            ),
            old(cs).gates@.len() == 0 ==> recurrence_system(*final(cs), cfg),
            old(cs).num_advice == 0 && old(cs).num_selectors == 0 ==> cfg
                == fresh_recurrence_config(),
    {
        FiboChip::configure(cs)
    }

    /// Replays the assignment logic: one first-row region, then seven
    /// chained regions, ten constrained rows in all. Succeeds exactly
    /// when both witness values are present and eight rows are free.
    pub fn synthesize(&self, config: FiboConfig, l: &mut Layouter) -> (r: Result<(), Error>)
        requires
            old(l).wf(),
            unassigned_from(*old(l)),
            config_wf(old(l).cs, config),
            self.a matches Some(x) ==> x.inv(),
            self.b matches Some(x) ==> x.inv(),
        ensures
            final(l).wf(),
            unassigned_from(*final(l)),
            final(l).cs == old(l).cs,
            final(l).table.height == old(l).table.height,
            r is Ok <==> (self.a is Some && self.b is Some && old(l).next_row + 8 <= old(
                l,
            ).table.height),
            r matches Err(Error::MissingWitness) <==> (self.a is None || self.b is None),
            r matches Err(Error::MissingWitness) ==> *final(l) == *old(l),
            r is Ok ==> final(l).next_row == old(l).next_row + 8,
            r is Ok ==> ({
                let base = old(l).next_row as int;
                let av = self.a->Some_0@;
                let bv = self.b->Some_0@;
                &&& forall|j: int|
                    0 <= j < 8 ==> chain_row_holds(final(l).table, config, base, av, bv, j)
                &&& final(l).table.copies@ == old(l).table.copies@ + chain_links(config, base, 7)
            }),
            (r is Ok && old(l).next_row == 0 && old(l).table.copies@ == Seq::<(
                Cell,
                Cell,
            )>::empty()) ==> ({
                &&& forall|row: int|
                    0 <= row < final(l).table.height && final(l).table.sel_on(
                        config.selector.index as int,
                        row,
                    ) ==> recurrence_row_ok(config, final(l).table, row)
                &&& forall|i: int|
                    0 <= i < final(l).table.copies@.len() ==> copy_ok(final(l).table, i)
            }),
    {
        let ghost next0 = old(l).next_row as int;
        let ghost av = self.a->Some_0@;
        let ghost bv = self.b->Some_0@;
        let ghost clean = old(l).next_row == 0 && old(l).table.copies@ == Seq::<(
            Cell,
            Cell,
        )>::empty();
        let chip = FiboChip::construct(config);
        let cells = match chip.assign_first_row(l, self.a, self.b) {
            Ok(cells) => cells,
            Err(e) => {
                return Err(e);
            },
        };
        let mut prev_b = cells.1;
        let mut prev_c = cells.2;
        proof {
            reveal_with_fuel(chain_value, 3);
            assert(chain_row_holds(l.table, config, next0, av, bv, 0)) by {
                assert(cell_holds(l.table, config.col_a, next0, chain_value(av, bv, 0)));
                assert(cell_holds(l.table, config.col_b, next0, chain_value(av, bv, 1)));
                assert(cell_holds(l.table, config.col_c, next0, chain_value(av, bv, 2)));
                assert(l.table.sel_on(config.selector.index as int, next0));
            }
            assert(l.table.copies@ =~= old(l).table.copies@ + chain_links(config, next0, 0));
            if clean {
                assert(l.table.copies@ =~= Seq::<(Cell, Cell)>::empty());
                assert(recurrence_row_ok(config, l.table, next0));
                assert forall|row: int|
                    0 <= row < l.table.height && l.table.sel_on(
                        config.selector.index as int,
                        row,
                    ) implies recurrence_row_ok(config, l.table, row) by {
                    if row != next0 {
                        assert(l.table.sel_on(config.selector.index as int, row) == old(
                            l,
                        ).table.sel_on(config.selector.index as int, row));
                        assert(!old(l).table.sel_on(config.selector.index as int, row));
                    }
                }
            }
        }
        let mut i: usize = 3;
        while i < 10
            invariant
                l.wf(),
                unassigned_from(*l),
                l.cs == old(l).cs,
                l.table.height == old(l).table.height,
                config_wf(l.cs, config),
                chip.config == config,
                self.a is Some,
                self.b is Some,
                next0 == old(l).next_row,
                3 <= i <= 10,
                l.next_row == next0 + 1 + (i - 3),
                l.next_row <= l.table.height,
                l.cs.equality_on(prev_b.cell.column),
                l.cs.equality_on(prev_c.cell.column),
                prev_b.cell.row < l.table.height,
                prev_c.cell.row < l.table.height,
                prev_b.value.inv(),
                prev_c.value.inv(),
                av == self.a->Some_0@,
                bv == self.b->Some_0@,
                prev_b.cell == chain_src_a(config, next0, i - 2),
                prev_c.cell == chain_src_b(config, next0, i - 2),
                prev_b.value@ == chain_value(av, bv, (i - 2) as nat),
                prev_c.value@ == chain_value(av, bv, (i - 1) as nat),
                forall|j: int|
                    0 <= j < i - 2 ==> chain_row_holds(l.table, config, next0, av, bv, j),
                l.table.copies@ == old(l).table.copies@ + chain_links(config, next0, i - 3),
                clean == (old(l).next_row == 0 && old(l).table.copies@ == Seq::<(
                    Cell,
                    Cell,
                )>::empty()),
                clean ==> prev_b.cell.row < l.next_row,
                clean ==> prev_c.cell.row < l.next_row,
                clean ==> l.table.cell_value(prev_b.cell) == Some(prev_b.value),
                clean ==> l.table.cell_value(prev_c.cell) == Some(prev_c.value),
                clean ==> forall|row: int|
                    0 <= row < l.table.height && l.table.sel_on(config.selector.index as int, row)
                        ==> recurrence_row_ok(config, l.table, row),
                clean ==> forall|i2: int|
                    0 <= i2 < l.table.copies@.len() ==> copy_ok(l.table, i2)
                        && l.table.copies@[i2].0.row < l.next_row && l.table.copies@[i2].1.row
                        < l.next_row,
            decreases 10 - i,
        {
            let ghost lpre = *l;
            match chip.assign_row(l, &prev_b, &prev_c) {
                Ok(c) => {
                    proof {
                        reveal_with_fuel(chain_value, 2);
                        let n = i - 2;
                        assert(lpre.next_row as int == next0 + n);
                        assert(chain_row_holds(l.table, config, next0, av, bv, n as int)) by {
                            assert(l.table.cell_value(Cell { column: config.col_a, row: lpre.next_row }) == Some(prev_b.value));
                            assert(l.table.cell_value(Cell { column: config.col_b, row: lpre.next_row }) == Some(prev_c.value));
                            assert(l.table.cell_value(c.cell) == Some(c.value));
                            assert(c.value@ == fadd(prev_b.value@, prev_c.value@));
                            assert(chain_value(av, bv, (n + 2) as nat) == fadd(
                                chain_value(av, bv, n as nat),
                                chain_value(av, bv, (n + 1) as nat),
                            ));
                        }
                        assert forall|j: int| 0 <= j < n implies chain_row_holds(
                            l.table,
                            config,
                            next0,
                            av,
                            bv,
                            j,
                        ) by {
                            assert(chain_row_holds(lpre.table, config, next0, av, bv, j));
                            let ca = Cell { column: config.col_a, row: (next0 + j) as usize };
                            let cb = Cell { column: config.col_b, row: (next0 + j) as usize };
                            let cc2 = Cell { column: config.col_c, row: (next0 + j) as usize };
                            assert(l.table.cell_value(ca) == lpre.table.cell_value(ca));
                            assert(l.table.cell_value(cb) == lpre.table.cell_value(cb));
                            assert(l.table.cell_value(cc2) == lpre.table.cell_value(cc2));
                            assert(l.table.sel_on(config.selector.index as int, next0 + j)
                                == lpre.table.sel_on(config.selector.index as int, next0 + j));
                        }
                        assert(l.table.copies@ =~= old(l).table.copies@ + chain_links(
                            config,
                            next0,
                            n as int,
                        )) by {
                            assert(l.table.copies@ == lpre.table.copies@ + seq![
                                (prev_b.cell, Cell { column: config.col_a, row: lpre.next_row }),
                                (prev_c.cell, Cell { column: config.col_b, row: lpre.next_row }),
                            ]);
                            assert(prev_b.cell == chain_src_a(config, next0, n as int));
                            assert(prev_c.cell == chain_src_b(config, next0, n as int));
                        }
                        assert(c.cell == chain_src_b(config, next0, n as int + 1));
                        assert(prev_c.cell == chain_src_a(config, next0, n as int + 1));
                        if clean {
                            let cur = lpre.next_row as int;
                            let sel = config.selector.index as int;
                            assert(recurrence_row_ok(config, l.table, cur));
                            assert forall|row: int|
                                0 <= row < l.table.height && l.table.sel_on(sel, row) implies
                                recurrence_row_ok(config, l.table, row) by {
                                if row != cur {
                                    assert(l.table.sel_on(sel, row) == lpre.table.sel_on(
                                        sel,
                                        row,
                                    ));
                                    assert(recurrence_row_ok(config, lpre.table, row));
                                    let ca = Cell { column: config.col_a, row: row as usize };
                                    let cb = Cell { column: config.col_b, row: row as usize };
                                    let cc2 = Cell { column: config.col_c, row: row as usize };
                                    assert(l.table.cell_value(ca) == lpre.table.cell_value(ca));
                                    assert(l.table.cell_value(cb) == lpre.table.cell_value(cb));
                                    assert(l.table.cell_value(cc2) == lpre.table.cell_value(cc2));
                                }
                            }
                            assert forall|i2: int|
                                0 <= i2 < l.table.copies@.len() implies copy_ok(l.table, i2)
                                && l.table.copies@[i2].0.row < l.next_row
                                && l.table.copies@[i2].1.row < l.next_row by {
                                if i2 < lpre.table.copies@.len() {
                                    assert(l.table.copies@[i2] == lpre.table.copies@[i2]);
                                    assert(copy_ok(lpre.table, i2));
                                    let pa = lpre.table.copies@[i2].0;
                                    let pb = lpre.table.copies@[i2].1;
                                    assert(l.table.cell_value(pa) == lpre.table.cell_value(pa));
                                    assert(l.table.cell_value(pb) == lpre.table.cell_value(pb));
                                } else {
                                    assert(l.table.cell_value(prev_b.cell) == lpre.table.cell_value(
                                        prev_b.cell,
                                    ));
                                    assert(l.table.cell_value(prev_c.cell) == lpre.table.cell_value(
                                        prev_c.cell,
                                    ));
                                    assert(l.table.copies@[i2] == seq![
                                        (
                                            prev_b.cell,
                                            Cell { column: config.col_a, row: lpre.next_row },
                                        ),
                                        (
                                            prev_c.cell,
                                            Cell { column: config.col_b, row: lpre.next_row },
                                        ),
                                    ][i2 - lpre.table.copies@.len()]);
                                }
                            }
                            assert(l.table.cell_value(prev_c.cell) == Some(prev_c.value));
                            assert(l.table.cell_value(c.cell) == Some(c.value));
                        }
                    }
                    prev_b = prev_c;
                    prev_c = c;
                },
                Err(e) => {
                    proof {
                        assert(l.next_row >= l.table.height);
                        assert(i <= 9);
                        assert(next0 + 8 > old(l).table.height as int);
                    }
                    return Err(e);
                },
            }
            i = i + 1;
        }
        Ok(())
    }
}

/// Builds the recurrence circuit seeded with `1, 1`, synthesizes it into
/// a table of `2^k` rows, and hands back the finalized system and the
/// assignment artifact, ready for the satisfiability checker.
pub fn fibonacci_simple(k: u32) -> (r: Result<(ConstraintSystem, Table), Error>)
    requires
        k < 28,
    ensures
        r is Ok <==> (1usize << (k as usize)) >= 8,
        r matches Ok(p) ==> ({
            &&& p.0.wf()
            &&& p.1.wf()
            &&& compat(p.0, p.1)
            &&& p.1.height == (1usize << (k as usize))
            &&& recurrence_system(p.0, fresh_recurrence_config())
            &&& forall|j: int|
                0 <= j < 8 ==> chain_row_holds(p.1, fresh_recurrence_config(), 0, 1, 1, j)
            &&& forall|s: int, rr: int| p.1.sel_on(s, rr) ==> (s == 0 && 0 <= rr < 8)
            &&& p.1.copies@ == chain_links(fresh_recurrence_config(), 0, 7)
            &&& forall|cell: Cell|
                p.1.cell_value(cell) is Some ==> (cell.column.kind == ColumnKind::Advice
                    && cell.column.index < 3 && cell.row < 8)
            &&& violations_spec(p.0, p.1) == Seq::<ViolationV>::empty()
        }),
{
    let kk: usize = k as usize;
    proof {
        assert(kk < 28usize ==> (1usize << kk) <= 0x10000000usize) by (bit_vector);
    }
    let height: usize = 1usize << kk;
    let mut cs = ConstraintSystem::new();
    let config = MyCircuit::configure(&mut cs);
    let circuit = MyCircuit { a: Some(Fp::new(1)), b: Some(Fp::new(1)) };
    let mut layouter = Layouter::new(cs, height);
    match circuit.synthesize(config, &mut layouter) {
        Ok(()) => {
            proof {
                lemma_recurrence_satisfied(layouter.cs, config, layouter.table);
                assert(config == fresh_recurrence_config());
                assert(circuit.a->Some_0@ == 1 && circuit.b->Some_0@ == 1);
                assert forall|j: int| 0 <= j < 8 implies chain_row_holds(
                    layouter.table,
                    fresh_recurrence_config(),
                    0,
                    1,
                    1,
                    j,
                ) by {
                    assert(chain_row_holds(
                        layouter.table,
                        config,
                        0,
                        circuit.a->Some_0@,
                        circuit.b->Some_0@,
                        j,
                    ));
                }
                assert(layouter.table.copies@ =~= chain_links(fresh_recurrence_config(), 0, 7));
                assert forall|s: int, rr: int| layouter.table.sel_on(s, rr) implies (s == 0 && 0
                    <= rr < 8) by {
                    if rr >= 8 {
                        assert(!layouter.table.sel_on(s, rr));
                    }
                }
                assert forall|cell: Cell| layouter.table.cell_value(cell) is Some implies (
                cell.column.kind == ColumnKind::Advice && cell.column.index < 3 && cell.row
                    < 8) by {
                    if cell.row >= 8 {
                        assert(layouter.table.cell_value(cell) is None);
                    }
                }
            }
            Ok(layouter.finish())
        },
        Err(e) => Err(e),
    }
}

/// What the recurrence constraint evaluates to at an assigned row:
/// `(a + b) - c`.
proof fn lemma_recurrence_eval(cs: ConstraintSystem, cfg: FiboConfig, t: Table, r: int)
    requires
        recurrence_system(cs, cfg),
        t.wf(),
        compat(cs, t),
        0 <= r < t.height,
        recurrence_row_assigned(cfg, t, r),
    ensures
        eval_spec(recurrence_expr(cfg.col_a.index, cfg.col_b.index, cfg.col_c.index), t, r)
            == Ok::<nat, crate::ir::EvalError>(
            fadd(
                fadd(
                    t.advice@[cfg.col_a.index as int]@[r]->Some_0@,
                    t.advice@[cfg.col_b.index as int]@[r]->Some_0@,
                ),
                crate::field::fneg(t.advice@[cfg.col_c.index as int]@[r]->Some_0@),
            ),
        ),
{
    reveal_with_fuel(eval_spec, 6);
    assert(t.advice@[cfg.col_a.index as int]@.len() == t.height);
    assert(t.advice@[cfg.col_b.index as int]@.len() == t.height);
    assert(t.advice@[cfg.col_c.index as int]@.len() == t.height);
}

/// At an assigned, selector-active row, the recurrence gate contributes nothing
/// exactly when the recurrence holds, and exactly the one addressed
/// violation otherwise.
proof fn lemma_recurrence_gate_at(cs: ConstraintSystem, cfg: FiboConfig, t: Table, r: int)
    requires
        recurrence_system(cs, cfg),
        t.wf(),
        compat(cs, t),
        0 <= r < t.height,
        t.sel_on(cfg.selector.index as int, r),
        recurrence_row_assigned(cfg, t, r),
    ensures
        recurrence_row_ok(cfg, t, r) ==> row_violations(cs, t, r) == Seq::<ViolationV>::empty(),
        !recurrence_row_ok(cfg, t, r) ==> row_violations(cs, t, r) == seq![
            ViolationV::ConstraintNotSatisfied {
                gate: 0,
                constraint: 0,
                row: r,
                cell_values: advice_cells_spec(
                    recurrence_expr(cfg.col_a.index, cfg.col_b.index, cfg.col_c.index),
                    t,
                    r,
                ),
            },
        ],
{
    reveal_with_fuel(constraints_upto, 3);
    reveal_with_fuel(gates_upto, 3);
    let va = t.advice@[cfg.col_a.index as int]@[r]->Some_0@;
    let vb = t.advice@[cfg.col_b.index as int]@[r]->Some_0@;
    let vc = t.advice@[cfg.col_c.index as int]@[r]->Some_0@;
    lemma_recurrence_eval(cs, cfg, t, r);
    assert(t.advice@[cfg.col_a.index as int]@[r]->Some_0.inv());
    assert(t.advice@[cfg.col_b.index as int]@[r]->Some_0.inv());
    assert(t.advice@[cfg.col_c.index as int]@[r]->Some_0.inv());
    lemma_sub_zero_iff_eq(fadd(va, vb), vc);
    if recurrence_row_ok(cfg, t, r) {
        lemma_add_neg(fadd(va, vb));
        assert(constraint_violations_at(cs, t, 0, 0, r) =~= Seq::<ViolationV>::empty());
        assert(constraints_upto(cs, t, 0, r, 1) =~= Seq::<ViolationV>::empty());
        assert(row_violations(cs, t, r) =~= Seq::<ViolationV>::empty());
    } else {
        assert(crate::field::fsub(fadd(va, vb), vc) != 0);
        assert(constraints_upto(cs, t, 0, r, 1) =~= constraint_violations_at(cs, t, 0, 0, r));
        assert(row_violations(cs, t, r) =~= constraint_violations_at(cs, t, 0, 0, r));
    }
}

/// An inactive row contributes nothing.
proof fn lemma_recurrence_row_off(cs: ConstraintSystem, cfg: FiboConfig, t: Table, r: int)
    requires
        recurrence_system(cs, cfg),
        !t.sel_on(cfg.selector.index as int, r),
    ensures
        row_violations(cs, t, r) == Seq::<ViolationV>::empty(),
{
    reveal_with_fuel(gates_upto, 3);
    assert(row_violations(cs, t, r) =~= Seq::<ViolationV>::empty());
}

/// Every assignment that satisfies the recurrence at all selector-active
/// rows and keeps every copy link clean is accepted: the checker reports
/// no violations.
pub proof fn lemma_recurrence_satisfied(cs: ConstraintSystem, cfg: FiboConfig, t: Table)
    requires
        recurrence_system(cs, cfg),
        t.wf(),
        compat(cs, t),
        forall|r: int|
            0 <= r < t.height && t.sel_on(cfg.selector.index as int, r) ==> recurrence_row_ok(
                cfg,
                t,
                r,
            ),
        forall|i: int| 0 <= i < t.copies@.len() ==> copy_ok(t, i),
    ensures
        violations_spec(cs, t) == Seq::<ViolationV>::empty(),
{
    assert forall|r: int| 0 <= r < t.height as int implies row_violations(cs, t, r) == Seq::<
        ViolationV,
    >::empty() by {
        if t.sel_on(cfg.selector.index as int, r) {
            assert(recurrence_row_ok(cfg, t, r));
            lemma_recurrence_gate_at(cs, cfg, t, r);
        } else {
            lemma_recurrence_row_off(cs, cfg, t, r);
        }
    }
    lemma_rows_upto_all_empty(cs, t, t.height as int);
    lemma_copies_upto_all_empty(t, t.copies@.len() as int);
    assert(violations_spec(cs, t) =~= Seq::<ViolationV>::empty());
}

/// An assignment that breaks the recurrence at exactly one
/// selector-active row is rejected with exactly one violation, and that
/// violation names that row.
pub proof fn lemma_recurrence_violation(cs: ConstraintSystem, cfg: FiboConfig, t: Table, r0: int)
    requires
        recurrence_system(cs, cfg),
        t.wf(),
        compat(cs, t),
        0 <= r0 < t.height,
        t.sel_on(cfg.selector.index as int, r0),
        recurrence_row_assigned(cfg, t, r0),
        !recurrence_row_ok(cfg, t, r0),
        forall|r: int|
            0 <= r < t.height && r != r0 && t.sel_on(cfg.selector.index as int, r)
                ==> recurrence_row_ok(cfg, t, r),
        forall|i: int| 0 <= i < t.copies@.len() ==> copy_ok(t, i),
    ensures
        violations_spec(cs, t) == seq![
            ViolationV::ConstraintNotSatisfied {
                gate: 0,
                constraint: 0,
                row: r0,
                cell_values: advice_cells_spec(
                    recurrence_expr(cfg.col_a.index, cfg.col_b.index, cfg.col_c.index),
                    t,
                    r0,
                ),
            },
        ],
{
    assert forall|r: int| 0 <= r < t.height as int && r != r0 implies row_violations(cs, t, r)
        == Seq::<ViolationV>::empty() by {
        if t.sel_on(cfg.selector.index as int, r) {
            assert(recurrence_row_ok(cfg, t, r));
            lemma_recurrence_gate_at(cs, cfg, t, r);
        } else {
            lemma_recurrence_row_off(cs, cfg, t, r);
        }
    }
    lemma_recurrence_gate_at(cs, cfg, t, r0);
    lemma_rows_upto_single(cs, t, t.height as int, r0);
    lemma_copies_upto_all_empty(t, t.copies@.len() as int);
    assert(violations_spec(cs, t) =~= row_violations(cs, t, r0));
}

} // verus!
