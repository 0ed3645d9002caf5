//! The bounded-value arithmetization: one advice column `value` and one
//! selector `q`, with one gate, `q * Π_{i=0}^{range-1} (i - value)` — a
//! product that is the field zero exactly when `value` lies in
//! `{0, ..., range-1}`. Cost grows linearly with `range`; the form is
//! meant for small ranges.

use vstd::prelude::*;

use crate::check::{
    constraint_violations_at, constraints_upto, copy_ok, gates_upto, lemma_copies_upto_all_empty,
    lemma_rows_upto_all_empty, lemma_rows_upto_single, row_violations, violations_spec, ViolationV,
};
use crate::field::{fadd, fmul, fneg, fp, lemma_add_neg, lemma_fp_view, lemma_mul_zero, Fp, P};
use crate::ir::{
    advice_cells_spec, eval_spec, wf_expr, Cell, Column, ColumnKind, EvalError, Expression,
    Selector, Table,
};
use crate::layout::{compat, unassigned_from, Error, Layouter, Region};
use crate::system::ConstraintSystem;

verus! {

broadcast use vstd::string::to_string_from_display_ensures_for_str;

/// The factor `i - value` of the membership product.
pub open spec fn range_factor(col: usize, i: nat) -> Expression {
    Expression::Sum(
        Box::new(Expression::Constant(fp(i))),
        Box::new(Expression::Negate(Box::new(Expression::Advice(col, 0i64)))),
    )
}

/// The product `Π_{i=0}^{n-1} (i - value)`, for `n >= 1`.
pub open spec fn range_product_expr(col: usize, n: nat) -> Expression
    decreases n,
{
    if n <= 1 {
        range_factor(col, 0)
    } else {
        Expression::Product(
            Box::new(range_product_expr(col, (n - 1) as nat)),
            Box::new(range_factor(col, (n - 1) as nat)),
        )
    }
}

/// The column and the selector of the bounded-value gate.
#[derive(Clone, Copy, Debug, PartialEq, Eq, Structural)]
pub struct RangeCheckConfig {
    pub value: Column,
    pub q_range_check: Selector,
}

/// The configuration handles are valid against the system.
pub open spec fn range_config_wf(cs: ConstraintSystem, cfg: RangeCheckConfig) -> bool {
    &&& cfg.value.kind == ColumnKind::Advice
    &&& cs.column_allocated(cfg.value)
    &&& cfg.q_range_check.index < cs.num_selectors
}

/// The system holds exactly one gate: the membership product of the
/// given range, keyed on the configuration's selector.
pub open spec fn range_system(cs: ConstraintSystem, cfg: RangeCheckConfig, range: nat) -> bool {
    &&& range_config_wf(cs, cfg)
    &&& 1 <= range
    &&& cs.gates@.len() == 1
    &&& cs.gates@[0].selector == cfg.q_range_check
    &&& cs.gates@[0].name@ == "Range check"@
    &&& cs.gates@[0].constraints@.len() == 1
    &&& cs.gates@[0].constraints@[0].0@ == "range check"@
    &&& cs.gates@[0].constraints@[0].1 == range_product_expr(cfg.value.index, range)
}

/// Builds the factor `i - value` as executable data.
fn make_range_factor(col: usize, i: u64) -> (e: Expression)
    ensures
        e == range_factor(col, i as nat),
        wf_expr(e),
{
    let e = Expression::Sum(
        Box::new(Expression::Constant(Fp::new(i))),
        Box::new(Expression::Negate(Box::new(Expression::Advice(col, 0)))),
    );
    proof {
        reveal_with_fuel(wf_expr, 6);
        lemma_fp_view(i as nat);
    }
    e
}

impl RangeCheckConfig {
    /// Allocates the selector and stores the membership gate over the
    /// given advice column, with the product built once as data.
    pub fn configure(cs: &mut ConstraintSystem, value: Column, range: usize) -> (cfg:
        RangeCheckConfig)
        requires
            old(cs).wf(),
            old(cs).num_selectors < usize::MAX,
            value.kind == ColumnKind::Advice,
            old(cs).column_allocated(value),
            1 <= range,
            range as nat <= P as nat,
        ensures
            final(cs).wf(),
            range_config_wf(*final(cs), cfg),
            cfg.value == value,
            cfg.q_range_check == (Selector { index: old(cs).num_selectors }),
            final(cs).num_advice == old(cs).num_advice,
            final(cs).num_fixed == old(cs).num_fixed,
            final(cs).num_instance == old(cs).num_instance,
            final(cs).num_selectors == old(cs).num_selectors + 1,
            final(cs).equality_enabled@ == old(cs).equality_enabled@,
            final(cs).gates@.len() == old(cs).gates@.len() + 1,
            forall|g: int|
                0 <= g < old(cs).gates@.len() ==> final(cs).gates@[g] == old(cs).gates@[g],
            final(cs).gates@.last().selector == cfg.q_range_check,
            final(cs).gates@.last().name@ == "Range check"@,
            final(cs).gates@.last().constraints@.len() == 1,
            final(cs).gates@.last().constraints@[0].0@ == "range check"@,
            final(cs).gates@.last().constraints@[0].1 == range_product_expr(
                value.index,
                range as nat,
            ),
            old(cs).gates@.len() == 0 ==> range_system(*final(cs), cfg, range as nat),
    {
        let q_range_check = cs.selector();
        let mut expr = make_range_factor(value.index, 0);
        let mut i: usize = 1;
        while i < range
            invariant
                1 <= i <= range,
                range as nat <= P as nat,
                expr == range_product_expr(value.index, i as nat),
                wf_expr(expr),
            decreases range - i,
        {
            let f = make_range_factor(value.index, i as u64);
            expr = Expression::Product(Box::new(expr), Box::new(f));
            i = i + 1;
        }
        let ghost e = expr;
        let mut constraints: Vec<(String, Expression)> = Vec::new();
        constraints.push(("range check".to_string(), expr));
        proof {
            assert(constraints@[0].1 == e);
            assert(forall|j: int|
                0 <= j < constraints@.len() ==> wf_expr((#[trigger] constraints@[j]).1));
        }
        cs.create_gate("Range check".to_string(), q_range_check, constraints);
        RangeCheckConfig { value, q_range_check }
    }

    /// Opens one region: enables the selector and assigns the value at
    /// the region's only row. Succeeds exactly when one row is free.
    pub fn assign(&self, l: &mut Layouter, value: Fp) -> (r: Result<(), Error>)
        requires
            old(l).wf(),
            unassigned_from(*old(l)),
            range_config_wf(old(l).cs, *self),
            value.inv(),
        ensures
            final(l).wf(),
            unassigned_from(*final(l)),
            final(l).cs == old(l).cs,
            final(l).table.height == old(l).table.height,
            r is Ok <==> old(l).next_row < old(l).table.height,
            r is Err ==> *final(l) == *old(l) && r == Err::<(), Error>(Error::Configuration),
            r is Ok ==> ({
                let row = old(l).next_row;
                &&& final(l).next_row == row + 1
                &&& final(l).table.cell_value(Cell { column: self.value, row }) == Some(value)
                &&& final(l).table.sel_on(self.q_range_check.index as int, row as int)
                &&& forall|cell: Cell|
                    cell != (Cell { column: self.value, row }) ==> final(l).table.cell_value(cell)
                        == old(l).table.cell_value(cell)
                &&& forall|s: int, rr: int|
                    !(s == self.q_range_check.index as int && rr == row as int)
                        ==> final(l).table.sel_on(s, rr) == old(l).table.sel_on(s, rr)
                &&& final(l).table.copies@ == old(l).table.copies@
            }),
    {
        if l.next_row >= l.table.height {
            return Err(Error::Configuration);
        }
        let row = l.next_row;
        let mut region = Region::new("Assign value".to_string());
        region.enable_selector(self.q_range_check, 0);
        region.assign_advice(self.value, 0, value);
        let ghost reg = region;
        proof {
            assert(reg.assignments@.len() == 1);
            assert(reg.assignments@[0] == (0usize, self.value, value));
            assert(reg.selectors_on@.len() == 1);
            assert(reg.selectors_on@[0] == (self.q_range_check.index, 0usize));
            assert(reg.extent == 1);
            assert(crate::layout::region_structure_ok(l.cs, l.table, row as int, reg));
            assert(crate::layout::region_conflict_free(l.table, row as int, reg)) by {
                assert(l.table.cell_value(Cell { column: self.value, row }) is None);
            }
        }
        match l.commit_region(region) {
            Ok(_base) => {
                proof {
                    let vcell = Cell { column: self.value, row };
                    assert(l.table.cell_value(vcell) == Some(value));
                    assert(l.table.sel_on(
                        reg.selectors_on@[0].0 as int,
                        row + reg.selectors_on@[0].1,
                    ));
                    assert forall|cell: Cell| cell != vcell implies l.table.cell_value(cell) == old(
                        l,
                    ).table.cell_value(cell) by {
                        if crate::layout::region_assigns_cell(
                            reg,
                            row as int,
                            cell.column,
                            cell.row as int,
                        ) {
                            let i = choose|i: int|
                                0 <= i < reg.assignments@.len() && (
                                #[trigger] reg.assignments@[i]).1 == cell.column && row
                                    + reg.assignments@[i].0 == cell.row as int;
                            assert(i == 0);
                        }
                    }
                    assert forall|s: int, rr: int|
                        !(s == self.q_range_check.index as int && rr == row as int) implies
                        l.table.sel_on(s, rr) == old(l).table.sel_on(s, rr) by {
                        if crate::layout::region_sets_selector(reg, row as int, s, rr) {
                            let i = choose|i: int|
                                0 <= i < reg.selectors_on@.len() && (
                                #[trigger] reg.selectors_on@[i]).0 == s && row
                                    + reg.selectors_on@[i].1 == rr;
                            assert(i == 0);
                        }
                    }
                    assert(l.table.copies@ =~= old(l).table.copies@);
                    assert(unassigned_from(*l)) by {
                        assert forall|cell: Cell| cell.row >= l.next_row implies l.table.cell_value(
                            cell,
                        ) is None by {
                            assert(cell != vcell);
                        }
                        assert forall|s: int, rr: int| rr >= l.next_row implies !l.table.sel_on(
                            s,
                            rr,
                        ) by {
                            if crate::layout::region_sets_selector(reg, row as int, s, rr) {
                                let i = choose|i: int|
                                    0 <= i < reg.selectors_on@.len() && (
                                    #[trigger] reg.selectors_on@[i]).0 == s && row
                                        + reg.selectors_on@[i].1 == rr;
                                assert(i == 0);
                            }
                        }
                    }
                }
                Ok(())
            },
            Err(e) => {
                proof {
                    assert(false);
                }
                Err(e)
            },
        }
    }
}

/// The combined extent of two adjacent row ranges: plain addition.
pub fn rangecheck(left: usize, right: usize) -> (r: usize)
    requires
        left + right <= usize::MAX,
    ensures
        r == left + right,
{
    left + right
}

/// The configuration that `RangeCheckConfig::configure` hands back on a
/// fresh system with its first advice column.
pub open spec fn fresh_range_config() -> RangeCheckConfig {
    RangeCheckConfig {
        value: Column { kind: ColumnKind::Advice, index: 0 },
        q_range_check: Selector { index: 0 },
    }
}

/// Builds the bounded-value circuit for `range = 8`, assigns one value
/// at row 0 of a table of `2^k` rows, and hands back the finalized
/// system and the assignment artifact.
pub fn rangecheck_circuit(k: u32, value: Fp) -> (r: Result<(ConstraintSystem, Table), Error>)
    requires
        k < 28,
        value.inv(),
    ensures
        r is Ok,
        r matches Ok(p) ==> ({
            &&& p.0.wf()
            &&& p.1.wf()
            &&& compat(p.0, p.1)
            &&& p.1.height == (1usize << (k as usize))
            &&& range_system(p.0, fresh_range_config(), 8)
            &&& p.1.cell_value(
                Cell { column: Column { kind: ColumnKind::Advice, index: 0 }, row: 0 },
            ) == Some(value)
            &&& p.1.sel_on(0, 0)
            &&& forall|cell: Cell|
                cell != (Cell { column: Column { kind: ColumnKind::Advice, index: 0 }, row: 0 })
                    ==> p.1.cell_value(cell) is None
            &&& forall|s: int, rr: int| !(s == 0 && rr == 0) ==> !p.1.sel_on(s, rr)
            &&& p.1.copies@ == Seq::<(Cell, Cell)>::empty()
            &&& value@ < 8 ==> violations_spec(p.0, p.1) == Seq::<ViolationV>::empty()
            &&& value@ == 8 ==> violations_spec(p.0, p.1) == seq![
                ViolationV::ConstraintNotSatisfied {
                    gate: 0,
                    constraint: 0,
                    row: 0,
                    cell_values: advice_cells_spec(range_product_expr(0, 8), p.1, 0),
                },
            ]
        }),
{
    let kk: usize = k as usize;
    proof {
        assert(kk < 28usize ==> 1usize <= (1usize << kk) <= 0x10000000usize) by (bit_vector);
    }
    let height: usize = 1usize << kk;
    let mut cs = ConstraintSystem::new();
    let value_col = cs.advice_column();
    let config = RangeCheckConfig::configure(&mut cs, value_col, 8);
    let mut layouter = Layouter::new(cs, height);
    match config.assign(&mut layouter, value) {
        Ok(()) => {
            proof {
                let cs2 = layouter.cs;
                let t2 = layouter.table;
                let vcell = Cell { column: Column { kind: ColumnKind::Advice, index: 0 }, row: 0 };
                assert(t2.cell_value(vcell) == Some(value));
                assert forall|r: int|
                    0 <= r < t2.height && t2.sel_on(0, r) implies (t2.advice@[0]@[r] is Some
                    && t2.advice@[0]@[r]->Some_0@ == value@) by {
                    if r != 0 {
                        assert(!t2.sel_on(0, r));
                    }
                }
                if value@ < 8 {
                    lemma_range_satisfied(cs2, fresh_range_config(), t2, 8);
                }
                if value@ == 8 {
                    lemma_range_violation_at_limit(cs2, fresh_range_config(), t2, 0);
                }
            }
            Ok(layouter.finish())
        },
        Err(e) => {
            proof {
                assert(false);
            }
            Err(e)
        },
    }
}

/// The membership product always evaluates at an assigned row.
proof fn lemma_range_product_ok(t: Table, col: usize, r: int, n: nat)
    requires
        t.wf(),
        col < t.advice@.len(),
        0 <= r < t.height,
        t.advice@[col as int]@[r] is Some,
        n >= 1,
    ensures
        eval_spec(range_product_expr(col, n), t, r) is Ok,
    decreases n,
{
    reveal_with_fuel(eval_spec, 6);
    assert(t.advice@[col as int]@.len() == t.height);
    if n > 1 {
        lemma_range_product_ok(t, col, r, (n - 1) as nat);
    }
}

/// When the assigned value lies below `n`, the product of the first `n`
/// factors is the field zero: the factor at the value annihilates it.
proof fn lemma_range_product_zero(t: Table, col: usize, r: int, n: nat, v: nat)
    requires
        t.wf(),
        col < t.advice@.len(),
        0 <= r < t.height,
        t.advice@[col as int]@[r] is Some,
        t.advice@[col as int]@[r]->Some_0@ == v,
        v < n,
        n <= P as nat,
    ensures
        eval_spec(range_product_expr(col, n), t, r) == Ok::<nat, EvalError>(0nat),
    decreases n,
{
    reveal_with_fuel(eval_spec, 6);
    assert(t.advice@[col as int]@.len() == t.height);
    assert(t.advice@[col as int]@[r]->Some_0.inv());
    if n <= 1 {
        lemma_fp_view(0);
        lemma_add_neg(0);
    } else if v == n - 1 {
        lemma_range_product_ok(t, col, r, (n - 1) as nat);
        lemma_fp_view((n - 1) as nat);
        lemma_add_neg(v);
        let x = eval_spec(range_product_expr(col, (n - 1) as nat), t, r)->Ok_0;
        lemma_mul_zero(x);
    } else {
        lemma_range_product_zero(t, col, r, (n - 1) as nat, v);
        lemma_fp_view((n - 1) as nat);
        lemma_mul_zero(fadd((n - 1) as nat, fneg(v)));
    }
}

/// The cells a membership product reads: the value cell, once per
/// factor, always carrying the assigned value.
proof fn lemma_range_product_cells(t: Table, col: usize, r: int, n: nat, v: nat)
    requires
        t.wf(),
        col < t.advice@.len(),
        0 <= r < t.height,
        t.advice@[col as int]@[r] is Some,
        t.advice@[col as int]@[r]->Some_0@ == v,
        n >= 1,
    ensures
        advice_cells_spec(range_product_expr(col, n), t, r).len() == n,
        forall|j: int|
            0 <= j < n ==> advice_cells_spec(range_product_expr(col, n), t, r)[j] == (
            Cell { column: Column { kind: ColumnKind::Advice, index: col }, row: r as usize },
            v,
            ),
    decreases n,
{
    reveal_with_fuel(advice_cells_spec, 6);
    if n > 1 {
        lemma_range_product_cells(t, col, r, (n - 1) as nat, v);
    }
}

/// Accepted inputs: whenever every selector-active row holds a value in
/// `{0, ..., range-1}` and every copy link is clean, the checker reports
/// no violations.
pub proof fn lemma_range_satisfied(cs: ConstraintSystem, cfg: RangeCheckConfig, t: Table, range: nat)
    requires
        range_system(cs, cfg, range),
        t.wf(),
        compat(cs, t),
        range <= P as nat,
        forall|r: int|
            0 <= r < t.height && t.sel_on(cfg.q_range_check.index as int, r) ==> (
            t.advice@[cfg.value.index as int]@[r] is Some
                && t.advice@[cfg.value.index as int]@[r]->Some_0@ < range),
        forall|i: int| 0 <= i < t.copies@.len() ==> copy_ok(t, i),
    ensures
        violations_spec(cs, t) == Seq::<ViolationV>::empty(),
{
    assert forall|r: int| 0 <= r < t.height as int implies row_violations(cs, t, r) == Seq::<
        ViolationV,
    >::empty() by {
        reveal_with_fuel(constraints_upto, 3);
        reveal_with_fuel(gates_upto, 3);
        if t.sel_on(cfg.q_range_check.index as int, r) {
            lemma_range_product_zero(
                t,
                cfg.value.index,
                r,
                range,
                t.advice@[cfg.value.index as int]@[r]->Some_0@,
            );
            assert(constraint_violations_at(cs, t, 0, 0, r) =~= Seq::<ViolationV>::empty());
            assert(row_violations(cs, t, r) =~= Seq::<ViolationV>::empty());
        } else {
            assert(row_violations(cs, t, r) =~= Seq::<ViolationV>::empty());
        }
    }
    lemma_rows_upto_all_empty(cs, t, t.height as int);
    lemma_copies_upto_all_empty(t, t.copies@.len() as int);
    assert(violations_spec(cs, t) =~= Seq::<ViolationV>::empty());
}

/// With `range = 8` and the value `8` assigned at a selector-active
/// row, the membership product evaluates to `8! = 40320`, not zero.
#[verifier::rlimit(100)]
proof fn lemma_range8_eval_at_limit(t: Table, col: usize, r: int)
    requires
        t.wf(),
        col < t.advice@.len(),
        0 <= r < t.height,
        t.advice@[col as int]@[r] is Some,
        t.advice@[col as int]@[r]->Some_0@ == 8,
    ensures
        eval_spec(range_product_expr(col, 8), t, r) == Ok::<nat, EvalError>(40320nat),
{
    reveal_with_fuel(range_product_expr, 10);
    reveal_with_fuel(eval_spec, 8);
    assert(t.advice@[col as int]@.len() == t.height);
    assert forall|i: nat| i < 8 implies eval_spec(range_factor(col, i), t, r) == Ok::<
        nat,
        EvalError,
    >((P - 8 + i) as nat) by {
        lemma_fp_view(i);
        assert(fadd(i, fneg(8)) == (P - 8 + i) as nat);
    }
    assert(eval_spec(range_product_expr(col, 1), t, r) == Ok::<nat, EvalError>(2147483639nat));
    assert(fmul(2147483639nat, 2147483640nat) == 56nat) by (nonlinear_arith);
    assert(eval_spec(range_product_expr(col, 2), t, r) == Ok::<nat, EvalError>(56nat));
    assert(fmul(56nat, 2147483641nat) == 2147483311nat) by (nonlinear_arith);
    assert(eval_spec(range_product_expr(col, 3), t, r) == Ok::<nat, EvalError>(2147483311nat));
    assert(fmul(2147483311nat, 2147483642nat) == 1680nat) by (nonlinear_arith);
    assert(eval_spec(range_product_expr(col, 4), t, r) == Ok::<nat, EvalError>(1680nat));
    assert(fmul(1680nat, 2147483643nat) == 2147476927nat) by (nonlinear_arith);
    assert(eval_spec(range_product_expr(col, 5), t, r) == Ok::<nat, EvalError>(2147476927nat));
    assert(fmul(2147476927nat, 2147483644nat) == 20160nat) by (nonlinear_arith);
    assert(eval_spec(range_product_expr(col, 6), t, r) == Ok::<nat, EvalError>(20160nat));
    assert(fmul(20160nat, 2147483645nat) == 2147443327nat) by (nonlinear_arith);
    assert(eval_spec(range_product_expr(col, 7), t, r) == Ok::<nat, EvalError>(2147443327nat));
    assert(fmul(2147443327nat, 2147483646nat) == 40320nat) by (nonlinear_arith);
    assert(eval_spec(range_product_expr(col, 8), t, r) == Ok::<nat, EvalError>(40320nat));
}

/// Rejected input at the boundary: with `range = 8`, a value of `8` at
/// exactly one selector-active row yields exactly one violation, citing
/// that row, the only gate, and the value cell holding `8`.
///
/// Rejection of values past the boundary would need that a product of
/// non-zero field elements is non-zero — Euclid's lemma for the prime
/// modulus — which this development does not prove; the boundary value
/// is settled by computing the product `8!` outright.
pub proof fn lemma_range_violation_at_limit(
    cs: ConstraintSystem,
    cfg: RangeCheckConfig,
    t: Table,
    r0: int,
)
    requires
        range_system(cs, cfg, 8),
        t.wf(),
        compat(cs, t),
        0 <= r0 < t.height,
        t.sel_on(cfg.q_range_check.index as int, r0),
        t.advice@[cfg.value.index as int]@[r0] is Some,
        t.advice@[cfg.value.index as int]@[r0]->Some_0@ == 8,
        forall|r: int|
            0 <= r < t.height && r != r0 && t.sel_on(cfg.q_range_check.index as int, r) ==> (
            t.advice@[cfg.value.index as int]@[r] is Some
                && t.advice@[cfg.value.index as int]@[r]->Some_0@ < 8),
        forall|i: int| 0 <= i < t.copies@.len() ==> copy_ok(t, i),
    ensures
        violations_spec(cs, t) == seq![
            ViolationV::ConstraintNotSatisfied {
                gate: 0,
                constraint: 0,
                row: r0,
                cell_values: advice_cells_spec(range_product_expr(cfg.value.index, 8), t, r0),
            },
        ],
        advice_cells_spec(range_product_expr(cfg.value.index, 8), t, r0).len() == 8,
        forall|j: int|
            0 <= j < 8 ==> advice_cells_spec(range_product_expr(cfg.value.index, 8), t, r0)[j] == (
            Cell {
                column: Column { kind: ColumnKind::Advice, index: cfg.value.index },
                row: r0 as usize,
            },
            8nat,
            ),
{
    assert forall|r: int| 0 <= r < t.height as int && r != r0 implies row_violations(cs, t, r)
        == Seq::<ViolationV>::empty() by {
        reveal_with_fuel(constraints_upto, 3);
        reveal_with_fuel(gates_upto, 3);
        if t.sel_on(cfg.q_range_check.index as int, r) {
            lemma_range_product_zero(
                t,
                cfg.value.index,
                r,
                8,
                t.advice@[cfg.value.index as int]@[r]->Some_0@,
            );
            assert(constraint_violations_at(cs, t, 0, 0, r) =~= Seq::<ViolationV>::empty());
            assert(row_violations(cs, t, r) =~= Seq::<ViolationV>::empty());
        } else {
            assert(row_violations(cs, t, r) =~= Seq::<ViolationV>::empty());
        }
    }
    reveal_with_fuel(constraints_upto, 3);
    reveal_with_fuel(gates_upto, 3);
    lemma_range8_eval_at_limit(t, cfg.value.index, r0);
    assert(constraints_upto(cs, t, 0, r0, 1) =~= constraint_violations_at(cs, t, 0, 0, r0));
    assert(row_violations(cs, t, r0) =~= constraint_violations_at(cs, t, 0, 0, r0));
    lemma_rows_upto_single(cs, t, t.height as int, r0);
    lemma_copies_upto_all_empty(t, t.copies@.len() as int);
    assert(violations_spec(cs, t) =~= row_violations(cs, t, r0));
    lemma_range_product_cells(t, cfg.value.index, r0, 8, 8);
}

} // verus!
