//! The satisfiability checker.
//!
//! For every row and every gate whose selector is active at that row, the
//! checker evaluates each of that gate's constraints; every non-zero value
//! is a violation. It then verifies every registered equality link. The
//! complete list is returned — the checker never stops at the first
//! problem — and "satisfied" means the list is empty.

use vstd::prelude::*;

use crate::field::Fp;
use crate::ir::{advice_cells, advice_cells_spec, eval, eval_spec, Cell, EvalError, Table};
use crate::layout::compat;
use crate::system::ConstraintSystem;

verus! {

/// One problem found by the checker. Gates and constraints are addressed
/// by their indices in the finalized system, where their names live.
#[derive(Debug, PartialEq, Eq)]
pub enum Violation {
    /// A constraint of a gate evaluated to a non-zero value at a row
    /// where its gate's selector is active; carries the advice cells the
    /// constraint read, with their values.
    ConstraintNotSatisfied { gate: usize, constraint: usize, row: usize, cell_values: Vec<
        (Cell, Fp),
    > },
    /// A constraint of an active gate could not be evaluated at a row:
    /// an unassigned cell or an out-of-table query.
    EvalFailed { gate: usize, constraint: usize, row: usize, error: EvalError },
    /// Two equality-linked cells do not both hold the same value.
    MissingEquality { a: Cell, b: Cell },
}

/// The mathematical shadow of `Violation`, over unbounded integers.
pub enum ViolationV {
    ConstraintNotSatisfied { gate: int, constraint: int, row: int, cell_values: Seq<(Cell, nat)> },
    EvalFailed { gate: int, constraint: int, row: int, error: EvalError },
    MissingEquality { a: Cell, b: Cell },
}

impl View for Violation {
    type V = ViolationV;

    open spec fn view(&self) -> ViolationV {
        match *self {
            Violation::ConstraintNotSatisfied { gate, constraint, row, cell_values } => {
                ViolationV::ConstraintNotSatisfied {
                    gate: gate as int,
                    constraint: constraint as int,
                    row: row as int,
                    cell_values: cell_values@.map_values(|p: (Cell, Fp)| (p.0, p.1@)),
                }
            },
            Violation::EvalFailed { gate, constraint, row, error } => {
                ViolationV::EvalFailed {
                    gate: gate as int,
                    constraint: constraint as int,
                    row: row as int,
                    error,
                }
            },
            Violation::MissingEquality { a, b } => ViolationV::MissingEquality { a, b },
        }
    }
}

/// The violation list as the checker's callers see it.
pub open spec fn out_view(out: Seq<Violation>) -> Seq<ViolationV> {
    out.map_values(|v: Violation| v@)
}

/// What constraint `c` of gate `g` contributes at `row`: nothing when it
/// evaluates to zero, one violation otherwise.
pub open spec fn constraint_violations_at(
    cs: ConstraintSystem,
    t: Table,
    g: int,
    c: int,
    row: int,
) -> Seq<ViolationV> {
    let e = cs.gates@[g].constraints@[c].1;
    match eval_spec(e, t, row) {
        Ok(v) => if v != 0 {
            seq![
                ViolationV::ConstraintNotSatisfied {
                    gate: g,
                    constraint: c,
                    row,
                    cell_values: advice_cells_spec(e, t, row),
                },
            ]
        } else {
            Seq::empty()
        },
        Err(er) => seq![ViolationV::EvalFailed { gate: g, constraint: c, row, error: er }],
    }
}

/// The contributions of the first `n` constraints of gate `g` at `row`,
/// in order.
pub open spec fn constraints_upto(
    cs: ConstraintSystem,
    t: Table,
    g: int,
    row: int,
    n: int,
) -> Seq<ViolationV>
    decreases n,
{
    if n <= 0 {
        Seq::empty()
    } else {
        constraints_upto(cs, t, g, row, n - 1) + constraint_violations_at(cs, t, g, n - 1, row)
    }
}

/// What gate `g` contributes at `row`: nothing unless its selector is
/// active there.
pub open spec fn gate_violations_at(cs: ConstraintSystem, t: Table, g: int, row: int) -> Seq<
    ViolationV,
> {
    if t.sel_on(cs.gates@[g].selector.index as int, row) {
        constraints_upto(cs, t, g, row, cs.gates@[g].constraints@.len() as int)
    } else {
        Seq::empty()
    }
}

/// The contributions of the first `n` gates at `row`, in order.
pub open spec fn gates_upto(cs: ConstraintSystem, t: Table, row: int, n: int) -> Seq<ViolationV>
    decreases n,
{
    if n <= 0 {
        Seq::empty()
    } else {
        gates_upto(cs, t, row, n - 1) + gate_violations_at(cs, t, n - 1, row)
    }
}

/// Everything all gates contribute at one row.
pub open spec fn row_violations(cs: ConstraintSystem, t: Table, row: int) -> Seq<ViolationV> {
    gates_upto(cs, t, row, cs.gates@.len() as int)
}

/// Gate violations of the first `n` rows, in row order.
pub open spec fn rows_upto(cs: ConstraintSystem, t: Table, n: int) -> Seq<ViolationV>
    decreases n,
{
    if n <= 0 {
        Seq::empty()
    } else {
        rows_upto(cs, t, n - 1) + row_violations(cs, t, n - 1)
    }
}

/// What equality link `i` contributes: nothing when both cells are
/// assigned the same value, one violation otherwise.
pub open spec fn copy_violation_at(t: Table, i: int) -> Seq<ViolationV> {
    let a = t.copies@[i].0;
    let b = t.copies@[i].1;
    match (t.cell_value(a), t.cell_value(b)) {
        (Some(x), Some(y)) => if x == y {
            Seq::empty()
        } else {
            seq![ViolationV::MissingEquality { a, b }]
        },
        _ => seq![ViolationV::MissingEquality { a, b }],
    }
}

/// The contributions of the first `n` equality links, in order.
pub open spec fn copies_upto(t: Table, n: int) -> Seq<ViolationV>
    decreases n,
{
    if n <= 0 {
        Seq::empty()
    } else {
        copies_upto(t, n - 1) + copy_violation_at(t, n - 1)
    }
}

/// The complete violation list of a finalized system against a table:
/// every gate violation in row order, then every equality violation in
/// registration order.
pub open spec fn violations_spec(cs: ConstraintSystem, t: Table) -> Seq<ViolationV> {
    rows_upto(cs, t, t.height as int) + copies_upto(t, t.copies@.len() as int)
}

/// Evaluates every gate of the finalized system at every row where its
/// selector is active, then every equality link, and reports the
/// complete list of violations; the assignment satisfies the system
/// exactly when the list is empty.
pub fn check(cs: &ConstraintSystem, t: &Table) -> (r: Vec<Violation>)
    requires
        cs.wf(),
        t.wf(),
        compat(*cs, *t),
    ensures
        out_view(r@) == violations_spec(*cs, *t),
{
    let mut out: Vec<Violation> = Vec::new();
    let mut row: usize = 0;
    while row < t.height
        invariant
            cs.wf(),
            t.wf(),
            compat(*cs, *t),
            row <= t.height,
            out_view(out@) == rows_upto(*cs, *t, row as int),
        decreases t.height - row,
    {
        let mut g: usize = 0;
        while g < cs.gates.len()
            invariant
                cs.wf(),
                t.wf(),
                compat(*cs, *t),
                row < t.height,
                g <= cs.gates@.len(),
                out_view(out@) == rows_upto(*cs, *t, row as int) + gates_upto(
                    *cs,
                    *t,
                    row as int,
                    g as int,
                ),
            decreases cs.gates.len() - g,
        {
            let gate = &cs.gates[g];
            if t.selector_at(gate.selector.index, row) {
                let mut c: usize = 0;
                while c < gate.constraints.len()
                    invariant
                        cs.wf(),
                        t.wf(),
                        compat(*cs, *t),
                        row < t.height,
                        g < cs.gates@.len(),
                        gate == &cs.gates@[g as int],
                        t.sel_on(cs.gates@[g as int].selector.index as int, row as int),
                        c <= gate.constraints@.len(),
                        out_view(out@) == rows_upto(*cs, *t, row as int) + gates_upto(
                            *cs,
                            *t,
                            row as int,
                            g as int,
                        ) + constraints_upto(*cs, *t, g as int, row as int, c as int),
                    decreases gate.constraints.len() - c,
                {
                    let e = &gate.constraints[c].1;
                    proof {
                        assert(cs.gates@[g as int].wf());
                    }
                    let ghost out_pre = out@;
                    let ghost cva = constraint_violations_at(
                        *cs,
                        *t,
                        g as int,
                        c as int,
                        row as int,
                    );
                    match eval(e, t, row) {
                        Ok(v) => {
                            if v.as_u64() != 0 {
                                let cells = advice_cells(e, t, row);
                                let viol = Violation::ConstraintNotSatisfied {
                                    gate: g,
                                    constraint: c,
                                    row,
                                    cell_values: cells,
                                };
                                proof {
                                    assert(cva =~= seq![viol@]);
                                }
                                out.push(viol);
                                proof {
                                    assert(out_view(out@) =~= out_view(out_pre) + cva);
                                }
                            } else {
                                proof {
                                    assert(cva =~= Seq::<ViolationV>::empty());
                                    assert(out_view(out@) =~= out_view(out_pre) + cva);
                                }
                            }
                        },
                        Err(er) => {
                            let viol = Violation::EvalFailed {
                                gate: g,
                                constraint: c,
                                row,
                                error: er,
                            };
                            proof {
                                assert(cva =~= seq![viol@]);
                            }
                            out.push(viol);
                            proof {
                                assert(out_view(out@) =~= out_view(out_pre) + cva);
                            }
                        },
                    }
                    proof {
                        assert(constraints_upto(*cs, *t, g as int, row as int, c as int + 1)
                            == constraints_upto(*cs, *t, g as int, row as int, c as int) + cva);
                        assert(out_view(out@) =~= rows_upto(*cs, *t, row as int) + gates_upto(
                            *cs,
                            *t,
                            row as int,
                            g as int,
                        ) + constraints_upto(*cs, *t, g as int, row as int, c as int + 1));
                    }
                    c = c + 1;
                }
                proof {
                    assert(out_view(out@) =~= rows_upto(*cs, *t, row as int) + gates_upto(
                        *cs,
                        *t,
                        row as int,
                        g as int + 1,
                    ));
                }
            } else {
                proof {
                    assert(out_view(out@) =~= rows_upto(*cs, *t, row as int) + gates_upto(
                        *cs,
                        *t,
                        row as int,
                        g as int + 1,
                    ));
                }
            }
            g = g + 1;
        }
        proof {
            assert(out_view(out@) =~= rows_upto(*cs, *t, row as int + 1));
        }
        row = row + 1;
    }
    let mut i: usize = 0;
    while i < t.copies.len()
        invariant
            t.wf(),
            i <= t.copies@.len(),
            out_view(out@) == rows_upto(*cs, *t, t.height as int) + copies_upto(*t, i as int),
        decreases t.copies.len() - i,
    {
        let (a, b) = t.copies[i];
        let ghost out_pre = out@;
        let ghost cva = copy_violation_at(*t, i as int);
        match (t.get_cell(a), t.get_cell(b)) {
            (Some(x), Some(y)) => {
                if !x.equals(y) {
                    let viol = Violation::MissingEquality { a, b };
                    proof {
                        assert(cva =~= seq![viol@]);
                    }
                    out.push(viol);
                    proof {
                        assert(out_view(out@) =~= out_view(out_pre) + cva);
                    }
                } else {
                    proof {
                        crate::field::lemma_fp_eq(x, y);
                        assert(cva =~= Seq::<ViolationV>::empty());
                        assert(out_view(out@) =~= out_view(out_pre) + cva);
                    }
                }
            },
            _ => {
                let viol = Violation::MissingEquality { a, b };
                proof {
                    assert(cva =~= seq![viol@]);
                }
                out.push(viol);
                proof {
                    assert(out_view(out@) =~= out_view(out_pre) + cva);
                }
            },
        }
        proof {
            assert(copies_upto(*t, i as int + 1) == copies_upto(*t, i as int) + cva);
            assert(out_view(out@) =~= rows_upto(*cs, *t, t.height as int) + copies_upto(
                *t,
                i as int + 1,
            ));
        }
        i = i + 1;
    }
    out
}

/// The checker is pure and deterministic: the same finalized system and
/// the same table always determine the same violation list, so checking
/// twice yields identical results.
pub proof fn lemma_check_deterministic(
    cs: ConstraintSystem,
    t: Table,
    r1: Seq<ViolationV>,
    r2: Seq<ViolationV>,
)
    requires
        r1 == violations_spec(cs, t),
        r2 == violations_spec(cs, t),
    ensures
        r1 == r2,
{
}

/// Equality link `i` is clean: both cells are assigned and agree.
pub open spec fn copy_ok(t: Table, i: int) -> bool {
    match (t.cell_value(t.copies@[i].0), t.cell_value(t.copies@[i].1)) {
        (Some(x), Some(y)) => x == y,
        _ => false,
    }
}

/// When no row contributes a gate violation, the whole row part is
/// empty.
pub proof fn lemma_rows_upto_all_empty(cs: ConstraintSystem, t: Table, n: int)
    requires
        forall|r: int| 0 <= r < n ==> row_violations(cs, t, r) == Seq::<ViolationV>::empty(),
    ensures
        rows_upto(cs, t, n) == Seq::<ViolationV>::empty(),
    decreases n,
{
    if n > 0 {
        lemma_rows_upto_all_empty(cs, t, n - 1);
    }
    assert(rows_upto(cs, t, n) =~= Seq::<ViolationV>::empty());
}

/// When exactly one row contributes gate violations, the row part is
/// that row's contribution alone.
pub proof fn lemma_rows_upto_single(cs: ConstraintSystem, t: Table, n: int, r0: int)
    requires
        0 <= r0 < n,
        forall|r: int|
            0 <= r < n && r != r0 ==> row_violations(cs, t, r) == Seq::<ViolationV>::empty(),
    ensures
        rows_upto(cs, t, n) == row_violations(cs, t, r0),
    decreases n,
{
    if r0 == n - 1 {
        lemma_rows_upto_all_empty(cs, t, n - 1);
        assert(rows_upto(cs, t, n) =~= row_violations(cs, t, r0));
    } else {
        lemma_rows_upto_single(cs, t, n - 1, r0);
        assert(rows_upto(cs, t, n) =~= row_violations(cs, t, r0));
    }
}

/// When every equality link is clean, the copy part is empty.
pub proof fn lemma_copies_upto_all_empty(t: Table, n: int)
    requires
        forall|i: int| 0 <= i < n ==> copy_ok(t, i),
    ensures
        copies_upto(t, n) == Seq::<ViolationV>::empty(),
    decreases n,
{
    if n > 0 {
        lemma_copies_upto_all_empty(t, n - 1);
        assert(copy_ok(t, n - 1));
    }
    assert(copies_upto(t, n) =~= Seq::<ViolationV>::empty());
}

/// Each of the first `n` equality links is individually clean when the
/// first `n` links together contribute nothing.
proof fn lemma_copies_upto_empty(t: Table, n: int, i: int)
    requires
        0 <= i < n,
        copies_upto(t, n) == Seq::<ViolationV>::empty(),
    ensures
        copy_violation_at(t, i) == Seq::<ViolationV>::empty(),
    decreases n,
{
    assert(copies_upto(t, n) == copies_upto(t, n - 1) + copy_violation_at(t, n - 1));
    assert(copies_upto(t, n - 1) =~= Seq::<ViolationV>::empty());
    assert(copy_violation_at(t, n - 1) =~= Seq::<ViolationV>::empty());
    if i < n - 1 {
        lemma_copies_upto_empty(t, n - 1, i);
    }
}

/// Copy-constraint propagation: when the checker reports no violations,
/// a cell that is copy-linked to a cell holding `v` itself resolves to
/// `v`.
pub proof fn lemma_copy_propagation(cs: ConstraintSystem, t: Table, i: int, v: Fp)
    requires
        violations_spec(cs, t) == Seq::<ViolationV>::empty(),
        0 <= i < t.copies@.len(),
        t.cell_value(t.copies@[i].0) == Some(v),
    ensures
        t.cell_value(t.copies@[i].1) == Some(v),
{
    assert(copies_upto(t, t.copies@.len() as int) =~= Seq::<ViolationV>::empty());
    lemma_copies_upto_empty(t, t.copies@.len() as int, i);
}

} // verus!
