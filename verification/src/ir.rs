//! The data model of the arithmetization: columns, cells, symbolic gate
//! expressions, the assignment table, and expression evaluation.
//!
//! An `Expression` is a polynomial over column values at relative row
//! offsets (rotations). `eval` resolves every leaf against a finalized
//! table at a given absolute row; reading an unassigned cell and querying
//! outside the table are distinct errors, never silently zero.

use vstd::prelude::*;

use crate::field::{fadd, fmul, fneg, Fp};

verus! {

/// Tables may not be taller than this, so that row arithmetic with
/// rotations stays inside `i64`.
pub const MAX_HEIGHT: usize = 0x10000000;

/// Rotations are bounded symmetrically by the same limit.
pub const MAX_ROTATION: i64 = 0x10000000;

/// The three kinds of columns: witness values, constants fixed by the
/// circuit, and public inputs.
#[derive(Clone, Copy, Debug, PartialEq, Eq, Structural)]
pub enum ColumnKind {
    Advice,
    Fixed,
    Instance,
}

/// A column, identified by its kind and its index among columns of that
/// kind.
#[derive(Clone, Copy, Debug, PartialEq, Eq, Structural)]
pub struct Column {
    pub kind: ColumnKind,
    pub index: usize,
}

/// A boolean-valued virtual column, activated per absolute row during
/// assignment.
#[derive(Clone, Copy, Debug, PartialEq, Eq, Structural)]
pub struct Selector {
    pub index: usize,
}

/// An address into the table: a column and an absolute row.
#[derive(Clone, Copy, Debug, PartialEq, Eq, Structural)]
pub struct Cell {
    pub column: Column,
    pub row: usize,
}

/// A symbolic polynomial over column values at relative rotations.
#[derive(Debug)]
pub enum Expression {
    /// A constant field element.
    Constant(Fp),
    /// The value of an advice column at `row + rotation`.
    Advice(usize, i64),
    /// The value of a fixed column at `row + rotation`.
    Fixed(usize, i64),
    /// The value of an instance column at `row + rotation`.
    Instance(usize, i64),
    /// The selector's activation bit at the current row, as 0 or 1.
    Selector(Selector),
    /// The sum of two expressions.
    Sum(Box<Expression>, Box<Expression>),
    /// The product of two expressions.
    Product(Box<Expression>, Box<Expression>),
    /// The additive inverse of an expression.
    Negate(Box<Expression>),
    /// An expression scaled by a constant field element.
    Scaled(Fp, Box<Expression>),
}

/// Well-formedness of an expression: constants are reduced field elements
/// and rotations are bounded.
pub open spec fn wf_expr(e: Expression) -> bool
    decreases e,
{
    match e {
        Expression::Constant(f) => f.inv(),
        Expression::Advice(_, rot) => -MAX_ROTATION <= rot <= MAX_ROTATION,
        Expression::Fixed(_, rot) => -MAX_ROTATION <= rot <= MAX_ROTATION,
        Expression::Instance(_, rot) => -MAX_ROTATION <= rot <= MAX_ROTATION,
        Expression::Selector(_) => true,
        Expression::Sum(a, b) => wf_expr(*a) && wf_expr(*b),
        Expression::Product(a, b) => wf_expr(*a) && wf_expr(*b),
        Expression::Negate(a) => wf_expr(*a),
        Expression::Scaled(f, a) => f.inv() && wf_expr(*a),
    }
}

/// Why an expression could not be evaluated.
#[derive(Clone, Copy, Debug, PartialEq, Eq, Structural)]
pub enum EvalError {
    /// A leaf referenced a cell that holds no value.
    Unassigned(Cell),
    /// A leaf referenced a column or selector that does not exist, or a
    /// row outside `[0, height)`: a configuration error.
    OutOfBounds,
}

/// The finalized assignment artifact: per-column per-row values (or an
/// explicit unassigned marker), selector activation bits, and the list of
/// equality-constrained cell pairs.
pub struct Table {
    pub height: usize,
    pub advice: Vec<Vec<Option<Fp>>>,
    pub fixed: Vec<Vec<Option<Fp>>>,
    pub instance: Vec<Vec<Option<Fp>>>,
    pub selectors: Vec<Vec<bool>>,
    pub copies: Vec<(Cell, Cell)>,
}

/// Every value stored in one column is a reduced field element, and the
/// column spans exactly the table's height.
pub open spec fn col_wf(col: Seq<Option<Fp>>, height: nat) -> bool {
    col.len() == height && forall|r: int|
        0 <= r < col.len() ==> ((#[trigger] col[r]) matches Some(f) ==> f.inv())
}

impl Table {
    /// The columns of one kind.
    pub open spec fn grid(self, kind: ColumnKind) -> Seq<Vec<Option<Fp>>> {
        match kind {
            ColumnKind::Advice => self.advice@,
            ColumnKind::Fixed => self.fixed@,
            ColumnKind::Instance => self.instance@,
        }
    }

    /// The value held by a cell, or `None` if the cell is unassigned or
    /// outside the table.
    pub open spec fn cell_value(self, cell: Cell) -> Option<Fp> {
        let grid = self.grid(cell.column.kind);
        if cell.column.index < grid.len() && cell.row < self.height && (cell.row as int)
            < grid[cell.column.index as int]@.len() {
            grid[cell.column.index as int]@[cell.row as int]
        } else {
            None
        }
    }

    /// Whether a selector is active at a row.
    pub open spec fn sel_on(self, s: int, row: int) -> bool {
        0 <= s < self.selectors@.len() && 0 <= row < self.selectors@[s]@.len()
            && self.selectors@[s]@[row]
    }

    /// Well-formedness: bounded height, every column of every kind spans
    /// the height and holds reduced values, and every selector column
    /// spans the height.
    pub open spec fn wf(self) -> bool {
        &&& self.height <= MAX_HEIGHT
        &&& forall|c: int|
            0 <= c < self.advice@.len() ==> col_wf(
                (#[trigger] self.advice@[c])@,
                self.height as nat,
            )
        &&& forall|c: int|
            0 <= c < self.fixed@.len() ==> col_wf((#[trigger] self.fixed@[c])@, self.height as nat)
        &&& forall|c: int|
            0 <= c < self.instance@.len() ==> col_wf(
                (#[trigger] self.instance@[c])@,
                self.height as nat,
            )
        &&& forall|s: int|
            0 <= s < self.selectors@.len() ==> (#[trigger] self.selectors@[s])@.len()
                == self.height
    }
}

impl Table {
    /// Reads the value a cell holds, `None` for an unassigned or
    /// out-of-table cell.
    pub fn get_cell(&self, cell: Cell) -> (r: Option<Fp>)
        ensures
            r == self.cell_value(cell),
    {
        let grid: &Vec<Vec<Option<Fp>>> = match cell.column.kind {
            ColumnKind::Advice => &self.advice,
            ColumnKind::Fixed => &self.fixed,
            ColumnKind::Instance => &self.instance,
        };
        if cell.column.index < grid.len() && cell.row < self.height {
            if cell.row < grid[cell.column.index].len() {
                grid[cell.column.index][cell.row]
            } else {
                None
            }
        } else {
            None
        }
    }

    /// Reads a selector's activation bit at a row; inactive outside the
    /// table.
    pub fn selector_at(&self, s: usize, row: usize) -> (r: bool)
        ensures
            r == self.sel_on(s as int, row as int),
    {
        if s < self.selectors.len() && row < self.selectors[s].len() {
            self.selectors[s][row]
        } else {
            false
        }
    }
}

/// What a single column query yields: the stored value, an unassigned-cell
/// error, or an out-of-bounds error.
pub open spec fn query_spec(grid: Seq<Vec<Option<Fp>>>, kind: ColumnKind, c: int, r: int, height: int) -> Result<
    nat,
    EvalError,
> {
    if 0 <= c < grid.len() && 0 <= r < height {
        match grid[c]@[r] {
            Some(f) => Ok(f@),
            None => Err(
                EvalError::Unassigned(
                    Cell { column: Column { kind, index: c as usize }, row: r as usize },
                ),
            ),
        }
    } else {
        Err(EvalError::OutOfBounds)
    }
}

/// What a selector query yields: the activation bit as 0 or 1.
pub open spec fn selector_query_spec(t: Table, s: int, row: int) -> Result<nat, EvalError> {
    if 0 <= s < t.selectors@.len() && 0 <= row < t.height {
        Ok(if t.selectors@[s]@[row] {
            1nat
        } else {
            0nat
        })
    } else {
        Err(EvalError::OutOfBounds)
    }
}

/// The value of an expression at an absolute row of a table, following
/// standard operator semantics over the field; rotation `r` in a leaf
/// means the column's value at `row + r`.
pub open spec fn eval_spec(e: Expression, t: Table, row: int) -> Result<nat, EvalError>
    decreases e,
{
    match e {
        Expression::Constant(f) => Ok(f@),
        Expression::Advice(c, rot) => query_spec(
            t.grid(ColumnKind::Advice),
            ColumnKind::Advice,
            c as int,
            row + rot,
            t.height as int,
        ),
        Expression::Fixed(c, rot) => query_spec(
            t.grid(ColumnKind::Fixed),
            ColumnKind::Fixed,
            c as int,
            row + rot,
            t.height as int,
        ),
        Expression::Instance(c, rot) => query_spec(
            t.grid(ColumnKind::Instance),
            ColumnKind::Instance,
            c as int,
            row + rot,
            t.height as int,
        ),
        Expression::Selector(s) => selector_query_spec(t, s.index as int, row),
        Expression::Sum(a, b) => match (eval_spec(*a, t, row), eval_spec(*b, t, row)) {
            (Ok(x), Ok(y)) => Ok(fadd(x, y)),
            (Err(e1), _) => Err(e1),
            (_, Err(e2)) => Err(e2),
        },
        Expression::Product(a, b) => match (eval_spec(*a, t, row), eval_spec(*b, t, row)) {
            (Ok(x), Ok(y)) => Ok(fmul(x, y)),
            (Err(e1), _) => Err(e1),
            (_, Err(e2)) => Err(e2),
        },
        Expression::Negate(a) => match eval_spec(*a, t, row) {
            Ok(x) => Ok(fneg(x)),
            Err(e1) => Err(e1),
        },
        Expression::Scaled(f, a) => match eval_spec(*a, t, row) {
            Ok(x) => Ok(fmul(f@, x)),
            Err(e1) => Err(e1),
        },
    }
}

/// The advice cells an expression reads at a row, with the values they
/// hold, in leaf order. Meaningful when evaluation succeeds, so that
/// every referenced cell is assigned.
pub open spec fn advice_cells_spec(e: Expression, t: Table, row: int) -> Seq<(Cell, nat)>
    decreases e,
{
    match e {
        Expression::Advice(c, rot) => seq![
            (
                Cell {
                    column: Column { kind: ColumnKind::Advice, index: c },
                    row: (row + rot) as usize,
                },
                match t.advice@[c as int]@[row + rot] {
                    Some(f) => f@,
                    None => 0nat,
                },
            ),
        ],
        Expression::Sum(a, b) => advice_cells_spec(*a, t, row) + advice_cells_spec(*b, t, row),
        Expression::Product(a, b) => advice_cells_spec(*a, t, row) + advice_cells_spec(*b, t, row),
        Expression::Negate(a) => advice_cells_spec(*a, t, row),
        Expression::Scaled(_, a) => advice_cells_spec(*a, t, row),
        _ => Seq::empty(),
    }
}

/// Collects the advice cells an expression reads at a row, with their
/// values, for violation diagnostics.
pub fn advice_cells(e: &Expression, t: &Table, row: usize) -> (r: Vec<(Cell, Fp)>)
    requires
        t.wf(),
        wf_expr(*e),
        row < t.height,
        eval_spec(*e, *t, row as int) is Ok,
    ensures
        r@.map_values(|p: (Cell, Fp)| (p.0, p.1@)) == advice_cells_spec(*e, *t, row as int),
    decreases *e,
{
    match e {
        Expression::Advice(c, rot) => {
            let target: i64 = row as i64 + *rot;
            assert(0 <= row as int + *rot < t.height as int);
            let r_abs: usize = target as usize;
            let mut out: Vec<(Cell, Fp)> = Vec::new();
            match t.advice[*c][r_abs] {
                Some(f) => {
                    out.push(
                        (
                            Cell {
                                column: Column { kind: ColumnKind::Advice, index: *c },
                                row: r_abs,
                            },
                            f,
                        ),
                    );
                },
                None => {
                    proof {
                        assert(false);
                    }
                },
            }
            proof {
                assert(out@.map_values(|p: (Cell, Fp)| (p.0, p.1@)) =~= advice_cells_spec(
                    *e,
                    *t,
                    row as int,
                ));
            }
            out
        },
        Expression::Sum(a, b) => {
            let mut va = advice_cells(a, t, row);
            let mut vb = advice_cells(b, t, row);
            va.append(&mut vb);
            proof {
                assert(va@.map_values(|p: (Cell, Fp)| (p.0, p.1@)) =~= advice_cells_spec(
                    *e,
                    *t,
                    row as int,
                ));
            }
            va
        },
        Expression::Product(a, b) => {
            let mut va = advice_cells(a, t, row);
            let mut vb = advice_cells(b, t, row);
            va.append(&mut vb);
            proof {
                assert(va@.map_values(|p: (Cell, Fp)| (p.0, p.1@)) =~= advice_cells_spec(
                    *e,
                    *t,
                    row as int,
                ));
            }
            va
        },
        Expression::Negate(a) => advice_cells(a, t, row),
        Expression::Scaled(_, a) => advice_cells(a, t, row),
        _ => {
            let out: Vec<(Cell, Fp)> = Vec::new();
            proof {
                assert(out@.map_values(|p: (Cell, Fp)| (p.0, p.1@)) =~= advice_cells_spec(
                    *e,
                    *t,
                    row as int,
                ));
            }
            out
        },
    }
}

/// Looks one column query up in the table.
fn query(t: &Table, kind: ColumnKind, c: usize, rot: i64, row: usize) -> (r: Result<Fp, EvalError>)
    requires
        t.wf(),
        -MAX_ROTATION <= rot <= MAX_ROTATION,
        row < t.height,
    ensures
        match r {
            Ok(f) => query_spec(t.grid(kind), kind, c as int, row + rot, t.height as int)
                == Ok::<nat, EvalError>(f@) && f.inv(),
            Err(er) => query_spec(t.grid(kind), kind, c as int, row + rot, t.height as int)
                == Err::<nat, EvalError>(er),
        },
{
    let target: i64 = row as i64 + rot;
    if target < 0 || target >= t.height as i64 {
        return Err(EvalError::OutOfBounds);
    }
    let r_abs: usize = target as usize;
    let grid: &Vec<Vec<Option<Fp>>> = match kind {
        ColumnKind::Advice => &t.advice,
        ColumnKind::Fixed => &t.fixed,
        ColumnKind::Instance => &t.instance,
    };
    if c >= grid.len() {
        return Err(EvalError::OutOfBounds);
    }
    match grid[c][r_abs] {
        Some(f) => Ok(f),
        None => Err(
            EvalError::Unassigned(Cell { column: Column { kind, index: c }, row: r_abs }),
        ),
    }
}

/// Evaluates an expression at an absolute row of a table.
pub fn eval(e: &Expression, t: &Table, row: usize) -> (r: Result<Fp, EvalError>)
    requires
        t.wf(),
        wf_expr(*e),
        row < t.height,
    ensures
        match r {
            Ok(f) => eval_spec(*e, *t, row as int) == Ok::<nat, EvalError>(f@) && f.inv(),
            Err(er) => eval_spec(*e, *t, row as int) == Err::<nat, EvalError>(er),
        },
    decreases *e,
{
    match e {
        Expression::Constant(f) => Ok(*f),
        Expression::Advice(c, rot) => query(t, ColumnKind::Advice, *c, *rot, row),
        Expression::Fixed(c, rot) => query(t, ColumnKind::Fixed, *c, *rot, row),
        Expression::Instance(c, rot) => query(t, ColumnKind::Instance, *c, *rot, row),
        Expression::Selector(s) => {
            if s.index >= t.selectors.len() {
                Err(EvalError::OutOfBounds)
            } else if t.selectors[s.index][row] {
                Ok(Fp::one())
            } else {
                Ok(Fp::zero())
            }
        },
        Expression::Sum(a, b) => {
            let ra = eval(a, t, row);
            match ra {
                Ok(x) => {
                    let rb = eval(b, t, row);
                    match rb {
                        Ok(y) => Ok(x.add(y)),
                        Err(e2) => Err(e2),
                    }
                },
                Err(e1) => Err(e1),
            }
        },
        Expression::Product(a, b) => {
            let ra = eval(a, t, row);
            match ra {
                Ok(x) => {
                    let rb = eval(b, t, row);
                    match rb {
                        Ok(y) => Ok(x.mul(y)),
                        Err(e2) => Err(e2),
                    }
                },
                Err(e1) => Err(e1),
            }
        },
        Expression::Negate(a) => {
            let ra = eval(a, t, row);
            match ra {
                Ok(x) => Ok(x.neg()),
                Err(e1) => Err(e1),
            }
        },
        Expression::Scaled(f, a) => {
            let ra = eval(a, t, row);
            match ra {
                Ok(x) => Ok(f.mul(x)),
                Err(e1) => Err(e1),
            }
        },
    }
}

} // verus!
