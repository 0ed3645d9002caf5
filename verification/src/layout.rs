//! Regions and the layouter.
//!
//! A region is a relocatable group of cell assignments, selector
//! activations, and equality links, expressed in region-local row
//! offsets. The layouter owns the finalized constraint system and the
//! table; committing a region reserves the next contiguous block of
//! absolute rows (simple sequential placement), translates every local
//! offset, writes the values, sets the selector bits, and registers the
//! equality links.

use vstd::prelude::*;

use crate::field::Fp;
use crate::ir::{Cell, Column, ColumnKind, Selector, Table, MAX_HEIGHT};
use crate::system::ConstraintSystem;

verus! {

/// A structural synthesis error. Constraint violations are not errors:
/// they are data reported by the satisfiability checker.
#[derive(Clone, Copy, Debug, PartialEq, Eq, Structural)]
pub enum Error {
    /// A column or selector was referenced that was never allocated, a
    /// region does not fit in the table, or a copy constraint touches a
    /// column without equality enabled.
    Configuration,
    /// A cell was assigned twice with differing values.
    AssignmentConflict(Cell),
    /// A required input value was absent when a region needed it.
    MissingWitness,
}

/// A committed cell together with the value it was assigned, handed back
/// to callers so they can chain values across regions.
#[derive(Clone, Copy, Debug, PartialEq, Eq, Structural)]
pub struct AssignedCell {
    pub cell: Cell,
    pub value: Fp,
}

/// A logical, relocatable group of cell assignments and selector
/// activations, in region-local offsets.
pub struct Region {
    /// The region's diagnostic name.
    pub name: String,
    /// One more than the largest touched offset; the number of absolute
    /// rows the region will occupy.
    pub extent: usize,
    /// `(local offset, column, value)` records.
    pub assignments: Vec<(usize, Column, Fp)>,
    /// `(selector index, local offset)` activations.
    pub selectors_on: Vec<(usize, usize)>,
    /// `(existing absolute cell, (column, local offset))` equality links.
    pub copies: Vec<(Cell, (Column, usize))>,
}

impl Region {
    /// Every recorded offset lies below the extent, the extent is
    /// bounded, and every recorded value is a reduced field element.
    pub open spec fn wf(self) -> bool {
        &&& self.extent <= MAX_HEIGHT
        &&& forall|i: int|
            0 <= i < self.assignments@.len() ==> (#[trigger] self.assignments@[i]).0
                < self.extent
        &&& forall|i: int|
            0 <= i < self.assignments@.len() ==> (#[trigger] self.assignments@[i]).2.inv()
        &&& forall|i: int|
            0 <= i < self.selectors_on@.len() ==> (#[trigger] self.selectors_on@[i]).1
                < self.extent
        &&& forall|i: int|
            0 <= i < self.copies@.len() ==> (#[trigger] self.copies@[i]).1.1 < self.extent
    }

    /// A fresh region with offset space starting at 0 and nothing
    /// recorded yet.
    pub fn new(name: String) -> (r: Region)
        ensures
            r.name == name,
            r.extent == 0,
            r.assignments@ == Seq::<(usize, Column, Fp)>::empty(),
            r.selectors_on@ == Seq::<(usize, usize)>::empty(),
            r.copies@ == Seq::<(Cell, (Column, usize))>::empty(),
            r.wf(),
    {
        Region {
            name,
            extent: 0,
            assignments: Vec::new(),
            selectors_on: Vec::new(),
            copies: Vec::new(),
        }
    }

    /// Records a value for a column at a region-local offset.
    pub fn assign_advice(&mut self, col: Column, offset: usize, value: Fp)
        requires
            old(self).wf(),
            offset < MAX_HEIGHT,
            value.inv(),
        ensures
            final(self).wf(),
            final(self).assignments@ == old(self).assignments@.push((offset, col, value)),
            final(self).selectors_on@ == old(self).selectors_on@,
            final(self).copies@ == old(self).copies@,
            final(self).extent == if offset + 1 > old(self).extent {
                offset + 1
            } else {
                old(self).extent as int
            },
    {
        if offset + 1 > self.extent {
            self.extent = offset + 1;
        }
        self.assignments.push((offset, col, value));
    }

    /// Records a selector activation at a region-local offset.
    pub fn enable_selector(&mut self, s: Selector, offset: usize)
        requires
            old(self).wf(),
            offset < MAX_HEIGHT,
        ensures
            final(self).wf(),
            final(self).assignments@ == old(self).assignments@,
            final(self).selectors_on@ == old(self).selectors_on@.push((s.index, offset)),
            final(self).copies@ == old(self).copies@,
            final(self).extent == if offset + 1 > old(self).extent {
                offset + 1
            } else {
                old(self).extent as int
            },
    {
        if offset + 1 > self.extent {
            self.extent = offset + 1;
        }
        self.selectors_on.push((s.index, offset));
    }

    /// Records the value of an already-committed cell at a new position
    /// and links the two cells with an equality constraint.
    pub fn copy_advice(&mut self, src: &AssignedCell, col: Column, offset: usize)
        requires
            old(self).wf(),
            offset < MAX_HEIGHT,
            src.value.inv(),
        ensures
            final(self).wf(),
            final(self).assignments@ == old(self).assignments@.push((offset, col, src.value)),
            final(self).selectors_on@ == old(self).selectors_on@,
            final(self).copies@ == old(self).copies@.push((src.cell, (col, offset))),
            final(self).extent == if offset + 1 > old(self).extent {
                offset + 1
            } else {
                old(self).extent as int
            },
    {
        if offset + 1 > self.extent {
            self.extent = offset + 1;
        }
        self.assignments.push((offset, col, src.value));
        self.copies.push((src.cell, (col, offset)));
    }
}

/// The table's shape matches the constraint system's registry.
pub open spec fn compat(cs: ConstraintSystem, t: Table) -> bool {
    &&& t.advice@.len() == cs.num_advice
    &&& t.fixed@.len() == cs.num_fixed
    &&& t.instance@.len() == cs.num_instance
    &&& t.selectors@.len() == cs.num_selectors
}

/// Structural validity of a region against the system and the table: the
/// region fits in the remaining rows, every column and selector was
/// allocated, and every equality link touches only equality-enabled
/// columns and an in-table source cell.
pub open spec fn region_structure_ok(
    cs: ConstraintSystem,
    t: Table,
    next: int,
    r: Region,
) -> bool {
    &&& next + r.extent <= t.height
    &&& forall|i: int|
        0 <= i < r.assignments@.len() ==> cs.column_allocated((#[trigger] r.assignments@[i]).1)
    &&& forall|i: int|
        0 <= i < r.selectors_on@.len() ==> (#[trigger] r.selectors_on@[i]).0 < cs.num_selectors
    &&& forall|i: int|
        0 <= i < r.copies@.len() ==> cs.equality_on((#[trigger] r.copies@[i]).0.column)
            && cs.equality_on(r.copies@[i].1.0) && cs.column_allocated(r.copies@[i].0.column)
            && cs.column_allocated(r.copies@[i].1.0) && r.copies@[i].0.row < t.height
}

/// No assignment of the region collides with a differing value, neither
/// against the table nor against another assignment of the same region.
pub open spec fn region_conflict_free(t: Table, next: int, r: Region) -> bool {
    &&& forall|i: int|
        0 <= i < r.assignments@.len() ==> (t.cell_value(
            Cell {
                column: (#[trigger] r.assignments@[i]).1,
                row: (next + r.assignments@[i].0) as usize,
            },
        ) matches Some(w) ==> w == r.assignments@[i].2)
    &&& forall|i: int, j: int|
        0 <= i < r.assignments@.len() && 0 <= j < r.assignments@.len()
            && (#[trigger] r.assignments@[i]).0 == (#[trigger] r.assignments@[j]).0
            && r.assignments@[i].1 == r.assignments@[j].1 ==> r.assignments@[i].2
            == r.assignments@[j].2
}

/// Whether some assignment of the region lands on the given column and
/// absolute row once the region is placed at `base`.
pub open spec fn region_assigns_cell(r: Region, base: int, col: Column, row: int) -> bool {
    exists|i: int|
        0 <= i < r.assignments@.len() && (#[trigger] r.assignments@[i]).1 == col && base
            + r.assignments@[i].0 == row
}

/// Whether some activation of the region lands on the given selector and
/// absolute row once the region is placed at `base`.
pub open spec fn region_sets_selector(r: Region, base: int, s: int, row: int) -> bool {
    exists|i: int|
        0 <= i < r.selectors_on@.len() && (#[trigger] r.selectors_on@[i]).0 == s && base
            + r.selectors_on@[i].1 == row
}

/// Like `region_assigns_cell`, but over the first `n` assignment records
/// only.
spec fn assigned_prefix(r: Region, base: int, col: Column, row: int, n: int) -> bool {
    exists|i: int|
        0 <= i < n && i < r.assignments@.len() && (#[trigger] r.assignments@[i]).1 == col && base
            + r.assignments@[i].0 == row
}

/// Like `region_sets_selector`, but over the first `n` activation records
/// only.
spec fn sel_prefix(r: Region, base: int, s: int, row: int, n: int) -> bool {
    exists|i: int|
        0 <= i < n && i < r.selectors_on@.len() && (#[trigger] r.selectors_on@[i]).0 == s && base
            + r.selectors_on@[i].1 == row
}

/// Asserting a cell with a differing value is an assignment conflict:
/// a structurally valid region that collides with an existing or
/// in-region value is always rejected as `Error::AssignmentConflict`.
/// The hypotheses on `res` are exactly what `Layouter::commit_region`
/// ensures of its result.
pub proof fn lemma_conflict_is_assignment_conflict(
    res: Result<usize, Error>,
    cs: ConstraintSystem,
    t: Table,
    next: int,
    r: Region,
)
    requires
        res is Ok <==> (region_structure_ok(cs, t, next, r) && region_conflict_free(t, next, r)),
        res == Err::<usize, Error>(Error::Configuration) ==> !region_structure_ok(cs, t, next, r),
        !(res matches Err(Error::MissingWitness)),
        region_structure_ok(cs, t, next, r),
        !region_conflict_free(t, next, r),
    ensures
        res matches Err(Error::AssignmentConflict(_)),
{
}

/// The region's equality links, translated to absolute cells at `base`.
pub open spec fn copies_abs(cps: Seq<(Cell, (Column, usize))>, base: int) -> Seq<(Cell, Cell)> {
    cps.map_values(
        |p: (Cell, (Column, usize))| (p.0, Cell { column: p.1.0, row: (base + p.1.1) as usize }),
    )
}

/// The rows the layouter has not yet handed out are untouched: no cell
/// at or past the next free row holds a value, and no selector bit is
/// set there. Holds of a fresh layouter and is preserved by every
/// commit.
pub open spec fn unassigned_from(l: Layouter) -> bool {
    &&& forall|cell: Cell| cell.row >= l.next_row ==> l.table.cell_value(cell) is None
    &&& forall|s: int, row: int| row >= l.next_row ==> !l.table.sel_on(s, row)
}

/// Maps each region to an absolute row range of the table, in program
/// order: the "simple" sequential placement. Owns the finalized system
/// and the growing assignment artifact.
pub struct Layouter {
    pub cs: ConstraintSystem,
    pub table: Table,
    pub next_row: usize,
}

impl Layouter {
    /// The system is well-formed, the table matches its registry, and the
    /// next free row is inside the table.
    pub open spec fn wf(self) -> bool {
        &&& self.cs.wf()
        &&& self.table.wf()
        &&& compat(self.cs, self.table)
        &&& self.next_row <= self.table.height
    }

    /// Consumes the finalized system and opens an all-unassigned table of
    /// the given height, finalizing the configuration phase by ownership.
    pub fn new(cs: ConstraintSystem, height: usize) -> (r: Layouter)
        requires
            cs.wf(),
            height <= MAX_HEIGHT,
        ensures
            r.wf(),
            r.cs == cs,
            r.next_row == 0,
            r.table.height == height,
            forall|cell: Cell| r.table.cell_value(cell) is None,
            forall|s: int, row: int| !r.table.sel_on(s, row),
            r.table.copies@ == Seq::<(Cell, Cell)>::empty(),
    {
        let advice = make_value_grid(cs.num_advice, height);
        let fixed = make_value_grid(cs.num_fixed, height);
        let instance = make_value_grid(cs.num_instance, height);
        let selectors = make_bit_grid(cs.num_selectors, height);
        let table = Table { height, advice, fixed, instance, selectors, copies: Vec::new() };
        Layouter { cs, table, next_row: 0 }
    }

    /// Commits a populated region: reserves the next contiguous block of
    /// absolute rows, writes every recorded value, sets every selector
    /// bit, registers every equality link, and returns the base row the
    /// region was placed at. On any error the layouter is unchanged.
    pub fn commit_region(&mut self, region: Region) -> (res: Result<usize, Error>)
        requires
            old(self).wf(),
            region.wf(),
        ensures
            final(self).wf(),
            final(self).cs == old(self).cs,
            res is Ok <==> (region_structure_ok(
                old(self).cs,
                old(self).table,
                old(self).next_row as int,
                region,
            ) && region_conflict_free(old(self).table, old(self).next_row as int, region)),
            res is Err ==> *final(self) == *old(self),
            res == Err::<usize, Error>(Error::Configuration) ==> !region_structure_ok(
                old(self).cs,
                old(self).table,
                old(self).next_row as int,
                region,
            ),
            res matches Err(Error::AssignmentConflict(_)) ==> !region_conflict_free(
                old(self).table,
                old(self).next_row as int,
                region,
            ),
            !(res matches Err(Error::MissingWitness)),
            res matches Ok(base) ==> ({
                &&& base == old(self).next_row
                &&& final(self).next_row == old(self).next_row + region.extent
                &&& final(self).table.height == old(self).table.height
                &&& forall|cell: Cell|
                    !region_assigns_cell(region, base as int, cell.column, cell.row as int)
                        ==> final(self).table.cell_value(cell) == old(self).table.cell_value(cell)
                &&& forall|i: int|
                    0 <= i < region.assignments@.len() ==> final(self).table.cell_value(
                        Cell {
                            column: (#[trigger] region.assignments@[i]).1,
                            row: (base + region.assignments@[i].0) as usize,
                        },
                    ) == Some(region.assignments@[i].2)
                &&& forall|s: int, row: int|
                    !region_sets_selector(region, base as int, s, row)
                        ==> final(self).table.sel_on(s, row) == old(self).table.sel_on(s, row)
                &&& forall|i: int|
                    0 <= i < region.selectors_on@.len() ==> final(self).table.sel_on(
                        (#[trigger] region.selectors_on@[i]).0 as int,
                        base + region.selectors_on@[i].1,
                    )
                &&& final(self).table.copies@ == old(self).table.copies@ + copies_abs(
                    region.copies@,
                    base as int,
                )
            }),
    {
        let ghost t0 = self.table;
        let ghost next0 = self.next_row as int;
        match self.validate_region(&region) {
            Err(e) => {
                return Err(e);
            },
            Ok(()) => {},
        }
        let base = self.next_row;
        let mut i: usize = 0;
        while i < region.assignments.len()
            invariant
                self.wf(),
                region.wf(),
                self.cs == old(self).cs,
                self.next_row == base,
                base as int == next0,
                self.table.height == t0.height,
                region_structure_ok(self.cs, t0, next0, region),
                region_conflict_free(t0, next0, region),
                i <= region.assignments@.len(),
                self.table.selectors@ == t0.selectors@,
                self.table.copies@ == t0.copies@,
                forall|cell: Cell|
                    !assigned_prefix(region, next0, cell.column, cell.row as int, i as int)
                        ==> self.table.cell_value(cell) == t0.cell_value(cell),
                forall|j: int|
                    0 <= j < i ==> self.table.cell_value(
                        Cell {
                            column: (#[trigger] region.assignments@[j]).1,
                            row: (next0 + region.assignments@[j].0) as usize,
                        },
                    ) == Some(region.assignments@[j].2),
            decreases region.assignments.len() - i,
        {
            let (off, col, v) = region.assignments[i];
            let row = base + off;
            let ghost tpre = self.table;
            match col.kind {
                ColumnKind::Advice => {
                    self.table.advice[col.index][row] = Some(v);
                },
                ColumnKind::Fixed => {
                    self.table.fixed[col.index][row] = Some(v);
                },
                ColumnKind::Instance => {
                    self.table.instance[col.index][row] = Some(v);
                },
            }
            proof {
                let wcell = Cell { column: col, row };
                assert forall|cell: Cell| cell != wcell implies self.table.cell_value(cell)
                    == tpre.cell_value(cell) by {}
                assert(self.table.cell_value(wcell) == Some(v));
                assert(assigned_prefix(region, next0, col, row as int, i + 1)) by {
                    assert((#[trigger] region.assignments@[i as int]).1 == col && next0
                        + region.assignments@[i as int].0 == row as int);
                }
                assert forall|j: int| 0 <= j < i + 1 implies self.table.cell_value(
                    Cell {
                        column: (#[trigger] region.assignments@[j]).1,
                        row: (next0 + region.assignments@[j].0) as usize,
                    },
                ) == Some(region.assignments@[j].2) by {
                    if j < i {
                        if region.assignments@[j].1 == col && region.assignments@[j].0 == off {
                            assert(region.assignments@[j].2 == region.assignments@[i as int].2);
                        }
                    }
                }
            }
            i = i + 1;
        }
        let mut i: usize = 0;
        while i < region.selectors_on.len()
            invariant
                self.wf(),
                region.wf(),
                self.cs == old(self).cs,
                self.next_row == base,
                base as int == next0,
                self.table.height == t0.height,
                region_structure_ok(self.cs, t0, next0, region),
                i <= region.selectors_on@.len(),
                self.table.copies@ == t0.copies@,
                forall|cell: Cell|
                    !assigned_prefix(
                        region,
                        next0,
                        cell.column,
                        cell.row as int,
                        region.assignments@.len() as int,
                    ) ==> self.table.cell_value(cell) == t0.cell_value(cell),
                forall|j: int|
                    0 <= j < region.assignments@.len() ==> self.table.cell_value(
                        Cell {
                            column: (#[trigger] region.assignments@[j]).1,
                            row: (next0 + region.assignments@[j].0) as usize,
                        },
                    ) == Some(region.assignments@[j].2),
                forall|s: int, row: int|
                    !sel_prefix(region, next0, s, row, i as int) ==> self.table.sel_on(s, row)
                        == t0.sel_on(s, row),
                forall|j: int|
                    0 <= j < i ==> self.table.sel_on(
                        (#[trigger] region.selectors_on@[j]).0 as int,
                        next0 + region.selectors_on@[j].1,
                    ),
            decreases region.selectors_on.len() - i,
        {
            let (s, off) = region.selectors_on[i];
            proof {
                assert((#[trigger] region.selectors_on@[i as int]).0 < self.cs.num_selectors);
                assert((#[trigger] region.selectors_on@[i as int]).1 < region.extent);
            }
            let row = base + off;
            let ghost tpre = self.table;
            proof {
                assert(self.table.selectors@[s as int]@.len() == self.table.height);
            }
            self.table.selectors[s][row] = true;
            proof {
                assert forall|s2: int, row2: int| !(s2 == s as int && row2 == row as int) implies
                    self.table.sel_on(s2, row2) == tpre.sel_on(s2, row2) by {
                    if 0 <= s2 < self.table.selectors@.len() {
                        if s2 == s as int {
                            assert(self.table.selectors@[s2]@ == tpre.selectors@[s2]@.update(
                                row as int,
                                true,
                            ));
                        } else {
                            assert(self.table.selectors@[s2] == tpre.selectors@[s2]);
                        }
                    }
                }
                assert(self.table.sel_on(s as int, row as int));
                assert(sel_prefix(region, next0, s as int, row as int, i + 1)) by {
                    assert((#[trigger] region.selectors_on@[i as int]).0 == s && next0
                        + region.selectors_on@[i as int].1 == row as int);
                }
            }
            i = i + 1;
        }
        let ghost t2 = self.table;
        let mut i: usize = 0;
        while i < region.copies.len()
            invariant
                self.wf(),
                region.wf(),
                self.cs == old(self).cs,
                self.next_row == base,
                base as int == next0,
                self.table.height == t0.height,
                region_structure_ok(self.cs, t0, next0, region),
                i <= region.copies@.len(),
                t2.copies@ == t0.copies@,
                self.table == (Table { copies: self.table.copies, ..t2 }),
                self.table.copies@ == t2.copies@ + copies_abs(
                    region.copies@.take(i as int),
                    next0,
                ),
                forall|cell: Cell|
                    !assigned_prefix(
                        region,
                        next0,
                        cell.column,
                        cell.row as int,
                        region.assignments@.len() as int,
                    ) ==> self.table.cell_value(cell) == t0.cell_value(cell),
                forall|j: int|
                    0 <= j < region.assignments@.len() ==> self.table.cell_value(
                        Cell {
                            column: (#[trigger] region.assignments@[j]).1,
                            row: (next0 + region.assignments@[j].0) as usize,
                        },
                    ) == Some(region.assignments@[j].2),
                forall|s: int, row: int|
                    !sel_prefix(region, next0, s, row, region.selectors_on@.len() as int)
                        ==> self.table.sel_on(s, row) == t0.sel_on(s, row),
                forall|j: int|
                    0 <= j < region.selectors_on@.len() ==> self.table.sel_on(
                        (#[trigger] region.selectors_on@[j]).0 as int,
                        next0 + region.selectors_on@[j].1,
                    ),
            decreases region.copies.len() - i,
        {
            let (src, (col, off)) = region.copies[i];
            self.table.copies.push((src, Cell { column: col, row: base + off }));
            proof {
                assert(region.copies@.take(i + 1) == region.copies@.take(i as int).push(
                    region.copies@[i as int],
                ));
                assert(self.table.copies@ == t2.copies@ + copies_abs(
                    region.copies@.take(i + 1),
                    next0,
                )) by {
                    assert(copies_abs(region.copies@.take(i + 1), next0) =~= copies_abs(
                        region.copies@.take(i as int),
                        next0,
                    ).push(
                        (
                            region.copies@[i as int].0,
                            Cell {
                                column: region.copies@[i as int].1.0,
                                row: (next0 + region.copies@[i as int].1.1) as usize,
                            },
                        ),
                    ));
                }
            }
            i = i + 1;
        }
        self.next_row = base + region.extent;
        proof {
            assert(region.copies@.take(region.copies@.len() as int) == region.copies@);
            assert forall|cell: Cell|
                !region_assigns_cell(region, next0, cell.column, cell.row as int)
                    implies !assigned_prefix(
                    region,
                    next0,
                    cell.column,
                    cell.row as int,
                    region.assignments@.len() as int,
                ) by {}
            assert forall|s: int, row: int| !region_sets_selector(region, next0, s, row) implies
                !sel_prefix(region, next0, s, row, region.selectors_on@.len() as int) by {}
        }
        Ok(base)
    }

    /// Hands the two build-once artifacts to the consumer: the finalized
    /// constraint system and the completed assignment table.
    pub fn finish(self) -> (r: (ConstraintSystem, Table))
        ensures
            r.0 == self.cs,
            r.1 == self.table,
    {
        (self.cs, self.table)
    }

    /// Checks a region against the system and the current table without
    /// changing anything, deciding exactly whether a commit would
    /// succeed.
    fn validate_region(&self, region: &Region) -> (res: Result<(), Error>)
        requires
            self.wf(),
            region.wf(),
        ensures
            res is Ok <==> (region_structure_ok(self.cs, self.table, self.next_row as int, *region)
                && region_conflict_free(self.table, self.next_row as int, *region)),
            res == Err::<(), Error>(Error::Configuration) ==> !region_structure_ok(
                self.cs,
                self.table,
                self.next_row as int,
                *region,
            ),
            res matches Err(Error::AssignmentConflict(_)) ==> !region_conflict_free(
                self.table,
                self.next_row as int,
                *region,
            ),
            !(res matches Err(Error::MissingWitness)),
    {
        let next = self.next_row;
        if region.extent > self.table.height - next {
            return Err(Error::Configuration);
        }
        let mut i: usize = 0;
        while i < region.assignments.len()
            invariant
                self.wf(),
                region.wf(),
                i <= region.assignments@.len(),
                forall|j: int|
                    0 <= j < i ==> self.cs.column_allocated(
                        (#[trigger] region.assignments@[j]).1,
                    ),
            decreases region.assignments.len() - i,
        {
            if !self.cs.has_column(region.assignments[i].1) {
                return Err(Error::Configuration);
            }
            i = i + 1;
        }
        let mut i: usize = 0;
        while i < region.selectors_on.len()
            invariant
                self.wf(),
                region.wf(),
                i <= region.selectors_on@.len(),
                forall|j: int|
                    0 <= j < i ==> (#[trigger] region.selectors_on@[j]).0 < self.cs.num_selectors,
            decreases region.selectors_on.len() - i,
        {
            if region.selectors_on[i].0 >= self.cs.num_selectors {
                return Err(Error::Configuration);
            }
            i = i + 1;
        }
        let mut i: usize = 0;
        while i < region.copies.len()
            invariant
                self.wf(),
                region.wf(),
                i <= region.copies@.len(),
                forall|j: int|
                    0 <= j < i ==> self.cs.equality_on((#[trigger] region.copies@[j]).0.column)
                        && self.cs.equality_on(region.copies@[j].1.0) && self.cs.column_allocated(
                        region.copies@[j].0.column,
                    ) && self.cs.column_allocated(region.copies@[j].1.0)
                        && region.copies@[j].0.row < self.table.height,
            decreases region.copies.len() - i,
        {
            let (src, (col, _off)) = region.copies[i];
            if !self.cs.has_equality(src.column) || !self.cs.has_equality(col)
                || !self.cs.has_column(src.column) || !self.cs.has_column(col) || src.row
                >= self.table.height {
                return Err(Error::Configuration);
            }
            i = i + 1;
        }
        let mut i: usize = 0;
        while i < region.assignments.len()
            invariant
                self.wf(),
                region.wf(),
                next == self.next_row,
                next + region.extent <= self.table.height,
                i <= region.assignments@.len(),
                forall|j: int|
                    0 <= j < i ==> (self.table.cell_value(
                        Cell {
                            column: (#[trigger] region.assignments@[j]).1,
                            row: (next + region.assignments@[j].0) as usize,
                        },
                    ) matches Some(w) ==> w == region.assignments@[j].2),
            decreases region.assignments.len() - i,
        {
            let (off, col, v) = region.assignments[i];
            let cell = Cell { column: col, row: next + off };
            match self.table.get_cell(cell) {
                Some(w) => {
                    if !w.equals(v) {
                        return Err(Error::AssignmentConflict(cell));
                    }
                    proof {
                        crate::field::lemma_fp_eq(w, v);
                    }
                },
                None => {},
            }
            i = i + 1;
        }
        let mut i: usize = 0;
        while i < region.assignments.len()
            invariant
                self.wf(),
                region.wf(),
                next == self.next_row,
                next + region.extent <= self.table.height,
                i <= region.assignments@.len(),
                forall|j: int, k: int|
                    0 <= j < i && 0 <= k < region.assignments@.len()
                        && (#[trigger] region.assignments@[j]).0 == (
                    #[trigger] region.assignments@[k]).0 && region.assignments@[j].1
                        == region.assignments@[k].1 ==> region.assignments@[j].2
                        == region.assignments@[k].2,
            decreases region.assignments.len() - i,
        {
            let (off, col, v) = region.assignments[i];
            let mut j: usize = 0;
            while j < region.assignments.len()
                invariant
                    self.wf(),
                    region.wf(),
                    next + region.extent <= self.table.height,
                    i < region.assignments@.len(),
                    (off, col, v) == region.assignments@[i as int],
                    j <= region.assignments@.len(),
                    forall|k: int|
                        0 <= k < j && (#[trigger] region.assignments@[k]).0 == off
                            && region.assignments@[k].1 == col ==> region.assignments@[k].2 == v,
                decreases region.assignments.len() - j,
            {
                let (off2, col2, v2) = region.assignments[j];
                if off2 == off && col2 == col && !v2.equals(v) {
                    return Err(Error::AssignmentConflict(Cell { column: col, row: next + off }));
                }
                proof {
                    if region.assignments@[j as int].0 == off && region.assignments@[j as int].1
                        == col {
                        crate::field::lemma_fp_eq(v2, v);
                    }
                }
                j = j + 1;
            }
            i = i + 1;
        }
        proof {
            assert forall|j: int, k: int|
                0 <= j < region.assignments@.len() && 0 <= k < region.assignments@.len()
                    && (#[trigger] region.assignments@[j]).0 == (
                #[trigger] region.assignments@[k]).0 && region.assignments@[j].1
                    == region.assignments@[k].1 implies region.assignments@[j].2
                == region.assignments@[k].2 by {}
        }
        Ok(())
    }
}

/// A grid of `cols` columns of `height` unassigned cells each.
fn make_value_grid(cols: usize, height: usize) -> (g: Vec<Vec<Option<Fp>>>)
    ensures
        g@.len() == cols,
        forall|c: int| 0 <= c < cols ==> (#[trigger] g@[c])@.len() == height,
        forall|c: int, r: int| 0 <= c < cols && 0 <= r < height ==> g@[c]@[r] is None,
{
    let mut g: Vec<Vec<Option<Fp>>> = Vec::new();
    let mut c: usize = 0;
    while c < cols
        invariant
            c <= cols,
            g@.len() == c,
            forall|k: int| 0 <= k < c ==> (#[trigger] g@[k])@.len() == height,
            forall|k: int, r: int| 0 <= k < c && 0 <= r < height ==> g@[k]@[r] is None,
        decreases cols - c,
    {
        let mut col: Vec<Option<Fp>> = Vec::new();
        let mut r: usize = 0;
        while r < height
            invariant
                r <= height,
                col@.len() == r,
                forall|k: int| 0 <= k < r ==> col@[k] is None,
            decreases height - r,
        {
            col.push(None);
            r = r + 1;
        }
        g.push(col);
        c = c + 1;
    }
    g
}

/// A grid of `cols` selector columns, every bit inactive.
fn make_bit_grid(cols: usize, height: usize) -> (g: Vec<Vec<bool>>)
    ensures
        g@.len() == cols,
        forall|c: int| 0 <= c < cols ==> (#[trigger] g@[c])@.len() == height,
        forall|c: int, r: int| 0 <= c < cols && 0 <= r < height ==> !g@[c]@[r],
{
    let mut g: Vec<Vec<bool>> = Vec::new();
    let mut c: usize = 0;
    while c < cols
        invariant
            c <= cols,
            g@.len() == c,
            forall|k: int| 0 <= k < c ==> (#[trigger] g@[k])@.len() == height,
            forall|k: int, r: int| 0 <= k < c && 0 <= r < height ==> !g@[k]@[r],
        decreases cols - c,
    {
        let mut col: Vec<bool> = Vec::new();
        let mut r: usize = 0;
        while r < height
            invariant
                r <= height,
                col@.len() == r,
                forall|k: int| 0 <= k < r ==> !col@[k],
            decreases height - r,
        {
            col.push(false);
            r = r + 1;
        }
        g.push(col);
        c = c + 1;
    }
    g
}

} // verus!
