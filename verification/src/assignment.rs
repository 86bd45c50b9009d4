//! The table of one witness: cell values, enabled selectors and copy
//! constraints, filled region by region.
//!
//! Every operation only adds to the table. Nothing is checked against the
//! gates here, and copy constraints are recorded, not compared.
use crate::column::{declares, lookup, Cell, Column, ColumnInfo, ColumnKind, Selector};
use crate::constraint_system::ConstraintSystem;
use crate::field::{modulus, FieldElement};
use vstd::prelude::*;

verus! {

/// Why an assignment was refused.
#[derive(Clone, Copy, Debug, PartialEq, Eq, Structural)]
pub enum AssignmentError {
    /// The row lies outside the region, or the region outside the table.
    RowOutOfRange,
    /// The column or selector is not declared in the relation.
    Undeclared,
    /// The public column takes its values from the instance alone.
    NotAssignable,
    /// The cell holds a value already.
    AlreadyAssigned,
    /// The cell holds no value yet.
    Unassigned,
    /// The column is not enabled for copy constraints.
    EqualityNotEnabled,
    /// The instance has no entry with that index.
    InstanceOutOfRange,
}

/// Two cells asserted to hold the same value.
#[derive(Clone, Copy, Debug, PartialEq, Eq, Structural)]
pub struct CopyConstraint {
    pub left: Cell,
    pub right: Cell,
}

/// A window of consecutive rows of the table. Operations address its rows by
/// their offset from `start`.
#[derive(Clone, Copy, Debug, PartialEq, Eq, Structural)]
pub struct Region {
    pub start: usize,
    pub len: usize,
}

/// A cell together with the value that was written to it.
#[derive(Clone, Copy, Debug, PartialEq, Eq)]
pub struct AssignedCell {
    pub cell: Cell,
    pub value: FieldElement,
}

impl AssignedCell {
    /// The cell and the residue written to it.
    pub open spec fn view(&self) -> (Cell, nat) {
        (self.cell, self.value@)
    }

    pub open spec fn wf(&self) -> bool {
        self.value.wf()
    }
}

/// The mathematical content of an [`Assignment`].
pub struct TableModel {
    /// The relation's columns, as the registry held them when the table was made.
    pub columns: Seq<ColumnInfo>,
    /// The number of rows, the same in every column.
    pub rows: nat,
    /// The values, by column number and row; `None` where nothing is written.
    pub cells: Seq<Seq<Option<nat>>>,
    /// For each selector, the rows on which it is enabled.
    pub selectors: Seq<Seq<bool>>,
    /// The copy constraints, in the order in which they were recorded.
    pub copies: Seq<CopyConstraint>,
    /// The public values that the witness was computed from.
    pub instance: Seq<nat>,
    /// The first row that no region covers yet.
    pub next_row: nat,
}

impl TableModel {
    /// The table's invariant: every column and selector spans all rows, and
    /// every value is a residue.
    pub open spec fn wf(self) -> bool {
        &&& self.rows <= usize::MAX
        &&& self.next_row <= self.rows
        &&& self.cells.len() == self.columns.len()
        &&& forall|c: int| 0 <= c < self.cells.len() ==> (#[trigger] self.cells[c]).len() == self.rows
        &&& forall|s: int|
            0 <= s < self.selectors.len() ==> (#[trigger] self.selectors[s]).len() == self.rows
        &&& forall|c: int, r: int|
            0 <= c < self.cells.len() && 0 <= r < self.rows && (
            #[trigger] self.cells[c][r]) is Some ==> self.cells[c][r].unwrap() < modulus()
        &&& forall|i: int| 0 <= i < self.instance.len() ==> (#[trigger] self.instance[i]) < modulus()
    }

    /// Nothing that `earlier` holds is lost or changed: the shape and the
    /// instance are the same, every value written and every selector enabled
    /// is still there, and the copy constraints go on from those of
    /// `earlier`.
    pub open spec fn extends(self, earlier: TableModel) -> bool {
        &&& self.columns == earlier.columns
        &&& self.rows == earlier.rows
        &&& self.instance == earlier.instance
        &&& self.cells.len() == earlier.cells.len()
        &&& self.selectors.len() == earlier.selectors.len()
        &&& earlier.next_row <= self.next_row
        &&& forall|c: int, r: int|
            0 <= c < earlier.cells.len() && 0 <= r < earlier.cells[c].len() && (
            #[trigger] earlier.cells[c][r]) is Some ==> r < self.cells[c].len() && self.cells[c][r]
                == earlier.cells[c][r]
        &&& forall|s: int, r: int|
            0 <= s < earlier.selectors.len() && 0 <= r < earlier.selectors[s].len() && (
            #[trigger] earlier.selectors[s][r]) ==> r < self.selectors[s].len()
                && self.selectors[s][r]
        &&& earlier.copies.len() <= self.copies.len()
        &&& forall|i: int|
            0 <= i < earlier.copies.len() ==> self.copies[i] == (#[trigger] earlier.copies[i])
    }

    /// A table that extends one that extends a third extends the third.
    pub proof fn lemma_extends_transitive(self, middle: TableModel, earlier: TableModel)
        requires
            self.extends(middle),
            middle.extends(earlier),
        ensures
            self.extends(earlier),
    {
        assert forall|c: int, r: int|
            0 <= c < earlier.cells.len() && 0 <= r < earlier.cells[c].len() && (
            #[trigger] earlier.cells[c][r]) is Some implies r < self.cells[c].len()
            && self.cells[c][r] == earlier.cells[c][r] by {
            assert(middle.cells[c][r] is Some);
        }
        assert forall|s: int, r: int|
            0 <= s < earlier.selectors.len() && 0 <= r < earlier.selectors[s].len() && (
            #[trigger] earlier.selectors[s][r]) implies r < self.selectors[s].len()
            && self.selectors[s][r] by {
            assert(middle.selectors[s][r]);
        }
        assert forall|i: int| 0 <= i < earlier.copies.len() implies self.copies[i] == (
        #[trigger] earlier.copies[i]) by {
            assert(middle.copies[i] == earlier.copies[i]);
        }
    }

    /// A cell is written once. What a table holds in a cell, every table
    /// that extends it holds there too, and nothing more can be assigned to
    /// that cell, through whatever region.
    pub proof fn lemma_written_once(self, earlier: TableModel, cell: Cell, region: Region, offset: usize)
        requires
            self.extends(earlier),
            earlier.value(cell) is Some,
        ensures
            self.value(cell) == earlier.value(cell),
            self.row_of(region, offset) == Some(cell.row) ==> self.assignable(
                region,
                cell.column,
                offset,
            ) == Err::<usize, _>(AssignmentError::AlreadyAssigned),
    {
        assert(earlier.cells[cell.column.id as int][cell.row as int] is Some);
    }

    /// The empty table of a relation.
    pub open spec fn fresh(
        columns: Seq<ColumnInfo>,
        selectors: nat,
        rows: nat,
        instance: Seq<nat>,
    ) -> TableModel {
        TableModel {
            columns,
            rows,
            cells: Seq::new(columns.len(), |c: int| Seq::new(rows, |r: int| None::<nat>)),
            selectors: Seq::new(selectors, |s: int| Seq::new(rows, |r: int| false)),
            copies: Seq::empty(),
            instance,
            next_row: 0,
        }
    }

    /// The row of the table that `offset` names within `region`, if there is one.
    pub open spec fn row_of(self, region: Region, offset: usize) -> Option<usize> {
        if offset < region.len && region.start + offset < self.rows {
            Some((region.start + offset) as usize)
        } else {
            None
        }
    }

    /// What the table holds in a cell of a private or fixed column.
    pub open spec fn value(self, cell: Cell) -> Option<nat> {
        if declares(self.columns, cell.column) && cell.column.kind != ColumnKind::Public
            && cell.column.id < self.cells.len() && cell.row < self.cells[cell.column.id as int].len() {
            self.cells[cell.column.id as int][cell.row as int]
        } else {
            None
        }
    }

    /// Whether a selector is enabled on a row.
    pub open spec fn enabled(self, selector: Selector, row: int) -> bool {
        &&& selector.id < self.selectors.len()
        &&& 0 <= row < self.selectors[selector.id as int].len()
        &&& self.selectors[selector.id as int][row]
    }

    /// The table with `v` in `cell`.
    pub open spec fn with_value(self, cell: Cell, v: nat) -> TableModel {
        TableModel {
            cells: self.cells.update(
                cell.column.id as int,
                self.cells[cell.column.id as int].update(cell.row as int, Some(v)),
            ),
            ..self
        }
    }

    /// The table with one more copy constraint.
    pub open spec fn with_copy(self, left: Cell, right: Cell) -> TableModel {
        TableModel { copies: self.copies.push(CopyConstraint { left, right }), ..self }
    }

    /// Opening a region of `len` rows behind the regions opened so far.
    pub open spec fn open_region(self, len: usize) -> Result<(TableModel, Region), AssignmentError> {
        if self.next_row + len > self.rows {
            Err(AssignmentError::RowOutOfRange)
        } else {
            Ok(
                (
                    TableModel { next_row: self.next_row + len as nat, ..self },
                    Region { start: self.next_row as usize, len },
                ),
            )
        }
    }

    /// Enabling a selector on a row of a region. Doing so twice changes nothing.
    pub open spec fn enable_selector(self, region: Region, selector: Selector, offset: usize) -> Result<
        TableModel,
        AssignmentError,
    > {
        if selector.id >= self.selectors.len() {
            Err(AssignmentError::Undeclared)
        } else {
            match self.row_of(region, offset) {
                None => Err(AssignmentError::RowOutOfRange),
                Some(row) => Ok(
                    TableModel {
                        selectors: self.selectors.update(
                            selector.id as int,
                            self.selectors[selector.id as int].update(row as int, true),
                        ),
                        ..self
                    },
                ),
            }
        }
    }

    /// The row at which a value may be written: the column is a declared
    /// private or fixed one, the row exists, and the cell is still empty.
    pub open spec fn assignable(self, region: Region, column: Column, offset: usize) -> Result<
        usize,
        AssignmentError,
    > {
        if !declares(self.columns, column) {
            Err(AssignmentError::Undeclared)
        } else if column.kind == ColumnKind::Public {
            Err(AssignmentError::NotAssignable)
        } else {
            match self.row_of(region, offset) {
                None => Err(AssignmentError::RowOutOfRange),
                Some(row) => if self.value(Cell { column, row }) is Some {
                    Err(AssignmentError::AlreadyAssigned)
                } else {
                    Ok(row)
                },
            }
        }
    }

    /// Writing `v` to a cell of a region.
    pub open spec fn assign(self, region: Region, column: Column, offset: usize, v: nat) -> Result<
        (TableModel, Cell),
        AssignmentError,
    > {
        match self.assignable(region, column, offset) {
            Err(e) => Err(e),
            Ok(row) => Ok((self.with_value(Cell { column, row }, v), Cell { column, row })),
        }
    }

    /// The value of a cell: of the instance for the public column, of the
    /// table for the others.
    pub open spec fn read(self, cell: Cell) -> Result<nat, AssignmentError> {
        if !declares(self.columns, cell.column) {
            Err(AssignmentError::Undeclared)
        } else if cell.column.kind == ColumnKind::Public {
            if cell.row < self.instance.len() {
                Ok(self.instance[cell.row as int])
            } else {
                Err(AssignmentError::InstanceOutOfRange)
            }
        } else if cell.row >= self.rows {
            Err(AssignmentError::RowOutOfRange)
        } else {
            match self.value(cell) {
                Some(v) => Ok(v),
                None => Err(AssignmentError::Unassigned),
            }
        }
    }

    /// Replacing the value of a written cell of a private or fixed column.
    pub open spec fn overwrite(self, cell: Cell, v: nat) -> Result<TableModel, AssignmentError> {
        if !declares(self.columns, cell.column) {
            Err(AssignmentError::Undeclared)
        } else if cell.column.kind == ColumnKind::Public {
            Err(AssignmentError::NotAssignable)
        } else if cell.row >= self.rows {
            Err(AssignmentError::RowOutOfRange)
        } else if self.value(cell) is None {
            Err(AssignmentError::Unassigned)
        } else {
            Ok(self.with_value(cell, v))
        }
    }

    /// The value of a cell that may stand in a copy constraint.
    pub open spec fn linkable(self, cell: Cell) -> Result<nat, AssignmentError> {
        match self.read(cell) {
            Err(e) => Err(e),
            Ok(v) => if self.columns[cell.column.id as int].equality_enabled {
                Ok(v)
            } else {
                Err(AssignmentError::EqualityNotEnabled)
            },
        }
    }

    /// Recording that two cells must agree.
    pub open spec fn constrain_equal(self, left: Cell, right: Cell) -> Result<
        TableModel,
        AssignmentError,
    > {
        match self.linkable(left) {
            Err(e) => Err(e),
            Ok(_) => match self.linkable(right) {
                Err(e) => Err(e),
                Ok(_) => Ok(self.with_copy(left, right)),
            },
        }
    }

    /// Writing the value of `from` to a cell of a region, and recording that
    /// the two must agree.
    pub open spec fn copy(self, region: Region, from: Cell, column: Column, offset: usize) -> Result<
        (TableModel, Cell),
        AssignmentError,
    > {
        match self.linkable(from) {
            Err(e) => Err(e),
            Ok(v) => match self.assignable(region, column, offset) {
                Err(e) => Err(e),
                Ok(row) => if self.columns[column.id as int].equality_enabled {
                    let cell = Cell { column, row };
                    Ok((self.with_value(cell, v).with_copy(from, cell), cell))
                } else {
                    Err(AssignmentError::EqualityNotEnabled)
                },
            },
        }
    }
}

/// The residue in a cell, if it holds one.
pub open spec fn value_of(slot: Option<FieldElement>) -> Option<nat> {
    match slot {
        Some(v) => Some(v@),
        None => None,
    }
}

/// The residues in a column.
pub open spec fn column_view(column: Seq<Option<FieldElement>>) -> Seq<Option<nat>> {
    Seq::new(column.len(), |r: int| value_of(column[r]))
}

/// The residues that a list of field elements stands for.
pub open spec fn values(elements: Seq<FieldElement>) -> Seq<nat> {
    Seq::new(elements.len(), |i: int| elements[i]@)
}

/// The table of one witness for one relation.
#[derive(Debug)]
pub struct Assignment {
    columns: Vec<ColumnInfo>,
    rows: usize,
    cells: Vec<Vec<Option<FieldElement>>>,
    selectors: Vec<Vec<bool>>,
    copies: Vec<CopyConstraint>,
    instance: Vec<FieldElement>,
    next_row: usize,
}

fn blank_column(rows: usize) -> (r: Vec<Option<FieldElement>>)
    ensures
        r@ == Seq::new(rows as nat, |i: int| None::<FieldElement>),
{
    let mut column: Vec<Option<FieldElement>> = Vec::new();
    let mut i: usize = 0;
    while i < rows
        invariant
            i <= rows,
            column@ == Seq::new(i as nat, |k: int| None::<FieldElement>),
        decreases rows - i,
    {
        column.push(None);
        i += 1;
        assert(column@ =~= Seq::new(i as nat, |k: int| None::<FieldElement>));
    }
    column
}

fn blank_selector(rows: usize) -> (r: Vec<bool>)
    ensures
        r@ == Seq::new(rows as nat, |i: int| false),
{
    let mut column: Vec<bool> = Vec::new();
    let mut i: usize = 0;
    while i < rows
        invariant
            i <= rows,
            column@ == Seq::new(i as nat, |k: int| false),
        decreases rows - i,
    {
        column.push(false);
        i += 1;
        assert(column@ =~= Seq::new(i as nat, |k: int| false));
    }
    column
}

impl Assignment {
    pub closed spec fn view(&self) -> TableModel {
        TableModel {
            columns: self.columns@,
            rows: self.rows as nat,
            cells: Seq::new(self.cells@.len(), |c: int| column_view(self.cells@[c]@)),
            selectors: Seq::new(self.selectors@.len(), |s: int| self.selectors@[s]@),
            copies: self.copies@,
            instance: values(self.instance@),
            next_row: self.next_row as nat,
        }
    }

    pub open spec fn wf(&self) -> bool {
        self@.wf()
    }

    /// The empty table of `rows` rows for the relation that `system`
    /// declares, with the public values that the witness starts from.
    pub fn new(system: &ConstraintSystem, rows: usize, instance: Vec<FieldElement>) -> (r:
        Assignment)
        requires
            system.wf(),
            forall|i: int| 0 <= i < instance@.len() ==> (#[trigger] instance@[i]).wf(),
        ensures
            r.wf(),
            r@ == TableModel::fresh(
                system@.columns,
                system@.selectors,
                rows as nat,
                values(instance@),
            ),
    {
        let declared = system.columns();
        let mut columns: Vec<ColumnInfo> = Vec::new();
        let mut cells: Vec<Vec<Option<FieldElement>>> = Vec::new();
        let mut c: usize = 0;
        while c < declared.len()
            invariant
                c <= declared.len(),
                columns@ == declared@.take(c as int),
                cells@.len() == c,
                forall|k: int|
                    0 <= k < c ==> (#[trigger] cells@[k])@ == Seq::new(
                        rows as nat,
                        |i: int| None::<FieldElement>,
                    ),
            decreases declared.len() - c,
        {
            columns.push(declared[c]);
            cells.push(blank_column(rows));
            c += 1;
            assert(columns@ =~= declared@.take(c as int));
        }
        assert(columns@ =~= declared@);
        let count = system.num_selectors();
        let mut selectors: Vec<Vec<bool>> = Vec::new();
        let mut s: usize = 0;
        while s < count
            invariant
                s <= count,
                selectors@.len() == s,
                forall|k: int|
                    0 <= k < s ==> (#[trigger] selectors@[k])@ == Seq::new(
                        rows as nat,
                        |i: int| false,
                    ),
            decreases count - s,
        {
            selectors.push(blank_selector(rows));
            s += 1;
        }
        let r = Assignment {
            columns,
            rows,
            cells,
            selectors,
            copies: Vec::new(),
            instance,
            next_row: 0,
        };
        proof {
            let fresh = TableModel::fresh(
                system@.columns,
                system@.selectors,
                rows as nat,
                values(instance@),
            );
            assert forall|c: int| 0 <= c < r@.cells.len() implies r@.cells[c] == fresh.cells[c] by {
                assert(r@.cells[c] =~= fresh.cells[c]);
            }
            assert(r@.cells =~= fresh.cells);
            assert(r@.selectors =~= fresh.selectors);
            assert(r@.copies =~= fresh.copies);
        }
        r
    }

    /// The relation's columns, as the table knows them.
    pub fn columns(&self) -> (r: &Vec<ColumnInfo>)
        ensures
            r@ == self@.columns,
    {
        &self.columns
    }

    /// The number of rows.
    pub fn rows(&self) -> (r: usize)
        ensures
            r == self@.rows,
    {
        self.rows
    }

    /// The copy constraints recorded so far, oldest first.
    pub fn copies(&self) -> (r: &Vec<CopyConstraint>)
        ensures
            r@ == self@.copies,
    {
        &self.copies
    }

    /// What the table holds in a cell of a private or fixed column.
    pub fn value(&self, cell: Cell) -> (r: Option<FieldElement>)
        requires
            self.wf(),
        ensures
            value_of(r) == self@.value(cell),
            r matches Some(v) ==> v.wf(),
    {
        if lookup(&self.columns, cell.column).is_some() && cell.column.kind != ColumnKind::Public
            && cell.row < self.rows {
            assert(self@.cells[cell.column.id as int].len() == self.rows);
            let slot = self.cells[cell.column.id][cell.row];
            assert(self@.cells[cell.column.id as int][cell.row as int] == value_of(slot));
            slot
        } else {
            proof {
                if cell.column.id < self@.cells.len() {
                    assert(self@.cells[cell.column.id as int].len() == self.rows);
                }
            }
            None
        }
    }

    /// Whether a selector is enabled on a row.
    pub fn enabled(&self, selector: Selector, row: usize) -> (r: bool)
        requires
            self.wf(),
        ensures
            r == self@.enabled(selector, row as int),
    {
        if selector.id < self.selectors.len() && row < self.rows {
            assert(self@.selectors[selector.id as int].len() == self.rows);
            self.selectors[selector.id][row]
        } else {
            proof {
                if selector.id < self@.selectors.len() {
                    assert(self@.selectors[selector.id as int].len() == self.rows);
                }
            }
            false
        }
    }

    /// The value of a cell: of the instance that the table was made with for
    /// the public column, of the table for the others.
    pub fn read(&self, cell: Cell) -> (r: Result<FieldElement, AssignmentError>)
        requires
            self.wf(),
        ensures
            match r {
                Ok(v) => v.wf() && self@.read(cell) == Ok::<_, AssignmentError>(v@),
                Err(e) => self@.read(cell) == Err::<nat, _>(e),
            },
    {
        if lookup(&self.columns, cell.column).is_none() {
            return Err(AssignmentError::Undeclared);
        }
        if cell.column.kind == ColumnKind::Public {
            if cell.row < self.instance.len() {
                let v = self.instance[cell.row];
                assert(self@.instance[cell.row as int] == v@);
                return Ok(v);
            }
            return Err(AssignmentError::InstanceOutOfRange);
        }
        if cell.row >= self.rows {
            return Err(AssignmentError::RowOutOfRange);
        }
        match self.value(cell) {
            Some(v) => Ok(v),
            None => Err(AssignmentError::Unassigned),
        }
    }

    fn linkable(&self, cell: Cell) -> (r: Result<FieldElement, AssignmentError>)
        requires
            self.wf(),
        ensures
            match r {
                Ok(v) => v.wf() && self@.linkable(cell) == Ok::<_, AssignmentError>(v@),
                Err(e) => self@.linkable(cell) == Err::<nat, _>(e),
            },
    {
        match self.read(cell) {
            Err(e) => Err(e),
            Ok(v) => {
                if self.columns[cell.column.id].equality_enabled {
                    Ok(v)
                } else {
                    Err(AssignmentError::EqualityNotEnabled)
                }
            },
        }
    }

    fn row_of(&self, region: &Region, offset: usize) -> (r: Option<usize>)
        ensures
            r == self@.row_of(*region, offset),
    {
        if offset < region.len && region.start < self.rows && offset < self.rows - region.start {
            Some(region.start + offset)
        } else {
            None
        }
    }

    fn assignable(&self, region: &Region, column: Column, offset: usize) -> (r: Result<
        usize,
        AssignmentError,
    >)
        requires
            self.wf(),
        ensures
            r == self@.assignable(*region, column, offset),
            r matches Ok(row) ==> row < self.rows && column.id < self.cells@.len() && row
                < self.cells@[column.id as int]@.len(),
    {
        if lookup(&self.columns, column).is_none() {
            return Err(AssignmentError::Undeclared);
        }
        if column.kind == ColumnKind::Public {
            return Err(AssignmentError::NotAssignable);
        }
        match self.row_of(region, offset) {
            None => Err(AssignmentError::RowOutOfRange),
            Some(row) => {
                assert(self@.cells[column.id as int].len() == self.rows);
                if self.value(Cell { column, row }).is_some() {
                    Err(AssignmentError::AlreadyAssigned)
                } else {
                    Ok(row)
                }
            },
        }
    }

    fn write(&mut self, cell: Cell, value: FieldElement)
        requires
            old(self).wf(),
            value.wf(),
            cell.column.id < old(self).cells@.len(),
            cell.row < old(self).cells@[cell.column.id as int]@.len(),
        ensures
            final(self).wf(),
            final(self)@ == old(self)@.with_value(cell, value@),
    {
        self.cells[cell.column.id][cell.row] = Some(value);
        proof {
            let before = old(self)@;
            let after = self@;
            let expected = before.with_value(cell, value@);
            assert forall|c: int| 0 <= c < after.cells.len() implies after.cells[c]
                == expected.cells[c] by {
                assert(before.cells[c].len() == before.rows);
                assert(after.cells[c] =~= expected.cells[c]);
            }
            assert(after.cells =~= expected.cells);
            assert(after.selectors =~= expected.selectors);
            assert forall|c: int, r: int|
                0 <= c < after.cells.len() && 0 <= r < after.rows && (
                #[trigger] after.cells[c][r]) is Some implies after.cells[c][r].unwrap()
                < modulus() by {
                assert(before.cells[c].len() == before.rows);
                if !(c == cell.column.id && r == cell.row) {
                    assert(after.cells[c][r] == before.cells[c][r]);
                }
            }
            assert forall|c: int| 0 <= c < after.cells.len() implies (
            #[trigger] after.cells[c]).len() == after.rows by {
                assert(before.cells[c].len() == before.rows);
            }
        }
    }

    /// Opens a region of `len` rows behind the regions opened so far.
    pub fn open_region(&mut self, len: usize) -> (r: Result<Region, AssignmentError>)
        requires
            old(self).wf(),
        ensures
            final(self).wf(),
            final(self)@.extends(old(self)@),
            match r {
                Ok(region) => old(self)@.open_region(len) == Ok::<_, AssignmentError>(
                    (final(self)@, region),
                ),
                Err(e) => old(self)@.open_region(len) == Err::<(TableModel, Region), _>(e)
                    && final(self)@ == old(self)@,
            },
    {
        if len > self.rows - self.next_row {
            return Err(AssignmentError::RowOutOfRange);
        }
        let start = self.next_row;
        self.next_row = start + len;
        proof {
            assert(self@.cells =~= old(self)@.cells);
            assert(self@.selectors =~= old(self)@.selectors);
        }
        Ok(Region { start, len })
    }

    /// Enables a selector on a row of a region.
    pub fn enable_selector(&mut self, region: &Region, selector: Selector, offset: usize) -> (r:
        Result<(), AssignmentError>)
        requires
            old(self).wf(),
        ensures
            final(self).wf(),
            final(self)@.extends(old(self)@),
            match r {
                Ok(()) => old(self)@.enable_selector(*region, selector, offset) == Ok::<
                    _,
                    AssignmentError,
                >(final(self)@),
                Err(e) => old(self)@.enable_selector(*region, selector, offset) == Err::<
                    TableModel,
                    _,
                >(e) && final(self)@ == old(self)@,
            },
    {
        if selector.id >= self.selectors.len() {
            return Err(AssignmentError::Undeclared);
        }
        match self.row_of(region, offset) {
            None => Err(AssignmentError::RowOutOfRange),
            Some(row) => {
                assert(self@.selectors[selector.id as int].len() == self.rows);
                self.selectors[selector.id][row] = true;
                proof {
                    let before = old(self)@;
                    let after = self@;
                    let expected = before.enable_selector(*region, selector, offset).unwrap();
                    assert forall|s: int| 0 <= s < after.selectors.len() implies after.selectors[s]
                        == expected.selectors[s] by {
                        assert(before.selectors[s].len() == before.rows);
                        assert(after.selectors[s] =~= expected.selectors[s]);
                    }
                    assert(after.selectors =~= expected.selectors);
                    assert(after.cells =~= expected.cells);
                    assert forall|s: int| 0 <= s < after.selectors.len() implies (
                    #[trigger] after.selectors[s]).len() == after.rows by {
                        assert(before.selectors[s].len() == before.rows);
                    }
                }
                Ok(())
            },
        }
    }

    /// Writes a value to a cell of a region. A cell is written once.
    pub fn assign(&mut self, region: &Region, column: Column, offset: usize, value: FieldElement) -> (r:
        Result<AssignedCell, AssignmentError>)
        requires
            old(self).wf(),
            value.wf(),
        ensures
            final(self).wf(),
            final(self)@.extends(old(self)@),
            match r {
                Ok(assigned) => old(self)@.assign(*region, column, offset, value@) == Ok::<
                    _,
                    AssignmentError,
                >((final(self)@, assigned.cell)) && assigned.value == value,
                Err(e) => old(self)@.assign(*region, column, offset, value@) == Err::<
                    (TableModel, Cell),
                    _,
                >(e) && final(self)@ == old(self)@,
            },
    {
        match self.assignable(region, column, offset) {
            Err(e) => Err(e),
            Ok(row) => {
                let cell = Cell { column, row };
                self.write(cell, value);
                Ok(AssignedCell { cell, value })
            },
        }
    }

    /// Writes the value of `from` to a cell of a region and records that the
    /// two cells must agree. With `from` in the public column, this brings an
    /// entry of the instance into the table.
    pub fn copy(&mut self, region: &Region, from: Cell, column: Column, offset: usize) -> (r: Result<
        AssignedCell,
        AssignmentError,
    >)
        requires
            old(self).wf(),
        ensures
            final(self).wf(),
            final(self)@.extends(old(self)@),
            match r {
                Ok(assigned) => old(self)@.copy(*region, from, column, offset) == Ok::<
                    _,
                    AssignmentError,
                >((final(self)@, assigned.cell)) && assigned.value.wf() && old(self)@.linkable(from)
                    == Ok::<_, AssignmentError>(assigned.value@),
                Err(e) => old(self)@.copy(*region, from, column, offset) == Err::<
                    (TableModel, Cell),
                    _,
                >(e) && final(self)@ == old(self)@,
            },
    {
        let value = match self.linkable(from) {
            Err(e) => {
                return Err(e);
            },
            Ok(v) => v,
        };
        let row = match self.assignable(region, column, offset) {
            Err(e) => {
                return Err(e);
            },
            Ok(row) => row,
        };
        if !self.columns[column.id].equality_enabled {
            return Err(AssignmentError::EqualityNotEnabled);
        }
        let cell = Cell { column, row };
        self.write(cell, value);
        self.copies.push(CopyConstraint { left: from, right: cell });
        proof {
            let expected = old(self)@.with_value(cell, value@).with_copy(from, cell);
            assert(self@.cells =~= expected.cells);
            assert(self@.selectors =~= expected.selectors);
        }
        Ok(AssignedCell { cell, value })
    }

    /// Replaces the value of a written cell and leaves everything else as it
    /// is, the copy constraints too. This is a means to try a checker on a
    /// faulty witness: what the table satisfied before, it need not satisfy
    /// after.
    pub fn overwrite(&mut self, cell: Cell, value: FieldElement) -> (r: Result<(), AssignmentError>)
        requires
            old(self).wf(),
            value.wf(),
        ensures
            final(self).wf(),
            match r {
                Ok(()) => old(self)@.overwrite(cell, value@) == Ok::<_, AssignmentError>(
                    final(self)@,
                ),
                Err(e) => old(self)@.overwrite(cell, value@) == Err::<TableModel, _>(e) && final(self)@ == old(self)@,
            },
    {
        if lookup(&self.columns, cell.column).is_none() {
            return Err(AssignmentError::Undeclared);
        }
        if cell.column.kind == ColumnKind::Public {
            return Err(AssignmentError::NotAssignable);
        }
        if cell.row >= self.rows {
            return Err(AssignmentError::RowOutOfRange);
        }
        assert(self@.cells[cell.column.id as int].len() == self.rows);
        if self.value(cell).is_none() {
            return Err(AssignmentError::Unassigned);
        }
        self.write(cell, value);
        Ok(())
    }

    /// Records that two cells must agree. A cell of the public column stands
    /// for the entry of the instance with the cell's row as index.
    pub fn constrain_equal(&mut self, left: Cell, right: Cell) -> (r: Result<(), AssignmentError>)
        requires
            old(self).wf(),
        ensures
            final(self).wf(),
            final(self)@.extends(old(self)@),
            match r {
                Ok(()) => old(self)@.constrain_equal(left, right) == Ok::<_, AssignmentError>(
                    final(self)@,
                ),
                Err(e) => old(self)@.constrain_equal(left, right) == Err::<TableModel, _>(e)
                    && final(self)@ == old(self)@,
            },
    {
        match self.linkable(left) {
            Err(e) => {
                return Err(e);
            },
            Ok(_) => {},
        }
        match self.linkable(right) {
            Err(e) => {
                return Err(e);
            },
            Ok(_) => {},
        }
        self.copies.push(CopyConstraint { left, right });
        proof {
            let expected = old(self)@.with_copy(left, right);
            assert(self@.cells =~= expected.cells);
            assert(self@.selectors =~= expected.selectors);
        }
        Ok(())
    }
}

} // verus!
