use fibonacci_circuit::assignment::{Assignment, AssignmentError, CopyConstraint, Region};
use fibonacci_circuit::column::{Cell, Column, ColumnKind, Selector};
use fibonacci_circuit::constraint_system::ConstraintSystem;
use fibonacci_circuit::field::FieldElement;

struct Setup {
    meta: ConstraintSystem,
    linked: Column,
    plain: Column,
    fixed: Column,
    public: Column,
    selector: Selector,
}

/// Two private columns, the first enabled for equality, a fixed column, the
/// public column, enabled too, and one selector.
fn setup() -> Setup {
    let mut meta = ConstraintSystem::new();
    let linked = meta.declare(ColumnKind::Private).unwrap();
    let plain = meta.declare(ColumnKind::Private).unwrap();
    let fixed = meta.declare(ColumnKind::Fixed).unwrap();
    let public = meta.declare(ColumnKind::Public).unwrap();
    let selector = meta.selector().unwrap();
    meta.enable_equality(linked).unwrap();
    meta.enable_equality(public).unwrap();
    Setup { meta, linked, plain, fixed, public, selector }
}

fn fe(n: u64) -> FieldElement {
    FieldElement::from_u64(n)
}

fn table(s: &Setup, rows: usize) -> Assignment {
    Assignment::new(&s.meta, rows, vec![fe(10), fe(20)])
}

#[test]
fn new_table_is_empty() {
    let s = setup();
    let t = table(&s, 4);
    assert_eq!(t.rows(), 4);
    assert_eq!(t.columns(), s.meta.columns());
    assert!(t.copies().is_empty());
    for row in 0..4 {
        assert_eq!(t.value(Cell { column: s.linked, row }), None);
        assert_eq!(t.value(Cell { column: s.fixed, row }), None);
        assert!(!t.enabled(s.selector, row));
    }
}

#[test]
fn regions_follow_one_another() {
    let s = setup();
    let mut t = table(&s, 5);
    assert_eq!(t.open_region(2), Ok(Region { start: 0, len: 2 }));
    assert_eq!(t.open_region(0), Ok(Region { start: 2, len: 0 }));
    assert_eq!(t.open_region(3), Ok(Region { start: 2, len: 3 }));
    assert_eq!(t.open_region(1), Err(AssignmentError::RowOutOfRange));
    assert_eq!(t.open_region(0), Ok(Region { start: 5, len: 0 }));
}

#[test]
fn open_region_refuses_more_rows_than_are_left() {
    let s = setup();
    let mut t = table(&s, 3);
    assert_eq!(t.open_region(4), Err(AssignmentError::RowOutOfRange));
    assert_eq!(t.open_region(usize::MAX), Err(AssignmentError::RowOutOfRange));
    // nothing was taken
    assert_eq!(t.open_region(3), Ok(Region { start: 0, len: 3 }));
}

#[test]
fn assign_writes_at_the_offset_within_the_region() {
    let s = setup();
    let mut t = table(&s, 5);
    t.open_region(2).unwrap();
    let region = t.open_region(3).unwrap();
    let assigned = t.assign(&region, s.plain, 1, fe(7)).unwrap();
    assert_eq!(assigned.cell, Cell { column: s.plain, row: 3 });
    assert_eq!(assigned.value, fe(7));
    assert_eq!(t.value(assigned.cell), Some(fe(7)));
    assert_eq!(t.read(assigned.cell), Ok(fe(7)));
    assert_eq!(t.value(Cell { column: s.plain, row: 2 }), None);
    assert_eq!(t.value(Cell { column: s.linked, row: 3 }), None);
    // fixed columns are written in the same way
    let constant = t.assign(&region, s.fixed, 0, fe(9)).unwrap();
    assert_eq!(t.value(constant.cell), Some(fe(9)));
}

#[test]
fn assign_writes_a_cell_once() {
    let s = setup();
    let mut t = table(&s, 2);
    let region = t.open_region(2).unwrap();
    t.assign(&region, s.plain, 0, fe(1)).unwrap();
    assert_eq!(t.assign(&region, s.plain, 0, fe(2)), Err(AssignmentError::AlreadyAssigned));
    assert_eq!(t.assign(&region, s.plain, 0, fe(1)), Err(AssignmentError::AlreadyAssigned));
    assert_eq!(t.value(Cell { column: s.plain, row: 0 }), Some(fe(1)));
    // a second region over the same rows does not get round it
    let forged = Region { start: 0, len: 1 };
    assert_eq!(t.assign(&forged, s.plain, 0, fe(2)), Err(AssignmentError::AlreadyAssigned));
}

#[test]
fn assign_refuses_rows_that_do_not_exist() {
    let s = setup();
    let mut t = table(&s, 3);
    let region = t.open_region(2).unwrap();
    assert_eq!(t.assign(&region, s.plain, 2, fe(1)), Err(AssignmentError::RowOutOfRange));
    let beyond = Region { start: 2, len: 4 };
    assert_eq!(t.assign(&beyond, s.plain, 1, fe(1)), Err(AssignmentError::RowOutOfRange));
    let far = Region { start: usize::MAX, len: 2 };
    assert_eq!(t.assign(&far, s.plain, 1, fe(1)), Err(AssignmentError::RowOutOfRange));
    assert!(t.assign(&beyond, s.plain, 0, fe(1)).is_ok());
}

#[test]
fn assign_refuses_the_public_and_unknown_columns() {
    let s = setup();
    let mut t = table(&s, 2);
    let region = t.open_region(1).unwrap();
    assert_eq!(t.assign(&region, s.public, 0, fe(1)), Err(AssignmentError::NotAssignable));
    let missing = Column { kind: ColumnKind::Private, id: 9 };
    assert_eq!(t.assign(&region, missing, 0, fe(1)), Err(AssignmentError::Undeclared));
    let disguised = Column { kind: ColumnKind::Fixed, id: s.plain.id };
    assert_eq!(t.assign(&region, disguised, 0, fe(1)), Err(AssignmentError::Undeclared));
}

#[test]
fn enable_selector_marks_one_row() {
    let s = setup();
    let mut t = table(&s, 3);
    let region = t.open_region(3).unwrap();
    assert_eq!(t.enable_selector(&region, s.selector, 1), Ok(()));
    assert_eq!(t.enable_selector(&region, s.selector, 1), Ok(()));
    assert!(!t.enabled(s.selector, 0));
    assert!(t.enabled(s.selector, 1));
    assert!(!t.enabled(s.selector, 2));
    assert!(!t.enabled(s.selector, 3));
    assert!(!t.enabled(Selector { id: 1 }, 1));
}

#[test]
fn enable_selector_refuses_rows_and_selectors_that_do_not_exist() {
    let s = setup();
    let mut t = table(&s, 3);
    let region = t.open_region(2).unwrap();
    assert_eq!(t.enable_selector(&region, s.selector, 2), Err(AssignmentError::RowOutOfRange));
    assert_eq!(
        t.enable_selector(&region, Selector { id: 1 }, 0),
        Err(AssignmentError::Undeclared)
    );
    assert!(!t.enabled(s.selector, 2));
}

#[test]
fn copy_from_the_instance_brings_the_value_and_the_link() {
    let s = setup();
    let mut t = table(&s, 2);
    let region = t.open_region(1).unwrap();
    let source = Cell { column: s.public, row: 1 };
    let assigned = t.copy(&region, source, s.linked, 0).unwrap();
    assert_eq!(assigned.value, fe(20));
    assert_eq!(assigned.cell, Cell { column: s.linked, row: 0 });
    assert_eq!(t.value(assigned.cell), Some(fe(20)));
    assert_eq!(t.copies(), &vec![CopyConstraint { left: source, right: assigned.cell }]);
}

#[test]
fn copy_from_a_cell_brings_the_value_and_the_link() {
    let s = setup();
    let mut t = table(&s, 2);
    let region = t.open_region(2).unwrap();
    let first = t.assign(&region, s.linked, 0, fe(5)).unwrap();
    let second = t.copy(&region, first.cell, s.linked, 1).unwrap();
    assert_eq!(second.value, fe(5));
    assert_eq!(t.value(Cell { column: s.linked, row: 1 }), Some(fe(5)));
    assert_eq!(t.copies(), &vec![CopyConstraint { left: first.cell, right: second.cell }]);
}

#[test]
fn copy_refuses_and_changes_nothing() {
    let s = setup();
    let mut t = table(&s, 2);
    let region = t.open_region(2).unwrap();
    let target = Cell { column: s.linked, row: 1 };
    // nothing to read
    let empty = Cell { column: s.linked, row: 0 };
    assert_eq!(t.copy(&region, empty, s.linked, 1), Err(AssignmentError::Unassigned));
    // no such entry of the instance
    let beyond = Cell { column: s.public, row: 2 };
    assert_eq!(t.copy(&region, beyond, s.linked, 1), Err(AssignmentError::InstanceOutOfRange));
    // the source column is not enabled for equality
    let loose = t.assign(&region, s.plain, 0, fe(3)).unwrap();
    assert_eq!(t.copy(&region, loose.cell, s.linked, 1), Err(AssignmentError::EqualityNotEnabled));
    // nor is the target column
    let source = Cell { column: s.public, row: 0 };
    assert_eq!(t.copy(&region, source, s.plain, 1), Err(AssignmentError::EqualityNotEnabled));
    assert_eq!(t.value(Cell { column: s.plain, row: 1 }), None);
    // the target is written already
    assert_eq!(t.copy(&region, source, s.plain, 0), Err(AssignmentError::AlreadyAssigned));
    // the target row does not exist
    assert_eq!(t.copy(&region, source, s.linked, 2), Err(AssignmentError::RowOutOfRange));
    assert_eq!(t.value(target), None);
    assert!(t.copies().is_empty());
}

#[test]
fn constrain_equal_records_in_order() {
    let s = setup();
    let mut t = table(&s, 2);
    let region = t.open_region(2).unwrap();
    let x = t.assign(&region, s.linked, 0, fe(1)).unwrap().cell;
    let y = t.assign(&region, s.linked, 1, fe(2)).unwrap().cell;
    let p = Cell { column: s.public, row: 0 };
    // unequal values are recorded all the same: nothing is compared here
    assert_eq!(t.constrain_equal(x, y), Ok(()));
    assert_eq!(t.constrain_equal(y, p), Ok(()));
    assert_eq!(
        t.copies(),
        &vec![CopyConstraint { left: x, right: y }, CopyConstraint { left: y, right: p }]
    );
}

#[test]
fn constrain_equal_refuses_cells_that_cannot_be_linked() {
    let s = setup();
    let mut t = table(&s, 2);
    let region = t.open_region(2).unwrap();
    let x = t.assign(&region, s.linked, 0, fe(1)).unwrap().cell;
    let loose = t.assign(&region, s.plain, 0, fe(1)).unwrap().cell;
    let constant = t.assign(&region, s.fixed, 0, fe(1)).unwrap().cell;
    assert_eq!(t.constrain_equal(x, loose), Err(AssignmentError::EqualityNotEnabled));
    assert_eq!(t.constrain_equal(constant, x), Err(AssignmentError::EqualityNotEnabled));
    let empty = Cell { column: s.linked, row: 1 };
    assert_eq!(t.constrain_equal(x, empty), Err(AssignmentError::Unassigned));
    let outside = Cell { column: s.linked, row: 2 };
    assert_eq!(t.constrain_equal(outside, x), Err(AssignmentError::RowOutOfRange));
    let beyond = Cell { column: s.public, row: 2 };
    assert_eq!(t.constrain_equal(x, beyond), Err(AssignmentError::InstanceOutOfRange));
    let missing = Cell { column: Column { kind: ColumnKind::Private, id: 7 }, row: 0 };
    assert_eq!(t.constrain_equal(missing, x), Err(AssignmentError::Undeclared));
    assert!(t.copies().is_empty());
}

#[test]
fn read_takes_public_cells_from_the_instance() {
    let s = setup();
    let t = table(&s, 2);
    assert_eq!(t.read(Cell { column: s.public, row: 0 }), Ok(fe(10)));
    assert_eq!(t.read(Cell { column: s.public, row: 1 }), Ok(fe(20)));
    assert_eq!(
        t.read(Cell { column: s.public, row: 2 }),
        Err(AssignmentError::InstanceOutOfRange)
    );
    assert_eq!(t.read(Cell { column: s.plain, row: 0 }), Err(AssignmentError::Unassigned));
    assert_eq!(t.read(Cell { column: s.plain, row: 2 }), Err(AssignmentError::RowOutOfRange));
    // the table itself holds nothing in the public column
    assert_eq!(t.value(Cell { column: s.public, row: 0 }), None);
}

#[test]
fn overwrite_replaces_a_written_value_only() {
    let s = setup();
    let mut t = table(&s, 2);
    let region = t.open_region(2).unwrap();
    let x = t.assign(&region, s.linked, 0, fe(1)).unwrap().cell;
    let y = t.copy(&region, x, s.linked, 1).unwrap().cell;
    assert_eq!(t.overwrite(y, fe(8)), Ok(()));
    assert_eq!(t.value(y), Some(fe(8)));
    assert_eq!(t.value(x), Some(fe(1)));
    assert_eq!(t.copies(), &vec![CopyConstraint { left: x, right: y }]);
    assert_eq!(
        t.overwrite(Cell { column: s.plain, row: 0 }, fe(8)),
        Err(AssignmentError::Unassigned)
    );
    assert_eq!(
        t.overwrite(Cell { column: s.public, row: 0 }, fe(8)),
        Err(AssignmentError::NotAssignable)
    );
    assert_eq!(
        t.overwrite(Cell { column: s.linked, row: 2 }, fe(8)),
        Err(AssignmentError::RowOutOfRange)
    );
    assert_eq!(
        t.overwrite(Cell { column: Column { kind: ColumnKind::Fixed, id: 0 }, row: 0 }, fe(8)),
        Err(AssignmentError::Undeclared)
    );
}
