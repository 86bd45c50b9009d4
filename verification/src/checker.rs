//! The mock checker: does a table satisfy every gate, every copy constraint
//! and every binding to the instance?
use crate::assignment::{value_of, values, Assignment, CopyConstraint, TableModel};
use crate::column::{declares, lookup, Cell, Column, ColumnKind};
use crate::constraint_system::{ConstraintSystem, Gate, GateModel, SystemModel};
use crate::expr::{Expr, ExprModel};
use crate::field::{field_add, field_mul, field_neg, field_sub, FieldElement};
use vstd::prelude::*;

verus! {

/// One constraint that a table fails.
#[derive(Debug, PartialEq, Eq)]
pub enum Violation {
    /// On `row` the selector of the named gate is enabled, and one of its identities
    /// is not zero there or queries a cell that holds no value.
    Gate { name: String, row: usize },
    /// The two cells of a copy constraint do not hold one value.
    Copy { left: Cell, right: Cell },
}

/// The mathematical content of a [`Violation`].
pub enum ViolationModel {
    Gate { name: Seq<char>, row: nat },
    Copy { left: Cell, right: Cell },
}

impl Violation {
    pub open spec fn view(&self) -> ViolationModel {
        match self {
            Violation::Gate { name, row } => ViolationModel::Gate { name: name@, row: *row as nat },
            Violation::Copy { left, right } => ViolationModel::Copy { left: *left, right: *right },
        }
    }
}

impl ViolationModel {
    /// Whether the violation lies on the given row of the table: a gate
    /// violation on its row, a copy violation on the row of either cell that
    /// is not in the public column.
    pub open spec fn touches_row(self, row: nat) -> bool {
        match self {
            ViolationModel::Gate { row: r, .. } => r == row,
            ViolationModel::Copy { left, right } => (left.column.kind != ColumnKind::Public
                && left.row == row) || (right.column.kind != ColumnKind::Public && right.row == row),
        }
    }
}

/// The models of a list of violations.
pub open spec fn violation_views(list: Seq<Violation>) -> Seq<ViolationModel> {
    Seq::new(list.len(), |i: int| list[i]@)
}

/// The value that the checker sees in a cell: the entry of `instance` with
/// the row as index for the public column, what the table holds for the
/// others, and nothing where there is no such entry or the cell is empty.
pub open spec fn cell_value(table: TableModel, instance: Seq<nat>, column: Column, row: int) -> Option<
    nat,
> {
    if column.kind == ColumnKind::Public {
        if declares(table.columns, column) && 0 <= row < instance.len() {
            Some(instance[row])
        } else {
            None
        }
    } else if 0 <= row <= usize::MAX {
        table.value(Cell { column, row: row as usize })
    } else {
        None
    }
}

/// The value of an expression on a row, or nothing where it queries a cell
/// without a value.
pub open spec fn eval(expr: ExprModel, table: TableModel, instance: Seq<nat>, row: int) -> Option<nat>
    decreases expr,
{
    match expr {
        ExprModel::Constant(v) => Some(v),
        ExprModel::Selector(s) => Some(
            if table.enabled(s, row) {
                1nat
            } else {
                0nat
            },
        ),
        ExprModel::ColumnQuery { column, offset } => cell_value(table, instance, column, row + offset),
        ExprModel::Neg(a) => match eval(*a, table, instance, row) {
            Some(x) => Some(field_neg(x)),
            None => None,
        },
        ExprModel::Add(a, b) => match (eval(*a, table, instance, row), eval(*b, table, instance, row)) {
            (Some(x), Some(y)) => Some(field_add(x, y)),
            _ => None,
        },
        ExprModel::Sub(a, b) => match (eval(*a, table, instance, row), eval(*b, table, instance, row)) {
            (Some(x), Some(y)) => Some(field_sub(x, y)),
            _ => None,
        },
        ExprModel::Mul(a, b) => match (eval(*a, table, instance, row), eval(*b, table, instance, row)) {
            (Some(x), Some(y)) => Some(field_mul(x, y)),
            _ => None,
        },
    }
}

/// Every identity of a gate is zero on the row.
pub open spec fn gate_holds(gate: GateModel, table: TableModel, instance: Seq<nat>, row: int) -> bool {
    forall|k: int|
        0 <= k < gate.exprs.len() ==> eval(#[trigger] gate.exprs[k], table, instance, row) == Some(
            0nat,
        )
}

/// A gate is switched on for the row and does not hold there.
pub open spec fn gate_violated(gate: GateModel, table: TableModel, instance: Seq<nat>, row: int) -> bool {
    table.enabled(gate.selector, row) && !gate_holds(gate, table, instance, row)
}

/// The violations on one row of the first `upto` gates, in the order of the gates.
pub open spec fn row_violations(
    gates: Seq<GateModel>,
    table: TableModel,
    instance: Seq<nat>,
    row: nat,
    upto: nat,
) -> Seq<ViolationModel>
    decreases upto,
{
    if upto == 0 {
        Seq::empty()
    } else {
        let before = row_violations(gates, table, instance, row, (upto - 1) as nat);
        let gate = gates[upto - 1];
        if gate_violated(gate, table, instance, row as int) {
            before.push(ViolationModel::Gate { name: gate.name, row })
        } else {
            before
        }
    }
}

/// What the gates report on the first `rows` rows: row by row, and on each row
/// in the order of the gates.
pub open spec fn gate_violations(
    gates: Seq<GateModel>,
    table: TableModel,
    instance: Seq<nat>,
    rows: nat,
) -> Seq<ViolationModel>
    decreases rows,
{
    if rows == 0 {
        Seq::empty()
    } else {
        gate_violations(gates, table, instance, (rows - 1) as nat) + row_violations(
            gates,
            table,
            instance,
            (rows - 1) as nat,
            gates.len(),
        )
    }
}

/// Both cells of the constraint hold a value, and the same one.
pub open spec fn copy_holds(table: TableModel, instance: Seq<nat>, copy: CopyConstraint) -> bool {
    let left = cell_value(table, instance, copy.left.column, copy.left.row as int);
    let right = cell_value(table, instance, copy.right.column, copy.right.row as int);
    left is Some && left == right
}

/// The violations among the first `upto` copy constraints, in their order.
pub open spec fn copy_violations(table: TableModel, instance: Seq<nat>, upto: nat) -> Seq<
    ViolationModel,
>
    decreases upto,
{
    if upto == 0 {
        Seq::empty()
    } else {
        let before = copy_violations(table, instance, (upto - 1) as nat);
        let copy = table.copies[upto - 1];
        if copy_holds(table, instance, copy) {
            before
        } else {
            before.push(ViolationModel::Copy { left: copy.left, right: copy.right })
        }
    }
}

/// All that a table violates: what the gates report, by row and then by gate,
/// followed by the copy violations in the order of their recording.
pub open spec fn violations(system: SystemModel, table: TableModel, instance: Seq<nat>) -> Seq<
    ViolationModel,
> {
    gate_violations(system.gates, table, instance, table.rows) + copy_violations(
        table,
        instance,
        table.copies.len(),
    )
}

/// The table satisfies the relation: every gate holds on every row where its
/// selector is enabled, and every copy constraint holds.
pub open spec fn satisfied(system: SystemModel, table: TableModel, instance: Seq<nat>) -> bool {
    &&& forall|g: int, row: int|
        0 <= g < system.gates.len() && 0 <= row < table.rows ==> !#[trigger] gate_violated(
            system.gates[g],
            table,
            instance,
            row,
        )
    &&& forall|i: int|
        0 <= i < table.copies.len() ==> copy_holds(table, instance, #[trigger] table.copies[i])
}

/// The violation `v` is that of gate number `g` on `row`.
pub open spec fn reports_gate(
    gates: Seq<GateModel>,
    table: TableModel,
    instance: Seq<nat>,
    g: int,
    row: int,
    v: ViolationModel,
) -> bool {
    &&& 0 <= g < gates.len()
    &&& 0 <= row
    &&& gate_violated(gates[g], table, instance, row)
    &&& v == ViolationModel::Gate { name: gates[g].name, row: row as nat }
}

/// The violation `v` is that of copy constraint number `i`.
pub open spec fn reports_copy(table: TableModel, instance: Seq<nat>, i: int, v: ViolationModel) -> bool {
    &&& 0 <= i < table.copies.len()
    &&& !copy_holds(table, instance, table.copies[i])
    &&& v == ViolationModel::Copy { left: table.copies[i].left, right: table.copies[i].right }
}

/// What `check` may return for a relation, a table and an instance.
pub open spec fn is_verdict(
    verdict: Result<(), Vec<Violation>>,
    system: SystemModel,
    table: TableModel,
    instance: Seq<nat>,
) -> bool {
    match verdict {
        Ok(()) => violations(system, table, instance).len() == 0,
        Err(list) => list@.len() > 0 && violation_views(list@) == violations(system, table, instance),
    }
}

fn cell_at(table: &Assignment, instance: &Vec<FieldElement>, column: Column, row: usize) -> (r:
    Option<FieldElement>)
    requires
        table.wf(),
        forall|i: int| 0 <= i < instance@.len() ==> (#[trigger] instance@[i]).wf(),
    ensures
        value_of(r) == cell_value(table@, values(instance@), column, row as int),
        r matches Some(v) ==> v.wf(),
{
    if column.kind == ColumnKind::Public {
        if lookup(table.columns(), column).is_some() && row < instance.len() {
            Some(instance[row])
        } else {
            None
        }
    } else {
        table.value(Cell { column, row })
    }
}

/// Evaluates an expression on a row of a table.
pub fn evaluate(expr: &Expr, table: &Assignment, instance: &Vec<FieldElement>, row: usize) -> (r:
    Option<FieldElement>)
    requires
        expr.wf(),
        table.wf(),
        forall|i: int| 0 <= i < instance@.len() ==> (#[trigger] instance@[i]).wf(),
    ensures
        value_of(r) == eval(expr@, table@, values(instance@), row as int),
        r matches Some(v) ==> v.wf(),
    decreases expr,
{
    match expr {
        Expr::Constant(c) => Some(*c),
        Expr::Selector(s) => {
            if table.enabled(*s, row) {
                Some(FieldElement::one())
            } else {
                Some(FieldElement::zero())
            }
        },
        Expr::ColumnQuery { column, offset } => {
            let target: i128 = row as i128 + *offset as i128;
            let entries: usize = instance.len();
            if target < 0 || target > usize::MAX as i128 {
                assert(values(instance@).len() == entries);
                None
            } else {
                cell_at(table, instance, *column, target as usize)
            }
        },
        Expr::Neg(a) => match evaluate(a, table, instance, row) {
            Some(x) => Some(x.neg()),
            None => None,
        },
        Expr::Add(a, b) => match (
            evaluate(a, table, instance, row),
            evaluate(b, table, instance, row),
        ) {
            (Some(x), Some(y)) => Some(x.add(&y)),
            _ => None,
        },
        Expr::Sub(a, b) => match (
            evaluate(a, table, instance, row),
            evaluate(b, table, instance, row),
        ) {
            (Some(x), Some(y)) => Some(x.sub(&y)),
            _ => None,
        },
        Expr::Mul(a, b) => match (
            evaluate(a, table, instance, row),
            evaluate(b, table, instance, row),
        ) {
            (Some(x), Some(y)) => Some(x.mul(&y)),
            _ => None,
        },
    }
}

fn holds(gate: &Gate, table: &Assignment, instance: &Vec<FieldElement>, row: usize) -> (r: bool)
    requires
        forall|k: int| 0 <= k < gate.exprs@.len() ==> (#[trigger] gate.exprs@[k]).wf(),
        table.wf(),
        forall|i: int| 0 <= i < instance@.len() ==> (#[trigger] instance@[i]).wf(),
    ensures
        r == gate_holds(gate@, table@, values(instance@), row as int),
{
    let mut k: usize = 0;
    while k < gate.exprs.len()
        invariant
            k <= gate.exprs.len(),
            forall|j: int| 0 <= j < gate.exprs@.len() ==> (#[trigger] gate.exprs@[j]).wf(),
            table.wf(),
            forall|i: int| 0 <= i < instance@.len() ==> (#[trigger] instance@[i]).wf(),
            forall|j: int|
                0 <= j < k ==> eval(
                    #[trigger] gate@.exprs[j],
                    table@,
                    values(instance@),
                    row as int,
                ) == Some(0nat),
        decreases gate.exprs.len() - k,
    {
        let zero = match evaluate(&gate.exprs[k], table, instance, row) {
            Some(v) => v.is_zero(),
            None => false,
        };
        assert(gate@.exprs[k as int] == gate.exprs@[k as int]@);
        if !zero {
            return false;
        }
        k += 1;
    }
    true
}

fn copy_ok(table: &Assignment, instance: &Vec<FieldElement>, copy: &CopyConstraint) -> (r: bool)
    requires
        table.wf(),
        forall|i: int| 0 <= i < instance@.len() ==> (#[trigger] instance@[i]).wf(),
    ensures
        r == copy_holds(table@, values(instance@), *copy),
{
    match (
        cell_at(table, instance, copy.left.column, copy.left.row),
        cell_at(table, instance, copy.right.column, copy.right.row),
    ) {
        (Some(x), Some(y)) => x.equals(&y),
        _ => false,
    }
}

/// Checks a table against a relation and an instance. Every violation is
/// reported, not the first alone: `Ok` means that there is none.
pub fn check(system: &ConstraintSystem, assignment: &Assignment, instance: &Vec<FieldElement>) -> (r:
    Result<(), Vec<Violation>>)
    requires
        system.wf(),
        assignment.wf(),
        forall|i: int| 0 <= i < instance@.len() ==> (#[trigger] instance@[i]).wf(),
    ensures
        is_verdict(r, system@, assignment@, values(instance@)),
        r is Ok <==> satisfied(system@, assignment@, values(instance@)),
{
    proof {
        lemma_passes_iff_satisfied(system@, assignment@, values(instance@));
    }
    let gates = system.gates();
    let rows = assignment.rows();
    let ghost sys = system@;
    let ghost table = assignment@;
    let ghost inst = values(instance@);
    let mut found: Vec<Violation> = Vec::new();
    let mut row: usize = 0;
    assert(violation_views(found@) =~= gate_violations(sys.gates, table, inst, 0));
    while row < rows
        invariant
            row <= rows,
            rows == table.rows,
            sys == system@,
            table == assignment@,
            inst == values(instance@),
            system.wf(),
            assignment.wf(),
            forall|i: int| 0 <= i < instance@.len() ==> (#[trigger] instance@[i]).wf(),
            gates@.len() == sys.gates.len(),
            forall|i: int| 0 <= i < gates@.len() ==> (#[trigger] gates@[i])@ == sys.gates[i],
            violation_views(found@) == gate_violations(sys.gates, table, inst, row as nat),
        decreases rows - row,
    {
        let ghost above = violation_views(found@);
        let mut g: usize = 0;
        assert(violation_views(found@) =~= above + row_violations(sys.gates, table, inst, row as nat, 0));
        while g < gates.len()
            invariant
                g <= gates.len(),
                row < rows,
                rows == table.rows,
                sys == system@,
                table == assignment@,
                inst == values(instance@),
                system.wf(),
                assignment.wf(),
                forall|i: int| 0 <= i < instance@.len() ==> (#[trigger] instance@[i]).wf(),
                gates@.len() == sys.gates.len(),
                forall|i: int| 0 <= i < gates@.len() ==> (#[trigger] gates@[i])@ == sys.gates[i],
                violation_views(found@) == above + row_violations(
                    sys.gates,
                    table,
                    inst,
                    row as nat,
                    g as nat,
                ),
            decreases gates.len() - g,
        {
            let gate = &gates[g];
            let ghost before = violation_views(found@);
            proof {
                assert(gate@ == sys.gates[g as int]);
                assert(sys.gate_wf(sys.gates[g as int]));
                assert forall|k: int| 0 <= k < gate.exprs@.len() implies (
                #[trigger] gate.exprs@[k]).wf() by {
                    assert(gate@.exprs[k] == gate.exprs@[k]@);
                }
            }
            if assignment.enabled(gate.selector, row) && !holds(gate, assignment, instance, row) {
                found.push(Violation::Gate { name: gate.name.clone(), row });
                assert(violation_views(found@) =~= before.push(
                    ViolationModel::Gate { name: gate@.name, row: row as nat },
                ));
            }
            g += 1;
            assert(violation_views(found@) =~= above + row_violations(
                sys.gates,
                table,
                inst,
                row as nat,
                g as nat,
            ));
        }
        row += 1;
    }
    let copies = assignment.copies();
    let ghost gate_part = violation_views(found@);
    let mut c: usize = 0;
    assert(violation_views(found@) =~= gate_part + copy_violations(table, inst, 0));
    while c < copies.len()
        invariant
            c <= copies.len(),
            copies@ == table.copies,
            table == assignment@,
            inst == values(instance@),
            assignment.wf(),
            forall|i: int| 0 <= i < instance@.len() ==> (#[trigger] instance@[i]).wf(),
            violation_views(found@) == gate_part + copy_violations(table, inst, c as nat),
        decreases copies.len() - c,
    {
        let copy = &copies[c];
        let ghost before = violation_views(found@);
        if !copy_ok(assignment, instance, copy) {
            found.push(Violation::Copy { left: copy.left, right: copy.right });
            assert(violation_views(found@) =~= before.push(
                ViolationModel::Copy { left: copy.left, right: copy.right },
            ));
        }
        c += 1;
        assert(violation_views(found@) =~= gate_part + copy_violations(table, inst, c as nat));
    }
    if found.len() == 0 {
        Ok(())
    } else {
        Err(found)
    }
}

/// What is reported for one row is what the gates before `upto` violate there.
proof fn lemma_row_report(
    gates: Seq<GateModel>,
    table: TableModel,
    instance: Seq<nat>,
    row: nat,
    upto: nat,
    v: ViolationModel,
)
    requires
        upto <= gates.len(),
    ensures
        row_violations(gates, table, instance, row, upto).contains(v) <==> exists|g: int|
            g < upto && #[trigger] reports_gate(gates, table, instance, g, row as int, v),
    decreases upto,
{
    if upto > 0 {
        let last = (upto - 1) as nat;
        lemma_row_report(gates, table, instance, row, last, v);
        let before = row_violations(gates, table, instance, row, last);
        let all = row_violations(gates, table, instance, row, upto);
        let item = ViolationModel::Gate { name: gates[last as int].name, row };
        let added = gate_violated(gates[last as int], table, instance, row as int);
        if all.contains(v) {
            let i = choose|i: int| 0 <= i < all.len() && all[i] == v;
            if i < before.len() {
                assert(before[i] == v);
                let g = choose|g: int|
                    g < last && #[trigger] reports_gate(gates, table, instance, g, row as int, v);
                assert(g < upto && reports_gate(gates, table, instance, g, row as int, v));
            } else {
                assert(added && v == item);
                assert(reports_gate(gates, table, instance, last as int, row as int, v));
            }
        }
        if exists|g: int|
            g < upto && #[trigger] reports_gate(gates, table, instance, g, row as int, v) {
            let g = choose|g: int|
                g < upto && #[trigger] reports_gate(gates, table, instance, g, row as int, v);
            if g < last {
                assert(before.contains(v));
                let i = choose|i: int| 0 <= i < before.len() && before[i] == v;
                assert(all[i] == v);
            } else {
                assert(all[before.len() as int] == v);
            }
        }
    }
}

/// What is reported for the first `rows` rows is what the gates violate there.
proof fn lemma_gate_report(
    gates: Seq<GateModel>,
    table: TableModel,
    instance: Seq<nat>,
    rows: nat,
    v: ViolationModel,
)
    ensures
        gate_violations(gates, table, instance, rows).contains(v) <==> exists|g: int, row: int|
            row < rows && #[trigger] reports_gate(gates, table, instance, g, row, v),
    decreases rows,
{
    if rows > 0 {
        let last = (rows - 1) as nat;
        lemma_gate_report(gates, table, instance, last, v);
        lemma_row_report(gates, table, instance, last, gates.len(), v);
        let above = gate_violations(gates, table, instance, last);
        let here = row_violations(gates, table, instance, last, gates.len());
        let all = gate_violations(gates, table, instance, rows);
        assert(all == above + here);
        if all.contains(v) {
            let i = choose|i: int| 0 <= i < all.len() && all[i] == v;
            if i < above.len() {
                assert(above[i] == v);
                let (g, row) = choose|g: int, row: int|
                    row < last && #[trigger] reports_gate(gates, table, instance, g, row, v);
                assert(row < rows && reports_gate(gates, table, instance, g, row, v));
            } else {
                assert(here[i - above.len()] == v);
                let g = choose|g: int|
                    g < gates.len() && #[trigger] reports_gate(
                        gates,
                        table,
                        instance,
                        g,
                        last as int,
                        v,
                    );
                assert(last < rows && reports_gate(gates, table, instance, g, last as int, v));
            }
        }
        if exists|g: int, row: int|
            row < rows && #[trigger] reports_gate(gates, table, instance, g, row, v) {
            let (g, row) = choose|g: int, row: int|
                row < rows && #[trigger] reports_gate(gates, table, instance, g, row, v);
            if row < last {
                assert(above.contains(v));
                let i = choose|i: int| 0 <= i < above.len() && above[i] == v;
                assert(all[i] == v);
            } else {
                assert(g < gates.len() && reports_gate(gates, table, instance, g, last as int, v));
                assert(here.contains(v));
                let i = choose|i: int| 0 <= i < here.len() && here[i] == v;
                assert(all[above.len() + i] == v);
            }
        }
    }
}

/// What is reported for the first `upto` copy constraints is what does not
/// hold among them.
proof fn lemma_copy_report(table: TableModel, instance: Seq<nat>, upto: nat, v: ViolationModel)
    requires
        upto <= table.copies.len(),
    ensures
        copy_violations(table, instance, upto).contains(v) <==> exists|i: int|
            i < upto && #[trigger] reports_copy(table, instance, i, v),
    decreases upto,
{
    if upto > 0 {
        let last = (upto - 1) as nat;
        lemma_copy_report(table, instance, last, v);
        let before = copy_violations(table, instance, last);
        let all = copy_violations(table, instance, upto);
        if all.contains(v) {
            let i = choose|i: int| 0 <= i < all.len() && all[i] == v;
            if i < before.len() {
                assert(before[i] == v);
                let k = choose|k: int| k < last && #[trigger] reports_copy(table, instance, k, v);
                assert(k < upto && reports_copy(table, instance, k, v));
            } else {
                assert(reports_copy(table, instance, last as int, v));
            }
        }
        if exists|i: int| i < upto && #[trigger] reports_copy(table, instance, i, v) {
            let k = choose|k: int| k < upto && #[trigger] reports_copy(table, instance, k, v);
            if k < last {
                assert(before.contains(v));
                let i = choose|i: int| 0 <= i < before.len() && before[i] == v;
                assert(all[i] == v);
            } else {
                assert(all[before.len() as int] == v);
            }
        }
    }
}

/// The report holds what is violated, and nothing else. A violation stands
/// in the report exactly if it names a gate and a row of the table on which
/// that gate is switched on and does not hold, or the two cells of a copy
/// constraint that does not hold.
pub proof fn lemma_report_is_exact(
    system: SystemModel,
    table: TableModel,
    instance: Seq<nat>,
    v: ViolationModel,
)
    ensures
        violations(system, table, instance).contains(v) <==> (exists|g: int, row: int|
            row < table.rows && #[trigger] reports_gate(system.gates, table, instance, g, row, v))
            || (exists|i: int| #[trigger] reports_copy(table, instance, i, v)),
{
    lemma_gate_report(system.gates, table, instance, table.rows, v);
    lemma_copy_report(table, instance, table.copies.len(), v);
    let gate_part = gate_violations(system.gates, table, instance, table.rows);
    let copy_part = copy_violations(table, instance, table.copies.len());
    let all = violations(system, table, instance);
    assert(all == gate_part + copy_part);
    if all.contains(v) {
        let i = choose|i: int| 0 <= i < all.len() && all[i] == v;
        if i < gate_part.len() {
            assert(gate_part[i] == v);
        } else {
            assert(copy_part[i - gate_part.len()] == v);
            let k = choose|k: int|
                k < table.copies.len() && #[trigger] reports_copy(table, instance, k, v);
            assert(reports_copy(table, instance, k, v));
        }
    }
    if gate_part.contains(v) {
        let i = choose|i: int| 0 <= i < gate_part.len() && gate_part[i] == v;
        assert(all[i] == v);
    }
    if exists|i: int| #[trigger] reports_copy(table, instance, i, v) {
        let k = choose|k: int| #[trigger] reports_copy(table, instance, k, v);
        assert(k < table.copies.len() && reports_copy(table, instance, k, v));
        assert(copy_part.contains(v));
        let i = choose|i: int| 0 <= i < copy_part.len() && copy_part[i] == v;
        assert(all[gate_part.len() + i] == v);
    }
}

/// Nothing is reported exactly if the table satisfies the relation.
pub proof fn lemma_passes_iff_satisfied(system: SystemModel, table: TableModel, instance: Seq<nat>)
    ensures
        violations(system, table, instance).len() == 0 <==> satisfied(system, table, instance),
{
    let all = violations(system, table, instance);
    if all.len() > 0 {
        let v = all[0];
        assert(all.contains(v));
        lemma_report_is_exact(system, table, instance, v);
        if exists|g: int, row: int|
            row < table.rows && #[trigger] reports_gate(system.gates, table, instance, g, row, v) {
            let (g, row) = choose|g: int, row: int|
                row < table.rows && #[trigger] reports_gate(
                    system.gates,
                    table,
                    instance,
                    g,
                    row,
                    v,
                );
            assert(gate_violated(system.gates[g], table, instance, row));
        } else {
            let i = choose|i: int| #[trigger] reports_copy(table, instance, i, v);
            assert(!copy_holds(table, instance, table.copies[i]));
        }
        assert(!satisfied(system, table, instance));
    }
    if !satisfied(system, table, instance) {
        if exists|g: int, row: int|
            0 <= g < system.gates.len() && 0 <= row < table.rows && #[trigger] gate_violated(
                system.gates[g],
                table,
                instance,
                row,
            ) {
            let (g, row) = choose|g: int, row: int|
                0 <= g < system.gates.len() && 0 <= row < table.rows && #[trigger] gate_violated(
                    system.gates[g],
                    table,
                    instance,
                    row,
                );
            let v = ViolationModel::Gate { name: system.gates[g].name, row: row as nat };
            assert(reports_gate(system.gates, table, instance, g, row, v));
            lemma_report_is_exact(system, table, instance, v);
            assert(all.contains(v));
        } else {
            let i = choose|i: int|
                0 <= i < table.copies.len() && !copy_holds(
                    table,
                    instance,
                    #[trigger] table.copies[i],
                );
            let v = ViolationModel::Copy {
                left: table.copies[i].left,
                right: table.copies[i].right,
            };
            assert(reports_copy(table, instance, i, v));
            lemma_report_is_exact(system, table, instance, v);
            assert(all.contains(v));
        }
    }
}

} // verus!
