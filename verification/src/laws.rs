//! What holds of the Fibonacci relation and its checker, for every pair of
//! inputs and every number of rows.
use crate::assignment::{AssignmentError, CopyConstraint, Region, TableModel};
use crate::checker::{
    cell_value, copy_holds, copy_violations, eval, gate_holds, gate_violated, gate_violations,
    is_verdict, lemma_report_is_exact, reports_gate, row_violations, violation_views, violations,
    Violation, ViolationModel,
};
use crate::circuit::FibonacciCircuit;
use crate::circuit_config::FibonacciConfig;
use crate::column::{Cell, Column, ColumnInfo, ColumnKind, Selector};
use crate::constraint_system::{ConfigError, SystemModel};
use crate::expr::ExprModel;
use crate::field::{field_add, field_mul, field_sub, modulus};
use crate::gate::{fibonacci_gate, fibonacci_identity};
use vstd::prelude::*;

verus! {

/// The handles that `configure` hands out in an empty registry.
pub open spec fn relation_config() -> FibonacciConfig {
    FibonacciConfig {
        col_a: Column { kind: ColumnKind::Private, id: 0 },
        col_b: Column { kind: ColumnKind::Private, id: 1 },
        col_c: Column { kind: ColumnKind::Private, id: 2 },
        selector: Selector { id: 0 },
        instance: Column { kind: ColumnKind::Public, id: 3 },
    }
}

/// The columns of the relation in an empty registry.
pub open spec fn relation_columns() -> Seq<ColumnInfo> {
    seq![
        ColumnInfo { kind: ColumnKind::Private, equality_enabled: true },
        ColumnInfo { kind: ColumnKind::Private, equality_enabled: true },
        ColumnInfo { kind: ColumnKind::Private, equality_enabled: true },
        ColumnInfo { kind: ColumnKind::Public, equality_enabled: true },
    ]
}

/// The registry that `configure` makes of an empty one.
pub open spec fn relation() -> SystemModel {
    SystemModel {
        columns: relation_columns(),
        selectors: 1,
        gates: seq![fibonacci_gate(relation_config())],
    }
}

/// The two inputs of a row: the seeds on row 0, and on each later row the
/// second input and the output of the row above.
pub open spec fn inputs(s0: nat, s1: nat, row: nat) -> (nat, nat)
    decreases row,
{
    if row == 0 {
        (s0, s1)
    } else {
        let above = inputs(s0, s1, (row - 1) as nat);
        (above.1, field_add(above.0, above.1))
    }
}

/// The output of a row: the sum of its inputs.
pub open spec fn output(s0: nat, s1: nat, row: nat) -> nat {
    field_add(inputs(s0, s1, row).0, inputs(s0, s1, row).1)
}

/// The cell of column `a` on a row.
pub open spec fn cell_a(row: nat) -> Cell {
    Cell { column: relation_config().col_a, row: row as usize }
}

/// The cell of column `b` on a row.
pub open spec fn cell_b(row: nat) -> Cell {
    Cell { column: relation_config().col_b, row: row as usize }
}

/// The cell of column `c` on a row.
pub open spec fn cell_c(row: nat) -> Cell {
    Cell { column: relation_config().col_c, row: row as usize }
}

/// The cell that stands for an entry of the instance.
pub open spec fn cell_public(index: nat) -> Cell {
    Cell { column: relation_config().instance, row: index as usize }
}

/// The cell that the first input of row `row` is copied from: the second
/// input of row 0 for row 1, and for each later row the output two rows up,
/// which is what the row above took as its second input.
pub open spec fn source_a(row: nat) -> Cell {
    if row <= 1 {
        cell_b(0)
    } else {
        cell_c((row - 2) as nat)
    }
}

/// What the witness holds in a cell once `filled` rows are written.
pub open spec fn witness_cell(s0: nat, s1: nat, filled: nat, column: int, row: int) -> Option<nat> {
    if 0 <= row < filled {
        if column == 0 {
            Some(inputs(s0, s1, row as nat).0)
        } else if column == 1 {
            Some(inputs(s0, s1, row as nat).1)
        } else if column == 2 {
            Some(output(s0, s1, row as nat))
        } else {
            None
        }
    } else {
        None
    }
}

/// The copy constraints of the first `filled` rows, two for each row: the
/// inputs of row 0 are bound to the instance, those of every other row to
/// the cells above that they are copied from.
pub open spec fn witness_copies(filled: nat) -> Seq<CopyConstraint>
    decreases filled,
{
    if filled == 0 {
        Seq::empty()
    } else if filled == 1 {
        seq![
            CopyConstraint { left: cell_public(0), right: cell_a(0) },
            CopyConstraint { left: cell_public(1), right: cell_b(0) },
        ]
    } else {
        witness_copies((filled - 1) as nat) + seq![
            CopyConstraint { left: source_a((filled - 1) as nat), right: cell_a((filled - 1) as nat) },
            CopyConstraint { left: cell_c((filled - 2) as nat), right: cell_b((filled - 1) as nat) },
        ]
    }
}

/// The table once `filled` rows of the witness are written.
pub open spec fn witness(rows: nat, instance: Seq<nat>, filled: nat) -> TableModel {
    TableModel {
        columns: relation_columns(),
        rows,
        cells: Seq::new(
            4,
            |c: int| Seq::new(rows, |r: int| witness_cell(instance[0], instance[1], filled, c, r)),
        ),
        selectors: Seq::new(1, |s: int| Seq::new(rows, |r: int| r < filled)),
        copies: witness_copies(filled),
        instance,
        next_row: filled,
    }
}

/// The table that `synthesize` leaves: the witness of `steps + 1` rows, with
/// the output of the last row bound to entry 2 of the instance.
pub open spec fn complete_witness(rows: nat, instance: Seq<nat>, steps: nat) -> TableModel {
    witness(rows, instance, steps + 1).with_copy(cell_c(steps), cell_public(2))
}

/// Every entry is a residue.
pub open spec fn residues(list: Seq<nat>) -> bool {
    forall|i: int| 0 <= i < list.len() ==> (#[trigger] list[i]) < modulus()
}

/// In an empty registry `configure` succeeds, and makes [`relation`] with
/// the handles of [`relation_config`].
pub proof fn lemma_configure_empty()
    ensures
        FibonacciCircuit::configured(SystemModel::empty()) == Ok::<_, ConfigError>(
            (relation(), relation_config()),
        ),
        relation().wf(),
{
    reveal_with_fuel(ExprModel::in_scope, 5);
    reveal_with_fuel(ExprModel::wf, 5);
    let empty = SystemModel::empty();
    let config = relation_config();
    let declared = SystemModel { columns: relation_columns(), selectors: 1, gates: Seq::empty() };
    assert(empty.columns + relation_columns() =~= relation_columns());
    assert(FibonacciConfig::declared(empty) == Ok::<_, ConfigError>((declared, config)));
    let gate = fibonacci_gate(config);
    assert(gate.exprs[0] == fibonacci_identity(config));
    assert(declared.gate_in_scope(gate));
    assert(declared.gates.push(gate) =~= relation().gates);
    assert(relation().gate_wf(relation().gates[0]));
}

proof fn lemma_inputs_are_residues(s0: nat, s1: nat, row: nat)
    requires
        s0 < modulus(),
        s1 < modulus(),
    ensures
        inputs(s0, s1, row).0 < modulus(),
        inputs(s0, s1, row).1 < modulus(),
        output(s0, s1, row) < modulus(),
    decreases row,
{
    if row > 0 {
        lemma_inputs_are_residues(s0, s1, (row - 1) as nat);
    }
}

proof fn lemma_witness_wf(rows: nat, instance: Seq<nat>, filled: nat)
    requires
        rows <= usize::MAX,
        filled <= rows,
        instance.len() >= 2,
        residues(instance),
    ensures
        witness(rows, instance, filled).wf(),
{
    let w = witness(rows, instance, filled);
    assert forall|c: int, r: int|
        0 <= c < w.cells.len() && 0 <= r < w.rows && (#[trigger] w.cells[c][r]) is Some implies w.cells[c][r].unwrap()
        < modulus() by {
        lemma_inputs_are_residues(instance[0], instance[1], r as nat);
    }
}

/// Row 0 on the empty table.
proof fn lemma_row_zero(rows: nat, instance: Seq<nat>)
    requires
        1 <= rows <= usize::MAX,
        instance.len() >= 2,
        residues(instance),
    ensures
        FibonacciCircuit::row_zero(
            TableModel::fresh(relation_columns(), 1, rows, instance),
            relation_config(),
        ) == Ok::<_, AssignmentError>(
            (
                witness(rows, instance, 1),
                (cell_a(0), instance[0]),
                (cell_b(0), instance[1]),
                (cell_c(0), output(instance[0], instance[1], 0)),
            ),
        ),
{
    let config = relation_config();
    let s0 = instance[0];
    let s1 = instance[1];
    let t0 = TableModel::fresh(relation_columns(), 1, rows, instance);
    let region = Region { start: 0, len: 1 };
    let t1 = TableModel { next_row: 1, ..t0 };
    assert(t0.open_region(1) == Ok::<_, AssignmentError>((t1, region)));
    let t2 = t1.enable_selector(region, config.selector, 0).unwrap();
    assert(t1.enable_selector(region, config.selector, 0) is Ok);
    let t3 = t2.with_value(cell_a(0), s0).with_copy(cell_public(0), cell_a(0));
    assert(t2.linkable(cell_public(0)) == Ok::<_, AssignmentError>(s0));
    assert(t2.assignable(region, config.col_a, 0) == Ok::<_, AssignmentError>(0usize));
    assert(t2.copy(region, cell_public(0), config.col_a, 0) == Ok::<_, AssignmentError>(
        (t3, cell_a(0)),
    ));
    let t4 = t3.with_value(cell_b(0), s1).with_copy(cell_public(1), cell_b(0));
    assert(t3.linkable(cell_public(1)) == Ok::<_, AssignmentError>(s1));
    assert(t3.assignable(region, config.col_b, 0) == Ok::<_, AssignmentError>(0usize));
    assert(t3.copy(region, cell_public(1), config.col_b, 0) == Ok::<_, AssignmentError>(
        (t4, cell_b(0)),
    ));
    let vc = field_add(s0, s1);
    let t5 = t4.with_value(cell_c(0), vc);
    assert(t4.assignable(region, config.col_c, 0) == Ok::<_, AssignmentError>(0usize));
    assert(t4.assign(region, config.col_c, 0, vc) == Ok::<_, AssignmentError>((t5, cell_c(0))));
    let w = witness(rows, instance, 1);
    assert(t5.cells =~~= w.cells);
    assert(t5.selectors =~~= w.selectors);
    assert(t5.copies =~= w.copies);
    assert(t5 == w);
}

/// One more row on the witness of `filled` rows.
proof fn lemma_next_row(rows: nat, instance: Seq<nat>, filled: nat)
    requires
        1 <= filled < rows <= usize::MAX,
        instance.len() >= 2,
        residues(instance),
    ensures
        FibonacciCircuit::next_row(
            witness(rows, instance, filled),
            relation_config(),
            (source_a(filled), inputs(instance[0], instance[1], (filled - 1) as nat).1),
            (cell_c((filled - 1) as nat), output(instance[0], instance[1], (filled - 1) as nat)),
        ) == Ok::<_, AssignmentError>(
            (
                witness(rows, instance, filled + 1),
                (cell_c(filled), output(instance[0], instance[1], filled)),
            ),
        ),
{
    let config = relation_config();
    let s0 = instance[0];
    let s1 = instance[1];
    let above = (filled - 1) as nat;
    let from_b = source_a(filled);
    let from_c = cell_c(above);
    let vb = inputs(s0, s1, above).1;
    let vc = output(s0, s1, above);
    let t0 = witness(rows, instance, filled);
    let region = Region { start: filled as usize, len: 1 };
    let t1 = TableModel { next_row: filled + 1, ..t0 };
    assert(t0.open_region(1) == Ok::<_, AssignmentError>((t1, region)));
    let t2 = t1.enable_selector(region, config.selector, 0).unwrap();
    assert(t1.row_of(region, 0) == Some(filled as usize));
    assert(t1.enable_selector(region, config.selector, 0) is Ok);
    let t3 = t2.with_value(cell_a(filled), vb).with_copy(from_b, cell_a(filled));
    assert(t2.value(from_b) == Some(vb)) by {
        if filled >= 2 {
            assert(inputs(s0, s1, above).1 == output(s0, s1, (filled - 2) as nat));
        }
    }
    assert(t2.linkable(from_b) == Ok::<_, AssignmentError>(vb));
    assert(t2.value(cell_a(filled)) is None);
    assert(t2.assignable(region, config.col_a, 0) == Ok::<_, AssignmentError>(filled as usize));
    assert(t2.copy(region, from_b, config.col_a, 0) == Ok::<_, AssignmentError>(
        (t3, cell_a(filled)),
    ));
    let t4 = t3.with_value(cell_b(filled), vc).with_copy(from_c, cell_b(filled));
    assert(t3.value(from_c) == Some(vc));
    assert(t3.linkable(from_c) == Ok::<_, AssignmentError>(vc));
    assert(t3.value(cell_b(filled)) is None);
    assert(t3.assignable(region, config.col_b, 0) == Ok::<_, AssignmentError>(filled as usize));
    assert(t3.copy(region, from_c, config.col_b, 0) == Ok::<_, AssignmentError>(
        (t4, cell_b(filled)),
    ));
    let sum = field_add(vb, vc);
    assert(sum == output(s0, s1, filled));
    let t5 = t4.with_value(cell_c(filled), sum);
    assert(t4.value(cell_c(filled)) is None);
    assert(t4.assignable(region, config.col_c, 0) == Ok::<_, AssignmentError>(filled as usize));
    assert(t4.assign(region, config.col_c, 0, sum) == Ok::<_, AssignmentError>(
        (t5, cell_c(filled)),
    ));
    let w = witness(rows, instance, filled + 1);
    assert forall|c: int, r: int| 0 <= c < 4 && 0 <= r < rows implies t5.cells[c][r]
        == w.cells[c][r] by {
        if r == filled {
            assert(inputs(s0, s1, filled).0 == vb);
            assert(inputs(s0, s1, filled).1 == vc);
        }
    }
    assert(t5.cells =~~= w.cells);
    assert(t5.selectors =~~= w.selectors);
    assert(t5.copies =~= w.copies);
    assert(t5 == w);
}

/// `steps` more rows on the witness of `filled` rows.
proof fn lemma_recurrence(rows: nat, instance: Seq<nat>, filled: nat, steps: nat)
    requires
        1 <= filled,
        filled + steps <= rows <= usize::MAX,
        instance.len() >= 2,
        residues(instance),
    ensures
        FibonacciCircuit::recurrence(
            witness(rows, instance, filled),
            relation_config(),
            (source_a(filled), inputs(instance[0], instance[1], (filled - 1) as nat).1),
            (cell_c((filled - 1) as nat), output(instance[0], instance[1], (filled - 1) as nat)),
            steps,
        ) == Ok::<_, AssignmentError>(
            (
                witness(rows, instance, filled + steps),
                (
                    cell_c((filled + steps - 1) as nat),
                    output(instance[0], instance[1], (filled + steps - 1) as nat),
                ),
            ),
        ),
    decreases steps,
{
    if steps > 0 {
        lemma_next_row(rows, instance, filled);
        lemma_recurrence(rows, instance, filled + 1, (steps - 1) as nat);
        assert(inputs(instance[0], instance[1], filled).1 == output(
            instance[0],
            instance[1],
            (filled - 1) as nat,
        ));
    }
}

/// More rows than the table has left cannot be filled.
proof fn lemma_recurrence_runs_out(rows: nat, instance: Seq<nat>, filled: nat, steps: nat)
    requires
        1 <= filled <= rows <= usize::MAX,
        filled + steps > rows,
        instance.len() >= 2,
        residues(instance),
    ensures
        FibonacciCircuit::recurrence(
            witness(rows, instance, filled),
            relation_config(),
            (source_a(filled), inputs(instance[0], instance[1], (filled - 1) as nat).1),
            (cell_c((filled - 1) as nat), output(instance[0], instance[1], (filled - 1) as nat)),
            steps,
        ) == Err::<(TableModel, (Cell, nat)), _>(AssignmentError::RowOutOfRange),
    decreases steps,
{
    if filled < rows {
        lemma_next_row(rows, instance, filled);
        lemma_recurrence_runs_out(rows, instance, filled + 1, (steps - 1) as nat);
        assert(inputs(instance[0], instance[1], filled).1 == output(
            instance[0],
            instance[1],
            (filled - 1) as nat,
        ));
    }
}

/// Row 0 on the empty table of a relation whose instance lacks an input.
proof fn lemma_row_zero_lacks_input(rows: nat, instance: Seq<nat>)
    requires
        1 <= rows <= usize::MAX,
        instance.len() < 2,
    ensures
        FibonacciCircuit::row_zero(
            TableModel::fresh(relation_columns(), 1, rows, instance),
            relation_config(),
        ) == Err::<(TableModel, (Cell, nat), (Cell, nat), (Cell, nat)), _>(
            AssignmentError::InstanceOutOfRange,
        ),
{
    let config = relation_config();
    let t0 = TableModel::fresh(relation_columns(), 1, rows, instance);
    let region = Region { start: 0, len: 1 };
    let t1 = TableModel { next_row: 1, ..t0 };
    assert(t0.open_region(1) == Ok::<_, AssignmentError>((t1, region)));
    let t2 = t1.enable_selector(region, config.selector, 0).unwrap();
    assert(t1.enable_selector(region, config.selector, 0) is Ok);
    if instance.len() == 0 {
        assert(t2.linkable(cell_public(0)) == Err::<nat, _>(AssignmentError::InstanceOutOfRange));
    } else {
        let t3 = t2.with_value(cell_a(0), instance[0]).with_copy(cell_public(0), cell_a(0));
        assert(t2.linkable(cell_public(0)) == Ok::<_, AssignmentError>(instance[0]));
        assert(t2.assignable(region, config.col_a, 0) == Ok::<_, AssignmentError>(0usize));
        assert(t2.copy(region, cell_public(0), config.col_a, 0) == Ok::<_, AssignmentError>(
            (t3, cell_a(0)),
        ));
        assert(t3.linkable(cell_public(1)) == Err::<nat, _>(AssignmentError::InstanceOutOfRange));
    }
}

/// What `synthesize` makes of the empty table of the relation. It succeeds
/// exactly when the table has a row for row 0 and for every step, and the
/// instance has its three entries; it then leaves [`complete_witness`]. With
/// no step at all, it is the output of row 0 that is bound to the instance.
/// Otherwise it fails on what it misses first: row 0, an input, a row for a
/// step, the entry for the output.
pub proof fn lemma_synthesize_outcome(rows: nat, instance: Seq<nat>, steps: nat)
    requires
        rows <= usize::MAX,
        residues(instance),
    ensures
        FibonacciCircuit::synthesized(
            TableModel::fresh(relation().columns, relation().selectors, rows, instance),
            relation_config(),
            steps,
        ) == if rows == 0 {
            Err::<TableModel, _>(AssignmentError::RowOutOfRange)
        } else if instance.len() < 2 {
            Err(AssignmentError::InstanceOutOfRange)
        } else if rows < steps + 1 {
            Err(AssignmentError::RowOutOfRange)
        } else if instance.len() < 3 {
            Err(AssignmentError::InstanceOutOfRange)
        } else {
            Ok(complete_witness(rows, instance, steps))
        },
        steps + 1 <= rows && instance.len() >= 2 ==> complete_witness(rows, instance, steps).wf(),
{
    if rows == 0 {
    } else if instance.len() < 2 {
        lemma_row_zero_lacks_input(rows, instance);
    } else if rows < steps + 1 {
        lemma_row_zero(rows, instance);
        lemma_recurrence_runs_out(rows, instance, 1, steps);
    } else {
        lemma_row_zero(rows, instance);
        lemma_recurrence(rows, instance, 1, steps);
        lemma_witness_wf(rows, instance, steps + 1);
        let filled = witness(rows, instance, steps + 1);
        lemma_inputs_are_residues(instance[0], instance[1], steps);
        assert(filled.value(cell_c(steps)) == Some(output(instance[0], instance[1], steps)));
        assert(filled.linkable(cell_c(steps)) is Ok);
        if instance.len() >= 3 {
            assert(filled.linkable(cell_public(2)) is Ok);
        } else {
            assert(filled.linkable(cell_public(2)) == Err::<nat, _>(
                AssignmentError::InstanceOutOfRange,
            ));
        }
    }
}

/// The instance that an honest prover claims for the inputs `s0` and `s1`
/// and `steps` rows after the first: the inputs and the output of the last
/// row.
pub open spec fn honest_instance(s0: nat, s1: nat, steps: nat) -> Seq<nat> {
    seq![s0, s1, output(s0, s1, steps)]
}

/// The value of the relation's identity on a row whose selector is enabled and
/// whose three cells hold `a`, `b` and `c`.
proof fn lemma_identity_value(table: TableModel, instance: Seq<nat>, row: nat, a: nat, b: nat, c: nat)
    requires
        table.columns == relation_columns(),
        row <= usize::MAX,
        table.enabled(relation_config().selector, row as int),
        table.value(cell_a(row)) == Some(a),
        table.value(cell_b(row)) == Some(b),
        table.value(cell_c(row)) == Some(c),
    ensures
        eval(fibonacci_identity(relation_config()), table, instance, row as int) == Some(
            field_mul(1, field_sub(field_add(a, b), c)),
        ),
{
    let config = relation_config();
    let at = row as int;
    let query_a = ExprModel::ColumnQuery { column: config.col_a, offset: 0 };
    let query_b = ExprModel::ColumnQuery { column: config.col_b, offset: 0 };
    let query_c = ExprModel::ColumnQuery { column: config.col_c, offset: 0 };
    let switch = ExprModel::Selector(config.selector);
    let sum = ExprModel::Add(Box::new(query_a), Box::new(query_b));
    let difference = ExprModel::Sub(Box::new(sum), Box::new(query_c));
    let product = ExprModel::Mul(Box::new(switch), Box::new(difference));
    assert(cell_value(table, instance, config.col_a, at) == Some(a));
    assert(cell_value(table, instance, config.col_b, at) == Some(b));
    assert(cell_value(table, instance, config.col_c, at) == Some(c));
    assert(eval(query_a, table, instance, at) == Some(a));
    assert(eval(query_b, table, instance, at) == Some(b));
    assert(eval(query_c, table, instance, at) == Some(c));
    assert(eval(switch, table, instance, at) == Some(1nat));
    assert(eval(sum, table, instance, at) == Some(field_add(a, b)));
    assert(eval(difference, table, instance, at) == Some(field_sub(field_add(a, b), c)));
    assert(eval(product, table, instance, at) == Some(
        field_mul(1, field_sub(field_add(a, b), c)),
    ));
    assert(product == fibonacci_identity(config));
}

/// Among residues, `a + b - c` is zero exactly when `c` is the sum of `a`
/// and `b`; the selector's factor one changes nothing.
proof fn lemma_identity_zero(a: nat, b: nat, c: nat)
    requires
        a < modulus(),
        b < modulus(),
        c < modulus(),
    ensures
        field_mul(1, field_sub(field_add(a, b), c)) == 0 <==> c == field_add(a, b),
{
}

/// Two sums of residues that differ in one term differ.
proof fn lemma_sum_injective(a: nat, b: nat, other: nat)
    requires
        a < modulus(),
        b < modulus(),
        other < modulus(),
        a != other,
    ensures
        field_add(a, b) != field_add(other, b),
        field_add(b, a) != field_add(b, other),
{
}

/// The table that `synthesize` leaves holds the witness in its cells.
proof fn lemma_complete_witness_cells(rows: nat, instance: Seq<nat>, steps: nat, row: nat)
    requires
        steps + 1 <= rows <= usize::MAX,
        instance.len() >= 2,
        row < rows,
    ensures
        ({
            let table = complete_witness(rows, instance, steps);
            let s0 = instance[0];
            let s1 = instance[1];
            &&& table.columns == relation_columns()
            &&& table.rows == rows
            &&& table.enabled(relation_config().selector, row as int) == (row <= steps)
            &&& row <= steps ==> table.value(cell_a(row)) == Some(inputs(s0, s1, row).0)
            &&& row <= steps ==> table.value(cell_b(row)) == Some(inputs(s0, s1, row).1)
            &&& row <= steps ==> table.value(cell_c(row)) == Some(output(s0, s1, row))
        }),
{
}

/// A table on which no gate is violated on the first `upto` rows has no gate
/// violation there.
proof fn lemma_no_gate_violations(table: TableModel, instance: Seq<nat>, upto: nat)
    requires
        forall|row: nat|
            row < upto ==> !gate_violated(
                fibonacci_gate(relation_config()),
                table,
                instance,
                row as int,
            ),
    ensures
        gate_violations(relation().gates, table, instance, upto) == Seq::<ViolationModel>::empty(),
    decreases upto,
{
    reveal_with_fuel(row_violations, 2);
    if upto > 0 {
        lemma_no_gate_violations(table, instance, (upto - 1) as nat);
        let row = (upto - 1) as nat;
        assert(!gate_violated(fibonacci_gate(relation_config()), table, instance, row as int));
        assert(relation().gates[0] == fibonacci_gate(relation_config()));
        assert(row_violations(relation().gates, table, instance, row, 1) == Seq::<
            ViolationModel,
        >::empty());
        assert(gate_violations(relation().gates, table, instance, upto) =~= Seq::<
            ViolationModel,
        >::empty());
    }
}

/// The copy constraints of `filled` rows: two for each row.
proof fn lemma_witness_copies_len(filled: nat)
    ensures
        witness_copies(filled).len() == 2 * filled,
    decreases filled,
{
    if filled >= 2 {
        lemma_witness_copies_len((filled - 1) as nat);
    }
}

/// Every copy constraint among the rows of the witness holds, whatever the
/// third entry of the instance is, as long as the first two are the inputs.
proof fn lemma_witness_copies_hold(
    rows: nat,
    instance: Seq<nat>,
    steps: nat,
    checked: Seq<nat>,
    filled: nat,
    index: int,
)
    requires
        steps + 1 <= rows <= usize::MAX,
        instance.len() >= 2,
        checked.len() >= 2,
        checked[0] == instance[0],
        checked[1] == instance[1],
        filled <= steps + 1,
        0 <= index < 2 * filled,
    ensures
        witness_copies(filled).len() == 2 * filled,
        copy_holds(complete_witness(rows, instance, steps), checked, witness_copies(filled)[index]),
    decreases filled,
{
    lemma_witness_copies_len(filled);
    let table = complete_witness(rows, instance, steps);
    let s0 = instance[0];
    let s1 = instance[1];
    if filled == 1 {
        lemma_complete_witness_cells(rows, instance, steps, 0);
    } else {
        lemma_witness_copies_len((filled - 1) as nat);
        if index < 2 * (filled - 1) {
            lemma_witness_copies_hold(rows, instance, steps, checked, (filled - 1) as nat, index);
        } else {
            let row = (filled - 1) as nat;
            let above = (filled - 2) as nat;
            lemma_complete_witness_cells(rows, instance, steps, row);
            lemma_complete_witness_cells(rows, instance, steps, above);
            assert(inputs(s0, s1, row).0 == inputs(s0, s1, above).1);
            assert(inputs(s0, s1, row).1 == output(s0, s1, above));
            if above >= 1 {
                let higher = (above - 1) as nat;
                lemma_complete_witness_cells(rows, instance, steps, higher);
                assert(inputs(s0, s1, above).1 == output(s0, s1, higher));
            }
            if index == 2 * (filled - 1) {
                assert(witness_copies(filled)[index] == CopyConstraint {
                    left: source_a(row),
                    right: cell_a(row),
                });
            } else {
                assert(witness_copies(filled)[index] == CopyConstraint {
                    left: cell_c(above),
                    right: cell_b(row),
                });
            }
        }
    }
}

/// No copy constraint among the rows of the witness is violated.
proof fn lemma_no_copy_violations(
    rows: nat,
    instance: Seq<nat>,
    steps: nat,
    checked: Seq<nat>,
    upto: nat,
)
    requires
        steps + 1 <= rows <= usize::MAX,
        instance.len() >= 2,
        checked.len() >= 2,
        checked[0] == instance[0],
        checked[1] == instance[1],
        upto <= 2 * (steps + 1),
    ensures
        copy_violations(complete_witness(rows, instance, steps), checked, upto) == Seq::<
            ViolationModel,
        >::empty(),
    decreases upto,
{
    if upto > 0 {
        lemma_no_copy_violations(rows, instance, steps, checked, (upto - 1) as nat);
        lemma_witness_copies_hold(rows, instance, steps, checked, steps + 1, upto - 1);
        let table = complete_witness(rows, instance, steps);
        assert(table.copies[upto - 1] == witness_copies(steps + 1)[upto - 1]);
    }
}

/// The checker's report on the table that `synthesize` leaves, for an
/// instance that starts with the inputs: nothing if its third entry is the
/// output of the last row, and else the one binding of that output.
proof fn lemma_report(rows: nat, instance: Seq<nat>, steps: nat, checked: Seq<nat>)
    requires
        steps + 1 <= rows <= usize::MAX,
        instance.len() >= 2,
        residues(instance),
        checked.len() == 3,
        checked[0] == instance[0],
        checked[1] == instance[1],
    ensures
        gate_violations(
            relation().gates,
            complete_witness(rows, instance, steps),
            checked,
            rows,
        ) == Seq::<ViolationModel>::empty(),
        violations(relation(), complete_witness(rows, instance, steps), checked) == if checked[2]
            == output(instance[0], instance[1], steps) {
            Seq::<ViolationModel>::empty()
        } else {
            seq![ViolationModel::Copy { left: cell_c(steps), right: cell_public(2) }]
        },
{
    let table = complete_witness(rows, instance, steps);
    let s0 = instance[0];
    let s1 = instance[1];
    let gate = fibonacci_gate(relation_config());
    assert forall|row: nat| row < rows implies !gate_violated(gate, table, checked, row as int) by {
        lemma_complete_witness_cells(rows, instance, steps, row);
        if row <= steps {
            lemma_inputs_are_residues(s0, s1, row);
            lemma_identity_value(
                table,
                checked,
                row,
                inputs(s0, s1, row).0,
                inputs(s0, s1, row).1,
                output(s0, s1, row),
            );
            lemma_identity_zero(inputs(s0, s1, row).0, inputs(s0, s1, row).1, output(s0, s1, row));
            assert(gate.exprs[0] == fibonacci_identity(relation_config()));
            assert(gate_holds(gate, table, checked, row as int));
        }
    }
    lemma_no_gate_violations(table, checked, rows);
    lemma_witness_copies_len(steps + 1);
    let bound = (2 * (steps + 1)) as nat;
    lemma_no_copy_violations(rows, instance, steps, checked, bound);
    assert(table.copies.len() == bound + 1);
    let last = table.copies[bound as int];
    assert(last == CopyConstraint { left: cell_c(steps), right: cell_public(2) });
    lemma_complete_witness_cells(rows, instance, steps, steps);
    assert(cell_value(table, checked, last.left.column, last.left.row as int) == Some(
        output(s0, s1, steps),
    ));
    assert(cell_value(table, checked, last.right.column, last.right.row as int) == Some(checked[2]));
    assert(copy_violations(table, checked, bound + 1) =~= if checked[2] == output(s0, s1, steps) {
        Seq::<ViolationModel>::empty()
    } else {
        seq![ViolationModel::Copy { left: cell_c(steps), right: cell_public(2) }]
    });
    assert(violations(relation(), table, checked) =~= copy_violations(table, checked, bound + 1));
}

/// An honest witness passes. For all inputs `s0` and `s1` and every number
/// of steps, the table that `synthesize` fills from an instance with these
/// inputs violates nothing when it is checked against the inputs and the
/// output of the last row. What the prover's instance claimed as its third
/// entry plays no part.
pub proof fn lemma_honest_witness_passes(rows: nat, s0: nat, s1: nat, claimed: nat, steps: nat)
    requires
        steps + 1 <= rows <= usize::MAX,
        s0 < modulus(),
        s1 < modulus(),
        claimed < modulus(),
    ensures
        FibonacciCircuit::synthesized(
            TableModel::fresh(relation().columns, relation().selectors, rows, seq![s0, s1, claimed]),
            relation_config(),
            steps,
        ) == Ok::<_, AssignmentError>(complete_witness(rows, seq![s0, s1, claimed], steps)),
        violations(
            relation(),
            complete_witness(rows, seq![s0, s1, claimed], steps),
            honest_instance(s0, s1, steps),
        ) == Seq::<ViolationModel>::empty(),
{
    let instance = seq![s0, s1, claimed];
    lemma_synthesize_outcome(rows, instance, steps);
    lemma_report(rows, instance, steps, honest_instance(s0, s1, steps));
}

/// A wrong output is caught, and by the binding alone. Checked against an
/// instance whose third entry is not the output of the last row, the table
/// of an honest witness has exactly one violation, the copy constraint
/// between the last output and entry 2 of the instance, and no gate
/// violation.
pub proof fn lemma_wrong_output_is_one_violation(
    rows: nat,
    s0: nat,
    s1: nat,
    claimed: nat,
    steps: nat,
    wrong: nat,
)
    requires
        steps + 1 <= rows <= usize::MAX,
        s0 < modulus(),
        s1 < modulus(),
        claimed < modulus(),
        wrong != output(s0, s1, steps),
    ensures
        violations(
            relation(),
            complete_witness(rows, seq![s0, s1, claimed], steps),
            seq![s0, s1, wrong],
        ) == seq![ViolationModel::Copy { left: cell_c(steps), right: cell_public(2) }],
        gate_violations(
            relation().gates,
            complete_witness(rows, seq![s0, s1, claimed], steps),
            seq![s0, s1, wrong],
            rows,
        ) == Seq::<ViolationModel>::empty(),
{
    lemma_report(rows, seq![s0, s1, claimed], steps, seq![s0, s1, wrong]);
}

/// A changed cell is caught on its row. If one written cell of an honest
/// witness is given another value, and nothing else is touched, then the
/// checker reports, whatever the instance, at least one violation on the row
/// of that cell.
pub proof fn lemma_changed_cell_is_caught(
    rows: nat,
    s0: nat,
    s1: nat,
    claimed: nat,
    steps: nat,
    cell: Cell,
    value: nat,
    checked: Seq<nat>,
)
    requires
        steps + 1 <= rows <= usize::MAX,
        s0 < modulus(),
        s1 < modulus(),
        claimed < modulus(),
        cell.row <= steps,
        cell == cell_a(cell.row as nat) || cell == cell_b(cell.row as nat) || cell == cell_c(
            cell.row as nat,
        ),
        value < modulus(),
        complete_witness(rows, seq![s0, s1, claimed], steps).value(cell) != Some(value),
    ensures
        ({
            let changed = complete_witness(rows, seq![s0, s1, claimed], steps).with_value(
                cell,
                value,
            );
            let report = violations(relation(), changed, checked);
            exists|i: int| 0 <= i < report.len() && (#[trigger] report[i]).touches_row(cell.row as nat)
        }),
{
    let instance = seq![s0, s1, claimed];
    let table = complete_witness(rows, instance, steps);
    let changed = table.with_value(cell, value);
    let row = cell.row as nat;
    let a = inputs(s0, s1, row).0;
    let b = inputs(s0, s1, row).1;
    let c = output(s0, s1, row);
    lemma_complete_witness_cells(rows, instance, steps, row);
    lemma_inputs_are_residues(s0, s1, row);
    let gate = fibonacci_gate(relation_config());
    assert(changed.enabled(relation_config().selector, row as int));
    if cell == cell_a(row) {
        assert(changed.value(cell_a(row)) == Some(value));
        assert(changed.value(cell_b(row)) == Some(b));
        assert(changed.value(cell_c(row)) == Some(c));
        lemma_identity_value(changed, checked, row, value, b, c);
        lemma_identity_zero(value, b, c);
        lemma_sum_injective(a, b, value);
    } else if cell == cell_b(row) {
        assert(changed.value(cell_a(row)) == Some(a));
        assert(changed.value(cell_b(row)) == Some(value));
        assert(changed.value(cell_c(row)) == Some(c));
        lemma_identity_value(changed, checked, row, a, value, c);
        lemma_identity_zero(a, value, c);
        lemma_sum_injective(b, a, value);
    } else {
        assert(changed.value(cell_a(row)) == Some(a));
        assert(changed.value(cell_b(row)) == Some(b));
        assert(changed.value(cell_c(row)) == Some(value));
        lemma_identity_value(changed, checked, row, a, b, value);
        lemma_identity_zero(a, b, value);
    }
    assert(gate.exprs[0] == fibonacci_identity(relation_config()));
    assert(!gate_holds(gate, changed, checked, row as int));
    let found = ViolationModel::Gate { name: gate.name, row };
    assert(reports_gate(relation().gates, changed, checked, 0, row as int, found));
    lemma_report_is_exact(relation(), changed, checked, found);
    let report = violations(relation(), changed, checked);
    let i = choose|i: int| 0 <= i < report.len() && report[i] == found;
    assert(report[i].touches_row(row));
}

/// Checking twice tells the same. Whatever `check` returns for a relation,
/// a table and an instance, it returns on every call: either no violation,
/// or the same violations in the same order.
pub proof fn lemma_verdict_is_unique(
    first: Result<(), Vec<Violation>>,
    second: Result<(), Vec<Violation>>,
    system: SystemModel,
    table: TableModel,
    instance: Seq<nat>,
)
    requires
        is_verdict(first, system, table, instance),
        is_verdict(second, system, table, instance),
    ensures
        first is Ok <==> second is Ok,
        first is Err && second is Err ==> violation_views(first->Err_0@) == violation_views(
            second->Err_0@,
        ),
{
}

} // verus!
