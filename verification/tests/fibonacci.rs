use fibonacci_circuit::assignment::{Assignment, AssignmentError, CopyConstraint};
use fibonacci_circuit::checker::{check, Violation};
use fibonacci_circuit::circuit::{FibonacciCircuit, OUTPUT_INDEX, TEN_TERMS};
use fibonacci_circuit::circuit_config::FibonacciConfig;
use fibonacci_circuit::column::{Cell, Column};
use fibonacci_circuit::constraint_system::ConstraintSystem;
use fibonacci_circuit::field::FieldElement;

fn fe(n: u64) -> FieldElement {
    FieldElement::from_u64(n)
}

fn fes(values: &[u64]) -> Vec<FieldElement> {
    values.iter().map(|v| fe(*v)).collect()
}

fn relation() -> (ConstraintSystem, FibonacciConfig) {
    let mut meta = ConstraintSystem::new();
    let config = FibonacciCircuit::configure(&mut meta).unwrap();
    (meta, config)
}

/// The table of a witness for the given inputs.
fn witness(steps: usize, rows: usize, s0: u64, s1: u64) -> (ConstraintSystem, FibonacciConfig, Assignment) {
    let (meta, config) = relation();
    // the prover's own claim for the output plays no part in the witness
    let mut table = Assignment::new(&meta, rows, fes(&[s0, s1, 0]));
    FibonacciCircuit { steps }.synthesize(config, &mut table).unwrap();
    (meta, config, table)
}

fn at(column: Column, row: usize) -> Cell {
    Cell { column, row }
}

fn add_gate(row: usize) -> Violation {
    Violation::Gate { name: "add".to_string(), row }
}

#[test]
fn ten_terms_end_in_55() {
    let (meta, config, table) = witness(TEN_TERMS, 16, 1, 1);
    // 1, 1, 2, 3, 5, 8, 13, 21, 34, 55
    let outputs = [2u64, 3, 5, 8, 13, 21, 34, 55];
    for (row, c) in outputs.iter().enumerate() {
        assert_eq!(table.value(at(config.col_c, row)), Some(fe(*c)));
    }
    assert_eq!(table.value(at(config.col_c, 8)), None);
    assert_eq!(check(&meta, &table, &fes(&[1, 1, 55])), Ok(()));
}

#[test]
fn ten_terms_with_54_claimed_fail_at_the_binding_alone() {
    let (meta, config, table) = witness(TEN_TERMS, 16, 1, 1);
    assert_eq!(
        check(&meta, &table, &fes(&[1, 1, 54])),
        Err(vec![Violation::Copy {
            left: at(config.col_c, 7),
            right: at(config.instance, OUTPUT_INDEX),
        }])
    );
}

#[test]
fn default_circuit_has_ten_terms() {
    assert_eq!(FibonacciCircuit::default(), FibonacciCircuit { steps: 7 });
    let circuit = FibonacciCircuit { steps: 3 };
    assert_eq!(circuit.without_witnesses(), circuit);
}

#[test]
fn nine_steps_after_row_zero_end_in_144() {
    let (meta, config, table) = witness(9, 10, 1, 1);
    assert_eq!(table.value(at(config.col_a, 9)), Some(fe(55)));
    assert_eq!(table.value(at(config.col_b, 9)), Some(fe(89)));
    assert_eq!(table.value(at(config.col_c, 9)), Some(fe(144)));
    assert_eq!(check(&meta, &table, &fes(&[1, 1, 144])), Ok(()));
    assert_eq!(
        check(&meta, &table, &fes(&[1, 1, 55])),
        Err(vec![Violation::Copy {
            left: at(config.col_c, 9),
            right: at(config.instance, OUTPUT_INDEX),
        }])
    );
}

#[test]
fn no_step_exposes_the_output_of_row_zero() {
    let (meta, config, table) = witness(0, 1, 2, 3);
    assert_eq!(table.value(at(config.col_a, 0)), Some(fe(2)));
    assert_eq!(table.value(at(config.col_b, 0)), Some(fe(3)));
    assert_eq!(table.value(at(config.col_c, 0)), Some(fe(5)));
    assert_eq!(
        table.copies().last(),
        Some(&CopyConstraint { left: at(config.col_c, 0), right: at(config.instance, 2) })
    );
    assert_eq!(table.copies().len(), 3);
    assert_eq!(check(&meta, &table, &fes(&[2, 3, 5])), Ok(()));
    assert!(check(&meta, &table, &fes(&[2, 3, 8])).is_err());
}

#[test]
fn honest_witnesses_pass_for_other_inputs_and_lengths() {
    // inputs, steps, output of the last row
    let cases: [(u64, u64, usize, u64); 6] = [
        (0, 0, 5, 0),
        (0, 1, 4, 8),
        (2, 1, 3, 11),
        (5, 8, 1, 21),
        (7, 7, 2, 35),
        (1, 1, 20, 28657),
    ];
    for (s0, s1, steps, output) in cases {
        let (meta, _, table) = witness(steps, steps + 1, s0, s1);
        assert_eq!(check(&meta, &table, &fes(&[s0, s1, output])), Ok(()));
        assert!(check(&meta, &table, &fes(&[s0, s1, output + 1])).is_err());
    }
}

#[test]
fn sums_wrap_in_the_field() {
    let (meta, config) = relation();
    let minus_one = fe(0).sub(&fe(1));
    let mut table = Assignment::new(&meta, 4, vec![minus_one, fe(3), fe(0)]);
    FibonacciCircuit { steps: 1 }.synthesize(config, &mut table).unwrap();
    // -1 + 3 = 2, then 3 + 2 = 5
    assert_eq!(table.value(at(config.col_c, 0)), Some(fe(2)));
    assert_eq!(table.value(at(config.col_c, 1)), Some(fe(5)));
    assert_eq!(check(&meta, &table, &vec![minus_one, fe(3), fe(5)]), Ok(()));
}

#[test]
fn rows_are_wired_to_the_row_above() {
    let (_, config, table) = witness(2, 3, 1, 1);
    let link = |left: Cell, right: Cell| CopyConstraint { left, right };
    assert_eq!(
        table.copies(),
        &vec![
            link(at(config.instance, 0), at(config.col_a, 0)),
            link(at(config.instance, 1), at(config.col_b, 0)),
            link(at(config.col_b, 0), at(config.col_a, 1)),
            link(at(config.col_c, 0), at(config.col_b, 1)),
            link(at(config.col_c, 0), at(config.col_a, 2)),
            link(at(config.col_c, 1), at(config.col_b, 2)),
            link(at(config.col_c, 2), at(config.instance, 2)),
        ]
    );
    for row in 0..3 {
        assert!(table.enabled(config.selector, row));
    }
}

#[test]
fn assign_row_zero_and_assign_row_thread_the_cells() {
    let (meta, config) = relation();
    let circuit = FibonacciCircuit { steps: 1 };
    let mut table = Assignment::new(&meta, 2, fes(&[4, 6, 16]));
    let (a, b, c) = circuit.assign_row_zero(&mut table, &config).unwrap();
    assert_eq!((a.cell, a.value), (at(config.col_a, 0), fe(4)));
    assert_eq!((b.cell, b.value), (at(config.col_b, 0), fe(6)));
    assert_eq!((c.cell, c.value), (at(config.col_c, 0), fe(10)));
    let next = circuit.assign_row(&mut table, &b, &c, &config).unwrap();
    assert_eq!((next.cell, next.value), (at(config.col_c, 1), fe(16)));
    assert_eq!(table.value(at(config.col_a, 1)), Some(fe(6)));
    assert_eq!(table.value(at(config.col_b, 1)), Some(fe(10)));
    assert_eq!(circuit.expose_public(&mut table, &next, &config, 2), Ok(()));
    assert_eq!(check(&meta, &table, &fes(&[4, 6, 16])), Ok(()));
    // bound to the second input instead, the output does not match it
    assert_eq!(circuit.expose_public(&mut table, &next, &config, 1), Ok(()));
    assert_eq!(
        check(&meta, &table, &fes(&[4, 6, 16])),
        Err(vec![Violation::Copy { left: next.cell, right: at(config.instance, 1) }])
    );
}

#[test]
fn expose_public_refuses_an_index_outside_the_instance() {
    let (meta, config) = relation();
    let circuit = FibonacciCircuit { steps: 0 };
    let mut table = Assignment::new(&meta, 1, fes(&[1, 1, 2]));
    let (_, _, c) = circuit.assign_row_zero(&mut table, &config).unwrap();
    assert_eq!(
        circuit.expose_public(&mut table, &c, &config, 3),
        Err(AssignmentError::InstanceOutOfRange)
    );
    assert_eq!(table.copies().len(), 2);
}

#[test]
fn synthesize_needs_a_row_for_every_step() {
    let (meta, config) = relation();
    let mut table = Assignment::new(&meta, 7, fes(&[1, 1, 55]));
    assert_eq!(
        FibonacciCircuit { steps: 7 }.synthesize(config, &mut table),
        Err(AssignmentError::RowOutOfRange)
    );
    let mut none = Assignment::new(&meta, 0, fes(&[1, 1, 2]));
    assert_eq!(
        FibonacciCircuit { steps: 0 }.synthesize(config, &mut none),
        Err(AssignmentError::RowOutOfRange)
    );
}

#[test]
fn synthesize_needs_three_entries_of_the_instance() {
    let (meta, config) = relation();
    for entries in 0..3 {
        let mut table = Assignment::new(&meta, 4, fes(&[1, 1, 2][..entries]));
        assert_eq!(
            FibonacciCircuit { steps: 1 }.synthesize(config, &mut table),
            Err(AssignmentError::InstanceOutOfRange)
        );
    }
}

#[test]
fn synthesize_fills_a_table_once() {
    let (meta, config) = relation();
    let mut table = Assignment::new(&meta, 4, fes(&[1, 1, 3]));
    let circuit = FibonacciCircuit { steps: 1 };
    assert_eq!(circuit.synthesize(config, &mut table), Ok(()));
    assert_eq!(circuit.synthesize(config, &mut table), Ok(()));
    // rows 2 and 3 hold a second witness; there is no room for a third
    assert_eq!(circuit.synthesize(config, &mut table), Err(AssignmentError::RowOutOfRange));
}

#[test]
fn a_changed_cell_is_reported_on_its_row() {
    let honest = fes(&[1, 1, 55]);
    for row in 0..=TEN_TERMS {
        for which in 0..3 {
            let (meta, config, mut table) = witness(TEN_TERMS, 8, 1, 1);
            let column = [config.col_a, config.col_b, config.col_c][which];
            let cell = at(column, row);
            let old = table.value(cell).unwrap();
            table.overwrite(cell, old.add(&fe(1))).unwrap();
            let report = check(&meta, &table, &honest).unwrap_err();
            assert!(report.contains(&add_gate(row)), "row {row}, column {which}: {report:?}");
            // every other row still adds up
            let gates = report.iter().filter(|v| matches!(v, Violation::Gate { .. })).count();
            assert_eq!(gates, 1);
        }
    }
}

#[test]
fn a_changed_input_breaks_its_copy_constraint_too() {
    let (meta, config, mut table) = witness(3, 4, 1, 1);
    // row 2 is a = 2, b = 3, c = 5
    table.overwrite(at(config.col_b, 2), fe(4)).unwrap();
    assert_eq!(
        check(&meta, &table, &fes(&[1, 1, 8])),
        Err(vec![
            add_gate(2),
            Violation::Copy { left: at(config.col_c, 1), right: at(config.col_b, 2) },
        ])
    );
}

#[test]
fn a_changed_output_is_reported_by_gate_and_binding() {
    let (meta, config, mut table) = witness(1, 2, 1, 1);
    table.overwrite(at(config.col_c, 1), fe(4)).unwrap();
    assert_eq!(
        check(&meta, &table, &fes(&[1, 1, 3])),
        Err(vec![
            add_gate(1),
            Violation::Copy { left: at(config.col_c, 1), right: at(config.instance, 2) },
        ])
    );
    // the sum is wrong whatever the instance claims
    assert_eq!(check(&meta, &table, &fes(&[1, 1, 4])), Err(vec![add_gate(1)]));
}

#[test]
fn wrong_inputs_in_the_instance_are_reported_at_row_zero() {
    let (meta, config, table) = witness(2, 3, 1, 1);
    assert_eq!(
        check(&meta, &table, &fes(&[1, 2, 5])),
        Err(vec![Violation::Copy { left: at(config.instance, 1), right: at(config.col_b, 0) }])
    );
}

#[test]
fn check_twice_reports_the_same() {
    let (meta, config, mut table) = witness(4, 6, 3, 4);
    let instance = fes(&[3, 4, 1]);
    assert_eq!(check(&meta, &table, &instance), check(&meta, &table, &instance));
    table.overwrite(at(config.col_a, 1), fe(0)).unwrap();
    table.overwrite(at(config.col_c, 3), fe(0)).unwrap();
    let first = check(&meta, &table, &instance);
    let second = check(&meta, &table, &instance);
    assert_eq!(first, second);
    // two sums, the two copies that the changed cells took part in, and the output
    assert_eq!(
        first,
        Err(vec![
            add_gate(1),
            add_gate(3),
            Violation::Copy { left: at(config.col_b, 0), right: at(config.col_a, 1) },
            Violation::Copy { left: at(config.col_c, 3), right: at(config.col_b, 4) },
            Violation::Copy { left: at(config.col_c, 4), right: at(config.instance, 2) },
        ])
    );
}
