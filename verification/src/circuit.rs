//! The Fibonacci relation: each row adds its two inputs, and each row after
//! the first takes its inputs from the row above.
//!
//! ```text
//! | row | a | b | c | selector |
//! | 0   | 1 | 1 | 2 | 1        |
//! | 1   | 1 | 2 | 3 | 1        |
//! | 2   | 2 | 3 | 5 | 1        |
//! | 3   | 3 | 5 | 8 | 1        |
//! ```
//!
//! The instance has three entries: the two inputs of row 0 and the output of
//! the last row.
use crate::assignment::{AssignedCell, Assignment, AssignmentError, TableModel};
use crate::circuit_config::FibonacciConfig;
use crate::column::Cell;
use crate::constraint_system::{ConfigError, ConstraintSystem, SystemModel};
use crate::field::field_add;
use crate::gate::{create_fibonacci_gate, fibonacci_gate};
use vstd::prelude::*;

verus! {

/// The entry of the instance that holds the public output. Entries 0 and 1
/// hold the two inputs of row 0.
pub const OUTPUT_INDEX: usize = 2;

/// The number of steps that leads from the inputs `1, 1` to the tenth term
/// of the sequence `1, 1, 2, 3, 5, 8, 13, 21, 34, 55`.
pub const TEN_TERMS: usize = 7;

/// The relation, with the number of rows that follow row 0.
#[derive(Clone, Copy, Debug, PartialEq, Eq, Structural)]
pub struct FibonacciCircuit {
    /// How many rows continue the recurrence after row 0. With none, the
    /// output of row 0 is the public output.
    pub steps: usize,
}

impl Default for FibonacciCircuit {
    /// The relation of ten terms.
    fn default() -> (r: FibonacciCircuit)
        ensures
            r.steps == TEN_TERMS,
    {
        FibonacciCircuit { steps: TEN_TERMS }
    }
}

impl FibonacciCircuit {
    /// The cell of the instance with the given index.
    pub open spec fn instance_cell(config: FibonacciConfig, index: usize) -> Cell {
        Cell { column: config.instance, row: index }
    }

    /// What [`FibonacciCircuit::configure`] makes of a registry.
    pub open spec fn configured(system: SystemModel) -> Result<
        (SystemModel, FibonacciConfig),
        ConfigError,
    > {
        match FibonacciConfig::declared(system) {
            Err(e) => Err(e),
            Ok((declared, config)) => match declared.add_gate(fibonacci_gate(config)) {
                Err(e) => Err(e),
                Ok(complete) => Ok((complete, config)),
            },
        }
    }

    /// What [`FibonacciCircuit::assign_row_zero`] makes of a table: the
    /// table after it and the three cells of the row, each with its value.
    pub open spec fn row_zero(table: TableModel, config: FibonacciConfig) -> Result<
        (TableModel, (Cell, nat), (Cell, nat), (Cell, nat)),
        AssignmentError,
    > {
        let seed_a = Self::instance_cell(config, 0);
        let seed_b = Self::instance_cell(config, 1);
        match table.open_region(1) {
            Err(e) => Err(e),
            Ok((opened, region)) => match opened.enable_selector(region, config.selector, 0) {
                Err(e) => Err(e),
                Ok(enabled) => match enabled.copy(region, seed_a, config.col_a, 0) {
                    Err(e) => Err(e),
                    Ok((with_a, a)) => match with_a.copy(region, seed_b, config.col_b, 0) {
                        Err(e) => Err(e),
                        Ok((with_b, b)) => {
                            let va = enabled.linkable(seed_a).unwrap();
                            let vb = with_a.linkable(seed_b).unwrap();
                            let vc = field_add(va, vb);
                            match with_b.assign(region, config.col_c, 0, vc) {
                                Err(e) => Err(e),
                                Ok((with_c, c)) => Ok((with_c, (a, va), (b, vb), (c, vc))),
                            }
                        },
                    },
                },
            },
        }
    }

    /// What [`FibonacciCircuit::assign_row`] makes of a table: the table
    /// after it and the output cell of the new row with its value.
    pub open spec fn next_row(
        table: TableModel,
        config: FibonacciConfig,
        prev_b: (Cell, nat),
        prev_c: (Cell, nat),
    ) -> Result<(TableModel, (Cell, nat)), AssignmentError> {
        match table.open_region(1) {
            Err(e) => Err(e),
            Ok((opened, region)) => match opened.enable_selector(region, config.selector, 0) {
                Err(e) => Err(e),
                Ok(enabled) => match enabled.copy(region, prev_b.0, config.col_a, 0) {
                    Err(e) => Err(e),
                    Ok((with_a, a)) => match with_a.copy(region, prev_c.0, config.col_b, 0) {
                        Err(e) => Err(e),
                        Ok((with_b, b)) => {
                            let vc = field_add(prev_b.1, prev_c.1);
                            match with_b.assign(region, config.col_c, 0, vc) {
                                Err(e) => Err(e),
                                Ok((with_c, c)) => Ok((with_c, (c, vc))),
                            }
                        },
                    },
                },
            },
        }
    }

    /// `steps` rows, each fed from the one before: the table after them and
    /// the output cell of the last.
    pub open spec fn recurrence(
        table: TableModel,
        config: FibonacciConfig,
        prev_b: (Cell, nat),
        prev_c: (Cell, nat),
        steps: nat,
    ) -> Result<(TableModel, (Cell, nat)), AssignmentError>
        decreases steps,
    {
        if steps == 0 {
            Ok((table, prev_c))
        } else {
            match Self::next_row(table, config, prev_b, prev_c) {
                Err(e) => Err(e),
                Ok((next, c)) => Self::recurrence(next, config, prev_c, c, (steps - 1) as nat),
            }
        }
    }

    /// What [`FibonacciCircuit::synthesize`] makes of a table: row 0,
    /// `steps` rows of the recurrence, and the output of the last row bound
    /// to the entry of the instance at [`OUTPUT_INDEX`].
    pub open spec fn synthesized(table: TableModel, config: FibonacciConfig, steps: nat) -> Result<
        TableModel,
        AssignmentError,
    > {
        match Self::row_zero(table, config) {
            Err(e) => Err(e),
            Ok((first, a, b, c)) => match Self::recurrence(first, config, b, c, steps) {
                Err(e) => Err(e),
                Ok((filled, last)) => filled.constrain_equal(
                    last.0,
                    Self::instance_cell(config, OUTPUT_INDEX),
                ),
            },
        }
    }

    /// Fills the first row: both inputs are taken from the instance, entries
    /// 0 and 1, and stay bound to them.
    pub fn assign_row_zero(&self, layouter: &mut Assignment, config: &FibonacciConfig) -> (r: Result<
        (AssignedCell, AssignedCell, AssignedCell),
        AssignmentError,
    >)
        requires
            old(layouter).wf(),
        ensures
            final(layouter).wf(),
            final(layouter)@.extends(old(layouter)@),
            match r {
                Ok((a, b, c)) => Self::row_zero(old(layouter)@, *config) == Ok::<_, AssignmentError>(
                    (final(layouter)@, a@, b@, c@),
                ) && a.wf() && b.wf() && c.wf(),
                Err(e) => Self::row_zero(old(layouter)@, *config) == Err::<
                    (TableModel, (Cell, nat), (Cell, nat), (Cell, nat)),
                    _,
                >(e),
            },
    {
        let ghost start = layouter@;
        let region = match layouter.open_region(1) {
            Ok(region) => region,
            Err(e) => {
                return Err(e);
            },
        };
        // turn on the selector on the one row of this region
        let ghost before = layouter@;
        let enabled = layouter.enable_selector(&region, config.selector, 0);
        proof {
            layouter@.lemma_extends_transitive(before, start);
        }
        if let Err(e) = enabled {
            return Err(e);
        }
        let ghost before = layouter@;
        let copied = layouter.copy(
            &region,
            Cell { column: config.instance, row: 0 },
            config.col_a,
            0,
        );
        proof {
            layouter@.lemma_extends_transitive(before, start);
        }
        let a_cell = match copied {
            Ok(cell) => cell,
            Err(e) => {
                return Err(e);
            },
        };
        let ghost before = layouter@;
        let copied = layouter.copy(
            &region,
            Cell { column: config.instance, row: 1 },
            config.col_b,
            0,
        );
        proof {
            layouter@.lemma_extends_transitive(before, start);
        }
        let b_cell = match copied {
            Ok(cell) => cell,
            Err(e) => {
                return Err(e);
            },
        };
        // a + b = c
        let ghost before = layouter@;
        let assigned = layouter.assign(&region, config.col_c, 0, a_cell.value.add(&b_cell.value));
        proof {
            layouter@.lemma_extends_transitive(before, start);
        }
        match assigned {
            Ok(c_cell) => Ok((a_cell, b_cell, c_cell)),
            Err(e) => Err(e),
        }
    }

    /// Fills the next row: its inputs are copies of `b` and `c` of the row
    /// before.
    pub fn assign_row(
        &self,
        layouter: &mut Assignment,
        prev_b: &AssignedCell,
        prev_c: &AssignedCell,
        config: &FibonacciConfig,
    ) -> (r: Result<AssignedCell, AssignmentError>)
        requires
            old(layouter).wf(),
            prev_b.wf(),
            prev_c.wf(),
        ensures
            final(layouter).wf(),
            final(layouter)@.extends(old(layouter)@),
            match r {
                Ok(c) => Self::next_row(old(layouter)@, *config, prev_b@, prev_c@) == Ok::<
                    _,
                    AssignmentError,
                >((final(layouter)@, c@)) && c.wf(),
                Err(e) => Self::next_row(old(layouter)@, *config, prev_b@, prev_c@) == Err::<
                    (TableModel, (Cell, nat)),
                    _,
                >(e),
            },
    {
        let ghost start = layouter@;
        let region = match layouter.open_region(1) {
            Ok(region) => region,
            Err(e) => {
                return Err(e);
            },
        };
        // turn on the selector on the one row of this region
        let ghost before = layouter@;
        let enabled = layouter.enable_selector(&region, config.selector, 0);
        proof {
            layouter@.lemma_extends_transitive(before, start);
        }
        if let Err(e) = enabled {
            return Err(e);
        }
        // Copy the value from b & c in previous row to a & b in current row
        let ghost before = layouter@;
        let copied = layouter.copy(&region, prev_b.cell, config.col_a, 0);
        proof {
            layouter@.lemma_extends_transitive(before, start);
        }
        if let Err(e) = copied {
            return Err(e);
        }
        let ghost before = layouter@;
        let copied = layouter.copy(&region, prev_c.cell, config.col_b, 0);
        proof {
            layouter@.lemma_extends_transitive(before, start);
        }
        if let Err(e) = copied {
            return Err(e);
        }
        // a + b = c
        let ghost before = layouter@;
        let assigned = layouter.assign(&region, config.col_c, 0, prev_b.value.add(&prev_c.value));
        proof {
            layouter@.lemma_extends_transitive(before, start);
        }
        assigned
    }

    /// Binds a cell to an entry of the instance, so that the value computed
    /// in the table must be the value claimed in public.
    pub fn expose_public(
        &self,
        layouter: &mut Assignment,
        cell: &AssignedCell,
        config: &FibonacciConfig,
        instance_index: usize,
    ) -> (r: Result<(), AssignmentError>)
        requires
            old(layouter).wf(),
        ensures
            final(layouter).wf(),
            final(layouter)@.extends(old(layouter)@),
            match r {
                Ok(()) => old(layouter)@.constrain_equal(
                    cell.cell,
                    Self::instance_cell(*config, instance_index),
                ) == Ok::<_, AssignmentError>(final(layouter)@),
                Err(e) => old(layouter)@.constrain_equal(
                    cell.cell,
                    Self::instance_cell(*config, instance_index),
                ) == Err::<TableModel, _>(e) && final(layouter)@ == old(layouter)@,
            },
    {
        layouter.constrain_equal(cell.cell, Cell { column: config.instance, row: instance_index })
    }

    /// The relation without a witness: the same shape.
    pub fn without_witnesses(&self) -> (r: FibonacciCircuit)
        ensures
            r == *self,
    {
        FibonacciCircuit { steps: self.steps }
    }

    /// Sets up the table shape: its columns and its gate. Where the columns
    /// are refused, the registry is left as it was; where a gate of the name
    /// `add` is there already, the columns stay declared.
    pub fn configure(meta: &mut ConstraintSystem) -> (r: Result<FibonacciConfig, ConfigError>)
        requires
            old(meta).wf(),
        ensures
            final(meta).wf(),
            match r {
                Ok(config) => Self::configured(old(meta)@) == Ok::<_, ConfigError>(
                    (final(meta)@, config),
                ),
                Err(e) => Self::configured(old(meta)@) == Err::<(SystemModel, FibonacciConfig), _>(
                    e,
                ) && final(meta)@ == (match FibonacciConfig::declared(old(meta)@) {
                    Ok((declared, _)) => declared,
                    Err(_) => old(meta)@,
                }),
            },
    {
        // ====== Columns ======
        let config = match FibonacciConfig::new(meta) {
            Ok(config) => config,
            Err(e) => {
                return Err(e);
            },
        };
        // ====== Gates   ======
        match create_fibonacci_gate(meta, &config) {
            Ok(()) => Ok(config),
            Err(e) => Err(e),
        }
    }

    /// Fills a table with the witness: row 0 from the instance, then
    /// `steps` rows of the recurrence, then the binding of the last output
    /// to the instance. After an error the table holds part of a witness,
    /// on top of what it held before, and is of no further use.
    pub fn synthesize(&self, config: FibonacciConfig, layouter: &mut Assignment) -> (r: Result<
        (),
        AssignmentError,
    >)
        requires
            old(layouter).wf(),
        ensures
            final(layouter).wf(),
            final(layouter)@.extends(old(layouter)@),
            match r {
                Ok(()) => Self::synthesized(old(layouter)@, config, self.steps as nat) == Ok::<
                    _,
                    AssignmentError,
                >(final(layouter)@),
                Err(e) => Self::synthesized(old(layouter)@, config, self.steps as nat) == Err::<
                    TableModel,
                    _,
                >(e),
            },
    {
        let ghost start = layouter@;
        let (a, mut prev_b, mut prev_c) = match self.assign_row_zero(layouter, &config) {
            Ok(cells) => cells,
            Err(e) => {
                return Err(e);
            },
        };
        let ghost first = layouter@;
        let ghost a0 = a@;
        let ghost b0 = prev_b@;
        let ghost c0 = prev_c@;
        let mut done: usize = 0;
        while done < self.steps
            invariant
                done <= self.steps,
                layouter.wf(),
                layouter@.extends(start),
                start == old(layouter)@,
                prev_b.wf(),
                prev_c.wf(),
                Self::row_zero(old(layouter)@, config) == Ok::<_, AssignmentError>(
                    (first, a0, b0, c0),
                ),
                Self::recurrence(layouter@, config, prev_b@, prev_c@, (self.steps - done) as nat)
                    == Self::recurrence(first, config, b0, c0, self.steps as nat),
            decreases self.steps - done,
        {
            let ghost before = layouter@;
            let assigned = self.assign_row(layouter, &prev_b, &prev_c, &config);
            proof {
                layouter@.lemma_extends_transitive(before, start);
            }
            let c_cell = match assigned {
                Ok(cell) => cell,
                Err(e) => {
                    return Err(e);
                },
            };
            prev_b = prev_c;
            prev_c = c_cell;
            done += 1;
        }
        let ghost before = layouter@;
        let exposed = self.expose_public(layouter, &prev_c, &config, OUTPUT_INDEX);
        proof {
            layouter@.lemma_extends_transitive(before, start);
        }
        exposed
    }
}

} // verus!
