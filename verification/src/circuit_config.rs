//! The columns of the Fibonacci relation.
use crate::column::{declares, Column, ColumnInfo, ColumnKind, Selector};
use crate::constraint_system::{ConfigError, ConstraintSystem, SystemModel};
use vstd::prelude::*;

verus! {

/// The columns that the Fibonacci relation works on: three private columns
/// for the two inputs and the output of each row, the selector of its one
/// gate, and the public column.
#[derive(Clone, Copy, Debug, PartialEq, Eq, Structural)]
pub struct FibonacciConfig {
    pub col_a: Column,
    pub col_b: Column,
    pub col_c: Column,
    pub selector: Selector,
    /// Column for the public input.
    pub instance: Column,
}

impl FibonacciConfig {
    /// What [`FibonacciConfig::new`] makes of a registry: three private
    /// columns, a selector and the public column behind what is declared
    /// already, all four columns enabled for equality.
    pub open spec fn declared(system: SystemModel) -> Result<
        (SystemModel, FibonacciConfig),
        ConfigError,
    > {
        if system.selectors >= usize::MAX {
            Err(ConfigError::TooManySelectors)
        } else if system.has_public() {
            Err(ConfigError::DuplicateInstanceColumn)
        } else {
            let first = system.columns.len();
            let private = ColumnInfo { kind: ColumnKind::Private, equality_enabled: true };
            let public = ColumnInfo { kind: ColumnKind::Public, equality_enabled: true };
            Ok(
                (
                    SystemModel {
                        columns: system.columns + seq![private, private, private, public],
                        selectors: system.selectors + 1,
                        gates: system.gates,
                    },
                    FibonacciConfig {
                        col_a: Column { kind: ColumnKind::Private, id: first as usize },
                        col_b: Column { kind: ColumnKind::Private, id: (first + 1) as usize },
                        col_c: Column { kind: ColumnKind::Private, id: (first + 2) as usize },
                        selector: Selector { id: system.selectors as usize },
                        instance: Column { kind: ColumnKind::Public, id: (first + 3) as usize },
                    },
                ),
            )
        }
    }

    /// Declares the relation's columns in a registry and gathers their
    /// handles. A registry that is refused is left as it was.
    pub fn new(meta: &mut ConstraintSystem) -> (r: Result<FibonacciConfig, ConfigError>)
        requires
            old(meta).wf(),
        ensures
            final(meta).wf(),
            match r {
                Ok(config) => FibonacciConfig::declared(old(meta)@) == Ok::<_, ConfigError>(
                    (final(meta)@, config),
                ),
                Err(e) => FibonacciConfig::declared(old(meta)@) == Err::<
                    (SystemModel, FibonacciConfig),
                    _,
                >(e) && final(meta)@ == old(meta)@,
            },
    {
        if meta.num_selectors() == usize::MAX {
            return Err(ConfigError::TooManySelectors);
        }
        if meta.has_public() {
            return Err(ConfigError::DuplicateInstanceColumn);
        }
        let col_a = match meta.declare(ColumnKind::Private) {
            Ok(column) => column,
            Err(e) => {
                return Err(e);
            },
        };
        let col_b = match meta.declare(ColumnKind::Private) {
            Ok(column) => column,
            Err(e) => {
                return Err(e);
            },
        };
        let col_c = match meta.declare(ColumnKind::Private) {
            Ok(column) => column,
            Err(e) => {
                return Err(e);
            },
        };
        let selector = match meta.selector() {
            Ok(selector) => selector,
            Err(e) => {
                return Err(e);
            },
        };
        assert(!meta@.has_public()) by {
            if meta@.has_public() {
                let i = choose|i: int|
                    0 <= i < meta@.columns.len() && (#[trigger] meta@.columns[i]).kind
                        == ColumnKind::Public;
                assert(old(meta)@.columns[i].kind == ColumnKind::Public);
            }
        }
        let instance = match meta.declare(ColumnKind::Public) {
            Ok(column) => column,
            Err(e) => {
                return Err(e);
            },
        };
        proof {
            let first = old(meta)@.columns.len() as int;
            let private = ColumnInfo { kind: ColumnKind::Private, equality_enabled: false };
            let public = ColumnInfo { kind: ColumnKind::Public, equality_enabled: false };
            assert(meta@.columns =~= old(meta)@.columns + seq![private, private, private, public]);
            assert(col_a.id == first && col_b.id == first + 1 && col_c.id == first + 2);
            assert(instance.id == first + 3);
            assert(meta@.columns[first].kind == ColumnKind::Private);
            assert(meta@.columns[first + 1].kind == ColumnKind::Private);
            assert(meta@.columns[first + 2].kind == ColumnKind::Private);
            assert(meta@.columns[first + 3].kind == ColumnKind::Public);
        }
        match meta.enable_equality(col_a) {
            Ok(()) => {},
            Err(e) => {
                return Err(e);
            },
        }
        assert(declares(meta@.columns, col_b));
        match meta.enable_equality(col_b) {
            Ok(()) => {},
            Err(e) => {
                return Err(e);
            },
        }
        assert(declares(meta@.columns, col_c));
        match meta.enable_equality(col_c) {
            Ok(()) => {},
            Err(e) => {
                return Err(e);
            },
        }
        assert(declares(meta@.columns, instance));
        match meta.enable_equality(instance) {
            Ok(()) => {},
            Err(e) => {
                return Err(e);
            },
        }
        let config = FibonacciConfig { col_a, col_b, col_c, selector, instance };
        proof {
            let expected = FibonacciConfig::declared(old(meta)@).unwrap().0;
            assert(meta@.columns =~= expected.columns);
        }
        Ok(config)
    }
}

} // verus!
