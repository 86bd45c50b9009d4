//! The registry of a relation: its columns, its selectors and its gates.
use crate::column::{declares, lookup, Column, ColumnInfo, ColumnKind, Selector};
use crate::expr::{all_in_scope, expr_views, same_exprs, Expr, ExprModel};
use vstd::prelude::*;

verus! {

/// Why a declaration was refused.
#[derive(Clone, Copy, Debug, PartialEq, Eq, Structural)]
pub enum ConfigError {
    /// A relation has one public column, and it is declared already.
    DuplicateInstanceColumn,
    /// No further selector can be numbered.
    TooManySelectors,
    /// A column or selector is used that the relation does not declare.
    Undeclared,
    /// Copy constraints link value-bearing columns; a fixed column is none.
    FixedColumnEquality,
    /// A gate of that name is registered already.
    DuplicateGate,
    /// The same identities under the same selector are registered under another name.
    AmbiguousGate,
}

/// A named set of polynomial identities, enforced on the rows where the
/// selector is enabled.
#[derive(Debug)]
pub struct Gate {
    pub name: String,
    pub selector: Selector,
    pub exprs: Vec<Expr>,
}

/// The mathematical content of a [`Gate`].
pub struct GateModel {
    pub name: Seq<char>,
    pub selector: Selector,
    pub exprs: Seq<ExprModel>,
}

impl Gate {
    pub open spec fn view(&self) -> GateModel {
        GateModel { name: self.name@, selector: self.selector, exprs: expr_views(self.exprs@) }
    }
}

/// The mathematical content of a [`ConstraintSystem`].
pub struct SystemModel {
    /// The columns, each at the place of its number.
    pub columns: Seq<ColumnInfo>,
    /// How many selectors are declared.
    pub selectors: nat,
    /// The gates, in the order of their registration.
    pub gates: Seq<GateModel>,
}

impl SystemModel {
    /// The registry with nothing declared.
    pub open spec fn empty() -> SystemModel {
        SystemModel { columns: Seq::empty(), selectors: 0, gates: Seq::empty() }
    }

    /// Whether a public column is declared.
    pub open spec fn has_public(self) -> bool {
        exists|i: int|
            0 <= i < self.columns.len() && (#[trigger] self.columns[i]).kind == ColumnKind::Public
    }

    /// A gate is valid in this registry: its selector and columns are
    /// declared, and its constants are residues.
    pub open spec fn gate_wf(self, gate: GateModel) -> bool {
        &&& gate.selector.id < self.selectors
        &&& forall|k: int|
            0 <= k < gate.exprs.len() ==> (#[trigger] gate.exprs[k]).wf() && gate.exprs[k].in_scope(
                self.columns,
                self.selectors,
            )
    }

    /// The registry's invariant: columns and selectors can be numbered, there
    /// is at most one public column, no fixed column is enabled for equality,
    /// every gate is valid, and no two gates share a name or share both
    /// selector and identities.
    pub open spec fn wf(self) -> bool {
        &&& self.columns.len() <= usize::MAX
        &&& self.selectors <= usize::MAX
        &&& forall|i: int, j: int|
            0 <= i < self.columns.len() && 0 <= j < self.columns.len() && (
            #[trigger] self.columns[i]).kind == ColumnKind::Public && (
            #[trigger] self.columns[j]).kind == ColumnKind::Public ==> i == j
        &&& forall|i: int|
            0 <= i < self.columns.len() && (#[trigger] self.columns[i]).kind == ColumnKind::Fixed
                ==> !self.columns[i].equality_enabled
        &&& forall|g: int| 0 <= g < self.gates.len() ==> self.gate_wf(#[trigger] self.gates[g])
        &&& forall|g: int, h: int|
            0 <= g < h < self.gates.len() ==> (#[trigger] self.gates[g]).name != (
            #[trigger] self.gates[h]).name && !(self.gates[g].selector == self.gates[h].selector
                && self.gates[g].exprs == self.gates[h].exprs)
    }

    /// Declaring a column of `kind`: the registry after it and the new
    /// column's handle, or the reason for refusing.
    pub open spec fn declare(self, kind: ColumnKind) -> Result<(SystemModel, Column), ConfigError> {
        if kind == ColumnKind::Public && self.has_public() {
            Err(ConfigError::DuplicateInstanceColumn)
        } else {
            Ok(
                (
                    SystemModel {
                        columns: self.columns.push(ColumnInfo { kind, equality_enabled: false }),
                        ..self
                    },
                    Column { kind, id: self.columns.len() as usize },
                ),
            )
        }
    }

    /// Declaring a selector.
    pub open spec fn selector(self) -> Result<(SystemModel, Selector), ConfigError> {
        if self.selectors >= usize::MAX {
            Err(ConfigError::TooManySelectors)
        } else {
            Ok(
                (
                    SystemModel { selectors: self.selectors + 1, ..self },
                    Selector { id: self.selectors as usize },
                ),
            )
        }
    }

    /// Making `column` eligible for copy constraints. Doing so twice changes
    /// nothing.
    pub open spec fn enable_equality(self, column: Column) -> Result<SystemModel, ConfigError> {
        if !declares(self.columns, column) {
            Err(ConfigError::Undeclared)
        } else if column.kind == ColumnKind::Fixed {
            Err(ConfigError::FixedColumnEquality)
        } else {
            Ok(
                SystemModel {
                    columns: self.columns.update(
                        column.id as int,
                        ColumnInfo { kind: column.kind, equality_enabled: true },
                    ),
                    ..self
                },
            )
        }
    }

    /// Whether a gate of that name is registered.
    pub open spec fn has_gate_named(self, name: Seq<char>) -> bool {
        exists|g: int| 0 <= g < self.gates.len() && (#[trigger] self.gates[g]).name == name
    }

    /// Whether a gate with that selector and those identities is registered.
    pub open spec fn has_gate_like(self, gate: GateModel) -> bool {
        exists|g: int|
            0 <= g < self.gates.len() && (#[trigger] self.gates[g]).selector == gate.selector
                && self.gates[g].exprs == gate.exprs
    }

    /// Whether a gate's selector and all that its identities query are declared.
    pub open spec fn gate_in_scope(self, gate: GateModel) -> bool {
        &&& gate.selector.id < self.selectors
        &&& forall|k: int|
            0 <= k < gate.exprs.len() ==> (#[trigger] gate.exprs[k]).in_scope(
                self.columns,
                self.selectors,
            )
    }

    /// Registering a gate.
    pub open spec fn add_gate(self, gate: GateModel) -> Result<SystemModel, ConfigError> {
        if !self.gate_in_scope(gate) {
            Err(ConfigError::Undeclared)
        } else if self.has_gate_named(gate.name) {
            Err(ConfigError::DuplicateGate)
        } else if self.has_gate_like(gate) {
            Err(ConfigError::AmbiguousGate)
        } else {
            Ok(SystemModel { gates: self.gates.push(gate), ..self })
        }
    }
}

/// The registry of one relation. Columns, selectors and gates are declared
/// once, while the relation is configured, and never removed.
#[derive(Debug)]
pub struct ConstraintSystem {
    columns: Vec<ColumnInfo>,
    selectors: usize,
    gates: Vec<Gate>,
}

impl ConstraintSystem {
    pub closed spec fn view(&self) -> SystemModel {
        SystemModel {
            columns: self.columns@,
            selectors: self.selectors as nat,
            gates: Seq::new(self.gates@.len(), |i: int| self.gates@[i]@),
        }
    }

    pub open spec fn wf(&self) -> bool {
        self@.wf()
    }

    /// A registry with nothing declared.
    pub fn new() -> (r: ConstraintSystem)
        ensures
            r.wf(),
            r@ == SystemModel::empty(),
    {
        let r = ConstraintSystem { columns: Vec::new(), selectors: 0, gates: Vec::new() };
        assert(r@.gates =~= Seq::empty());
        r
    }

    /// Whether the public column is declared.
    pub fn has_public(&self) -> (r: bool)
        ensures
            r == self@.has_public(),
    {
        let mut i: usize = 0;
        while i < self.columns.len()
            invariant
                i <= self.columns.len(),
                forall|k: int| 0 <= k < i ==> self.columns@[k].kind != ColumnKind::Public,
            decreases self.columns.len() - i,
        {
            if self.columns[i].kind == ColumnKind::Public {
                return true;
            }
            i += 1;
        }
        false
    }

    /// Declares a column of the given kind and returns its handle.
    pub fn declare(&mut self, kind: ColumnKind) -> (r: Result<Column, ConfigError>)
        requires
            old(self).wf(),
        ensures
            final(self).wf(),
            match r {
                Ok(column) => old(self)@.declare(kind) == Ok::<_, ConfigError>(
                    (final(self)@, column),
                ),
                Err(e) => old(self)@.declare(kind) == Err::<(SystemModel, Column), _>(e) && final(self)@ == old(self)@,
            },
    {
        if kind == ColumnKind::Public && self.has_public() {
            return Err(ConfigError::DuplicateInstanceColumn);
        }
        let id = self.columns.len();
        self.columns.push(ColumnInfo { kind, equality_enabled: false });
        proof {
            let before = old(self)@;
            let after = self@;
            assert(self.columns.len() == self.columns@.len());
            assert(after.gates =~= before.gates);
            assert forall|g: int| 0 <= g < after.gates.len() implies after.gate_wf(
                #[trigger] after.gates[g],
            ) by {
                let gate = after.gates[g];
                assert(before.gate_wf(before.gates[g]));
                assert forall|k: int| 0 <= k < gate.exprs.len() implies (
                #[trigger] gate.exprs[k]).in_scope(after.columns, after.selectors) by {
                    gate.exprs[k].lemma_in_scope_grows(
                        before.columns,
                        before.selectors,
                        after.columns,
                        after.selectors,
                    );
                }
            }
            assert(!(kind == ColumnKind::Public) || !before.has_public());
            assert forall|i: int, j: int|
                0 <= i < after.columns.len() && 0 <= j < after.columns.len() && (
                #[trigger] after.columns[i]).kind == ColumnKind::Public && (
                #[trigger] after.columns[j]).kind == ColumnKind::Public implies i == j by {
                if i < before.columns.len() {
                    assert(before.columns[i].kind == ColumnKind::Public);
                }
                if j < before.columns.len() {
                    assert(before.columns[j].kind == ColumnKind::Public);
                }
            }
        }
        Ok(Column { kind, id })
    }

    /// Declares a selector and returns its handle.
    pub fn selector(&mut self) -> (r: Result<Selector, ConfigError>)
        requires
            old(self).wf(),
        ensures
            final(self).wf(),
            match r {
                Ok(s) => old(self)@.selector() == Ok::<_, ConfigError>((final(self)@, s)),
                Err(e) => old(self)@.selector() == Err::<(SystemModel, Selector), _>(e) && final(self)@ == old(self)@,
            },
    {
        if self.selectors == usize::MAX {
            return Err(ConfigError::TooManySelectors);
        }
        let id = self.selectors;
        self.selectors = id + 1;
        proof {
            let before = old(self)@;
            let after = self@;
            assert(after.gates =~= before.gates);
            assert forall|g: int| 0 <= g < after.gates.len() implies after.gate_wf(
                #[trigger] after.gates[g],
            ) by {
                let gate = after.gates[g];
                assert(before.gate_wf(before.gates[g]));
                assert forall|k: int| 0 <= k < gate.exprs.len() implies (
                #[trigger] gate.exprs[k]).in_scope(after.columns, after.selectors) by {
                    gate.exprs[k].lemma_in_scope_grows(
                        before.columns,
                        before.selectors,
                        after.columns,
                        after.selectors,
                    );
                }
            }
        }
        Ok(Selector { id })
    }

    /// Makes a private or public column eligible for copy constraints.
    pub fn enable_equality(&mut self, column: Column) -> (r: Result<(), ConfigError>)
        requires
            old(self).wf(),
        ensures
            final(self).wf(),
            match r {
                Ok(()) => old(self)@.enable_equality(column) == Ok::<_, ConfigError>(final(self)@),
                Err(e) => old(self)@.enable_equality(column) == Err::<SystemModel, _>(e) && final(self)@ == old(self)@,
            },
    {
        if lookup(&self.columns, column).is_none() {
            return Err(ConfigError::Undeclared);
        }
        if column.kind == ColumnKind::Fixed {
            return Err(ConfigError::FixedColumnEquality);
        }
        self.columns[column.id] = ColumnInfo { kind: column.kind, equality_enabled: true };
        proof {
            let before = old(self)@;
            let after = self@;
            assert(after.gates =~= before.gates);
            assert forall|g: int| 0 <= g < after.gates.len() implies after.gate_wf(
                #[trigger] after.gates[g],
            ) by {
                let gate = after.gates[g];
                assert(before.gate_wf(before.gates[g]));
                assert forall|k: int| 0 <= k < gate.exprs.len() implies (
                #[trigger] gate.exprs[k]).in_scope(after.columns, after.selectors) by {
                    gate.exprs[k].lemma_in_scope_grows(
                        before.columns,
                        before.selectors,
                        after.columns,
                        after.selectors,
                    );
                }
            }
            assert forall|i: int, j: int|
                0 <= i < after.columns.len() && 0 <= j < after.columns.len() && (
                #[trigger] after.columns[i]).kind == ColumnKind::Public && (
                #[trigger] after.columns[j]).kind == ColumnKind::Public implies i == j by {
                assert(before.columns[i].kind == ColumnKind::Public);
                assert(before.columns[j].kind == ColumnKind::Public);
            }
            assert forall|i: int|
                0 <= i < after.columns.len() && (#[trigger] after.columns[i]).kind
                    == ColumnKind::Fixed implies !after.columns[i].equality_enabled by {
                assert(before.columns[i].kind == ColumnKind::Fixed);
            }
        }
        Ok(())
    }

    fn has_gate_named(&self, name: &String) -> (r: bool)
        ensures
            r == self@.has_gate_named(name@),
    {
        let mut i: usize = 0;
        while i < self.gates.len()
            invariant
                i <= self.gates.len(),
                forall|k: int| 0 <= k < i ==> self@.gates[k].name != name@,
            decreases self.gates.len() - i,
        {
            if self.gates[i].name == *name {
                assert(self@.gates[i as int].name == name@);
                return true;
            }
            i += 1;
        }
        false
    }

    fn has_gate_like(&self, selector: Selector, exprs: &Vec<Expr>) -> (r: bool)
        ensures
            r == self@.has_gate_like(
                GateModel { name: Seq::empty(), selector, exprs: expr_views(exprs@) },
            ),
    {
        let mut i: usize = 0;
        while i < self.gates.len()
            invariant
                i <= self.gates.len(),
                forall|k: int|
                    0 <= k < i ==> !(self@.gates[k].selector == selector && self@.gates[k].exprs
                        == expr_views(exprs@)),
            decreases self.gates.len() - i,
        {
            if self.gates[i].selector.id == selector.id && same_exprs(&self.gates[i].exprs, exprs) {
                assert(self@.gates[i as int].selector == selector);
                return true;
            }
            i += 1;
        }
        false
    }

    /// Registers a gate: the identities `exprs`, each to be zero on every row
    /// where `selector` is enabled.
    pub fn add_gate(&mut self, name: &str, selector: Selector, exprs: Vec<Expr>) -> (r: Result<
        (),
        ConfigError,
    >)
        requires
            old(self).wf(),
            forall|i: int| 0 <= i < exprs@.len() ==> (#[trigger] exprs@[i]).wf(),
        ensures
            final(self).wf(),
            match r {
                Ok(()) => old(self)@.add_gate(
                    GateModel { name: name@, selector, exprs: expr_views(exprs@) },
                ) == Ok::<_, ConfigError>(final(self)@),
                Err(e) => old(self)@.add_gate(
                    GateModel { name: name@, selector, exprs: expr_views(exprs@) },
                ) == Err::<SystemModel, _>(e) && final(self)@ == old(self)@,
            },
    {
        let ghost model = GateModel { name: name@, selector, exprs: expr_views(exprs@) };
        if selector.id >= self.selectors {
            return Err(ConfigError::Undeclared);
        }
        let scoped = all_in_scope(&exprs, &self.columns, self.selectors);
        proof {
            let before = self@;
            if before.gate_in_scope(model) {
                assert forall|i: int| 0 <= i < exprs@.len() implies (#[trigger] exprs@[i])@.in_scope(
                    before.columns,
                    before.selectors,
                ) by {
                    assert(model.exprs[i] == exprs@[i]@);
                }
            }
            if scoped {
                assert forall|k: int| 0 <= k < model.exprs.len() implies (
                #[trigger] model.exprs[k]).in_scope(before.columns, before.selectors) by {
                    assert(model.exprs[k] == exprs@[k]@);
                }
            }
        }
        if !scoped {
            return Err(ConfigError::Undeclared);
        }
        let owned = name.to_owned();
        if self.has_gate_named(&owned) {
            return Err(ConfigError::DuplicateGate);
        }
        if self.has_gate_like(selector, &exprs) {
            return Err(ConfigError::AmbiguousGate);
        }
        self.gates.push(Gate { name: owned, selector, exprs });
        proof {
            let before = old(self)@;
            let after = self@;
            assert(after.gates =~= before.gates.push(model));
            assert(after.gate_wf(model));
            assert forall|g: int, h: int| 0 <= g < h < after.gates.len() implies (
            #[trigger] after.gates[g]).name != (#[trigger] after.gates[h]).name && !(
            after.gates[g].selector == after.gates[h].selector && after.gates[g].exprs
                == after.gates[h].exprs) by {
                if h < before.gates.len() {
                    assert(before.gates[g].name != before.gates[h].name);
                } else {
                    assert(before.gates[g].name != model.name);
                }
            }
        }
        Ok(())
    }

    /// The columns, each at the place of its number.
    pub fn columns(&self) -> (r: &Vec<ColumnInfo>)
        ensures
            r@ == self@.columns,
    {
        &self.columns
    }

    /// How many selectors are declared.
    pub fn num_selectors(&self) -> (r: usize)
        ensures
            r == self@.selectors,
    {
        self.selectors
    }

    /// The gates, in the order of their registration.
    pub fn gates(&self) -> (r: &Vec<Gate>)
        ensures
            r@.len() == self@.gates.len(),
            forall|i: int| 0 <= i < r@.len() ==> (#[trigger] r@[i])@ == self@.gates[i],
    {
        &self.gates
    }
}

} // verus!
