//! Polynomial expressions over the cells around a row.
use crate::column::{declares, lookup, Column, ColumnInfo, Selector};
use crate::field::{modulus, FieldElement};
use vstd::prelude::*;

verus! {

/// A polynomial over the values that a table holds near the row under
/// evaluation.
#[derive(Debug)]
pub enum Expr {
    /// A constant of the field.
    Constant(FieldElement),
    /// One where the selector is enabled on the row, zero elsewhere.
    Selector(Selector),
    /// The value of `column` at the row, displaced by `offset`.
    ColumnQuery { column: Column, offset: i32 },
    Neg(Box<Expr>),
    Add(Box<Expr>, Box<Expr>),
    Sub(Box<Expr>, Box<Expr>),
    Mul(Box<Expr>, Box<Expr>),
}

/// The mathematical content of an [`Expr`].
pub enum ExprModel {
    Constant(nat),
    Selector(Selector),
    ColumnQuery { column: Column, offset: int },
    Neg(Box<ExprModel>),
    Add(Box<ExprModel>, Box<ExprModel>),
    Sub(Box<ExprModel>, Box<ExprModel>),
    Mul(Box<ExprModel>, Box<ExprModel>),
}

impl ExprModel {
    /// Every constant is a residue.
    pub open spec fn wf(self) -> bool
        decreases self,
    {
        match self {
            ExprModel::Constant(v) => v < modulus(),
            ExprModel::Selector(_) => true,
            ExprModel::ColumnQuery { .. } => true,
            ExprModel::Neg(a) => a.wf(),
            ExprModel::Add(a, b) => a.wf() && b.wf(),
            ExprModel::Sub(a, b) => a.wf() && b.wf(),
            ExprModel::Mul(a, b) => a.wf() && b.wf(),
        }
    }

    /// Every column and selector that the expression queries is declared.
    pub open spec fn in_scope(self, columns: Seq<ColumnInfo>, selectors: nat) -> bool
        decreases self,
    {
        match self {
            ExprModel::Constant(_) => true,
            ExprModel::Selector(s) => s.id < selectors,
            ExprModel::ColumnQuery { column, .. } => declares(columns, column),
            ExprModel::Neg(a) => a.in_scope(columns, selectors),
            ExprModel::Add(a, b) => a.in_scope(columns, selectors) && b.in_scope(
                columns,
                selectors,
            ),
            ExprModel::Sub(a, b) => a.in_scope(columns, selectors) && b.in_scope(
                columns,
                selectors,
            ),
            ExprModel::Mul(a, b) => a.in_scope(columns, selectors) && b.in_scope(
                columns,
                selectors,
            ),
        }
    }

    /// An expression in scope stays in scope when columns and selectors are
    /// added to the registry.
    pub proof fn lemma_in_scope_grows(
        self,
        columns: Seq<ColumnInfo>,
        selectors: nat,
        more_columns: Seq<ColumnInfo>,
        more_selectors: nat,
    )
        requires
            self.in_scope(columns, selectors),
            columns.len() <= more_columns.len(),
            forall|i: int| 0 <= i < columns.len() ==> more_columns[i].kind == columns[i].kind,
            selectors <= more_selectors,
        ensures
            self.in_scope(more_columns, more_selectors),
        decreases self,
    {
        match self {
            ExprModel::Constant(_) => {},
            ExprModel::Selector(_) => {},
            ExprModel::ColumnQuery { .. } => {},
            ExprModel::Neg(a) => {
                a.lemma_in_scope_grows(columns, selectors, more_columns, more_selectors);
            },
            ExprModel::Add(a, b) => {
                a.lemma_in_scope_grows(columns, selectors, more_columns, more_selectors);
                b.lemma_in_scope_grows(columns, selectors, more_columns, more_selectors);
            },
            ExprModel::Sub(a, b) => {
                a.lemma_in_scope_grows(columns, selectors, more_columns, more_selectors);
                b.lemma_in_scope_grows(columns, selectors, more_columns, more_selectors);
            },
            ExprModel::Mul(a, b) => {
                a.lemma_in_scope_grows(columns, selectors, more_columns, more_selectors);
                b.lemma_in_scope_grows(columns, selectors, more_columns, more_selectors);
            },
        }
    }
}

impl Expr {
    pub open spec fn view(&self) -> ExprModel
        decreases self,
    {
        match self {
            Expr::Constant(c) => ExprModel::Constant(c@),
            Expr::Selector(s) => ExprModel::Selector(*s),
            Expr::ColumnQuery { column, offset } => ExprModel::ColumnQuery {
                column: *column,
                offset: *offset as int,
            },
            Expr::Neg(a) => ExprModel::Neg(Box::new((**a).view())),
            Expr::Add(a, b) => ExprModel::Add(Box::new((**a).view()), Box::new((**b).view())),
            Expr::Sub(a, b) => ExprModel::Sub(Box::new((**a).view()), Box::new((**b).view())),
            Expr::Mul(a, b) => ExprModel::Mul(Box::new((**a).view()), Box::new((**b).view())),
        }
    }

    /// Every constant in the expression is a canonical field element.
    pub open spec fn wf(&self) -> bool {
        self@.wf()
    }

    /// Whether two expressions are the same polynomial, term by term.
    pub fn same(&self, other: &Expr) -> (r: bool)
        ensures
            r == (self@ == other@),
        decreases self,
    {
        match (self, other) {
            (Expr::Constant(a), Expr::Constant(b)) => a.equals(b),
            (Expr::Selector(a), Expr::Selector(b)) => a.id == b.id,
            (
                Expr::ColumnQuery { column: ca, offset: oa },
                Expr::ColumnQuery { column: cb, offset: ob },
            ) => ca.id == cb.id && ca.kind == cb.kind && *oa == *ob,
            (Expr::Neg(a), Expr::Neg(b)) => a.same(b),
            (Expr::Add(a, b), Expr::Add(c, d)) => a.same(c) && b.same(d),
            (Expr::Sub(a, b), Expr::Sub(c, d)) => a.same(c) && b.same(d),
            (Expr::Mul(a, b), Expr::Mul(c, d)) => a.same(c) && b.same(d),
            _ => false,
        }
    }

    /// Whether every column and selector that the expression queries is
    /// declared.
    pub fn in_scope(&self, columns: &Vec<ColumnInfo>, selectors: usize) -> (r: bool)
        ensures
            r == self@.in_scope(columns@, selectors as nat),
        decreases self,
    {
        match self {
            Expr::Constant(_) => true,
            Expr::Selector(s) => s.id < selectors,
            Expr::ColumnQuery { column, offset: _ } => lookup(columns, *column).is_some(),
            Expr::Neg(a) => a.in_scope(columns, selectors),
            Expr::Add(a, b) => a.in_scope(columns, selectors) && b.in_scope(columns, selectors),
            Expr::Sub(a, b) => a.in_scope(columns, selectors) && b.in_scope(columns, selectors),
            Expr::Mul(a, b) => a.in_scope(columns, selectors) && b.in_scope(columns, selectors),
        }
    }
}

/// The models of a list of expressions.
pub open spec fn expr_views(exprs: Seq<Expr>) -> Seq<ExprModel> {
    Seq::new(exprs.len(), |i: int| exprs[i]@)
}

/// Whether two lists hold the same expressions in the same order.
pub(crate) fn same_exprs(a: &Vec<Expr>, b: &Vec<Expr>) -> (r: bool)
    ensures
        r == (expr_views(a@) == expr_views(b@)),
{
    if a.len() != b.len() {
        assert(expr_views(a@).len() != expr_views(b@).len());
        return false;
    }
    let mut i: usize = 0;
    while i < a.len()
        invariant
            i <= a.len(),
            a.len() == b.len(),
            forall|k: int| 0 <= k < i ==> a@[k]@ == b@[k]@,
        decreases a.len() - i,
    {
        if !a[i].same(&b[i]) {
            assert(expr_views(a@)[i as int] != expr_views(b@)[i as int]);
            return false;
        }
        i += 1;
    }
    assert(expr_views(a@) =~= expr_views(b@));
    true
}

/// Whether every expression of a list is in scope.
pub(crate) fn all_in_scope(exprs: &Vec<Expr>, columns: &Vec<ColumnInfo>, selectors: usize) -> (r: bool)
    ensures
        r == (forall|i: int|
            0 <= i < exprs@.len() ==> (#[trigger] exprs@[i])@.in_scope(
                columns@,
                selectors as nat,
            )),
{
    let mut i: usize = 0;
    while i < exprs.len()
        invariant
            i <= exprs.len(),
            forall|k: int|
                0 <= k < i ==> (#[trigger] exprs@[k])@.in_scope(columns@, selectors as nat),
        decreases exprs.len() - i,
    {
        if !exprs[i].in_scope(columns, selectors) {
            return false;
        }
        i += 1;
    }
    true
}

} // verus!
