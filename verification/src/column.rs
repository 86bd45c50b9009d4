//! Handles for the columns and selectors of a table.
use vstd::prelude::*;

verus! {

/// What a column holds.
#[derive(Clone, Copy, Debug, PartialEq, Eq, Structural)]
pub enum ColumnKind {
    /// Witness values, known to the prover alone.
    Private,
    /// Constants of the relation.
    Fixed,
    /// The instance: values known to prover and verifier.
    Public,
}

/// A column of a relation, named by its kind and its number in the registry.
#[derive(Clone, Copy, Debug, PartialEq, Eq, Structural)]
pub struct Column {
    pub kind: ColumnKind,
    pub id: usize,
}

/// A selector: a 0/1 column that switches a gate on, row by row.
#[derive(Clone, Copy, Debug, PartialEq, Eq, Structural)]
pub struct Selector {
    pub id: usize,
}

/// What the registry records of a column.
#[derive(Clone, Copy, Debug, PartialEq, Eq, Structural)]
pub struct ColumnInfo {
    pub kind: ColumnKind,
    pub equality_enabled: bool,
}

/// A cell of the table. In the public column the row is the index into the
/// instance.
#[derive(Clone, Copy, Debug, PartialEq, Eq, Structural)]
pub struct Cell {
    pub column: Column,
    pub row: usize,
}

/// Whether `column` names a column that `columns` declares, with its kind.
pub open spec fn declares(columns: Seq<ColumnInfo>, column: Column) -> bool {
    column.id < columns.len() && columns[column.id as int].kind == column.kind
}

/// Whether `column` is declared and may take part in copy constraints.
pub open spec fn equality_enabled(columns: Seq<ColumnInfo>, column: Column) -> bool {
    declares(columns, column) && columns[column.id as int].equality_enabled
}

/// Looks `column` up in a registry's list of columns.
pub(crate) fn lookup(columns: &Vec<ColumnInfo>, column: Column) -> (r: Option<ColumnInfo>)
    ensures
        r is Some <==> declares(columns@, column),
        r matches Some(info) ==> info == columns@[column.id as int],
{
    if column.id < columns.len() {
        let info = columns[column.id];
        if info.kind == column.kind {
            return Some(info);
        }
    }
    None
}

} // verus!
