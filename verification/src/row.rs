//! Rows: a name, an inclusion flag, a number per column, and child rows.

use crate::column::{columns_of, is_summed, Column, ColumnConfig, ColumnType};
use crate::values::{read, Values};
use vstd::prelude::*;

verus! {

/// A row and all rows below it, as contracts see it.
pub struct Row {
    pub name: Seq<char>,
    pub enabled: bool,
    pub values: Map<Seq<char>, u64>,
    pub children: Seq<Row>,
}

/// A row of the tree. It owns its children; a row without children is a leaf.
#[derive(Debug)]
pub struct RowData {
    pub name: String,
    pub col_data: Values,
    pub children: Vec<RowData>,
    pub enabled: bool,
}

impl View for RowData {
    type V = Row;

    open spec fn view(&self) -> Row
        decreases self,
    {
        Row {
            name: self.name@,
            enabled: self.enabled,
            values: self.col_data@,
            children: rows_of(self.children@),
        }
    }
}

/// The rows of a list of children, in order.
pub open spec fn rows_of(children: Seq<RowData>) -> Seq<Row>
    decreases children,
{
    Seq::new(children.len(), |i: int| if 0 <= i < children.len() { children[i]@ } else { arbitrary() })
}

/// The model of a row, field by field.
pub proof fn lemma_row_view(row: RowData)
    ensures
        row@.name == row.name@,
        row@.enabled == row.enabled,
        row@.values == row.col_data@,
        row@.children == rows_of(row.children@),
        row@.children.len() == row.children@.len(),
        forall|i: int| 0 <= i < row.children@.len() ==> #[trigger] row@.children[i] == row.children@[i]@,
{
    let rows = rows_of(row.children@);
    assert(row@.children == rows);
    assert(rows.len() == row.children@.len());
    assert forall|i: int| 0 <= i < row.children@.len() implies #[trigger] rows[i] == row.children@[i]@ by {}
}

/// Whether the path leads to a row: each step is the index of a child.
pub open spec fn has_path(row: Row, path: Seq<int>) -> bool
    decreases path.len(),
{
    path.len() == 0 || (0 <= path[0] < row.children.len() && has_path(
        row.children[path[0]],
        path.drop_first(),
    ))
}

/// The row that the path leads to.
pub open spec fn row_at(row: Row, path: Seq<int>) -> Row
    decreases path.len(),
{
    if path.len() == 0 {
        row
    } else {
        row_at(row.children[path[0]], path.drop_first())
    }
}

/// The cells that a new child starts with: one for each number column and each
/// scaled column, in schema order. The first child of a row takes over what
/// the row itself reads as, so that the row's sums stay what they were; a later
/// child starts at zero.
pub open spec fn seeded(parent: Map<Seq<char>, u64>, columns: Seq<Column>, first: bool) -> Map<
    Seq<char>,
    u64,
>
    decreases columns.len(),
{
    if columns.len() == 0 {
        Map::empty()
    } else {
        let before = seeded(parent, columns.drop_last(), first);
        if is_summed(columns.last()) {
            before.insert(
                columns.last().id,
                if first {
                    read(parent, columns.last().id)
                } else {
                    0
                },
            )
        } else {
            before
        }
    }
}

impl RowData {
    /// A leaf with the given name, enabled, without cells.
    pub fn new(name: &str) -> (row: RowData)
        ensures
            row@ == (Row {
                name: name@,
                enabled: true,
                values: Map::empty(),
                children: Seq::empty(),
            }),
    {
        let row = RowData {
            name: name.to_owned(),
            col_data: Values::new(),
            children: Vec::new(),
            enabled: true,
        };
        proof {
            assert(row@.children =~= Seq::empty());
        }
        row
    }

    /// Whether the row has no children.
    pub fn is_leaf(&self) -> (leaf: bool)
        ensures
            leaf == (self@.children.len() == 0),
    {
        proof {
            lemma_row_view(*self);
        }
        self.children.len() == 0
    }

    /// Whether the user enters a number in this row's cell of the column: so on
    /// a leaf, in a number column. A row with children holds sums, a scaled
    /// column and a row-sum column are derived, and a text column takes no
    /// number.
    pub fn is_editable(&self, config: &ColumnConfig) -> (editable: bool)
        ensures
            editable == (self@.children.len() == 0 && config@.formula is Number),
    {
        match &config.col_type {
            ColumnType::Number => self.is_leaf(),
            _ => false,
        }
    }

    /// The number that the row shows in a column: its cell, or zero where it has
    /// none. Reading leaves the row as it is.
    pub fn value(&self, column: &str) -> (number: u64)
        ensures
            number == read(self@.values, column@),
    {
        self.col_data.value(column)
    }

    /// Writes a cell of this row.
    pub fn set_value(&mut self, column: &str, number: u64) -> (dirty: bool)
        ensures
            dirty,
            final(self)@ == (Row {
                name: old(self)@.name,
                enabled: old(self)@.enabled,
                values: old(self)@.values.insert(column@, number),
                children: old(self)@.children,
            }),
    {
        self.col_data.insert(column, number);
        true
    }

    /// Includes the row in the sums of the rows above it, or leaves it out. Its
    /// own cells stay as they are.
    pub fn set_enabled(&mut self, enabled: bool) -> (dirty: bool)
        ensures
            dirty,
            final(self)@ == (Row {
                name: old(self)@.name,
                enabled: enabled,
                values: old(self)@.values,
                children: old(self)@.children,
            }),
    {
        self.enabled = enabled;
        true
    }

    /// Gives the row another name.
    pub fn rename(&mut self, name: &str) -> (dirty: bool)
        ensures
            dirty,
            final(self)@ == (Row {
                name: name@,
                enabled: old(self)@.enabled,
                values: old(self)@.values,
                children: old(self)@.children,
            }),
    {
        self.name = name.to_owned();
        true
    }

    /// Appends a new child: enabled, without a name and without children, with
    /// the cells that [`seeded`] gives.
    pub fn add_child(&mut self, column_configs: &Vec<ColumnConfig>) -> (dirty: bool)
        ensures
            dirty,
            final(self)@ == (Row {
                name: old(self)@.name,
                enabled: old(self)@.enabled,
                values: old(self)@.values,
                children: old(self)@.children.push(
                    Row {
                        name: Seq::empty(),
                        enabled: true,
                        values: seeded(
                            old(self)@.values,
                            columns_of(column_configs@),
                            old(self)@.children.len() == 0,
                        ),
                        children: Seq::empty(),
                    },
                ),
            }),
    {
        let ghost columns = columns_of(column_configs@);
        proof {
            lemma_row_view(*self);
        }
        let first = self.children.len() == 0;
        let mut cells = Values::new();
        let mut k: usize = 0;
        while k < column_configs.len()
            invariant
                k <= column_configs@.len(),
                columns == columns_of(column_configs@),
                first == (self@.children.len() == 0),
                *self == *old(self),
                cells@ == seeded(self@.values, columns.take(k as int), first),
            decreases column_configs@.len() - k,
        {
            let config = &column_configs[k];
            proof {
                assert(columns.take(k + 1).drop_last() =~= columns.take(k as int));
                assert(columns.take(k + 1).last() == config@);
            }
            match &config.col_type {
                ColumnType::Number | ColumnType::MultiplyByFactor(_, _) => {
                    let number = if first {
                        self.col_data.value(config.id.as_str())
                    } else {
                        0
                    };
                    cells.insert(config.id.as_str(), number);
                },
                _ => {},
            }
            k += 1;
        }
        proof {
            assert(columns.take(k as int) =~= columns);
        }
        let child = RowData {
            name: String::new(),
            col_data: cells,
            children: Vec::new(),
            enabled: true,
        };
        proof {
            assert(child@.children =~= Seq::empty());
        }
        self.children.push(child);
        proof {
            lemma_row_view(*self);
            lemma_row_view(*old(self));
            assert(self@.children =~= old(self)@.children.push(child@));
        }
        true
    }

    /// Takes the child at `index` out of the row, with all rows below it. An
    /// index past the last child changes nothing.
    pub fn remove_child(&mut self, index: usize) -> (dirty: bool)
        ensures
            dirty == (index < old(self)@.children.len()),
            final(self)@ == (Row {
                name: old(self)@.name,
                enabled: old(self)@.enabled,
                values: old(self)@.values,
                children: if index < old(self)@.children.len() {
                    old(self)@.children.remove(index as int)
                } else {
                    old(self)@.children
                },
            }),
    {
        proof {
            lemma_row_view(*self);
        }
        if index < self.children.len() {
            let _ = self.children.remove(index);
            proof {
                lemma_row_view(*self);
                assert(self@.children =~= old(self)@.children.remove(index as int));
            }
            true
        } else {
            false
        }
    }
}

impl Clone for RowData {
    /// The row once more, with all rows below it.
    fn clone(&self) -> (copy: RowData)
        ensures
            copy@ == self@,
        decreases self,
    {
        let mut children: Vec<RowData> = Vec::new();
        let mut i: usize = 0;
        while i < self.children.len()
            invariant
                i <= self.children@.len(),
                children@.len() == i,
                forall|j: int| 0 <= j < i ==> (#[trigger] children@[j])@ == self.children@[j]@,
            decreases self.children@.len() - i,
        {
            children.push(self.children[i].clone());
            i += 1;
        }
        let copy = RowData {
            name: self.name.clone(),
            col_data: self.col_data.clone(),
            children,
            enabled: self.enabled,
        };
        proof {
            lemma_row_view(copy);
            lemma_row_view(*self);
            assert(copy@.children =~= self@.children);
        }
        copy
    }
}

impl Default for RowData {
    /// A leaf without a name, enabled, without cells.
    fn default() -> (row: RowData)
        ensures
            row@ == (Row {
                name: Seq::empty(),
                enabled: true,
                values: Map::empty(),
                children: Seq::empty(),
            }),
    {
        let row = RowData {
            name: String::new(),
            col_data: Values::new(),
            children: Vec::new(),
            enabled: true,
        };
        proof {
            assert(row@.children =~= Seq::empty());
        }
        row
    }
}

} // verus!
