//! The document: a title, the schema and the tree of rows.

use crate::column::{
    columns_of, is_random_identity, Column, ColumnConfig, ColumnType, Formula,
};
use crate::engine::{
    arithmetic_of, has_row_sum, is_operation, recomputed, EngineError,
};
use crate::row::{lemma_row_view, Row, RowData};
use vstd::prelude::*;

verus! {

/// A document, as contracts see it.
pub struct Table {
    pub title: Seq<char>,
    pub columns: Seq<Column>,
    pub root: Row,
}

/// A document. The schema lists the columns in display order; the root row
/// stands for the whole table.
#[derive(Debug)]
pub struct TreeTable {
    pub title_text: String,
    pub column_configs: Vec<ColumnConfig>,
    pub root_row: RowData,
}

impl View for TreeTable {
    type V = Table;

    open spec fn view(&self) -> Table {
        Table {
            title: self.title_text@,
            columns: columns_of(self.column_configs@),
            root: self.root_row@,
        }
    }
}

impl Clone for TreeTable {
    /// The document once more.
    fn clone(&self) -> (copy: TreeTable)
        ensures
            copy@ == self@,
    {
        let mut column_configs: Vec<ColumnConfig> = Vec::new();
        let mut k: usize = 0;
        while k < self.column_configs.len()
            invariant
                k <= self.column_configs@.len(),
                column_configs@.len() == k,
                forall|j: int|
                    0 <= j < k ==> (#[trigger] column_configs@[j])@ == self.column_configs@[j]@,
            decreases self.column_configs@.len() - k,
        {
            column_configs.push(self.column_configs[k].clone());
            k += 1;
        }
        proof {
            assert(columns_of(column_configs@) =~= columns_of(self.column_configs@));
        }
        TreeTable {
            title_text: self.title_text.clone(),
            column_configs,
            root_row: self.root_row.clone(),
        }
    }
}

/// Some column has this identity.
pub open spec fn has_column(columns: Seq<Column>, id: Seq<char>) -> bool {
    exists|k: int| 0 <= k < columns.len() && (#[trigger] columns[k]).id == id
}

/// `k` is the place of the first column with this identity.
pub open spec fn is_first(columns: Seq<Column>, id: Seq<char>, k: int) -> bool {
    &&& 0 <= k < columns.len()
    &&& columns[k].id == id
    &&& forall|j: int| 0 <= j < k ==> (#[trigger] columns[j]).id != id
}

/// The place of the first column with the given identity.
pub fn find_column(column_configs: &Vec<ColumnConfig>, id: &str) -> (at: Option<usize>)
    ensures
        match at {
            Some(k) => is_first(columns_of(column_configs@), id@, k as int),
            None => !has_column(columns_of(column_configs@), id@),
        },
{
    let key = id.to_owned();
    let mut k: usize = 0;
    while k < column_configs.len()
        invariant
            k <= column_configs@.len(),
            key@ == id@,
            forall|j: int| 0 <= j < k ==> (#[trigger] columns_of(column_configs@)[j]).id != id@,
        decreases column_configs@.len() - k,
    {
        if column_configs[k].id == key {
            return Some(k);
        }
        k += 1;
    }
    None
}

impl TreeTable {
    /// Runs one update pass over the whole tree.
    ///
    /// A schema that holds a row-sum column is refused, and the document stays
    /// as it is.
    pub fn recompute<A: Fn(u64, u64) -> u64, M: Fn(u64, u64) -> u64>(
        &mut self,
        plus: &A,
        times: &M,
    ) -> (outcome: Result<(), EngineError>)
        requires
            is_operation(plus),
            is_operation(times),
        ensures
            outcome == (if has_row_sum(old(self)@.columns) {
                Err::<(), EngineError>(EngineError::UnimplementedFormula)
            } else {
                Ok(())
            }),
            final(self)@ == (Table {
                title: old(self)@.title,
                columns: old(self)@.columns,
                root: if has_row_sum(old(self)@.columns) {
                    old(self)@.root
                } else {
                    recomputed(arithmetic_of(plus, times), old(self)@.root, old(self)@.columns)
                },
            }),
    {
        self.root_row.update(&self.column_configs, plus, times)
    }

    /// Gives the document another title.
    pub fn set_title(&mut self, title: &str) -> (dirty: bool)
        ensures
            dirty,
            final(self)@ == (Table {
                title: title@,
                columns: old(self)@.columns,
                root: old(self)@.root,
            }),
    {
        self.title_text = title.to_owned();
        true
    }

    /// Appends a number column with the given identity, without a caption,
    /// counted in euros. The rows get no cell for it: they read as zero there
    /// until the next pass or entry. The document does not count as modified
    /// by this alone.
    pub fn add_column_with_id(&mut self, id: String) -> (dirty: bool)
        ensures
            !dirty,
            final(self)@ == (Table {
                title: old(self)@.title,
                columns: old(self)@.columns.push(
                    Column {
                        id: id@,
                        caption: Seq::empty(),
                        unit: "€"@,
                        formula: Formula::Number,
                    },
                ),
                root: old(self)@.root,
            }),
    {
        let config = ColumnConfig::with_id(id);
        self.column_configs.push(config);
        proof {
            assert(columns_of(self.column_configs@) =~= columns_of(old(self).column_configs@).push(
                config@,
            ));
        }
        false
    }

    /// Appends a number column with a new random identity, without a caption,
    /// counted in euros. The document does not count as modified by this alone.
    pub fn add_column(&mut self) -> (dirty: bool)
        ensures
            !dirty,
            final(self)@.title == old(self)@.title,
            final(self)@.root == old(self)@.root,
            final(self)@.columns.len() == old(self)@.columns.len() + 1,
            final(self)@.columns.drop_last() == old(self)@.columns,
            is_random_identity(final(self)@.columns.last().id),
            final(self)@.columns.last().caption == Seq::<char>::empty(),
            final(self)@.columns.last().unit == "€"@,
            final(self)@.columns.last().formula == Formula::Number,
    {
        let config = ColumnConfig::default();
        self.column_configs.push(config);
        proof {
            assert(columns_of(self.column_configs@) =~= columns_of(old(self).column_configs@).push(
                config@,
            ));
            assert(self@.columns.drop_last() =~= old(self)@.columns);
        }
        false
    }

    /// Takes the column at `index` out of the schema. The cells that rows hold
    /// under its identity stay where they are. An index past the last column
    /// changes nothing.
    pub fn remove_column_at(&mut self, index: usize) -> (dirty: bool)
        ensures
            !dirty,
            final(self)@ == (Table {
                title: old(self)@.title,
                columns: if index < old(self)@.columns.len() {
                    old(self)@.columns.remove(index as int)
                } else {
                    old(self)@.columns
                },
                root: old(self)@.root,
            }),
    {
        if index < self.column_configs.len() {
            let _ = self.column_configs.remove(index);
            proof {
                assert(columns_of(self.column_configs@) =~= columns_of(
                    old(self).column_configs@,
                ).remove(index as int));
            }
        }
        false
    }

    /// Gives the column at `index` another formula. Cells computed under the old
    /// formula stay until the next update pass overwrites them. An index past
    /// the last column changes nothing.
    pub fn set_column_type_at(&mut self, index: usize, col_type: ColumnType) -> (dirty: bool)
        ensures
            !dirty,
            final(self)@ == (Table {
                title: old(self)@.title,
                columns: if index < old(self)@.columns.len() {
                    old(self)@.columns.update(
                        index as int,
                        Column {
                            id: old(self)@.columns[index as int].id,
                            caption: old(self)@.columns[index as int].caption,
                            unit: old(self)@.columns[index as int].unit,
                            formula: col_type@,
                        },
                    )
                } else {
                    old(self)@.columns
                },
                root: old(self)@.root,
            }),
    {
        if index < self.column_configs.len() {
            let config = &mut self.column_configs[index];
            config.col_type = col_type;
            proof {
                assert(columns_of(self.column_configs@) =~= columns_of(
                    old(self).column_configs@,
                ).update(index as int, self.column_configs@[index as int]@));
            }
        }
        false
    }

    /// Gives the column at `index` another caption. An index past the last
    /// column changes nothing.
    pub fn set_column_caption_at(&mut self, index: usize, caption: &str) -> (dirty: bool)
        ensures
            !dirty,
            final(self)@ == (Table {
                title: old(self)@.title,
                columns: if index < old(self)@.columns.len() {
                    old(self)@.columns.update(
                        index as int,
                        Column {
                            id: old(self)@.columns[index as int].id,
                            caption: caption@,
                            unit: old(self)@.columns[index as int].unit,
                            formula: old(self)@.columns[index as int].formula,
                        },
                    )
                } else {
                    old(self)@.columns
                },
                root: old(self)@.root,
            }),
    {
        if index < self.column_configs.len() {
            let config = &mut self.column_configs[index];
            config.caption = caption.to_owned();
            proof {
                assert(columns_of(self.column_configs@) =~= columns_of(
                    old(self).column_configs@,
                ).update(index as int, self.column_configs@[index as int]@));
            }
        }
        false
    }

    /// Gives the column at `index` another unit. An index past the last column
    /// changes nothing.
    pub fn set_column_unit_at(&mut self, index: usize, unit: &str) -> (dirty: bool)
        ensures
            !dirty,
            final(self)@ == (Table {
                title: old(self)@.title,
                columns: if index < old(self)@.columns.len() {
                    old(self)@.columns.update(
                        index as int,
                        Column {
                            id: old(self)@.columns[index as int].id,
                            caption: old(self)@.columns[index as int].caption,
                            unit: unit@,
                            formula: old(self)@.columns[index as int].formula,
                        },
                    )
                } else {
                    old(self)@.columns
                },
                root: old(self)@.root,
            }),
    {
        if index < self.column_configs.len() {
            let config = &mut self.column_configs[index];
            config.unit = unit.to_owned();
            proof {
                assert(columns_of(self.column_configs@) =~= columns_of(
                    old(self).column_configs@,
                ).update(index as int, self.column_configs@[index as int]@));
            }
        }
        false
    }

    /// Takes the first column with the given identity out of the schema. The
    /// cells that rows hold under that identity stay where they are. Without
    /// such a column nothing changes.
    pub fn remove_column(&mut self, id: &str) -> (dirty: bool)
        ensures
            !dirty,
            final(self)@.title == old(self)@.title,
            final(self)@.root == old(self)@.root,
            !has_column(old(self)@.columns, id@) ==> final(self)@.columns == old(self)@.columns,
            forall|k: int|
                is_first(old(self)@.columns, id@, k) ==> final(self)@.columns == old(
                    self,
                )@.columns.remove(k),
    {
        proof {
            lemma_first_is_found(self@.columns, id@);
        }
        match find_column(&self.column_configs, id) {
            Some(at) => self.remove_column_at(at),
            None => false,
        }
    }

    /// Gives the first column with the given identity another formula. Cells
    /// computed under the old formula stay until the next update pass
    /// overwrites them. Without such a column nothing changes.
    pub fn set_column_type(&mut self, id: &str, col_type: ColumnType) -> (dirty: bool)
        ensures
            !dirty,
            final(self)@.title == old(self)@.title,
            final(self)@.root == old(self)@.root,
            !has_column(old(self)@.columns, id@) ==> final(self)@.columns == old(self)@.columns,
            forall|k: int|
                is_first(old(self)@.columns, id@, k) ==> final(self)@.columns == old(
                    self,
                )@.columns.update(
                    k,
                    Column {
                        id: old(self)@.columns[k].id,
                        caption: old(self)@.columns[k].caption,
                        unit: old(self)@.columns[k].unit,
                        formula: col_type@,
                    },
                ),
    {
        proof {
            lemma_first_is_found(self@.columns, id@);
        }
        match find_column(&self.column_configs, id) {
            Some(at) => self.set_column_type_at(at, col_type),
            None => false,
        }
    }

    /// Gives the first column with the given identity another caption. Without
    /// such a column nothing changes.
    pub fn set_column_caption(&mut self, id: &str, caption: &str) -> (dirty: bool)
        ensures
            !dirty,
            final(self)@.title == old(self)@.title,
            final(self)@.root == old(self)@.root,
            !has_column(old(self)@.columns, id@) ==> final(self)@.columns == old(self)@.columns,
            forall|k: int|
                is_first(old(self)@.columns, id@, k) ==> final(self)@.columns == old(
                    self,
                )@.columns.update(
                    k,
                    Column {
                        id: old(self)@.columns[k].id,
                        caption: caption@,
                        unit: old(self)@.columns[k].unit,
                        formula: old(self)@.columns[k].formula,
                    },
                ),
    {
        proof {
            lemma_first_is_found(self@.columns, id@);
        }
        match find_column(&self.column_configs, id) {
            Some(at) => self.set_column_caption_at(at, caption),
            None => false,
        }
    }

    /// Gives the first column with the given identity another unit. Without
    /// such a column nothing changes.
    pub fn set_column_unit(&mut self, id: &str, unit: &str) -> (dirty: bool)
        ensures
            !dirty,
            final(self)@.title == old(self)@.title,
            final(self)@.root == old(self)@.root,
            !has_column(old(self)@.columns, id@) ==> final(self)@.columns == old(self)@.columns,
            forall|k: int|
                is_first(old(self)@.columns, id@, k) ==> final(self)@.columns == old(
                    self,
                )@.columns.update(
                    k,
                    Column {
                        id: old(self)@.columns[k].id,
                        caption: old(self)@.columns[k].caption,
                        unit: unit@,
                        formula: old(self)@.columns[k].formula,
                    },
                ),
    {
        proof {
            lemma_first_is_found(self@.columns, id@);
        }
        match find_column(&self.column_configs, id) {
            Some(at) => self.set_column_unit_at(at, unit),
            None => false,
        }
    }
}

/// The first column with an identity is one place and no other; where no
/// column has the identity, no place is the first.
pub proof fn lemma_first_is_found(columns: Seq<Column>, id: Seq<char>)
    ensures
        forall|a: int, b: int| is_first(columns, id, a) && is_first(columns, id, b) ==> a == b,
        !has_column(columns, id) ==> forall|k: int| !is_first(columns, id, k),
{
    assert forall|a: int, b: int| is_first(columns, id, a) && is_first(columns, id, b) implies a
        == b by {
        lemma_first_is_unique(columns, id, a, b);
    }
    if !has_column(columns, id) {
        lemma_none_is_first(columns, id);
    }
}

/// Where no column has the identity, none is the first with it.
pub proof fn lemma_none_is_first(columns: Seq<Column>, id: Seq<char>)
    requires
        !has_column(columns, id),
    ensures
        forall|k: int| !is_first(columns, id, k),
{
    assert forall|k: int| !is_first(columns, id, k) by {
        if is_first(columns, id, k) {
            assert(columns[k].id == id);
        }
    }
}

/// There is one first column with a given identity at most.
pub proof fn lemma_first_is_unique(columns: Seq<Column>, id: Seq<char>, a: int, b: int)
    requires
        is_first(columns, id, a),
        is_first(columns, id, b),
    ensures
        a == b,
{
    if a < b {
        assert(columns[a].id != id);
    }
    if b < a {
        assert(columns[b].id != id);
    }
}

/// The bit pattern of the double 1.
pub const ONE: u64 = 0x3FF0_0000_0000_0000;

/// The bit pattern of the double 100.
pub const HUNDRED: u64 = 0x4059_0000_0000_0000;

/// The document that a first run starts with: material cost and working time as
/// number columns, the sales price as a hundred times the material cost, and
/// under the root one row with a material cost of 1.
pub open spec fn first_table() -> Table {
    Table {
        title: "Tree Tables"@,
        columns: seq![
            Column {
                id: "2387c84a-2c68-405e-a342-d94a1dde6408"@,
                caption: "Materialkosten"@,
                unit: "€"@,
                formula: Formula::Number,
            },
            Column {
                id: "94869fe6-c736-4c88-be7f-8084679d78fc"@,
                caption: "Arbeitszeit"@,
                unit: "h"@,
                formula: Formula::Number,
            },
            Column {
                id: "5aafbaab-6c03-4e8f-9fc4-cfb66ed2fb16"@,
                caption: "Verkaufspreis"@,
                unit: "€"@,
                formula: Formula::MultiplyByFactor(
                    "2387c84a-2c68-405e-a342-d94a1dde6408"@,
                    HUNDRED,
                ),
            },
        ],
        root: Row {
            name: "∑"@,
            enabled: true,
            values: Map::empty(),
            children: seq![
                Row {
                    name: "A"@,
                    enabled: true,
                    values: Map::empty().insert("2387c84a-2c68-405e-a342-d94a1dde6408"@, ONE),
                    children: Seq::empty(),
                },
            ],
        },
    }
}

impl Default for TreeTable {
    /// The document that a first run starts with.
    fn default() -> (table: TreeTable)
        ensures
            table@ == first_table(),
    {
        let mut column_configs: Vec<ColumnConfig> = Vec::new();
        column_configs.push(
            ColumnConfig {
                id: "2387c84a-2c68-405e-a342-d94a1dde6408".to_owned(),
                caption: "Materialkosten".to_owned(),
                unit: "€".to_owned(),
                col_type: ColumnType::Number,
            },
        );
        column_configs.push(
            ColumnConfig {
                id: "94869fe6-c736-4c88-be7f-8084679d78fc".to_owned(),
                caption: "Arbeitszeit".to_owned(),
                unit: "h".to_owned(),
                col_type: ColumnType::Number,
            },
        );
        column_configs.push(
            ColumnConfig {
                id: "5aafbaab-6c03-4e8f-9fc4-cfb66ed2fb16".to_owned(),
                caption: "Verkaufspreis".to_owned(),
                unit: "€".to_owned(),
                col_type: ColumnType::MultiplyByFactor(
                    "2387c84a-2c68-405e-a342-d94a1dde6408".to_owned(),
                    HUNDRED,
                ),
            },
        );
        let mut first = RowData::new("A");
        let _ = first.set_value("2387c84a-2c68-405e-a342-d94a1dde6408", ONE);
        let ghost child = first@;
        let mut root_row = RowData::new("∑");
        proof {
            lemma_row_view(root_row);
        }
        root_row.children.push(first);
        let table = TreeTable { title_text: "Tree Tables".to_owned(), column_configs, root_row };
        proof {
            lemma_row_view(table.root_row);
            assert(table.root_row.children@[0]@ == child);
            assert(child.children =~= Seq::<Row>::empty());
            assert(table@.root.children[0] == first_table().root.children[0]);
            assert(table@.root.children =~= first_table().root.children);
            assert(table@.columns =~= first_table().columns);
        }
        table
    }
}

} // verus!
