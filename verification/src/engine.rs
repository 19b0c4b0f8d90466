//! The update pass: one walk over the tree, children before parents, that
//! derives every computed cell from the cells below and beside it.
//!
//! The engine moves numbers and decides which of them are combined; it does no
//! arithmetic of its own. The caller hands it the two operations, addition and
//! multiplication of doubles given by their bit patterns, and every contract
//! here holds for whatever pair of functions it is given.

use crate::column::{columns_of, Column, ColumnConfig, ColumnType, Formula};
use crate::row::{rows_of, Row, RowData};
use crate::values::{read, Values};
use vstd::prelude::*;

verus! {

/// The two operations on numbers, as contracts see them.
pub struct Arithmetic {
    pub plus: spec_fn(u64, u64) -> u64,
    pub times: spec_fn(u64, u64) -> u64,
}

/// The operation accepts every pair of numbers, and gives one result for each.
pub open spec fn is_operation<F: Fn(u64, u64) -> u64>(op: &F) -> bool {
    &&& forall|a: u64, b: u64| op.requires((a, b))
    &&& forall|a: u64, b: u64, r: u64, s: u64|
        op.ensures((a, b), r) && op.ensures((a, b), s) ==> r == s
}

/// The function that an operation computes.
pub open spec fn function_of<F: Fn(u64, u64) -> u64>(op: &F) -> spec_fn(u64, u64) -> u64 {
    |a: u64, b: u64| choose|r: u64| op.ensures((a, b), r)
}

/// The arithmetic that a pair of operations computes.
pub open spec fn arithmetic_of<A: Fn(u64, u64) -> u64, M: Fn(u64, u64) -> u64>(
    plus: &A,
    times: &M,
) -> Arithmetic {
    Arithmetic { plus: function_of(plus), times: function_of(times) }
}

/// A row's cells after one column was settled: a scaled column gets the factor
/// times what its source column reads as in the same row; any other column
/// leaves the cells as they are.
pub open spec fn settle_cell(ar: Arithmetic, values: Map<Seq<char>, u64>, column: Column) -> Map<
    Seq<char>,
    u64,
> {
    match column.formula {
        Formula::MultiplyByFactor(source, factor) => values.insert(
            column.id,
            (ar.times)(factor, read(values, source)),
        ),
        _ => values,
    }
}

/// A row's cells after the columns were settled one by one, in schema order.
pub open spec fn settle(ar: Arithmetic, values: Map<Seq<char>, u64>, columns: Seq<Column>) -> Map<
    Seq<char>,
    u64,
>
    decreases columns.len(),
{
    if columns.len() == 0 {
        values
    } else {
        settle_cell(ar, settle(ar, values, columns.drop_last()), columns.last())
    }
}

/// The row with its own cells settled.
pub open spec fn settled(ar: Arithmetic, row: Row, columns: Seq<Column>) -> Row {
    Row {
        name: row.name,
        enabled: row.enabled,
        values: settle(ar, row.values, columns),
        children: row.children,
    }
}

/// Each of the rows with its own cells settled.
pub open spec fn settle_all(ar: Arithmetic, rows: Seq<Row>, columns: Seq<Column>) -> Seq<Row> {
    Seq::new(rows.len(), |i: int| settled(ar, rows[i], columns))
}

/// The sum of a column over the enabled rows, added up from zero in row order.
pub open spec fn total(ar: Arithmetic, rows: Seq<Row>, column: Seq<char>) -> u64
    decreases rows.len(),
{
    if rows.len() == 0 {
        0
    } else if rows.last().enabled {
        (ar.plus)(total(ar, rows.drop_last(), column), read(rows.last().values, column))
    } else {
        total(ar, rows.drop_last(), column)
    }
}

/// The cells of a row with children after the pass: for each number column and
/// each scaled column, in schema order, the sum over the enabled children, each
/// child taken as it stands once the columns up to that one were settled in it.
/// Text columns are not written.
pub open spec fn gather(
    ar: Arithmetic,
    own: Map<Seq<char>, u64>,
    children: Seq<Row>,
    columns: Seq<Column>,
) -> Map<Seq<char>, u64>
    decreases columns.len(),
{
    if columns.len() == 0 {
        own
    } else {
        let before = gather(ar, own, children, columns.drop_last());
        match columns.last().formula {
            Formula::Number | Formula::MultiplyByFactor(_, _) => before.insert(
                columns.last().id,
                total(ar, settle_all(ar, children, columns), columns.last().id),
            ),
            _ => before,
        }
    }
}

/// The tree after one update pass.
///
/// The children are updated first. A leaf then settles its scaled columns. A row
/// with children settles the scaled columns of each child and takes, column by
/// column, the sum over its enabled children.
pub open spec fn recomputed(ar: Arithmetic, row: Row, columns: Seq<Column>) -> Row
    decreases row,
{
    let below = recomputed_all(ar, row.children, columns);
    if row.children.len() == 0 {
        settled(ar, row, columns)
    } else {
        Row {
            name: row.name,
            enabled: row.enabled,
            values: gather(ar, row.values, below, columns),
            children: settle_all(ar, below, columns),
        }
    }
}

/// Each of the rows after one update pass of its own.
pub open spec fn recomputed_all(ar: Arithmetic, rows: Seq<Row>, columns: Seq<Column>) -> Seq<Row>
    decreases rows,
{
    Seq::new(
        rows.len(),
        |i: int|
            if 0 <= i < rows.len() {
                recomputed(ar, rows[i], columns)
            } else {
                arbitrary()
            },
    )
}

/// Some column asks for a sum over columns of the same row, which the engine
/// does not compute.
pub open spec fn has_row_sum(columns: Seq<Column>) -> bool {
    exists|k: int| 0 <= k < columns.len() && #[trigger] columns[k].formula is RowSum
}

/// Why an update pass did nothing.
#[derive(Debug, PartialEq, Eq, Clone, Copy)]
pub enum EngineError {
    /// The schema holds a column that sums columns of the same row.
    UnimplementedFormula,
}

/// Settles one column in a row's cells.
fn settle_column<A: Fn(u64, u64) -> u64, M: Fn(u64, u64) -> u64>(
    values: &mut Values,
    config: &ColumnConfig,
    plus: &A,
    times: &M,
)
    requires
        is_operation(times),
    ensures
        final(values)@ == settle_cell(arithmetic_of(plus, times), old(values)@, config@),
{
    match &config.col_type {
        ColumnType::MultiplyByFactor(source, factor) => {
            let number = times(*factor, values.value(source.as_str()));
            values.insert(config.id.as_str(), number);
        },
        _ => {},
    }
}

/// Settles every column, in schema order, in a row's cells.
fn settle_columns<A: Fn(u64, u64) -> u64, M: Fn(u64, u64) -> u64>(
    values: &mut Values,
    column_configs: &Vec<ColumnConfig>,
    plus: &A,
    times: &M,
)
    requires
        is_operation(times),
    ensures
        final(values)@ == settle(
            arithmetic_of(plus, times),
            old(values)@,
            columns_of(column_configs@),
        ),
{
    let ghost ar = arithmetic_of(plus, times);
    let ghost columns = columns_of(column_configs@);
    let mut k: usize = 0;
    while k < column_configs.len()
        invariant
            k <= column_configs@.len(),
            is_operation(times),
            ar == arithmetic_of(plus, times),
            columns == columns_of(column_configs@),
            values@ == settle(ar, old(values)@, columns.take(k as int)),
        decreases column_configs@.len() - k,
    {
        settle_column(values, &column_configs[k], plus, times);
        proof {
            assert(columns.take(k + 1).drop_last() =~= columns.take(k as int));
        }
        k += 1;
    }
    proof {
        assert(columns.take(k as int) =~= columns);
    }
}

/// Adds up a column over the enabled rows.
fn sum_column<A: Fn(u64, u64) -> u64, M: Fn(u64, u64) -> u64>(
    children: &Vec<RowData>,
    column: &str,
    plus: &A,
    times: &M,
) -> (sum: u64)
    requires
        is_operation(plus),
    ensures
        sum == total(arithmetic_of(plus, times), rows_of(children@), column@),
{
    let ghost ar = arithmetic_of(plus, times);
    let ghost rows = rows_of(children@);
    let mut sum: u64 = 0;
    let mut i: usize = 0;
    while i < children.len()
        invariant
            i <= children@.len(),
            is_operation(plus),
            ar == arithmetic_of(plus, times),
            rows == rows_of(children@),
            sum == total(ar, rows.take(i as int), column@),
        decreases children@.len() - i,
    {
        proof {
            assert(rows.take(i + 1).drop_last() =~= rows.take(i as int));
            assert(rows.take(i + 1).last() == children@[i as int]@);
        }
        if children[i].enabled {
            sum = plus(sum, children[i].col_data.value(column));
        }
        i += 1;
    }
    proof {
        assert(rows.take(i as int) =~= rows);
    }
    sum
}

/// Each of the rows with one column settled in its own cells.
pub open spec fn settle_cell_all(ar: Arithmetic, rows: Seq<Row>, column: Column) -> Seq<Row> {
    Seq::new(
        rows.len(),
        |i: int|
            Row {
                name: rows[i].name,
                enabled: rows[i].enabled,
                values: settle_cell(ar, rows[i].values, column),
                children: rows[i].children,
            },
    )
}

/// Settles one column in the own cells of each child.
fn settle_children<A: Fn(u64, u64) -> u64, M: Fn(u64, u64) -> u64>(
    children: &mut Vec<RowData>,
    config: &ColumnConfig,
    plus: &A,
    times: &M,
)
    requires
        is_operation(times),
    ensures
        rows_of(final(children)@) == settle_cell_all(
            arithmetic_of(plus, times),
            rows_of(old(children)@),
            config@,
        ),
{
    let ghost ar = arithmetic_of(plus, times);
    let ghost before = rows_of(children@);
    let mut i: usize = 0;
    while i < children.len()
        invariant
            i <= children@.len(),
            is_operation(times),
            ar == arithmetic_of(plus, times),
            before == rows_of(old(children)@),
            children@.len() == before.len(),
            forall|j: int| 0 <= j < i ==> (#[trigger] children@[j])@ == settle_cell_all(ar, before, config@)[j],
            forall|j: int| i <= j < children@.len() ==> (#[trigger] children@[j])@ == before[j],
        decreases children@.len() - i,
    {
        let child = &mut children[i];
        settle_column(&mut child.col_data, config, plus, times);
        i += 1;
    }
    proof {
        assert(rows_of(children@) =~= settle_cell_all(ar, before, config@));
    }
}

/// Settling the columns up to `k` in each row and then column `k` settles the
/// columns up to and with `k`.
proof fn lemma_settle_all_step(ar: Arithmetic, rows: Seq<Row>, columns: Seq<Column>, k: int)
    requires
        0 <= k < columns.len(),
    ensures
        settle_cell_all(ar, settle_all(ar, rows, columns.take(k)), columns[k]) == settle_all(
            ar,
            rows,
            columns.take(k + 1),
        ),
{
    assert(columns.take(k + 1).drop_last() =~= columns.take(k));
    assert(settle_cell_all(ar, settle_all(ar, rows, columns.take(k)), columns[k]) =~= settle_all(
        ar,
        rows,
        columns.take(k + 1),
    ));
}

/// The pass over a row whose children are up to date.
fn gather_columns<A: Fn(u64, u64) -> u64, M: Fn(u64, u64) -> u64>(
    row: &mut RowData,
    column_configs: &Vec<ColumnConfig>,
    plus: &A,
    times: &M,
)
    requires
        is_operation(plus),
        is_operation(times),
    ensures
        final(row)@.name == old(row)@.name,
        final(row)@.enabled == old(row)@.enabled,
        final(row)@.children == settle_all(
            arithmetic_of(plus, times),
            old(row)@.children,
            columns_of(column_configs@),
        ),
        final(row)@.values == gather(
            arithmetic_of(plus, times),
            old(row)@.values,
            old(row)@.children,
            columns_of(column_configs@),
        ),
{
    let ghost ar = arithmetic_of(plus, times);
    let ghost columns = columns_of(column_configs@);
    let ghost below = row@.children;
    let ghost own = row@.values;
    proof {
        assert(settle_all(ar, below, columns.take(0)) =~= below);
    }
    let mut k: usize = 0;
    while k < column_configs.len()
        invariant
            k <= column_configs@.len(),
            is_operation(plus),
            is_operation(times),
            ar == arithmetic_of(plus, times),
            columns == columns_of(column_configs@),
            below == old(row)@.children,
            own == old(row)@.values,
            row@.name == old(row)@.name,
            row@.enabled == old(row)@.enabled,
            row@.children == settle_all(ar, below, columns.take(k as int)),
            row@.values == gather(ar, own, below, columns.take(k as int)),
        decreases column_configs@.len() - k,
    {
        let config = &column_configs[k];
        settle_children(&mut row.children, config, plus, times);
        proof {
            lemma_settle_all_step(ar, below, columns, k as int);
            assert(columns.take(k + 1).drop_last() =~= columns.take(k as int));
            assert(columns.take(k + 1).last() == config@);
        }
        match &config.col_type {
            ColumnType::Number | ColumnType::MultiplyByFactor(_, _) => {
                let sum = sum_column(&row.children, config.id.as_str(), plus, times);
                row.col_data.insert(config.id.as_str(), sum);
            },
            _ => {},
        }
        k += 1;
    }
    proof {
        assert(columns.take(k as int) =~= columns);
    }
}

/// One update pass over a row and all rows below it.
fn recompute<A: Fn(u64, u64) -> u64, M: Fn(u64, u64) -> u64>(
    row: &mut RowData,
    column_configs: &Vec<ColumnConfig>,
    plus: &A,
    times: &M,
)
    requires
        is_operation(plus),
        is_operation(times),
    ensures
        final(row)@ == recomputed(
            arithmetic_of(plus, times),
            old(row)@,
            columns_of(column_configs@),
        ),
    decreases *old(row),
{
    let ghost ar = arithmetic_of(plus, times);
    let ghost columns = columns_of(column_configs@);
    let ghost before = row@;
    proof {
        assert(before.children == rows_of(row.children@));
    }
    let mut i: usize = 0;
    while i < row.children.len()
        invariant
            i <= row.children@.len(),
            is_operation(plus),
            is_operation(times),
            ar == arithmetic_of(plus, times),
            columns == columns_of(column_configs@),
            before == old(row)@,
            before.children == rows_of(old(row).children@),
            row.name == old(row).name,
            row.enabled == old(row).enabled,
            row.col_data == old(row).col_data,
            row.children@.len() == old(row).children@.len(),
            forall|j: int|
                0 <= j < i ==> (#[trigger] row.children@[j])@ == recomputed(
                    ar,
                    before.children[j],
                    columns,
                ),
            forall|j: int|
                i <= j < row.children@.len() ==> #[trigger] row.children@[j] == old(
                    row,
                ).children@[j],
        decreases row.children@.len() - i,
    {
        recompute(&mut row.children[i], column_configs, plus, times);
        i += 1;
    }
    if row.children.len() == 0 {
        settle_columns(&mut row.col_data, column_configs, plus, times);
        proof {
            assert(row@.children =~= before.children);
        }
    } else {
        proof {
            assert(row@.children =~= recomputed_all(ar, before.children, columns));
        }
        gather_columns(row, column_configs, plus, times);
    }
}

/// Whether some column sums columns of the same row.
pub fn schema_has_row_sum(column_configs: &Vec<ColumnConfig>) -> (found: bool)
    ensures
        found == has_row_sum(columns_of(column_configs@)),
{
    let mut k: usize = 0;
    while k < column_configs.len()
        invariant
            k <= column_configs@.len(),
            forall|j: int| 0 <= j < k ==> !(#[trigger] columns_of(column_configs@)[j].formula is RowSum),
        decreases column_configs@.len() - k,
    {
        match &column_configs[k].col_type {
            ColumnType::RowSum(_) => {
                assert(columns_of(column_configs@)[k as int].formula is RowSum);
                return true;
            },
            _ => {},
        }
        k += 1;
    }
    false
}

impl RowData {
    /// Runs one update pass over this row and all rows below it.
    ///
    /// A schema that holds a row-sum column is refused, and the tree stays as it
    /// is. With any other schema the pass succeeds, whatever cells are missing
    /// and whatever columns the formulas name.
    pub fn update<A: Fn(u64, u64) -> u64, M: Fn(u64, u64) -> u64>(
        &mut self,
        column_configs: &Vec<ColumnConfig>,
        plus: &A,
        times: &M,
    ) -> (outcome: Result<(), EngineError>)
        requires
            is_operation(plus),
            is_operation(times),
        ensures
            outcome == (if has_row_sum(columns_of(column_configs@)) {
                Err::<(), EngineError>(EngineError::UnimplementedFormula)
            } else {
                Ok(())
            }),
            final(self)@ == (if has_row_sum(columns_of(column_configs@)) {
                old(self)@
            } else {
                recomputed(arithmetic_of(plus, times), old(self)@, columns_of(column_configs@))
            }),
    {
        if schema_has_row_sum(column_configs) {
            return Err(EngineError::UnimplementedFormula);
        }
        recompute(self, column_configs, plus, times);
        Ok(())
    }
}

} // verus!
