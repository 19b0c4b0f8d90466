//! What holds of every update pass, proved over the model of the engine.
//!
//! Each statement holds for every pair of functions taken as addition and
//! multiplication: none of them rests on a property of the arithmetic.

use crate::column::{factor_of, is_scaled, is_summed, source_of, Column};
use crate::engine::{
    gather, recomputed, recomputed_all, settle, settle_all, settle_cell, settled, total,
    Arithmetic,
};
use crate::row::{has_path, row_at, seeded, Row};
use crate::values::read;
use vstd::prelude::*;

verus! {

/// Two maps say the same of a column: both lack it, or both hold the same cell.
pub open spec fn same_at(a: Map<Seq<char>, u64>, b: Map<Seq<char>, u64>, column: Seq<char>) -> bool {
    &&& a.contains_key(column) == b.contains_key(column)
    &&& a.contains_key(column) ==> a[column] == b[column]
}

/// Some scaled column of the schema has this identity.
pub open spec fn scaled_into(columns: Seq<Column>, id: Seq<char>) -> bool {
    exists|k: int| 0 <= k < columns.len() && is_scaled(#[trigger] columns[k]) && columns[k].id == id
}

/// Some number column or scaled column of the schema has this identity.
pub open spec fn summed_into(columns: Seq<Column>, id: Seq<char>) -> bool {
    exists|k: int| 0 <= k < columns.len() && is_summed(#[trigger] columns[k]) && columns[k].id == id
}

/// No two columns share an identity.
pub open spec fn ids_distinct(columns: Seq<Column>) -> bool {
    forall|i: int, j: int| 0 <= i < j < columns.len() ==> columns[i].id != columns[j].id
}

/// No scaled column reads itself or a scaled column that stands after it: what
/// a scaled column reads is settled before the column is.
pub open spec fn sources_settled(columns: Seq<Column>) -> bool {
    forall|i: int, j: int|
        0 <= i <= j < columns.len() && is_scaled(#[trigger] columns[i]) && is_scaled(
            #[trigger] columns[j],
        ) ==> columns[j].id != source_of(columns[i])
}

/// Maps that say the same of every column are one map.
pub proof fn lemma_same_everywhere(a: Map<Seq<char>, u64>, b: Map<Seq<char>, u64>)
    requires
        forall|id: Seq<char>| same_at(a, b, id),
    ensures
        a == b,
{
    assert forall|id: Seq<char>| #[trigger] a.dom().contains(id) == b.dom().contains(id) by {
        assert(same_at(a, b, id));
    }
    assert forall|id: Seq<char>| a.dom().contains(id) implies #[trigger] a[id] == b[id] by {
        assert(same_at(a, b, id));
    }
    assert(a.dom() =~= b.dom());
    assert(a =~= b);
}

/// Settling leaves alone every column that no scaled column writes.
pub proof fn lemma_settle_untouched(
    ar: Arithmetic,
    values: Map<Seq<char>, u64>,
    columns: Seq<Column>,
    id: Seq<char>,
)
    requires
        !scaled_into(columns, id),
    ensures
        same_at(settle(ar, values, columns), values, id),
    decreases columns.len(),
{
    if columns.len() > 0 {
        let front = columns.drop_last();
        assert(!scaled_into(front, id)) by {
            if scaled_into(front, id) {
                let k = choose|k: int|
                    0 <= k < front.len() && is_scaled(#[trigger] front[k]) && front[k].id == id;
                assert(is_scaled(columns[k]) && columns[k].id == id);
            }
        }
        lemma_settle_untouched(ar, values, front, id);
        assert(is_scaled(columns[columns.len() - 1]) ==> columns[columns.len() - 1].id != id);
    }
}

/// Settling reads no column but the sources: where two rows differ in one
/// column only, and no scaled column reads it, they differ in that column only
/// after settling too.
pub proof fn lemma_settle_respects(
    ar: Arithmetic,
    a: Map<Seq<char>, u64>,
    b: Map<Seq<char>, u64>,
    columns: Seq<Column>,
    apart: Seq<char>,
)
    requires
        forall|id: Seq<char>| id != apart ==> same_at(a, b, id),
        forall|k: int|
            0 <= k < columns.len() && is_scaled(#[trigger] columns[k]) ==> source_of(columns[k])
                != apart,
    ensures
        forall|id: Seq<char>| id != apart ==> same_at(
            settle(ar, a, columns),
            settle(ar, b, columns),
            id,
        ),
    decreases columns.len(),
{
    if columns.len() > 0 {
        let front = columns.drop_last();
        let last = columns.last();
        assert forall|k: int| 0 <= k < front.len() && is_scaled(#[trigger] front[k]) implies source_of(
            front[k],
        ) != apart by {
            assert(is_scaled(columns[k]));
        }
        lemma_settle_respects(ar, a, b, front, apart);
        let sa = settle(ar, a, front);
        let sb = settle(ar, b, front);
        assert forall|id: Seq<char>| id != apart implies same_at(
            settle(ar, a, columns),
            settle(ar, b, columns),
            id,
        ) by {
            assert(same_at(sa, sb, id));
            if is_scaled(last) {
                assert(is_scaled(columns[columns.len() - 1]));
                assert(same_at(sa, sb, source_of(last)));
            }
        }
    }
}

/// Where every source is settled before it is read, settling a settled row
/// changes nothing.
pub proof fn lemma_settle_idempotent(ar: Arithmetic, values: Map<Seq<char>, u64>, columns: Seq<Column>)
    requires
        sources_settled(columns),
    ensures
        settle(ar, settle(ar, values, columns), columns) == settle(ar, values, columns),
    decreases columns.len(),
{
    if columns.len() > 0 {
        let front = columns.drop_last();
        let last = columns.last();
        let n = columns.len() - 1;
        assert(sources_settled(front)) by {
            assert forall|i: int, j: int|
                0 <= i <= j < front.len() && is_scaled(#[trigger] front[i]) && is_scaled(
                    #[trigger] front[j],
                ) implies front[j].id != source_of(front[i]) by {
                assert(is_scaled(columns[i]) && is_scaled(columns[j]));
            }
        }
        let once = settle(ar, values, front);
        lemma_settle_idempotent(ar, values, front);
        if is_scaled(last) {
            let done = settle_cell(ar, once, last);
            assert(is_scaled(columns[n]));
            assert forall|k: int| 0 <= k < front.len() && is_scaled(#[trigger] front[k]) implies source_of(
                front[k],
            ) != last.id by {
                assert(is_scaled(columns[k]));
            }
            assert(source_of(last) != last.id);
            assert forall|id: Seq<char>| id != last.id implies same_at(done, once, id) by {}
            lemma_settle_respects(ar, done, once, front, last.id);
            let again = settle(ar, done, front);
            assert(same_at(again, once, source_of(last)));
            let twice = settle_cell(ar, again, last);
            assert forall|id: Seq<char>| same_at(twice, done, id) by {
                if id != last.id {
                    assert(same_at(again, once, id));
                }
            }
            lemma_same_everywhere(twice, done);
        }
    }
}

/// A row with children keeps every cell whose column is neither a number
/// column nor a scaled one.
pub proof fn lemma_gather_untouched(
    ar: Arithmetic,
    own: Map<Seq<char>, u64>,
    children: Seq<Row>,
    columns: Seq<Column>,
    id: Seq<char>,
)
    requires
        !summed_into(columns, id),
    ensures
        same_at(gather(ar, own, children, columns), own, id),
    decreases columns.len(),
{
    if columns.len() > 0 {
        let front = columns.drop_last();
        assert(!summed_into(front, id)) by {
            if summed_into(front, id) {
                let k = choose|k: int|
                    0 <= k < front.len() && is_summed(#[trigger] front[k]) && front[k].id == id;
                assert(is_summed(columns[k]) && columns[k].id == id);
            }
        }
        lemma_gather_untouched(ar, own, children, front, id);
        assert(is_summed(columns[columns.len() - 1]) ==> columns[columns.len() - 1].id != id);
    }
}

/// What a row with children holds for a column after the pass depends on what
/// it held before only where the column is neither a number column nor a
/// scaled one.
pub proof fn lemma_gather_agrees(
    ar: Arithmetic,
    a: Map<Seq<char>, u64>,
    b: Map<Seq<char>, u64>,
    children: Seq<Row>,
    columns: Seq<Column>,
    id: Seq<char>,
)
    requires
        same_at(a, b, id) || summed_into(columns, id),
    ensures
        same_at(gather(ar, a, children, columns), gather(ar, b, children, columns), id),
    decreases columns.len(),
{
    if columns.len() > 0 {
        let front = columns.drop_last();
        let last = columns.last();
        if is_summed(last) && last.id == id {
        } else {
            if !same_at(a, b, id) {
                let k = choose|k: int|
                    0 <= k < columns.len() && is_summed(#[trigger] columns[k]) && columns[k].id
                        == id;
                assert(is_summed(front[k]) && front[k].id == id);
            }
            lemma_gather_agrees(ar, a, b, children, front, id);
        }
    }
}

/// The sums of a row, taken twice over the same children, are the sums taken
/// once.
pub proof fn lemma_gather_absorbs(
    ar: Arithmetic,
    own: Map<Seq<char>, u64>,
    children: Seq<Row>,
    columns: Seq<Column>,
)
    ensures
        gather(ar, gather(ar, own, children, columns), children, columns) == gather(
            ar,
            own,
            children,
            columns,
        ),
{
    let once = gather(ar, own, children, columns);
    let twice = gather(ar, once, children, columns);
    assert forall|id: Seq<char>| same_at(twice, once, id) by {
        if !summed_into(columns, id) {
            lemma_gather_untouched(ar, own, children, columns, id);
        }
        lemma_gather_agrees(ar, once, own, children, columns, id);
    }
    lemma_same_everywhere(twice, once);
}

/// A row that its parent has settled after its own pass comes out of another
/// pass as it came out of the first.
pub proof fn lemma_pass_after_settling(ar: Arithmetic, row: Row, columns: Seq<Column>)
    requires
        sources_settled(columns),
    ensures
        recomputed(ar, settled(ar, recomputed(ar, row, columns), columns), columns) == recomputed(
            ar,
            row,
            columns,
        ),
    decreases row,
{
    let once = recomputed(ar, row, columns);
    let handed = settled(ar, once, columns);
    if row.children.len() == 0 {
        lemma_settle_idempotent(ar, row.values, columns);
    } else {
        let below = recomputed_all(ar, row.children, columns);
        let again = recomputed_all(ar, handed.children, columns);
        assert forall|i: int| 0 <= i < below.len() implies again[i] == below[i] by {
            lemma_pass_after_settling(ar, row.children[i], columns);
        }
        assert(again =~= below);
        let sums = gather(ar, handed.values, below, columns);
        assert forall|id: Seq<char>| same_at(sums, once.values, id) by {
            if !summed_into(columns, id) {
                lemma_gather_untouched(ar, row.values, below, columns, id);
                assert(!scaled_into(columns, id)) by {
                    if scaled_into(columns, id) {
                        let k = choose|k: int|
                            0 <= k < columns.len() && is_scaled(#[trigger] columns[k])
                                && columns[k].id == id;
                        assert(is_summed(columns[k]));
                    }
                }
                lemma_settle_untouched(ar, once.values, columns, id);
            }
            lemma_gather_agrees(ar, handed.values, row.values, below, columns, id);
        }
        lemma_same_everywhere(sums, once.values);
    }
}

/// Two update passes in a row leave the tree as one pass does, for every schema
/// in which no scaled column reads itself or a scaled column that stands after
/// it.
pub proof fn lemma_update_idempotent(ar: Arithmetic, row: Row, columns: Seq<Column>)
    requires
        sources_settled(columns),
    ensures
        recomputed(ar, recomputed(ar, row, columns), columns) == recomputed(ar, row, columns),
{
    let once = recomputed(ar, row, columns);
    if row.children.len() == 0 {
        lemma_settle_idempotent(ar, row.values, columns);
    } else {
        let below = recomputed_all(ar, row.children, columns);
        let again = recomputed_all(ar, once.children, columns);
        assert forall|i: int| 0 <= i < below.len() implies again[i] == below[i] by {
            lemma_pass_after_settling(ar, row.children[i], columns);
        }
        assert(again =~= below);
        lemma_gather_absorbs(ar, row.values, below, columns);
    }
}

/// Below the top, a row of the tree after the pass is the row after its own
/// pass, settled once more by its parent.
pub proof fn lemma_row_after_update(ar: Arithmetic, row: Row, columns: Seq<Column>, path: Seq<int>)
    requires
        has_path(row, path),
        path.len() > 0,
    ensures
        has_path(recomputed(ar, row, columns), path),
        row_at(recomputed(ar, row, columns), path) == settled(
            ar,
            recomputed(ar, row_at(row, path), columns),
            columns,
        ),
    decreases path.len(),
{
    let child = row.children[path[0]];
    let rest = path.drop_first();
    let below = recomputed_all(ar, row.children, columns);
    let once = recomputed(ar, row, columns);
    let handed = settled(ar, recomputed(ar, child, columns), columns);
    assert(once.children[path[0]] == settled(ar, below[path[0]], columns));
    assert(once.children[path[0]] == handed);
    assert(row_at(row, path) == row_at(child, rest));
    assert(row_at(once, path) == row_at(handed, rest));
    assert(has_path(once, path) == has_path(handed, rest));
    if rest.len() > 0 {
        lemma_row_after_update(ar, child, columns, rest);
        let inner = recomputed(ar, child, columns);
        assert(handed.children == inner.children);
        assert(row_at(handed, rest) == row_at(inner, rest));
        assert(has_path(handed, rest) == has_path(inner, rest));
    } else {
        assert(row_at(handed, rest) == handed);
        assert(row_at(child, rest) == child);
    }
}

/// The pass keeps the shape of the tree: where a path led to a row, it leads to
/// a row with the same name, the same inclusion flag and as many children.
pub proof fn lemma_update_keeps_shape(ar: Arithmetic, row: Row, columns: Seq<Column>, path: Seq<int>)
    requires
        has_path(row, path),
    ensures
        has_path(recomputed(ar, row, columns), path),
        row_at(recomputed(ar, row, columns), path).name == row_at(row, path).name,
        row_at(recomputed(ar, row, columns), path).enabled == row_at(row, path).enabled,
        row_at(recomputed(ar, row, columns), path).children.len() == row_at(
            row,
            path,
        ).children.len(),
{
    if path.len() > 0 {
        lemma_row_after_update(ar, row, columns, path);
    }
}

/// The cells of a row of the tree after the pass, in a column that the pass
/// writes in no row: one that is neither a number column nor a scaled one.
pub proof fn lemma_update_keeps_unsummed(
    ar: Arithmetic,
    row: Row,
    columns: Seq<Column>,
    path: Seq<int>,
    id: Seq<char>,
)
    requires
        has_path(row, path),
        !summed_into(columns, id),
    ensures
        same_at(row_at(recomputed(ar, row, columns), path).values, row_at(row, path).values, id),
{
    let before = row_at(row, path);
    let once = recomputed(ar, before, columns);
    assert(!scaled_into(columns, id)) by {
        if scaled_into(columns, id) {
            let k = choose|k: int|
                0 <= k < columns.len() && is_scaled(#[trigger] columns[k]) && columns[k].id == id;
            assert(is_summed(columns[k]));
        }
    }
    if before.children.len() == 0 {
        lemma_settle_untouched(ar, before.values, columns, id);
    } else {
        lemma_gather_untouched(
            ar,
            before.values,
            recomputed_all(ar, before.children, columns),
            columns,
            id,
        );
    }
    if path.len() > 0 {
        lemma_row_after_update(ar, row, columns, path);
        lemma_settle_untouched(ar, once.values, columns, id);
    }
}

/// The cells of a leaf after the pass, in a column that no scaled column
/// writes.
pub proof fn lemma_update_keeps_unscaled_in_leaf(
    ar: Arithmetic,
    row: Row,
    columns: Seq<Column>,
    path: Seq<int>,
    id: Seq<char>,
)
    requires
        has_path(row, path),
        row_at(row, path).children.len() == 0,
        !scaled_into(columns, id),
    ensures
        same_at(row_at(recomputed(ar, row, columns), path).values, row_at(row, path).values, id),
{
    let before = row_at(row, path);
    let once = recomputed(ar, before, columns);
    lemma_settle_untouched(ar, before.values, columns, id);
    if path.len() > 0 {
        lemma_row_after_update(ar, row, columns, path);
        lemma_settle_untouched(ar, once.values, columns, id);
    }
}

/// In a schema with distinct identities, the identity of a column that is not
/// scaled is the identity of no scaled column.
pub proof fn lemma_unscaled_identity(columns: Seq<Column>, k: int)
    requires
        ids_distinct(columns),
        0 <= k < columns.len(),
        !is_scaled(columns[k]),
    ensures
        !scaled_into(columns, columns[k].id),
{
    if scaled_into(columns, columns[k].id) {
        let j = choose|j: int|
            0 <= j < columns.len() && is_scaled(#[trigger] columns[j]) && columns[j].id
                == columns[k].id;
        if j < k {
            assert(columns[j].id != columns[k].id);
        } else {
            assert(columns[k].id != columns[j].id);
        }
    }
}

/// In a schema with distinct identities, the identity of a text column is the
/// identity of no number column and of no scaled column.
pub proof fn lemma_unsummed_identity(columns: Seq<Column>, k: int)
    requires
        ids_distinct(columns),
        0 <= k < columns.len(),
        !is_summed(columns[k]),
    ensures
        !summed_into(columns, columns[k].id),
{
    if summed_into(columns, columns[k].id) {
        let j = choose|j: int|
            0 <= j < columns.len() && is_summed(#[trigger] columns[j]) && columns[j].id
                == columns[k].id;
        if j < k {
            assert(columns[j].id != columns[k].id);
        } else {
            assert(columns[k].id != columns[j].id);
        }
    }
}

/// The pass never changes what a leaf holds in a number column: the cell stays
/// as it is, and a missing cell stays missing. This holds for every schema in
/// which no scaled column bears the identity of the number column, so for every
/// schema with distinct identities.
pub proof fn lemma_update_keeps_leaf_numbers(
    ar: Arithmetic,
    row: Row,
    columns: Seq<Column>,
    path: Seq<int>,
    k: int,
)
    requires
        0 <= k < columns.len(),
        columns[k].formula is Number,
        !scaled_into(columns, columns[k].id),
        has_path(row, path),
        row_at(row, path).children.len() == 0,
    ensures
        same_at(
            row_at(recomputed(ar, row, columns), path).values,
            row_at(row, path).values,
            columns[k].id,
        ),
{
    lemma_update_keeps_unscaled_in_leaf(ar, row, columns, path, columns[k].id);
}

/// The pass never writes a text column: in every row the cell stays as it is,
/// and a missing cell stays missing. This holds for every schema in which no
/// number column and no scaled column bears the identity of the text column,
/// so for every schema with distinct identities.
pub proof fn lemma_update_keeps_text(
    ar: Arithmetic,
    row: Row,
    columns: Seq<Column>,
    path: Seq<int>,
    k: int,
)
    requires
        0 <= k < columns.len(),
        columns[k].formula is Text,
        !summed_into(columns, columns[k].id),
        has_path(row, path),
    ensures
        same_at(
            row_at(recomputed(ar, row, columns), path).values,
            row_at(row, path).values,
            columns[k].id,
        ),
{
    lemma_update_keeps_unsummed(ar, row, columns, path, columns[k].id);
}

/// Settling the columns after `k` leaves alone every column that none of them
/// writes.
pub proof fn lemma_settle_rest_untouched(
    ar: Arithmetic,
    values: Map<Seq<char>, u64>,
    columns: Seq<Column>,
    k: int,
    id: Seq<char>,
)
    requires
        0 <= k < columns.len(),
        forall|j: int| k < j < columns.len() && is_scaled(#[trigger] columns[j]) ==> columns[j].id != id,
    ensures
        same_at(settle(ar, values, columns), settle(ar, values, columns.take(k + 1)), id),
    decreases columns.len(),
{
    if k + 1 == columns.len() {
        assert(columns.take(k + 1) =~= columns);
    } else {
        let front = columns.drop_last();
        assert(front.take(k + 1) =~= columns.take(k + 1));
        assert forall|j: int| k < j < front.len() && is_scaled(#[trigger] front[j]) implies front[j].id
            != id by {
            assert(is_scaled(columns[j]));
        }
        lemma_settle_rest_untouched(ar, values, front, k, id);
        assert(is_scaled(columns[columns.len() - 1]) ==> columns[columns.len() - 1].id != id);
    }
}

/// In a settled row, a scaled column holds the factor times what its source
/// column reads as.
pub proof fn lemma_settle_scales(
    ar: Arithmetic,
    values: Map<Seq<char>, u64>,
    columns: Seq<Column>,
    k: int,
)
    requires
        ids_distinct(columns),
        sources_settled(columns),
        0 <= k < columns.len(),
        is_scaled(columns[k]),
    ensures
        settle(ar, values, columns).contains_key(columns[k].id),
        settle(ar, values, columns)[columns[k].id] == (ar.times)(
            factor_of(columns[k]),
            read(settle(ar, values, columns), source_of(columns[k])),
        ),
{
    let id = columns[k].id;
    let source = source_of(columns[k]);
    let upto = columns.take(k + 1);
    assert(upto.drop_last() =~= columns.take(k));
    assert(upto.last() == columns[k]);
    assert(source != id);
    assert forall|j: int| k < j < columns.len() && is_scaled(#[trigger] columns[j]) implies columns[j].id
        != id by {}
    assert forall|j: int| k < j < columns.len() && is_scaled(#[trigger] columns[j]) implies columns[j].id
        != source by {}
    lemma_settle_rest_untouched(ar, values, columns, k, id);
    lemma_settle_rest_untouched(ar, values, columns, k, source);
}

/// The sum of a column depends on the rows only through their inclusion flags
/// and what the enabled rows read as in that column: what a disabled row holds
/// does not enter.
pub proof fn lemma_total_agrees(ar: Arithmetic, a: Seq<Row>, b: Seq<Row>, id: Seq<char>)
    requires
        a.len() == b.len(),
        forall|i: int|
            0 <= i < a.len() ==> (#[trigger] a[i]).enabled == b[i].enabled && (a[i].enabled ==> read(
                a[i].values,
                id,
            ) == read(b[i].values, id)),
    ensures
        total(ar, a, id) == total(ar, b, id),
    decreases a.len(),
{
    if a.len() > 0 {
        assert forall|i: int| 0 <= i < a.drop_last().len() implies (#[trigger] a.drop_last()[i]).enabled
            == b.drop_last()[i].enabled && (a.drop_last()[i].enabled ==> read(
            a.drop_last()[i].values,
            id,
        ) == read(b.drop_last()[i].values, id)) by {
            assert(a[i].enabled == b[i].enabled);
        }
        lemma_total_agrees(ar, a.drop_last(), b.drop_last(), id);
        assert(a[a.len() - 1].enabled == b[a.len() - 1].enabled);
    }
}

/// What a row with children holds after the pass in a number column or a
/// scaled column: the sum of that column over its enabled children, as the
/// children stand after the pass.
pub proof fn lemma_gather_sums(
    ar: Arithmetic,
    own: Map<Seq<char>, u64>,
    children: Seq<Row>,
    columns: Seq<Column>,
    k: int,
)
    requires
        ids_distinct(columns),
        0 <= k < columns.len(),
        is_summed(columns[k]),
    ensures
        gather(ar, own, children, columns).contains_key(columns[k].id),
        gather(ar, own, children, columns)[columns[k].id] == total(
            ar,
            settle_all(ar, children, columns),
            columns[k].id,
        ),
    decreases columns.len(),
{
    let id = columns[k].id;
    let done = settle_all(ar, children, columns);
    if k + 1 == columns.len() {
    } else {
        let front = columns.drop_last();
        assert(ids_distinct(front)) by {
            assert forall|i: int, j: int| 0 <= i < j < front.len() implies front[i].id
                != front[j].id by {
                assert(columns[i].id != columns[j].id);
            }
        }
        lemma_gather_sums(ar, own, children, front, k);
        assert(columns[k].id != columns[columns.len() - 1].id);
        let early = settle_all(ar, children, front);
        assert forall|i: int| 0 <= i < early.len() implies (#[trigger] early[i]).enabled
            == done[i].enabled && read(early[i].values, id) == read(done[i].values, id) by {
            assert(is_scaled(columns[columns.len() - 1]) ==> columns[columns.len() - 1].id != id);
        }
        lemma_total_agrees(ar, early, done, id);
    }
}

/// The sum of the factor times the source column over the enabled rows, added
/// up from zero in row order.
pub open spec fn scaled_total(ar: Arithmetic, rows: Seq<Row>, factor: u64, source: Seq<char>) -> u64
    decreases rows.len(),
{
    if rows.len() == 0 {
        0
    } else if rows.last().enabled {
        (ar.plus)(
            scaled_total(ar, rows.drop_last(), factor, source),
            (ar.times)(factor, read(rows.last().values, source)),
        )
    } else {
        scaled_total(ar, rows.drop_last(), factor, source)
    }
}

/// Where every row holds, in one column, the factor times its source column,
/// the sum of that column is the sum of the products.
pub proof fn lemma_total_of_scaled(
    ar: Arithmetic,
    rows: Seq<Row>,
    id: Seq<char>,
    factor: u64,
    source: Seq<char>,
)
    requires
        forall|i: int|
            0 <= i < rows.len() ==> read((#[trigger] rows[i]).values, id) == (ar.times)(
                factor,
                read(rows[i].values, source),
            ),
    ensures
        total(ar, rows, id) == scaled_total(ar, rows, factor, source),
    decreases rows.len(),
{
    if rows.len() > 0 {
        let front = rows.drop_last();
        assert forall|i: int| 0 <= i < front.len() implies read((#[trigger] front[i]).values, id) == (
        ar.times)(factor, read(front[i].values, source)) by {
            assert(front[i] == rows[i]);
        }
        lemma_total_of_scaled(ar, front, id, factor, source);
        assert(rows.last() == rows[rows.len() - 1]);
    }
}

/// What a row with children holds after the pass under an identity that some
/// number column bears and no scaled column: the sum of that column over its
/// enabled children, as the children stand after the pass.
pub proof fn lemma_gather_sums_unscaled(
    ar: Arithmetic,
    own: Map<Seq<char>, u64>,
    children: Seq<Row>,
    columns: Seq<Column>,
    id: Seq<char>,
)
    requires
        summed_into(columns, id),
        !scaled_into(columns, id),
    ensures
        gather(ar, own, children, columns).contains_key(id),
        gather(ar, own, children, columns)[id] == total(
            ar,
            settle_all(ar, children, columns),
            id,
        ),
    decreases columns.len(),
{
    let n = columns.len() - 1;
    let last = columns.last();
    let front = columns.drop_last();
    let done = settle_all(ar, children, columns);
    if is_summed(last) && last.id == id {
    } else {
        let k = choose|k: int|
            0 <= k < columns.len() && is_summed(#[trigger] columns[k]) && columns[k].id == id;
        assert(is_summed(front[k]) && front[k].id == id);
        assert(!scaled_into(front, id)) by {
            if scaled_into(front, id) {
                let j = choose|j: int|
                    0 <= j < front.len() && is_scaled(#[trigger] front[j]) && front[j].id == id;
                assert(is_scaled(columns[j]) && columns[j].id == id);
            }
        }
        lemma_gather_sums_unscaled(ar, own, children, front, id);
        let early = settle_all(ar, children, front);
        assert forall|i: int| 0 <= i < early.len() implies (#[trigger] early[i]).enabled
            == done[i].enabled && (early[i].enabled ==> read(early[i].values, id) == read(
            done[i].values,
            id,
        )) by {
            assert(is_scaled(columns[n]) ==> columns[n].id != id);
        }
        lemma_total_agrees(ar, early, done, id);
    }
}

/// After the pass, every row with children holds in each number column the sum
/// of that column over its enabled children, added up from zero in their
/// order. What the disabled children hold does not enter. This holds for every
/// schema in which no scaled column bears the identity of the number column,
/// so for every schema with distinct identities.
pub proof fn lemma_update_sums_numbers(
    ar: Arithmetic,
    row: Row,
    columns: Seq<Column>,
    path: Seq<int>,
    k: int,
)
    requires
        0 <= k < columns.len(),
        columns[k].formula is Number,
        !scaled_into(columns, columns[k].id),
        has_path(row, path),
        row_at(row, path).children.len() > 0,
    ensures
        row_at(recomputed(ar, row, columns), path).values.contains_key(columns[k].id),
        row_at(recomputed(ar, row, columns), path).values[columns[k].id] == total(
            ar,
            row_at(recomputed(ar, row, columns), path).children,
            columns[k].id,
        ),
{
    let before = row_at(row, path);
    let once = recomputed(ar, before, columns);
    assert(is_summed(columns[k]));
    lemma_gather_sums_unscaled(
        ar,
        before.values,
        recomputed_all(ar, before.children, columns),
        columns,
        columns[k].id,
    );
    if path.len() > 0 {
        lemma_row_after_update(ar, row, columns, path);
        lemma_settle_untouched(ar, once.values, columns, columns[k].id);
    }
}

/// After the pass, every leaf, and every row below the top, holds in each
/// scaled column the factor times what its source column reads as in the same
/// row.
pub proof fn lemma_update_scales(
    ar: Arithmetic,
    row: Row,
    columns: Seq<Column>,
    path: Seq<int>,
    k: int,
)
    requires
        ids_distinct(columns),
        sources_settled(columns),
        0 <= k < columns.len(),
        is_scaled(columns[k]),
        has_path(row, path),
        path.len() > 0 || row.children.len() == 0,
    ensures
        row_at(recomputed(ar, row, columns), path).values.contains_key(columns[k].id),
        row_at(recomputed(ar, row, columns), path).values[columns[k].id] == (ar.times)(
            factor_of(columns[k]),
            read(row_at(recomputed(ar, row, columns), path).values, source_of(columns[k])),
        ),
{
    if path.len() > 0 {
        lemma_row_after_update(ar, row, columns, path);
        lemma_settle_scales(ar, recomputed(ar, row_at(row, path), columns).values, columns, k);
    } else {
        lemma_settle_scales(ar, row.values, columns, k);
    }
}

/// After the pass, a top row with children holds in each scaled column the sum,
/// over its enabled children, of the factor times the child's source column;
/// and each child, enabled or not, holds that product in the scaled column.
pub proof fn lemma_update_sums_scaled(ar: Arithmetic, row: Row, columns: Seq<Column>, k: int)
    requires
        ids_distinct(columns),
        sources_settled(columns),
        0 <= k < columns.len(),
        is_scaled(columns[k]),
        row.children.len() > 0,
    ensures
        recomputed(ar, row, columns).values.contains_key(columns[k].id),
        recomputed(ar, row, columns).values[columns[k].id] == scaled_total(
            ar,
            recomputed(ar, row, columns).children,
            factor_of(columns[k]),
            source_of(columns[k]),
        ),
        forall|i: int|
            0 <= i < row.children.len() ==> read(
                (#[trigger] recomputed(ar, row, columns).children[i]).values,
                columns[k].id,
            ) == (ar.times)(
                factor_of(columns[k]),
                read(recomputed(ar, row, columns).children[i].values, source_of(columns[k])),
            ),
{
    let once = recomputed(ar, row, columns);
    let below = recomputed_all(ar, row.children, columns);
    lemma_gather_sums(ar, row.values, below, columns, k);
    assert forall|i: int| 0 <= i < once.children.len() implies read(
        (#[trigger] once.children[i]).values,
        columns[k].id,
    ) == (ar.times)(factor_of(columns[k]), read(once.children[i].values, source_of(columns[k]))) by {
        lemma_settle_scales(ar, below[i].values, columns, k);
    }
    lemma_total_of_scaled(
        ar,
        once.children,
        columns[k].id,
        factor_of(columns[k]),
        source_of(columns[k]),
    );
}

/// A first child starts, in every number column and every scaled column, with
/// what its parent reads as there.
pub proof fn lemma_seeded_reads_parent(
    parent: Map<Seq<char>, u64>,
    columns: Seq<Column>,
    first: bool,
    id: Seq<char>,
)
    ensures
        summed_into(columns, id) ==> seeded(parent, columns, first).contains_key(id) && seeded(
            parent,
            columns,
            first,
        )[id] == (if first {
            read(parent, id)
        } else {
            0
        }),
        !summed_into(columns, id) ==> !seeded(parent, columns, first).contains_key(id),
    decreases columns.len(),
{
    if columns.len() > 0 {
        let front = columns.drop_last();
        let last = columns.last();
        lemma_seeded_reads_parent(parent, front, first, id);
        if summed_into(front, id) {
            let k = choose|k: int|
                0 <= k < front.len() && is_summed(#[trigger] front[k]) && front[k].id == id;
            assert(is_summed(columns[k]) && columns[k].id == id);
        }
        if is_summed(last) && last.id == id {
            assert(is_summed(columns[columns.len() - 1]));
        }
        if summed_into(columns, id) && !(is_summed(last) && last.id == id) {
            let k = choose|k: int|
                0 <= k < columns.len() && is_summed(#[trigger] columns[k]) && columns[k].id == id;
            assert(is_summed(front[k]) && front[k].id == id);
        }
    }
}

/// A leaf that gets its first child keeps what it shows in a number column:
/// after the next pass it holds there what it held as a leaf, wherever adding
/// that number to zero gives the number itself.
pub proof fn lemma_first_child_keeps_number(ar: Arithmetic, row: Row, columns: Seq<Column>, k: int)
    requires
        ids_distinct(columns),
        0 <= k < columns.len(),
        columns[k].formula is Number,
        row.children.len() == 0,
        (ar.plus)(0, read(row.values, columns[k].id)) == read(row.values, columns[k].id),
    ensures
        read(
            recomputed(
                ar,
                Row {
                    name: row.name,
                    enabled: row.enabled,
                    values: row.values,
                    children: seq![
                        Row {
                            name: Seq::empty(),
                            enabled: true,
                            values: seeded(row.values, columns, true),
                            children: Seq::empty(),
                        },
                    ],
                },
                columns,
            ).values,
            columns[k].id,
        ) == read(row.values, columns[k].id),
{
    let id = columns[k].id;
    let child = Row {
        name: Seq::empty(),
        enabled: true,
        values: seeded(row.values, columns, true),
        children: Seq::empty(),
    };
    let grown = Row {
        name: row.name,
        enabled: row.enabled,
        values: row.values,
        children: seq![child],
    };
    let once = recomputed(ar, grown, columns);
    let below = recomputed_all(ar, grown.children, columns);
    lemma_gather_sums(ar, grown.values, below, columns, k);
    lemma_unscaled_identity(columns, k);
    assert(is_summed(columns[k]));
    lemma_seeded_reads_parent(row.values, columns, true, id);
    lemma_settle_untouched(ar, child.values, columns, id);
    lemma_settle_untouched(ar, below[0].values, columns, id);
    let done = settle_all(ar, below, columns);
    assert(done.len() == 1);
    assert(done.drop_last().len() == 0);
    assert(done.last() == done[0]);
    assert(read(done[0].values, id) == read(row.values, id));
    assert(total(ar, done.drop_last(), id) == 0);
}

/// Once a column is out of the schema, the cells that rows hold under its
/// identity are left alone by every pass.
pub proof fn lemma_removed_column_is_inert(
    ar: Arithmetic,
    row: Row,
    columns: Seq<Column>,
    path: Seq<int>,
    k: int,
)
    requires
        ids_distinct(columns),
        0 <= k < columns.len(),
        has_path(row, path),
    ensures
        same_at(
            row_at(recomputed(ar, row, columns.remove(k)), path).values,
            row_at(row, path).values,
            columns[k].id,
        ),
{
    let rest = columns.remove(k);
    let id = columns[k].id;
    if summed_into(rest, id) {
        let j = choose|j: int| 0 <= j < rest.len() && is_summed(#[trigger] rest[j]) && rest[j].id == id;
        if j < k {
            assert(rest[j] == columns[j]);
            assert(columns[j].id != columns[k].id);
        } else {
            assert(rest[j] == columns[j + 1]);
            assert(columns[k].id != columns[j + 1].id);
        }
    }
    lemma_update_keeps_unsummed(ar, row, rest, path, id);
}

/// An arithmetic whose product tells a source that reads as zero from any
/// other: it serves to show when a second pass changes the tree.
pub open spec fn telling() -> Arithmetic {
    Arithmetic {
        plus: |a: u64, b: u64| a,
        times: |factor: u64, source: u64|
            if source == 0 {
                1u64
            } else {
                2u64
            },
    }
}

/// A leaf without a name and without cells.
pub open spec fn blank() -> Row {
    Row { name: Seq::empty(), enabled: true, values: Map::empty(), children: Seq::empty() }
}

/// What a settled row holds in a scaled column of a schema with distinct
/// identities: the factor times what the source read as when the column's turn
/// came.
pub proof fn lemma_settle_writes(
    ar: Arithmetic,
    values: Map<Seq<char>, u64>,
    columns: Seq<Column>,
    k: int,
)
    requires
        ids_distinct(columns),
        0 <= k < columns.len(),
        is_scaled(columns[k]),
    ensures
        settle(ar, values, columns).contains_key(columns[k].id),
        settle(ar, values, columns)[columns[k].id] == (ar.times)(
            factor_of(columns[k]),
            read(settle(ar, values, columns.take(k)), source_of(columns[k])),
        ),
{
    let upto = columns.take(k + 1);
    assert(upto.drop_last() =~= columns.take(k));
    assert(upto.last() == columns[k]);
    assert forall|j: int| k < j < columns.len() && is_scaled(#[trigger] columns[j]) implies columns[j].id
        != columns[k].id by {}
    lemma_settle_rest_untouched(ar, values, columns, k, columns[k].id);
}

/// The condition of [`lemma_update_idempotent`] cannot be dropped: in a schema
/// with distinct identities where some scaled column reads itself or a scaled
/// column that stands after it, there are a tree and an arithmetic for which a
/// second pass changes what the first has left.
pub proof fn lemma_unsettled_sources_show(columns: Seq<Column>)
    requires
        ids_distinct(columns),
        !sources_settled(columns),
    ensures
        recomputed(telling(), recomputed(telling(), blank(), columns), columns) != recomputed(
            telling(),
            blank(),
            columns,
        ),
{
    let ar = telling();
    let (i, j) = choose|i: int, j: int|
        0 <= i <= j < columns.len() && is_scaled(#[trigger] columns[i]) && is_scaled(
            #[trigger] columns[j],
        ) && columns[j].id == source_of(columns[i]);
    let source = columns[j].id;
    let empty = Map::<Seq<char>, u64>::empty();
    let once = settle(ar, empty, columns);
    let twice = settle(ar, once, columns);
    let early = columns.take(i);
    assert(!scaled_into(early, source)) by {
        if scaled_into(early, source) {
            let k = choose|k: int|
                0 <= k < early.len() && is_scaled(#[trigger] early[k]) && early[k].id == source;
            assert(early[k] == columns[k]);
            if k < j {
                assert(columns[k].id != columns[j].id);
            }
        }
    }
    lemma_settle_untouched(ar, empty, early, source);
    lemma_settle_untouched(ar, once, early, source);
    lemma_settle_writes(ar, empty, columns, i);
    lemma_settle_writes(ar, empty, columns, j);
    lemma_settle_writes(ar, once, columns, i);
    assert(once[columns[i].id] == 1);
    assert(once[source] != 0);
    assert(twice[columns[i].id] == 2);
}

} // verus!
