//! The cells of one row: a finite map from column identity to a number.
//!
//! A number is an IEEE 754 double, carried by its 64-bit pattern. A column that
//! has no cell reads as positive zero, whose pattern is all zeros.
//!
//! The cells stand in a list in which no column occurs twice. With a `HashMap`
//! or a `BTreeMap` keyed by `String`, Verus accepts the calls and proves
//! nothing of them, not even that `get` finds what `insert` has put: vstd has
//! no model of how a `String` is hashed or ordered.

use vstd::prelude::*;

verus! {

/// The map that a list of cells stands for. A later cell wins over an earlier
/// one with the same column; [`Values`] never holds two.
pub open spec fn cells_map(cells: Seq<(String, u64)>) -> Map<Seq<char>, u64>
    decreases cells.len(),
{
    if cells.len() == 0 {
        Map::empty()
    } else {
        cells_map(cells.drop_last()).insert(cells.last().0@, cells.last().1)
    }
}

/// No column has two cells.
pub open spec fn columns_distinct(cells: Seq<(String, u64)>) -> bool {
    forall|i: int, j: int| 0 <= i < j < cells.len() ==> cells[i].0@ != cells[j].0@
}

/// What a row's map gives for a column: the cell, or zero where there is none.
pub open spec fn read(values: Map<Seq<char>, u64>, column: Seq<char>) -> u64 {
    if values.contains_key(column) {
        values[column]
    } else {
        0
    }
}

/// A column is in the map exactly if some cell names it.
pub proof fn lemma_cells_map_domain(cells: Seq<(String, u64)>, column: Seq<char>)
    ensures
        cells_map(cells).contains_key(column) <==> exists|i: int|
            0 <= i < cells.len() && #[trigger] cells[i].0@ == column,
    decreases cells.len(),
{
    if cells.len() > 0 {
        let front = cells.drop_last();
        lemma_cells_map_domain(front, column);
        if cells_map(cells).contains_key(column) {
            if cells.last().0@ == column {
                assert(cells[cells.len() - 1].0@ == column);
            } else {
                let i = choose|i: int| 0 <= i < front.len() && #[trigger] front[i].0@ == column;
                assert(cells[i].0@ == column);
            }
        }
        if exists|i: int| 0 <= i < cells.len() && #[trigger] cells[i].0@ == column {
            let i = choose|i: int| 0 <= i < cells.len() && #[trigger] cells[i].0@ == column;
            if i < cells.len() - 1 {
                assert(front[i].0@ == column);
            }
        }
    }
}

/// With distinct columns, each cell is what the map holds for its column.
pub proof fn lemma_cells_map_index(cells: Seq<(String, u64)>, i: int)
    requires
        columns_distinct(cells),
        0 <= i < cells.len(),
    ensures
        cells_map(cells).contains_key(cells[i].0@),
        cells_map(cells)[cells[i].0@] == cells[i].1,
    decreases cells.len(),
{
    let front = cells.drop_last();
    if i < cells.len() - 1 {
        assert(columns_distinct(front)) by {
            assert forall|a: int, b: int| 0 <= a < b < front.len() implies front[a].0@
                != front[b].0@ by {
                assert(cells[a].0@ != cells[b].0@);
            }
        }
        lemma_cells_map_index(front, i);
        assert(front[i] == cells[i]);
        assert(cells[i].0@ != cells[cells.len() - 1].0@);
    }
}

/// Replacing the value of the cell at `i` is an insert into the map.
pub proof fn lemma_cells_map_update(cells: Seq<(String, u64)>, i: int, cell: (String, u64))
    requires
        columns_distinct(cells),
        0 <= i < cells.len(),
        cell.0@ == cells[i].0@,
    ensures
        columns_distinct(cells.update(i, cell)),
        cells_map(cells.update(i, cell)) == cells_map(cells).insert(cell.0@, cell.1),
    decreases cells.len(),
{
    let after = cells.update(i, cell);
    assert(columns_distinct(after)) by {
        assert forall|a: int, b: int| 0 <= a < b < after.len() implies after[a].0@
            != after[b].0@ by {
            assert(cells[a].0@ != cells[b].0@);
        }
    }
    let front = cells.drop_last();
    if i == cells.len() - 1 {
        assert(after.drop_last() =~= front);
        assert(cells_map(after) =~= cells_map(cells).insert(cell.0@, cell.1));
    } else {
        assert(columns_distinct(front)) by {
            assert forall|a: int, b: int| 0 <= a < b < front.len() implies front[a].0@
                != front[b].0@ by {
                assert(cells[a].0@ != cells[b].0@);
            }
        }
        lemma_cells_map_update(front, i, cell);
        assert(after.drop_last() =~= front.update(i, cell));
        assert(after.last() == cells.last());
        assert(cells[i].0@ != cells[cells.len() - 1].0@);
        assert(cells_map(after) =~= cells_map(cells).insert(cell.0@, cell.1));
    }
}

/// What one cell may hold where cells are not numbers alone: a number in
/// single precision, carried by its bit pattern, or a text.
#[derive(Debug, PartialEq)]
pub enum DataElement {
    Number(u32),
    String(String),
}

/// The cells of one row.
#[derive(Debug)]
pub struct Values {
    cells: Vec<(String, u64)>,
}

impl View for Values {
    type V = Map<Seq<char>, u64>;

    closed spec fn view(&self) -> Map<Seq<char>, u64> {
        cells_map(self.cells@)
    }
}

impl Values {
    #[verifier::type_invariant]
    spec fn distinct(&self) -> bool {
        columns_distinct(self.cells@)
    }

    /// A row without cells.
    pub fn new() -> (values: Values)
        ensures
            values@ == Map::<Seq<char>, u64>::empty(),
    {
        Values { cells: Vec::new() }
    }

    /// The number of cells.
    pub fn len(&self) -> (n: usize)
        ensures
            n == self@.len(),
            self@.dom().finite(),
    {
        proof {
            use_type_invariant(self);
            lemma_cells_map_len(self.cells@);
        }
        self.cells.len()
    }

    /// Where the cell of `column` stands, if there is one.
    fn position(&self, column: &String) -> (at: Option<usize>)
        ensures
            match at {
                Some(i) => i < self.cells@.len() && self.cells@[i as int].0@ == column@,
                None => !self@.contains_key(column@),
            },
    {
        let mut i: usize = 0;
        while i < self.cells.len()
            invariant
                i <= self.cells@.len(),
                forall|j: int| 0 <= j < i ==> self.cells@[j].0@ != column@,
            decreases self.cells@.len() - i,
        {
            if self.cells[i].0 == *column {
                return Some(i);
            }
            i += 1;
        }
        proof {
            lemma_cells_map_domain(self.cells@, column@);
        }
        None
    }

    /// The cell of `column`, if the row has one.
    pub fn get(&self, column: &str) -> (cell: Option<u64>)
        ensures
            cell == (if self@.contains_key(column@) {
                Some(self@[column@])
            } else {
                None
            }),
    {
        let key = column.to_owned();
        match self.position(&key) {
            Some(i) => {
                proof {
                    use_type_invariant(self);
                    lemma_cells_map_index(self.cells@, i as int);
                }
                Some(self.cells[i].1)
            },
            None => None,
        }
    }

    /// Whether the row has a cell for `column`.
    pub fn contains(&self, column: &str) -> (found: bool)
        ensures
            found == self@.contains_key(column@),
    {
        self.get(column).is_some()
    }

    /// The number that `column` reads as: its cell, or zero where the row has
    /// none. Reading leaves the row as it is.
    pub fn value(&self, column: &str) -> (number: u64)
        ensures
            number == read(self@, column@),
    {
        match self.get(column) {
            Some(number) => number,
            None => 0,
        }
    }

    /// Writes the cell of `column`, replacing the one that was there.
    pub fn insert(&mut self, column: &str, number: u64)
        ensures
            final(self)@ == old(self)@.insert(column@, number),
    {
        let key = column.to_owned();
        let at = self.position(&key);
        let mut taken = Values::new();
        core::mem::swap(self, &mut taken);
        proof {
            use_type_invariant(&taken);
        }
        let mut cells = taken.cells;
        match at {
            Some(i) => {
                proof {
                    lemma_cells_map_update(cells@, i as int, (key, number));
                }
                cells.set(i, (key, number));
            },
            None => {
                proof {
                    lemma_cells_map_domain(cells@, key@);
                    assert(cells@.push((key, number)).drop_last() =~= cells@);
                }
                cells.push((key, number));
            },
        }
        *self = Values { cells };
    }

    /// The cells as a list, each column once.
    pub fn entries(&self) -> (cells: Vec<(String, u64)>)
        ensures
            columns_distinct(cells@),
            cells_map(cells@) == self@,
    {
        proof {
            use_type_invariant(self);
        }
        let mut cells: Vec<(String, u64)> = Vec::new();
        let mut i: usize = 0;
        while i < self.cells.len()
            invariant
                i <= self.cells@.len(),
                cells@ == self.cells@.take(i as int),
            decreases self.cells@.len() - i,
        {
            cells.push((self.cells[i].0.clone(), self.cells[i].1));
            proof {
                assert(cells@ =~= self.cells@.take(i + 1));
            }
            i += 1;
        }
        proof {
            assert(self.cells@.take(i as int) =~= self.cells@);
        }
        cells
    }
}

impl Clone for Values {
    /// A row's cells once more.
    fn clone(&self) -> (copy: Values)
        ensures
            copy@ == self@,
    {
        Values { cells: self.entries() }
    }
}

/// With distinct columns the map has as many entries as there are cells.
pub proof fn lemma_cells_map_len(cells: Seq<(String, u64)>)
    requires
        columns_distinct(cells),
    ensures
        cells_map(cells).dom().finite(),
        cells_map(cells).len() == cells.len(),
    decreases cells.len(),
{
    if cells.len() > 0 {
        let front = cells.drop_last();
        assert(columns_distinct(front)) by {
            assert forall|a: int, b: int| 0 <= a < b < front.len() implies front[a].0@
                != front[b].0@ by {
                assert(cells[a].0@ != cells[b].0@);
            }
        }
        lemma_cells_map_len(front);
        lemma_cells_map_domain(front, cells.last().0@);
        if cells_map(front).contains_key(cells.last().0@) {
            let i = choose|i: int| 0 <= i < front.len() && #[trigger] front[i].0@ == cells.last().0@;
            assert(cells[i].0@ != cells[cells.len() - 1].0@);
        }
    }
}

} // verus!
