//! How a document is written as a tree of values and read back.
//!
//! Every part is an object with named members. On reading, a member that is
//! missing takes its default, a member that the format does not know is passed
//! over, and a member of the wrong kind makes the whole value unreadable.

use crate::column::{columns_of, texts, Column, ColumnConfig, ColumnType, Formula};
use crate::document::{Table, TreeTable};
use crate::json::{items_of, lemma_items_view, lemma_members_view, members_of, Json, JsonValue};
use crate::row::{lemma_row_view, rows_of, Row, RowData};
use crate::values::{cells_map, columns_distinct, Values};
use vstd::prelude::*;

verus! {

/// The place of the first member with the given name; the number of members
/// where there is none.
pub open spec fn position(members: Seq<(Seq<char>, Json)>, name: Seq<char>) -> int
    decreases members.len(),
{
    if members.len() == 0 {
        0
    } else if members[0].0 == name {
        0
    } else {
        1 + position(members.drop_first(), name)
    }
}

/// The first member with the given name.
pub open spec fn member(members: Seq<(Seq<char>, Json)>, name: Seq<char>) -> Option<Json> {
    let at = position(members, name);
    if 0 <= at < members.len() {
        Some(members[at].1)
    } else {
        None
    }
}

/// A text member: empty where it is missing.
pub open spec fn read_text(found: Option<Json>) -> Option<Seq<char>> {
    match found {
        None => Some(Seq::empty()),
        Some(Json::Text(text)) => Some(text),
        Some(_) => None,
    }
}

/// The inclusion flag: set where it is missing.
pub open spec fn read_flag(found: Option<Json>) -> Option<bool> {
    match found {
        None => Some(true),
        Some(Json::Bool(flag)) => Some(flag),
        Some(_) => None,
    }
}

/// The cells that the members of an object stand for: each member a number,
/// a later one winning over an earlier one with the same name.
pub open spec fn cells_of(members: Seq<(Seq<char>, Json)>) -> Option<Map<Seq<char>, u64>>
    decreases members.len(),
{
    if members.len() == 0 {
        Some(Map::empty())
    } else {
        match (cells_of(members.drop_last()), members.last().1) {
            (Some(cells), Json::Number(bits)) => Some(cells.insert(members.last().0, bits)),
            _ => None,
        }
    }
}

/// The cells of a row: none where the member is missing.
pub open spec fn read_cells(found: Option<Json>) -> Option<Map<Seq<char>, u64>> {
    match found {
        None => Some(Map::empty()),
        Some(Json::Object(members)) => cells_of(members),
        Some(_) => None,
    }
}

/// The texts of an array of texts.
pub open spec fn names_of(items: Seq<Json>) -> Option<Seq<Seq<char>>> {
    if forall|i: int| 0 <= i < items.len() ==> #[trigger] items[i] is Text {
        Some(Seq::new(items.len(), |i: int| items[i]->Text_0))
    } else {
        None
    }
}

/// The formula that a tag with a body stands for.
pub open spec fn read_tagged(tag: Seq<char>, body: Json) -> Option<Formula> {
    match body {
        Json::Array(items) => {
            if tag == "MultiplyByFactor"@ {
                if items.len() == 2 && items[0] is Text && items[1] is Number {
                    Some(Formula::MultiplyByFactor(items[0]->Text_0, items[1]->Number_0))
                } else {
                    None
                }
            } else if tag == "RowSum"@ {
                match names_of(items) {
                    Some(names) => Some(Formula::RowSum(names)),
                    None => None,
                }
            } else {
                None
            }
        },
        _ => None,
    }
}

/// The formula of a column: a number column where the member is missing.
pub open spec fn read_formula(found: Option<Json>) -> Option<Formula> {
    match found {
        None => Some(Formula::Number),
        Some(Json::Text(tag)) => {
            if tag == "Number"@ {
                Some(Formula::Number)
            } else if tag == "Text"@ {
                Some(Formula::Text)
            } else {
                None
            }
        },
        Some(Json::Object(members)) => {
            if members.len() == 1 {
                read_tagged(members[0].0, members[0].1)
            } else {
                None
            }
        },
        Some(_) => None,
    }
}

/// The column that a value stands for.
pub open spec fn read_column(json: Json) -> Option<Column> {
    match json {
        Json::Object(members) => {
            match (
                read_text(member(members, "id"@)),
                read_text(member(members, "caption"@)),
                read_text(member(members, "unit"@)),
                read_formula(member(members, "col_type"@)),
            ) {
                (Some(id), Some(caption), Some(unit), Some(formula)) => Some(
                    Column { id, caption, unit, formula },
                ),
                _ => None,
            }
        },
        _ => None,
    }
}

/// The schema that an array stands for.
pub open spec fn columns_in(items: Seq<Json>) -> Option<Seq<Column>> {
    if forall|i: int| 0 <= i < items.len() ==> read_column(#[trigger] items[i]) is Some {
        Some(Seq::new(items.len(), |i: int| read_column(items[i])->Some_0))
    } else {
        None
    }
}

/// The schema of a document: empty where the member is missing.
pub open spec fn read_columns(found: Option<Json>) -> Option<Seq<Column>> {
    match found {
        None => Some(Seq::empty()),
        Some(Json::Array(items)) => columns_in(items),
        Some(_) => None,
    }
}

/// The row that a value stands for, with all rows below it.
pub open spec fn read_row(json: Json) -> Option<Row>
    decreases json,
{
    match json {
        Json::Object(members) => {
            let below = match member(members, "children"@) {
                None => Some(Seq::empty()),
                Some(Json::Array(items)) => rows_in(items),
                Some(_) => None,
            };
            match (
                read_text(member(members, "name"@)),
                read_cells(member(members, "col_data"@)),
                below,
                read_flag(member(members, "enabled"@)),
            ) {
                (Some(name), Some(values), Some(children), Some(enabled)) => Some(
                    Row { name, enabled, values, children },
                ),
                _ => None,
            }
        },
        _ => None,
    }
}

/// The rows that an array stands for.
pub open spec fn rows_in(items: Seq<Json>) -> Option<Seq<Row>>
    decreases items,
{
    if forall|i: int| 0 <= i < items.len() ==> read_row(#[trigger] items[i]) is Some {
        Some(
            Seq::new(
                items.len(),
                |i: int|
                    if 0 <= i < items.len() {
                        read_row(items[i])->Some_0
                    } else {
                        arbitrary()
                    },
            ),
        )
    } else {
        None
    }
}

/// The root row of a document: a leaf without a name, enabled and without
/// cells, where the member is missing.
pub open spec fn read_root(found: Option<Json>) -> Option<Row> {
    match found {
        None => Some(
            Row { name: Seq::empty(), enabled: true, values: Map::empty(), children: Seq::empty() },
        ),
        Some(json) => read_row(json),
    }
}

/// The document that a value stands for; none where the value is unreadable.
pub open spec fn read_table(json: Json) -> Option<Table> {
    match json {
        Json::Object(members) => {
            match (
                read_text(member(members, "title_text"@)),
                read_columns(member(members, "column_configs"@)),
                read_root(member(members, "root_row"@)),
            ) {
                (Some(title), Some(columns), Some(root)) => Some(Table { title, columns, root }),
                _ => None,
            }
        },
        _ => None,
    }
}

/// Why a value could not be read as a document.
#[derive(Debug, PartialEq, Eq, Clone, Copy)]
pub enum LoadError {
    /// The value does not have the form of a document.
    CorruptFile,
}

/// The first member with the name is at `at`, or nowhere where `at` is the
/// number of members.
proof fn lemma_position(members: Seq<(Seq<char>, Json)>, name: Seq<char>, at: int)
    requires
        0 <= at <= members.len(),
        forall|j: int| 0 <= j < at ==> (#[trigger] members[j]).0 != name,
        at < members.len() ==> members[at].0 == name,
    ensures
        position(members, name) == at,
    decreases at,
{
    if at > 0 {
        let rest = members.drop_first();
        assert(members[0].0 != name);
        assert forall|j: int| 0 <= j < at - 1 implies (#[trigger] rest[j]).0 != name by {
            assert(members[j + 1].0 != name);
        }
        lemma_position(rest, name, at - 1);
    }
}

/// Where the first member with the given name stands.
fn find_member(members: &Vec<(String, JsonValue)>, name: &str) -> (at: Option<usize>)
    ensures
        match at {
            Some(i) => i < members@.len() && member(members_of(members@), name@) == Some(
                members@[i as int].1@,
            ),
            None => member(members_of(members@), name@) is None,
        },
{
    let key = name.to_owned();
    let ghost model = members_of(members@);
    proof {
        lemma_members_view(members@);
    }
    let mut i: usize = 0;
    while i < members.len()
        invariant
            i <= members@.len(),
            key@ == name@,
            model == members_of(members@),
            model.len() == members@.len(),
            forall|j: int| 0 <= j < members@.len() ==> #[trigger] model[j] == (members@[j].0@, members@[j].1@),
            forall|j: int| 0 <= j < i ==> (#[trigger] model[j]).0 != name@,
        decreases members@.len() - i,
    {
        if members[i].0 == key {
            proof {
                assert(model[i as int].0 == name@);
                lemma_position(model, name@, i as int);
            }
            return Some(i);
        }
        i += 1;
    }
    proof {
        lemma_position(model, name@, i as int);
    }
    None
}

/// Reads a text member.
fn text_member(members: &Vec<(String, JsonValue)>, name: &str) -> (out: Result<String, LoadError>)
    ensures
        match read_text(member(members_of(members@), name@)) {
            Some(text) => out is Ok && out->Ok_0@ == text,
            None => out is Err && out->Err_0 == LoadError::CorruptFile,
        },
{
    match find_member(members, name) {
        None => Ok(String::new()),
        Some(i) => match &members[i].1 {
            JsonValue::String(text) => Ok(text.clone()),
            _ => Err(LoadError::CorruptFile),
        },
    }
}

/// Reads the inclusion flag.
fn flag_member(members: &Vec<(String, JsonValue)>, name: &str) -> (out: Result<bool, LoadError>)
    ensures
        match read_flag(member(members_of(members@), name@)) {
            Some(flag) => out == Ok::<bool, LoadError>(flag),
            None => out is Err && out->Err_0 == LoadError::CorruptFile,
        },
{
    match find_member(members, name) {
        None => Ok(true),
        Some(i) => match &members[i].1 {
            JsonValue::Bool(flag) => Ok(*flag),
            _ => Err(LoadError::CorruptFile),
        },
    }
}

/// Reads the cells of a row.
fn cells_member(members: &Vec<(String, JsonValue)>, name: &str) -> (out: Result<Values, LoadError>)
    ensures
        match read_cells(member(members_of(members@), name@)) {
            Some(cells) => out is Ok && out->Ok_0@ == cells,
            None => out is Err && out->Err_0 == LoadError::CorruptFile,
        },
{
    match find_member(members, name) {
        None => Ok(Values::new()),
        Some(i) => match &members[i].1 {
            JsonValue::Object(cells) => {
                let ghost model = members_of(cells@);
                proof {
                    lemma_members_view(cells@);
                    assert(members@[i as int].1@ == Json::Object(model));
                }
                let mut values = Values::new();
                let mut k: usize = 0;
                while k < cells.len()
                    invariant
                        k <= cells@.len(),
                        member(members_of(members@), name@) == Some(Json::Object(model)),
                        model == members_of(cells@),
                        model.len() == cells@.len(),
                        forall|j: int|
                            0 <= j < cells@.len() ==> #[trigger] model[j] == (
                                cells@[j].0@,
                                cells@[j].1@,
                            ),
                        cells_of(model.take(k as int)) == Some(values@),
                    decreases cells@.len() - k,
                {
                    proof {
                        assert(model.take(k + 1).drop_last() =~= model.take(k as int));
                        assert(model.take(k + 1).last() == model[k as int]);
                    }
                    match &cells[k].1 {
                        JsonValue::Number(bits) => {
                            values.insert(cells[k].0.as_str(), *bits);
                        },
                        _ => {
                            proof {
                                assert(!(cells@[k as int].1@ is Number));
                                assert(model[k as int].1 == cells@[k as int].1@);
                                lemma_cells_need_numbers(model, k as int);
                            }
                            return Err(LoadError::CorruptFile);
                        },
                    }
                    k += 1;
                }
                proof {
                    assert(model.take(k as int) =~= model);
                }
                Ok(values)
            },
            _ => Err(LoadError::CorruptFile),
        },
    }
}

/// A member that is no number makes the cells unreadable.
proof fn lemma_cells_need_numbers(members: Seq<(Seq<char>, Json)>, k: int)
    requires
        0 <= k < members.len(),
        !(members[k].1 is Number),
    ensures
        cells_of(members) is None,
    decreases members.len(),
{
    if k < members.len() - 1 {
        lemma_cells_need_numbers(members.drop_last(), k);
    }
}

/// Whether the text is the given word.
fn is_word(text: &String, word: &str) -> (same: bool)
    ensures
        same == (text@ == word@),
{
    *text == word.to_owned()
}

/// Reads an array of texts.
fn names_from(items: &Vec<JsonValue>) -> (out: Result<Vec<String>, LoadError>)
    ensures
        match names_of(items_of(items@)) {
            Some(names) => out is Ok && texts(out->Ok_0@) == names,
            None => out is Err && out->Err_0 == LoadError::CorruptFile,
        },
{
    let ghost model = items_of(items@);
    proof {
        lemma_items_view(items@);
    }
    let mut names: Vec<String> = Vec::new();
    let mut k: usize = 0;
    while k < items.len()
        invariant
            k <= items@.len(),
            model == items_of(items@),
            model.len() == items@.len(),
            forall|j: int| 0 <= j < items@.len() ==> #[trigger] model[j] == items@[j]@,
            names@.len() == k,
            forall|j: int| 0 <= j < k ==> #[trigger] model[j] == Json::Text(names@[j]@),
        decreases items@.len() - k,
    {
        match &items[k] {
            JsonValue::String(text) => {
                names.push(text.clone());
            },
            _ => {
                proof {
                    assert(!(items@[k as int]@ is Text));
                    assert(!(model[k as int] is Text));
                }
                return Err(LoadError::CorruptFile);
            },
        }
        k += 1;
    }
    proof {
        assert forall|j: int| 0 <= j < model.len() implies #[trigger] model[j] is Text by {}
        assert(texts(names@) =~= names_of(model)->Some_0);
    }
    Ok(names)
}

/// Reads a formula given as a tag with a body.
fn tagged_from(tag: &String, body: &JsonValue) -> (out: Result<ColumnType, LoadError>)
    ensures
        match read_tagged(tag@, body@) {
            Some(formula) => out is Ok && out->Ok_0@ == formula,
            None => out is Err && out->Err_0 == LoadError::CorruptFile,
        },
{
    match body {
        JsonValue::Array(items) => {
            proof {
                lemma_items_view(items@);
            }
            if is_word(tag, "MultiplyByFactor") {
                if items.len() != 2 {
                    return Err(LoadError::CorruptFile);
                }
                match (&items[0], &items[1]) {
                    (JsonValue::String(source), JsonValue::Number(factor)) => Ok(
                        ColumnType::MultiplyByFactor(source.clone(), *factor),
                    ),
                    _ => {
                        proof {
                            assert(!(items@[0]@ is Text && items@[1]@ is Number));
                        }
                        Err(LoadError::CorruptFile)
                    },
                }
            } else if is_word(tag, "RowSum") {
                match names_from(items) {
                    Ok(names) => Ok(ColumnType::RowSum(names)),
                    Err(e) => Err(e),
                }
            } else {
                Err(LoadError::CorruptFile)
            }
        },
        _ => Err(LoadError::CorruptFile),
    }
}

/// Reads the formula of a column.
fn formula_member(members: &Vec<(String, JsonValue)>, name: &str) -> (out: Result<
    ColumnType,
    LoadError,
>)
    ensures
        match read_formula(member(members_of(members@), name@)) {
            Some(formula) => out is Ok && out->Ok_0@ == formula,
            None => out is Err && out->Err_0 == LoadError::CorruptFile,
        },
{
    match find_member(members, name) {
        None => Ok(ColumnType::Number),
        Some(i) => match &members[i].1 {
            JsonValue::String(tag) => {
                if is_word(tag, "Number") {
                    Ok(ColumnType::Number)
                } else if is_word(tag, "Text") {
                    Ok(ColumnType::Text)
                } else {
                    Err(LoadError::CorruptFile)
                }
            },
            JsonValue::Object(tagged) => {
                proof {
                    lemma_members_view(tagged@);
                }
                if tagged.len() == 1 {
                    tagged_from(&tagged[0].0, &tagged[0].1)
                } else {
                    Err(LoadError::CorruptFile)
                }
            },
            _ => Err(LoadError::CorruptFile),
        },
    }
}

impl ColumnConfig {
    /// Reads a column. A missing identity, caption or unit is empty, a missing
    /// formula makes a number column.
    pub fn from_json(json: &JsonValue) -> (out: Result<ColumnConfig, LoadError>)
        ensures
            match read_column(json@) {
                Some(column) => out is Ok && out->Ok_0@ == column,
                None => out is Err && out->Err_0 == LoadError::CorruptFile,
            },
    {
        match json {
            JsonValue::Object(members) => {
                let id = match text_member(members, "id") {
                    Ok(text) => text,
                    Err(e) => {
                        return Err(e);
                    },
                };
                let caption = match text_member(members, "caption") {
                    Ok(text) => text,
                    Err(e) => {
                        return Err(e);
                    },
                };
                let unit = match text_member(members, "unit") {
                    Ok(text) => text,
                    Err(e) => {
                        return Err(e);
                    },
                };
                let col_type = match formula_member(members, "col_type") {
                    Ok(formula) => formula,
                    Err(e) => {
                        return Err(e);
                    },
                };
                Ok(ColumnConfig { id, caption, unit, col_type })
            },
            _ => Err(LoadError::CorruptFile),
        }
    }
}

/// Reads the schema of a document.
fn columns_member(members: &Vec<(String, JsonValue)>, name: &str) -> (out: Result<
    Vec<ColumnConfig>,
    LoadError,
>)
    ensures
        match read_columns(member(members_of(members@), name@)) {
            Some(columns) => out is Ok && columns_of(out->Ok_0@) == columns,
            None => out is Err && out->Err_0 == LoadError::CorruptFile,
        },
{
    match find_member(members, name) {
        None => {
            let configs: Vec<ColumnConfig> = Vec::new();
            proof {
                assert(columns_of(configs@) =~= Seq::empty());
            }
            Ok(configs)
        },
        Some(i) => match &members[i].1 {
            JsonValue::Array(items) => {
                let ghost model = items_of(items@);
                proof {
                    lemma_items_view(items@);
                    assert(members@[i as int].1@ == Json::Array(model));
                }
                let mut configs: Vec<ColumnConfig> = Vec::new();
                let mut k: usize = 0;
                while k < items.len()
                    invariant
                        k <= items@.len(),
                        member(members_of(members@), name@) == Some(Json::Array(model)),
                        model == items_of(items@),
                        model.len() == items@.len(),
                        forall|j: int| 0 <= j < items@.len() ==> #[trigger] model[j] == items@[j]@,
                        configs@.len() == k,
                        forall|j: int|
                            0 <= j < k ==> read_column(#[trigger] model[j]) == Some(configs@[j]@),
                    decreases items@.len() - k,
                {
                    match ColumnConfig::from_json(&items[k]) {
                        Ok(config) => {
                            configs.push(config);
                        },
                        Err(e) => {
                            proof {
                                assert(read_column(model[k as int]) is None);
                            }
                            return Err(e);
                        },
                    }
                    k += 1;
                }
                proof {
                    assert forall|j: int| 0 <= j < model.len() implies read_column(
                        #[trigger] model[j],
                    ) is Some by {}
                    assert(columns_of(configs@) =~= columns_in(model)->Some_0);
                }
                Ok(configs)
            },
            _ => Err(LoadError::CorruptFile),
        },
    }
}

impl RowData {
    /// Reads a row with all rows below it. A missing name is empty, missing
    /// cells and children are none, and a row without the inclusion flag is
    /// enabled.
    pub fn from_json(json: &JsonValue) -> (out: Result<RowData, LoadError>)
        ensures
            match read_row(json@) {
                Some(row) => out is Ok && out->Ok_0@ == row,
                None => out is Err && out->Err_0 == LoadError::CorruptFile,
            },
            json@ is Object && member(json@->Object_0, "enabled"@) is None && out is Ok
                ==> out->Ok_0@.enabled,
        decreases json,
    {
        match json {
            JsonValue::Object(members) => {
                let name = match text_member(members, "name") {
                    Ok(text) => text,
                    Err(e) => {
                        return Err(e);
                    },
                };
                let col_data = match cells_member(members, "col_data") {
                    Ok(cells) => cells,
                    Err(e) => {
                        return Err(e);
                    },
                };
                let enabled = match flag_member(members, "enabled") {
                    Ok(flag) => flag,
                    Err(e) => {
                        return Err(e);
                    },
                };
                let mut children: Vec<RowData> = Vec::new();
                let ghost below: Seq<Row> = Seq::empty();
                match find_member(members, "children") {
                    None => {},
                    Some(i) => match &members[i].1 {
                        JsonValue::Array(items) => {
                            let ghost model = items_of(items@);
                            proof {
                                lemma_items_view(items@);
                                assert(members@[i as int].1@ == Json::Array(model));
                            }
                            let mut k: usize = 0;
                            while k < items.len()
                                invariant
                                    k <= items@.len(),
                                    i < members@.len(),
                                    members@[i as int].1 == JsonValue::Array(*items),
                                    *json == JsonValue::Object(*members),
                                    member(members_of(members@), "children"@) == Some(
                                        Json::Array(model),
                                    ),
                                    read_text(member(members_of(members@), "name"@)) is Some,
                                    read_cells(member(members_of(members@), "col_data"@)) is Some,
                                    read_flag(member(members_of(members@), "enabled"@)) is Some,
                                    model == items_of(items@),
                                    model.len() == items@.len(),
                                    forall|j: int|
                                        0 <= j < items@.len() ==> #[trigger] model[j] == items@[j]@,
                                    children@.len() == k,
                                    forall|j: int|
                                        0 <= j < k ==> read_row(#[trigger] model[j]) == Some(
                                            children@[j]@,
                                        ),
                                decreases items@.len() - k,
                            {
                                proof {
                                    vstd::std_specs::vec::axiom_vec_index_decreases(
                                        *members,
                                        i as int,
                                    );
                                    vstd::std_specs::vec::axiom_vec_index_decreases(
                                        *items,
                                        k as int,
                                    );
                                    assert(decreases_to!(*json => *members));
                                    assert(decreases_to!(*members => members@[i as int]));
                                    assert(decreases_to!(members@[i as int] => members@[i as int].1));
                                    assert(members@[i as int].1->Array_0 == *items);
                                    assert(decreases_to!(members@[i as int].1 => members@[i as int].1->Array_0));
                                    assert(decreases_to!(members@[i as int].1 => *items));
                                    assert(decreases_to!(*items => items@[k as int]));
                                }
                                match RowData::from_json(&items[k]) {
                                    Ok(child) => {
                                        children.push(child);
                                    },
                                    Err(e) => {
                                        proof {
                                            assert(read_row(model[k as int]) is None);
                                        }
                                        return Err(e);
                                    },
                                }
                                k += 1;
                            }
                            proof {
                                assert forall|j: int| 0 <= j < model.len() implies read_row(
                                    #[trigger] model[j],
                                ) is Some by {}
                                assert(rows_of(children@) =~= rows_in(model)->Some_0);
                            }
                        },
                        _ => {
                            return Err(LoadError::CorruptFile);
                        },
                    },
                }
                let row = RowData { name, col_data, children, enabled };
                proof {
                    lemma_row_view(row);
                    assert(rows_of(Seq::<RowData>::empty()) =~= Seq::<Row>::empty());
                }
                Ok(row)
            },
            _ => Err(LoadError::CorruptFile),
        }
    }
}

impl TreeTable {
    /// Reads a document. A missing title is empty, a missing schema has no
    /// columns, and a missing root is a leaf without a name. A value that is no
    /// object, or holds a member of the wrong kind, is refused. A value that a
    /// document was written as reads back as that document.
    pub fn from_json(json: &JsonValue) -> (out: Result<TreeTable, LoadError>)
        ensures
            match read_table(json@) {
                Some(table) => out is Ok && out->Ok_0@ == table,
                None => out is Err && out->Err_0 == LoadError::CorruptFile,
            },
            json@ is Object && member(json@->Object_0, "column_configs"@) is None ==> (out is Ok
                <==> read_text(member(json@->Object_0, "title_text"@)) is Some && read_root(
                member(json@->Object_0, "root_row"@),
            ) is Some),
            json@ is Object && member(json@->Object_0, "column_configs"@) is None && out is Ok
                ==> out->Ok_0@.columns == Seq::<Column>::empty(),
            forall|written: Table| #[trigger]
                writes_table(json@, written) ==> out is Ok && out->Ok_0@ == written,
    {
        proof {
            assert forall|written: Table| #[trigger] writes_table(json@, written) implies read_table(
                json@,
            ) == Some(written) by {
                lemma_table_reads_back(json@, written);
            }
        }
        match json {
            JsonValue::Object(members) => {
                let title_text = match text_member(members, "title_text") {
                    Ok(text) => text,
                    Err(e) => {
                        return Err(e);
                    },
                };
                let column_configs = match columns_member(members, "column_configs") {
                    Ok(configs) => configs,
                    Err(e) => {
                        return Err(e);
                    },
                };
                let root_row = match find_member(members, "root_row") {
                    None => RowData::default(),
                    Some(i) => match RowData::from_json(&members[i].1) {
                        Ok(row) => row,
                        Err(e) => {
                            return Err(e);
                        },
                    },
                };
                Ok(TreeTable { title_text, column_configs, root_row })
            },
            _ => Err(LoadError::CorruptFile),
        }
    }
}

/// The value that a formula is written as: a bare tag for a number column and
/// for a text column, otherwise an object with one member, the tag, whose value
/// lists what the formula holds.
pub open spec fn formula_json(formula: Formula) -> Json {
    match formula {
        Formula::Number => Json::Text("Number"@),
        Formula::Text => Json::Text("Text"@),
        Formula::MultiplyByFactor(source, factor) => Json::Object(
            seq![
                (
                    "MultiplyByFactor"@,
                    Json::Array(seq![Json::Text(source), Json::Number(factor)]),
                ),
            ],
        ),
        Formula::RowSum(sources) => Json::Object(
            seq![
                ("RowSum"@, Json::Array(Seq::new(sources.len(), |i: int| Json::Text(sources[i])))),
            ],
        ),
    }
}

/// The value that a column is written as.
pub open spec fn column_json(column: Column) -> Json {
    Json::Object(
        seq![
            ("id"@, Json::Text(column.id)),
            ("caption"@, Json::Text(column.caption)),
            ("unit"@, Json::Text(column.unit)),
            ("col_type"@, formula_json(column.formula)),
        ],
    )
}

/// The value that a schema is written as.
pub open spec fn columns_json(columns: Seq<Column>) -> Json {
    Json::Array(Seq::new(columns.len(), |i: int| column_json(columns[i])))
}

/// The members say the cells of a row: one member for each cell, a number
/// under the column's identity, and no identity twice.
pub open spec fn writes_cells(members: Seq<(Seq<char>, Json)>, values: Map<Seq<char>, u64>) -> bool {
    &&& forall|i: int, j: int| 0 <= i < j < members.len() ==> members[i].0 != members[j].0
    &&& cells_of(members) == Some(values)
}

/// The value says the row, with all rows below it: an object whose members are
/// the name, the cells, the children in their order and the inclusion flag.
pub open spec fn writes_row(json: Json, row: Row) -> bool
    decreases row,
{
    &&& json is Object
    &&& json->Object_0.len() == 4
    &&& json->Object_0[0] == ("name"@, Json::Text(row.name))
    &&& json->Object_0[1].0 == "col_data"@
    &&& json->Object_0[1].1 is Object
    &&& writes_cells(json->Object_0[1].1->Object_0, row.values)
    &&& json->Object_0[2].0 == "children"@
    &&& json->Object_0[2].1 is Array
    &&& json->Object_0[2].1->Array_0.len() == row.children.len()
    &&& forall|i: int|
        0 <= i < row.children.len() ==> writes_row(
            #[trigger] json->Object_0[2].1->Array_0[i],
            row.children[i],
        )
    &&& json->Object_0[3] == ("enabled"@, Json::Bool(row.enabled))
}

/// The value says the document: an object whose members are the title, the
/// schema and the root row.
pub open spec fn writes_table(json: Json, table: Table) -> bool {
    &&& json is Object
    &&& json->Object_0.len() == 3
    &&& json->Object_0[0] == ("title_text"@, Json::Text(table.title))
    &&& json->Object_0[1] == ("column_configs"@, columns_json(table.columns))
    &&& json->Object_0[2].0 == "root_row"@
    &&& writes_row(json->Object_0[2].1, table.root)
}

impl ColumnType {
    /// Writes the formula as a value, which reads back as the formula.
    pub fn to_json(&self) -> (json: JsonValue)
        ensures
            json@ == formula_json(self@),
            read_formula(Some(json@)) == Some(self@),
    {
        proof {
            lemma_formula_reads_back(self@);
        }
        match self {
            ColumnType::Number => JsonValue::String("Number".to_owned()),
            ColumnType::Text => JsonValue::String("Text".to_owned()),
            ColumnType::MultiplyByFactor(source, factor) => {
                let mut items: Vec<JsonValue> = Vec::new();
                items.push(JsonValue::String(source.clone()));
                items.push(JsonValue::Number(*factor));
                let mut members: Vec<(String, JsonValue)> = Vec::new();
                members.push(("MultiplyByFactor".to_owned(), JsonValue::Array(items)));
                proof {
                    lemma_items_view(items@);
                    lemma_members_view(members@);
                    assert(items_of(items@) =~= seq![Json::Text(source@), Json::Number(*factor)]);
                    assert(members_of(members@) =~= seq![
                        (
                            "MultiplyByFactor"@,
                            Json::Array(seq![Json::Text(source@), Json::Number(*factor)]),
                        ),
                    ]);
                }
                JsonValue::Object(members)
            },
            ColumnType::RowSum(sources) => {
                let mut items: Vec<JsonValue> = Vec::new();
                let mut k: usize = 0;
                while k < sources.len()
                    invariant
                        k <= sources@.len(),
                        items@.len() == k,
                        forall|j: int| 0 <= j < k ==> (#[trigger] items@[j])@ == Json::Text(sources@[j]@),
                    decreases sources@.len() - k,
                {
                    items.push(JsonValue::String(sources[k].clone()));
                    k += 1;
                }
                let mut members: Vec<(String, JsonValue)> = Vec::new();
                members.push(("RowSum".to_owned(), JsonValue::Array(items)));
                proof {
                    lemma_items_view(items@);
                    lemma_members_view(members@);
                    let names = texts(sources@);
                    let listed = Seq::new(names.len(), |i: int| Json::Text(names[i]));
                    assert(items_of(items@) =~= listed);
                    assert(members_of(members@) =~= seq![("RowSum"@, Json::Array(listed))]);
                }
                JsonValue::Object(members)
            },
        }
    }
}

impl ColumnConfig {
    /// Writes the column as a value, which reads back as the column.
    pub fn to_json(&self) -> (json: JsonValue)
        ensures
            json@ == column_json(self@),
            read_column(json@) == Some(self@),
    {
        proof {
            lemma_column_reads_back(self@);
        }
        let mut members: Vec<(String, JsonValue)> = Vec::new();
        members.push(("id".to_owned(), JsonValue::String(self.id.clone())));
        members.push(("caption".to_owned(), JsonValue::String(self.caption.clone())));
        members.push(("unit".to_owned(), JsonValue::String(self.unit.clone())));
        members.push(("col_type".to_owned(), self.col_type.to_json()));
        proof {
            lemma_members_view(members@);
            assert(members_of(members@) =~= column_json(self@)->Object_0);
        }
        JsonValue::Object(members)
    }
}

/// Writes a schema as a value.
fn columns_to_json(column_configs: &Vec<ColumnConfig>) -> (json: JsonValue)
    ensures
        json@ == columns_json(columns_of(column_configs@)),
{
    let mut items: Vec<JsonValue> = Vec::new();
    let mut k: usize = 0;
    while k < column_configs.len()
        invariant
            k <= column_configs@.len(),
            items@.len() == k,
            forall|j: int| 0 <= j < k ==> (#[trigger] items@[j])@ == column_json(column_configs@[j]@),
        decreases column_configs@.len() - k,
    {
        items.push(column_configs[k].to_json());
        k += 1;
    }
    proof {
        lemma_items_view(items@);
        assert(items_of(items@) =~= columns_json(columns_of(column_configs@))->Array_0);
    }
    JsonValue::Array(items)
}

/// Writes the cells of a row as the members of an object.
fn cells_to_json(values: &Values) -> (json: JsonValue)
    ensures
        json@ is Object,
        writes_cells(json@->Object_0, values@),
{
    let cells = values.entries();
    let mut members: Vec<(String, JsonValue)> = Vec::new();
    let mut k: usize = 0;
    while k < cells.len()
        invariant
            k <= cells@.len(),
            members@.len() == k,
            forall|j: int|
                0 <= j < k ==> (#[trigger] members@[j]).0@ == cells@[j].0@ && members@[j].1@
                    == Json::Number(cells@[j].1),
            cells_of(members_of(members@)) == Some(cells_map(cells@.take(k as int))),
        decreases cells@.len() - k,
    {
        let ghost before = members@;
        members.push((cells[k].0.clone(), JsonValue::Number(cells[k].1)));
        proof {
            lemma_members_view(members@);
            lemma_members_view(before);
            assert(members_of(members@).drop_last() =~= members_of(before));
            assert(cells@.take(k + 1).drop_last() =~= cells@.take(k as int));
        }
        k += 1;
    }
    proof {
        assert(cells@.take(k as int) =~= cells@);
        lemma_members_view(members@);
        assert forall|i: int, j: int| 0 <= i < j < members@.len() implies members_of(members@)[i].0
            != members_of(members@)[j].0 by {
            assert(cells@[i].0@ != cells@[j].0@);
        }
    }
    JsonValue::Object(members)
}

impl RowData {
    /// Writes the row, with all rows below it, as a value, which reads back as
    /// the row.
    pub fn to_json(&self) -> (json: JsonValue)
        ensures
            writes_row(json@, self@),
            read_row(json@) == Some(self@),
        decreases self,
    {
        proof {
            lemma_row_view(*self);
        }
        let mut items: Vec<JsonValue> = Vec::new();
        let mut k: usize = 0;
        while k < self.children.len()
            invariant
                k <= self.children@.len(),
                items@.len() == k,
                forall|j: int|
                    0 <= j < k ==> writes_row((#[trigger] items@[j])@, self.children@[j]@),
            decreases self.children@.len() - k,
        {
            let child = self.children[k].to_json();
            items.push(child);
            k += 1;
        }
        let mut members: Vec<(String, JsonValue)> = Vec::new();
        members.push(("name".to_owned(), JsonValue::String(self.name.clone())));
        members.push(("col_data".to_owned(), cells_to_json(&self.col_data)));
        members.push(("children".to_owned(), JsonValue::Array(items)));
        members.push(("enabled".to_owned(), JsonValue::Bool(self.enabled)));
        let json = JsonValue::Object(members);
        proof {
            lemma_members_view(members@);
            lemma_items_view(items@);
            assert(json@->Object_0 == members_of(members@));
            assert(json@->Object_0[2].1 == Json::Array(items_of(items@)));
            lemma_row_reads_back(json@, self@);
        }
        json
    }
}

impl TreeTable {
    /// Writes the document as a value, which reads back as the document: the
    /// title, the columns in their order, and the whole tree of rows.
    pub fn to_json(&self) -> (json: JsonValue)
        ensures
            writes_table(json@, self@),
            read_table(json@) == Some(self@),
    {
        let mut members: Vec<(String, JsonValue)> = Vec::new();
        members.push(("title_text".to_owned(), JsonValue::String(self.title_text.clone())));
        members.push(("column_configs".to_owned(), columns_to_json(&self.column_configs)));
        members.push(("root_row".to_owned(), self.root_row.to_json()));
        let json = JsonValue::Object(members);
        proof {
            lemma_members_view(members@);
            assert(json@->Object_0 == members_of(members@));
            lemma_table_reads_back(json@, self@);
        }
        json
    }
}

/// The member names of the format differ from one another.
proof fn lemma_names_differ()
    ensures
        "name"@ != "col_data"@,
        "name"@ != "children"@,
        "name"@ != "enabled"@,
        "col_data"@ != "children"@,
        "col_data"@ != "enabled"@,
        "children"@ != "enabled"@,
        "id"@ != "caption"@,
        "id"@ != "unit"@,
        "id"@ != "col_type"@,
        "caption"@ != "unit"@,
        "caption"@ != "col_type"@,
        "unit"@ != "col_type"@,
        "title_text"@ != "column_configs"@,
        "title_text"@ != "root_row"@,
        "column_configs"@ != "root_row"@,
        "Number"@ != "Text"@,
        "MultiplyByFactor"@ != "RowSum"@,
{
    reveal_strlit("name");
    reveal_strlit("col_data");
    reveal_strlit("children");
    reveal_strlit("enabled");
    reveal_strlit("id");
    reveal_strlit("caption");
    reveal_strlit("unit");
    reveal_strlit("col_type");
    reveal_strlit("title_text");
    reveal_strlit("column_configs");
    reveal_strlit("root_row");
    reveal_strlit("Number");
    reveal_strlit("Text");
    reveal_strlit("MultiplyByFactor");
    reveal_strlit("RowSum");
    assert("name"@.len() == 4 && "col_data"@.len() == 8 && "children"@.len() == 8 && "enabled"@.len()
        == 7);
    assert("id"@.len() == 2 && "caption"@.len() == 7 && "unit"@.len() == 4 && "col_type"@.len()
        == 8);
    assert("title_text"@.len() == 10 && "column_configs"@.len() == 14 && "root_row"@.len() == 8);
    assert("Number"@.len() == 6 && "Text"@.len() == 4);
    assert("MultiplyByFactor"@.len() == 16 && "RowSum"@.len() == 6);
    assert("col_data"@[1] != "children"@[1]);
}

/// A formula that was written reads back as it was.
pub proof fn lemma_formula_reads_back(formula: Formula)
    ensures
        read_formula(Some(formula_json(formula))) == Some(formula),
{
    lemma_names_differ();
    match formula {
        Formula::RowSum(sources) => {
            let listed = Seq::new(sources.len(), |i: int| Json::Text(sources[i]));
            assert forall|i: int| 0 <= i < listed.len() implies #[trigger] listed[i] is Text by {}
            assert(names_of(listed)->Some_0 =~= sources);
        },
        _ => {},
    }
}

/// A column that was written reads back as it was.
pub proof fn lemma_column_reads_back(column: Column)
    ensures
        read_column(column_json(column)) == Some(column),
{
    lemma_names_differ();
    lemma_formula_reads_back(column.formula);
    let members = column_json(column)->Object_0;
    lemma_position(members, "id"@, 0);
    lemma_position(members, "caption"@, 1);
    lemma_position(members, "unit"@, 2);
    lemma_position(members, "col_type"@, 3);
}

/// A row that was written reads back as it was, with all rows below it.
pub proof fn lemma_row_reads_back(json: Json, row: Row)
    requires
        writes_row(json, row),
    ensures
        read_row(json) == Some(row),
    decreases row,
{
    lemma_names_differ();
    let members = json->Object_0;
    lemma_position(members, "name"@, 0);
    lemma_position(members, "col_data"@, 1);
    lemma_position(members, "children"@, 2);
    lemma_position(members, "enabled"@, 3);
    let items = members[2].1->Array_0;
    assert forall|i: int| 0 <= i < items.len() implies read_row(#[trigger] items[i]) == Some(
        row.children[i],
    ) by {
        lemma_row_reads_back(items[i], row.children[i]);
    }
    assert(rows_in(items)->Some_0 =~= row.children);
}

/// A document that was written reads back as it was: the title, the columns in
/// their order, and the whole tree of rows with names, cells and inclusion
/// flags.
pub proof fn lemma_table_reads_back(json: Json, table: Table)
    requires
        writes_table(json, table),
    ensures
        read_table(json) == Some(table),
{
    lemma_names_differ();
    let members = json->Object_0;
    lemma_position(members, "title_text"@, 0);
    lemma_position(members, "column_configs"@, 1);
    lemma_position(members, "root_row"@, 2);
    let items = columns_json(table.columns)->Array_0;
    assert forall|i: int| 0 <= i < items.len() implies read_column(#[trigger] items[i]) == Some(
        table.columns[i],
    ) by {
        lemma_column_reads_back(table.columns[i]);
    }
    assert(columns_in(items)->Some_0 =~= table.columns);
    lemma_row_reads_back(members[2].1, table.root);
}

/// The place of the first member with a name is a place among the members, or
/// their number.
proof fn lemma_position_bounds(members: Seq<(Seq<char>, Json)>, name: Seq<char>)
    ensures
        0 <= position(members, name) <= members.len(),
        position(members, name) < members.len() ==> members[position(members, name)].0 == name,
    decreases members.len(),
{
    if members.len() > 0 && members[0].0 != name {
        lemma_position_bounds(members.drop_first(), name);
    }
}

/// A member put behind the others is found under its name where none of the
/// others bears it, and leaves the members with other names as they are found.
proof fn lemma_member_after_push(
    members: Seq<(Seq<char>, Json)>,
    extra: (Seq<char>, Json),
    name: Seq<char>,
)
    ensures
        member(members.push(extra), name) == (if member(members, name) is Some {
            member(members, name)
        } else if extra.0 == name {
            Some(extra.1)
        } else {
            None
        }),
    decreases members.len(),
{
    let longer = members.push(extra);
    lemma_position_bounds(members, name);
    lemma_position_bounds(longer, name);
    if members.len() == 0 {
        assert(longer.drop_first() =~= Seq::empty());
    } else if members[0].0 == name {
    } else {
        assert(longer.drop_first() =~= members.drop_first().push(extra));
        lemma_member_after_push(members.drop_first(), extra, name);
        lemma_position_bounds(members.drop_first(), name);
        lemma_position_bounds(members.drop_first().push(extra), name);
    }
}

/// An object without an inclusion flag reads as the same object with the flag
/// set: where it is readable the row is enabled, and its name, its cells and
/// its children are as the object says them.
pub proof fn lemma_missing_flag_enables(members: Seq<(Seq<char>, Json)>)
    requires
        member(members, "enabled"@) is None,
    ensures
        read_row(Json::Object(members)) == read_row(
            Json::Object(members.push(("enabled"@, Json::Bool(true)))),
        ),
        read_row(Json::Object(members)) is Some ==> read_row(Json::Object(members))->Some_0.enabled,
{
    lemma_names_differ();
    let extra = ("enabled"@, Json::Bool(true));
    lemma_member_after_push(members, extra, "name"@);
    lemma_member_after_push(members, extra, "col_data"@);
    lemma_member_after_push(members, extra, "children"@);
    lemma_member_after_push(members, extra, "enabled"@);
}

/// An object without a schema reads as the same object with an empty schema:
/// it is readable wherever its title and its root row are, and the document
/// then has no columns, and the title and the rows that the object says.
pub proof fn lemma_missing_schema_is_empty(members: Seq<(Seq<char>, Json)>)
    requires
        member(members, "column_configs"@) is None,
    ensures
        read_table(Json::Object(members)) == read_table(
            Json::Object(members.push(("column_configs"@, Json::Array(Seq::empty())))),
        ),
        read_table(Json::Object(members)) is Some <==> read_text(member(members, "title_text"@))
            is Some && read_root(member(members, "root_row"@)) is Some,
        read_table(Json::Object(members)) is Some ==> read_table(
            Json::Object(members),
        )->Some_0.columns == Seq::<Column>::empty(),
{
    lemma_names_differ();
    let extra = ("column_configs"@, Json::Array(Seq::<Json>::empty()));
    lemma_member_after_push(members, extra, "title_text"@);
    lemma_member_after_push(members, extra, "column_configs"@);
    lemma_member_after_push(members, extra, "root_row"@);
    assert(columns_in(Seq::<Json>::empty())->Some_0 =~= Seq::<Column>::empty());
}

} // verus!
