use tree_tables::{ColumnConfig, ColumnType, JsonValue, LoadError, RowData, TreeTable};

fn num(x: f64) -> u64 {
    x.to_bits()
}

fn from_serde(value: &serde_json::Value) -> JsonValue {
    match value {
        serde_json::Value::Null => JsonValue::Null,
        serde_json::Value::Bool(b) => JsonValue::Bool(*b),
        serde_json::Value::Number(n) => match n.as_f64() {
            Some(x) => JsonValue::Number(x.to_bits()),
            None => JsonValue::Null,
        },
        serde_json::Value::String(s) => JsonValue::String(s.clone()),
        serde_json::Value::Array(items) => JsonValue::Array(items.iter().map(from_serde).collect()),
        serde_json::Value::Object(members) => JsonValue::Object(
            members.iter().map(|(name, value)| (name.clone(), from_serde(value))).collect(),
        ),
    }
}

fn to_serde(value: &JsonValue) -> serde_json::Value {
    match value {
        JsonValue::Null => serde_json::Value::Null,
        JsonValue::Bool(b) => serde_json::Value::Bool(*b),
        JsonValue::Number(bits) => match serde_json::Number::from_f64(f64::from_bits(*bits)) {
            Some(n) => serde_json::Value::Number(n),
            None => serde_json::Value::Null,
        },
        JsonValue::String(s) => serde_json::Value::String(s.clone()),
        JsonValue::Array(items) => serde_json::Value::Array(items.iter().map(to_serde).collect()),
        JsonValue::Object(members) => {
            let mut map = serde_json::Map::new();
            for (name, value) in members {
                map.insert(name.clone(), to_serde(value));
            }
            serde_json::Value::Object(map)
        }
    }
}

fn parse(text: &str) -> JsonValue {
    let value: serde_json::Value = serde_json::from_str(text).unwrap();
    from_serde(&value)
}

fn text(s: &str) -> JsonValue {
    JsonValue::String(s.to_owned())
}

fn object(members: Vec<(&str, JsonValue)>) -> JsonValue {
    JsonValue::Object(members.into_iter().map(|(name, value)| (name.to_owned(), value)).collect())
}

fn sample() -> TreeTable {
    let mut table = TreeTable::default();
    table.set_title("Offer 17");
    table.add_column_with_id("note".to_owned());
    table.set_column_type("note", ColumnType::Text);
    table.add_column_with_id("all".to_owned());
    table.set_column_type("all", ColumnType::RowSum(vec!["a".to_owned(), "b".to_owned()]));
    let schema = table.column_configs.clone();
    table.root_row.add_child(&schema);
    table.root_row.children[1].rename("B");
    table.root_row.children[1].set_enabled(false);
    table.root_row.children[1].set_value("note", num(-2.5));
    table.root_row.children[0].add_child(&schema);
    table
}

fn same_row(a: &RowData, b: &RowData) -> bool {
    let mut names = a.col_data.entries();
    let mut other = b.col_data.entries();
    names.sort();
    other.sort();
    a.name == b.name
        && a.enabled == b.enabled
        && names == other
        && a.children.len() == b.children.len()
        && a.children.iter().zip(b.children.iter()).all(|(x, y)| same_row(x, y))
}

fn same_table(a: &TreeTable, b: &TreeTable) -> bool {
    a.title_text == b.title_text
        && a.column_configs == b.column_configs
        && same_row(&a.root_row, &b.root_row)
}

#[test]
fn document_reads_back_as_written() {
    let table = sample();
    let back = TreeTable::from_json(&table.to_json()).unwrap();
    assert!(same_table(&table, &back));
    assert_eq!(back.title_text, "Offer 17");
    assert_eq!(back.column_configs.len(), 5);
    assert!(!back.root_row.children[1].enabled);
    assert_eq!(back.root_row.children[1].value("note"), num(-2.5));
    assert_eq!(back.root_row.children[0].children.len(), 1);
}

#[test]
fn document_reads_back_through_text() {
    let table = sample();
    let written = serde_json::to_string(&to_serde(&table.to_json())).unwrap();
    let back = TreeTable::from_json(&parse(&written)).unwrap();
    assert!(same_table(&table, &back));
}

#[test]
fn written_form_of_a_row() {
    let mut row = RowData::new("A");
    row.set_value("cost", num(1.0));
    row.children.push(RowData::new("B"));
    row.children[0].set_enabled(false);
    let expected = object(vec![
        ("name", text("A")),
        ("col_data", object(vec![("cost", JsonValue::Number(num(1.0)))])),
        (
            "children",
            JsonValue::Array(vec![object(vec![
                ("name", text("B")),
                ("col_data", object(vec![])),
                ("children", JsonValue::Array(vec![])),
                ("enabled", JsonValue::Bool(false)),
            ])]),
        ),
        ("enabled", JsonValue::Bool(true)),
    ]);
    assert_eq!(row.to_json(), expected);
    assert_eq!(
        serde_json::to_string(&to_serde(&row.to_json())).unwrap(),
        "{\"children\":[{\"children\":[],\"col_data\":{},\"enabled\":false,\"name\":\"B\"}],\"col_data\":{\"cost\":1.0},\"enabled\":true,\"name\":\"A\"}"
    );
}

#[test]
fn written_form_of_the_formulas() {
    assert_eq!(ColumnType::Number.to_json(), text("Number"));
    assert_eq!(ColumnType::Text.to_json(), text("Text"));
    assert_eq!(
        ColumnType::MultiplyByFactor("cost".to_owned(), num(100.0)).to_json(),
        object(vec![(
            "MultiplyByFactor",
            JsonValue::Array(vec![text("cost"), JsonValue::Number(num(100.0))])
        )])
    );
    assert_eq!(
        ColumnType::RowSum(vec!["a".to_owned(), "b".to_owned()]).to_json(),
        object(vec![("RowSum", JsonValue::Array(vec![text("a"), text("b")]))])
    );
}

#[test]
fn written_form_of_a_document() {
    let table = TreeTable {
        title_text: "T".to_owned(),
        column_configs: vec![ColumnConfig {
            id: "c".to_owned(),
            caption: "Cost".to_owned(),
            unit: "h".to_owned(),
            col_type: ColumnType::Number,
        }],
        root_row: RowData::new("R"),
    };
    let expected = object(vec![
        ("title_text", text("T")),
        (
            "column_configs",
            JsonValue::Array(vec![object(vec![
                ("id", text("c")),
                ("caption", text("Cost")),
                ("unit", text("h")),
                ("col_type", text("Number")),
            ])]),
        ),
        (
            "root_row",
            object(vec![
                ("name", text("R")),
                ("col_data", object(vec![])),
                ("children", JsonValue::Array(vec![])),
                ("enabled", JsonValue::Bool(true)),
            ]),
        ),
    ]);
    assert_eq!(table.to_json(), expected);
}

#[test]
fn reads_a_saved_file() {
    let saved = r#"{
        "title_text": "Tree Tables",
        "column_configs": [
            {"id": "cost", "caption": "Materialkosten", "unit": "€", "col_type": "Number"},
            {"id": "note", "caption": "Notiz", "unit": "", "col_type": "Text"},
            {"id": "price", "caption": "Verkaufspreis", "unit": "€",
             "col_type": {"MultiplyByFactor": ["cost", 100.0]}},
            {"id": "sum", "caption": "", "unit": "", "col_type": {"RowSum": ["cost", "price"]}}
        ],
        "root_row": {
            "name": "∑",
            "col_data": {"cost": 1.0, "price": 100},
            "children": [
                {"name": "A", "col_data": {"cost": 1.0}, "children": [], "enabled": false,
                 "expanded": true, "edit_name": false}
            ],
            "enabled": true,
            "expanded": false,
            "edit_name": false
        }
    }"#;
    let table = TreeTable::from_json(&parse(saved)).unwrap();
    assert_eq!(table.title_text, "Tree Tables");
    assert_eq!(table.column_configs.len(), 4);
    assert_eq!(table.column_configs[0].col_type, ColumnType::Number);
    assert_eq!(table.column_configs[0].unit, "€");
    assert_eq!(table.column_configs[1].col_type, ColumnType::Text);
    assert_eq!(
        table.column_configs[2].col_type,
        ColumnType::MultiplyByFactor("cost".to_owned(), num(100.0))
    );
    assert_eq!(
        table.column_configs[3].col_type,
        ColumnType::RowSum(vec!["cost".to_owned(), "price".to_owned()])
    );
    assert_eq!(table.root_row.name, "∑");
    assert_eq!(table.root_row.value("price"), num(100.0));
    assert_eq!(table.root_row.children.len(), 1);
    assert!(!table.root_row.children[0].enabled);
    assert_eq!(table.root_row.children[0].value("cost"), num(1.0));
}

#[test]
fn row_without_enabled_is_enabled() {
    let row = RowData::from_json(&parse(r#"{"name": "A", "col_data": {"x": 2.5}}"#)).unwrap();
    assert!(row.enabled);
    assert_eq!(row.name, "A");
    assert_eq!(row.value("x"), num(2.5));
    assert!(row.children.is_empty());
}

#[test]
fn document_without_schema_has_no_columns() {
    let table =
        TreeTable::from_json(&parse(r#"{"title_text": "T", "root_row": {"name": "R"}}"#)).unwrap();
    assert!(table.column_configs.is_empty());
    assert_eq!(table.title_text, "T");
    assert_eq!(table.root_row.name, "R");
}

#[test]
fn empty_object_reads_as_defaults() {
    let table = TreeTable::from_json(&parse("{}")).unwrap();
    assert_eq!(table.title_text, "");
    assert!(table.column_configs.is_empty());
    assert_eq!(table.root_row.name, "");
    assert!(table.root_row.enabled);
    assert!(table.root_row.children.is_empty());
    assert_eq!(table.root_row.col_data.len(), 0);
    let column = ColumnConfig::from_json(&parse("{}")).unwrap();
    assert_eq!(column.id, "");
    assert_eq!(column.caption, "");
    assert_eq!(column.unit, "");
    assert_eq!(column.col_type, ColumnType::Number);
}

#[test]
fn later_cell_wins_on_reading() {
    let row = RowData::from_json(&object(vec![(
        "col_data",
        object(vec![("x", JsonValue::Number(num(1.0))), ("x", JsonValue::Number(num(2.0)))]),
    )]))
    .unwrap();
    assert_eq!(row.value("x"), num(2.0));
    assert_eq!(row.col_data.len(), 1);
}

#[test]
fn first_member_of_a_name_is_read() {
    let row = RowData::from_json(&object(vec![("name", text("first")), ("name", text("second"))]))
        .unwrap();
    assert_eq!(row.name, "first");
}

#[test]
fn malformed_values_are_refused() {
    let corrupt = [
        "[]",
        "null",
        "3",
        r#"{"title_text": 3}"#,
        r#"{"column_configs": {}}"#,
        r#"{"column_configs": [3]}"#,
        r#"{"column_configs": [{"id": null}]}"#,
        r#"{"column_configs": [{"col_type": "Sum"}]}"#,
        r#"{"column_configs": [{"col_type": {"MultiplyByFactor": ["a"]}}]}"#,
        r#"{"column_configs": [{"col_type": {"MultiplyByFactor": [1, "a"]}}]}"#,
        r#"{"column_configs": [{"col_type": {"MultiplyByFactor": ["a", 1], "RowSum": []}}]}"#,
        r#"{"column_configs": [{"col_type": {"RowSum": ["a", 1]}}]}"#,
        r#"{"column_configs": [{"col_type": {"RowSum": "a"}}]}"#,
        r#"{"column_configs": [{"col_type": {"Other": []}}]}"#,
        r#"{"column_configs": [{"col_type": {}}]}"#,
        r#"{"root_row": []}"#,
        r#"{"root_row": {"name": []}}"#,
        r#"{"root_row": {"enabled": "yes"}}"#,
        r#"{"root_row": {"col_data": []}}"#,
        r#"{"root_row": {"col_data": {"x": "1"}}}"#,
        r#"{"root_row": {"col_data": {"x": 1, "y": null}}}"#,
        r#"{"root_row": {"children": {}}}"#,
        r#"{"root_row": {"children": [{"name": "a"}, {"name": 1}]}}"#,
        r#"{"root_row": {"children": [{"children": [{"enabled": 0}]}]}}"#,
    ];
    for text in corrupt {
        assert_eq!(
            TreeTable::from_json(&parse(text)).err(),
            Some(LoadError::CorruptFile),
            "{}",
            text
        );
    }
}

#[test]
fn unknown_members_are_passed_over() {
    let row = RowData::from_json(&parse(
        r#"{"zoom": 3, "name": "A", "expanded": true, "enabled": false, "extra": {"a": []}}"#,
    ))
    .unwrap();
    assert_eq!(row.name, "A");
    assert!(!row.enabled);
}
