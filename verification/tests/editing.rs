use tree_tables::session::{file_extensions, with_primary_extension};
use tree_tables::{
    ColumnConfig, ColumnType, JsonValue, LoadError, RowData, TreeTable, TreeTablesApp, Values,
};

fn num(x: f64) -> u64 {
    x.to_bits()
}

fn plus(a: u64, b: u64) -> u64 {
    (f64::from_bits(a) + f64::from_bits(b)).to_bits()
}

fn times(a: u64, b: u64) -> u64 {
    (f64::from_bits(a) * f64::from_bits(b)).to_bits()
}

fn is_hyphenated_hex_text(text: &str) -> bool {
    text.len() == 36
        && text.chars().enumerate().all(|(i, c)| {
            if i == 8 || i == 13 || i == 18 || i == 23 {
                c == '-'
            } else {
                c.is_ascii_digit() || ('a'..='f').contains(&c)
            }
        })
}

fn column(id: &str, col_type: ColumnType) -> ColumnConfig {
    ColumnConfig { id: id.to_owned(), caption: String::new(), unit: String::new(), col_type }
}

fn schema() -> Vec<ColumnConfig> {
    vec![
        column("cost", ColumnType::Number),
        column("note", ColumnType::Text),
        column("price", ColumnType::MultiplyByFactor("cost".to_owned(), num(100.0))),
        column("all", ColumnType::RowSum(vec!["cost".to_owned()])),
    ]
}

#[test]
fn values_insert_and_read() {
    let mut values = Values::new();
    assert_eq!(values.len(), 0);
    values.insert("a", num(1.0));
    values.insert("b", num(2.0));
    values.insert("a", num(3.0));
    assert_eq!(values.len(), 2);
    assert_eq!(values.get("a"), Some(num(3.0)));
    assert_eq!(values.value("b"), num(2.0));
    assert_eq!(values.value("c"), 0);
    assert!(values.contains("a"));
    assert!(!values.contains("c"));
    assert_eq!(values.entries(), vec![("a".to_owned(), num(3.0)), ("b".to_owned(), num(2.0))]);
    let copy = values.clone();
    assert_eq!(copy.entries(), values.entries());
}

#[test]
fn first_child_takes_over_the_parents_numbers() {
    let mut row = RowData::new("parent");
    row.set_value("cost", num(7.0));
    row.set_value("price", num(700.0));
    row.set_value("note", num(1.0));
    row.set_value("all", num(2.0));
    assert!(row.add_child(&schema()));
    let child = &row.children[0];
    assert_eq!(child.name, "");
    assert!(child.enabled);
    assert!(child.children.is_empty());
    assert_eq!(child.value("cost"), num(7.0));
    assert_eq!(child.value("price"), num(700.0));
    assert!(!child.col_data.contains("note"));
    assert!(!child.col_data.contains("all"));
    assert_eq!(child.col_data.len(), 2);
    row.update(&schema()[..3].to_vec(), &plus, &times).unwrap();
    assert_eq!(row.value("cost"), num(7.0));
}

#[test]
fn later_child_starts_at_zero() {
    let mut row = RowData::new("parent");
    row.set_value("cost", num(7.0));
    row.add_child(&schema());
    assert!(row.add_child(&schema()));
    assert_eq!(row.children.len(), 2);
    let child = &row.children[1];
    assert!(child.col_data.contains("cost"));
    assert_eq!(child.value("cost"), 0);
    assert!(child.col_data.contains("price"));
    assert_eq!(child.value("price"), 0);
    assert!(!child.col_data.contains("note"));
}

#[test]
fn first_child_of_an_empty_row_reads_zero() {
    let mut row = RowData::new("parent");
    row.add_child(&schema());
    assert!(row.children[0].col_data.contains("cost"));
    assert_eq!(row.children[0].value("cost"), 0);
}

#[test]
fn removing_a_child_drops_its_subtree() {
    let mut row = RowData::new("parent");
    row.children.push(RowData::new("a"));
    row.children.push(RowData::new("b"));
    row.children.push(RowData::new("c"));
    row.children[1].children.push(RowData::new("b1"));
    assert!(row.remove_child(1));
    assert_eq!(row.children.len(), 2);
    assert_eq!(row.children[0].name, "a");
    assert_eq!(row.children[1].name, "c");
    assert!(!row.remove_child(2));
    assert_eq!(row.children.len(), 2);
}

#[test]
fn enabling_keeps_the_cells() {
    let mut row = RowData::new("a");
    row.set_value("cost", num(4.0));
    assert!(row.set_enabled(false));
    assert!(!row.enabled);
    assert_eq!(row.value("cost"), num(4.0));
    assert!(row.set_enabled(true));
    assert!(row.enabled);
    assert!(row.rename("b"));
    assert_eq!(row.name, "b");
}

#[test]
fn editable_cells() {
    let columns = schema();
    let mut row = RowData::new("a");
    assert!(row.is_leaf());
    assert!(row.is_editable(&columns[0]));
    assert!(!row.is_editable(&columns[1]));
    assert!(!row.is_editable(&columns[2]));
    assert!(!row.is_editable(&columns[3]));
    row.children.push(RowData::new("b"));
    assert!(!row.is_leaf());
    assert!(!row.is_editable(&columns[0]));
    assert!(ColumnType::Number.is_editable());
    assert!(ColumnType::Text.is_editable());
    assert!(!ColumnType::MultiplyByFactor(String::new(), 0).is_editable());
    assert!(!ColumnType::RowSum(Vec::new()).is_editable());
}

#[test]
fn default_row_and_clone() {
    let row = RowData::default();
    assert_eq!(row.name, "");
    assert!(row.enabled);
    assert!(row.children.is_empty());
    assert_eq!(row.col_data.len(), 0);
    let mut tree = RowData::new("a");
    tree.set_value("x", num(1.0));
    tree.children.push(RowData::new("b"));
    let copy = tree.clone();
    assert_eq!(copy.to_json(), tree.to_json());
}

#[test]
fn new_column_has_a_fresh_identity() {
    let a = ColumnConfig::default();
    let b = ColumnConfig::default();
    assert!(is_hyphenated_hex_text(&a.id));
    assert_eq!(a.id.len(), 36);
    assert_eq!(a.id.as_bytes()[14], b'4');
    assert!(b"89ab".contains(&a.id.as_bytes()[19]));
    assert_ne!(a.id, b.id);
    assert_eq!(a.caption, "");
    assert_eq!(a.unit, "€");
    assert_eq!(a.col_type, ColumnType::Number);
    let c = ColumnConfig::with_id("mine".to_owned());
    assert_eq!(c.id, "mine");
    assert_eq!(c.unit, "€");
    assert_eq!(c.col_type, ColumnType::Number);
    assert_eq!(c.clone(), c);
}

#[test]
fn adding_a_column_appends_it() {
    let mut table = TreeTable::default();
    assert!(!table.add_column());
    assert_eq!(table.column_configs.len(), 4);
    assert!(is_hyphenated_hex_text(&table.column_configs[3].id));
    assert_eq!(table.column_configs[3].col_type, ColumnType::Number);
    assert_eq!(table.column_configs[0].caption, "Materialkosten");
    assert!(!table.root_row.col_data.contains(&table.column_configs[3].id));
    assert_eq!(table.recompute(&plus, &times), Ok(()));
    assert_eq!(table.root_row.value(&table.column_configs[3].id), 0);
}

#[test]
fn removing_a_column_keeps_the_cells() {
    let mut table = TreeTable::default();
    table.recompute(&plus, &times).unwrap();
    let cost = "2387c84a-2c68-405e-a342-d94a1dde6408";
    let price = "5aafbaab-6c03-4e8f-9fc4-cfb66ed2fb16";
    assert!(!table.remove_column(cost));
    assert_eq!(table.column_configs.len(), 2);
    assert_eq!(table.column_configs[0].caption, "Arbeitszeit");
    assert_eq!(table.column_configs[1].caption, "Verkaufspreis");
    assert_eq!(table.root_row.children[0].value(cost), num(1.0));
    assert!(!table.remove_column("nowhere"));
    assert_eq!(table.column_configs.len(), 2);
    table.root_row.children[0].set_value(cost, num(5.0));
    table.recompute(&plus, &times).unwrap();
    assert_eq!(table.root_row.value(price), num(500.0));
    assert_eq!(table.root_row.value(cost), num(1.0));
}

#[test]
fn editing_a_column_in_place() {
    let mut table = TreeTable::default();
    let hours = "94869fe6-c736-4c88-be7f-8084679d78fc";
    assert!(!table.set_column_caption(hours, "Zeit"));
    assert!(!table.set_column_unit(hours, "min"));
    assert!(!table.set_column_type(hours, ColumnType::Text));
    assert_eq!(table.column_configs[1].id, hours);
    assert_eq!(table.column_configs[1].caption, "Zeit");
    assert_eq!(table.column_configs[1].unit, "min");
    assert_eq!(table.column_configs[1].col_type, ColumnType::Text);
    assert_eq!(table.column_configs[0].caption, "Materialkosten");
    assert!(!table.set_column_caption("nowhere", "x"));
    assert_eq!(table.column_configs.len(), 3);
    assert_eq!(tree_tables::document::find_column(&table.column_configs, hours), Some(1));
    assert_eq!(tree_tables::document::find_column(&table.column_configs, "nowhere"), None);
    assert!(table.set_title("Other"));
    assert_eq!(table.title_text, "Other");
}

#[test]
fn changed_formula_overwrites_on_the_next_pass() {
    let mut table = TreeTable::default();
    table.recompute(&plus, &times).unwrap();
    let cost = "2387c84a-2c68-405e-a342-d94a1dde6408";
    let price = "5aafbaab-6c03-4e8f-9fc4-cfb66ed2fb16";
    table.set_column_type(price, ColumnType::MultiplyByFactor(cost.to_owned(), num(2.0)));
    assert_eq!(table.root_row.value(price), num(100.0));
    table.recompute(&plus, &times).unwrap();
    assert_eq!(table.root_row.value(price), num(2.0));
}

#[test]
fn first_document() {
    let table = TreeTable::default();
    assert_eq!(table.title_text, "Tree Tables");
    assert_eq!(table.column_configs.len(), 3);
    assert_eq!(table.column_configs[0].id, "2387c84a-2c68-405e-a342-d94a1dde6408");
    assert_eq!(table.column_configs[1].unit, "h");
    assert_eq!(
        table.column_configs[2].col_type,
        ColumnType::MultiplyByFactor("2387c84a-2c68-405e-a342-d94a1dde6408".to_owned(), num(100.0))
    );
    assert_eq!(table.root_row.name, "∑");
    assert_eq!(table.root_row.col_data.len(), 0);
    assert_eq!(table.root_row.children.len(), 1);
    assert_eq!(table.root_row.children[0].name, "A");
    assert_eq!(
        table.root_row.children[0].value("2387c84a-2c68-405e-a342-d94a1dde6408"),
        num(1.0)
    );
    assert_eq!(tree_tables::document::ONE, num(1.0));
    assert_eq!(tree_tables::document::HUNDRED, num(100.0));
    let copy = table.clone();
    assert_eq!(copy.to_json(), table.to_json());
}

#[test]
fn session_starts_modified() {
    let app = TreeTablesApp::default();
    assert_eq!(app.filename, "unnamed.tt");
    assert!(app.file_modified);
    assert!(!app.close_requested);
    assert!(!app.show_decimals);
    assert_eq!(app.file_label(), "unnamed.tt*");
    assert!(TreeTablesApp::new(Some(true)).show_decimals);
    assert!(!TreeTablesApp::new(None).show_decimals);
    assert!(!TreeTablesApp::new(Some(false)).show_decimals);
}

#[test]
fn session_open_replaces_or_keeps() {
    let mut app = TreeTablesApp::default();
    let corrupt = JsonValue::Array(Vec::new());
    assert_eq!(app.open("bad.tt", &corrupt), Err(LoadError::CorruptFile));
    assert_eq!(app.filename, "unnamed.tt");
    assert!(app.file_modified);
    assert_eq!(app.tree_table.title_text, "Tree Tables");
    let mut other = TreeTable::default();
    other.set_title("Other");
    assert_eq!(app.open("good.tt", &other.to_json()), Ok(()));
    assert_eq!(app.filename, "good.tt");
    assert!(!app.file_modified);
    assert_eq!(app.tree_table.title_text, "Other");
    assert_eq!(app.file_label(), "good.tt");
}

#[test]
fn save_as_sets_the_extension() {
    let mut app = TreeTablesApp::default();
    app.saved(true);
    assert!(app.save_as("report.json"));
    assert_eq!(app.filename, "report.tt");
    assert!(!app.file_modified);
    assert_eq!(app.tree_table.title_text, "Tree Tables");
    assert!(app.save_as("offers/2024/plain"));
    assert_eq!(app.filename, "offers/2024/plain.tt");
    assert!(app.save_as("a.b.ttable"));
    assert_eq!(app.filename, "a.b.tt");
    assert!(app.save_as("done.tt"));
    assert_eq!(app.filename, "done.tt");
    assert!(app.save_as("plain"));
    assert_eq!(app.filename, "plain.tt");
    assert!(app.save_as(".hidden"));
    assert_eq!(app.filename, ".hidden.tt");
    assert!(app.save_as("ends."));
    assert_eq!(app.filename, "ends.tt");
    assert!(app.save_as("..."));
    assert_eq!(app.filename, "...tt");
    assert!(app.save_as("..a"));
    assert_eq!(app.filename, "..tt");
    assert!(app.save_as("ä.ö.ü"));
    assert_eq!(app.filename, "ä.ö.tt");
}

#[test]
fn save_as_takes_a_path_without_a_file_as_it_comes() {
    let mut app = TreeTablesApp::default();
    assert!(!app.save_as(""));
    assert_eq!(app.filename, "");
    assert!(!app.save_as(".."));
    assert_eq!(app.filename, "..");
    assert!(!app.save_as("dir/.."));
    assert_eq!(app.filename, "dir/..");
    assert!(app.file_modified);
}

#[test]
fn primary_extension_alone() {
    assert_eq!(with_primary_extension("x.y/z"), Some("x.y/z.tt".to_owned()));
    assert_eq!(with_primary_extension("table.json"), Some("table.tt".to_owned()));
    assert_eq!(with_primary_extension(""), None);
    assert_eq!(with_primary_extension("/"), None);
    assert_eq!(file_extensions(), vec!["tt", "json", "ttable"]);
}

#[test]
fn columns_edited_by_position() {
    let both_without_identity = JsonValue::Object(vec![(
        "column_configs".to_owned(),
        JsonValue::Array(vec![JsonValue::Object(Vec::new()), JsonValue::Object(Vec::new())]),
    )]);
    let mut table = TreeTable::from_json(&both_without_identity).unwrap();
    assert_eq!(table.column_configs[0].id, "");
    assert_eq!(table.column_configs[1].id, "");
    assert!(!table.set_column_caption_at(1, "second"));
    assert!(!table.set_column_unit_at(1, "h"));
    assert!(!table.set_column_type_at(1, ColumnType::Text));
    assert_eq!(table.column_configs[0].caption, "");
    assert_eq!(table.column_configs[0].col_type, ColumnType::Number);
    assert_eq!(table.column_configs[1].caption, "second");
    assert_eq!(table.column_configs[1].unit, "h");
    assert_eq!(table.column_configs[1].col_type, ColumnType::Text);
    assert!(!table.set_column_caption_at(2, "nowhere"));
    assert!(!table.remove_column_at(2));
    assert_eq!(table.column_configs.len(), 2);
    assert!(!table.remove_column_at(1));
    assert_eq!(table.column_configs.len(), 1);
    assert_eq!(table.column_configs[0].caption, "");
    assert!(!table.remove_column_at(0));
    assert!(table.column_configs.is_empty());
}

#[test]
fn session_save_and_close() {
    let mut app = TreeTablesApp::default();
    app.saved(false);
    assert!(app.file_modified);
    assert!(app.request_close());
    assert!(app.close_requested);
    app.saved(true);
    assert!(!app.file_modified);
    assert!(!app.request_close());
    app.note(false);
    assert!(!app.file_modified);
    app.note(true);
    assert!(app.file_modified);
    app.note(false);
    assert!(app.file_modified);
    app.discard_changes();
    assert!(!app.file_modified);
    app.set_filename("x.tt");
    assert_eq!(app.filename, "x.tt");
    assert_eq!(app.refresh(&plus, &times), Ok(()));
    assert!(!app.file_modified);
    assert_eq!(
        app.tree_table.root_row.value("5aafbaab-6c03-4e8f-9fc4-cfb66ed2fb16"),
        num(100.0)
    );
}
