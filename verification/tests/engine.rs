use tree_tables::{ColumnConfig, ColumnType, EngineError, JsonValue, RowData, TreeTable};

fn bits(x: f64) -> u64 {
    x.to_bits()
}

fn plus(a: u64, b: u64) -> u64 {
    (f64::from_bits(a) + f64::from_bits(b)).to_bits()
}

fn times(a: u64, b: u64) -> u64 {
    (f64::from_bits(a) * f64::from_bits(b)).to_bits()
}

fn column(id: &str, col_type: ColumnType) -> ColumnConfig {
    ColumnConfig { id: id.to_owned(), caption: String::new(), unit: String::new(), col_type }
}

fn leaf(name: &str, cells: &[(&str, f64)]) -> RowData {
    let mut row = RowData::new(name);
    for (id, x) in cells {
        row.set_value(id, bits(*x));
    }
    row
}

fn cost_and_price() -> Vec<ColumnConfig> {
    vec![
        column("cost", ColumnType::Number),
        column("price", ColumnType::MultiplyByFactor("cost".to_owned(), bits(100.0))),
    ]
}

fn number(row: &RowData, id: &str) -> f64 {
    f64::from_bits(row.value(id))
}

#[test]
fn one_leaf_under_the_root() {
    let schema = cost_and_price();
    let mut root = RowData::new("root");
    root.children.push(leaf("a", &[("cost", 1.0)]));
    assert_eq!(root.update(&schema, &plus, &times), Ok(()));
    assert_eq!(number(&root.children[0], "price"), 100.0);
    assert_eq!(number(&root, "cost"), 1.0);
    assert_eq!(number(&root, "price"), 100.0);
    assert_eq!(number(&root.children[0], "cost"), 1.0);
}

#[test]
fn disabled_only_child_gives_zero() {
    let schema = cost_and_price();
    let mut root = RowData::new("root");
    root.set_value("cost", bits(55.0));
    root.children.push(leaf("a", &[("cost", 7.5)]));
    root.children[0].set_enabled(false);
    assert_eq!(root.update(&schema, &plus, &times), Ok(()));
    assert_eq!(root.value("cost"), bits(0.0));
    assert_eq!(root.value("price"), bits(0.0));
    assert_eq!(number(&root.children[0], "cost"), 7.5);
    assert_eq!(number(&root.children[0], "price"), 750.0);
}

#[test]
fn update_twice_is_update_once() {
    let schema = cost_and_price();
    let mut root = RowData::new("root");
    let mut group = RowData::new("group");
    group.children.push(leaf("a", &[("cost", 0.1)]));
    group.children.push(leaf("b", &[("cost", 0.2)]));
    group.children.push(leaf("c", &[("cost", 0.3), ("price", 9.0)]));
    root.children.push(group);
    root.children.push(leaf("d", &[("cost", 4.0)]));
    root.update(&schema, &plus, &times).unwrap();
    let once = root.to_json();
    root.update(&schema, &plus, &times).unwrap();
    let twice = root.to_json();
    assert_eq!(format_tree(&once), format_tree(&twice));
}

fn format_tree(json: &JsonValue) -> String {
    match json {
        JsonValue::Null => "null".to_owned(),
        JsonValue::Bool(b) => format!("{}", b),
        JsonValue::Number(n) => format!("#{:016x}", n),
        JsonValue::String(s) => format!("{:?}", s),
        JsonValue::Array(items) => {
            let parts: Vec<String> = items.iter().map(format_tree).collect();
            format!("[{}]", parts.join(","))
        }
        JsonValue::Object(members) => {
            let parts: Vec<String> =
                members.iter().map(|(k, v)| format!("{:?}:{}", k, format_tree(v))).collect();
            format!("{{{}}}", parts.join(","))
        }
    }
}

#[test]
fn self_scaling_column_is_not_idempotent() {
    let schema = vec![column("x", ColumnType::MultiplyByFactor("x".to_owned(), bits(2.0)))];
    let mut row = leaf("a", &[("x", 1.0)]);
    row.update(&schema, &plus, &times).unwrap();
    assert_eq!(number(&row, "x"), 2.0);
    row.update(&schema, &plus, &times).unwrap();
    assert_eq!(number(&row, "x"), 4.0);
}

#[test]
fn leaf_numbers_are_kept() {
    let schema = cost_and_price();
    let mut root = RowData::new("root");
    root.children.push(leaf("a", &[("cost", 12.25)]));
    root.children.push(leaf("b", &[]));
    root.update(&schema, &plus, &times).unwrap();
    assert_eq!(root.children[0].value("cost"), bits(12.25));
    assert!(!root.children[1].col_data.contains("cost"));
    assert_eq!(root.children[1].value("cost"), 0);
}

#[test]
fn single_leaf_settles_its_scaled_column() {
    let schema = cost_and_price();
    let mut row = leaf("only", &[("cost", 2.5)]);
    row.update(&schema, &plus, &times).unwrap();
    assert_eq!(number(&row, "price"), 250.0);
    assert_eq!(number(&row, "cost"), 2.5);
}

#[test]
fn sum_skips_disabled_children() {
    let schema = cost_and_price();
    let mut root = RowData::new("root");
    root.children.push(leaf("a", &[("cost", 1.5)]));
    root.children.push(leaf("b", &[("cost", 1000.0)]));
    root.children.push(leaf("c", &[("cost", 2.25)]));
    root.children[1].set_enabled(false);
    root.update(&schema, &plus, &times).unwrap();
    assert_eq!(number(&root, "cost"), 3.75);
    assert_eq!(number(&root, "price"), 375.0);
    assert_eq!(number(&root.children[1], "price"), 100000.0);
}

#[test]
fn sum_adds_in_row_order_from_zero() {
    let schema = vec![column("v", ColumnType::Number)];
    let mut root = RowData::new("root");
    root.children.push(leaf("a", &[("v", 1e16)]));
    root.children.push(leaf("b", &[("v", 1.0)]));
    root.children.push(leaf("c", &[("v", -1e16)]));
    root.update(&schema, &plus, &times).unwrap();
    assert_eq!(number(&root, "v"), ((0.0 + 1e16) + 1.0) + -1e16);
}

#[test]
fn inner_row_holds_factor_times_its_own_source() {
    let schema = vec![
        column("cost", ColumnType::Number),
        column("price", ColumnType::MultiplyByFactor("cost".to_owned(), bits(0.1))),
    ];
    let mut root = RowData::new("root");
    let mut group = RowData::new("group");
    group.children.push(leaf("a", &[("cost", 0.1)]));
    group.children.push(leaf("b", &[("cost", 0.2)]));
    root.children.push(group);
    root.update(&schema, &plus, &times).unwrap();
    let group = &root.children[0];
    assert_eq!(number(group, "cost"), 0.0 + 0.1 + 0.2);
    assert_eq!(number(group, "price"), 0.1 * (0.0 + 0.1 + 0.2));
    assert_eq!(number(&group.children[0], "price"), 0.1 * 0.1);
    assert_eq!(number(&root, "price"), 0.0 + 0.1 * (0.0 + 0.1 + 0.2));
}

#[test]
fn missing_cells_read_as_zero() {
    let row = RowData::new("a");
    assert_eq!(row.value("nowhere"), 0);
    assert_eq!(f64::from_bits(row.value("nowhere")), 0.0);
    assert!(!row.col_data.contains("nowhere"));
    assert_eq!(row.col_data.get("nowhere"), None);
    assert_eq!(row.col_data.len(), 0);
}

#[test]
fn dangling_source_scales_zero() {
    let schema = vec![column("price", ColumnType::MultiplyByFactor("gone".to_owned(), bits(3.0)))];
    let mut root = RowData::new("root");
    root.children.push(leaf("a", &[("price", 8.0)]));
    assert_eq!(root.update(&schema, &plus, &times), Ok(()));
    assert_eq!(number(&root.children[0], "price"), 0.0);
    assert_eq!(number(&root, "price"), 0.0);
    assert!(!root.children[0].col_data.contains("gone"));
}

#[test]
fn text_columns_get_no_cell() {
    let schema = vec![column("note", ColumnType::Text), column("cost", ColumnType::Number)];
    let mut root = RowData::new("root");
    root.children.push(leaf("a", &[("cost", 1.0)]));
    root.children.push(leaf("b", &[("note", 5.0)]));
    root.update(&schema, &plus, &times).unwrap();
    assert!(!root.col_data.contains("note"));
    assert!(!root.children[0].col_data.contains("note"));
    assert_eq!(root.children[1].value("note"), bits(5.0));
    assert!(root.col_data.contains("cost"));
}

#[test]
fn row_sum_is_refused_and_nothing_changes() {
    let schema = vec![
        column("cost", ColumnType::Number),
        column("all", ColumnType::RowSum(vec!["cost".to_owned()])),
    ];
    let mut root = RowData::new("root");
    root.set_value("cost", bits(9.0));
    root.children.push(leaf("a", &[("cost", 1.0)]));
    assert_eq!(root.update(&schema, &plus, &times), Err(EngineError::UnimplementedFormula));
    assert_eq!(number(&root, "cost"), 9.0);
    assert!(!root.col_data.contains("all"));
    assert!(tree_tables::engine::schema_has_row_sum(&schema));
    assert!(!tree_tables::engine::schema_has_row_sum(&cost_and_price()));
}

#[test]
fn row_sum_is_refused_on_a_single_leaf() {
    let schema = vec![column("all", ColumnType::RowSum(vec![]))];
    let mut row = leaf("a", &[("x", 1.0)]);
    assert_eq!(row.update(&schema, &plus, &times), Err(EngineError::UnimplementedFormula));
}

#[test]
fn scaled_column_reads_what_stands_before_it() {
    let schema = vec![
        column("a", ColumnType::Number),
        column("b", ColumnType::MultiplyByFactor("a".to_owned(), bits(2.0))),
        column("c", ColumnType::MultiplyByFactor("b".to_owned(), bits(3.0))),
    ];
    let mut row = leaf("x", &[("a", 1.5)]);
    row.update(&schema, &plus, &times).unwrap();
    assert_eq!(number(&row, "b"), 3.0);
    assert_eq!(number(&row, "c"), 9.0);
}

#[test]
fn document_pass_runs_over_the_root() {
    let mut table = TreeTable::default();
    assert_eq!(table.recompute(&plus, &times), Ok(()));
    let cost = "2387c84a-2c68-405e-a342-d94a1dde6408";
    let price = "5aafbaab-6c03-4e8f-9fc4-cfb66ed2fb16";
    let hours = "94869fe6-c736-4c88-be7f-8084679d78fc";
    assert_eq!(number(&table.root_row, cost), 1.0);
    assert_eq!(number(&table.root_row, price), 100.0);
    assert_eq!(number(&table.root_row, hours), 0.0);
    assert_eq!(number(&table.root_row.children[0], price), 100.0);
}

#[test]
fn empty_schema_changes_nothing() {
    let mut root = RowData::new("root");
    root.set_value("x", bits(3.0));
    root.children.push(leaf("a", &[("x", 1.0)]));
    assert_eq!(root.update(&Vec::new(), &plus, &times), Ok(()));
    assert_eq!(number(&root, "x"), 3.0);
    assert_eq!(number(&root.children[0], "x"), 1.0);
}
