use tinysql::ast::{ExecError, SqlCreate, SqlDrop, SqlInsert, SqlQuery, SqlSelect};
use tinysql::executor::{create_table, drop_table, insert_into, select_table, table_header};
use tinysql::parser::parse_query;
use tinysql::store::TableStore;

fn s(x: &str) -> String {
    x.to_string()
}

fn strings(xs: &[&str]) -> Vec<String> {
    xs.iter().map(|x| x.to_string()).collect()
}

fn create(t: &str, cols: &[&str]) -> SqlCreate {
    SqlCreate { table_name: s(t), columns: strings(cols) }
}

fn insert(t: &str, cols: &[&str], vals: &[&str]) -> SqlInsert {
    SqlInsert { table_name: s(t), columns: strings(cols), values: strings(vals) }
}

fn select_all(t: &str) -> SqlSelect {
    SqlSelect { table_name: s(t), columns: None, all_columns: Some(s("*")) }
}

fn select_cols(t: &str, cols: &[&str]) -> SqlSelect {
    SqlSelect { table_name: s(t), columns: Some(strings(cols)), all_columns: None }
}

#[test]
fn create_builds_the_header_line() {
    assert_eq!(create_table(&create("t", &["a", "b"])), Ok(s("a,b")));
    assert_eq!(create_table(&create("t", &["a"])), Ok(s("a")));
}

#[test]
fn create_rejects_zero_columns() {
    assert_eq!(create_table(&create("t", &[])), Err(ExecError::InvalidSchema));
}

#[test]
fn create_rejects_an_empty_column_name() {
    assert_eq!(create_table(&create("t", &["a", ""])), Err(ExecError::InvalidSchema));
}

#[test]
fn executing_a_parsed_empty_create_fails_with_invalid_schema() {
    let (rest, q) = parse_query("CREATE TABLE t ();").unwrap();
    assert_eq!(rest, s(""));
    let mut store = TableStore::new();
    assert_eq!(store.execute(&q), Err(ExecError::InvalidSchema));
    assert!(!store.contains_table(&s("t")));
}

#[test]
fn drop_without_a_table_is_not_found() {
    let mut store = TableStore::new();
    assert_eq!(
        store.drop_table(&SqlDrop { table_name: s("t") }),
        Err(ExecError::NotFound)
    );
    assert_eq!(drop_table(&SqlDrop { table_name: s("t") }, false), Err(ExecError::NotFound));
}

#[test]
fn drop_removes_the_table_from_the_store() {
    let mut store = TableStore::new();
    store.create_table(&create("t", &["a"])).unwrap();
    assert!(store.contains_table(&s("t")));
    store.drop_table(&SqlDrop { table_name: s("t") }).unwrap();
    assert!(!store.contains_table(&s("t")));
    assert_eq!(store.table_content(&s("t")), None);
}

#[test]
fn create_insert_select_round_trip() {
    let mut store = TableStore::new();
    store.create_table(&create("t", &["a", "b"])).unwrap();
    store.insert_into(&insert("t", &["a", "b"], &["1", "2"])).unwrap();
    let lines = store.select_table(&select_all("t")).unwrap();
    assert_eq!(lines, vec![s(" 1 | 2 |")]);
}

#[test]
fn round_trip_through_the_parser() {
    let mut store = TableStore::new();
    let (_, q1) = parse_query("CREATE TABLE t (a, b);").unwrap();
    let (_, q2) = parse_query("INSERT INTO t (a, b) VALUES (1, 2);").unwrap();
    let (_, q3) = parse_query("SELECT * FROM t;").unwrap();
    assert_eq!(store.execute(&q1), Ok(Vec::new()));
    assert_eq!(store.execute(&q2), Ok(Vec::new()));
    assert_eq!(store.execute(&q3), Ok(vec![s(" 1 | 2 |")]));
}

#[test]
fn reordered_columns_are_a_schema_mismatch_and_write_nothing() {
    let mut store = TableStore::new();
    store.create_table(&create("t", &["a", "b"])).unwrap();
    let before = store.table_content(&s("t")).unwrap().clone();
    assert_eq!(
        store.insert_into(&insert("t", &["b", "a"], &["1", "2"])),
        Err(ExecError::SchemaMismatch)
    );
    assert_eq!(store.table_content(&s("t")).unwrap(), &before);
    assert_eq!(before, s("a,b"));
}

#[test]
fn partial_column_lists_are_a_schema_mismatch() {
    let mut store = TableStore::new();
    store.create_table(&create("t", &["a", "b"])).unwrap();
    assert_eq!(
        store.insert_into(&insert("t", &["a"], &["1"])),
        Err(ExecError::SchemaMismatch)
    );
    assert_eq!(
        store.insert_into(&insert("t", &["a", "b", "c"], &["1", "2", "3"])),
        Err(ExecError::SchemaMismatch)
    );
}

#[test]
fn insert_into_a_missing_table_is_not_found() {
    let mut store = TableStore::new();
    assert_eq!(
        store.insert_into(&insert("t", &["a"], &["1"])),
        Err(ExecError::NotFound)
    );
}

#[test]
fn select_from_a_missing_table_is_not_found() {
    let store = TableStore::new();
    assert_eq!(store.select_table(&select_all("t")), Err(ExecError::NotFound));
}

#[test]
fn projection_follows_header_order_not_request_order() {
    let mut store = TableStore::new();
    store.create_table(&create("t", &["a", "b", "c"])).unwrap();
    store.insert_into(&insert("t", &["a", "b", "c"], &["1", "2", "3"])).unwrap();
    let lines = store.select_table(&select_cols("t", &["c", "a"])).unwrap();
    assert_eq!(lines, vec![s(" 1 | 3 |")]);
}

#[test]
fn duplicate_requests_emit_duplicate_copies() {
    let mut store = TableStore::new();
    store.create_table(&create("t", &["a", "b"])).unwrap();
    store.insert_into(&insert("t", &["a", "b"], &["1", "2"])).unwrap();
    let lines = store.select_table(&select_cols("t", &["a", "a"])).unwrap();
    assert_eq!(lines, vec![s(" 1 | 1 |")]);
}

#[test]
fn unknown_requested_columns_contribute_nothing() {
    let mut store = TableStore::new();
    store.create_table(&create("t", &["a", "b"])).unwrap();
    store.insert_into(&insert("t", &["a", "b"], &["1", "2"])).unwrap();
    let lines = store.select_table(&select_cols("t", &["z", "b"])).unwrap();
    assert_eq!(lines, vec![s(" 2 |")]);
    let none = store.select_table(&select_cols("t", &["z"])).unwrap();
    assert_eq!(none, vec![s("")]);
}

#[test]
fn select_is_idempotent() {
    let mut store = TableStore::new();
    store.create_table(&create("t", &["a", "b"])).unwrap();
    store.insert_into(&insert("t", &["a", "b"], &["1", "2"])).unwrap();
    let q = select_cols("t", &["b", "a"]);
    let first = store.select_table(&q).unwrap();
    let second = store.select_table(&q).unwrap();
    assert_eq!(first, second);
}

#[test]
fn select_prints_every_row_in_append_order() {
    let mut store = TableStore::new();
    store.create_table(&create("t", &["a"])).unwrap();
    store.insert_into(&insert("t", &["a"], &["1"])).unwrap();
    store.insert_into(&insert("t", &["a"], &["2"])).unwrap();
    store.insert_into(&insert("t", &["a"], &["3"])).unwrap();
    let lines = store.select_table(&select_all("t")).unwrap();
    assert_eq!(lines, vec![s(" 1 |"), s(" 2 |"), s(" 3 |")]);
}

#[test]
fn create_overwrites_an_existing_table_silently() {
    let mut store = TableStore::new();
    store.create_table(&create("t", &["a"])).unwrap();
    store.insert_into(&insert("t", &["a"], &["1"])).unwrap();
    store.create_table(&create("t", &["a"])).unwrap();
    let lines = store.select_table(&select_all("t")).unwrap();
    assert_eq!(lines, Vec::<String>::new());
    assert_eq!(store.table_content(&s("t")).unwrap(), &s("a"));
}

#[test]
fn value_arity_is_written_as_given() {
    let mut store = TableStore::new();
    store.create_table(&create("t", &["a", "b"])).unwrap();
    store.insert_into(&insert("t", &["a", "b"], &["1", "2", "3"])).unwrap();
    assert_eq!(store.table_content(&s("t")).unwrap(), &s("a,b\n1,2,3"));
    let lines = store.select_table(&select_all("t")).unwrap();
    assert_eq!(lines, vec![s(" 1 | 2 | 3 |")]);
}

#[test]
fn short_rows_project_only_what_they_hold() {
    let mut store = TableStore::new();
    store.create_table(&create("t", &["a", "b"])).unwrap();
    store.insert_into(&insert("t", &["a", "b"], &["1"])).unwrap();
    let lines = store.select_table(&select_cols("t", &["b"])).unwrap();
    assert_eq!(lines, vec![s("")]);
}

#[test]
fn insert_returns_the_text_to_append() {
    let q = insert("t", &["a", "b"], &["1", "2"]);
    assert_eq!(insert_into(&q, "a,b"), Ok(s("\n1,2")));
    assert_eq!(insert_into(&q, "b,a"), Err(ExecError::SchemaMismatch));
}

#[test]
fn table_header_is_the_first_line() {
    assert_eq!(table_header("a,b\n1,2\n3,4"), s("a,b"));
    assert_eq!(table_header("a,b"), s("a,b"));
}

#[test]
fn select_table_works_on_plain_text() {
    let lines = select_table(&select_all("t"), "a,b\n1,2\n3,4");
    assert_eq!(lines, vec![s(" 1 | 2 |"), s(" 3 | 4 |")]);
}

#[test]
fn execute_dispatches_like_the_read_loop() {
    let mut store = TableStore::new();
    let steps = [
        "CREATE TABLE music (artist, album);",
        "INSERT INTO music (artist, album) VALUES (a1, b1);",
        "INSERT INTO music (artist, album) VALUES (a2, b2);",
    ];
    for step in steps.iter() {
        let (_, q) = parse_query(step).unwrap();
        store.execute(&q).unwrap();
    }
    let (_, q) = parse_query("SELECT (album) FROM music;").unwrap();
    assert_eq!(store.execute(&q), Ok(vec![s(" b1 |"), s(" b2 |")]));
    let (_, q) = parse_query("DROP TABLE music;").unwrap();
    assert_eq!(store.execute(&q), Ok(Vec::new()));
    let (_, q) = parse_query("SELECT * FROM music;").unwrap();
    assert_eq!(store.execute(&q), Err(ExecError::NotFound));
}

#[test]
fn non_select_statements_answer_with_no_lines() {
    let mut store = TableStore::new();
    let (_, q) = parse_query("CREATE TABLE t (a);").unwrap();
    match q {
        SqlQuery::CreateTable(_) => {}
        _ => panic!("expected a CreateTable statement"),
    }
    assert_eq!(store.execute(&q), Ok(Vec::new()));
}
