use tinysql::ast::{Expectation, SqlCreate, SqlDrop, SqlInsert, SqlQuery, SqlSelect};
use tinysql::parser::{parse_create, parse_drop, parse_insert, parse_query, parse_select};

fn s(x: &str) -> String {
    x.to_string()
}

fn strings(xs: &[&str]) -> Vec<String> {
    xs.iter().map(|x| x.to_string()).collect()
}

#[test]
fn parses_test() {
    assert_eq!(
        parse_query("CREATE TABLE name (column);"),
        Ok((
            s(""),
            SqlQuery::CreateTable(SqlCreate {
                table_name: s("name"),
                columns: strings(&["column"]),
            })
        ))
    );

    assert_eq!(
        parse_query("CREATE TABLE name (column, column2);"),
        Ok((
            s(""),
            SqlQuery::CreateTable(SqlCreate {
                table_name: s("name"),
                columns: strings(&["column", "column2"]),
            })
        ))
    );

    assert_eq!(
        parse_query("DROP TABLE name;"),
        Ok((s(""), SqlQuery::Drop(SqlDrop { table_name: s("name") })))
    );

    assert_eq!(
        parse_query("INSERT INTO name (column, column2) VALUES (0, 1);"),
        Ok((
            s(""),
            SqlQuery::Insert(SqlInsert {
                table_name: s("name"),
                columns: strings(&["column", "column2"]),
                values: strings(&["0", "1"]),
            })
        ))
    );

    assert_eq!(
        parse_query("INSERT INTO name (column, column2) VALUES (0, 1);"),
        Ok((
            s(""),
            SqlQuery::Insert(SqlInsert {
                table_name: s("name"),
                columns: strings(&["column", "column2"]),
                values: strings(&["0", "1"]),
            })
        ))
    );

    // A wildcard populates the marker alone; no column list is set.
    assert_eq!(
        parse_query("SELECT * FROM name;"),
        Ok((
            s(""),
            SqlQuery::Selection(SqlSelect {
                table_name: s("name"),
                columns: None,
                all_columns: Some(s("*")),
            })
        ))
    );

    assert_eq!(
        parse_query("SELECT column,        column2 FROM name;"),
        Ok((
            s(""),
            SqlQuery::Selection(SqlSelect {
                table_name: s("name"),
                columns: Some(strings(&["column", "column2"])),
                all_columns: None,
            })
        ))
    );
}

#[test]
fn create_with_many_columns_keeps_order() {
    assert_eq!(
        parse_create("CREATE TABLE t (c1, c2, c3);"),
        Ok((
            s(""),
            SqlCreate { table_name: s("t"), columns: strings(&["c1", "c2", "c3"]) }
        ))
    );
}

#[test]
fn create_without_columns_parses_to_zero_columns() {
    assert_eq!(
        parse_create("CREATE TABLE t ();"),
        Ok((s(""), SqlCreate { table_name: s("t"), columns: Vec::new() }))
    );
}

#[test]
fn create_with_dangling_comma_yields_empty_column() {
    assert_eq!(
        parse_create("CREATE TABLE t (a,);"),
        Ok((s(""), SqlCreate { table_name: s("t"), columns: strings(&["a", ""]) }))
    );
}

#[test]
fn create_tolerates_whitespace_around_name_and_commas() {
    assert_eq!(
        parse_create("CREATE TABLE  \t t \t(a,\t b,  c);"),
        Ok((s(""), SqlCreate { table_name: s("t"), columns: strings(&["a", "b", "c"]) }))
    );
}

#[test]
fn whitespace_does_not_replace_a_comma() {
    // "a b" is one token "a" and then a failed ")" expectation.
    let r = parse_create("CREATE TABLE t (a b);");
    let e = r.unwrap_err();
    assert_eq!(e.expected, Expectation::Delimiter);
    assert_eq!(e.remaining, s(" b);"));
}

#[test]
fn missing_keyword_is_a_keyword_error() {
    let e = parse_create("MAKE TABLE t (a);").unwrap_err();
    assert_eq!(e.expected, Expectation::Keyword);
    assert_eq!(e.remaining, s("MAKE TABLE t (a);"));
}

#[test]
fn missing_space_after_keyword_is_a_char_class_error() {
    let e = parse_create("CREATE TABLEt (a);").unwrap_err();
    assert_eq!(e.expected, Expectation::CharClass);
    assert_eq!(e.remaining, s("t (a);"));
}

#[test]
fn missing_open_paren_is_a_delimiter_error() {
    let e = parse_create("CREATE TABLE t a);").unwrap_err();
    assert_eq!(e.expected, Expectation::Delimiter);
    assert_eq!(e.remaining, s("a);"));
}

#[test]
fn missing_semicolon_is_a_delimiter_error() {
    let e = parse_create("CREATE TABLE t (a)").unwrap_err();
    assert_eq!(e.expected, Expectation::Delimiter);
    assert_eq!(e.remaining, s(""));
}

#[test]
fn drop_leaves_the_rest_of_the_input() {
    assert_eq!(
        parse_drop("DROP TABLE x; more"),
        Ok((s(" more"), SqlDrop { table_name: s("x") }))
    );
}

#[test]
fn drop_requires_a_table_name() {
    let e = parse_drop("DROP TABLE ;").unwrap_err();
    assert_eq!(e.expected, Expectation::CharClass);
    assert_eq!(e.remaining, s(";"));
}

#[test]
fn insert_misspelled_values_is_a_keyword_error() {
    let e = parse_insert("INSERT INTO t (a) VALUE (1);").unwrap_err();
    assert_eq!(e.expected, Expectation::Keyword);
    assert_eq!(e.remaining, s("VALUE (1);"));
}

#[test]
fn insert_arity_is_not_checked_by_the_grammar() {
    assert_eq!(
        parse_insert("INSERT INTO t (a, b) VALUES (1, 2, 3);"),
        Ok((
            s(""),
            SqlInsert {
                table_name: s("t"),
                columns: strings(&["a", "b"]),
                values: strings(&["1", "2", "3"]),
            }
        ))
    );
}

#[test]
fn select_accepts_a_parenthesised_column_list() {
    assert_eq!(
        parse_select("SELECT (c, a) FROM t;"),
        Ok((
            s(""),
            SqlSelect {
                table_name: s("t"),
                columns: Some(strings(&["c", "a"])),
                all_columns: None,
            }
        ))
    );
}

#[test]
fn select_without_from_is_a_keyword_error() {
    let e = parse_select("SELECT a, b WHERE t;").unwrap_err();
    assert_eq!(e.expected, Expectation::Keyword);
    assert_eq!(e.remaining, s("WHERE t;"));
}

#[test]
fn query_dispatch_reports_the_select_error_when_nothing_matches() {
    let e = parse_query("nonsense").unwrap_err();
    assert_eq!(e.expected, Expectation::Keyword);
    assert_eq!(e.remaining, s("nonsense"));
}

#[test]
fn statements_are_case_sensitive() {
    assert!(parse_query("create table t (a);").is_err());
    assert!(parse_query("select * from t;").is_err());
}
