use pg_migrate::schema::ColumnInfo;
use pg_migrate::statements::{
    column_list, create_if_missing_statement, ensure_schema_statement, full_table_name,
    insert_statement, keyset_select_statement, offset_select_statement, triggers_statement,
    truncate_statement,
};

fn column(name: &str) -> ColumnInfo {
    ColumnInfo {
        name: name.to_string(),
        data_type: "text".to_string(),
        is_nullable: true,
        column_default: None,
        is_primary_key: false,
        ordinal_position: 0,
    }
}

#[test]
fn a_table_is_named_with_its_schema() {
    assert_eq!(full_table_name("public", "orders"), "\"public\".\"orders\"");
}

#[test]
fn the_schema_is_created_where_it_is_missing() {
    assert_eq!(ensure_schema_statement("archive"), "CREATE SCHEMA IF NOT EXISTS \"archive\"");
}

#[test]
fn the_create_statement_is_turned_to_the_target() {
    let statement = "CREATE TABLE \"public\".\"orders\" (\n    \"id\" SERIAL\n);";
    assert_eq!(
        create_if_missing_statement(statement, "public", "orders", "public"),
        "CREATE TABLE IF NOT EXISTS \"public\".\"orders\" (\n    \"id\" SERIAL\n);"
    );
    assert_eq!(
        create_if_missing_statement(statement, "public", "orders", "archive"),
        "CREATE TABLE IF NOT EXISTS \"archive\".\"orders\" (\n    \"id\" SERIAL\n);"
    );
}

#[test]
fn a_statement_for_another_table_stays_as_it_is() {
    let statement = "CREATE TABLE \"public\".\"items\" (\n);";
    assert_eq!(create_if_missing_statement(statement, "public", "orders", "archive"), statement);
}

#[test]
fn truncating_cascades() {
    assert_eq!(truncate_statement("\"s\".\"t\""), "TRUNCATE TABLE \"s\".\"t\" CASCADE");
}

#[test]
fn triggers_are_switched_off_and_on() {
    assert_eq!(triggers_statement("\"s\".\"t\"", false), "ALTER TABLE \"s\".\"t\" DISABLE TRIGGER ALL");
    assert_eq!(triggers_statement("\"s\".\"t\"", true), "ALTER TABLE \"s\".\"t\" ENABLE TRIGGER ALL");
}

#[test]
fn columns_are_listed_between_quotes() {
    assert_eq!(column_list(&[column("id"), column("name")]), "\"id\", \"name\"");
    assert_eq!(column_list(&[column("id")]), "\"id\"");
    assert_eq!(column_list(&[]), "");
}

#[test]
fn the_first_query_by_key_has_no_condition() {
    assert_eq!(
        keyset_select_statement(
            "\"id\", \"name\"",
            "\"public\".\"orders\"",
            &["id".to_string()],
            &None,
            1000
        ),
        "SELECT \"id\", \"name\" FROM \"public\".\"orders\"  ORDER BY \"id\" LIMIT 1000"
    );
}

#[test]
fn a_later_query_by_key_starts_behind_the_last_key() {
    assert_eq!(
        keyset_select_statement(
            "\"id\", \"name\"",
            "\"public\".\"orders\"",
            &["id".to_string()],
            &Some(vec!["1000".to_string()]),
            1000
        ),
        "SELECT \"id\", \"name\" FROM \"public\".\"orders\" WHERE (\"id\") > (1000) ORDER BY \"id\" LIMIT 1000"
    );
}

#[test]
fn a_key_of_several_columns_is_compared_as_a_whole() {
    assert_eq!(
        keyset_select_statement(
            "\"a\", \"b\", \"c\"",
            "\"s\".\"t\"",
            &["a".to_string(), "b".to_string()],
            &Some(vec!["7".to_string(), "'x''y'".to_string()]),
            50
        ),
        "SELECT \"a\", \"b\", \"c\" FROM \"s\".\"t\" WHERE (\"a\", \"b\") > (7, 'x''y') ORDER BY \"a\", \"b\" LIMIT 50"
    );
}

#[test]
fn names_with_quotes_are_quoted_in_every_statement() {
    assert_eq!(full_table_name("my\"schema", "my\"table"), "\"my\"\"schema\".\"my\"\"table\"");
    assert_eq!(ensure_schema_statement("a\"b"), "CREATE SCHEMA IF NOT EXISTS \"a\"\"b\"");
    assert_eq!(column_list(&[column("a\"b")]), "\"a\"\"b\"");
    let statement = "CREATE TABLE \"s\".\"my\"\"table\" (\n);";
    assert_eq!(
        create_if_missing_statement(statement, "s", "my\"table", "z"),
        "CREATE TABLE IF NOT EXISTS \"z\".\"my\"\"table\" (\n);"
    );
}

#[test]
fn a_query_without_key_skips_what_went_over() {
    assert_eq!(
        offset_select_statement("\"a\"", "\"s\".\"t\"", 500, 1500),
        "SELECT \"a\" FROM \"s\".\"t\" ORDER BY 1 LIMIT 500 OFFSET 1500"
    );
    assert_eq!(
        offset_select_statement("\"a\"", "\"s\".\"t\"", 1, 0),
        "SELECT \"a\" FROM \"s\".\"t\" ORDER BY 1 LIMIT 1 OFFSET 0"
    );
}

#[test]
fn a_batch_is_inserted_in_one_statement() {
    let rows = vec!["1, 'a'".to_string(), "2, NULL".to_string()];
    assert_eq!(
        insert_statement("\"public\".\"orders\"", "\"id\", \"name\"", &rows),
        "INSERT INTO \"public\".\"orders\" (\"id\", \"name\") VALUES (1, 'a'), (2, NULL) ON CONFLICT DO NOTHING"
    );
}

#[test]
fn every_insert_passes_over_conflicts() {
    for n in 1..4usize {
        let rows: Vec<String> = (0..n).map(|i| i.to_string()).collect();
        let statement = insert_statement("\"s\".\"t\"", "\"a\"", &rows);
        assert!(statement.ends_with(" ON CONFLICT DO NOTHING"));
    }
}
