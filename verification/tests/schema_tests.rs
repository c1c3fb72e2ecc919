use pg_migrate::schema::{
    column_definition, column_definition_for, generate_create_table_statement, primary_key_names,
    quote_ident, ColumnInfo, TableSchema,
};

fn column(name: &str, data_type: &str, nullable: bool, default: Option<&str>, key: bool, at: i32) -> ColumnInfo {
    ColumnInfo {
        name: name.to_string(),
        data_type: data_type.to_string(),
        is_nullable: nullable,
        column_default: default.map(|d| d.to_string()),
        is_primary_key: key,
        ordinal_position: at,
    }
}

#[test]
fn identifiers_are_quoted() {
    assert_eq!(quote_ident("orders"), "\"orders\"");
    assert_eq!(quote_ident("my\"table"), "\"my\"\"table\"");
    assert_eq!(quote_ident(""), "\"\"");
}

#[test]
fn a_plain_column_keeps_its_type_and_default() {
    let c = column("total", "numeric", false, Some("0"), false, 3);
    assert_eq!(column_definition(&c), "    \"total\" numeric NOT NULL DEFAULT 0");
    let c = column("note", "text", true, None, false, 4);
    assert_eq!(column_definition(&c), "    \"note\" text");
    let c = column("note", "text", false, None, false, 4);
    assert_eq!(column_definition(&c), "    \"note\" text NOT NULL");
}

#[test]
fn a_column_fed_by_a_sequence_becomes_serial() {
    let d = Some("nextval('orders_id_seq'::regclass)");
    assert_eq!(column_definition(&column("id", "integer", false, d, true, 1)), "    \"id\" SERIAL");
    assert_eq!(column_definition(&column("id", "bigint", false, d, true, 1)), "    \"id\" BIGSERIAL");
    assert_eq!(
        column_definition(&column("id", "smallint", false, d, true, 1)),
        "    \"id\" SMALLSERIAL"
    );
    assert_eq!(column_definition(&column("id", "INTEGER", true, d, true, 1)), "    \"id\" SERIAL");
}

#[test]
fn a_sequence_on_another_type_keeps_type_and_default() {
    let d = Some("nextval('s')");
    assert_eq!(
        column_definition(&column("n", "numeric", false, d, false, 1)),
        "    \"n\" numeric DEFAULT nextval('s')"
    );
}

#[test]
fn the_lowered_type_name_decides_on_serial() {
    let c = column("id", "Integer", false, Some("nextval('s')"), true, 1);
    assert_eq!(column_definition_for(&c, "integer"), "    \"id\" SERIAL");
    assert_eq!(column_definition_for(&c, "Integer"), "    \"id\" Integer DEFAULT nextval('s')");
}

#[test]
fn the_create_statement_lists_columns_and_key() {
    let columns = vec![
        column("id", "integer", false, Some("nextval('orders_id_seq'::regclass)"), true, 1),
        column("name", "character varying", true, None, false, 2),
        column("total", "numeric", false, Some("0"), false, 3),
    ];
    let keys = vec!["id".to_string()];
    assert_eq!(
        generate_create_table_statement("public", "orders", &columns, &keys),
        "CREATE TABLE \"public\".\"orders\" (\n    \"id\" SERIAL,\n    \"name\" character varying,\n    \"total\" numeric NOT NULL DEFAULT 0,\n    PRIMARY KEY (\"id\")\n);"
    );
}

#[test]
fn a_table_without_key_has_no_key_clause() {
    let columns = vec![column("a", "text", true, None, false, 1)];
    assert_eq!(
        generate_create_table_statement("s", "t", &columns, &[]),
        "CREATE TABLE \"s\".\"t\" (\n    \"a\" text\n);"
    );
}

#[test]
fn a_key_of_several_columns_is_listed_in_order() {
    let columns = vec![
        column("a", "integer", false, None, true, 1),
        column("b", "integer", false, None, true, 2),
    ];
    let keys = vec!["a".to_string(), "b".to_string()];
    assert_eq!(
        generate_create_table_statement("s", "t", &columns, &keys),
        "CREATE TABLE \"s\".\"t\" (\n    \"a\" integer NOT NULL,\n    \"b\" integer NOT NULL,\n    PRIMARY KEY (\"a\", \"b\")\n);"
    );
}

#[test]
fn a_table_without_columns_still_has_a_statement() {
    assert_eq!(generate_create_table_statement("s", "t", &[], &[]), "CREATE TABLE \"s\".\"t\" (\n\n);");
}

#[test]
fn the_key_is_the_flagged_columns() {
    let columns = vec![
        column("a", "integer", false, None, true, 1),
        column("b", "text", true, None, false, 2),
        column("c", "integer", false, None, true, 3),
    ];
    assert_eq!(primary_key_names(&columns), vec!["a".to_string(), "c".to_string()]);
    assert_eq!(primary_key_names(&[]), Vec::<String>::new());
}

#[test]
fn a_schema_is_derived_from_its_columns() {
    let columns = vec![
        column("id", "bigint", false, None, true, 1),
        column("note", "text", true, None, false, 2),
    ];
    let schema = TableSchema::from_columns("public", "notes", columns).unwrap();
    assert_eq!(schema.schema_name, "public");
    assert_eq!(schema.table_name, "notes");
    assert_eq!(schema.columns.len(), 2);
    assert_eq!(schema.primary_key_columns, vec!["id".to_string()]);
    assert_eq!(
        schema.create_statement,
        "CREATE TABLE \"public\".\"notes\" (\n    \"id\" bigint NOT NULL,\n    \"note\" text,\n    PRIMARY KEY (\"id\")\n);"
    );
}

#[test]
fn a_table_without_columns_is_not_found() {
    let got = TableSchema::from_columns("public", "ghost", Vec::new());
    assert_eq!(got.unwrap_err(), "Table public.ghost not found");
}
