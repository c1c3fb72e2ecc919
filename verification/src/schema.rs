//! What the catalog tells about a table, and the `CREATE TABLE` statement
//! that rebuilds it elsewhere.

use crate::text::{
    contains_text, has_substring, joined, lower, lowered, push_joined, quote_with, quoted,
    same_text, views,
};
use vstd::prelude::*;
use vstd::string::*;

verus! {

/// A table as the catalog lists it.
#[derive(Clone, Debug)]
pub struct TableInfo {
    pub name: String,
    pub schema: String,
    pub row_count: i64,
    pub size_bytes: i64,
}

/// One column of a table.
#[derive(Clone, Debug)]
pub struct ColumnInfo {
    pub name: String,
    pub data_type: String,
    pub is_nullable: bool,
    pub column_default: Option<String>,
    pub is_primary_key: bool,
    pub ordinal_position: i32,
}

/// One foreign-key constraint, column by column.
#[derive(Clone, Debug)]
pub struct ForeignKey {
    pub constraint_name: String,
    pub table_schema: String,
    pub table_name: String,
    pub column_name: String,
    pub foreign_table_schema: String,
    pub foreign_table_name: String,
    pub foreign_column_name: String,
}

/// A table and the tables that its foreign keys point to.
#[derive(Clone, Debug)]
pub struct TableDependency {
    pub schema: String,
    pub name: String,
    pub depends_on: Vec<(String, String)>,
}

/// Everything needed to rebuild and fill a table.
#[derive(Clone, Debug)]
pub struct TableSchema {
    pub table_name: String,
    pub schema_name: String,
    pub columns: Vec<ColumnInfo>,
    pub primary_key_columns: Vec<String>,
    pub create_statement: String,
}

// ---------------------------------------------------------------------------
// Models
// ---------------------------------------------------------------------------
/// `name` as a quoted identifier.
pub open spec fn ident_text(name: Seq<char>) -> Seq<char> {
    quoted(name, '"')
}

/// A default expression that draws from a sequence.
pub open spec fn draws_from_sequence(default: Option<String>) -> bool {
    match default {
        Some(d) => has_substring(d@, "nextval"@),
        None => false,
    }
}

/// The serial type that stands for an integer type fed by a sequence, given
/// the type's name in lower case.
pub open spec fn serial_type(lowered: Seq<char>) -> Option<Seq<char>> {
    if lowered == "integer"@ {
        Some("SERIAL"@)
    } else if lowered == "bigint"@ {
        Some("BIGSERIAL"@)
    } else if lowered == "smallint"@ {
        Some("SMALLSERIAL"@)
    } else {
        None
    }
}

/// The line that defines `col`, given its type's name in lower case. A column
/// fed by a sequence becomes a serial column where its type allows, and then
/// carries neither `NOT NULL` nor its default.
pub open spec fn column_definition_text(col: ColumnInfo, lowered: Seq<char>) -> Seq<char> {
    let fed = draws_from_sequence(col.column_default);
    let serial = if fed {
        serial_type(lowered)
    } else {
        None
    };
    let shown_type = match serial {
        Some(t) => t,
        None => col.data_type@,
    };
    let not_null = if !col.is_nullable && !fed {
        " NOT NULL"@
    } else {
        Seq::empty()
    };
    let default_clause = match (serial, col.column_default) {
        (None, Some(d)) => " DEFAULT "@ + d@,
        _ => Seq::empty(),
    };
    "    "@ + ident_text(col.name@) + " "@ + shown_type + not_null + default_clause
}

/// The lines that define the columns, in order.
pub open spec fn column_definitions(columns: Seq<ColumnInfo>) -> Seq<Seq<char>> {
    Seq::new(
        columns.len(),
        |i: int| column_definition_text(columns[i], lowered(columns[i].data_type@)),
    )
}

/// The names as quoted identifiers, in order.
pub open spec fn ident_texts(names: Seq<String>) -> Seq<Seq<char>> {
    Seq::new(names.len(), |i: int| ident_text(names[i]@))
}

/// The `CREATE TABLE` statement for a table with these column lines and this
/// primary key.
pub open spec fn create_table_text(
    schema: Seq<char>,
    table: Seq<char>,
    definitions: Seq<Seq<char>>,
    key_idents: Seq<Seq<char>>,
) -> Seq<char> {
    let key_clause = if key_idents.len() > 0 {
        ",\n    PRIMARY KEY ("@ + joined(key_idents, ", "@) + ")"@
    } else {
        Seq::empty()
    };
    "CREATE TABLE "@ + ident_text(schema) + "."@ + ident_text(table) + " (\n"@ + joined(
        definitions,
        ",\n"@,
    ) + key_clause + "\n);"@
}

/// The names of the columns that belong to the primary key, in column order.
pub open spec fn key_names(columns: Seq<ColumnInfo>) -> Seq<Seq<char>>
    decreases columns.len(),
{
    if columns.len() == 0 {
        Seq::empty()
    } else if columns.last().is_primary_key {
        key_names(columns.drop_last()).push(columns.last().name@)
    } else {
        key_names(columns.drop_last())
    }
}

impl TableSchema {
    /// The derived parts agree with the columns: the key is the flagged
    /// columns, and the statement is the one generated from them.
    pub open spec fn wf(&self) -> bool {
        &&& self.columns@.len() > 0
        &&& views(self.primary_key_columns@) == key_names(self.columns@)
        &&& self.create_statement@ == create_table_text(
            self.schema_name@,
            self.table_name@,
            column_definitions(self.columns@),
            ident_texts(self.primary_key_columns@),
        )
    }
}

// ---------------------------------------------------------------------------
// Executable functions
// ---------------------------------------------------------------------------
/// `name` as a quoted identifier: between double quotes, each double quote
/// inside it doubled.
pub fn quote_ident(name: &str) -> (r: String)
    ensures
        r@ == ident_text(name@),
{
    quote_with(name, '"')
}

/// The line that defines `col`, given its type's name in lower case.
pub fn column_definition_for(col: &ColumnInfo, lowered: &str) -> (r: String)
    ensures
        r@ == column_definition_text(*col, lowered@),
{
    let fed = match &col.column_default {
        Some(d) => contains_text(d.as_str(), "nextval"),
        None => false,
    };
    let mut serial: Option<&str> = None;
    if fed {
        if same_text(lowered, "integer") {
            serial = Some("SERIAL");
        } else if same_text(lowered, "bigint") {
            serial = Some("BIGSERIAL");
        } else if same_text(lowered, "smallint") {
            serial = Some("SMALLSERIAL");
        }
    }
    let mut def = String::from_str("    ");
    let ident = quote_ident(col.name.as_str());
    def.append(ident.as_str());
    def.append(" ");
    match serial {
        Some(t) => {
            def.append(t);
        },
        None => {
            def.append(col.data_type.as_str());
        },
    }
    if !col.is_nullable && !fed {
        def.append(" NOT NULL");
    }
    if serial.is_none() {
        match &col.column_default {
            Some(d) => {
                def.append(" DEFAULT ");
                def.append(d.as_str());
            },
            None => {},
        }
    }
    def
}

/// The line that defines `col`.
pub fn column_definition(col: &ColumnInfo) -> (r: String)
    ensures
        r@ == column_definition_text(*col, lowered(col.data_type@)),
{
    let lowered = lower(col.data_type.as_str());
    column_definition_for(col, lowered.as_str())
}

/// The `CREATE TABLE` statement for `schema.table` with these columns and
/// this primary key.
pub fn generate_create_table_statement(
    schema: &str,
    table: &str,
    columns: &[ColumnInfo],
    primary_keys: &[String],
) -> (sql: String)
    ensures
        sql@ == create_table_text(
            schema@,
            table@,
            column_definitions(columns@),
            ident_texts(primary_keys@),
        ),
{
    let mut definitions: Vec<String> = Vec::new();
    let mut i: usize = 0;
    while i < columns.len()
        invariant
            i <= columns.len(),
            definitions.len() == i,
            views(definitions@) == column_definitions(columns@).take(i as int),
        decreases columns.len() - i,
    {
        let ghost before = definitions@;
        let def = column_definition(&columns[i]);
        definitions.push(def);
        proof {
            let want = column_definitions(columns@).take(i + 1);
            assert forall|j: int| 0 <= j < i + 1 implies views(definitions@)[j] == want[j] by {
                if j < i {
                    assert(views(before)[j] == column_definitions(columns@).take(i as int)[j]);
                }
            }
            assert(views(definitions@) =~= want);
        }
        i = i + 1;
    }
    let mut idents: Vec<String> = Vec::new();
    let mut k: usize = 0;
    while k < primary_keys.len()
        invariant
            k <= primary_keys.len(),
            idents.len() == k,
            views(idents@) == ident_texts(primary_keys@).take(k as int),
        decreases primary_keys.len() - k,
    {
        let ghost before = idents@;
        let ident = quote_ident(primary_keys[k].as_str());
        idents.push(ident);
        proof {
            let want = ident_texts(primary_keys@).take(k + 1);
            assert forall|j: int| 0 <= j < k + 1 implies views(idents@)[j] == want[j] by {
                if j < k {
                    assert(views(before)[j] == ident_texts(primary_keys@).take(k as int)[j]);
                }
            }
            assert(views(idents@) =~= want);
        }
        k = k + 1;
    }
    proof {
        assert(column_definitions(columns@).take(columns@.len() as int) == column_definitions(
            columns@,
        ));
        assert(ident_texts(primary_keys@).take(primary_keys@.len() as int) == ident_texts(
            primary_keys@,
        ));
    }
    let mut sql = String::from_str("CREATE TABLE ");
    let schema_ident = quote_ident(schema);
    let table_ident = quote_ident(table);
    sql.append(schema_ident.as_str());
    sql.append(".");
    sql.append(table_ident.as_str());
    sql.append(" (\n");
    push_joined(&mut sql, &definitions, ",\n");
    if idents.len() > 0 {
        sql.append(",\n    PRIMARY KEY (");
        push_joined(&mut sql, &idents, ", ");
        sql.append(")");
    }
    sql.append("\n);");
    sql
}

/// The names of the columns flagged as part of the primary key, in order.
pub fn primary_key_names(columns: &[ColumnInfo]) -> (names: Vec<String>)
    ensures
        views(names@) == key_names(columns@),
{
    let mut names: Vec<String> = Vec::new();
    let mut i: usize = 0;
    while i < columns.len()
        invariant
            i <= columns.len(),
            views(names@) == key_names(columns@.take(i as int)),
        decreases columns.len() - i,
    {
        proof {
            assert(columns@.take(i + 1).drop_last() == columns@.take(i as int));
        }
        if columns[i].is_primary_key {
            let ghost before = names@;
            names.push(columns[i].name.clone());
            proof {
                let want = key_names(columns@.take(i as int)).push(columns@[i as int].name@);
                assert forall|j: int| 0 <= j < want.len() implies views(names@)[j] == want[j] by {
                    if j < before.len() {
                        assert(views(before)[j] == key_names(columns@.take(i as int))[j]);
                    }
                }
                assert(views(names@) =~= want);
            }
        }
        i = i + 1;
    }
    proof {
        assert(columns@.take(columns@.len() as int) == columns@);
    }
    names
}

/// What is said of a table of which the catalog lists no column: there is no
/// such table.
pub open spec fn not_found_text(schema: Seq<char>, table: Seq<char>) -> Seq<char> {
    "Table "@ + schema + "."@ + table + " not found"@
}

impl TableSchema {
    /// The schema of `schema.table` from the columns that the catalog lists:
    /// the primary key and the statement are derived from them. A table of
    /// which the catalog lists no column does not exist, and has no schema.
    pub fn from_columns(schema: &str, table: &str, columns: Vec<ColumnInfo>) -> (r: Result<
        TableSchema,
        String,
    >)
        ensures
            match r {
                Ok(s) => {
                    &&& columns@.len() > 0
                    &&& s.wf()
                    &&& s.schema_name@ == schema@
                    &&& s.table_name@ == table@
                    &&& s.columns == columns
                },
                Err(e) => columns@.len() == 0 && e@ == not_found_text(schema@, table@),
            },
    {
        if columns.len() == 0 {
            let mut message = String::from_str("Table ");
            message.append(schema);
            message.append(".");
            message.append(table);
            message.append(" not found");
            return Err(message);
        }
        let primary_key_columns = primary_key_names(columns.as_slice());
        let create_statement = generate_create_table_statement(
            schema,
            table,
            columns.as_slice(),
            primary_key_columns.as_slice(),
        );
        Ok(
            TableSchema {
                table_name: String::from_str(table),
                schema_name: String::from_str(schema),
                columns,
                primary_key_columns,
                create_statement,
            },
        )
    }
}

} // verus!
