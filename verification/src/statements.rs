//! The statements that a table transfer sends to the two databases.

use crate::schema::{ident_text, ident_texts, quote_ident, ColumnInfo};
use crate::text::{
    decimal_digits, int_text, joined, push_joined, push_signed, push_unsigned, replace_text,
    replaced, views,
};
use vstd::prelude::*;
use vstd::string::*;

verus! {

// ---------------------------------------------------------------------------
// Models
// ---------------------------------------------------------------------------
/// A table's name with its schema, both as quoted identifiers.
pub open spec fn full_table_text(schema: Seq<char>, table: Seq<char>) -> Seq<char> {
    ident_text(schema) + "."@ + ident_text(table)
}

/// The statement that makes sure a schema exists.
pub open spec fn ensure_schema_text(schema: Seq<char>) -> Seq<char> {
    "CREATE SCHEMA IF NOT EXISTS "@ + ident_text(schema)
}

/// A table's `CREATE TABLE` statement turned into one that creates the table
/// in `target_schema`, and only where it is missing: the head of the
/// statement, which names the table as the generated statement does, is
/// replaced.
pub open spec fn create_if_missing_text(
    statement: Seq<char>,
    schema: Seq<char>,
    table: Seq<char>,
    target_schema: Seq<char>,
) -> Seq<char> {
    replaced(
        statement,
        "CREATE TABLE "@ + full_table_text(schema, table),
        "CREATE TABLE IF NOT EXISTS "@ + full_table_text(target_schema, table),
    )
}

/// The statement that empties a table and what depends on it.
pub open spec fn truncate_text(full_table: Seq<char>) -> Seq<char> {
    "TRUNCATE TABLE "@ + full_table + " CASCADE"@
}

/// The statement that switches a table's triggers off or on.
pub open spec fn triggers_text(full_table: Seq<char>, enable: bool) -> Seq<char> {
    "ALTER TABLE "@ + full_table + (if enable {
        " ENABLE TRIGGER ALL"@
    } else {
        " DISABLE TRIGGER ALL"@
    })
}

/// The names of the columns as quoted identifiers, in order.
pub open spec fn column_idents(columns: Seq<ColumnInfo>) -> Seq<Seq<char>> {
    Seq::new(columns.len(), |i: int| ident_text(columns[i].name@))
}

/// The column list of a statement.
pub open spec fn column_list_text(columns: Seq<ColumnInfo>) -> Seq<char> {
    joined(column_idents(columns), ", "@)
}

/// The query for the next batch of a table with a key: the rows whose key
/// lies beyond `last_key`, or the first rows where no key was seen yet, in
/// the order of the key, `batch_size` of them at most. The key is all the
/// key columns together, compared column by column, and `last_key` holds a
/// literal for each of them.
pub open spec fn keyset_select_text(
    column_list: Seq<char>,
    full_table: Seq<char>,
    key_idents: Seq<Seq<char>>,
    last_key: Option<Seq<Seq<char>>>,
    batch_size: nat,
) -> Seq<char> {
    let key_list = joined(key_idents, ", "@);
    let condition = match last_key {
        Some(last) => "WHERE ("@ + key_list + ") > ("@ + joined(last, ", "@) + ")"@,
        None => Seq::empty(),
    };
    "SELECT "@ + column_list + " FROM "@ + full_table + " "@ + condition + " ORDER BY "@
        + key_list + " LIMIT "@ + decimal_digits(batch_size)
}

/// The query for the next batch of a table without a key: the rows in the
/// order of their first column, `batch_size` of them at most, past the first
/// `offset`.
pub open spec fn offset_select_text(
    column_list: Seq<char>,
    full_table: Seq<char>,
    batch_size: nat,
    offset: int,
) -> Seq<char> {
    "SELECT "@ + column_list + " FROM "@ + full_table + " ORDER BY 1 LIMIT "@ + decimal_digits(
        batch_size,
    ) + " OFFSET "@ + int_text(offset)
}

/// The rows' values, each between parentheses.
pub open spec fn row_groups(rows: Seq<Seq<char>>) -> Seq<Seq<char>> {
    Seq::new(rows.len(), |i: int| "("@ + rows[i] + ")"@)
}

/// The statement that inserts a batch of rows and passes over those that a
/// uniqueness constraint of the target refuses.
pub open spec fn insert_text(full_table: Seq<char>, column_list: Seq<char>, rows: Seq<Seq<char>>) -> Seq<
    char,
> {
    "INSERT INTO "@ + full_table + " ("@ + column_list + ") VALUES "@ + joined(
        row_groups(rows),
        ", "@,
    ) + " ON CONFLICT DO NOTHING"@
}

// ---------------------------------------------------------------------------
// Executable functions
// ---------------------------------------------------------------------------
/// A table's name with its schema, both as quoted identifiers.
pub fn full_table_name(schema: &str, table: &str) -> (r: String)
    ensures
        r@ == full_table_text(schema@, table@),
{
    let mut out = quote_ident(schema);
    let name = quote_ident(table);
    out.append(".");
    out.append(name.as_str());
    out
}

/// The statement that makes sure the schema `schema` exists.
pub fn ensure_schema_statement(schema: &str) -> (r: String)
    ensures
        r@ == ensure_schema_text(schema@),
{
    let mut out = String::from_str("CREATE SCHEMA IF NOT EXISTS ");
    let name = quote_ident(schema);
    out.append(name.as_str());
    out
}

/// `statement`, which creates `schema.table`, turned into the statement that
/// creates the table in `target_schema` where it is missing.
pub fn create_if_missing_statement(
    statement: &str,
    schema: &str,
    table: &str,
    target_schema: &str,
) -> (r: String)
    ensures
        r@ == create_if_missing_text(statement@, schema@, table@, target_schema@),
{
    let mut from = String::from_str("CREATE TABLE ");
    let source = full_table_name(schema, table);
    from.append(source.as_str());
    let mut to = String::from_str("CREATE TABLE IF NOT EXISTS ");
    let target = full_table_name(target_schema, table);
    to.append(target.as_str());
    replace_text(statement, from.as_str(), to.as_str())
}

/// The statement that empties the table `full_table` and what depends on it.
pub fn truncate_statement(full_table: &str) -> (r: String)
    ensures
        r@ == truncate_text(full_table@),
{
    let mut out = String::from_str("TRUNCATE TABLE ");
    out.append(full_table);
    out.append(" CASCADE");
    out
}

/// The statement that switches the triggers of `full_table` on or off.
pub fn triggers_statement(full_table: &str, enable: bool) -> (r: String)
    ensures
        r@ == triggers_text(full_table@, enable),
{
    let mut out = String::from_str("ALTER TABLE ");
    out.append(full_table);
    if enable {
        out.append(" ENABLE TRIGGER ALL");
    } else {
        out.append(" DISABLE TRIGGER ALL");
    }
    out
}

/// The column list of a statement over `columns`.
pub fn column_list(columns: &[ColumnInfo]) -> (r: String)
    ensures
        r@ == column_list_text(columns@),
{
    let mut idents: Vec<String> = Vec::new();
    let mut i: usize = 0;
    while i < columns.len()
        invariant
            i <= columns.len(),
            idents.len() == i,
            views(idents@) == column_idents(columns@).take(i as int),
        decreases columns.len() - i,
    {
        let ghost before = idents@;
        let ident = quote_ident(columns[i].name.as_str());
        idents.push(ident);
        proof {
            let want = column_idents(columns@).take(i + 1);
            assert forall|j: int| 0 <= j < i + 1 implies views(idents@)[j] == want[j] by {
                if j < i {
                    assert(views(before)[j] == column_idents(columns@).take(i as int)[j]);
                }
            }
            assert(views(idents@) =~= want);
        }
        i = i + 1;
    }
    proof {
        assert(column_idents(columns@).take(columns@.len() as int) == column_idents(columns@));
    }
    let mut out = String::new();
    push_joined(&mut out, &idents, ", ");
    out
}

/// The names as quoted identifiers, in order.
pub fn quote_idents(names: &[String]) -> (idents: Vec<String>)
    ensures
        views(idents@) == ident_texts(names@),
{
    let mut idents: Vec<String> = Vec::new();
    let mut k: usize = 0;
    while k < names.len()
        invariant
            k <= names.len(),
            idents.len() == k,
            views(idents@) == ident_texts(names@).take(k as int),
        decreases names.len() - k,
    {
        let ghost before = idents@;
        let ident = quote_ident(names[k].as_str());
        idents.push(ident);
        proof {
            let want = ident_texts(names@).take(k + 1);
            assert forall|j: int| 0 <= j < k + 1 implies views(idents@)[j] == want[j] by {
                if j < k {
                    assert(views(before)[j] == ident_texts(names@).take(k as int)[j]);
                }
            }
            assert(views(idents@) =~= want);
        }
        k = k + 1;
    }
    proof {
        assert(ident_texts(names@).take(names@.len() as int) == ident_texts(names@));
    }
    idents
}

/// The views of an optional list of strings.
pub open spec fn views_if_any(list: Option<Vec<String>>) -> Option<Seq<Seq<char>>> {
    match list {
        Some(l) => Some(views(l@)),
        None => None,
    }
}

/// The query for the next batch of a table with the key columns `keys`.
pub fn keyset_select_statement(
    column_list: &str,
    full_table: &str,
    keys: &[String],
    last_key: &Option<Vec<String>>,
    batch_size: usize,
) -> (r: String)
    ensures
        r@ == keyset_select_text(
            column_list@,
            full_table@,
            ident_texts(keys@),
            views_if_any(*last_key),
            batch_size as nat,
        ),
{
    let idents = quote_idents(keys);
    let mut key_list = String::new();
    push_joined(&mut key_list, &idents, ", ");
    let mut out = String::from_str("SELECT ");
    out.append(column_list);
    out.append(" FROM ");
    out.append(full_table);
    out.append(" ");
    match last_key {
        Some(last) => {
            out.append("WHERE (");
            out.append(key_list.as_str());
            out.append(") > (");
            push_joined(&mut out, last, ", ");
            out.append(")");
        },
        None => {},
    }
    out.append(" ORDER BY ");
    out.append(key_list.as_str());
    out.append(" LIMIT ");
    push_unsigned(&mut out, batch_size as u64);
    out
}

/// The query for the next batch of a table without a key.
pub fn offset_select_statement(
    column_list: &str,
    full_table: &str,
    batch_size: usize,
    offset: i64,
) -> (r: String)
    ensures
        r@ == offset_select_text(column_list@, full_table@, batch_size as nat, offset as int),
{
    let mut out = String::from_str("SELECT ");
    out.append(column_list);
    out.append(" FROM ");
    out.append(full_table);
    out.append(" ORDER BY 1 LIMIT ");
    push_unsigned(&mut out, batch_size as u64);
    out.append(" OFFSET ");
    push_signed(&mut out, offset);
    out
}

/// The statement that inserts the rows whose values are `rows`.
pub fn insert_statement(full_table: &str, column_list: &str, rows: &Vec<String>) -> (r: String)
    ensures
        r@ == insert_text(full_table@, column_list@, views(rows@)),
{
    let mut groups: Vec<String> = Vec::new();
    let mut i: usize = 0;
    while i < rows.len()
        invariant
            i <= rows.len(),
            groups.len() == i,
            views(groups@) == row_groups(views(rows@)).take(i as int),
        decreases rows.len() - i,
    {
        let ghost before = groups@;
        let mut group = String::from_str("(");
        group.append(rows[i].as_str());
        group.append(")");
        groups.push(group);
        proof {
            let want = row_groups(views(rows@)).take(i + 1);
            assert forall|j: int| 0 <= j < i + 1 implies views(groups@)[j] == want[j] by {
                if j < i {
                    assert(views(before)[j] == row_groups(views(rows@)).take(i as int)[j]);
                }
            }
            assert(views(groups@) =~= want);
        }
        i = i + 1;
    }
    proof {
        assert(row_groups(views(rows@)).take(rows@.len() as int) == row_groups(views(rows@)));
    }
    let mut out = String::from_str("INSERT INTO ");
    out.append(full_table);
    out.append(" (");
    out.append(column_list);
    out.append(") VALUES ");
    push_joined(&mut out, &groups, ", ");
    out.append(" ON CONFLICT DO NOTHING");
    out
}

} // verus!
