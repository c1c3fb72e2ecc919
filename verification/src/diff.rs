//! The comparison of a table's columns on the two sides.

use crate::schema::{ColumnInfo, TableSchema};
use crate::text::{joined, push_joined, same_text, views};
use vstd::prelude::*;
use vstd::string::*;

verus! {

/// How a table of the source compares to the table of the same name in the
/// target.
#[derive(Clone, Debug, PartialEq, Eq)]
pub struct SchemaDiff {
    pub schema: String,
    pub table: String,
    pub status: String,
    pub details: Option<String>,
}

/// A `SchemaDiff` with its texts as sequences of characters.
pub struct DiffView {
    pub schema: Seq<char>,
    pub table: Seq<char>,
    pub status: Seq<char>,
    pub details: Option<Seq<char>>,
}

impl View for SchemaDiff {
    type V = DiffView;

    open spec fn view(&self) -> DiffView {
        DiffView {
            schema: self.schema@,
            table: self.table@,
            status: self.status@,
            details: match self.details {
                Some(d) => Some(d@),
                None => None,
            },
        }
    }
}

/// The first of `columns` with the name `name`.
pub open spec fn find_column(columns: Seq<ColumnInfo>, name: Seq<char>) -> Option<ColumnInfo>
    decreases columns.len(),
{
    if columns.len() == 0 {
        None
    } else if columns[0].name@ == name {
        Some(columns[0])
    } else {
        find_column(columns.drop_first(), name)
    }
}

/// What is wrong with a column of the source, given the columns of the
/// target: it is missing there, or it has another type there.
pub open spec fn column_mismatch(column: ColumnInfo, target: Seq<ColumnInfo>) -> Option<Seq<char>> {
    match find_column(target, column.name@) {
        Some(other) => if column.data_type@ != other.data_type@ {
            Some(
                "Column '"@ + column.name@ + "' type mismatch: "@ + column.data_type@ + " vs "@
                    + other.data_type@,
            )
        } else {
            None
        },
        None => Some("Column '"@ + column.name@ + "' missing in target"@),
    }
}

/// What is wrong with the columns of the source, in column order.
pub open spec fn mismatches(source: Seq<ColumnInfo>, target: Seq<ColumnInfo>) -> Seq<Seq<char>>
    decreases source.len(),
{
    if source.len() == 0 {
        Seq::empty()
    } else {
        match column_mismatch(source.last(), target) {
            Some(m) => mismatches(source.drop_last(), target).push(m),
            None => mismatches(source.drop_last(), target),
        }
    }
}

/// How the table `schema.table` compares, given what reading its schema on
/// each side gave: the source could not be read; the target has no such
/// table; the columns of the source are all there with their types; or some
/// are not.
pub open spec fn diff_of(
    schema: Seq<char>,
    table: Seq<char>,
    source: Result<TableSchema, String>,
    target: Result<TableSchema, String>,
) -> DiffView {
    match source {
        Err(e) => DiffView {
            schema,
            table,
            status: "ERROR"@,
            details: Some("Failed to read source schema: "@ + e@),
        },
        Ok(s) => match target {
            Err(_) => DiffView {
                schema,
                table,
                status: "MISSING_IN_TARGET"@,
                details: Some("Table does not exist in target database"@),
            },
            Ok(t) => {
                let found = mismatches(s.columns@, t.columns@);
                if found.len() == 0 {
                    DiffView { schema, table, status: "MATCH"@, details: None }
                } else {
                    DiffView {
                        schema,
                        table,
                        status: "COLUMNS_MISMATCH"@,
                        details: Some(joined(found, ", "@)),
                    }
                }
            },
        },
    }
}

fn lookup<'a>(columns: &'a Vec<ColumnInfo>, name: &str) -> (r: Option<&'a ColumnInfo>)
    ensures
        match find_column(columns@, name@) {
            Some(c) => r == Some(&c),
            None => r is None,
        },
{
    let mut i: usize = 0;
    proof {
        assert(columns@.skip(0) == columns@);
    }
    while i < columns.len()
        invariant
            i <= columns.len(),
            find_column(columns@, name@) == find_column(columns@.skip(i as int), name@),
        decreases columns.len() - i,
    {
        proof {
            assert(columns@.skip(i as int)[0] == columns@[i as int]);
            assert(columns@.skip(i as int).drop_first() == columns@.skip(i + 1));
        }
        if same_text(columns[i].name.as_str(), name) {
            return Some(&columns[i]);
        }
        i = i + 1;
    }
    None
}

fn list_mismatches(source: &Vec<ColumnInfo>, target: &Vec<ColumnInfo>) -> (found: Vec<String>)
    ensures
        views(found@) == mismatches(source@, target@),
{
    let mut found: Vec<String> = Vec::new();
    let mut i: usize = 0;
    proof {
        assert(source@.take(0) =~= Seq::<ColumnInfo>::empty());
        assert(views(found@) =~= Seq::<Seq<char>>::empty());
    }
    while i < source.len()
        invariant
            i <= source.len(),
            views(found@) == mismatches(source@.take(i as int), target@),
        decreases source.len() - i,
    {
        let column = &source[i];
        let ghost before = found@;
        proof {
            assert(source@.take(i + 1).drop_last() == source@.take(i as int));
            assert(source@.take(i + 1).last() == *column);
        }
        match lookup(target, column.name.as_str()) {
            Some(other) => {
                if !same_text(column.data_type.as_str(), other.data_type.as_str()) {
                    let mut m = String::from_str("Column '");
                    m.append(column.name.as_str());
                    m.append("' type mismatch: ");
                    m.append(column.data_type.as_str());
                    m.append(" vs ");
                    m.append(other.data_type.as_str());
                    found.push(m);
                    proof {
                        assert(views(found@) =~= views(before).push(m@));
                    }
                }
            },
            None => {
                let mut m = String::from_str("Column '");
                m.append(column.name.as_str());
                m.append("' missing in target");
                found.push(m);
                proof {
                    assert(views(found@) =~= views(before).push(m@));
                }
            },
        }
        i = i + 1;
    }
    proof {
        assert(source@.take(source@.len() as int) == source@);
    }
    found
}

/// How the table `schema.table` compares, given what reading its schema on
/// each side gave.
pub fn compare_schemas(
    schema: String,
    table: String,
    source: &Result<TableSchema, String>,
    target: &Result<TableSchema, String>,
) -> (diff: SchemaDiff)
    ensures
        diff@ == diff_of(schema@, table@, *source, *target),
{
    match source {
        Err(e) => {
            let mut details = String::from_str("Failed to read source schema: ");
            details.append(e.as_str());
            SchemaDiff {
                schema,
                table,
                status: String::from_str("ERROR"),
                details: Some(details),
            }
        },
        Ok(s) => match target {
            Err(_) => SchemaDiff {
                schema,
                table,
                status: String::from_str("MISSING_IN_TARGET"),
                details: Some(String::from_str("Table does not exist in target database")),
            },
            Ok(t) => {
                let found = list_mismatches(&s.columns, &t.columns);
                if found.len() == 0 {
                    SchemaDiff { schema, table, status: String::from_str("MATCH"), details: None }
                } else {
                    let mut details = String::new();
                    push_joined(&mut details, &found, ", ");
                    SchemaDiff {
                        schema,
                        table,
                        status: String::from_str("COLUMNS_MISMATCH"),
                        details: Some(details),
                    }
                }
            },
        },
    }
}

} // verus!
