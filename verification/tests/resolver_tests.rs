use pg_migrate::resolver::{sort_tables_by_dependency, TableSelection};
use pg_migrate::schema::TableDependency;

fn t(schema: &str, name: &str) -> TableSelection {
    TableSelection { schema: schema.to_string(), name: name.to_string() }
}

fn p(name: &str) -> TableSelection {
    t("public", name)
}

fn dep(name: &str, on: &[&str]) -> TableDependency {
    TableDependency {
        schema: "public".to_string(),
        name: name.to_string(),
        depends_on: on.iter().map(|n| ("public".to_string(), n.to_string())).collect(),
    }
}

fn names(sorted: &[TableSelection]) -> Vec<String> {
    sorted.iter().map(|s| s.name.clone()).collect()
}

#[test]
fn tables_that_depend_on_nothing_come_in_dictionary_order() {
    let sorted = sort_tables_by_dependency(vec![p("c"), p("a"), p("b")], Vec::new());
    assert_eq!(sorted, vec![p("a"), p("b"), p("c")]);
}

#[test]
fn the_schema_comes_before_the_name() {
    let sorted = sort_tables_by_dependency(vec![t("b", "a"), t("a", "z"), t("a", "b")], Vec::new());
    assert_eq!(sorted, vec![t("a", "b"), t("a", "z"), t("b", "a")]);
}

#[test]
fn a_table_comes_behind_the_tables_it_depends_on() {
    let deps = vec![dep("a", &["b"]), dep("b", &["c"])];
    let sorted = sort_tables_by_dependency(vec![p("a"), p("b"), p("c")], deps);
    assert_eq!(names(&sorted), vec!["c", "b", "a"]);
}

#[test]
fn parents_are_searched_in_the_order_they_are_listed() {
    let deps = vec![dep("a", &["z", "m"])];
    let sorted = sort_tables_by_dependency(vec![p("a"), p("m"), p("z")], deps);
    assert_eq!(names(&sorted), vec!["z", "m", "a"]);
}

#[test]
fn the_entries_of_a_table_add_up() {
    let deps = vec![dep("a", &["c"]), dep("b", &[]), dep("a", &["b"])];
    let sorted = sort_tables_by_dependency(vec![p("a"), p("b"), p("c")], deps);
    assert_eq!(names(&sorted), vec!["c", "b", "a"]);
}

#[test]
fn tables_outside_the_selection_have_no_part() {
    let deps = vec![dep("a", &["x", "b"]), dep("x", &["a"]), dep("b", &["y"])];
    let sorted = sort_tables_by_dependency(vec![p("b"), p("a")], deps);
    assert_eq!(names(&sorted), vec!["b", "a"]);
}

#[test]
fn a_table_that_was_selected_twice_comes_once() {
    let deps = vec![dep("a", &["b"])];
    let sorted = sort_tables_by_dependency(vec![p("a"), p("b"), p("a"), p("b")], deps);
    assert_eq!(names(&sorted), vec!["b", "a"]);
}

#[test]
fn a_table_shared_by_two_comes_before_both() {
    let deps = vec![dep("orders", &["customers"]), dep("invoices", &["customers", "orders"])];
    let sorted = sort_tables_by_dependency(vec![p("invoices"), p("orders"), p("customers")], deps);
    assert_eq!(names(&sorted), vec!["customers", "orders", "invoices"]);
}

#[test]
fn a_circle_is_cut_where_it_closes() {
    let deps = vec![dep("a", &["b"]), dep("b", &["a"])];
    let sorted = sort_tables_by_dependency(vec![p("a"), p("b")], deps);
    assert_eq!(names(&sorted), vec!["b", "a"]);
    let deps = vec![dep("a", &["b"]), dep("b", &["c"]), dep("c", &["a"])];
    let sorted = sort_tables_by_dependency(vec![p("c"), p("b"), p("a")], deps);
    assert_eq!(names(&sorted), vec!["c", "b", "a"]);
}

#[test]
fn a_table_that_depends_on_itself_comes_once() {
    let deps = vec![dep("a", &["a"])];
    let sorted = sort_tables_by_dependency(vec![p("a"), p("b")], deps);
    assert_eq!(names(&sorted), vec!["a", "b"]);
}

#[test]
fn an_empty_selection_has_an_empty_order() {
    assert_eq!(sort_tables_by_dependency(Vec::new(), vec![dep("a", &["b"])]), Vec::new());
}

#[test]
fn the_order_holds_every_table_once_and_parents_first() {
    let selection: Vec<TableSelection> = ["h", "d", "a", "f", "b", "g", "c", "e"].iter().map(|n| p(n)).collect();
    let edges: Vec<(&str, Vec<&str>)> = vec![
        ("a", vec!["b", "c"]),
        ("b", vec!["d"]),
        ("c", vec!["d", "e"]),
        ("e", vec!["f"]),
        ("g", vec!["a", "h"]),
    ];
    let deps: Vec<TableDependency> = edges.iter().map(|(c, ps)| dep(c, ps)).collect();
    let sorted = sort_tables_by_dependency(selection.clone(), deps);
    assert_eq!(sorted.len(), selection.len());
    let place = |name: &str| sorted.iter().position(|s| s.name == name).unwrap();
    for s in &selection {
        assert_eq!(sorted.iter().filter(|x| *x == s).count(), 1);
    }
    for (child, parents) in &edges {
        for parent in parents {
            assert!(place(parent) < place(child));
        }
    }
    assert_eq!(names(&sorted), vec!["d", "b", "f", "e", "c", "a", "h", "g"]);
}
