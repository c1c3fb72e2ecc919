use pg_migrate::dependencies::collect_dependencies;
use pg_migrate::resolver::{sort_tables_by_dependency, TableSelection};

fn key(child: &str, parent: &str) -> ((String, String), (String, String)) {
    (("public".to_string(), child.to_string()), ("public".to_string(), parent.to_string()))
}

fn table(name: &str) -> (String, String) {
    ("public".to_string(), name.to_string())
}

#[test]
fn each_table_has_one_entry_with_its_parents_in_order() {
    let deps = collect_dependencies(&vec![
        key("orders", "customers"),
        key("items", "orders"),
        key("orders", "shops"),
        key("items", "products"),
    ]);
    assert_eq!(deps.len(), 2);
    assert_eq!((deps[0].schema.as_str(), deps[0].name.as_str()), ("public", "orders"));
    assert_eq!(deps[0].depends_on, vec![table("customers"), table("shops")]);
    assert_eq!((deps[1].schema.as_str(), deps[1].name.as_str()), ("public", "items"));
    assert_eq!(deps[1].depends_on, vec![table("orders"), table("products")]);
}

#[test]
fn a_key_of_a_table_to_itself_is_left_out() {
    let deps = collect_dependencies(&vec![key("tree", "tree"), key("leaf", "tree"), key("leaf", "leaf")]);
    assert_eq!(deps.len(), 1);
    assert_eq!(deps[0].name, "leaf");
    assert_eq!(deps[0].depends_on, vec![table("tree")]);
}

#[test]
fn a_table_is_listed_once_however_many_keys_point_to_it() {
    let deps = collect_dependencies(&vec![key("a", "b"), key("a", "b"), key("a", "c"), key("a", "b")]);
    assert_eq!(deps.len(), 1);
    assert_eq!(deps[0].depends_on, vec![table("b"), table("c")]);
}

#[test]
fn tables_of_the_same_name_in_two_schemas_are_two_tables() {
    let deps = collect_dependencies(&vec![
        (("a".to_string(), "t".to_string()), ("b".to_string(), "t".to_string())),
        (("b".to_string(), "t".to_string()), ("a".to_string(), "u".to_string())),
    ]);
    assert_eq!(deps.len(), 2);
    assert_eq!(deps[0].depends_on, vec![("b".to_string(), "t".to_string())]);
    assert_eq!(deps[1].depends_on, vec![("a".to_string(), "u".to_string())]);
}

#[test]
fn no_keys_give_no_dependencies() {
    assert_eq!(collect_dependencies(&Vec::new()).len(), 0);
}

#[test]
fn the_dependencies_of_the_keys_order_the_tables() {
    let deps = collect_dependencies(&vec![
        key("items", "orders"),
        key("orders", "customers"),
        key("customers", "customers"),
    ]);
    let selection = ["items", "customers", "orders"]
        .iter()
        .map(|n| TableSelection { schema: "public".to_string(), name: n.to_string() })
        .collect();
    let sorted = sort_tables_by_dependency(selection, deps);
    let names: Vec<&str> = sorted.iter().map(|t| t.name.as_str()).collect();
    assert_eq!(names, vec!["customers", "orders", "items"]);
}
