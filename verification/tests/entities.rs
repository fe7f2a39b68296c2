use graph_store::config::config::Config;
use graph_store::database::edge::Edge;
use graph_store::database::node::Node;
use graph_store::database::properties::Properties;
use graph_store::models::context::Context;
use graph_store::text::same_text;

#[test]
fn new_node_has_no_properties() {
    let n = Node::new(7, "person");
    assert_eq!(n.id, 7);
    assert_eq!(n.label, "person");
    assert!(n.properties.entries().is_empty());
    assert_eq!(n.get_property("name"), None);
}

#[test]
fn node_property_is_found_after_add() {
    let mut n = Node::new(1, "person");
    n.add_property("name", "Alice");
    n.add_property("age", "30");
    assert_eq!(n.get_property("name"), Some(&"Alice".to_string()));
    assert_eq!(n.get_property("age"), Some(&"30".to_string()));
    assert_eq!(n.get_property("Name"), None);
    assert_eq!(n.id, 1);
    assert_eq!(n.label, "person");
}

#[test]
fn node_property_last_write_wins() {
    let mut n = Node::new(1, "person");
    n.add_property("name", "Alice");
    n.add_property("city", "Oslo");
    n.add_property("name", "Bob");
    assert_eq!(n.get_property("name"), Some(&"Bob".to_string()));
    assert_eq!(n.get_property("city"), Some(&"Oslo".to_string()));
    assert_eq!(n.properties.entries().len(), 2);
}

#[test]
fn node_accepts_empty_label_key_and_value() {
    let mut n = Node::new(0, "");
    n.add_property("", "");
    assert_eq!(n.label, "");
    assert_eq!(n.get_property(""), Some(&String::new()));
    assert_eq!(n.get_property(" "), None);
}

#[test]
fn node_accepts_large_and_non_ascii_values() {
    let big = "x".repeat(100_000);
    let mut n = Node::new(u32::MAX, "größe");
    n.add_property("blob", &big);
    n.add_property("名前", "アリス");
    assert_eq!(n.id, u32::MAX);
    assert_eq!(n.get_property("blob").map(|v| v.len()), Some(100_000));
    assert_eq!(n.get_property("名前"), Some(&"アリス".to_string()));
    assert_eq!(n.get_property("名"), None);
}

#[test]
fn new_edge_has_endpoints_label_and_no_properties() {
    let e = Edge::new(1, 2, "knows");
    assert_eq!(e.from, 1);
    assert_eq!(e.to, 2);
    assert_eq!(e.label, "knows");
    assert!(e.properties.entries().is_empty());
    assert_eq!(e.get_property("since"), None);
}

#[test]
fn edge_property_add_get_and_overwrite() {
    let mut e = Edge::new(3, 3, "self");
    e.add_property("since", "2020");
    assert_eq!(e.get_property("since"), Some(&"2020".to_string()));
    e.add_property("since", "2021");
    assert_eq!(e.get_property("since"), Some(&"2021".to_string()));
    assert_eq!(e.from, 3);
    assert_eq!(e.to, 3);
    assert_eq!(e.label, "self");
}

#[test]
fn new_context_has_name_and_no_properties() {
    let c = Context::new(1, "test");
    assert_eq!(c.id, 1);
    assert_eq!(c.name, "test");
    assert!(c.properties.entries().is_empty());
    assert_eq!(c.get_property("owner"), None);
}

#[test]
fn context_property_add_get_and_overwrite() {
    let mut c = Context::new(9, "tenant");
    c.add_property("owner", "ops");
    c.add_property("tier", "gold");
    c.add_property("owner", "dev");
    assert_eq!(c.get_property("owner"), Some(&"dev".to_string()));
    assert_eq!(c.get_property("tier"), Some(&"gold".to_string()));
    assert_eq!(c.id, 9);
    assert_eq!(c.name, "tenant");
}

#[test]
fn properties_keep_each_key_once_in_first_insertion_order() {
    let mut p = Properties::new();
    p.insert("b".to_string(), "1".to_string());
    p.insert("a".to_string(), "2".to_string());
    p.insert("b".to_string(), "3".to_string());
    let entries = p.entries();
    assert_eq!(entries.len(), 2);
    assert_eq!(entries[0], ("b".to_string(), "3".to_string()));
    assert_eq!(entries[1], ("a".to_string(), "2".to_string()));
    assert_eq!(p.get("b"), Some(&"3".to_string()));
    assert_eq!(p.get("a"), Some(&"2".to_string()));
    assert_eq!(p.get("c"), None);
}

#[test]
fn properties_keys_are_case_sensitive_and_exact() {
    let mut p = Properties::new();
    p.insert("color".to_string(), "red".to_string());
    assert_eq!(p.get("Color"), None);
    assert_eq!(p.get("colo"), None);
    assert_eq!(p.get("color "), None);
    assert_eq!(p.get("color"), Some(&"red".to_string()));
}

#[test]
fn same_text_compares_character_for_character() {
    assert!(same_text("", ""));
    assert!(same_text("abc", "abc"));
    assert!(!same_text("abc", "abd"));
    assert!(!same_text("abc", "ab"));
    assert!(!same_text("ab", "abc"));
    assert!(!same_text("red", "Red"));
    assert!(same_text("naïve", "naïve"));
    assert!(!same_text("naïve", "naive"));
    assert!(!same_text("é", "e\u{301}"));
}

#[test]
fn config_keeps_what_it_was_given() {
    let c = Config::new("postgres://localhost/db", 16, 30);
    assert_eq!(c.database_url, "postgres://localhost/db");
    assert_eq!(c.max_connections, 16);
    assert_eq!(c.timeout, 30);
    let d = Config::new("", 0, u32::MAX);
    assert_eq!(d.database_url, "");
    assert_eq!(d.max_connections, 0);
    assert_eq!(d.timeout, u32::MAX);
}
