use minio_xml_validator::diagnostic::{Diagnostic, Severity};
use minio_xml_validator::validators::{
    build_catalog_validator, Node, NodeDescriptor, NodeNeeds, RequireAttr, RequireChildren, Rule,
};

fn element(attributes: &[&str], child_count: usize, path: &[&str], index: usize) -> Node {
    Node {
        attributes: attributes.iter().map(|name| (*name).to_owned()).collect(),
        child_count,
        path: path.iter().map(|name| (*name).to_owned()).collect(),
        element_index: index,
    }
}

fn apply(descriptor: &NodeDescriptor, node: &Node) -> Vec<Diagnostic> {
    descriptor.rules.iter().flat_map(|rule| rule.evaluate(node)).collect()
}

/// The findings on a catalog and the one entry in it.
fn validate(catalog: Node, entry: Option<Node>) -> Vec<Diagnostic> {
    let tree = build_catalog_validator();
    let mut found = apply(&tree.root, &catalog);
    if let Some(entry) = entry {
        found.extend(apply(&tree.root.children[0], &entry));
    }
    found
}

#[test]
fn valid_catalog_produces_no_diagnostics() {
    let diags = validate(
        element(&["version"], 1, &["catalog"], 0),
        Some(element(&["id"], 0, &["catalog", "entry"], 1)),
    );
    assert!(diags.is_empty(), "unexpected: {:?}", diags);
}

#[test]
fn missing_version_attr_reports_error() {
    let diags = validate(
        element(&[], 1, &["catalog"], 0),
        Some(element(&["id"], 0, &["catalog", "entry"], 1)),
    );
    assert!(diags
        .iter()
        .any(|d| d.rule_name == "require_attr" && d.message.contains("version")));
}

#[test]
fn missing_entry_id_reports_error() {
    let diags = validate(
        element(&["version"], 1, &["catalog"], 0),
        Some(element(&[], 0, &["catalog", "entry"], 1)),
    );
    assert!(diags
        .iter()
        .any(|d| d.rule_name == "require_attr" && d.message.contains("id")));
}

#[test]
fn empty_catalog_warns_no_children() {
    let diags = validate(element(&["version"], 0, &["catalog"], 0), None);
    assert!(diags.iter().any(|d| d.rule_name == "require_children"));
}

#[test]
fn missing_attribute_finding_in_full() {
    let rule = RequireAttr { attr_name: "id" };
    let node = element(&["name"], 0, &["catalog", "entry"], 5);
    let found = rule.evaluate(&node);
    assert_eq!(found.len(), 1);
    assert_eq!(found[0].rule_name, "require_attr");
    assert_eq!(found[0].severity, Severity::Error);
    assert_eq!(found[0].message, "missing required attribute 'id'");
    assert_eq!(found[0].element_path, ["catalog", "entry"]);
    assert_eq!(found[0].element_index, 5);
    assert_eq!(rule.needs(), NodeNeeds::Attrs);
}

#[test]
fn missing_children_finding_in_full() {
    let rule = RequireChildren;
    let found = rule.evaluate(&element(&[], 0, &["catalog"], 2));
    assert_eq!(found.len(), 1);
    assert_eq!(found[0].rule_name, "require_children");
    assert_eq!(found[0].severity, Severity::Warning);
    assert_eq!(found[0].message, "element has no children");
    assert_eq!(found[0].element_path, ["catalog"]);
    assert_eq!(found[0].element_index, 2);
    assert!(rule.evaluate(&element(&[], 1, &["catalog"], 2)).is_empty());
    assert_eq!(rule.needs(), NodeNeeds::Children);
}

#[test]
fn element_numbers_are_cut_to_32_bits() {
    let node = element(&[], 0, &[], 0x1_0000_0007);
    assert_eq!(RequireChildren.evaluate(&node)[0].element_index, 7);
}

#[test]
fn rules_by_kind() {
    let attr = Rule::RequireAttr(RequireAttr { attr_name: "id" });
    let children = Rule::RequireChildren(RequireChildren);
    assert_eq!(attr.name(), "require_attr");
    assert_eq!(attr.needs(), NodeNeeds::Attrs);
    assert_eq!(children.name(), "require_children");
    assert_eq!(children.needs(), NodeNeeds::Children);
    let node = element(&["id"], 0, &[], 0);
    assert!(attr.evaluate(&node).is_empty());
    assert_eq!(children.evaluate(&node).len(), 1);
}

#[test]
fn attributes_are_found_by_name() {
    let node = element(&["a", "b"], 0, &[], 0);
    assert!(node.has_attr("a"));
    assert!(node.has_attr("b"));
    assert!(!node.has_attr("A"));
    assert!(!node.has_attr(""));
}
