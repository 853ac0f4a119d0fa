use std::sync::Arc;

use minio_xml_validator::registry::ValidatorRegistry;
use minio_xml_validator::validators::{
    build_catalog_validator, register_all, DescriptorTree, NodeDescriptor,
};

fn tree(name: &str) -> DescriptorTree {
    DescriptorTree {
        root: NodeDescriptor {
            name: name.to_owned(),
            streaming: true,
            rules: vec![],
            children: vec![],
        },
    }
}

#[test]
fn register_and_get() {
    let mut reg = ValidatorRegistry::new();

    reg.register("test-validator", tree("root"));

    assert!(reg.get("test-validator").is_some());
    assert!(reg.get("nonexistent").is_none());
}

#[test]
fn get_returns_shared_arc() {
    let mut reg = ValidatorRegistry::new();

    reg.register("v1", tree("root"));

    let a = reg.get("v1").unwrap();
    let b = reg.get("v1").unwrap();
    assert!(Arc::ptr_eq(&a, &b));
}

#[test]
fn register_all_populates_registry() {
    let mut reg = ValidatorRegistry::new();
    register_all(&mut reg);
    assert!(reg.get("example-catalog").is_some());
}

#[test]
fn fresh_registry_is_empty() {
    assert!(ValidatorRegistry::new().get("example-catalog").is_none());
    assert!(ValidatorRegistry::default().get("").is_none());
}

#[test]
fn later_registration_replaces_earlier() {
    let mut reg = ValidatorRegistry::new();
    reg.register("v", tree("first"));
    reg.register("w", tree("other"));
    reg.register("v", tree("second"));
    assert_eq!(reg.get("v").unwrap().root.name, "second");
    assert_eq!(reg.get("w").unwrap().root.name, "other");
}

#[test]
fn register_all_keeps_other_validators() {
    let mut reg = ValidatorRegistry::new();
    reg.register("mine", tree("root"));
    reg.register("example-catalog", tree("old"));
    register_all(&mut reg);
    assert_eq!(reg.get("mine").unwrap().root.name, "root");
    assert_eq!(reg.get("example-catalog").unwrap().root.name, "catalog");
}

#[test]
fn catalog_validator_is_built_as_documented() {
    let root = build_catalog_validator().root;
    assert_eq!(root.name, "catalog");
    assert!(root.streaming);
    assert_eq!(root.rules.len(), 2);
    assert_eq!(root.rules[0].name(), "require_attr");
    assert_eq!(root.rules[1].name(), "require_children");
    assert_eq!(root.children.len(), 1);
    assert_eq!(root.children[0].name, "entry");
    assert!(root.children[0].streaming);
    assert_eq!(root.children[0].rules.len(), 1);
    assert_eq!(root.children[0].rules[0].name(), "require_attr");
    assert!(root.children[0].children.is_empty());
}
