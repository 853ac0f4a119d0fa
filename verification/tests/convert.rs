use minio_xml_validator::diagnostic::{format_path, Diagnostic, PathSegment, Severity};
use minio_xml_validator::grpc::convert::diagnostic_to_proto;
use minio_xml_validator::proto;

#[test]
fn converts_error_diagnostic() {
    let diag = Diagnostic {
        rule_name: "check_attr".to_owned(),
        message: "missing attribute".to_owned(),
        element_path: vec![PathSegment::from("root"), PathSegment::from("child")],
        element_index: 3,
        severity: Severity::Error,
    };

    let msg = diagnostic_to_proto(&diag, "test.xml");

    assert_eq!(msg.rule_name, "check_attr");
    assert_eq!(msg.message, "missing attribute");
    assert_eq!(msg.element_path, "root/child");
    assert_eq!(msg.element_index, 3);
    assert_eq!(msg.severity, proto::Severity::Error);
    assert_eq!(msg.filename, "test.xml");
}

#[test]
fn converts_warning_severity() {
    let diag = Diagnostic {
        rule_name: "r".to_owned(),
        message: "m".to_owned(),
        element_path: vec![PathSegment::from("a")],
        element_index: 0,
        severity: Severity::Warning,
    };
    let msg = diagnostic_to_proto(&diag, "f.xml");
    assert_eq!(msg.severity, proto::Severity::Warning);
}

#[test]
fn converts_info_severity() {
    let diag = Diagnostic {
        rule_name: "r".to_owned(),
        message: "m".to_owned(),
        element_path: vec![],
        element_index: 0,
        severity: Severity::Info,
    };
    let msg = diagnostic_to_proto(&diag, "f.xml");
    assert_eq!(msg.severity, proto::Severity::Info);
}

#[test]
fn path_segments_are_joined_by_slashes() {
    assert_eq!(format_path(&[]), "");
    assert_eq!(format_path(&[PathSegment::from("a")]), "a");
    let path = ["a", "b", "c"].map(PathSegment::from);
    assert_eq!(format_path(&path), "a/b/c");
}
