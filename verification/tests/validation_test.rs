use paragon_proto::{proto_version, validate_destination};

#[test]
fn test_validate_destination() {
    assert!(validate_destination(b"service.node"));
    assert!(validate_destination(b"a.b.c"));
    assert!(!validate_destination(b""));
    assert!(!validate_destination(b".node"));
    assert!(!validate_destination(b"service."));
    assert!(!validate_destination(b"service..node"));
    assert!(!validate_destination(b"service node"));
    assert!(!validate_destination(b"service_node"));
}

#[test]
fn test_integration_version_and_validation() {
    assert_eq!(proto_version(), 1);
    assert!(validate_destination(b"core.system"));
    assert!(!validate_destination(b"invalid destination"));
}

#[test]
fn destination_needs_a_dot() {
    assert!(!validate_destination(b"servicenode"));
    assert!(validate_destination(b"A9.z"));
    assert!(!validate_destination(b"."));
    assert!(!validate_destination(b"a..b.c"));
    assert!(validate_destination(b"a.b.c.d.e"));
    assert!(!validate_destination(b"node.servic\xc3\xa9"));
}
