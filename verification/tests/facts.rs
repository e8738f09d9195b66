use actraild::facts::{requires_namespaced_root, NamespaceIdentity};

#[test]
fn path_view_uses_pid_namespace_not_runtime_attribution() {
    let host = NamespaceIdentity::new("pid:[1]");

    assert!(!requires_namespaced_root(
        &NamespaceIdentity::new("pid:[1]"),
        &host,
    ));
    assert!(requires_namespaced_root(
        &NamespaceIdentity::new("pid:[2]"),
        &host,
    ));
}
