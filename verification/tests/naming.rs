use rspc_router::naming::{ends_with_dot, is_invalid_procedure_name, is_invalid_router_prefix};

#[test]
fn empty_name_is_invalid() {
    assert!(is_invalid_procedure_name(""));
}

#[test]
fn ws_is_invalid() {
    assert!(is_invalid_procedure_name("ws"));
    assert!(!is_invalid_procedure_name("wss"));
    assert!(!is_invalid_procedure_name("w"));
}

#[test]
fn reserved_prefixes_are_invalid() {
    assert!(is_invalid_procedure_name("rpc"));
    assert!(is_invalid_procedure_name("rpcCall"));
    assert!(is_invalid_procedure_name("rspc"));
    assert!(is_invalid_procedure_name("rspcVersion"));
    assert!(!is_invalid_procedure_name("rp"));
    assert!(!is_invalid_procedure_name("rsp"));
    assert!(!is_invalid_procedure_name("version"));
}

#[test]
fn allowed_characters() {
    assert!(!is_invalid_procedure_name("getUser"));
    assert!(!is_invalid_procedure_name("get_user-2"));
    assert!(!is_invalid_procedure_name("héllo"));
    assert!(!is_invalid_procedure_name("京都"));
    assert!(!is_invalid_procedure_name("٣"));
    assert!(!is_invalid_procedure_name("_"));
    assert!(!is_invalid_procedure_name("-"));
}

#[test]
fn refused_characters() {
    assert!(is_invalid_procedure_name("users.list"));
    assert!(is_invalid_procedure_name("a b"));
    assert!(is_invalid_procedure_name("a/b"));
    assert!(is_invalid_procedure_name("💝"));
}

#[test]
fn router_prefix_gets_a_dot() {
    let (p, invalid) = is_invalid_router_prefix("users");
    assert_eq!(p, "users.");
    assert!(!invalid);
}

#[test]
fn router_prefix_with_dot_is_kept() {
    let (p, invalid) = is_invalid_router_prefix("users.");
    assert_eq!(p, "users.");
    assert!(!invalid);
}

#[test]
fn allowed_router_prefixes() {
    for prefix in ["users", "a_b", "x.", "héllo", "v2", "rpcx", "wsx"] {
        let (p, invalid) = is_invalid_router_prefix(prefix);
        assert!(p.ends_with('.'));
        assert!(!invalid, "prefix {:?}", prefix);
    }
}

#[test]
fn refused_router_prefixes() {
    for prefix in ["", ".", "ws", "ws.", "rpc", "rpc.", "rspc", "a.b", "users..", "a-b", "a b"] {
        let (p, invalid) = is_invalid_router_prefix(prefix);
        assert!(p.ends_with('.'));
        assert!(invalid, "prefix {:?}", prefix);
    }
    assert_eq!(is_invalid_router_prefix("").0, ".");
    assert_eq!(is_invalid_router_prefix(".").0, ".");
}

#[test]
fn trailing_dot() {
    assert!(ends_with_dot("a."));
    assert!(!ends_with_dot("a"));
    assert!(!ends_with_dot(""));
    assert!(ends_with_dot("."));
}
