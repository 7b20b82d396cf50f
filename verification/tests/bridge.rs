use fcp_rust::bridge::{bridge_route, socket_candidates, unknown_method_text, BridgeRoute};

#[test]
fn socket_candidates_in_order() {
    assert_eq!(
        socket_candidates(Some("/run/s.sock".to_string()), Some("/run/user/7".to_string()), 1000),
        vec!["/run/s.sock", "/run/user/7/slipstream/daemon.sock", "/tmp/slipstream-1000/daemon.sock"]
    );
    assert_eq!(socket_candidates(None, None, 0), vec!["/tmp/slipstream-0/daemon.sock"]);
    assert_eq!(
        socket_candidates(None, Some("/x".to_string()), 42),
        vec!["/x/slipstream/daemon.sock", "/tmp/slipstream-42/daemon.sock"]
    );
}

#[test]
fn daemon_requests_are_routed_by_method() {
    assert_eq!(bridge_route("fcp.session"), BridgeRoute::Session);
    assert_eq!(bridge_route("fcp.ops"), BridgeRoute::Ops);
    assert_eq!(bridge_route("fcp.query"), BridgeRoute::Query);
    assert_eq!(bridge_route("fcp.other"), BridgeRoute::Unknown);
    assert_eq!(unknown_method_text("fcp.other"), "unknown method: fcp.other");
}
