use mcp_rust::handlers::ToolAction;
use mcp_rust::json::Json;
use mcp_rust::mcp::{MCPServer, StepOutcome};
use mcp_rust::tenant::{
    ContextType, Permission, ResourceLimits, TenantContext, TenantManager, UserRole,
};

fn admin_context() -> TenantContext {
    TenantContext {
        tenant_id: "acme".to_string(),
        user_id: "alice".to_string(),
        context_type: ContextType::Organization {
            org_id: "acme-org".to_string(),
            org_name: "Acme".to_string(),
        },
        organization_id: "acme-org".to_string(),
        role: UserRole::Admin,
        permissions: vec![],
        aws_region: "us-west-2".to_string(),
        resource_limits: ResourceLimits::default(),
    }
}

fn server_with(context: TenantContext) -> MCPServer {
    let mut manager = TenantManager::new(false, "us-west-2".to_string());
    manager.insert_tenant(context).unwrap();
    MCPServer::new(manager, None, None)
}

fn respond_of(outcome: StepOutcome) -> mcp_rust::mcp::MCPResponse {
    match outcome {
        StepOutcome::Respond(resp) => resp,
        other => panic!("expected an immediate response, got {:?}", other),
    }
}

fn error_code(resp: &mcp_rust::mcp::MCPResponse) -> i64 {
    resp.error.as_ref().expect("expected an error").code
}

fn id_text(resp: &mcp_rust::mcp::MCPResponse) -> String {
    match &resp.id {
        Some(j) => mcp_rust::json::clone_json(j).to_text(),
        None => "null".to_string(),
    }
}

#[test]
fn test_handle_request_invalid_json() {
    let mut server = server_with(admin_context());
    let resp = respond_of(server.handle_request("{ not json", 0));
    assert!(resp.id.is_none());
    assert_eq!(error_code(&resp), -32600);
    assert!(resp.result.is_none());
}

#[test]
fn test_handle_initialize() {
    let mut server = server_with(admin_context());
    let line = "{\"jsonrpc\":\"2.0\",\"id\":0,\"method\":\"initialize\",\"params\":{},\"tenant_id\":\"acme\",\"user_id\":\"alice\"}";
    let resp = respond_of(server.handle_request(line, 0));
    assert_eq!(id_text(&resp), "0");
    assert!(resp.error.is_none());
    let result = resp.result.expect("handshake result");
    let text = result.to_text();
    assert_eq!(
        text,
        "{\"protocolVersion\":\"2025-06-18\",\"capabilities\":{\"tools\":{}},\"serverInfo\":{\"name\":\"mcp-rust\",\"version\":\"0.1.0\"}}"
    );
}

#[test]
fn test_method_not_found() {
    let mut server = server_with(admin_context());
    let line = "{\"jsonrpc\":\"2.0\",\"id\":\"x\",\"method\":\"nope\",\"tenant_id\":\"acme\",\"user_id\":\"alice\"}";
    let resp = respond_of(server.handle_request(line, 0));
    assert_eq!(id_text(&resp), "\"x\"");
    assert_eq!(error_code(&resp), -32601);
}

#[test]
fn test_notification_produces_no_response() {
    let mut server = server_with(admin_context());
    let line = "{\"jsonrpc\":\"2.0\",\"method\":\"notifications/initialized\",\"tenant_id\":\"acme\",\"user_id\":\"alice\"}";
    assert!(matches!(server.handle_request(line, 0), StepOutcome::NoResponse));
    // an explicit null id is a notification too
    let line2 = "{\"jsonrpc\":\"2.0\",\"id\":null,\"method\":\"tools/list\",\"tenant_id\":\"acme\",\"user_id\":\"alice\"}";
    assert!(matches!(server.handle_request(line2, 0), StepOutcome::NoResponse));
}

#[test]
fn test_numeric_zero_id_is_a_request() {
    let mut server = server_with(admin_context());
    let line = "{\"jsonrpc\":\"2.0\",\"id\":0,\"method\":\"tools/list\",\"tenant_id\":\"acme\",\"user_id\":\"alice\"}";
    let resp = respond_of(server.handle_request(line, 0));
    assert_eq!(id_text(&resp), "0");
    assert!(resp.error.is_none());
}

#[test]
fn test_empty_string_id_is_a_request() {
    let mut server = server_with(admin_context());
    let line = "{\"jsonrpc\":\"2.0\",\"id\":\"\",\"method\":\"tools/list\",\"tenant_id\":\"acme\",\"user_id\":\"alice\"}";
    let resp = respond_of(server.handle_request(line, 0));
    assert_eq!(id_text(&resp), "\"\"");
    assert!(resp.error.is_none());
}

#[test]
fn test_tools_list_returns_tool_array() {
    let mut server = server_with(admin_context());
    let line = "{\"jsonrpc\":\"2.0\",\"id\":1,\"method\":\"tools/list\",\"tenant_id\":\"acme\",\"user_id\":\"alice\"}";
    let resp = respond_of(server.handle_request(line, 0));
    let result = resp.result.expect("tools result");
    let tools = result.get("tools").expect("tools member");
    let arr = tools.as_array().expect("tools is an array");
    assert_eq!(arr.len(), 18);
}

#[test]
fn test_handle_tool_call_missing_params() {
    let mut server = server_with(admin_context());
    let line = "{\"jsonrpc\":\"2.0\",\"id\":2,\"method\":\"tools/call\",\"tenant_id\":\"acme\",\"user_id\":\"alice\"}";
    let resp = respond_of(server.handle_request(line, 0));
    assert_eq!(error_code(&resp), -32600);
}

#[test]
fn test_handle_tool_call_missing_tool_name() {
    let mut server = server_with(admin_context());
    let line = "{\"jsonrpc\":\"2.0\",\"id\":2,\"method\":\"tools/call\",\"params\":{},\"tenant_id\":\"acme\",\"user_id\":\"alice\"}";
    let resp = respond_of(server.handle_request(line, 0));
    assert_eq!(error_code(&resp), -32600);
}

#[test]
fn test_handle_tool_call_dispatches_kv_get() {
    let mut server = server_with(admin_context());
    let line = "{\"jsonrpc\":\"2.0\",\"id\":3,\"method\":\"tools/call\",\"params\":{\"name\":\"kv_get\",\"arguments\":{\"key\":\"alpha\"}},\"tenant_id\":\"acme\",\"user_id\":\"alice\"}";
    match server.handle_request(line, 0) {
        StepOutcome::Dispatch { session, id, action } => {
            assert_eq!(id.to_text(), "3");
            match action {
                ToolAction::KvGet { key } => assert_eq!(key, "alpha"),
                other => panic!("wrong action {:?}", other),
            }
            // one request is in flight until the backend reports back
            assert_eq!(server.total_active_requests(), 1);
            let resp = server.finish_tool_call(
                session,
                id,
                Ok(mcp_rust::json::parse_json_str("{\"value\":\"v\"}").unwrap()),
            );
            assert!(resp.error.is_none());
            assert_eq!(resp.result.unwrap().to_text(), "{\"value\":\"v\"}");
            assert_eq!(server.total_active_requests(), 0);
        },
        other => panic!("expected dispatch, got {:?}", other),
    }
}

#[test]
fn test_tool_call_with_fractional_detail_dispatches() {
    // a non-integer number in the payload is carried through exactly
    let mut server = server_with(admin_context());
    let line = "{\"jsonrpc\":\"2.0\",\"id\":9,\"method\":\"tools/call\",\"params\":{\"name\":\"events_send\",\"arguments\":{\"detailType\":\"reading\",\"detail\":{\"temperature\":98.6}}},\"tenant_id\":\"acme\",\"user_id\":\"alice\"}";
    match server.handle_request(line, 0) {
        StepOutcome::Dispatch { action, .. } => match action {
            ToolAction::EventsSend { detail_type, detail } => {
                assert_eq!(detail_type, "reading");
                assert_eq!(detail.to_text(), "{\"temperature\":98.6}");
            },
            other => panic!("wrong action {:?}", other),
        },
        other => panic!("expected dispatch, got {:?}", other),
    }
}

#[test]
fn test_handle_tool_call_with_missing_arguments() {
    // a call without `arguments` runs against the empty object
    let mut server = server_with(admin_context());
    let line = "{\"jsonrpc\":\"2.0\",\"id\":4,\"method\":\"tools/call\",\"params\":{\"name\":\"artifacts_list\"},\"tenant_id\":\"acme\",\"user_id\":\"alice\"}";
    match server.handle_request(line, 0) {
        StepOutcome::Dispatch { action, .. } => match action {
            ToolAction::ArtifactsList { prefix } => assert!(prefix.is_none()),
            other => panic!("wrong action {:?}", other),
        },
        other => panic!("expected dispatch, got {:?}", other),
    }
}

#[test]
fn test_tool_call_invalid_arguments() {
    let mut server = server_with(admin_context());
    let line = "{\"jsonrpc\":\"2.0\",\"id\":5,\"method\":\"tools/call\",\"params\":{\"name\":\"kv_get\",\"arguments\":{}},\"tenant_id\":\"acme\",\"user_id\":\"alice\"}";
    let resp = respond_of(server.handle_request(line, 0));
    assert_eq!(error_code(&resp), -32600);
    // the refusal retires the in-flight slot
    assert_eq!(server.total_active_requests(), 0);
}

#[test]
fn test_tool_call_permission_denied() {
    let mut viewer = admin_context();
    viewer.role = UserRole::Viewer;
    viewer.permissions = vec![Permission::ReadKV];
    let mut server = server_with(viewer);
    let line = "{\"jsonrpc\":\"2.0\",\"id\":6,\"method\":\"tools/call\",\"params\":{\"name\":\"kv_set\",\"arguments\":{\"key\":\"k\",\"value\":\"v\"}},\"tenant_id\":\"acme\",\"user_id\":\"alice\"}";
    let resp = respond_of(server.handle_request(line, 0));
    assert_eq!(error_code(&resp), -32000);
}

#[test]
fn test_unknown_tenant_error() {
    let mut server = server_with(admin_context());
    let line = "{\"jsonrpc\":\"2.0\",\"id\":7,\"method\":\"tools/list\",\"tenant_id\":\"ghost\",\"user_id\":\"alice\"}";
    let resp = respond_of(server.handle_request(line, 0));
    assert_eq!(error_code(&resp), -32002);
}

#[test]
fn test_missing_identity_without_defaults() {
    let mut server = server_with(admin_context());
    let line = "{\"jsonrpc\":\"2.0\",\"id\":8,\"method\":\"tools/list\"}";
    let resp = respond_of(server.handle_request(line, 0));
    assert_eq!(error_code(&resp), -32600);
}

#[test]
fn test_default_identity_is_used() {
    let mut manager = TenantManager::new(false, "us-west-2".to_string());
    manager.insert_tenant(admin_context()).unwrap();
    let mut server = MCPServer::new(manager, Some("acme".to_string()), Some("alice".to_string()));
    let line = "{\"jsonrpc\":\"2.0\",\"id\":9,\"method\":\"tools/list\"}";
    let resp = respond_of(server.handle_request(line, 0));
    assert!(resp.error.is_none());
}

#[test]
fn test_rate_limiting_error_response() {
    let mut blocked = admin_context();
    blocked.resource_limits.max_concurrent_requests = 0;
    let mut server = server_with(blocked);
    let line = "{\"jsonrpc\":\"2.0\",\"id\":10,\"method\":\"tools/list\",\"tenant_id\":\"acme\",\"user_id\":\"alice\"}";
    let resp = respond_of(server.handle_request(line, 0));
    assert_eq!(error_code(&resp), -32001);
}

#[test]
fn test_bucket_rate_limit_isolation_between_tenants() {
    // saturate tenant A's kv-read bucket; tenant B still succeeds
    let mut manager = TenantManager::new(true, "us-west-2".to_string());
    manager.aws_rate_limiter.limits.dynamodb_read_units = 1;
    let mut server = MCPServer::new(manager, None, None);
    let call_a = "{\"jsonrpc\":\"2.0\",\"id\":1,\"method\":\"tools/call\",\"params\":{\"name\":\"kv_get\",\"arguments\":{\"key\":\"k\"}},\"tenant_id\":\"tenantA\",\"user_id\":\"u\"}";
    match server.handle_request(call_a, 0) {
        StepOutcome::Dispatch { session, id, .. } => {
            server.finish_tool_call(session, id, Ok(Json::Null));
        },
        other => panic!("expected dispatch, got {:?}", other),
    }
    let resp = respond_of(server.handle_request(call_a, 0));
    assert_eq!(error_code(&resp), -32001);
    let call_b = "{\"jsonrpc\":\"2.0\",\"id\":2,\"method\":\"tools/call\",\"params\":{\"name\":\"kv_get\",\"arguments\":{\"key\":\"k\"}},\"tenant_id\":\"tenantB\",\"user_id\":\"u\"}";
    assert!(matches!(server.handle_request(call_b, 0), StepOutcome::Dispatch { .. }));
}

#[test]
fn test_drain_mode_discards_records() {
    let mut server = server_with(admin_context());
    server.initiate_shutdown();
    let line = "{\"jsonrpc\":\"2.0\",\"id\":1,\"method\":\"tools/list\",\"tenant_id\":\"acme\",\"user_id\":\"alice\"}";
    assert!(matches!(server.handle_request(line, 0), StepOutcome::NoResponse));
}

#[test]
fn test_many_requests_leave_no_active_count() {
    // many completed list calls: every in-flight counter returns to zero
    let mut server = server_with(admin_context());
    let line = "{\"jsonrpc\":\"2.0\",\"id\":1,\"method\":\"tools/list\",\"tenant_id\":\"acme\",\"user_id\":\"alice\"}";
    let mut succeeded = 0u32;
    for _ in 0..100 {
        let resp = respond_of(server.handle_request(line, 0));
        if resp.error.is_none() {
            succeeded += 1;
        }
    }
    assert!(succeeded >= 1);
    assert_eq!(server.total_active_requests(), 0);
}

#[test]
fn test_responses_keep_request_order() {
    // the step API answers each line before the next is read, so response
    // order is request order by construction
    let mut server = server_with(admin_context());
    let mut out: Vec<String> = Vec::new();
    for id in 1..=3 {
        let line = format!(
            "{{\"jsonrpc\":\"2.0\",\"id\":{},\"method\":\"tools/list\",\"tenant_id\":\"acme\",\"user_id\":\"alice\"}}",
            id
        );
        let resp = respond_of(server.handle_request(line.as_str(), 0));
        out.push(id_text(&resp));
    }
    assert_eq!(out, vec!["1", "2", "3"]);
}

#[test]
fn test_listed_tools_never_not_found() {
    // every tool reported by tools/list can be called without a
    // not-found or permission refusal
    let mut server = server_with(admin_context());
    let list_line = "{\"jsonrpc\":\"2.0\",\"id\":1,\"method\":\"tools/list\",\"tenant_id\":\"acme\",\"user_id\":\"alice\"}";
    let resp = respond_of(server.handle_request(list_line, 0));
    let result = resp.result.unwrap();
    let tools = result.get("tools").unwrap();
    let arr = tools.as_array().unwrap();
    let mut names: Vec<String> = Vec::new();
    for t in arr {
        let name_chars = t.get("name").unwrap().as_str().unwrap();
        names.push(name_chars.iter().collect());
    }
    assert_eq!(names.len(), 18);
    for name in names {
        let line = format!(
            "{{\"jsonrpc\":\"2.0\",\"id\":1,\"method\":\"tools/call\",\"params\":{{\"name\":\"{}\",\"arguments\":{{}}}},\"tenant_id\":\"acme\",\"user_id\":\"alice\"}}",
            name
        );
        match server.handle_request(line.as_str(), 0) {
            StepOutcome::Dispatch { session, id, .. } => {
                server.finish_tool_call(session, id, Ok(Json::Null));
            },
            StepOutcome::Respond(resp) => {
                // argument validation may refuse the empty object, but the
                // tool itself must be found and permitted
                let code = error_code(&resp);
                assert_eq!(code, -32600, "tool {} was refused with {}", name, code);
            },
            StepOutcome::NoResponse => panic!("unexpected silence for {}", name),
        }
    }
}

#[test]
fn test_finish_tool_call_backend_failure() {
    let mut server = server_with(admin_context());
    let line = "{\"jsonrpc\":\"2.0\",\"id\":11,\"method\":\"tools/call\",\"params\":{\"name\":\"kv_get\",\"arguments\":{\"key\":\"k\"}},\"tenant_id\":\"acme\",\"user_id\":\"alice\"}";
    match server.handle_request(line, 0) {
        StepOutcome::Dispatch { session, id, .. } => {
            let resp = server.finish_tool_call(session, id, Err("backend unavailable".to_string()));
            assert_eq!(error_code(&resp), -32003);
            assert_eq!(resp.error.unwrap().message, "Handler error: backend unavailable");
        },
        other => panic!("expected dispatch, got {:?}", other),
    }
}

#[test]
fn test_error_response_serialization() {
    let mut server = server_with(admin_context());
    let resp = respond_of(server.handle_request("{ not json", 0));
    let json = mcp_rust::mcp::response_to_json(resp);
    let text = json.to_text();
    assert!(text.starts_with("{\"jsonrpc\":\"2.0\",\"id\":null,\"error\":{\"code\":-32600,"));
    // the wire text is real JSON
    let check: serde_json::Value = serde_json::from_str(text.as_str()).unwrap();
    assert_eq!(check["error"]["code"], serde_json::Value::from(-32600));
}

#[test]
fn test_mcp_sdk_client_handshake_sequence() {
    // initialize, then the initialized notification, then tools/list
    let mut server = server_with(admin_context());
    let init = "{\"jsonrpc\":\"2.0\",\"id\":0,\"method\":\"initialize\",\"params\":{},\"tenant_id\":\"acme\",\"user_id\":\"alice\"}";
    let resp = respond_of(server.handle_request(init, 0));
    let result = resp.result.unwrap();
    assert!(result.get("protocolVersion").is_some());
    assert!(result.get("serverInfo").is_some());
    let note = "{\"jsonrpc\":\"2.0\",\"method\":\"notifications/initialized\",\"tenant_id\":\"acme\",\"user_id\":\"alice\"}";
    assert!(matches!(server.handle_request(note, 1), StepOutcome::NoResponse));
    let list = "{\"jsonrpc\":\"2.0\",\"id\":1,\"method\":\"tools/list\",\"tenant_id\":\"acme\",\"user_id\":\"alice\"}";
    let resp2 = respond_of(server.handle_request(list, 2));
    assert_eq!(id_text(&resp2), "1");
    let tools = resp2.result.unwrap();
    assert!(tools.get("tools").unwrap().as_array().is_some());
}
