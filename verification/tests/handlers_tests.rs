use mcp_rust::handlers::{
    parse_artifacts_put, parse_events_create_alert, parse_events_create_rule, parse_events_query,
    parse_events_send, parse_kv_get, parse_kv_set, render_artifacts_get, render_artifacts_list,
    render_kv_get, render_success, HandlerError, HandlerRegistry, ToolAction,
};
use mcp_rust::handlers::{
    connection_kv_key, credential_kv_key, integration_config_to_json, integration_kv_key,
    ConfigField, IntegrationConfig,
};
use mcp_rust::json::parse_json_str;
use mcp_rust::tenant::{
    ContextType, Permission, ResourceLimits, TenantContext, TenantSession, UserRole,
};

fn args(text: &str) -> mcp_rust::json::Json {
    parse_json_str(text).unwrap()
}

fn session_with(role: UserRole, permissions: Vec<Permission>) -> TenantSession {
    TenantSession::new(
        TenantContext {
            tenant_id: "t".to_string(),
            user_id: "u".to_string(),
            context_type: ContextType::Personal,
            organization_id: String::new(),
            role,
            permissions,
            aws_region: "us-west-2".to_string(),
            resource_limits: ResourceLimits::default(),
        },
        0,
    )
}

#[test]
fn test_parse_kv_get_requires_key() {
    assert!(matches!(
        parse_kv_get(&args("{}")),
        Err(HandlerError::InvalidArguments(_))
    ));
    match parse_kv_get(&args("{\"key\":\"k\"}")) {
        Ok(ToolAction::KvGet { key }) => assert_eq!(key, "k"),
        other => panic!("unexpected {:?}", other),
    }
}

#[test]
fn test_parse_kv_set_fields() {
    assert!(parse_kv_set(&args("{\"key\":\"k\"}")).is_err());
    match parse_kv_set(&args("{\"key\":\"k\",\"value\":\"v\",\"ttl_hours\":24}")) {
        Ok(ToolAction::KvSet { key, value, ttl_hours }) => {
            assert_eq!(key, "k");
            assert_eq!(value, "v");
            assert_eq!(ttl_hours, Some(24));
        },
        other => panic!("unexpected {:?}", other),
    }
}

#[test]
fn test_parse_artifacts_put_decodes_base64() {
    match parse_artifacts_put(&args("{\"key\":\"k\",\"content\":\"aGVsbG8=\"}")) {
        Ok(ToolAction::ArtifactsPut { key, content, content_type }) => {
            assert_eq!(key, "k");
            assert_eq!(content, b"hello".to_vec());
            assert_eq!(content_type, "text/plain");
        },
        other => panic!("unexpected {:?}", other),
    }
    assert!(matches!(
        parse_artifacts_put(&args("{\"key\":\"k\",\"content\":\"not base64!\"}")),
        Err(HandlerError::InvalidArguments(_))
    ));
}

#[test]
fn test_parse_events_send_requires_fields() {
    assert!(parse_events_send(&args("{\"detailType\":\"t\"}")).is_err());
    match parse_events_send(&args("{\"detailType\":\"t\",\"detail\":{\"a\":1}}")) {
        Ok(ToolAction::EventsSend { detail_type, detail }) => {
            assert_eq!(detail_type, "t");
            assert_eq!(detail.to_text(), "{\"a\":1}");
        },
        other => panic!("unexpected {:?}", other),
    }
}

#[test]
fn test_parse_events_query_defaults() {
    match parse_events_query(&args("{}")) {
        Ok(ToolAction::EventsQuery { user_id, limit, ascending, .. }) => {
            assert!(user_id.is_none());
            assert_eq!(limit, 50);
            assert!(!ascending);
        },
        other => panic!("unexpected {:?}", other),
    }
    match parse_events_query(&args("{\"userId\":\"u\",\"limit\":5,\"sortOrder\":\"asc\"}")) {
        Ok(ToolAction::EventsQuery { user_id, limit, ascending, .. }) => {
            assert_eq!(user_id.as_deref(), Some("u"));
            assert_eq!(limit, 5);
            assert!(ascending);
        },
        other => panic!("unexpected {:?}", other),
    }
}

#[test]
fn test_create_rule_requires_name() {
    assert!(matches!(
        parse_events_create_rule(&args("{\"pattern\":{}}")),
        Err(HandlerError::InvalidArguments(_))
    ));
}

#[test]
fn test_create_rule_requires_pattern() {
    assert!(matches!(
        parse_events_create_rule(&args("{\"name\":\"r\"}")),
        Err(HandlerError::InvalidArguments(_))
    ));
    match parse_events_create_rule(&args("{\"name\":\"r\",\"pattern\":{\"source\":[\"s\"]}}")) {
        Ok(ToolAction::EventsCreateRule { name, enabled, .. }) => {
            assert_eq!(name, "r");
            assert!(enabled);
        },
        other => panic!("unexpected {:?}", other),
    }
}

#[test]
fn test_create_alert_requires_name() {
    assert!(parse_events_create_alert(&args("{\"ruleId\":\"r\",\"notificationMethod\":\"sns\"}"))
        .is_err());
}

#[test]
fn test_create_alert_requires_rule_id() {
    assert!(parse_events_create_alert(&args("{\"name\":\"a\",\"notificationMethod\":\"sns\"}"))
        .is_err());
    match parse_events_create_alert(&args(
        "{\"name\":\"a\",\"ruleId\":\"r\",\"notificationMethod\":\"email\",\"emailAddress\":\"a@b\"}",
    )) {
        Ok(ToolAction::EventsCreateAlert { name, rule_id, notification_method, email_address, .. }) => {
            assert_eq!(name, "a");
            assert_eq!(rule_id, "r");
            assert_eq!(notification_method, "email");
            assert_eq!(email_address.as_deref(), Some("a@b"));
        },
        other => panic!("unexpected {:?}", other),
    }
}

#[test]
fn test_integration_storage_keys() {
    assert_eq!(mcp_rust::handlers::kv_storage_key("t", "k"), "t:k");
    assert_eq!(mcp_rust::handlers::blob_storage_key("t", "k"), "t/k");
    assert_eq!(integration_kv_key("svc"), "integration-svc");
    assert_eq!(credential_kv_key("t", "svc", "api_key"), "mcp-credential-t-svc-api_key");
    assert_eq!(connection_kv_key("u", "svc", "default"), "user-u-integration-svc-default");
}

#[test]
fn test_integration_config_serialization() {
    let config = IntegrationConfig {
        id: "svc".to_string(),
        name: "Service".to_string(),
        description: "d".to_string(),
        category: "Analytics".to_string(),
        auth_method: mcp_rust::registry::AuthMethod::NoAuth,
        configuration_schema: vec![ConfigField {
            key: "token".to_string(),
            label: "Token".to_string(),
            field_type: "string".to_string(),
            required: true,
            description: "access token".to_string(),
            sensitive: true,
        }],
        capabilities: vec!["search".to_string()],
    };
    assert_eq!(
        integration_config_to_json(&config).to_text(),
        "{\"id\":\"svc\",\"name\":\"Service\",\"description\":\"d\",\"category\":\"Analytics\"}"
    );
}

#[test]
fn test_parse_server_config_process_and_docker() {
    let process = mcp_rust::handlers::parse_server_config(&args(
        "{\"service_id\":\"svc\",\"name\":\"Svc\",\"auth_method\":\"none\",\"command\":\"run\",\"args\":[\"--x\"],\"env\":{\"K\":\"V\"},\"capabilities\":[\"c1\"]}",
    ))
    .unwrap();
    assert_eq!(process.id, "svc");
    assert_eq!(process.name, "Svc");
    assert!(matches!(process.server_type, mcp_rust::registry::MCPServerType::Stdio));
    match &process.deployment {
        mcp_rust::registry::DeploymentConfig::Process { command, args } => {
            assert_eq!(command, "run");
            assert_eq!(args, &vec!["--x".to_string()]);
        },
        other => panic!("expected process deployment, got {:?}", other),
    }
    assert_eq!(process.env, vec![("K".to_string(), "V".to_string())]);
    assert!(matches!(process.auth_method, mcp_rust::registry::AuthMethod::NoAuth));
    assert_eq!(process.capabilities, vec!["c1".to_string()]);

    let docker = mcp_rust::handlers::parse_server_config(&args(
        "{\"service_id\":\"d\",\"name\":\"D\",\"auth_method\":{\"api_key\":{\"key_field\":\"API\"}},\"docker_config\":{\"image\":\"img\",\"tag\":\"v1\",\"ports\":[\"80:80\"]}}",
    ))
    .unwrap();
    match &docker.deployment {
        mcp_rust::registry::DeploymentConfig::Docker { image, tag, ports, .. } => {
            assert_eq!(image, "img");
            assert_eq!(tag, "v1");
            assert_eq!(ports, &vec!["80:80".to_string()]);
        },
        other => panic!("expected docker deployment, got {:?}", other),
    }
    match &docker.auth_method {
        mcp_rust::registry::AuthMethod::ApiKey { key_field } => assert_eq!(key_field, "API"),
        other => panic!("expected api key auth, got {:?}", other),
    }

    // a missing auth_method is refused
    assert!(mcp_rust::handlers::parse_server_config(&args(
        "{\"service_id\":\"svc\",\"name\":\"Svc\"}"
    ))
    .is_err());
}

#[test]
fn test_parse_connect_credentials() {
    let creds = mcp_rust::handlers::parse_connect_credentials(&args(
        "{\"service_id\":\"s\",\"credentials\":{\"api_key\":\"SECRET-REDACTED\"}}",
    ));
    assert_eq!(creds, Some(vec![("api_key".to_string(), "SECRET-REDACTED".to_string())]));
    assert!(mcp_rust::handlers::parse_connect_credentials(&args("{\"service_id\":\"s\"}"))
        .is_none());
    // a non-string credential value is refused
    assert!(mcp_rust::handlers::parse_connect_credentials(&args(
        "{\"credentials\":{\"n\":1}}"
    ))
    .is_none());
}

#[test]
fn test_parse_tools_list_reply() {
    let reply = args(
        "{\"jsonrpc\":\"2.0\",\"id\":2,\"result\":{\"tools\":[{\"name\":\"echo\",\"description\":\"say it back\"}]}}",
    );
    let tools = mcp_rust::handlers::parse_tools_list_reply(&reply).unwrap();
    assert_eq!(tools.len(), 1);
    assert_eq!(tools[0].name, "echo");
    assert_eq!(tools[0].description, "say it back");
    assert!(mcp_rust::handlers::parse_tools_list_reply(&args("{\"result\":{}}")).is_err());
    assert!(mcp_rust::handlers::parse_tools_list_reply(&args(
        "{\"result\":{\"tools\":[{}]}}"
    ))
    .is_err());
}

#[test]
fn test_registry_has_all_tools() {
    let registry = HandlerRegistry::new();
    assert_eq!(registry.handlers.len(), 18);
    let names: Vec<&str> = registry.handlers.iter().map(|h| h.name.as_str()).collect();
    assert!(names.contains(&"kv_get"));
    assert!(names.contains(&"events_analytics"));
    assert!(names.contains(&"integration_register"));
    assert!(names.contains(&"mcp_proxy"));
}

#[test]
fn test_tool_schema() {
    let registry = HandlerRegistry::new();
    let query = registry
        .handlers
        .iter()
        .find(|h| h.name == "events_query")
        .expect("events_query registered");
    let schema = &query.schema;
    assert!(schema.get("description").is_some());
    let input = schema.get("inputSchema").expect("inputSchema present");
    let props = input.get("properties").expect("properties present");
    assert!(props.get("userId").is_some());
    assert!(props.get("limit").is_some());
    assert!(props.get("sortOrder").is_some());
}

#[test]
fn test_check_access_gating() {
    let registry = HandlerRegistry::new();
    let admin = session_with(UserRole::Admin, vec![]);
    assert!(registry.check_access(&admin, "kv_get").is_ok());
    assert!(matches!(
        registry.check_access(&admin, "no_such_tool"),
        Err(HandlerError::NotFound(_))
    ));
    let viewer = session_with(UserRole::Viewer, vec![Permission::ReadKV]);
    assert!(registry.check_access(&viewer, "kv_get").is_ok());
    assert!(matches!(
        registry.check_access(&viewer, "kv_set"),
        Err(HandlerError::PermissionDenied(Permission::WriteKV))
    ));
}

#[test]
fn test_list_tools_filters_by_permission() {
    let registry = HandlerRegistry::new();
    let admin = session_with(UserRole::Admin, vec![]);
    assert_eq!(registry.list_tools(&admin).len(), 18);
    let viewer = session_with(UserRole::Viewer, vec![Permission::ReadKV]);
    let listed = registry.list_tools(&viewer);
    // the viewer sees exactly the tools gated on ReadKV
    assert_eq!(listed.len(), 2);
    let names: Vec<String> = listed
        .iter()
        .map(|t| t.get("name").unwrap().as_str().unwrap().iter().collect())
        .collect();
    assert!(names.contains(&"kv_get".to_string()));
    assert!(names.contains(&"events_health_check".to_string()));
}

#[test]
fn test_parse_server_config_rejects_bad_env() {
    assert!(mcp_rust::handlers::parse_server_config(&args(
        "{\"service_id\":\"s\",\"name\":\"n\",\"auth_method\":\"none\",\"env\":{\"K\":1}}"
    ))
    .is_err());
}

#[test]
fn test_listed_descriptor_keeps_schema_members() {
    let registry = HandlerRegistry::new();
    let admin = session_with(UserRole::Admin, vec![]);
    let listed = registry.list_tools(&admin);
    for t in &listed {
        assert!(t.get("name").is_some());
        assert!(t.get("description").is_some());
        assert!(t.get("inputSchema").is_some());
    }
}

#[test]
fn test_render_kv_get() {
    assert_eq!(render_kv_get(Some("v".to_string())).to_text(), "{\"value\":\"v\"}");
    assert_eq!(render_kv_get(None).to_text(), "{\"value\":null}");
}

#[test]
fn test_render_success() {
    assert_eq!(render_success().to_text(), "{\"success\":true}");
}

#[test]
fn test_render_artifacts_get_encodes_base64() {
    assert_eq!(
        render_artifacts_get(Some(b"hello".to_vec())).to_text(),
        "{\"content\":\"aGVsbG8=\",\"encoding\":\"base64\"}"
    );
    assert_eq!(render_artifacts_get(None).to_text(), "{\"content\":null}");
}

#[test]
fn test_render_artifacts_list() {
    assert_eq!(
        render_artifacts_list(vec!["a".to_string(), "b".to_string()]).to_text(),
        "{\"keys\":[\"a\",\"b\"]}"
    );
    assert_eq!(render_artifacts_list(vec![]).to_text(), "{\"keys\":[]}");
}
