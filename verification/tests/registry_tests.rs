use mcp_rust::json::{parse_json_str, Json};
use mcp_rust::registry::{
    build_connect_env, build_forward_request, build_initialize_request, build_tools_list_request,
    docker_run_args, make_container_name, render_mcp_list_tools, AuthMethod, ConnectionStatus,
    DeploymentConfig, MCPServerConfig, MCPServerRegistry, MCPServerType, MCPTool, RegistryError,
};

fn stdio_config(id: &str) -> MCPServerConfig {
    MCPServerConfig {
        id: id.to_string(),
        name: format!("{} server", id),
        description: "a test sub-server".to_string(),
        server_type: MCPServerType::Stdio,
        deployment: DeploymentConfig::Process { command: "srv".to_string(), args: vec![] },
        env: vec![],
        auth_method: AuthMethod::NoAuth,
        capabilities: vec![],
        health_check_interval_secs: 60,
        auto_reconnect: true,
    }
}

#[test]
fn test_register_server_records_disconnected_entry() {
    let mut registry = MCPServerRegistry::new();
    let write = registry.register_server("tenant", stdio_config("alpha")).unwrap();
    assert_eq!(write.key, "mcp-registry-tenant-alpha");
    assert!(write.value.starts_with("{\"id\":\"alpha\""));
    let infos = registry.list_servers("tenant").unwrap();
    assert_eq!(infos.len(), 1);
    assert_eq!(infos[0].id, "alpha");
    assert_eq!(infos[0].status, "Disconnected");
    assert_eq!(infos[0].tool_count, 0);
}

#[test]
fn test_list_servers_filters_by_tenant() {
    let mut registry = MCPServerRegistry::new();
    registry.register_server("t1", stdio_config("a")).unwrap();
    registry.register_server("t2", stdio_config("b")).unwrap();
    assert_eq!(registry.list_servers("t1").unwrap().len(), 1);
    assert_eq!(registry.list_servers("t2").unwrap().len(), 1);
    assert_eq!(registry.list_servers("t3").unwrap().len(), 0);
}

#[test]
fn test_reregistration_replaces_the_entry() {
    let mut registry = MCPServerRegistry::new();
    registry.register_server("tenant", stdio_config("alpha")).unwrap();
    registry.servers[0].1.status = ConnectionStatus::Connected;
    registry.servers[0].1.process_attached = true;
    let mut newer = stdio_config("alpha");
    newer.name = "alpha v2".to_string();
    registry.register_server("tenant", newer).unwrap();
    // the stale live state is gone; the fresh Disconnected entry carries
    // the new configuration
    assert_eq!(registry.servers.len(), 1);
    assert_eq!(registry.servers[0].1.config.name, "alpha v2");
    assert!(matches!(registry.servers[0].1.status, ConnectionStatus::Disconnected));
    assert!(!registry.servers[0].1.process_attached);
}

#[test]
fn test_health_due_gating() {
    let mut registry = MCPServerRegistry::new();
    registry.register_server("tenant", stdio_config("alpha")).unwrap();
    // not Connected: never due
    assert!(!registry.health_due(0, 120_000));
    registry.servers[0].1.status = ConnectionStatus::Connected;
    registry.servers[0].1.last_health_check_ms = 0;
    // interval is 60 s: due only once that much has elapsed
    assert!(!registry.health_due(0, 59_000));
    assert!(registry.health_due(0, 60_000));
}

#[test]
fn test_disconnect_is_idempotent() {
    // register but never connect: disconnect succeeds twice, with nothing
    // to kill or stop either time
    let mut registry = MCPServerRegistry::new();
    registry.register_server("tenant", stdio_config("alpha")).unwrap();
    let first = registry.disconnect_server("tenant", "alpha").unwrap();
    assert!(!first.kill_process);
    assert!(first.stop_container.is_none());
    let second = registry.disconnect_server("tenant", "alpha").unwrap();
    assert!(!second.kill_process);
    assert!(second.stop_container.is_none());
    let infos = registry.list_servers("tenant").unwrap();
    assert_eq!(infos[0].status, "Disconnected");
}

#[test]
fn test_disconnect_missing_server_succeeds() {
    let mut registry = MCPServerRegistry::new();
    let actions = registry.disconnect_server("tenant", "ghost").unwrap();
    assert!(!actions.kill_process);
    assert!(actions.stop_container.is_none());
}

#[test]
fn test_disconnect_reports_teardown_actions() {
    let mut registry = MCPServerRegistry::new();
    registry.register_server("tenant", stdio_config("alpha")).unwrap();
    registry.servers[0].1.process_attached = true;
    registry.servers[0].1.container_id = Some("cid".to_string());
    registry.servers[0].1.status = ConnectionStatus::Connected;
    let actions = registry.disconnect_server("tenant", "alpha").unwrap();
    assert!(actions.kill_process);
    assert_eq!(actions.stop_container.as_deref(), Some("mcp-tenant-alpha"));
    assert!(!registry.servers[0].1.process_attached);
    assert!(registry.servers[0].1.container_id.is_none());
}

#[test]
fn test_execute_tool_gating() {
    let mut registry = MCPServerRegistry::new();
    let args = parse_json_str("{}").unwrap();
    match registry.execute_tool("tenant", "ghost", "t", args) {
        Err(RegistryError::ServerNotFound(_)) => {},
        other => panic!("expected not-found, got {:?}", other),
    }
    registry.register_server("tenant", stdio_config("alpha")).unwrap();
    let args = parse_json_str("{}").unwrap();
    match registry.execute_tool("tenant", "alpha", "t", args) {
        Err(RegistryError::ServerNotConnected(_)) => {},
        other => panic!("expected not-connected, got {:?}", other),
    }
    registry.servers[0].1.status = ConnectionStatus::Connected;
    registry.servers[0].1.process_attached = true;
    let args = parse_json_str("{}").unwrap();
    match registry.execute_tool("tenant", "alpha", "t", args) {
        Err(RegistryError::ToolNotFound(_)) => {},
        other => panic!("expected tool-not-found, got {:?}", other),
    }
    registry
        .set_server_tools(
            "tenant",
            "alpha",
            vec![MCPTool {
                name: "t".to_string(),
                description: "a tool".to_string(),
                input_schema: Json::Null,
            }],
        )
        .unwrap();
    let args = parse_json_str("{\"x\":1}").unwrap();
    let frame = registry.execute_tool("tenant", "alpha", "t", args).unwrap();
    assert_eq!(
        frame.to_text(),
        "{\"jsonrpc\":\"2.0\",\"id\":3,\"method\":\"tools/call\",\"params\":{\"name\":\"t\",\"arguments\":{\"x\":1}}}"
    );
}

#[test]
fn test_record_health_marks_failure() {
    let mut registry = MCPServerRegistry::new();
    registry.register_server("tenant", stdio_config("alpha")).unwrap();
    registry.servers[0].1.status = ConnectionStatus::Connected;
    registry.servers[0].1.process_attached = true;
    registry.record_health("tenant", "alpha", None, 77).unwrap();
    assert!(matches!(registry.servers[0].1.status, ConnectionStatus::Connected));
    assert_eq!(registry.servers[0].1.last_health_check_ms, 77);
    registry
        .record_health("tenant", "alpha", Some("Process exited: 1".to_string()), 99)
        .unwrap();
    match &registry.servers[0].1.status {
        ConnectionStatus::Failed(reason) => assert_eq!(reason, "Process exited: 1"),
        other => panic!("expected failed, got {:?}", other),
    }
    assert!(!registry.servers[0].1.process_attached);
    let infos = registry.list_servers("tenant").unwrap();
    assert_eq!(infos[0].status, "Failed(Process exited: 1)");
}

#[test]
fn test_find_server_for_tool() {
    let mut registry = MCPServerRegistry::new();
    registry.register_server("ctx", stdio_config("alpha")).unwrap();
    registry
        .set_server_tools(
            "ctx",
            "alpha",
            vec![MCPTool {
                name: "search".to_string(),
                description: String::new(),
                input_schema: Json::Null,
            }],
        )
        .unwrap();
    // a dotted name carries its server outright
    assert_eq!(registry.find_server_for_tool("ctx", "beta.search").unwrap(), "beta");
    // a bare name is looked up in the cached tool lists
    assert_eq!(registry.find_server_for_tool("ctx", "search").unwrap(), "alpha");
    match registry.find_server_for_tool("ctx", "missing") {
        Err(RegistryError::ToolNotFound(_)) => {},
        other => panic!("expected tool-not-found, got {:?}", other),
    }
}

#[test]
fn test_build_connect_env_basic_auth() {
    let config_env = vec![("BASE".to_string(), "1".to_string())];
    let auth = AuthMethod::Basic { username: "u".to_string(), password: "p".to_string() };
    let env = build_connect_env(&config_env, None, &auth, None, None, None);
    assert_eq!(
        env,
        vec![
            ("BASE".to_string(), "1".to_string()),
            ("USERNAME".to_string(), "u".to_string()),
            ("PASSWORD".to_string(), "p".to_string()),
        ]
    );
}

#[test]
fn test_build_connect_env_api_key_and_credentials() {
    let config_env = vec![("BASE".to_string(), "1".to_string())];
    let creds = vec![("BASE".to_string(), "2".to_string())];
    let auth = AuthMethod::ApiKey { key_field: "API_KEY".to_string() };
    let env = build_connect_env(
        &config_env,
        Some(creds),
        &auth,
        Some("SECRET-REDACTED".to_string()),
        None,
        None,
    );
    // later bindings override earlier ones when applied in order
    assert_eq!(
        env,
        vec![
            ("BASE".to_string(), "1".to_string()),
            ("BASE".to_string(), "2".to_string()),
            ("API_KEY".to_string(), "SECRET-REDACTED".to_string()),
        ]
    );
}

#[test]
fn test_build_connect_env_oauth() {
    let auth = AuthMethod::OAuth2 {
        client_id: "unused".to_string(),
        client_secret: "unused".to_string(),
    };
    let env = build_connect_env(
        &vec![],
        None,
        &auth,
        None,
        Some("cid".to_string()),
        Some("SECRET-REDACTED".to_string()),
    );
    assert_eq!(
        env,
        vec![
            ("CLIENT_ID".to_string(), "cid".to_string()),
            ("CLIENT_SECRET".to_string(), "SECRET-REDACTED".to_string()),
        ]
    );
}

#[test]
fn test_docker_run_args_layout() {
    let args = docker_run_args(
        "mcp-t-s",
        &Some("nvidia".to_string()),
        &Some("bridge".to_string()),
        &vec!["8080:80".to_string()],
        &vec!["/data:/data".to_string()],
        &vec![("K".to_string(), "V".to_string())],
        "image",
        "latest",
    );
    assert_eq!(
        args,
        vec![
            "run", "-d", "--name", "mcp-t-s", "--rm", "--runtime", "nvidia", "--network",
            "bridge", "-p", "8080:80", "-v", "/data:/data", "-e", "K=V", "image:latest",
        ]
        .into_iter()
        .map(|s| s.to_string())
        .collect::<Vec<String>>()
    );
}

#[test]
fn test_plan_connect_process_deployment() {
    let mut registry = MCPServerRegistry::new();
    let mut config = stdio_config("alpha");
    config.env = vec![("BASE".to_string(), "1".to_string())];
    config.auth_method = AuthMethod::Basic { username: "u".to_string(), password: "p".to_string() };
    config.deployment = DeploymentConfig::Process {
        command: "run-server".to_string(),
        args: vec!["--flag".to_string()],
    };
    registry.register_server("tenant", config).unwrap();
    let plan = registry
        .plan_connect("tenant", "alpha", None, None, None, None)
        .unwrap();
    assert_eq!(
        plan.env,
        vec![
            ("BASE".to_string(), "1".to_string()),
            ("USERNAME".to_string(), "u".to_string()),
            ("PASSWORD".to_string(), "p".to_string()),
        ]
    );
    match plan.action {
        mcp_rust::registry::StartAction::SpawnProcess { command, args } => {
            assert_eq!(command, "run-server");
            assert_eq!(args, vec!["--flag".to_string()]);
        },
        other => panic!("expected a process start, got {:?}", other),
    }
    assert_eq!(registry.list_servers("tenant").unwrap()[0].status, "Connecting");
}

#[test]
fn test_plan_connect_rejects_unknown_and_non_stdio() {
    let mut registry = MCPServerRegistry::new();
    assert!(matches!(
        registry.plan_connect("tenant", "ghost", None, None, None, None),
        Err(RegistryError::ServerNotFound(_))
    ));
    let mut config = stdio_config("web");
    config.server_type = MCPServerType::Http;
    registry.register_server("tenant", config).unwrap();
    assert!(matches!(
        registry.plan_connect("tenant", "web", None, None, None, None),
        Err(RegistryError::UnsupportedServerType(_))
    ));
}

#[test]
fn test_complete_connect_outcomes() {
    let mut registry = MCPServerRegistry::new();
    registry.register_server("tenant", stdio_config("alpha")).unwrap();
    registry.plan_connect("tenant", "alpha", None, None, None, None).unwrap();
    registry
        .complete_connect(
            "tenant",
            "alpha",
            Ok(mcp_rust::registry::ConnectHandle::ChildProcess),
        )
        .unwrap();
    assert!(registry.servers[0].1.process_attached);
    assert_eq!(registry.list_servers("tenant").unwrap()[0].status, "Connected");
    registry
        .complete_connect("tenant", "alpha", Err("spawn failed".to_string()))
        .unwrap();
    assert_eq!(
        registry.list_servers("tenant").unwrap()[0].status,
        "Failed(spawn failed)"
    );
    assert!(!registry.servers[0].1.process_attached);
}

#[test]
fn test_registration_value_holds_full_configuration() {
    let mut registry = MCPServerRegistry::new();
    let mut config = stdio_config("alpha");
    config.env = vec![("K".to_string(), "V".to_string())];
    config.capabilities = vec!["search".to_string()];
    let write = registry.register_server("tenant", config).unwrap();
    let record = parse_json_str(&write.value).expect("stored value is JSON");
    assert!(record.get("deployment").is_some());
    assert!(record.get("env").is_some());
    assert!(record.get("auth_method").is_some());
    assert!(record.get("capabilities").is_some());
    assert!(record.get("auto_reconnect").is_some());
    // the fresh entry holds nothing live
    assert!(!registry.servers[0].1.process_attached);
    assert!(registry.servers[0].1.container_id.is_none());
    assert!(registry.servers[0].1.endpoint.is_none());
    assert!(registry.servers[0].1.tools.is_empty());
}

#[test]
fn test_handshake_frames() {
    assert_eq!(
        build_initialize_request().to_text(),
        "{\"jsonrpc\":\"2.0\",\"id\":1,\"method\":\"initialize\",\"params\":{\"protocolVersion\":\"2025-06-18\",\"capabilities\":{\"tools\":{}}}}"
    );
    assert_eq!(
        build_tools_list_request().to_text(),
        "{\"jsonrpc\":\"2.0\",\"id\":2,\"method\":\"tools/list\",\"params\":{}}"
    );
}

#[test]
fn test_render_mcp_list_tools_filters() {
    let infos = vec![
        mcp_rust::registry::MCPServerInfo {
            id: "a".to_string(),
            name: "A".to_string(),
            description: String::new(),
            status: "Connected".to_string(),
            tool_count: 2,
        },
        mcp_rust::registry::MCPServerInfo {
            id: "b".to_string(),
            name: "B".to_string(),
            description: String::new(),
            status: "Disconnected".to_string(),
            tool_count: 0,
        },
    ];
    assert_eq!(
        render_mcp_list_tools(&infos, &None).to_text(),
        "{\"tools\":[{\"server_id\":\"a\",\"tool_count\":2},{\"server_id\":\"b\",\"tool_count\":0}]}"
    );
    assert_eq!(
        render_mcp_list_tools(&infos, &Some("b".to_string())).to_text(),
        "{\"tools\":[{\"server_id\":\"b\",\"tool_count\":0}]}"
    );
}

#[test]
fn test_container_name_convention() {
    assert_eq!(make_container_name("ctx", "srv"), "mcp-ctx-srv");
}

#[test]
fn test_forward_request_frame() {
    let frame = build_forward_request("echo", parse_json_str("{\"a\":1}").unwrap());
    assert_eq!(
        frame.to_text(),
        "{\"jsonrpc\":\"2.0\",\"id\":3,\"method\":\"tools/call\",\"params\":{\"name\":\"echo\",\"arguments\":{\"a\":1}}}"
    );
}
