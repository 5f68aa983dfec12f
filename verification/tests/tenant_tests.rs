use mcp_rust::rate_limiting::AwsServiceLimits;
use mcp_rust::tenant::{
    ContextType, Permission, ResourceLimits, TenantContext, TenantManager, TenantSession, UserRole,
};

fn make_context(role: UserRole, permissions: Vec<Permission>) -> TenantContext {
    TenantContext {
        tenant_id: "test-tenant".to_string(),
        user_id: "test-user".to_string(),
        context_type: ContextType::Organization {
            org_id: "test-org".to_string(),
            org_name: "Test Org".to_string(),
        },
        organization_id: "test-org".to_string(),
        role,
        permissions,
        aws_region: "us-west-2".to_string(),
        resource_limits: ResourceLimits::default(),
    }
}

#[test]
fn test_tenant_context_creation() {
    let context = make_context(UserRole::Admin, vec![Permission::ReadKV, Permission::WriteKV]);
    let session = TenantSession::new(context, 0);
    assert_eq!(session.context.tenant_id, "test-tenant");
    assert_eq!(session.context.user_id, "test-user");
}

#[test]
fn test_permission_check() {
    let context = make_context(UserRole::User, vec![Permission::ReadKV, Permission::WriteKV]);
    let session = TenantSession::new(context, 0);
    assert!(session.has_permission(&Permission::ReadKV));
    assert!(session.has_permission(&Permission::WriteKV));
    assert!(!session.has_permission(&Permission::ManageUsers));
}

#[test]
fn test_admin_permissions() {
    let context = make_context(UserRole::Admin, vec![]);
    let session = TenantSession::new(context, 0);
    assert!(session.has_permission(&Permission::ReadKV));
    assert!(session.has_permission(&Permission::WriteKV));
    assert!(session.has_permission(&Permission::ManageUsers));
}

#[test]
fn test_context_id_personal() {
    let mut context = make_context(UserRole::User, vec![]);
    context.context_type = ContextType::Personal;
    assert_eq!(context.get_context_id(), "personal-test-user");
    assert_eq!(context.get_namespace_prefix(), "user:test-user");
    assert!(context.is_personal());
    assert!(!context.is_organizational());
    assert!(context.get_org_id().is_none());
}

#[test]
fn test_context_id_organization() {
    let context = make_context(UserRole::User, vec![]);
    assert_eq!(context.get_context_id(), "org-test-org");
    assert_eq!(context.get_namespace_prefix(), "org:test-org:user:test-user");
    assert!(!context.is_personal());
    assert!(context.is_organizational());
    assert_eq!(context.get_org_id().as_deref(), Some("test-org"));
}

#[test]
fn test_session_counters_saturate() {
    let context = make_context(UserRole::User, vec![]);
    let mut session = TenantSession::new(context, 5);
    assert_eq!(session.active_requests, 0);
    session.decrement_active_requests();
    assert_eq!(session.active_requests, 0);
    let active = session.increment_active_requests();
    assert_eq!(active, 1);
    session.decrement_active_requests();
    assert_eq!(session.active_requests, 0);
}

#[test]
fn test_session_rate_limit_gate() {
    let mut context = make_context(UserRole::User, vec![]);
    context.resource_limits.max_concurrent_requests = 1;
    let mut session = TenantSession::new(context, 0);
    assert!(session.check_rate_limit());
    session.increment_active_requests();
    assert!(!session.check_rate_limit());
}

#[test]
fn test_validate_unknown_tenant_rejected() {
    let mut manager = TenantManager::new(false, "us-west-2".to_string());
    let r = manager.validate_tenant_access("nobody", "user");
    assert!(r.is_err());
    assert_eq!(manager.tenant_configs.len(), 0);
}

#[test]
fn test_validate_auto_register() {
    let mut manager = TenantManager::new(true, "us-west-2".to_string());
    let r = manager.validate_tenant_access("fresh-tenant", "fresh-user");
    assert!(r.is_ok());
    assert_eq!(manager.tenant_configs.len(), 1);
    let c = &manager.tenant_configs[0];
    assert_eq!(c.tenant_id, "fresh-tenant");
    assert_eq!(c.user_id, "fresh-user");
    assert!(matches!(c.role, UserRole::Admin));
    assert_eq!(c.permissions, vec![Permission::Admin]);
}

#[test]
fn test_validate_wrong_user_rejected() {
    let mut manager = TenantManager::new(false, "us-west-2".to_string());
    manager.insert_tenant(make_context(UserRole::User, vec![])).unwrap();
    assert!(manager.validate_tenant_access("test-tenant", "test-user").is_ok());
    assert!(manager.validate_tenant_access("test-tenant", "intruder").is_err());
}

#[test]
fn test_create_session_for_known_tenant() {
    let mut manager = TenantManager::new(false, "us-west-2".to_string());
    manager.insert_tenant(make_context(UserRole::User, vec![Permission::ReadKV])).unwrap();
    let idx = manager.create_session("test-tenant", 42).unwrap();
    assert_eq!(idx, 0);
    let s = manager.get_session(idx).unwrap();
    assert_eq!(s.context.tenant_id, "test-tenant");
    assert_eq!(s.request_count, 0);
    assert_eq!(s.active_requests, 0);
    assert_eq!(s.last_activity_ms, 42);
    assert_eq!(s.session_id.len(), 36);
    assert!(manager.create_session("other", 42).is_err());
}

#[test]
fn test_session_ids_are_fresh() {
    let a = TenantSession::new(make_context(UserRole::User, vec![]), 0);
    let b = TenantSession::new(make_context(UserRole::User, vec![]), 0);
    assert_ne!(a.session_id, b.session_id);
}

#[test]
fn test_cleanup_expired_sessions() {
    let mut manager = TenantManager::new(false, "us-west-2".to_string());
    manager.insert_tenant(make_context(UserRole::User, vec![])).unwrap();
    let a = manager.create_session("test-tenant", 0).unwrap();
    let b = manager.create_session("test-tenant", 1_000_000).unwrap();
    assert_eq!((a, b), (0, 1));
    // thirty minutes after the first session's activity, only the second
    // remains
    manager.cleanup_expired_sessions(1_800_000);
    assert_eq!(manager.sessions.len(), 1);
    assert_eq!(manager.sessions[0].last_activity_ms, 1_000_000);
}

#[test]
fn test_total_active_requests_sums_sessions() {
    let mut manager = TenantManager::new(false, "us-west-2".to_string());
    manager.insert_tenant(make_context(UserRole::User, vec![])).unwrap();
    let a = manager.create_session("test-tenant", 0).unwrap();
    let b = manager.create_session("test-tenant", 0).unwrap();
    assert!(manager.admit_request(a, 1));
    assert!(manager.admit_request(b, 1));
    assert_eq!(manager.total_active_requests(), 2);
    manager.release_request(a);
    assert_eq!(manager.total_active_requests(), 1);
    manager.release_request(b);
    assert_eq!(manager.total_active_requests(), 0);
}

#[test]
fn test_resource_limit_defaults() {
    let limits = ResourceLimits::default();
    assert_eq!(limits.max_kv_size, 100_000_000);
    assert_eq!(limits.max_artifacts, 1000);
    assert_eq!(limits.requests_per_minute, 100);
    assert_eq!(limits.max_concurrent_requests, 10);
    let aws = AwsServiceLimits::default();
    assert_eq!(aws.dynamodb_read_units, 1000);
    assert_eq!(aws.eventbridge_events_batch_size, 10);
}
