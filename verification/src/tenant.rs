//! Tenants, their permissions and limits, and the live session registry
//! with its request counters.
use vstd::prelude::*;

use crate::rate_limiting::{AwsOperation, AwsRateLimiter, AwsServiceLimits};

verus! {

/// Idle age, in milliseconds, at which a session is evicted.
pub const SESSION_IDLE_MS: u64 = 1800000;

#[derive(Debug)]
pub enum TenantError {
    NotFound(String),
    Unauthorized(String),
    ConfigError(String),
}

#[derive(Debug)]
pub enum ContextType {
    Personal,
    Organization { org_id: String, org_name: String },
}

#[derive(Clone, Copy, PartialEq, Eq, Structural, Debug)]
pub enum UserRole {
    Admin,
    User,
    Viewer,
}

#[derive(Clone, Copy, PartialEq, Eq, Structural, Debug)]
pub enum Permission {
    ReadKV,
    WriteKV,
    DeleteKV,
    ListArtifacts,
    GetArtifacts,
    PutArtifacts,
    SendEvents,
    ExecuteWorkflows,
    ManageUsers,
    Execute,
    Admin,
    Read,
    Write,
}

#[derive(Clone, Copy, PartialEq, Eq, Structural, Debug)]
pub struct ResourceLimits {
    pub max_kv_size: u64,
    pub max_artifacts: u32,
    pub requests_per_minute: u32,
    pub max_concurrent_requests: u32,
    pub aws_service_limits: AwsServiceLimits,
}

impl ResourceLimits {
    pub open spec fn spec_default() -> ResourceLimits {
        ResourceLimits {
            max_kv_size: 100000000,
            max_artifacts: 1000,
            requests_per_minute: 100,
            max_concurrent_requests: 10,
            aws_service_limits: AwsServiceLimits::spec_default(),
        }
    }
}

impl Default for ResourceLimits {
    fn default() -> (r: Self)
        ensures
            r == ResourceLimits::spec_default(),
    {
        ResourceLimits {
            max_kv_size: 100000000,
            max_artifacts: 1000,
            requests_per_minute: 100,
            max_concurrent_requests: 10,
            aws_service_limits: AwsServiceLimits::default(),
        }
    }
}

#[derive(Debug)]
pub struct TenantContext {
    pub tenant_id: String,
    pub user_id: String,
    pub context_type: ContextType,
    pub organization_id: String,
    pub role: UserRole,
    pub permissions: Vec<Permission>,
    pub aws_region: String,
    pub resource_limits: ResourceLimits,
}

impl TenantContext {
    /// The partition key for storage, sub-servers, and rate limits:
    /// `personal-{userId}` or `org-{orgId}`.
    pub open spec fn spec_context_id(&self) -> Seq<char> {
        match self.context_type {
            ContextType::Personal => "personal-"@ + self.user_id@,
            ContextType::Organization { org_id, .. } => "org-"@ + org_id@,
        }
    }

    /// The key-value namespace: `user:{userId}` or
    /// `org:{orgId}:user:{userId}`.
    pub open spec fn spec_namespace_prefix(&self) -> Seq<char> {
        match self.context_type {
            ContextType::Personal => "user:"@ + self.user_id@,
            ContextType::Organization { org_id, .. } => "org:"@ + org_id@ + ":user:"@
                + self.user_id@,
        }
    }

    pub fn is_personal(&self) -> (r: bool)
        ensures
            r == (self.context_type is Personal),
    {
        matches!(self.context_type, ContextType::Personal)
    }

    pub fn is_organizational(&self) -> (r: bool)
        ensures
            r == (self.context_type is Organization),
    {
        matches!(self.context_type, ContextType::Organization { .. })
    }

    pub fn get_context_id(&self) -> (r: String)
        ensures
            r@ == self.spec_context_id(),
    {
        match &self.context_type {
            ContextType::Personal => {
                let mut s = String::from_str("personal-");
                s.append(self.user_id.as_str());
                s
            },
            ContextType::Organization { org_id, .. } => {
                let mut s = String::from_str("org-");
                s.append(org_id.as_str());
                s
            },
        }
    }

    pub fn get_namespace_prefix(&self) -> (r: String)
        ensures
            r@ == self.spec_namespace_prefix(),
    {
        match &self.context_type {
            ContextType::Personal => {
                let mut s = String::from_str("user:");
                s.append(self.user_id.as_str());
                s
            },
            ContextType::Organization { org_id, .. } => {
                let mut s = String::from_str("org:");
                s.append(org_id.as_str());
                s.append(":user:");
                s.append(self.user_id.as_str());
                s
            },
        }
    }

    pub fn get_org_id(&self) -> (r: Option<String>)
        ensures
            match self.context_type {
                ContextType::Organization { org_id, .. } => r matches Some(s) && s@ == org_id@,
                ContextType::Personal => r is None,
            },
    {
        match &self.context_type {
            ContextType::Organization { org_id, .. } => Some(org_id.clone()),
            ContextType::Personal => None,
        }
    }
}

impl Clone for ContextType {
    fn clone(&self) -> (r: Self)
        ensures
            r == *self,
    {
        match self {
            ContextType::Personal => ContextType::Personal,
            ContextType::Organization { org_id, org_name } => ContextType::Organization {
                org_id: org_id.clone(),
                org_name: org_name.clone(),
            },
        }
    }
}

/// A fresh vector holding the same permissions.
fn clone_permissions(v: &Vec<Permission>) -> (r: Vec<Permission>)
    ensures
        r@ == v@,
{
    let n: usize = v.len();
    let mut r: Vec<Permission> = Vec::new();
    for i in 0..n
        invariant
            n == v@.len(),
            r@ == v@.take(i as int),
    {
        r.push(v[i]);
        proof {
            assert(r@ =~= v@.take(i + 1));
        }
    }
    proof {
        assert(v@.take(n as int) =~= v@);
    }
    r
}

/// Contexts that agree on every field; permission lists are compared by
/// their contents.
pub open spec fn ctx_equiv(a: TenantContext, b: TenantContext) -> bool {
    &&& a.tenant_id == b.tenant_id
    &&& a.user_id == b.user_id
    &&& a.context_type == b.context_type
    &&& a.organization_id == b.organization_id
    &&& a.role == b.role
    &&& a.permissions@ == b.permissions@
    &&& a.aws_region == b.aws_region
    &&& a.resource_limits == b.resource_limits
}

impl Clone for TenantContext {
    fn clone(&self) -> (r: Self)
        ensures
            ctx_equiv(r, *self),
    {
        TenantContext {
            tenant_id: self.tenant_id.clone(),
            user_id: self.user_id.clone(),
            context_type: self.context_type.clone(),
            organization_id: self.organization_id.clone(),
            role: self.role,
            permissions: clone_permissions(&self.permissions),
            aws_region: self.aws_region.clone(),
            resource_limits: self.resource_limits,
        }
    }
}

/// A role grants a permission when it is `Admin`, or when the permission is
/// granted explicitly.
pub open spec fn spec_has_permission(c: TenantContext, p: Permission) -> bool {
    c.role == UserRole::Admin || c.permissions@.contains(p)
}

/// One live principal: context snapshot, identity, and request counters.
#[derive(Debug)]
pub struct TenantSession {
    pub context: TenantContext,
    pub session_id: String,
    pub created_at_ms: u64,
    pub last_activity_ms: u64,
    pub request_count: u32,
    pub active_requests: u32,
}

/// Sessions that agree on every field, with contexts compared by
/// `ctx_equiv`.
pub open spec fn sess_equiv(a: TenantSession, b: TenantSession) -> bool {
    &&& ctx_equiv(a.context, b.context)
    &&& a.session_id == b.session_id
    &&& a.created_at_ms == b.created_at_ms
    &&& a.last_activity_ms == b.last_activity_ms
    &&& a.request_count == b.request_count
    &&& a.active_requests == b.active_requests
}

impl Clone for TenantSession {
    fn clone(&self) -> (r: Self)
        ensures
            sess_equiv(r, *self),
    {
        TenantSession {
            context: self.context.clone(),
            session_id: self.session_id.clone(),
            created_at_ms: self.created_at_ms,
            last_activity_ms: self.last_activity_ms,
            request_count: self.request_count,
            active_requests: self.active_requests,
        }
    }
}

/// Relies on uuid::Uuid::new_v4 and its Display impl: a fresh random UUID
/// in hyphenated form, 36 ASCII characters.
#[verifier::external_body]
fn fresh_session_id() -> (r: String)
    ensures
        r@.len() == 36,
{
    uuid::Uuid::new_v4().to_string()
}

impl TenantSession {
    /// In-flight requests never exceed the configured concurrency bound.
    pub open spec fn wf(&self) -> bool {
        self.active_requests <= self.context.resource_limits.max_concurrent_requests
    }

    pub fn new(context: TenantContext, now_ms: u64) -> (s: Self)
        ensures
            s.context == context,
            s.created_at_ms == now_ms,
            s.last_activity_ms == now_ms,
            s.request_count == 0,
            s.active_requests == 0,
            s.session_id@.len() == 36,
            s.wf(),
    {
        TenantSession {
            context,
            session_id: fresh_session_id(),
            created_at_ms: now_ms,
            last_activity_ms: now_ms,
            request_count: 0,
            active_requests: 0,
        }
    }

    pub fn update_activity(&mut self, now_ms: u64)
        ensures
            *final(self) == (TenantSession { last_activity_ms: now_ms, ..*old(self) }),
    {
        self.last_activity_ms = now_ms;
    }

    /// Count one more request on the lifetime meter.
    pub fn increment_request_count(&mut self) -> (r: u32)
        requires
            old(self).request_count < u32::MAX,
        ensures
            *final(self) == (TenantSession {
                request_count: (old(self).request_count + 1) as u32,
                ..*old(self)
            }),
            r == final(self).request_count,
    {
        self.request_count = self.request_count + 1;
        self.request_count
    }

    /// Admit one more in-flight request; callers check the bound first.
    pub fn increment_active_requests(&mut self) -> (r: u32)
        requires
            old(self).active_requests < old(self).context.resource_limits.max_concurrent_requests,
        ensures
            *final(self) == (TenantSession {
                active_requests: (old(self).active_requests + 1) as u32,
                ..*old(self)
            }),
            r == final(self).active_requests,
            final(self).wf(),
    {
        self.active_requests = self.active_requests + 1;
        self.active_requests
    }

    /// Retire one in-flight request. Saturating: never below zero.
    pub fn decrement_active_requests(&mut self)
        ensures
            *final(self) == (TenantSession {
                active_requests: if old(self).active_requests > 0 {
                    (old(self).active_requests - 1) as u32
                } else {
                    0
                },
                ..*old(self)
            }),
            old(self).wf() ==> final(self).wf(),
    {
        if self.active_requests > 0 {
            self.active_requests = self.active_requests - 1;
        }
    }

    /// The per-session admission checks: the lifetime meter and the
    /// concurrency bound.
    pub fn check_rate_limit(&self) -> (r: bool)
        ensures
            r == (self.request_count < self.context.resource_limits.requests_per_minute
                && self.active_requests < self.context.resource_limits.max_concurrent_requests),
    {
        self.request_count < self.context.resource_limits.requests_per_minute
            && self.active_requests < self.context.resource_limits.max_concurrent_requests
    }

    /// Charge this session's tenant for one backend operation.
    pub fn check_aws_operation(
        &self,
        aws_limiter: &mut AwsRateLimiter,
        operation: &AwsOperation,
        now_ms: u64,
    ) -> (allowed: bool)
        requires
            old(aws_limiter).wf(),
        ensures
            final(aws_limiter).wf(),
            final(aws_limiter).limits == old(aws_limiter).limits,
            ({
                let key = AwsRateLimiter::spec_bucket_key(self.context.tenant_id@, *operation);
                let src = old(aws_limiter).spec_charge_source(key, *operation, now_ms);
                let cost = old(aws_limiter).spec_limits_for(*operation).2;
                &&& allowed == (src.spec_refilled(now_ms) >= cost * 1000)
                &&& forall|k2: Seq<char>|
                    k2 != key ==> #[trigger] crate::rate_limiting::bucket_of(
                        final(aws_limiter).buckets@,
                        k2,
                    ) == crate::rate_limiting::bucket_of(old(aws_limiter).buckets@, k2)
            }),
    {
        aws_limiter.check_aws_operation(self.context.tenant_id.as_str(), operation, now_ms)
    }

    pub fn has_permission(&self, permission: &Permission) -> (r: bool)
        ensures
            r == spec_has_permission(self.context, *permission),
    {
        if matches!(self.context.role, UserRole::Admin) {
            true
        } else {
            let n: usize = self.context.permissions.len();
            let mut i: usize = 0;
            while i < n
                invariant
                    0 <= i <= n,
                    n == self.context.permissions@.len(),
                    forall|x: int| 0 <= x < i ==> self.context.permissions@[x] != *permission,
                decreases n - i,
            {
                if self.context.permissions[i] == *permission {
                    return true;
                }
                i = i + 1;
            }
            proof {
                assert(!self.context.permissions@.contains(*permission));
            }
            false
        }
    }
}

/// First configured tenant with the given identifier.
pub open spec fn find_tenant(configs: Seq<TenantContext>, tenant_id: Seq<char>) -> Option<
    TenantContext,
>
    decreases configs.len(),
{
    if configs.len() == 0 {
        None
    } else if configs[0].tenant_id@ == tenant_id {
        Some(configs[0])
    } else {
        find_tenant(configs.drop_first(), tenant_id)
    }
}

/// Total in-flight requests across a set of sessions.
pub open spec fn sum_active(sessions: Seq<TenantSession>) -> int
    decreases sessions.len(),
{
    if sessions.len() == 0 {
        0
    } else {
        sum_active(sessions.drop_last()) + sessions.last().active_requests
    }
}

/// The tenant directory and session registry.
pub struct TenantManager {
    pub tenant_configs: Vec<TenantContext>,
    pub sessions: Vec<TenantSession>,
    pub aws_rate_limiter: AwsRateLimiter,
    pub auto_register: bool,
    pub default_region: String,
}

impl TenantManager {
    pub open spec fn wf(&self) -> bool {
        &&& forall|i: int, j: int|
            0 <= i < j < self.tenant_configs@.len() ==> (#[trigger] self.tenant_configs@[i]).tenant_id@
                != (#[trigger] self.tenant_configs@[j]).tenant_id@
        &&& forall|i: int| 0 <= i < self.sessions@.len() ==> (#[trigger] self.sessions@[i]).wf()
        &&& self.aws_rate_limiter.wf()
    }

    /// An empty directory. `auto_register` admits unknown tenants as their
    /// own administrators; `default_region` is handed to such tenants.
    pub fn new(auto_register: bool, default_region: String) -> (r: Self)
        ensures
            r.tenant_configs@.len() == 0,
            r.sessions@.len() == 0,
            r.auto_register == auto_register,
            r.default_region == default_region,
            r.wf(),
    {
        TenantManager {
            tenant_configs: Vec::new(),
            sessions: Vec::new(),
            aws_rate_limiter: AwsRateLimiter::new(AwsServiceLimits::default()),
            auto_register,
            default_region,
        }
    }

    /// Add a tenant, replacing nothing: refused when the identifier is
    /// already configured.
    pub fn insert_tenant(&mut self, context: TenantContext) -> (r: Result<(), TenantError>)
        requires
            old(self).wf(),
        ensures
            final(self).wf(),
            final(self).sessions == old(self).sessions,
            match find_tenant(old(self).tenant_configs@, context.tenant_id@) {
                Some(_) => r is Err && final(self).tenant_configs == old(self).tenant_configs,
                None => r is Ok && final(self).tenant_configs@ == old(self).tenant_configs@.push(
                    context,
                ),
            },
    {
        let n: usize = self.tenant_configs.len();
        let mut i: usize = 0;
        while i < n
            invariant
                0 <= i <= n,
                *self == *old(self),
                old(self).wf(),
                n == self.tenant_configs@.len(),
                forall|x: int|
                    0 <= x < i ==> (#[trigger] self.tenant_configs@[x]).tenant_id@
                        != context.tenant_id@,
            decreases n - i,
        {
            if self.tenant_configs[i].tenant_id.eq(&context.tenant_id) {
                proof {
                    lemma_find_tenant_found(self.tenant_configs@, i as int, context.tenant_id@);
                }
                return Err(TenantError::ConfigError(self.tenant_configs[i].tenant_id.clone()));
            }
            i = i + 1;
        }
        proof {
            lemma_find_tenant_absent(self.tenant_configs@, context.tenant_id@);
        }
        let ghost pre = self.tenant_configs@;
        self.tenant_configs.push(context);
        proof {
            assert forall|x: int, y: int|
                0 <= x < y < self.tenant_configs@.len() implies (
            #[trigger] self.tenant_configs@[x]).tenant_id@ != (
            #[trigger] self.tenant_configs@[y]).tenant_id@ by {
                if y < pre.len() {
                    assert(self.tenant_configs@[x] == pre[x] && self.tenant_configs@[y] == pre[y]);
                } else {
                    assert(self.tenant_configs@[x] == pre[x]);
                }
            }
        }
        Ok(())
    }

    /// Validate `(tenantId, userId)`: the tenant must exist with that user,
    /// or, under auto-registration, a new administrator tenant is created.
    pub fn validate_tenant_access(&mut self, tenant_id: &str, user_id: &str) -> (r: Result<
        (),
        TenantError,
    >)
        requires
            old(self).wf(),
        ensures
            final(self).wf(),
            final(self).sessions == old(self).sessions,
            final(self).aws_rate_limiter == old(self).aws_rate_limiter,
            final(self).auto_register == old(self).auto_register,
            final(self).default_region == old(self).default_region,
            match find_tenant(old(self).tenant_configs@, tenant_id@) {
                Some(c) => {
                    &&& final(self).tenant_configs == old(self).tenant_configs
                    &&& r is Ok <==> c.user_id@ == user_id@
                    &&& (r matches Err(e) ==> e is Unauthorized)
                },
                None => {
                    if old(self).auto_register {
                        &&& r is Ok
                        &&& final(self).tenant_configs@.len() == old(self).tenant_configs@.len()
                            + 1
                        &&& ({
                            let c = final(self).tenant_configs@.last();
                            &&& c.tenant_id@ == tenant_id@
                            &&& c.user_id@ == user_id@
                            &&& c.role == UserRole::Admin
                            &&& c.permissions@ == seq![Permission::Admin]
                            &&& c.resource_limits == ResourceLimits::spec_default()
                            &&& find_tenant(final(self).tenant_configs@, tenant_id@) == Some(c)
                        })
                    } else {
                        &&& r matches Err(e) && e is NotFound
                        &&& final(self).tenant_configs == old(self).tenant_configs
                    }
                },
            },
    {
        let n: usize = self.tenant_configs.len();
        let mut i: usize = 0;
        while i < n
            invariant
                0 <= i <= n,
                *self == *old(self),
                old(self).wf(),
                n == self.tenant_configs@.len(),
                forall|x: int|
                    0 <= x < i ==> (#[trigger] self.tenant_configs@[x]).tenant_id@ != tenant_id@,
            decreases n - i,
        {
            if crate::json::str_eq(self.tenant_configs[i].tenant_id.as_str(), tenant_id) {
                proof {
                    lemma_find_tenant_found(self.tenant_configs@, i as int, tenant_id@);
                }
                if crate::json::str_eq(self.tenant_configs[i].user_id.as_str(), user_id) {
                    return Ok(());
                } else {
                    return Err(TenantError::Unauthorized(String::from_str(tenant_id)));
                }
            }
            i = i + 1;
        }
        proof {
            lemma_find_tenant_absent(self.tenant_configs@, tenant_id@);
        }
        if self.auto_register {
            let mut permissions: Vec<Permission> = Vec::new();
            permissions.push(Permission::Admin);
            proof {
                assert(permissions@ =~= seq![Permission::Admin]);
            }
            let context = TenantContext {
                tenant_id: String::from_str(tenant_id),
                user_id: String::from_str(user_id),
                context_type: ContextType::Organization {
                    org_id: String::from_str(tenant_id),
                    org_name: String::from_str(tenant_id),
                },
                organization_id: String::from_str(tenant_id),
                role: UserRole::Admin,
                permissions,
                aws_region: self.default_region.clone(),
                resource_limits: ResourceLimits::default(),
            };
            let ghost pre = self.tenant_configs@;
            self.tenant_configs.push(context);
            proof {
                assert forall|x: int, y: int|
                    0 <= x < y < self.tenant_configs@.len() implies (
                #[trigger] self.tenant_configs@[x]).tenant_id@ != (
                #[trigger] self.tenant_configs@[y]).tenant_id@ by {
                    if y < pre.len() {
                        assert(self.tenant_configs@[x] == pre[x] && self.tenant_configs@[y]
                            == pre[y]);
                    } else {
                        assert(self.tenant_configs@[x] == pre[x]);
                    }
                }
                assert forall|x: int|
                    0 <= x < pre.len() implies (#[trigger] self.tenant_configs@[x]).tenant_id@
                    != tenant_id@ by {
                    assert(self.tenant_configs@[x] == pre[x]);
                }
                lemma_find_tenant_found(self.tenant_configs@, pre.len() as int, tenant_id@);
            }
            Ok(())
        } else {
            Err(TenantError::NotFound(String::from_str(tenant_id)))
        }
    }

    /// Start a session for a configured tenant; the new session's index is
    /// its handle.
    pub fn create_session(&mut self, tenant_id: &str, now_ms: u64) -> (r: Result<
        usize,
        TenantError,
    >)
        requires
            old(self).wf(),
        ensures
            final(self).wf(),
            final(self).tenant_configs == old(self).tenant_configs,
            final(self).aws_rate_limiter == old(self).aws_rate_limiter,
            final(self).auto_register == old(self).auto_register,
            final(self).default_region == old(self).default_region,
            match find_tenant(old(self).tenant_configs@, tenant_id@) {
                Some(c) => {
                    &&& r matches Ok(idx) && idx == old(self).sessions@.len()
                    &&& final(self).sessions@.len() == old(self).sessions@.len() + 1
                    &&& ({
                        let s = final(self).sessions@.last();
                        &&& ctx_equiv(s.context, c)
                        &&& s.request_count == 0
                        &&& s.active_requests == 0
                        &&& s.last_activity_ms == now_ms
                    })
                    &&& forall|x: int|
                        0 <= x < old(self).sessions@.len() ==> final(self).sessions@[x] == old(
                            self,
                        ).sessions@[x]
                },
                None => r is Err && final(self).sessions == old(self).sessions,
            },
    {
        let n: usize = self.tenant_configs.len();
        let mut i: usize = 0;
        while i < n
            invariant
                0 <= i <= n,
                *self == *old(self),
                old(self).wf(),
                n == self.tenant_configs@.len(),
                forall|x: int|
                    0 <= x < i ==> (#[trigger] self.tenant_configs@[x]).tenant_id@ != tenant_id@,
            decreases n - i,
        {
            if crate::json::str_eq(self.tenant_configs[i].tenant_id.as_str(), tenant_id) {
                proof {
                    lemma_find_tenant_found(self.tenant_configs@, i as int, tenant_id@);
                }
                let context = self.tenant_configs[i].clone();
                let session = TenantSession::new(context, now_ms);
                let idx = self.sessions.len();
                let ghost pre = self.sessions@;
                self.sessions.push(session);
                proof {
                    assert forall|x: int|
                        0 <= x < self.sessions@.len() implies (
                    #[trigger] self.sessions@[x]).wf() by {
                        if x < pre.len() {
                            assert(self.sessions@[x] == pre[x]);
                        }
                    }
                }
                return Ok(idx);
            }
            i = i + 1;
        }
        proof {
            lemma_find_tenant_absent(self.tenant_configs@, tenant_id@);
        }
        Err(TenantError::NotFound(String::from_str(tenant_id)))
    }

    pub fn get_session(&self, idx: usize) -> (r: Option<&TenantSession>)
        ensures
            r is Some <==> idx < self.sessions@.len(),
            r matches Some(s) ==> *s == self.sessions@[idx as int],
    {
        if idx < self.sessions.len() {
            Some(&self.sessions[idx])
        } else {
            None
        }
    }

    pub fn get_all_sessions(&self) -> (r: &Vec<TenantSession>)
        ensures
            r == &self.sessions,
    {
        &self.sessions
    }

    /// The sum of in-flight requests across all sessions: what the drain
    /// loop polls.
    pub fn total_active_requests(&self) -> (r: u64)
        requires
            self.sessions@.len() <= 0xffffffff,
        ensures
            r == sum_active(self.sessions@),
    {
        let n: usize = self.sessions.len();
        let mut total: u64 = 0;
        let mut i: usize = 0;
        while i < n
            invariant
                0 <= i <= n,
                n == self.sessions@.len(),
                n <= 0xffffffff,
                total == sum_active(self.sessions@.take(i as int)),
                total <= 0xffffffffint * (i as int),
            decreases n - i,
        {
            proof {
                assert(self.sessions@.take(i + 1).drop_last() =~= self.sessions@.take(i as int));
                assert(self.sessions@.take(i + 1).last() == self.sessions@[i as int]);
            }
            total = total + self.sessions[i].active_requests as u64;
            i = i + 1;
        }
        proof {
            assert(self.sessions@.take(n as int) =~= self.sessions@);
        }
        total
    }

    /// Two-phase sweep: sessions idle past the timeout are removed, live
    /// ones stay in order; stale rate buckets are evicted too.
    pub fn cleanup_expired_sessions(&mut self, now_ms: u64)
        requires
            old(self).wf(),
        ensures
            final(self).wf(),
            final(self).tenant_configs == old(self).tenant_configs,
            final(self).auto_register == old(self).auto_register,
            final(self).sessions@ == old(self).sessions@.filter(
                |s: TenantSession|
                    (if now_ms >= s.last_activity_ms {
                        now_ms - s.last_activity_ms
                    } else {
                        0
                    }) < SESSION_IDLE_MS,
            ),
            final(self).aws_rate_limiter.buckets@ == old(self).aws_rate_limiter.buckets@.filter(
                |e: (String, crate::rate_limiting::RateLimitBucket)|
                    (if now_ms >= e.1.last_refill_ms {
                        now_ms - e.1.last_refill_ms
                    } else {
                        0
                    }) < crate::rate_limiting::BUCKET_IDLE_MS,
            ),
    {
        let ghost pred = |s: TenantSession|
            (if now_ms >= s.last_activity_ms {
                now_ms - s.last_activity_ms
            } else {
                0
            }) < SESSION_IDLE_MS;
        let ghost orig = self.sessions@;
        let n: usize = self.sessions.len();
        let mut kept: Vec<TenantSession> = Vec::new();
        let mut j: usize = 0;
        proof {
            assert(orig.subrange(0, 0) =~= Seq::<TenantSession>::empty());
            assert(orig.subrange(0, n as int) =~= orig);
            reveal(Seq::filter);
            assert(kept@ == orig.subrange(0, 0).filter(pred));
        }
        while j < n
            invariant
                0 <= j <= n,
                n == orig.len(),
                self.sessions@ == orig.subrange(j as int, n as int),
                self.tenant_configs == old(self).tenant_configs,
                self.aws_rate_limiter == old(self).aws_rate_limiter,
                self.auto_register == old(self).auto_register,
                self.default_region == old(self).default_region,
                old(self).wf(),
                orig == old(self).sessions@,
                pred == (|s: TenantSession|
                    (if now_ms >= s.last_activity_ms {
                        now_ms - s.last_activity_ms
                    } else {
                        0
                    }) < SESSION_IDLE_MS),
                kept@ == orig.subrange(0, j as int).filter(pred),
                forall|x: int| 0 <= x < kept@.len() ==> (#[trigger] kept@[x]).wf(),
            decreases n - j,
        {
            let ghost before = self.sessions@;
            let e = self.sessions.remove(0);
            proof {
                assert(e == before[0]);
                assert(before[0] == orig[j as int]);
                assert(self.sessions@ =~= orig.subrange(j + 1, n as int)) by {
                    assert(self.sessions@ =~= before.subrange(1, before.len() as int));
                }
            }
            let age: u64 = if now_ms >= e.last_activity_ms {
                now_ms - e.last_activity_ms
            } else {
                0
            };
            proof {
                reveal(Seq::filter);
                assert(orig.subrange(0, j + 1).drop_last() =~= orig.subrange(0, j as int));
                assert(orig.subrange(0, j + 1).last() == orig[j as int]);
            }
            if age < SESSION_IDLE_MS {
                proof {
                    assert(pred(orig[j as int]));
                    assert(orig[j as int].wf());
                }
                kept.push(e);
                proof {
                    assert(kept@ =~= orig.subrange(0, j + 1).filter(pred)) by {
                        assert(orig.subrange(0, j + 1).filter(pred) == orig.subrange(
                            0,
                            j as int,
                        ).filter(pred).push(orig[j as int]));
                    }
                }
            } else {
                proof {
                    assert(!pred(orig[j as int]));
                    assert(orig.subrange(0, j + 1).filter(pred) == orig.subrange(
                        0,
                        j as int,
                    ).filter(pred));
                }
            }
            j = j + 1;
        }
        proof {
            assert(orig.subrange(0, n as int) =~= orig);
        }
        self.sessions = kept;
        self.aws_rate_limiter.cleanup_expired_buckets(now_ms);
    }

    /// Admit one request on a session: check the per-session gates and,
    /// when they pass, count it, raise the in-flight counter, and stamp
    /// the activity time.
    pub fn admit_request(&mut self, idx: usize, now_ms: u64) -> (ok: bool)
        requires
            old(self).wf(),
            idx < old(self).sessions@.len(),
        ensures
            final(self).wf(),
            final(self).tenant_configs == old(self).tenant_configs,
            final(self).aws_rate_limiter == old(self).aws_rate_limiter,
            final(self).auto_register == old(self).auto_register,
            final(self).sessions@.len() == old(self).sessions@.len(),
            forall|k: int|
                0 <= k < old(self).sessions@.len() && k != idx ==> final(self).sessions@[k]
                    == old(self).sessions@[k],
            ok == ({
                let s = old(self).sessions@[idx as int];
                s.request_count < s.context.resource_limits.requests_per_minute
                    && s.active_requests < s.context.resource_limits.max_concurrent_requests
            }),
            ok ==> final(self).sessions@[idx as int] == (TenantSession {
                request_count: (old(self).sessions@[idx as int].request_count + 1) as u32,
                active_requests: (old(self).sessions@[idx as int].active_requests + 1) as u32,
                last_activity_ms: now_ms,
                ..old(self).sessions@[idx as int]
            }),
            !ok ==> final(self).sessions@ == old(self).sessions@,
    {
        let ghost pre = self.sessions@;
        if !self.sessions[idx].check_rate_limit() {
            proof {
                assert(self.sessions@ =~= pre);
            }
            return false;
        }
        let s = &mut self.sessions[idx];
        proof {
            assert(*s == pre[idx as int]);
        }
        s.increment_request_count();
        s.increment_active_requests();
        s.update_activity(now_ms);
        proof {
            assert forall|k: int| 0 <= k < self.sessions@.len() implies (
            #[trigger] self.sessions@[k]).wf() by {
                if k != idx {
                    assert(self.sessions@[k] == pre[k]);
                }
            }
        }
        true
    }

    /// Retire one in-flight request on a session, saturating at zero.
    pub fn release_request(&mut self, idx: usize)
        requires
            old(self).wf(),
            idx < old(self).sessions@.len(),
        ensures
            final(self).wf(),
            final(self).tenant_configs == old(self).tenant_configs,
            final(self).aws_rate_limiter == old(self).aws_rate_limiter,
            final(self).auto_register == old(self).auto_register,
            final(self).sessions@.len() == old(self).sessions@.len(),
            forall|k: int|
                0 <= k < old(self).sessions@.len() && k != idx ==> final(self).sessions@[k]
                    == old(self).sessions@[k],
            final(self).sessions@[idx as int] == (TenantSession {
                active_requests: if old(self).sessions@[idx as int].active_requests > 0 {
                    (old(self).sessions@[idx as int].active_requests - 1) as u32
                } else {
                    0
                },
                ..old(self).sessions@[idx as int]
            }),
    {
        let ghost pre = self.sessions@;
        let s = &mut self.sessions[idx];
        proof {
            assert(*s == pre[idx as int]);
        }
        s.decrement_active_requests();
        proof {
            assert forall|k: int| 0 <= k < self.sessions@.len() implies (
            #[trigger] self.sessions@[k]).wf() by {
                if k != idx {
                    assert(self.sessions@[k] == pre[k]);
                }
            }
        }
    }

    pub fn get_aws_rate_limiter(&self) -> (r: &AwsRateLimiter)
        ensures
            r == &self.aws_rate_limiter,
    {
        &self.aws_rate_limiter
    }
}

proof fn lemma_find_tenant_found(s: Seq<TenantContext>, i: int, tenant_id: Seq<char>)
    requires
        0 <= i < s.len(),
        s[i].tenant_id@ == tenant_id,
        forall|x: int| 0 <= x < i ==> (#[trigger] s[x]).tenant_id@ != tenant_id,
    ensures
        find_tenant(s, tenant_id) == Some(s[i]),
    decreases i,
{
    if i > 0 {
        assert(s[0].tenant_id@ != tenant_id);
        assert(s.drop_first()[i - 1] == s[i]);
        assert forall|x: int|
            0 <= x < i - 1 implies (#[trigger] s.drop_first()[x]).tenant_id@ != tenant_id by {
            assert(s.drop_first()[x] == s[x + 1]);
        }
        lemma_find_tenant_found(s.drop_first(), i - 1, tenant_id);
    }
}

proof fn lemma_find_tenant_absent(s: Seq<TenantContext>, tenant_id: Seq<char>)
    requires
        forall|x: int| 0 <= x < s.len() ==> (#[trigger] s[x]).tenant_id@ != tenant_id,
    ensures
        find_tenant(s, tenant_id) is None,
    decreases s.len(),
{
    if s.len() > 0 {
        assert forall|x: int|
            0 <= x < s.drop_first().len() implies (#[trigger] s.drop_first()[x]).tenant_id@
            != tenant_id by {
            assert(s.drop_first()[x] == s[x + 1]);
        }
        lemma_find_tenant_absent(s.drop_first(), tenant_id);
    }
}

} // verus!