//! The request router: the JSON-RPC envelope, the error code table, and
//! the request lifecycle — parse, resolve the principal, authorize,
//! rate-limit, count, dispatch, respond.
//!
//! One line in, at most one response out. A notification produces
//! nothing. A tool call that passes every gate is handed back to the
//! caller as a `Dispatch`; everything else is answered immediately. On
//! every immediate answer the in-flight counters are restored exactly;
//! a dispatch leaves one request in flight until `finish_tool_call`.
use vstd::prelude::*;

use crate::handlers::{HandlerError, HandlerRegistry, ToolAction};
use crate::json::{obj1, obj2, obj3, spec_get, JVal, Json};
use crate::rate_limiting::AwsOperation;
use crate::tenant::{TenantError, TenantManager, TenantSession};

verus! {

pub const PROTOCOL_VERSION: &'static str = "2025-06-18";

#[derive(Debug)]
pub enum MCPError {
    InvalidRequest(String),
    MethodNotFound(String),
    TenantError(TenantError),
    HandlerError(String),
    PermissionDenied(String),
    RateLimitExceeded,
    Internal(String),
}

/// The wire code for each error kind.
pub open spec fn spec_error_code(e: MCPError) -> int {
    match e {
        MCPError::InvalidRequest(_) => -32600,
        MCPError::MethodNotFound(_) => -32601,
        MCPError::PermissionDenied(_) => -32000,
        MCPError::RateLimitExceeded => -32001,
        MCPError::TenantError(_) => -32002,
        MCPError::HandlerError(_) => -32003,
        MCPError::Internal(_) => -32603,
    }
}

/// A parsed request envelope. The identity fields are this router's
/// extension to the standard envelope.
#[derive(Debug)]
pub struct MCPRequest {
    pub jsonrpc: String,
    pub id: Option<Json>,
    pub method: String,
    pub params: Option<Json>,
    pub tenant_id: Option<String>,
    pub user_id: Option<String>,
    pub session_token: Option<String>,
}

#[derive(Debug)]
pub struct MCPErrorResponse {
    pub code: i64,
    pub message: String,
    pub data: Option<Json>,
}

#[derive(Debug)]
pub struct MCPResponse {
    pub jsonrpc: String,
    pub id: Option<Json>,
    pub result: Option<Json>,
    pub error: Option<MCPErrorResponse>,
}

impl MCPErrorResponse {
    /// The code and message for an error, per the wire table.
    pub fn of_error(error: MCPError) -> (r: Self)
        ensures
            r.code == spec_error_code(error),
            r.data is None,
            match error {
                MCPError::InvalidRequest(m) => r.message@ == "Invalid Request: "@ + m@,
                MCPError::MethodNotFound(m) => r.message@ == "Method not found: "@ + m@,
                MCPError::PermissionDenied(m) => r.message@ == "Permission denied: "@ + m@,
                MCPError::RateLimitExceeded => r.message@ == "Rate limit exceeded"@,
                MCPError::TenantError(te) => match te {
                    TenantError::NotFound(id) => r.message@ == "Tenant error: Tenant not found: "@
                        + id@,
                    TenantError::Unauthorized(id) => r.message@
                        == "Tenant error: Unauthorized access for tenant: "@ + id@,
                    TenantError::ConfigError(m) => r.message@
                        == "Tenant error: Tenant configuration error: "@ + m@,
                },
                MCPError::HandlerError(m) => r.message@ == "Handler error: "@ + m@,
                MCPError::Internal(m) => r.message@ == "Internal error: "@ + m@,
            },
    {
        match error {
            MCPError::InvalidRequest(m) => {
                let mut s = String::from_str("Invalid Request: ");
                s.append(m.as_str());
                MCPErrorResponse { code: -32600, message: s, data: None }
            },
            MCPError::MethodNotFound(m) => {
                let mut s = String::from_str("Method not found: ");
                s.append(m.as_str());
                MCPErrorResponse { code: -32601, message: s, data: None }
            },
            MCPError::PermissionDenied(m) => {
                let mut s = String::from_str("Permission denied: ");
                s.append(m.as_str());
                MCPErrorResponse { code: -32000, message: s, data: None }
            },
            MCPError::RateLimitExceeded => {
                MCPErrorResponse {
                    code: -32001,
                    message: String::from_str("Rate limit exceeded"),
                    data: None,
                }
            },
            MCPError::TenantError(e) => {
                let mut s = String::from_str("Tenant error: ");
                match e {
                    TenantError::NotFound(id) => {
                        s.append("Tenant not found: ");
                        s.append(id.as_str());
                        proof {
                            assert(s@ =~= "Tenant error: Tenant not found: "@ + id@) by {
                                reveal_strlit("Tenant error: ");
                                reveal_strlit("Tenant not found: ");
                                reveal_strlit("Tenant error: Tenant not found: ");
                            }
                        }
                    },
                    TenantError::Unauthorized(id) => {
                        s.append("Unauthorized access for tenant: ");
                        s.append(id.as_str());
                        proof {
                            assert(s@ =~= "Tenant error: Unauthorized access for tenant: "@
                                + id@) by {
                                reveal_strlit("Tenant error: ");
                                reveal_strlit("Unauthorized access for tenant: ");
                                reveal_strlit("Tenant error: Unauthorized access for tenant: ");
                            }
                        }
                    },
                    TenantError::ConfigError(m) => {
                        s.append("Tenant configuration error: ");
                        s.append(m.as_str());
                        proof {
                            assert(s@ =~= "Tenant error: Tenant configuration error: "@ + m@) by {
                                reveal_strlit("Tenant error: ");
                                reveal_strlit("Tenant configuration error: ");
                                reveal_strlit("Tenant error: Tenant configuration error: ");
                            }
                        }
                    },
                }
                MCPErrorResponse { code: -32002, message: s, data: None }
            },
            MCPError::HandlerError(m) => {
                let mut s = String::from_str("Handler error: ");
                s.append(m.as_str());
                MCPErrorResponse { code: -32003, message: s, data: None }
            },
            MCPError::Internal(m) => {
                let mut s = String::from_str("Internal error: ");
                s.append(m.as_str());
                MCPErrorResponse { code: -32603, message: s, data: None }
            },
        }
    }
}

/// Whether a parsed value is a notification: no `id` member, or `id`
/// bound to null.
pub open spec fn spec_is_notification(v: JVal) -> bool {
    match spec_get(v, "id"@) {
        None => true,
        Some(JVal::Null) => true,
        Some(_) => false,
    }
}

/// The identity extension fields are well typed: where present, each is a
/// string.
pub open spec fn spec_envelope_fields_ok(v: JVal) -> bool {
    &&& (match spec_get(v, "tenant_id"@) {
        None => true,
        Some(t) => t is Str,
    })
    &&& (match spec_get(v, "user_id"@) {
        None => true,
        Some(t) => t is Str,
    })
    &&& (match spec_get(v, "session_token"@) {
        None => true,
        Some(t) => t is Str,
    })
}

/// A value is a well-formed envelope: an object with string `jsonrpc` and
/// `method`, and well-typed extension fields.
pub open spec fn spec_envelope_ok(v: JVal) -> bool {
    &&& v is Obj
    &&& spec_get(v, "jsonrpc"@) matches Some(j) && j is Str
    &&& spec_get(v, "method"@) matches Some(m) && m is Str
    &&& spec_envelope_fields_ok(v)
}

/// Decode the envelope from a parsed value.
pub fn parse_request(v: &Json) -> (r: Result<MCPRequest, ()>)
    ensures
        r is Ok <==> spec_envelope_ok(v@),
        r matches Ok(req) ==> {
            &&& (spec_get(v@, "jsonrpc"@) matches Some(JVal::Str(s)) && req.jsonrpc@ == s)
            &&& (spec_get(v@, "method"@) matches Some(JVal::Str(s)) && req.method@ == s)
            &&& (req.id is None <==> spec_is_notification(v@))
            &&& (req.id matches Some(x) ==> spec_get(v@, "id"@) == Some(x@))
            &&& (req.params is None <==> spec_get(v@, "params"@) is None)
            &&& (req.params matches Some(p) ==> spec_get(v@, "params"@) == Some(p@))
            &&& crate::handlers::opt_str_is(
                req.tenant_id,
                crate::handlers::spec_opt_str(v@, "tenant_id"@),
            )
            &&& crate::handlers::opt_str_is(
                req.user_id,
                crate::handlers::spec_opt_str(v@, "user_id"@),
            )
        },
{
    if !matches!(v, Json::Obj(_)) {
        return Err(());
    }
    let jsonrpc = match v.get("jsonrpc") {
        Some(j) => match j.as_str() {
            Some(cs) => crate::json::chars_to_string(cs),
            None => {
                return Err(());
            },
        },
        None => {
            return Err(());
        },
    };
    let method = match v.get("method") {
        Some(m) => match m.as_str() {
            Some(cs) => crate::json::chars_to_string(cs),
            None => {
                return Err(());
            },
        },
        None => {
            return Err(());
        },
    };
    let id: Option<Json> = match v.get("id") {
        Some(x) => {
            if x.is_null() {
                None
            } else {
                Some(crate::json::clone_json(x))
            }
        },
        None => None,
    };
    let params: Option<Json> = match v.get("params") {
        Some(p) => Some(crate::json::clone_json(p)),
        None => None,
    };
    let tenant_id: Option<String> = match v.get("tenant_id") {
        Some(t) => match t.as_str() {
            Some(cs) => Some(crate::json::chars_to_string(cs)),
            None => {
                return Err(());
            },
        },
        None => None,
    };
    let user_id: Option<String> = match v.get("user_id") {
        Some(t) => match t.as_str() {
            Some(cs) => Some(crate::json::chars_to_string(cs)),
            None => {
                return Err(());
            },
        },
        None => None,
    };
    let session_token: Option<String> = match v.get("session_token") {
        Some(t) => match t.as_str() {
            Some(cs) => Some(crate::json::chars_to_string(cs)),
            None => {
                return Err(());
            },
        },
        None => None,
    };
    Ok(MCPRequest { jsonrpc, id, method, params, tenant_id, user_id, session_token })
}

/// The arguments of a `tools/call` in a parsed envelope: `params.arguments`,
/// defaulting to the empty object.
pub open spec fn spec_call_args(v: JVal) -> JVal {
    match spec_get(v, "params"@) {
        Some(p) => match spec_get(p, "arguments"@) {
            Some(a) => a,
            None => JVal::Obj(Seq::empty()),
        },
        None => JVal::Obj(Seq::empty()),
    }
}

/// The same default over an already-extracted `params` member.
pub open spec fn spec_args_of(params: Option<Json>) -> JVal {
    match params {
        Some(p) => match spec_get(p@, "arguments"@) {
            Some(a) => a,
            None => JVal::Obj(Seq::empty()),
        },
        None => JVal::Obj(Seq::empty()),
    }
}

/// The view of an optional owned string.
pub open spec fn opt_view(o: Option<String>) -> Option<Seq<char>> {
    match o {
        Some(s) => Some(s@),
        None => None,
    }
}

/// The identity actually used: the request's, or the configured default.
pub open spec fn spec_resolved(req: Option<Seq<char>>, default: Option<String>) -> Option<
    Seq<char>,
> {
    match req {
        Some(t) => Some(t),
        None => opt_view(default),
    }
}

/// Whether `(tenantId, userId)` passes the directory: a configured tenant
/// with that user, or any pair under auto-registration.
pub open spec fn spec_tenant_ok(m: TenantManager, tid: Seq<char>, uid: Seq<char>) -> bool {
    match crate::tenant::find_tenant(m.tenant_configs@, tid) {
        Some(c) => c.user_id@ == uid,
        None => m.auto_register,
    }
}

/// The limits a fresh session for this tenant runs under.
pub open spec fn spec_session_limits(m: TenantManager, tid: Seq<char>) -> crate::tenant::ResourceLimits {
    match crate::tenant::find_tenant(m.tenant_configs@, tid) {
        Some(c) => c.resource_limits,
        None => crate::tenant::ResourceLimits::spec_default(),
    }
}

/// Whether a fresh session passes the per-session gates: both limits are
/// non-zero.
pub open spec fn spec_gates_open(m: TenantManager, tid: Seq<char>) -> bool {
    &&& spec_session_limits(m, tid).requests_per_minute > 0
    &&& spec_session_limits(m, tid).max_concurrent_requests > 0
}

/// Whether the tenant's principal holds a permission: by its configured
/// context, or always under auto-registration (the fresh tenant is its
/// own administrator).
pub open spec fn spec_session_grant(
    m: TenantManager,
    tid: Seq<char>,
    q: crate::tenant::Permission,
) -> bool {
    match crate::tenant::find_tenant(m.tenant_configs@, tid) {
        Some(c) => crate::tenant::spec_has_permission(c, q),
        None => true,
    }
}

/// Whether the token bucket admits this tool call's charge.
pub open spec fn spec_charge_ok(
    l: crate::rate_limiting::AwsRateLimiter,
    tid: Seq<char>,
    name: Seq<char>,
    args: JVal,
    now_ms: u64,
) -> bool {
    match AwsOperation::spec_from_tool_name(name, args) {
        Some(op) => {
            let key = crate::rate_limiting::AwsRateLimiter::spec_bucket_key(tid, op);
            let src = l.spec_charge_source(key, op, now_ms);
            src.spec_refilled(now_ms) >= l.spec_limits_for(op).2 * 1000
        },
        None => true,
    }
}

/// An immediate refusal: a response with no result and this error code.
pub open spec fn spec_err_code(r: StepOutcome, code: int) -> bool {
    r matches StepOutcome::Respond(resp) && resp.result is None && (resp.error matches Some(e)
        && e.code == code)
}

/// The lifetime request counters are untouched: old sessions keep their
/// counts and any new session has counted nothing.
pub open spec fn spec_counts_frame(pre: Seq<TenantSession>, post: Seq<TenantSession>) -> bool {
    &&& forall|k: int|
        0 <= k < pre.len() ==> (#[trigger] post[k]).request_count == pre[k].request_count
    &&& forall|k: int| pre.len() <= k < post.len() ==> (#[trigger] post[k]).request_count == 0
}

/// A refusal with this exact code and message.
pub open spec fn spec_err_msg(r: StepOutcome, code: int, msg: Seq<char>) -> bool {
    r matches StepOutcome::Respond(resp) && resp.result is None && (resp.error matches Some(e)
        && e.code == code && e.message@ == msg)
}

/// The tools-call cascade after the gates: the bucket, the table, the
/// permission, then the argument validation.
pub open spec fn spec_call_routed(
    m: TenantManager,
    hs: Seq<crate::handlers::HandlerEntry>,
    tid: Seq<char>,
    params: Option<JVal>,
    now_ms: u64,
    r: StepOutcome,
) -> bool {
    match params {
        None => spec_err_msg(r, -32600, "Invalid Request: "@ + "Missing parameters"@),
        Some(p) => match spec_get(p, "name"@) {
            None => spec_err_msg(r, -32600, "Invalid Request: "@ + "Missing tool name"@),
            Some(JVal::Str(n)) => {
                let args = match spec_get(p, "arguments"@) {
                    Some(a) => a,
                    None => JVal::Obj(Seq::empty()),
                };
                if !spec_charge_ok(m.aws_rate_limiter, tid, n, args, now_ms) {
                    spec_err_code(r, -32001)
                } else {
                    match crate::handlers::handler_of(hs, n) {
                        None => spec_err_code(r, -32003),
                        Some(h) => {
                            if h.required_permission matches Some(q) && !spec_session_grant(
                                m,
                                tid,
                                q,
                            ) {
                                spec_err_code(r, -32000)
                            } else if crate::handlers::spec_args_ok(n, args) {
                                r is Dispatch
                            } else {
                                spec_err_code(r, -32600)
                            }
                        },
                    }
                }
            },
            _ => spec_err_msg(r, -32600, "Invalid Request: "@ + "Invalid tool name"@),
        },
    }
}

/// The whole routing obligation for one identified request: identity
/// resolution, tenant authorization, the admission gates, then the
/// per-method outcome — success owed where every check passes.
pub open spec fn spec_routed(
    m: TenantManager,
    hs: Seq<crate::handlers::HandlerEntry>,
    default_tenant: Option<String>,
    default_user: Option<String>,
    method: Seq<char>,
    params: Option<JVal>,
    req_tenant: Option<Seq<char>>,
    req_user: Option<Seq<char>>,
    now_ms: u64,
    r: StepOutcome,
) -> bool {
    let tid = spec_resolved(req_tenant, default_tenant);
    let uid = spec_resolved(req_user, default_user);
    &&& (tid is None ==> spec_err_code(r, -32600))
    &&& (tid is Some && uid is None ==> spec_err_code(r, -32600))
    &&& (tid matches Some(t) ==> (uid matches Some(u) ==> {
        if !spec_tenant_ok(m, t, u) {
            spec_err_code(r, -32002)
        } else if !spec_gates_open(m, t) {
            spec_err_code(r, -32001)
        } else {
            &&& (method == "initialize"@ ==> (r matches StepOutcome::Respond(resp)
                && resp.error is None && (resp.result matches Some(j) && j@
                == spec_initialize_result())))
            &&& (method == "tools/list"@ ==> (r matches StepOutcome::Respond(resp)
                && resp.error is None && (resp.result matches Some(j) && (spec_get(j@, "tools"@)
                matches Some(t2) && t2 is Arr))))
            &&& (method == "notifications/initialized"@ ==> (r matches StepOutcome::Respond(resp)
                && resp.error is None && (resp.result matches Some(j) && j@ is Null)))
            &&& (method == "tools/call"@ ==> spec_call_routed(m, hs, t, params, now_ms, r))
            &&& (!(method == "initialize"@ || method == "tools/list"@ || method == "tools/call"@
                || method == "notifications/initialized"@) ==> spec_err_code(r, -32601))
        }
    }))
}

/// A short name for each permission, for refusal messages.
fn permission_label(p: &crate::tenant::Permission) -> &'static str {
    match p {
        crate::tenant::Permission::ReadKV => "ReadKV",
        crate::tenant::Permission::WriteKV => "WriteKV",
        crate::tenant::Permission::DeleteKV => "DeleteKV",
        crate::tenant::Permission::ListArtifacts => "ListArtifacts",
        crate::tenant::Permission::GetArtifacts => "GetArtifacts",
        crate::tenant::Permission::PutArtifacts => "PutArtifacts",
        crate::tenant::Permission::SendEvents => "SendEvents",
        crate::tenant::Permission::ExecuteWorkflows => "ExecuteWorkflows",
        crate::tenant::Permission::ManageUsers => "ManageUsers",
        crate::tenant::Permission::Execute => "Execute",
        crate::tenant::Permission::Admin => "Admin",
        crate::tenant::Permission::Read => "Read",
        crate::tenant::Permission::Write => "Write",
    }
}

/// Lift a handler refusal into a wire error: missing or bad arguments are
/// an invalid request, a failed permission check is permission-denied,
/// everything else surfaces as a handler error.
fn map_handler_error(e: HandlerError) -> (r: MCPError)
    ensures
        e is InvalidArguments ==> r is InvalidRequest,
        (e matches HandlerError::PermissionDenied(_)) ==> r is PermissionDenied,
        !(e is InvalidArguments) && !(e matches HandlerError::PermissionDenied(_)) ==> r
            is HandlerError,
{
    match e {
        HandlerError::PermissionDenied(p) => {
            MCPError::PermissionDenied(String::from_str(permission_label(&p)))
        },
        HandlerError::InvalidArguments(m) => MCPError::InvalidRequest(m),
        HandlerError::NotFound(m) => {
            let mut s = String::from_str("Handler not found: ");
            s.append(m.as_str());
            MCPError::HandlerError(s)
        },
        HandlerError::Aws(m) => MCPError::HandlerError(m),
        HandlerError::Internal(m) => MCPError::HandlerError(m),
    }
}

/// The `initialize` handshake result.
pub open spec fn spec_initialize_result() -> JVal {
    JVal::Obj(
        seq![
            ("protocolVersion"@, JVal::Str("2025-06-18"@)),
            (
                "capabilities"@,
                JVal::Obj(seq![("tools"@, JVal::Obj(Seq::empty()))]),
            ),
            (
                "serverInfo"@,
                JVal::Obj(
                    seq![
                        ("name"@, JVal::Str("mcp-rust"@)),
                        ("version"@, JVal::Str("0.1.0"@)),
                    ],
                ),
            ),
        ],
    )
}

/// Build the `initialize` handshake result.
pub fn initialize_result() -> (r: Json)
    ensures
        r@ == spec_initialize_result(),
{
    let tools_empty = Json::Obj(Vec::new());
    proof {
        assert(crate::json::view_json_members(Seq::<(Vec<char>, Json)>::empty())
            =~= Seq::<(Seq<char>, JVal)>::empty());
    }
    let capabilities = obj1("tools", tools_empty);
    let server_info = obj2("name", Json::str_of("mcp-rust"), "version", Json::str_of("0.1.0"));
    let r = obj3(
        "protocolVersion",
        Json::str_of(PROTOCOL_VERSION),
        "capabilities",
        capabilities,
        "serverInfo",
        server_info,
    );
    proof {
        assert(r@->Obj_0 =~= spec_initialize_result()->Obj_0);
    }
    r
}

/// The JSON form of a response: `jsonrpc` and `id` always, `result` or
/// `error` as present; an error carries its code and message.
pub open spec fn spec_response_jval(r: MCPResponse) -> JVal {
    let idv = match r.id {
        Some(x) => x@,
        None => JVal::Null,
    };
    match (r.result, r.error) {
        (Some(res), _) => JVal::Obj(
            seq![
                ("jsonrpc"@, JVal::Str(r.jsonrpc@)),
                ("id"@, idv),
                ("result"@, res@),
            ],
        ),
        (None, Some(err)) => JVal::Obj(
            seq![
                ("jsonrpc"@, JVal::Str(r.jsonrpc@)),
                ("id"@, idv),
                (
                    "error"@,
                    JVal::Obj(
                        seq![
                            ("code"@, JVal::Int(err.code as int)),
                            ("message"@, JVal::Str(err.message@)),
                        ],
                    ),
                ),
            ],
        ),
        (None, None) => JVal::Obj(
            seq![("jsonrpc"@, JVal::Str(r.jsonrpc@)), ("id"@, idv)],
        ),
    }
}

/// Serialize a response into its JSON value.
pub fn response_to_json(r: MCPResponse) -> (out: Json)
    ensures
        out@ == spec_response_jval(r),
{
    let ghost rg = r;
    let MCPResponse { jsonrpc, id, result, error } = r;
    let idj = match id {
        Some(x) => x,
        None => Json::Null,
    };
    match (result, error) {
        (Some(res), _) => {
            let out = obj3(
                "jsonrpc",
                Json::str_of(jsonrpc.as_str()),
                "id",
                idj,
                "result",
                res,
            );
            proof {
                assert(out@->Obj_0 =~= spec_response_jval(rg)->Obj_0);
            }
            out
        },
        (None, Some(err)) => {
            let errj = obj2(
                "code",
                Json::Int(err.code),
                "message",
                Json::str_of(err.message.as_str()),
            );
            let out = obj3(
                "jsonrpc",
                Json::str_of(jsonrpc.as_str()),
                "id",
                idj,
                "error",
                errj,
            );
            proof {
                assert(errj@->Obj_0 =~= spec_response_jval(rg)->Obj_0[2].1->Obj_0);
                assert(out@->Obj_0 =~= spec_response_jval(rg)->Obj_0);
            }
            out
        },
        (None, None) => {
            let out = obj2("jsonrpc", Json::str_of(jsonrpc.as_str()), "id", idj);
            proof {
                assert(out@->Obj_0 =~= spec_response_jval(rg)->Obj_0);
            }
            out
        },
    }
}

/// What one input line asks of the caller.
#[derive(Debug)]
pub enum StepOutcome {
    /// A notification: nothing is written.
    NoResponse,
    /// Write this response.
    Respond(MCPResponse),
    /// Run this backend action, then call `finish_tool_call` with the
    /// outcome; the session's in-flight counter stays raised meanwhile.
    Dispatch { session: usize, id: Json, action: ToolAction },
}

/// The router.
pub struct MCPServer {
    pub tenant_manager: TenantManager,
    pub handler_registry: HandlerRegistry,
    pub shutdown_flag: bool,
    pub default_tenant_id: Option<String>,
    pub default_user_id: Option<String>,
}

impl MCPServer {
    pub open spec fn wf(&self) -> bool {
        &&& self.tenant_manager.wf()
        &&& self.handler_registry.wf()
        &&& crate::handlers::spec_canonical_table(self.handler_registry.handlers@)
    }

    /// A router over a tenant directory, with the full tool table and
    /// optional default identity.
    pub fn new(
        tenant_manager: TenantManager,
        default_tenant_id: Option<String>,
        default_user_id: Option<String>,
    ) -> (r: Self)
        requires
            tenant_manager.wf(),
        ensures
            r.wf(),
            r.tenant_manager == tenant_manager,
            !r.shutdown_flag,
    {
        MCPServer {
            tenant_manager,
            handler_registry: HandlerRegistry::new(),
            shutdown_flag: false,
            default_tenant_id,
            default_user_id,
        }
    }

    /// Enter drain mode: no further requests are taken.
    pub fn initiate_shutdown(&mut self)
        ensures
            *final(self) == (MCPServer { shutdown_flag: true, ..*old(self) }),
    {
        self.shutdown_flag = true;
    }

    /// The sum of in-flight requests across all sessions.
    pub fn total_active_requests(&self) -> (r: u64)
        requires
            self.tenant_manager.sessions@.len() <= 0xffffffff,
        ensures
            r == crate::tenant::sum_active(self.tenant_manager.sessions@),
    {
        self.tenant_manager.total_active_requests()
    }

    /// Handle one input line: parse, gate, and either answer at once or
    /// hand a backend action to the caller.
    pub fn handle_request(&mut self, line: &str, now_ms: u64) -> (r: StepOutcome)
        requires
            old(self).wf(),
            old(self).tenant_manager.sessions@.len() < 0xffffffff,
        ensures
            final(self).wf(),
            final(self).handler_registry == old(self).handler_registry,
            final(self).shutdown_flag == old(self).shutdown_flag,
            // drain mode discards the record
            old(self).shutdown_flag ==> r is NoResponse && *final(self) == *old(self),
            // a record that does not parse is answered alone: one error,
            // null id, code -32600
            !old(self).shutdown_flag && crate::json::parse_text(line@) is None ==> (
            r matches StepOutcome::Respond(resp) && resp.id is None && resp.result is None && (
            resp.error matches Some(e) && e.code == -32600) && *final(self) == *old(self)),
            // a parsed record with a bad envelope is answered the same way
            !old(self).shutdown_flag ==> (crate::json::parse_text(line@) matches Some(v) ==> (
            !spec_envelope_ok(v) ==> (r matches StepOutcome::Respond(resp) && resp.id is None && (
            resp.error matches Some(e) && e.code == -32600) && *final(self) == *old(self)))),
            // notifications produce nothing, and nothing else does
            r is NoResponse <==> (old(self).shutdown_flag || (crate::json::parse_text(line@)
                matches Some(v) && spec_envelope_ok(v) && spec_is_notification(v))),
            !old(self).shutdown_flag ==> (crate::json::parse_text(line@) matches Some(v) ==> ((
            spec_envelope_ok(v) && spec_is_notification(v)) ==> *final(self) == *old(self))),
            // every response carries the protocol tag, echoes the id, and
            // sets exactly one of result and error
            r matches StepOutcome::Respond(resp) ==> resp.jsonrpc@ == "2.0"@ && (resp.result
                is Some <==> resp.error is None),
            // one identified, well-formed request is routed: success owed
            // when identity, tenant and gates all pass
            crate::json::parse_text(line@) matches Some(v) ==> ((spec_envelope_ok(v)
                && !spec_is_notification(v) && !old(self).shutdown_flag) ==> spec_routed(
                old(self).tenant_manager,
                old(self).handler_registry.handlers@,
                old(self).default_tenant_id,
                old(self).default_user_id,
                spec_get(v, "method"@)->0->Str_0,
                spec_get(v, "params"@),
                crate::handlers::spec_opt_str(v, "tenant_id"@),
                crate::handlers::spec_opt_str(v, "user_id"@),
                now_ms,
                r,
            )),
            crate::json::parse_text(line@) matches Some(v) ==> ((spec_envelope_ok(v)
                && !spec_is_notification(v)) ==> ({
                let idv = spec_get(v, "id"@)->0;
                &&& (r matches StepOutcome::Respond(resp) ==> resp.id matches Some(x) && x@ == idv)
                &&& (r matches StepOutcome::Dispatch { id, .. } ==> id@ == idv)
            })),
            // the in-flight counters: immediate answers restore them
            // exactly; a dispatch leaves one raised on the new session
            r is Respond || r is NoResponse ==> {
                &&& forall|k: int|
                    0 <= k < old(self).tenant_manager.sessions@.len() ==> (#[trigger] final(self).tenant_manager.sessions@[k]).active_requests == old(self).tenant_manager.sessions@[k].active_requests
                &&& forall|k: int|
                    old(self).tenant_manager.sessions@.len() <= k < final(self).tenant_manager.sessions@.len() ==> (#[trigger] final(self).tenant_manager.sessions@[k]).active_requests == 0
            },
            r matches StepOutcome::Dispatch { session, id, action } ==> {
                &&& final(self).tenant_manager.sessions@.len() == old(self).tenant_manager.sessions@.len() + 1
                &&& session == old(self).tenant_manager.sessions@.len()
                &&& final(self).tenant_manager.sessions@[session as int].active_requests == 1
                &&& forall|k: int|
                    0 <= k < old(self).tenant_manager.sessions@.len() ==> (#[trigger] final(self).tenant_manager.sessions@[k]).active_requests == old(self).tenant_manager.sessions@[k].active_requests
            },
            // a dispatch is a validated tools/call
            r matches StepOutcome::Dispatch { session, id, action } ==> (
            crate::json::parse_text(line@) matches Some(v) && spec_get(v, "method"@) == Some(
                JVal::Str("tools/call"@),
            ) && crate::handlers::action_matches(spec_call_args(v), action)),
            // method routing on success responses
            crate::json::parse_text(line@) matches Some(v) ==> ((spec_envelope_ok(v)
                && !spec_is_notification(v)) ==> ({
                let m = spec_get(v, "method"@)->0->Str_0;
                &&& (r matches StepOutcome::Respond(resp) ==> ((resp.error is None && m
                    == "initialize"@) ==> (resp.result matches Some(j) && j@
                    == spec_initialize_result())))
                &&& (r matches StepOutcome::Respond(resp) ==> ((resp.error is None && m
                    == "tools/list"@) ==> (resp.result matches Some(j) && spec_get(j@, "tools"@)
                    matches Some(t) && t is Arr)))
                &&& (r matches StepOutcome::Respond(resp) ==> ((resp.error is None && m
                    == "notifications/initialized"@) ==> (resp.result matches Some(j) && j@
                    is Null)))
                &&& (r matches StepOutcome::Respond(resp) ==> (resp.error is None ==> (m
                    == "initialize"@ || m == "tools/list"@ || m == "tools/call"@ || m
                    == "notifications/initialized"@)))
                &&& (r matches StepOutcome::Respond(resp) ==> (resp.error matches Some(e) ==> ((
                !(m == "initialize"@ || m == "tools/list"@ || m == "tools/call"@ || m
                    == "notifications/initialized"@) && e.code != -32600 && e.code != -32001
                    && e.code != -32002) ==> e.code == -32601)))
            })),
    {
        if self.shutdown_flag {
            return StepOutcome::NoResponse;
        }
        let parsed = match crate::json::parse_json_str(line) {
            Some(v) => v,
            None => {
                return StepOutcome::Respond(
                    MCPResponse {
                        jsonrpc: String::from_str("2.0"),
                        id: None,
                        result: None,
                        error: Some(
                            MCPErrorResponse::of_error(
                                MCPError::InvalidRequest(String::from_str("malformed record")),
                            ),
                        ),
                    },
                );
            },
        };
        let request = match parse_request(&parsed) {
            Ok(req) => req,
            Err(_) => {
                return StepOutcome::Respond(
                    MCPResponse {
                        jsonrpc: String::from_str("2.0"),
                        id: None,
                        result: None,
                        error: Some(
                            MCPErrorResponse::of_error(
                                MCPError::InvalidRequest(String::from_str("bad envelope")),
                            ),
                        ),
                    },
                );
            },
        };
        let request_id = match request.id {
            Some(x) => x,
            None => {
                // a notification: no response at all
                return StepOutcome::NoResponse;
            },
        };
        self.process_request(
            request.method,
            request.params,
            request.tenant_id,
            request.user_id,
            request_id,
            now_ms,
        )
    }

    /// The lifecycle for one identified request: resolve the principal,
    /// authorize, create a session, run the admission and rate gates,
    /// count, and dispatch by method.
    #[verifier::rlimit(100)]
    #[verifier::spinoff_prover]
    fn process_request(
        &mut self,
        method: String,
        params: Option<Json>,
        tenant_id: Option<String>,
        user_id: Option<String>,
        request_id: Json,
        now_ms: u64,
    ) -> (r: StepOutcome)
        requires
            old(self).wf(),
            old(self).tenant_manager.sessions@.len() < 0xffffffff,
        ensures
            final(self).wf(),
            final(self).handler_registry == old(self).handler_registry,
            final(self).shutdown_flag == old(self).shutdown_flag,
            !(r is NoResponse),
            r matches StepOutcome::Respond(resp) ==> resp.jsonrpc@ == "2.0"@ && (resp.id matches Some(x) && x@
                == request_id@),
            r matches StepOutcome::Dispatch { id, .. } ==> id@ == request_id@,
            r is Respond ==> {
                &&& forall|k: int|
                    0 <= k < old(self).tenant_manager.sessions@.len() ==> (#[trigger] final(self).tenant_manager.sessions@[k]).active_requests == old(self).tenant_manager.sessions@[k].active_requests
                &&& forall|k: int|
                    old(self).tenant_manager.sessions@.len() <= k < final(self).tenant_manager.sessions@.len() ==> (#[trigger] final(self).tenant_manager.sessions@[k]).active_requests == 0
            },
            r matches StepOutcome::Dispatch { session, id, action } ==> {
                &&& final(self).tenant_manager.sessions@.len() == old(self).tenant_manager.sessions@.len() + 1
                &&& session == old(self).tenant_manager.sessions@.len()
                &&& final(self).tenant_manager.sessions@[session as int].active_requests == 1
                &&& forall|k: int|
                    0 <= k < old(self).tenant_manager.sessions@.len() ==> (#[trigger] final(self).tenant_manager.sessions@[k]).active_requests == old(self).tenant_manager.sessions@[k].active_requests
            },
            r matches StepOutcome::Dispatch { session, id, action } ==> method@ == "tools/call"@
                && crate::handlers::action_matches(spec_args_of(params), action),
            r matches StepOutcome::Respond(resp) ==> (resp.result is Some <==> resp.error
                is None),
            spec_routed(
                old(self).tenant_manager,
                old(self).handler_registry.handlers@,
                old(self).default_tenant_id,
                old(self).default_user_id,
                method@,
                match params {
                    Some(p) => Some(p@),
                    None => None,
                },
                opt_view(tenant_id),
                opt_view(user_id),
                now_ms,
                r,
            ),
            spec_resolved(opt_view(tenant_id), old(self).default_tenant_id) matches Some(t)
                ==> ((spec_resolved(opt_view(user_id), old(self).default_user_id) matches Some(
                u,
            ) && spec_tenant_ok(old(self).tenant_manager, t, u) && !spec_gates_open(
                old(self).tenant_manager,
                t,
            )) ==> (final(self).tenant_manager.aws_rate_limiter == old(
                self,
            ).tenant_manager.aws_rate_limiter && spec_counts_frame(
                old(self).tenant_manager.sessions@,
                final(self).tenant_manager.sessions@,
            ))),
            ({
                &&& (r matches StepOutcome::Respond(resp) ==> ((resp.error is None && method@
                    == "initialize"@) ==> (resp.result matches Some(j) && j@
                    == spec_initialize_result())))
                &&& (r matches StepOutcome::Respond(resp) ==> ((resp.error is None && method@
                    == "tools/list"@) ==> (resp.result matches Some(j) && spec_get(j@, "tools"@)
                    matches Some(t) && t is Arr)))
                &&& (r matches StepOutcome::Respond(resp) ==> ((resp.error is None && method@
                    == "notifications/initialized"@) ==> (resp.result matches Some(j) && j@
                    is Null)))
                &&& (r matches StepOutcome::Respond(resp) ==> (resp.error is None ==> (method@
                    == "initialize"@ || method@ == "tools/list"@ || method@ == "tools/call"@
                    || method@ == "notifications/initialized"@)))
                &&& (r matches StepOutcome::Respond(resp) ==> (resp.error matches Some(e) ==> ((
                !(method@ == "initialize"@ || method@ == "tools/list"@ || method@
                    == "tools/call"@ || method@ == "notifications/initialized"@) && e.code
                    != -32600 && e.code != -32001 && e.code != -32002) ==> e.code == -32601)))
            }),
    {
        proof {
            reveal_strlit("initialize");
            reveal_strlit("tools/list");
            reveal_strlit("tools/call");
            reveal_strlit("notifications/initialized");
            assert("initialize"@ != "tools/list"@) by {
                assert("initialize"@[0] != "tools/list"@[0]);
            }
            assert("initialize"@ != "tools/call"@) by {
                assert("initialize"@[0] != "tools/call"@[0]);
            }
            assert("initialize"@ != "notifications/initialized"@) by {
                assert("initialize"@[0] != "notifications/initialized"@[0]);
            }
            assert("tools/list"@ != "tools/call"@) by {
                assert("tools/list"@[6] != "tools/call"@[6]);
            }
            assert("tools/list"@ != "notifications/initialized"@) by {
                assert("tools/list"@[0] != "notifications/initialized"@[0]);
            }
            assert("tools/call"@ != "notifications/initialized"@) by {
                assert("tools/call"@[0] != "notifications/initialized"@[0]);
            }
        }
        // resolve the principal, falling back to the configured defaults
        let tid: String = match tenant_id {
            Some(t) => t,
            None => match &self.default_tenant_id {
                Some(t) => t.clone(),
                None => {
                    return StepOutcome::Respond(
                        MCPResponse {
                            jsonrpc: String::from_str("2.0"),
                            id: Some(request_id),
                            result: None,
                            error: Some(
                                MCPErrorResponse::of_error(
                                    MCPError::InvalidRequest(
                                        String::from_str("tenant_id is required"),
                                    ),
                                ),
                            ),
                        },
                    );
                },
            },
        };
        let uid: String = match user_id {
            Some(u) => u,
            None => match &self.default_user_id {
                Some(u) => u.clone(),
                None => {
                    return StepOutcome::Respond(
                        MCPResponse {
                            jsonrpc: String::from_str("2.0"),
                            id: Some(request_id),
                            result: None,
                            error: Some(
                                MCPErrorResponse::of_error(
                                    MCPError::InvalidRequest(
                                        String::from_str("user_id is required"),
                                    ),
                                ),
                            ),
                        },
                    );
                },
            },
        };
        // authorize the tenant and open a session
        match self.tenant_manager.validate_tenant_access(tid.as_str(), uid.as_str()) {
            Ok(_) => {},
            Err(e) => {
                return StepOutcome::Respond(
                    MCPResponse {
                        jsonrpc: String::from_str("2.0"),
                        id: Some(request_id),
                        result: None,
                        error: Some(MCPErrorResponse::of_error(MCPError::TenantError(e))),
                    },
                );
            },
        }
        proof {
            assert(crate::tenant::find_tenant(self.tenant_manager.tenant_configs@, tid@)
                is Some) by {
                if crate::tenant::find_tenant(old(self).tenant_manager.tenant_configs@, tid@)
                    is Some {
                }
            }
        }
        let idx: usize = match self.tenant_manager.create_session(tid.as_str(), now_ms) {
            Ok(i) => i,
            Err(e) => {
                proof {
                    assert(false);
                }
                return StepOutcome::Respond(
                    MCPResponse {
                        jsonrpc: String::from_str("2.0"),
                        id: Some(request_id),
                        result: None,
                        error: Some(MCPErrorResponse::of_error(MCPError::TenantError(e))),
                    },
                );
            },
        };
        proof {
            let ghost ses = self.tenant_manager.sessions@[idx as int];
            assert(ses.context.resource_limits == spec_session_limits(
                old(self).tenant_manager,
                tid@,
            )) by {
                if crate::tenant::find_tenant(old(self).tenant_manager.tenant_configs@, tid@)
                    is Some {
                }
            }
            assert forall|q: crate::tenant::Permission|
                crate::tenant::spec_has_permission(ses.context, q) == spec_session_grant(
                    old(self).tenant_manager,
                    tid@,
                    q,
                ) by {
                if crate::tenant::find_tenant(old(self).tenant_manager.tenant_configs@, tid@)
                    is Some {
                } else {
                    assert(ses.context.role == crate::tenant::UserRole::Admin);
                }
            }
        }
        // the per-session gates, checked before any counter moves
        if !self.tenant_manager.sessions[idx].check_rate_limit() {
            return StepOutcome::Respond(
                MCPResponse {
                    jsonrpc: String::from_str("2.0"),
                    id: Some(request_id),
                    result: None,
                    error: Some(MCPErrorResponse::of_error(MCPError::RateLimitExceeded)),
                },
            );
        }
        // the per-operation token bucket, for tool calls with a named tool
        if crate::json::str_eq(method.as_str(), "tools/call") {
            let mut denied = false;
            match &params {
                Some(p) => match p.get("name") {
                    Some(nv) => match nv.as_str() {
                        Some(ncs) => {
                            let name_s = crate::json::chars_to_string(ncs);
                            let cost_args: Json = match p.get("arguments") {
                                Some(a) => crate::json::clone_json(a),
                                None => Json::Obj(Vec::new()),
                            };
                            match AwsOperation::from_tool_name(name_s.as_str(), &cost_args) {
                                Some(op) => {
                                    let allowed =
                                        self.tenant_manager.aws_rate_limiter.check_aws_operation(
                                        tid.as_str(),
                                        &op,
                                        now_ms,
                                    );
                                    if !allowed {
                                        denied = true;
                                    }
                                },
                                None => {},
                            }
                        },
                        None => {},
                    },
                    None => {},
                },
                None => {},
            }
            if denied {
                return StepOutcome::Respond(
                    MCPResponse {
                        jsonrpc: String::from_str("2.0"),
                        id: Some(request_id),
                        result: None,
                        error: Some(MCPErrorResponse::of_error(MCPError::RateLimitExceeded)),
                    },
                );
            }
        }
        // count the request and mark it in flight
        let admitted = self.tenant_manager.admit_request(idx, now_ms);
        if !admitted {
            return StepOutcome::Respond(
                MCPResponse {
                    jsonrpc: String::from_str("2.0"),
                    id: Some(request_id),
                    result: None,
                    error: Some(MCPErrorResponse::of_error(MCPError::RateLimitExceeded)),
                },
            );
        }
        // dispatch by method
        if crate::json::str_eq(method.as_str(), "initialize") {
            let result = initialize_result();
            self.tenant_manager.release_request(idx);
            StepOutcome::Respond(
                MCPResponse {
                    jsonrpc: String::from_str("2.0"),
                    id: Some(request_id),
                    result: Some(result),
                    error: None,
                },
            )
        } else if crate::json::str_eq(method.as_str(), "tools/list") {
            let tools = self.handler_registry.list_tools(&self.tenant_manager.sessions[idx]);
            let arr = crate::json::arr_of(tools);
            let ghost arrv = arr@;
            let result = obj1("tools", arr);
            proof {
                assert(result@->Obj_0 =~= seq![("tools"@, arrv)]);
                assert(crate::json::obj_lookup(result@->Obj_0, "tools"@) == Some(arrv));
                assert(spec_get(result@, "tools"@) == Some(arrv));
            }
            self.tenant_manager.release_request(idx);
            StepOutcome::Respond(
                MCPResponse {
                    jsonrpc: String::from_str("2.0"),
                    id: Some(request_id),
                    result: Some(result),
                    error: None,
                },
            )
        } else if crate::json::str_eq(method.as_str(), "tools/call") {
            self.dispatch_tool_call(idx, params, request_id)
        } else if crate::json::str_eq(method.as_str(), "notifications/initialized") {
            self.tenant_manager.release_request(idx);
            StepOutcome::Respond(
                MCPResponse {
                    jsonrpc: String::from_str("2.0"),
                    id: Some(request_id),
                    result: Some(Json::Null),
                    error: None,
                },
            )
        } else {
            self.tenant_manager.release_request(idx);
            StepOutcome::Respond(
                MCPResponse {
                    jsonrpc: String::from_str("2.0"),
                    id: Some(request_id),
                    result: None,
                    error: Some(MCPErrorResponse::of_error(MCPError::MethodNotFound(method))),
                },
            )
        }
    }

    /// Validate a tool call and hand the backend action out, or refuse it
    /// and retire the in-flight slot.
    fn dispatch_tool_call(&mut self, idx: usize, params: Option<Json>, request_id: Json) -> (r:
        StepOutcome)
        requires
            old(self).wf(),
            idx < old(self).tenant_manager.sessions@.len(),
            old(self).tenant_manager.sessions@[idx as int].active_requests >= 1,
        ensures
            final(self).wf(),
            final(self).handler_registry == old(self).handler_registry,
            final(self).shutdown_flag == old(self).shutdown_flag,
            final(self).tenant_manager.sessions@.len() == old(self).tenant_manager.sessions@.len(),
            !(r is NoResponse),
            forall|k: int|
                0 <= k < old(self).tenant_manager.sessions@.len() && k != idx ==> (
                #[trigger] final(self).tenant_manager.sessions@[k]) == old(self).tenant_manager.sessions@[k],
            r is Respond ==> final(self).tenant_manager.sessions@[idx as int].active_requests
                == old(self).tenant_manager.sessions@[idx as int].active_requests - 1,
            r is Dispatch ==> final(self).tenant_manager.sessions@[idx as int]
                == old(self).tenant_manager.sessions@[idx as int],
            r matches StepOutcome::Respond(resp) ==> resp.jsonrpc@ == "2.0"@ && (resp.id matches Some(x) && x@
                == request_id@) && resp.error is Some && resp.result is None,
            r matches StepOutcome::Dispatch { session, id, action } ==> session == idx && id@ == request_id@
                && crate::handlers::action_matches(spec_args_of(params), action),
            ({
                let ctx = old(self).tenant_manager.sessions@[idx as int].context;
                let hs = old(self).handler_registry.handlers@;
                match params {
                    None => spec_err_msg(r, -32600, "Invalid Request: "@ + "Missing parameters"@),
                    Some(p) => match spec_get(p@, "name"@) {
                        None => spec_err_msg(
                            r,
                            -32600,
                            "Invalid Request: "@ + "Missing tool name"@,
                        ),
                        Some(JVal::Str(n)) => {
                            let args = match spec_get(p@, "arguments"@) {
                                Some(a) => a,
                                None => JVal::Obj(Seq::empty()),
                            };
                            match crate::handlers::handler_of(hs, n) {
                                None => spec_err_code(r, -32003),
                                Some(h) => {
                                    if h.required_permission matches Some(q)
                                        && !crate::tenant::spec_has_permission(ctx, q) {
                                        spec_err_code(r, -32000)
                                    } else if crate::handlers::spec_args_ok(n, args) {
                                        r is Dispatch
                                    } else {
                                        spec_err_code(r, -32600)
                                    }
                                },
                            }
                        },
                        _ => spec_err_msg(r, -32600, "Invalid Request: "@ + "Invalid tool name"@),
                    },
                }
            }),
    {
        let p = match params {
            Some(p) => p,
            None => {
                self.tenant_manager.release_request(idx);
                return StepOutcome::Respond(
                    MCPResponse {
                        jsonrpc: String::from_str("2.0"),
                        id: Some(request_id),
                        result: None,
                        error: Some(
                            MCPErrorResponse::of_error(
                                MCPError::InvalidRequest(String::from_str("Missing parameters")),
                            ),
                        ),
                    },
                );
            },
        };
        let name: String = match p.get("name") {
            Some(nv) => match nv.as_str() {
                Some(ncs) => crate::json::chars_to_string(ncs),
                None => {
                    self.tenant_manager.release_request(idx);
                    return StepOutcome::Respond(
                        MCPResponse {
                            jsonrpc: String::from_str("2.0"),
                            id: Some(request_id),
                            result: None,
                            error: Some(
                                MCPErrorResponse::of_error(
                                    MCPError::InvalidRequest(
                                        String::from_str("Invalid tool name"),
                                    ),
                                ),
                            ),
                        },
                    );
                },
            },
            None => {
                self.tenant_manager.release_request(idx);
                return StepOutcome::Respond(
                    MCPResponse {
                        jsonrpc: String::from_str("2.0"),
                        id: Some(request_id),
                        result: None,
                        error: Some(
                            MCPErrorResponse::of_error(
                                MCPError::InvalidRequest(String::from_str("Missing tool name")),
                            ),
                        ),
                    },
                );
            },
        };
        let args: Json = match p.get("arguments") {
            Some(a) => crate::json::clone_json(a),
            None => Json::Obj(Vec::new()),
        };
        proof {
            assert(crate::json::view_json_members(Seq::<(Vec<char>, Json)>::empty())
                =~= Seq::<(Seq<char>, JVal)>::empty());
        }
        match self.handler_registry.check_access(
            &self.tenant_manager.sessions[idx],
            name.as_str(),
        ) {
            Ok(_) => {},
            Err(e) => {
                self.tenant_manager.release_request(idx);
                return StepOutcome::Respond(
                    MCPResponse {
                        jsonrpc: String::from_str("2.0"),
                        id: Some(request_id),
                        result: None,
                        error: Some(MCPErrorResponse::of_error(map_handler_error(e))),
                    },
                );
            },
        }
        let parsed: Result<ToolAction, HandlerError> = if crate::json::str_eq(
            name.as_str(),
            "kv_get",
        ) {
            crate::handlers::parse_kv_get(&args)
        } else if crate::json::str_eq(name.as_str(), "kv_set") {
            crate::handlers::parse_kv_set(&args)
        } else if crate::json::str_eq(name.as_str(), "artifacts_get") {
            crate::handlers::parse_artifacts_get(&args)
        } else if crate::json::str_eq(name.as_str(), "artifacts_put") {
            crate::handlers::parse_artifacts_put(&args)
        } else if crate::json::str_eq(name.as_str(), "artifacts_list") {
            crate::handlers::parse_artifacts_list(&args)
        } else if crate::json::str_eq(name.as_str(), "events_send") {
            crate::handlers::parse_events_send(&args)
        } else if crate::json::str_eq(name.as_str(), "events_query") {
            crate::handlers::parse_events_query(&args)
        } else if crate::json::str_eq(name.as_str(), "events_analytics") {
            crate::handlers::parse_events_analytics(&args)
        } else if crate::json::str_eq(name.as_str(), "events_create_rule") {
            crate::handlers::parse_events_create_rule(&args)
        } else if crate::json::str_eq(name.as_str(), "events_create_alert") {
            crate::handlers::parse_events_create_alert(&args)
        } else if crate::json::str_eq(name.as_str(), "events_health_check") {
            Ok(ToolAction::EventsHealthCheck)
        } else if crate::json::str_eq(name.as_str(), "integration_register") {
            crate::handlers::parse_integration_register(&args)
        } else if crate::json::str_eq(name.as_str(), "integration_connect") {
            crate::handlers::parse_integration_connect(&args)
        } else if crate::json::str_eq(name.as_str(), "integration_list") {
            Ok(ToolAction::IntegrationList)
        } else if crate::json::str_eq(name.as_str(), "integration_disconnect") {
            crate::handlers::parse_integration_disconnect(&args)
        } else if crate::json::str_eq(name.as_str(), "integration_test") {
            crate::handlers::parse_integration_test(&args)
        } else if crate::json::str_eq(name.as_str(), "mcp_proxy") {
            crate::handlers::parse_mcp_proxy(&args)
        } else if crate::json::str_eq(name.as_str(), "mcp_list_tools") {
            crate::handlers::parse_mcp_list_tools(&args)
        } else {
            proof {
                let ghost hs = self.handler_registry.handlers@;
                crate::handlers::lemma_handler_of_mem(hs, name@);
                let w = choose|w: int| 0 <= w < hs.len() && (#[trigger] hs[w]).name@ == name@;
                if w == 0 {
                    assert(hs[0].name@ == "kv_get"@);
                }
                if w == 1 {
                    assert(hs[1].name@ == "kv_set"@);
                }
                if w == 2 {
                    assert(hs[2].name@ == "artifacts_get"@);
                }
                if w == 3 {
                    assert(hs[3].name@ == "artifacts_put"@);
                }
                if w == 4 {
                    assert(hs[4].name@ == "artifacts_list"@);
                }
                if w == 5 {
                    assert(hs[5].name@ == "events_send"@);
                }
                if w == 6 {
                    assert(hs[6].name@ == "events_query"@);
                }
                if w == 7 {
                    assert(hs[7].name@ == "events_analytics"@);
                }
                if w == 8 {
                    assert(hs[8].name@ == "events_create_rule"@);
                }
                if w == 9 {
                    assert(hs[9].name@ == "events_create_alert"@);
                }
                if w == 10 {
                    assert(hs[10].name@ == "events_health_check"@);
                }
                if w == 11 {
                    assert(hs[11].name@ == "integration_register"@);
                }
                if w == 12 {
                    assert(hs[12].name@ == "integration_connect"@);
                }
                if w == 13 {
                    assert(hs[13].name@ == "integration_list"@);
                }
                if w == 14 {
                    assert(hs[14].name@ == "integration_disconnect"@);
                }
                if w == 15 {
                    assert(hs[15].name@ == "integration_test"@);
                }
                if w == 16 {
                    assert(hs[16].name@ == "mcp_proxy"@);
                }
                if w == 17 {
                    assert(hs[17].name@ == "mcp_list_tools"@);
                }
                assert(false);
            }
            Err(HandlerError::NotFound(name))
        };
        match parsed {
            Ok(action) => StepOutcome::Dispatch { session: idx, id: request_id, action },
            Err(e) => {
                self.tenant_manager.release_request(idx);
                StepOutcome::Respond(
                    MCPResponse {
                        jsonrpc: String::from_str("2.0"),
                        id: Some(request_id),
                        result: None,
                        error: Some(MCPErrorResponse::of_error(map_handler_error(e))),
                    },
                )
            },
        }
    }

    /// Close out a dispatched tool call: retire the in-flight slot and
    /// wrap the backend's outcome in a response.
    pub fn finish_tool_call(&mut self, session: usize, request_id: Json, outcome: Result<
        Json,
        String,
    >) -> (r: MCPResponse)
        requires
            old(self).wf(),
            session < old(self).tenant_manager.sessions@.len(),
        ensures
            final(self).wf(),
            final(self).handler_registry == old(self).handler_registry,
            final(self).shutdown_flag == old(self).shutdown_flag,
            final(self).tenant_manager.sessions@.len() == old(self).tenant_manager.sessions@.len(),
            forall|k: int|
                0 <= k < old(self).tenant_manager.sessions@.len() && k != session ==> (
                #[trigger] final(self).tenant_manager.sessions@[k]) == old(self).tenant_manager.sessions@[k],
            final(self).tenant_manager.sessions@[session as int].active_requests == (if old(self).tenant_manager.sessions@[session as int].active_requests > 0 {
                old(self).tenant_manager.sessions@[session as int].active_requests - 1
            } else {
                0
            }),
            r.jsonrpc@ == "2.0"@,
            r.id matches Some(x) && x@ == request_id@,
            outcome matches Ok(j) ==> (r.result matches Some(res) && res@ == j@) && r.error
                is None,
            outcome matches Err(m) ==> r.result is None && (r.error matches Some(e) && e.code
                == -32003 && e.message@ == "Handler error: "@ + m@),
    {
        self.tenant_manager.release_request(session);
        match outcome {
            Ok(j) => MCPResponse {
                jsonrpc: String::from_str("2.0"),
                id: Some(request_id),
                result: Some(j),
                error: None,
            },
            Err(m) => MCPResponse {
                jsonrpc: String::from_str("2.0"),
                id: Some(request_id),
                result: None,
                error: Some(MCPErrorResponse::of_error(MCPError::HandlerError(m))),
            },
        }
    }
}

} // verus!
