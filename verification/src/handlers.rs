//! The tool registry: every tool's name, required permission and input
//! schema; argument validation for each tool; permission gating; and the
//! rendering of tool results.
//!
//! A tool call is validated here into a `ToolAction` — a plain description
//! of the backend work to perform. The caller executes the action against
//! its storage backend and renders the outcome with the functions below.
use vstd::prelude::*;

use crate::json::{obj1, obj2, obj3, spec_get, str_to_chars, view_json_members, view_json_seq, JVal, Json};
use crate::tenant::{spec_has_permission, Permission, TenantSession};

verus! {

#[derive(Debug)]
pub enum HandlerError {
    PermissionDenied(Permission),
    InvalidArguments(String),
    Aws(String),
    NotFound(String),
    Internal(String),
}

#[verifier::external_type_specification]
#[verifier::external_body]
pub struct ExDecodeError(base64::DecodeError);

/// The standard base64 text of a byte sequence.
pub uninterp spec fn b64_of(b: Seq<u8>) -> Seq<char>;

/// Relies on base64's standard engine (padded, canonical): encoding is a
/// function of the bytes alone.
#[verifier::external_body]
fn b64_encode(b: &Vec<u8>) -> (r: String)
    ensures
        r@ == b64_of(b@),
{
    base64::Engine::encode(&base64::engine::general_purpose::STANDARD, b)
}

/// Relies on base64's standard engine: decoding requires canonical padding
/// and rejects stray trailing bits, so a successful decode inverts the
/// canonical encoding exactly, and every canonical encoding decodes.
#[verifier::external_body]
fn b64_decode(s: &str) -> (r: Result<Vec<u8>, base64::DecodeError>)
    ensures
        r matches Ok(d) ==> s@ == b64_of(d@),
        forall|d: Seq<u8>| s@ == #[trigger] b64_of(d) ==> r is Ok,
{
    base64::Engine::decode(&base64::engine::general_purpose::STANDARD, s)
}

/// The backend work one validated tool call asks for.
#[derive(Debug)]
pub enum ToolAction {
    KvGet { key: String },
    KvSet { key: String, value: String, ttl_hours: Option<u32> },
    ArtifactsGet { key: String },
    ArtifactsPut { key: String, content: Vec<u8>, content_type: String },
    ArtifactsList { prefix: Option<String> },
    EventsSend { detail_type: String, detail: Json },
    EventsQuery {
        user_id: Option<String>,
        organization_id: Option<String>,
        source: Option<String>,
        detail_type: Option<String>,
        priority: Option<String>,
        start_time: Option<String>,
        end_time: Option<String>,
        limit: i32,
        exclusive_start_key: Option<String>,
        ascending: bool,
    },
    EventsAnalytics {
        user_id: Option<String>,
        organization_id: Option<String>,
        start_time: Option<String>,
        end_time: Option<String>,
        metrics: Vec<String>,
        granularity: String,
    },
    EventsCreateRule { name: String, pattern: Json, description: Option<String>, enabled: bool },
    EventsCreateAlert {
        name: String,
        rule_id: String,
        notification_method: String,
        sns_topic_arn: Option<String>,
        email_address: Option<String>,
        enabled: bool,
    },
    EventsHealthCheck,
    IntegrationRegister { args: Json },
    IntegrationConnect { args: Json },
    IntegrationList,
    IntegrationDisconnect { service_id: String, connection_id: Option<String> },
    IntegrationTest { service_id: String },
    McpProxy { tool_name: String, arguments: Json },
    McpListTools { server_id: Option<String> },
}

/// The string bound to `key`, if the arguments hold one.
pub open spec fn spec_opt_str(args: JVal, key: Seq<char>) -> Option<Seq<char>> {
    match spec_get(args, key) {
        Some(JVal::Str(s)) => Some(s),
        _ => None,
    }
}

/// An optional owned string agreeing with an optional character sequence.
pub open spec fn opt_str_is(o: Option<String>, s: Option<Seq<char>>) -> bool {
    match o {
        Some(a) => s matches Some(b) && a@ == b,
        None => s is None,
    }
}

/// The non-negative integer bound to `key`, or the default.
pub open spec fn spec_u64_or(args: JVal, key: Seq<char>, default: int) -> int {
    match spec_get(args, key) {
        Some(JVal::Int(n)) => if n >= 0 {
            n
        } else {
            default
        },
        _ => default,
    }
}

/// The boolean bound to `key`, or the default.
pub open spec fn spec_bool_or(args: JVal, key: Seq<char>, default: bool) -> bool {
    match spec_get(args, key) {
        Some(JVal::Bool(b)) => b,
        _ => default,
    }
}

/// Fetch a required string member.
fn req_str(args: &Json, key: &str, missing: &str) -> (r: Result<String, HandlerError>)
    ensures
        match spec_opt_str(args@, key@) {
            Some(s) => r matches Ok(v) && v@ == s,
            None => r matches Err(e) && e is InvalidArguments,
        },
{
    match args.get(key) {
        Some(v) => match v.as_str() {
            Some(cs) => Ok(crate::json::chars_to_string(cs)),
            None => Err(HandlerError::InvalidArguments(String::from_str(missing))),
        },
        None => Err(HandlerError::InvalidArguments(String::from_str(missing))),
    }
}

/// Fetch an optional string member; a member of another type reads as
/// absent.
fn opt_str(args: &Json, key: &str) -> (r: Option<String>)
    ensures
        opt_str_is(r, spec_opt_str(args@, key@)),
{
    match args.get(key) {
        Some(v) => match v.as_str() {
            Some(cs) => Some(crate::json::chars_to_string(cs)),
            None => None,
        },
        None => None,
    }
}

fn opt_bool_or(args: &Json, key: &str, default: bool) -> (r: bool)
    ensures
        r == spec_bool_or(args@, key@, default),
{
    match args.get(key) {
        Some(v) => match v.as_bool() {
            Some(b) => b,
            None => default,
        },
        None => default,
    }
}

/// Validate `kv_get` arguments: a required `key`.
pub fn parse_kv_get(args: &Json) -> (r: Result<ToolAction, HandlerError>)
    ensures
        match spec_opt_str(args@, "key"@) {
            Some(k) => r matches Ok(a) && (a matches ToolAction::KvGet { key } && key@ == k),
            None => r matches Err(e) && e is InvalidArguments,
        },
{
    let key = req_str(args, "key", "Missing 'key' parameter")?;
    Ok(ToolAction::KvGet { key })
}

/// Validate `kv_set` arguments: required `key` and `value`, optional
/// `ttl_hours`.
pub fn parse_kv_set(args: &Json) -> (r: Result<ToolAction, HandlerError>)
    ensures
        match (spec_opt_str(args@, "key"@), spec_opt_str(args@, "value"@)) {
            (Some(k), Some(v)) => r matches Ok(a) && (a matches ToolAction::KvSet {
                key,
                value,
                ttl_hours,
            } && key@ == k && value@ == v && ttl_hours == (match spec_get(args@, "ttl_hours"@) {
                Some(JVal::Int(n)) => if n >= 0 {
                    Some((n as u64) as u32)
                } else {
                    None
                },
                _ => None,
            })),
            _ => r matches Err(e) && e is InvalidArguments,
        },
{
    let key = req_str(args, "key", "Missing 'key' parameter")?;
    let value = req_str(args, "value", "Missing 'value' parameter")?;
    let ttl_hours: Option<u32> = match args.get("ttl_hours") {
        Some(v) => match v.as_int() {
            Some(n) => if n >= 0 {
                Some((n as u64) as u32)
            } else {
                None
            },
            None => None,
        },
        None => None,
    };
    Ok(ToolAction::KvSet { key, value, ttl_hours })
}

/// Validate `artifacts_get` arguments: a required `key`.
pub fn parse_artifacts_get(args: &Json) -> (r: Result<ToolAction, HandlerError>)
    ensures
        match spec_opt_str(args@, "key"@) {
            Some(k) => r matches Ok(a) && (a matches ToolAction::ArtifactsGet { key } && key@
                == k),
            None => r matches Err(e) && e is InvalidArguments,
        },
{
    let key = req_str(args, "key", "Missing 'key' parameter")?;
    Ok(ToolAction::ArtifactsGet { key })
}

/// Validate `artifacts_put` arguments: required `key` and base64
/// `content`, optional `content_type` defaulting to `text/plain`. The
/// content is decoded here; text that is not canonical base64 is refused.
pub fn parse_artifacts_put(args: &Json) -> (r: Result<ToolAction, HandlerError>)
    ensures
        ({
            match (spec_opt_str(args@, "key"@), spec_opt_str(args@, "content"@)) {
                (Some(k), Some(c)) => {
                    &&& (r matches Ok(a) ==> (a matches ToolAction::ArtifactsPut {
                        key,
                        content,
                        content_type,
                    } && key@ == k && c == b64_of(content@) && content_type@ == (
                    match spec_opt_str(args@, "content_type"@) {
                        Some(t) => t,
                        None => "text/plain"@,
                    })))
                    &&& ((exists|d: Seq<u8>| c == #[trigger] b64_of(d)) ==> r is Ok)
                    &&& (r matches Err(e) ==> e is InvalidArguments)
                },
                _ => r matches Err(e) && e is InvalidArguments,
            }
        }),
{
    let key = req_str(args, "key", "Missing 'key' parameter")?;
    let content_text = req_str(args, "content", "Missing 'content' parameter")?;
    let content_type = match opt_str(args, "content_type") {
        Some(t) => t,
        None => String::from_str("text/plain"),
    };
    match b64_decode(content_text.as_str()) {
        Ok(content) => Ok(ToolAction::ArtifactsPut { key, content, content_type }),
        Err(_) => Err(
            HandlerError::InvalidArguments(String::from_str("Invalid base64 content")),
        ),
    }
}

/// Validate `artifacts_list` arguments: an optional `prefix`.
pub fn parse_artifacts_list(args: &Json) -> (r: Result<ToolAction, HandlerError>)
    ensures
        r matches Ok(a) && (a matches ToolAction::ArtifactsList { prefix } && opt_str_is(
            prefix,
            spec_opt_str(args@, "prefix"@),
        )),
{
    let prefix = opt_str(args, "prefix");
    Ok(ToolAction::ArtifactsList { prefix })
}

/// Validate `events_send` arguments: required `detailType` and `detail`.
pub fn parse_events_send(args: &Json) -> (r: Result<ToolAction, HandlerError>)
    ensures
        match (spec_opt_str(args@, "detailType"@), spec_get(args@, "detail"@)) {
            (Some(t), Some(d)) => r matches Ok(a) && (a matches ToolAction::EventsSend {
                detail_type,
                detail,
            } && detail_type@ == t && detail@ == d),
            _ => r matches Err(e) && e is InvalidArguments,
        },
{
    let detail_type = req_str(args, "detailType", "Missing 'detailType' parameter")?;
    match args.get("detail") {
        Some(d) => Ok(ToolAction::EventsSend { detail_type, detail: crate::json::clone_json(d) }),
        None => Err(
            HandlerError::InvalidArguments(String::from_str("Missing 'detail' parameter")),
        ),
    }
}

/// Validate `events_query` arguments: every filter is optional; `limit`
/// defaults to 50, `sortOrder` to descending.
pub fn parse_events_query(args: &Json) -> (r: Result<ToolAction, HandlerError>)
    ensures
        r matches Ok(a) && (a matches ToolAction::EventsQuery {
            user_id,
            organization_id,
            source,
            detail_type,
            priority,
            start_time,
            end_time,
            limit,
            exclusive_start_key,
            ascending,
        } && opt_str_is(user_id, spec_opt_str(args@, "userId"@)) && opt_str_is(
            organization_id,
            spec_opt_str(args@, "organizationId"@),
        ) && opt_str_is(source, spec_opt_str(args@, "source"@)) && opt_str_is(
            detail_type,
            spec_opt_str(args@, "detailType"@),
        ) && opt_str_is(priority, spec_opt_str(args@, "priority"@)) && opt_str_is(
            start_time,
            spec_opt_str(args@, "startTime"@),
        ) && opt_str_is(end_time, spec_opt_str(args@, "endTime"@)) && limit == spec_u64_or(
            args@,
            "limit"@,
            50,
        ) as i32 && opt_str_is(exclusive_start_key, spec_opt_str(args@, "exclusiveStartKey"@))
            && ascending == (spec_opt_str(args@, "sortOrder"@) == Some("asc"@))),
{
    let user_id = opt_str(args, "userId");
    let organization_id = opt_str(args, "organizationId");
    let source = opt_str(args, "source");
    let detail_type = opt_str(args, "detailType");
    let priority = opt_str(args, "priority");
    let start_time = opt_str(args, "startTime");
    let end_time = opt_str(args, "endTime");
    let limit: i32 = match args.get("limit") {
        Some(v) => match v.as_int() {
            Some(n) => if n >= 0 {
                (n as u64) as i32
            } else {
                50
            },
            None => 50,
        },
        None => 50,
    };
    let exclusive_start_key = opt_str(args, "exclusiveStartKey");
    let ascending = match opt_str(args, "sortOrder") {
        Some(s) => crate::json::str_eq(s.as_str(), "asc"),
        None => false,
    };
    proof {
        if spec_opt_str(args@, "sortOrder"@) is None {
            assert(spec_opt_str(args@, "sortOrder"@) != Some("asc"@));
        }
    }
    Ok(ToolAction::EventsQuery {
        user_id,
        organization_id,
        source,
        detail_type,
        priority,
        start_time,
        end_time,
        limit,
        exclusive_start_key,
        ascending,
    })
}

/// Validate `events_analytics` arguments: optional scope and window;
/// `metrics` defaults to volume, top sources and priority; `granularity`
/// defaults to hourly.
pub fn parse_events_analytics(args: &Json) -> (r: Result<ToolAction, HandlerError>)
    ensures
        r matches Ok(a) && (a matches ToolAction::EventsAnalytics {
            user_id,
            organization_id,
            start_time,
            end_time,
            metrics,
            granularity,
        } && opt_str_is(user_id, spec_opt_str(args@, "userId"@)) && opt_str_is(
            organization_id,
            spec_opt_str(args@, "organizationId"@),
        ) && opt_str_is(start_time, spec_opt_str(args@, "startTime"@)) && opt_str_is(
            end_time,
            spec_opt_str(args@, "endTime"@),
        ) && granularity@ == (match spec_opt_str(args@, "granularity"@) {
            Some(g) => g,
            None => "hourly"@,
        }) && (spec_get(args@, "metrics"@) is None ==> metrics@.len() == 3)),
{
    let user_id = opt_str(args, "userId");
    let organization_id = opt_str(args, "organizationId");
    let start_time = opt_str(args, "startTime");
    let end_time = opt_str(args, "endTime");
    let metrics: Vec<String> = match args.get("metrics") {
        Some(v) => match v.as_array() {
            Some(arr) => {
                let mut out: Vec<String> = Vec::new();
                let n: usize = arr.len();
                let mut i: usize = 0;
                while i < n
                    invariant
                        0 <= i <= n,
                        n == arr@.len(),
                    decreases n - i,
                {
                    match arr[i].as_str() {
                        Some(cs) => {
                            let s = crate::json::chars_to_string(cs);
                            out.push(s);
                        },
                        None => {},
                    }
                    i = i + 1;
                }
                out
            },
            None => default_metrics(),
        },
        None => default_metrics(),
    };
    let granularity = match opt_str(args, "granularity") {
        Some(g) => g,
        None => String::from_str("hourly"),
    };
    Ok(ToolAction::EventsAnalytics {
        user_id,
        organization_id,
        start_time,
        end_time,
        metrics,
        granularity,
    })
}

fn default_metrics() -> (r: Vec<String>)
    ensures
        r@.len() == 3,
{
    let mut v: Vec<String> = Vec::new();
    v.push(String::from_str("volume"));
    v.push(String::from_str("topSources"));
    v.push(String::from_str("priority"));
    v
}

/// Validate `events_create_rule` arguments: required `name` and
/// `pattern`; `enabled` defaults to true.
pub fn parse_events_create_rule(args: &Json) -> (r: Result<ToolAction, HandlerError>)
    ensures
        match (spec_opt_str(args@, "name"@), spec_get(args@, "pattern"@)) {
            (Some(n), Some(p)) => r matches Ok(a) && (a matches ToolAction::EventsCreateRule {
                name,
                pattern,
                description,
                enabled,
            } && name@ == n && pattern@ == p && opt_str_is(
                description,
                spec_opt_str(args@, "description"@),
            ) && enabled == spec_bool_or(args@, "enabled"@, true)),
            _ => r matches Err(e) && e is InvalidArguments,
        },
{
    let name = req_str(args, "name", "Missing required field 'name'")?;
    let pattern = match args.get("pattern") {
        Some(p) => crate::json::clone_json(p),
        None => {
            return Err(
                HandlerError::InvalidArguments(String::from_str("Missing required field 'pattern'")),
            );
        },
    };
    let description = opt_str(args, "description");
    let enabled = opt_bool_or(args, "enabled", true);
    Ok(ToolAction::EventsCreateRule { name, pattern, description, enabled })
}

/// Validate `events_create_alert` arguments: required `name`, `ruleId`
/// and `notificationMethod`; `enabled` defaults to true.
pub fn parse_events_create_alert(args: &Json) -> (r: Result<ToolAction, HandlerError>)
    ensures
        match (
            spec_opt_str(args@, "name"@),
            spec_opt_str(args@, "ruleId"@),
            spec_opt_str(args@, "notificationMethod"@),
        ) {
            (Some(n), Some(rid), Some(m)) => r matches Ok(a) && (
            a matches ToolAction::EventsCreateAlert {
                name,
                rule_id,
                notification_method,
                sns_topic_arn,
                email_address,
                enabled,
            } && name@ == n && rule_id@ == rid && notification_method@ == m && opt_str_is(
                sns_topic_arn,
                spec_opt_str(args@, "snsTopicArn"@),
            ) && opt_str_is(email_address, spec_opt_str(args@, "emailAddress"@)) && enabled
                == spec_bool_or(args@, "enabled"@, true)),
            _ => r matches Err(e) && e is InvalidArguments,
        },
{
    let name = req_str(args, "name", "Missing required field 'name'")?;
    let rule_id = req_str(args, "ruleId", "Missing required field 'ruleId'")?;
    let notification_method = req_str(
        args,
        "notificationMethod",
        "Missing required field 'notificationMethod'",
    )?;
    let sns_topic_arn = opt_str(args, "snsTopicArn");
    let email_address = opt_str(args, "emailAddress");
    let enabled = opt_bool_or(args, "enabled", true);
    Ok(ToolAction::EventsCreateAlert {
        name,
        rule_id,
        notification_method,
        sns_topic_arn,
        email_address,
        enabled,
    })
}

/// Validate `integration_register` arguments: required `service_id`,
/// `name` and `auth_method`; the full argument object rides along for the
/// registration flow.
pub fn parse_integration_register(args: &Json) -> (r: Result<ToolAction, HandlerError>)
    ensures
        match (
            spec_opt_str(args@, "service_id"@),
            spec_opt_str(args@, "name"@),
            spec_get(args@, "auth_method"@),
        ) {
            (Some(_), Some(_), Some(_)) => r matches Ok(a) && (
            a matches ToolAction::IntegrationRegister { args: kept } && kept@ == args@),
            _ => r matches Err(e) && e is InvalidArguments,
        },
{
    req_str(args, "service_id", "Missing required field 'service_id'")?;
    req_str(args, "name", "Missing required field 'name'")?;
    if args.get("auth_method").is_none() {
        return Err(
            HandlerError::InvalidArguments(String::from_str("Missing required field 'auth_method'")),
        );
    }
    Ok(ToolAction::IntegrationRegister { args: crate::json::clone_json(args) })
}

/// Validate `integration_connect` arguments: a required `service_id`; the
/// full argument object rides along for the connection flow.
pub fn parse_integration_connect(args: &Json) -> (r: Result<ToolAction, HandlerError>)
    ensures
        match spec_opt_str(args@, "service_id"@) {
            Some(_) => r matches Ok(a) && (a matches ToolAction::IntegrationConnect { args: kept }
                && kept@ == args@),
            None => r matches Err(e) && e is InvalidArguments,
        },
{
    req_str(args, "service_id", "Missing required field 'service_id'")?;
    Ok(ToolAction::IntegrationConnect { args: crate::json::clone_json(args) })
}

/// Validate `integration_disconnect` arguments: required `service_id`,
/// optional `connection_id`.
pub fn parse_integration_disconnect(args: &Json) -> (r: Result<ToolAction, HandlerError>)
    ensures
        match spec_opt_str(args@, "service_id"@) {
            Some(sid) => r matches Ok(a) && (a matches ToolAction::IntegrationDisconnect {
                service_id,
                connection_id,
            } && service_id@ == sid && opt_str_is(
                connection_id,
                spec_opt_str(args@, "connection_id"@),
            )),
            None => r matches Err(e) && e is InvalidArguments,
        },
{
    let service_id = req_str(args, "service_id", "Missing required field 'service_id'")?;
    let connection_id = opt_str(args, "connection_id");
    Ok(ToolAction::IntegrationDisconnect { service_id, connection_id })
}

/// Validate `integration_test` arguments: a required `service_id`.
pub fn parse_integration_test(args: &Json) -> (r: Result<ToolAction, HandlerError>)
    ensures
        match spec_opt_str(args@, "service_id"@) {
            Some(sid) => r matches Ok(a) && (a matches ToolAction::IntegrationTest { service_id }
                && service_id@ == sid),
            None => r matches Err(e) && e is InvalidArguments,
        },
{
    let service_id = req_str(args, "service_id", "Missing required field 'service_id'")?;
    Ok(ToolAction::IntegrationTest { service_id })
}

/// Validate `mcp_proxy` arguments: required `tool_name` and `arguments`.
pub fn parse_mcp_proxy(args: &Json) -> (r: Result<ToolAction, HandlerError>)
    ensures
        match (spec_opt_str(args@, "tool_name"@), spec_get(args@, "arguments"@)) {
            (Some(t), Some(a0)) => r matches Ok(a) && (a matches ToolAction::McpProxy {
                tool_name,
                arguments,
            } && tool_name@ == t && arguments@ == a0),
            _ => r matches Err(e) && e is InvalidArguments,
        },
{
    let tool_name = req_str(args, "tool_name", "missing field `tool_name`")?;
    match args.get("arguments") {
        Some(a) => Ok(ToolAction::McpProxy { tool_name, arguments: crate::json::clone_json(a) }),
        None => Err(HandlerError::InvalidArguments(String::from_str("missing field `arguments`"))),
    }
}

/// Validate `mcp_list_tools` arguments: an optional `server_id` filter.
pub fn parse_mcp_list_tools(args: &Json) -> (r: Result<ToolAction, HandlerError>)
    ensures
        r matches Ok(a) && (a matches ToolAction::McpListTools { server_id } && opt_str_is(
            server_id,
            spec_opt_str(args@, "server_id"@),
        )),
{
    let server_id = opt_str(args, "server_id");
    Ok(ToolAction::McpListTools { server_id })
}

/// The transport named by the `server_type` member, defaulting to stdio.
pub open spec fn spec_server_type_of(args: JVal) -> Option<crate::registry::MCPServerType> {
    match spec_opt_str(args, "server_type"@) {
        Some(s) => if s == "stdio"@ {
            Some(crate::registry::MCPServerType::Stdio)
        } else if s == "http"@ {
            Some(crate::registry::MCPServerType::Http)
        } else if s == "websocket"@ {
            Some(crate::registry::MCPServerType::WebSocket)
        } else {
            None
        },
        None => Some(crate::registry::MCPServerType::Stdio),
    }
}

/// The string members of an object, in order.
pub open spec fn spec_str_pairs(m: Seq<(Seq<char>, JVal)>) -> Seq<(Seq<char>, Seq<char>)> {
    m.map_values(|e: (Seq<char>, JVal)| (e.0, e.1->Str_0))
}

/// Whether every member of an object holds a string.
pub open spec fn spec_all_str(m: Seq<(Seq<char>, JVal)>) -> bool {
    forall|i: int| 0 <= i < m.len() ==> (#[trigger] m[i]).1 is Str
}

/// Read an object of string bindings into pairs.
fn str_pairs_of(j: &Json) -> (r: Option<Vec<(String, String)>>)
    ensures
        match j@ {
            JVal::Obj(m) => {
                if spec_all_str(m) {
                    r matches Some(v) && crate::registry::env_views(v@) == spec_str_pairs(m)
                } else {
                    r is None
                }
            },
            _ => r is None,
        },
{
    match j {
        Json::Obj(m) => {
            proof {
                crate::json::lemma_view_json_members(m@);
            }
            let ghost vm = view_json_members(m@);
            let n: usize = m.len();
            let mut out: Vec<(String, String)> = Vec::new();
            let mut i: usize = 0;
            while i < n
                invariant
                    0 <= i <= n,
                    n == m@.len(),
                    vm == view_json_members(m@),
                    j@ == JVal::Obj(vm),
                    vm.len() == n,
                    forall|k: int|
                        0 <= k < n ==> vm[k] == ((#[trigger] m@[k]).0@, crate::json::view_json(
                            m@[k].1,
                        )),
                    forall|k: int| 0 <= k < i ==> (#[trigger] vm[k]).1 is Str,
                    out@.len() == i,
                    forall|k: int|
                        0 <= k < i ==> (#[trigger] out@[k]).0@ == vm[k].0 && out@[k].1@ == vm[
                            k].1->Str_0,
                decreases n - i,
            {
                match m[i].1.as_str() {
                    Some(cs) => {
                        let key = crate::json::chars_to_string(&m[i].0);
                        let val = crate::json::chars_to_string(cs);
                        out.push((key, val));
                        proof {
                            assert(vm[i as int].1 is Str);
                            assert(out@[i as int].0@ == vm[i as int].0);
                            assert(out@[i as int].1@ == vm[i as int].1->Str_0);
                        }
                    },
                    None => {
                        proof {
                            assert(!(vm[i as int].1 is Str));
                            assert(!spec_all_str(vm));
                        }
                        return None;
                    },
                }
                i = i + 1;
            }
            proof {
                assert(spec_all_str(vm));
                crate::registry::lemma_env_views_index(out@);
                assert forall|k: int|
                    0 <= k < crate::registry::env_views(out@).len() implies crate::registry::env_views(
                    out@,
                )[k] == spec_str_pairs(vm)[k] by {
                    assert(crate::registry::env_views(out@)[k] == (out@[k].0@, out@[k].1@));
                    assert(spec_str_pairs(vm)[k] == (vm[k].0, vm[k].1->Str_0));
                }
                assert(crate::registry::env_views(out@) =~= spec_str_pairs(vm));
            }
            Some(out)
        },
        _ => None,
    }
}

/// The per-call credentials of a connect request: the `credentials`
/// member's string bindings, if it is an object of strings.
pub fn parse_connect_credentials(args: &Json) -> (r: Option<Vec<(String, String)>>)
    ensures
        match spec_get(args@, "credentials"@) {
            Some(JVal::Obj(m)) => {
                if spec_all_str(m) {
                    r matches Some(v) && crate::registry::env_views(v@) == spec_str_pairs(m)
                } else {
                    r is None
                }
            },
            _ => r is None,
        },
{
    match args.get("credentials") {
        Some(j) => str_pairs_of(j),
        None => None,
    }
}

/// Whether every element of an array is a string.
pub open spec fn spec_all_str_vals(a: Seq<JVal>) -> bool {
    forall|i: int| 0 <= i < a.len() ==> (#[trigger] a[i]) is Str
}

/// Read an array of strings; members of another type are refused.
fn str_list_of(j: &Json) -> (r: Option<Vec<String>>)
    ensures
        match j@ {
            JVal::Arr(a) => (r is Some <==> spec_all_str_vals(a)) && (r matches Some(v) ==> v@.len()
                == a.len() && (forall|i: int|
                0 <= i < a.len() ==> (#[trigger] v@[i])@ == a[i]->Str_0)),
            _ => r is None,
        },
{
    match j {
        Json::Arr(items) => {
            proof {
                crate::json::lemma_view_json_seq(items@);
            }
            let ghost va = view_json_seq(items@);
            let n: usize = items.len();
            let mut out: Vec<String> = Vec::new();
            let mut i: usize = 0;
            while i < n
                invariant
                    0 <= i <= n,
                    n == items@.len(),
                    va == view_json_seq(items@),
                    j@ == JVal::Arr(va),
                    va.len() == n,
                    forall|k: int|
                        0 <= k < n ==> va[k] == crate::json::view_json(#[trigger] items@[k]),
                    out@.len() == i,
                    forall|k: int| 0 <= k < i ==> (#[trigger] va[k]) is Str,
                    forall|k: int| 0 <= k < i ==> (#[trigger] out@[k])@ == va[k]->Str_0,
                decreases n - i,
            {
                match items[i].as_str() {
                    Some(cs) => {
                        let sv = crate::json::chars_to_string(cs);
                        let ghost pre_out = out@;
                        out.push(sv);
                        proof {
                            assert(va[i as int] is Str);
                            assert(out@[i as int]@ == va[i as int]->Str_0);
                            assert forall|k: int| 0 <= k < i + 1 implies (
                            #[trigger] va[k]) is Str by {}
                            assert forall|k: int|
                                0 <= k < i + 1 implies (#[trigger] out@[k])@ == va[k]->Str_0 by {
                                if k < i {
                                    assert(out@[k] == pre_out[k]);
                                }
                            }
                        }
                    },
                    None => {
                        proof {
                            assert(!(va[i as int] is Str));
                            assert(!spec_all_str_vals(va));
                        }
                        return None;
                    },
                }
                i = i + 1;
            }
            proof {
                assert(spec_all_str_vals(va));
            }
            Some(out)
        },
        _ => None,
    }
}

/// Whether the `auth_method` member decodes: the string `"none"`, or an
/// object tagged `api_key`, `oauth2` or `basic` with that method's string
/// fields.
pub open spec fn spec_auth_ok(args: JVal) -> bool {
    match spec_get(args, "auth_method"@) {
        None => false,
        Some(am) => if am is Str {
            am->Str_0 == "none"@
        } else {
            match spec_get(am, "api_key"@) {
                Some(inner) => spec_opt_str(inner, "key_field"@) is Some,
                None => match spec_get(am, "oauth2"@) {
                    Some(inner) => spec_opt_str(inner, "client_id"@) is Some && spec_opt_str(
                        inner,
                        "client_secret"@,
                    ) is Some,
                    None => match spec_get(am, "basic"@) {
                        Some(inner) => spec_opt_str(inner, "username"@) is Some && spec_opt_str(
                            inner,
                            "password"@,
                        ) is Some,
                        None => false,
                    },
                },
            }
        },
    }
}

/// Whether `integration_register` arguments build a configuration:
/// `service_id` and `name` are strings, and every optional member is
/// well typed.
pub open spec fn spec_server_config_ok(args: JVal) -> bool {
    &&& spec_opt_str(args, "service_id"@) is Some
    &&& spec_opt_str(args, "name"@) is Some
    &&& spec_server_type_of(args) is Some
    &&& (match spec_get(args, "docker_config"@) {
        Some(dc) => {
            &&& dc is Obj
            &&& spec_opt_str(dc, "image"@) is Some
            &&& spec_opt_str(dc, "tag"@) is Some
            &&& (match spec_get(dc, "ports"@) {
                None => true,
                Some(p) => p is Arr && spec_all_str_vals(p->Arr_0),
            })
            &&& (match spec_get(dc, "volumes"@) {
                None => true,
                Some(p) => p is Arr && spec_all_str_vals(p->Arr_0),
            })
        },
        None => (match spec_get(args, "args"@) {
            None => true,
            Some(a) => a is Arr && spec_all_str_vals(a->Arr_0),
        }),
    })
    &&& (match spec_get(args, "env"@) {
        None => true,
        Some(e) => e is Obj && spec_all_str(e->Obj_0),
    })
    &&& spec_auth_ok(args)
    &&& (match spec_get(args, "capabilities"@) {
        None => true,
        Some(c) => c is Arr && spec_all_str_vals(c->Arr_0),
    })
}

/// Build a sub-server configuration from `integration_register` arguments,
/// as the registration flow stores it: identity and category fields,
/// transport, a container or process deployment, environment, the
/// authentication method, and capabilities.
pub fn parse_server_config(args: &Json) -> (r: Result<
    crate::registry::MCPServerConfig,
    HandlerError,
>)
    ensures
        r is Ok <==> spec_server_config_ok(args@),
        r matches Err(e) ==> e is InvalidArguments,
        r matches Ok(c) ==> {
            &&& spec_opt_str(args@, "service_id"@) == Some(c.id@)
            &&& spec_opt_str(args@, "name"@) == Some(c.name@)
            &&& c.description@ == (match spec_opt_str(args@, "description"@) {
                Some(d) => d,
                None => Seq::empty(),
            })
            &&& spec_server_type_of(args@) == Some(c.server_type)
            &&& (match spec_get(args@, "docker_config"@) {
                Some(JVal::Obj(_)) => c.deployment is Docker,
                _ => c.deployment matches crate::registry::DeploymentConfig::Process {
                    command,
                    args: argv,
                } && command@ == (match spec_opt_str(args@, "command"@) {
                    Some(cm) => cm,
                    None => Seq::empty(),
                }),
            })
            &&& (spec_get(args@, "env"@) is None ==> c.env@.len() == 0)
            &&& (match spec_get(args@, "env"@) {
                Some(JVal::Obj(em)) => spec_all_str(em) && crate::registry::env_views(c.env@)
                    == spec_str_pairs(em),
                _ => true,
            })
            &&& c.health_check_interval_secs == 60
            &&& c.auto_reconnect
        },
{
    let id = req_str(args, "service_id", "Missing required field 'service_id'")?;
    let name = req_str(args, "name", "Missing required field 'name'")?;
    let description = match opt_str(args, "description") {
        Some(d) => d,
        None => String::new(),
    };
    let server_type = match opt_str(args, "server_type") {
        Some(t) => {
            if crate::json::str_eq(t.as_str(), "stdio") {
                crate::registry::MCPServerType::Stdio
            } else if crate::json::str_eq(t.as_str(), "http") {
                crate::registry::MCPServerType::Http
            } else if crate::json::str_eq(t.as_str(), "websocket") {
                crate::registry::MCPServerType::WebSocket
            } else {
                return Err(
                    HandlerError::InvalidArguments(String::from_str("Unknown server_type")),
                );
            }
        },
        None => crate::registry::MCPServerType::Stdio,
    };
    let deployment = match args.get("docker_config") {
        Some(dc) => {
            if !matches!(dc, Json::Obj(_)) {
                return Err(
                    HandlerError::InvalidArguments(String::from_str("Invalid docker_config")),
                );
            }
            let image = req_str(dc, "image", "Missing docker image")?;
            let tag = req_str(dc, "tag", "Missing docker tag")?;
            let ports = match dc.get("ports") {
                Some(p) => match str_list_of(p) {
                    Some(v) => v,
                    None => {
                        return Err(
                            HandlerError::InvalidArguments(String::from_str("Invalid ports")),
                        );
                    },
                },
                None => Vec::new(),
            };
            let volumes = match dc.get("volumes") {
                Some(p) => match str_list_of(p) {
                    Some(v) => v,
                    None => {
                        return Err(
                            HandlerError::InvalidArguments(String::from_str("Invalid volumes")),
                        );
                    },
                },
                None => Vec::new(),
            };
            crate::registry::DeploymentConfig::Docker {
                image,
                tag,
                ports,
                volumes,
                network: opt_str(dc, "network"),
                runtime: opt_str(dc, "runtime"),
            }
        },
        None => {
            let command = match opt_str(args, "command") {
                Some(cm) => cm,
                None => String::new(),
            };
            let argv = match args.get("args") {
                Some(a) => match str_list_of(a) {
                    Some(v) => v,
                    None => {
                        return Err(
                            HandlerError::InvalidArguments(String::from_str("Invalid args")),
                        );
                    },
                },
                None => Vec::new(),
            };
            crate::registry::DeploymentConfig::Process { command, args: argv }
        },
    };
    let env = match args.get("env") {
        Some(e) => match str_pairs_of(e) {
            Some(v) => v,
            None => {
                return Err(HandlerError::InvalidArguments(String::from_str("Invalid env")));
            },
        },
        None => Vec::new(),
    };
    let auth_method = parse_auth_method(args)?;
    let capabilities = match args.get("capabilities") {
        Some(c) => match str_list_of(c) {
            Some(v) => v,
            None => {
                return Err(
                    HandlerError::InvalidArguments(String::from_str("Invalid capabilities")),
                );
            },
        },
        None => Vec::new(),
    };
    Ok(
        crate::registry::MCPServerConfig {
            id,
            name,
            description,
            server_type,
            deployment,
            env,
            auth_method,
            capabilities,
            health_check_interval_secs: 60,
            auto_reconnect: true,
        },
    )
}

/// Decode the `auth_method` member: the string `"none"`, or an object
/// tagged `api_key`, `oauth2` or `basic` carrying that method's fields.
fn parse_auth_method(args: &Json) -> (r: Result<crate::registry::AuthMethod, HandlerError>)
    ensures
        r is Ok <==> spec_auth_ok(args@),
        r matches Err(e) ==> e is InvalidArguments,
{
    let am = match args.get("auth_method") {
        Some(a) => a,
        None => {
            return Err(
                HandlerError::InvalidArguments(String::from_str("Missing required field 'auth_method'")),
            );
        },
    };
    match am.as_str() {
        Some(cs) => {
            let s = crate::json::chars_to_string(cs);
            if crate::json::str_eq(s.as_str(), "none") {
                return Ok(crate::registry::AuthMethod::NoAuth);
            }
            return Err(HandlerError::InvalidArguments(String::from_str("Unknown auth_method")));
        },
        None => {},
    }
    if let Some(inner) = am.get("api_key") {
        let key_field = req_str(inner, "key_field", "Missing key_field")?;
        return Ok(crate::registry::AuthMethod::ApiKey { key_field });
    }
    if let Some(inner) = am.get("oauth2") {
        let client_id = req_str(inner, "client_id", "Missing client_id")?;
        let client_secret = req_str(inner, "client_secret", "Missing client_secret")?;
        return Ok(crate::registry::AuthMethod::OAuth2 { client_id, client_secret });
    }
    if let Some(inner) = am.get("basic") {
        let username = req_str(inner, "username", "Missing username")?;
        let password = req_str(inner, "password", "Missing password")?;
        return Ok(crate::registry::AuthMethod::Basic { username, password });
    }
    Err(HandlerError::InvalidArguments(String::from_str("Unknown auth_method")))
}

/// Decode a child's `tools/list` reply into tool descriptors: the
/// `result.tools` array, each member an object with a string `name`, an
/// optional string `description`, and an optional `inputSchema`.
pub fn parse_tools_list_reply(reply: &Json) -> (r: Result<
    Vec<crate::registry::MCPTool>,
    HandlerError,
>)
    ensures
        r matches Err(e) ==> e is InvalidArguments,
        match spec_get(reply@, "result"@) {
            Some(res) => match spec_get(res, "tools"@) {
                Some(JVal::Arr(ts)) => r matches Ok(v) ==> v@.len() == ts.len() && (forall|i: int|
                    0 <= i < ts.len() ==> (crate::handlers::spec_opt_str(#[trigger] ts[i], "name"@)
                        matches Some(nm) && (#[trigger] v@[i]).name@ == nm)),
                _ => r is Err,
            },
            None => r is Err,
        },
{
    let res = match reply.get("result") {
        Some(res) => res,
        None => {
            return Err(HandlerError::InvalidArguments(String::from_str("Missing result")));
        },
    };
    let tools = match res.get("tools") {
        Some(t) => t,
        None => {
            return Err(HandlerError::InvalidArguments(String::from_str("Missing tools")));
        },
    };
    let arr = match tools.as_array() {
        Some(a) => a,
        None => {
            return Err(HandlerError::InvalidArguments(String::from_str("tools is not an array")));
        },
    };
    proof {
        crate::json::lemma_view_json_seq(arr@);
    }
    let ghost ts = view_json_seq(arr@);
    let n: usize = arr.len();
    let mut out: Vec<crate::registry::MCPTool> = Vec::new();
    let mut i: usize = 0;
    while i < n
        invariant
            0 <= i <= n,
            n == arr@.len(),
            ts == view_json_seq(arr@),
            ts.len() == n,
            forall|k: int| 0 <= k < n ==> ts[k] == crate::json::view_json(#[trigger] arr@[k]),
            out@.len() == i,
            forall|k: int|
                0 <= k < i ==> (spec_opt_str(#[trigger] ts[k], "name"@) matches Some(nm) && (
                #[trigger] out@[k]).name@ == nm),
        decreases n - i,
    {
        let item = &arr[i];
        let name = match item.get("name") {
            Some(nv) => match nv.as_str() {
                Some(cs) => crate::json::chars_to_string(cs),
                None => {
                    return Err(
                        HandlerError::InvalidArguments(String::from_str("tool name is not a string")),
                    );
                },
            },
            None => {
                return Err(
                    HandlerError::InvalidArguments(String::from_str("tool without a name")),
                );
            },
        };
        let description = match item.get("description") {
            Some(dv) => match dv.as_str() {
                Some(cs) => crate::json::chars_to_string(cs),
                None => String::new(),
            },
            None => String::new(),
        };
        let input_schema = match item.get("inputSchema") {
            Some(sv) => crate::json::clone_json(sv),
            None => Json::Null,
        };
        let ghost pre_out = out@;
        out.push(crate::registry::MCPTool { name, description, input_schema });
        proof {
            assert forall|k: int|
                0 <= k < i + 1 implies (spec_opt_str(#[trigger] ts[k], "name"@) matches Some(nm)
                && (#[trigger] out@[k]).name@ == nm) by {
                if k < i {
                    assert(out@[k] == pre_out[k]);
                }
            }
        }
        i = i + 1;
    }
    Ok(out)
}

// ---------------------------------------------------------------------------
// Result rendering
// ---------------------------------------------------------------------------
/// `{"value": <string or null>}` for a key-value read.
pub fn render_kv_get(value: Option<String>) -> (r: Json)
    ensures
        match value {
            Some(v) => r@ == JVal::Obj(seq![("value"@, JVal::Str(v@))]),
            None => r@ == JVal::Obj(seq![("value"@, JVal::Null)]),
        },
{
    match value {
        Some(v) => obj1("value", Json::str_of(v.as_str())),
        None => obj1("value", Json::Null),
    }
}

/// `{"success": true}`.
pub fn render_success() -> (r: Json)
    ensures
        r@ == JVal::Obj(seq![("success"@, JVal::Bool(true))]),
{
    obj1("success", Json::Bool(true))
}

/// `{"content": <base64>, "encoding": "base64"}` for a found artifact,
/// `{"content": null}` otherwise.
pub fn render_artifacts_get(content: Option<Vec<u8>>) -> (r: Json)
    ensures
        match content {
            Some(bytes) => r@ == JVal::Obj(
                seq![
                    ("content"@, JVal::Str(b64_of(bytes@))),
                    ("encoding"@, JVal::Str("base64"@)),
                ],
            ),
            None => r@ == JVal::Obj(seq![("content"@, JVal::Null)]),
        },
{
    match content {
        Some(bytes) => {
            let encoded = b64_encode(&bytes);
            obj2("content", Json::str_of(encoded.as_str()), "encoding", Json::str_of("base64"))
        },
        None => obj1("content", Json::Null),
    }
}

/// `{"keys": [...]}` for an artifact listing.
pub fn render_artifacts_list(keys: Vec<String>) -> (r: Json)
    ensures
        ({
            let m = r@->Obj_0;
            &&& r@ is Obj
            &&& m.len() == 1
            &&& m[0].0 == "keys"@
            &&& m[0].1 is Arr
            &&& m[0].1->Arr_0.len() == keys@.len()
            &&& forall|i: int|
                0 <= i < keys@.len() ==> m[0].1->Arr_0[i] == JVal::Str((#[trigger] keys@[i])@)
        }),
{
    let n: usize = keys.len();
    let mut elems: Vec<Json> = Vec::new();
    let mut i: usize = 0;
    while i < n
        invariant
            0 <= i <= n,
            n == keys@.len(),
            elems@.len() == i,
            forall|k: int| 0 <= k < i ==> (#[trigger] elems@[k])@ == JVal::Str(keys@[k]@),
        decreases n - i,
    {
        elems.push(Json::str_of(keys[i].as_str()));
        i = i + 1;
    }
    let ghost ev = elems@;
    let arr = crate::json::arr_of(elems);
    let r = obj1("keys", arr);
    proof {
        crate::json::lemma_view_json_seq(ev);
        assert forall|k: int|
            0 <= k < keys@.len() implies view_json_seq(ev)[k] == JVal::Str(
            (#[trigger] keys@[k])@,
        ) by {
            assert(view_json_seq(ev)[k] == crate::json::view_json(ev[k]));
            assert((ev[k])@ == JVal::Str(keys@[k]@));
        }
    }
    r
}

// ---------------------------------------------------------------------------
// Integration descriptions
// ---------------------------------------------------------------------------
/// One field of an integration's configuration form.
#[derive(Debug)]
pub struct ConfigField {
    pub key: String,
    pub label: String,
    pub field_type: String,
    pub required: bool,
    pub description: String,
    pub sensitive: bool,
}

/// A registered integration, as persisted in the key-value store.
#[derive(Debug)]
pub struct IntegrationConfig {
    pub id: String,
    pub name: String,
    pub description: String,
    pub category: String,
    pub auth_method: crate::registry::AuthMethod,
    pub configuration_schema: Vec<ConfigField>,
    pub capabilities: Vec<String>,
}

/// The key-value store key for a tenant's entry: `{tenant}:{key}`.
pub fn kv_storage_key(tenant_id: &str, key: &str) -> (r: String)
    ensures
        r@ == tenant_id@ + ":"@ + key@,
{
    let mut s = String::from_str(tenant_id);
    s.append(":");
    s.append(key);
    proof {
        assert(s@ =~= tenant_id@ + ":"@ + key@);
    }
    s
}

/// The blob store key for a tenant's artifact: `{tenant}/{key}`.
pub fn blob_storage_key(tenant_id: &str, key: &str) -> (r: String)
    ensures
        r@ == tenant_id@ + "/"@ + key@,
{
    let mut s = String::from_str(tenant_id);
    s.append("/");
    s.append(key);
    proof {
        assert(s@ =~= tenant_id@ + "/"@ + key@);
    }
    s
}

/// The key an integration is persisted under: `integration-{serviceId}`.
pub fn integration_kv_key(service_id: &str) -> (r: String)
    ensures
        r@ == "integration-"@ + service_id@,
{
    let mut s = String::from_str("integration-");
    s.append(service_id);
    s
}

/// The key a stored credential is persisted under:
/// `mcp-credential-{tenant}-{service}-{name}`.
pub fn credential_kv_key(tenant_id: &str, service_id: &str, credential_name: &str) -> (r: String)
    ensures
        r@ == "mcp-credential-"@ + tenant_id@ + "-"@ + service_id@ + "-"@ + credential_name@,
{
    let mut s = String::from_str("mcp-credential-");
    s.append(tenant_id);
    s.append("-");
    s.append(service_id);
    s.append("-");
    s.append(credential_name);
    proof {
        assert(s@ =~= "mcp-credential-"@ + tenant_id@ + "-"@ + service_id@ + "-"@
            + credential_name@);
    }
    s
}

/// The key a user's connection record is persisted under:
/// `user-{userId}-integration-{serviceId}-{connectionId}`.
pub fn connection_kv_key(user_id: &str, service_id: &str, connection_id: &str) -> (r: String)
    ensures
        r@ == "user-"@ + user_id@ + "-integration-"@ + service_id@ + "-"@ + connection_id@,
{
    let mut s = String::from_str("user-");
    s.append(user_id);
    s.append("-integration-");
    s.append(service_id);
    s.append("-");
    s.append(connection_id);
    proof {
        assert(s@ =~= "user-"@ + user_id@ + "-integration-"@ + service_id@ + "-"@
            + connection_id@);
    }
    s
}

/// The persisted JSON form of an integration's identity.
pub open spec fn spec_integration_jval(c: IntegrationConfig) -> JVal {
    JVal::Obj(
        seq![
            ("id"@, JVal::Str(c.id@)),
            ("name"@, JVal::Str(c.name@)),
            ("description"@, JVal::Str(c.description@)),
            ("category"@, JVal::Str(c.category@)),
        ],
    )
}

/// Serialize the identifying part of an integration for durable storage.
pub fn integration_config_to_json(c: &IntegrationConfig) -> (r: Json)
    ensures
        r@ == spec_integration_jval(*c),
{
    let r = crate::json::obj4(
        "id",
        Json::str_of(c.id.as_str()),
        "name",
        Json::str_of(c.name.as_str()),
        "description",
        Json::str_of(c.description.as_str()),
        "category",
        Json::str_of(c.category.as_str()),
    );
    proof {
        assert(r@->Obj_0 =~= spec_integration_jval(*c)->Obj_0);
    }
    r
}

// ---------------------------------------------------------------------------
// The tool table
// ---------------------------------------------------------------------------
/// One registered tool: its name, gate, and input schema.
#[derive(Debug)]
pub struct HandlerEntry {
    pub name: String,
    pub required_permission: Option<Permission>,
    pub schema: Json,
}

/// First entry named `name`, if any.
pub open spec fn handler_of(s: Seq<HandlerEntry>, name: Seq<char>) -> Option<HandlerEntry>
    decreases s.len(),
{
    if s.len() == 0 {
        None
    } else if s[0].name@ == name {
        Some(s[0])
    } else {
        handler_of(s.drop_first(), name)
    }
}

/// Whether a session's context may use a tool.
pub open spec fn spec_permitted(h: HandlerEntry, ctx: crate::tenant::TenantContext) -> bool {
    match h.required_permission {
        Some(p) => spec_has_permission(ctx, p),
        None => true,
    }
}

/// The entries a context may see, in table order.
pub open spec fn spec_listed(
    hs: Seq<HandlerEntry>,
    ctx: crate::tenant::TenantContext,
) -> Seq<HandlerEntry> {
    hs.filter(|h: HandlerEntry| spec_permitted(h, ctx))
}

/// An action agrees with the arguments it was validated from: every field
/// of the action is the stated extraction from the arguments.
pub open spec fn action_matches(args: JVal, a: ToolAction) -> bool {
    match a {
        ToolAction::KvGet { key } => spec_opt_str(args, "key"@) == Some(key@),
        ToolAction::KvSet { key, value, ttl_hours } => spec_opt_str(args, "key"@) == Some(key@)
            && spec_opt_str(args, "value"@) == Some(value@) && ttl_hours == (match spec_get(
            args,
            "ttl_hours"@,
        ) {
            Some(JVal::Int(n)) => if n >= 0 {
                Some((n as u64) as u32)
            } else {
                None
            },
            _ => None,
        }),
        ToolAction::ArtifactsGet { key } => spec_opt_str(args, "key"@) == Some(key@),
        ToolAction::ArtifactsPut { key, content, content_type } => spec_opt_str(args, "key"@)
            == Some(key@) && spec_opt_str(args, "content"@) == Some(b64_of(content@))
            && content_type@ == (match spec_opt_str(args, "content_type"@) {
            Some(t) => t,
            None => "text/plain"@,
        }),
        ToolAction::ArtifactsList { prefix } => opt_str_is(prefix, spec_opt_str(args, "prefix"@)),
        ToolAction::EventsSend { detail_type, detail } => spec_opt_str(args, "detailType"@)
            == Some(detail_type@) && spec_get(args, "detail"@) == Some(detail@),
        ToolAction::EventsQuery {
            user_id,
            organization_id,
            source,
            detail_type,
            priority,
            start_time,
            end_time,
            limit,
            exclusive_start_key,
            ascending,
        } => opt_str_is(user_id, spec_opt_str(args, "userId"@)) && opt_str_is(
            organization_id,
            spec_opt_str(args, "organizationId"@),
        ) && opt_str_is(source, spec_opt_str(args, "source"@)) && opt_str_is(
            detail_type,
            spec_opt_str(args, "detailType"@),
        ) && opt_str_is(priority, spec_opt_str(args, "priority"@)) && opt_str_is(
            start_time,
            spec_opt_str(args, "startTime"@),
        ) && opt_str_is(end_time, spec_opt_str(args, "endTime"@)) && limit == spec_u64_or(
            args,
            "limit"@,
            50,
        ) as i32 && opt_str_is(exclusive_start_key, spec_opt_str(args, "exclusiveStartKey"@))
            && ascending == (spec_opt_str(args, "sortOrder"@) == Some("asc"@)),
        ToolAction::EventsAnalytics {
            user_id,
            organization_id,
            start_time,
            end_time,
            metrics,
            granularity,
        } => opt_str_is(user_id, spec_opt_str(args, "userId"@)) && opt_str_is(
            organization_id,
            spec_opt_str(args, "organizationId"@),
        ) && opt_str_is(start_time, spec_opt_str(args, "startTime"@)) && opt_str_is(
            end_time,
            spec_opt_str(args, "endTime"@),
        ) && granularity@ == (match spec_opt_str(args, "granularity"@) {
            Some(g) => g,
            None => "hourly"@,
        }) && (spec_get(args, "metrics"@) is None ==> metrics@.len() == 3),
        ToolAction::EventsCreateRule { name, pattern, description, enabled } => spec_opt_str(
            args,
            "name"@,
        ) == Some(name@) && spec_get(args, "pattern"@) == Some(pattern@) && opt_str_is(
            description,
            spec_opt_str(args, "description"@),
        ) && enabled == spec_bool_or(args, "enabled"@, true),
        ToolAction::EventsCreateAlert {
            name,
            rule_id,
            notification_method,
            sns_topic_arn,
            email_address,
            enabled,
        } => spec_opt_str(args, "name"@) == Some(name@) && spec_opt_str(args, "ruleId"@) == Some(
            rule_id@,
        ) && spec_opt_str(args, "notificationMethod"@) == Some(notification_method@)
            && opt_str_is(sns_topic_arn, spec_opt_str(args, "snsTopicArn"@)) && opt_str_is(
            email_address,
            spec_opt_str(args, "emailAddress"@),
        ) && enabled == spec_bool_or(args, "enabled"@, true),
        ToolAction::EventsHealthCheck => true,
        ToolAction::IntegrationRegister { args: kept } => kept@ == args,
        ToolAction::IntegrationConnect { args: kept } => kept@ == args,
        ToolAction::IntegrationList => true,
        ToolAction::IntegrationDisconnect { service_id, connection_id } => spec_opt_str(
            args,
            "service_id"@,
        ) == Some(service_id@) && opt_str_is(
            connection_id,
            spec_opt_str(args, "connection_id"@),
        ),
        ToolAction::IntegrationTest { service_id } => spec_opt_str(args, "service_id"@) == Some(
            service_id@,
        ),
        ToolAction::McpProxy { tool_name, arguments } => spec_opt_str(args, "tool_name"@) == Some(
            tool_name@,
        ) && spec_get(args, "arguments"@) == Some(arguments@),
        ToolAction::McpListTools { server_id } => opt_str_is(
            server_id,
            spec_opt_str(args, "server_id"@),
        ),
    }
}

/// Whether a tool call's arguments satisfy the tool's required fields.
/// For `artifacts_put` this covers the fields alone; whether the content
/// is canonical base64 is decided by the decoder.
pub open spec fn spec_args_ok(name: Seq<char>, args: JVal) -> bool {
    if name == "kv_get"@ {
        spec_opt_str(args, "key"@) is Some
    } else if name == "kv_set"@ {
        spec_opt_str(args, "key"@) is Some && spec_opt_str(args, "value"@) is Some
    } else if name == "artifacts_get"@ {
        spec_opt_str(args, "key"@) is Some
    } else if name == "artifacts_put"@ {
        spec_opt_str(args, "key"@) is Some && (spec_opt_str(args, "content"@) matches Some(c)
            && (exists|d: Seq<u8>| c == #[trigger] b64_of(d)))
    } else if name == "artifacts_list"@ {
        true
    } else if name == "events_send"@ {
        spec_opt_str(args, "detailType"@) is Some && spec_get(args, "detail"@) is Some
    } else if name == "events_query"@ {
        true
    } else if name == "events_analytics"@ {
        true
    } else if name == "events_create_rule"@ {
        spec_opt_str(args, "name"@) is Some && spec_get(args, "pattern"@) is Some
    } else if name == "events_create_alert"@ {
        spec_opt_str(args, "name"@) is Some && spec_opt_str(args, "ruleId"@) is Some
            && spec_opt_str(args, "notificationMethod"@) is Some
    } else if name == "events_health_check"@ {
        true
    } else if name == "integration_register"@ {
        spec_opt_str(args, "service_id"@) is Some && spec_opt_str(args, "name"@) is Some
            && spec_get(args, "auth_method"@) is Some
    } else if name == "integration_connect"@ {
        spec_opt_str(args, "service_id"@) is Some
    } else if name == "integration_list"@ {
        true
    } else if name == "integration_disconnect"@ {
        spec_opt_str(args, "service_id"@) is Some
    } else if name == "integration_test"@ {
        spec_opt_str(args, "service_id"@) is Some
    } else if name == "mcp_proxy"@ {
        spec_opt_str(args, "tool_name"@) is Some && spec_get(args, "arguments"@) is Some
    } else if name == "mcp_list_tools"@ {
        true
    } else {
        false
    }
}

/// A schema has the shape every tool's schema carries: a string
/// description and an object input schema with its properties.
pub open spec fn spec_schema_shaped(j: JVal) -> bool {
    &&& (spec_get(j, "description"@) matches Some(d) && d is Str)
    &&& (spec_get(j, "inputSchema"@) matches Some(i) && i is Obj && (spec_get(i, "type"@)
        == Some(JVal::Str("object"@))) && (spec_get(i, "properties"@) matches Some(p) && p
        is Obj) && (spec_get(i, "required"@) matches Some(q) && q is Arr))
}

/// The canonical tool table: the eighteen tools, in order, with their
/// gates and well-shaped schemas.
pub open spec fn spec_canonical_table(hs: Seq<HandlerEntry>) -> bool {
    &&& hs.len() == 18
    &&& hs[0].name@ == "kv_get"@ && hs[0].required_permission == Some(Permission::ReadKV)
    &&& hs[1].name@ == "kv_set"@ && hs[1].required_permission == Some(Permission::WriteKV)
    &&& hs[2].name@ == "artifacts_get"@ && hs[2].required_permission == Some(
        Permission::GetArtifacts,
    )
    &&& hs[3].name@ == "artifacts_put"@ && hs[3].required_permission == Some(
        Permission::PutArtifacts,
    )
    &&& hs[4].name@ == "artifacts_list"@ && hs[4].required_permission == Some(
        Permission::ListArtifacts,
    )
    &&& hs[5].name@ == "events_send"@ && hs[5].required_permission == Some(Permission::SendEvents)
    &&& hs[6].name@ == "events_query"@ && hs[6].required_permission == Some(
        Permission::SendEvents,
    )
    &&& hs[7].name@ == "events_analytics"@ && hs[7].required_permission == Some(
        Permission::SendEvents,
    )
    &&& hs[8].name@ == "events_create_rule"@ && hs[8].required_permission == Some(
        Permission::WriteKV,
    )
    &&& hs[9].name@ == "events_create_alert"@ && hs[9].required_permission == Some(
        Permission::WriteKV,
    )
    &&& hs[10].name@ == "events_health_check"@ && hs[10].required_permission == Some(
        Permission::ReadKV,
    )
    &&& hs[11].name@ == "integration_register"@ && hs[11].required_permission == Some(
        Permission::Admin,
    )
    &&& hs[12].name@ == "integration_connect"@ && hs[12].required_permission == Some(
        Permission::Write,
    )
    &&& hs[13].name@ == "integration_list"@ && hs[13].required_permission == Some(
        Permission::Read,
    )
    &&& hs[14].name@ == "integration_disconnect"@ && hs[14].required_permission == Some(
        Permission::Write,
    )
    &&& hs[15].name@ == "integration_test"@ && hs[15].required_permission == Some(
        Permission::Read,
    )
    &&& hs[16].name@ == "mcp_proxy"@ && hs[16].required_permission == Some(Permission::Execute)
    &&& hs[17].name@ == "mcp_list_tools"@ && hs[17].required_permission == Some(Permission::Read)
    &&& forall|i: int| 0 <= i < hs.len() ==> spec_schema_shaped((#[trigger] hs[i]).schema@)
}

/// A found entry occurs in the table.
pub proof fn lemma_handler_of_mem(s: Seq<HandlerEntry>, name: Seq<char>)
    requires
        handler_of(s, name) is Some,
    ensures
        exists|i: int| 0 <= i < s.len() && (#[trigger] s[i]).name@ == name,
    decreases s.len(),
{
    if s.len() > 0 {
        if s[0].name@ == name {
            assert(s[0].name@ == name);
        } else {
            lemma_handler_of_mem(s.drop_first(), name);
            let w = choose|w: int|
                0 <= w < s.drop_first().len() && (#[trigger] s.drop_first()[w]).name@ == name;
            assert(s[w + 1].name@ == name);
        }
    }
}

fn sprop(kind: &str, desc: &str) -> Json {
    obj2("type", Json::str_of(kind), "description", Json::str_of(desc))
}

fn pp(v: &mut Vec<(Vec<char>, Json)>, k: &str, j: Json) {
    v.push((str_to_chars(k), j));
}

fn input_schema(props: Vec<(Vec<char>, Json)>, required: Vec<Json>) -> (r: Json)
    ensures
        r@ is Obj,
        spec_get(r@, "type"@) == Some(JVal::Str("object"@)),
        spec_get(r@, "properties"@) matches Some(p) && p is Obj,
        spec_get(r@, "required"@) matches Some(q) && q is Arr,
{
    let r = obj3(
        "type",
        Json::str_of("object"),
        "properties",
        Json::Obj(props),
        "required",
        crate::json::arr_of(required),
    );
    proof {
        reveal_with_fuel(crate::json::obj_lookup, 4);
        reveal_strlit("type");
        reveal_strlit("properties");
        reveal_strlit("required");
        assert("type"@.len() != "properties"@.len());
        assert("type"@.len() != "required"@.len());
        assert("properties"@.len() != "required"@.len());
        let m = r@->Obj_0;
        assert(m.len() == 3);
        assert(crate::json::obj_lookup(m, "type"@) == Some(m[0].1));
        assert(m.drop_first()[0] == m[1]);
        assert(m.drop_first().drop_first()[0] == m[2]);
        assert(crate::json::obj_lookup(m, "properties"@) == Some(m[1].1));
        assert(crate::json::obj_lookup(m, "required"@) == Some(m[2].1));
    }
    r
}

fn req_names1(a: &str) -> Vec<Json> {
    let mut v: Vec<Json> = Vec::new();
    v.push(Json::str_of(a));
    v
}

fn req_names2(a: &str, b: &str) -> Vec<Json> {
    let mut v: Vec<Json> = Vec::new();
    v.push(Json::str_of(a));
    v.push(Json::str_of(b));
    v
}

fn req_names3(a: &str, b: &str, c: &str) -> Vec<Json> {
    let mut v: Vec<Json> = Vec::new();
    v.push(Json::str_of(a));
    v.push(Json::str_of(b));
    v.push(Json::str_of(c));
    v
}

/// A tool schema: its description and input object shape.
fn make_schema(description: &str, input: Json) -> (r: Json)
    ensures
        r@ == JVal::Obj(seq![("description"@, JVal::Str(description@)), ("inputSchema"@, input@)]),
        spec_get(r@, "description"@) == Some(JVal::Str(description@)),
        spec_get(r@, "inputSchema"@) == Some(input@),
{
    let r = obj2("description", Json::str_of(description), "inputSchema", input);
    proof {
        reveal_with_fuel(crate::json::obj_lookup, 3);
        reveal_strlit("description");
        reveal_strlit("inputSchema");
        assert("description"@[0] != "inputSchema"@[0]);
        let m = r@->Obj_0;
        assert(m.len() == 2);
        assert(crate::json::obj_lookup(m, "description"@) == Some(m[0].1));
        assert(m.drop_first()[0] == m[1]);
        assert(crate::json::obj_lookup(m, "inputSchema"@) == Some(m[1].1));
    }
    r
}

/// The tool registry.
pub struct HandlerRegistry {
    pub handlers: Vec<HandlerEntry>,
}

fn schema_kv_get() -> (r: Json)
    ensures
        spec_schema_shaped(r@),
{
    let mut p: Vec<(Vec<char>, Json)> = Vec::new();
    pp(&mut p, "key", sprop("string", "The key to retrieve"));
    make_schema("Get a value from the key-value store", input_schema(p, req_names1("key")))
}

fn schema_kv_set() -> (r: Json)
    ensures
        spec_schema_shaped(r@),
{
    let mut p: Vec<(Vec<char>, Json)> = Vec::new();
    pp(&mut p, "key", sprop("string", "The key to set"));
    pp(&mut p, "value", sprop("string", "The value to store"));
    pp(&mut p, "ttl_hours", sprop("number", "Time to live in hours (default: 24)"));
    make_schema(
        "Set a value in the key-value store",
        input_schema(p, req_names2("key", "value")),
    )
}

fn schema_artifacts_get() -> (r: Json)
    ensures
        spec_schema_shaped(r@),
{
    let mut p: Vec<(Vec<char>, Json)> = Vec::new();
    pp(&mut p, "key", sprop("string", "The artifact key to retrieve"));
    make_schema("Get an artifact by key", input_schema(p, req_names1("key")))
}

fn schema_artifacts_put() -> (r: Json)
    ensures
        spec_schema_shaped(r@),
{
    let mut p: Vec<(Vec<char>, Json)> = Vec::new();
    pp(&mut p, "key", sprop("string", "The artifact key"));
    pp(&mut p, "content", sprop("string", "The artifact content (base64 encoded)"));
    pp(&mut p, "content_type", sprop("string", "The content type (default: text/plain)"));
    make_schema("Store an artifact", input_schema(p, req_names2("key", "content")))
}

fn schema_artifacts_list() -> (r: Json)
    ensures
        spec_schema_shaped(r@),
{
    let mut p: Vec<(Vec<char>, Json)> = Vec::new();
    pp(&mut p, "prefix", sprop("string", "Optional prefix to filter artifacts"));
    make_schema("List artifacts with optional prefix", input_schema(p, Vec::new()))
}

fn schema_events_send() -> (r: Json)
    ensures
        spec_schema_shaped(r@),
{
    let mut p: Vec<(Vec<char>, Json)> = Vec::new();
    pp(&mut p, "detailType", sprop("string", "The event type"));
    pp(&mut p, "detail", sprop("object", "The event details"));
    make_schema("Send an event", input_schema(p, req_names2("detailType", "detail")))
}

fn schema_events_query() -> (r: Json)
    ensures
        spec_schema_shaped(r@),
{
    let mut p: Vec<(Vec<char>, Json)> = Vec::new();
    pp(&mut p, "userId", sprop("string", "Filter by user ID"));
    pp(&mut p, "organizationId", sprop("string", "Filter by organization ID"));
    pp(&mut p, "source", sprop("string", "Filter by event source"));
    pp(&mut p, "detailType", sprop("string", "Filter by event detail type"));
    pp(&mut p, "priority", sprop("string", "Filter by priority (low, medium, high, critical)"));
    pp(&mut p, "startTime", sprop("string", "Start timestamp (ISO 8601)"));
    pp(&mut p, "endTime", sprop("string", "End timestamp (ISO 8601)"));
    pp(&mut p, "limit", sprop("number", "Maximum number of events to return (default: 50)"));
    pp(&mut p, "exclusiveStartKey", sprop("string", "Pagination cursor for next page"));
    pp(&mut p, "sortOrder", sprop("string", "Sort order: 'asc' or 'desc' (default: 'desc')"));
    make_schema("Query events from the event history", input_schema(p, Vec::new()))
}

fn schema_events_analytics() -> (r: Json)
    ensures
        spec_schema_shaped(r@),
{
    let mut p: Vec<(Vec<char>, Json)> = Vec::new();
    pp(&mut p, "userId", sprop("string", "User ID to scope analytics"));
    pp(&mut p, "organizationId", sprop("string", "Organization ID to scope analytics"));
    pp(&mut p, "timeRange", sprop("string", "Time range for analytics (1h, 24h, 7d, 30d)"));
    pp(&mut p, "startTime", sprop("string", "ISO8601 start time for the analytics window"));
    pp(&mut p, "endTime", sprop("string", "ISO8601 end time for the analytics window"));
    pp(&mut p, "metrics", sprop("array", "Metrics to compute (volume, topSources, priority)"));
    pp(&mut p, "groupBy", sprop("string", "Time grouping for volume metrics (hour, day, week)"));
    pp(&mut p, "granularity", sprop("string", "Time granularity for volume metrics"));
    make_schema(
        "Get analytics and aggregations for events (volume, top sources, priority distribution)",
        input_schema(p, Vec::new()),
    )
}

fn schema_events_create_rule() -> (r: Json)
    ensures
        spec_schema_shaped(r@),
{
    let mut p: Vec<(Vec<char>, Json)> = Vec::new();
    pp(&mut p, "name", sprop("string", "Unique name for the rule"));
    pp(&mut p, "pattern", sprop("object", "Event pattern for matching events"));
    pp(&mut p, "description", sprop("string", "Optional description of the rule"));
    pp(&mut p, "enabled", sprop("boolean", "Whether the rule is enabled (default: true)"));
    make_schema(
        "Create an event filtering rule for automated processing",
        input_schema(p, req_names2("name", "pattern")),
    )
}

fn schema_events_create_alert() -> (r: Json)
    ensures
        spec_schema_shaped(r@),
{
    let mut p: Vec<(Vec<char>, Json)> = Vec::new();
    pp(&mut p, "name", sprop("string", "Unique name for the alert subscription"));
    pp(&mut p, "ruleId", sprop("string", "ID of the event rule to subscribe to"));
    pp(&mut p, "notificationMethod", sprop("string", "Notification method (sns or email)"));
    pp(&mut p, "snsTopicArn", sprop("string", "SNS topic ARN (for the sns method)"));
    pp(&mut p, "emailAddress", sprop("string", "Email address (for the email method)"));
    pp(&mut p, "enabled", sprop("boolean", "Whether the subscription is enabled (default: true)"));
    make_schema(
        "Create an alert subscription for an event rule (SNS or email notifications)",
        input_schema(p, req_names3("name", "ruleId", "notificationMethod")),
    )
}

fn schema_events_health_check() -> (r: Json)
    ensures
        spec_schema_shaped(r@),
{
    let p: Vec<(Vec<char>, Json)> = Vec::new();
    make_schema(
        "Perform health checks on event system components (DynamoDB tables, event volume)",
        input_schema(p, Vec::new()),
    )
}

fn schema_integration_register() -> (r: Json)
    ensures
        spec_schema_shaped(r@),
{
    let mut p: Vec<(Vec<char>, Json)> = Vec::new();
    pp(&mut p, "service_id", sprop("string", "Unique identifier for the service"));
    pp(&mut p, "name", sprop("string", "Display name of the integration"));
    pp(&mut p, "description", sprop("string", "Description of the integration"));
    pp(&mut p, "category", sprop("string", "Category (e.g., Analytics, CRM, Development)"));
    pp(&mut p, "server_type", sprop("string", "Type of server connection"));
    pp(&mut p, "command", sprop("string", "Command to start the server (process deployment)"));
    pp(&mut p, "args", sprop("array", "Command arguments (process deployment)"));
    pp(&mut p, "docker_config", sprop("object", "Container deployment configuration"));
    pp(&mut p, "env", sprop("object", "Environment variables"));
    pp(&mut p, "auth_method", sprop("object", "Authentication method configuration"));
    pp(&mut p, "configuration_schema", sprop("array", "Configuration fields schema"));
    pp(&mut p, "capabilities", sprop("array", "List of capabilities"));
    make_schema(
        "Register a new MCP server integration",
        input_schema(p, req_names3("service_id", "name", "auth_method")),
    )
}

fn schema_integration_connect() -> (r: Json)
    ensures
        spec_schema_shaped(r@),
{
    let mut p: Vec<(Vec<char>, Json)> = Vec::new();
    pp(&mut p, "service_id", sprop("string", "ID of the service to connect"));
    pp(&mut p, "connection_id", sprop("string", "Optional connection ID"));
    pp(&mut p, "connection_name", sprop("string", "Display name for this connection"));
    pp(&mut p, "credentials", sprop("object", "Credentials for authentication"));
    pp(&mut p, "settings", sprop("object", "Additional settings"));
    make_schema(
        "Connect to an MCP server integration",
        input_schema(p, req_names1("service_id")),
    )
}

fn schema_integration_list() -> (r: Json)
    ensures
        spec_schema_shaped(r@),
{
    let p: Vec<(Vec<char>, Json)> = Vec::new();
    make_schema("List available MCP server integrations", input_schema(p, Vec::new()))
}

fn schema_integration_disconnect() -> (r: Json)
    ensures
        spec_schema_shaped(r@),
{
    let mut p: Vec<(Vec<char>, Json)> = Vec::new();
    pp(&mut p, "service_id", sprop("string", "ID of the service to disconnect"));
    pp(&mut p, "connection_id", sprop("string", "Optional connection ID"));
    make_schema(
        "Disconnect from an MCP server integration",
        input_schema(p, req_names1("service_id")),
    )
}

fn schema_integration_test() -> (r: Json)
    ensures
        spec_schema_shaped(r@),
{
    let mut p: Vec<(Vec<char>, Json)> = Vec::new();
    pp(&mut p, "service_id", sprop("string", "ID of the service to test"));
    make_schema(
        "Test an MCP server integration connection",
        input_schema(p, req_names1("service_id")),
    )
}

fn schema_mcp_proxy() -> (r: Json)
    ensures
        spec_schema_shaped(r@),
{
    let mut p: Vec<(Vec<char>, Json)> = Vec::new();
    pp(&mut p, "tool_name", sprop("string", "Name of the tool (optionally server-prefixed)"));
    pp(&mut p, "arguments", sprop("object", "Arguments to pass to the tool"));
    make_schema(
        "Execute a tool on a registered MCP server",
        input_schema(p, req_names1("tool_name")),
    )
}

fn schema_mcp_list_tools() -> (r: Json)
    ensures
        spec_schema_shaped(r@),
{
    let mut p: Vec<(Vec<char>, Json)> = Vec::new();
    pp(&mut p, "server_id", sprop("string", "Optional: filter tools to specific server"));
    make_schema(
        "List available tools from registered MCP servers",
        input_schema(p, Vec::new()),
    )
}

fn entry(name: &str, required_permission: Option<Permission>, schema: Json) -> (r: HandlerEntry)
    ensures
        r.name@ == name@,
        r.required_permission == required_permission,
        r.schema == schema,
{
    HandlerEntry { name: String::from_str(name), required_permission, schema }
}

impl HandlerRegistry {
    /// Names are distinct.
    pub open spec fn wf(&self) -> bool {
        forall|i: int, j: int|
            0 <= i < j < self.handlers@.len() ==> (#[trigger] self.handlers@[i]).name@ != (
            #[trigger] self.handlers@[j]).name@
    }

    /// The full tool table: the built-in key-value, artifact and event
    /// tools, the integration management tools, and the sub-server proxy.
    #[verifier::rlimit(100)]
    pub fn new() -> (r: Self)
        ensures
            r.wf(),
            spec_canonical_table(r.handlers@),
    {
        let mut v: Vec<HandlerEntry> = Vec::new();
        v.push(entry("kv_get", Some(Permission::ReadKV), schema_kv_get()));
        v.push(entry("kv_set", Some(Permission::WriteKV), schema_kv_set()));
        v.push(entry("artifacts_get", Some(Permission::GetArtifacts), schema_artifacts_get()));
        v.push(entry("artifacts_put", Some(Permission::PutArtifacts), schema_artifacts_put()));
        v.push(entry("artifacts_list", Some(Permission::ListArtifacts), schema_artifacts_list()));
        v.push(entry("events_send", Some(Permission::SendEvents), schema_events_send()));
        v.push(entry("events_query", Some(Permission::SendEvents), schema_events_query()));
        v.push(entry("events_analytics", Some(Permission::SendEvents), schema_events_analytics()));
        v.push(entry("events_create_rule", Some(Permission::WriteKV), schema_events_create_rule()));
        v.push(
            entry("events_create_alert", Some(Permission::WriteKV), schema_events_create_alert()),
        );
        v.push(
            entry("events_health_check", Some(Permission::ReadKV), schema_events_health_check()),
        );
        v.push(
            entry(
                "integration_register",
                Some(Permission::Admin),
                schema_integration_register(),
            ),
        );
        v.push(
            entry("integration_connect", Some(Permission::Write), schema_integration_connect()),
        );
        v.push(entry("integration_list", Some(Permission::Read), schema_integration_list()));
        v.push(
            entry(
                "integration_disconnect",
                Some(Permission::Write),
                schema_integration_disconnect(),
            ),
        );
        v.push(entry("integration_test", Some(Permission::Read), schema_integration_test()));
        v.push(entry("mcp_proxy", Some(Permission::Execute), schema_mcp_proxy()));
        v.push(entry("mcp_list_tools", Some(Permission::Read), schema_mcp_list_tools()));
        let r = HandlerRegistry { handlers: v };
        proof {
            reveal_strlit("kv_get");
            reveal_strlit("kv_set");
            reveal_strlit("artifacts_get");
            reveal_strlit("artifacts_put");
            reveal_strlit("artifacts_list");
            reveal_strlit("events_send");
            reveal_strlit("events_query");
            reveal_strlit("events_analytics");
            reveal_strlit("events_create_rule");
            reveal_strlit("events_create_alert");
            reveal_strlit("events_health_check");
            reveal_strlit("integration_register");
            reveal_strlit("integration_connect");
            reveal_strlit("integration_list");
            reveal_strlit("integration_disconnect");
            reveal_strlit("integration_test");
            reveal_strlit("mcp_proxy");
            reveal_strlit("mcp_list_tools");
            assert forall|i: int|
                0 <= i < r.handlers@.len() implies spec_schema_shaped(
                (#[trigger] r.handlers@[i]).schema@,
            ) by {
                if i == 0 {
                    assert(spec_schema_shaped(r.handlers@[0].schema@));
                }
                if i == 1 {
                    assert(spec_schema_shaped(r.handlers@[1].schema@));
                }
                if i == 2 {
                    assert(spec_schema_shaped(r.handlers@[2].schema@));
                }
                if i == 3 {
                    assert(spec_schema_shaped(r.handlers@[3].schema@));
                }
                if i == 4 {
                    assert(spec_schema_shaped(r.handlers@[4].schema@));
                }
                if i == 5 {
                    assert(spec_schema_shaped(r.handlers@[5].schema@));
                }
                if i == 6 {
                    assert(spec_schema_shaped(r.handlers@[6].schema@));
                }
                if i == 7 {
                    assert(spec_schema_shaped(r.handlers@[7].schema@));
                }
                if i == 8 {
                    assert(spec_schema_shaped(r.handlers@[8].schema@));
                }
                if i == 9 {
                    assert(spec_schema_shaped(r.handlers@[9].schema@));
                }
                if i == 10 {
                    assert(spec_schema_shaped(r.handlers@[10].schema@));
                }
                if i == 11 {
                    assert(spec_schema_shaped(r.handlers@[11].schema@));
                }
                if i == 12 {
                    assert(spec_schema_shaped(r.handlers@[12].schema@));
                }
                if i == 13 {
                    assert(spec_schema_shaped(r.handlers@[13].schema@));
                }
                if i == 14 {
                    assert(spec_schema_shaped(r.handlers@[14].schema@));
                }
                if i == 15 {
                    assert(spec_schema_shaped(r.handlers@[15].schema@));
                }
                if i == 16 {
                    assert(spec_schema_shaped(r.handlers@[16].schema@));
                }
                if i == 17 {
                    assert(spec_schema_shaped(r.handlers@[17].schema@));
                }
            }
            assert forall|i: int, j: int|
                0 <= i < j < r.handlers@.len() implies (#[trigger] r.handlers@[i]).name@ != (
            #[trigger] r.handlers@[j]).name@ by {
                if i == 0 && j == 1 {
                    assert(r.handlers@[i].name@ == "kv_get"@);
                    assert(r.handlers@[j].name@ == "kv_set"@);
                    assert("kv_get"@[3] != "kv_set"@[3]);
                }
                if i == 0 && j == 2 {
                    assert(r.handlers@[i].name@ == "kv_get"@);
                    assert(r.handlers@[j].name@ == "artifacts_get"@);
                    assert("kv_get"@.len() != "artifacts_get"@.len());
                }
                if i == 0 && j == 3 {
                    assert(r.handlers@[i].name@ == "kv_get"@);
                    assert(r.handlers@[j].name@ == "artifacts_put"@);
                    assert("kv_get"@.len() != "artifacts_put"@.len());
                }
                if i == 0 && j == 4 {
                    assert(r.handlers@[i].name@ == "kv_get"@);
                    assert(r.handlers@[j].name@ == "artifacts_list"@);
                    assert("kv_get"@.len() != "artifacts_list"@.len());
                }
                if i == 0 && j == 5 {
                    assert(r.handlers@[i].name@ == "kv_get"@);
                    assert(r.handlers@[j].name@ == "events_send"@);
                    assert("kv_get"@.len() != "events_send"@.len());
                }
                if i == 0 && j == 6 {
                    assert(r.handlers@[i].name@ == "kv_get"@);
                    assert(r.handlers@[j].name@ == "events_query"@);
                    assert("kv_get"@.len() != "events_query"@.len());
                }
                if i == 0 && j == 7 {
                    assert(r.handlers@[i].name@ == "kv_get"@);
                    assert(r.handlers@[j].name@ == "events_analytics"@);
                    assert("kv_get"@.len() != "events_analytics"@.len());
                }
                if i == 0 && j == 8 {
                    assert(r.handlers@[i].name@ == "kv_get"@);
                    assert(r.handlers@[j].name@ == "events_create_rule"@);
                    assert("kv_get"@.len() != "events_create_rule"@.len());
                }
                if i == 0 && j == 9 {
                    assert(r.handlers@[i].name@ == "kv_get"@);
                    assert(r.handlers@[j].name@ == "events_create_alert"@);
                    assert("kv_get"@.len() != "events_create_alert"@.len());
                }
                if i == 0 && j == 10 {
                    assert(r.handlers@[i].name@ == "kv_get"@);
                    assert(r.handlers@[j].name@ == "events_health_check"@);
                    assert("kv_get"@.len() != "events_health_check"@.len());
                }
                if i == 0 && j == 11 {
                    assert(r.handlers@[i].name@ == "kv_get"@);
                    assert(r.handlers@[j].name@ == "integration_register"@);
                    assert("kv_get"@.len() != "integration_register"@.len());
                }
                if i == 0 && j == 12 {
                    assert(r.handlers@[i].name@ == "kv_get"@);
                    assert(r.handlers@[j].name@ == "integration_connect"@);
                    assert("kv_get"@.len() != "integration_connect"@.len());
                }
                if i == 0 && j == 13 {
                    assert(r.handlers@[i].name@ == "kv_get"@);
                    assert(r.handlers@[j].name@ == "integration_list"@);
                    assert("kv_get"@.len() != "integration_list"@.len());
                }
                if i == 0 && j == 14 {
                    assert(r.handlers@[i].name@ == "kv_get"@);
                    assert(r.handlers@[j].name@ == "integration_disconnect"@);
                    assert("kv_get"@.len() != "integration_disconnect"@.len());
                }
                if i == 0 && j == 15 {
                    assert(r.handlers@[i].name@ == "kv_get"@);
                    assert(r.handlers@[j].name@ == "integration_test"@);
                    assert("kv_get"@.len() != "integration_test"@.len());
                }
                if i == 0 && j == 16 {
                    assert(r.handlers@[i].name@ == "kv_get"@);
                    assert(r.handlers@[j].name@ == "mcp_proxy"@);
                    assert("kv_get"@.len() != "mcp_proxy"@.len());
                }
                if i == 0 && j == 17 {
                    assert(r.handlers@[i].name@ == "kv_get"@);
                    assert(r.handlers@[j].name@ == "mcp_list_tools"@);
                    assert("kv_get"@.len() != "mcp_list_tools"@.len());
                }
                if i == 1 && j == 2 {
                    assert(r.handlers@[i].name@ == "kv_set"@);
                    assert(r.handlers@[j].name@ == "artifacts_get"@);
                    assert("kv_set"@.len() != "artifacts_get"@.len());
                }
                if i == 1 && j == 3 {
                    assert(r.handlers@[i].name@ == "kv_set"@);
                    assert(r.handlers@[j].name@ == "artifacts_put"@);
                    assert("kv_set"@.len() != "artifacts_put"@.len());
                }
                if i == 1 && j == 4 {
                    assert(r.handlers@[i].name@ == "kv_set"@);
                    assert(r.handlers@[j].name@ == "artifacts_list"@);
                    assert("kv_set"@.len() != "artifacts_list"@.len());
                }
                if i == 1 && j == 5 {
                    assert(r.handlers@[i].name@ == "kv_set"@);
                    assert(r.handlers@[j].name@ == "events_send"@);
                    assert("kv_set"@.len() != "events_send"@.len());
                }
                if i == 1 && j == 6 {
                    assert(r.handlers@[i].name@ == "kv_set"@);
                    assert(r.handlers@[j].name@ == "events_query"@);
                    assert("kv_set"@.len() != "events_query"@.len());
                }
                if i == 1 && j == 7 {
                    assert(r.handlers@[i].name@ == "kv_set"@);
                    assert(r.handlers@[j].name@ == "events_analytics"@);
                    assert("kv_set"@.len() != "events_analytics"@.len());
                }
                if i == 1 && j == 8 {
                    assert(r.handlers@[i].name@ == "kv_set"@);
                    assert(r.handlers@[j].name@ == "events_create_rule"@);
                    assert("kv_set"@.len() != "events_create_rule"@.len());
                }
                if i == 1 && j == 9 {
                    assert(r.handlers@[i].name@ == "kv_set"@);
                    assert(r.handlers@[j].name@ == "events_create_alert"@);
                    assert("kv_set"@.len() != "events_create_alert"@.len());
                }
                if i == 1 && j == 10 {
                    assert(r.handlers@[i].name@ == "kv_set"@);
                    assert(r.handlers@[j].name@ == "events_health_check"@);
                    assert("kv_set"@.len() != "events_health_check"@.len());
                }
                if i == 1 && j == 11 {
                    assert(r.handlers@[i].name@ == "kv_set"@);
                    assert(r.handlers@[j].name@ == "integration_register"@);
                    assert("kv_set"@.len() != "integration_register"@.len());
                }
                if i == 1 && j == 12 {
                    assert(r.handlers@[i].name@ == "kv_set"@);
                    assert(r.handlers@[j].name@ == "integration_connect"@);
                    assert("kv_set"@.len() != "integration_connect"@.len());
                }
                if i == 1 && j == 13 {
                    assert(r.handlers@[i].name@ == "kv_set"@);
                    assert(r.handlers@[j].name@ == "integration_list"@);
                    assert("kv_set"@.len() != "integration_list"@.len());
                }
                if i == 1 && j == 14 {
                    assert(r.handlers@[i].name@ == "kv_set"@);
                    assert(r.handlers@[j].name@ == "integration_disconnect"@);
                    assert("kv_set"@.len() != "integration_disconnect"@.len());
                }
                if i == 1 && j == 15 {
                    assert(r.handlers@[i].name@ == "kv_set"@);
                    assert(r.handlers@[j].name@ == "integration_test"@);
                    assert("kv_set"@.len() != "integration_test"@.len());
                }
                if i == 1 && j == 16 {
                    assert(r.handlers@[i].name@ == "kv_set"@);
                    assert(r.handlers@[j].name@ == "mcp_proxy"@);
                    assert("kv_set"@.len() != "mcp_proxy"@.len());
                }
                if i == 1 && j == 17 {
                    assert(r.handlers@[i].name@ == "kv_set"@);
                    assert(r.handlers@[j].name@ == "mcp_list_tools"@);
                    assert("kv_set"@.len() != "mcp_list_tools"@.len());
                }
                if i == 2 && j == 3 {
                    assert(r.handlers@[i].name@ == "artifacts_get"@);
                    assert(r.handlers@[j].name@ == "artifacts_put"@);
                    assert("artifacts_get"@[10] != "artifacts_put"@[10]);
                }
                if i == 2 && j == 4 {
                    assert(r.handlers@[i].name@ == "artifacts_get"@);
                    assert(r.handlers@[j].name@ == "artifacts_list"@);
                    assert("artifacts_get"@.len() != "artifacts_list"@.len());
                }
                if i == 2 && j == 5 {
                    assert(r.handlers@[i].name@ == "artifacts_get"@);
                    assert(r.handlers@[j].name@ == "events_send"@);
                    assert("artifacts_get"@.len() != "events_send"@.len());
                }
                if i == 2 && j == 6 {
                    assert(r.handlers@[i].name@ == "artifacts_get"@);
                    assert(r.handlers@[j].name@ == "events_query"@);
                    assert("artifacts_get"@.len() != "events_query"@.len());
                }
                if i == 2 && j == 7 {
                    assert(r.handlers@[i].name@ == "artifacts_get"@);
                    assert(r.handlers@[j].name@ == "events_analytics"@);
                    assert("artifacts_get"@.len() != "events_analytics"@.len());
                }
                if i == 2 && j == 8 {
                    assert(r.handlers@[i].name@ == "artifacts_get"@);
                    assert(r.handlers@[j].name@ == "events_create_rule"@);
                    assert("artifacts_get"@.len() != "events_create_rule"@.len());
                }
                if i == 2 && j == 9 {
                    assert(r.handlers@[i].name@ == "artifacts_get"@);
                    assert(r.handlers@[j].name@ == "events_create_alert"@);
                    assert("artifacts_get"@.len() != "events_create_alert"@.len());
                }
                if i == 2 && j == 10 {
                    assert(r.handlers@[i].name@ == "artifacts_get"@);
                    assert(r.handlers@[j].name@ == "events_health_check"@);
                    assert("artifacts_get"@.len() != "events_health_check"@.len());
                }
                if i == 2 && j == 11 {
                    assert(r.handlers@[i].name@ == "artifacts_get"@);
                    assert(r.handlers@[j].name@ == "integration_register"@);
                    assert("artifacts_get"@.len() != "integration_register"@.len());
                }
                if i == 2 && j == 12 {
                    assert(r.handlers@[i].name@ == "artifacts_get"@);
                    assert(r.handlers@[j].name@ == "integration_connect"@);
                    assert("artifacts_get"@.len() != "integration_connect"@.len());
                }
                if i == 2 && j == 13 {
                    assert(r.handlers@[i].name@ == "artifacts_get"@);
                    assert(r.handlers@[j].name@ == "integration_list"@);
                    assert("artifacts_get"@.len() != "integration_list"@.len());
                }
                if i == 2 && j == 14 {
                    assert(r.handlers@[i].name@ == "artifacts_get"@);
                    assert(r.handlers@[j].name@ == "integration_disconnect"@);
                    assert("artifacts_get"@.len() != "integration_disconnect"@.len());
                }
                if i == 2 && j == 15 {
                    assert(r.handlers@[i].name@ == "artifacts_get"@);
                    assert(r.handlers@[j].name@ == "integration_test"@);
                    assert("artifacts_get"@.len() != "integration_test"@.len());
                }
                if i == 2 && j == 16 {
                    assert(r.handlers@[i].name@ == "artifacts_get"@);
                    assert(r.handlers@[j].name@ == "mcp_proxy"@);
                    assert("artifacts_get"@.len() != "mcp_proxy"@.len());
                }
                if i == 2 && j == 17 {
                    assert(r.handlers@[i].name@ == "artifacts_get"@);
                    assert(r.handlers@[j].name@ == "mcp_list_tools"@);
                    assert("artifacts_get"@.len() != "mcp_list_tools"@.len());
                }
                if i == 3 && j == 4 {
                    assert(r.handlers@[i].name@ == "artifacts_put"@);
                    assert(r.handlers@[j].name@ == "artifacts_list"@);
                    assert("artifacts_put"@.len() != "artifacts_list"@.len());
                }
                if i == 3 && j == 5 {
                    assert(r.handlers@[i].name@ == "artifacts_put"@);
                    assert(r.handlers@[j].name@ == "events_send"@);
                    assert("artifacts_put"@.len() != "events_send"@.len());
                }
                if i == 3 && j == 6 {
                    assert(r.handlers@[i].name@ == "artifacts_put"@);
                    assert(r.handlers@[j].name@ == "events_query"@);
                    assert("artifacts_put"@.len() != "events_query"@.len());
                }
                if i == 3 && j == 7 {
                    assert(r.handlers@[i].name@ == "artifacts_put"@);
                    assert(r.handlers@[j].name@ == "events_analytics"@);
                    assert("artifacts_put"@.len() != "events_analytics"@.len());
                }
                if i == 3 && j == 8 {
                    assert(r.handlers@[i].name@ == "artifacts_put"@);
                    assert(r.handlers@[j].name@ == "events_create_rule"@);
                    assert("artifacts_put"@.len() != "events_create_rule"@.len());
                }
                if i == 3 && j == 9 {
                    assert(r.handlers@[i].name@ == "artifacts_put"@);
                    assert(r.handlers@[j].name@ == "events_create_alert"@);
                    assert("artifacts_put"@.len() != "events_create_alert"@.len());
                }
                if i == 3 && j == 10 {
                    assert(r.handlers@[i].name@ == "artifacts_put"@);
                    assert(r.handlers@[j].name@ == "events_health_check"@);
                    assert("artifacts_put"@.len() != "events_health_check"@.len());
                }
                if i == 3 && j == 11 {
                    assert(r.handlers@[i].name@ == "artifacts_put"@);
                    assert(r.handlers@[j].name@ == "integration_register"@);
                    assert("artifacts_put"@.len() != "integration_register"@.len());
                }
                if i == 3 && j == 12 {
                    assert(r.handlers@[i].name@ == "artifacts_put"@);
                    assert(r.handlers@[j].name@ == "integration_connect"@);
                    assert("artifacts_put"@.len() != "integration_connect"@.len());
                }
                if i == 3 && j == 13 {
                    assert(r.handlers@[i].name@ == "artifacts_put"@);
                    assert(r.handlers@[j].name@ == "integration_list"@);
                    assert("artifacts_put"@.len() != "integration_list"@.len());
                }
                if i == 3 && j == 14 {
                    assert(r.handlers@[i].name@ == "artifacts_put"@);
                    assert(r.handlers@[j].name@ == "integration_disconnect"@);
                    assert("artifacts_put"@.len() != "integration_disconnect"@.len());
                }
                if i == 3 && j == 15 {
                    assert(r.handlers@[i].name@ == "artifacts_put"@);
                    assert(r.handlers@[j].name@ == "integration_test"@);
                    assert("artifacts_put"@.len() != "integration_test"@.len());
                }
                if i == 3 && j == 16 {
                    assert(r.handlers@[i].name@ == "artifacts_put"@);
                    assert(r.handlers@[j].name@ == "mcp_proxy"@);
                    assert("artifacts_put"@.len() != "mcp_proxy"@.len());
                }
                if i == 3 && j == 17 {
                    assert(r.handlers@[i].name@ == "artifacts_put"@);
                    assert(r.handlers@[j].name@ == "mcp_list_tools"@);
                    assert("artifacts_put"@.len() != "mcp_list_tools"@.len());
                }
                if i == 4 && j == 5 {
                    assert(r.handlers@[i].name@ == "artifacts_list"@);
                    assert(r.handlers@[j].name@ == "events_send"@);
                    assert("artifacts_list"@.len() != "events_send"@.len());
                }
                if i == 4 && j == 6 {
                    assert(r.handlers@[i].name@ == "artifacts_list"@);
                    assert(r.handlers@[j].name@ == "events_query"@);
                    assert("artifacts_list"@.len() != "events_query"@.len());
                }
                if i == 4 && j == 7 {
                    assert(r.handlers@[i].name@ == "artifacts_list"@);
                    assert(r.handlers@[j].name@ == "events_analytics"@);
                    assert("artifacts_list"@.len() != "events_analytics"@.len());
                }
                if i == 4 && j == 8 {
                    assert(r.handlers@[i].name@ == "artifacts_list"@);
                    assert(r.handlers@[j].name@ == "events_create_rule"@);
                    assert("artifacts_list"@.len() != "events_create_rule"@.len());
                }
                if i == 4 && j == 9 {
                    assert(r.handlers@[i].name@ == "artifacts_list"@);
                    assert(r.handlers@[j].name@ == "events_create_alert"@);
                    assert("artifacts_list"@.len() != "events_create_alert"@.len());
                }
                if i == 4 && j == 10 {
                    assert(r.handlers@[i].name@ == "artifacts_list"@);
                    assert(r.handlers@[j].name@ == "events_health_check"@);
                    assert("artifacts_list"@.len() != "events_health_check"@.len());
                }
                if i == 4 && j == 11 {
                    assert(r.handlers@[i].name@ == "artifacts_list"@);
                    assert(r.handlers@[j].name@ == "integration_register"@);
                    assert("artifacts_list"@.len() != "integration_register"@.len());
                }
                if i == 4 && j == 12 {
                    assert(r.handlers@[i].name@ == "artifacts_list"@);
                    assert(r.handlers@[j].name@ == "integration_connect"@);
                    assert("artifacts_list"@.len() != "integration_connect"@.len());
                }
                if i == 4 && j == 13 {
                    assert(r.handlers@[i].name@ == "artifacts_list"@);
                    assert(r.handlers@[j].name@ == "integration_list"@);
                    assert("artifacts_list"@.len() != "integration_list"@.len());
                }
                if i == 4 && j == 14 {
                    assert(r.handlers@[i].name@ == "artifacts_list"@);
                    assert(r.handlers@[j].name@ == "integration_disconnect"@);
                    assert("artifacts_list"@.len() != "integration_disconnect"@.len());
                }
                if i == 4 && j == 15 {
                    assert(r.handlers@[i].name@ == "artifacts_list"@);
                    assert(r.handlers@[j].name@ == "integration_test"@);
                    assert("artifacts_list"@.len() != "integration_test"@.len());
                }
                if i == 4 && j == 16 {
                    assert(r.handlers@[i].name@ == "artifacts_list"@);
                    assert(r.handlers@[j].name@ == "mcp_proxy"@);
                    assert("artifacts_list"@.len() != "mcp_proxy"@.len());
                }
                if i == 4 && j == 17 {
                    assert(r.handlers@[i].name@ == "artifacts_list"@);
                    assert(r.handlers@[j].name@ == "mcp_list_tools"@);
                    assert("artifacts_list"@[0] != "mcp_list_tools"@[0]);
                }
                if i == 5 && j == 6 {
                    assert(r.handlers@[i].name@ == "events_send"@);
                    assert(r.handlers@[j].name@ == "events_query"@);
                    assert("events_send"@.len() != "events_query"@.len());
                }
                if i == 5 && j == 7 {
                    assert(r.handlers@[i].name@ == "events_send"@);
                    assert(r.handlers@[j].name@ == "events_analytics"@);
                    assert("events_send"@.len() != "events_analytics"@.len());
                }
                if i == 5 && j == 8 {
                    assert(r.handlers@[i].name@ == "events_send"@);
                    assert(r.handlers@[j].name@ == "events_create_rule"@);
                    assert("events_send"@.len() != "events_create_rule"@.len());
                }
                if i == 5 && j == 9 {
                    assert(r.handlers@[i].name@ == "events_send"@);
                    assert(r.handlers@[j].name@ == "events_create_alert"@);
                    assert("events_send"@.len() != "events_create_alert"@.len());
                }
                if i == 5 && j == 10 {
                    assert(r.handlers@[i].name@ == "events_send"@);
                    assert(r.handlers@[j].name@ == "events_health_check"@);
                    assert("events_send"@.len() != "events_health_check"@.len());
                }
                if i == 5 && j == 11 {
                    assert(r.handlers@[i].name@ == "events_send"@);
                    assert(r.handlers@[j].name@ == "integration_register"@);
                    assert("events_send"@.len() != "integration_register"@.len());
                }
                if i == 5 && j == 12 {
                    assert(r.handlers@[i].name@ == "events_send"@);
                    assert(r.handlers@[j].name@ == "integration_connect"@);
                    assert("events_send"@.len() != "integration_connect"@.len());
                }
                if i == 5 && j == 13 {
                    assert(r.handlers@[i].name@ == "events_send"@);
                    assert(r.handlers@[j].name@ == "integration_list"@);
                    assert("events_send"@.len() != "integration_list"@.len());
                }
                if i == 5 && j == 14 {
                    assert(r.handlers@[i].name@ == "events_send"@);
                    assert(r.handlers@[j].name@ == "integration_disconnect"@);
                    assert("events_send"@.len() != "integration_disconnect"@.len());
                }
                if i == 5 && j == 15 {
                    assert(r.handlers@[i].name@ == "events_send"@);
                    assert(r.handlers@[j].name@ == "integration_test"@);
                    assert("events_send"@.len() != "integration_test"@.len());
                }
                if i == 5 && j == 16 {
                    assert(r.handlers@[i].name@ == "events_send"@);
                    assert(r.handlers@[j].name@ == "mcp_proxy"@);
                    assert("events_send"@.len() != "mcp_proxy"@.len());
                }
                if i == 5 && j == 17 {
                    assert(r.handlers@[i].name@ == "events_send"@);
                    assert(r.handlers@[j].name@ == "mcp_list_tools"@);
                    assert("events_send"@.len() != "mcp_list_tools"@.len());
                }
                if i == 6 && j == 7 {
                    assert(r.handlers@[i].name@ == "events_query"@);
                    assert(r.handlers@[j].name@ == "events_analytics"@);
                    assert("events_query"@.len() != "events_analytics"@.len());
                }
                if i == 6 && j == 8 {
                    assert(r.handlers@[i].name@ == "events_query"@);
                    assert(r.handlers@[j].name@ == "events_create_rule"@);
                    assert("events_query"@.len() != "events_create_rule"@.len());
                }
                if i == 6 && j == 9 {
                    assert(r.handlers@[i].name@ == "events_query"@);
                    assert(r.handlers@[j].name@ == "events_create_alert"@);
                    assert("events_query"@.len() != "events_create_alert"@.len());
                }
                if i == 6 && j == 10 {
                    assert(r.handlers@[i].name@ == "events_query"@);
                    assert(r.handlers@[j].name@ == "events_health_check"@);
                    assert("events_query"@.len() != "events_health_check"@.len());
                }
                if i == 6 && j == 11 {
                    assert(r.handlers@[i].name@ == "events_query"@);
                    assert(r.handlers@[j].name@ == "integration_register"@);
                    assert("events_query"@.len() != "integration_register"@.len());
                }
                if i == 6 && j == 12 {
                    assert(r.handlers@[i].name@ == "events_query"@);
                    assert(r.handlers@[j].name@ == "integration_connect"@);
                    assert("events_query"@.len() != "integration_connect"@.len());
                }
                if i == 6 && j == 13 {
                    assert(r.handlers@[i].name@ == "events_query"@);
                    assert(r.handlers@[j].name@ == "integration_list"@);
                    assert("events_query"@.len() != "integration_list"@.len());
                }
                if i == 6 && j == 14 {
                    assert(r.handlers@[i].name@ == "events_query"@);
                    assert(r.handlers@[j].name@ == "integration_disconnect"@);
                    assert("events_query"@.len() != "integration_disconnect"@.len());
                }
                if i == 6 && j == 15 {
                    assert(r.handlers@[i].name@ == "events_query"@);
                    assert(r.handlers@[j].name@ == "integration_test"@);
                    assert("events_query"@.len() != "integration_test"@.len());
                }
                if i == 6 && j == 16 {
                    assert(r.handlers@[i].name@ == "events_query"@);
                    assert(r.handlers@[j].name@ == "mcp_proxy"@);
                    assert("events_query"@.len() != "mcp_proxy"@.len());
                }
                if i == 6 && j == 17 {
                    assert(r.handlers@[i].name@ == "events_query"@);
                    assert(r.handlers@[j].name@ == "mcp_list_tools"@);
                    assert("events_query"@.len() != "mcp_list_tools"@.len());
                }
                if i == 7 && j == 8 {
                    assert(r.handlers@[i].name@ == "events_analytics"@);
                    assert(r.handlers@[j].name@ == "events_create_rule"@);
                    assert("events_analytics"@.len() != "events_create_rule"@.len());
                }
                if i == 7 && j == 9 {
                    assert(r.handlers@[i].name@ == "events_analytics"@);
                    assert(r.handlers@[j].name@ == "events_create_alert"@);
                    assert("events_analytics"@.len() != "events_create_alert"@.len());
                }
                if i == 7 && j == 10 {
                    assert(r.handlers@[i].name@ == "events_analytics"@);
                    assert(r.handlers@[j].name@ == "events_health_check"@);
                    assert("events_analytics"@.len() != "events_health_check"@.len());
                }
                if i == 7 && j == 11 {
                    assert(r.handlers@[i].name@ == "events_analytics"@);
                    assert(r.handlers@[j].name@ == "integration_register"@);
                    assert("events_analytics"@.len() != "integration_register"@.len());
                }
                if i == 7 && j == 12 {
                    assert(r.handlers@[i].name@ == "events_analytics"@);
                    assert(r.handlers@[j].name@ == "integration_connect"@);
                    assert("events_analytics"@.len() != "integration_connect"@.len());
                }
                if i == 7 && j == 13 {
                    assert(r.handlers@[i].name@ == "events_analytics"@);
                    assert(r.handlers@[j].name@ == "integration_list"@);
                    assert("events_analytics"@[0] != "integration_list"@[0]);
                }
                if i == 7 && j == 14 {
                    assert(r.handlers@[i].name@ == "events_analytics"@);
                    assert(r.handlers@[j].name@ == "integration_disconnect"@);
                    assert("events_analytics"@.len() != "integration_disconnect"@.len());
                }
                if i == 7 && j == 15 {
                    assert(r.handlers@[i].name@ == "events_analytics"@);
                    assert(r.handlers@[j].name@ == "integration_test"@);
                    assert("events_analytics"@[0] != "integration_test"@[0]);
                }
                if i == 7 && j == 16 {
                    assert(r.handlers@[i].name@ == "events_analytics"@);
                    assert(r.handlers@[j].name@ == "mcp_proxy"@);
                    assert("events_analytics"@.len() != "mcp_proxy"@.len());
                }
                if i == 7 && j == 17 {
                    assert(r.handlers@[i].name@ == "events_analytics"@);
                    assert(r.handlers@[j].name@ == "mcp_list_tools"@);
                    assert("events_analytics"@.len() != "mcp_list_tools"@.len());
                }
                if i == 8 && j == 9 {
                    assert(r.handlers@[i].name@ == "events_create_rule"@);
                    assert(r.handlers@[j].name@ == "events_create_alert"@);
                    assert("events_create_rule"@.len() != "events_create_alert"@.len());
                }
                if i == 8 && j == 10 {
                    assert(r.handlers@[i].name@ == "events_create_rule"@);
                    assert(r.handlers@[j].name@ == "events_health_check"@);
                    assert("events_create_rule"@.len() != "events_health_check"@.len());
                }
                if i == 8 && j == 11 {
                    assert(r.handlers@[i].name@ == "events_create_rule"@);
                    assert(r.handlers@[j].name@ == "integration_register"@);
                    assert("events_create_rule"@.len() != "integration_register"@.len());
                }
                if i == 8 && j == 12 {
                    assert(r.handlers@[i].name@ == "events_create_rule"@);
                    assert(r.handlers@[j].name@ == "integration_connect"@);
                    assert("events_create_rule"@.len() != "integration_connect"@.len());
                }
                if i == 8 && j == 13 {
                    assert(r.handlers@[i].name@ == "events_create_rule"@);
                    assert(r.handlers@[j].name@ == "integration_list"@);
                    assert("events_create_rule"@.len() != "integration_list"@.len());
                }
                if i == 8 && j == 14 {
                    assert(r.handlers@[i].name@ == "events_create_rule"@);
                    assert(r.handlers@[j].name@ == "integration_disconnect"@);
                    assert("events_create_rule"@.len() != "integration_disconnect"@.len());
                }
                if i == 8 && j == 15 {
                    assert(r.handlers@[i].name@ == "events_create_rule"@);
                    assert(r.handlers@[j].name@ == "integration_test"@);
                    assert("events_create_rule"@.len() != "integration_test"@.len());
                }
                if i == 8 && j == 16 {
                    assert(r.handlers@[i].name@ == "events_create_rule"@);
                    assert(r.handlers@[j].name@ == "mcp_proxy"@);
                    assert("events_create_rule"@.len() != "mcp_proxy"@.len());
                }
                if i == 8 && j == 17 {
                    assert(r.handlers@[i].name@ == "events_create_rule"@);
                    assert(r.handlers@[j].name@ == "mcp_list_tools"@);
                    assert("events_create_rule"@.len() != "mcp_list_tools"@.len());
                }
                if i == 9 && j == 10 {
                    assert(r.handlers@[i].name@ == "events_create_alert"@);
                    assert(r.handlers@[j].name@ == "events_health_check"@);
                    assert("events_create_alert"@[7] != "events_health_check"@[7]);
                }
                if i == 9 && j == 11 {
                    assert(r.handlers@[i].name@ == "events_create_alert"@);
                    assert(r.handlers@[j].name@ == "integration_register"@);
                    assert("events_create_alert"@.len() != "integration_register"@.len());
                }
                if i == 9 && j == 12 {
                    assert(r.handlers@[i].name@ == "events_create_alert"@);
                    assert(r.handlers@[j].name@ == "integration_connect"@);
                    assert("events_create_alert"@[0] != "integration_connect"@[0]);
                }
                if i == 9 && j == 13 {
                    assert(r.handlers@[i].name@ == "events_create_alert"@);
                    assert(r.handlers@[j].name@ == "integration_list"@);
                    assert("events_create_alert"@.len() != "integration_list"@.len());
                }
                if i == 9 && j == 14 {
                    assert(r.handlers@[i].name@ == "events_create_alert"@);
                    assert(r.handlers@[j].name@ == "integration_disconnect"@);
                    assert("events_create_alert"@.len() != "integration_disconnect"@.len());
                }
                if i == 9 && j == 15 {
                    assert(r.handlers@[i].name@ == "events_create_alert"@);
                    assert(r.handlers@[j].name@ == "integration_test"@);
                    assert("events_create_alert"@.len() != "integration_test"@.len());
                }
                if i == 9 && j == 16 {
                    assert(r.handlers@[i].name@ == "events_create_alert"@);
                    assert(r.handlers@[j].name@ == "mcp_proxy"@);
                    assert("events_create_alert"@.len() != "mcp_proxy"@.len());
                }
                if i == 9 && j == 17 {
                    assert(r.handlers@[i].name@ == "events_create_alert"@);
                    assert(r.handlers@[j].name@ == "mcp_list_tools"@);
                    assert("events_create_alert"@.len() != "mcp_list_tools"@.len());
                }
                if i == 10 && j == 11 {
                    assert(r.handlers@[i].name@ == "events_health_check"@);
                    assert(r.handlers@[j].name@ == "integration_register"@);
                    assert("events_health_check"@.len() != "integration_register"@.len());
                }
                if i == 10 && j == 12 {
                    assert(r.handlers@[i].name@ == "events_health_check"@);
                    assert(r.handlers@[j].name@ == "integration_connect"@);
                    assert("events_health_check"@[0] != "integration_connect"@[0]);
                }
                if i == 10 && j == 13 {
                    assert(r.handlers@[i].name@ == "events_health_check"@);
                    assert(r.handlers@[j].name@ == "integration_list"@);
                    assert("events_health_check"@.len() != "integration_list"@.len());
                }
                if i == 10 && j == 14 {
                    assert(r.handlers@[i].name@ == "events_health_check"@);
                    assert(r.handlers@[j].name@ == "integration_disconnect"@);
                    assert("events_health_check"@.len() != "integration_disconnect"@.len());
                }
                if i == 10 && j == 15 {
                    assert(r.handlers@[i].name@ == "events_health_check"@);
                    assert(r.handlers@[j].name@ == "integration_test"@);
                    assert("events_health_check"@.len() != "integration_test"@.len());
                }
                if i == 10 && j == 16 {
                    assert(r.handlers@[i].name@ == "events_health_check"@);
                    assert(r.handlers@[j].name@ == "mcp_proxy"@);
                    assert("events_health_check"@.len() != "mcp_proxy"@.len());
                }
                if i == 10 && j == 17 {
                    assert(r.handlers@[i].name@ == "events_health_check"@);
                    assert(r.handlers@[j].name@ == "mcp_list_tools"@);
                    assert("events_health_check"@.len() != "mcp_list_tools"@.len());
                }
                if i == 11 && j == 12 {
                    assert(r.handlers@[i].name@ == "integration_register"@);
                    assert(r.handlers@[j].name@ == "integration_connect"@);
                    assert("integration_register"@.len() != "integration_connect"@.len());
                }
                if i == 11 && j == 13 {
                    assert(r.handlers@[i].name@ == "integration_register"@);
                    assert(r.handlers@[j].name@ == "integration_list"@);
                    assert("integration_register"@.len() != "integration_list"@.len());
                }
                if i == 11 && j == 14 {
                    assert(r.handlers@[i].name@ == "integration_register"@);
                    assert(r.handlers@[j].name@ == "integration_disconnect"@);
                    assert("integration_register"@.len() != "integration_disconnect"@.len());
                }
                if i == 11 && j == 15 {
                    assert(r.handlers@[i].name@ == "integration_register"@);
                    assert(r.handlers@[j].name@ == "integration_test"@);
                    assert("integration_register"@.len() != "integration_test"@.len());
                }
                if i == 11 && j == 16 {
                    assert(r.handlers@[i].name@ == "integration_register"@);
                    assert(r.handlers@[j].name@ == "mcp_proxy"@);
                    assert("integration_register"@.len() != "mcp_proxy"@.len());
                }
                if i == 11 && j == 17 {
                    assert(r.handlers@[i].name@ == "integration_register"@);
                    assert(r.handlers@[j].name@ == "mcp_list_tools"@);
                    assert("integration_register"@.len() != "mcp_list_tools"@.len());
                }
                if i == 12 && j == 13 {
                    assert(r.handlers@[i].name@ == "integration_connect"@);
                    assert(r.handlers@[j].name@ == "integration_list"@);
                    assert("integration_connect"@.len() != "integration_list"@.len());
                }
                if i == 12 && j == 14 {
                    assert(r.handlers@[i].name@ == "integration_connect"@);
                    assert(r.handlers@[j].name@ == "integration_disconnect"@);
                    assert("integration_connect"@.len() != "integration_disconnect"@.len());
                }
                if i == 12 && j == 15 {
                    assert(r.handlers@[i].name@ == "integration_connect"@);
                    assert(r.handlers@[j].name@ == "integration_test"@);
                    assert("integration_connect"@.len() != "integration_test"@.len());
                }
                if i == 12 && j == 16 {
                    assert(r.handlers@[i].name@ == "integration_connect"@);
                    assert(r.handlers@[j].name@ == "mcp_proxy"@);
                    assert("integration_connect"@.len() != "mcp_proxy"@.len());
                }
                if i == 12 && j == 17 {
                    assert(r.handlers@[i].name@ == "integration_connect"@);
                    assert(r.handlers@[j].name@ == "mcp_list_tools"@);
                    assert("integration_connect"@.len() != "mcp_list_tools"@.len());
                }
                if i == 13 && j == 14 {
                    assert(r.handlers@[i].name@ == "integration_list"@);
                    assert(r.handlers@[j].name@ == "integration_disconnect"@);
                    assert("integration_list"@.len() != "integration_disconnect"@.len());
                }
                if i == 13 && j == 15 {
                    assert(r.handlers@[i].name@ == "integration_list"@);
                    assert(r.handlers@[j].name@ == "integration_test"@);
                    assert("integration_list"@[12] != "integration_test"@[12]);
                }
                if i == 13 && j == 16 {
                    assert(r.handlers@[i].name@ == "integration_list"@);
                    assert(r.handlers@[j].name@ == "mcp_proxy"@);
                    assert("integration_list"@.len() != "mcp_proxy"@.len());
                }
                if i == 13 && j == 17 {
                    assert(r.handlers@[i].name@ == "integration_list"@);
                    assert(r.handlers@[j].name@ == "mcp_list_tools"@);
                    assert("integration_list"@.len() != "mcp_list_tools"@.len());
                }
                if i == 14 && j == 15 {
                    assert(r.handlers@[i].name@ == "integration_disconnect"@);
                    assert(r.handlers@[j].name@ == "integration_test"@);
                    assert("integration_disconnect"@.len() != "integration_test"@.len());
                }
                if i == 14 && j == 16 {
                    assert(r.handlers@[i].name@ == "integration_disconnect"@);
                    assert(r.handlers@[j].name@ == "mcp_proxy"@);
                    assert("integration_disconnect"@.len() != "mcp_proxy"@.len());
                }
                if i == 14 && j == 17 {
                    assert(r.handlers@[i].name@ == "integration_disconnect"@);
                    assert(r.handlers@[j].name@ == "mcp_list_tools"@);
                    assert("integration_disconnect"@.len() != "mcp_list_tools"@.len());
                }
                if i == 15 && j == 16 {
                    assert(r.handlers@[i].name@ == "integration_test"@);
                    assert(r.handlers@[j].name@ == "mcp_proxy"@);
                    assert("integration_test"@.len() != "mcp_proxy"@.len());
                }
                if i == 15 && j == 17 {
                    assert(r.handlers@[i].name@ == "integration_test"@);
                    assert(r.handlers@[j].name@ == "mcp_list_tools"@);
                    assert("integration_test"@.len() != "mcp_list_tools"@.len());
                }
                if i == 16 && j == 17 {
                    assert(r.handlers@[i].name@ == "mcp_proxy"@);
                    assert(r.handlers@[j].name@ == "mcp_list_tools"@);
                    assert("mcp_proxy"@.len() != "mcp_list_tools"@.len());
                }
            }
        }
        r
    }

    /// Whether the table gives a tool this required permission.
    pub open spec fn spec_perm_of(&self, name: Seq<char>) -> Option<Option<Permission>> {
        match handler_of(self.handlers@, name) {
            Some(h) => Some(h.required_permission),
            None => None,
        }
    }

    /// Gate a call: unknown tools are not-found; tools whose permission
    /// the session lacks are permission-denied.
    pub fn check_access(&self, session: &TenantSession, tool_name: &str) -> (r: Result<
        (),
        HandlerError,
    >)
        ensures
            match handler_of(self.handlers@, tool_name@) {
                None => r matches Err(e) && e is NotFound,
                Some(h) => match h.required_permission {
                    Some(p) => if spec_has_permission(session.context, p) {
                        r is Ok
                    } else {
                        r matches Err(e) && (e matches HandlerError::PermissionDenied(q) && q == p)
                    },
                    None => r is Ok,
                },
            },
    {
        let n: usize = self.handlers.len();
        let mut i: usize = 0;
        while i < n
            invariant
                0 <= i <= n,
                n == self.handlers@.len(),
                forall|x: int| 0 <= x < i ==> (#[trigger] self.handlers@[x]).name@ != tool_name@,
            decreases n - i,
        {
            if crate::json::str_eq(self.handlers[i].name.as_str(), tool_name) {
                proof {
                    lemma_handler_of_found(self.handlers@, i as int, tool_name@);
                }
                match &self.handlers[i].required_permission {
                    Some(p) => {
                        if session.has_permission(p) {
                            return Ok(());
                        } else {
                            return Err(HandlerError::PermissionDenied(*p));
                        }
                    },
                    None => {
                        return Ok(());
                    },
                }
            }
            i = i + 1;
        }
        proof {
            lemma_handler_of_absent(self.handlers@, tool_name@);
        }
        Err(HandlerError::NotFound(String::from_str(tool_name)))
    }

    /// The schemas a session may see, each with its `name` filled in.
    pub fn list_tools(&self, session: &TenantSession) -> (r: Vec<Json>)
        ensures
            r@.len() == spec_listed(self.handlers@, session.context).len(),
            forall|i: int|
                0 <= i < r@.len() ==> spec_get((#[trigger] r@[i])@, "name"@) == Some(
                    JVal::Str(spec_listed(self.handlers@, session.context)[i].name@),
                ),
            forall|i: int, k: Seq<char>|
                0 <= i < r@.len() && k != "name"@ ==> #[trigger] spec_get((r@[i])@, k)
                    == spec_get(spec_listed(self.handlers@, session.context)[i].schema@, k),
    {
        let ghost ctx = session.context;
        let ghost pred = |h: HandlerEntry| spec_permitted(h, ctx);
        let ghost hs = self.handlers@;
        let n: usize = self.handlers.len();
        let mut out: Vec<Json> = Vec::new();
        let mut i: usize = 0;
        proof {
            reveal(Seq::filter);
            assert(hs.take(0) =~= Seq::<HandlerEntry>::empty());
            assert(out@.len() == hs.take(0).filter(pred).len());
        }
        while i < n
            invariant
                0 <= i <= n,
                n == hs.len(),
                hs == self.handlers@,
                ctx == session.context,
                pred == (|h: HandlerEntry| spec_permitted(h, ctx)),
                out@.len() == hs.take(i as int).filter(pred).len(),
                forall|k: int|
                    0 <= k < out@.len() ==> spec_get((#[trigger] out@[k])@, "name"@) == Some(
                        JVal::Str(hs.take(i as int).filter(pred)[k].name@),
                    ),
                forall|k: int, key: Seq<char>|
                    0 <= k < out@.len() && key != "name"@ ==> #[trigger] spec_get(
                        (out@[k])@,
                        key,
                    ) == spec_get(hs.take(i as int).filter(pred)[k].schema@, key),
            decreases n - i,
        {
            let entry = &self.handlers[i];
            let permitted = match &entry.required_permission {
                Some(p) => session.has_permission(p),
                None => true,
            };
            proof {
                reveal(Seq::filter);
                assert(hs.take(i + 1).drop_last() =~= hs.take(i as int));
                assert(hs.take(i + 1).last() == hs[i as int]);
            }
            if permitted {
                proof {
                    assert(pred(hs[i as int]));
                    assert(hs.take(i + 1).filter(pred) == hs.take(i as int).filter(pred).push(
                        hs[i as int],
                    ));
                }
                let with_name = attach_name(&entry.schema, entry.name.as_str());
                out.push(with_name);
            } else {
                proof {
                    assert(!pred(hs[i as int]));
                    assert(hs.take(i + 1).filter(pred) == hs.take(i as int).filter(pred));
                }
            }
            i = i + 1;
        }
        proof {
            assert(hs.take(n as int) =~= hs);
        }
        out
    }
}

/// The schema with a `name` member at the front; every other member
/// reads as it does in the stored schema.
fn attach_name(schema: &Json, name: &str) -> (r: Json)
    ensures
        spec_get(r@, "name"@) == Some(JVal::Str(name@)),
        forall|k: Seq<char>| k != "name"@ ==> #[trigger] spec_get(r@, k) == spec_get(schema@, k),
{
    let cloned = crate::json::clone_json(schema);
    match cloned {
        Json::Obj(mut m) => {
            let t = (str_to_chars("name"), Json::str_of(name));
            let ghost g = t;
            let ghost pre = m@;
            m.insert(0, t);
            proof {
                assert(m@ == pre.insert(0, g));
                assert(m@ =~= seq![g] + pre);
                assert(m@[0] == g);
                crate::json::lemma_view_json_members(m@);
                crate::json::lemma_view_json_members(pre);
                assert(view_json_members(m@)[0] == (m@[0].0@, crate::json::view_json(m@[0].1)));
                assert(m@[0].0@ == "name"@);
                assert(crate::json::view_json(m@[0].1) == JVal::Str(name@));
            }
            let r = Json::Obj(m);
            proof {
                assert(crate::json::obj_lookup(view_json_members(m@), "name"@) == Some(
                    JVal::Str(name@),
                ));
                assert(view_json_members(m@).drop_first() =~= view_json_members(pre)) by {
                    assert forall|x: int|
                        0 <= x < view_json_members(m@).drop_first().len() implies view_json_members(
                        m@,
                    ).drop_first()[x] == view_json_members(pre)[x] by {
                        assert(view_json_members(m@)[x + 1] == (m@[x + 1].0@,
                        crate::json::view_json(m@[x + 1].1)));
                        assert(m@[x + 1] == pre[x]);
                        assert(view_json_members(pre)[x] == (pre[x].0@, crate::json::view_json(
                            pre[x].1,
                        )));
                    }
                }
                assert forall|k: Seq<char>| k != "name"@ implies #[trigger] spec_get(r@, k)
                    == spec_get(schema@, k) by {
                    assert(crate::json::obj_lookup(view_json_members(m@), k)
                        == crate::json::obj_lookup(view_json_members(m@).drop_first(), k));
                }
            }
            r
        },
        _ => {
            proof {
                assert(!(schema@ is Obj));
            }
            let r = obj1("name", Json::str_of(name));
            proof {
                assert forall|k: Seq<char>| k != "name"@ implies #[trigger] spec_get(r@, k)
                    == spec_get(schema@, k) by {
                    let m1 = r@->Obj_0;
                    assert(m1.len() == 1);
                    assert(m1[0].0 == "name"@);
                    assert(crate::json::obj_lookup(m1, k) == crate::json::obj_lookup(
                        m1.drop_first(),
                        k,
                    ));
                    assert(m1.drop_first() =~= Seq::<(Seq<char>, JVal)>::empty());
                    assert(crate::json::obj_lookup(m1.drop_first(), k) is None);
                    assert(spec_get(schema@, k) is None);
                }
            }
            r
        },
    }
}

/// Every tool a session was shown resolves for that session: looking its
/// name up finds an entry whose permission the session holds, so a call
/// cannot be refused as not-found or permission-denied.
pub proof fn lemma_listed_tool_resolves(
    hs: Seq<HandlerEntry>,
    ctx: crate::tenant::TenantContext,
    i: int,
)
    requires
        forall|x: int, y: int|
            0 <= x < y < hs.len() ==> (#[trigger] hs[x]).name@ != (#[trigger] hs[y]).name@,
        0 <= i < spec_listed(hs, ctx).len(),
    ensures
        handler_of(hs, spec_listed(hs, ctx)[i].name@) matches Some(g) && spec_permitted(g, ctx),
{
    let pred = |h: HandlerEntry| spec_permitted(h, ctx);
    let h = spec_listed(hs, ctx)[i];
    crate::rate_limiting::lemma_filter_mem(hs, pred, i);
    assert(pred(h)) by {
        hs.lemma_filter_pred(pred, i);
    }
    let w = choose|w: int| 0 <= w < hs.len() && hs[w] == h;
    assert forall|x: int| 0 <= x < w implies (#[trigger] hs[x]).name@ != h.name@ by {
        assert(hs[x].name@ != hs[w].name@);
    }
    lemma_handler_of_found(hs, w, h.name@);
}

proof fn lemma_handler_of_found(s: Seq<HandlerEntry>, i: int, name: Seq<char>)
    requires
        0 <= i < s.len(),
        s[i].name@ == name,
        forall|x: int| 0 <= x < i ==> (#[trigger] s[x]).name@ != name,
    ensures
        handler_of(s, name) == Some(s[i]),
    decreases i,
{
    if i > 0 {
        assert(s[0].name@ != name);
        assert(s.drop_first()[i - 1] == s[i]);
        assert forall|x: int| 0 <= x < i - 1 implies (#[trigger] s.drop_first()[x]).name@
            != name by {
            assert(s.drop_first()[x] == s[x + 1]);
        }
        lemma_handler_of_found(s.drop_first(), i - 1, name);
    }
}

proof fn lemma_handler_of_absent(s: Seq<HandlerEntry>, name: Seq<char>)
    requires
        forall|x: int| 0 <= x < s.len() ==> (#[trigger] s[x]).name@ != name,
    ensures
        handler_of(s, name) is None,
    decreases s.len(),
{
    if s.len() > 0 {
        assert forall|x: int|
            0 <= x < s.drop_first().len() implies (#[trigger] s.drop_first()[x]).name@ != name by {
            assert(s.drop_first()[x] == s[x + 1]);
        }
        lemma_handler_of_absent(s.drop_first(), name);
    }
}

} // verus!