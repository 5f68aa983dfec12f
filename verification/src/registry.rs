//! The sub-server supervisor: per-tenant registration, connection state,
//! credential-bearing environments, and tool forwarding for child JSON-RPC
//! servers.
//!
//! The supervisor decides; the caller performs the process and container
//! work and reports the outcome back. Every table operation says exactly
//! which entry changed and that every other entry stayed as it was.
use vstd::prelude::*;

use crate::json::{view_json_members, view_json_seq, JVal, Json};
use crate::tenant::TenantSession;

verus! {

#[derive(Debug)]
pub struct MCPServerConfig {
    pub id: String,
    pub name: String,
    pub description: String,
    pub server_type: MCPServerType,
    pub deployment: DeploymentConfig,
    pub env: Vec<(String, String)>,
    pub auth_method: AuthMethod,
    pub capabilities: Vec<String>,
    pub health_check_interval_secs: u64,
    pub auto_reconnect: bool,
}

#[derive(Clone, Copy, PartialEq, Eq, Structural, Debug)]
pub enum MCPServerType {
    Stdio,
    Http,
    WebSocket,
}

#[derive(Debug)]
pub enum DeploymentConfig {
    Docker {
        image: String,
        tag: String,
        ports: Vec<String>,
        volumes: Vec<String>,
        network: Option<String>,
        runtime: Option<String>,
    },
    Process { command: String, args: Vec<String> },
    Lambda { function_name: String, region: String },
}

#[derive(Debug)]
pub enum AuthMethod {
    NoAuth,
    ApiKey { key_field: String },
    OAuth2 { client_id: String, client_secret: String },
    Basic { username: String, password: String },
}

#[derive(Debug)]
pub struct MCPTool {
    pub name: String,
    pub description: String,
    pub input_schema: Json,
}

#[derive(Debug)]
pub enum ConnectionStatus {
    Disconnected,
    Connecting,
    Connected,
    Failed(String),
}

/// One supervised sub-server: its configuration and live state. The real
/// child-process handle lives with the caller; `process_attached` says
/// whether one is held.
#[derive(Debug)]
pub struct MCPServerConnection {
    pub config: MCPServerConfig,
    pub process_attached: bool,
    pub container_id: Option<String>,
    pub endpoint: Option<String>,
    pub status: ConnectionStatus,
    pub last_health_check_ms: u64,
    pub tools: Vec<MCPTool>,
}

#[derive(Debug)]
pub struct MCPServerInfo {
    pub id: String,
    pub name: String,
    pub description: String,
    pub status: String,
    pub tool_count: usize,
}

#[derive(Debug)]
pub enum RegistryError {
    ServerNotFound(String),
    ServerNotConnected(String),
    ToolNotFound(String),
    ConnectionFailed(String),
    UnsupportedServerType(String),
    StorageError(String),
    SerializationError(String),
}

/// A key-value write the caller must persist in durable storage.
#[derive(Debug)]
pub struct KvWrite {
    pub key: String,
    pub value: String,
}

/// What the caller must do to tear a sub-server down.
#[derive(Debug)]
pub struct DisconnectActions {
    pub kill_process: bool,
    pub stop_container: Option<String>,
}

/// How the caller must start a sub-server.
#[derive(Debug)]
pub enum StartAction {
    /// Spawn the command with piped standard streams and the planned
    /// environment.
    SpawnProcess { command: String, args: Vec<String> },
    /// Ask the container runtime to run with exactly these arguments.
    StartContainer { container_name: String, docker_args: Vec<String> },
    /// Nothing runs locally: only the endpoint is recorded.
    RecordEndpoint { endpoint: String },
}

/// The decision `plan_connect` hands back.
#[derive(Debug)]
pub struct ConnectPlan {
    pub env: Vec<(String, String)>,
    pub action: StartAction,
}

/// What the caller obtained by performing the start action.
#[derive(Debug)]
pub enum ConnectHandle {
    ChildProcess,
    Container(String),
    Endpoint(String),
}

/// First connection bound to `key`, if any.
pub open spec fn conn_of(s: Seq<(String, MCPServerConnection)>, key: Seq<char>) -> Option<
    MCPServerConnection,
>
    decreases s.len(),
{
    if s.len() == 0 {
        None
    } else if s[0].0@ == key {
        Some(s[0].1)
    } else {
        conn_of(s.drop_first(), key)
    }
}

/// The table key of a tenant's server: `{tenant}-{server}`.
pub open spec fn spec_server_key(tenant_id: Seq<char>, server_id: Seq<char>) -> Seq<char> {
    tenant_id + "-"@ + server_id
}

/// The reserved container name: `mcp-{tenant}-{server}`.
pub open spec fn spec_container_name(tenant_id: Seq<char>, server_id: Seq<char>) -> Seq<char> {
    "mcp-"@ + tenant_id + "-"@ + server_id
}

fn make_server_key(tenant_id: &str, server_id: &str) -> (r: String)
    ensures
        r@ == spec_server_key(tenant_id@, server_id@),
{
    let mut s = String::from_str(tenant_id);
    s.append("-");
    s.append(server_id);
    proof {
        assert(s@ =~= spec_server_key(tenant_id@, server_id@));
    }
    s
}

/// The container name a deployment runs under.
pub fn make_container_name(tenant_id: &str, server_id: &str) -> (r: String)
    ensures
        r@ == spec_container_name(tenant_id@, server_id@),
{
    let mut s = String::from_str("mcp-");
    s.append(tenant_id);
    s.append("-");
    s.append(server_id);
    proof {
        assert(s@ =~= spec_container_name(tenant_id@, server_id@));
    }
    s
}

/// Whether a tool named `name` is advertised.
pub open spec fn spec_has_tool(tools: Seq<MCPTool>, name: Seq<char>) -> bool {
    exists|i: int| 0 <= i < tools.len() && (#[trigger] tools[i]).name@ == name
}

/// `d` is `c` torn down: no handle, no endpoint, no tools, and status
/// `Disconnected`; configuration and health stamp kept.
pub open spec fn spec_cleared(d: MCPServerConnection, c: MCPServerConnection) -> bool {
    &&& d.config == c.config
    &&& !d.process_attached
    &&& d.container_id is None
    &&& d.endpoint is None
    &&& d.status is Disconnected
    &&& d.last_health_check_ms == c.last_health_check_ms
    &&& d.tools@.len() == 0
}

/// Disconnecting is idempotent: clearing an entry that a disconnect
/// already cleared leaves every observable field as the first disconnect
/// left it.
pub proof fn lemma_disconnect_idempotent(
    c: MCPServerConnection,
    d: MCPServerConnection,
    e: MCPServerConnection,
)
    requires
        spec_cleared(d, c),
        spec_cleared(e, d),
    ensures
        spec_cleared(e, c),
        e.config == d.config,
        e.process_attached == d.process_attached,
        e.container_id == d.container_id,
        e.endpoint == d.endpoint,
        e.status is Disconnected && d.status is Disconnected,
        e.last_health_check_ms == d.last_health_check_ms,
        e.tools@ =~= d.tools@,
{
    assert(e.container_id == d.container_id);
}

/// Tear one connection down in place.
fn clear_connection(c: &mut MCPServerConnection)
    ensures
        spec_cleared(*final(c), *old(c)),
        final(c).config == old(c).config,
{
    c.process_attached = false;
    c.container_id = None;
    c.endpoint = None;
    c.status = ConnectionStatus::Disconnected;
    c.tools.truncate(0);
    proof {
        assert(c.tools@ =~= old(c).tools@.take(0));
    }
}

/// The supervisor table.
pub struct MCPServerRegistry {
    pub servers: Vec<(String, MCPServerConnection)>,
}

impl MCPServerRegistry {
    /// Keys are distinct.
    pub open spec fn wf(&self) -> bool {
        forall|i: int, j: int|
            0 <= i < j < self.servers@.len() ==> (#[trigger] self.servers@[i]).0@ != (
            #[trigger] self.servers@[j]).0@
    }

    pub fn new() -> (r: Self)
        ensures
            r.servers@.len() == 0,
            r.wf(),
    {
        MCPServerRegistry { servers: Vec::new() }
    }

    /// Record a server for a tenant, and hand back the durable
    /// registration write. The key's entry — fresh or re-registered — is
    /// a `Disconnected` record carrying the given configuration, with no
    /// handle and no tools; registration does not start the server.
    pub fn register_server(&mut self, tenant_id: &str, config: MCPServerConfig) -> (r: Result<
        KvWrite,
        RegistryError,
    >)
        requires
            old(self).wf(),
        ensures
            final(self).wf(),
            r is Ok,
            ({
                let key = spec_server_key(tenant_id@, config.id@);
                &&& (conn_of(final(self).servers@, key) matches Some(d) && d.config == config
                    && !d.process_attached && d.container_id is None && d.endpoint is None
                    && d.status is Disconnected && d.tools@.len() == 0)
                &&& forall|k2: Seq<char>|
                    k2 != key ==> #[trigger] conn_of(final(self).servers@, k2) == conn_of(
                        old(self).servers@,
                        k2,
                    )
                &&& (conn_of(old(self).servers@, key) is Some ==> final(self).servers@.len()
                    == old(self).servers@.len())
                &&& (conn_of(old(self).servers@, key) is None ==> final(self).servers@.len()
                    == old(self).servers@.len() + 1)
            }),
            r matches Ok(w) ==> w.key@ == "mcp-registry-"@ + tenant_id@ + "-"@ + config.id@
                && w.value@ == crate::json::jtext(spec_config_jval(config)),
    {
        let write_key = {
            let mut s = String::from_str("mcp-registry-");
            s.append(tenant_id);
            s.append("-");
            s.append(config.id.as_str());
            proof {
                assert(s@ =~= "mcp-registry-"@ + tenant_id@ + "-"@ + config.id@);
            }
            s
        };
        let value_json = config_to_json(&config);
        let value = value_json.to_text();
        let key = make_server_key(tenant_id, config.id.as_str());
        let ghost key_v = key@;
        let n: usize = self.servers.len();
        let mut i: usize = 0;
        while i < n
            invariant
                0 <= i <= n,
                *self == *old(self),
                old(self).wf(),
                n == self.servers@.len(),
                forall|x: int| 0 <= x < i ==> (#[trigger] self.servers@[x]).0@ != key_v,
                key@ == key_v,
                key_v == spec_server_key(tenant_id@, config.id@),
                write_key@ == "mcp-registry-"@ + tenant_id@ + "-"@ + config.id@,
                value@ == crate::json::jtext(spec_config_jval(config)),
            decreases n - i,
        {
            if self.servers[i].0.eq(&key) {
                let ghost pre = self.servers@;
                proof {
                    lemma_conn_of_found(pre, i as int, key_v);
                }
                // re-registration replaces the entry with a fresh record
                self.servers[i].1 = MCPServerConnection {
                    config,
                    process_attached: false,
                    container_id: None,
                    endpoint: None,
                    status: ConnectionStatus::Disconnected,
                    last_health_check_ms: 0,
                    tools: Vec::new(),
                };
                proof {
                    let d = self.servers@[i as int].1;
                    assert(self.servers@ =~= pre.update(i as int, (pre[i as int].0, d)));
                    lemma_conn_of_update(pre, i as int, (pre[i as int].0, d));
                    lemma_conn_of_found(self.servers@, i as int, key_v);
                    assert forall|x: int, y: int|
                        0 <= x < y < self.servers@.len() implies (
                    #[trigger] self.servers@[x]).0@ != (#[trigger] self.servers@[y]).0@ by {
                        assert(self.servers@[x].0@ == pre[x].0@);
                        assert(self.servers@[y].0@ == pre[y].0@);
                    }
                }
                return Ok(KvWrite { key: write_key, value });
            }
            i = i + 1;
        }
        proof {
            lemma_conn_of_absent(self.servers@, key_v);
        }
        let connection = MCPServerConnection {
            config,
            process_attached: false,
            container_id: None,
            endpoint: None,
            status: ConnectionStatus::Disconnected,
            last_health_check_ms: 0,
            tools: Vec::new(),
        };
        let ghost pre = self.servers@;
        self.servers.push((key, connection));
        proof {
            lemma_conn_of_push_all(pre, self.servers@.last());
            assert(self.servers@.drop_last() =~= pre);
            assert(self.servers@ =~= pre.push(self.servers@.last()));
            assert forall|x: int, y: int|
                0 <= x < y < self.servers@.len() implies (#[trigger] self.servers@[x]).0@ != (
            #[trigger] self.servers@[y]).0@ by {
                if y < pre.len() {
                    assert(self.servers@[x] == pre[x] && self.servers@[y] == pre[y]);
                } else {
                    assert(self.servers@[x] == pre[x]);
                    assert(self.servers@[y].0@ == key_v);
                }
            }
        }
        Ok(KvWrite { key: write_key, value })
    }

    /// Tear down a tenant's server: report what must be killed or stopped,
    /// clear the entry, and mark it `Disconnected`. A missing entry, or one
    /// already disconnected, succeeds with nothing to do.
    pub fn disconnect_server(&mut self, tenant_id: &str, server_id: &str) -> (r: Result<
        DisconnectActions,
        RegistryError,
    >)
        requires
            old(self).wf(),
        ensures
            final(self).wf(),
            r is Ok,
            ({
                let key = spec_server_key(tenant_id@, server_id@);
                match conn_of(old(self).servers@, key) {
                    None => final(self).servers@ == old(self).servers@ && (r matches Ok(a)
                        ==> !a.kill_process && a.stop_container is None),
                    Some(c) => {
                        &&& (conn_of(final(self).servers@, key) matches Some(d) && spec_cleared(
                            d,
                            c,
                        ))
                        &&& forall|k2: Seq<char>|
                            k2 != key ==> #[trigger] conn_of(final(self).servers@, k2) == conn_of(
                                old(self).servers@,
                                k2,
                            )
                        &&& (r matches Ok(a) ==> {
                            &&& a.kill_process == c.process_attached
                            &&& (c.container_id is Some ==> (a.stop_container matches Some(name)
                                && name@ == spec_container_name(tenant_id@, server_id@)))
                            &&& (c.container_id is None ==> a.stop_container is None)
                        })
                    },
                }
            }),
    {
        let key = make_server_key(tenant_id, server_id);
        let ghost key_v = key@;
        let n: usize = self.servers.len();
        let mut i: usize = 0;
        while i < n
            invariant
                0 <= i <= n,
                *self == *old(self),
                old(self).wf(),
                n == self.servers@.len(),
                forall|x: int| 0 <= x < i ==> (#[trigger] self.servers@[x]).0@ != key_v,
                key@ == key_v,
                key_v == spec_server_key(tenant_id@, server_id@),
            decreases n - i,
        {
            if self.servers[i].0.eq(&key) {
                let ghost pre = self.servers@;
                proof {
                    lemma_conn_of_found(pre, i as int, key_v);
                }
                let kill_process = self.servers[i].1.process_attached;
                let stop_container = if self.servers[i].1.container_id.is_some() {
                    Some(make_container_name(tenant_id, server_id))
                } else {
                    None
                };
                clear_connection(&mut self.servers[i].1);
                proof {
                    let d = self.servers@[i as int].1;
                    assert(spec_cleared(d, pre[i as int].1));
                    assert(self.servers@[i as int].0 == pre[i as int].0);
                    assert(self.servers@ =~= pre.update(i as int, (pre[i as int].0, d)));
                    lemma_conn_of_update(pre, i as int, (pre[i as int].0, d));
                    lemma_conn_of_found(self.servers@, i as int, key_v);
                    assert forall|x: int, y: int|
                        0 <= x < y < self.servers@.len() implies (
                    #[trigger] self.servers@[x]).0@ != (#[trigger] self.servers@[y]).0@ by {
                        assert(self.servers@[x].0@ == pre[x].0@);
                        assert(self.servers@[y].0@ == pre[y].0@);
                    }
                }
                return Ok(DisconnectActions { kill_process, stop_container });
            }
            i = i + 1;
        }
        proof {
            lemma_conn_of_absent(self.servers@, key_v);
        }
        Ok(DisconnectActions { kill_process: false, stop_container: None })
    }

    /// Gate a forwarded tool call: the server must exist, be connected
    /// with a live process, and advertise the tool. On success, the exact
    /// request to write to the child.
    pub fn execute_tool(
        &self,
        tenant_id: &str,
        server_id: &str,
        tool_name: &str,
        arguments: Json,
    ) -> (r: Result<Json, RegistryError>)
        requires
            self.wf(),
        ensures
            ({
                let key = spec_server_key(tenant_id@, server_id@);
                match conn_of(self.servers@, key) {
                    None => r matches Err(e) && e is ServerNotFound,
                    Some(c) => {
                        if !(c.status is Connected) {
                            r matches Err(e) && e is ServerNotConnected
                        } else if !spec_has_tool(c.tools@, tool_name@) {
                            r matches Err(e) && e is ToolNotFound
                        } else if !c.process_attached {
                            r matches Err(e) && e is ServerNotConnected
                        } else {
                            r matches Ok(j) && j@ == spec_forward_request(tool_name@, arguments@)
                        }
                    },
                }
            }),
    {
        let key = make_server_key(tenant_id, server_id);
        let ghost key_v = key@;
        let n: usize = self.servers.len();
        let mut i: usize = 0;
        while i < n
            invariant
                0 <= i <= n,
                self.wf(),
                n == self.servers@.len(),
                forall|x: int| 0 <= x < i ==> (#[trigger] self.servers@[x]).0@ != key_v,
                key@ == key_v,
                key_v == spec_server_key(tenant_id@, server_id@),
            decreases n - i,
        {
            if self.servers[i].0.eq(&key) {
                proof {
                    lemma_conn_of_found(self.servers@, i as int, key_v);
                }
                let conn = &self.servers[i].1;
                if !matches!(conn.status, ConnectionStatus::Connected) {
                    return Err(RegistryError::ServerNotConnected(String::from_str(server_id)));
                }
                let mut found = false;
                let tn: usize = conn.tools.len();
                let mut t: usize = 0;
                while t < tn
                    invariant
                        0 <= t <= tn,
                        tn == conn.tools@.len(),
                        found <==> exists|x: int|
                            0 <= x < t && (#[trigger] conn.tools@[x]).name@ == tool_name@,
                    decreases tn - t,
                {
                    if crate::json::str_eq(conn.tools[t].name.as_str(), tool_name) {
                        found = true;
                    }
                    t = t + 1;
                }
                if !found {
                    return Err(RegistryError::ToolNotFound(String::from_str(tool_name)));
                }
                if !conn.process_attached {
                    return Err(RegistryError::ServerNotConnected(String::from_str(server_id)));
                }
                return Ok(build_forward_request(tool_name, arguments));
            }
            i = i + 1;
        }
        proof {
            lemma_conn_of_absent(self.servers@, key_v);
        }
        Err(RegistryError::ServerNotFound(String::from_str(server_id)))
    }
}

/// The status text shown in listings.
pub open spec fn spec_status_text(s: ConnectionStatus) -> Seq<char> {
    match s {
        ConnectionStatus::Disconnected => "Disconnected"@,
        ConnectionStatus::Connecting => "Connecting"@,
        ConnectionStatus::Connected => "Connected"@,
        ConnectionStatus::Failed(reason) => "Failed("@ + reason@ + ")"@,
    }
}

fn status_text(s: &ConnectionStatus) -> (r: String)
    ensures
        r@ == spec_status_text(*s),
{
    match s {
        ConnectionStatus::Disconnected => String::from_str("Disconnected"),
        ConnectionStatus::Connecting => String::from_str("Connecting"),
        ConnectionStatus::Connected => String::from_str("Connected"),
        ConnectionStatus::Failed(reason) => {
            let mut t = String::from_str("Failed(");
            t.append(reason.as_str());
            t.append(")");
            proof {
                assert(t@ =~= "Failed("@ + reason@ + ")"@);
            }
            t
        },
    }
}

/// Whether a table key belongs to a tenant: it starts with `{tenant}-`.
pub open spec fn spec_key_of_tenant(key: Seq<char>, tenant_id: Seq<char>) -> bool {
    key.len() >= tenant_id.len() + 1 && key.take(tenant_id.len() as int + 1) == tenant_id + "-"@
}

fn key_has_prefix(key: &String, tenant_id: &str) -> (r: bool)
    ensures
        r == spec_key_of_tenant(key@, tenant_id@),
{
    let p = make_server_key(tenant_id, "");
    proof {
        reveal_strlit("");
        reveal_strlit("-");
        assert(""@ =~= Seq::<char>::empty());
        assert(p@ =~= tenant_id@ + "-"@);
    }
    let pn: usize = p.as_str().unicode_len();
    let kn: usize = key.as_str().unicode_len();
    if kn < pn {
        proof {
            assert(!spec_key_of_tenant(key@, tenant_id@));
        }
        false
    } else {
        let ks = key.as_str();
        let ps = p.as_str();
        let mut i: usize = 0;
        while i < pn
            invariant
                0 <= i <= pn,
                pn == p@.len(),
                pn <= kn,
                kn == key@.len(),
                p@ == tenant_id@ + "-"@,
                ks@ == key@,
                ps@ == p@,
                forall|x: int| 0 <= x < i ==> key@[x] == p@[x],
            decreases pn - i,
        {
            if ks.get_char(i) != ps.get_char(i) {
                proof {
                    assert(key@.take(pn as int)[i as int] != p@[i as int]);
                    assert(key@.take(pn as int) != p@);
                }
                return false;
            }
            i = i + 1;
        }
        proof {
            assert(key@.take(pn as int) =~= p@);
            assert((tenant_id@ + "-"@).len() == tenant_id@.len() + 1);
            assert(pn as int == tenant_id@.len() + 1);
            assert(key@.take(tenant_id@.len() as int + 1) == tenant_id@ + "-"@);
            assert(spec_key_of_tenant(key@, tenant_id@));
        }
        true
    }
}

impl MCPServerRegistry {
    /// A listing of one tenant's servers: identity, status text, and how
    /// many tools each has cached.
    pub fn list_servers(&self, tenant_id: &str) -> (r: Result<Vec<MCPServerInfo>, RegistryError>)
        ensures
            r matches Ok(infos) ==> {
                &&& infos@.len() == self.servers@.filter(
                    |e: (String, MCPServerConnection)| spec_key_of_tenant(e.0@, tenant_id@),
                ).len()
                &&& forall|x: int|
                    0 <= x < infos@.len() ==> {
                        let e = self.servers@.filter(
                            |e: (String, MCPServerConnection)|
                                spec_key_of_tenant(e.0@, tenant_id@),
                        )[x];
                        &&& (#[trigger] infos@[x]).id@ == e.1.config.id@
                        &&& infos@[x].name@ == e.1.config.name@
                        &&& infos@[x].description@ == e.1.config.description@
                        &&& infos@[x].status@ == spec_status_text(e.1.status)
                        &&& infos@[x].tool_count == e.1.tools@.len()
                    }
            },
            r is Ok,
    {
        let ghost pred = |e: (String, MCPServerConnection)| spec_key_of_tenant(e.0@, tenant_id@);
        let ghost all = self.servers@;
        let n: usize = self.servers.len();
        let mut out: Vec<MCPServerInfo> = Vec::new();
        let mut i: usize = 0;
        proof {
            reveal(Seq::filter);
            assert(all.take(0) =~= Seq::<(String, MCPServerConnection)>::empty());
            assert(out@.len() == all.take(0).filter(pred).len());
        }
        while i < n
            invariant
                0 <= i <= n,
                n == all.len(),
                all == self.servers@,
                pred == (|e: (String, MCPServerConnection)| spec_key_of_tenant(e.0@, tenant_id@)),
                out@.len() == all.take(i as int).filter(pred).len(),
                forall|x: int|
                    0 <= x < out@.len() ==> {
                        let e = all.take(i as int).filter(pred)[x];
                        &&& (#[trigger] out@[x]).id@ == e.1.config.id@
                        &&& out@[x].name@ == e.1.config.name@
                        &&& out@[x].description@ == e.1.config.description@
                        &&& out@[x].status@ == spec_status_text(e.1.status)
                        &&& out@[x].tool_count == e.1.tools@.len()
                    },
            decreases n - i,
        {
            let matched = key_has_prefix(&self.servers[i].0, tenant_id);
            proof {
                reveal(Seq::filter);
                assert(all.take(i + 1).drop_last() =~= all.take(i as int));
                assert(all.take(i + 1).last() == all[i as int]);
            }
            if matched {
                let conn = &self.servers[i].1;
                let info = MCPServerInfo {
                    id: conn.config.id.clone(),
                    name: conn.config.name.clone(),
                    description: conn.config.description.clone(),
                    status: status_text(&conn.status),
                    tool_count: conn.tools.len(),
                };
                proof {
                    assert(pred(all[i as int]));
                    assert(all.take(i + 1).filter(pred) == all.take(i as int).filter(pred).push(
                        all[i as int],
                    ));
                }
                out.push(info);
            } else {
                proof {
                    assert(!pred(all[i as int]));
                    assert(all.take(i + 1).filter(pred) == all.take(i as int).filter(pred));
                }
            }
            i = i + 1;
        }
        proof {
            assert(all.take(n as int) =~= all);
        }
        Ok(out)
    }

    /// Register under a session's context identifier.
    pub fn register_server_for_context(
        &mut self,
        session: &TenantSession,
        config: MCPServerConfig,
    ) -> (r: Result<KvWrite, RegistryError>)
        requires
            old(self).wf(),
        ensures
            final(self).wf(),
            r is Ok,
            ({
                let key = spec_server_key(session.context.spec_context_id(), config.id@);
                &&& (conn_of(final(self).servers@, key) matches Some(d) && d.config == config
                    && !d.process_attached && d.container_id is None && d.endpoint is None
                    && d.status is Disconnected && d.tools@.len() == 0)
                &&& forall|k2: Seq<char>|
                    k2 != key ==> #[trigger] conn_of(final(self).servers@, k2) == conn_of(
                        old(self).servers@,
                        k2,
                    )
            }),
            r matches Ok(w) ==> w.key@ == "mcp-registry-"@ + session.context.spec_context_id()
                + "-"@ + config.id@ && w.value@ == crate::json::jtext(spec_config_jval(config)),
    {
        let context_id = session.context.get_context_id();
        self.register_server(context_id.as_str(), config)
    }

    /// List under a session's context identifier.
    pub fn list_servers_for_context(&self, session: &TenantSession) -> (r: Result<
        Vec<MCPServerInfo>,
        RegistryError,
    >)
        ensures
            r is Ok,
            r matches Ok(infos) ==> {
                &&& infos@.len() == self.servers@.filter(
                    |e: (String, MCPServerConnection)|
                        spec_key_of_tenant(e.0@, session.context.spec_context_id()),
                ).len()
                &&& forall|x: int|
                    0 <= x < infos@.len() ==> {
                        let e = self.servers@.filter(
                            |e: (String, MCPServerConnection)|
                                spec_key_of_tenant(e.0@, session.context.spec_context_id()),
                        )[x];
                        &&& (#[trigger] infos@[x]).id@ == e.1.config.id@
                        &&& infos@[x].name@ == e.1.config.name@
                        &&& infos@[x].description@ == e.1.config.description@
                        &&& infos@[x].status@ == spec_status_text(e.1.status)
                        &&& infos@[x].tool_count == e.1.tools@.len()
                    }
            },
    {
        let context_id = session.context.get_context_id();
        self.list_servers(context_id.as_str())
    }

    /// Decide how to connect a registered sub-server: refuse unknown
    /// servers and non-stdio transports, mark the entry `Connecting`, and
    /// hand back the environment and start action the caller must perform.
    /// The caller reports what happened through `complete_connect`.
    #[verifier::rlimit(100)]
    #[verifier::spinoff_prover]
    pub fn plan_connect(
        &mut self,
        tenant_id: &str,
        server_id: &str,
        credentials: Option<Vec<(String, String)>>,
        stored_api_key: Option<String>,
        stored_client_id: Option<String>,
        stored_client_secret: Option<String>,
    ) -> (r: Result<ConnectPlan, RegistryError>)
        requires
            old(self).wf(),
        ensures
            final(self).wf(),
            ({
                let key = spec_server_key(tenant_id@, server_id@);
                match conn_of(old(self).servers@, key) {
                    None => r matches Err(e) && e is ServerNotFound && final(self).servers@ == old(
                        self,
                    ).servers@,
                    Some(c) => {
                        if c.config.server_type != MCPServerType::Stdio {
                            r matches Err(e) && e is UnsupportedServerType && final(self).servers@
                                == old(self).servers@
                        } else {
                            &&& r matches Ok(plan) && env_views(plan.env@) == env_views(
                                c.config.env@,
                            ) + (match credentials {
                                Some(cr) => env_views(cr@),
                                None => Seq::empty(),
                            }) + spec_auth_pairs(
                                c.config.auth_method,
                                stored_api_key,
                                stored_client_id,
                                stored_client_secret,
                            )
                            &&& (conn_of(final(self).servers@, key) matches Some(d) && d.status
                                is Connecting && d.config == c.config)
                            &&& (r matches Ok(plan2) ==> match c.config.deployment {
                                DeploymentConfig::Process { command, args } => (
                                plan2.action matches StartAction::SpawnProcess {
                                    command: pc,
                                    args: pa,
                                } && pc == command && pa@ == args@),
                                DeploymentConfig::Docker {
                                    image,
                                    tag,
                                    ports,
                                    volumes,
                                    network,
                                    runtime,
                                } => (plan2.action matches StartAction::StartContainer {
                                    container_name,
                                    docker_args,
                                } && container_name@ == spec_container_name(
                                    tenant_id@,
                                    server_id@,
                                ) && str_views(docker_args@) == spec_docker_args(
                                    spec_container_name(tenant_id@, server_id@),
                                    runtime,
                                    network,
                                    str_views(ports@),
                                    str_views(volumes@),
                                    env_views(plan2.env@),
                                    image@ + ":"@ + tag@,
                                )),
                                DeploymentConfig::Lambda { function_name, region } => (
                                plan2.action matches StartAction::RecordEndpoint { endpoint }
                                    && endpoint@ == "lambda://"@ + region@ + ":"@
                                    + function_name@),
                            })
                            &&& forall|k2: Seq<char>|
                                k2 != key ==> #[trigger] conn_of(final(self).servers@, k2)
                                    == conn_of(old(self).servers@, k2)
                        }
                    },
                }
            }),
    {
        let key = make_server_key(tenant_id, server_id);
        let ghost key_v = key@;
        let n: usize = self.servers.len();
        let mut i: usize = 0;
        while i < n
            invariant
                0 <= i <= n,
                *self == *old(self),
                old(self).wf(),
                n == self.servers@.len(),
                forall|x: int| 0 <= x < i ==> (#[trigger] self.servers@[x]).0@ != key_v,
                key@ == key_v,
                key_v == spec_server_key(tenant_id@, server_id@),
            decreases n - i,
        {
            if self.servers[i].0.eq(&key) {
                let ghost pre = self.servers@;
                proof {
                    lemma_conn_of_found(pre, i as int, key_v);
                }
                if !matches!(self.servers[i].1.config.server_type, MCPServerType::Stdio) {
                    return Err(
                        RegistryError::UnsupportedServerType(String::from_str(server_id)),
                    );
                }
                let env = build_connect_env(
                    &self.servers[i].1.config.env,
                    credentials,
                    &self.servers[i].1.config.auth_method,
                    stored_api_key,
                    stored_client_id,
                    stored_client_secret,
                );
                let action = match &self.servers[i].1.config.deployment {
                    DeploymentConfig::Process { command, args } => {
                        let mut arg_copy: Vec<String> = Vec::new();
                        let an: usize = args.len();
                        let mut a: usize = 0;
                        while a < an
                            invariant
                                0 <= a <= an,
                                an == args@.len(),
                                arg_copy@ == args@.take(a as int),
                            decreases an - a,
                        {
                            arg_copy.push(args[a].clone());
                            proof {
                                assert(arg_copy@ =~= args@.take(a + 1));
                            }
                            a = a + 1;
                        }
                        proof {
                            assert(args@.take(an as int) =~= args@);
                            assert(self.servers@[i as int].1.config.deployment
                                == DeploymentConfig::Process { command: *command, args: *args });
                        }
                        StartAction::SpawnProcess { command: command.clone(), args: arg_copy }
                    },
                    DeploymentConfig::Docker { image, tag, ports, volumes, network, runtime } => {
                        let container_name = make_container_name(tenant_id, server_id);
                        let docker_args = docker_run_args(
                            container_name.as_str(),
                            runtime,
                            network,
                            ports,
                            volumes,
                            &env,
                            image.as_str(),
                            tag.as_str(),
                        );
                        proof {
                            assert(self.servers@[i as int].1.config.deployment
                                == DeploymentConfig::Docker {
                                image: *image,
                                tag: *tag,
                                ports: *ports,
                                volumes: *volumes,
                                network: *network,
                                runtime: *runtime,
                            });
                        }
                        StartAction::StartContainer { container_name, docker_args }
                    },
                    DeploymentConfig::Lambda { function_name, region } => {
                        let mut endpoint = String::from_str("lambda://");
                        endpoint.append(region.as_str());
                        endpoint.append(":");
                        endpoint.append(function_name.as_str());
                        proof {
                            assert(endpoint@ =~= "lambda://"@ + region@ + ":"@ + function_name@);
                            assert(self.servers@[i as int].1.config.deployment
                                == DeploymentConfig::Lambda {
                                function_name: *function_name,
                                region: *region,
                            });
                        }
                        StartAction::RecordEndpoint { endpoint }
                    },
                };
                proof {
                    let c0 = pre[i as int].1;
                    match c0.config.deployment {
                        DeploymentConfig::Process { command: pc0, args: pa0 } => {
                            assert(action matches StartAction::SpawnProcess { command: pc, args: pa }
                                && pc == pc0 && pa@ == pa0@);
                        },
                        DeploymentConfig::Docker {
                            image: im,
                            tag: tg,
                            ports: po,
                            volumes: vo,
                            network: ne,
                            runtime: ru,
                        } => {
                            assert(action matches StartAction::StartContainer {
                                container_name: cn2,
                                docker_args: da2,
                            } && cn2@ == spec_container_name(tenant_id@, server_id@) && str_views(
                                da2@,
                            ) == spec_docker_args(
                                spec_container_name(tenant_id@, server_id@),
                                ru,
                                ne,
                                str_views(po@),
                                str_views(vo@),
                                env_views(env@),
                                im@ + ":"@ + tg@,
                            ));
                        },
                        DeploymentConfig::Lambda { function_name: fne, region: re } => {
                            assert(action matches StartAction::RecordEndpoint { endpoint: ep }
                                && ep@ == "lambda://"@ + re@ + ":"@ + fne@);
                        },
                    }
                }
                self.servers[i].1.status = ConnectionStatus::Connecting;
                proof {
                    let d = self.servers@[i as int].1;
                    assert(self.servers@ =~= pre.update(i as int, (pre[i as int].0, d)));
                    lemma_conn_of_update(pre, i as int, (pre[i as int].0, d));
                    lemma_conn_of_found(self.servers@, i as int, key_v);
                    assert forall|x: int, y: int|
                        0 <= x < y < self.servers@.len() implies (
                    #[trigger] self.servers@[x]).0@ != (#[trigger] self.servers@[y]).0@ by {
                        assert(self.servers@[x].0@ == pre[x].0@);
                        assert(self.servers@[y].0@ == pre[y].0@);
                    }
                }
                return Ok(ConnectPlan { env, action });
            }
            i = i + 1;
        }
        proof {
            lemma_conn_of_absent(self.servers@, key_v);
        }
        Err(RegistryError::ServerNotFound(String::from_str(server_id)))
    }

    /// Record the outcome of the start action: a running child marks the
    /// entry `Connected` with its handle; a failure marks it `Failed` with
    /// the reason.
    pub fn complete_connect(
        &mut self,
        tenant_id: &str,
        server_id: &str,
        outcome: Result<ConnectHandle, String>,
    ) -> (r: Result<(), RegistryError>)
        requires
            old(self).wf(),
        ensures
            final(self).wf(),
            ({
                let key = spec_server_key(tenant_id@, server_id@);
                match conn_of(old(self).servers@, key) {
                    None => r matches Err(e) && e is ServerNotFound && final(self).servers@ == old(
                        self,
                    ).servers@,
                    Some(c) => {
                        &&& (conn_of(final(self).servers@, key) matches Some(d) && d.config
                            == c.config && (match outcome {
                            Ok(ConnectHandle::ChildProcess) => d.status is Connected
                                && d.process_attached && d.container_id is None && d.endpoint
                                is None,
                            Ok(ConnectHandle::Container(cid)) => d.status is Connected && (
                            d.container_id matches Some(stored) && stored@ == cid@)
                                && !d.process_attached && d.endpoint is None,
                            Ok(ConnectHandle::Endpoint(ep)) => d.status is Connected && (
                            d.endpoint matches Some(stored) && stored@ == ep@)
                                && !d.process_attached && d.container_id is None,
                            Err(reason) => (d.status matches ConnectionStatus::Failed(m) && m@
                                == reason@) && !d.process_attached && d.container_id is None
                                && d.endpoint is None,
                        }))
                        &&& (r is Ok)
                        &&& forall|k2: Seq<char>|
                            k2 != key ==> #[trigger] conn_of(final(self).servers@, k2) == conn_of(
                                old(self).servers@,
                                k2,
                            )
                    },
                }
            }),
    {
        let key = make_server_key(tenant_id, server_id);
        let ghost key_v = key@;
        let n: usize = self.servers.len();
        let mut i: usize = 0;
        while i < n
            invariant
                0 <= i <= n,
                *self == *old(self),
                old(self).wf(),
                n == self.servers@.len(),
                forall|x: int| 0 <= x < i ==> (#[trigger] self.servers@[x]).0@ != key_v,
                key@ == key_v,
                key_v == spec_server_key(tenant_id@, server_id@),
            decreases n - i,
        {
            if self.servers[i].0.eq(&key) {
                let ghost pre = self.servers@;
                proof {
                    lemma_conn_of_found(pre, i as int, key_v);
                }
                match outcome {
                    Ok(ConnectHandle::ChildProcess) => {
                        self.servers[i].1.status = ConnectionStatus::Connected;
                        self.servers[i].1.process_attached = true;
                        self.servers[i].1.container_id = None;
                        self.servers[i].1.endpoint = None;
                    },
                    Ok(ConnectHandle::Container(cid)) => {
                        self.servers[i].1.status = ConnectionStatus::Connected;
                        self.servers[i].1.process_attached = false;
                        self.servers[i].1.container_id = Some(cid);
                        self.servers[i].1.endpoint = None;
                    },
                    Ok(ConnectHandle::Endpoint(ep)) => {
                        self.servers[i].1.status = ConnectionStatus::Connected;
                        self.servers[i].1.process_attached = false;
                        self.servers[i].1.container_id = None;
                        self.servers[i].1.endpoint = Some(ep);
                    },
                    Err(reason) => {
                        self.servers[i].1.status = ConnectionStatus::Failed(reason);
                        self.servers[i].1.process_attached = false;
                        self.servers[i].1.container_id = None;
                        self.servers[i].1.endpoint = None;
                    },
                }
                proof {
                    let d = self.servers@[i as int].1;
                    assert(self.servers@ =~= pre.update(i as int, (pre[i as int].0, d)));
                    lemma_conn_of_update(pre, i as int, (pre[i as int].0, d));
                    lemma_conn_of_found(self.servers@, i as int, key_v);
                    assert forall|x: int, y: int|
                        0 <= x < y < self.servers@.len() implies (
                    #[trigger] self.servers@[x]).0@ != (#[trigger] self.servers@[y]).0@ by {
                        assert(self.servers@[x].0@ == pre[x].0@);
                        assert(self.servers@[y].0@ == pre[y].0@);
                    }
                }
                return Ok(());
            }
            i = i + 1;
        }
        proof {
            lemma_conn_of_absent(self.servers@, key_v);
        }
        Err(RegistryError::ServerNotFound(String::from_str(server_id)))
    }

    /// Plan a connect under a session's context identifier, with no
    /// stored credentials.
    pub fn connect_server_for_context(
        &mut self,
        session: &TenantSession,
        server_id: &str,
        credentials: Option<Vec<(String, String)>>,
    ) -> (r: Result<ConnectPlan, RegistryError>)
        requires
            old(self).wf(),
        ensures
            final(self).wf(),
            ({
                let key = spec_server_key(session.context.spec_context_id(), server_id@);
                match conn_of(old(self).servers@, key) {
                    None => r matches Err(e) && e is ServerNotFound && final(self).servers@ == old(
                        self,
                    ).servers@,
                    Some(c) => {
                        if c.config.server_type != MCPServerType::Stdio {
                            r matches Err(e) && e is UnsupportedServerType && final(self).servers@
                                == old(self).servers@
                        } else {
                            &&& r matches Ok(plan) && env_views(plan.env@) == env_views(
                                c.config.env@,
                            ) + (match credentials {
                                Some(cr) => env_views(cr@),
                                None => Seq::empty(),
                            }) + spec_auth_pairs(c.config.auth_method, None, None, None)
                            &&& (conn_of(final(self).servers@, key) matches Some(d) && d.status
                                is Connecting && d.config == c.config)
                            &&& forall|k2: Seq<char>|
                                k2 != key ==> #[trigger] conn_of(final(self).servers@, k2)
                                    == conn_of(old(self).servers@, k2)
                        }
                    },
                }
            }),
    {
        let context_id = session.context.get_context_id();
        self.plan_connect(context_id.as_str(), server_id, credentials, None, None, None)
    }

    /// Store the tool descriptors a sub-server advertised after handshake.
    pub fn set_server_tools(&mut self, tenant_id: &str, server_id: &str, tools: Vec<MCPTool>) -> (r:
        Result<(), RegistryError>)
        requires
            old(self).wf(),
        ensures
            final(self).wf(),
            ({
                let key = spec_server_key(tenant_id@, server_id@);
                match conn_of(old(self).servers@, key) {
                    None => r matches Err(e) && e is ServerNotFound && final(self).servers@ == old(
                        self,
                    ).servers@,
                    Some(c) => {
                        &&& r is Ok
                        &&& (conn_of(final(self).servers@, key) matches Some(d) && d.tools@
                            == tools@ && d.config == c.config && d.status == c.status)
                        &&& forall|k2: Seq<char>|
                            k2 != key ==> #[trigger] conn_of(final(self).servers@, k2) == conn_of(
                                old(self).servers@,
                                k2,
                            )
                    },
                }
            }),
    {
        let key = make_server_key(tenant_id, server_id);
        let ghost key_v = key@;
        let n: usize = self.servers.len();
        let mut i: usize = 0;
        while i < n
            invariant
                0 <= i <= n,
                *self == *old(self),
                old(self).wf(),
                n == self.servers@.len(),
                forall|x: int| 0 <= x < i ==> (#[trigger] self.servers@[x]).0@ != key_v,
                key@ == key_v,
                key_v == spec_server_key(tenant_id@, server_id@),
            decreases n - i,
        {
            if self.servers[i].0.eq(&key) {
                let ghost pre = self.servers@;
                proof {
                    lemma_conn_of_found(pre, i as int, key_v);
                }
                self.servers[i].1.tools = tools;
                proof {
                    let d = self.servers@[i as int].1;
                    assert(self.servers@ =~= pre.update(i as int, (pre[i as int].0, d)));
                    lemma_conn_of_update(pre, i as int, (pre[i as int].0, d));
                    lemma_conn_of_found(self.servers@, i as int, key_v);
                    assert forall|x: int, y: int|
                        0 <= x < y < self.servers@.len() implies (
                    #[trigger] self.servers@[x]).0@ != (#[trigger] self.servers@[y]).0@ by {
                        assert(self.servers@[x].0@ == pre[x].0@);
                        assert(self.servers@[y].0@ == pre[y].0@);
                    }
                }
                return Ok(());
            }
            i = i + 1;
        }
        proof {
            lemma_conn_of_absent(self.servers@, key_v);
        }
        Err(RegistryError::ServerNotFound(String::from_str(server_id)))
    }

    /// Whether the entry at `idx` is due a health probe: it is
    /// `Connected` and its configured interval has elapsed since the last
    /// check.
    pub fn health_due(&self, idx: usize, now_ms: u64) -> (r: bool)
        requires
            idx < self.servers@.len(),
        ensures
            r == ({
                let c = self.servers@[idx as int].1;
                c.status is Connected && (if now_ms >= c.last_health_check_ms {
                    (now_ms - c.last_health_check_ms) / 1000 >= c.config.health_check_interval_secs
                } else {
                    false
                })
            }),
    {
        let c = &self.servers[idx].1;
        if !matches!(c.status, ConnectionStatus::Connected) {
            return false;
        }
        if now_ms < c.last_health_check_ms {
            return false;
        }
        (now_ms - c.last_health_check_ms) / 1000 >= c.config.health_check_interval_secs
    }

    /// Record one health observation: a child that was seen to exit moves
    /// the entry to `Failed` and drops the handle; a live child refreshes
    /// the health stamp.
    pub fn record_health(
        &mut self,
        tenant_id: &str,
        server_id: &str,
        observed_exit: Option<String>,
        now_ms: u64,
    ) -> (r: Result<(), RegistryError>)
        requires
            old(self).wf(),
        ensures
            final(self).wf(),
            ({
                let key = spec_server_key(tenant_id@, server_id@);
                match conn_of(old(self).servers@, key) {
                    None => r matches Err(e) && e is ServerNotFound && final(self).servers@ == old(
                        self,
                    ).servers@,
                    Some(c) => {
                        &&& r is Ok
                        &&& (conn_of(final(self).servers@, key) matches Some(d) && d.config
                            == c.config && (match observed_exit {
                            Some(reason) => d.status matches ConnectionStatus::Failed(m) && m@
                                == reason@ && !d.process_attached,
                            None => d.status == c.status && d.process_attached
                                == c.process_attached && d.last_health_check_ms == now_ms,
                        }))
                        &&& forall|k2: Seq<char>|
                            k2 != key ==> #[trigger] conn_of(final(self).servers@, k2) == conn_of(
                                old(self).servers@,
                                k2,
                            )
                    },
                }
            }),
    {
        let key = make_server_key(tenant_id, server_id);
        let ghost key_v = key@;
        let n: usize = self.servers.len();
        let mut i: usize = 0;
        while i < n
            invariant
                0 <= i <= n,
                *self == *old(self),
                old(self).wf(),
                n == self.servers@.len(),
                forall|x: int| 0 <= x < i ==> (#[trigger] self.servers@[x]).0@ != key_v,
                key@ == key_v,
                key_v == spec_server_key(tenant_id@, server_id@),
            decreases n - i,
        {
            if self.servers[i].0.eq(&key) {
                let ghost pre = self.servers@;
                proof {
                    lemma_conn_of_found(pre, i as int, key_v);
                }
                match observed_exit {
                    Some(reason) => {
                        self.servers[i].1.status = ConnectionStatus::Failed(reason);
                        self.servers[i].1.process_attached = false;
                    },
                    None => {
                        self.servers[i].1.last_health_check_ms = now_ms;
                    },
                }
                proof {
                    let d = self.servers@[i as int].1;
                    assert(self.servers@ =~= pre.update(i as int, (pre[i as int].0, d)));
                    lemma_conn_of_update(pre, i as int, (pre[i as int].0, d));
                    lemma_conn_of_found(self.servers@, i as int, key_v);
                    assert forall|x: int, y: int|
                        0 <= x < y < self.servers@.len() implies (
                    #[trigger] self.servers@[x]).0@ != (#[trigger] self.servers@[y]).0@ by {
                        assert(self.servers@[x].0@ == pre[x].0@);
                        assert(self.servers@[y].0@ == pre[y].0@);
                    }
                }
                return Ok(());
            }
            i = i + 1;
        }
        proof {
            lemma_conn_of_absent(self.servers@, key_v);
        }
        Err(RegistryError::ServerNotFound(String::from_str(server_id)))
    }

    /// The sub-server that serves a proxied tool. A name written
    /// `server.tool` names its server outright; a bare name picks the
    /// first server whose cached tools carry it, and a name no server
    /// carries is refused.
    pub fn find_server_for_tool(&self, tenant_id: &str, tool_name: &str) -> (r: Result<
        String,
        RegistryError,
    >)
        ensures
            spec_dot_prefix(tool_name@) matches Some(p) ==> (r matches Ok(sid) && sid@ == p),
            r matches Ok(sid) ==> (spec_dot_prefix(tool_name@) is None ==> exists|x: int|
                0 <= x < self.servers@.len() && spec_key_of_tenant(
                    (#[trigger] self.servers@[x]).0@,
                    tenant_id@,
                ) && spec_has_tool(self.servers@[x].1.tools@, tool_name@) && sid@
                == self.servers@[x].1.config.id@),
            (spec_dot_prefix(tool_name@) is None && (exists|x: int|
                0 <= x < self.servers@.len() && spec_key_of_tenant(
                    (#[trigger] self.servers@[x]).0@,
                    tenant_id@,
                ) && spec_has_tool(self.servers@[x].1.tools@, tool_name@))) ==> r is Ok,
            (spec_dot_prefix(tool_name@) is None && (forall|x: int|
                0 <= x < self.servers@.len() ==> !(spec_key_of_tenant(
                    (#[trigger] self.servers@[x]).0@,
                    tenant_id@,
                ) && spec_has_tool(self.servers@[x].1.tools@, tool_name@)))) ==> (
            r matches Err(e) && e is ToolNotFound),
    {
        match split_at_dot(tool_name) {
            Some(prefix) => {
                proof {
                    assert(spec_dot_prefix(tool_name@) == Some(prefix@));
                }
                Ok(prefix)
            },
            None => {
                let n: usize = self.servers.len();
                let mut i: usize = 0;
                while i < n
                    invariant
                        0 <= i <= n,
                        n == self.servers@.len(),
                        spec_dot_prefix(tool_name@) is None,
                        forall|x: int|
                            0 <= x < i ==> !(spec_key_of_tenant(
                                (#[trigger] self.servers@[x]).0@,
                                tenant_id@,
                            ) && spec_has_tool(self.servers@[x].1.tools@, tool_name@)),
                    decreases n - i,
                {
                    if key_has_prefix(&self.servers[i].0, tenant_id) {
                        let conn = &self.servers[i].1;
                        let tn: usize = conn.tools.len();
                        let mut t: usize = 0;
                        let mut found = false;
                        while t < tn
                            invariant
                                0 <= t <= tn,
                                tn == conn.tools@.len(),
                                found <==> exists|y: int|
                                    0 <= y < t && (#[trigger] conn.tools@[y]).name@
                                        == tool_name@,
                            decreases tn - t,
                        {
                            if crate::json::str_eq(conn.tools[t].name.as_str(), tool_name) {
                                found = true;
                            }
                            t = t + 1;
                        }
                        if found {
                            proof {
                                assert(spec_key_of_tenant(
                                    self.servers@[i as int].0@,
                                    tenant_id@,
                                ));
                                assert(spec_has_tool(
                                    self.servers@[i as int].1.tools@,
                                    tool_name@,
                                ));
                            }
                            return Ok(conn.config.id.clone());
                        }
                    }
                    i = i + 1;
                }
                Err(RegistryError::ToolNotFound(String::from_str(tool_name)))
            },
        }
    }
}

/// The server prefix of a dotted tool name, if the name holds a dot.
pub open spec fn spec_dot_prefix(name: Seq<char>) -> Option<Seq<char>> {
    if exists|i: int| 0 <= i < name.len() && name[i] == '.' {
        let i = choose|i: int|
            0 <= i < name.len() && name[i] == '.' && (forall|j: int|
                0 <= j < i ==> name[j] != '.');
        Some(name.take(i))
    } else {
        None
    }
}

/// The text before the first dot, if any.
fn split_at_dot(name: &str) -> (r: Option<String>)
    ensures
        r is Some <==> spec_dot_prefix(name@) is Some,
        r matches Some(p) ==> spec_dot_prefix(name@) == Some(p@),
{
    let n: usize = name.unicode_len();
    let mut i: usize = 0;
    while i < n
        invariant
            0 <= i <= n,
            n == name@.len(),
            forall|x: int| 0 <= x < i ==> name@[x] != '.',
        decreases n - i,
    {
        if name.get_char(i) == '.' {
            let mut out: Vec<char> = Vec::new();
            let mut k: usize = 0;
            while k < i
                invariant
                    0 <= k <= i,
                    i < n,
                    n == name@.len(),
                    out@ == name@.take(k as int),
                decreases i - k,
            {
                out.push(name.get_char(k));
                proof {
                    assert(out@ =~= name@.take(k + 1));
                }
                k = k + 1;
            }
            let p = crate::json::chars_to_string(&out);
            proof {
                let w = choose|w: int|
                    0 <= w < name@.len() && name@[w] == '.' && (forall|j: int|
                        0 <= j < w ==> name@[j] != '.');
                assert(name@[i as int] == '.');
                assert(w == i) by {
                    if w < i {
                        assert(name@[w] != '.');
                    }
                    if w > i {
                        assert(name@[i as int] != '.');
                    }
                }
            }
            return Some(p);
        }
        i = i + 1;
    }
    proof {
        if spec_dot_prefix(name@) is Some {
            let w = choose|w: int| 0 <= w < name@.len() && name@[w] == '.';
            assert(name@[w] != '.');
        }
    }
    None
}

/// The `initialize` frame written to a child after it starts.
pub open spec fn spec_initialize_frame() -> JVal {
    JVal::Obj(
        seq![
            ("jsonrpc"@, JVal::Str("2.0"@)),
            ("id"@, JVal::Int(1)),
            ("method"@, JVal::Str("initialize"@)),
            (
                "params"@,
                JVal::Obj(
                    seq![
                        ("protocolVersion"@, JVal::Str("2025-06-18"@)),
                        (
                            "capabilities"@,
                            JVal::Obj(seq![("tools"@, JVal::Obj(Seq::empty()))]),
                        ),
                    ],
                ),
            ),
        ],
    )
}

/// Build the `initialize` frame for a child.
pub fn build_initialize_request() -> (r: Json)
    ensures
        r@ == spec_initialize_frame(),
{
    let tools_empty = Json::Obj(Vec::new());
    proof {
        assert(view_json_members(Seq::<(Vec<char>, Json)>::empty())
            =~= Seq::<(Seq<char>, JVal)>::empty());
    }
    let capabilities = crate::json::obj1("tools", tools_empty);
    let params = crate::json::obj2(
        "protocolVersion",
        Json::str_of("2025-06-18"),
        "capabilities",
        capabilities,
    );
    let r = crate::json::obj4(
        "jsonrpc",
        Json::str_of("2.0"),
        "id",
        Json::Int(1),
        "method",
        Json::str_of("initialize"),
        "params",
        params,
    );
    proof {
        assert(r@->Obj_0 =~= spec_initialize_frame()->Obj_0);
    }
    r
}

/// The `tools/list` frame written to a child after the handshake.
pub open spec fn spec_tools_list_frame() -> JVal {
    JVal::Obj(
        seq![
            ("jsonrpc"@, JVal::Str("2.0"@)),
            ("id"@, JVal::Int(2)),
            ("method"@, JVal::Str("tools/list"@)),
            ("params"@, JVal::Obj(Seq::empty())),
        ],
    )
}

/// Build the `tools/list` frame for a child.
pub fn build_tools_list_request() -> (r: Json)
    ensures
        r@ == spec_tools_list_frame(),
{
    let params = Json::Obj(Vec::new());
    proof {
        assert(view_json_members(Seq::<(Vec<char>, Json)>::empty())
            =~= Seq::<(Seq<char>, JVal)>::empty());
    }
    let r = crate::json::obj4(
        "jsonrpc",
        Json::str_of("2.0"),
        "id",
        Json::Int(2),
        "method",
        Json::str_of("tools/list"),
        "params",
        params,
    );
    proof {
        assert(r@->Obj_0 =~= spec_tools_list_frame()->Obj_0);
    }
    r
}

/// A tool count as a JSON integer, clipped to the signed range.
pub open spec fn spec_count_jint(n: usize) -> int {
    if n > i64::MAX {
        i64::MAX as int
    } else {
        n as int
    }
}

/// Render the sub-server tool summary: each listed server's identifier
/// and tool count, optionally narrowed to one server.
pub fn render_mcp_list_tools(infos: &Vec<MCPServerInfo>, server_id: &Option<String>) -> (r: Json)
    ensures
        ({
            let pred = |info: MCPServerInfo|
                match *server_id {
                    Some(sid) => info.id@ == sid@,
                    None => true,
                };
            &&& r@ is Obj
            &&& (crate::json::spec_get(r@, "tools"@) matches Some(t) && t is Arr && t->Arr_0.len()
                == infos@.filter(pred).len() && (forall|x: int|
                0 <= x < t->Arr_0.len() ==> #[trigger] t->Arr_0[x] == JVal::Obj(
                    seq![
                        ("server_id"@, JVal::Str(infos@.filter(pred)[x].id@)),
                        ("tool_count"@, JVal::Int(spec_count_jint(infos@.filter(pred)[x].tool_count))),
                    ],
                )))
        }),
{
    let ghost pred = |info: MCPServerInfo|
        match *server_id {
            Some(sid) => info.id@ == sid@,
            None => true,
        };
    let ghost all = infos@;
    let n: usize = infos.len();
    let mut elems: Vec<Json> = Vec::new();
    let mut i: usize = 0;
    proof {
        reveal(Seq::filter);
        assert(all.take(0) =~= Seq::<MCPServerInfo>::empty());
        assert(elems@.len() == all.take(0).filter(pred).len());
    }
    while i < n
        invariant
            0 <= i <= n,
            n == all.len(),
            all == infos@,
            pred == (|info: MCPServerInfo|
                match *server_id {
                    Some(sid) => info.id@ == sid@,
                    None => true,
                }),
            elems@.len() == all.take(i as int).filter(pred).len(),
            forall|x: int|
                0 <= x < elems@.len() ==> (#[trigger] elems@[x])@ == JVal::Obj(
                    seq![
                        ("server_id"@, JVal::Str(all.take(i as int).filter(pred)[x].id@)),
                        (
                            "tool_count"@,
                            JVal::Int(spec_count_jint(all.take(i as int).filter(pred)[x].tool_count)),
                        ),
                    ],
                ),
        decreases n - i,
    {
        let keep = match server_id {
            Some(sid) => crate::json::str_eq(infos[i].id.as_str(), sid.as_str()),
            None => true,
        };
        proof {
            reveal(Seq::filter);
            assert(all.take(i + 1).drop_last() =~= all.take(i as int));
            assert(all.take(i + 1).last() == all[i as int]);
        }
        if keep {
            let count: i64 = if infos[i].tool_count as u64 > 0x7fffffffffffffffu64 {
                i64::MAX
            } else {
                infos[i].tool_count as i64
            };
            let item = crate::json::obj2(
                "server_id",
                Json::str_of(infos[i].id.as_str()),
                "tool_count",
                Json::Int(count),
            );
            proof {
                assert(pred(all[i as int]));
                assert(all.take(i + 1).filter(pred) == all.take(i as int).filter(pred).push(
                    all[i as int],
                ));
            }
            elems.push(item);
        } else {
            proof {
                assert(!pred(all[i as int]));
                assert(all.take(i + 1).filter(pred) == all.take(i as int).filter(pred));
            }
        }
        i = i + 1;
    }
    proof {
        assert(all.take(n as int) =~= all);
    }
    let ghost ev = elems@;
    let arr = crate::json::arr_of(elems);
    let r = crate::json::obj1("tools", arr);
    proof {
        crate::json::lemma_view_json_seq(ev);
        assert(crate::json::obj_lookup(r@->Obj_0, "tools"@) == Some(arr@));
        assert forall|x: int|
            0 <= x < view_json_seq(ev).len() implies #[trigger] view_json_seq(ev)[x] == JVal::Obj(
            seq![
                ("server_id"@, JVal::Str(all.filter(pred)[x].id@)),
                ("tool_count"@, JVal::Int(spec_count_jint(all.filter(pred)[x].tool_count))),
            ],
        ) by {
            assert(view_json_seq(ev)[x] == crate::json::view_json(ev[x]));
        }
    }
    r
}

/// The `tools/call` frame forwarded to a child server.
pub open spec fn spec_forward_request(tool_name: Seq<char>, arguments: JVal) -> JVal {
    JVal::Obj(
        seq![
            ("jsonrpc"@, JVal::Str("2.0"@)),
            ("id"@, JVal::Int(3)),
            ("method"@, JVal::Str("tools/call"@)),
            (
                "params"@,
                JVal::Obj(
                    seq![("name"@, JVal::Str(tool_name)), ("arguments"@, arguments)],
                ),
            ),
        ],
    )
}

/// Build the forwarded `tools/call` frame.
pub fn build_forward_request(tool_name: &str, arguments: Json) -> (r: Json)
    ensures
        r@ == spec_forward_request(tool_name@, arguments@),
{
    let ghost args_v = arguments@;
    let params = crate::json::obj2("name", Json::str_of(tool_name), "arguments", arguments);
    let r = crate::json::obj4(
        "jsonrpc",
        Json::str_of("2.0"),
        "id",
        Json::Int(3),
        "method",
        Json::str_of("tools/call"),
        "params",
        params,
    );
    proof {
        assert(r@->Obj_0 =~= spec_forward_request(tool_name@, args_v)->Obj_0);
    }
    r
}

/// The JSON values of a list of strings.
pub open spec fn str_jvals(s: Seq<String>) -> Seq<JVal> {
    s.map_values(|x: String| JVal::Str(x@))
}

/// The JSON members of an environment list.
pub open spec fn env_jmembers(s: Seq<(String, String)>) -> Seq<(Seq<char>, JVal)> {
    s.map_values(|e: (String, String)| (e.0@, JVal::Str(e.1@)))
}

/// An optional string as JSON: the string, or null.
pub open spec fn opt_str_jval(o: Option<String>) -> JVal {
    match o {
        Some(v) => JVal::Str(v@),
        None => JVal::Null,
    }
}

pub open spec fn spec_server_type_text(t: MCPServerType) -> Seq<char> {
    match t {
        MCPServerType::Stdio => "stdio"@,
        MCPServerType::Http => "http"@,
        MCPServerType::WebSocket => "websocket"@,
    }
}

/// The JSON form of a deployment, tagged by its kind.
pub open spec fn spec_deployment_jval(d: DeploymentConfig) -> JVal {
    match d {
        DeploymentConfig::Process { command, args } => JVal::Obj(
            seq![
                (
                    "process"@,
                    JVal::Obj(
                        seq![
                            ("command"@, JVal::Str(command@)),
                            ("args"@, JVal::Arr(str_jvals(args@))),
                        ],
                    ),
                ),
            ],
        ),
        DeploymentConfig::Docker { image, tag, ports, volumes, network, runtime } => JVal::Obj(
            seq![
                (
                    "docker"@,
                    JVal::Obj(
                        seq![
                            ("image"@, JVal::Str(image@)),
                            ("tag"@, JVal::Str(tag@)),
                            ("ports"@, JVal::Arr(str_jvals(ports@))),
                            ("volumes"@, JVal::Arr(str_jvals(volumes@))),
                            ("network"@, opt_str_jval(network)),
                            ("runtime"@, opt_str_jval(runtime)),
                        ],
                    ),
                ),
            ],
        ),
        DeploymentConfig::Lambda { function_name, region } => JVal::Obj(
            seq![
                (
                    "lambda"@,
                    JVal::Obj(
                        seq![
                            ("function_name"@, JVal::Str(function_name@)),
                            ("region"@, JVal::Str(region@)),
                        ],
                    ),
                ),
            ],
        ),
    }
}

/// The JSON form of an authentication method, tagged by its kind.
pub open spec fn spec_auth_jval(a: AuthMethod) -> JVal {
    match a {
        AuthMethod::NoAuth => JVal::Str("none"@),
        AuthMethod::ApiKey { key_field } => JVal::Obj(
            seq![
                (
                    "api_key"@,
                    JVal::Obj(seq![("key_field"@, JVal::Str(key_field@))]),
                ),
            ],
        ),
        AuthMethod::OAuth2 { client_id, client_secret } => JVal::Obj(
            seq![
                (
                    "oauth2"@,
                    JVal::Obj(
                        seq![
                            ("client_id"@, JVal::Str(client_id@)),
                            ("client_secret"@, JVal::Str(client_secret@)),
                        ],
                    ),
                ),
            ],
        ),
        AuthMethod::Basic { username, password } => JVal::Obj(
            seq![
                (
                    "basic"@,
                    JVal::Obj(
                        seq![
                            ("username"@, JVal::Str(username@)),
                            ("password"@, JVal::Str(password@)),
                        ],
                    ),
                ),
            ],
        ),
    }
}

/// The health interval as a JSON integer, clipped to the signed range.
pub open spec fn spec_interval_jint(secs: u64) -> int {
    if secs > i64::MAX {
        i64::MAX as int
    } else {
        secs as int
    }
}

/// The JSON form under which a server configuration is persisted: the
/// whole configuration, so the durable record can reconstruct it.
pub open spec fn spec_config_jval(c: MCPServerConfig) -> JVal {
    JVal::Obj(
        seq![
            ("id"@, JVal::Str(c.id@)),
            ("name"@, JVal::Str(c.name@)),
            ("description"@, JVal::Str(c.description@)),
            ("server_type"@, JVal::Str(spec_server_type_text(c.server_type))),
            ("deployment"@, spec_deployment_jval(c.deployment)),
            ("env"@, JVal::Obj(env_jmembers(c.env@))),
            ("auth_method"@, spec_auth_jval(c.auth_method)),
            ("capabilities"@, JVal::Arr(str_jvals(c.capabilities@))),
            (
                "health_check_interval_secs"@,
                JVal::Int(spec_interval_jint(c.health_check_interval_secs)),
            ),
            ("auto_reconnect"@, JVal::Bool(c.auto_reconnect)),
        ],
    )
}

/// A JSON array of the given strings.
fn str_arr(v: &Vec<String>) -> (r: Json)
    ensures
        r@ == JVal::Arr(str_jvals(v@)),
{
    let n: usize = v.len();
    let mut elems: Vec<Json> = Vec::new();
    let mut i: usize = 0;
    while i < n
        invariant
            0 <= i <= n,
            n == v@.len(),
            elems@.len() == i,
            forall|k: int| 0 <= k < i ==> (#[trigger] elems@[k])@ == JVal::Str(v@[k]@),
        decreases n - i,
    {
        elems.push(Json::str_of(v[i].as_str()));
        i = i + 1;
    }
    let ghost ev = elems@;
    let r = crate::json::arr_of(elems);
    proof {
        crate::json::lemma_view_json_seq(ev);
        assert forall|k: int|
            0 <= k < view_json_seq(ev).len() implies view_json_seq(ev)[k] == str_jvals(v@)[k] by {
            assert(view_json_seq(ev)[k] == crate::json::view_json(ev[k]));
            assert((ev[k])@ == JVal::Str(v@[k]@));
            assert(str_jvals(v@)[k] == JVal::Str(v@[k]@));
        }
        assert(view_json_seq(ev) =~= str_jvals(v@));
    }
    r
}

/// A JSON object of the given environment bindings.
fn env_obj(v: &Vec<(String, String)>) -> (r: Json)
    ensures
        r@ == JVal::Obj(env_jmembers(v@)),
{
    let n: usize = v.len();
    let mut m: Vec<(Vec<char>, Json)> = Vec::new();
    let mut i: usize = 0;
    while i < n
        invariant
            0 <= i <= n,
            n == v@.len(),
            m@.len() == i,
            forall|k: int|
                0 <= k < i ==> (#[trigger] m@[k]).0@ == v@[k].0@ && m@[k].1@ == JVal::Str(
                    v@[k].1@,
                ),
        decreases n - i,
    {
        m.push((crate::json::str_to_chars(v[i].0.as_str()), Json::str_of(v[i].1.as_str())));
        i = i + 1;
    }
    let ghost mv = m@;
    let r = Json::Obj(m);
    proof {
        crate::json::lemma_view_json_members(mv);
        assert forall|k: int|
            0 <= k < view_json_members(mv).len() implies view_json_members(mv)[k] == env_jmembers(
            v@,
        )[k] by {
            assert(view_json_members(mv)[k] == (mv[k].0@, crate::json::view_json(mv[k].1)));
            assert(env_jmembers(v@)[k] == (v@[k].0@, JVal::Str(v@[k].1@)));
        }
        assert(view_json_members(mv) =~= env_jmembers(v@));
    }
    r
}

/// An optional string as a JSON value.
fn opt_str_json(o: &Option<String>) -> (r: Json)
    ensures
        r@ == opt_str_jval(*o),
{
    match o {
        Some(v) => Json::str_of(v.as_str()),
        None => Json::Null,
    }
}

/// Serialize a deployment for durable storage.
fn deployment_to_json(d: &DeploymentConfig) -> (r: Json)
    ensures
        r@ == spec_deployment_jval(*d),
{
    match d {
        DeploymentConfig::Process { command, args } => {
            let inner = crate::json::obj2(
                "command",
                Json::str_of(command.as_str()),
                "args",
                str_arr(args),
            );
            let r = crate::json::obj1("process", inner);
            proof {
                assert(r@->Obj_0 =~= spec_deployment_jval(*d)->Obj_0);
            }
            r
        },
        DeploymentConfig::Docker { image, tag, ports, volumes, network, runtime } => {
            let inner = crate::json::obj6(
                "image",
                Json::str_of(image.as_str()),
                "tag",
                Json::str_of(tag.as_str()),
                "ports",
                str_arr(ports),
                "volumes",
                str_arr(volumes),
                "network",
                opt_str_json(network),
                "runtime",
                opt_str_json(runtime),
            );
            let r = crate::json::obj1("docker", inner);
            proof {
                assert(r@->Obj_0 =~= spec_deployment_jval(*d)->Obj_0);
            }
            r
        },
        DeploymentConfig::Lambda { function_name, region } => {
            let inner = crate::json::obj2(
                "function_name",
                Json::str_of(function_name.as_str()),
                "region",
                Json::str_of(region.as_str()),
            );
            let r = crate::json::obj1("lambda", inner);
            proof {
                assert(r@->Obj_0 =~= spec_deployment_jval(*d)->Obj_0);
            }
            r
        },
    }
}

/// Serialize an authentication method for durable storage.
fn auth_to_json(a: &AuthMethod) -> (r: Json)
    ensures
        r@ == spec_auth_jval(*a),
{
    match a {
        AuthMethod::NoAuth => Json::str_of("none"),
        AuthMethod::ApiKey { key_field } => {
            let inner = crate::json::obj1("key_field", Json::str_of(key_field.as_str()));
            let r = crate::json::obj1("api_key", inner);
            proof {
                assert(r@->Obj_0 =~= spec_auth_jval(*a)->Obj_0);
            }
            r
        },
        AuthMethod::OAuth2 { client_id, client_secret } => {
            let inner = crate::json::obj2(
                "client_id",
                Json::str_of(client_id.as_str()),
                "client_secret",
                Json::str_of(client_secret.as_str()),
            );
            let r = crate::json::obj1("oauth2", inner);
            proof {
                assert(r@->Obj_0 =~= spec_auth_jval(*a)->Obj_0);
            }
            r
        },
        AuthMethod::Basic { username, password } => {
            let inner = crate::json::obj2(
                "username",
                Json::str_of(username.as_str()),
                "password",
                Json::str_of(password.as_str()),
            );
            let r = crate::json::obj1("basic", inner);
            proof {
                assert(r@->Obj_0 =~= spec_auth_jval(*a)->Obj_0);
            }
            r
        },
    }
}

/// Serialize the whole configuration for durable storage.
pub fn config_to_json(c: &MCPServerConfig) -> (r: Json)
    ensures
        r@ == spec_config_jval(*c),
{
    let type_text = match c.server_type {
        MCPServerType::Stdio => "stdio",
        MCPServerType::Http => "http",
        MCPServerType::WebSocket => "websocket",
    };
    let interval: i64 = if c.health_check_interval_secs > 0x7fffffffffffffff {
        i64::MAX
    } else {
        c.health_check_interval_secs as i64
    };
    let t0 = (crate::json::str_to_chars("id"), Json::str_of(c.id.as_str()));
    let ghost g0 = t0;
    let t1 = (crate::json::str_to_chars("name"), Json::str_of(c.name.as_str()));
    let ghost g1 = t1;
    let t2 = (crate::json::str_to_chars("description"), Json::str_of(c.description.as_str()));
    let ghost g2 = t2;
    let t3 = (crate::json::str_to_chars("server_type"), Json::str_of(type_text));
    let ghost g3 = t3;
    let t4 = (crate::json::str_to_chars("deployment"), deployment_to_json(&c.deployment));
    let ghost g4 = t4;
    let t5 = (crate::json::str_to_chars("env"), env_obj(&c.env));
    let ghost g5 = t5;
    let t6 = (crate::json::str_to_chars("auth_method"), auth_to_json(&c.auth_method));
    let ghost g6 = t6;
    let t7 = (crate::json::str_to_chars("capabilities"), str_arr(&c.capabilities));
    let ghost g7 = t7;
    let t8 = (crate::json::str_to_chars("health_check_interval_secs"), Json::Int(interval));
    let ghost g8 = t8;
    let t9 = (crate::json::str_to_chars("auto_reconnect"), Json::Bool(c.auto_reconnect));
    let ghost g9 = t9;
    let mut m: Vec<(Vec<char>, Json)> = Vec::new();
    m.push(t0);
    m.push(t1);
    m.push(t2);
    m.push(t3);
    m.push(t4);
    m.push(t5);
    m.push(t6);
    m.push(t7);
    m.push(t8);
    m.push(t9);
    let r = Json::Obj(m);
    proof {
        crate::json::lemma_view_json_members(m@);
        assert(m@[0] == g0);
        assert(m@[1] == g1);
        assert(m@[2] == g2);
        assert(m@[3] == g3);
        assert(m@[4] == g4);
        assert(m@[5] == g5);
        assert(m@[6] == g6);
        assert(m@[7] == g7);
        assert(m@[8] == g8);
        assert(m@[9] == g9);
        assert(view_json_members(m@) =~= spec_config_jval(*c)->Obj_0);
    }
    r
}

/// The view of an environment list: each binding as character sequences.
pub open spec fn env_views(s: Seq<(String, String)>) -> Seq<(Seq<char>, Seq<char>)> {
    s.map_values(|e: (String, String)| (e.0@, e.1@))
}

pub proof fn lemma_env_views_index(s: Seq<(String, String)>)
    ensures
        env_views(s).len() == s.len(),
        forall|i: int|
            0 <= i < s.len() ==> #[trigger] env_views(s)[i] == (s[i].0@, s[i].1@),
{
}

pub proof fn lemma_str_views_index(s: Seq<String>)
    ensures
        str_views(s).len() == s.len(),
        forall|i: int| 0 <= i < s.len() ==> #[trigger] str_views(s)[i] == s[i]@,
{
}

/// The bindings a connect adds for an authentication method, given what
/// the secret store held. Later bindings override earlier ones.
pub open spec fn spec_auth_pairs(
    auth: AuthMethod,
    stored_api_key: Option<String>,
    stored_client_id: Option<String>,
    stored_client_secret: Option<String>,
) -> Seq<(Seq<char>, Seq<char>)> {
    match auth {
        AuthMethod::NoAuth => Seq::empty(),
        AuthMethod::ApiKey { key_field } => match stored_api_key {
            Some(k) => seq![(key_field@, k@)],
            None => Seq::empty(),
        },
        AuthMethod::OAuth2 { .. } => {
            let a: Seq<(Seq<char>, Seq<char>)> = match stored_client_id {
                Some(v) => seq![("CLIENT_ID"@, v@)],
                None => Seq::empty(),
            };
            let b: Seq<(Seq<char>, Seq<char>)> = match stored_client_secret {
                Some(v) => seq![("CLIENT_SECRET"@, v@)],
                None => Seq::empty(),
            };
            a + b
        },
        AuthMethod::Basic { username, password } => seq![
            ("USERNAME"@, username@),
            ("PASSWORD"@, password@),
        ],
    }
}

/// Build a child's environment: the static configuration, then the
/// per-call credentials, then the stored credentials for the configured
/// authentication method. A consumer that applies bindings in order gives
/// the later ones precedence.
pub fn build_connect_env(
    config_env: &Vec<(String, String)>,
    credentials: Option<Vec<(String, String)>>,
    auth: &AuthMethod,
    stored_api_key: Option<String>,
    stored_client_id: Option<String>,
    stored_client_secret: Option<String>,
) -> (r: Vec<(String, String)>)
    ensures
        env_views(r@) == env_views(config_env@) + (match credentials {
            Some(c) => env_views(c@),
            None => Seq::empty(),
        }) + spec_auth_pairs(*auth, stored_api_key, stored_client_id, stored_client_secret),
{
    let ghost creds_v: Seq<(Seq<char>, Seq<char>)> = match &credentials {
        Some(c) => env_views(c@),
        None => Seq::empty(),
    };
    let ghost auth_v = spec_auth_pairs(*auth, stored_api_key, stored_client_id, stored_client_secret);
    let mut out: Vec<(String, String)> = Vec::new();
    let n: usize = config_env.len();
    for i in 0..n
        invariant
            n == config_env@.len(),
            out@.len() == i,
            forall|k: int|
                0 <= k < i ==> (#[trigger] out@[k]).0@ == config_env@[k].0@ && out@[k].1@
                    == config_env@[k].1@,
    {
        out.push((config_env[i].0.clone(), config_env[i].1.clone()));
    }
    proof {
        lemma_env_views_index(out@);
        lemma_env_views_index(config_env@);
        assert(env_views(out@) =~= env_views(config_env@));
    }
    match credentials {
        Some(c) => {
            let ghost pre = out@;
            let m: usize = c.len();
            let mut j: usize = 0;
            while j < m
                invariant
                    0 <= j <= m,
                    m == c@.len(),
                    out@.len() == pre.len() + j,
                    forall|k: int| 0 <= k < pre.len() ==> #[trigger] out@[k] == pre[k],
                    forall|k: int|
                        pre.len() <= k < out@.len() ==> (#[trigger] out@[k]).0@ == c@[k
                            - pre.len()].0@ && out@[k].1@ == c@[k - pre.len()].1@,
                decreases m - j,
            {
                out.push((c[j].0.clone(), c[j].1.clone()));
                j = j + 1;
            }
            proof {
                lemma_env_views_index(out@);
                lemma_env_views_index(pre);
                lemma_env_views_index(c@);
                assert(env_views(out@) =~= env_views(pre) + env_views(c@));
            }
        },
        None => {
            proof {
                lemma_env_views_index(out@);
                assert(env_views(out@) =~= env_views(out@) + creds_v);
            }
        },
    }
    let ghost mid = out@;
    proof {
        assert(env_views(mid) =~= env_views(config_env@) + creds_v);
    }
    match auth {
        AuthMethod::NoAuth => {
            proof {
                lemma_env_views_index(out@);
                lemma_env_views_index(mid);
                assert(env_views(out@) =~= env_views(mid) + auth_v);
            }
        },
        AuthMethod::ApiKey { key_field } => {
            match stored_api_key {
                Some(k) => {
                    out.push((key_field.clone(), k));
                    proof {
                        lemma_env_views_index(out@);
                        lemma_env_views_index(mid);
                        assert(env_views(out@) =~= env_views(mid) + auth_v);
                    }
                },
                None => {
                    proof {
                        lemma_env_views_index(out@);
                        lemma_env_views_index(mid);
                        assert(env_views(out@) =~= env_views(mid) + auth_v);
                    }
                },
            }
        },
        AuthMethod::OAuth2 { .. } => {
            match stored_client_id {
                Some(v) => {
                    out.push((String::from_str("CLIENT_ID"), v));
                },
                None => {},
            }
            match stored_client_secret {
                Some(v) => {
                    out.push((String::from_str("CLIENT_SECRET"), v));
                },
                None => {},
            }
            proof {
                lemma_env_views_index(out@);
                lemma_env_views_index(mid);
                assert(env_views(out@) =~= env_views(mid) + auth_v);
            }
        },
        AuthMethod::Basic { username, password } => {
            out.push((String::from_str("USERNAME"), username.clone()));
            out.push((String::from_str("PASSWORD"), password.clone()));
            proof {
                lemma_env_views_index(out@);
                lemma_env_views_index(mid);
                assert(env_views(out@) =~= env_views(mid) + auth_v);
            }
        },
    }
    proof {
        lemma_env_views_index(out@);
        lemma_env_views_index(config_env@);
        assert(env_views(out@) =~= env_views(config_env@) + creds_v + auth_v);
    }
    out
}

/// The views of a list of strings.
pub open spec fn str_views(s: Seq<String>) -> Seq<Seq<char>> {
    s.map_values(|e: String| e@)
}

/// A repeated flag: `flag v1 flag v2 ...`.
pub open spec fn spec_flag_pairs(flag: Seq<char>, items: Seq<Seq<char>>) -> Seq<Seq<char>>
    decreases items.len(),
{
    if items.len() == 0 {
        Seq::empty()
    } else {
        seq![flag, items[0]] + spec_flag_pairs(flag, items.drop_first())
    }
}

/// Environment flags: `-e k1=v1 -e k2=v2 ...`.
pub open spec fn spec_env_flags(env: Seq<(Seq<char>, Seq<char>)>) -> Seq<Seq<char>>
    decreases env.len(),
{
    if env.len() == 0 {
        Seq::empty()
    } else {
        seq!["-e"@, env[0].0 + "="@ + env[0].1] + spec_env_flags(env.drop_first())
    }
}

/// The argument list for starting a detached, remove-on-exit container.
pub open spec fn spec_docker_args(
    container_name: Seq<char>,
    runtime: Option<String>,
    network: Option<String>,
    ports: Seq<Seq<char>>,
    volumes: Seq<Seq<char>>,
    env: Seq<(Seq<char>, Seq<char>)>,
    image_tag: Seq<char>,
) -> Seq<Seq<char>> {
    seq!["run"@, "-d"@, "--name"@, container_name, "--rm"@] + (match runtime {
        Some(rt) => seq!["--runtime"@, rt@],
        None => Seq::empty(),
    }) + (match network {
        Some(net) => seq!["--network"@, net@],
        None => Seq::empty(),
    }) + spec_flag_pairs("-p"@, ports) + spec_flag_pairs("-v"@, volumes) + spec_env_flags(env)
        + seq![image_tag]
}

proof fn lemma_flag_pairs_push(flag: Seq<char>, items: Seq<Seq<char>>, x: Seq<char>)
    ensures
        spec_flag_pairs(flag, items.push(x)) == spec_flag_pairs(flag, items) + seq![flag, x],
    decreases items.len(),
{
    if items.len() == 0 {
        let t = items.push(x);
        assert(t.len() == 1);
        assert(t[0] == x);
        assert(t.drop_first() =~= Seq::<Seq<char>>::empty());
        assert(spec_flag_pairs(flag, t.drop_first()) == Seq::<Seq<char>>::empty());
        assert(spec_flag_pairs(flag, t) == seq![flag, t[0]] + spec_flag_pairs(
            flag,
            t.drop_first(),
        ));
        assert(seq![flag, x] + Seq::<Seq<char>>::empty() =~= seq![flag, x]);
        assert(spec_flag_pairs(flag, items) + seq![flag, x] =~= seq![flag, x]);
    } else {
        lemma_flag_pairs_push(flag, items.drop_first(), x);
        assert(items.push(x)[0] == items[0]);
        assert(items.push(x).drop_first() =~= items.drop_first().push(x));
        assert(seq![flag, items[0]] + (spec_flag_pairs(flag, items.drop_first()) + seq![flag, x])
            =~= (seq![flag, items[0]] + spec_flag_pairs(flag, items.drop_first())) + seq![
            flag,
            x,
        ]);
    }
}

proof fn lemma_env_flags_push(env: Seq<(Seq<char>, Seq<char>)>, x: (Seq<char>, Seq<char>))
    ensures
        spec_env_flags(env.push(x)) == spec_env_flags(env) + seq!["-e"@, x.0 + "="@ + x.1],
    decreases env.len(),
{
    if env.len() == 0 {
        let t = env.push(x);
        assert(t.len() == 1);
        assert(t[0] == x);
        assert(t.drop_first() =~= Seq::<(Seq<char>, Seq<char>)>::empty());
        assert(spec_env_flags(t.drop_first()) == Seq::<Seq<char>>::empty());
        assert(spec_env_flags(t) == seq!["-e"@, t[0].0 + "="@ + t[0].1] + spec_env_flags(
            t.drop_first(),
        ));
        assert(seq!["-e"@, x.0 + "="@ + x.1] + Seq::<Seq<char>>::empty() =~= seq![
            "-e"@,
            x.0 + "="@ + x.1,
        ]);
        assert(spec_env_flags(env) + seq!["-e"@, x.0 + "="@ + x.1] =~= seq![
            "-e"@,
            x.0 + "="@ + x.1,
        ]);
    } else {
        lemma_env_flags_push(env.drop_first(), x);
        assert(env.push(x)[0] == env[0]);
        assert(env.push(x).drop_first() =~= env.drop_first().push(x));
        assert(seq!["-e"@, env[0].0 + "="@ + env[0].1] + (spec_env_flags(env.drop_first())
            + seq!["-e"@, x.0 + "="@ + x.1]) =~= (seq!["-e"@, env[0].0 + "="@ + env[0].1]
            + spec_env_flags(env.drop_first())) + seq!["-e"@, x.0 + "="@ + x.1]);
    }
}

/// Build the container-runtime argument list for one deployment: detached,
/// named, removed on exit, with its runtime, network, port, volume and
/// environment bindings, then the image and tag.
pub fn docker_run_args(
    container_name: &str,
    runtime: &Option<String>,
    network: &Option<String>,
    ports: &Vec<String>,
    volumes: &Vec<String>,
    env: &Vec<(String, String)>,
    image: &str,
    tag: &str,
) -> (r: Vec<String>)
    ensures
        str_views(r@) == spec_docker_args(
            container_name@,
            *runtime,
            *network,
            str_views(ports@),
            str_views(volumes@),
            env_views(env@),
            image@ + ":"@ + tag@,
        ),
{
    let mut out: Vec<String> = Vec::new();
    out.push(String::from_str("run"));
    out.push(String::from_str("-d"));
    out.push(String::from_str("--name"));
    out.push(String::from_str(container_name));
    out.push(String::from_str("--rm"));
    let ghost head = seq!["run"@, "-d"@, "--name"@, container_name@, "--rm"@];
    proof {
        lemma_str_views_index(out@);
        assert(str_views(out@) =~= head);
    }
    match runtime {
        Some(rt) => {
            out.push(String::from_str("--runtime"));
            out.push(rt.clone());
        },
        None => {},
    }
    let ghost with_rt = str_views(out@);
    proof {
        lemma_str_views_index(out@);
        assert(with_rt =~= head + (match *runtime {
            Some(rt) => seq!["--runtime"@, rt@],
            None => Seq::<Seq<char>>::empty(),
        }));
    }
    match network {
        Some(net) => {
            out.push(String::from_str("--network"));
            out.push(net.clone());
        },
        None => {},
    }
    let ghost with_net = str_views(out@);
    proof {
        lemma_str_views_index(out@);
        assert(with_net =~= with_rt + (match *network {
            Some(net) => seq!["--network"@, net@],
            None => Seq::<Seq<char>>::empty(),
        }));
    }
    let pn: usize = ports.len();
    let mut i: usize = 0;
    while i < pn
        invariant
            0 <= i <= pn,
            pn == ports@.len(),
            str_views(out@) == with_net + spec_flag_pairs("-p"@, str_views(ports@).take(i as int)),
        decreases pn - i,
    {
        let ghost pre_out = out@;
        let flag_s = String::from_str("-p");
        let port_s = ports[i].clone();
        let ghost flag_g = flag_s;
        let ghost port_g = port_s;
        out.push(flag_s);
        out.push(port_s);
        proof {
            assert(out@ =~= pre_out.push(flag_g).push(port_g));
            lemma_str_views_index(out@);
            lemma_str_views_index(pre_out);
            lemma_str_views_index(ports@);
            lemma_flag_pairs_push(
                "-p"@,
                str_views(ports@).take(i as int),
                str_views(ports@)[i as int],
            );
            assert(str_views(ports@).take(i as int).push(str_views(ports@)[i as int])
                =~= str_views(ports@).take(i + 1));
            let ghost chain = pre_out.push(flag_g).push(port_g);
            assert forall|x: int|
                0 <= x < str_views(out@).len() implies str_views(out@)[x] == (str_views(
                pre_out,
            ).push("-p"@).push(ports@[i as int]@))[x] by {
                assert(str_views(out@)[x] == out@[x]@);
                assert(out@[x] == chain[x]);
                if x < pre_out.len() {
                    assert(chain[x] == pre_out[x]);
                    assert(str_views(pre_out)[x] == pre_out[x]@);
                } else if x == pre_out.len() {
                    assert(chain[x] == flag_g);
                } else {
                    assert(chain[x] == port_g);
                }
            }
            assert(str_views(out@) =~= str_views(pre_out).push("-p"@).push(
                ports@[i as int]@,
            ));
            assert(str_views(pre_out).push("-p"@).push(ports@[i as int]@) =~= with_net + (
            spec_flag_pairs("-p"@, str_views(ports@).take(i as int)) + seq![
                "-p"@,
                ports@[i as int]@,
            ]));
            assert(str_views(out@) =~= with_net + spec_flag_pairs(
                "-p"@,
                str_views(ports@).take(i + 1),
            ));
        }
        i = i + 1;
    }
    let ghost with_ports = str_views(out@);
    proof {
        assert(str_views(ports@).take(pn as int) =~= str_views(ports@));
    }
    let vn: usize = volumes.len();
    let mut j: usize = 0;
    while j < vn
        invariant
            0 <= j <= vn,
            vn == volumes@.len(),
            str_views(out@) == with_ports + spec_flag_pairs(
                "-v"@,
                str_views(volumes@).take(j as int),
            ),
        decreases vn - j,
    {
        let ghost pre_out = out@;
        let flag_s = String::from_str("-v");
        let vol_s = volumes[j].clone();
        let ghost flag_g = flag_s;
        let ghost vol_g = vol_s;
        out.push(flag_s);
        out.push(vol_s);
        proof {
            assert(out@ =~= pre_out.push(flag_g).push(vol_g));
            lemma_str_views_index(out@);
            lemma_str_views_index(pre_out);
            lemma_str_views_index(volumes@);
            lemma_flag_pairs_push(
                "-v"@,
                str_views(volumes@).take(j as int),
                str_views(volumes@)[j as int],
            );
            assert(str_views(volumes@).take(j as int).push(str_views(volumes@)[j as int])
                =~= str_views(volumes@).take(j + 1));
            let ghost chain = pre_out.push(flag_g).push(vol_g);
            assert forall|x: int|
                0 <= x < str_views(out@).len() implies str_views(out@)[x] == (str_views(
                pre_out,
            ).push("-v"@).push(volumes@[j as int]@))[x] by {
                assert(str_views(out@)[x] == out@[x]@);
                assert(out@[x] == chain[x]);
                if x < pre_out.len() {
                    assert(chain[x] == pre_out[x]);
                    assert(str_views(pre_out)[x] == pre_out[x]@);
                } else if x == pre_out.len() {
                    assert(chain[x] == flag_g);
                } else {
                    assert(chain[x] == vol_g);
                }
            }
            assert(str_views(out@) =~= str_views(pre_out).push("-v"@).push(
                volumes@[j as int]@,
            ));
            assert(str_views(pre_out).push("-v"@).push(volumes@[j as int]@) =~= with_ports + (
            spec_flag_pairs("-v"@, str_views(volumes@).take(j as int)) + seq![
                "-v"@,
                volumes@[j as int]@,
            ]));
            assert(str_views(out@) =~= with_ports + spec_flag_pairs(
                "-v"@,
                str_views(volumes@).take(j + 1),
            ));
        }
        j = j + 1;
    }
    let ghost with_vols = str_views(out@);
    proof {
        assert(str_views(volumes@).take(vn as int) =~= str_views(volumes@));
    }
    let en: usize = env.len();
    let mut k: usize = 0;
    while k < en
        invariant
            0 <= k <= en,
            en == env@.len(),
            str_views(out@) == with_vols + spec_env_flags(env_views(env@).take(k as int)),
        decreases en - k,
    {
        let ghost pre_out = out@;
        let flag_s = String::from_str("-e");
        let mut binding = env[k].0.clone();
        binding.append("=");
        binding.append(env[k].1.as_str());
        let ghost flag_g = flag_s;
        let ghost bind_g = binding;
        out.push(flag_s);
        out.push(binding);
        proof {
            assert(out@ =~= pre_out.push(flag_g).push(bind_g));
            lemma_str_views_index(out@);
            lemma_str_views_index(pre_out);
            lemma_env_views_index(env@);
            lemma_env_flags_push(env_views(env@).take(k as int), env_views(env@)[k as int]);
            assert(env_views(env@).take(k as int).push(env_views(env@)[k as int])
                =~= env_views(env@).take(k + 1));
            assert(bind_g@ == env@[k as int].0@ + "="@ + env@[k as int].1@);
            let ghost chain = pre_out.push(flag_g).push(bind_g);
            assert forall|x: int|
                0 <= x < str_views(out@).len() implies str_views(out@)[x] == (str_views(
                pre_out,
            ).push("-e"@).push(env@[k as int].0@ + "="@ + env@[k as int].1@))[x] by {
                assert(str_views(out@)[x] == out@[x]@);
                assert(out@[x] == chain[x]);
                if x < pre_out.len() {
                    assert(chain[x] == pre_out[x]);
                    assert(str_views(pre_out)[x] == pre_out[x]@);
                } else if x == pre_out.len() {
                    assert(chain[x] == flag_g);
                } else {
                    assert(chain[x] == bind_g);
                }
            }
            assert(str_views(out@) =~= str_views(pre_out).push("-e"@).push(
                env@[k as int].0@ + "="@ + env@[k as int].1@,
            ));
            assert(str_views(pre_out).push("-e"@).push(
                env@[k as int].0@ + "="@ + env@[k as int].1@,
            ) =~= with_vols + (spec_env_flags(env_views(env@).take(k as int)) + seq![
                "-e"@,
                env@[k as int].0@ + "="@ + env@[k as int].1@,
            ]));
            assert(str_views(out@) =~= with_vols + spec_env_flags(env_views(env@).take(k + 1)));
        }
        k = k + 1;
    }
    proof {
        assert(env_views(env@).take(en as int) =~= env_views(env@));
    }
    let mut image_tag = String::from_str(image);
    image_tag.append(":");
    image_tag.append(tag);
    out.push(image_tag);
    proof {
        lemma_str_views_index(out@);
        assert(str_views(out@) =~= spec_docker_args(
            container_name@,
            *runtime,
            *network,
            str_views(ports@),
            str_views(volumes@),
            env_views(env@),
            image@ + ":"@ + tag@,
        ));
    }
    out
}

proof fn lemma_conn_of_found(s: Seq<(String, MCPServerConnection)>, i: int, key: Seq<char>)
    requires
        0 <= i < s.len(),
        s[i].0@ == key,
        forall|x: int| 0 <= x < i ==> (#[trigger] s[x]).0@ != key,
    ensures
        conn_of(s, key) == Some(s[i].1),
    decreases i,
{
    if i > 0 {
        assert(s[0].0@ != key);
        assert(s.drop_first()[i - 1] == s[i]);
        assert forall|x: int| 0 <= x < i - 1 implies (#[trigger] s.drop_first()[x]).0@ != key by {
            assert(s.drop_first()[x] == s[x + 1]);
        }
        lemma_conn_of_found(s.drop_first(), i - 1, key);
    }
}

proof fn lemma_conn_of_absent(s: Seq<(String, MCPServerConnection)>, key: Seq<char>)
    requires
        forall|x: int| 0 <= x < s.len() ==> (#[trigger] s[x]).0@ != key,
    ensures
        conn_of(s, key) is None,
    decreases s.len(),
{
    if s.len() > 0 {
        assert forall|x: int|
            0 <= x < s.drop_first().len() implies (#[trigger] s.drop_first()[x]).0@ != key by {
            assert(s.drop_first()[x] == s[x + 1]);
        }
        lemma_conn_of_absent(s.drop_first(), key);
    }
}

proof fn lemma_conn_of_update(
    s: Seq<(String, MCPServerConnection)>,
    i: int,
    e: (String, MCPServerConnection),
)
    requires
        0 <= i < s.len(),
        e.0@ == s[i].0@,
    ensures
        forall|key: Seq<char>|
            key != s[i].0@ ==> #[trigger] conn_of(s.update(i, e), key) == conn_of(s, key),
{
    assert forall|key: Seq<char>| key != s[i].0@ implies #[trigger] conn_of(s.update(i, e), key)
        == conn_of(s, key) by {
        lemma_conn_of_update_one(s, i, e, key);
    }
}

proof fn lemma_conn_of_update_one(
    s: Seq<(String, MCPServerConnection)>,
    i: int,
    e: (String, MCPServerConnection),
    key: Seq<char>,
)
    requires
        0 <= i < s.len(),
        e.0@ == s[i].0@,
        key != s[i].0@,
    ensures
        conn_of(s.update(i, e), key) == conn_of(s, key),
    decreases i,
{
    let s2 = s.update(i, e);
    if i == 0 {
        assert(s2[0].0@ == s[0].0@);
        assert(s2.drop_first() =~= s.drop_first());
    } else {
        assert(s2[0] == s[0]);
        if s[0].0@ != key {
            assert(s2.drop_first() =~= s.drop_first().update(i - 1, e));
            assert(s.drop_first()[i - 1] == s[i]);
            lemma_conn_of_update_one(s.drop_first(), i - 1, e, key);
        }
    }
}

proof fn lemma_conn_of_push_all(
    s: Seq<(String, MCPServerConnection)>,
    e: (String, MCPServerConnection),
)
    requires
        forall|x: int| 0 <= x < s.len() ==> (#[trigger] s[x]).0@ != e.0@,
    ensures
        conn_of(s.push(e), e.0@) == Some(e.1),
        forall|key: Seq<char>|
            key != e.0@ ==> #[trigger] conn_of(s.push(e), key) == conn_of(s, key),
{
    lemma_conn_of_push(s, e, e.0@);
    assert forall|key: Seq<char>| key != e.0@ implies #[trigger] conn_of(s.push(e), key)
        == conn_of(s, key) by {
        lemma_conn_of_push(s, e, key);
    }
}

proof fn lemma_conn_of_push(
    s: Seq<(String, MCPServerConnection)>,
    e: (String, MCPServerConnection),
    key: Seq<char>,
)
    ensures
        key != e.0@ ==> conn_of(s.push(e), key) == conn_of(s, key),
        (key == e.0@ && (forall|x: int| 0 <= x < s.len() ==> (#[trigger] s[x]).0@ != key))
            ==> conn_of(s.push(e), key) == Some(e.1),
    decreases s.len(),
{
    let s2 = s.push(e);
    if s.len() == 0 {
        assert(s2[0] == e);
        assert(s2.drop_first() =~= Seq::<(String, MCPServerConnection)>::empty());
    } else {
        assert(s2[0] == s[0]);
        assert(s2.drop_first() =~= s.drop_first().push(e));
        assert forall|x: int|
            0 <= x < s.drop_first().len() implies #[trigger] s.drop_first()[x] == s[x + 1] by {}
        lemma_conn_of_push(s.drop_first(), e, key);
        if key != e.0@ {
            if s[0].0@ == key {
                assert(conn_of(s2, key) == Some(s2[0].1));
                assert(conn_of(s, key) == Some(s[0].1));
            } else {
                assert(conn_of(s2, key) == conn_of(s2.drop_first(), key));
                assert(conn_of(s, key) == conn_of(s.drop_first(), key));
            }
        } else {
            if forall|x: int| 0 <= x < s.len() ==> (#[trigger] s[x]).0@ != key {
                assert(s[0].0@ != key);
                assert(conn_of(s2, key) == conn_of(s2.drop_first(), key));
                assert(conn_of(s.drop_first().push(e), key) == Some(e.1));
            }
        }
    }
}

} // verus!