//! The endpoint allocator: the control-plane decisions behind the HTTP
//! routes. Each handler is a function from the request's values and the
//! registry to an exact response; the HTTP frame around it lives outside the
//! library.

use vstd::prelude::*;
use vstd::string::StringExecFns;
use crate::auth::{Auth, CfWorkerStore, KvLookup, PlaintextPassword, ServerError};
use crate::manager::{effective_subdomain, new_sentinel, TunnelManager};
use crate::strutil::str_eq;
use crate::subdomain::{is_valid_subdomain, validate_endpoint};
use crate::types::{AuthMode, Config};

verus! {

/// The credential a request carried, if any.
#[derive(Debug)]
pub struct AuthInfo {
    pub credential: Option<String>,
}

/// Memory readings for the status route, as the process reports them.
#[derive(Debug, Clone, Copy, PartialEq, Eq, Structural)]
pub struct MemoryUsage {
    pub rss: usize,
    pub heap_total: usize,
    pub heap_used: usize,
    pub external: usize,
}

/// The body of the status route: live tunnel count and memory readings.
#[derive(Debug, Clone, Copy, PartialEq, Eq, Structural)]
pub struct ApiStatus {
    pub tunnels: u16,
    pub mem: MemoryUsage,
}

/// The body of the per-tunnel status route.
#[derive(Debug, Clone, Copy, PartialEq, Eq, Structural)]
pub struct TunnelStatus {
    pub connected_sockets: usize,
}

/// The descriptor returned to a client on successful allocation.
#[derive(Debug)]
pub struct ProxyInfo {
    pub id: String,
    pub port: u16,
    pub max_conn_count: u8,
    pub url: String,
}

/// The immutable server-side settings the allocator decides from.
pub struct ServerState {
    pub domain: String,
    pub secure: bool,
    pub max_sockets: u8,
    pub auth_mode: AuthMode,
    pub config: Config,
}

/// The public URL a descriptor advertises for a subdomain.
pub open spec fn descriptor_url(secure: bool, id: Seq<char>, domain: Seq<char>) -> Seq<char> {
    (if secure {
        "https"@
    } else {
        "http"@
    }) + "://"@ + id + "."@ + domain
}

fn build_descriptor_url(secure: bool, id: &str, domain: &str) -> (r: String)
    ensures
        r@ == descriptor_url(secure, id@, domain@),
{
    let mut url = if secure {
        "https".to_owned()
    } else {
        "http".to_owned()
    };
    url.append("://");
    url.append(id);
    url.append(".");
    url.append(domain);
    proof {
        assert(url@ =~= descriptor_url(secure, id@, domain@));
    }
    url
}

/// What the credential check decided for one request.
pub enum CredentialCheck {
    /// The request may proceed.
    Allowed,
    /// A credential was required and absent.
    MissingCredential,
    /// The credential was present and wrong.
    Denied,
    /// The answer depends on a remote lookup: make this request, then settle
    /// with [`crate::auth::remote_credential_matches`].
    RemoteCheck(KvLookup),
    /// A secret the selected mode needs is not configured.
    ConfigError,
}

impl CfWorkerStore {
    /// The remote store a configuration describes.
    pub fn from_config(config: &Config) -> (store: CfWorkerStore)
        ensures
            store.account == config.cloudflare_account,
            store.namespace == config.cloudflare_namespace,
            store.email == config.cloudflare_auth_email,
            store.key == config.cloudflare_auth_key,
    {
        CfWorkerStore {
            account: match &config.cloudflare_account {
                Some(a) => Some(a.clone()),
                None => None,
            },
            namespace: match &config.cloudflare_namespace {
                Some(n) => Some(n.clone()),
                None => None,
            },
            email: match &config.cloudflare_auth_email {
                Some(e) => Some(e.clone()),
                None => None,
            },
            key: match &config.cloudflare_auth_key {
                Some(k) => Some(k.clone()),
                None => None,
            },
        }
    }
}

/// Decides the credential check for one allocation request. The bypass mode
/// accepts a missing credential; the other modes demand one, compare it to
/// the configured password, or hand back the remote lookup to make.
pub fn check_credentials(endpoint: &str, info: &AuthInfo, state: &ServerState) -> (r:
    CredentialCheck)
    ensures
        state.auth_mode is NOAUTH ==> r is Allowed,
        !(state.auth_mode is NOAUTH) && info.credential is None ==> r is MissingCredential,
        state.auth_mode is PLAINTEXT ==> (info.credential matches Some(cred) ==> match state
            .config.plaintext_password {
            Some(pw) => if cred@ == pw@ {
                r is Allowed
            } else {
                r is Denied
            },
            None => r is ConfigError,
        }),
        state.auth_mode is CLOUDFLARE && info.credential is Some ==> {
            if state.config.cloudflare_account is Some && state.config.cloudflare_namespace
                is Some && state.config.cloudflare_auth_email is Some
                && state.config.cloudflare_auth_key is Some {
                r matches CredentialCheck::RemoteCheck(kv) && kv.url@ == crate::auth::kv_url_of(
                    state.config.cloudflare_account->0@,
                    state.config.cloudflare_namespace->0@,
                    endpoint@,
                ) && kv.auth_email@ == state.config.cloudflare_auth_email->0@ && kv.auth_key@
                    == state.config.cloudflare_auth_key->0@
            } else {
                r is ConfigError
            }
        },
{
    if matches!(state.auth_mode, AuthMode::NOAUTH) {
        return CredentialCheck::Allowed;
    }
    let credential = match &info.credential {
        Some(c) => c,
        None => { return CredentialCheck::MissingCredential; },
    };
    match state.auth_mode {
        AuthMode::NOAUTH => CredentialCheck::Allowed,
        AuthMode::PLAINTEXT => {
            let validator = PlaintextPassword {
                password: match &state.config.plaintext_password {
                    Some(p) => Some(p.clone()),
                    None => None,
                },
            };
            match validator.credential_is_valid(credential.as_str(), "") {
                Ok(true) => CredentialCheck::Allowed,
                Ok(false) => CredentialCheck::Denied,
                Err(ServerError::InvalidConfig) => CredentialCheck::ConfigError,
            }
        },
        AuthMode::CLOUDFLARE => {
            let store = CfWorkerStore::from_config(&state.config);
            match store.lookup_request(endpoint) {
                Ok(kv) => CredentialCheck::RemoteCheck(kv),
                Err(ServerError::InvalidConfig) => CredentialCheck::ConfigError,
            }
        },
    }
}

/// The allocator's answer, one variant per HTTP outcome.
pub enum EndpointResponse {
    /// The subdomain breaks the grammar: status 400.
    BadRequest,
    /// A credential was required and absent: status 401.
    CredentialsNotProvided,
    /// The credential was wrong: status 401.
    InvalidCredentials,
    /// The validator could not run for want of configuration: status 500.
    ServerError,
    /// The decision waits on this remote lookup; settle it with
    /// [`finish_remote_endpoint`].
    RemoteAuthRequired(KvLookup),
    /// The tunnel stands: status 200 with this descriptor.
    Allocated(ProxyInfo),
}

/// What a successful allocation guarantees: the returned descriptor and the
/// registry agree, the binding is idempotent, and the URL is derived from the
/// assigned subdomain and the server's own settings.
pub open spec fn allocated_ok(
    pi: ProxyInfo,
    pre: TunnelManager,
    post: TunnelManager,
    endpoint: Seq<char>,
    random_label: Seq<char>,
    state: ServerState,
    fresh_port: u16,
) -> bool {
    let eff = effective_subdomain(endpoint, random_label);
    &&& pi.id@ == eff
    &&& pi.max_conn_count == state.max_sockets
    &&& pi.url@ == descriptor_url(state.secure, eff, state.domain@)
    &&& post.wf()
    &&& post.map_view() == pre.map_view().insert(eff, pi.port)
    &&& (pre.contains_sub(eff) ==> pi.port == pre.map_view()[eff])
    &&& (!pre.contains_sub(eff) ==> pi.port == fresh_port)
}

fn allocate(
    endpoint: &str,
    state: &ServerState,
    manager: &mut TunnelManager,
    random_label: String,
    fresh_port: u16,
    now: u64,
) -> (r: ProxyInfo)
    requires
        old(manager).wf(),
        endpoint@ == new_sentinel() || is_valid_subdomain(endpoint@),
        is_valid_subdomain(random_label@),
        !old(manager).contains_port(fresh_port),
        1 <= state.max_sockets,
    ensures
        allocated_ok(
            r,
            *old(manager),
            *final(manager),
            endpoint@,
            random_label@,
            *state,
            fresh_port,
        ),
{
    let ghost eff = effective_subdomain(endpoint@, random_label@);
    let (id, port) = manager.put(endpoint, random_label, fresh_port, state.max_sockets, now);
    proof {
        if old(manager).contains_sub(eff) {
            assert(old(manager).map_view().dom().contains(eff));
            assert(port == old(manager).map_view()[eff]);
            assert(manager.map_view() =~= old(manager).map_view().insert(eff, port));
        }
    }
    let url = build_descriptor_url(state.secure, id.as_str(), state.domain.as_str());
    ProxyInfo { id, port, max_conn_count: state.max_sockets, url }
}

/// Serves one allocation request: validates the subdomain (the `?new`
/// sentinel asks for a random one), runs the credential check, and creates or
/// reuses the tunnel. A remote-auth mode answers with the lookup to make
/// instead of touching the registry.
pub fn request_endpoint(
    endpoint: &String,
    info: &AuthInfo,
    state: &ServerState,
    manager: &mut TunnelManager,
    random_label: String,
    fresh_port: u16,
    now: u64,
) -> (r: EndpointResponse)
    requires
        old(manager).wf(),
        is_valid_subdomain(random_label@),
        !old(manager).contains_port(fresh_port),
        1 <= state.max_sockets,
    ensures
        final(manager).wf(),
        !(endpoint@ == new_sentinel() || is_valid_subdomain(endpoint@)) ==> r is BadRequest
            && *final(manager) == *old(manager),
        (endpoint@ == new_sentinel() || is_valid_subdomain(endpoint@)) ==> {
            &&& state.auth_mode is NOAUTH ==> (r matches EndpointResponse::Allocated(pi)
                && allocated_ok(
                pi,
                *old(manager),
                *final(manager),
                endpoint@,
                random_label@,
                *state,
                fresh_port,
            ))
            &&& !(state.auth_mode is NOAUTH) && info.credential is None ==> r
                is CredentialsNotProvided && *final(manager) == *old(manager)
            &&& state.auth_mode is PLAINTEXT ==> (info.credential matches Some(cred) ==> match state
                .config.plaintext_password {
                Some(pw) => if cred@ == pw@ {
                    r matches EndpointResponse::Allocated(pi) && allocated_ok(
                        pi,
                        *old(manager),
                        *final(manager),
                        endpoint@,
                        random_label@,
                        *state,
                        fresh_port,
                    )
                } else {
                    r is InvalidCredentials && *final(manager) == *old(manager)
                },
                None => r is ServerError && *final(manager) == *old(manager),
            })
            &&& state.auth_mode is CLOUDFLARE && info.credential is Some ==> *final(manager)
                == *old(manager) && (if state.config.cloudflare_account is Some
                && state.config.cloudflare_namespace is Some
                && state.config.cloudflare_auth_email is Some
                && state.config.cloudflare_auth_key is Some {
                (r matches EndpointResponse::RemoteAuthRequired(kv) && kv.url@
                    == crate::auth::kv_url_of(
                    state.config.cloudflare_account->0@,
                    state.config.cloudflare_namespace->0@,
                    endpoint@,
                ))
            } else {
                r is ServerError
            })
        },
{
    let is_sentinel = str_eq(endpoint.as_str(), "?new");
    if !is_sentinel {
        match validate_endpoint(endpoint.as_str()) {
            Ok(true) => (),
            Ok(false) => { return EndpointResponse::BadRequest; },
            Err(_) => { return EndpointResponse::ServerError; },
        }
    }
    match check_credentials(endpoint.as_str(), info, state) {
        CredentialCheck::Allowed => {},
        CredentialCheck::MissingCredential => {
            return EndpointResponse::CredentialsNotProvided;
        },
        CredentialCheck::Denied => { return EndpointResponse::InvalidCredentials; },
        CredentialCheck::RemoteCheck(kv) => { return EndpointResponse::RemoteAuthRequired(kv); },
        CredentialCheck::ConfigError => { return EndpointResponse::ServerError; },
    }
    let pi = allocate(endpoint.as_str(), state, manager, random_label, fresh_port, now);
    EndpointResponse::Allocated(pi)
}

/// Settles an allocation that waited on a remote lookup: compares the body
/// the lookup returned with the credential the request carried, then
/// allocates or refuses.
pub fn finish_remote_endpoint(
    endpoint: &String,
    credential: &str,
    response_body: &str,
    state: &ServerState,
    manager: &mut TunnelManager,
    random_label: String,
    fresh_port: u16,
    now: u64,
) -> (r: EndpointResponse)
    requires
        old(manager).wf(),
        endpoint@ == new_sentinel() || is_valid_subdomain(endpoint@),
        is_valid_subdomain(random_label@),
        !old(manager).contains_port(fresh_port),
        1 <= state.max_sockets,
    ensures
        final(manager).wf(),
        credential@ != response_body@ ==> r is InvalidCredentials && *final(manager) == *old(
            manager,
        ),
        credential@ == response_body@ ==> (r matches EndpointResponse::Allocated(pi)
            && allocated_ok(
            pi,
            *old(manager),
            *final(manager),
            endpoint@,
            random_label@,
            *state,
            fresh_port,
        )),
{
    if !crate::auth::remote_credential_matches(credential, response_body) {
        return EndpointResponse::InvalidCredentials;
    }
    let pi = allocate(endpoint.as_str(), state, manager, random_label, fresh_port, now);
    EndpointResponse::Allocated(pi)
}

/// The status route: live tunnel count beside the memory readings the
/// process supplies.
pub fn api_status(manager: &TunnelManager, mem: MemoryUsage) -> (r: ApiStatus)
    requires
        manager.tunnels_seq().len() <= u16::MAX,
    ensures
        r.tunnels == manager.tunnels_seq().len(),
        r.mem == mem,
{
    ApiStatus { tunnels: manager.count() as u16, mem }
}

/// The per-tunnel status route: how many sockets the tunnel has paired, or
/// nothing when the tunnel does not exist.
pub fn api_tunnel_status(manager: &TunnelManager, tunnel_id: &str) -> (r: Option<TunnelStatus>)
    requires
        manager.wf(),
    ensures
        r is Some <==> manager.contains_sub(tunnel_id@),
        r matches Some(st) ==> st.connected_sockets == manager.tunnels_seq()[manager.idx_of(
            tunnel_id@,
        )].pool.paired_ids().len(),
{
    match manager.get(tunnel_id) {
        Some(tunnel) => Some(
            TunnelStatus { connected_sockets: tunnel.pool.connected_sockets() },
        ),
        None => None,
    }
}

/// The idempotent-allocation law: when an allocation leaves `s` bound to
/// `port1` and a second allocation of `s` finds the binding and returns what
/// it finds, the second port equals the first. The URL in the descriptor is a
/// function of the subdomain and the server settings alone, so equal ports
/// give equal descriptors.
pub proof fn lemma_allocation_idempotent(
    before: Map<Seq<char>, u16>,
    between: Map<Seq<char>, u16>,
    s: Seq<char>,
    port1: u16,
    port2: u16,
)
    requires
        between == before.insert(s, port1),
        between.dom().contains(s) ==> port2 == between[s],
    ensures
        port2 == port1,
{
    assert(between.dom().contains(s));
}

} // verus!
