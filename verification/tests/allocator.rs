use localtunnel::api::{
    api_status, api_tunnel_status, check_credentials, finish_remote_endpoint, request_endpoint,
    AuthInfo, CredentialCheck, EndpointResponse, MemoryUsage, ServerState,
};
use localtunnel::auth::{validate, ConfigError, ServerError};
use localtunnel::manager::TunnelManager;
use localtunnel::subdomain::{random_subdomain, validate_endpoint};
use localtunnel::types::{AuthMode, Config};

fn empty_config() -> Config {
    Config {
        cloudflare_account: None,
        cloudflare_namespace: None,
        cloudflare_auth_email: None,
        cloudflare_auth_key: None,
        plaintext_password: None,
    }
}

fn noauth_state() -> ServerState {
    ServerState {
        domain: "test.local".to_string(),
        secure: false,
        max_sockets: 10,
        auth_mode: AuthMode::NOAUTH,
        config: empty_config(),
    }
}

fn label() -> String {
    random_subdomain(&vec![0, 1, 2, 3, 4, 5, 6, 7])
}

#[test]
fn validate_endpoint_works() {
    let endpoints = [
        "demo",
        "123",
        "did-key-zq3shkkuzlvqefghdgzgfmux8vgkgvwsla83w2oekhzxocw2n",
    ];

    for endpoint in endpoints {
        assert!(validate_endpoint(endpoint).unwrap());
    }
}

#[test]
fn validate_endpoint_boundaries() {
    assert!(!validate_endpoint("").unwrap());
    assert!(!validate_endpoint("A").unwrap());
    assert!(!validate_endpoint("-x").unwrap());
    assert!(!validate_endpoint("x-").unwrap());
    let sixty_four = "a".repeat(64);
    assert!(!validate_endpoint(&sixty_four).unwrap());
    assert!(validate_endpoint("a").unwrap());
    assert!(validate_endpoint("0").unwrap());
    let sixty_three = "a".repeat(63);
    assert!(validate_endpoint(&sixty_three).unwrap());
}

#[test]
fn allocation_returns_descriptor() {
    let state = noauth_state();
    let mut manager = TunnelManager::new();
    let info = AuthInfo { credential: None };
    let endpoint = "demo".to_string();
    let r = request_endpoint(&endpoint, &info, &state, &mut manager, label(), 35000, 0);
    match r {
        EndpointResponse::Allocated(pi) => {
            assert_eq!(pi.id, "demo");
            assert_eq!(pi.port, 35000);
            assert_eq!(pi.max_conn_count, 10);
            assert_eq!(pi.url, "http://demo.test.local");
        }
        _ => panic!("expected allocation"),
    }
}

#[test]
fn allocation_is_idempotent() {
    let state = noauth_state();
    let mut manager = TunnelManager::new();
    let info = AuthInfo { credential: None };
    let endpoint = "demo".to_string();
    let first = request_endpoint(&endpoint, &info, &state, &mut manager, label(), 35000, 0);
    let second = request_endpoint(&endpoint, &info, &state, &mut manager, label(), 35001, 5);
    match (first, second) {
        (EndpointResponse::Allocated(a), EndpointResponse::Allocated(b)) => {
            assert_eq!(a.port, b.port);
            assert_eq!(a.url, b.url);
        }
        _ => panic!("expected two allocations"),
    }
}

#[test]
fn secure_state_gives_https_url() {
    let mut state = noauth_state();
    state.secure = true;
    let mut manager = TunnelManager::new();
    let info = AuthInfo { credential: None };
    let endpoint = "demo".to_string();
    let r = request_endpoint(&endpoint, &info, &state, &mut manager, label(), 35000, 0);
    match r {
        EndpointResponse::Allocated(pi) => assert_eq!(pi.url, "https://demo.test.local"),
        _ => panic!("expected allocation"),
    }
}

#[test]
fn uppercase_subdomain_is_rejected() {
    let state = noauth_state();
    let mut manager = TunnelManager::new();
    let info = AuthInfo { credential: None };
    let endpoint = "DEMO".to_string();
    let r = request_endpoint(&endpoint, &info, &state, &mut manager, label(), 35000, 0);
    assert!(matches!(r, EndpointResponse::BadRequest));
}

#[test]
fn sentinel_allocates_random_lowercase_id() {
    let state = noauth_state();
    let mut manager = TunnelManager::new();
    let info = AuthInfo { credential: None };
    let endpoint = "?new".to_string();
    let r = request_endpoint(&endpoint, &info, &state, &mut manager, label(), 35000, 0);
    match r {
        EndpointResponse::Allocated(pi) => {
            assert_eq!(pi.id.len(), 8);
            assert!(pi
                .id
                .chars()
                .all(|c| c.is_ascii_lowercase() || c.is_ascii_digit()));
            assert!(validate_endpoint(&pi.id).unwrap());
        }
        _ => panic!("expected allocation"),
    }
}

#[test]
fn plaintext_auth_modes() {
    let mut state = noauth_state();
    state.auth_mode = AuthMode::PLAINTEXT;
    state.config.plaintext_password = Some("hunter2".to_string());
    let endpoint = "demo".to_string();

    let mut manager = TunnelManager::new();
    let missing = AuthInfo { credential: None };
    let r = request_endpoint(&endpoint, &missing, &state, &mut manager, label(), 35000, 0);
    assert!(matches!(r, EndpointResponse::CredentialsNotProvided));

    let wrong = AuthInfo {
        credential: Some("wrong".to_string()),
    };
    let r = request_endpoint(&endpoint, &wrong, &state, &mut manager, label(), 35000, 0);
    assert!(matches!(r, EndpointResponse::InvalidCredentials));

    let right = AuthInfo {
        credential: Some("hunter2".to_string()),
    };
    let r = request_endpoint(&endpoint, &right, &state, &mut manager, label(), 35000, 0);
    assert!(matches!(r, EndpointResponse::Allocated(_)));
}

#[test]
fn plaintext_without_password_is_server_error() {
    let mut state = noauth_state();
    state.auth_mode = AuthMode::PLAINTEXT;
    let mut manager = TunnelManager::new();
    let info = AuthInfo {
        credential: Some("hunter2".to_string()),
    };
    let endpoint = "demo".to_string();
    let r = request_endpoint(&endpoint, &info, &state, &mut manager, label(), 35000, 0);
    assert!(matches!(r, EndpointResponse::ServerError));
}

#[test]
fn noauth_accepts_missing_credential() {
    let state = noauth_state();
    let info = AuthInfo { credential: None };
    let r = check_credentials("demo", &info, &state);
    assert!(matches!(r, CredentialCheck::Allowed));
}

#[test]
fn cloudflare_auth_builds_lookup_and_settles() {
    let mut state = noauth_state();
    state.auth_mode = AuthMode::CLOUDFLARE;
    state.config.cloudflare_account = Some("acct".to_string());
    state.config.cloudflare_namespace = Some("ns".to_string());
    state.config.cloudflare_auth_email = Some("dev@example.com".to_string());
    state.config.cloudflare_auth_key = Some("key123".to_string());
    let mut manager = TunnelManager::new();
    let info = AuthInfo {
        credential: Some("abc".to_string()),
    };
    let endpoint = "demo".to_string();
    let r = request_endpoint(&endpoint, &info, &state, &mut manager, label(), 35000, 0);
    match r {
        EndpointResponse::RemoteAuthRequired(kv) => {
            assert_eq!(
                kv.url,
                "https://api.cloudflare.com/client/v4/accounts/acct/storage/kv/namespaces/ns/values/demo"
            );
            assert_eq!(kv.auth_email, "dev@example.com");
            assert_eq!(kv.auth_key, "key123");
        }
        _ => panic!("expected remote lookup"),
    }

    let ok = finish_remote_endpoint(
        &endpoint,
        "abc",
        "abc",
        &state,
        &mut manager,
        label(),
        35000,
        0,
    );
    assert!(matches!(ok, EndpointResponse::Allocated(_)));

    let denied = finish_remote_endpoint(
        &endpoint,
        "abc",
        "other",
        &state,
        &mut manager,
        label(),
        35001,
        0,
    );
    assert!(matches!(denied, EndpointResponse::InvalidCredentials));
}

#[test]
fn cloudflare_missing_secrets_is_server_error() {
    let mut state = noauth_state();
    state.auth_mode = AuthMode::CLOUDFLARE;
    let mut manager = TunnelManager::new();
    let info = AuthInfo {
        credential: Some("abc".to_string()),
    };
    let endpoint = "demo".to_string();
    let r = request_endpoint(&endpoint, &info, &state, &mut manager, label(), 35000, 0);
    assert!(matches!(r, EndpointResponse::ServerError));
}

#[test]
fn startup_validation_by_mode() {
    let config = empty_config();
    assert!(validate(&AuthMode::NOAUTH, &config).is_ok());

    let err = validate(&AuthMode::PLAINTEXT, &config).unwrap_err();
    assert_eq!(err.message(), "Missing PLAINTEXT_PASSWORD env var");

    let mut with_password = empty_config();
    with_password.plaintext_password = Some("hunter2".to_string());
    assert!(validate(&AuthMode::PLAINTEXT, &with_password).is_ok());

    let err = validate(&AuthMode::CLOUDFLARE, &config).unwrap_err();
    assert_eq!(
        err.message(),
        "Missing CLOUDFLARE credentials: CLOUDFLARE_ACCOUNT, CLOUDFLARE_NAMESPACE, CLOUDFLARE_AUTH_EMAIL, CLOUDFLARE_AUTH_KEY"
    );

    let mut partial = empty_config();
    partial.cloudflare_account = Some("acct".to_string());
    partial.cloudflare_auth_email = Some("dev@example.com".to_string());
    let err = validate(&AuthMode::CLOUDFLARE, &partial).unwrap_err();
    assert_eq!(
        err.message(),
        "Missing CLOUDFLARE credentials: CLOUDFLARE_NAMESPACE, CLOUDFLARE_AUTH_KEY"
    );
    assert!(matches!(err, ConfigError::MissingCloudflare { .. }));
}

#[test]
fn server_error_message() {
    assert_eq!(ServerError::InvalidConfig.message(), "Invalid configuration");
}

#[test]
fn status_routes_report_counts() {
    let state = noauth_state();
    let mut manager = TunnelManager::new();
    let mem = MemoryUsage {
        rss: 1,
        heap_total: 2,
        heap_used: 3,
        external: 0,
    };
    let status = api_status(&manager, mem);
    assert_eq!(status.tunnels, 0);
    assert_eq!(status.mem, mem);

    let info = AuthInfo { credential: None };
    let endpoint = "demo".to_string();
    let _ = request_endpoint(&endpoint, &info, &state, &mut manager, label(), 35000, 0);
    let status = api_status(&manager, mem);
    assert_eq!(status.tunnels, 1);

    let st = api_tunnel_status(&manager, "demo").unwrap();
    assert_eq!(st.connected_sockets, 0);
    assert!(api_tunnel_status(&manager, "absent").is_none());
}
