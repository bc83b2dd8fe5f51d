//! Authentication: startup validation of the selected mode against
//! the configured secrets, and the per-request credential decision.
//!
//! The remote key-value store is consulted over HTTP by the process around the
//! library; the library builds the exact request to make and compares the
//! returned body, so the decision itself is verified.

use vstd::prelude::*;
use vstd::string::StringExecFns;
use crate::strutil::str_eq;
use crate::types::{AuthMode, Config};

verus! {

/// A request-time failure of the validator itself (not of the credential).
#[derive(Debug, Clone, PartialEq, Eq, Structural)]
pub enum ServerError {
    /// A secret the selected mode needs was absent at request time.
    InvalidConfig,
}

impl ServerError {
    /// The error's description, as it is reported.
    pub fn message(&self) -> (r: String)
        ensures
            r@ == "Invalid configuration"@,
    {
        "Invalid configuration".to_owned()
    }
}

/// A trait for credential validators that can decide locally, from the
/// request and their own configuration alone.
pub trait Auth {
    /// What the validator answers, as a function of the credential and the
    /// context value it is checked against.
    spec fn decision(&self, credential: Seq<char>, value: Seq<char>) -> Result<bool, ServerError>;

    fn credential_is_valid(&self, credential: &str, value: &str) -> (r: Result<
        bool,
        ServerError,
    >)
        ensures
            r == self.decision(credential@, value@),
    ;
}

/// The bypass validator: every request is accepted.
impl Auth for () {
    open spec fn decision(&self, credential: Seq<char>, value: Seq<char>) -> Result<
        bool,
        ServerError,
    > {
        Ok(true)
    }

    fn credential_is_valid(&self, credential: &str, value: &str) -> (r: Result<
        bool,
        ServerError,
    >) {
        Ok(true)
    }
}

/// Validates credentials against a static password configured at startup.
pub struct PlaintextPassword {
    pub password: Option<String>,
}

impl Auth for PlaintextPassword {
    open spec fn decision(&self, credential: Seq<char>, value: Seq<char>) -> Result<
        bool,
        ServerError,
    > {
        match self.password {
            Some(p) => Ok(credential == p@),
            None => Err(ServerError::InvalidConfig),
        }
    }

    fn credential_is_valid(&self, credential: &str, value: &str) -> (r: Result<
        bool,
        ServerError,
    >) {
        match &self.password {
            Some(p) => Ok(str_eq(credential, p.as_str())),
            None => Err(ServerError::InvalidConfig),
        }
    }
}

/// Validates credentials against a remote key-value store. The store is
/// reached over HTTP outside the library: [`CfWorkerStore::lookup_request`]
/// says exactly which request to make, and
/// [`remote_credential_matches`] decides from the returned body.
pub struct CfWorkerStore {
    pub account: Option<String>,
    pub namespace: Option<String>,
    pub email: Option<String>,
    pub key: Option<String>,
}

/// The HTTP lookup the remote store requires: `url` is fetched with the two
/// authentication headers, and the response body is the expected credential.
pub struct KvLookup {
    pub url: String,
    pub auth_email: String,
    pub auth_key: String,
}

/// The lookup URL for a context value: the store's address with the account,
/// the namespace and the value spliced in.
pub open spec fn kv_url_of(account: Seq<char>, namespace: Seq<char>, value: Seq<char>) -> Seq<
    char,
> {
    "https://api.cloudflare.com/client/v4/accounts/"@ + account + "/storage/kv/namespaces/"@
        + namespace + "/values/"@ + value
}

impl CfWorkerStore {
    /// Whether every secret the remote lookup needs is configured.
    pub open spec fn fully_configured(&self) -> bool {
        &&& self.account is Some
        &&& self.namespace is Some
        &&& self.email is Some
        &&& self.key is Some
    }

    /// The request to make for `value`, or the configuration error when a
    /// secret is absent.
    pub fn lookup_request(&self, value: &str) -> (r: Result<KvLookup, ServerError>)
        ensures
            self.fully_configured() <==> r is Ok,
            r matches Ok(lookup) ==> {
                &&& lookup.url@ == kv_url_of(
                    self.account->0@,
                    self.namespace->0@,
                    value@,
                )
                &&& lookup.auth_email@ == self.email->0@
                &&& lookup.auth_key@ == self.key->0@
            },
            r is Err ==> r == Err::<KvLookup, ServerError>(ServerError::InvalidConfig),
    {
        let account = match &self.account {
            Some(a) => a,
            None => { return Err(ServerError::InvalidConfig); },
        };
        let namespace = match &self.namespace {
            Some(n) => n,
            None => { return Err(ServerError::InvalidConfig); },
        };
        let email = match &self.email {
            Some(e) => e,
            None => { return Err(ServerError::InvalidConfig); },
        };
        let key = match &self.key {
            Some(k) => k,
            None => { return Err(ServerError::InvalidConfig); },
        };
        let mut url = "https://api.cloudflare.com/client/v4/accounts/".to_owned();
        url.append(account.as_str());
        url.append("/storage/kv/namespaces/");
        url.append(namespace.as_str());
        url.append("/values/");
        url.append(value);
        proof {
            assert(url@ =~= kv_url_of(self.account->0@, self.namespace->0@, value@));
        }
        Ok(KvLookup { url, auth_email: email.clone(), auth_key: key.clone() })
    }
}

/// Whether the credential the caller presented equals the expected credential
/// a remote lookup returned.
pub fn remote_credential_matches(credential: &str, response_body: &str) -> (r: bool)
    ensures
        r == (credential@ == response_body@),
{
    str_eq(credential, response_body)
}

/// Which startup secrets the selected mode requires but the configuration
/// lacks.
#[derive(Debug)]
pub enum ConfigError {
    MissingPlaintextPassword,
    /// Each flag marks one absent secret, in the order they are reported.
    MissingCloudflare { account: bool, namespace: bool, email: bool, key: bool },
}

/// What startup validation answers for a mode and a configuration.
pub open spec fn validate_spec(mode: AuthMode, config: Config) -> Result<(), ConfigError> {
    match mode {
        AuthMode::NOAUTH => Ok(()),
        AuthMode::PLAINTEXT => if config.plaintext_password is Some {
            Ok(())
        } else {
            Err(ConfigError::MissingPlaintextPassword)
        },
        AuthMode::CLOUDFLARE => if config.cloudflare_account is Some
            && config.cloudflare_namespace is Some && config.cloudflare_auth_email is Some
            && config.cloudflare_auth_key is Some {
            Ok(())
        } else {
            Err(
                ConfigError::MissingCloudflare {
                    account: config.cloudflare_account is None,
                    namespace: config.cloudflare_namespace is None,
                    email: config.cloudflare_auth_email is None,
                    key: config.cloudflare_auth_key is None,
                },
            )
        },
    }
}

/// Startup validation: succeeds exactly when every secret the selected mode
/// needs is present; otherwise reports which are missing.
pub fn validate(mode: &AuthMode, config: &Config) -> (r: Result<(), ConfigError>)
    ensures
        r == validate_spec(*mode, *config),
{
    match mode {
        AuthMode::NOAUTH => Ok(()),
        AuthMode::PLAINTEXT => {
            if config.plaintext_password.is_none() {
                Err(ConfigError::MissingPlaintextPassword)
            } else {
                Ok(())
            }
        },
        AuthMode::CLOUDFLARE => {
            let account = config.cloudflare_account.is_none();
            let namespace = config.cloudflare_namespace.is_none();
            let email = config.cloudflare_auth_email.is_none();
            let key = config.cloudflare_auth_key.is_none();
            if account || namespace || email || key {
                Err(ConfigError::MissingCloudflare { account, namespace, email, key })
            } else {
                Ok(())
            }
        },
    }
}

/// One name appended to a comma-separated list.
pub open spec fn list_join(acc: Seq<char>, name: Seq<char>) -> Seq<char> {
    if acc.len() == 0 {
        name
    } else {
        acc + ", "@ + name
    }
}

/// The comma-separated names of the absent remote-store secrets, in reporting
/// order.
pub open spec fn cloudflare_missing_list(
    account: bool,
    namespace: bool,
    email: bool,
    key: bool,
) -> Seq<char> {
    let s0 = Seq::<char>::empty();
    let s1 = if account { list_join(s0, "CLOUDFLARE_ACCOUNT"@) } else { s0 };
    let s2 = if namespace { list_join(s1, "CLOUDFLARE_NAMESPACE"@) } else { s1 };
    let s3 = if email { list_join(s2, "CLOUDFLARE_AUTH_EMAIL"@) } else { s2 };
    if key { list_join(s3, "CLOUDFLARE_AUTH_KEY"@) } else { s3 }
}

/// What [`ConfigError::message`] returns for each variant.
pub open spec fn config_error_message(e: ConfigError) -> Seq<char> {
    match e {
        ConfigError::MissingPlaintextPassword => "Missing PLAINTEXT_PASSWORD env var"@,
        ConfigError::MissingCloudflare { account, namespace, email, key } =>
            "Missing CLOUDFLARE credentials: "@ + cloudflare_missing_list(
                account,
                namespace,
                email,
                key,
            ),
    }
}

fn push_missing_name(list: &mut String, name: &str)
    ensures
        final(list)@ == list_join(old(list)@, name@),
{
    if list.as_str().is_empty() {
        list.append(name);
    } else {
        list.append(", ");
        list.append(name);
    }
}

impl ConfigError {
    /// The error's description, naming each missing environment variable.
    pub fn message(&self) -> (r: String)
        ensures
            r@ == config_error_message(*self),
    {
        match self {
            ConfigError::MissingPlaintextPassword => {
                "Missing PLAINTEXT_PASSWORD env var".to_owned()
            },
            ConfigError::MissingCloudflare { account, namespace, email, key } => {
                let mut list = String::new();
                if *account {
                    push_missing_name(&mut list, "CLOUDFLARE_ACCOUNT");
                }
                if *namespace {
                    push_missing_name(&mut list, "CLOUDFLARE_NAMESPACE");
                }
                if *email {
                    push_missing_name(&mut list, "CLOUDFLARE_AUTH_EMAIL");
                }
                if *key {
                    push_missing_name(&mut list, "CLOUDFLARE_AUTH_KEY");
                }
                let mut msg = "Missing CLOUDFLARE credentials: ".to_owned();
                msg.append(list.as_str());
                msg
            },
        }
    }
}

} // verus!
