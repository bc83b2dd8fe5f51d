//! Shared configuration types: the authentication mode selected at startup
//! and the environment-derived secret record.

use vstd::prelude::*;

verus! {

/// How the endpoint allocator decides whether a credential is acceptable.
#[derive(Debug, Clone, PartialEq, Eq, Structural)]
pub enum AuthMode {
    NOAUTH,
    CLOUDFLARE,
    PLAINTEXT,
}

impl Default for AuthMode {
    fn default() -> (r: Self)
        ensures
            r == AuthMode::NOAUTH,
    {
        AuthMode::NOAUTH
    }
}

impl AuthMode {
    /// The mode's name, as it is printed.
    pub fn name(&self) -> (r: String)
        ensures
            self is NOAUTH ==> r@ == "NOAUTH"@,
            self is CLOUDFLARE ==> r@ == "CLOUDFLARE"@,
            self is PLAINTEXT ==> r@ == "PLAINTEXT"@,
    {
        match self {
            AuthMode::NOAUTH => "NOAUTH".to_owned(),
            AuthMode::CLOUDFLARE => "CLOUDFLARE".to_owned(),
            AuthMode::PLAINTEXT => "PLAINTEXT".to_owned(),
        }
    }
}

/// Secrets read from the environment at startup. Which fields must be present
/// depends on the selected [`AuthMode`]; `crate::auth::validate` checks that.
#[derive(Debug)]
pub struct Config {
    pub cloudflare_account: Option<String>,
    pub cloudflare_namespace: Option<String>,
    pub cloudflare_auth_email: Option<String>,
    pub cloudflare_auth_key: Option<String>,
    pub plaintext_password: Option<String>,
}

impl Default for Config {
    fn default() -> (r: Self)
        ensures
            r.cloudflare_account is None,
            r.cloudflare_namespace is None,
            r.cloudflare_auth_email is None,
            r.cloudflare_auth_key is None,
            r.plaintext_password is None,
    {
        Config {
            cloudflare_account: None,
            cloudflare_namespace: None,
            cloudflare_auth_email: None,
            cloudflare_auth_key: None,
            plaintext_password: None,
        }
    }
}

} // verus!
