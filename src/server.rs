//! Server settings and the state that request handlers share.
use crate::error::CoreError;
use crate::store::Store;
use crate::types::AuditMeta;
use vstd::prelude::*;

verus! {

/// Errors of request handling.
#[derive(Clone, Copy, Debug, PartialEq, Eq, Structural)]
pub enum Error {
    /// The request could not be read.
    BadRequest,
    /// The request is not authorised.
    Forbidden,
    /// The engine refused the request.
    Core(CoreError),
}

impl Error {
    /// Wraps an engine error.
    pub fn from_core(e: CoreError) -> (r: Error)
        ensures
            r == Error::Core(e),
    {
        Error::Core(e)
    }
}

/// Server settings.
#[derive(Clone, Debug)]
pub struct Configuration {
    pub bind: String,
    pub user_agent: String,
    /// Lifetime of access tokens, in seconds.
    pub access_token_expires: i64,
    /// Lifetime of refresh tokens, in seconds.
    pub refresh_token_expires: i64,
    /// Lifetime of reset and revoke tokens, in seconds.
    pub revoke_token_expires: i64,
}

pub const DEFAULT_ACCESS_TOKEN_EXPIRES: i64 = 3600;

pub const DEFAULT_REFRESH_TOKEN_EXPIRES: i64 = 86400;

pub const DEFAULT_REVOKE_TOKEN_EXPIRES: i64 = 604800;

impl Configuration {
    /// Settings for a bind address, with default lifetimes.
    pub fn new(bind: String) -> (r: Configuration)
        ensures
            r.bind == bind,
            r.user_agent@ == Configuration::default_user_agent_text(),
            r.access_token_expires == DEFAULT_ACCESS_TOKEN_EXPIRES,
            r.refresh_token_expires == DEFAULT_REFRESH_TOKEN_EXPIRES,
            r.revoke_token_expires == DEFAULT_REVOKE_TOKEN_EXPIRES,
    {
        Configuration {
            bind,
            user_agent: Configuration::default_user_agent(),
            access_token_expires: DEFAULT_ACCESS_TOKEN_EXPIRES,
            refresh_token_expires: DEFAULT_REFRESH_TOKEN_EXPIRES,
            revoke_token_expires: DEFAULT_REVOKE_TOKEN_EXPIRES,
        }
    }

    /// The configured bind address.
    pub fn bind(&self) -> (r: &str)
        ensures
            r@ == self.bind@,
    {
        self.bind.as_str()
    }

    pub open spec fn default_user_agent_text() -> Seq<char> {
        "sso/0.1.0"@
    }

    /// The user agent: package name and version.
    fn default_user_agent() -> (r: String)
        ensures
            r@ == Configuration::default_user_agent_text(),
    {
        "sso/0.1.0".to_owned()
    }
}

/// What request handlers share: the settings and the store.
pub struct Data {
    pub configuration: Configuration,
    pub driver: Store,
}

impl Data {
    pub fn new(configuration: Configuration, driver: Store) -> (r: Data)
        ensures
            r.configuration == configuration,
            r.driver@ == driver@,
    {
        Data { configuration, driver }
    }

    /// The settings.
    pub fn configuration(&self) -> (r: &Configuration)
        ensures
            *r == self.configuration,
    {
        &self.configuration
    }

    /// The store.
    pub fn driver(&self) -> (r: &Store)
        ensures
            r@ == self.driver@,
    {
        &self.driver
    }
}

/// Where a request carries its credential.
#[derive(Clone, Debug)]
pub struct AuthorisationIdentityPolicy {
    pub header: String,
}

impl AuthorisationIdentityPolicy {
    /// Reads the credential from the `Authorization` header.
    pub fn new() -> (r: AuthorisationIdentityPolicy)
        ensures
            r.header@ == "Authorization"@,
    {
        AuthorisationIdentityPolicy { header: "Authorization".to_owned() }
    }
}

/// An identifier must not be negative.
pub fn validate_unsigned(id: i64) -> (r: Result<(), String>)
    ensures
        r is Ok <==> id >= 0,
{
    if id < 0 {
        Err("invalid_unsigned".to_owned())
    } else {
        Ok(())
    }
}

/// The audit metadata of a request: its user agent and peer address are
/// required, a `Forwarded` header is kept when present.
pub fn request_audit_meta(
    user_agent: Option<String>,
    remote: Option<String>,
    forwarded: Option<String>,
) -> (r: Result<AuditMeta, Error>)
    ensures
        match (user_agent, remote) {
            (Some(a), Some(m)) => r == Ok::<AuditMeta, Error>(
                AuditMeta { user_agent: a, remote: m, forwarded },
            ),
            _ => r == Err::<AuditMeta, Error>(Error::BadRequest),
        },
{
    match (user_agent, remote) {
        (Some(user_agent), Some(remote)) => Ok(AuditMeta { user_agent, remote, forwarded }),
        _ => Err(Error::BadRequest),
    }
}

} // verus!
