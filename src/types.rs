//! Entities kept by the store.
use vstd::prelude::*;

verus! {

/// An integration tenant; every non-root operation is scoped to one.
#[derive(Clone, Debug)]
pub struct Service {
    pub id: u128,
    pub created_at: i64,
    pub updated_at: i64,
    pub is_enabled: bool,
    pub name: String,
    pub url: String,
    pub provider_local_url: Option<String>,
    pub provider_github_oauth2_url: Option<String>,
    pub provider_microsoft_oauth2_url: Option<String>,
}

/// An end identity, global across services.
#[derive(Clone, Debug)]
pub struct User {
    pub id: u128,
    pub created_at: i64,
    pub updated_at: i64,
    pub is_enabled: bool,
    pub name: String,
    pub email: String,
    pub locale: String,
    pub timezone: String,
    pub password_allow_reset: bool,
    pub password_require_update: bool,
    pub password_hash: Option<String>,
}

/// What a user key is used for.
#[derive(Clone, Copy, Debug, PartialEq, Eq, Structural)]
pub enum KeyType {
    /// A bearer API key, verified directly.
    Key,
    /// The secret that signs the user's tokens.
    Token,
    /// A base32 TOTP shared secret.
    Totp,
}

/// A credential: root (no service, no user), service (service only) or user
/// (service and user).
#[derive(Clone, Debug)]
pub struct Key {
    pub id: u128,
    pub created_at: i64,
    pub updated_at: i64,
    pub is_enabled: bool,
    pub is_revoked: bool,
    pub name: String,
    pub value: String,
    pub type_: KeyType,
    pub service_id: Option<u128>,
    pub user_id: Option<u128>,
}

/// A single-use nonce bound to a service, valid while `now < ttl`.
#[derive(Clone, Copy, Debug, PartialEq, Eq, Structural)]
pub struct Csrf {
    pub created_at: i64,
    pub key: u128,
    pub value: u128,
    pub ttl: i64,
    pub service_id: u128,
}

/// Request metadata recorded with each audit.
#[derive(Clone, Debug)]
pub struct AuditMeta {
    pub user_agent: String,
    pub remote: String,
    pub forwarded: Option<String>,
}

/// The operation an audit record belongs to.
#[derive(Clone, Copy, Debug, PartialEq, Eq, Structural)]
pub enum AuditType {
    AuthenticateError,
    Login,
    LoginError,
    ResetPassword,
    ResetPasswordError,
    ResetPasswordConfirm,
    ResetPasswordConfirmError,
    UpdateEmail,
    UpdateEmailError,
    UpdateEmailRevoke,
    UpdateEmailRevokeError,
    UpdatePassword,
    UpdatePasswordError,
    UpdatePasswordRevoke,
    UpdatePasswordRevokeError,
    KeyVerifyError,
    KeyRevoke,
    KeyRevokeError,
    TokenVerifyError,
    TokenRefresh,
    TokenRefreshError,
    TokenRevoke,
    TokenRevokeError,
    TotpError,
    CsrfError,
    Oauth2Login,
    Oauth2LoginError,
}

/// Why an audit record was written.
#[derive(Clone, Copy, Debug, PartialEq, Eq, Structural)]
pub enum AuditMessage {
    KeyNotFound,
    KeyDisabledOrRevoked,
    KeyRevoke,
    ServiceNotFound,
    ServiceDisabled,
    ServiceMismatch,
    UserNotFound,
    UserDisabled,
    PasswordUpdateRequired,
    PasswordNotSetOrIncorrect,
    /// The hasher refused a new password.
    PasswordRefused,
    ResetPasswordDisabled,
    TokenInvalidOrExpired,
    CsrfNotFoundOrUsed,
    TotpInvalid,
    Login,
    ResetPassword,
    ResetPasswordConfirm,
    UpdateEmail,
    UpdateEmailRevoke,
    UpdatePassword,
    UpdatePasswordRevoke,
    TokenRefresh,
    TokenRevoke,
    Oauth2Login,
}

/// Client-supplied annotation of an operation, recorded verbatim; `data` is
/// JSON text.
#[derive(Clone, Debug)]
pub struct AuditData {
    pub type_: String,
    pub data: String,
}

/// The content of an audit record.
#[derive(Clone, Debug)]
pub enum AuditEvent {
    /// A decision of the engine.
    Internal(AuditType, AuditMessage),
    /// An annotation supplied by the client.
    Client(AuditData),
}

/// An immutable event record.
#[derive(Clone, Debug)]
pub struct Audit {
    pub id: u128,
    pub created_at: i64,
    pub meta: AuditMeta,
    pub event: AuditEvent,
    pub key_id: Option<u128>,
    pub service_id: Option<u128>,
    pub user_id: Option<u128>,
    pub user_key_id: Option<u128>,
}

/// Fields of a service that an update may change; `None` keeps the old
/// value.
#[derive(Clone, Debug)]
pub struct ServiceUpdate {
    pub is_enabled: Option<bool>,
    pub name: Option<String>,
    pub url: Option<String>,
    pub provider_local_url: Option<String>,
    pub provider_github_oauth2_url: Option<String>,
    pub provider_microsoft_oauth2_url: Option<String>,
}

/// Fields of a user that an update may change; `None` keeps the old value.
#[derive(Clone, Debug)]
pub struct UserUpdate {
    pub is_enabled: Option<bool>,
    pub name: Option<String>,
    pub locale: Option<String>,
    pub timezone: Option<String>,
    pub password_allow_reset: Option<bool>,
    pub password_require_update: Option<bool>,
}

pub fn copy_string_opt(s: &Option<String>) -> (r: Option<String>)
    ensures
        r == *s,
{
    match s {
        Some(v) => Some(v.clone()),
        None => None,
    }
}

impl Service {
    /// An exact copy.
    pub fn copy(&self) -> (r: Service)
        ensures
            r == *self,
    {
        Service {
            id: self.id,
            created_at: self.created_at,
            updated_at: self.updated_at,
            is_enabled: self.is_enabled,
            name: self.name.clone(),
            url: self.url.clone(),
            provider_local_url: copy_string_opt(&self.provider_local_url),
            provider_github_oauth2_url: copy_string_opt(&self.provider_github_oauth2_url),
            provider_microsoft_oauth2_url: copy_string_opt(&self.provider_microsoft_oauth2_url),
        }
    }
}

impl User {
    /// An exact copy.
    pub fn copy(&self) -> (r: User)
        ensures
            r == *self,
    {
        User {
            id: self.id,
            created_at: self.created_at,
            updated_at: self.updated_at,
            is_enabled: self.is_enabled,
            name: self.name.clone(),
            email: self.email.clone(),
            locale: self.locale.clone(),
            timezone: self.timezone.clone(),
            password_allow_reset: self.password_allow_reset,
            password_require_update: self.password_require_update,
            password_hash: copy_string_opt(&self.password_hash),
        }
    }
}

impl Key {
    /// An exact copy.
    pub fn copy(&self) -> (r: Key)
        ensures
            r == *self,
    {
        Key {
            id: self.id,
            created_at: self.created_at,
            updated_at: self.updated_at,
            is_enabled: self.is_enabled,
            is_revoked: self.is_revoked,
            name: self.name.clone(),
            value: self.value.clone(),
            type_: self.type_,
            service_id: self.service_id,
            user_id: self.user_id,
        }
    }

    /// Enabled and not revoked.
    pub open spec fn is_active(&self) -> bool {
        self.is_enabled && !self.is_revoked
    }
}

impl AuditMeta {
    /// An exact copy.
    pub fn copy(&self) -> (r: AuditMeta)
        ensures
            r == *self,
    {
        AuditMeta {
            user_agent: self.user_agent.clone(),
            remote: self.remote.clone(),
            forwarded: copy_string_opt(&self.forwarded),
        }
    }
}

impl AuditEvent {
    /// An exact copy.
    pub fn copy(&self) -> (r: AuditEvent)
        ensures
            r == *self,
    {
        match self {
            AuditEvent::Internal(t, m) => AuditEvent::Internal(*t, *m),
            AuditEvent::Client(d) => AuditEvent::Client(
                AuditData { type_: d.type_.clone(), data: d.data.clone() },
            ),
        }
    }
}

impl Audit {
    /// An exact copy.
    pub fn copy(&self) -> (r: Audit)
        ensures
            r == *self,
    {
        Audit {
            id: self.id,
            created_at: self.created_at,
            meta: self.meta.copy(),
            event: self.event.copy(),
            key_id: self.key_id,
            service_id: self.service_id,
            user_id: self.user_id,
            user_key_id: self.user_key_id,
        }
    }
}

} // verus!
