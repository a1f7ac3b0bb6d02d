//! Resolves the credential of a request to the root or to a service.
use crate::audit::AuditBuilder;
use crate::error::{CoreError, CoreResult};
use crate::store::{lemma_last_index, service_has_id, Store, StoreView};
use crate::types::{AuditMeta, Key, Service};
use vstd::prelude::*;

verus! {

/// The text of an optional credential.
pub open spec fn credential(value: Option<String>) -> Option<Seq<char>> {
    match value {
        Some(v) => Some(v@),
        None => None,
    }
}

/// A root key: active, with neither service nor user.
pub open spec fn is_root_key(k: Key) -> bool {
    k.is_active() && k.service_id is None && k.user_id is None
}

/// A service key: active, with a service and no user.
pub open spec fn is_service_key(k: Key) -> bool {
    k.is_active() && k.service_id is Some && k.user_id is None
}

/// The service, and its key, that a credential authenticates.
pub open spec fn service_auth(v: StoreView, value: Option<Seq<char>>) -> CoreResult<(Service, Key)> {
    match value {
        None => Err(CoreError::Unauthorised),
        Some(text) => match v.key_with_value(text) {
            Some(k) => if is_service_key(k) {
                match v.service(k.service_id->0) {
                    Some(s) => if s.is_enabled {
                        Ok((s, k))
                    } else {
                        Err(CoreError::Forbidden)
                    },
                    None => Err(CoreError::Forbidden),
                }
            } else {
                Err(CoreError::Forbidden)
            },
            None => Err(CoreError::Forbidden),
        },
    }
}

/// The root key that a credential presents.
pub open spec fn root_auth(v: StoreView, value: Option<Seq<char>>) -> CoreResult<Key> {
    match value {
        None => Err(CoreError::Unauthorised),
        Some(text) => match v.key_with_value(text) {
            Some(k) => if is_root_key(k) {
                Ok(k)
            } else {
                Err(CoreError::Forbidden)
            },
            None => Err(CoreError::Forbidden),
        },
    }
}

/// The scope a request starts with once its credential is resolved.
pub open spec fn scope_of(meta: AuditMeta, key: Key, service: Option<Service>) -> AuditBuilder {
    AuditBuilder {
        meta,
        key: Some(key.id),
        service: match service {
            Some(s) => Some(s.id),
            None => None,
        },
        user: None,
        user_key: None,
    }
}

/// Authenticates a service by the value of one of its keys.
pub fn authenticate_service(store: &Store, audit_meta: AuditMeta, key_value: Option<String>) -> (r:
    CoreResult<(Service, AuditBuilder)>)
    ensures
        match service_auth(store@, credential(key_value)) {
            Err(e) => r == Err::<(Service, AuditBuilder), CoreError>(e),
            Ok((s, k)) => r == Ok::<(Service, AuditBuilder), CoreError>(
                (s, scope_of(audit_meta, k, Some(s))),
            ),
        },
{
    let value = match key_value {
        Some(v) => v,
        None => return Err(CoreError::Unauthorised),
    };
    let key = match store.key_read_by_value_any(&value) {
        Some(k) => k,
        None => return Err(CoreError::Forbidden),
    };
    if !key.is_enabled || key.is_revoked || key.user_id.is_some() {
        return Err(CoreError::Forbidden);
    }
    let service_id = match key.service_id {
        Some(id) => id,
        None => return Err(CoreError::Forbidden),
    };
    proof {
        lemma_last_index(store@.services, service_has_id(service_id));
    }
    let service = match store.service_read_opt(service_id) {
        Some(s) => s,
        None => return Err(CoreError::Forbidden),
    };
    if !service.is_enabled {
        return Err(CoreError::Forbidden);
    }
    let mut audit = AuditBuilder::new(audit_meta);
    audit.set_key(Some(&key));
    audit.set_service(Some(&service));
    Ok((service, audit))
}

/// Authenticates the root by the value of a root key.
pub fn authenticate_root(store: &Store, audit_meta: AuditMeta, key_value: Option<String>) -> (r:
    CoreResult<AuditBuilder>)
    ensures
        match root_auth(store@, credential(key_value)) {
            Err(e) => r == Err::<AuditBuilder, CoreError>(e),
            Ok(k) => r == Ok::<AuditBuilder, CoreError>(scope_of(audit_meta, k, None)),
        },
{
    let value = match key_value {
        Some(v) => v,
        None => return Err(CoreError::Unauthorised),
    };
    let key = match store.key_read_by_value_any(&value) {
        Some(k) => k,
        None => return Err(CoreError::Forbidden),
    };
    if !key.is_enabled || key.is_revoked || key.user_id.is_some() || key.service_id.is_some() {
        return Err(CoreError::Forbidden);
    }
    let mut audit = AuditBuilder::new(audit_meta);
    audit.set_key(Some(&key));
    Ok(audit)
}

/// Authenticates the root or a service: `None` stands for the root.
pub fn authenticate(store: &Store, audit_meta: AuditMeta, key_value: Option<String>) -> (r:
    CoreResult<(Option<Service>, AuditBuilder)>)
    ensures
        match root_auth(store@, credential(key_value)) {
            Ok(k) => r == Ok::<(Option<Service>, AuditBuilder), CoreError>(
                (None, scope_of(audit_meta, k, None)),
            ),
            Err(_) => match service_auth(store@, credential(key_value)) {
                Err(e) => r == Err::<(Option<Service>, AuditBuilder), CoreError>(e),
                Ok((s, k)) => r == Ok::<(Option<Service>, AuditBuilder), CoreError>(
                    (Some(s), scope_of(audit_meta, k, Some(s))),
                ),
            },
        },
{
    let value = match key_value {
        Some(v) => v,
        None => return Err(CoreError::Unauthorised),
    };
    let key = match store.key_read_by_value_any(&value) {
        Some(k) => k,
        None => return Err(CoreError::Forbidden),
    };
    if !key.is_enabled || key.is_revoked || key.user_id.is_some() {
        return Err(CoreError::Forbidden);
    }
    let service_id = match key.service_id {
        Some(id) => id,
        None => {
            let mut audit = AuditBuilder::new(audit_meta);
            audit.set_key(Some(&key));
            return Ok((None, audit));
        },
    };
    proof {
        lemma_last_index(store@.services, service_has_id(service_id));
    }
    let service = match store.service_read_opt(service_id) {
        Some(s) => s,
        None => return Err(CoreError::Forbidden),
    };
    if !service.is_enabled {
        return Err(CoreError::Forbidden);
    }
    let mut audit = AuditBuilder::new(audit_meta);
    audit.set_key(Some(&key));
    audit.set_service(Some(&service));
    Ok((Some(service), audit))
}

} // verus!
