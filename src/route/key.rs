//! API key verify and revoke requests.
use crate::auth::{key_revoke, key_revoke_effect, key_verify, key_verify_effect, UserKey};
use crate::authenticate::{authenticate_service, credential, service_auth};
use crate::error::{CoreError, CoreResult};
use crate::server::Data;
use crate::store::audited;
use crate::types::{AuditData, AuditMeta};
use vstd::prelude::*;

verus! {

/// Verifies a user's API key for the authenticated service.
pub fn verify_inner(
    data: &mut Data,
    audit_meta: AuditMeta,
    id: Option<String>,
    key: String,
    audit_data: Option<AuditData>,
    now: i64,
) -> (r: CoreResult<UserKey>)
    requires
        old(data).driver.wf(),
    ensures
        final(data).driver.wf(),
        final(data).configuration == old(data).configuration,
        match service_auth(old(data).driver@, credential(id)) {
            Err(e) => r == Err::<UserKey, CoreError>(e) && final(data).driver@ == old(data).driver@,
            Ok((s, _)) => audited(old(data).driver@, final(data).driver@) && key_verify_effect(
                old(data).driver@,
                final(data).driver@,
                s.id,
                key@,
                now,
                r,
            ),
        },
{
    let (service, mut audit) = match authenticate_service(&data.driver, audit_meta, id) {
        Ok(d) => d,
        Err(e) => return Err(e),
    };
    key_verify(&mut data.driver, &service, &mut audit, &key, audit_data.as_ref(), now)
}

/// Revokes a user's API key for the authenticated service.
pub fn revoke_inner(
    data: &mut Data,
    audit_meta: AuditMeta,
    id: Option<String>,
    key: String,
    audit_data: Option<AuditData>,
    now: i64,
) -> (r: CoreResult<usize>)
    requires
        old(data).driver.wf(),
    ensures
        final(data).driver.wf(),
        final(data).configuration == old(data).configuration,
        match service_auth(old(data).driver@, credential(id)) {
            Err(e) => r == Err::<usize, CoreError>(e) && final(data).driver@ == old(data).driver@,
            Ok((s, _)) => key_revoke_effect(
                old(data).driver@,
                final(data).driver@,
                s.id,
                key@,
                now,
                r,
            ),
        },
{
    let (service, mut audit) = match authenticate_service(&data.driver, audit_meta, id) {
        Ok(d) => d,
        Err(e) => return Err(e),
    };
    key_revoke(&mut data.driver, &service, &mut audit, &key, audit_data.as_ref(), now)
}

} // verus!
