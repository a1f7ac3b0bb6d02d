//! Token verify, refresh and revoke requests.
use crate::auth::{
    refresh_effect, token_refresh, token_revoke, token_revoke_effect, token_verify, verify_effect,
    UserToken, UserTokenAccess,
};
use crate::authenticate::{authenticate_service, credential, service_auth};
use crate::error::{CoreError, CoreResult};
use crate::jwt::str_bytes;
use crate::server::Data;
use crate::store::audited;
use crate::types::{AuditData, AuditMeta};
use vstd::prelude::*;

verus! {

/// Verifies an access token for the authenticated service.
pub fn verify_inner(
    data: &mut Data,
    audit_meta: AuditMeta,
    id: Option<String>,
    token: String,
    audit_data: Option<AuditData>,
    now: i64,
) -> (r: CoreResult<UserTokenAccess>)
    requires
        old(data).driver.wf(),
    ensures
        final(data).driver.wf(),
        final(data).configuration == old(data).configuration,
        match service_auth(old(data).driver@, credential(id)) {
            Err(e) => r == Err::<UserTokenAccess, CoreError>(e) && final(data).driver@ == old(data).driver@,
            Ok((s, _)) => audited(old(data).driver@, final(data).driver@) && verify_effect(
                old(data).driver@,
                final(data).driver@,
                s.id,
                str_bytes(&token),
                now,
                r,
            ),
        },
{
    let (service, mut audit) = match authenticate_service(&data.driver, audit_meta, id) {
        Ok(d) => d,
        Err(e) => return Err(e),
    };
    token_verify(&mut data.driver, &service, &mut audit, &token, audit_data.as_ref(), now)
}

/// Exchanges a refresh token for the authenticated service.
pub fn refresh_inner(
    data: &mut Data,
    audit_meta: AuditMeta,
    id: Option<String>,
    token: String,
    audit_data: Option<AuditData>,
    now: i64,
) -> (r: CoreResult<UserToken>)
    requires
        old(data).driver.wf(),
    ensures
        final(data).driver.wf(),
        final(data).configuration == old(data).configuration,
        match service_auth(old(data).driver@, credential(id)) {
            Err(e) => r == Err::<UserToken, CoreError>(e) && final(data).driver@ == old(data).driver@,
            Ok((s, _)) => refresh_effect(
                old(data).driver@,
                final(data).driver@,
                s.id,
                str_bytes(&token),
                old(data).configuration.access_token_expires,
                old(data).configuration.refresh_token_expires,
                now,
                r,
            ),
        },
{
    let (service, mut audit) = match authenticate_service(&data.driver, audit_meta, id) {
        Ok(d) => d,
        Err(e) => return Err(e),
    };
    let access = data.configuration.access_token_expires;
    let refresh = data.configuration.refresh_token_expires;
    token_refresh(
        &mut data.driver,
        &service,
        &mut audit,
        &token,
        audit_data.as_ref(),
        access,
        refresh,
        now,
    )
}

/// Revokes the key behind a token for the authenticated service.
pub fn revoke_inner(
    data: &mut Data,
    audit_meta: AuditMeta,
    id: Option<String>,
    token: String,
    audit_data: Option<AuditData>,
    now: i64,
) -> (r: CoreResult<usize>)
    requires
        old(data).driver.wf(),
    ensures
        final(data).driver.wf(),
        final(data).configuration == old(data).configuration,
        match service_auth(old(data).driver@, credential(id)) {
            Err(e) => r == Err::<usize, CoreError>(e) && final(data).driver@ == old(data).driver@,
            Ok((s, _)) => token_revoke_effect(
                old(data).driver@,
                final(data).driver@,
                s.id,
                str_bytes(&token),
                now,
                r,
            ),
        },
{
    let (service, mut audit) = match authenticate_service(&data.driver, audit_meta, id) {
        Ok(d) => d,
        Err(e) => return Err(e),
    };
    token_revoke(&mut data.driver, &service, &mut audit, &token, audit_data.as_ref(), now)
}

} // verus!
