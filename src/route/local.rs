//! Local-provider requests: login, password reset and email / password
//! updates.
use crate::auth::{
    audit_added, confirm_effect, login_check, login, login_effect, reset_check, reset_password, reset_password_confirm,
    revoke_effect, update_email, update_email_effect, update_email_revoke, update_password,
    update_password_effect, update_password_revoke, EmailResetPassword, EmailUpdateEmail,
    EmailUpdatePassword, UserToken,
};
use crate::authenticate::{authenticate_service, credential, service_auth};
use crate::error::{CoreError, CoreResult};
use crate::jwt::{str_bytes, JwtClaimsType};
use crate::server::Data;
use crate::types::{AuditMeta, AuditType};
use vstd::prelude::*;

verus! {

/// Logs a user in for the authenticated service.
pub fn login_inner(
    data: &mut Data,
    audit_meta: AuditMeta,
    id: Option<String>,
    email: String,
    password: String,
    now: i64,
) -> (r: CoreResult<UserToken>)
    requires
        old(data).driver.wf(),
    ensures
        final(data).driver.wf(),
        final(data).configuration == old(data).configuration,
        match service_auth(old(data).driver@, credential(id)) {
            Err(e) => r == Err::<UserToken, CoreError>(e) && final(data).driver@ == old(data).driver@,
            Ok((s, _)) => (login_check(old(data).driver@, s.id, email@, password@) is Err
                ==> final(data).driver@.audits.last().service_id == Some(s.id)) && login_effect(
                old(data).driver@,
                final(data).driver@,
                s.id,
                email@,
                password@,
                old(data).configuration.access_token_expires,
                old(data).configuration.refresh_token_expires,
                now,
                r,
            ),
        },
{
    let (service, mut audit) = match authenticate_service(&data.driver, audit_meta, id) {
        Ok(d) => d,
        Err(e) => return Err(e),
    };
    let access = data.configuration.access_token_expires;
    let refresh = data.configuration.refresh_token_expires;
    login(&mut data.driver, &service, &mut audit, &email, &password, access, refresh, now)
}

/// Requests a password reset for the authenticated service; whether the
/// user exists is never revealed.
pub fn reset_password_inner(
    data: &mut Data,
    audit_meta: AuditMeta,
    id: Option<String>,
    email: String,
    now: i64,
) -> (r: CoreResult<Option<EmailResetPassword>>)
    requires
        old(data).driver.wf(),
    ensures
        final(data).driver.wf(),
        final(data).configuration == old(data).configuration,
        match service_auth(old(data).driver@, credential(id)) {
            Err(e) => r == Err::<Option<EmailResetPassword>, CoreError>(e) && final(data).driver@
                == old(data).driver@,
            Ok((s, _)) => r is Ok && (reset_check(old(data).driver@, s.id, email@) is Err ==> r
                == Ok::<Option<EmailResetPassword>, CoreError>(None) && audit_added(
                old(data).driver@,
                final(data).driver@,
                AuditType::ResetPasswordError,
            ) && final(data).driver@.audits.last().service_id == Some(s.id)),
        },
{
    let (service, mut audit) = match authenticate_service(&data.driver, audit_meta, id) {
        Ok(d) => d,
        Err(e) => return Err(e),
    };
    let expires = data.configuration.revoke_token_expires;
    reset_password(&mut data.driver, &service, &mut audit, &email, expires, now)
}

/// Confirms a password reset for the authenticated service.
pub fn reset_password_confirm_inner(
    data: &mut Data,
    audit_meta: AuditMeta,
    id: Option<String>,
    token: String,
    password: String,
    now: i64,
) -> (r: CoreResult<()>)
    requires
        old(data).driver.wf(),
    ensures
        final(data).driver.wf(),
        final(data).configuration == old(data).configuration,
        match service_auth(old(data).driver@, credential(id)) {
            Err(e) => r == Err::<(), CoreError>(e) && final(data).driver@ == old(data).driver@,
            Ok((s, _)) => confirm_effect(
                old(data).driver@,
                final(data).driver@,
                s.id,
                str_bytes(&token),
                password@,
                now,
                r,
            ),
        },
{
    let (service, mut audit) = match authenticate_service(&data.driver, audit_meta, id) {
        Ok(d) => d,
        Err(e) => return Err(e),
    };
    reset_password_confirm(&mut data.driver, &service, &mut audit, &token, &password, now)
}

/// Changes a user's email for the authenticated service.
pub fn update_email_inner(
    data: &mut Data,
    audit_meta: AuditMeta,
    id: Option<String>,
    user_id: u128,
    password: String,
    new_email: String,
    now: i64,
) -> (r: CoreResult<EmailUpdateEmail>)
    requires
        old(data).driver.wf(),
    ensures
        final(data).driver.wf(),
        final(data).configuration == old(data).configuration,
        match service_auth(old(data).driver@, credential(id)) {
            Err(e) => r == Err::<EmailUpdateEmail, CoreError>(e) && final(data).driver@ == old(data).driver@,
            Ok((s, _)) => update_email_effect(
                old(data).driver@,
                final(data).driver@,
                s.id,
                user_id,
                password@,
                new_email,
                old(data).configuration.revoke_token_expires,
                now,
                r,
            ),
        },
{
    let (service, mut audit) = match authenticate_service(&data.driver, audit_meta, id) {
        Ok(d) => d,
        Err(e) => return Err(e),
    };
    let expires = data.configuration.revoke_token_expires;
    update_email(&mut data.driver, &service, &mut audit, user_id, &password, new_email, expires, now)
}

/// Redeems an update-email revoke token for the authenticated service.
pub fn update_email_revoke_inner(
    data: &mut Data,
    audit_meta: AuditMeta,
    id: Option<String>,
    token: String,
    now: i64,
) -> (r: CoreResult<usize>)
    requires
        old(data).driver.wf(),
    ensures
        final(data).driver.wf(),
        final(data).configuration == old(data).configuration,
        match service_auth(old(data).driver@, credential(id)) {
            Err(e) => r == Err::<usize, CoreError>(e) && final(data).driver@ == old(data).driver@,
            Ok((s, _)) => revoke_effect(
                old(data).driver@,
                final(data).driver@,
                s.id,
                str_bytes(&token),
                JwtClaimsType::UpdateEmailRevokeToken,
                now,
                r,
            ),
        },
{
    let (service, mut audit) = match authenticate_service(&data.driver, audit_meta, id) {
        Ok(d) => d,
        Err(e) => return Err(e),
    };
    update_email_revoke(&mut data.driver, &service, &mut audit, &token, None, now)
}

/// Changes a user's password for the authenticated service.
pub fn update_password_inner(
    data: &mut Data,
    audit_meta: AuditMeta,
    id: Option<String>,
    user_id: u128,
    password: String,
    new_password: String,
    now: i64,
) -> (r: CoreResult<EmailUpdatePassword>)
    requires
        old(data).driver.wf(),
    ensures
        final(data).driver.wf(),
        final(data).configuration == old(data).configuration,
        match service_auth(old(data).driver@, credential(id)) {
            Err(e) => r == Err::<EmailUpdatePassword, CoreError>(e) && final(data).driver@ == old(data).driver@,
            Ok((s, _)) => update_password_effect(
                old(data).driver@,
                final(data).driver@,
                s.id,
                user_id,
                password@,
                new_password@,
                old(data).configuration.revoke_token_expires,
                now,
                r,
            ),
        },
{
    let (service, mut audit) = match authenticate_service(&data.driver, audit_meta, id) {
        Ok(d) => d,
        Err(e) => return Err(e),
    };
    let expires = data.configuration.revoke_token_expires;
    update_password(
        &mut data.driver,
        &service,
        &mut audit,
        user_id,
        &password,
        &new_password,
        expires,
        now,
    )
}

/// Redeems an update-password revoke token for the authenticated service.
pub fn update_password_revoke_inner(
    data: &mut Data,
    audit_meta: AuditMeta,
    id: Option<String>,
    token: String,
    now: i64,
) -> (r: CoreResult<usize>)
    requires
        old(data).driver.wf(),
    ensures
        final(data).driver.wf(),
        final(data).configuration == old(data).configuration,
        match service_auth(old(data).driver@, credential(id)) {
            Err(e) => r == Err::<usize, CoreError>(e) && final(data).driver@ == old(data).driver@,
            Ok((s, _)) => revoke_effect(
                old(data).driver@,
                final(data).driver@,
                s.id,
                str_bytes(&token),
                JwtClaimsType::UpdatePasswordRevokeToken,
                now,
                r,
            ),
        },
{
    let (service, mut audit) = match authenticate_service(&data.driver, audit_meta, id) {
        Ok(d) => d,
        Err(e) => return Err(e),
    };
    update_password_revoke(&mut data.driver, &service, &mut audit, &token, None, now)
}

} // verus!
