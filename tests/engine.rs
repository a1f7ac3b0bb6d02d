use sso::api::{
    create_key, create_service, create_user, KeyCreateRequest, ServiceCreateRequest,
    UserCreateRequest,
};
use sso::audit::AuditBuilder;
use sso::auth::{
    csrf_create, csrf_verify, key_revoke, key_verify, login, oauth2_login, reset_password,
    reset_password_confirm, token_refresh, token_revoke, token_verify, update_email,
    update_email_revoke, update_password, update_password_revoke,
};
use sso::error::{CoreError, DriverError};
use sso::store::Store;
use sso::types::{AuditEvent, AuditMessage, AuditMeta, AuditType, Key, KeyType, Service, User};

const NOW: i64 = 1_600_000_000;
const PASSWORD: &str = "correct horse";

fn meta() -> AuditMeta {
    AuditMeta {
        user_agent: String::from("test-agent"),
        remote: String::from("127.0.0.1"),
        forwarded: None,
    }
}

fn scope(service: &Service) -> AuditBuilder {
    let mut audit = AuditBuilder::new(meta());
    audit.set_service(Some(service));
    audit
}

fn service(store: &mut Store, name: &str) -> Service {
    let request =
        ServiceCreateRequest::new(true, String::from(name), String::from("http://localhost"));
    create_service(store, request, NOW).unwrap()
}

fn user(store: &mut Store, email: &str, allow_reset: bool, require_update: bool) -> User {
    let request = UserCreateRequest::new(
        true,
        String::from("User"),
        String::from(email),
        String::from("en"),
        String::from("Europe/London"),
    )
    .with_password(allow_reset, require_update, String::from(PASSWORD));
    create_user(store, request, NOW).unwrap()
}

fn key(store: &mut Store, service: &Service, user: &User, type_: KeyType) -> Key {
    let request = KeyCreateRequest {
        is_enabled: true,
        name: String::from("Key Name"),
        type_,
        service_id: Some(service.id),
        user_id: Some(user.id),
    };
    create_key(store, request, NOW).unwrap()
}

/// A service, a user with a password and a token key.
fn seeded() -> (Store, Service, User) {
    let mut store = Store::new();
    let s = service(&mut store, "test");
    let u = user(&mut store, "u@e", true, false);
    key(&mut store, &s, &u, KeyType::Token);
    (store, s, u)
}

fn email(s: &str) -> String {
    String::from(s)
}

#[test]
fn api_auth_local_login_ok() {
    let (mut store, s, u) = seeded();
    let mut audit = scope(&s);
    let t = login(&mut store, &s, &mut audit, &email("u@e"), &email(PASSWORD), 3600, 86400, NOW)
        .unwrap();
    assert_eq!(t.user.id, u.id);
    assert_eq!(t.access_token_expires, NOW + 3600);
    assert_eq!(t.refresh_token_expires, NOW + 86400);
    assert_ne!(t.access_token, t.refresh_token);
    let mut audit = scope(&s);
    let v = token_verify(&mut store, &s, &mut audit, &t.access_token, None, NOW + 10).unwrap();
    assert_eq!(v.user.id, u.id);
    assert_eq!(v.access_token_expires, NOW + 3600);
    match &store.audits().last().unwrap().event {
        AuditEvent::Internal(t, m) => {
            assert_eq!(*t, AuditType::Login);
            assert_eq!(*m, AuditMessage::Login);
        },
        _ => panic!("expected an engine audit"),
    }
}

#[test]
fn api_auth_local_login_bad_request_incorrect_password() {
    let (mut store, s, _) = seeded();
    let mut audit = scope(&s);
    let r = login(&mut store, &s, &mut audit, &email("u@e"), &email("guests-guests"), 60, 60, NOW);
    assert_eq!(r.err(), Some(CoreError::BadRequest));
    match &store.audits().last().unwrap().event {
        AuditEvent::Internal(t, m) => {
            assert_eq!(*t, AuditType::LoginError);
            assert_eq!(*m, AuditMessage::PasswordNotSetOrIncorrect);
        },
        _ => panic!("expected an engine audit"),
    }
}

#[test]
fn api_auth_local_login_bad_request_unknown_email() {
    let (mut store, s, _) = seeded();
    let mut audit = scope(&s);
    let r = login(&mut store, &s, &mut audit, &email("x@e"), &email(PASSWORD), 60, 60, NOW);
    assert_eq!(r.err(), Some(CoreError::BadRequest));
}

#[test]
fn api_auth_local_login_bad_request_unknown_user_key_for_service() {
    let (mut store, _, _) = seeded();
    let other = service(&mut store, "other");
    let mut audit = scope(&other);
    let r = login(&mut store, &other, &mut audit, &email("u@e"), &email(PASSWORD), 60, 60, NOW);
    assert_eq!(r.err(), Some(CoreError::BadRequest));
}

#[test]
fn login_forbidden_when_password_update_required() {
    let mut store = Store::new();
    let s = service(&mut store, "test");
    let u = user(&mut store, "r@e", true, true);
    key(&mut store, &s, &u, KeyType::Token);
    let mut audit = scope(&s);
    let r = login(&mut store, &s, &mut audit, &email("r@e"), &email(PASSWORD), 60, 60, NOW);
    assert_eq!(r.err(), Some(CoreError::Forbidden));
}

#[test]
fn api_auth_token_refresh_bad_request_used_refresh_token() {
    let (mut store, s, u) = seeded();
    let mut audit = scope(&s);
    let t = login(&mut store, &s, &mut audit, &email("u@e"), &email(PASSWORD), 3600, 86400, NOW)
        .unwrap();
    let mut audit = scope(&s);
    let p2 = token_refresh(&mut store, &s, &mut audit, &t.refresh_token, None, 3600, 86400, NOW + 1)
        .unwrap();
    assert_eq!(p2.user.id, u.id);
    assert_ne!(p2.access_token, t.access_token);
    let mut audit = scope(&s);
    let again = token_refresh(&mut store, &s, &mut audit, &t.refresh_token, None, 3600, 86400, NOW + 2);
    assert_eq!(again.err(), Some(CoreError::BadRequest));
    let mut audit = scope(&s);
    let v = token_verify(&mut store, &s, &mut audit, &p2.access_token, None, NOW + 3).unwrap();
    assert_eq!(v.user.id, u.id);
}

#[test]
fn api_auth_token_verify_bad_request_invalid_token() {
    let (mut store, s, _) = seeded();
    let mut audit = scope(&s);
    let r = token_verify(&mut store, &s, &mut audit, &email("invalid-token"), None, NOW);
    assert_eq!(r.err(), Some(CoreError::BadRequest));
}

#[test]
fn token_of_other_type_is_bad_request() {
    let (mut store, s, _) = seeded();
    let mut audit = scope(&s);
    let t = login(&mut store, &s, &mut audit, &email("u@e"), &email(PASSWORD), 3600, 86400, NOW)
        .unwrap();
    let mut audit = scope(&s);
    let r = token_verify(&mut store, &s, &mut audit, &t.refresh_token, None, NOW);
    assert_eq!(r.err(), Some(CoreError::BadRequest));
    let mut audit = scope(&s);
    let r = token_refresh(&mut store, &s, &mut audit, &t.access_token, None, 60, 60, NOW);
    assert_eq!(r.err(), Some(CoreError::BadRequest));
}

#[test]
fn expired_access_token_is_bad_request() {
    let (mut store, s, _) = seeded();
    let mut audit = scope(&s);
    let t = login(&mut store, &s, &mut audit, &email("u@e"), &email(PASSWORD), 60, 120, NOW)
        .unwrap();
    let mut audit = scope(&s);
    let r = token_verify(&mut store, &s, &mut audit, &t.access_token, None, NOW + 60);
    assert_eq!(r.err(), Some(CoreError::BadRequest));
}

#[test]
fn api_auth_token_revoke_ok() {
    let (mut store, s, _) = seeded();
    let mut audit = scope(&s);
    let t = login(&mut store, &s, &mut audit, &email("u@e"), &email(PASSWORD), 3600, 86400, NOW)
        .unwrap();
    let mut audit = scope(&s);
    assert_eq!(token_revoke(&mut store, &s, &mut audit, &t.access_token, None, NOW), Ok(1));
    let mut audit = scope(&s);
    let r = token_verify(&mut store, &s, &mut audit, &t.access_token, None, NOW);
    assert_eq!(r.err(), Some(CoreError::BadRequest));
    let mut audit = scope(&s);
    let r = token_refresh(&mut store, &s, &mut audit, &t.refresh_token, None, 60, 60, NOW);
    assert_eq!(r.err(), Some(CoreError::BadRequest));
    assert!(store.keys().iter().all(|k| k.is_revoked && !k.is_enabled));
}

#[test]
fn api_auth_key_revoke_ok() {
    let (mut store, s, u) = seeded();
    let api_key = key(&mut store, &s, &u, KeyType::Key);
    let mut audit = scope(&s);
    let v = key_verify(&mut store, &s, &mut audit, &api_key.value, None, NOW).unwrap();
    assert_eq!(v.user.id, u.id);
    assert_eq!(v.key, api_key.value);
    let mut audit = scope(&s);
    assert_eq!(key_revoke(&mut store, &s, &mut audit, &api_key.value, None, NOW), Ok(1));
    let mut audit = scope(&s);
    let r = key_verify(&mut store, &s, &mut audit, &api_key.value, None, NOW);
    assert_eq!(r.err(), Some(CoreError::BadRequest));
}

#[test]
fn api_auth_key_verify_bad_request_unknown_user_key_for_service() {
    let (mut store, s1, u) = seeded();
    let api_key = key(&mut store, &s1, &u, KeyType::Key);
    let s2 = service(&mut store, "second");
    let mut audit = scope(&s2);
    let r = key_verify(&mut store, &s2, &mut audit, &api_key.value, None, NOW);
    assert_eq!(r.err(), Some(CoreError::BadRequest));
}

#[test]
fn api_auth_key_verify_bad_request_invalid_key() {
    let (mut store, s, _) = seeded();
    let mut audit = scope(&s);
    let r = key_verify(&mut store, &s, &mut audit, &email("invalid-key"), None, NOW);
    assert_eq!(r.err(), Some(CoreError::BadRequest));
}

#[test]
fn api_auth_local_reset_password_ok_unknown_email() {
    let (mut store, s, _) = seeded();
    let users_before = store.users().len();
    let audits_before = store.audits().len();
    let mut audit = scope(&s);
    let r = reset_password(&mut store, &s, &mut audit, &email("unknown@e"), 3600, NOW);
    assert!(matches!(r, Ok(None)));
    assert_eq!(store.users().len(), users_before);
    assert_eq!(store.audits().len(), audits_before + 1);
    match &store.audits().last().unwrap().event {
        AuditEvent::Internal(t, m) => {
            assert_eq!(*t, AuditType::ResetPasswordError);
            assert_eq!(*m, AuditMessage::UserNotFound);
        },
        _ => panic!("expected an engine audit"),
    }
}

#[test]
fn api_auth_local_reset_password_ok() {
    let (mut store, s, u) = seeded();
    let mut audit = scope(&s);
    let m = reset_password(&mut store, &s, &mut audit, &email("u@e"), 3600, NOW).unwrap().unwrap();
    assert_eq!(m.user.id, u.id);
    let mut audit = scope(&s);
    let r = reset_password_confirm(&mut store, &s, &mut audit, &m.token, &email("new password"), NOW);
    assert_eq!(r, Ok(()));
    let mut audit = scope(&s);
    let r = reset_password_confirm(&mut store, &s, &mut audit, &m.token, &email("new password"), NOW);
    assert_eq!(r, Err(CoreError::BadRequest));
    let mut audit = scope(&s);
    let old = login(&mut store, &s, &mut audit, &email("u@e"), &email(PASSWORD), 60, 60, NOW);
    assert_eq!(old.err(), Some(CoreError::BadRequest));
    let mut audit = scope(&s);
    let t = login(&mut store, &s, &mut audit, &email("u@e"), &email("new password"), 60, 60, NOW)
        .unwrap();
    assert_eq!(t.user.id, u.id);
}

#[test]
fn reset_password_refused_when_not_allowed() {
    let mut store = Store::new();
    let s = service(&mut store, "test");
    let u = user(&mut store, "n@e", false, false);
    key(&mut store, &s, &u, KeyType::Token);
    let mut audit = scope(&s);
    let r = reset_password(&mut store, &s, &mut audit, &email("n@e"), 3600, NOW);
    assert!(matches!(r, Ok(None)));
}

#[test]
fn update_email_revoke_disables_user_and_keys() {
    let (mut store, s, u) = seeded();
    key(&mut store, &s, &u, KeyType::Key);
    let keys_before = store.keys().len();
    let mut audit = scope(&s);
    let m = update_email(&mut store, &s, &mut audit, u.id, &email(PASSWORD), email("v@e"), 3600, NOW)
        .unwrap();
    assert_eq!(m.old_email, "u@e");
    assert_eq!(m.user.email, "v@e");
    let mut audit = scope(&s);
    let count = update_email_revoke(&mut store, &s, &mut audit, &m.token, None, NOW).unwrap();
    assert_eq!(count, keys_before + 1);
    let stored = store.users().iter().find(|x| x.id == u.id).unwrap();
    assert!(!stored.is_enabled);
    assert!(store.keys().iter().all(|k| k.is_revoked && !k.is_enabled));
    let mut audit = scope(&s);
    let again = update_email_revoke(&mut store, &s, &mut audit, &m.token, None, NOW);
    assert_eq!(again, Err(CoreError::BadRequest));
}

#[test]
fn update_email_conflict_with_other_user() {
    let (mut store, s, u) = seeded();
    user(&mut store, "taken@e", true, false);
    let mut audit = scope(&s);
    let r = update_email(&mut store, &s, &mut audit, u.id, &email(PASSWORD), email("taken@e"), 60, NOW);
    assert_eq!(r.err(), Some(CoreError::Driver(DriverError::Conflict)));
}

#[test]
fn update_password_then_revoke() {
    let (mut store, s, u) = seeded();
    let mut audit = scope(&s);
    let m = update_password(
        &mut store,
        &s,
        &mut audit,
        u.id,
        &email(PASSWORD),
        &email("another password"),
        3600,
        NOW,
    )
    .unwrap();
    assert_eq!(m.user.id, u.id);
    let mut audit = scope(&s);
    let t = login(&mut store, &s, &mut audit, &email("u@e"), &email("another password"), 60, 60, NOW);
    assert!(t.is_ok());
    let mut audit = scope(&s);
    assert_eq!(update_password_revoke(&mut store, &s, &mut audit, &m.token, None, NOW), Ok(2));
    let mut audit = scope(&s);
    let t = login(&mut store, &s, &mut audit, &email("u@e"), &email("another password"), 60, 60, NOW);
    assert_eq!(t.err(), Some(CoreError::BadRequest));
}

#[test]
fn csrf_is_single_use() {
    let (mut store, s, _) = seeded();
    let other = service(&mut store, "other");
    let c = csrf_create(&mut store, &s, None, NOW).unwrap();
    assert_eq!(c.ttl, NOW + 3600);
    let mut audit = scope(&other);
    assert_eq!(csrf_verify(&mut store, &other, &mut audit, c.key, NOW), Err(CoreError::BadRequest));
    let c = csrf_create(&mut store, &s, Some(10), NOW).unwrap();
    let mut audit = scope(&s);
    assert_eq!(csrf_verify(&mut store, &s, &mut audit, c.key, NOW), Ok(()));
    let mut audit = scope(&s);
    assert_eq!(csrf_verify(&mut store, &s, &mut audit, c.key, NOW), Err(CoreError::BadRequest));
    let c = csrf_create(&mut store, &s, Some(10), NOW).unwrap();
    let mut audit = scope(&s);
    assert_eq!(csrf_verify(&mut store, &s, &mut audit, c.key, NOW + 10), Err(CoreError::BadRequest));
    assert!(store.csrfs().is_empty());
}

#[test]
fn oauth2_login_requires_matching_service() {
    let (mut store, s, u) = seeded();
    let other = service(&mut store, "other");
    let mut audit = scope(&s);
    let r = oauth2_login(&mut store, &s, &mut audit, other.id, &email("u@e"), 60, 60, NOW);
    assert_eq!(r.err(), Some(CoreError::BadRequest));
    let mut audit = scope(&s);
    let (flow, t) = oauth2_login(&mut store, &s, &mut audit, s.id, &email("u@e"), 60, 60, NOW).unwrap();
    assert_eq!(flow.id, s.id);
    assert_eq!(t.user.id, u.id);
}

#[test]
fn second_active_token_key_is_refused() {
    let (mut store, s, u) = seeded();
    let request = KeyCreateRequest {
        is_enabled: true,
        name: String::from("Key Name"),
        type_: KeyType::Token,
        service_id: Some(s.id),
        user_id: Some(u.id),
    };
    let r = create_key(&mut store, request, NOW);
    assert_eq!(r.err(), Some(CoreError::Driver(DriverError::Conflict)));
}

#[test]
fn api_user_create_bad_request_duplicate_user_email() {
    let (mut store, _, _) = seeded();
    let request = UserCreateRequest::new(
        true,
        String::from("Other"),
        String::from("u@e"),
        String::from("en"),
        String::from("Europe/London"),
    );
    let r = create_user(&mut store, request, NOW);
    assert_eq!(r.err(), Some(CoreError::Driver(DriverError::Conflict)));
}

#[test]
fn totp_accepts_current_code_only() {
    let (mut store, s, u) = seeded();
    let totp_key = key(&mut store, &s, &u, KeyType::Totp);
    let code = libreauth::oath::TOTPBuilder::new()
        .base32_key(&totp_key.value)
        .finalize()
        .unwrap()
        .generate();
    let mut audit = scope(&s);
    assert_eq!(sso::auth::totp(&mut store, &s, &mut audit, u.id, &code, NOW), Ok(()));
    let wrong: String = code
        .chars()
        .map(|c| if c == '9' { '0' } else { char::from(c as u8 + 1) })
        .collect();
    let mut audit = scope(&s);
    assert_eq!(
        sso::auth::totp(&mut store, &s, &mut audit, u.id, &wrong, NOW),
        Err(CoreError::BadRequest)
    );
    let mut audit = scope(&s);
    assert_eq!(
        sso::auth::totp(&mut store, &s, &mut audit, u.id + 1, &code, NOW),
        Err(CoreError::BadRequest)
    );
}

#[test]
fn one_active_key_per_slot_and_revocation_is_terminal() {
    let (mut store, s, u) = seeded();
    let first = store.keys()[0].clone();
    let second = create_key(
        &mut store,
        KeyCreateRequest {
            is_enabled: false,
            name: String::from("spare"),
            type_: KeyType::Token,
            service_id: Some(s.id),
            user_id: Some(u.id),
        },
        NOW,
    )
    .unwrap();
    assert_eq!(
        store.key_update(second.id, Some(true), None, None, NOW).err(),
        Some(DriverError::Conflict)
    );
    let revoked = store.key_update(first.id, None, Some(true), None, NOW).unwrap();
    assert!(revoked.is_revoked && !revoked.is_enabled);
    let enabled = store.key_update(second.id, Some(true), None, Some(String::from("now used")), NOW).unwrap();
    assert!(enabled.is_enabled && !enabled.is_revoked);
    assert_eq!(enabled.name, "now used");
    let still = store.key_update(first.id, Some(true), Some(false), None, NOW).unwrap();
    assert!(still.is_revoked && !still.is_enabled);
    assert_eq!(store.key_update(12345, None, None, None, NOW).err(), Some(DriverError::NotFound));
}

use sso::jwt::{encode_token, JwtClaimsType};

#[test]
fn token_revoke_refuses_nonce_of_other_service() {
    let (mut store, s, u) = seeded();
    let other = service(&mut store, "other");
    let foreign = csrf_create(&mut store, &other, None, NOW).unwrap();
    let secret = store.keys()[0].value.clone();
    let (token, _) = encode_token(
        s.id,
        u.id,
        JwtClaimsType::RefreshToken,
        Some(foreign.key),
        &secret,
        NOW,
        60,
    )
    .unwrap();
    let mut audit = scope(&s);
    let r = token_revoke(&mut store, &s, &mut audit, &token, None, NOW);
    assert_eq!(r, Err(CoreError::BadRequest));
    assert!(store.keys()[0].is_enabled && !store.keys()[0].is_revoked);
    match &store.audits().last().unwrap().event {
        AuditEvent::Internal(t, m) => {
            assert_eq!(*t, AuditType::TokenRevokeError);
            assert_eq!(*m, AuditMessage::CsrfNotFoundOrUsed);
        },
        _ => panic!("expected an engine audit"),
    }
}

#[test]
fn refresh_refuses_nonce_of_other_service() {
    let (mut store, s, u) = seeded();
    let other = service(&mut store, "other");
    let foreign = csrf_create(&mut store, &other, None, NOW).unwrap();
    let secret = store.keys()[0].value.clone();
    let (token, _) = encode_token(
        s.id,
        u.id,
        JwtClaimsType::RefreshToken,
        Some(foreign.key),
        &secret,
        NOW,
        60,
    )
    .unwrap();
    let mut audit = scope(&s);
    let r = token_refresh(&mut store, &s, &mut audit, &token, None, 60, 60, NOW);
    assert_eq!(r.err(), Some(CoreError::BadRequest));
    match &store.audits().last().unwrap().event {
        AuditEvent::Internal(t, m) => {
            assert_eq!(*t, AuditType::TokenRefreshError);
            assert_eq!(*m, AuditMessage::CsrfNotFoundOrUsed);
        },
        _ => panic!("expected an engine audit"),
    }
}

#[test]
fn hash_with_too_many_lanes_is_refused_not_run() {
    let mut store = Store::new();
    let s = service(&mut store, "test");
    let u = User {
        id: 77,
        created_at: NOW,
        updated_at: NOW,
        is_enabled: true,
        name: String::from("L"),
        email: String::from("l@e"),
        locale: String::from("en"),
        timezone: String::from("UTC"),
        password_allow_reset: false,
        password_require_update: false,
        password_hash: Some(String::from(
            "$argon2$lanes=128,mem=7,passes=1,len=32$c2FsdHNhbHQ$aGFzaGhhc2hoYXNoaGFzaGhhc2hoYXNoaGFzaGhhc2g",
        )),
    };
    store.user_insert(u.clone()).unwrap();
    key(&mut store, &s, &u, KeyType::Token);
    let mut audit = scope(&s);
    let r = login(&mut store, &s, &mut audit, &email("l@e"), &email("long enough"), 60, 60, NOW);
    assert_eq!(r.err(), Some(CoreError::BadRequest));
}

#[test]
fn refused_new_password_is_audited_after_checks() {
    let (mut store, s, u) = seeded();
    let mut audit = scope(&s);
    let r = update_password(&mut store, &s, &mut audit, u.id, &email(PASSWORD), &email("short"), 60, NOW);
    assert_eq!(r.err(), Some(CoreError::BadRequest));
    match &store.audits().last().unwrap().event {
        AuditEvent::Internal(t, m) => {
            assert_eq!(*t, AuditType::UpdatePasswordError);
            assert_eq!(*m, AuditMessage::PasswordRefused);
        },
        _ => panic!("expected an engine audit"),
    }
    assert!(store.csrfs().is_empty());
    let mut audit = scope(&s);
    let r = update_password(&mut store, &s, &mut audit, u.id, &email("wrong password"), &email("short"), 60, NOW);
    assert_eq!(r.err(), Some(CoreError::BadRequest));
    match &store.audits().last().unwrap().event {
        AuditEvent::Internal(_, m) => assert_eq!(*m, AuditMessage::PasswordNotSetOrIncorrect),
        _ => panic!("expected an engine audit"),
    }
}

#[test]
fn login_failure_audit_names_user_and_key() {
    let (mut store, s, u) = seeded();
    let k = store.keys()[0].id;
    let mut audit = scope(&s);
    let r = login(&mut store, &s, &mut audit, &email("u@e"), &email("wrong password"), 60, 60, NOW);
    assert_eq!(r.err(), Some(CoreError::BadRequest));
    let a = store.audits().last().unwrap();
    assert_eq!(a.user_id, Some(u.id));
    assert_eq!(a.user_key_id, Some(k));
    assert_eq!(a.service_id, Some(s.id));
}

use sso::auth::{csrf_insert_drawn, totp_result};

#[test]
fn totp_result_decides_from_the_check() {
    let (mut store, s, _) = seeded();
    let audit = scope(&s);
    let audits = store.audits().len();
    assert_eq!(totp_result(&mut store, &audit, Some(true), NOW), Ok(()));
    assert_eq!(store.audits().len(), audits);
    assert_eq!(totp_result(&mut store, &audit, Some(false), NOW), Err(CoreError::BadRequest));
    assert_eq!(totp_result(&mut store, &audit, None, NOW), Err(CoreError::BadRequest));
    assert_eq!(store.audits().len(), audits + 2);
    match &store.audits().last().unwrap().event {
        AuditEvent::Internal(t, m) => {
            assert_eq!(*t, AuditType::TotpError);
            assert_eq!(*m, AuditMessage::TotpInvalid);
        },
        _ => panic!("expected an engine audit"),
    }
}

#[test]
fn drawn_nonce_keys_avoid_and_collide() {
    let (mut store, s, _) = seeded();
    let c = csrf_insert_drawn(&mut store, &s, 5, NOW + 10, NOW, None).unwrap();
    assert_eq!(c.key, 5);
    let d = csrf_insert_drawn(&mut store, &s, 7, NOW + 10, NOW, Some(7)).unwrap();
    assert_eq!(d.key, 8);
    let e = csrf_insert_drawn(&mut store, &s, u128::MAX, NOW + 10, NOW, Some(u128::MAX)).unwrap();
    assert_eq!(e.key, 0);
    assert_eq!(
        csrf_insert_drawn(&mut store, &s, 5, NOW + 10, NOW, None).err(),
        Some(CoreError::Driver(DriverError::Conflict))
    );
    assert_eq!(store.csrfs().len(), 3);
}

#[test]
fn audit_ids_are_fresh() {
    let (mut store, s, _) = seeded();
    let audit = scope(&s);
    for _ in 0..3 {
        audit.create_internal(&mut store, AuditType::Login, AuditMessage::Login, NOW);
    }
    let ids: Vec<u128> = store.audits().iter().map(|a| a.id).collect();
    let taken = ids[0];
    let fresh = store.fresh_audit_id(taken);
    assert!(!ids.contains(&fresh));
    assert!(fresh <= ids.len() as u128);
    let unused = (0..).map(|x: u128| x + 1000).find(|x| !ids.contains(x)).unwrap();
    assert_eq!(store.fresh_audit_id(unused), unused);
}
