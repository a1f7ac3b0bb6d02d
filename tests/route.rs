use sso::api::{create_key, create_service, create_user, KeyCreateRequest, ServiceCreateRequest, UserCreateRequest};
use sso::error::CoreError;
use sso::route::{key, local, token};
use sso::server::{request_audit_meta, Configuration, Data, Error};
use sso::store::Store;
use sso::types::{AuditData, AuditEvent, AuditMeta, AuditType, KeyType};

const NOW: i64 = 1_700_000_000;

fn meta() -> AuditMeta {
    request_audit_meta(Some(String::from("agent")), Some(String::from("10.1.1.1")), None).unwrap()
}

/// Data with one service, its key value, and a user with a token key.
fn data() -> (Data, String, u128) {
    let mut store = Store::new();
    let s = create_service(
        &mut store,
        ServiceCreateRequest::new(true, String::from("s"), String::from("http://localhost")),
        NOW,
    )
    .unwrap();
    let service_key = create_key(
        &mut store,
        KeyCreateRequest { is_enabled: true, name: String::from("s"), type_: KeyType::Key, service_id: Some(s.id), user_id: None },
        NOW,
    )
    .unwrap();
    let u = create_user(
        &mut store,
        UserCreateRequest::new(true, String::from("U"), String::from("u@e"), String::from("en"), String::from("UTC"))
            .with_password(true, false, String::from("pass word")),
        NOW,
    )
    .unwrap();
    create_key(
        &mut store,
        KeyCreateRequest { is_enabled: true, name: String::from("t"), type_: KeyType::Token, service_id: Some(s.id), user_id: Some(u.id) },
        NOW,
    )
    .unwrap();
    (Data::new(Configuration::new(String::from("127.0.0.1:0")), store), service_key.value, u.id)
}

#[test]
fn request_audit_meta_requires_agent_and_remote() {
    assert!(matches!(request_audit_meta(None, Some(String::from("r")), None), Err(Error::BadRequest)));
    assert!(matches!(request_audit_meta(Some(String::from("a")), None, None), Err(Error::BadRequest)));
    let m = request_audit_meta(Some(String::from("a")), Some(String::from("r")), Some(String::from("f"))).unwrap();
    assert_eq!(m.forwarded.as_deref(), Some("f"));
}

#[test]
fn login_and_verify_through_handlers() {
    let (mut d, sk, uid) = data();
    let t = local::login_inner(&mut d, meta(), Some(sk.clone()), String::from("u@e"), String::from("pass word"), NOW)
        .unwrap();
    assert_eq!(t.user.id, uid);
    assert_eq!(t.access_token_expires, NOW + d.configuration().access_token_expires);
    let annotation = AuditData { type_: String::from("client:verify"), data: String::from("{\"x\":1}") };
    let v = token::verify_inner(&mut d, meta(), Some(sk.clone()), t.access_token.clone(), Some(annotation), NOW)
        .unwrap();
    assert_eq!(v.user.id, uid);
    match &d.driver().audits().last().unwrap().event {
        AuditEvent::Client(a) => assert_eq!(a.type_, "client:verify"),
        _ => panic!("expected the client's annotation"),
    }
    let r = token::refresh_inner(&mut d, meta(), Some(sk.clone()), t.refresh_token.clone(), None, NOW);
    assert!(r.is_ok());
    assert_eq!(token::revoke_inner(&mut d, meta(), Some(sk.clone()), t.access_token.clone(), None, NOW), Ok(1));
    let r = token::verify_inner(&mut d, meta(), Some(sk), t.access_token, None, NOW);
    assert_eq!(r.err(), Some(CoreError::BadRequest));
}

#[test]
fn handlers_refuse_missing_or_unknown_credentials() {
    let (mut d, _, _) = data();
    let audits = d.driver().audits().len();
    let r = local::login_inner(&mut d, meta(), None, String::from("u@e"), String::from("pass word"), NOW);
    assert_eq!(r.err(), Some(CoreError::Unauthorised));
    let r = key::verify_inner(&mut d, meta(), Some(String::from("wrong")), String::from("k"), None, NOW);
    assert_eq!(r.err(), Some(CoreError::Forbidden));
    let r = local::reset_password_inner(&mut d, meta(), Some(String::from("wrong")), String::from("u@e"), NOW);
    assert_eq!(r.err(), Some(CoreError::Forbidden));
    assert_eq!(d.driver().audits().len(), audits);
}

#[test]
fn reset_password_silence_through_handler() {
    let (mut d, sk, _) = data();
    let users = d.driver().users().len();
    let audits = d.driver().audits().len();
    let r = local::reset_password_inner(&mut d, meta(), Some(sk), String::from("unknown@e"), NOW);
    assert!(matches!(r, Ok(None)));
    assert_eq!(d.driver().users().len(), users);
    assert_eq!(d.driver().audits().len(), audits + 1);
    match &d.driver().audits().last().unwrap().event {
        AuditEvent::Internal(t, _) => assert_eq!(*t, AuditType::ResetPasswordError),
        _ => panic!("expected an engine audit"),
    }
}
