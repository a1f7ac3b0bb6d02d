//! The authentication engine: login, token verify / refresh / revoke, key
//! verify / revoke, password reset and update flows, TOTP and OAuth2 login.
//!
//! Every operation works on a store, the calling service, the request's
//! audit scope and the current time. Each `*_check` spec function gives the
//! decision an operation makes from the store it starts on.
use crate::audit::{snapshot, AuditBuilder};
use crate::error::{CoreError, CoreResult, DriverError};
use crate::jwt::{
    decode_result, decode_token, decode_unsafe, encode_token, expiry_of, hmac_sha256_of,
    claims_bytes, str_bytes, token_bytes, unsafe_result, Claims, JwtClaimsType,
};
use crate::secret::{
    lanes_bounded, password_hash_phc, password_matches, password_refused_of, password_valid_of,
    phc_lanes_bounded, random_id,
};
use vstd::utf8::encode_utf8;
use crate::store::{
    last_index,
    audited, csrf_has_key, csrf_live, csrfs_after_read, evolved, key_has_id, key_in_slot, key_active_in_slot, key_of_value, revoked, service_has_id, lemma_audited_evolved, lemma_audited_refl,
    lemma_audited_trans, lemma_evolved_audited, lemma_evolved_frame, lemma_evolved_trans, lemma_last_index,
    user_has_email, user_has_id, Store, StoreView,
};
use crate::types::{
    Audit, AuditData, AuditEvent, AuditMessage, AuditType, Csrf, Key, KeyType, Service, User, UserUpdate,
};
use vstd::prelude::*;

verus! {

broadcast use {lemma_audited_trans, lemma_evolved_audited, lemma_audited_evolved};

/// `new` is `old` with one audit appended, of this operation.
pub open spec fn audit_added(old: StoreView, new: StoreView, type_: AuditType) -> bool {
    &&& new == old.with_audits(old.audits.push(new.audits.last()))
    &&& new.audits.last().event matches AuditEvent::Internal(t, _) && t == type_
}

/// The audit scope keeps its request metadata, service and key.
pub open spec fn scope_kept(old: AuditBuilder, new: AuditBuilder) -> bool {
    new.meta == old.meta && new.service == old.service && new.key == old.key
}

/// A read user that must exist and be enabled.
pub open spec fn checked_user(u: Option<User>) -> CoreResult<User> {
    match u {
        Some(u) => if u.is_enabled {
            Ok(u)
        } else {
            Err(CoreError::BadRequest)
        },
        None => Err(CoreError::BadRequest),
    }
}

/// A read user that must exist.
pub open spec fn present_user(u: Option<User>) -> CoreResult<User> {
    match u {
        Some(u) => Ok(u),
        None => Err(CoreError::BadRequest),
    }
}

/// A read key that must exist, be enabled and not be revoked.
pub open spec fn checked_key(k: Option<Key>) -> CoreResult<Key> {
    match k {
        Some(k) => if k.is_active() {
            Ok(k)
        } else {
            Err(CoreError::BadRequest)
        },
        None => Err(CoreError::BadRequest),
    }
}

/// A read key that must exist.
pub open spec fn present_key(k: Option<Key>) -> CoreResult<Key> {
    match k {
        Some(k) => Ok(k),
        None => Err(CoreError::BadRequest),
    }
}

/// A read service that must exist and be enabled.
pub open spec fn checked_service(s: Option<Service>) -> CoreResult<Service> {
    match s {
        Some(s) => if s.is_enabled {
            Ok(s)
        } else {
            Err(CoreError::BadRequest)
        },
        None => Err(CoreError::BadRequest),
    }
}

/// A password matches a user's hash; a user without one matches nothing,
/// nor does a hash that asks for more lanes than it can be checked with.
pub open spec fn password_ok(hash: Option<String>, password: Seq<char>) -> bool {
    match hash {
        Some(h) => phc_lanes_bounded(encode_utf8(h@)) && password_valid_of(h@, password),
        None => false,
    }
}

/// A user read by id and, where `checked`, required to be enabled.
pub open spec fn user_by_id(v: StoreView, id: u128, checked: bool) -> CoreResult<User> {
    if checked {
        checked_user(v.user(id))
    } else {
        present_user(v.user(id))
    }
}

/// A user's key read by service and type and, where `checked`, required to
/// be active.
pub open spec fn user_key(
    v: StoreView,
    service_id: u128,
    user_id: u128,
    type_: KeyType,
    checked: bool,
) -> CoreResult<Key> {
    if checked {
        checked_key(v.key_by_user(service_id, user_id, type_))
    } else {
        present_key(v.key_by_user(service_id, user_id, type_))
    }
}

fn read_user_by_id(
    store: &mut Store,
    audit: &mut AuditBuilder,
    audit_type: AuditType,
    id: u128,
    checked: bool,
    now: i64,
) -> (r: CoreResult<User>)
    requires
        old(store).wf(),
    ensures
        final(store).wf(),
        audited(old(store)@, final(store)@),
        r is Ok ==> final(store)@ == old(store)@,
        r is Err ==> audit_added(old(store)@, final(store)@, audit_type),
        r is Err ==> final(store)@.audits.last() == snapshot(
            *final(audit),
            final(store)@.audits.last().id,
            now,
            final(store)@.audits.last().event,
        ),
        r is Err ==> final(store)@.audits.last().event == AuditEvent::Internal(
            audit_type,
            if old(store)@.user(id) is None {
                AuditMessage::UserNotFound
            } else {
                AuditMessage::UserDisabled
            },
        ),
        final(audit).user == (if old(store)@.user(id) is Some {
            Some(id)
        } else {
            old(audit).user
        }),
        final(audit).user_key == old(audit).user_key,
        scope_kept(*old(audit), *final(audit)),
        r == user_by_id(old(store)@, id, checked),
        r matches Ok(u) ==> u.id == id,
{
    proof {
        lemma_last_index(store@.users, user_has_id(id));
        lemma_audited_refl(store@);
    }
    match store.user_read_opt(id) {
        Some(user) => {
            audit.set_user(Some(&user));
            if checked && !user.is_enabled {
                audit.create_internal(store, audit_type, AuditMessage::UserDisabled, now);
                return Err(CoreError::BadRequest);
            }
            Ok(user)
        },
        None => {
            audit.create_internal(store, audit_type, AuditMessage::UserNotFound, now);
            Err(CoreError::BadRequest)
        },
    }
}

fn read_user_by_email(
    store: &mut Store,
    audit: &mut AuditBuilder,
    audit_type: AuditType,
    email: &String,
    now: i64,
) -> (r: CoreResult<User>)
    requires
        old(store).wf(),
    ensures
        final(store).wf(),
        audited(old(store)@, final(store)@),
        r is Ok ==> final(store)@ == old(store)@,
        r is Err ==> audit_added(old(store)@, final(store)@, audit_type),
        r is Err ==> final(store)@.audits.last() == snapshot(
            *final(audit),
            final(store)@.audits.last().id,
            now,
            final(store)@.audits.last().event,
        ),
        r is Err ==> final(store)@.audits.last().event == AuditEvent::Internal(
            audit_type,
            if old(store)@.user_by_email(email@) is None {
                AuditMessage::UserNotFound
            } else {
                AuditMessage::UserDisabled
            },
        ),
        final(audit).user == (if old(store)@.user_by_email(email@) is Some {
            Some(old(store)@.user_by_email(email@)->0.id)
        } else {
            old(audit).user
        }),
        final(audit).user_key == old(audit).user_key,
        scope_kept(*old(audit), *final(audit)),
        r == checked_user(old(store)@.user_by_email(email@)),
        r matches Ok(u) ==> u.email@ == email@,
{
    proof {
        lemma_last_index(store@.users, user_has_email(email@));
        lemma_audited_refl(store@);
    }
    match store.user_read_by_email_opt(email) {
        Some(user) => {
            audit.set_user(Some(&user));
            if !user.is_enabled {
                audit.create_internal(store, audit_type, AuditMessage::UserDisabled, now);
                return Err(CoreError::BadRequest);
            }
            Ok(user)
        },
        None => {
            audit.create_internal(store, audit_type, AuditMessage::UserNotFound, now);
            Err(CoreError::BadRequest)
        },
    }
}

fn read_key_by_user(
    store: &mut Store,
    service: &Service,
    audit: &mut AuditBuilder,
    audit_type: AuditType,
    user: &User,
    key_type: KeyType,
    checked: bool,
    now: i64,
) -> (r: CoreResult<Key>)
    requires
        old(store).wf(),
    ensures
        final(store).wf(),
        audited(old(store)@, final(store)@),
        r is Ok ==> final(store)@ == old(store)@,
        r is Err ==> audit_added(old(store)@, final(store)@, audit_type),
        r is Err ==> final(store)@.audits.last() == snapshot(
            *final(audit),
            final(store)@.audits.last().id,
            now,
            final(store)@.audits.last().event,
        ),
        r is Err ==> final(store)@.audits.last().event == AuditEvent::Internal(
            audit_type,
            if old(store)@.key_by_user(service.id, user.id, key_type) is None {
                AuditMessage::KeyNotFound
            } else {
                AuditMessage::KeyDisabledOrRevoked
            },
        ),
        final(audit).user_key == (if old(store)@.key_by_user(service.id, user.id, key_type) is Some {
            Some(old(store)@.key_by_user(service.id, user.id, key_type)->0.id)
        } else {
            old(audit).user_key
        }),
        final(audit).user == old(audit).user,
        scope_kept(*old(audit), *final(audit)),
        r == user_key(old(store)@, service.id, user.id, key_type, checked),
{
    proof {
        lemma_audited_refl(store@);
    }
    match store.key_read_by_user(service.id, user.id, key_type) {
        Some(key) => {
            audit.set_user_key(Some(&key));
            if checked && (!key.is_enabled || key.is_revoked) {
                audit.create_internal(store, audit_type, AuditMessage::KeyDisabledOrRevoked, now);
                return Err(CoreError::BadRequest);
            }
            Ok(key)
        },
        None => {
            audit.create_internal(store, audit_type, AuditMessage::KeyNotFound, now);
            Err(CoreError::BadRequest)
        },
    }
}

fn read_key_by_value(
    store: &mut Store,
    service: &Service,
    audit: &mut AuditBuilder,
    audit_type: AuditType,
    value: &String,
    key_type: KeyType,
    checked: bool,
    now: i64,
) -> (r: CoreResult<Key>)
    requires
        old(store).wf(),
    ensures
        final(store).wf(),
        audited(old(store)@, final(store)@),
        r is Ok ==> final(store)@ == old(store)@,
        r is Err ==> audit_added(old(store)@, final(store)@, audit_type),
        scope_kept(*old(audit), *final(audit)),
        r == if checked {
            checked_key(old(store)@.key_by_value(service.id, value@, key_type))
        } else {
            present_key(old(store)@.key_by_value(service.id, value@, key_type))
        },
{
    proof {
        lemma_audited_refl(store@);
    }
    match store.key_read_by_value(service.id, value, key_type) {
        Some(key) => {
            audit.set_user_key(Some(&key));
            if checked && (!key.is_enabled || key.is_revoked) {
                audit.create_internal(store, audit_type, AuditMessage::KeyDisabledOrRevoked, now);
                return Err(CoreError::BadRequest);
            }
            Ok(key)
        },
        None => {
            audit.create_internal(store, audit_type, AuditMessage::KeyNotFound, now);
            Err(CoreError::BadRequest)
        },
    }
}

/// An access token and a refresh token issued together.
#[derive(Clone, Debug)]
pub struct UserToken {
    pub user: User,
    pub access_token: String,
    pub access_token_expires: i64,
    pub refresh_token: String,
    pub refresh_token_expires: i64,
}

/// A verified access token.
#[derive(Clone, Debug)]
pub struct UserTokenAccess {
    pub user: User,
    pub access_token: String,
    pub access_token_expires: i64,
}

/// A verified API key.
#[derive(Clone, Debug)]
pub struct UserKey {
    pub user: User,
    pub key: String,
}

/// `t` is the pair issued to `user` by `service_id`, signed with `key`'s
/// value, the refresh token bound to the nonce `csrf`.
pub open spec fn token_pair(
    t: UserToken,
    csrf: Csrf,
    service_id: u128,
    user: User,
    key: Key,
    access_exp: i64,
    refresh_exp: i64,
) -> bool {
    let access = Claims {
        iss: service_id,
        sub: user.id,
        type_: JwtClaimsType::AccessToken,
        exp: access_exp,
        csrf: None,
    };
    let refresh = Claims {
        iss: service_id,
        sub: user.id,
        type_: JwtClaimsType::RefreshToken,
        exp: refresh_exp,
        csrf: Some(csrf.key),
    };
    &&& t.user == user
    &&& t.access_token_expires == access_exp
    &&& t.refresh_token_expires == refresh_exp
    &&& str_bytes(&t.access_token) == token_bytes(access, str_bytes(&key.value))
    &&& hmac_sha256_of(str_bytes(&key.value), claims_bytes(access)).len() == 32
    &&& str_bytes(&t.refresh_token) == token_bytes(refresh, str_bytes(&key.value))
    &&& hmac_sha256_of(str_bytes(&key.value), claims_bytes(refresh)).len() == 32
    &&& csrf.service_id == service_id
    &&& csrf.ttl == refresh_exp
}

/// Both expiries of a token pair made at `now` are valid.
pub open spec fn pair_expiries_ok(now: i64, access_expires: i64, refresh_expires: i64) -> bool {
    expiry_of(now, access_expires) is Some && expiry_of(now, refresh_expires) is Some
}

/// `after` is `before` with one more CSRF nonce, under a key that was free.
pub open spec fn csrf_added(before: Seq<Csrf>, after: Seq<Csrf>) -> bool {
    &&& after.len() == before.len() + 1
    &&& after == before.push(after.last())
    &&& forall|i: int| 0 <= i < before.len() ==> #[trigger] before[i].key != after.last().key
}

/// The key a nonce takes for a random draw: the draw itself, unless it is
/// the key to avoid, then the next value.
pub open spec fn adjusted_key(drawn: u128, avoid: Option<u128>) -> u128 {
    if avoid == Some(drawn) {
        if drawn == u128::MAX {
            0
        } else {
            (drawn + 1) as u128
        }
    } else {
        drawn
    }
}

/// Stores a nonce for the service under the key adjusted from a random
/// draw; it succeeds exactly when that key is free.
pub fn csrf_insert_drawn(
    store: &mut Store,
    service: &Service,
    drawn: u128,
    ttl: i64,
    now: i64,
    avoid: Option<u128>,
) -> (r: CoreResult<Csrf>)
    requires
        old(store).wf(),
    ensures
        final(store).wf(),
        r is Ok <==> old(store)@.csrf(adjusted_key(drawn, avoid)) is None,
        match r {
            Ok(c) => c == (Csrf {
                created_at: now,
                key: adjusted_key(drawn, avoid),
                value: adjusted_key(drawn, avoid),
                ttl,
                service_id: service.id,
            }) && avoid != Some(c.key) && final(store)@ == old(store)@.with_csrfs(
                old(store)@.csrfs.push(c),
            ),
            Err(e) => e == CoreError::Driver(DriverError::Conflict) && final(store)@ == old(store)@
                && old(store)@.csrfs.len() > 0,
        },
{
    let key = match avoid {
        Some(a) if a == drawn => if drawn == u128::MAX {
            0
        } else {
            drawn + 1
        },
        _ => drawn,
    };
    proof {
        lemma_last_index(store@.csrfs, csrf_has_key(key));
    }
    let csrf = Csrf { created_at: now, key, value: key, ttl, service_id: service.id };
    match store.csrf_insert(csrf) {
        Ok(()) => Ok(csrf),
        Err(e) => Err(CoreError::Driver(e)),
    }
}

fn csrf_create_inner(
    store: &mut Store,
    service: &Service,
    expires: i64,
    now: i64,
    avoid: Option<u128>,
) -> (r: CoreResult<Csrf>)
    requires
        old(store).wf(),
    ensures
        final(store).wf(),
        expiry_of(now, expires) is None ==> r == Err::<Csrf, CoreError>(CoreError::BadRequest)
            && final(store)@ == old(store)@,
        expiry_of(now, expires) is Some ==> match r {
            Ok(c) => c.service_id == service.id && c.ttl == expiry_of(now, expires)->0 && c.value
                == c.key && c.created_at == now && old(store)@.csrf(c.key) is None && final(store)@
                == old(store)@.with_csrfs(old(store)@.csrfs.push(c)) && avoid != Some(c.key),
            Err(e) => e == CoreError::Driver(DriverError::Conflict) && final(store)@ == old(store)@
                && old(store)@.csrfs.len() > 0,
        },
{
    let ttl = match now.checked_add(expires) {
        Some(t) => t,
        None => return Err(CoreError::BadRequest),
    };
    if ttl < 0 {
        return Err(CoreError::BadRequest);
    }
    let drawn = random_id();
    csrf_insert_drawn(store, service, drawn, ttl, now, avoid)
}

/// Consumes a CSRF nonce that the calling service issued.
fn csrf_verify_inner(
    store: &mut Store,
    service: &Service,
    audit: &mut AuditBuilder,
    csrf_key: u128,
    audit_type: AuditType,
    now: i64,
) -> (r: CoreResult<()>)
    requires
        old(store).wf(),
    ensures
        final(store).wf(),
        scope_kept(*old(audit), *final(audit)),
        r is Err ==> final(store)@.audits.len() == old(store)@.audits.len() + 1
            && final(store)@.audits.last().event == AuditEvent::Internal(
            audit_type,
            AuditMessage::CsrfNotFoundOrUsed,
        ),
        r is Ok ==> final(store)@.audits == old(store)@.audits,
        r == csrf_check(old(store)@, service.id, csrf_key, now),
        evolved(
            old(store)@,
            final(store)@,
            old(store)@.users,
            old(store)@.keys,
            csrfs_after_read(old(store)@.csrfs, csrf_key, now),
        ),
{
    let res = store.csrf_read_opt(csrf_key, now);
    proof {
        lemma_audited_refl(store@);
    }
    match res {
        Some(csrf) => {
            if csrf.service_id != service.id {
                audit.create_internal(store, audit_type, AuditMessage::CsrfNotFoundOrUsed, now);
                return Err(CoreError::BadRequest);
            }
            Ok(())
        },
        None => {
            audit.create_internal(store, audit_type, AuditMessage::CsrfNotFoundOrUsed, now);
            Err(CoreError::BadRequest)
        },
    }
}

/// A nonce is live and was issued by this service.
pub open spec fn csrf_check(v: StoreView, service_id: u128, key: u128, now: i64) -> CoreResult<()> {
    match csrf_live(v, key, now) {
        Some(c) => if c.service_id == service_id {
            Ok(())
        } else {
            Err(CoreError::BadRequest)
        },
        None => Err(CoreError::BadRequest),
    }
}

pub fn password_check(hash: &Option<String>, password: &String) -> (r: bool)
    ensures
        r == password_ok(*hash, password@),
{
    match hash {
        Some(h) => lanes_bounded(h.as_str()) && password_matches(h.as_str(), password.as_str()),
        None => false,
    }
}

/// Issues an access token and a refresh token bound to a new nonce.
fn encode_user_token(
    store: &mut Store,
    service: &Service,
    user: User,
    key: &Key,
    access_token_expires: i64,
    refresh_token_expires: i64,
    now: i64,
    avoid: Option<u128>,
) -> (r: CoreResult<UserToken>)
    requires
        old(store).wf(),
    ensures
        final(store).wf(),
        !pair_expiries_ok(now, access_token_expires, refresh_token_expires) ==> r == Err::<
            UserToken,
            CoreError,
        >(CoreError::BadRequest) && final(store)@ == old(store)@,
        pair_expiries_ok(now, access_token_expires, refresh_token_expires) ==> match r {
            Ok(t) => csrf_added(old(store)@.csrfs, final(store)@.csrfs) && final(store)@ == old(store)@.with_csrfs(final(store)@.csrfs) && token_pair(
                t,
                final(store)@.csrfs.last(),
                service.id,
                user,
                *key,
                expiry_of(now, access_token_expires)->0,
                expiry_of(now, refresh_token_expires)->0,
            ) && avoid != Some(final(store)@.csrfs.last().key),
            Err(e) => e == CoreError::Driver(DriverError::Conflict) && final(store)@ == old(store)@
                && old(store)@.csrfs.len() > 0,
        },
{
    let access_ok = match now.checked_add(access_token_expires) {
        Some(e) => e >= 0,
        None => false,
    };
    let refresh_ok = match now.checked_add(refresh_token_expires) {
        Some(e) => e >= 0,
        None => false,
    };
    if !access_ok || !refresh_ok {
        return Err(CoreError::BadRequest);
    }
    let csrf = match csrf_create_inner(store, service, refresh_token_expires, now, avoid) {
        Ok(c) => c,
        Err(e) => return Err(e),
    };
    let (access_token, access_exp) = match encode_token(
        service.id,
        user.id,
        JwtClaimsType::AccessToken,
        None,
        &key.value,
        now,
        access_token_expires,
    ) {
        Ok(t) => t,
        Err(e) => return Err(e),
    };
    let (refresh_token, refresh_exp) = match encode_token(
        service.id,
        user.id,
        JwtClaimsType::RefreshToken,
        Some(csrf.key),
        &key.value,
        now,
        refresh_token_expires,
    ) {
        Ok(t) => t,
        Err(e) => return Err(e),
    };
    proof {
        assert(store@.csrfs.last() == csrf);
        lemma_last_index(old(store)@.csrfs, csrf_has_key(csrf.key));
        assert forall|i: int| 0 <= i < old(store)@.csrfs.len() implies #[trigger] old(store)@.csrfs[i].key != csrf.key by {
            assert(!csrf_has_key(csrf.key)(old(store)@.csrfs[i]));
        }
    }
    Ok(
        UserToken {
            user,
            access_token,
            access_token_expires: access_exp,
            refresh_token,
            refresh_token_expires: refresh_exp,
        },
    )
}

/// The decision of `token_verify`: the user and expiry of a valid access
/// token.
pub open spec fn verify_check(v: StoreView, service_id: u128, token: Seq<u8>, now: i64) -> CoreResult<
    (User, i64),
> {
    match unsafe_result(token, service_id) {
        Err(e) => Err(e),
        Ok((user_id, _)) => match user_by_id(v, user_id, true) {
            Err(e) => Err(e),
            Ok(u) => match user_key(v, service_id, user_id, KeyType::Token, true) {
                Err(e) => Err(e),
                Ok(k) => match decode_result(
                    token,
                    str_bytes(&k.value),
                    service_id,
                    user_id,
                    JwtClaimsType::AccessToken,
                    now,
                ) {
                    Err(e) => Err(e),
                    Ok((exp, _)) => Ok((u, exp)),
                },
            },
        },
    }
}

/// A verify gets past the reads and fails to decode the token.
pub open spec fn verify_decode_failed(v: StoreView, service_id: u128, token: Seq<u8>, now: i64) -> bool {
    match unsafe_result(token, service_id) {
        Ok((user_id, _)) => match user_key(v, service_id, user_id, KeyType::Token, true) {
            Ok(k) => user_by_id(v, user_id, true) is Ok && decode_result(
                token,
                str_bytes(&k.value),
                service_id,
                user_id,
                JwtClaimsType::AccessToken,
                now,
            ) is Err,
            Err(_) => false,
        },
        Err(_) => false,
    }
}

/// Verifies an access token.
pub fn token_verify(
    store: &mut Store,
    service: &Service,
    audit: &mut AuditBuilder,
    token: &String,
    audit_data: Option<&AuditData>,
    now: i64,
) -> (r: CoreResult<UserTokenAccess>)
    requires
        old(store).wf(),
    ensures
        final(store).wf(),
        verify_decode_failed(old(store)@, service.id, str_bytes(token), now)
            ==> final(store)@.audits.last().event == AuditEvent::Internal(
            AuditType::TokenVerifyError,
            AuditMessage::TokenInvalidOrExpired,
        ),
        unsafe_result(str_bytes(token), service.id) is Ok && verify_check(
            old(store)@,
            service.id,
            str_bytes(token),
            now,
        ) is Err ==> audit_added(old(store)@, final(store)@, AuditType::TokenVerifyError),
        audited(old(store)@, final(store)@),
        scope_kept(*old(audit), *final(audit)),
        verify_effect(
            old(store)@,
            final(store)@,
            service.id,
            str_bytes(token),
            now,
            r,
        ),

{
    proof {
        lemma_audited_refl(store@);
    }
    let (user_id, _) = match decode_unsafe(token, service.id) {
        Ok(d) => d,
        Err(e) => return Err(e),
    };
    let user = match read_user_by_id(store, audit, AuditType::TokenVerifyError, user_id, true, now) {
        Ok(u) => u,
        Err(e) => return Err(e),
    };
    let key = match read_key_by_user(
        store,
        service,
        audit,
        AuditType::TokenVerifyError,
        &user,
        KeyType::Token,
        true,
        now,
    ) {
        Ok(k) => k,
        Err(e) => return Err(e),
    };
    let access_token_expires = match decode_token(
        service.id,
        user.id,
        JwtClaimsType::AccessToken,
        &key.value,
        token,
        now,
    ) {
        Ok((exp, _)) => exp,
        Err(e) => {
            audit.create_internal(
                store,
                AuditType::TokenVerifyError,
                AuditMessage::TokenInvalidOrExpired,
                now,
            );
            return Err(e);
        },
    };
    if let Some(data) = audit_data {
        audit.create_unchecked(store, data, now);
    }
    Ok(UserTokenAccess { user, access_token: token.clone(), access_token_expires })
}

/// The decision of `login`: the user and token key of valid credentials.
pub open spec fn login_check(v: StoreView, service_id: u128, email: Seq<char>, password: Seq<char>) -> CoreResult<
    (User, Key),
> {
    match checked_user(v.user_by_email(email)) {
        Err(e) => Err(e),
        Ok(u) => match user_key(v, service_id, u.id, KeyType::Token, true) {
            Err(e) => Err(e),
            Ok(k) => if u.password_require_update {
                Err(CoreError::Forbidden)
            } else if !password_ok(u.password_hash, password) {
                Err(CoreError::BadRequest)
            } else {
                Ok((u, k))
            },
        },
    }
}

/// The audit message of a failed login.
pub open spec fn login_message(v: StoreView, service_id: u128, email: Seq<char>) -> AuditMessage {
    match v.user_by_email(email) {
        None => AuditMessage::UserNotFound,
        Some(u) => if !u.is_enabled {
            AuditMessage::UserDisabled
        } else {
            match v.key_by_user(service_id, u.id, KeyType::Token) {
                None => AuditMessage::KeyNotFound,
                Some(k) => if !k.is_active() {
                    AuditMessage::KeyDisabledOrRevoked
                } else if u.password_require_update {
                    AuditMessage::PasswordUpdateRequired
                } else {
                    AuditMessage::PasswordNotSetOrIncorrect
                },
            }
        },
    }
}

/// The token key a login reads, where it gets that far.
pub open spec fn login_key(v: StoreView, service_id: u128, email: Seq<char>) -> Option<Key> {
    match v.user_by_email(email) {
        Some(u) => if u.is_enabled {
            v.key_by_user(service_id, u.id, KeyType::Token)
        } else {
            None
        },
        None => None,
    }
}

/// Logs a user in by email and password and issues a token pair.
pub fn login(
    store: &mut Store,
    service: &Service,
    audit: &mut AuditBuilder,
    email: &String,
    password: &String,
    access_token_expires: i64,
    refresh_token_expires: i64,
    now: i64,
) -> (r: CoreResult<UserToken>)
    requires
        old(store).wf(),
    ensures
        final(store).wf(),
        login_check(old(store)@, service.id, email@, password@) is Err ==> ({
            let a = final(store)@.audits.last();
            &&& a.event == AuditEvent::Internal(
                AuditType::LoginError,
                login_message(old(store)@, service.id, email@),
            )
            &&& a.meta == old(audit).meta && a.service_id == old(audit).service && a.key_id == old(
                audit,
            ).key && a.created_at == now
            &&& old(store)@.user_by_email(email@) is Some ==> a.user_id == Some(
                old(store)@.user_by_email(email@)->0.id,
            )
            &&& login_key(old(store)@, service.id, email@) is Some ==> a.user_key_id == Some(
                login_key(old(store)@, service.id, email@)->0.id,
            )
        }),
        login_check(old(store)@, service.id, email@, password@) is Err ==> audit_added(
            old(store)@,
            final(store)@,
            AuditType::LoginError,
        ),
        r is Ok ==> final(store)@.audits.last().event == AuditEvent::Internal(
            AuditType::Login,
            AuditMessage::Login,
        ),
        scope_kept(*old(audit), *final(audit)),
        login_effect(
            old(store)@,
            final(store)@,
            service.id,
            email@,
            password@,
            access_token_expires,
            refresh_token_expires,
            now,
            r,
        ),

{
    proof {
        lemma_audited_refl(store@);
    }
    let user = match read_user_by_email(store, audit, AuditType::LoginError, email, now) {
        Ok(u) => u,
        Err(e) => return Err(e),
    };
    let key = match read_key_by_user(
        store,
        service,
        audit,
        AuditType::LoginError,
        &user,
        KeyType::Token,
        true,
        now,
    ) {
        Ok(k) => k,
        Err(e) => return Err(e),
    };
    if user.password_require_update {
        audit.create_internal(
            store,
            AuditType::LoginError,
            AuditMessage::PasswordUpdateRequired,
            now,
        );
        return Err(CoreError::Forbidden);
    }
    if !password_check(&user.password_hash, password) {
        audit.create_internal(
            store,
            AuditType::LoginError,
            AuditMessage::PasswordNotSetOrIncorrect,
            now,
        );
        return Err(CoreError::BadRequest);
    }
    let ghost s1 = store@;
    let user_token = match encode_user_token(
        store,
        service,
        user,
        &key,
        access_token_expires,
        refresh_token_expires,
        now,
        None,
    ) {
        Ok(t) => t,
        Err(e) => {
            proof {
                assert(store@.csrfs == old(store)@.csrfs);
            }
            return Err(e);
        },
    };
    let ghost s2 = store@;
    audit.create_internal(store, AuditType::Login, AuditMessage::Login, now);
    proof {
        lemma_evolved_frame(s1, s1.users, s1.keys, s2.csrfs);
        assert(s2 == s1.with_users(s1.users).with_keys(s1.keys).with_csrfs(s2.csrfs));
    }
    Ok(user_token)
}

/// The keys after revoking the key with this id.
pub open spec fn keys_after_revoke(keys: Seq<Key>, id: u128, now: i64) -> Seq<Key> {
    match last_index(keys, key_has_id(id)) {
        Some(i) => keys.update(i, revoked(keys[i], now)),
        None => keys,
    }
}

/// The nonces after consuming the one a token carries, if any.
pub open spec fn csrfs_after_token(csrfs: Seq<Csrf>, csrf: Option<u128>, now: i64) -> Seq<Csrf> {
    match csrf {
        Some(k) => csrfs_after_read(csrfs, k, now),
        None => csrfs,
    }
}

/// A key found by a lookup is in the store under its id.
pub proof fn lemma_found_key_has_id(v: StoreView, k: Key, p: spec_fn(Key) -> bool)
    requires
        last_index(v.keys, p) matches Some(i) && v.keys[i] == k,
    ensures
        last_index(v.keys, key_has_id(k.id)) is Some,
{
    lemma_last_index(v.keys, p);
    lemma_last_index(v.keys, key_has_id(k.id));
    let i = last_index(v.keys, p)->0;
    if last_index(v.keys, key_has_id(k.id)) is None {
        assert(!key_has_id(k.id)(v.keys[i]));
    }
}

pub proof fn lemma_key_by_user_stored(v: StoreView, service_id: u128, user_id: u128, type_: KeyType)
    requires
        v.key_by_user(service_id, user_id, type_) is Some,
    ensures
        last_index(v.keys, key_has_id(v.key_by_user(service_id, user_id, type_)->0.id)) is Some,
{
    let k = v.key_by_user(service_id, user_id, type_)->0;
    if last_index(v.keys, key_active_in_slot(service_id, user_id, type_)) is Some {
        lemma_found_key_has_id(v, k, key_active_in_slot(service_id, user_id, type_));
    } else {
        lemma_found_key_has_id(v, k, key_in_slot(service_id, user_id, type_));
    }
}

/// What `token_refresh` reads from a refresh token before consuming its
/// nonce: the user, the token key and the nonce.
pub open spec fn refresh_decoded(v: StoreView, service_id: u128, token: Seq<u8>, now: i64) -> CoreResult<
    (User, Key, u128),
> {
    match unsafe_result(token, service_id) {
        Err(e) => Err(e),
        Ok((user_id, _)) => match user_by_id(v, user_id, true) {
            Err(e) => Err(e),
            Ok(u) => match user_key(v, service_id, user_id, KeyType::Token, true) {
                Err(e) => Err(e),
                Ok(k) => match decode_result(
                    token,
                    str_bytes(&k.value),
                    service_id,
                    user_id,
                    JwtClaimsType::RefreshToken,
                    now,
                ) {
                    Err(e) => Err(e),
                    Ok((_, None)) => Err(CoreError::BadRequest),
                    Ok((_, Some(c))) => Ok((u, k, c)),
                },
            },
        },
    }
}

/// Exchanges a refresh token for a new token pair; the old refresh token's
/// nonce is consumed.
pub fn token_refresh(
    store: &mut Store,
    service: &Service,
    audit: &mut AuditBuilder,
    token: &String,
    audit_data: Option<&AuditData>,
    access_token_expires: i64,
    refresh_token_expires: i64,
    now: i64,
) -> (r: CoreResult<UserToken>)
    requires
        old(store).wf(),
    ensures
        final(store).wf(),
        unsafe_result(str_bytes(token), service.id) is Ok && refresh_decoded(
            old(store)@,
            service.id,
            str_bytes(token),
            now,
        ) is Err ==> audit_added(old(store)@, final(store)@, AuditType::TokenRefreshError),
        scope_kept(*old(audit), *final(audit)),
        refresh_effect(
            old(store)@,
            final(store)@,
            service.id,
            str_bytes(token),
            access_token_expires,
            refresh_token_expires,
            now,
            r,
        ),

{
    proof {
        lemma_audited_refl(store@);
    }
    let (user_id, _) = match decode_unsafe(token, service.id) {
        Ok(d) => d,
        Err(e) => return Err(e),
    };
    let user = match read_user_by_id(store, audit, AuditType::TokenRefreshError, user_id, true, now) {
        Ok(u) => u,
        Err(e) => return Err(e),
    };
    let key = match read_key_by_user(
        store,
        service,
        audit,
        AuditType::TokenRefreshError,
        &user,
        KeyType::Token,
        true,
        now,
    ) {
        Ok(k) => k,
        Err(e) => return Err(e),
    };
    let csrf_key = match decode_token(
        service.id,
        user.id,
        JwtClaimsType::RefreshToken,
        &key.value,
        token,
        now,
    ) {
        Ok((_, Some(c))) => c,
        Ok((_, None)) => {
            audit.create_internal(store, AuditType::TokenRefreshError, AuditMessage::TokenInvalidOrExpired, now);
            return Err(CoreError::BadRequest);
        },
        Err(e) => {
            audit.create_internal(
                store,
                AuditType::TokenRefreshError,
                AuditMessage::TokenInvalidOrExpired,
                now,
            );
            return Err(e);
        },
    };
    match csrf_verify_inner(store, service, audit, csrf_key, AuditType::TokenRefreshError, now) {
        Ok(()) => {},
        Err(e) => return Err(e),
    }
    let ghost s1 = store@;
    let user_token = match encode_user_token(
        store,
        service,
        user,
        &key,
        access_token_expires,
        refresh_token_expires,
        now,
        Some(csrf_key),
    ) {
        Ok(t) => t,
        Err(e) => {
            proof {
                lemma_audited_refl(s1);
            }
            return Err(e);
        },
    };
    let ghost s2 = store@;
    proof {
        lemma_evolved_frame(s1, s1.users, s1.keys, s2.csrfs);
        assert(s2 == s1.with_users(s1.users).with_keys(s1.keys).with_csrfs(s2.csrfs));
        lemma_evolved_trans(old(store)@, s1, s2, s1.users, s1.keys, s2.csrfs);
    }
    audit.create_internal(store, AuditType::TokenRefresh, AuditMessage::TokenRefresh, now);
    if let Some(data) = audit_data {
        audit.create_unchecked(store, data, now);
    }
    Ok(user_token)
}

/// What `token_revoke` reads from a token of any type: the user, the token
/// key and the token's nonce; neither needs to be enabled.
pub open spec fn revoke_decoded(v: StoreView, service_id: u128, token: Seq<u8>, now: i64) -> CoreResult<
    (User, Key, Option<u128>),
> {
    match unsafe_result(token, service_id) {
        Err(e) => Err(e),
        Ok((user_id, type_)) => match user_by_id(v, user_id, false) {
            Err(e) => Err(e),
            Ok(u) => match user_key(v, service_id, user_id, KeyType::Token, false) {
                Err(e) => Err(e),
                Ok(k) => match decode_result(
                    token,
                    str_bytes(&k.value),
                    service_id,
                    user_id,
                    type_,
                    now,
                ) {
                    Err(e) => Err(e),
                    Ok((_, c)) => Ok((u, k, c)),
                },
            },
        },
    }
}

/// Revokes the key that signed a token, which invalidates every token it
/// signed; the token's nonce, if any, is consumed.
pub fn token_revoke(
    store: &mut Store,
    service: &Service,
    audit: &mut AuditBuilder,
    token: &String,
    audit_data: Option<&AuditData>,
    now: i64,
) -> (r: CoreResult<usize>)
    requires
        old(store).wf(),
    ensures
        final(store).wf(),
        unsafe_result(str_bytes(token), service.id) is Ok && revoke_decoded(
            old(store)@,
            service.id,
            str_bytes(token),
            now,
        ) is Err ==> audit_added(old(store)@, final(store)@, AuditType::TokenRevokeError),
        scope_kept(*old(audit), *final(audit)),
        token_revoke_effect(
            old(store)@,
            final(store)@,
            service.id,
            str_bytes(token),
            now,
            r,
        ),

{
    proof {
        lemma_audited_refl(store@);
    }
    let (user_id, token_type) = match decode_unsafe(token, service.id) {
        Ok(d) => d,
        Err(e) => return Err(e),
    };
    let user = match read_user_by_id(store, audit, AuditType::TokenRevokeError, user_id, false, now) {
        Ok(u) => u,
        Err(e) => return Err(e),
    };
    let ghost s0 = store@;
    let key = match read_key_by_user(
        store,
        service,
        audit,
        AuditType::TokenRevokeError,
        &user,
        KeyType::Token,
        false,
        now,
    ) {
        Ok(k) => k,
        Err(e) => return Err(e),
    };
    let csrf_key = match decode_token(service.id, user.id, token_type, &key.value, token, now) {
        Ok((_, c)) => c,
        Err(e) => {
            audit.create_internal(
                store,
                AuditType::TokenRevokeError,
                AuditMessage::TokenInvalidOrExpired,
                now,
            );
            return Err(e);
        },
    };
    let ghost s1 = store@;
    if let Some(c) = csrf_key {
        match store.csrf_read_opt(c, now) {
            Some(row) => {
                if row.service_id != service.id {
                    audit.create_internal(
                        store,
                        AuditType::TokenRevokeError,
                        AuditMessage::CsrfNotFoundOrUsed,
                        now,
                    );
                    proof {
                        lemma_evolved_frame(
                            s1,
                            s1.users,
                            s1.keys,
                            csrfs_after_read(s1.csrfs, c, now),
                        );
                    }
                    return Err(CoreError::BadRequest);
                }
            },
            None => {},
        }
    }
    let ghost s2 = store@;
    proof {
        lemma_key_by_user_stored(s0, service.id, user.id, KeyType::Token);
        assert(s2.keys == s1.keys);
    }
    match store.key_revoke(key.id, now) {
        Ok(_) => {},
        Err(e) => return Err(CoreError::Driver(e)),
    }
    let ghost s3 = store@;
    proof {
        lemma_evolved_frame(s1, s1.users, keys_after_revoke(s1.keys, key.id, now), s3.csrfs);
        assert(s3 == s1.with_users(s1.users).with_keys(keys_after_revoke(s1.keys, key.id, now)).with_csrfs(s3.csrfs));
        lemma_evolved_trans(old(store)@, s1, s3, s1.users, keys_after_revoke(s1.keys, key.id, now), s3.csrfs);
    }
    audit.create_internal(store, AuditType::TokenRevoke, AuditMessage::TokenRevoke, now);
    if let Some(data) = audit_data {
        audit.create_unchecked(store, data, now);
    }
    Ok(1)
}

/// The decision of `key_verify`: an active API key of this service that
/// belongs to an enabled user.
pub open spec fn key_verify_check(v: StoreView, service_id: u128, value: Seq<char>) -> CoreResult<
    (User, Key),
> {
    match checked_key(v.key_by_value(service_id, value, KeyType::Key)) {
        Err(e) => Err(e),
        Ok(k) => match k.user_id {
            None => Err(CoreError::BadRequest),
            Some(user_id) => match user_by_id(v, user_id, true) {
                Err(e) => Err(e),
                Ok(u) => Ok((u, k)),
            },
        },
    }
}

/// Verifies a user's API key.
pub fn key_verify(
    store: &mut Store,
    service: &Service,
    audit: &mut AuditBuilder,
    key: &String,
    audit_data: Option<&AuditData>,
    now: i64,
) -> (r: CoreResult<UserKey>)
    requires
        old(store).wf(),
    ensures
        final(store).wf(),
        key_verify_check(old(store)@, service.id, key@) is Err ==> audit_added(
            old(store)@,
            final(store)@,
            AuditType::KeyVerifyError,
        ),
        audited(old(store)@, final(store)@),
        scope_kept(*old(audit), *final(audit)),
        key_verify_effect(
            old(store)@,
            final(store)@,
            service.id,
            key@,
            now,
            r,
        ),

{
    proof {
        lemma_audited_refl(store@);
    }
    let found = match read_key_by_value(
        store,
        service,
        audit,
        AuditType::KeyVerifyError,
        key,
        KeyType::Key,
        true,
        now,
    ) {
        Ok(k) => k,
        Err(e) => return Err(e),
    };
    let user_id = match found.user_id {
        Some(id) => id,
        None => {
            audit.create_internal(store, AuditType::KeyVerifyError, AuditMessage::KeyNotFound, now);
            return Err(CoreError::BadRequest);
        },
    };
    let user = match read_user_by_id(store, audit, AuditType::KeyVerifyError, user_id, true, now) {
        Ok(u) => u,
        Err(e) => return Err(e),
    };
    if let Some(data) = audit_data {
        audit.create_unchecked(store, data, now);
    }
    Ok(UserKey { user, key: found.value })
}

/// Disables and revokes a user's API key.
pub fn key_revoke(
    store: &mut Store,
    service: &Service,
    audit: &mut AuditBuilder,
    key: &String,
    audit_data: Option<&AuditData>,
    now: i64,
) -> (r: CoreResult<usize>)
    requires
        old(store).wf(),
    ensures
        final(store).wf(),
        present_key(old(store)@.key_by_value(service.id, key@, KeyType::Key)) is Err
            ==> audit_added(old(store)@, final(store)@, AuditType::KeyRevokeError),
        scope_kept(*old(audit), *final(audit)),
        key_revoke_effect(
            old(store)@,
            final(store)@,
            service.id,
            key@,
            now,
            r,
        ),

{
    proof {
        lemma_audited_refl(store@);
        if old(store)@.key_by_value(service.id, key@, KeyType::Key) is Some {
            lemma_found_key_has_id(
                old(store)@,
                old(store)@.key_by_value(service.id, key@, KeyType::Key)->0,
                key_of_value(service.id, key@, KeyType::Key),
            );
        }
    }
    let found = match read_key_by_value(
        store,
        service,
        audit,
        AuditType::KeyRevokeError,
        key,
        KeyType::Key,
        false,
        now,
    ) {
        Ok(k) => k,
        Err(e) => return Err(e),
    };
    let ghost s1 = store@;
    match store.key_revoke(found.id, now) {
        Ok(_) => {},
        Err(e) => return Err(CoreError::Driver(e)),
    }
    let ghost s2 = store@;
    proof {
        lemma_evolved_frame(s1, s1.users, keys_after_revoke(s1.keys, found.id, now), s1.csrfs);
        assert(s2 == s1.with_users(s1.users).with_keys(keys_after_revoke(s1.keys, found.id, now)).with_csrfs(s1.csrfs));
        lemma_evolved_trans(old(store)@, s1, s2, s1.users, keys_after_revoke(s1.keys, found.id, now), s1.csrfs);
    }
    audit.create_internal(store, AuditType::KeyRevoke, AuditMessage::KeyRevoke, now);
    if let Some(data) = audit_data {
        audit.create_unchecked(store, data, now);
    }
    Ok(1)
}

/// What `totp` reads before checking the code: an enabled user and their
/// active TOTP key for this service.
pub open spec fn totp_check(v: StoreView, service_id: u128, user_id: u128) -> CoreResult<(User, Key)> {
    match user_by_id(v, user_id, true) {
        Err(e) => Err(e),
        Ok(u) => match user_key(v, service_id, user_id, KeyType::Totp, true) {
            Err(e) => Err(e),
            Ok(k) => Ok((u, k)),
        },
    }
}

/// Checks a TOTP code against the user's TOTP key. Whether the code is the
/// current one depends on the clock.
pub fn totp(
    store: &mut Store,
    service: &Service,
    audit: &mut AuditBuilder,
    user_id: u128,
    totp_code: &String,
    now: i64,
) -> (r: CoreResult<()>)
    requires
        old(store).wf(),
    ensures
        final(store).wf(),
        r is Err ==> audit_added(old(store)@, final(store)@, AuditType::TotpError),
        audited(old(store)@, final(store)@),
        scope_kept(*old(audit), *final(audit)),
        match totp_check(old(store)@, service.id, user_id) {
            Err(e) => r == Err::<(), CoreError>(e),
            Ok(_) => r is Ok || r == Err::<(), CoreError>(CoreError::BadRequest),
        },
{
    proof {
        lemma_audited_refl(store@);
    }
    let user = match read_user_by_id(store, audit, AuditType::TotpError, user_id, true, now) {
        Ok(u) => u,
        Err(e) => return Err(e),
    };
    let key = match read_key_by_user(
        store,
        service,
        audit,
        AuditType::TotpError,
        &user,
        KeyType::Totp,
        true,
        now,
    ) {
        Ok(k) => k,
        Err(e) => return Err(e),
    };
    let check = crate::secret::totp_check(key.value.as_str(), totp_code.as_str());
    totp_result(store, audit, check, now)
}

/// What a TOTP check decides: a valid code is accepted; an invalid code or
/// a secret that is not base32 is a bad request, audited as such.
pub fn totp_result(store: &mut Store, audit: &AuditBuilder, check: Option<bool>, now: i64) -> (r:
    CoreResult<()>)
    requires
        old(store).wf(),
    ensures
        final(store).wf(),
        audited(old(store)@, final(store)@),
        check == Some(true) ==> r == Ok::<(), CoreError>(()) && final(store)@ == old(store)@,
        check != Some(true) ==> r == Err::<(), CoreError>(CoreError::BadRequest) && audit_added(
            old(store)@,
            final(store)@,
            AuditType::TotpError,
        ) && final(store)@.audits.last().event == AuditEvent::Internal(
            AuditType::TotpError,
            AuditMessage::TotpInvalid,
        ),
{
    proof {
        lemma_audited_refl(store@);
    }
    match check {
        Some(true) => Ok(()),
        _ => {
            audit.create_internal(store, AuditType::TotpError, AuditMessage::TotpInvalid, now);
            Err(CoreError::BadRequest)
        },
    }
}

/// How long a CSRF nonce lives when the caller gives no duration.
pub const DEFAULT_CSRF_EXPIRES_S: i64 = 3600;

/// Creates a CSRF nonce for the calling service.
pub fn csrf_create(store: &mut Store, service: &Service, expires_s: Option<i64>, now: i64) -> (r:
    CoreResult<Csrf>)
    requires
        old(store).wf(),
    ensures
        final(store).wf(),
        ({
            let expires = match expires_s {
                Some(e) => e,
                None => DEFAULT_CSRF_EXPIRES_S,
            };
            &&& expiry_of(now, expires) is None ==> r == Err::<Csrf, CoreError>(
                CoreError::BadRequest,
            ) && final(store)@ == old(store)@
            &&& expiry_of(now, expires) is Some ==> match r {
                Ok(c) => c.service_id == service.id && c.ttl == expiry_of(now, expires)->0
                    && old(store)@.csrf(c.key) is None && final(store)@ == old(store)@.with_csrfs(
                    old(store)@.csrfs.push(c),
                ),
                Err(e) => e == CoreError::Driver(DriverError::Conflict) && final(store)@ == old(store)@
                    && old(store)@.csrfs.len() > 0,
            }
        }),
{
    let expires = match expires_s {
        Some(e) => e,
        None => DEFAULT_CSRF_EXPIRES_S,
    };
    csrf_create_inner(store, service, expires, now, None)
}

/// Consumes a CSRF nonce of the calling service.
pub fn csrf_verify(
    store: &mut Store,
    service: &Service,
    audit: &mut AuditBuilder,
    csrf_key: u128,
    now: i64,
) -> (r: CoreResult<()>)
    requires
        old(store).wf(),
    ensures
        final(store).wf(),
        scope_kept(*old(audit), *final(audit)),
        r == csrf_check(old(store)@, service.id, csrf_key, now),
        evolved(
            old(store)@,
            final(store)@,
            old(store)@.users,
            old(store)@.keys,
            csrfs_after_read(old(store)@.csrfs, csrf_key, now),
        ),
{
    csrf_verify_inner(store, service, audit, csrf_key, AuditType::CsrfError, now)
}

/// The decision of `oauth2_login`: the flow's service, which must be the
/// caller and enabled, and an enabled user with an active token key there.
pub open spec fn oauth2_check(
    v: StoreView,
    caller_id: u128,
    service_id: u128,
    email: Seq<char>,
) -> CoreResult<(Service, User, Key)> {
    if caller_id != service_id {
        Err(CoreError::BadRequest)
    } else {
        match checked_service(v.service(service_id)) {
            Err(e) => Err(e),
            Ok(s) => match checked_user(v.user_by_email(email)) {
                Err(e) => Err(e),
                Ok(u) => match user_key(v, service_id, u.id, KeyType::Token, true) {
                    Err(e) => Err(e),
                    Ok(k) => Ok((s, u, k)),
                },
            },
        }
    }
}

/// Logs in a user whose email an OAuth2 provider asserted, for the service
/// that started the flow.
pub fn oauth2_login(
    store: &mut Store,
    service: &Service,
    audit: &mut AuditBuilder,
    service_id: u128,
    email: &String,
    access_token_expires: i64,
    refresh_token_expires: i64,
    now: i64,
) -> (r: CoreResult<(Service, UserToken)>)
    requires
        old(store).wf(),
    ensures
        final(store).wf(),
        service.id != service_id ==> final(store)@.audits.last().event == AuditEvent::Internal(
            AuditType::Oauth2LoginError,
            AuditMessage::ServiceMismatch,
        ),
        oauth2_check(old(store)@, service.id, service_id, email@) is Err ==> audit_added(
            old(store)@,
            final(store)@,
            AuditType::Oauth2LoginError,
        ),
        final(audit).meta == old(audit).meta,
        match oauth2_check(old(store)@, service.id, service_id, email@) {
            Err(e) => r == Err::<(Service, UserToken), CoreError>(e) && audited(
                old(store)@,
                final(store)@,
            ),
            Ok((s, u, k)) => if !pair_expiries_ok(now, access_token_expires, refresh_token_expires) {
                r == Err::<(Service, UserToken), CoreError>(CoreError::BadRequest) && audited(
                    old(store)@,
                    final(store)@,
                )
            } else {
                match r {
                    Ok((rs, t)) => rs == s && csrf_added(old(store)@.csrfs, final(store)@.csrfs)
                        && evolved(
                        old(store)@,
                        final(store)@,
                        old(store)@.users,
                        old(store)@.keys,
                        final(store)@.csrfs,
                    ) && token_pair(
                        t,
                        final(store)@.csrfs.last(),
                        service_id,
                        u,
                        k,
                        expiry_of(now, access_token_expires)->0,
                        expiry_of(now, refresh_token_expires)->0,
                    ),
                    Err(e) => e == CoreError::Driver(DriverError::Conflict) && audited(
                        old(store)@,
                        final(store)@,
                    ) && old(store)@.csrfs.len() > 0,
                }
            },
        },
{
    proof {
        lemma_audited_refl(store@);
    }
    if service.id != service_id {
        audit.create_internal(
            store,
            AuditType::Oauth2LoginError,
            AuditMessage::ServiceMismatch,
            now,
        );
        return Err(CoreError::BadRequest);
    }
    proof {
        lemma_last_index(store@.services, service_has_id(service_id));
    }
    let flow_service = match store.service_read_opt(service_id) {
        Some(s) => {
            audit.set_service(Some(&s));
            if !s.is_enabled {
                audit.create_internal(
                    store,
                    AuditType::Oauth2LoginError,
                    AuditMessage::ServiceDisabled,
                    now,
                );
                return Err(CoreError::BadRequest);
            }
            s
        },
        None => {
            audit.create_internal(
                store,
                AuditType::Oauth2LoginError,
                AuditMessage::ServiceNotFound,
                now,
            );
            return Err(CoreError::BadRequest);
        },
    };
    let user = match read_user_by_email(store, audit, AuditType::Oauth2LoginError, email, now) {
        Ok(u) => u,
        Err(e) => return Err(e),
    };
    let key = match read_key_by_user(
        store,
        &flow_service,
        audit,
        AuditType::Oauth2LoginError,
        &user,
        KeyType::Token,
        true,
        now,
    ) {
        Ok(k) => k,
        Err(e) => return Err(e),
    };
    let ghost s1 = store@;
    let user_token = match encode_user_token(
        store,
        &flow_service,
        user,
        &key,
        access_token_expires,
        refresh_token_expires,
        now,
        None,
    ) {
        Ok(t) => t,
        Err(e) => {
            proof {
                assert(store@.csrfs == old(store)@.csrfs);
            }
            return Err(e);
        },
    };
    let ghost s2 = store@;
    audit.create_internal(store, AuditType::Oauth2Login, AuditMessage::Oauth2Login, now);
    proof {
        lemma_evolved_frame(s1, s1.users, s1.keys, s2.csrfs);
        assert(s2 == s1.with_users(s1.users).with_keys(s1.keys).with_csrfs(s2.csrfs));
    }
    Ok((flow_service, user_token))
}

/// A reset-password email to send.
#[derive(Clone, Debug)]
pub struct EmailResetPassword {
    pub service: Service,
    pub user: User,
    pub token: String,
    pub audit: Audit,
}

/// An update-email notice, sent to the old address, with a revoke token.
#[derive(Clone, Debug)]
pub struct EmailUpdateEmail {
    pub service: Service,
    pub user: User,
    pub old_email: String,
    pub token: String,
    pub audit: Audit,
}

/// An update-password notice with a revoke token.
#[derive(Clone, Debug)]
pub struct EmailUpdatePassword {
    pub service: Service,
    pub user: User,
    pub token: String,
    pub audit: Audit,
}

/// `token` is a single-use token of `type_` for `user_id`, bound to `csrf`,
/// signed with `key`'s value.
pub open spec fn csrf_token(
    token: String,
    csrf: Csrf,
    service_id: u128,
    user_id: u128,
    type_: JwtClaimsType,
    key: Key,
    exp: i64,
) -> bool {
    let c = Claims { iss: service_id, sub: user_id, type_, exp, csrf: Some(csrf.key) };
    &&& str_bytes(&token) == token_bytes(c, str_bytes(&key.value))
    &&& hmac_sha256_of(str_bytes(&key.value), claims_bytes(c)).len() == 32
    &&& csrf.service_id == service_id
    &&& csrf.ttl == exp
}

/// Issues a single-use token bound to a new nonce.
fn encode_csrf_token(
    store: &mut Store,
    service: &Service,
    user_id: u128,
    key: &Key,
    type_: JwtClaimsType,
    expires: i64,
    now: i64,
) -> (r: CoreResult<String>)
    requires
        old(store).wf(),
    ensures
        final(store).wf(),
        expiry_of(now, expires) is None ==> r == Err::<String, CoreError>(CoreError::BadRequest)
            && final(store)@ == old(store)@,
        expiry_of(now, expires) is Some ==> match r {
            Ok(t) => csrf_added(old(store)@.csrfs, final(store)@.csrfs) && final(store)@ == old(store)@.with_csrfs(final(store)@.csrfs) && csrf_token(
                t,
                final(store)@.csrfs.last(),
                service.id,
                user_id,
                type_,
                *key,
                expiry_of(now, expires)->0,
            ),
            Err(e) => e == CoreError::Driver(DriverError::Conflict) && final(store)@ == old(store)@
                && old(store)@.csrfs.len() > 0,
        },
{
    let csrf = match csrf_create_inner(store, service, expires, now, None) {
        Ok(c) => c,
        Err(e) => return Err(e),
    };
    let (token, _) = match encode_token(
        service.id,
        user_id,
        type_,
        Some(csrf.key),
        &key.value,
        now,
        expires,
    ) {
        Ok(t) => t,
        Err(e) => return Err(e),
    };
    proof {
        assert(store@.csrfs.last() == csrf);
        lemma_last_index(old(store)@.csrfs, csrf_has_key(csrf.key));
        assert forall|i: int| 0 <= i < old(store)@.csrfs.len() implies #[trigger] old(store)@.csrfs[i].key != csrf.key by {
            assert(!csrf_has_key(csrf.key)(old(store)@.csrfs[i]));
        }
    }
    Ok(token)
}

/// The decision of a reset-password request: an enabled user with an
/// active token key who may reset their password.
pub open spec fn reset_check(v: StoreView, service_id: u128, email: Seq<char>) -> CoreResult<
    (User, Key),
> {
    match checked_user(v.user_by_email(email)) {
        Err(e) => Err(e),
        Ok(u) => match user_key(v, service_id, u.id, KeyType::Token, true) {
            Err(e) => Err(e),
            Ok(k) => if !u.password_allow_reset {
                Err(CoreError::BadRequest)
            } else {
                Ok((u, k))
            },
        },
    }
}

/// Requests a password reset; on success returns the email to send.
pub fn reset_password_inner(
    store: &mut Store,
    service: &Service,
    audit: &mut AuditBuilder,
    email: &String,
    token_expires: i64,
    now: i64,
) -> (r: CoreResult<EmailResetPassword>)
    requires
        old(store).wf(),
    ensures
        final(store).wf(),
        reset_check(old(store)@, service.id, email@) is Err ==> ({
            let a = final(store)@.audits.last();
            &&& a.meta == old(audit).meta && a.service_id == old(audit).service && a.key_id == old(
                audit,
            ).key && a.created_at == now
            &&& old(store)@.user_by_email(email@) is Some ==> a.user_id == Some(
                old(store)@.user_by_email(email@)->0.id,
            )
        }),
        reset_check(old(store)@, service.id, email@) is Err ==> audit_added(
            old(store)@,
            final(store)@,
            AuditType::ResetPasswordError,
        ),
        r is Ok ==> final(store)@.audits.last().event == AuditEvent::Internal(
            AuditType::ResetPassword,
            AuditMessage::ResetPassword,
        ),
        final(audit).meta == old(audit).meta,
        match reset_check(old(store)@, service.id, email@) {
            Err(e) => r == Err::<EmailResetPassword, CoreError>(e) && audited(
                old(store)@,
                final(store)@,
            ),
            Ok((u, k)) => if expiry_of(now, token_expires) is None {
                r == Err::<EmailResetPassword, CoreError>(CoreError::BadRequest) && audited(
                    old(store)@,
                    final(store)@,
                )
            } else {
                match r {
                    Ok(m) => m.user == u && m.service == *service && csrf_added(
                        old(store)@.csrfs,
                        final(store)@.csrfs,
                    ) && evolved(
                        old(store)@,
                        final(store)@,
                        old(store)@.users,
                        old(store)@.keys,
                        final(store)@.csrfs,
                    ) && csrf_token(
                        m.token,
                        final(store)@.csrfs.last(),
                        service.id,
                        u.id,
                        JwtClaimsType::ResetPasswordToken,
                        k,
                        expiry_of(now, token_expires)->0,
                    ),
                    Err(e) => e == CoreError::Driver(DriverError::Conflict) && audited(
                        old(store)@,
                        final(store)@,
                    ) && old(store)@.csrfs.len() > 0,
                }
            },
        },
{
    proof {
        lemma_audited_refl(store@);
    }
    let user = match read_user_by_email(store, audit, AuditType::ResetPasswordError, email, now) {
        Ok(u) => u,
        Err(e) => return Err(e),
    };
    let key = match read_key_by_user(
        store,
        service,
        audit,
        AuditType::ResetPasswordError,
        &user,
        KeyType::Token,
        true,
        now,
    ) {
        Ok(k) => k,
        Err(e) => return Err(e),
    };
    if !user.password_allow_reset {
        audit.create_internal(
            store,
            AuditType::ResetPasswordError,
            AuditMessage::ResetPasswordDisabled,
            now,
        );
        return Err(CoreError::BadRequest);
    }
    let ghost s1 = store@;
    let token = match encode_csrf_token(
        store,
        service,
        user.id,
        &key,
        JwtClaimsType::ResetPasswordToken,
        token_expires,
        now,
    ) {
        Ok(t) => t,
        Err(e) => {
            proof {
                assert(store@.csrfs == old(store)@.csrfs);
            }
            return Err(e);
        },
    };
    let ghost s2 = store@;
    let record = audit.create_internal(
        store,
        AuditType::ResetPassword,
        AuditMessage::ResetPassword,
        now,
    );
    proof {
        lemma_evolved_frame(s1, s1.users, s1.keys, s2.csrfs);
        assert(s2 == s1.with_users(s1.users).with_keys(s1.keys).with_csrfs(s2.csrfs));
    }
    Ok(EmailResetPassword { service: service.copy(), user, token, audit: record })
}

/// Requests a password reset. Never reveals whether the user exists: the
/// result is always `Ok`, with the email to send where a reset was issued.
pub fn reset_password(
    store: &mut Store,
    service: &Service,
    audit: &mut AuditBuilder,
    email: &String,
    token_expires: i64,
    now: i64,
) -> (r: CoreResult<Option<EmailResetPassword>>)
    requires
        old(store).wf(),
    ensures
        final(store).wf(),
        reset_check(old(store)@, service.id, email@) is Err ==> ({
            let a = final(store)@.audits.last();
            &&& a.meta == old(audit).meta && a.service_id == old(audit).service && a.key_id == old(
                audit,
            ).key && a.created_at == now
            &&& old(store)@.user_by_email(email@) is Some ==> a.user_id == Some(
                old(store)@.user_by_email(email@)->0.id,
            )
        }),
        reset_check(old(store)@, service.id, email@) is Err ==> audit_added(
            old(store)@,
            final(store)@,
            AuditType::ResetPasswordError,
        ),
        r matches Ok(Some(_)) ==> final(store)@.audits.last().event == AuditEvent::Internal(
            AuditType::ResetPassword,
            AuditMessage::ResetPassword,
        ),
        final(audit).meta == old(audit).meta,
        r is Ok,
        reset_check(old(store)@, service.id, email@) is Err ==> r == Ok::<
            Option<EmailResetPassword>,
            CoreError,
        >(None) && audited(old(store)@, final(store)@),
        r matches Ok(Some(m)) ==> reset_check(old(store)@, service.id, email@) matches Ok((u, k))
            && m.user == u && csrf_added(old(store)@.csrfs, final(store)@.csrfs) && csrf_token(
            m.token,
            final(store)@.csrfs.last(),
            service.id,
            u.id,
            JwtClaimsType::ResetPasswordToken,
            k,
            expiry_of(now, token_expires)->0,
        ),
        r matches Ok(None) ==> audited(old(store)@, final(store)@),
        reset_check(old(store)@, service.id, email@) is Ok && expiry_of(now, token_expires) is Some
            && r == Ok::<Option<EmailResetPassword>, CoreError>(None) ==> old(store)@.csrfs.len()
            > 0,
{
    match reset_password_inner(store, service, audit, email, token_expires, now) {
        Ok(m) => Ok(Some(m)),
        Err(_) => Ok(None),
    }
}

/// The users after setting one user's password hash.
pub open spec fn users_with_password(users: Seq<User>, id: u128, hash: String, now: i64) -> Seq<User> {
    match last_index(users, user_has_id(id)) {
        Some(i) => users.update(i, User { password_hash: Some(hash), updated_at: now, ..users[i] }),
        None => users,
    }
}

/// The users after changing one user's email.
pub open spec fn users_with_email(users: Seq<User>, id: u128, email: String, now: i64) -> Seq<User> {
    match last_index(users, user_has_id(id)) {
        Some(i) => users.update(i, User { email, updated_at: now, ..users[i] }),
        None => users,
    }
}

/// The users after disabling one user.
pub open spec fn users_disabled(users: Seq<User>, id: u128, now: i64) -> Seq<User> {
    match last_index(users, user_has_id(id)) {
        Some(i) => users.update(i, User { is_enabled: false, updated_at: now, ..users[i] }),
        None => users,
    }
}

/// The keys after revoking every key of a user.
pub open spec fn keys_revoked_for_user(keys: Seq<Key>, user_id: u128, now: i64) -> Seq<Key> {
    Seq::new(keys.len(), |i: int| crate::store::revoked_if_owned(keys[i], user_id, now))
}

/// What a reset-password confirmation reads from its token: an enabled user
/// allowed to reset, their active token key, and the token's nonce.
pub open spec fn confirm_decoded(v: StoreView, service_id: u128, token: Seq<u8>, now: i64) -> CoreResult<
    (User, Key, u128),
> {
    match unsafe_result(token, service_id) {
        Err(e) => Err(e),
        Ok((user_id, _)) => match user_by_id(v, user_id, true) {
            Err(e) => Err(e),
            Ok(u) => match user_key(v, service_id, user_id, KeyType::Token, true) {
                Err(e) => Err(e),
                Ok(k) => if !u.password_allow_reset {
                    Err(CoreError::BadRequest)
                } else {
                    match decode_result(
                        token,
                        str_bytes(&k.value),
                        service_id,
                        user_id,
                        JwtClaimsType::ResetPasswordToken,
                        now,
                    ) {
                        Err(e) => Err(e),
                        Ok((_, None)) => Err(CoreError::BadRequest),
                        Ok((_, Some(c))) => Ok((u, k, c)),
                    }
                },
            },
        },
    }
}

/// The outcome of a reset-password confirmation that sets `password`.
pub open spec fn confirm_effect(
    old: StoreView,
    new: StoreView,
    service_id: u128,
    token: Seq<u8>,
    password: Seq<char>,
    now: i64,
    r: CoreResult<()>,
) -> bool {
    match confirm_decoded(old, service_id, token, now) {
        Err(e) => r == Err::<(), CoreError>(e) && audited(old, new),
        Ok((u, k, ck)) => {
            let after = csrfs_after_read(old.csrfs, ck, now);
            match r {
                Ok(_) => csrf_check(old, service_id, ck, now) is Ok && exists|h: String|
                    password_ok(Some(h), password) && evolved(
                        old,
                        new,
                        #[trigger] users_with_password(old.users, u.id, h, now),
                        old.keys,
                        after,
                    ),
                Err(e) => e == CoreError::BadRequest && (password_refused_of(password) && audit_added(
                    old,
                    new,
                    AuditType::ResetPasswordConfirmError,
                ) || !password_refused_of(password) && csrf_check(old, service_id, ck, now) is Err
                    && evolved(old, new, old.users, old.keys, after)),
            }
        },
    }
}

/// Hashes a new password; `None` exactly where the hasher refuses it.
fn hash_new_password(password: &String) -> (r: Option<String>)
    ensures
        r is None <==> password_refused_of(password@),
        r matches Some(h) ==> password_ok(Some(h), password@),
{
    password_hash_phc(password.as_str())
}

/// Confirms a password reset with a reset token and sets the new password.
/// The token's nonce is consumed only once every check passed and the new
/// password was hashed.
pub fn reset_password_confirm(
    store: &mut Store,
    service: &Service,
    audit: &mut AuditBuilder,
    token: &String,
    password: &String,
    now: i64,
) -> (r: CoreResult<()>)
    requires
        old(store).wf(),
    ensures
        final(store).wf(),
        scope_kept(*old(audit), *final(audit)),
        confirm_effect(old(store)@, final(store)@, service.id, str_bytes(token), password@, now, r),
        unsafe_result(str_bytes(token), service.id) is Ok && confirm_decoded(
            old(store)@,
            service.id,
            str_bytes(token),
            now,
        ) is Err ==> audit_added(old(store)@, final(store)@, AuditType::ResetPasswordConfirmError),
{
    proof {
        lemma_audited_refl(store@);
    }
    let (user_id, _) = match decode_unsafe(token, service.id) {
        Ok(d) => d,
        Err(e) => return Err(e),
    };
    let user = match read_user_by_id(
        store,
        audit,
        AuditType::ResetPasswordConfirmError,
        user_id,
        true,
        now,
    ) {
        Ok(u) => u,
        Err(e) => return Err(e),
    };
    let key = match read_key_by_user(
        store,
        service,
        audit,
        AuditType::ResetPasswordConfirmError,
        &user,
        KeyType::Token,
        true,
        now,
    ) {
        Ok(k) => k,
        Err(e) => return Err(e),
    };
    if !user.password_allow_reset {
        audit.create_internal(
            store,
            AuditType::ResetPasswordConfirmError,
            AuditMessage::ResetPasswordDisabled,
            now,
        );
        return Err(CoreError::BadRequest);
    }
    let csrf_key = match decode_token(
        service.id,
        user.id,
        JwtClaimsType::ResetPasswordToken,
        &key.value,
        token,
        now,
    ) {
        Ok((_, Some(c))) => c,
        Ok((_, None)) => {
            audit.create_internal(
                store,
                AuditType::ResetPasswordConfirmError,
                AuditMessage::TokenInvalidOrExpired,
                now,
            );
            return Err(CoreError::BadRequest);
        },
        Err(e) => {
            audit.create_internal(
                store,
                AuditType::ResetPasswordConfirmError,
                AuditMessage::TokenInvalidOrExpired,
                now,
            );
            return Err(e);
        },
    };
    let password_hash = match hash_new_password(password) {
        Some(h) => h,
        None => {
            audit.create_internal(
                store,
                AuditType::ResetPasswordConfirmError,
                AuditMessage::PasswordRefused,
                now,
            );
            return Err(CoreError::BadRequest);
        },
    };
    let ghost hash = password_hash;
    match csrf_verify_inner(
        store,
        service,
        audit,
        csrf_key,
        AuditType::ResetPasswordConfirmError,
        now,
    ) {
        Ok(()) => {},
        Err(e) => return Err(e),
    }
    let ghost s1 = store@;
    proof {
        lemma_last_index(s1.users, user_has_id(user.id));
    }
    match store.user_update_password(user.id, password_hash, now) {
        Ok(_) => {},
        Err(e) => return Err(CoreError::Driver(e)),
    }
    let ghost s2 = store@;
    proof {
        let us = users_with_password(s1.users, user.id, hash, now);
        lemma_evolved_frame(s1, us, s1.keys, s1.csrfs);
        assert(s2 == s1.with_users(us).with_keys(s1.keys).with_csrfs(s1.csrfs));
        lemma_evolved_trans(old(store)@, s1, s2, us, s1.keys, s1.csrfs);
    }
    audit.create_internal(
        store,
        AuditType::ResetPasswordConfirm,
        AuditMessage::ResetPasswordConfirm,
        now,
    );
    proof {
        assert(evolved(
            old(store)@,
            store@,
            users_with_password(old(store)@.users, user.id, hash, now),
            old(store)@.keys,
            s1.csrfs,
        ));
    }
    Ok(())
}

/// What an update of email or password requires: an enabled user with an
/// active token key and the right current password; where `gated`, a user
/// who must update their password is refused.
pub open spec fn update_check(
    v: StoreView,
    service_id: u128,
    user_id: u128,
    password: Seq<char>,
    gated: bool,
) -> CoreResult<(User, Key)> {
    match user_by_id(v, user_id, true) {
        Err(e) => Err(e),
        Ok(u) => match user_key(v, service_id, user_id, KeyType::Token, true) {
            Err(e) => Err(e),
            Ok(k) => if gated && u.password_require_update {
                Err(CoreError::Forbidden)
            } else if !password_ok(u.password_hash, password) {
                Err(CoreError::BadRequest)
            } else {
                Ok((u, k))
            },
        },
    }
}

fn read_for_update(
    store: &mut Store,
    service: &Service,
    audit: &mut AuditBuilder,
    audit_type: AuditType,
    user_id: u128,
    password: &String,
    gated: bool,
    now: i64,
) -> (r: CoreResult<(User, Key)>)
    requires
        old(store).wf(),
    ensures
        final(store).wf(),
        r is Ok ==> final(store)@ == old(store)@,
        r is Err ==> audit_added(old(store)@, final(store)@, audit_type),
        audited(old(store)@, final(store)@),
        scope_kept(*old(audit), *final(audit)),
        r == update_check(old(store)@, service.id, user_id, password@, gated),
        r matches Ok((u, _)) ==> u.id == user_id,
{
    proof {
        lemma_audited_refl(store@);
    }
    let user = match read_user_by_id(store, audit, audit_type, user_id, true, now) {
        Ok(u) => u,
        Err(e) => return Err(e),
    };
    let key = match read_key_by_user(
        store,
        service,
        audit,
        audit_type,
        &user,
        KeyType::Token,
        true,
        now,
    ) {
        Ok(k) => k,
        Err(e) => return Err(e),
    };
    if gated && user.password_require_update {
        audit.create_internal(store, audit_type, AuditMessage::PasswordUpdateRequired, now);
        return Err(CoreError::Forbidden);
    }
    if !password_check(&user.password_hash, password) {
        audit.create_internal(store, audit_type, AuditMessage::PasswordNotSetOrIncorrect, now);
        return Err(CoreError::BadRequest);
    }
    Ok((user, key))
}

/// Another user already has this email.
pub open spec fn email_taken(v: StoreView, email: Seq<char>, user_id: u128) -> bool {
    v.user_by_email(email) matches Some(o) && o.id != user_id
}

/// Changes a user's email after checking their password; returns the notice
/// for the old address, carrying a token that revokes the change.
pub fn update_email(
    store: &mut Store,
    service: &Service,
    audit: &mut AuditBuilder,
    user_id: u128,
    password: &String,
    new_email: String,
    revoke_token_expires: i64,
    now: i64,
) -> (r: CoreResult<EmailUpdateEmail>)
    requires
        old(store).wf(),
    ensures
        final(store).wf(),
        update_check(old(store)@, service.id, user_id, password@, true) is Err ==> audit_added(
            old(store)@,
            final(store)@,
            AuditType::UpdateEmailError,
        ),
        scope_kept(*old(audit), *final(audit)),
        update_email_effect(
            old(store)@,
            final(store)@,
            service.id,
            user_id,
            password@,
            new_email,
            revoke_token_expires,
            now,
            r,
        ),

{
    let (user, key) = match read_for_update(
        store,
        service,
        audit,
        AuditType::UpdateEmailError,
        user_id,
        password,
        true,
        now,
    ) {
        Ok(d) => d,
        Err(e) => return Err(e),
    };
    proof {
        lemma_last_index(store@.users, user_has_email(new_email@));
        lemma_last_index(store@.users, user_has_id(user_id));
    }
    match store.user_read_by_email_opt(&new_email) {
        Some(other) => {
            if other.id != user_id {
                return Err(CoreError::Driver(DriverError::Conflict));
            }
        },
        None => {},
    }
    let old_email = user.email.clone();
    let ghost s1 = store@;
    let token = match encode_csrf_token(
        store,
        service,
        user_id,
        &key,
        JwtClaimsType::UpdateEmailRevokeToken,
        revoke_token_expires,
        now,
    ) {
        Ok(t) => t,
        Err(e) => {
            proof {
                assert(store@.csrfs == old(store)@.csrfs);
            }
            return Err(e);
        },
    };
    let updated = match store.user_update_email(user_id, new_email, now) {
        Ok(u) => u,
        Err(e) => return Err(CoreError::Driver(e)),
    };
    let ghost s3 = store@;
    proof {
        let us = users_with_email(s1.users, user_id, new_email, now);
        lemma_evolved_frame(s1, us, s1.keys, s3.csrfs);
        assert(s3 == s1.with_users(us).with_keys(s1.keys).with_csrfs(s3.csrfs));
        lemma_evolved_trans(old(store)@, s1, s3, us, s1.keys, s3.csrfs);
    }
    let record = audit.create_internal(store, AuditType::UpdateEmail, AuditMessage::UpdateEmail, now);
    Ok(EmailUpdateEmail { service: service.copy(), user: updated, old_email, token, audit: record })
}

/// The outcome of an update-password that stores `hash`.
pub open spec fn update_password_effect(
    old: StoreView,
    new: StoreView,
    service_id: u128,
    user_id: u128,
    password: Seq<char>,
    new_password: Seq<char>,
    revoke_token_expires: i64,
    now: i64,
    r: CoreResult<EmailUpdatePassword>,
) -> bool {
    match update_check(old, service_id, user_id, password, false) {
        Err(e) => r == Err::<EmailUpdatePassword, CoreError>(e) && audited(old, new),
        Ok((u, k)) => match r {
            Ok(m) => expiry_of(now, revoke_token_expires) is Some && m.user.password_hash is Some
                && password_ok(m.user.password_hash, new_password) && m.user == (User {
                password_hash: m.user.password_hash,
                updated_at: now,
                ..u
            }) && csrf_added(old.csrfs, new.csrfs) && evolved(
                old,
                new,
                users_with_password(old.users, user_id, m.user.password_hash->0, now),
                old.keys,
                new.csrfs,
            ) && csrf_token(
                m.token,
                new.csrfs.last(),
                service_id,
                user_id,
                JwtClaimsType::UpdatePasswordRevokeToken,
                k,
                expiry_of(now, revoke_token_expires)->0,
            ),
            Err(e) => audited(old, new) && (e == CoreError::BadRequest && (password_refused_of(
                new_password,
            ) || expiry_of(now, revoke_token_expires) is None) || e == CoreError::Driver(
                DriverError::Conflict,
            ) && !password_refused_of(new_password) && old.csrfs.len() > 0),
        },
    }
}

/// Changes a user's password after checking the current one; allowed even
/// where a password update is required. The new password is hashed once
/// every check passed. Returns the notice, carrying a token that revokes
/// the change.
pub fn update_password(
    store: &mut Store,
    service: &Service,
    audit: &mut AuditBuilder,
    user_id: u128,
    password: &String,
    new_password: &String,
    revoke_token_expires: i64,
    now: i64,
) -> (r: CoreResult<EmailUpdatePassword>)
    requires
        old(store).wf(),
    ensures
        final(store).wf(),
        update_check(old(store)@, service.id, user_id, password@, false) is Err ==> audit_added(
            old(store)@,
            final(store)@,
            AuditType::UpdatePasswordError,
        ),
        scope_kept(*old(audit), *final(audit)),
        update_password_effect(
            old(store)@,
            final(store)@,
            service.id,
            user_id,
            password@,
            new_password@,
            revoke_token_expires,
            now,
            r,
        ),
{
    let (user, key) = match read_for_update(
        store,
        service,
        audit,
        AuditType::UpdatePasswordError,
        user_id,
        password,
        false,
        now,
    ) {
        Ok(d) => d,
        Err(e) => return Err(e),
    };
    let new_password_hash = match hash_new_password(new_password) {
        Some(h) => h,
        None => {
            audit.create_internal(
                store,
                AuditType::UpdatePasswordError,
                AuditMessage::PasswordRefused,
                now,
            );
            return Err(CoreError::BadRequest);
        },
    };
    let ghost hash = new_password_hash;
    let ghost s1 = store@;
    let token = match encode_csrf_token(
        store,
        service,
        user_id,
        &key,
        JwtClaimsType::UpdatePasswordRevokeToken,
        revoke_token_expires,
        now,
    ) {
        Ok(t) => t,
        Err(e) => {
            proof {
                assert(store@.csrfs == old(store)@.csrfs);
            }
            return Err(e);
        },
    };
    proof {
        lemma_last_index(store@.users, user_has_id(user_id));
    }
    let updated = match store.user_update_password(user_id, new_password_hash, now) {
        Ok(u) => u,
        Err(e) => return Err(CoreError::Driver(e)),
    };
    let ghost s3 = store@;
    proof {
        let us = users_with_password(s1.users, user_id, hash, now);
        lemma_evolved_frame(s1, us, s1.keys, s3.csrfs);
        assert(s3 == s1.with_users(us).with_keys(s1.keys).with_csrfs(s3.csrfs));
        lemma_evolved_trans(old(store)@, s1, s3, us, s1.keys, s3.csrfs);
    }
    let record = audit.create_internal(
        store,
        AuditType::UpdatePassword,
        AuditMessage::UpdatePassword,
        now,
    );
    Ok(EmailUpdatePassword { service: service.copy(), user: updated, token, audit: record })
}

/// What a revoke token of `type_` reads: its user and token key, neither
/// needing to be enabled, and its nonce.
pub open spec fn revoke_token_decoded(
    v: StoreView,
    service_id: u128,
    token: Seq<u8>,
    type_: JwtClaimsType,
    now: i64,
) -> CoreResult<(User, Key, u128)> {
    match unsafe_result(token, service_id) {
        Err(e) => Err(e),
        Ok((user_id, _)) => match user_by_id(v, user_id, false) {
            Err(e) => Err(e),
            Ok(u) => match user_key(v, service_id, user_id, KeyType::Token, false) {
                Err(e) => Err(e),
                Ok(k) => match decode_result(
                    token,
                    str_bytes(&k.value),
                    service_id,
                    user_id,
                    type_,
                    now,
                ) {
                    Err(e) => Err(e),
                    Ok((_, None)) => Err(CoreError::BadRequest),
                    Ok((_, Some(c))) => Ok((u, k, c)),
                },
            },
        },
    }
}

/// The count a revoke returns: the user's keys and the user.
pub open spec fn revoke_count(n: nat) -> usize {
    if n < usize::MAX {
        (n + 1) as usize
    } else {
        usize::MAX
    }
}

/// The outcome of redeeming a revoke token of `type_`: the user is disabled
/// and all their keys revoked.
pub open spec fn revoke_effect(
    old: StoreView,
    new: StoreView,
    service_id: u128,
    token: Seq<u8>,
    type_: JwtClaimsType,
    now: i64,
    r: CoreResult<usize>,
) -> bool {
    match revoke_token_decoded(old, service_id, token, type_, now) {
        Err(e) => r == Err::<usize, CoreError>(e) && audited(old, new),
        Ok((u, k, ck)) => {
            let after = csrfs_after_read(old.csrfs, ck, now);
            match csrf_check(old, service_id, ck, now) {
                Err(e) => r == Err::<usize, CoreError>(e) && evolved(
                    old,
                    new,
                    old.users,
                    old.keys,
                    after,
                ),
                Ok(_) => r == Ok::<usize, CoreError>(
                    revoke_count(crate::store::user_key_count(old.keys, u.id)),
                ) && evolved(
                    old,
                    new,
                    users_disabled(old.users, u.id, now),
                    keys_revoked_for_user(old.keys, u.id, now),
                    after,
                ),
            }
        },
    }
}

fn revoke_by_token(
    store: &mut Store,
    service: &Service,
    audit: &mut AuditBuilder,
    token: &String,
    type_: JwtClaimsType,
    error_type: AuditType,
    done_type: AuditType,
    done_message: AuditMessage,
    audit_data: Option<&AuditData>,
    now: i64,
) -> (r: CoreResult<usize>)
    requires
        old(store).wf(),
    ensures
        final(store).wf(),
        unsafe_result(str_bytes(token), service.id) is Ok && revoke_token_decoded(
            old(store)@,
            service.id,
            str_bytes(token),
            type_,
            now,
        ) is Err ==> audit_added(old(store)@, final(store)@, error_type),
        scope_kept(*old(audit), *final(audit)),
        revoke_effect(old(store)@, final(store)@, service.id, str_bytes(token), type_, now, r),
{
    proof {
        lemma_audited_refl(store@);
    }
    let (user_id, _) = match decode_unsafe(token, service.id) {
        Ok(d) => d,
        Err(e) => return Err(e),
    };
    let user = match read_user_by_id(store, audit, error_type, user_id, false, now) {
        Ok(u) => u,
        Err(e) => return Err(e),
    };
    let key = match read_key_by_user(
        store,
        service,
        audit,
        error_type,
        &user,
        KeyType::Token,
        false,
        now,
    ) {
        Ok(k) => k,
        Err(e) => return Err(e),
    };
    let csrf_key = match decode_token(service.id, user.id, type_, &key.value, token, now) {
        Ok((_, Some(c))) => c,
        Ok((_, None)) => {
            audit.create_internal(store, error_type, AuditMessage::TokenInvalidOrExpired, now);
            return Err(CoreError::BadRequest);
        },
        Err(e) => {
            audit.create_internal(store, error_type, AuditMessage::TokenInvalidOrExpired, now);
            return Err(e);
        },
    };
    match csrf_verify_inner(store, service, audit, csrf_key, error_type, now) {
        Ok(()) => {},
        Err(e) => return Err(e),
    }
    let ghost s1 = store@;
    proof {
        lemma_last_index(s1.users, user_has_id(user.id));
    }
    let update = UserUpdate {
        is_enabled: Some(false),
        name: None,
        locale: None,
        timezone: None,
        password_allow_reset: None,
        password_require_update: None,
    };
    match store.user_update(user.id, &update, now) {
        Ok(_) => {},
        Err(e) => return Err(CoreError::Driver(e)),
    }
    let count = store.key_revoke_many_by_user(user.id, now);
    let ghost s2 = store@;
    proof {
        let us = users_disabled(s1.users, user.id, now);
        let ks = keys_revoked_for_user(s1.keys, user.id, now);
        assert(s2.keys =~= ks);
        lemma_evolved_frame(s1, us, ks, s1.csrfs);
        assert(s2 == s1.with_users(us).with_keys(ks).with_csrfs(s1.csrfs));
        lemma_evolved_trans(old(store)@, s1, s2, us, ks, s1.csrfs);
    }
    audit.create_internal(store, done_type, done_message, now);
    if let Some(data) = audit_data {
        audit.create_unchecked(store, data, now);
    }
    let total = if count < usize::MAX {
        count + 1
    } else {
        count
    };
    Ok(total)
}

/// Redeems an update-email revoke token: disables the user and revokes all
/// their keys. Returns the number of keys revoked plus one.
pub fn update_email_revoke(
    store: &mut Store,
    service: &Service,
    audit: &mut AuditBuilder,
    token: &String,
    audit_data: Option<&AuditData>,
    now: i64,
) -> (r: CoreResult<usize>)
    requires
        old(store).wf(),
    ensures
        final(store).wf(),
        unsafe_result(str_bytes(token), service.id) is Ok && revoke_token_decoded(
            old(store)@,
            service.id,
            str_bytes(token),
            JwtClaimsType::UpdateEmailRevokeToken,
            now,
        ) is Err ==> audit_added(old(store)@, final(store)@, AuditType::UpdateEmailRevokeError),
        scope_kept(*old(audit), *final(audit)),
        revoke_effect(
            old(store)@,
            final(store)@,
            service.id,
            str_bytes(token),
            JwtClaimsType::UpdateEmailRevokeToken,
            now,
            r,
        ),
{
    revoke_by_token(
        store,
        service,
        audit,
        token,
        JwtClaimsType::UpdateEmailRevokeToken,
        AuditType::UpdateEmailRevokeError,
        AuditType::UpdateEmailRevoke,
        AuditMessage::UpdateEmailRevoke,
        audit_data,
        now,
    )
}

/// Redeems an update-password revoke token: disables the user and revokes
/// all their keys. Returns the number of keys revoked plus one.
pub fn update_password_revoke(
    store: &mut Store,
    service: &Service,
    audit: &mut AuditBuilder,
    token: &String,
    audit_data: Option<&AuditData>,
    now: i64,
) -> (r: CoreResult<usize>)
    requires
        old(store).wf(),
    ensures
        final(store).wf(),
        unsafe_result(str_bytes(token), service.id) is Ok && revoke_token_decoded(
            old(store)@,
            service.id,
            str_bytes(token),
            JwtClaimsType::UpdatePasswordRevokeToken,
            now,
        ) is Err ==> audit_added(old(store)@, final(store)@, AuditType::UpdatePasswordRevokeError),
        scope_kept(*old(audit), *final(audit)),
        revoke_effect(
            old(store)@,
            final(store)@,
            service.id,
            str_bytes(token),
            JwtClaimsType::UpdatePasswordRevokeToken,
            now,
            r,
        ),
{
    revoke_by_token(
        store,
        service,
        audit,
        token,
        JwtClaimsType::UpdatePasswordRevokeToken,
        AuditType::UpdatePasswordRevokeError,
        AuditType::UpdatePasswordRevoke,
        AuditMessage::UpdatePasswordRevoke,
        audit_data,
        now,
    )
}

/// The outcome of `token_verify`.
pub open spec fn verify_effect(
    old: StoreView,
    new: StoreView,
    service_id: u128,
    token: Seq<u8>,
    now: i64,
    r: CoreResult<UserTokenAccess>,
) -> bool {
    match verify_check(old, service_id, token, now) {
        Ok((u, exp)) => r matches Ok(t) && t.user == u && t.access_token_expires == exp
            && str_bytes(&t.access_token) == token,
        Err(e) => r == Err::<UserTokenAccess, CoreError>(e),
    }
}

/// The outcome of `login`.
pub open spec fn login_effect(
    old: StoreView,
    new: StoreView,
    service_id: u128,
    email: Seq<char>,
    password: Seq<char>,
    access_token_expires: i64,
    refresh_token_expires: i64,
    now: i64,
    r: CoreResult<UserToken>,
) -> bool {
    match login_check(old, service_id, email, password) {
        Err(e) => r == Err::<UserToken, CoreError>(e) && audited(old, new),
        Ok((u, k)) => if !pair_expiries_ok(now, access_token_expires, refresh_token_expires) {
            r == Err::<UserToken, CoreError>(CoreError::BadRequest) && audited(
                old,
                new,
            )
        } else {
            match r {
                Ok(t) => csrf_added(old.csrfs, new.csrfs) && evolved(
                    old,
                    new,
                    old.users,
                    old.keys,
                    new.csrfs,
                ) && token_pair(
                    t,
                    new.csrfs.last(),
                    service_id,
                    u,
                    k,
                    expiry_of(now, access_token_expires)->0,
                    expiry_of(now, refresh_token_expires)->0,
                ),
                Err(e) => e == CoreError::Driver(DriverError::Conflict) && audited(old, new)
                    && old.csrfs.len() > 0,
            }
        },
    }
}

/// The outcome of `token_refresh`.
pub open spec fn refresh_effect(
    old: StoreView,
    new: StoreView,
    service_id: u128,
    token: Seq<u8>,
    access_token_expires: i64,
    refresh_token_expires: i64,
    now: i64,
    r: CoreResult<UserToken>,
) -> bool {
    match refresh_decoded(old, service_id, token, now) {
        Err(e) => r == Err::<UserToken, CoreError>(e) && audited(old, new),
        Ok((u, k, ck)) => {
            let after = csrfs_after_read(old.csrfs, ck, now);
            match csrf_check(old, service_id, ck, now) {
                Err(e) => r == Err::<UserToken, CoreError>(e) && evolved(
                    old,
                    new,
                    old.users,
                    old.keys,
                    after,
                ) && new.audits.len() == old.audits.len() + 1 && new.audits.last().event
                    == AuditEvent::Internal(
                    AuditType::TokenRefreshError,
                    AuditMessage::CsrfNotFoundOrUsed,
                ),
                Ok(_) => if !pair_expiries_ok(now, access_token_expires, refresh_token_expires) {
                    r == Err::<UserToken, CoreError>(CoreError::BadRequest) && evolved(
                        old,
                        new,
                        old.users,
                        old.keys,
                        after,
                    )
                } else {
                    match r {
                        Ok(t) => new.csrfs.last().key != ck && csrf_added(after, new.csrfs) && evolved(
                            old,
                            new,
                            old.users,
                            old.keys,
                            new.csrfs,
                        ) && token_pair(
                            t,
                            new.csrfs.last(),
                            service_id,
                            u,
                            k,
                            expiry_of(now, access_token_expires)->0,
                            expiry_of(now, refresh_token_expires)->0,
                        ),
                        Err(e) => e == CoreError::Driver(DriverError::Conflict) && evolved(
                            old,
                            new,
                            old.users,
                            old.keys,
                            after,
                        ) && after.len() > 0,
                    }
                },
            }
        },
    }
}

/// The outcome of `token_revoke`.
pub open spec fn token_revoke_effect(
    old: StoreView,
    new: StoreView,
    service_id: u128,
    token: Seq<u8>,
    now: i64,
    r: CoreResult<usize>,
) -> bool {
    match revoke_decoded(old, service_id, token, now) {
        Err(e) => r == Err::<usize, CoreError>(e) && audited(old, new),
        Ok((u, k, c)) => if foreign_nonce(old, service_id, c, now) {
            r == Err::<usize, CoreError>(CoreError::BadRequest) && evolved(
                old,
                new,
                old.users,
                old.keys,
                csrfs_after_token(old.csrfs, c, now),
            )
        } else {
            r == Ok::<usize, CoreError>(1) && evolved(
                old,
                new,
                old.users,
                keys_after_revoke(old.keys, k.id, now),
                csrfs_after_token(old.csrfs, c, now),
            )
        },
    }
}

/// A token's nonce is live and belongs to another service.
pub open spec fn foreign_nonce(v: StoreView, service_id: u128, csrf: Option<u128>, now: i64) -> bool {
    match csrf {
        Some(k) => match csrf_live(v, k, now) {
            Some(c) => c.service_id != service_id,
            None => false,
        },
        None => false,
    }
}

/// The outcome of `key_verify`.
pub open spec fn key_verify_effect(
    old: StoreView,
    new: StoreView,
    service_id: u128,
    key: Seq<char>,
    now: i64,
    r: CoreResult<UserKey>,
) -> bool {
    match key_verify_check(old, service_id, key) {
        Ok((u, k)) => r matches Ok(uk) && uk.user == u && uk.key == k.value,
        Err(e) => r == Err::<UserKey, CoreError>(e),
    }
}

/// The outcome of `key_revoke`.
pub open spec fn key_revoke_effect(
    old: StoreView,
    new: StoreView,
    service_id: u128,
    key: Seq<char>,
    now: i64,
    r: CoreResult<usize>,
) -> bool {
    match present_key(old.key_by_value(service_id, key, KeyType::Key)) {
        Err(e) => r == Err::<usize, CoreError>(e) && audited(old, new),
        Ok(k) => r == Ok::<usize, CoreError>(1) && evolved(
            old,
            new,
            old.users,
            keys_after_revoke(old.keys, k.id, now),
            old.csrfs,
        ),
    }
}

/// The outcome of `update_email`.
pub open spec fn update_email_effect(
    old: StoreView,
    new: StoreView,
    service_id: u128,
    user_id: u128,
    password: Seq<char>,
    new_email: String,
    revoke_token_expires: i64,
    now: i64,
    r: CoreResult<EmailUpdateEmail>,
) -> bool {
    match update_check(old, service_id, user_id, password, true) {
        Err(e) => r == Err::<EmailUpdateEmail, CoreError>(e) && audited(
            old,
            new,
        ),
        Ok((u, k)) => if email_taken(old, new_email@, user_id) {
            r == Err::<EmailUpdateEmail, CoreError>(CoreError::Driver(DriverError::Conflict))
                && audited(old, new)
        } else if expiry_of(now, revoke_token_expires) is None {
            r == Err::<EmailUpdateEmail, CoreError>(CoreError::BadRequest) && audited(
                old,
                new,
            )
        } else {
            match r {
                Ok(m) => m.old_email == u.email && m.user == (User {
                    email: new_email,
                    updated_at: now,
                    ..u
                }) && csrf_added(old.csrfs, new.csrfs) && evolved(
                    old,
                    new,
                    users_with_email(old.users, user_id, new_email, now),
                    old.keys,
                    new.csrfs,
                ) && csrf_token(
                    m.token,
                    new.csrfs.last(),
                    service_id,
                    user_id,
                    JwtClaimsType::UpdateEmailRevokeToken,
                    k,
                    expiry_of(now, revoke_token_expires)->0,
                ),
                Err(e) => e == CoreError::Driver(DriverError::Conflict) && audited(old, new)
                    && old.csrfs.len() > 0,
            }
        },
    }
}

} // verus!
