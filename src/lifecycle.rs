//! What the engine guarantees across operations: tokens from a login
//! verify, a refresh token is redeemed once, and revoked keys and tokens
//! are refused.
use crate::auth::{
    checked_key, csrf_check, key_revoke_effect, key_verify_check, keys_after_revoke,
    lemma_found_key_has_id, lemma_key_by_user_stored, login_check, login_effect, refresh_decoded,
    refresh_effect, revoke_decoded, token_revoke_effect, verify_check,
};
use crate::error::CoreError;
use crate::jwt::{lemma_decode_own_token, str_bytes, unsafe_result, Claims, JwtClaimsType};
use crate::store::{
    csrf_has_key, csrf_kept, csrfs_after_read, key_active_in_slot, key_has_id,
    key_in_slot, key_of_value, last_index, lemma_last_index, lemma_single_active_key, revoked,
    user_has_email, user_has_id, StoreView,
};
use crate::types::{Key, KeyType, User};
use vstd::prelude::*;

verus! {

/// The nonce that a refresh token carries.
pub open spec fn refresh_nonce(v: StoreView, service_id: u128, token: Seq<u8>, now: i64) -> u128 {
    match refresh_decoded(v, service_id, token, now) {
        Ok((_, _, c)) => c,
        Err(_) => 0,
    }
}

/// The user whose token a revoke names.
pub open spec fn revoked_user(v: StoreView, service_id: u128, token: Seq<u8>, now: i64) -> u128 {
    match revoke_decoded(v, service_id, token, now) {
        Ok((u, _, _)) => u.id,
        Err(_) => 0,
    }
}

/// In a well-formed store, the user at index `i` is the one read by its id.
pub proof fn lemma_user_by_own_id(v: StoreView, i: int)
    requires
        v.wf(),
        0 <= i < v.users.len(),
    ensures
        v.user(v.users[i].id) == Some(v.users[i]),
{
    let id = v.users[i].id;
    lemma_last_index(v.users, user_has_id(id));
    if let Some(j) = last_index(v.users, user_has_id(id)) {
        if j != i {
            if i < j {
                assert(v.users[i].id != v.users[j].id);
            } else {
                assert(v.users[j].id != v.users[i].id);
            }
        }
    } else {
        assert(user_has_id(id)(v.users[i]));
    }
}

/// The user found by email is also found by id.
pub proof fn lemma_email_user_by_id(v: StoreView, email: Seq<char>)
    requires
        v.wf(),
        v.user_by_email(email) is Some,
    ensures
        v.user(v.user_by_email(email)->0.id) == v.user_by_email(email),
{
    lemma_last_index(v.users, user_has_email(email));
    let i = last_index(v.users, user_has_email(email))->0;
    lemma_user_by_own_id(v, i);
}

/// The key at index `i` is the one found under its id.
proof fn lemma_key_index_by_id(v: StoreView, i: int)
    requires
        v.wf(),
        0 <= i < v.keys.len(),
    ensures
        last_index(v.keys, key_has_id(v.keys[i].id)) == Some(i),
{
    let id = v.keys[i].id;
    lemma_last_index(v.keys, key_has_id(id));
    if let Some(j) = last_index(v.keys, key_has_id(id)) {
        if j != i {
            if i < j {
                assert(v.keys[i].id != v.keys[j].id);
            } else {
                assert(v.keys[j].id != v.keys[i].id);
            }
        }
    } else {
        assert(key_has_id(id)(v.keys[i]));
    }
}

/// An access token issued by a login verifies, until it expires, as the
/// user who logged in.
pub proof fn lemma_login_then_verify(
    old: StoreView,
    new: StoreView,
    service_id: u128,
    email: Seq<char>,
    password: Seq<char>,
    access_token_expires: i64,
    refresh_token_expires: i64,
    now: i64,
    t: crate::auth::UserToken,
    later: i64,
)
    requires
        old.wf(),
        login_effect(
            old,
            new,
            service_id,
            email,
            password,
            access_token_expires,
            refresh_token_expires,
            now,
            Ok(t),
        ),
        later < t.access_token_expires,
    ensures
        verify_check(new, service_id, str_bytes(&t.access_token), later) == Ok::<
            (User, i64),
            CoreError,
        >((t.user, t.access_token_expires)),
{
    let (u, k) = login_check(old, service_id, email, password)->Ok_0;
    lemma_email_user_by_id(old, email);
    let c = Claims {
        iss: service_id,
        sub: u.id,
        type_: JwtClaimsType::AccessToken,
        exp: t.access_token_expires,
        csrf: None,
    };
    lemma_decode_own_token(c, str_bytes(&k.value), later);
}

/// The refresh token issued by a login is accepted, until it expires: its
/// nonce is live and belongs to the service.
pub proof fn lemma_login_then_refresh(
    old: StoreView,
    new: StoreView,
    service_id: u128,
    email: Seq<char>,
    password: Seq<char>,
    access_token_expires: i64,
    refresh_token_expires: i64,
    now: i64,
    t: crate::auth::UserToken,
    later: i64,
)
    requires
        old.wf(),
        new.wf(),
        login_effect(
            old,
            new,
            service_id,
            email,
            password,
            access_token_expires,
            refresh_token_expires,
            now,
            Ok(t),
        ),
        later < t.refresh_token_expires,
    ensures
        refresh_decoded(new, service_id, str_bytes(&t.refresh_token), later) is Ok,
        csrf_check(
            new,
            service_id,
            refresh_nonce(new, service_id, str_bytes(&t.refresh_token), later),
            later,
        ) == Ok::<(), CoreError>(()),
{
    let (u, k) = login_check(old, service_id, email, password)->Ok_0;
    lemma_email_user_by_id(old, email);
    let nonce = new.csrfs.last();
    let c = Claims {
        iss: service_id,
        sub: u.id,
        type_: JwtClaimsType::RefreshToken,
        exp: t.refresh_token_expires,
        csrf: Some(nonce.key),
    };
    lemma_decode_own_token(c, str_bytes(&k.value), later);
    let n = new.csrfs.len() - 1;
    lemma_last_index(new.csrfs, csrf_has_key(nonce.key));
    let j = last_index(new.csrfs, csrf_has_key(nonce.key))->0;
    if j != n {
        assert(new.csrfs[j].key != new.csrfs[n].key);
    }
}

/// A refresh token is redeemed at most once: after a refresh succeeds, the
/// same token is a bad request.
pub proof fn lemma_refresh_replay_rejected(
    v1: StoreView,
    v2: StoreView,
    v3: StoreView,
    service_id: u128,
    token: Seq<u8>,
    access_token_expires: i64,
    refresh_token_expires: i64,
    now: i64,
    t2: crate::auth::UserToken,
    access_again: i64,
    refresh_again: i64,
    later: i64,
    r3: crate::error::CoreResult<crate::auth::UserToken>,
)
    requires
        refresh_effect(
            v1,
            v2,
            service_id,
            token,
            access_token_expires,
            refresh_token_expires,
            now,
            Ok(t2),
        ),
        refresh_effect(v2, v3, service_id, token, access_again, refresh_again, later, r3),
    ensures
        r3 == Err::<crate::auth::UserToken, CoreError>(CoreError::BadRequest),
{
    let ck = refresh_nonce(v1, service_id, token, now);
    let after = csrfs_after_read(v1.csrfs, ck, now);
    assert(v2.csrfs == after.push(v2.csrfs.last()));
    match refresh_decoded(v2, service_id, token, later) {
        Ok((u, k, ck2)) => {
            assert(ck2 == ck);
            lemma_last_index(v2.csrfs, csrf_has_key(ck));
            if let Some(i) = last_index(v2.csrfs, csrf_has_key(ck)) {
                if i < after.len() {
                    v1.csrfs.lemma_filter_pred(csrf_kept(ck, now), i);
                    assert(v2.csrfs[i] == after[i]);
                    assert(csrf_kept(ck, now)(after[i]));
                }
            }
        },
        Err(e) => {},
    }
}

/// Once the key behind a user's tokens is revoked, none of that user's
/// tokens for the service verifies.
pub proof fn lemma_revoked_token_rejected(
    old: StoreView,
    new: StoreView,
    service_id: u128,
    token: Seq<u8>,
    now: i64,
    other: Seq<u8>,
    later: i64,
)
    requires
        old.wf(),
        token_revoke_effect(old, new, service_id, token, now, Ok(1)),
        unsafe_result(other, service_id) matches Ok((user_id, _)) && user_id
            == revoked_user(old, service_id, token, now),
    ensures
        verify_check(new, service_id, other, later) == Err::<(User, i64), CoreError>(
            CoreError::BadRequest,
        ),
{
    let (u, k, c) = revoke_decoded(old, service_id, token, now)->Ok_0;
    if let Ok((uid, _)) = unsafe_result(token, service_id) {
        lemma_last_index(old.users, user_has_id(uid));
    }
    lemma_no_active_after_revoke(old, service_id, u.id, KeyType::Token);
    let ks = keys_after_revoke(old.keys, k.id, now);
    assert(new.keys == ks);
    assert(new.key_by_user(service_id, u.id, KeyType::Token) == old.with_keys(ks).key_by_user(
        service_id,
        u.id,
        KeyType::Token,
    ));
}

/// After the key that a lookup by slot finds is revoked, the slot holds no
/// active key.
proof fn lemma_no_active_after_revoke(v: StoreView, service_id: u128, user_id: u128, type_: KeyType)
    requires
        v.wf(),
        v.key_by_user(service_id, user_id, type_) is Some,
    ensures
        checked_key(
            v.with_keys(
                keys_after_revoke(
                    v.keys,
                    v.key_by_user(service_id, user_id, type_)->0.id,
                    0,
                ),
            ).key_by_user(service_id, user_id, type_),
        ) is Err,
        forall|now: i64|
            checked_key(
                #[trigger] v.with_keys(
                    keys_after_revoke(v.keys, v.key_by_user(service_id, user_id, type_)->0.id, now),
                ).key_by_user(service_id, user_id, type_),
            ) is Err,
{
    let k = v.key_by_user(service_id, user_id, type_)->0;
    let pa = key_active_in_slot(service_id, user_id, type_);
    lemma_key_by_user_stored(v, service_id, user_id, type_);
    lemma_last_index(v.keys, key_has_id(k.id));
    lemma_last_index(v.keys, pa);
    let i = last_index(v.keys, key_has_id(k.id))->0;
    assert forall|now: i64|
        checked_key(
            #[trigger] v.with_keys(keys_after_revoke(v.keys, k.id, now)).key_by_user(
                service_id,
                user_id,
                type_,
            ),
        ) is Err by {
        let ks = keys_after_revoke(v.keys, k.id, now);
        let w = v.with_keys(ks);
        assert(ks == v.keys.update(i, revoked(v.keys[i], now)));
        lemma_last_index(ks, pa);
        if let Some(j) = last_index(ks, pa) {
            assert(pa(ks[j]));
            assert(j != i);
            assert(ks[j] == v.keys[j]);
            assert(pa(v.keys[j]));
            let a = last_index(v.keys, pa)->0;
            assert(pa(v.keys[a]));
            lemma_single_active_key(v, a, j);
            assert(k == v.keys[a]);
            lemma_key_index_by_id(v, a);
        }
        lemma_last_index(ks, key_in_slot(service_id, user_id, type_));
        if let Some(j) = last_index(ks, key_in_slot(service_id, user_id, type_)) {
            if ks[j].is_active() {
                assert(pa(ks[j]));
            }
        }
    }
}

proof fn lemma_last_index_agree(s1: Seq<Key>, s2: Seq<Key>, p: spec_fn(Key) -> bool)
    requires
        s1.len() == s2.len(),
        forall|j: int| 0 <= j < s1.len() ==> p(#[trigger] s1[j]) == p(s2[j]),
    ensures
        last_index(s1, p) == last_index(s2, p),
    decreases s1.len(),
{
    if s1.len() > 0 {
        assert(p(s1[s1.len() - 1]) == p(s2[s2.len() - 1]));
        let t1 = s1.drop_last();
        let t2 = s2.drop_last();
        assert forall|j: int| 0 <= j < t1.len() implies p(#[trigger] t1[j]) == p(t2[j]) by {
            assert(t1[j] == s1[j]);
            assert(t2[j] == s2[j]);
        }
        lemma_last_index_agree(t1, t2, p);
    }
}

/// Once an API key is revoked, verifying it is a bad request.
pub proof fn lemma_revoked_key_rejected(
    old: StoreView,
    new: StoreView,
    service_id: u128,
    value: Seq<char>,
    now: i64,
)
    requires
        old.wf(),
        key_revoke_effect(old, new, service_id, value, now, Ok(1)),
    ensures
        key_verify_check(new, service_id, value) == Err::<(User, Key), CoreError>(
            CoreError::BadRequest,
        ),
{
    let k = old.key_by_value(service_id, value, KeyType::Key)->0;
    let p = key_of_value(service_id, value, KeyType::Key);
    lemma_found_key_has_id(old, k, p);
    lemma_last_index(old.keys, p);
    let a = last_index(old.keys, p)->0;
    lemma_key_index_by_id(old, a);
    let ks = keys_after_revoke(old.keys, k.id, now);
    assert(ks == old.keys.update(a, revoked(old.keys[a], now)));
    assert forall|j: int| 0 <= j < ks.len() implies p(#[trigger] ks[j]) == p(old.keys[j]) by {
        if j == a {
            assert(ks[j] == revoked(old.keys[a], now));
        }
    }
    lemma_last_index_agree(ks, old.keys, p);
}

/// While a user has no active token key for a service, none of that user's
/// tokens for the service verifies.
pub proof fn lemma_slot_empty_rejects(v: StoreView, service_id: u128, token: Seq<u8>, later: i64)
    requires
        unsafe_result(token, service_id) matches Ok((user_id, _)) && last_index(
            v.keys,
            key_active_in_slot(service_id, user_id, KeyType::Token),
        ) is None,
    ensures
        verify_check(v, service_id, token, later) == Err::<(User, i64), CoreError>(
            CoreError::BadRequest,
        ),
{
    if let Ok((user_id, _)) = unsafe_result(token, service_id) {
        lemma_last_index(v.keys, key_in_slot(service_id, user_id, KeyType::Token));
        if let Some(j) = last_index(v.keys, key_in_slot(service_id, user_id, KeyType::Token)) {
            if v.keys[j].is_active() {
                lemma_last_index(v.keys, key_active_in_slot(service_id, user_id, KeyType::Token));
                assert(key_active_in_slot(service_id, user_id, KeyType::Token)(v.keys[j]));
            }
        }
    }
}

/// Revoking a key never gives a slot an active key.
pub proof fn lemma_revoke_keeps_slot_empty(
    keys: Seq<Key>,
    id: u128,
    now: i64,
    service_id: u128,
    user_id: u128,
    type_: KeyType,
)
    requires
        last_index(keys, key_active_in_slot(service_id, user_id, type_)) is None,
    ensures
        last_index(
            keys_after_revoke(keys, id, now),
            key_active_in_slot(service_id, user_id, type_),
        ) is None,
{
    let p = key_active_in_slot(service_id, user_id, type_);
    let ks = keys_after_revoke(keys, id, now);
    lemma_last_index(keys, p);
    lemma_last_index(ks, p);
    lemma_last_index(keys, key_has_id(id));
    if let Some(j) = last_index(ks, p) {
        assert(p(ks[j]));
        if let Some(i) = last_index(keys, key_has_id(id)) {
            if j != i {
                assert(ks[j] == keys[j]);
            }
        }
        assert(p(keys[j]));
    }
}

/// Revoking every key of a user never gives a slot an active key.
pub proof fn lemma_revoke_all_keeps_slot_empty(
    keys: Seq<Key>,
    owner: u128,
    now: i64,
    service_id: u128,
    user_id: u128,
    type_: KeyType,
)
    requires
        last_index(keys, key_active_in_slot(service_id, user_id, type_)) is None,
    ensures
        last_index(
            crate::auth::keys_revoked_for_user(keys, owner, now),
            key_active_in_slot(service_id, user_id, type_),
        ) is None,
{
    let p = key_active_in_slot(service_id, user_id, type_);
    let ks = crate::auth::keys_revoked_for_user(keys, owner, now);
    lemma_last_index(keys, p);
    lemma_last_index(ks, p);
    if let Some(j) = last_index(ks, p) {
        assert(p(ks[j]));
        assert(p(keys[j]));
    }
}

/// Right after a token revoke, the revoked user's slot has no active key.
pub proof fn lemma_revoke_empties_slot(
    old: StoreView,
    new: StoreView,
    service_id: u128,
    token: Seq<u8>,
    now: i64,
)
    requires
        old.wf(),
        token_revoke_effect(old, new, service_id, token, now, Ok(1)),
    ensures
        last_index(
            new.keys,
            key_active_in_slot(service_id, revoked_user(old, service_id, token, now), KeyType::Token),
        ) is None,
{
    let (u, k, c) = revoke_decoded(old, service_id, token, now)->Ok_0;
    if let Ok((uid, _)) = unsafe_result(token, service_id) {
        lemma_last_index(old.users, user_has_id(uid));
    }
    lemma_no_active_after_revoke(old, service_id, u.id, KeyType::Token);
    let ks = keys_after_revoke(old.keys, k.id, now);
    let p = key_active_in_slot(service_id, u.id, KeyType::Token);
    assert(new.keys == ks);
    lemma_last_index(ks, p);
    if let Some(j) = last_index(ks, p) {
        assert(old.with_keys(ks).key_by_user(service_id, u.id, KeyType::Token) == Some(ks[j]));
    }
}

/// The access token of a pair issued by a refresh verifies, until it
/// expires, as the refresh token's user.
pub proof fn lemma_refresh_then_verify(
    old: StoreView,
    new: StoreView,
    service_id: u128,
    token: Seq<u8>,
    access_token_expires: i64,
    refresh_token_expires: i64,
    now: i64,
    t: crate::auth::UserToken,
    later: i64,
)
    requires
        refresh_effect(
            old,
            new,
            service_id,
            token,
            access_token_expires,
            refresh_token_expires,
            now,
            Ok(t),
        ),
        later < t.access_token_expires,
    ensures
        verify_check(new, service_id, str_bytes(&t.access_token), later) == Ok::<
            (User, i64),
            CoreError,
        >((t.user, t.access_token_expires)),
{
    let (u, k, ck) = refresh_decoded(old, service_id, token, now)->Ok_0;
    if let Ok((uid, _)) = unsafe_result(token, service_id) {
        lemma_last_index(old.users, user_has_id(uid));
    }
    let c = Claims {
        iss: service_id,
        sub: u.id,
        type_: JwtClaimsType::AccessToken,
        exp: t.access_token_expires,
        csrf: None,
    };
    lemma_decode_own_token(c, str_bytes(&k.value), later);
}

/// A login whose checks pass and whose expiries fit succeeds when no nonce
/// exists yet: only a nonce already stored could collide with the new one.
pub proof fn lemma_login_succeeds(
    old: StoreView,
    new: StoreView,
    service_id: u128,
    email: Seq<char>,
    password: Seq<char>,
    access_token_expires: i64,
    refresh_token_expires: i64,
    now: i64,
    r: crate::error::CoreResult<crate::auth::UserToken>,
)
    requires
        login_check(old, service_id, email, password) is Ok,
        crate::auth::pair_expiries_ok(now, access_token_expires, refresh_token_expires),
        old.csrfs.len() == 0,
        login_effect(
            old,
            new,
            service_id,
            email,
            password,
            access_token_expires,
            refresh_token_expires,
            now,
            r,
        ),
    ensures
        r is Ok,
        (login_check(old, service_id, email, password) matches Ok((u, _)) ==> r->Ok_0.user == u),
{
}

} // verus!
