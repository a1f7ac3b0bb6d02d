//! In-memory entity store: services, users, keys, CSRF nonces and audits.
//!
//! Lookups return the last matching record. The store's invariant keeps
//! identifiers, emails, key values and CSRF keys unique, and keeps at most
//! one active user key per service, user and key type.
use crate::error::DriverError;
use crate::list::{list_ids, page_of, ListQuery};
use crate::types::{Audit, Csrf, Key, KeyType, Service, ServiceUpdate, User, UserUpdate};
use vstd::prelude::*;

verus! {

/// The index of the last element of `s` that satisfies `p`.
pub open spec fn last_index<T>(s: Seq<T>, p: spec_fn(T) -> bool) -> Option<int>
    decreases s.len(),
{
    if s.len() == 0 {
        None
    } else if p(s.last()) {
        Some(s.len() - 1)
    } else {
        last_index(s.drop_last(), p)
    }
}

pub proof fn lemma_last_index<T>(s: Seq<T>, p: spec_fn(T) -> bool)
    ensures
        match last_index(s, p) {
            Some(i) => 0 <= i < s.len() && p(s[i]) && forall|j: int|
                i < j < s.len() ==> !p(#[trigger] s[j]),
            None => forall|j: int| 0 <= j < s.len() ==> !p(#[trigger] s[j]),
        },
    decreases s.len(),
{
    if s.len() > 0 {
        lemma_last_index(s.drop_last(), p);
        if !p(s.last()) {
            assert forall|j: int| 0 <= j < s.len() - 1 implies s[j] == s.drop_last()[j] by {}
        }
    }
}

proof fn lemma_last_index_step<T>(s: Seq<T>, p: spec_fn(T) -> bool, i: int)
    requires
        0 <= i < s.len(),
    ensures
        last_index(s.subrange(0, i + 1), p) == if p(s[i]) {
            Some(i)
        } else {
            last_index(s.subrange(0, i), p)
        },
{
    assert(s.subrange(0, i + 1).drop_last() =~= s.subrange(0, i));
}

pub open spec fn opt_is(o: Option<u128>, v: u128) -> bool {
    o == Some(v)
}

fn opt_eq(o: Option<u128>, v: u128) -> (r: bool)
    ensures
        r == opt_is(o, v),
{
    match o {
        Some(x) => x == v,
        None => false,
    }
}

/// A user key of this service, user and type.
pub open spec fn in_slot(k: Key, service_id: u128, user_id: u128, type_: KeyType) -> bool {
    k.service_id == Some(service_id) && k.user_id == Some(user_id) && k.type_ == type_
}

/// Two keys that may not both be active.
pub open spec fn same_slot(a: Key, b: Key) -> bool {
    a.user_id is Some && a.service_id == b.service_id && a.user_id == b.user_id && a.type_
        == b.type_
}

pub open spec fn index_of(r: Option<usize>) -> Option<int> {
    match r {
        Some(i) => Some(i as int),
        None => None,
    }
}

pub open spec fn service_has_id(id: u128) -> spec_fn(Service) -> bool {
    |s: Service| s.id == id
}

pub open spec fn user_has_id(id: u128) -> spec_fn(User) -> bool {
    |u: User| u.id == id
}

pub open spec fn user_has_email(email: Seq<char>) -> spec_fn(User) -> bool {
    |u: User| u.email@ == email
}

pub open spec fn key_has_id(id: u128) -> spec_fn(Key) -> bool {
    |k: Key| k.id == id
}

pub open spec fn key_has_value(value: Seq<char>) -> spec_fn(Key) -> bool {
    |k: Key| k.value@ == value
}

pub open spec fn key_in_slot(service_id: u128, user_id: u128, type_: KeyType) -> spec_fn(Key) -> bool {
    |k: Key| in_slot(k, service_id, user_id, type_)
}

pub open spec fn key_active_in_slot(service_id: u128, user_id: u128, type_: KeyType) -> spec_fn(
    Key,
) -> bool {
    |k: Key| k.is_active() && in_slot(k, service_id, user_id, type_)
}

pub open spec fn key_of_value(service_id: u128, value: Seq<char>, type_: KeyType) -> spec_fn(
    Key,
) -> bool {
    |k: Key| k.service_id == Some(service_id) && k.value@ == value && k.type_ == type_
}

pub open spec fn csrf_has_key(key: u128) -> spec_fn(Csrf) -> bool {
    |c: Csrf| c.key == key
}

/// Which services a listing keeps: those among `id`, if given, with this
/// enabled state, if given.
#[derive(Clone, Debug)]
pub struct ServiceListFilter {
    pub id: Option<Vec<u128>>,
    pub is_enabled: Option<bool>,
}

/// Which users a listing keeps: those among `id`, if given, with this
/// email, if given.
#[derive(Clone, Debug)]
pub struct UserListFilter {
    pub id: Option<Vec<u128>>,
    pub email_eq: Option<String>,
}

pub open spec fn service_passes(filter: ServiceListFilter) -> spec_fn(Service) -> bool {
    |s: Service|
        (match filter.id {
            Some(ids) => ids@.contains(s.id),
            None => true,
        }) && (match filter.is_enabled {
            Some(e) => s.is_enabled == e,
            None => true,
        })
}

pub open spec fn user_passes(filter: UserListFilter) -> spec_fn(User) -> bool {
    |u: User|
        (match filter.id {
            Some(ids) => ids@.contains(u.id),
            None => true,
        }) && (match filter.email_eq {
            Some(e) => u.email@ == e@,
            None => true,
        })
}

fn id_in(ids: &Vec<u128>, x: u128) -> (r: bool)
    ensures
        r == ids@.contains(x),
{
    let mut i: usize = 0;
    while i < ids.len()
        invariant
            i <= ids@.len(),
            forall|j: int| 0 <= j < i ==> ids@[j] != x,
        decreases ids@.len() - i,
    {
        if ids[i] == x {
            assert(ids@[i as int] == x);
            return true;
        }
        i = i + 1;
    }
    false
}

/// A window of audit creation times with a page size, and optionally the
/// id of the last audit already seen.
#[derive(Clone, Copy, Debug, PartialEq, Eq, Structural)]
pub enum AuditListQuery {
    /// Created at or before, newest page first.
    CreatedLe(i64, usize, Option<u128>),
    /// Created at or after, oldest page first.
    CreatedGe(i64, usize, Option<u128>),
    /// Created within both bounds (`le`, `ge`), oldest page first.
    CreatedLeAndGe(i64, i64, usize, Option<u128>),
}

/// An audit lies in the query's window and, if a mask is given, belongs to
/// that service.
pub open spec fn audit_in_window(query: AuditListQuery, mask: Option<u128>) -> spec_fn(Audit) -> bool {
    |a: Audit|
        (match query {
            AuditListQuery::CreatedLe(le, _, _) => a.created_at <= le,
            AuditListQuery::CreatedGe(ge, _, _) => ge <= a.created_at,
            AuditListQuery::CreatedLeAndGe(le, ge, _, _) => ge <= a.created_at && a.created_at <= le,
        }) && (match mask {
            Some(m) => a.service_id == Some(m),
            None => true,
        })
}

pub open spec fn audit_has_id(id: u128) -> spec_fn(Audit) -> bool {
    |a: Audit| a.id == id
}

/// The page of audits a query selects among `matches` (oldest first): for
/// `CreatedLe`, the newest `limit` before the offset audit; otherwise the
/// oldest `limit` after it. An offset id not among the matches is ignored.
pub open spec fn audit_page(matches: Seq<Audit>, query: AuditListQuery) -> Seq<Audit> {
    let (limit, offset) = match query {
        AuditListQuery::CreatedLe(_, n, o) => (n as int, o),
        AuditListQuery::CreatedGe(_, n, o) => (n as int, o),
        AuditListQuery::CreatedLeAndGe(_, _, n, o) => (n as int, o),
    };
    let at: Option<int> = match offset {
        Some(id) => last_index(matches, audit_has_id(id)),
        None => None,
    };
    match query {
        AuditListQuery::CreatedLe(_, _, _) => {
            let end = match at {
                Some(p) => p,
                None => matches.len() as int,
            };
            let start = if end - limit > 0 {
                end - limit
            } else {
                0
            };
            matches.subrange(start, end)
        },
        _ => {
            let start = match at {
                Some(p) => p + 1,
                None => 0,
            };
            let end = if start + limit < matches.len() {
                start + limit
            } else {
                matches.len() as int
            };
            matches.subrange(start, end)
        },
    }
}

/// Some audit already has this id.
pub open spec fn audit_id_taken(audits: Seq<Audit>, id: u128) -> bool {
    exists|i: int| 0 <= i < audits.len() && (#[trigger] audits[i]).id == id
}

/// Among the ids `0..=len`, one is free: there are more of them than audits.
proof fn lemma_small_id_free(audits: Seq<Audit>)
    requires
        audits.len() < 0x1_0000_0000_0000_0000_0000_0000_0000_0000,
    ensures
        exists|k: int| 0 <= k <= audits.len() && !#[trigger] audit_id_taken(audits, k as u128),
{
    let n = audits.len() as int;
    if forall|k: int| 0 <= k <= n ==> #[trigger] audit_id_taken(audits, k as u128) {
        let ids = audits.map_values(|a: Audit| a.id as int);
        let range = vstd::set_lib::set_int_range(0, n + 1);
        let seen = ids.to_set();
        vstd::set_lib::lemma_int_range(0, n + 1);
        ids.lemma_cardinality_of_set();
        vstd::seq_lib::seq_to_set_is_finite(ids);
        assert forall|k: int| range.contains(k) implies seen.contains(k) by {
            assert(audit_id_taken(audits, k as u128));
            let i = choose|i: int| 0 <= i < audits.len() && (#[trigger] audits[i]).id == k as u128;
            assert(ids[i] == k);
            assert(ids.contains(k));
        }
        vstd::set_lib::lemma_len_subset(range, seen);
        assert(false);
    }
}

/// Keys of the store's advisory locks.
#[derive(Clone, Copy, Debug, PartialEq, Eq, Structural)]
pub enum DriverLock {
    /// Serialises migrations and bulk operations.
    Transaction,
}

impl DriverLock {
    /// The integer that the lock is keyed by.
    pub fn key(&self) -> (r: i32)
        ensures
            r == 1,
    {
        match self {
            DriverLock::Transaction => 1,
        }
    }
}

/// The contents of a store.
pub struct StoreView {
    pub services: Seq<Service>,
    pub users: Seq<User>,
    pub keys: Seq<Key>,
    pub csrfs: Seq<Csrf>,
    pub audits: Seq<Audit>,
}

impl StoreView {
    pub open spec fn with_services(self, services: Seq<Service>) -> StoreView {
        StoreView { services, ..self }
    }

    pub open spec fn with_users(self, users: Seq<User>) -> StoreView {
        StoreView { users, ..self }
    }

    pub open spec fn with_keys(self, keys: Seq<Key>) -> StoreView {
        StoreView { keys, ..self }
    }

    pub open spec fn with_csrfs(self, csrfs: Seq<Csrf>) -> StoreView {
        StoreView { csrfs, ..self }
    }

    pub open spec fn with_audits(self, audits: Seq<Audit>) -> StoreView {
        StoreView { audits, ..self }
    }

    pub open spec fn wf(self) -> bool {
        &&& forall|i: int, j: int|
            0 <= i < j < self.services.len() ==> #[trigger] self.services[i].id
                != #[trigger] self.services[j].id
        &&& forall|i: int, j: int|
            0 <= i < j < self.users.len() ==> #[trigger] self.users[i].id
                != #[trigger] self.users[j].id
        &&& forall|i: int, j: int|
            0 <= i < j < self.users.len() ==> #[trigger] self.users[i].email@
                != #[trigger] self.users[j].email@
        &&& forall|i: int, j: int|
            0 <= i < j < self.keys.len() ==> #[trigger] self.keys[i].id
                != #[trigger] self.keys[j].id
        &&& forall|i: int, j: int|
            0 <= i < j < self.keys.len() ==> #[trigger] self.keys[i].value@
                != #[trigger] self.keys[j].value@
        &&& forall|i: int, j: int|
            0 <= i < j < self.keys.len() && #[trigger] self.keys[i].is_active()
                && #[trigger] self.keys[j].is_active() ==> !same_slot(self.keys[i], self.keys[j])
        &&& forall|i: int, j: int|
            0 <= i < j < self.csrfs.len() ==> #[trigger] self.csrfs[i].key
                != #[trigger] self.csrfs[j].key
        &&& forall|i: int, j: int|
            0 <= i < j < self.audits.len() ==> #[trigger] self.audits[i].id
                != #[trigger] self.audits[j].id
    }

    pub open spec fn service_ids(self) -> Seq<u128> {
        self.services.map_values(|s: Service| s.id)
    }

    pub open spec fn user_ids(self) -> Seq<u128> {
        self.users.map_values(|u: User| u.id)
    }

    pub open spec fn key_ids(self) -> Seq<u128> {
        self.keys.map_values(|k: Key| k.id)
    }

    pub open spec fn service(self, id: u128) -> Option<Service> {
        match last_index(self.services, service_has_id(id)) {
            Some(i) => Some(self.services[i]),
            None => None,
        }
    }

    pub open spec fn user(self, id: u128) -> Option<User> {
        match last_index(self.users, user_has_id(id)) {
            Some(i) => Some(self.users[i]),
            None => None,
        }
    }

    pub open spec fn user_by_email(self, email: Seq<char>) -> Option<User> {
        match last_index(self.users, user_has_email(email)) {
            Some(i) => Some(self.users[i]),
            None => None,
        }
    }

    /// The key of a user for a service and type: the active one if there is
    /// one, else the last such key.
    pub open spec fn key_by_user(self, service_id: u128, user_id: u128, type_: KeyType) -> Option<
        Key,
    > {
        match last_index(self.keys, key_active_in_slot(service_id, user_id, type_)) {
            Some(i) => Some(self.keys[i]),
            None => match last_index(self.keys, key_in_slot(service_id, user_id, type_)) {
                Some(i) => Some(self.keys[i]),
                None => None,
            },
        }
    }

    /// The key of this service and type with this value.
    pub open spec fn key_by_value(self, service_id: u128, value: Seq<char>, type_: KeyType) -> Option<
        Key,
    > {
        match last_index(self.keys, key_of_value(service_id, value, type_)) {
            Some(i) => Some(self.keys[i]),
            None => None,
        }
    }

    /// The key with this value, whatever its owner.
    pub open spec fn key_with_value(self, value: Seq<char>) -> Option<Key> {
        match last_index(self.keys, key_has_value(value)) {
            Some(i) => Some(self.keys[i]),
            None => None,
        }
    }

    pub open spec fn csrf(self, key: u128) -> Option<Csrf> {
        match last_index(self.csrfs, csrf_has_key(key)) {
            Some(i) => Some(self.csrfs[i]),
            None => None,
        }
    }
}

/// `new` differs from `old` only by audits appended.
pub open spec fn audited(old: StoreView, new: StoreView) -> bool {
    &&& new == old.with_audits(new.audits)
    &&& old.audits.len() <= new.audits.len()
    &&& new.audits.subrange(0, old.audits.len() as int) == old.audits
}

pub broadcast proof fn lemma_audited_trans(a: StoreView, b: StoreView, c: StoreView)
    requires
        audited(a, b),
        audited(b, c),
    ensures
        #![trigger audited(a, b), audited(b, c)]
        audited(a, c),
{
    assert(c.audits.subrange(0, a.audits.len() as int) =~= b.audits.subrange(
        0,
        a.audits.len() as int,
    ));
}

pub proof fn lemma_audited_refl(a: StoreView)
    ensures
        audited(a, a),
{
    assert(a.audits.subrange(0, a.audits.len() as int) =~= a.audits);
}

/// `new` holds these users, keys and CSRF nonces, the same services, and
/// the audits of `old` followed by any new ones.
pub open spec fn evolved(
    old: StoreView,
    new: StoreView,
    users: Seq<User>,
    keys: Seq<Key>,
    csrfs: Seq<Csrf>,
) -> bool {
    &&& new.services == old.services
    &&& new.users == users
    &&& new.keys == keys
    &&& new.csrfs == csrfs
    &&& old.audits.len() <= new.audits.len()
    &&& new.audits.subrange(0, old.audits.len() as int) == old.audits
}

pub broadcast proof fn lemma_evolved_audited(
    a: StoreView,
    b: StoreView,
    c: StoreView,
    users: Seq<User>,
    keys: Seq<Key>,
    csrfs: Seq<Csrf>,
)
    requires
        evolved(a, b, users, keys, csrfs),
        audited(b, c),
    ensures
        #![trigger evolved(a, b, users, keys, csrfs), audited(b, c)]
        evolved(a, c, users, keys, csrfs),
{
    assert(c.audits.subrange(0, a.audits.len() as int) =~= b.audits.subrange(
        0,
        a.audits.len() as int,
    ));
}

pub broadcast proof fn lemma_audited_evolved(
    a: StoreView,
    b: StoreView,
    c: StoreView,
    users: Seq<User>,
    keys: Seq<Key>,
    csrfs: Seq<Csrf>,
)
    requires
        audited(a, b),
        evolved(b, c, users, keys, csrfs),
    ensures
        #![trigger audited(a, b), evolved(b, c, users, keys, csrfs)]
        evolved(a, c, users, keys, csrfs),
{
    assert(c.audits.subrange(0, a.audits.len() as int) =~= b.audits.subrange(
        0,
        a.audits.len() as int,
    ));
}

pub proof fn lemma_evolved_frame(a: StoreView, users: Seq<User>, keys: Seq<Key>, csrfs: Seq<Csrf>)
    ensures
        evolved(a, a.with_users(users).with_keys(keys).with_csrfs(csrfs), users, keys, csrfs),
{
    assert(a.audits.subrange(0, a.audits.len() as int) =~= a.audits);
}

pub proof fn lemma_evolved_trans(
    a: StoreView,
    b: StoreView,
    c: StoreView,
    users: Seq<User>,
    keys: Seq<Key>,
    csrfs: Seq<Csrf>,
)
    requires
        evolved(a, b, b.users, b.keys, b.csrfs),
        evolved(b, c, users, keys, csrfs),
    ensures
        evolved(a, c, users, keys, csrfs),
{
    assert(c.audits.subrange(0, a.audits.len() as int) =~= b.audits.subrange(
        0,
        a.audits.len() as int,
    ));
}

/// A key after an update: revocation is terminal, and a revoked key is
/// never enabled.
pub open spec fn updated_key(
    k: Key,
    is_enabled: Option<bool>,
    is_revoked: Option<bool>,
    name: Option<String>,
    now: i64,
) -> Key {
    let revoked = k.is_revoked || is_revoked == Some(true);
    Key {
        is_revoked: revoked,
        is_enabled: !revoked && match is_enabled {
            Some(e) => e,
            None => k.is_enabled,
        },
        name: match name {
            Some(n) => n,
            None => k.name,
        },
        updated_at: now,
        ..k
    }
}

/// Another active key than the one at `i` shares a slot with `k`.
pub open spec fn slot_taken_by_other(keys: Seq<Key>, i: int, k: Key) -> bool {
    exists|j: int| 0 <= j < keys.len() && j != i && (#[trigger] keys[j]).is_active() && same_slot(k, keys[j])
}

/// A key after revocation.
pub open spec fn revoked(k: Key, now: i64) -> Key {
    Key { is_enabled: false, is_revoked: true, updated_at: now, ..k }
}

/// A key after revoking every key of `user_id`.
pub open spec fn revoked_if_owned(k: Key, user_id: u128, now: i64) -> Key {
    if k.user_id == Some(user_id) {
        revoked(k, now)
    } else {
        k
    }
}

/// A service after an update; `None` keeps the old value.
pub open spec fn updated_service(s: Service, update: ServiceUpdate, now: i64) -> Service {
    Service {
        updated_at: now,
        is_enabled: match update.is_enabled {
            Some(v) => v,
            None => s.is_enabled,
        },
        name: match update.name {
            Some(v) => v,
            None => s.name,
        },
        url: match update.url {
            Some(v) => v,
            None => s.url,
        },
        provider_local_url: match update.provider_local_url {
            Some(v) => Some(v),
            None => s.provider_local_url,
        },
        provider_github_oauth2_url: match update.provider_github_oauth2_url {
            Some(v) => Some(v),
            None => s.provider_github_oauth2_url,
        },
        provider_microsoft_oauth2_url: match update.provider_microsoft_oauth2_url {
            Some(v) => Some(v),
            None => s.provider_microsoft_oauth2_url,
        },
        ..s
    }
}

/// A user after an update.
pub open spec fn updated_user(u: User, update: UserUpdate, now: i64) -> User {
    User {
        updated_at: now,
        is_enabled: match update.is_enabled {
            Some(v) => v,
            None => u.is_enabled,
        },
        name: match update.name {
            Some(v) => v,
            None => u.name,
        },
        locale: match update.locale {
            Some(v) => v,
            None => u.locale,
        },
        timezone: match update.timezone {
            Some(v) => v,
            None => u.timezone,
        },
        password_allow_reset: match update.password_allow_reset {
            Some(v) => v,
            None => u.password_allow_reset,
        },
        password_require_update: match update.password_require_update {
            Some(v) => v,
            None => u.password_require_update,
        },
        ..u
    }
}

/// The number of keys of a user.
pub open spec fn user_key_count(keys: Seq<Key>, user_id: u128) -> nat
    decreases keys.len(),
{
    if keys.len() == 0 {
        0
    } else {
        user_key_count(keys.drop_last(), user_id) + if keys.last().user_id == Some(user_id) {
            1nat
        } else {
            0nat
        }
    }
}

/// Kept by a read of `key` at `now`: live and not the one read.
pub open spec fn csrf_kept(key: u128, now: i64) -> spec_fn(Csrf) -> bool {
    |c: Csrf| now < c.ttl && c.key != key
}

/// The CSRF nonces left after a sweep at `now` and the removal of `key`.
pub open spec fn csrfs_after_read(csrfs: Seq<Csrf>, key: u128, now: i64) -> Seq<Csrf> {
    csrfs.filter(csrf_kept(key, now))
}

/// What a read of `key` at `now` returns: the nonce if it is still live.
pub open spec fn csrf_live(v: StoreView, key: u128, now: i64) -> Option<Csrf> {
    match v.csrf(key) {
        Some(c) => if now < c.ttl {
            Some(c)
        } else {
            None
        },
        None => None,
    }
}

/// The entity store.
pub struct Store {
    services: Vec<Service>,
    users: Vec<User>,
    keys: Vec<Key>,
    csrfs: Vec<Csrf>,
    audits: Vec<Audit>,
}

impl View for Store {
    type V = StoreView;

    closed spec fn view(&self) -> StoreView {
        StoreView {
            services: self.services@,
            users: self.users@,
            keys: self.keys@,
            csrfs: self.csrfs@,
            audits: self.audits@,
        }
    }
}

impl Store {
    pub open spec fn wf(&self) -> bool {
        self@.wf()
    }

    /// The services, in store order.
    pub fn services(&self) -> (r: &Vec<Service>)
        ensures
            r@ == self@.services,
    {
        &self.services
    }

    /// The users, in store order.
    pub fn users(&self) -> (r: &Vec<User>)
        ensures
            r@ == self@.users,
    {
        &self.users
    }

    /// The keys, in store order.
    pub fn keys(&self) -> (r: &Vec<Key>)
        ensures
            r@ == self@.keys,
    {
        &self.keys
    }

    /// The live and expired CSRF nonces not yet swept.
    pub fn csrfs(&self) -> (r: &Vec<Csrf>)
        ensures
            r@ == self@.csrfs,
    {
        &self.csrfs
    }

    /// The audit trail, oldest first.
    pub fn audits(&self) -> (r: &Vec<Audit>)
        ensures
            r@ == self@.audits,
    {
        &self.audits
    }

    /// An empty store.
    pub fn new() -> (r: Store)
        ensures
            r.wf(),
            r@.services.len() == 0,
            r@.users.len() == 0,
            r@.keys.len() == 0,
            r@.csrfs.len() == 0,
            r@.audits.len() == 0,
    {
        Store {
            services: Vec::new(),
            users: Vec::new(),
            keys: Vec::new(),
            csrfs: Vec::new(),
            audits: Vec::new(),
        }
    }

    fn service_index(&self, id: u128) -> (r: Option<usize>)
        ensures
            index_of(r) == last_index(self@.services, service_has_id(id)),
    {
        let ghost p = service_has_id(id);
        let n = self.services.len();
        let mut found: Option<usize> = None;
        let mut i: usize = 0;
        while i < n
            invariant
                i <= n,
                n == self@.services.len(),
                index_of(found) == last_index(self@.services.subrange(0, i as int), p),
                p == service_has_id(id),
            decreases n - i,
        {
            proof {
                lemma_last_index_step(self@.services, p, i as int);
                assert(p(self@.services[i as int]) <==> self@.services[i as int].id == id);
            }
            if self.services[i].id == id {
                found = Some(i);
            }
            i = i + 1;
        }
        assert(self@.services.subrange(0, n as int) =~= self@.services);
        found
    }

    fn user_index(&self, id: u128) -> (r: Option<usize>)
        ensures
            index_of(r) == last_index(self@.users, user_has_id(id)),
    {
        let ghost p = user_has_id(id);
        let n = self.users.len();
        let mut found: Option<usize> = None;
        let mut i: usize = 0;
        while i < n
            invariant
                i <= n,
                n == self@.users.len(),
                index_of(found) == last_index(self@.users.subrange(0, i as int), p),
                p == user_has_id(id),
            decreases n - i,
        {
            proof {
                lemma_last_index_step(self@.users, p, i as int);
                assert(p(self@.users[i as int]) <==> self@.users[i as int].id == id);
            }
            if self.users[i].id == id {
                found = Some(i);
            }
            i = i + 1;
        }
        assert(self@.users.subrange(0, n as int) =~= self@.users);
        found
    }

    fn user_index_by_email(&self, email: &String) -> (r: Option<usize>)
        ensures
            index_of(r) == last_index(self@.users, user_has_email(email@)),
    {
        let ghost p = user_has_email(email@);
        let n = self.users.len();
        let mut found: Option<usize> = None;
        let mut i: usize = 0;
        while i < n
            invariant
                i <= n,
                n == self@.users.len(),
                index_of(found) == last_index(self@.users.subrange(0, i as int), p),
                p == user_has_email(email@),
            decreases n - i,
        {
            proof {
                lemma_last_index_step(self@.users, p, i as int);
            }
            if self.users[i].email == *email {
                found = Some(i);
            }
            i = i + 1;
        }
        assert(self@.users.subrange(0, n as int) =~= self@.users);
        found
    }

    fn csrf_index(&self, key: u128) -> (r: Option<usize>)
        ensures
            index_of(r) == last_index(self@.csrfs, csrf_has_key(key)),
    {
        let ghost p = csrf_has_key(key);
        let n = self.csrfs.len();
        let mut found: Option<usize> = None;
        let mut i: usize = 0;
        while i < n
            invariant
                i <= n,
                n == self@.csrfs.len(),
                index_of(found) == last_index(self@.csrfs.subrange(0, i as int), p),
                p == csrf_has_key(key),
            decreases n - i,
        {
            proof {
                lemma_last_index_step(self@.csrfs, p, i as int);
                assert(p(self@.csrfs[i as int]) <==> self@.csrfs[i as int].key == key);
            }
            if self.csrfs[i].key == key {
                found = Some(i);
            }
            i = i + 1;
        }
        assert(self@.csrfs.subrange(0, n as int) =~= self@.csrfs);
        found
    }

    /// Reads a service by id.
    pub fn service_read_opt(&self, id: u128) -> (r: Option<Service>)
        ensures
            r == self@.service(id),
    {
        proof {
            lemma_last_index(self@.services, service_has_id(id));
        }
        match self.service_index(id) {
            Some(i) => Some(self.services[i].copy()),
            None => None,
        }
    }

    /// Reads a user by id.
    pub fn user_read_opt(&self, id: u128) -> (r: Option<User>)
        ensures
            r == self@.user(id),
    {
        proof {
            lemma_last_index(self@.users, user_has_id(id));
        }
        match self.user_index(id) {
            Some(i) => Some(self.users[i].copy()),
            None => None,
        }
    }

    /// Reads a user by email.
    pub fn user_read_by_email_opt(&self, email: &String) -> (r: Option<User>)
        ensures
            r == self@.user_by_email(email@),
    {
        proof {
            lemma_last_index(self@.users, user_has_email(email@));
        }
        match self.user_index_by_email(email) {
            Some(i) => Some(self.users[i].copy()),
            None => None,
        }
    }

    /// Reads the key of a user for a service and type: the active one if
    /// there is one, else the last such key.
    pub fn key_read_by_user(&self, service_id: u128, user_id: u128, type_: KeyType) -> (r: Option<
        Key,
    >)
        ensures
            r == self@.key_by_user(service_id, user_id, type_),
    {
        let ghost pa = key_active_in_slot(service_id, user_id, type_);
        let ghost pk = key_in_slot(service_id, user_id, type_);
        let n = self.keys.len();
        let mut active: Option<usize> = None;
        let mut any: Option<usize> = None;
        let mut i: usize = 0;
        while i < n
            invariant
                i <= n,
                n == self@.keys.len(),
                pa == key_active_in_slot(service_id, user_id, type_),
                pk == key_in_slot(service_id, user_id, type_),
                index_of(active) == last_index(self@.keys.subrange(0, i as int), pa),
                index_of(any) == last_index(self@.keys.subrange(0, i as int), pk),
            decreases n - i,
        {
            proof {
                let k = self@.keys[i as int];
                lemma_last_index_step(self@.keys, pa, i as int);
                lemma_last_index_step(self@.keys, pk, i as int);
                assert(pa(k) <==> k.is_active() && in_slot(k, service_id, user_id, type_));
                assert(pk(k) <==> in_slot(k, service_id, user_id, type_));
            }
            let k = &self.keys[i];
            if opt_eq(k.service_id, service_id) && opt_eq(k.user_id, user_id) && k.type_ == type_ {
                any = Some(i);
                if k.is_enabled && !k.is_revoked {
                    active = Some(i);
                }
            }
            i = i + 1;
        }
        proof {
            assert(self@.keys.subrange(0, n as int) =~= self@.keys);
            lemma_last_index(self@.keys, pa);
            lemma_last_index(self@.keys, pk);
        }
        match active {
            Some(j) => Some(self.keys[j].copy()),
            None => match any {
                Some(j) => Some(self.keys[j].copy()),
                None => None,
            },
        }
    }

    /// Reads the key of this service and type with this value.
    pub fn key_read_by_value(&self, service_id: u128, value: &String, type_: KeyType) -> (r: Option<
        Key,
    >)
        ensures
            r == self@.key_by_value(service_id, value@, type_),
    {
        let ghost p = key_of_value(service_id, value@, type_);
        let n = self.keys.len();
        let mut found: Option<usize> = None;
        let mut i: usize = 0;
        while i < n
            invariant
                i <= n,
                n == self@.keys.len(),
                p == key_of_value(service_id, value@, type_),
                index_of(found) == last_index(self@.keys.subrange(0, i as int), p),
            decreases n - i,
        {
            proof {
                let k = self@.keys[i as int];
                lemma_last_index_step(self@.keys, p, i as int);
                assert(p(k) <==> k.service_id == Some(service_id) && k.value@ == value@ && k.type_
                    == type_);
            }
            let k = &self.keys[i];
            if opt_eq(k.service_id, service_id) && k.value == *value && k.type_ == type_ {
                found = Some(i);
            }
            i = i + 1;
        }
        proof {
            assert(self@.keys.subrange(0, n as int) =~= self@.keys);
            lemma_last_index(self@.keys, p);
        }
        match found {
            Some(j) => Some(self.keys[j].copy()),
            None => None,
        }
    }

    fn key_index_by_value(&self, value: &String) -> (r: Option<usize>)
        ensures
            index_of(r) == last_index(self@.keys, key_has_value(value@)),
    {
        let ghost p = key_has_value(value@);
        let n = self.keys.len();
        let mut found: Option<usize> = None;
        let mut i: usize = 0;
        while i < n
            invariant
                i <= n,
                n == self@.keys.len(),
                p == key_has_value(value@),
                index_of(found) == last_index(self@.keys.subrange(0, i as int), p),
            decreases n - i,
        {
            proof {
                lemma_last_index_step(self@.keys, p, i as int);
                assert(p(self@.keys[i as int]) <==> self@.keys[i as int].value@ == value@);
            }
            if self.keys[i].value == *value {
                found = Some(i);
            }
            i = i + 1;
        }
        assert(self@.keys.subrange(0, n as int) =~= self@.keys);
        found
    }

    fn key_index(&self, id: u128) -> (r: Option<usize>)
        ensures
            index_of(r) == last_index(self@.keys, key_has_id(id)),
    {
        let ghost p = key_has_id(id);
        let n = self.keys.len();
        let mut found: Option<usize> = None;
        let mut i: usize = 0;
        while i < n
            invariant
                i <= n,
                n == self@.keys.len(),
                p == key_has_id(id),
                index_of(found) == last_index(self@.keys.subrange(0, i as int), p),
            decreases n - i,
        {
            proof {
                lemma_last_index_step(self@.keys, p, i as int);
                assert(p(self@.keys[i as int]) <==> self@.keys[i as int].id == id);
            }
            if self.keys[i].id == id {
                found = Some(i);
            }
            i = i + 1;
        }
        assert(self@.keys.subrange(0, n as int) =~= self@.keys);
        found
    }

    /// Whether an active key shares a slot with `k`.
    fn active_slot_taken(&self, k: &Key) -> (r: bool)
        ensures
            r == exists|j: int|
                0 <= j < self@.keys.len() && (#[trigger] self@.keys[j]).is_active() && same_slot(
                    *k,
                    self@.keys[j],
                ),
    {
        let n = self.keys.len();
        let mut i: usize = 0;
        while i < n
            invariant
                i <= n,
                n == self@.keys.len(),
                forall|j: int|
                    0 <= j < i ==> !((#[trigger] self@.keys[j]).is_active() && same_slot(
                        *k,
                        self@.keys[j],
                    )),
            decreases n - i,
        {
            let o = &self.keys[i];
            let same_service = match (k.service_id, o.service_id) {
                (Some(a), Some(b)) => a == b,
                (None, None) => true,
                _ => false,
            };
            let same_user = match (k.user_id, o.user_id) {
                (Some(a), Some(b)) => a == b,
                _ => false,
            };
            if o.is_enabled && !o.is_revoked && same_service && same_user && k.type_ == o.type_ {
                return true;
            }
            i = i + 1;
        }
        false
    }

    /// Adds a service; its id must be new.
    pub fn service_insert(&mut self, service: Service) -> (r: Result<(), DriverError>)
        requires
            old(self).wf(),
        ensures
            final(self).wf(),
            old(self)@.service(service.id) is Some ==> r == Err::<(), DriverError>(
                DriverError::Conflict,
            ) && final(self)@ == old(self)@,
            old(self)@.service(service.id) is None ==> r is Ok && final(self)@ == old(self)@.with_services(old(self)@.services.push(service)),
    {
        proof {
            lemma_last_index(self@.services, service_has_id(service.id));
        }
        if self.service_index(service.id).is_some() {
            return Err(DriverError::Conflict);
        }
        proof {
            assert forall|j: int| 0 <= j < self@.services.len() implies self@.services[j].id
                != service.id by {
                assert(!service_has_id(service.id)(self@.services[j]));
            }
        }
        self.services.push(service);
        proof {
            assert(self@.services =~= old(self)@.services.push(service));
            assert(self@.users == old(self)@.users);
            assert(self@.keys == old(self)@.keys);
            assert(self@.csrfs == old(self)@.csrfs);
            assert(self@.audits == old(self)@.audits);
        }
        Ok(())
    }

    /// Adds a user; its id and email must be new.
    pub fn user_insert(&mut self, user: User) -> (r: Result<(), DriverError>)
        requires
            old(self).wf(),
        ensures
            final(self).wf(),
            old(self)@.user(user.id) is Some || old(self)@.user_by_email(user.email@) is Some
                ==> r == Err::<(), DriverError>(DriverError::Conflict) && final(self)@ == old(self)@,
            old(self)@.user(user.id) is None && old(self)@.user_by_email(user.email@) is None
                ==> r is Ok && final(self)@ == old(self)@.with_users(old(self)@.users.push(user)),
    {
        proof {
            lemma_last_index(self@.users, user_has_id(user.id));
            lemma_last_index(self@.users, user_has_email(user.email@));
        }
        if self.user_index(user.id).is_some() || self.user_index_by_email(&user.email).is_some() {
            return Err(DriverError::Conflict);
        }
        proof {
            assert forall|j: int| 0 <= j < self@.users.len() implies self@.users[j].id != user.id
                && self@.users[j].email@ != user.email@ by {
                assert(!user_has_id(user.id)(self@.users[j]));
                assert(!user_has_email(user.email@)(self@.users[j]));
            }
        }
        self.users.push(user);
        proof {
            assert(self@.users =~= old(self)@.users.push(user));
            assert(self@.services == old(self)@.services);
            assert(self@.keys == old(self)@.keys);
            assert(self@.csrfs == old(self)@.csrfs);
            assert(self@.audits == old(self)@.audits);
        }
        Ok(())
    }

    /// Adds a key; its id and value must be new, and an active user key
    /// must not share its slot with another active key.
    pub fn key_insert(&mut self, key: Key) -> (r: Result<(), DriverError>)
        requires
            old(self).wf(),
        ensures
            final(self).wf(),
            ({
                let taken = last_index(old(self)@.keys, key_has_id(key.id)) is Some || last_index(
                    old(self)@.keys,
                    key_has_value(key.value@),
                ) is Some || (key.is_active() && exists|j: int|
                    0 <= j < old(self)@.keys.len() && (#[trigger] old(self)@.keys[j]).is_active()
                        && same_slot(key, old(self)@.keys[j]));
                &&& taken ==> r == Err::<(), DriverError>(DriverError::Conflict) && final(self)@
                    == old(self)@
                &&& !taken ==> r is Ok && final(self)@ == old(self)@.with_keys(old(self)@.keys.push(key))
            }),
    {
        proof {
            lemma_last_index(self@.keys, key_has_id(key.id));
            lemma_last_index(self@.keys, key_has_value(key.value@));
        }
        if self.key_index(key.id).is_some() || self.key_index_by_value(&key.value).is_some() {
            return Err(DriverError::Conflict);
        }
        if key.is_enabled && !key.is_revoked && self.active_slot_taken(&key) {
            return Err(DriverError::Conflict);
        }
        proof {
            assert forall|j: int| 0 <= j < self@.keys.len() implies self@.keys[j].id != key.id
                && self@.keys[j].value@ != key.value@ by {
                assert(!key_has_id(key.id)(self@.keys[j]));
                assert(!key_has_value(key.value@)(self@.keys[j]));
            }
        }
        let ghost k = key;
        self.keys.push(key);
        proof {
            assert(self@.keys =~= old(self)@.keys.push(k));
            assert(self@.services == old(self)@.services);
            assert(self@.users == old(self)@.users);
            assert(self@.csrfs == old(self)@.csrfs);
            assert(self@.audits == old(self)@.audits);
            let ks = self@.keys;
            let n = old(self)@.keys.len() as int;
            assert forall|i: int, j: int|
                0 <= i < j < ks.len() && #[trigger] ks[i].is_active()
                    && #[trigger] ks[j].is_active() implies !same_slot(ks[i], ks[j]) by {
                if j == n {
                    assert(ks[i] == old(self)@.keys[i]);
                    assert(!same_slot(k, ks[i]));
                }
            }
        }
        Ok(())
    }

    /// Adds a CSRF nonce; its key must be new.
    pub fn csrf_insert(&mut self, csrf: Csrf) -> (r: Result<(), DriverError>)
        requires
            old(self).wf(),
        ensures
            final(self).wf(),
            old(self)@.csrf(csrf.key) is Some ==> r == Err::<(), DriverError>(
                DriverError::Conflict,
            ) && final(self)@ == old(self)@,
            old(self)@.csrf(csrf.key) is None ==> r is Ok && final(self)@ == old(self)@.with_csrfs(old(self)@.csrfs.push(csrf)),
    {
        proof {
            lemma_last_index(self@.csrfs, csrf_has_key(csrf.key));
        }
        if self.csrf_index(csrf.key).is_some() {
            return Err(DriverError::Conflict);
        }
        proof {
            assert forall|j: int| 0 <= j < self@.csrfs.len() implies self@.csrfs[j].key
                != csrf.key by {
                assert(!csrf_has_key(csrf.key)(self@.csrfs[j]));
            }
        }
        self.csrfs.push(csrf);
        proof {
            assert(self@.csrfs =~= old(self)@.csrfs.push(csrf));
            assert(self@.services == old(self)@.services);
            assert(self@.users == old(self)@.users);
            assert(self@.keys == old(self)@.keys);
            assert(self@.audits == old(self)@.audits);
        }
        Ok(())
    }

    /// Whether some audit has this id.
    fn audit_id_used(&self, id: u128) -> (r: bool)
        ensures
            r == audit_id_taken(self@.audits, id),
    {
        let mut i: usize = 0;
        while i < self.audits.len()
            invariant
                i <= self@.audits.len(),
                forall|j: int| 0 <= j < i ==> (#[trigger] self@.audits[j]).id != id,
            decreases self@.audits.len() - i,
        {
            if self.audits[i].id == id {
                assert(self@.audits[i as int].id == id);
                return true;
            }
            i = i + 1;
        }
        false
    }

    /// An id no audit has: `drawn` if it is free, else the smallest free id
    /// from `0` up to the number of audits.
    pub fn fresh_audit_id(&self, drawn: u128) -> (r: u128)
        ensures
            !audit_id_taken(self@.audits, r),
            !audit_id_taken(self@.audits, drawn) ==> r == drawn,
    {
        if !self.audit_id_used(drawn) {
            return drawn;
        }
        let n = self.audits.len() as u128;
        let mut k: u128 = 0;
        while k <= n
            invariant
                n == self@.audits.len(),
                n <= usize::MAX as u128,
                k <= n + 1,
                audit_id_taken(self@.audits, drawn),
                forall|j: int| 0 <= j < k ==> #[trigger] audit_id_taken(self@.audits, j as u128),
            decreases n + 1 - k,
        {
            if !self.audit_id_used(k) {
                return k;
            }
            k = k + 1;
        }
        proof {
            lemma_small_id_free(self@.audits);
            let f = choose|f: int| 0 <= f <= n && !#[trigger] audit_id_taken(self@.audits, f as u128);
            assert(audit_id_taken(self@.audits, f as u128));
        }
        drawn
    }

    /// Appends an audit record under an id no audit has.
    pub fn audit_insert(&mut self, audit: Audit)
        requires
            old(self).wf(),
            !audit_id_taken(old(self)@.audits, audit.id),
        ensures
            final(self).wf(),
            final(self)@ == old(self)@.with_audits(old(self)@.audits.push(audit)),
    {
        let ghost a = audit;
        self.audits.push(audit);
        proof {
            assert(self@.audits =~= old(self)@.audits.push(a));
            assert(self@.services == old(self)@.services);
            assert(self@.users == old(self)@.users);
            assert(self@.keys == old(self)@.keys);
            assert(self@.csrfs == old(self)@.csrfs);
            let au = self@.audits;
            assert forall|i: int, j: int| 0 <= i < j < au.len() implies #[trigger] au[i].id
                != #[trigger] au[j].id by {
                if j == au.len() - 1 {
                    assert(au[i] == old(self)@.audits[i]);
                    if au[i].id == a.id {
                        assert(audit_id_taken(old(self)@.audits, a.id));
                    }
                }
            }
        }
    }

    /// Whether an active key other than the one at `i` shares a slot with `k`.
    fn other_active_in_slot(&self, i: usize, k: &Key) -> (r: bool)
        ensures
            r == slot_taken_by_other(self@.keys, i as int, *k),
    {
        let n = self.keys.len();
        let mut j: usize = 0;
        while j < n
            invariant
                j <= n,
                n == self@.keys.len(),
                forall|m: int|
                    0 <= m < j && m != i ==> !((#[trigger] self@.keys[m]).is_active() && same_slot(
                        *k,
                        self@.keys[m],
                    )),
            decreases n - j,
        {
            if j != i {
                let o = &self.keys[j];
                let same_service = match (k.service_id, o.service_id) {
                    (Some(a), Some(b)) => a == b,
                    (None, None) => true,
                    _ => false,
                };
                let same_user = match (k.user_id, o.user_id) {
                    (Some(a), Some(b)) => a == b,
                    _ => false,
                };
                if o.is_enabled && !o.is_revoked && same_service && same_user && k.type_ == o.type_ {
                    return true;
                }
            }
            j = j + 1;
        }
        false
    }

    /// Updates a key's state and name. Enabling a user key is refused while
    /// another active key holds its service, user and type.
    pub fn key_update(
        &mut self,
        id: u128,
        is_enabled: Option<bool>,
        is_revoked: Option<bool>,
        name: Option<String>,
        now: i64,
    ) -> (r: Result<Key, DriverError>)
        requires
            old(self).wf(),
        ensures
            final(self).wf(),
            match last_index(old(self)@.keys, key_has_id(id)) {
                Some(i) => {
                    let k = updated_key(old(self)@.keys[i], is_enabled, is_revoked, name, now);
                    if k.is_active() && slot_taken_by_other(old(self)@.keys, i, k) {
                        r == Err::<Key, DriverError>(DriverError::Conflict) && final(self)@ == old(self)@
                    } else {
                        r == Ok::<Key, DriverError>(k) && final(self)@ == old(self)@.with_keys(
                            old(self)@.keys.update(i, k),
                        )
                    }
                },
                None => r == Err::<Key, DriverError>(DriverError::NotFound) && final(self)@ == old(self)@,
            },
    {
        proof {
            lemma_last_index(self@.keys, key_has_id(id));
        }
        let i = match self.key_index(id) {
            Some(i) => i,
            None => return Err(DriverError::NotFound),
        };
        let mut k = self.keys[i].copy();
        let revoked = k.is_revoked || is_revoked == Some(true);
        let enabled = match is_enabled {
            Some(e) => e,
            None => k.is_enabled,
        };
        k.is_revoked = revoked;
        k.is_enabled = !revoked && enabled;
        match name {
            Some(n) => k.name = n,
            None => {},
        }
        k.updated_at = now;
        if k.is_enabled && !k.is_revoked && self.other_active_in_slot(i, &k) {
            return Err(DriverError::Conflict);
        }
        let out = k.copy();
        let ghost nk = k;
        self.keys.set(i, k);
        proof {
            let ks = self@.keys;
            let os = old(self)@.keys;
            assert(ks =~= os.update(i as int, nk));
            assert forall|a: int, b: int| 0 <= a < b < ks.len() implies #[trigger] ks[a].id
                != #[trigger] ks[b].id && ks[a].value@ != ks[b].value@ by {
                assert(os[a].id != os[b].id);
                assert(os[a].value@ != os[b].value@);
            }
            assert forall|a: int, b: int|
                0 <= a < b < ks.len() && #[trigger] ks[a].is_active()
                    && #[trigger] ks[b].is_active() implies !same_slot(ks[a], ks[b]) by {
                if a == i {
                    assert(!(ks[b].is_active() && same_slot(nk, os[b])));
                } else if b == i {
                    assert(!(ks[a].is_active() && same_slot(nk, os[a])));
                    assert(same_slot(ks[a], ks[b]) ==> same_slot(nk, os[a]));
                } else {
                    assert(os[a].is_active() && os[b].is_active());
                }
            }
            assert(self@.services == old(self)@.services);
            assert(self@.users == old(self)@.users);
            assert(self@.csrfs == old(self)@.csrfs);
            assert(self@.audits == old(self)@.audits);
        }
        Ok(out)
    }

    /// Updates a service's fields.
    pub fn service_update(&mut self, id: u128, update: ServiceUpdate, now: i64) -> (r: Result<
        Service,
        DriverError,
    >)
        requires
            old(self).wf(),
        ensures
            final(self).wf(),
            match last_index(old(self)@.services, service_has_id(id)) {
                Some(i) => r == Ok::<Service, DriverError>(
                    updated_service(old(self)@.services[i], update, now),
                ) && final(self)@ == old(self)@.with_services(
                    old(self)@.services.update(
                        i,
                        updated_service(old(self)@.services[i], update, now),
                    ),
                ),
                None => r == Err::<Service, DriverError>(DriverError::NotFound) && final(self)@
                    == old(self)@,
            },
    {
        proof {
            lemma_last_index(self@.services, service_has_id(id));
        }
        let i = match self.service_index(id) {
            Some(i) => i,
            None => return Err(DriverError::NotFound),
        };
        let mut s = self.services[i].copy();
        s.updated_at = now;
        let ghost upd = update;
        match update.is_enabled {
            Some(v) => s.is_enabled = v,
            None => {},
        }
        match update.name {
            Some(v) => s.name = v,
            None => {},
        }
        match update.url {
            Some(v) => s.url = v,
            None => {},
        }
        match update.provider_local_url {
            Some(v) => s.provider_local_url = Some(v),
            None => {},
        }
        match update.provider_github_oauth2_url {
            Some(v) => s.provider_github_oauth2_url = Some(v),
            None => {},
        }
        match update.provider_microsoft_oauth2_url {
            Some(v) => s.provider_microsoft_oauth2_url = Some(v),
            None => {},
        }
        let out = s.copy();
        let ghost ns = s;
        assert(ns == updated_service(old(self)@.services[i as int], upd, now));
        self.services.set(i, s);
        proof {
            let ss = self@.services;
            let os = old(self)@.services;
            assert(ss =~= os.update(i as int, ns));
            assert forall|a: int, b: int| 0 <= a < b < ss.len() implies #[trigger] ss[a].id
                != #[trigger] ss[b].id by {
                assert(os[a].id != os[b].id);
            }
            assert(self@.users == old(self)@.users);
            assert(self@.keys == old(self)@.keys);
            assert(self@.csrfs == old(self)@.csrfs);
            assert(self@.audits == old(self)@.audits);
        }
        Ok(out)
    }

    /// Disables and revokes a key.
    pub fn key_revoke(&mut self, id: u128, now: i64) -> (r: Result<Key, DriverError>)
        requires
            old(self).wf(),
        ensures
            final(self).wf(),
            match last_index(old(self)@.keys, key_has_id(id)) {
                Some(i) => r == Ok::<Key, DriverError>(revoked(old(self)@.keys[i], now)) && final(self)@ == old(self)@.with_keys(
                    old(self)@.keys.update(i, revoked(old(self)@.keys[i], now)),
                ),
                None => r == Err::<Key, DriverError>(DriverError::NotFound) && final(self)@ == old(self)@,
            },
    {
        proof {
            lemma_last_index(self@.keys, key_has_id(id));
        }
        let i = match self.key_index(id) {
            Some(i) => i,
            None => return Err(DriverError::NotFound),
        };
        let mut k = self.keys[i].copy();
        k.is_enabled = false;
        k.is_revoked = true;
        k.updated_at = now;
        let out = k.copy();
        self.keys.set(i, k);
        proof {
            let ks = self@.keys;
            assert(ks =~= old(self)@.keys.update(i as int, revoked(old(self)@.keys[i as int], now)));
            assert forall|a: int, b: int| 0 <= a < b < ks.len() implies #[trigger] ks[a].id
                != #[trigger] ks[b].id && ks[a].value@ != ks[b].value@ by {
                assert(old(self)@.keys[a].id != old(self)@.keys[b].id);
                assert(old(self)@.keys[a].value@ != old(self)@.keys[b].value@);
            }
            assert forall|a: int, b: int|
                0 <= a < b < ks.len() && #[trigger] ks[a].is_active()
                    && #[trigger] ks[b].is_active() implies !same_slot(ks[a], ks[b]) by {
                assert(old(self)@.keys[a].is_active() && old(self)@.keys[b].is_active());
            }
            assert(self@.services == old(self)@.services);
            assert(self@.users == old(self)@.users);
            assert(self@.csrfs == old(self)@.csrfs);
            assert(self@.audits == old(self)@.audits);
        }
        Ok(out)
    }

    /// Disables and revokes every key of a user; returns how many there were.
    pub fn key_revoke_many_by_user(&mut self, user_id: u128, now: i64) -> (r: usize)
        requires
            old(self).wf(),
        ensures
            final(self).wf(),
            r == user_key_count(old(self)@.keys, user_id),
            final(self)@.keys.len() == old(self)@.keys.len(),
            forall|i: int|
                0 <= i < old(self)@.keys.len() ==> #[trigger] final(self)@.keys[i]
                    == revoked_if_owned(old(self)@.keys[i], user_id, now),
            final(self)@ == old(self)@.with_keys(final(self)@.keys),
    {
        let n = self.keys.len();
        let mut count: usize = 0;
        let mut i: usize = 0;
        while i < n
            invariant
                i <= n,
                n == self@.keys.len(),
                n == old(self)@.keys.len(),
                count <= i,
                count == user_key_count(old(self)@.keys.subrange(0, i as int), user_id),
                forall|j: int|
                    0 <= j < n ==> #[trigger] self@.keys[j] == if j < i {
                        revoked_if_owned(old(self)@.keys[j], user_id, now)
                    } else {
                        old(self)@.keys[j]
                    },
                self@ == old(self)@.with_keys(self@.keys),
            decreases n - i,
        {
            proof {
                let sub = old(self)@.keys.subrange(0, i + 1);
                assert(sub.drop_last() =~= old(self)@.keys.subrange(0, i as int));
            }
            if opt_eq(self.keys[i].user_id, user_id) {
                let mut k = self.keys[i].copy();
                k.is_enabled = false;
                k.is_revoked = true;
                k.updated_at = now;
                self.keys.set(i, k);
                count = count + 1;
            }
            i = i + 1;
        }
        proof {
            assert(old(self)@.keys.subrange(0, n as int) =~= old(self)@.keys);
            let ks = self@.keys;
            let os = old(self)@.keys;
            assert forall|a: int, b: int| 0 <= a < b < ks.len() implies #[trigger] ks[a].id
                != #[trigger] ks[b].id && ks[a].value@ != ks[b].value@ by {
                assert(os[a].id != os[b].id);
                assert(os[a].value@ != os[b].value@);
                assert(ks[a] == revoked_if_owned(os[a], user_id, now));
                assert(ks[b] == revoked_if_owned(os[b], user_id, now));
            }
            assert forall|a: int, b: int|
                0 <= a < b < ks.len() && #[trigger] ks[a].is_active()
                    && #[trigger] ks[b].is_active() implies !same_slot(ks[a], ks[b]) by {
                assert(ks[a] == revoked_if_owned(os[a], user_id, now));
                assert(ks[b] == revoked_if_owned(os[b], user_id, now));
                assert(os[a].is_active() && os[b].is_active());
            }
        }
        count
    }

    fn set_user(&mut self, i: usize, user: User)
        requires
            old(self).wf(),
            i < old(self)@.users.len(),
            user.id == old(self)@.users[i as int].id,
            forall|j: int|
                0 <= j < old(self)@.users.len() && j != i ==> old(self)@.users[j].email@
                    != user.email@,
        ensures
            final(self).wf(),
            final(self)@ == old(self)@.with_users(old(self)@.users.update(i as int, user)),
    {
        self.users.set(i, user);
        proof {
            let us = self@.users;
            let os = old(self)@.users;
            assert(us =~= os.update(i as int, user));
            assert forall|a: int, b: int| 0 <= a < b < us.len() implies #[trigger] us[a].id
                != #[trigger] us[b].id && us[a].email@ != us[b].email@ by {
                assert(os[a].id != os[b].id);
                assert(os[a].email@ != os[b].email@);
            }
            assert(self@.services == old(self)@.services);
            assert(self@.keys == old(self)@.keys);
            assert(self@.csrfs == old(self)@.csrfs);
            assert(self@.audits == old(self)@.audits);
        }
    }

    /// Updates a user's fields.
    pub fn user_update(&mut self, id: u128, update: &UserUpdate, now: i64) -> (r: Result<
        User,
        DriverError,
    >)
        requires
            old(self).wf(),
        ensures
            final(self).wf(),
            match last_index(old(self)@.users, user_has_id(id)) {
                Some(i) => r == Ok::<User, DriverError>(
                    updated_user(old(self)@.users[i], *update, now),
                ) && final(self)@ == old(self)@.with_users(
                    old(self)@.users.update(i, updated_user(old(self)@.users[i], *update, now)),
                ),
                None => r == Err::<User, DriverError>(DriverError::NotFound) && final(self)@ == old(self)@,
            },
    {
        proof {
            lemma_last_index(self@.users, user_has_id(id));
        }
        let i = match self.user_index(id) {
            Some(i) => i,
            None => return Err(DriverError::NotFound),
        };
        let mut u = self.users[i].copy();
        u.updated_at = now;
        match update.is_enabled {
            Some(v) => u.is_enabled = v,
            None => {},
        }
        match &update.name {
            Some(v) => u.name = v.clone(),
            None => {},
        }
        match &update.locale {
            Some(v) => u.locale = v.clone(),
            None => {},
        }
        match &update.timezone {
            Some(v) => u.timezone = v.clone(),
            None => {},
        }
        match update.password_allow_reset {
            Some(v) => u.password_allow_reset = v,
            None => {},
        }
        match update.password_require_update {
            Some(v) => u.password_require_update = v,
            None => {},
        }
        let out = u.copy();
        proof {
            assert(u == updated_user(old(self)@.users[i as int], *update, now));
            assert forall|j: int| 0 <= j < self@.users.len() && j != i implies self@.users[j].email@
                != u.email@ by {
                if j < i {
                    assert(self@.users[j].email@ != self@.users[i as int].email@);
                } else {
                    assert(self@.users[i as int].email@ != self@.users[j].email@);
                }
            }
        }
        self.set_user(i, u);
        Ok(out)
    }

    /// Changes a user's email; the new email must not belong to another user.
    pub fn user_update_email(&mut self, id: u128, email: String, now: i64) -> (r: Result<
        User,
        DriverError,
    >)
        requires
            old(self).wf(),
        ensures
            final(self).wf(),
            match last_index(old(self)@.users, user_has_id(id)) {
                Some(i) => match old(self)@.user_by_email(email@) {
                    Some(other) if other.id != id => r == Err::<User, DriverError>(
                        DriverError::Conflict,
                    ) && final(self)@ == old(self)@,
                    _ => r == Ok::<User, DriverError>(
                        User { email, updated_at: now, ..old(self)@.users[i] },
                    ) && final(self)@ == old(self)@.with_users(
                        old(self)@.users.update(i, User { email, updated_at: now, ..old(self)@.users[i] }),
                    ),
                },
                None => r == Err::<User, DriverError>(DriverError::NotFound) && final(self)@ == old(self)@,
            },
    {
        proof {
            lemma_last_index(self@.users, user_has_id(id));
            lemma_last_index(self@.users, user_has_email(email@));
        }
        let i = match self.user_index(id) {
            Some(i) => i,
            None => return Err(DriverError::NotFound),
        };
        match self.user_index_by_email(&email) {
            Some(j) => {
                if self.users[j].id != id {
                    return Err(DriverError::Conflict);
                }
            },
            None => {},
        }
        let mut u = self.users[i].copy();
        u.email = email;
        u.updated_at = now;
        let out = u.copy();
        proof {
            assert forall|j: int| 0 <= j < self@.users.len() && j != i implies self@.users[j].email@
                != u.email@ by {
                if self@.users[j].email@ == u.email@ {
                    assert(user_has_email(email@)(self@.users[j]));
                    let k = last_index(self@.users, user_has_email(email@))->0;
                    assert(self@.users[k].id == id);
                    if k != j {
                        if k < j {
                            assert(self@.users[k].email@ != self@.users[j].email@);
                        } else {
                            assert(self@.users[j].email@ != self@.users[k].email@);
                        }
                    }
                    assert(self@.users[j].id == id);
                    if j < i {
                        assert(self@.users[j].id != self@.users[i as int].id);
                    } else {
                        assert(self@.users[i as int].id != self@.users[j].id);
                    }
                }
            }
        }
        self.set_user(i, u);
        Ok(out)
    }

    /// Sets a user's password hash.
    pub fn user_update_password(&mut self, id: u128, password_hash: String, now: i64) -> (r: Result<
        User,
        DriverError,
    >)
        requires
            old(self).wf(),
        ensures
            final(self).wf(),
            match last_index(old(self)@.users, user_has_id(id)) {
                Some(i) => r == Ok::<User, DriverError>(
                    User { password_hash: Some(password_hash), updated_at: now, ..old(self)@.users[i] },
                ) && final(self)@ == old(self)@.with_users(
                    old(self)@.users.update(
                        i,
                        User { password_hash: Some(password_hash), updated_at: now, ..old(self)@.users[i] },
                    ),
                ),
                None => r == Err::<User, DriverError>(DriverError::NotFound) && final(self)@ == old(self)@,
            },
    {
        proof {
            lemma_last_index(self@.users, user_has_id(id));
        }
        let i = match self.user_index(id) {
            Some(i) => i,
            None => return Err(DriverError::NotFound),
        };
        let mut u = self.users[i].copy();
        u.password_hash = Some(password_hash);
        u.updated_at = now;
        let out = u.copy();
        proof {
            assert forall|j: int| 0 <= j < self@.users.len() && j != i implies self@.users[j].email@
                != u.email@ by {
                if j < i {
                    assert(self@.users[j].email@ != self@.users[i as int].email@);
                } else {
                    assert(self@.users[i as int].email@ != self@.users[j].email@);
                }
            }
        }
        self.set_user(i, u);
        Ok(out)
    }

    /// Consumes a CSRF nonce: sweeps the expired ones, then removes the one
    /// with this key and returns it if it was still live.
    pub fn csrf_read_opt(&mut self, key: u128, now: i64) -> (r: Option<Csrf>)
        requires
            old(self).wf(),
        ensures
            final(self).wf(),
            r == csrf_live(old(self)@, key, now),
            final(self)@ == old(self)@.with_csrfs(csrfs_after_read(old(self)@.csrfs, key, now)),
    {
        proof {
            lemma_last_index(self@.csrfs, csrf_has_key(key));
        }
        let found = match self.csrf_index(key) {
            Some(i) => {
                let c = self.csrfs[i];
                if now < c.ttl {
                    Some(c)
                } else {
                    None
                }
            },
            None => None,
        };
        let ghost p = csrf_kept(key, now);
        let ghost os = self@.csrfs;
        let n = self.csrfs.len();
        let mut kept: Vec<Csrf> = Vec::new();
        let mut i: usize = 0;
        proof {
            reveal(Seq::filter);
            assert(os.subrange(0, 0) =~= Seq::<Csrf>::empty());
        }
        while i < n
            invariant
                i <= n,
                n == os.len(),
                os == self@.csrfs,
                self@ == old(self)@,
                old(self)@.wf(),
                p == csrf_kept(key, now),
                kept@ == os.subrange(0, i as int).filter(p),
                forall|m: int|
                    0 <= m < kept@.len() ==> exists|j: int|
                        0 <= j < i && #[trigger] kept@[m] == os[j],
                forall|a: int, b: int|
                    0 <= a < b < kept@.len() ==> #[trigger] kept@[a].key != #[trigger] kept@[b].key,
            decreases n - i,
        {
            let c = self.csrfs[i];
            proof {
                reveal(Seq::filter);
                let sub = os.subrange(0, i + 1);
                assert(sub.drop_last() =~= os.subrange(0, i as int));
                assert(sub.last() == c);
                assert(p(c) <==> now < c.ttl && c.key != key);
            }
            if now < c.ttl && c.key != key {
                proof {
                    assert forall|m: int| 0 <= m < kept@.len() implies kept@[m].key != c.key by {
                        let j = choose|j: int| 0 <= j < i && #[trigger] kept@[m] == os[j];
                        assert(os[j].key != os[i as int].key);
                    }
                }
                kept.push(c);
            }
            i = i + 1;
        }
        proof {
            assert(os.subrange(0, n as int) =~= os);
        }
        self.csrfs = kept;
        proof {
            assert(self@.csrfs == csrfs_after_read(old(self)@.csrfs, key, now));
            assert(self@.services == old(self)@.services);
            assert(self@.users == old(self)@.users);
            assert(self@.keys == old(self)@.keys);
            assert(self@.audits == old(self)@.audits);
        }
        found
    }

    /// Reads the key with this value, whatever its owner.
    pub fn key_read_by_value_any(&self, value: &String) -> (r: Option<Key>)
        ensures
            r == self@.key_with_value(value@),
    {
        proof {
            lemma_last_index(self@.keys, key_has_value(value@));
        }
        match self.key_index_by_value(value) {
            Some(i) => Some(self.keys[i].copy()),
            None => None,
        }
    }

    /// Ids of the services, in store order.
    fn service_id_vec(&self) -> (r: Vec<u128>)
        ensures
            r@ == self@.service_ids(),
    {
        let mut out: Vec<u128> = Vec::new();
        let mut i: usize = 0;
        while i < self.services.len()
            invariant
                i <= self@.services.len(),
                out@ == self@.services.subrange(0, i as int).map_values(|s: Service| s.id),
            decreases self@.services.len() - i,
        {
            out.push(self.services[i].id);
            proof {
                assert(self@.services.subrange(0, i + 1).map_values(|s: Service| s.id)
                    =~= self@.services.subrange(0, i as int).map_values(|s: Service| s.id).push(
                    self@.services[i as int].id,
                ));
            }
            i = i + 1;
        }
        assert(self@.services.subrange(0, i as int) =~= self@.services);
        out
    }

    /// Ids of the users, in store order.
    fn user_id_vec(&self) -> (r: Vec<u128>)
        ensures
            r@ == self@.user_ids(),
    {
        let mut out: Vec<u128> = Vec::new();
        let mut i: usize = 0;
        while i < self.users.len()
            invariant
                i <= self@.users.len(),
                out@ == self@.users.subrange(0, i as int).map_values(|u: User| u.id),
            decreases self@.users.len() - i,
        {
            out.push(self.users[i].id);
            proof {
                assert(self@.users.subrange(0, i + 1).map_values(|u: User| u.id)
                    =~= self@.users.subrange(0, i as int).map_values(|u: User| u.id).push(
                    self@.users[i as int].id,
                ));
            }
            i = i + 1;
        }
        assert(self@.users.subrange(0, i as int) =~= self@.users);
        out
    }

    /// Ids of the keys, in store order.
    fn key_id_vec(&self) -> (r: Vec<u128>)
        ensures
            r@ == self@.key_ids(),
    {
        let mut out: Vec<u128> = Vec::new();
        let mut i: usize = 0;
        while i < self.keys.len()
            invariant
                i <= self@.keys.len(),
                out@ == self@.keys.subrange(0, i as int).map_values(|k: Key| k.id),
            decreases self@.keys.len() - i,
        {
            out.push(self.keys[i].id);
            proof {
                assert(self@.keys.subrange(0, i + 1).map_values(|k: Key| k.id)
                    =~= self@.keys.subrange(0, i as int).map_values(|k: Key| k.id).push(
                    self@.keys[i as int].id,
                ));
            }
            i = i + 1;
        }
        assert(self@.keys.subrange(0, i as int) =~= self@.keys);
        out
    }

    /// Ids of the services that pass a filter, in store order.
    fn service_id_vec_where(&self, filter: &ServiceListFilter) -> (r: Vec<u128>)
        ensures
            r@ == self@.services.filter(service_passes(*filter)).map_values(|s: Service| s.id),
    {
        let ghost p = service_passes(*filter);
        let mut out: Vec<u128> = Vec::new();
        let mut i: usize = 0;
        proof {
            reveal(Seq::filter);
            assert(self@.services.subrange(0, 0) =~= Seq::<Service>::empty());
            assert(out@ =~= self@.services.subrange(0, 0).filter(p).map_values(|s: Service| s.id));
        }
        while i < self.services.len()
            invariant
                i <= self@.services.len(),
                p == service_passes(*filter),
                out@ == self@.services.subrange(0, i as int).filter(p).map_values(|s: Service| s.id),
            decreases self@.services.len() - i,
        {
            let s = &self.services[i];
            let id_ok = match &filter.id {
                Some(ids) => id_in(ids, s.id),
                None => true,
            };
            let enabled_ok = match filter.is_enabled {
                Some(e) => s.is_enabled == e,
                None => true,
            };
            proof {
                reveal(Seq::filter);
                let sub = self@.services.subrange(0, i + 1);
                assert(sub.drop_last() =~= self@.services.subrange(0, i as int));
                assert(p(self@.services[i as int]) == (id_ok && enabled_ok));
            }
            if id_ok && enabled_ok {
                out.push(s.id);
                proof {
                    let f = self@.services.subrange(0, i as int).filter(p);
                    assert(f.push(self@.services[i as int]).map_values(|s: Service| s.id) =~= f.map_values(
                        |s: Service| s.id,
                    ).push(self@.services[i as int].id));
                }
            }
            i = i + 1;
        }
        assert(self@.services.subrange(0, i as int) =~= self@.services);
        out
    }

    /// Ids of the users that pass a filter, in store order.
    fn user_id_vec_where(&self, filter: &UserListFilter) -> (r: Vec<u128>)
        ensures
            r@ == self@.users.filter(user_passes(*filter)).map_values(|u: User| u.id),
    {
        let ghost p = user_passes(*filter);
        let mut out: Vec<u128> = Vec::new();
        let mut i: usize = 0;
        proof {
            reveal(Seq::filter);
            assert(self@.users.subrange(0, 0) =~= Seq::<User>::empty());
            assert(out@ =~= self@.users.subrange(0, 0).filter(p).map_values(|u: User| u.id));
        }
        while i < self.users.len()
            invariant
                i <= self@.users.len(),
                p == user_passes(*filter),
                out@ == self@.users.subrange(0, i as int).filter(p).map_values(|u: User| u.id),
            decreases self@.users.len() - i,
        {
            let u = &self.users[i];
            let id_ok = match &filter.id {
                Some(ids) => id_in(ids, u.id),
                None => true,
            };
            let email_ok = match &filter.email_eq {
                Some(e) => u.email == *e,
                None => true,
            };
            proof {
                reveal(Seq::filter);
                let sub = self@.users.subrange(0, i + 1);
                assert(sub.drop_last() =~= self@.users.subrange(0, i as int));
                assert(p(self@.users[i as int]) == (id_ok && email_ok));
            }
            if id_ok && email_ok {
                out.push(u.id);
                proof {
                    let f = self@.users.subrange(0, i as int).filter(p);
                    assert(f.push(self@.users[i as int]).map_values(|u: User| u.id) =~= f.map_values(
                        |u: User| u.id,
                    ).push(self@.users[i as int].id));
                }
            }
            i = i + 1;
        }
        assert(self@.users.subrange(0, i as int) =~= self@.users);
        out
    }

    /// A page of the ids of services that pass a filter, ascending.
    pub fn service_list_where(&self, query: ListQuery, filter: &ServiceListFilter) -> (r: Vec<u128>)
        ensures
            page_of(
                self@.services.filter(service_passes(*filter)).map_values(|s: Service| s.id),
                query,
                r@,
            ),
    {
        let ids = self.service_id_vec_where(filter);
        list_ids(&ids, query)
    }

    /// A page of the ids of users that pass a filter, ascending.
    pub fn user_list_where(&self, query: ListQuery, filter: &UserListFilter) -> (r: Vec<u128>)
        ensures
            page_of(self@.users.filter(user_passes(*filter)).map_values(|u: User| u.id), query, r@),
    {
        let ids = self.user_id_vec_where(filter);
        list_ids(&ids, query)
    }

    /// Lists audits by creation time, optionally only those of one service;
    /// the page is in the order the audits were written.
    pub fn audit_list(&self, query: AuditListQuery, service_id_mask: Option<u128>) -> (r: Vec<Audit>)
        ensures
            r@ == audit_page(self@.audits.filter(audit_in_window(query, service_id_mask)), query),
    {
        let ghost p = audit_in_window(query, service_id_mask);
        let mut matches: Vec<Audit> = Vec::new();
        let mut i: usize = 0;
        proof {
            reveal(Seq::filter);
            assert(self@.audits.subrange(0, 0) =~= Seq::<Audit>::empty());
        }
        while i < self.audits.len()
            invariant
                i <= self@.audits.len(),
                p == audit_in_window(query, service_id_mask),
                matches@ == self@.audits.subrange(0, i as int).filter(p),
            decreases self@.audits.len() - i,
        {
            let a = &self.audits[i];
            let in_window = match query {
                AuditListQuery::CreatedLe(le, _, _) => a.created_at <= le,
                AuditListQuery::CreatedGe(ge, _, _) => ge <= a.created_at,
                AuditListQuery::CreatedLeAndGe(le, ge, _, _) => ge <= a.created_at && a.created_at
                    <= le,
            };
            let in_mask = match service_id_mask {
                Some(m) => opt_eq(a.service_id, m),
                None => true,
            };
            proof {
                reveal(Seq::filter);
                let sub = self@.audits.subrange(0, i + 1);
                assert(sub.drop_last() =~= self@.audits.subrange(0, i as int));
                assert(p(self@.audits[i as int]) == (in_window && in_mask));
            }
            if in_window && in_mask {
                matches.push(a.copy());
            }
            i = i + 1;
        }
        proof {
            assert(self@.audits.subrange(0, i as int) =~= self@.audits);
        }
        let (limit, offset) = match query {
            AuditListQuery::CreatedLe(_, n, o) => (n, o),
            AuditListQuery::CreatedGe(_, n, o) => (n, o),
            AuditListQuery::CreatedLeAndGe(_, _, n, o) => (n, o),
        };
        let at: Option<usize> = match offset {
            Some(id) => {
                let ghost q = audit_has_id(id);
                let mut found: Option<usize> = None;
                let mut j: usize = 0;
                while j < matches.len()
                    invariant
                        j <= matches@.len(),
                        q == audit_has_id(id),
                        index_of(found) == last_index(matches@.subrange(0, j as int), q),
                    decreases matches@.len() - j,
                {
                    proof {
                        lemma_last_index_step(matches@, q, j as int);
                        assert(q(matches@[j as int]) <==> matches@[j as int].id == id);
                    }
                    if matches[j].id == id {
                        found = Some(j);
                    }
                    j = j + 1;
                }
                proof {
                    assert(matches@.subrange(0, j as int) =~= matches@);
                    lemma_last_index(matches@, q);
                }
                found
            },
            None => None,
        };
        let n = matches.len();
        let (start, end) = match query {
            AuditListQuery::CreatedLe(_, _, _) => {
                let end = match at {
                    Some(p) => p,
                    None => n,
                };
                let start = if end > limit {
                    end - limit
                } else {
                    0
                };
                (start, end)
            },
            _ => {
                let start = match at {
                    Some(p) => p + 1,
                    None => 0,
                };
                let end = if limit < n - start {
                    start + limit
                } else {
                    n
                };
                (start, end)
            },
        };
        let mut out: Vec<Audit> = Vec::new();
        let mut k = start;
        while k < end
            invariant
                start <= k <= end,
                end <= matches@.len(),
                out@ == matches@.subrange(start as int, k as int),
            decreases end - k,
        {
            out.push(matches[k].copy());
            proof {
                assert(matches@.subrange(start as int, k + 1) =~= matches@.subrange(
                    start as int,
                    k as int,
                ).push(matches@[k as int]));
            }
            k = k + 1;
        }
        out
    }

    /// Reads an audit by id; with a mask, only an audit of that service.
    pub fn audit_read_opt(&self, id: u128, service_id_mask: Option<u128>) -> (r: Option<Audit>)
        ensures
            r == match last_index(self@.audits, audit_has_id(id)) {
                Some(i) => match service_id_mask {
                    Some(m) => if self@.audits[i].service_id == Some(m) {
                        Some(self@.audits[i])
                    } else {
                        None
                    },
                    None => Some(self@.audits[i]),
                },
                None => None,
            },
    {
        let ghost q = audit_has_id(id);
        let mut found: Option<usize> = None;
        let mut j: usize = 0;
        while j < self.audits.len()
            invariant
                j <= self@.audits.len(),
                q == audit_has_id(id),
                index_of(found) == last_index(self@.audits.subrange(0, j as int), q),
            decreases self@.audits.len() - j,
        {
            proof {
                lemma_last_index_step(self@.audits, q, j as int);
                assert(q(self@.audits[j as int]) <==> self@.audits[j as int].id == id);
            }
            if self.audits[j].id == id {
                found = Some(j);
            }
            j = j + 1;
        }
        proof {
            assert(self@.audits.subrange(0, j as int) =~= self@.audits);
            lemma_last_index(self@.audits, q);
        }
        match found {
            Some(i) => {
                let a = &self.audits[i];
                match service_id_mask {
                    Some(m) => if opt_eq(a.service_id, m) {
                        Some(a.copy())
                    } else {
                        None
                    },
                    None => Some(a.copy()),
                }
            },
            None => None,
        }
    }

    /// A page of service ids, ascending.
    pub fn service_list(&self, query: ListQuery) -> (r: Vec<u128>)
        ensures
            page_of(self@.service_ids(), query, r@),
    {
        let ids = self.service_id_vec();
        list_ids(&ids, query)
    }

    /// A page of user ids, ascending.
    pub fn user_list(&self, query: ListQuery) -> (r: Vec<u128>)
        ensures
            page_of(self@.user_ids(), query, r@),
    {
        let ids = self.user_id_vec();
        list_ids(&ids, query)
    }

    /// A page of key ids, ascending.
    pub fn key_list(&self, query: ListQuery) -> (r: Vec<u128>)
        ensures
            page_of(self@.key_ids(), query, r@),
    {
        let ids = self.key_id_vec();
        list_ids(&ids, query)
    }
}

/// At most one active key holds a service, user and key type: two active
/// user keys with the same service, user and type are the same key.
pub proof fn lemma_single_active_key(v: StoreView, i: int, j: int)
    requires
        v.wf(),
        0 <= i < v.keys.len(),
        0 <= j < v.keys.len(),
        v.keys[i].is_active(),
        v.keys[j].is_active(),
        v.keys[i].user_id is Some,
        v.keys[i].service_id == v.keys[j].service_id,
        v.keys[i].user_id == v.keys[j].user_id,
        v.keys[i].type_ == v.keys[j].type_,
    ensures
        i == j,
        v.keys[i] == v.keys[j],
{
    if i < j {
        assert(!same_slot(v.keys[i], v.keys[j]));
    } else if j < i {
        assert(!same_slot(v.keys[j], v.keys[i]));
    }
}

/// A CSRF nonce is redeemed at most once: after a read of `key`, whoever
/// asked and whatever it returned, no later read finds it.
pub proof fn lemma_csrf_single_use(v: StoreView, key: u128, now: i64, later: i64)
    ensures
        csrf_live(v.with_csrfs(csrfs_after_read(v.csrfs, key, now)), key, later) is None,
{
    let after = csrfs_after_read(v.csrfs, key, now);
    let w = v.with_csrfs(after);
    lemma_last_index(after, csrf_has_key(key));
    if let Some(i) = last_index(after, csrf_has_key(key)) {
        v.csrfs.lemma_filter_pred(csrf_kept(key, now), i);
        assert(csrf_kept(key, now)(after[i]));
        assert(csrf_has_key(key)(after[i]));
    }
}
/// Audits are never updated: an operation that only appends audits, or
/// that also changes users, keys or nonces, leaves every earlier audit as
/// it was, at its place.
pub proof fn lemma_audits_immutable(
    old: StoreView,
    new: StoreView,
    users: Seq<User>,
    keys: Seq<Key>,
    csrfs: Seq<Csrf>,
)
    requires
        audited(old, new) || evolved(old, new, users, keys, csrfs),
    ensures
        forall|i: int| 0 <= i < old.audits.len() ==> #[trigger] new.audits[i] == old.audits[i],
{
    assert forall|i: int| 0 <= i < old.audits.len() implies #[trigger] new.audits[i]
        == old.audits[i] by {
        assert(new.audits.subrange(0, old.audits.len() as int)[i] == new.audits[i]);
    }
}

} // verus!
