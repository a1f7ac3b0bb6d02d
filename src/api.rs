//! Request bodies of the management API and the creation of entities.
use crate::error::{CoreError, CoreResult, DriverError};
use crate::secret::{password_hash_phc, password_refused_of, random_id, random_key_value};
use crate::authenticate::{authenticate, authenticate_root, credential, root_auth, service_auth};
use crate::list::{page_of, ListQuery};
use crate::store::{
    last_index, lemma_last_index, service_has_id, service_passes, user_has_id, user_passes,
    ServiceListFilter, Store, StoreView, UserListFilter,
};
use crate::types::{AuditMeta, Key, KeyType, Service, ServiceUpdate, User, UserUpdate};
use vstd::prelude::*;

verus! {

/// A new service.
#[derive(Clone, Debug)]
pub struct ServiceCreateRequest {
    pub is_enabled: bool,
    pub name: String,
    pub url: String,
    pub provider_local_url: Option<String>,
    pub provider_github_oauth2_url: Option<String>,
    pub provider_microsoft_oauth2_url: Option<String>,
}

impl ServiceCreateRequest {
    /// A service without provider URLs.
    pub fn new(is_enabled: bool, name: String, url: String) -> (r: ServiceCreateRequest)
        ensures
            r.is_enabled == is_enabled,
            r.name == name,
            r.url == url,
            r.provider_local_url is None,
            r.provider_github_oauth2_url is None,
            r.provider_microsoft_oauth2_url is None,
    {
        ServiceCreateRequest {
            is_enabled,
            name,
            url,
            provider_local_url: None,
            provider_github_oauth2_url: None,
            provider_microsoft_oauth2_url: None,
        }
    }

    pub fn provider_local_url(self, provider_local_url: String) -> (r: ServiceCreateRequest)
        ensures
            r == (ServiceCreateRequest { provider_local_url: Some(provider_local_url), ..self }),
    {
        ServiceCreateRequest { provider_local_url: Some(provider_local_url), ..self }
    }

    pub fn provider_github_oauth2_url(self, provider_github_oauth2_url: String) -> (r:
        ServiceCreateRequest)
        ensures
            r == (ServiceCreateRequest {
                provider_github_oauth2_url: Some(provider_github_oauth2_url),
                ..self
            }),
    {
        ServiceCreateRequest { provider_github_oauth2_url: Some(provider_github_oauth2_url), ..self }
    }

    pub fn provider_microsoft_oauth2_url(self, provider_microsoft_oauth2_url: String) -> (r:
        ServiceCreateRequest)
        ensures
            r == (ServiceCreateRequest {
                provider_microsoft_oauth2_url: Some(provider_microsoft_oauth2_url),
                ..self
            }),
    {
        ServiceCreateRequest {
            provider_microsoft_oauth2_url: Some(provider_microsoft_oauth2_url),
            ..self
        }
    }
}

/// Changes to a service; `None` keeps the old value.
#[derive(Clone, Debug)]
pub struct ServiceUpdateRequest {
    pub is_enabled: Option<bool>,
    pub name: Option<String>,
    pub url: Option<String>,
    pub provider_local_url: Option<String>,
    pub provider_github_oauth2_url: Option<String>,
    pub provider_microsoft_oauth2_url: Option<String>,
}

/// A new user, with an optional password in clear.
#[derive(Clone, Debug)]
pub struct UserCreateRequest {
    pub is_enabled: bool,
    pub name: String,
    pub email: String,
    pub locale: String,
    pub timezone: String,
    pub password_allow_reset: Option<bool>,
    pub password_require_update: Option<bool>,
    pub password: Option<String>,
}

impl UserCreateRequest {
    /// A user without a password.
    pub fn new(is_enabled: bool, name: String, email: String, locale: String, timezone: String) -> (r:
        UserCreateRequest)
        ensures
            r.is_enabled == is_enabled,
            r.name == name,
            r.email == email,
            r.locale == locale,
            r.timezone == timezone,
            r.password_allow_reset is None,
            r.password_require_update is None,
            r.password is None,
    {
        UserCreateRequest {
            is_enabled,
            name,
            email,
            locale,
            timezone,
            password_allow_reset: None,
            password_require_update: None,
            password: None,
        }
    }

    /// Adds a password and its policy flags.
    pub fn with_password(
        self,
        password_allow_reset: bool,
        password_require_update: bool,
        password: String,
    ) -> (r: UserCreateRequest)
        ensures
            r == (UserCreateRequest {
                password_allow_reset: Some(password_allow_reset),
                password_require_update: Some(password_require_update),
                password: Some(password),
                ..self
            }),
    {
        UserCreateRequest {
            password_allow_reset: Some(password_allow_reset),
            password_require_update: Some(password_require_update),
            password: Some(password),
            ..self
        }
    }
}

/// A new key: root (no service, no user), service, or user key.
#[derive(Clone, Debug)]
pub struct KeyCreateRequest {
    pub is_enabled: bool,
    pub name: String,
    pub type_: KeyType,
    pub service_id: Option<u128>,
    pub user_id: Option<u128>,
}

/// The service a request describes, under `id`, made at `now`.
pub open spec fn service_of(request: ServiceCreateRequest, id: u128, now: i64) -> Service {
    Service {
        id,
        created_at: now,
        updated_at: now,
        is_enabled: request.is_enabled,
        name: request.name,
        url: request.url,
        provider_local_url: request.provider_local_url,
        provider_github_oauth2_url: request.provider_github_oauth2_url,
        provider_microsoft_oauth2_url: request.provider_microsoft_oauth2_url,
    }
}

/// Creates a service under a random id.
pub fn create_service(store: &mut Store, request: ServiceCreateRequest, now: i64) -> (r: CoreResult<
    Service,
>)
    requires
        old(store).wf(),
    ensures
        final(store).wf(),
        match r {
            Ok(s) => s == service_of(request, s.id, now) && final(store)@ == old(store)@.with_services(old(store)@.services.push(s)),
            Err(e) => e == CoreError::Driver(DriverError::Conflict) && final(store)@ == old(store)@
                && old(store)@.services.len() > 0,
        },
{
    let id = random_id();
    let service = Service {
        id,
        created_at: now,
        updated_at: now,
        is_enabled: request.is_enabled,
        name: request.name,
        url: request.url,
        provider_local_url: request.provider_local_url,
        provider_github_oauth2_url: request.provider_github_oauth2_url,
        provider_microsoft_oauth2_url: request.provider_microsoft_oauth2_url,
    };
    let out = service.copy();
    match store.service_insert(service) {
        Ok(()) => Ok(out),
        Err(e) => Err(CoreError::Driver(e)),
    }
}

/// The user a request describes, with this id and password hash.
pub open spec fn user_of(request: UserCreateRequest, id: u128, hash: Option<String>, now: i64) -> User {
    User {
        id,
        created_at: now,
        updated_at: now,
        is_enabled: request.is_enabled,
        name: request.name,
        email: request.email,
        locale: request.locale,
        timezone: request.timezone,
        password_allow_reset: match request.password_allow_reset {
            Some(b) => b,
            None => false,
        },
        password_require_update: match request.password_require_update {
            Some(b) => b,
            None => false,
        },
        password_hash: hash,
    }
}

/// Creates a user under a random id; a password is stored hashed. Emails are
/// unique.
pub fn create_user(store: &mut Store, request: UserCreateRequest, now: i64) -> (r: CoreResult<User>)
    requires
        old(store).wf(),
    ensures
        final(store).wf(),
        old(store)@.user_by_email(request.email@) is Some ==> r == Err::<User, CoreError>(
            CoreError::Driver(DriverError::Conflict),
        ) && final(store)@ == old(store)@,
        old(store)@.user_by_email(request.email@) is None ==> match r {
            Ok(u) => u == user_of(request, u.id, u.password_hash, now) && (u.password_hash is Some
                <==> request.password is Some) && (request.password is Some
                ==> crate::auth::password_ok(u.password_hash, request.password->0@)) && final(store)@ == old(store)@.with_users(old(store)@.users.push(u)),
            Err(e) => (e == CoreError::BadRequest && request.password is Some
                && password_refused_of(request.password->0@) || e == CoreError::Driver(
                DriverError::Conflict,
            ) && old(store)@.users.len() > 0)
                && final(store)@ == old(store)@,
        },
{
    if store.user_read_by_email_opt(&request.email).is_some() {
        return Err(CoreError::Driver(DriverError::Conflict));
    }
    let hash = match &request.password {
        Some(p) => match password_hash_phc(p.as_str()) {
            Some(h) => Some(h),
            None => return Err(CoreError::BadRequest),
        },
        None => None,
    };
    let user = User {
        id: random_id(),
        created_at: now,
        updated_at: now,
        is_enabled: request.is_enabled,
        name: request.name,
        email: request.email,
        locale: request.locale,
        timezone: request.timezone,
        password_allow_reset: match request.password_allow_reset {
            Some(b) => b,
            None => false,
        },
        password_require_update: match request.password_require_update {
            Some(b) => b,
            None => false,
        },
        password_hash: hash,
    };
    let out = user.copy();
    match store.user_insert(user) {
        Ok(()) => Ok(out),
        Err(e) => Err(CoreError::Driver(e)),
    }
}

/// The key a request describes, with this id and value.
pub open spec fn key_of(request: KeyCreateRequest, id: u128, value: String, now: i64) -> Key {
    Key {
        id,
        created_at: now,
        updated_at: now,
        is_enabled: request.is_enabled,
        is_revoked: false,
        name: request.name,
        value,
        type_: request.type_,
        service_id: request.service_id,
        user_id: request.user_id,
    }
}

/// An active key holds the service, user and type of a requested user key.
pub open spec fn slot_taken(keys: Seq<Key>, request: KeyCreateRequest) -> bool {
    request.user_id is Some && exists|j: int|
        0 <= j < keys.len() && (#[trigger] keys[j]).is_active() && keys[j].service_id
            == request.service_id && keys[j].user_id == request.user_id && keys[j].type_
            == request.type_
}

/// Creates a key with a random id and value. An enabled user key is refused
/// while another active key holds its service, user and type.
pub fn create_key(store: &mut Store, request: KeyCreateRequest, now: i64) -> (r: CoreResult<Key>)
    requires
        old(store).wf(),
    ensures
        final(store).wf(),
        match r {
            Ok(k) => k == key_of(request, k.id, k.value, now) && final(store)@ == old(store)@.with_keys(old(store)@.keys.push(k)),
            Err(e) => e == CoreError::Driver(DriverError::Conflict) && final(store)@ == old(store)@
                && old(store)@.keys.len() > 0,
        },
        request.is_enabled && slot_taken(old(store)@.keys, request) ==> r is Err,
{
    let key = Key {
        id: random_id(),
        created_at: now,
        updated_at: now,
        is_enabled: request.is_enabled,
        is_revoked: false,
        name: request.name,
        value: random_key_value(),
        type_: request.type_,
        service_id: request.service_id,
        user_id: request.user_id,
    };
    let out = key.copy();
    match store.key_insert(key) {
        Ok(()) => Ok(out),
        Err(e) => Err(CoreError::Driver(e)),
    }
}

/// The page size when a list request names none.
pub const DEFAULT_LIMIT: usize = 50;

/// The page a request asks for: after `gt` if given (even with `lt`), else
/// before `lt` if given, else the first page.
pub open spec fn query_of(gt: Option<u128>, lt: Option<u128>, limit: Option<usize>) -> ListQuery {
    let n = match limit {
        Some(n) => n,
        None => DEFAULT_LIMIT,
    };
    match (gt, lt) {
        (Some(g), _) => ListQuery::IdGt(g, n),
        (None, Some(l)) => ListQuery::IdLt(l, n),
        (None, None) => ListQuery::Limit(n),
    }
}

fn query_from(gt: Option<u128>, lt: Option<u128>, limit: Option<usize>) -> (r: ListQuery)
    ensures
        r == query_of(gt, lt, limit),
{
    let n = match limit {
        Some(n) => n,
        None => DEFAULT_LIMIT,
    };
    match (gt, lt) {
        (Some(g), _) => ListQuery::IdGt(g, n),
        (None, Some(l)) => ListQuery::IdLt(l, n),
        (None, None) => ListQuery::Limit(n),
    }
}

/// The cursor fields that describe a query: `(gt, lt, limit)`.
pub open spec fn cursor_of(query: ListQuery) -> (Option<u128>, Option<u128>, Option<usize>) {
    match query {
        ListQuery::Limit(n) => (None, None, Some(n)),
        ListQuery::IdGt(g, n) => (Some(g), None, Some(n)),
        ListQuery::IdLt(l, n) => (None, Some(l), Some(n)),
    }
}

fn cursor_from(query: ListQuery) -> (r: (Option<u128>, Option<u128>, Option<usize>))
    ensures
        r == cursor_of(query),
{
    match query {
        ListQuery::Limit(n) => (None, None, Some(n)),
        ListQuery::IdGt(g, n) => (Some(g), None, Some(n)),
        ListQuery::IdLt(l, n) => (None, Some(l), Some(n)),
    }
}

/// A request for a page of services.
#[derive(Clone, Debug)]
pub struct ServiceListRequest {
    pub gt: Option<u128>,
    pub lt: Option<u128>,
    pub limit: Option<usize>,
    pub id: Option<Vec<u128>>,
    pub is_enabled: Option<bool>,
}

impl ServiceListRequest {
    pub fn into_query_filter(self) -> (r: (ListQuery, ServiceListFilter))
        ensures
            r.0 == query_of(self.gt, self.lt, self.limit),
            r.1.id == self.id,
            r.1.is_enabled == self.is_enabled,
    {
        let query = query_from(self.gt, self.lt, self.limit);
        (query, ServiceListFilter { id: self.id, is_enabled: self.is_enabled })
    }

    pub fn from_query_filter(query: ListQuery, filter: ServiceListFilter) -> (r: ServiceListRequest)
        ensures
            (r.gt, r.lt, r.limit) == cursor_of(query),
            r.id == filter.id,
            r.is_enabled == filter.is_enabled,
    {
        let (gt, lt, limit) = cursor_from(query);
        ServiceListRequest { gt, lt, limit, id: filter.id, is_enabled: filter.is_enabled }
    }
}

/// A request for a page of users.
#[derive(Clone, Debug)]
pub struct UserListRequest {
    pub gt: Option<u128>,
    pub lt: Option<u128>,
    pub limit: Option<usize>,
    pub id: Option<Vec<u128>>,
    pub email_eq: Option<String>,
}

impl UserListRequest {
    pub fn into_query_filter(self) -> (r: (ListQuery, UserListFilter))
        ensures
            r.0 == query_of(self.gt, self.lt, self.limit),
            r.1.id == self.id,
            r.1.email_eq == self.email_eq,
    {
        let query = query_from(self.gt, self.lt, self.limit);
        (query, UserListFilter { id: self.id, email_eq: self.email_eq })
    }

    pub fn from_query_filter(query: ListQuery, filter: UserListFilter) -> (r: UserListRequest)
        ensures
            (r.gt, r.lt, r.limit) == cursor_of(query),
            r.id == filter.id,
            r.email_eq == filter.email_eq,
    {
        let (gt, lt, limit) = cursor_from(query);
        UserListRequest { gt, lt, limit, id: filter.id, email_eq: filter.email_eq }
    }
}

/// Who a credential authenticates: the root (`None`) or a service.
pub open spec fn caller(v: StoreView, value: Option<Seq<char>>) -> CoreResult<Option<Service>> {
    match root_auth(v, value) {
        Ok(_) => Ok(None),
        Err(_) => match service_auth(v, value) {
            Err(e) => Err(e),
            Ok((s, _)) => Ok(Some(s)),
        },
    }
}

/// Every id of a page is among the ids paged.
proof fn lemma_page_members(ids: Seq<u128>, query: ListQuery, r: Seq<u128>)
    requires
        page_of(ids, query, r),
    ensures
        forall|i: int| 0 <= i < r.len() ==> ids.contains(#[trigger] r[i]),
{
}

proof fn lemma_listed_service_stored(v: StoreView, filter: ServiceListFilter, x: u128)
    requires
        v.services.filter(service_passes(filter)).map_values(|s: Service| s.id).contains(x),
    ensures
        v.service(x) is Some,
{
    let f = v.services.filter(service_passes(filter));
    let m = f.map_values(|s: Service| s.id);
    let i = choose|i: int| 0 <= i < m.len() && #[trigger] m[i] == x;
    let s = f[i];
    assert(f.contains(s));
    v.services.lemma_filter_contains_rev(service_passes(filter), s);
    let k = choose|k: int| 0 <= k < v.services.len() && v.services[k] == s;
    assert(service_has_id(x)(v.services[k]));
    lemma_last_index(v.services, service_has_id(x));
}

proof fn lemma_listed_user_stored(v: StoreView, filter: UserListFilter, x: u128)
    requires
        v.users.filter(user_passes(filter)).map_values(|u: User| u.id).contains(x),
    ensures
        v.user(x) is Some,
{
    let f = v.users.filter(user_passes(filter));
    let m = f.map_values(|u: User| u.id);
    let i = choose|i: int| 0 <= i < m.len() && #[trigger] m[i] == x;
    let u = f[i];
    assert(f.contains(u));
    v.users.lemma_filter_contains_rev(user_passes(filter), u);
    let k = choose|k: int| 0 <= k < v.users.len() && v.users[k] == u;
    assert(user_has_id(x)(v.users[k]));
    lemma_last_index(v.users, user_has_id(x));
}

fn services_of(store: &Store, ids: &Vec<u128>) -> (r: Vec<Service>)
    requires
        forall|i: int| 0 <= i < ids@.len() ==> store@.service(#[trigger] ids@[i]) is Some,
    ensures
        r@.len() == ids@.len(),
        forall|i: int| 0 <= i < r@.len() ==> Some(#[trigger] r@[i]) == store@.service(ids@[i]),
{
    let mut out: Vec<Service> = Vec::new();
    let mut i: usize = 0;
    while i < ids.len()
        invariant
            i <= ids@.len(),
            out@.len() == i,
            forall|j: int| 0 <= j < ids@.len() ==> store@.service(#[trigger] ids@[j]) is Some,
            forall|j: int| 0 <= j < i ==> Some(#[trigger] out@[j]) == store@.service(ids@[j]),
        decreases ids@.len() - i,
    {
        match store.service_read_opt(ids[i]) {
            Some(s) => out.push(s),
            None => {
                assert(store@.service(ids@[i as int]) is Some);
                return out;
            },
        }
        i = i + 1;
    }
    out
}

fn users_of(store: &Store, ids: &Vec<u128>) -> (r: Vec<User>)
    requires
        forall|i: int| 0 <= i < ids@.len() ==> store@.user(#[trigger] ids@[i]) is Some,
    ensures
        r@.len() == ids@.len(),
        forall|i: int| 0 <= i < r@.len() ==> Some(#[trigger] r@[i]) == store@.user(ids@[i]),
{
    let mut out: Vec<User> = Vec::new();
    let mut i: usize = 0;
    while i < ids.len()
        invariant
            i <= ids@.len(),
            out@.len() == i,
            forall|j: int| 0 <= j < ids@.len() ==> store@.user(#[trigger] ids@[j]) is Some,
            forall|j: int| 0 <= j < i ==> Some(#[trigger] out@[j]) == store@.user(ids@[j]),
        decreases ids@.len() - i,
    {
        match store.user_read_opt(ids[i]) {
            Some(u) => out.push(u),
            None => {
                assert(store@.user(ids@[i as int]) is Some);
                return out;
            },
        }
        i = i + 1;
    }
    out
}

/// A page of services and the request that reproduces it.
pub struct ServiceListResponse {
    pub meta: ServiceListRequest,
    pub data: Vec<Service>,
}

/// Lists services; only the root may.
pub fn service_list(
    store: &Store,
    key_value: Option<String>,
    audit_meta: AuditMeta,
    request: ServiceListRequest,
) -> (r: CoreResult<ServiceListResponse>)
    ensures
        match root_auth(store@, credential(key_value)) {
            Err(e) => r is Err && r->Err_0 == e,
            Ok(_) => r matches Ok(resp) && {
                let query = query_of(request.gt, request.lt, request.limit);
                let filter = ServiceListFilter { id: request.id, is_enabled: request.is_enabled };
                let ids = resp.data@.map_values(|s: Service| s.id);
                &&& page_of(
                    store@.services.filter(service_passes(filter)).map_values(|s: Service| s.id),
                    query,
                    ids,
                )
                &&& forall|i: int|
                    0 <= i < resp.data@.len() ==> Some(#[trigger] resp.data@[i]) == store@.service(
                        ids[i],
                    )
                &&& (resp.meta.gt, resp.meta.lt, resp.meta.limit) == crate::api::cursor_of(query)
            },
        },
{
    match authenticate_root(store, audit_meta, key_value) {
        Ok(_) => {},
        Err(e) => return Err(e),
    }
    let ghost req = request;
    let (query, filter) = request.into_query_filter();
    let ids = store.service_list_where(query, &filter);
    proof {
        lemma_page_members(
            store@.services.filter(service_passes(filter)).map_values(|s: Service| s.id),
            query,
            ids@,
        );
        assert forall|i: int| 0 <= i < ids@.len() implies store@.service(#[trigger] ids@[i]) is Some by {
            lemma_listed_service_stored(store@, filter, ids@[i]);
        }
    }
    let data = services_of(store, &ids);
    proof {
        assert forall|i: int| 0 <= i < data@.len() implies data@[i].id == ids@[i] by {
            lemma_last_index(store@.services, service_has_id(ids@[i]));
        }
        assert(data@.map_values(|s: Service| s.id) =~= ids@);
    }
    Ok(ServiceListResponse { meta: ServiceListRequest::from_query_filter(query, filter), data })
}

/// Creates a service; only the root may.
pub fn service_create(
    store: &mut Store,
    key_value: Option<String>,
    audit_meta: AuditMeta,
    request: ServiceCreateRequest,
    now: i64,
) -> (r: CoreResult<Service>)
    requires
        old(store).wf(),
    ensures
        final(store).wf(),
        match root_auth(old(store)@, credential(key_value)) {
            Err(e) => r == Err::<Service, CoreError>(e) && final(store)@ == old(store)@,
            Ok(_) => match r {
                Ok(s) => s == service_of(request, s.id, now) && final(store)@ == old(store)@.with_services(old(store)@.services.push(s)),
                Err(e) => e == CoreError::Driver(DriverError::Conflict) && final(store)@ == old(store)@
                    && old(store)@.services.len() > 0,
            },
        },
{
    match authenticate_root(store, audit_meta, key_value) {
        Ok(_) => {},
        Err(e) => return Err(e),
    }
    create_service(store, request, now)
}

/// Reads a service: the root may read any, a service only itself.
pub fn service_read(store: &Store, key_value: Option<String>, audit_meta: AuditMeta, service_id: u128) -> (r:
    CoreResult<Service>)
    ensures
        match caller(store@, credential(key_value)) {
            Err(e) => r == Err::<Service, CoreError>(e),
            Ok(Some(s)) if s.id != service_id => r == Err::<Service, CoreError>(CoreError::NotFound),
            Ok(_) => match store@.service(service_id) {
                Some(s) => r == Ok::<Service, CoreError>(s),
                None => r == Err::<Service, CoreError>(CoreError::NotFound),
            },
        },
{
    let (mask, _) = match authenticate(store, audit_meta, key_value) {
        Ok(d) => d,
        Err(e) => return Err(e),
    };
    if let Some(s) = mask {
        if s.id != service_id {
            return Err(CoreError::NotFound);
        }
    }
    match store.service_read_opt(service_id) {
        Some(s) => Ok(s),
        None => Err(CoreError::NotFound),
    }
}

/// A page of users and the request that reproduces it.
pub struct UserListResponse {
    pub meta: UserListRequest,
    pub data: Vec<User>,
}

/// Lists users; the root or any service may.
pub fn user_list(
    store: &Store,
    key_value: Option<String>,
    audit_meta: AuditMeta,
    request: UserListRequest,
) -> (r: CoreResult<UserListResponse>)
    ensures
        match caller(store@, credential(key_value)) {
            Err(e) => r is Err && r->Err_0 == e,
            Ok(_) => r matches Ok(resp) && {
                let query = query_of(request.gt, request.lt, request.limit);
                let filter = UserListFilter { id: request.id, email_eq: request.email_eq };
                let ids = resp.data@.map_values(|u: User| u.id);
                &&& page_of(
                    store@.users.filter(user_passes(filter)).map_values(|u: User| u.id),
                    query,
                    ids,
                )
                &&& forall|i: int|
                    0 <= i < resp.data@.len() ==> Some(#[trigger] resp.data@[i]) == store@.user(
                        ids[i],
                    )
                &&& (resp.meta.gt, resp.meta.lt, resp.meta.limit) == crate::api::cursor_of(query)
            },
        },
{
    match authenticate(store, audit_meta, key_value) {
        Ok(_) => {},
        Err(e) => return Err(e),
    }
    let (query, filter) = request.into_query_filter();
    let ids = store.user_list_where(query, &filter);
    proof {
        lemma_page_members(
            store@.users.filter(user_passes(filter)).map_values(|u: User| u.id),
            query,
            ids@,
        );
        assert forall|i: int| 0 <= i < ids@.len() implies store@.user(#[trigger] ids@[i]) is Some by {
            lemma_listed_user_stored(store@, filter, ids@[i]);
        }
    }
    let data = users_of(store, &ids);
    proof {
        assert forall|i: int| 0 <= i < data@.len() implies data@[i].id == ids@[i] by {
            lemma_last_index(store@.users, user_has_id(ids@[i]));
        }
        assert(data@.map_values(|u: User| u.id) =~= ids@);
    }
    Ok(UserListResponse { meta: UserListRequest::from_query_filter(query, filter), data })
}

/// Creates a user; the root or any service may.
pub fn user_create(
    store: &mut Store,
    key_value: Option<String>,
    audit_meta: AuditMeta,
    request: UserCreateRequest,
    now: i64,
) -> (r: CoreResult<User>)
    requires
        old(store).wf(),
    ensures
        final(store).wf(),
        caller(old(store)@, credential(key_value)) matches Err(e) ==> r == Err::<User, CoreError>(e)
            && final(store)@ == old(store)@,
        caller(old(store)@, credential(key_value)) is Ok ==> (old(store)@.user_by_email(
            request.email@,
        ) is Some ==> r == Err::<User, CoreError>(CoreError::Driver(DriverError::Conflict)) && final(store)@ == old(store)@),
        caller(old(store)@, credential(key_value)) is Ok && old(store)@.user_by_email(
            request.email@,
        ) is None ==> match r {
            Ok(u) => u == user_of(request, u.id, u.password_hash, now) && (u.password_hash is Some
                <==> request.password is Some) && (request.password is Some
                ==> crate::auth::password_ok(u.password_hash, request.password->0@)) && final(store)@ == old(store)@.with_users(old(store)@.users.push(u)),
            Err(e) => (e == CoreError::BadRequest && request.password is Some
                && password_refused_of(request.password->0@) || e == CoreError::Driver(
                DriverError::Conflict,
            ) && old(store)@.users.len() > 0)
                && final(store)@ == old(store)@,
        },
{
    match authenticate(store, audit_meta, key_value) {
        Ok(_) => {},
        Err(e) => return Err(e),
    }
    create_user(store, request, now)
}

/// Reads a user by id; the root or any service may.
pub fn user_read(store: &Store, key_value: Option<String>, audit_meta: AuditMeta, user_id: u128) -> (r:
    CoreResult<User>)
    ensures
        match caller(store@, credential(key_value)) {
            Err(e) => r == Err::<User, CoreError>(e),
            Ok(_) => match store@.user(user_id) {
                Some(u) => r == Ok::<User, CoreError>(u),
                None => r == Err::<User, CoreError>(CoreError::NotFound),
            },
        },
{
    match authenticate(store, audit_meta, key_value) {
        Ok(_) => {},
        Err(e) => return Err(e),
    }
    match store.user_read_opt(user_id) {
        Some(u) => Ok(u),
        None => Err(CoreError::NotFound),
    }
}

/// Changes to a user; `None` keeps the old value.
#[derive(Clone, Debug)]
pub struct UserUpdateRequest {
    pub is_enabled: Option<bool>,
    pub name: Option<String>,
    pub locale: Option<String>,
    pub timezone: Option<String>,
    pub password_allow_reset: Option<bool>,
    pub password_require_update: Option<bool>,
}

/// Updates a user; the root or any service may.
pub fn user_update(
    store: &mut Store,
    key_value: Option<String>,
    audit_meta: AuditMeta,
    user_id: u128,
    request: UserUpdateRequest,
    now: i64,
) -> (r: CoreResult<User>)
    requires
        old(store).wf(),
    ensures
        final(store).wf(),
        match caller(old(store)@, credential(key_value)) {
            Err(e) => r == Err::<User, CoreError>(e) && final(store)@ == old(store)@,
            Ok(_) => match last_index(old(store)@.users, user_has_id(user_id)) {
                Some(i) => r == Ok::<User, CoreError>(
                    crate::store::updated_user(
                        old(store)@.users[i],
                        UserUpdate {
                            is_enabled: request.is_enabled,
                            name: request.name,
                            locale: request.locale,
                            timezone: request.timezone,
                            password_allow_reset: request.password_allow_reset,
                            password_require_update: request.password_require_update,
                        },
                        now,
                    ),
                ) && final(store)@.users == old(store)@.users.update(i, r->Ok_0) && final(store)@
                    == old(store)@.with_users(final(store)@.users),
                None => r == Err::<User, CoreError>(CoreError::NotFound) && final(store)@ == old(store)@,
            },
        },
{
    match authenticate(store, audit_meta, key_value) {
        Ok(_) => {},
        Err(e) => return Err(e),
    }
    let update = UserUpdate {
        is_enabled: request.is_enabled,
        name: request.name,
        locale: request.locale,
        timezone: request.timezone,
        password_allow_reset: request.password_allow_reset,
        password_require_update: request.password_require_update,
    };
    match store.user_update(user_id, &update, now) {
        Ok(u) => Ok(u),
        Err(_) => Err(CoreError::NotFound),
    }
}

/// The update a request asks for.
pub open spec fn update_of(request: ServiceUpdateRequest) -> ServiceUpdate {
    ServiceUpdate {
        is_enabled: request.is_enabled,
        name: request.name,
        url: request.url,
        provider_local_url: request.provider_local_url,
        provider_github_oauth2_url: request.provider_github_oauth2_url,
        provider_microsoft_oauth2_url: request.provider_microsoft_oauth2_url,
    }
}

/// Updates a service: the root may update any, a service only itself.
pub fn service_update(
    store: &mut Store,
    key_value: Option<String>,
    audit_meta: AuditMeta,
    service_id: u128,
    request: ServiceUpdateRequest,
    now: i64,
) -> (r: CoreResult<Service>)
    requires
        old(store).wf(),
    ensures
        final(store).wf(),
        match caller(old(store)@, credential(key_value)) {
            Err(e) => r == Err::<Service, CoreError>(e) && final(store)@ == old(store)@,
            Ok(Some(s)) if s.id != service_id => r == Err::<Service, CoreError>(CoreError::NotFound)
                && final(store)@ == old(store)@,
            Ok(_) => match last_index(old(store)@.services, service_has_id(service_id)) {
                Some(i) => r == Ok::<Service, CoreError>(
                    crate::store::updated_service(old(store)@.services[i], update_of(request), now),
                ) && final(store)@ == old(store)@.with_services(
                    old(store)@.services.update(i, r->Ok_0),
                ),
                None => r == Err::<Service, CoreError>(CoreError::NotFound) && final(store)@ == old(store)@,
            },
        },
{
    let (mask, _) = match authenticate(store, audit_meta, key_value) {
        Ok(d) => d,
        Err(e) => return Err(e),
    };
    if let Some(s) = mask {
        if s.id != service_id {
            return Err(CoreError::NotFound);
        }
    }
    let update = ServiceUpdate {
        is_enabled: request.is_enabled,
        name: request.name,
        url: request.url,
        provider_local_url: request.provider_local_url,
        provider_github_oauth2_url: request.provider_github_oauth2_url,
        provider_microsoft_oauth2_url: request.provider_microsoft_oauth2_url,
    };
    match store.service_update(service_id, update, now) {
        Ok(s) => Ok(s),
        Err(_) => Err(CoreError::NotFound),
    }
}

} // verus!
