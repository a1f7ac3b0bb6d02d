use sso::api::{create_key, create_service, KeyCreateRequest, ServiceCreateRequest};
use sso::authenticate::{authenticate, authenticate_root, authenticate_service};
use sso::error::CoreError;
use sso::list::{list_ids, list_ids_gt, list_ids_lt, ListQuery};
use sso::store::{DriverLock, Store};
use sso::types::{AuditMeta, KeyType};

fn meta() -> AuditMeta {
    AuditMeta { user_agent: String::from("agent"), remote: String::from("10.0.0.1"), forwarded: None }
}

#[test]
fn list_gt_takes_smallest_ids_in_order() {
    let ids: Vec<u128> = vec![50, 10, 40, 20, 30];
    assert_eq!(list_ids_gt(&ids, Some(15), 2), vec![20, 30]);
    assert_eq!(list_ids_gt(&ids, None, 3), vec![10, 20, 30]);
    assert_eq!(list_ids_gt(&ids, Some(50), 3), Vec::<u128>::new());
    assert_eq!(list_ids_gt(&ids, Some(0), 0), Vec::<u128>::new());
}

#[test]
fn list_lt_takes_largest_ids_in_ascending_order() {
    let ids: Vec<u128> = vec![50, 10, 40, 20, 30];
    assert_eq!(list_ids_lt(&ids, 45, 2), vec![30, 40]);
    assert_eq!(list_ids_lt(&ids, 100, 10), vec![10, 20, 30, 40, 50]);
    assert_eq!(list_ids_lt(&ids, 10, 3), Vec::<u128>::new());
}

#[test]
fn consecutive_pages_cover_all_ids_once() {
    let ids: Vec<u128> = vec![7, 3, 9, 1, 5, 8];
    let first = list_ids(&ids, ListQuery::IdGt(2, 2));
    assert_eq!(first, vec![3, 5]);
    let second = list_ids(&ids, ListQuery::IdGt(*first.last().unwrap(), 10));
    assert_eq!(second, vec![7, 8, 9]);
    let mut all = first.clone();
    all.extend(second);
    assert_eq!(all, vec![3, 5, 7, 8, 9]);
}

#[test]
fn store_lists_services_by_id() {
    let mut store = Store::new();
    for name in ["a", "b", "c"] {
        let request =
            ServiceCreateRequest::new(true, String::from(name), String::from("http://localhost"));
        create_service(&mut store, request, 1).unwrap();
    }
    let mut ids: Vec<u128> = store.services().iter().map(|s| s.id).collect();
    ids.sort();
    assert_eq!(store.service_list(ListQuery::Limit(10)), ids);
    assert_eq!(store.service_list(ListQuery::IdGt(ids[0], 1)), vec![ids[1]]);
    assert_eq!(store.service_list(ListQuery::IdLt(ids[2], 1)), vec![ids[1]]);
}

#[test]
fn service_key_authenticates_its_service() {
    let mut store = Store::new();
    let request = ServiceCreateRequest::new(true, String::from("s"), String::from("http://localhost"));
    let service = create_service(&mut store, request, 1).unwrap();
    let key = create_key(
        &mut store,
        KeyCreateRequest {
            is_enabled: true,
            name: String::from("service"),
            type_: KeyType::Key,
            service_id: Some(service.id),
            user_id: None,
        },
        1,
    )
    .unwrap();
    let root = create_key(
        &mut store,
        KeyCreateRequest {
            is_enabled: true,
            name: String::from("root"),
            type_: KeyType::Key,
            service_id: None,
            user_id: None,
        },
        1,
    )
    .unwrap();
    let (found, audit) = authenticate_service(&store, meta(), Some(key.value.clone())).unwrap();
    assert_eq!(found.id, service.id);
    assert_eq!(audit.service, Some(service.id));
    assert_eq!(audit.key, Some(key.id));
    assert_eq!(
        authenticate_service(&store, meta(), Some(String::from("nope"))).err().map(|e| e),
        Some(CoreError::Forbidden)
    );
    assert_eq!(authenticate_service(&store, meta(), None).err(), Some(CoreError::Unauthorised));
    assert_eq!(
        authenticate_service(&store, meta(), Some(root.value.clone())).err(),
        Some(CoreError::Forbidden)
    );
    assert!(authenticate_root(&store, meta(), Some(root.value.clone())).is_ok());
    assert_eq!(
        authenticate_root(&store, meta(), Some(key.value.clone())).err(),
        Some(CoreError::Forbidden)
    );
    let (none, _) = authenticate(&store, meta(), Some(root.value)).unwrap();
    assert!(none.is_none());
    let (some, _) = authenticate(&store, meta(), Some(key.value)).unwrap();
    assert_eq!(some.unwrap().id, service.id);
}

#[test]
fn driver_lock_key() {
    assert_eq!(DriverLock::Transaction.key(), 1);
}

use sso::audit::AuditBuilder;
use sso::store::{AuditListQuery, ServiceListFilter, UserListFilter};
use sso::types::{AuditEvent, AuditMessage, AuditType};
use sso::api::{ServiceListRequest, UserListRequest, DEFAULT_LIMIT};

fn audits_at(store: &mut Store, times: &[i64], service: Option<u128>) -> Vec<u128> {
    let mut ids = Vec::new();
    for t in times {
        let mut b = AuditBuilder::new(meta());
        b.service = service;
        let a = b.create_internal(store, AuditType::Login, AuditMessage::Login, *t);
        ids.push(a.id);
    }
    ids
}

#[test]
fn audit_list_by_creation_time() {
    let mut store = Store::new();
    let ids = audits_at(&mut store, &[10, 20, 30, 40, 50], Some(1));
    let other = audits_at(&mut store, &[25], Some(2));
    let page: Vec<u128> =
        store.audit_list(AuditListQuery::CreatedGe(20, 2, None), Some(1)).iter().map(|a| a.id).collect();
    assert_eq!(page, vec![ids[1], ids[2]]);
    let next: Vec<u128> = store
        .audit_list(AuditListQuery::CreatedGe(20, 2, Some(ids[2])), Some(1))
        .iter()
        .map(|a| a.id)
        .collect();
    assert_eq!(next, vec![ids[3], ids[4]]);
    let newest: Vec<u128> =
        store.audit_list(AuditListQuery::CreatedLe(45, 2, None), Some(1)).iter().map(|a| a.id).collect();
    assert_eq!(newest, vec![ids[2], ids[3]]);
    let before: Vec<u128> = store
        .audit_list(AuditListQuery::CreatedLe(45, 2, Some(ids[2])), Some(1))
        .iter()
        .map(|a| a.id)
        .collect();
    assert_eq!(before, vec![ids[0], ids[1]]);
    let window: Vec<u128> = store
        .audit_list(AuditListQuery::CreatedLeAndGe(30, 20, 10, None), None)
        .iter()
        .map(|a| a.id)
        .collect();
    assert_eq!(window, vec![ids[1], ids[2], other[0]]);
    assert!(store.audit_read_opt(other[0], Some(1)).is_none());
    match store.audit_read_opt(other[0], Some(2)).unwrap().event {
        AuditEvent::Internal(t, _) => assert_eq!(t, AuditType::Login),
        _ => panic!("expected an engine audit"),
    }
}

#[test]
fn list_requests_map_to_queries() {
    let r = ServiceListRequest { gt: Some(5), lt: Some(9), limit: None, id: None, is_enabled: Some(true) };
    let (q, f) = r.into_query_filter();
    assert_eq!(q, ListQuery::IdGt(5, DEFAULT_LIMIT));
    assert_eq!(f.is_enabled, Some(true));
    let back = ServiceListRequest::from_query_filter(ListQuery::IdLt(3, 7), f);
    assert_eq!((back.gt, back.lt, back.limit), (None, Some(3), Some(7)));
    let u = UserListRequest { gt: None, lt: None, limit: Some(4), id: None, email_eq: None };
    let (q, _) = u.into_query_filter();
    assert_eq!(q, ListQuery::Limit(4));
}

#[test]
fn filtered_service_list() {
    let mut store = Store::new();
    let mut ids = Vec::new();
    for (name, enabled) in [("a", true), ("b", false), ("c", true)] {
        let request =
            ServiceCreateRequest::new(enabled, String::from(name), String::from("http://localhost"));
        ids.push(create_service(&mut store, request, 1).unwrap().id);
    }
    let enabled = ServiceListFilter { id: None, is_enabled: Some(true) };
    let mut expected = vec![ids[0], ids[2]];
    expected.sort();
    assert_eq!(store.service_list_where(ListQuery::Limit(10), &enabled), expected);
    let only_b = ServiceListFilter { id: Some(vec![ids[1]]), is_enabled: None };
    assert_eq!(store.service_list_where(ListQuery::Limit(10), &only_b), vec![ids[1]]);
    let nobody = UserListFilter { id: None, email_eq: Some(String::from("x@e")) };
    assert!(store.user_list_where(ListQuery::Limit(10), &nobody).is_empty());
}

use sso::api::{service_create, service_list, service_read, user_create, user_list, user_read, user_update, UserCreateRequest, UserUpdateRequest};

fn root_and_service(store: &mut Store) -> (String, String, u128) {
    let root = create_key(
        store,
        KeyCreateRequest { is_enabled: true, name: String::from("root"), type_: KeyType::Key, service_id: None, user_id: None },
        1,
    )
    .unwrap();
    let s = service_create(
        store,
        Some(root.value.clone()),
        meta(),
        ServiceCreateRequest::new(true, String::from("s"), String::from("http://localhost")),
        1,
    )
    .unwrap();
    let k = create_key(
        store,
        KeyCreateRequest { is_enabled: true, name: String::from("svc"), type_: KeyType::Key, service_id: Some(s.id), user_id: None },
        1,
    )
    .unwrap();
    (root.value, k.value, s.id)
}

#[test]
fn api_service_list_ok() {
    let mut store = Store::new();
    let (root, svc, sid) = root_and_service(&mut store);
    let listed = service_list(&store, Some(root.clone()), meta(), ServiceListRequest { gt: None, lt: None, limit: None, id: None, is_enabled: None }).unwrap();
    assert_eq!(listed.data.len(), 1);
    assert_eq!(listed.data[0].id, sid);
    assert_eq!(listed.meta.limit, Some(DEFAULT_LIMIT));
    let denied = service_list(&store, Some(svc.clone()), meta(), ServiceListRequest { gt: None, lt: None, limit: None, id: None, is_enabled: None });
    assert_eq!(denied.err(), Some(CoreError::Forbidden));
    assert_eq!(service_read(&store, Some(svc.clone()), meta(), sid).unwrap().id, sid);
    assert_eq!(service_read(&store, Some(svc), meta(), sid + 1).err(), Some(CoreError::NotFound));
    assert_eq!(service_read(&store, None, meta(), sid).err(), Some(CoreError::Unauthorised));
}

#[test]
fn api_user_create_ok() {
    let mut store = Store::new();
    let (_, svc, _) = root_and_service(&mut store);
    let u = user_create(
        &mut store,
        Some(svc.clone()),
        meta(),
        UserCreateRequest::new(true, String::from("n"), String::from("n@e"), String::from("en"), String::from("UTC")),
        5,
    )
    .unwrap();
    assert!(u.password_hash.is_none());
    assert_eq!(user_read(&store, Some(svc.clone()), meta(), u.id).unwrap().email, "n@e");
    let updated = user_update(
        &mut store,
        Some(svc.clone()),
        meta(),
        u.id,
        UserUpdateRequest { is_enabled: Some(false), name: Some(String::from("m")), locale: None, timezone: None, password_allow_reset: None, password_require_update: None },
        6,
    )
    .unwrap();
    assert!(!updated.is_enabled);
    assert_eq!(updated.name, "m");
    assert_eq!(updated.updated_at, 6);
    let listed = user_list(&store, Some(svc.clone()), meta(), UserListRequest { gt: None, lt: None, limit: None, id: None, email_eq: Some(String::from("n@e")) }).unwrap();
    assert_eq!(listed.data.len(), 1);
    assert_eq!(user_read(&store, Some(svc), meta(), u.id + 1).err(), Some(CoreError::NotFound));
}

#[test]
fn api_user_create_forbidden() {
    let mut store = Store::new();
    let r = user_create(
        &mut store,
        Some(String::from("not-a-key")),
        meta(),
        UserCreateRequest::new(true, String::from("n"), String::from("n@e"), String::from("en"), String::from("UTC")),
        5,
    );
    assert_eq!(r.err(), Some(CoreError::Forbidden));
    assert!(store.users().is_empty());
}

use sso::api::{service_update, ServiceUpdateRequest};

#[test]
fn api_service_update_own_service_only() {
    let mut store = Store::new();
    let (root, svc, sid) = root_and_service(&mut store);
    let other = service_create(
        &mut store,
        Some(root.clone()),
        meta(),
        ServiceCreateRequest::new(true, String::from("o"), String::from("http://o")),
        1,
    )
    .unwrap();
    let request = ServiceUpdateRequest {
        is_enabled: None,
        name: Some(String::from("renamed")),
        url: None,
        provider_local_url: Some(String::from("http://local")),
        provider_github_oauth2_url: None,
        provider_microsoft_oauth2_url: None,
    };
    let updated = service_update(&mut store, Some(svc.clone()), meta(), sid, request.clone(), 9).unwrap();
    assert_eq!(updated.name, "renamed");
    assert_eq!(updated.url, "http://localhost");
    assert_eq!(updated.provider_local_url.as_deref(), Some("http://local"));
    assert_eq!(updated.updated_at, 9);
    let denied = service_update(&mut store, Some(svc), meta(), other.id, request.clone(), 9);
    assert_eq!(denied.err(), Some(CoreError::NotFound));
    assert!(service_update(&mut store, Some(root), meta(), other.id, request, 9).is_ok());
}

#[test]
fn key_values_are_base32_of_32_bytes() {
    let mut store = Store::new();
    let k = create_key(
        &mut store,
        KeyCreateRequest { is_enabled: true, name: String::from("root"), type_: KeyType::Key, service_id: None, user_id: None },
        1,
    )
    .unwrap();
    assert_eq!(k.value.len(), 52);
    assert!(k.value.chars().all(|c| c.is_ascii_uppercase() || ('2'..='7').contains(&c)));
}
