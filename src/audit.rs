//! Per-request audit scope and the records it writes.
use crate::store::{audit_id_taken, audited, Store, StoreView};
use crate::types::{Audit, AuditData, AuditEvent, AuditMessage, AuditMeta, AuditType, Key, Service, User};
use vstd::prelude::*;

verus! {

/// The scope of one request: its metadata and the entities resolved so far.
#[derive(Clone, Debug)]
pub struct AuditBuilder {
    pub meta: AuditMeta,
    pub key: Option<u128>,
    pub service: Option<u128>,
    pub user: Option<u128>,
    pub user_key: Option<u128>,
}

/// The record that a scope writes for an event.
pub open spec fn snapshot(b: AuditBuilder, id: u128, now: i64, event: AuditEvent) -> Audit {
    Audit {
        id,
        created_at: now,
        meta: b.meta,
        event,
        key_id: b.key,
        service_id: b.service,
        user_id: b.user,
        user_key_id: b.user_key,
    }
}

/// `new` is `old` with `audit` appended.
pub open spec fn appended(old: StoreView, new: StoreView, audit: Audit) -> bool {
    new == old.with_audits(old.audits.push(audit))
}

impl AuditBuilder {
    /// A scope with nothing resolved yet.
    pub fn new(meta: AuditMeta) -> (r: AuditBuilder)
        ensures
            r.meta == meta,
            r.key is None,
            r.service is None,
            r.user is None,
            r.user_key is None,
    {
        AuditBuilder { meta, key: None, service: None, user: None, user_key: None }
    }

    /// Records the authenticating key.
    pub fn set_key(&mut self, key: Option<&Key>)
        ensures
            *final(self) == (AuditBuilder {
                key: match key {
                    Some(k) => Some(k.id),
                    None => None,
                },
                ..*old(self)
            }),
    {
        self.key = match key {
            Some(k) => Some(k.id),
            None => None,
        };
    }

    /// Records the service.
    pub fn set_service(&mut self, service: Option<&Service>)
        ensures
            *final(self) == (AuditBuilder {
                service: match service {
                    Some(s) => Some(s.id),
                    None => None,
                },
                ..*old(self)
            }),
    {
        self.service = match service {
            Some(s) => Some(s.id),
            None => None,
        };
    }

    /// Records the user.
    pub fn set_user(&mut self, user: Option<&User>)
        ensures
            *final(self) == (AuditBuilder {
                user: match user {
                    Some(u) => Some(u.id),
                    None => None,
                },
                ..*old(self)
            }),
    {
        self.user = match user {
            Some(u) => Some(u.id),
            None => None,
        };
    }

    /// Records the user's key.
    pub fn set_user_key(&mut self, key: Option<&Key>)
        ensures
            *final(self) == (AuditBuilder {
                user_key: match key {
                    Some(k) => Some(k.id),
                    None => None,
                },
                ..*old(self)
            }),
    {
        self.user_key = match key {
            Some(k) => Some(k.id),
            None => None,
        };
    }

    /// Appends a record of an engine decision that snapshots the scope.
    pub fn create_internal(
        &self,
        store: &mut Store,
        type_: AuditType,
        message: AuditMessage,
        now: i64,
    ) -> (r: Audit)
        requires
            old(store).wf(),
        ensures
            final(store).wf(),
            r == snapshot(*self, r.id, now, AuditEvent::Internal(type_, message)),
            appended(old(store)@, final(store)@, r),
            audited(old(store)@, final(store)@),
            !audit_id_taken(old(store)@.audits, r.id),
    {
        self.create(store, AuditEvent::Internal(type_, message), now)
    }

    /// Appends a record of client-supplied data that snapshots the scope.
    pub fn create_unchecked(&self, store: &mut Store, data: &AuditData, now: i64) -> (r: Audit)
        requires
            old(store).wf(),
        ensures
            final(store).wf(),
            r == snapshot(*self, r.id, now, AuditEvent::Client(*data)),
            appended(old(store)@, final(store)@, r),
            audited(old(store)@, final(store)@),
            !audit_id_taken(old(store)@.audits, r.id),
    {
        let d = AuditData { type_: data.type_.clone(), data: data.data.clone() };
        self.create(store, AuditEvent::Client(d), now)
    }

    fn create(&self, store: &mut Store, event: AuditEvent, now: i64) -> (r: Audit)
        requires
            old(store).wf(),
        ensures
            final(store).wf(),
            r == snapshot(*self, r.id, now, event),
            appended(old(store)@, final(store)@, r),
            audited(old(store)@, final(store)@),
            !audit_id_taken(old(store)@.audits, r.id),
    {
        let id = store.fresh_audit_id(crate::secret::random_id());
        let audit = Audit {
            id,
            created_at: now,
            meta: self.meta.copy(),
            event,
            key_id: self.key,
            service_id: self.service,
            user_id: self.user,
            user_key_id: self.user_key,
        };
        let out = Audit {
            id: audit.id,
            created_at: now,
            meta: self.meta.copy(),
            event: audit.event.copy(),
            key_id: self.key,
            service_id: self.service,
            user_id: self.user,
            user_key_id: self.user_key,
        };
        store.audit_insert(audit);
        proof {
            assert(store@.audits.subrange(0, old(store)@.audits.len() as int) =~= old(store)@.audits);
        }
        out
    }
}

} // verus!
