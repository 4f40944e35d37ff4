//! The engine: the signed-in user, the local record set and the credential
//! guard, moved from state to state by what the user does and by what comes
//! back from the server. The engine sends nothing itself: it hands out the
//! calls to make and takes their answers.

use crate::flight::InFlight;
use crate::guard::{resumption, resumption_after, CredentialGuard, Resumption};
use crate::models::{
    Company, CompanyView, Job, JobView, RefreshTokenError, RemoteCompany, Timestamp, User,
    UserView,
};
use crate::records::{
    has_unsynced, lemma_lookup_at, lemma_lookup_found, lemma_lookup_resumed,
    lemma_lookup_with_fields,
    lemma_lookup_with_status, lemma_lookup_without, lemma_merge_of, lemma_waiting_key,
    lemma_waiting_record, lemma_with_same_status, lookup, merge_of, resumed, unique_keys,
    waiting, waiting_keys, with_fields, with_status, without,
};
use crate::status::{Operation, Outcome, Response, Status, SyncError};
use crate::store::RecordStore;
use vstd::prelude::*;

verus! {

/// A remote call to make: the operation, the record as it is sent, and the
/// credentials to send it with.
#[derive(Debug, PartialEq, Eq)]
pub struct Call {
    pub access_token: String,
    pub user_id: String,
    pub operation: Operation,
    pub record: Company,
}

/// A call to make, as a mathematical value.
pub struct CallView {
    pub access_token: Seq<char>,
    pub user_id: Seq<char>,
    pub operation: Operation,
    pub record: CompanyView,
}

impl View for Call {
    type V = CallView;

    open spec fn view(&self) -> CallView {
        CallView {
            access_token: self.access_token@,
            user_id: self.user_id@,
            operation: self.operation,
            record: self.record@,
        }
    }
}

impl DeepView for Call {
    type V = CallView;

    open spec fn deep_view(&self) -> CallView {
        self@
    }
}

/// The call that sends `record` with `operation` in the name of `user`.
pub open spec fn call_for(user: UserView, record: CompanyView, operation: Operation) -> CallView {
    CallView { access_token: user.access_token, user_id: user.uuid, operation, record }
}

/// One call for each of the waiting records, with the operation that its
/// status asks for, in their order.
pub open spec fn calls_for(user: UserView, waiting: Seq<CompanyView>) -> Seq<CallView> {
    Seq::new(
        waiting.len(),
        |i: int| call_for(user, waiting[i], waiting[i].status.pending().unwrap()),
    )
}

/// The operation that sends an edited record: an insert where the record's
/// insert had failed, since the server never took it; an update otherwise.
pub open spec fn edit_operation(status: Status) -> Operation {
    if status == Status::InsertFailed {
        Operation::Insert
    } else {
        Operation::Update
    }
}

/// What the answer to a record's operation asks of the caller.
#[derive(Debug, Clone, Copy, PartialEq, Eq)]
pub struct Completion {
    /// A credential refresh has to start now.
    pub start_refresh: bool,
    /// The error to tell the user of, if any.
    pub error: Option<SyncError>,
}

/// What the end of a credential refresh asks of the caller.
#[derive(Debug, PartialEq, Eq)]
pub struct Refreshed {
    /// The calls to make now, all at once, with the new credentials.
    pub calls: Vec<Call>,
    /// What follows once those calls have been answered.
    pub next: Resumption,
}

/// What the answer to the request for the whole record set asks of the
/// caller.
#[derive(Debug, PartialEq, Eq)]
pub struct Reconciliation {
    /// The calls to make now, all at once.
    pub calls: Vec<Call>,
    /// A credential refresh has to start now.
    pub start_refresh: bool,
    /// The error to tell the user of, if any.
    pub error: Option<SyncError>,
}

/// The synchronisation engine of one device.
#[derive(Debug)]
pub struct Engine {
    user: User,
    store: RecordStore,
    guard: CredentialGuard,
    in_flight: InFlight,
}

/// The engine's state: who is signed in, the local records in their order,
/// whether a credential refresh is under way, and the keys of the records
/// with a call under way.
pub struct EngineView {
    pub user: UserView,
    pub records: Seq<CompanyView>,
    pub refreshing: bool,
    pub in_flight: Set<Timestamp>,
}

impl View for Engine {
    type V = EngineView;

    closed spec fn view(&self) -> EngineView {
        EngineView {
            user: self.user@,
            records: self.store@,
            refreshing: self.guard.refreshing(),
            in_flight: self.in_flight@,
        }
    }
}

impl EngineView {
    /// A call for the record under `key` may start: the set holds the
    /// record, and no call for it is under way.
    pub open spec fn free(self, key: Timestamp) -> bool {
        lookup(self.records, key) is Some && !self.in_flight.contains(key)
    }

    /// The state after the user submitted a new record at the instant `now`:
    /// the record stands at the end, waiting for its insert, and its call is
    /// under way. Where the key is taken, nothing changes.
    pub open spec fn created(
        self,
        name: Seq<char>,
        phone: Seq<char>,
        jobs: Seq<JobView>,
        now: Timestamp,
    ) -> EngineView {
        if lookup(self.records, now) is None && !self.in_flight.contains(now) {
            EngineView {
                records: self.records.push(
                    CompanyView {
                        name,
                        phone,
                        jobs,
                        date_added: now,
                        status: Status::SyncingInsert,
                    },
                ),
                in_flight: self.in_flight.insert(now),
                ..self
            }
        } else {
            self
        }
    }

    /// The state after `operation` was started for the record under `key`.
    /// Where the record is missing or a call for it is under way, nothing
    /// changes.
    pub open spec fn begun(self, key: Timestamp, operation: Operation) -> EngineView {
        if self.free(key) {
            EngineView {
                records: with_status(self.records, key, operation.syncing()),
                in_flight: self.in_flight.insert(key),
                ..self
            }
        } else {
            self
        }
    }

    /// The state after the user edited the record under `key`. Where the
    /// record is missing or a call for it is under way, nothing changes.
    pub open spec fn edited(
        self,
        key: Timestamp,
        name: Seq<char>,
        phone: Seq<char>,
        jobs: Seq<JobView>,
    ) -> EngineView {
        if self.free(key) {
            EngineView {
                records: with_status(
                    with_fields(self.records, key, name, phone, jobs),
                    key,
                    edit_operation(lookup(self.records, key).unwrap().status).syncing(),
                ),
                in_flight: self.in_flight.insert(key),
                ..self
            }
        } else {
            self
        }
    }

    /// The state after `response` came back for `operation` on the record
    /// under `key`: the call is over; the record takes the status that the
    /// answer settles, or leaves the set; a refused access token raises the
    /// guard.
    pub open spec fn answered(
        self,
        key: Timestamp,
        operation: Operation,
        response: Response,
    ) -> EngineView {
        EngineView {
            user: self.user,
            records: match lookup(self.records, key) {
                Some(c) => match operation.settled(c.status, response.outcome()) {
                    Some(status) => with_status(self.records, key, status),
                    None => without(self.records, key),
                },
                None => self.records,
            },
            refreshing: self.refreshing || response.outcome() == Outcome::Deferred,
            in_flight: self.in_flight.remove(key),
        }
    }

    /// Whether `response` starts a credential refresh: it is a refused
    /// access token, and no refresh is under way.
    pub open spec fn starts_refresh(self, response: Response) -> bool {
        response.outcome() == Outcome::Deferred && !self.refreshing
    }

    /// The state after everything that waits, and has no call under way,
    /// was started again.
    pub open spec fn resumed(self) -> EngineView {
        EngineView {
            records: resumed(self.records, self.in_flight),
            in_flight: self.in_flight.union(waiting_keys(self.records, self.in_flight)),
            ..self
        }
    }

    /// The state after the request for the whole record set was answered
    /// with `response` and, where its body could be read, `rows`.
    pub open spec fn fetched(self, response: Response, rows: Option<Seq<CompanyView>>) -> EngineView {
        match response.outcome() {
            Outcome::Done => match rows {
                Some(remote) => (EngineView {
                    records: merge_of(self.records, remote),
                    ..self
                }).resumed(),
                None => self,
            },
            Outcome::Deferred => EngineView { refreshing: true, ..self },
            Outcome::Failed => self,
        }
    }

    /// The state after a credential refresh ended. New credentials replace
    /// the old and everything that waits is started again with them; an
    /// expired refresh token leaves nobody signed in and nothing stored; any
    /// other failure changes nothing. The guard comes down in each case.
    pub open spec fn refreshed(self, result: Result<UserView, RefreshTokenError>) -> EngineView {
        match result {
            Ok(user) => (EngineView { user, refreshing: false, ..self }).resumed(),
            Err(RefreshTokenError::RefreshTokenExpirationError) => EngineView::signed_out(),
            Err(_) => EngineView { refreshing: false, ..self },
        }
    }

    /// The state after `user` signed in: the records of another user, and
    /// the calls for them, are forgotten.
    pub open spec fn signed_in(self, user: UserView) -> EngineView {
        if user.uuid == self.user.uuid {
            EngineView { user, refreshing: false, ..self }
        } else {
            EngineView {
                user,
                records: Seq::empty(),
                refreshing: false,
                in_flight: Set::empty(),
            }
        }
    }

    /// The state with nobody signed in and nothing stored.
    pub open spec fn signed_out() -> EngineView {
        EngineView {
            user: UserView::empty(),
            records: Seq::empty(),
            refreshing: false,
            in_flight: Set::empty(),
        }
    }
}

impl Engine {
    /// No two records share an identity key.
    pub open spec fn wf(&self) -> bool {
        unique_keys(self@.records)
    }

    /// The engine for `user` over the records in `store`, with no refresh
    /// and no call under way.
    pub fn new(user: User, store: RecordStore) -> (engine: Engine)
        requires
            store.wf(),
        ensures
            engine.wf(),
            engine@ == (EngineView {
                user: user@,
                records: store@,
                refreshing: false,
                in_flight: Set::empty(),
            }),
    {
        Engine { user, store, guard: CredentialGuard::new(), in_flight: InFlight::new() }
    }

    /// The user who is signed in.
    pub fn user(&self) -> (user: &User)
        ensures
            user@ == self@.user,
    {
        &self.user
    }

    /// The local records, in their order.
    pub fn records(&self) -> (records: &Vec<Company>)
        ensures
            records.deep_view() == self@.records,
    {
        self.store.records()
    }

    /// Whether a credential refresh is under way.
    pub fn is_refreshing(&self) -> (b: bool)
        ensures
            b == self@.refreshing,
    {
        self.guard.is_refreshing()
    }

    /// Whether a call for the record under `key` is under way.
    pub fn is_in_flight(&self, key: &Timestamp) -> (b: bool)
        ensures
            b == self@.in_flight.contains(*key),
    {
        self.in_flight.contains(key)
    }

    /// Whether some record is not `Synced`: work that signing out now would
    /// lose.
    pub fn has_unsynced_work(&self) -> (b: bool)
        ensures
            b == has_unsynced(self@.records),
    {
        self.store.has_unsynced_work()
    }

    fn call(&self, record: Company, operation: Operation) -> (call: Call)
        ensures
            call@ == call_for(self@.user, record@, operation),
    {
        Call {
            access_token: self.user.access_token.clone(),
            user_id: self.user.uuid.clone(),
            operation,
            record,
        }
    }

    /// Takes a new record into the set, waiting for its insert, and returns
    /// the call that sends it. Where the key `now` is taken, nothing changes
    /// and there is no call.
    pub fn submit(&mut self, name: String, phone: String, jobs: Vec<Job>, now: Timestamp) -> (call:
        Option<Call>)
        requires
            old(self).wf(),
        ensures
            final(self).wf(),
            final(self)@ == old(self)@.created(name@, phone@, jobs.deep_view(), now),
            call is Some <==> lookup(old(self)@.records, now) is None
                && !old(self)@.in_flight.contains(now),
            call matches Some(c) ==> c@ == call_for(
                old(self)@.user,
                CompanyView {
                    name: name@,
                    phone: phone@,
                    jobs: jobs.deep_view(),
                    date_added: now,
                    status: Status::SyncingInsert,
                },
                Operation::Insert,
            ),
    {
        if self.in_flight.contains(&now) {
            return None;
        }
        let record = Company { name, phone, jobs, date_added: now, status: Status::SyncingInsert };
        let copy = record.clone();
        if self.store.add(record) {
            self.in_flight.insert(now);
            proof {
                assert(self@.in_flight.contains(now));
            }
            Some(self.call(copy, Operation::Insert))
        } else {
            None
        }
    }

    /// Starts `operation` for the record under `key`: the record takes the
    /// operation's in-flight status, and the call that sends it comes back.
    /// Where the set holds no such record, or a call for it is under way,
    /// nothing changes and there is no call.
    pub fn begin(&mut self, key: &Timestamp, operation: Operation) -> (call: Option<Call>)
        requires
            old(self).wf(),
        ensures
            final(self).wf(),
            final(self)@ == old(self)@.begun(*key, operation),
            match call {
                Some(x) => old(self)@.free(*key) && x@ == call_for(
                    old(self)@.user,
                    lookup(old(self)@.records, *key).unwrap().with_status(operation.syncing()),
                    operation,
                ),
                None => !old(self)@.free(*key),
            },
    {
        if self.in_flight.contains(key) || !self.store.contains_key(key) {
            return None;
        }
        proof {
            lemma_lookup_with_status(self@.records, *key, operation.syncing(), *key);
        }
        self.store.set_status(key, operation.syncing_status());
        self.in_flight.insert(*key);
        let copy = self.store.get(key).unwrap().clone();
        Some(self.call(copy, operation))
    }

    /// Commits the user's edit of the record under `key` and starts the
    /// operation that sends it: an insert where the record's insert had
    /// failed, an update otherwise. Where the set holds no such record, or
    /// a call for it is under way, nothing changes and there is no call.
    pub fn edit(&mut self, key: &Timestamp, name: String, phone: String, jobs: Vec<Job>) -> (call:
        Option<Call>)
        requires
            old(self).wf(),
        ensures
            final(self).wf(),
            final(self)@ == old(self)@.edited(*key, name@, phone@, jobs.deep_view()),
            match call {
                Some(x) => old(self)@.free(*key) && ({
                    let c = lookup(old(self)@.records, *key).unwrap();
                    x@ == call_for(
                        old(self)@.user,
                        c.with_fields(name@, phone@, jobs.deep_view()).with_status(
                            edit_operation(c.status).syncing(),
                        ),
                        edit_operation(c.status),
                    )
                }),
                None => !old(self)@.free(*key),
            },
    {
        if self.in_flight.contains(key) {
            return None;
        }
        let operation = match self.store.get(key) {
            Some(record) => match record.status {
                Status::InsertFailed => Operation::Insert,
                _ => Operation::Update,
            },
            None => {
                return None;
            },
        };
        proof {
            let s = self@.records;
            let t = with_fields(s, *key, name@, phone@, jobs.deep_view());
            lemma_lookup_with_fields(s, *key, name@, phone@, jobs.deep_view(), *key);
            lemma_lookup_with_status(t, *key, operation.syncing(), *key);
        }
        self.store.set_fields(key, name, phone, jobs);
        self.store.set_status(key, operation.syncing_status());
        self.in_flight.insert(*key);
        let copy = self.store.get(key).unwrap().clone();
        Some(self.call(copy, operation))
    }

    /// Starts the delete of the record under `key`.
    pub fn delete(&mut self, key: &Timestamp) -> (call: Option<Call>)
        requires
            old(self).wf(),
        ensures
            final(self).wf(),
            final(self)@ == old(self)@.begun(*key, Operation::Delete),
            match call {
                Some(x) => old(self)@.free(*key) && x@ == call_for(
                    old(self)@.user,
                    lookup(old(self)@.records, *key).unwrap().with_status(Status::SyncingDelete),
                    Operation::Delete,
                ),
                None => !old(self)@.free(*key),
            },
    {
        self.begin(key, Operation::Delete)
    }

    /// Starts again the operation that the record under `key` is waiting
    /// for. Where the record is `Synced` or missing, or a call for it is
    /// under way, nothing changes and there is no call.
    pub fn retry(&mut self, key: &Timestamp) -> (call: Option<Call>)
        requires
            old(self).wf(),
        ensures
            final(self).wf(),
            match lookup(old(self)@.records, *key) {
                Some(c) => match c.status.pending() {
                    Some(operation) => {
                        &&& final(self)@ == old(self)@.begun(*key, operation)
                        &&& match call {
                            Some(x) => old(self)@.free(*key) && x@ == call_for(
                                old(self)@.user,
                                c.with_status(operation.syncing()),
                                operation,
                            ),
                            None => !old(self)@.free(*key),
                        }
                    },
                    None => final(self)@ == old(self)@ && call is None,
                },
                None => final(self)@ == old(self)@ && call is None,
            },
    {
        let pending = match self.store.get(key) {
            Some(record) => record.status.pending_operation(),
            None => None,
        };
        match pending {
            Some(operation) => self.begin(key, operation),
            None => None,
        }
    }

    /// Starts again every operation that a record is waiting for, and
    /// returns the calls to make, all at once: one for each record that is
    /// not `Synced` and has no call under way, in the order of the set.
    pub fn retry_all(&mut self) -> (calls: Vec<Call>)
        requires
            old(self).wf(),
        ensures
            final(self).wf(),
            final(self)@ == old(self)@.resumed(),
            calls.deep_view() == calls_for(
                final(self)@.user,
                waiting(final(self)@.records, old(self)@.in_flight),
            ),
    {
        let ghost busy = self@.in_flight;
        let restarted = self.store.resume(&self.in_flight);
        let ghost sent = waiting(self@.records, busy);
        let ghost expected = calls_for(self@.user, sent);
        let mut calls: Vec<Call> = Vec::new();
        let mut i: usize = 0;
        while i < restarted.len()
            invariant
                i <= restarted.len(),
                self@.user == old(self)@.user,
                self@.refreshing == old(self)@.refreshing,
                self@.records == resumed(old(self)@.records, busy),
                restarted.deep_view() == sent,
                sent == waiting(self@.records, busy),
                expected == calls_for(self@.user, sent),
                calls.len() == i,
                forall|j: int| 0 <= j < i ==> calls[j]@ == expected[j],
                forall|key: Timestamp|
                    self@.in_flight.contains(key) <==> busy.contains(key) || exists|j: int|
                        0 <= j < i && (#[trigger] sent[j]).date_added == key,
            decreases restarted.len() - i,
        {
            let ghost flying = self@.in_flight;
            proof {
                lemma_waiting_record(self@.records, busy, i as int);
                assert(restarted[i as int]@ == restarted.deep_view()[i as int]);
            }
            let operation = restarted[i].status.pending_operation().unwrap();
            let call = self.call(restarted[i].clone(), operation);
            calls.push(call);
            self.in_flight.insert(restarted[i].date_added);
            let ghost last = i as int;
            i += 1;
            proof {
                assert forall|key: Timestamp|
                    self@.in_flight.contains(key) <==> busy.contains(key) || exists|j: int|
                        0 <= j < i && (#[trigger] sent[j]).date_added == key by {
                    assert(self@.in_flight == flying.insert(sent[last].date_added));
                    assert(flying.contains(key) <==> busy.contains(key) || exists|j: int|
                        0 <= j < last && (#[trigger] sent[j]).date_added == key);
                    if flying.contains(key) && !busy.contains(key) {
                        let j = choose|j: int|
                            0 <= j < last && (#[trigger] sent[j]).date_added == key;
                        assert(0 <= j < i && sent[j].date_added == key);
                    }
                    if key == sent[last].date_added {
                        assert(0 <= last < i && sent[last].date_added == key);
                    }
                    if exists|j: int| 0 <= j < i && (#[trigger] sent[j]).date_added == key {
                        let j = choose|j: int|
                            0 <= j < i && (#[trigger] sent[j]).date_added == key;
                        if j < last {
                            assert(0 <= j < last && sent[j].date_added == key);
                        }
                    }
                }
            }
        }
        proof {
            assert(calls.deep_view() =~= expected);
            let before = old(self)@.records;
            let after = self@.records;
            assert forall|key: Timestamp|
                waiting_keys(after, busy).contains(key) <==> waiting_keys(before, busy).contains(
                    key,
                ) by {
                if waiting_keys(after, busy).contains(key) {
                    let j = choose|j: int|
                        0 <= j < after.len() && (#[trigger] after[j]).date_added == key
                            && after[j].status != Status::Synced;
                    assert(before[j].date_added == key && before[j].status != Status::Synced);
                }
                if waiting_keys(before, busy).contains(key) {
                    let j = choose|j: int|
                        0 <= j < before.len() && (#[trigger] before[j]).date_added == key
                            && before[j].status != Status::Synced;
                    assert(after[j].date_added == key && after[j].status != Status::Synced);
                }
            }
            assert forall|key: Timestamp|
                self@.in_flight.contains(key) <==> busy.union(
                    waiting_keys(before, busy),
                ).contains(key) by {
                if waiting_keys(after, busy).contains(key) {
                    lemma_waiting_key(after, busy, key);
                }
                if self@.in_flight.contains(key) && !busy.contains(key) {
                    let j = choose|j: int|
                        0 <= j < sent.len() && (#[trigger] sent[j]).date_added == key;
                    lemma_waiting_record(after, busy, j);
                }
            }
            assert(self@.in_flight =~= busy.union(waiting_keys(before, busy)));
        }
        calls
    }

    /// Takes the answer to `operation` on the record under `key`.
    pub fn complete(&mut self, key: &Timestamp, operation: Operation, response: Response) -> (done:
        Completion)
        requires
            old(self).wf(),
        ensures
            final(self).wf(),
            final(self)@ == old(self)@.answered(*key, operation, response),
            done.start_refresh == old(self)@.starts_refresh(response),
            done.error == response.error(operation),
    {
        let outcome = response.classify();
        let error = response.error_kind(operation);
        let mut start_refresh = false;
        self.in_flight.remove(key);
        match outcome {
            Outcome::Deferred => {
                proof {
                    if lookup(self@.records, *key) is Some {
                        lemma_with_same_status(
                            self@.records,
                            *key,
                            lookup(self@.records, *key)->0,
                        );
                    }
                }
                start_refresh = self.guard.raise();
            },
            _ => {
                let current = match self.store.get(key) {
                    Some(record) => Some(record.status),
                    None => None,
                };
                match current {
                    Some(status) => match operation.settle(status, outcome) {
                        Some(next) => {
                            self.store.set_status(key, next);
                        },
                        None => {
                            self.store.remove(key);
                        },
                    },
                    None => {},
                }
            },
        }
        Completion { start_refresh, error }
    }

    /// Takes the answer to the request for the whole record set: `response`
    /// and, where its body could be read, the rows it held. An accepted
    /// request with rows reconciles the set with them and starts again
    /// whatever waits; a refused access token raises the guard; anything
    /// else changes nothing.
    pub fn fetched(&mut self, response: Response, rows: Option<Vec<RemoteCompany>>) -> (next:
        Reconciliation)
        requires
            old(self).wf(),
        ensures
            final(self).wf(),
            final(self)@ == old(self)@.fetched(
                response,
                match rows {
                    Some(r) => Some(r.deep_view()),
                    None => None,
                },
            ),
            next.calls.deep_view() == if response.outcome() == Outcome::Done && rows is Some {
                calls_for(
                    final(self)@.user,
                    waiting(final(self)@.records, old(self)@.in_flight),
                )
            } else {
                Seq::empty()
            },
            next.start_refresh == old(self)@.starts_refresh(response),
            next.error == response.fetch_error(rows is Some),
    {
        let error = response.fetch_error_kind(rows.is_some());
        match response.classify() {
            Outcome::Done => match rows {
                Some(remote) => {
                    self.store.merge(&remote);
                    proof {
                        lemma_merge_of(old(self)@.records, remote.deep_view(), self@.records);
                    }
                    let calls = self.retry_all();
                    Reconciliation { calls, start_refresh: false, error }
                },
                None => {
                    let calls: Vec<Call> = Vec::new();
                    assert(calls.deep_view() =~= Seq::<CallView>::empty());
                    Reconciliation { calls, start_refresh: false, error }
                },
            },
            Outcome::Deferred => {
                let start_refresh = self.guard.raise();
                let calls: Vec<Call> = Vec::new();
                assert(calls.deep_view() =~= Seq::<CallView>::empty());
                Reconciliation { calls, start_refresh, error }
            },
            Outcome::Failed => {
                let calls: Vec<Call> = Vec::new();
                assert(calls.deep_view() =~= Seq::<CallView>::empty());
                Reconciliation { calls, start_refresh: false, error }
            },
        }
    }

    /// Takes the end of a credential refresh. New credentials replace the
    /// old, and everything that waits is started again with them: the calls
    /// come back, and once they are answered the server's records are to be
    /// fetched and reconciled. An expired refresh token clears the user and
    /// every record; any other failure leaves both as they are. The guard
    /// comes down in each case.
    pub fn refreshed(&mut self, result: Result<User, RefreshTokenError>) -> (done: Refreshed)
        requires
            old(self).wf(),
        ensures
            final(self).wf(),
            final(self)@ == old(self)@.refreshed(
                match result {
                    Ok(user) => Ok(user@),
                    Err(e) => Err(e),
                },
            ),
            done.next == resumption_after(
                match result {
                    Ok(_) => None,
                    Err(e) => Some(e),
                },
            ),
            done.calls.deep_view() == if result is Ok {
                calls_for(
                    final(self)@.user,
                    waiting(final(self)@.records, old(self)@.in_flight),
                )
            } else {
                Seq::empty()
            },
    {
        self.guard.settle();
        match result {
            Ok(user) => {
                self.user = user;
                let calls = self.retry_all();
                Refreshed { calls, next: resumption(None) }
            },
            Err(error) => {
                match error {
                    RefreshTokenError::RefreshTokenExpirationError => {
                        self.user = User::default();
                        self.store.clear();
                        self.in_flight.clear();
                    },
                    _ => {},
                }
                let calls: Vec<Call> = Vec::new();
                assert(calls.deep_view() =~= Seq::<CallView>::empty());
                Refreshed { calls, next: resumption(Some(error)) }
            },
        }
    }

    /// Signs `user` in. The records stay where the same user signs in
    /// again; those of another user are cleared.
    pub fn sign_in(&mut self, user: User)
        requires
            old(self).wf(),
        ensures
            final(self).wf(),
            final(self)@ == old(self)@.signed_in(user@),
    {
        if !user.same_person(&self.user) {
            self.store.clear();
            self.in_flight.clear();
        }
        self.user = user;
        self.guard.settle();
    }

    /// Signs the user out unless that would lose work: where some record
    /// is not `Synced`, nothing changes and the answer is `false`.
    pub fn sign_out_if_synced(&mut self) -> (done: bool)
        ensures
            old(self).wf() ==> final(self).wf(),
            done == !has_unsynced(old(self)@.records),
            final(self)@ == if done {
                EngineView::signed_out()
            } else {
                old(self)@
            },
    {
        if self.store.has_unsynced_work() {
            false
        } else {
            self.sign_out();
            true
        }
    }

    /// Signs the user out and clears everything local.
    pub fn sign_out(&mut self)
        ensures
            final(self).wf(),
            final(self)@ == EngineView::signed_out(),
    {
        self.user = User::default();
        self.store.clear();
        self.guard.settle();
        self.in_flight.clear();
    }
}

/// The answer to one call: the record it was for, the operation that was
/// sent, and what came back.
#[derive(Debug, Clone, Copy, PartialEq, Eq)]
pub struct Answer {
    pub key: Timestamp,
    pub operation: Operation,
    pub response: Response,
}

impl EngineView {
    /// The state after the answers came in, one after the other.
    pub open spec fn answered_all(self, answers: Seq<Answer>) -> EngineView
        decreases answers.len(),
    {
        if answers.len() == 0 {
            self
        } else {
            let last = answers.last();
            self.answered_all(answers.drop_last()).answered(last.key, last.operation, last.response)
        }
    }
}

/// Some answer is for the record under `key`.
pub open spec fn is_answered(answers: Seq<Answer>, key: Timestamp) -> bool {
    exists|j: int| 0 <= j < answers.len() && #[trigger] answers[j].key == key
}

/// Some answer for the record under `key` is a refused access token.
pub open spec fn is_deferred(answers: Seq<Answer>, key: Timestamp) -> bool {
    exists|j: int|
        0 <= j < answers.len() && #[trigger] answers[j].key == key
            && answers[j].response.outcome() == Outcome::Deferred
}

/// Some answer is a refused access token.
pub open spec fn any_deferred(answers: Seq<Answer>) -> bool {
    exists|j: int|
        0 <= j < answers.len() && (#[trigger] answers[j]).response.outcome() == Outcome::Deferred
}

/// One answer changes the record it is for and no other, keeps the keys
/// apart, and raises the guard exactly where it is a refused access token.
pub proof fn lemma_answered(
    state: EngineView,
    key: Timestamp,
    operation: Operation,
    response: Response,
    other: Timestamp,
)
    requires
        unique_keys(state.records),
    ensures
        unique_keys(state.answered(key, operation, response).records),
        state.answered(key, operation, response).user == state.user,
        state.answered(key, operation, response).refreshing == (state.refreshing
            || response.outcome() == Outcome::Deferred),
        state.answered(key, operation, response).in_flight == state.in_flight.remove(key),
        lookup(state.answered(key, operation, response).records, other) == if other == key {
            match lookup(state.records, key) {
                Some(c) => match operation.settled(c.status, response.outcome()) {
                    Some(status) => Some(c.with_status(status)),
                    None => None,
                },
                None => None,
            }
        } else {
            lookup(state.records, other)
        },
{
    match lookup(state.records, key) {
        Some(c) => match operation.settled(c.status, response.outcome()) {
            Some(status) => {
                lemma_lookup_with_status(state.records, key, status, other);
            },
            None => {
                lemma_lookup_without(state.records, key, other);
            },
        },
        None => {},
    }
}

/// What a run of answers has made of the record under one key.
proof fn lemma_answers_by_key(begun: EngineView, answers: Seq<Answer>, key: Timestamp)
    requires
        unique_keys(begun.records),
    ensures
        unique_keys(begun.answered_all(answers).records),
        begun.answered_all(answers).user == begun.user,
        begun.answered_all(answers).refreshing == (begun.refreshing || any_deferred(answers)),
        begun.answered_all(answers).in_flight.contains(key) == (begun.in_flight.contains(key)
            && !is_answered(answers, key)),
        !is_answered(answers, key) ==> lookup(begun.answered_all(answers).records, key)
            == lookup(begun.records, key),
        is_answered(answers, key) ==> match lookup(begun.answered_all(answers).records, key) {
            Some(c) => c.status == Status::Synced || c.status.failed() || is_deferred(
                answers,
                key,
            ),
            None => true,
        },
        lookup(begun.answered_all(answers).records, key) matches Some(c) ==> lookup(
            begun.records,
            key,
        ) is Some,
    decreases answers.len(),
{
    if answers.len() > 0 {
        let earlier = answers.drop_last();
        let last = answers.last();
        let n = answers.len() - 1;
        let before = begun.answered_all(earlier);
        lemma_answers_by_key(begun, earlier, key);
        lemma_answered(before, last.key, last.operation, last.response, key);
        assert(answers[n] == last);
        assert forall|j: int| 0 <= j < n implies earlier[j] == answers[j] by {}
        if any_deferred(earlier) {
            let j = choose|j: int|
                0 <= j < earlier.len() && (#[trigger] earlier[j]).response.outcome()
                    == Outcome::Deferred;
            assert(answers[j].response.outcome() == Outcome::Deferred);
        }
        if any_deferred(answers) && !any_deferred(earlier) {
            let j = choose|j: int|
                0 <= j < answers.len() && (#[trigger] answers[j]).response.outcome()
                    == Outcome::Deferred;
            if j < n {
                assert(earlier[j].response.outcome() == Outcome::Deferred);
            }
        }
        if is_answered(earlier, key) {
            let j = choose|j: int| 0 <= j < earlier.len() && #[trigger] earlier[j].key == key;
            assert(answers[j].key == key);
        }
        if is_deferred(earlier, key) {
            let j = choose|j: int|
                0 <= j < earlier.len() && #[trigger] earlier[j].key == key
                    && earlier[j].response.outcome() == Outcome::Deferred;
            assert(answers[j].key == key);
        }
        if is_answered(answers, key) && !is_answered(earlier, key) {
            let j = choose|j: int| 0 <= j < answers.len() && #[trigger] answers[j].key == key;
            if j < n {
                assert(earlier[j].key == key);
            }
        }
        if last.key == key {
            assert(answers[n].key == key);
        }
    }
}

/// No record stays in a syncing state unheard. After a retry of everything
/// that waits, and once an answer has come in for each record that was not
/// `Synced`, every record is `Synced` or in a failed state, or its access
/// token was refused and the guard is up, so that a refresh and another
/// retry follow. No call for an answered record is under way any more.
/// Where no answer is a refused access token, no record is left in a
/// syncing state.
pub proof fn lemma_episode_settles(start: EngineView, answers: Seq<Answer>)
    requires
        unique_keys(start.records),
        forall|i: int|
            0 <= i < start.records.len() && (#[trigger] start.records[i]).status
                != Status::Synced ==> is_answered(answers, start.records[i].date_added),
    ensures
        ({
            let end = start.resumed().answered_all(answers);
            &&& unique_keys(end.records)
            &&& end.refreshing == (start.refreshing || any_deferred(answers))
            &&& forall|key: Timestamp|
                is_answered(answers, key) ==> !(#[trigger] end.in_flight.contains(key))
            &&& forall|i: int|
                0 <= i < end.records.len() ==> {
                    let c = #[trigger] end.records[i];
                    c.status == Status::Synced || c.status.failed() || (c.status.syncing()
                        && end.refreshing && is_deferred(answers, c.date_added))
                }
        }),
{
    let begun = start.resumed();
    let end = begun.answered_all(answers);
    assert(unique_keys(begun.records)) by {
        assert forall|a: int, b: int| 0 <= a < b < begun.records.len() implies begun.records[a].date_added
            != begun.records[b].date_added by {
            assert(begun.records[a].date_added == start.records[a].date_added);
            assert(begun.records[b].date_added == start.records[b].date_added);
        }
    }
    lemma_answers_by_key(begun, answers, Timestamp { secs: 0, nanos: 0 });
    assert forall|key: Timestamp| is_answered(answers, key) implies !(
    #[trigger] end.in_flight.contains(key)) by {
        lemma_answers_by_key(begun, answers, key);
    }
    assert forall|i: int| 0 <= i < end.records.len() implies {
        let c = #[trigger] end.records[i];
        c.status == Status::Synced || c.status.failed() || (c.status.syncing() && end.refreshing
            && is_deferred(answers, c.date_added))
    } by {
        let c = end.records[i];
        let key = c.date_added;
        lemma_answers_by_key(begun, answers, key);
        crate::records::lemma_lookup_at(end.records, i);
        lemma_lookup_found(begun.records, key);
        let p = choose|p: int|
            0 <= p < begun.records.len() && begun.records[p] == lookup(begun.records, key)->0;
        assert(begun.records[p].date_added == start.records[p].date_added);
        if start.records[p].status != Status::Synced {
            assert(is_answered(answers, start.records[p].date_added));
            if is_deferred(answers, key) {
                let j = choose|j: int|
                    0 <= j < answers.len() && #[trigger] answers[j].key == key
                        && answers[j].response.outcome() == Outcome::Deferred;
                assert(answers[j].response.outcome() == Outcome::Deferred);
            }
        } else if !is_answered(answers, key) {
            assert(begun.records[p].status == Status::Synced);
        } else if is_deferred(answers, key) {
            let j = choose|j: int|
                0 <= j < answers.len() && #[trigger] answers[j].key == key
                    && answers[j].response.outcome() == Outcome::Deferred;
            assert(answers[j].response.outcome() == Outcome::Deferred);
        }
    }
}

/// One record per key, whatever is inserted twice: a second record under a
/// key that is taken is not created; and where the server answers an insert
/// with 409 because it holds the key already, the one local record under
/// that key becomes `InsertFailed` and the error is a conflict.
pub proof fn lemma_one_record_per_key(
    state: EngineView,
    name: Seq<char>,
    phone: Seq<char>,
    jobs: Seq<JobView>,
    key: Timestamp,
)
    requires
        unique_keys(state.records),
        lookup(state.records, key) is Some,
    ensures
        state.created(name, phone, jobs, key) == state,
        unique_keys(state.answered(key, Operation::Insert, Response::Status(409)).records),
        lookup(state.answered(key, Operation::Insert, Response::Status(409)).records, key)
            == Some(lookup(state.records, key)->0.with_status(Status::InsertFailed)),
        Response::Status(409).error(Operation::Insert) == Some(SyncError::Conflict),
{
    lemma_answered(state, key, Operation::Insert, Response::Status(409), key);
}

/// At most one call per record. While a call for the record under `key` is
/// under way, nothing starts another: starting an operation, editing, and
/// creating a record under that key change nothing, and a retry of
/// everything that waits leaves the record as it is and sends no call for
/// it. A call that starts puts its key among those under way, and only its
/// answer takes it out again.
pub proof fn lemma_single_flight(
    state: EngineView,
    key: Timestamp,
    operation: Operation,
    response: Response,
    name: Seq<char>,
    phone: Seq<char>,
    jobs: Seq<JobView>,
)
    ensures
        state.in_flight.contains(key) ==> {
            &&& state.begun(key, operation) == state
            &&& state.edited(key, name, phone, jobs) == state
            &&& state.created(name, phone, jobs, key) == state
            &&& state.resumed().in_flight.contains(key)
            &&& forall|i: int|
                0 <= i < state.records.len() && (#[trigger] state.records[i]).date_added == key
                    ==> state.resumed().records[i] == state.records[i]
            &&& forall|i: int|
                0 <= i < waiting(state.resumed().records, state.in_flight).len() ==> (
                #[trigger] waiting(state.resumed().records, state.in_flight)[i]).date_added != key
        },
        state.free(key) ==> state.begun(key, operation).in_flight.contains(key)
            && state.edited(key, name, phone, jobs).in_flight.contains(key),
        !state.answered(key, operation, response).in_flight.contains(key),
{
    if state.in_flight.contains(key) {
        let after = state.resumed().records;
        assert forall|i: int| 0 <= i < waiting(after, state.in_flight).len() implies (
        #[trigger] waiting(after, state.in_flight)[i]).date_added != key by {
            lemma_waiting_record(after, state.in_flight, i);
        }
    }
}

/// One refresh per episode. Once a refused access token has started a
/// refresh, no answer that comes in before the refresh has ended starts
/// another, however many access tokens are refused in between.
pub proof fn lemma_one_refresh(
    state: EngineView,
    first: Answer,
    between: Seq<Answer>,
    later: Answer,
)
    requires
        unique_keys(state.records),
        state.starts_refresh(first.response),
    ensures
        !state.answered(first.key, first.operation, first.response).answered_all(
            between,
        ).starts_refresh(later.response),
        !state.answered(first.key, first.operation, first.response).fetched(
            later.response,
            None,
        ).starts_refresh(later.response),
{
    let raised = state.answered(first.key, first.operation, first.response);
    lemma_answered(state, first.key, first.operation, first.response, first.key);
    lemma_answers_by_key(raised, between, first.key);
}

/// A refused access token loses nothing. Where the answer to `operation`
/// on a record in flight is a refused access token and the refresh that
/// follows brings new credentials, the record is still as it was sent, a
/// call for it is under way again, and among the calls handed out is the
/// same operation on the same record with the new access token.
pub proof fn lemma_deferred_is_sent_again(
    state: EngineView,
    key: Timestamp,
    operation: Operation,
    user: UserView,
)
    requires
        unique_keys(state.records),
        state.in_flight.contains(key),
        lookup(state.records, key) matches Some(c) && c.status == operation.syncing(),
    ensures
        ({
            let sent = lookup(state.records, key).unwrap();
            let refused = state.answered(key, operation, Response::Status(401));
            let renewed = refused.refreshed(Ok(user));
            let calls = calls_for(renewed.user, waiting(renewed.records, refused.in_flight));
            &&& refused.refreshing
            &&& !refused.in_flight.contains(key)
            &&& lookup(refused.records, key) == Some(sent)
            &&& !renewed.refreshing
            &&& renewed.user == user
            &&& renewed.in_flight.contains(key)
            &&& lookup(renewed.records, key) == Some(sent)
            &&& exists|i: int|
                0 <= i < calls.len() && #[trigger] calls[i] == call_for(user, sent, operation)
        }),
{
    let sent = lookup(state.records, key).unwrap();
    let refused = state.answered(key, operation, Response::Status(401));
    let renewed = refused.refreshed(Ok(user));
    lemma_answered(state, key, operation, Response::Status(401), key);
    lemma_with_same_status(state.records, key, sent);
    assert(refused.records == state.records);
    let busy = refused.in_flight;
    let before = refused.records;
    let after = renewed.records;
    lemma_lookup_found(before, key);
    let j = choose|j: int| 0 <= j < before.len() && before[j] == sent;
    assert(after[j] == sent);
    assert(unique_keys(after)) by {
        assert forall|a: int, b: int| 0 <= a < b < after.len() implies after[a].date_added
            != after[b].date_added by {
            assert(after[a].date_added == before[a].date_added);
            assert(after[b].date_added == before[b].date_added);
        }
    }
    lemma_lookup_at(after, j);
    assert(waiting_keys(before, busy).contains(key));
    assert(waiting_keys(after, busy).contains(key));
    lemma_waiting_key(after, busy, key);
    let w = waiting(after, busy);
    let i = choose|i: int| 0 <= i < w.len() && (#[trigger] w[i]).date_added == key;
    lemma_waiting_record(after, busy, i);
    let p = choose|p: int| 0 <= p < after.len() && #[trigger] after[p] == w[i];
    lemma_lookup_at(after, p);
    assert(w[i] == sent);
    let calls = calls_for(renewed.user, w);
    assert(calls[i] == call_for(user, sent, operation));
}

/// A record leaves the set only through its delete. Starting an operation,
/// editing, creating another record and starting again what waits keep every
/// record under its key; an answer takes a record out only where it accepts
/// the delete of that record.
pub proof fn lemma_only_delete_removes(
    state: EngineView,
    key: Timestamp,
    operation: Operation,
    response: Response,
    name: Seq<char>,
    phone: Seq<char>,
    jobs: Seq<JobView>,
    other: Timestamp,
)
    requires
        unique_keys(state.records),
        lookup(state.records, other) is Some,
    ensures
        lookup(state.begun(key, operation).records, other) is Some,
        lookup(state.edited(key, name, phone, jobs).records, other) is Some,
        lookup(state.created(name, phone, jobs, key).records, other) is Some,
        lookup(state.resumed().records, other) is Some,
        lookup(state.answered(key, operation, response).records, other) is None <==> other == key
            && operation == Operation::Delete && response.outcome() == Outcome::Done,
{
    lemma_lookup_with_status(state.records, key, operation.syncing(), other);
    lemma_lookup_with_fields(state.records, key, name, phone, jobs, other);
    if state.free(key) {
        let status = edit_operation(lookup(state.records, key).unwrap().status).syncing();
        lemma_lookup_with_fields(state.records, key, name, phone, jobs, key);
        lemma_lookup_with_status(
            with_fields(state.records, key, name, phone, jobs),
            key,
            status,
            other,
        );
    }
    if lookup(state.records, key) is None {
        let record = CompanyView {
            name,
            phone,
            jobs,
            date_added: key,
            status: Status::SyncingInsert,
        };
        assert(state.records.push(record).drop_last() =~= state.records);
    }
    lemma_lookup_resumed(state.records, state.in_flight, other);
    lemma_answered(state, key, operation, response, other);
}

} // verus!
