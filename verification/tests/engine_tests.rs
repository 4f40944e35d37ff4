use company_sync::engine::{Call, Completion, Engine, Refreshed};
use company_sync::guard::{resumption, CredentialGuard, Resumption};
use company_sync::models::{Company, Job, RefreshTokenError, RemoteCompany, Timestamp, User};
use company_sync::status::{Operation, Response, Status, SyncError};
use company_sync::store::RecordStore;

fn at(secs: i64) -> Timestamp {
    Timestamp::new(secs, 0)
}

fn user(tag: &str) -> User {
    User {
        access_token: format!("access-{}", tag),
        uuid: "uuid-1".to_string(),
        refresh_token: format!("refresh-{}", tag),
        email: "ann@example.org".to_string(),
    }
}

fn record(name: &str, phone: &str, secs: i64, status: Status) -> Company {
    Company {
        name: name.to_string(),
        phone: phone.to_string(),
        jobs: vec![Job { name: "fitter".to_string(), qualification: "b".to_string() }],
        date_added: at(secs),
        status,
    }
}

fn remote(name: &str, phone: &str, secs: i64) -> RemoteCompany {
    RemoteCompany {
        name: name.to_string(),
        phone: phone.to_string(),
        jobs: vec![Job { name: "fitter".to_string(), qualification: "b".to_string() }],
        date_added: at(secs),
    }
}

fn jobs() -> Vec<Job> {
    vec![Job { name: "fitter".to_string(), qualification: "b".to_string() }]
}

fn engine_with(records: Vec<Company>) -> Engine {
    Engine::new(user("1"), RecordStore::from_records(records).unwrap())
}

fn call(tag: &str, operation: Operation, record: Company) -> Call {
    Call {
        access_token: format!("access-{}", tag),
        user_id: "uuid-1".to_string(),
        operation,
        record,
    }
}

const OFFLINE: Response = Response::Unreachable;

#[test]
fn new_engine_is_idle() {
    let e = engine_with(vec![record("A", "1", 10, Status::Synced)]);
    assert_eq!(e.user(), &user("1"));
    assert_eq!(e.records(), &vec![record("A", "1", 10, Status::Synced)]);
    assert!(!e.is_refreshing());
    assert!(!e.is_in_flight(&at(10)));
    assert!(!e.has_unsynced_work());
}

#[test]
fn create_offline_fail_then_retry_to_synced() {
    let mut e = engine_with(Vec::new());
    let sent = e.submit("Acme".to_string(), "555".to_string(), jobs(), at(100));
    assert_eq!(sent, Some(call("1", Operation::Insert, record("Acme", "555", 100, Status::SyncingInsert))));
    assert_eq!(e.records(), &vec![record("Acme", "555", 100, Status::SyncingInsert)]);
    assert!(e.is_in_flight(&at(100)));

    let done = e.complete(&at(100), Operation::Insert, OFFLINE);
    assert_eq!(done, Completion { start_refresh: false, error: Some(SyncError::Network) });
    assert_eq!(e.records(), &vec![record("Acme", "555", 100, Status::InsertFailed)]);
    assert!(!e.is_in_flight(&at(100)));
    assert!(e.has_unsynced_work());

    let calls = e.retry_all();
    assert_eq!(calls, vec![call("1", Operation::Insert, record("Acme", "555", 100, Status::SyncingInsert))]);
    assert_eq!(e.records(), &vec![record("Acme", "555", 100, Status::SyncingInsert)]);

    let done = e.complete(&at(100), Operation::Insert, Response::Status(201));
    assert_eq!(done, Completion { start_refresh: false, error: None });
    assert_eq!(e.records(), &vec![record("Acme", "555", 100, Status::Synced)]);
    assert!(!e.has_unsynced_work());
    assert!(e.retry_all().is_empty());
}

#[test]
fn stale_copy_is_overwritten_by_reconciliation() {
    let mut device_b = engine_with(vec![record("X", "old", 10, Status::Synced)]);
    let next = device_b.fetched(Response::Status(200), Some(vec![remote("X", "new", 10)]));
    assert!(next.calls.is_empty());
    assert!(!next.start_refresh);
    assert_eq!(next.error, None);
    assert_eq!(device_b.records(), &vec![record("X", "new", 10, Status::Synced)]);
}

#[test]
fn refused_update_is_sent_again_with_new_credentials() {
    let mut e = engine_with(vec![record("X", "1", 10, Status::Synced)]);
    let sent = e.edit(&at(10), "X".to_string(), "2".to_string(), jobs());
    assert_eq!(sent, Some(call("1", Operation::Update, record("X", "2", 10, Status::SyncingEdit))));

    let done = e.complete(&at(10), Operation::Update, Response::Status(401));
    assert_eq!(done, Completion { start_refresh: true, error: Some(SyncError::AuthExpired) });
    assert!(e.is_refreshing());
    assert!(!e.is_in_flight(&at(10)));
    assert_eq!(e.records(), &vec![record("X", "2", 10, Status::SyncingEdit)]);

    let renewed = e.refreshed(Ok(user("2")));
    assert_eq!(
        renewed,
        Refreshed {
            calls: vec![call("2", Operation::Update, record("X", "2", 10, Status::SyncingEdit))],
            next: Resumption::Reconcile,
        }
    );
    assert!(!e.is_refreshing());
    assert!(e.is_in_flight(&at(10)));
    assert_eq!(e.user(), &user("2"));

    let done = e.complete(&at(10), Operation::Update, Response::Status(204));
    assert_eq!(done, Completion { start_refresh: false, error: None });
    assert_eq!(e.records(), &vec![record("X", "2", 10, Status::Synced)]);

    let next = e.fetched(Response::Status(200), Some(vec![remote("X", "2", 10)]));
    assert!(next.calls.is_empty());
    assert_eq!(e.records(), &vec![record("X", "2", 10, Status::Synced)]);
}

#[test]
fn refresh_starts_again_whatever_waits() {
    let mut e = engine_with(vec![
        record("A", "1", 10, Status::SyncingInsert),
        record("B", "2", 20, Status::DeleteFailed),
        record("C", "3", 30, Status::Synced),
        record("D", "4", 40, Status::EditFailed),
    ]);
    assert!(e.retry(&at(40)).is_some());
    assert!(e.fetched(Response::Status(401), None).start_refresh);
    let renewed = e.refreshed(Ok(user("2")));
    assert_eq!(renewed.next, Resumption::Reconcile);
    assert_eq!(
        renewed.calls,
        vec![
            call("2", Operation::Insert, record("A", "1", 10, Status::SyncingInsert)),
            call("2", Operation::Delete, record("B", "2", 20, Status::SyncingDelete)),
        ]
    );
    assert!(e.is_in_flight(&at(10)));
    assert!(e.is_in_flight(&at(20)));
    assert!(!e.is_in_flight(&at(30)));
    assert!(e.is_in_flight(&at(40)));
}

#[test]
fn failed_delete_is_not_resurrected() {
    let mut e = engine_with(vec![record("Y", "1", 10, Status::Synced)]);
    let sent = e.delete(&at(10));
    assert_eq!(sent, Some(call("1", Operation::Delete, record("Y", "1", 10, Status::SyncingDelete))));
    let done = e.complete(&at(10), Operation::Delete, OFFLINE);
    assert_eq!(done.error, Some(SyncError::Network));
    assert_eq!(e.records(), &vec![record("Y", "1", 10, Status::DeleteFailed)]);

    let mut store = RecordStore::from_records(e.records().clone()).unwrap();
    store.merge(&vec![remote("Y", "1", 10)]);
    assert_eq!(store.records(), &vec![record("Y", "1", 10, Status::DeleteFailed)]);

    let next = e.fetched(Response::Status(200), Some(vec![remote("Y", "1", 10)]));
    assert_eq!(next.calls, vec![call("1", Operation::Delete, record("Y", "1", 10, Status::SyncingDelete))]);
    e.complete(&at(10), Operation::Delete, Response::Status(204));
    assert!(e.records().is_empty());
}

#[test]
fn expired_refresh_token_clears_everything() {
    let mut e = engine_with(vec![
        record("A", "1", 10, Status::Synced),
        record("B", "2", 20, Status::EditFailed),
    ]);
    let done = e.complete(&at(20), Operation::Update, Response::Status(401));
    assert!(done.start_refresh);
    let done = e.refreshed(Err(RefreshTokenError::RefreshTokenExpirationError));
    assert_eq!(done, Refreshed { calls: Vec::new(), next: Resumption::SignIn });
    assert_eq!(e.user(), &User::default());
    assert!(e.records().is_empty());
    assert!(!e.is_refreshing());
    assert!(!e.user().is_signed_in());
}

#[test]
fn other_refresh_failures_change_nothing_but_the_guard() {
    for error in [
        RefreshTokenError::NetworkError,
        RefreshTokenError::JsonParseError,
        RefreshTokenError::UnknownError,
    ] {
        let mut e = engine_with(vec![record("B", "2", 20, Status::SyncingEdit)]);
        e.complete(&at(20), Operation::Update, Response::Status(401));
        assert!(e.is_refreshing());
        assert_eq!(e.refreshed(Err(error)), Refreshed { calls: Vec::new(), next: Resumption::Nothing });
        assert!(!e.is_refreshing());
        assert_eq!(e.user(), &user("1"));
        assert_eq!(e.records(), &vec![record("B", "2", 20, Status::SyncingEdit)]);
    }
}

#[test]
fn refused_tokens_start_one_refresh_only() {
    let mut e = engine_with(vec![
        record("A", "1", 10, Status::SyncingInsert),
        record("B", "2", 20, Status::SyncingEdit),
    ]);
    assert!(e.complete(&at(10), Operation::Insert, Response::Status(401)).start_refresh);
    assert!(!e.complete(&at(20), Operation::Update, Response::Status(401)).start_refresh);
    let next = e.fetched(Response::Status(401), None);
    assert!(!next.start_refresh);
    assert_eq!(next.error, Some(SyncError::AuthExpired));
    assert!(e.is_refreshing());
    e.refreshed(Ok(user("2")));
    assert!(e.fetched(Response::Status(401), None).start_refresh);
}

#[test]
fn second_insert_under_a_taken_key_is_refused() {
    let mut e = engine_with(Vec::new());
    assert!(e.submit("A".to_string(), "1".to_string(), jobs(), at(10)).is_some());
    assert!(e.submit("B".to_string(), "2".to_string(), jobs(), at(10)).is_none());
    assert_eq!(e.records(), &vec![record("A", "1", 10, Status::SyncingInsert)]);
    e.complete(&at(10), Operation::Insert, Response::Status(201));
    assert!(e.submit("B".to_string(), "2".to_string(), jobs(), at(10)).is_none());
    assert_eq!(e.records(), &vec![record("A", "1", 10, Status::Synced)]);
}

#[test]
fn conflict_on_insert_fails_the_insert() {
    let mut e = engine_with(Vec::new());
    e.submit("A".to_string(), "1".to_string(), jobs(), at(10));
    let done = e.complete(&at(10), Operation::Insert, Response::Status(409));
    assert_eq!(done, Completion { start_refresh: false, error: Some(SyncError::Conflict) });
    assert_eq!(e.records(), &vec![record("A", "1", 10, Status::InsertFailed)]);
}

#[test]
fn server_errors_fail_each_operation_in_its_own_way() {
    let mut e = engine_with(vec![
        record("A", "1", 10, Status::SyncingInsert),
        record("B", "2", 20, Status::SyncingEdit),
        record("C", "3", 30, Status::SyncingDelete),
    ]);
    assert_eq!(
        e.complete(&at(10), Operation::Insert, Response::Status(500)).error,
        Some(SyncError::Server)
    );
    e.complete(&at(20), Operation::Update, Response::Status(404));
    e.complete(&at(30), Operation::Delete, Response::Status(503));
    assert_eq!(
        e.records(),
        &vec![
            record("A", "1", 10, Status::InsertFailed),
            record("B", "2", 20, Status::EditFailed),
            record("C", "3", 30, Status::DeleteFailed),
        ]
    );
}

#[test]
fn answer_for_a_missing_record_changes_no_record() {
    let mut e = engine_with(vec![record("A", "1", 10, Status::Synced)]);
    let done = e.complete(&at(99), Operation::Update, Response::Status(500));
    assert_eq!(done.error, Some(SyncError::Server));
    assert_eq!(e.records(), &vec![record("A", "1", 10, Status::Synced)]);
}

#[test]
fn edit_of_a_failed_insert_is_sent_as_insert() {
    let mut e = engine_with(vec![record("A", "1", 10, Status::InsertFailed)]);
    let sent = e.edit(&at(10), "A2".to_string(), "9".to_string(), jobs());
    assert_eq!(sent, Some(call("1", Operation::Insert, record("A2", "9", 10, Status::SyncingInsert))));
    assert_eq!(e.records(), &vec![record("A2", "9", 10, Status::SyncingInsert)]);
    assert!(e.edit(&at(77), "Z".to_string(), "0".to_string(), jobs()).is_none());
}

#[test]
fn edit_in_other_states_is_sent_as_update() {
    for status in [Status::Synced, Status::EditFailed, Status::DeleteFailed] {
        let mut e = engine_with(vec![record("A", "1", 10, status)]);
        let sent = e.edit(&at(10), "A2".to_string(), "9".to_string(), jobs());
        assert_eq!(sent, Some(call("1", Operation::Update, record("A2", "9", 10, Status::SyncingEdit))));
    }
}

#[test]
fn one_call_per_record_at_a_time() {
    let mut e = engine_with(vec![
        record("A", "1", 10, Status::InsertFailed),
        record("B", "2", 20, Status::EditFailed),
    ]);
    assert!(e.retry(&at(10)).is_some());
    assert!(e.is_in_flight(&at(10)));
    assert!(e.retry(&at(10)).is_none());
    assert!(e.begin(&at(10), Operation::Delete).is_none());
    assert!(e.delete(&at(10)).is_none());
    assert!(e.edit(&at(10), "Z".to_string(), "0".to_string(), jobs()).is_none());
    let calls = e.retry_all();
    assert_eq!(calls, vec![call("1", Operation::Update, record("B", "2", 20, Status::SyncingEdit))]);
    assert!(e.retry_all().is_empty());
    assert_eq!(
        e.records(),
        &vec![
            record("A", "1", 10, Status::SyncingInsert),
            record("B", "2", 20, Status::SyncingEdit),
        ]
    );
    e.complete(&at(10), Operation::Insert, OFFLINE);
    assert!(!e.is_in_flight(&at(10)));
    assert_eq!(e.retry(&at(10)), Some(call("1", Operation::Insert, record("A", "1", 10, Status::SyncingInsert))));
}

#[test]
fn retry_of_a_synced_or_missing_record_does_nothing() {
    let mut e = engine_with(vec![record("A", "1", 10, Status::Synced)]);
    assert!(e.retry(&at(10)).is_none());
    assert!(e.retry(&at(11)).is_none());
    assert!(e.begin(&at(11), Operation::Update).is_none());
    assert_eq!(e.records(), &vec![record("A", "1", 10, Status::Synced)]);
    assert!(!e.is_in_flight(&at(10)));
}

#[test]
fn retry_all_sends_the_matching_operation_for_each_state() {
    let mut e = engine_with(vec![
        record("A", "1", 10, Status::SyncingInsert),
        record("B", "2", 20, Status::SyncingEdit),
        record("C", "3", 30, Status::SyncingDelete),
        record("D", "4", 40, Status::InsertFailed),
        record("E", "5", 50, Status::EditFailed),
        record("F", "6", 60, Status::DeleteFailed),
        record("G", "7", 70, Status::Synced),
    ]);
    let calls = e.retry_all();
    let operations: Vec<Operation> = calls.iter().map(|c| c.operation).collect();
    assert_eq!(
        operations,
        vec![
            Operation::Insert,
            Operation::Update,
            Operation::Delete,
            Operation::Insert,
            Operation::Update,
            Operation::Delete,
        ]
    );
    let keys: Vec<Timestamp> = calls.iter().map(|c| c.record.date_added).collect();
    assert_eq!(keys, vec![at(10), at(20), at(30), at(40), at(50), at(60)]);
    let statuses: Vec<Status> = e.records().iter().map(|c| c.status).collect();
    assert_eq!(
        statuses,
        vec![
            Status::SyncingInsert,
            Status::SyncingEdit,
            Status::SyncingDelete,
            Status::SyncingInsert,
            Status::SyncingEdit,
            Status::SyncingDelete,
            Status::Synced,
        ]
    );
}

#[test]
fn every_answered_record_settles() {
    let mut e = engine_with(vec![
        record("A", "1", 10, Status::InsertFailed),
        record("B", "2", 20, Status::SyncingEdit),
        record("C", "3", 30, Status::DeleteFailed),
        record("D", "4", 40, Status::Synced),
    ]);
    let calls = e.retry_all();
    assert_eq!(calls.len(), 3);
    e.complete(&at(30), Operation::Delete, Response::Status(200));
    e.complete(&at(10), Operation::Insert, Response::Status(500));
    e.complete(&at(20), Operation::Update, Response::Status(200));
    assert_eq!(
        e.records(),
        &vec![
            record("A", "1", 10, Status::InsertFailed),
            record("B", "2", 20, Status::Synced),
            record("D", "4", 40, Status::Synced),
        ]
    );
    assert!(e.records().iter().all(|c| !c.status.is_syncing()));
    assert!(!e.is_refreshing());
}

#[test]
fn fetch_that_fails_changes_nothing() {
    let mut e = engine_with(vec![record("A", "1", 10, Status::EditFailed)]);
    let next = e.fetched(Response::Status(500), None);
    assert!(next.calls.is_empty());
    assert_eq!(next.error, Some(SyncError::Server));
    let next = e.fetched(OFFLINE, None);
    assert_eq!(next.error, Some(SyncError::Network));
    let next = e.fetched(Response::Status(200), None);
    assert_eq!(next.error, Some(SyncError::Parse));
    assert!(next.calls.is_empty());
    let next = e.fetched(Response::Status(500), Some(vec![remote("Z", "9", 99)]));
    assert!(next.calls.is_empty());
    assert_eq!(e.records(), &vec![record("A", "1", 10, Status::EditFailed)]);
    assert!(!e.is_refreshing());
}

#[test]
fn sign_in_of_another_user_clears_the_records() {
    let mut e = engine_with(vec![record("A", "1", 10, Status::EditFailed)]);
    e.sign_in(user("2"));
    assert_eq!(e.records(), &vec![record("A", "1", 10, Status::EditFailed)]);
    assert_eq!(e.user(), &user("2"));
    let mut other = user("3");
    other.uuid = "uuid-2".to_string();
    e.sign_in(other.clone());
    assert!(e.records().is_empty());
    assert_eq!(e.user(), &other);
}

#[test]
fn sign_out_clears_everything() {
    let mut e = engine_with(vec![record("A", "1", 10, Status::EditFailed)]);
    e.retry_all();
    e.complete(&at(10), Operation::Update, Response::Status(401));
    e.sign_out();
    assert_eq!(e.user(), &User::default());
    assert!(e.records().is_empty());
    assert!(!e.is_refreshing());
    assert!(!e.is_in_flight(&at(10)));
}

#[test]
fn guard_is_edge_triggered() {
    let mut g = CredentialGuard::new();
    assert!(!g.is_refreshing());
    assert!(g.raise());
    assert!(g.is_refreshing());
    assert!(!g.raise());
    assert!(!g.raise());
    g.settle();
    assert!(!g.is_refreshing());
    assert!(g.raise());
}

#[test]
fn what_follows_a_refresh() {
    assert_eq!(resumption(None), Resumption::Reconcile);
    assert_eq!(
        resumption(Some(RefreshTokenError::RefreshTokenExpirationError)),
        Resumption::SignIn
    );
    assert_eq!(resumption(Some(RefreshTokenError::NetworkError)), Resumption::Nothing);
    assert_eq!(resumption(Some(RefreshTokenError::JsonParseError)), Resumption::Nothing);
    assert_eq!(resumption(Some(RefreshTokenError::UnknownError)), Resumption::Nothing);
}

#[test]
fn default_user_is_empty() {
    let u = User::default();
    assert_eq!(u.access_token, "");
    assert_eq!(u.uuid, "");
    assert_eq!(u.refresh_token, "");
    assert_eq!(u.email, "");
    assert!(!u.is_signed_in());
    assert!(user("1").is_signed_in());
    assert_eq!(user("1").clone(), user("1"));
}

#[test]
fn sign_out_waits_for_unsynced_work() {
    let mut e = engine_with(vec![
        record("A", "1", 10, Status::Synced),
        record("B", "2", 20, Status::EditFailed),
    ]);
    assert!(!e.sign_out_if_synced());
    assert_eq!(e.user(), &user("1"));
    assert_eq!(e.records().len(), 2);
    e.retry_all();
    e.complete(&at(20), Operation::Update, Response::Status(200));
    assert!(e.sign_out_if_synced());
    assert_eq!(e.user(), &User::default());
    assert!(e.records().is_empty());
}

#[test]
fn same_person_goes_by_the_id() {
    let a = user("1");
    let mut b = user("2");
    assert!(a.same_person(&b));
    b.uuid = "uuid-2".to_string();
    assert!(!a.same_person(&b));
}

#[test]
fn records_are_equal_field_by_field() {
    let a = record("A", "1", 10, Status::Synced);
    assert!(a == record("A", "1", 10, Status::Synced));
    assert!(a != record("B", "1", 10, Status::Synced));
    assert!(a != record("A", "2", 10, Status::Synced));
    assert!(a != record("A", "1", 11, Status::Synced));
    assert!(a != record("A", "1", 10, Status::EditFailed));
    let mut other_jobs = record("A", "1", 10, Status::Synced);
    other_jobs.jobs.push(Job { name: "x".to_string(), qualification: "y".to_string() });
    assert!(a != other_jobs);
    let mut other_job = record("A", "1", 10, Status::Synced);
    other_job.jobs[0].qualification = "c".to_string();
    assert!(a != other_job);
    let j = Job { name: "x".to_string(), qualification: "y".to_string() };
    assert!(j == Job { name: "x".to_string(), qualification: "y".to_string() });
    assert!(j != Job { name: "x".to_string(), qualification: "z".to_string() });
    assert!(j != Job { name: "w".to_string(), qualification: "y".to_string() });
}

#[test]
fn a_record_stored_without_status_is_synced() {
    assert_eq!(Status::default(), Status::Synced);
}

#[test]
fn a_refused_token_leaves_the_record_waiting_with_the_guard_up() {
    let mut e = engine_with(vec![
        record("A", "1", 10, Status::InsertFailed),
        record("B", "2", 20, Status::EditFailed),
    ]);
    assert_eq!(e.retry_all().len(), 2);
    e.complete(&at(10), Operation::Insert, Response::Status(201));
    e.complete(&at(20), Operation::Update, Response::Status(401));
    assert_eq!(
        e.records(),
        &vec![record("A", "1", 10, Status::Synced), record("B", "2", 20, Status::SyncingEdit)]
    );
    assert!(e.is_refreshing());
    assert!(!e.is_in_flight(&at(10)));
    assert!(!e.is_in_flight(&at(20)));
}

#[test]
fn records_leave_only_through_their_delete() {
    let mut e = engine_with(vec![
        record("A", "1", 10, Status::Synced),
        record("B", "2", 20, Status::Synced),
    ]);
    e.delete(&at(10));
    e.complete(&at(10), Operation::Delete, Response::Status(500));
    assert_eq!(e.records().len(), 2);
    e.retry(&at(10));
    e.complete(&at(10), Operation::Delete, Response::Status(401));
    assert_eq!(e.records().len(), 2);
    e.refreshed(Err(RefreshTokenError::NetworkError));
    e.retry(&at(10));
    e.complete(&at(10), Operation::Delete, Response::Status(204));
    assert_eq!(e.records(), &vec![record("B", "2", 20, Status::Synced)]);
    e.edit(&at(20), "B".to_string(), "3".to_string(), jobs());
    e.complete(&at(20), Operation::Update, Response::Status(200));
    assert_eq!(e.records(), &vec![record("B", "3", 20, Status::Synced)]);
}
