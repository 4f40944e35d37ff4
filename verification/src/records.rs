//! The mathematical model of a record set: a sequence of records, found by
//! their identity key.

use crate::models::{CompanyView, JobView, Timestamp};
use crate::status::Status;
use vstd::prelude::*;

verus! {

/// No two records of `s` share an identity key.
pub open spec fn unique_keys(s: Seq<CompanyView>) -> bool {
    forall|i: int, j: int|
        #![trigger s[i], s[j]]
        0 <= i < j < s.len() ==> s[i].date_added != s[j].date_added
}

/// The records of `s` stand in strictly ascending order of their keys.
pub open spec fn ascending(s: Seq<CompanyView>) -> bool {
    forall|i: int, j: int|
        #![trigger s[i], s[j]]
        0 <= i < j < s.len() ==> s[i].date_added.before(s[j].date_added)
}

/// The record of `s` with key `key`; where several share the key, the last.
pub open spec fn lookup(s: Seq<CompanyView>, key: Timestamp) -> Option<CompanyView>
    decreases s.len(),
{
    if s.len() == 0 {
        None
    } else if s.last().date_added == key {
        Some(s.last())
    } else {
        lookup(s.drop_last(), key)
    }
}

/// `s` with the status of the record under `key` replaced.
pub open spec fn with_status(s: Seq<CompanyView>, key: Timestamp, status: Status) -> Seq<
    CompanyView,
> {
    Seq::new(
        s.len(),
        |i: int|
            if s[i].date_added == key {
                s[i].with_status(status)
            } else {
                s[i]
            },
    )
}

/// `s` with the name, phone and jobs of the record under `key` replaced.
pub open spec fn with_fields(
    s: Seq<CompanyView>,
    key: Timestamp,
    name: Seq<char>,
    phone: Seq<char>,
    jobs: Seq<JobView>,
) -> Seq<CompanyView> {
    Seq::new(
        s.len(),
        |i: int|
            if s[i].date_added == key {
                s[i].with_fields(name, phone, jobs)
            } else {
                s[i]
            },
    )
}

/// A place of `s` that holds a record under `key`.
pub open spec fn index_of(s: Seq<CompanyView>, key: Timestamp) -> int {
    choose|i: int| 0 <= i < s.len() && s[i].date_added == key
}

/// `s` without the record under `key`, the others in their order.
pub open spec fn without(s: Seq<CompanyView>, key: Timestamp) -> Seq<CompanyView> {
    if lookup(s, key) is Some {
        s.remove(index_of(s, key))
    } else {
        s
    }
}

/// Some record of `s` is not `Synced`.
pub open spec fn has_unsynced(s: Seq<CompanyView>) -> bool {
    exists|i: int| 0 <= i < s.len() && s[i].status != Status::Synced
}

/// What reconciliation leaves under one key, given the local record and the
/// server's row under that key. The server's row replaces a local record
/// that yields to it and fills a gap; a local record that does not yield
/// stays; a local record that the server lacks stays only where its status
/// outlives absence.
pub open spec fn reconciled(local: Option<CompanyView>, remote: Option<CompanyView>) -> Option<
    CompanyView,
> {
    match (local, remote) {
        (Some(l), Some(r)) => if l.status.yields_to_server() {
            Some(r)
        } else {
            Some(l)
        },
        (Some(l), None) => if l.status.outlives_absence() {
            Some(l)
        } else {
            None
        },
        (None, Some(r)) => Some(r),
        (None, None) => None,
    }
}

/// `result` is the reconciliation of `local` with the snapshot `remote`: in
/// ascending order of keys, and under every key what `reconciled` leaves.
/// Where a snapshot holds a key more than once, its last row counts.
pub open spec fn is_merge(
    result: Seq<CompanyView>,
    local: Seq<CompanyView>,
    remote: Seq<CompanyView>,
) -> bool {
    &&& ascending(result)
    &&& forall|key: Timestamp| #[trigger]
        lookup(result, key) == reconciled(lookup(local, key), lookup(remote, key))
}

/// What `lookup` finds is a record of the sequence with the key asked for,
/// and it finds nothing only where no record has that key.
pub proof fn lemma_lookup_found(s: Seq<CompanyView>, key: Timestamp)
    ensures
        match lookup(s, key) {
            Some(c) => c.date_added == key && exists|i: int| 0 <= i < s.len() && s[i] == c,
            None => forall|i: int| 0 <= i < s.len() ==> s[i].date_added != key,
        },
    decreases s.len(),
{
    if s.len() > 0 && s.last().date_added != key {
        lemma_lookup_found(s.drop_last(), key);
        match lookup(s, key) {
            Some(c) => {
                let i = choose|i: int| 0 <= i < s.drop_last().len() && s.drop_last()[i] == c;
                assert(s[i] == c);
            },
            None => {
                assert forall|i: int| 0 <= i < s.len() implies s[i].date_added != key by {
                    if i < s.len() - 1 {
                        assert(s.drop_last()[i] == s[i]);
                    }
                }
            },
        }
    } else if s.len() > 0 {
        assert(s[s.len() - 1] == s.last());
    }
}

/// In a sequence without repeated keys every record is the one found under
/// its key.
pub proof fn lemma_lookup_at(s: Seq<CompanyView>, i: int)
    requires
        unique_keys(s),
        0 <= i < s.len(),
    ensures
        lookup(s, s[i].date_added) == Some(s[i]),
    decreases s.len(),
{
    if i < s.len() - 1 {
        let t = s.drop_last();
        assert(t[i] == s[i]);
        assert(unique_keys(t)) by {
            assert forall|a: int, b: int| 0 <= a < b < t.len() implies t[a].date_added
                != t[b].date_added by {
                assert(t[a] == s[a] && t[b] == s[b]);
            }
        }
        lemma_lookup_at(t, i);
    }
}

/// Ascending order leaves no key twice.
pub proof fn lemma_ascending_unique(s: Seq<CompanyView>)
    requires
        ascending(s),
    ensures
        unique_keys(s),
{
    assert forall|i: int, j: int| 0 <= i < j < s.len() implies s[i].date_added
        != s[j].date_added by {
        assert(s[i].date_added.before(s[j].date_added));
    }
}

/// An ascending sequence is fixed by what is found under each key: two such
/// sequences that answer every lookup alike are the same sequence.
pub proof fn lemma_ascending_same(a: Seq<CompanyView>, b: Seq<CompanyView>)
    requires
        ascending(a),
        ascending(b),
        forall|k: Timestamp| lookup(a, k) == lookup(b, k),
    ensures
        a == b,
    decreases a.len(),
{
    lemma_ascending_unique(a);
    lemma_ascending_unique(b);
    if a.len() == 0 {
        if b.len() > 0 {
            lemma_lookup_at(b, 0);
            assert(lookup(a, b[0].date_added) is None);
        }
        assert(a =~= b);
    } else {
        let x = a.last();
        let n = a.len() - 1;
        lemma_lookup_at(a, n);
        lemma_lookup_found(b, x.date_added);
        let j = choose|j: int| 0 <= j < b.len() && b[j] == x;
        if j != b.len() - 1 {
            let y = b.last();
            lemma_lookup_at(b, b.len() - 1);
            lemma_lookup_found(a, y.date_added);
            let i = choose|i: int| 0 <= i < a.len() && a[i] == y;
            assert(x.date_added.before(y.date_added));
            if i < n {
                assert(a[i].date_added.before(a[n].date_added));
            }
            assert(false);
        }
        let a1 = a.drop_last();
        let b1 = b.drop_last();
        assert(ascending(a1)) by {
            assert forall|p: int, q: int| 0 <= p < q < a1.len() implies a1[p].date_added.before(
                a1[q].date_added,
            ) by {
                assert(a1[p] == a[p] && a1[q] == a[q]);
            }
        }
        assert(ascending(b1)) by {
            assert forall|p: int, q: int| 0 <= p < q < b1.len() implies b1[p].date_added.before(
                b1[q].date_added,
            ) by {
                assert(b1[p] == b[p] && b1[q] == b[q]);
            }
        }
        assert forall|k: Timestamp| lookup(a1, k) == lookup(b1, k) by {
            if k == x.date_added {
                lemma_lookup_found(a1, k);
                lemma_lookup_found(b1, k);
                if lookup(a1, k) is Some {
                    let p = choose|p: int| 0 <= p < a1.len() && a1[p] == lookup(a1, k)->0;
                    assert(a[p] == a1[p]);
                    assert(a[p].date_added.before(a[n].date_added));
                }
                if lookup(b1, k) is Some {
                    let p = choose|p: int| 0 <= p < b1.len() && b1[p] == lookup(b1, k)->0;
                    assert(b[p] == b1[p]);
                    assert(b[p].date_added.before(b[b.len() - 1].date_added));
                }
            } else {
                assert(lookup(a, k) == lookup(a1, k));
                assert(lookup(b, k) == lookup(b1, k));
            }
        }
        lemma_ascending_same(a1, b1);
        assert(a =~= a1.push(x));
        assert(b =~= b1.push(x));
    }
}

/// Replacing a record by one with the same key answers that key with the new
/// record and leaves the other keys as they were.
pub proof fn lemma_lookup_update(s: Seq<CompanyView>, i: int, c: CompanyView, key: Timestamp)
    requires
        unique_keys(s),
        0 <= i < s.len(),
        c.date_added == s[i].date_added,
    ensures
        unique_keys(s.update(i, c)),
        lookup(s.update(i, c), key) == if c.date_added == key {
            Some(c)
        } else {
            lookup(s, key)
        },
{
    let t = s.update(i, c);
    assert(unique_keys(t)) by {
        assert forall|a: int, b: int| 0 <= a < b < t.len() implies t[a].date_added
            != t[b].date_added by {
            assert(t[a].date_added == s[a].date_added && t[b].date_added == s[b].date_added);
        }
    }
    if c.date_added == key {
        lemma_lookup_at(t, i);
    } else {
        lemma_lookup_found(s, key);
        lemma_lookup_found(t, key);
        match lookup(s, key) {
            Some(x) => {
                let j = choose|j: int| 0 <= j < s.len() && s[j] == x;
                assert(t[j] == x);
                lemma_lookup_at(t, j);
            },
            None => {
                if lookup(t, key) is Some {
                    let j = choose|j: int| 0 <= j < t.len() && t[j] == lookup(t, key)->0;
                    assert(s[j].date_added == t[j].date_added);
                }
            },
        }
    }
}

/// Taking a record out answers its key with nothing and leaves the other
/// keys as they were.
pub proof fn lemma_lookup_remove(s: Seq<CompanyView>, i: int, key: Timestamp)
    requires
        unique_keys(s),
        0 <= i < s.len(),
    ensures
        unique_keys(s.remove(i)),
        lookup(s.remove(i), key) == if s[i].date_added == key {
            None
        } else {
            lookup(s, key)
        },
{
    let t = s.remove(i);
    assert forall|a: int| 0 <= a < t.len() implies t[a] == s[if a < i {
        a
    } else {
        a + 1
    }] by {}
    assert(unique_keys(t)) by {
        assert forall|a: int, b: int| 0 <= a < b < t.len() implies t[a].date_added
            != t[b].date_added by {
            let a1 = if a < i {
                a
            } else {
                a + 1
            };
            let b1 = if b < i {
                b
            } else {
                b + 1
            };
            assert(t[a] == s[a1] && t[b] == s[b1]);
        }
    }
    lemma_lookup_found(s, key);
    lemma_lookup_found(t, key);
    if lookup(t, key) is Some {
        let j = choose|j: int| 0 <= j < t.len() && t[j] == lookup(t, key)->0;
        let j1 = if j < i {
            j
        } else {
            j + 1
        };
        assert(t[j] == s[j1]);
        lemma_lookup_at(s, j1);
    } else if s[i].date_added != key {
        if lookup(s, key) is Some {
            let j = choose|j: int| 0 <= j < s.len() && s[j] == lookup(s, key)->0;
            let j1 = if j < i {
                j
            } else {
                j - 1
            };
            assert(t[j1] == s[j]);
        }
    }
}

/// Putting a record with a fresh key anywhere into the sequence answers its
/// key with that record and leaves the other keys as they were.
pub proof fn lemma_lookup_insert(s: Seq<CompanyView>, i: int, c: CompanyView, key: Timestamp)
    requires
        unique_keys(s),
        0 <= i <= s.len(),
        lookup(s, c.date_added) is None,
    ensures
        unique_keys(s.insert(i, c)),
        lookup(s.insert(i, c), key) == if c.date_added == key {
            Some(c)
        } else {
            lookup(s, key)
        },
{
    let t = s.insert(i, c);
    lemma_lookup_found(s, c.date_added);
    assert(t[i] == c);
    assert forall|a: int| 0 <= a < s.len() implies s[a] == t[if a < i {
        a
    } else {
        a + 1
    }] by {}
    assert(unique_keys(t)) by {
        assert forall|a: int, b: int| 0 <= a < b < t.len() implies t[a].date_added
            != t[b].date_added by {
            if a != i && b != i {
                let a1 = if a < i {
                    a
                } else {
                    a - 1
                };
                let b1 = if b < i {
                    b
                } else {
                    b - 1
                };
                assert(t[a] == s[a1] && t[b] == s[b1]);
            } else if a == i {
                assert(t[b] == s[b - 1]);
            } else {
                assert(t[a] == s[a]);
            }
        }
    }
    if c.date_added == key {
        lemma_lookup_at(t, i);
    } else {
        lemma_lookup_found(s, key);
        lemma_lookup_found(t, key);
        match lookup(s, key) {
            Some(x) => {
                let j = choose|j: int| 0 <= j < s.len() && s[j] == x;
                let j1 = if j < i {
                    j
                } else {
                    j + 1
                };
                assert(t[j1] == x);
                lemma_lookup_at(t, j1);
            },
            None => {
                if lookup(t, key) is Some {
                    let j = choose|j: int| 0 <= j < t.len() && t[j] == lookup(t, key)->0;
                    if j != i {
                        let j1 = if j < i {
                            j
                        } else {
                            j - 1
                        };
                        assert(s[j1] == t[j]);
                    }
                }
            },
        }
    }
}

/// `s` with every record that is not `Synced` and not in `busy` put into
/// the in-flight state of the operation it is waiting for.
pub open spec fn resumed(s: Seq<CompanyView>, busy: Set<Timestamp>) -> Seq<CompanyView> {
    Seq::new(
        s.len(),
        |i: int|
            match s[i].status.pending() {
                Some(operation) => if busy.contains(s[i].date_added) {
                    s[i]
                } else {
                    s[i].with_status(operation.syncing())
                },
                None => s[i],
            },
    )
}

/// The records of `s` that are not `Synced` and not in `busy`, in their
/// order.
pub open spec fn waiting(s: Seq<CompanyView>, busy: Set<Timestamp>) -> Seq<CompanyView>
    decreases s.len(),
{
    if s.len() == 0 {
        Seq::empty()
    } else if s.last().status != Status::Synced && !busy.contains(s.last().date_added) {
        waiting(s.drop_last(), busy).push(s.last())
    } else {
        waiting(s.drop_last(), busy)
    }
}

/// The keys of the records of `s` that are not `Synced` and not in `busy`.
pub open spec fn waiting_keys(s: Seq<CompanyView>, busy: Set<Timestamp>) -> Set<Timestamp> {
    Set::new(
        |key: Timestamp|
            !busy.contains(key) && exists|i: int|
                0 <= i < s.len() && (#[trigger] s[i]).date_added == key && s[i].status
                    != Status::Synced,
    )
}

/// Every waiting record is a record of the set that is not `Synced` and not
/// busy, and has an operation to send.
pub proof fn lemma_waiting_record(s: Seq<CompanyView>, busy: Set<Timestamp>, i: int)
    requires
        0 <= i < waiting(s, busy).len(),
    ensures
        waiting(s, busy)[i].status != Status::Synced,
        waiting(s, busy)[i].status.pending() is Some,
        !busy.contains(waiting(s, busy)[i].date_added),
        exists|j: int| 0 <= j < s.len() && #[trigger] s[j] == waiting(s, busy)[i],
        waiting_keys(s, busy).contains(waiting(s, busy)[i].date_added),
    decreases s.len(),
{
    if s.len() > 0 {
        let rest = s.drop_last();
        let last_waits = s.last().status != Status::Synced && !busy.contains(
            s.last().date_added,
        );
        if last_waits && i == waiting(rest, busy).len() {
            assert(s[s.len() - 1] == s.last());
        } else {
            lemma_waiting_record(rest, busy, i);
            let c = waiting(rest, busy)[i];
            let j = choose|j: int| 0 <= j < rest.len() && #[trigger] rest[j] == c;
            assert(s[j] == rest[j]);
        }
    }
}

/// Every key that waits belongs to one of the waiting records.
pub proof fn lemma_waiting_key(s: Seq<CompanyView>, busy: Set<Timestamp>, key: Timestamp)
    requires
        waiting_keys(s, busy).contains(key),
    ensures
        exists|i: int|
            0 <= i < waiting(s, busy).len() && (#[trigger] waiting(s, busy)[i]).date_added == key,
    decreases s.len(),
{
    let j = choose|j: int|
        0 <= j < s.len() && (#[trigger] s[j]).date_added == key && s[j].status != Status::Synced;
    let rest = s.drop_last();
    let w = waiting(s, busy);
    if j == s.len() - 1 {
        assert(w == waiting(rest, busy).push(s.last()));
        assert(w[w.len() - 1].date_added == key);
    } else {
        assert(rest[j] == s[j]);
        assert(waiting_keys(rest, busy).contains(key));
        lemma_waiting_key(rest, busy, key);
        let i = choose|i: int|
            0 <= i < waiting(rest, busy).len() && (#[trigger] waiting(rest, busy)[i]).date_added
                == key;
        assert(w[i] == waiting(rest, busy)[i]);
    }
}

/// The snapshot decides the reconciliation: two results for the same local
/// set and snapshot are the same sequence.
pub proof fn lemma_merge_determined(
    local: Seq<CompanyView>,
    remote: Seq<CompanyView>,
    a: Seq<CompanyView>,
    b: Seq<CompanyView>,
)
    requires
        is_merge(a, local, remote),
        is_merge(b, local, remote),
    ensures
        a == b,
{
    assert forall|k: Timestamp| lookup(a, k) == lookup(b, k) by {
        assert(lookup(a, k) == reconciled(lookup(local, k), lookup(remote, k)));
        assert(lookup(b, k) == reconciled(lookup(local, k), lookup(remote, k)));
    }
    lemma_ascending_same(a, b);
}

/// Reconciling a second time with the same snapshot changes nothing: where
/// `once` is the reconciliation of `local` with `remote` and `twice` that of
/// `once` with `remote`, the two are the same sequence.
pub proof fn lemma_merge_idempotent(
    local: Seq<CompanyView>,
    remote: Seq<CompanyView>,
    once: Seq<CompanyView>,
    twice: Seq<CompanyView>,
)
    requires
        is_merge(once, local, remote),
        is_merge(twice, once, remote),
    ensures
        twice == once,
{
    assert forall|k: Timestamp| lookup(twice, k) == lookup(once, k) by {
        assert(lookup(once, k) == reconciled(lookup(local, k), lookup(remote, k)));
        assert(lookup(twice, k) == reconciled(lookup(once, k), lookup(remote, k)));
    }
    lemma_ascending_same(twice, once);
}

/// A local record whose last operation failed survives reconciliation as it
/// is, whether or not the snapshot holds its key: the result holds it,
/// unchanged, under its key.
pub proof fn lemma_failed_record_survives(
    local: Seq<CompanyView>,
    remote: Seq<CompanyView>,
    result: Seq<CompanyView>,
    i: int,
)
    requires
        unique_keys(local),
        is_merge(result, local, remote),
        0 <= i < local.len(),
        local[i].status.failed(),
    ensures
        lookup(result, local[i].date_added) == Some(local[i]),
        exists|j: int| 0 <= j < result.len() && result[j] == local[i],
{
    let k = local[i].date_added;
    lemma_lookup_at(local, i);
    assert(lookup(result, k) == reconciled(lookup(local, k), lookup(remote, k)));
    lemma_lookup_found(result, k);
}

/// A local record that yields to the server is replaced by the server's row
/// under its key, and a row under a key that the local set lacks is taken in.
pub proof fn lemma_server_row_wins(
    local: Seq<CompanyView>,
    remote: Seq<CompanyView>,
    result: Seq<CompanyView>,
    key: Timestamp,
)
    requires
        is_merge(result, local, remote),
        lookup(remote, key) is Some,
        lookup(local, key) matches Some(l) ==> l.status.yields_to_server(),
    ensures
        lookup(result, key) == lookup(remote, key),
{
    assert(lookup(result, key) == reconciled(lookup(local, key), lookup(remote, key)));
}

/// A local record that the snapshot lacks leaves the set exactly where it is
/// `Synced` or `SyncingDelete`.
pub proof fn lemma_absent_record(
    local: Seq<CompanyView>,
    remote: Seq<CompanyView>,
    result: Seq<CompanyView>,
    i: int,
)
    requires
        unique_keys(local),
        is_merge(result, local, remote),
        0 <= i < local.len(),
        lookup(remote, local[i].date_added) is None,
    ensures
        lookup(result, local[i].date_added) == if local[i].status == Status::Synced
            || local[i].status == Status::SyncingDelete {
            None
        } else {
            Some(local[i])
        },
{
    let k = local[i].date_added;
    lemma_lookup_at(local, i);
    assert(lookup(result, k) == reconciled(lookup(local, k), lookup(remote, k)));
}

/// The reconciliation of `local` with the snapshot `remote`.
pub open spec fn merge_of(local: Seq<CompanyView>, remote: Seq<CompanyView>) -> Seq<CompanyView> {
    choose|result: Seq<CompanyView>| is_merge(result, local, remote)
}

/// Any reconciliation of `local` with `remote` is `merge_of(local, remote)`.
pub proof fn lemma_merge_of(
    local: Seq<CompanyView>,
    remote: Seq<CompanyView>,
    result: Seq<CompanyView>,
)
    requires
        is_merge(result, local, remote),
    ensures
        merge_of(local, remote) == result,
        is_merge(merge_of(local, remote), local, remote),
{
    lemma_merge_determined(local, remote, merge_of(local, remote), result);
}

/// Setting the status under one key changes what is found under that key
/// and nothing else, and keeps the keys apart.
pub proof fn lemma_lookup_with_status(
    s: Seq<CompanyView>,
    key: Timestamp,
    status: Status,
    other: Timestamp,
)
    requires
        unique_keys(s),
    ensures
        unique_keys(with_status(s, key, status)),
        lookup(with_status(s, key, status), other) == if other == key {
            match lookup(s, key) {
                Some(c) => Some(c.with_status(status)),
                None => None,
            }
        } else {
            lookup(s, other)
        },
{
    lemma_lookup_found(s, key);
    match lookup(s, key) {
        Some(c) => {
            let i = choose|i: int| 0 <= i < s.len() && s[i] == c;
            assert(with_status(s, key, status) =~= s.update(i, c.with_status(status))) by {
                assert forall|j: int| 0 <= j < s.len() && j != i implies s[j].date_added
                    != key by {
                    if j < i {
                        assert(s[j].date_added != s[i].date_added);
                    } else {
                        assert(s[i].date_added != s[j].date_added);
                    }
                }
            }
            lemma_lookup_update(s, i, c.with_status(status), other);
        },
        None => {
            assert(with_status(s, key, status) =~= s);
        },
    }
}

/// Replacing the fields under one key changes what is found under that key
/// and nothing else, and keeps the keys apart.
pub proof fn lemma_lookup_with_fields(
    s: Seq<CompanyView>,
    key: Timestamp,
    name: Seq<char>,
    phone: Seq<char>,
    jobs: Seq<JobView>,
    other: Timestamp,
)
    requires
        unique_keys(s),
    ensures
        unique_keys(with_fields(s, key, name, phone, jobs)),
        lookup(with_fields(s, key, name, phone, jobs), other) == if other == key {
            match lookup(s, key) {
                Some(c) => Some(c.with_fields(name, phone, jobs)),
                None => None,
            }
        } else {
            lookup(s, other)
        },
{
    lemma_lookup_found(s, key);
    match lookup(s, key) {
        Some(c) => {
            let i = choose|i: int| 0 <= i < s.len() && s[i] == c;
            assert(with_fields(s, key, name, phone, jobs) =~= s.update(
                i,
                c.with_fields(name, phone, jobs),
            )) by {
                assert forall|j: int| 0 <= j < s.len() && j != i implies s[j].date_added
                    != key by {
                    if j < i {
                        assert(s[j].date_added != s[i].date_added);
                    } else {
                        assert(s[i].date_added != s[j].date_added);
                    }
                }
            }
            lemma_lookup_update(s, i, c.with_fields(name, phone, jobs), other);
        },
        None => {
            assert(with_fields(s, key, name, phone, jobs) =~= s);
        },
    }
}

/// Taking the record under one key out leaves nothing under that key and
/// everything else as it was, and keeps the keys apart.
pub proof fn lemma_lookup_without(s: Seq<CompanyView>, key: Timestamp, other: Timestamp)
    requires
        unique_keys(s),
    ensures
        unique_keys(without(s, key)),
        lookup(without(s, key), other) == if other == key {
            None
        } else {
            lookup(s, other)
        },
{
    lemma_lookup_found(s, key);
    if lookup(s, key) is Some {
        let i = index_of(s, key);
        lemma_lookup_remove(s, i, other);
    }
}

/// Setting the status that a record already has changes nothing.
pub proof fn lemma_with_same_status(s: Seq<CompanyView>, key: Timestamp, c: CompanyView)
    requires
        unique_keys(s),
        lookup(s, key) == Some(c),
    ensures
        with_status(s, key, c.status) == s,
{
    lemma_lookup_found(s, key);
    assert forall|j: int| 0 <= j < s.len() && s[j].date_added == key implies s[j] == c by {
        lemma_lookup_at(s, j);
    }
    assert(with_status(s, key, c.status) =~= s);
}

/// Reconciliation drops a local record only where the snapshot lacks its
/// key and the record is `Synced` or `SyncingDelete`; every other local
/// record is still found under its key.
pub proof fn lemma_merge_drops_only_settled(
    local: Seq<CompanyView>,
    remote: Seq<CompanyView>,
    result: Seq<CompanyView>,
    i: int,
)
    requires
        unique_keys(local),
        is_merge(result, local, remote),
        0 <= i < local.len(),
    ensures
        lookup(result, local[i].date_added) is None <==> lookup(remote, local[i].date_added)
            is None && (local[i].status == Status::Synced || local[i].status
            == Status::SyncingDelete),
{
    let k = local[i].date_added;
    lemma_lookup_at(local, i);
    assert(lookup(result, k) == reconciled(lookup(local, k), lookup(remote, k)));
}

/// Starting again what waits changes statuses only: under every key the
/// same record is found, in the in-flight state of its operation where it
/// waited and was not busy.
pub proof fn lemma_lookup_resumed(s: Seq<CompanyView>, busy: Set<Timestamp>, key: Timestamp)
    requires
        unique_keys(s),
    ensures
        unique_keys(resumed(s, busy)),
        lookup(resumed(s, busy), key) == match lookup(s, key) {
            Some(c) => match c.status.pending() {
                Some(operation) => if busy.contains(key) {
                    Some(c)
                } else {
                    Some(c.with_status(operation.syncing()))
                },
                None => Some(c),
            },
            None => None,
        },
{
    let t = resumed(s, busy);
    assert(unique_keys(t)) by {
        assert forall|a: int, b: int| 0 <= a < b < t.len() implies t[a].date_added
            != t[b].date_added by {
            assert(t[a].date_added == s[a].date_added && t[b].date_added == s[b].date_added);
        }
    }
    lemma_lookup_found(s, key);
    lemma_lookup_found(t, key);
    match lookup(s, key) {
        Some(c) => {
            let i = choose|i: int| 0 <= i < s.len() && s[i] == c;
            assert(t[i].date_added == key);
            lemma_lookup_at(t, i);
        },
        None => {
            if lookup(t, key) is Some {
                let i = choose|i: int| 0 <= i < t.len() && t[i] == lookup(t, key)->0;
                assert(s[i].date_added == t[i].date_added);
            }
        },
    }
}

} // verus!
