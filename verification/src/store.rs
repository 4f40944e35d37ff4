//! The local record set: the single source of truth for what the user sees,
//! held without two records under one identity key.

use crate::flight::InFlight;
use crate::models::{Company, CompanyView, Job, RemoteCompany, Timestamp};
use crate::records::{
    ascending, has_unsynced, is_merge, lemma_ascending_unique, lemma_lookup_at,
    lemma_lookup_found, lemma_lookup_insert, lemma_lookup_remove,
    lemma_lookup_update, lookup, reconciled, resumed, unique_keys, waiting, with_fields,
    with_status, without,
};
use crate::status::Status;
use vstd::prelude::*;

verus! {

/// The local record set. Its view is the sequence of its records in the order
/// in which they are shown.
#[derive(Debug)]
pub struct RecordStore {
    records: Vec<Company>,
}

impl View for RecordStore {
    type V = Seq<CompanyView>;

    closed spec fn view(&self) -> Seq<CompanyView> {
        self.records.deep_view()
    }
}

/// What the first pass of reconciliation, over a part of the snapshot, has
/// made of one key: the server's row where the local record yields or is
/// missing, the local record otherwise.
pub open spec fn absorbed(local: Option<CompanyView>, remote: Option<CompanyView>) -> Option<
    CompanyView,
> {
    match (local, remote) {
        (Some(l), Some(r)) => if l.status.yields_to_server() {
            Some(r)
        } else {
            Some(l)
        },
        (Some(l), None) => Some(l),
        (None, r) => r,
    }
}

/// What the second pass of reconciliation keeps of a record: the record
/// stays where the snapshot holds its key, or where its status outlives the
/// absence of its key.
pub open spec fn retained(record: Option<CompanyView>, rows: Seq<CompanyView>) -> Option<
    CompanyView,
> {
    match record {
        Some(c) => if c.status.outlives_absence() || lookup(rows, c.date_added) is Some {
            Some(c)
        } else {
            None
        },
        None => None,
    }
}

/// Puts `record` into the ascending `sorted` at the place its key asks for.
fn insert_ascending(sorted: &mut Vec<Company>, record: Company)
    requires
        ascending(old(sorted).deep_view()),
        lookup(old(sorted).deep_view(), record.date_added) is None,
    ensures
        ascending(final(sorted).deep_view()),
        forall|key: Timestamp| #[trigger]
            lookup(final(sorted).deep_view(), key) == if record.date_added == key {
                Some(record@)
            } else {
                lookup(old(sorted).deep_view(), key)
            },
{
    let ghost before = sorted.deep_view();
    let ghost added = record@;
    proof {
        lemma_lookup_found(before, record.date_added);
        lemma_ascending_unique(before);
    }
    let mut p: usize = 0;
    while p < sorted.len() && sorted[p].date_added.is_before(&record.date_added)
        invariant
            p <= sorted.len(),
            sorted.deep_view() == before,
            forall|i: int| 0 <= i < p ==> before[i].date_added.before(record.date_added),
        decreases sorted.len() - p,
    {
        p += 1;
    }
    sorted.insert(p, record);
    proof {
        let after = sorted.deep_view();
        assert(after =~= before.insert(p as int, added));
        assert forall|i: int, j: int| 0 <= i < j < after.len() implies after[i].date_added.before(
            after[j].date_added,
        ) by {
            if (p as int) < before.len() {
                assert(before[p as int].date_added != added.date_added);
                assert(added.date_added.before(before[p as int].date_added));
            }
            if j < p {
                assert(after[i] == before[i] && after[j] == before[j]);
            } else if j == p {
                assert(after[i] == before[i]);
            } else if i < p {
                assert(after[i] == before[i] && after[j] == before[j - 1]);
            } else if i == p {
                assert(after[j] == before[j - 1]);
                if j - 1 > p {
                    assert(before[p as int].date_added.before(before[j - 1].date_added));
                }
            } else {
                assert(after[i] == before[i - 1] && after[j] == before[j - 1]);
            }
        }
        assert forall|key: Timestamp| #[trigger]
            lookup(after, key) == if added.date_added == key {
                Some(added)
            } else {
                lookup(before, key)
            } by {
            lemma_lookup_insert(before, p as int, added, key);
        }
    }
}

/// Whether the snapshot holds a row under `key`.
fn snapshot_has(remote: &Vec<RemoteCompany>, key: &Timestamp) -> (b: bool)
    ensures
        b == (lookup(remote.deep_view(), *key) is Some),
{
    let ghost rows = remote.deep_view();
    let mut i: usize = 0;
    while i < remote.len()
        invariant
            i <= remote.len(),
            rows == remote.deep_view(),
            forall|j: int| 0 <= j < i ==> rows[j].date_added != *key,
        decreases remote.len() - i,
    {
        if remote[i].date_added == *key {
            proof {
                lemma_lookup_found(rows, *key);
                assert(rows[i as int].date_added == *key);
            }
            return true;
        }
        i += 1;
    }
    proof {
        lemma_lookup_found(rows, *key);
    }
    false
}

/// One more row of the snapshot, seen from one key: what the first pass holds
/// under the row's key after the row, given what it held before.
proof fn lemma_absorb_row(
    local: Option<CompanyView>,
    seen: Option<CompanyView>,
    row: CompanyView,
)
    requires
        seen matches Some(s) ==> s.status == Status::Synced,
        row.status == Status::Synced,
    ensures
        match absorbed(local, seen) {
            Some(c) => absorbed(local, Some(row)) == if c.status.yields_to_server() {
                Some(row)
            } else {
                Some(c)
            },
            None => absorbed(local, Some(row)) == Some(row),
        },
{
}

/// Every row of a snapshot counts as `Synced`, so whatever is found in one
/// does.
proof fn lemma_snapshot_synced(remote: &Vec<RemoteCompany>, upto: int, key: Timestamp)
    requires
        0 <= upto <= remote.len(),
    ensures
        lookup(remote.deep_view().subrange(0, upto), key) matches Some(c) ==> c.status
            == Status::Synced,
{
    let part = remote.deep_view().subrange(0, upto);
    lemma_lookup_found(part, key);
    if lookup(part, key) is Some {
        let i = choose|i: int| 0 <= i < part.len() && part[i] == lookup(part, key)->0;
        assert(part[i] == remote[i]@);
    }
}

impl RecordStore {
    /// No two records share an identity key.
    pub open spec fn wf(&self) -> bool {
        unique_keys(self@)
    }

    /// The empty set.
    pub fn new() -> (store: RecordStore)
        ensures
            store.wf(),
            store@ == Seq::<CompanyView>::empty(),
    {
        let store = RecordStore { records: Vec::new() };
        assert(store@ =~= Seq::<CompanyView>::empty());
        store
    }

    /// The set that holds `records` in their order, where no two of them
    /// share a key; `None` where two do.
    pub fn from_records(records: Vec<Company>) -> (store: Option<RecordStore>)
        ensures
            match store {
                Some(s) => s.wf() && s@ == records.deep_view(),
                None => !unique_keys(records.deep_view()),
            },
    {
        let ghost all = records.deep_view();
        let mut j: usize = 0;
        while j < records.len()
            invariant
                j <= records.len(),
                all == records.deep_view(),
                forall|a: int, b: int|
                    #![trigger all[a], all[b]]
                    0 <= a < b < j ==> all[a].date_added != all[b].date_added,
            decreases records.len() - j,
        {
            let mut i: usize = 0;
            while i < j
                invariant
                    i <= j < records.len(),
                    all == records.deep_view(),
                    forall|a: int|
                        #![trigger all[a]]
                        0 <= a < i ==> all[a].date_added != all[j as int].date_added,
                decreases j - i,
            {
                if records[i].date_added == records[j].date_added {
                    assert(all[i as int].date_added == all[j as int].date_added);
                    return None;
                }
                i += 1;
            }
            j += 1;
        }
        Some(RecordStore { records })
    }

    /// The records, in their order.
    pub fn records(&self) -> (records: &Vec<Company>)
        ensures
            records.deep_view() == self@,
    {
        &self.records
    }

    /// A copy of the records, in their order.
    pub fn to_records(&self) -> (records: Vec<Company>)
        ensures
            records.deep_view() == self@,
    {
        let mut copy: Vec<Company> = Vec::new();
        let mut i: usize = 0;
        while i < self.records.len()
            invariant
                i <= self.records.len(),
                copy.len() == i,
                forall|j: int| 0 <= j < i ==> copy[j]@ == self.records[j]@,
            decreases self.records.len() - i,
        {
            copy.push(self.records[i].clone());
            i += 1;
        }
        assert(copy.deep_view() =~= self@);
        copy
    }

    /// How many records the set holds.
    pub fn len(&self) -> (n: usize)
        ensures
            n == self@.len(),
    {
        self.records.len()
    }

    /// Whether the set holds no record.
    pub fn is_empty(&self) -> (b: bool)
        ensures
            b == (self@.len() == 0),
    {
        self.records.len() == 0
    }

    /// The place of the record under `key`.
    fn position(&self, key: &Timestamp) -> (place: Option<usize>)
        requires
            self.wf(),
        ensures
            match place {
                Some(i) => i < self.records.len() && self@[i as int].date_added == *key && lookup(
                    self@,
                    *key,
                ) == Some(self@[i as int]),
                None => lookup(self@, *key) is None,
            },
    {
        let mut i: usize = 0;
        while i < self.records.len()
            invariant
                self.wf(),
                i <= self.records.len(),
                forall|j: int| 0 <= j < i ==> self@[j].date_added != *key,
            decreases self.records.len() - i,
        {
            if self.records[i].date_added == *key {
                proof {
                    lemma_lookup_at(self@, i as int);
                }
                return Some(i);
            }
            i += 1;
        }
        proof {
            lemma_lookup_found(self@, *key);
        }
        None
    }

    /// The record under `key`, if the set holds one.
    pub fn get(&self, key: &Timestamp) -> (record: Option<&Company>)
        requires
            self.wf(),
        ensures
            match record {
                Some(c) => lookup(self@, *key) == Some(c@),
                None => lookup(self@, *key) is None,
            },
    {
        match self.position(key) {
            Some(i) => Some(&self.records[i]),
            None => None,
        }
    }

    /// Whether the set holds a record under `key`.
    pub fn contains_key(&self, key: &Timestamp) -> (b: bool)
        requires
            self.wf(),
        ensures
            b == (lookup(self@, *key) is Some),
    {
        self.position(key).is_some()
    }

    /// Adds `record` at the end, unless its key is taken: then the set stays
    /// as it is and the answer is `false`.
    pub fn add(&mut self, record: Company) -> (added: bool)
        requires
            old(self).wf(),
        ensures
            final(self).wf(),
            added == (lookup(old(self)@, record.date_added) is None),
            final(self)@ == if added {
                old(self)@.push(record@)
            } else {
                old(self)@
            },
    {
        match self.position(&record.date_added) {
            Some(_) => false,
            None => {
                let ghost added = record@;
                self.records.push(record);
                proof {
                    assert(self@ =~= old(self)@.push(added));
                    lemma_lookup_insert(
                        old(self)@,
                        old(self)@.len() as int,
                        added,
                        added.date_added,
                    );
                    assert(old(self)@.insert(old(self)@.len() as int, added) =~= old(self)@.push(
                        added,
                    ));
                }
                true
            },
        }
    }

    /// Sets the status of the record under `key`; `false` where the set
    /// holds none.
    pub fn set_status(&mut self, key: &Timestamp, status: Status) -> (found: bool)
        requires
            old(self).wf(),
        ensures
            final(self).wf(),
            found == (lookup(old(self)@, *key) is Some),
            final(self)@ == with_status(old(self)@, *key, status),
    {
        match self.position(key) {
            Some(i) => {
                self.records[i].status = status;
                proof {
                    let s = old(self)@;
                    lemma_lookup_update(s, i as int, s[i as int].with_status(status), *key);
                    assert(self@ =~= s.update(i as int, s[i as int].with_status(status)));
                    assert(self@ =~= with_status(s, *key, status));
                }
                true
            },
            None => {
                proof {
                    lemma_lookup_found(self@, *key);
                    assert(self@ =~= with_status(self@, *key, status));
                }
                false
            },
        }
    }

    /// Replaces name, phone and jobs of the record under `key`; `false`
    /// where the set holds none.
    pub fn set_fields(&mut self, key: &Timestamp, name: String, phone: String, jobs: Vec<Job>) -> (found:
        bool)
        requires
            old(self).wf(),
        ensures
            final(self).wf(),
            found == (lookup(old(self)@, *key) is Some),
            final(self)@ == with_fields(old(self)@, *key, name@, phone@, jobs.deep_view()),
    {
        match self.position(key) {
            Some(i) => {
                let ghost s = old(self)@;
                let ghost next = s[i as int].with_fields(name@, phone@, jobs.deep_view());
                self.records[i].name = name;
                self.records[i].phone = phone;
                self.records[i].jobs = jobs;
                proof {
                    lemma_lookup_update(s, i as int, next, *key);
                    assert(self@ =~= s.update(i as int, next));
                    assert(self@ =~= with_fields(s, *key, next.name, next.phone, next.jobs));
                }
                true
            },
            None => {
                proof {
                    lemma_lookup_found(self@, *key);
                    assert(self@ =~= with_fields(self@, *key, name@, phone@, jobs.deep_view()));
                }
                false
            },
        }
    }

    /// Takes the record under `key` out of the set; `false` where the set
    /// holds none.
    pub fn remove(&mut self, key: &Timestamp) -> (found: bool)
        requires
            old(self).wf(),
        ensures
            final(self).wf(),
            found == (lookup(old(self)@, *key) is Some),
            final(self)@ == without(old(self)@, *key),
            lookup(final(self)@, *key) is None,
    {
        match self.position(key) {
            Some(i) => {
                let ghost s = old(self)@;
                self.records.remove(i);
                proof {
                    assert(self@ =~= s.remove(i as int));
                    lemma_lookup_remove(s, i as int, *key);
                    let c = crate::records::index_of(s, *key);
                    if c != i {
                        if c < i {
                            assert(s[c].date_added != s[i as int].date_added);
                        } else {
                            assert(s[i as int].date_added != s[c].date_added);
                        }
                    }
                }
                true
            },
            None => false,
        }
    }

    /// Reconciles the set with the server's snapshot. Under every key the
    /// set then holds what `reconciled` leaves of the local record and the
    /// server's row, and the records stand in ascending order of their keys.
    pub fn merge(&mut self, remote: &Vec<RemoteCompany>)
        requires
            old(self).wf(),
        ensures
            final(self).wf(),
            is_merge(final(self)@, old(self)@, remote.deep_view()),
    {
        let ghost local = old(self)@;
        let ghost rows = remote.deep_view();
        let mut j: usize = 0;
        while j < remote.len()
            invariant
                j <= remote.len(),
                self.wf(),
                rows == remote.deep_view(),
                forall|key: Timestamp| #[trigger]
                    lookup(self@, key) == absorbed(
                        lookup(local, key),
                        lookup(rows.subrange(0, j as int), key),
                    ),
            decreases remote.len() - j,
        {
            let ghost held = self@;
            let ghost row = rows[j as int];
            let ghost seen = rows.subrange(0, j as int);
            let ghost more = rows.subrange(0, j + 1);
            proof {
                assert(more.drop_last() =~= seen);
                assert(more.last() == row);
                assert(row == remote[j as int]@);
                lemma_snapshot_synced(remote, j as int, row.date_added);
                lemma_absorb_row(
                    lookup(local, row.date_added),
                    lookup(seen, row.date_added),
                    row,
                );
                assert(lookup(held, row.date_added) == absorbed(
                    lookup(local, row.date_added),
                    lookup(seen, row.date_added),
                ));
            }
            match self.position(&remote[j].date_added) {
                None => {
                    self.records.push(remote[j].to_synced());
                    proof {
                        assert(self@ =~= held.push(row));
                        assert(held.insert(held.len() as int, row) =~= held.push(row));
                        lemma_lookup_insert(held, held.len() as int, row, row.date_added);
                        assert forall|key: Timestamp| #[trigger]
                            lookup(self@, key) == absorbed(
                                lookup(local, key),
                                lookup(more, key),
                            ) by {
                            lemma_lookup_insert(held, held.len() as int, row, key);
                            assert(lookup(held, key) == absorbed(
                                lookup(local, key),
                                lookup(seen, key),
                            ));
                        }
                    }
                },
                Some(i) => {
                    if self.records[i].status.does_yield_to_server() {
                        self.records[i] = remote[j].to_synced();
                        proof {
                            assert(self@ =~= held.update(i as int, row));
                            lemma_lookup_update(held, i as int, row, row.date_added);
                            assert forall|key: Timestamp| #[trigger]
                                lookup(self@, key) == absorbed(
                                    lookup(local, key),
                                    lookup(more, key),
                                ) by {
                                lemma_lookup_update(held, i as int, row, key);
                                assert(lookup(held, key) == absorbed(
                                    lookup(local, key),
                                    lookup(seen, key),
                                ));
                            }
                        }
                    } else {
                        proof {
                            assert forall|key: Timestamp| #[trigger]
                                lookup(self@, key) == absorbed(
                                    lookup(local, key),
                                    lookup(more, key),
                                ) by {
                                assert(lookup(held, key) == absorbed(
                                    lookup(local, key),
                                    lookup(seen, key),
                                ));
                            }
                        }
                    }
                },
            }
            j += 1;
        }
        let ghost absorbed_all = self@;
        proof {
            assert(rows.subrange(0, j as int) =~= rows);
        }
        let mut kept: Vec<Company> = Vec::new();
        proof {
            assert(kept.deep_view() =~= Seq::<CompanyView>::empty());
        }
        while self.records.len() > 0
            invariant
                self.wf(),
                unique_keys(absorbed_all),
                self.records.len() <= absorbed_all.len(),
                self@ == absorbed_all.subrange(0, self.records.len() as int),
                rows == remote.deep_view(),
                ascending(kept.deep_view()),
                forall|key: Timestamp| #[trigger]
                    lookup(kept.deep_view(), key) == if lookup(self@, key) is None {
                        retained(lookup(absorbed_all, key), rows)
                    } else {
                        None
                    },
            decreases self.records.len(),
        {
            let ghost held = self@;
            let ghost done = kept.deep_view();
            let ghost n = self.records.len() as int;
            let record = self.records.pop().unwrap();
            proof {
                assert(self@ =~= held.drop_last());
                assert(record@ == held.last());
                assert(held.remove(n - 1) =~= held.drop_last());
                assert(held[n - 1] == absorbed_all[n - 1]);
                lemma_lookup_at(absorbed_all, n - 1);
                lemma_lookup_at(held, n - 1);
                assert(lookup(done, record.date_added) is None);
                assert forall|key: Timestamp|
                    lookup(self@, key) == if record.date_added == key {
                        None
                    } else {
                        #[trigger] lookup(held, key)
                    } by {
                    lemma_lookup_remove(held, n - 1, key);
                }
                lemma_lookup_remove(held, n - 1, record.date_added);
            }
            if record.status.does_outlive_absence() || snapshot_has(remote, &record.date_added) {
                insert_ascending(&mut kept, record);
            }
            proof {
                assert forall|key: Timestamp| #[trigger]
                    lookup(kept.deep_view(), key) == if lookup(self@, key) is None {
                        retained(lookup(absorbed_all, key), rows)
                    } else {
                        None
                    } by {
                    assert(lookup(done, key) == if lookup(held, key) is None {
                        retained(lookup(absorbed_all, key), rows)
                    } else {
                        None
                    });
                }
            }
        }
        proof {
            assert(self@ =~= Seq::<CompanyView>::empty());
            assert forall|key: Timestamp| #[trigger]
                lookup(kept.deep_view(), key) == reconciled(
                    lookup(local, key),
                    lookup(rows, key),
                ) by {
                lemma_lookup_found(absorbed_all, key);
                lemma_lookup_found(local, key);
                lemma_lookup_found(rows, key);
                assert(lookup(self@, key) is None);
                assert(lookup(absorbed_all, key) == absorbed(
                    lookup(local, key),
                    lookup(rows, key),
                ));
            }
            lemma_ascending_unique(kept.deep_view());
        }
        self.records = kept;
    }

    /// Puts every record that is not `Synced` and not in `busy` into the
    /// in-flight state of the operation it is waiting for, and returns
    /// copies of those records, in their order.
    pub fn resume(&mut self, busy: &InFlight) -> (restarted: Vec<Company>)
        requires
            old(self).wf(),
        ensures
            final(self).wf(),
            final(self)@ == resumed(old(self)@, busy@),
            restarted.deep_view() == waiting(final(self)@, busy@),
    {
        let ghost before = old(self)@;
        let mut restarted: Vec<Company> = Vec::new();
        let mut i: usize = 0;
        proof {
            assert(self@.subrange(0, 0) =~= Seq::<CompanyView>::empty());
            assert(restarted.deep_view() =~= Seq::<CompanyView>::empty());
        }
        while i < self.records.len()
            invariant
                i <= self.records.len(),
                self@.len() == before.len(),
                forall|j: int| 0 <= j < i ==> self@[j] == resumed(before, busy@)[j],
                forall|j: int| i <= j < before.len() ==> self@[j] == before[j],
                restarted.deep_view() == waiting(self@.subrange(0, i as int), busy@),
            decreases self.records.len() - i,
        {
            let ghost held = self@;
            let ghost sent = restarted.deep_view();
            let pending = self.records[i].status.pending_operation();
            let is_busy = busy.contains(&self.records[i].date_added);
            proof {
                assert(self@.subrange(0, i + 1).drop_last() =~= held.subrange(0, i as int));
            }
            match pending {
                Some(operation) => {
                    if !is_busy {
                        self.records[i].status = operation.syncing_status();
                        let copy = self.records[i].clone();
                        restarted.push(copy);
                        proof {
                            assert(self@ =~= held.update(
                                i as int,
                                resumed(before, busy@)[i as int],
                            ));
                            assert(self@.subrange(0, i + 1).drop_last() =~= held.subrange(
                                0,
                                i as int,
                            ));
                            assert(restarted.deep_view() =~= sent.push(self@[i as int]));
                        }
                    }
                },
                None => {},
            }
            i += 1;
        }
        proof {
            assert(self@.subrange(0, i as int) =~= self@);
            assert(self@ =~= resumed(before, busy@));
            assert forall|a: int, b: int| 0 <= a < b < self@.len() implies self@[a].date_added
                != self@[b].date_added by {
                assert(self@[a].date_added == before[a].date_added);
                assert(self@[b].date_added == before[b].date_added);
            }
        }
        restarted
    }

    /// Empties the set.
    pub fn clear(&mut self)
        ensures
            final(self).wf(),
            final(self)@ == Seq::<CompanyView>::empty(),
    {
        self.records.clear();
        assert(self@ =~= Seq::<CompanyView>::empty());
    }

    /// Whether some record is not `Synced`: work that leaving now would lose.
    pub fn has_unsynced_work(&self) -> (b: bool)
        ensures
            b == has_unsynced(self@),
    {
        let mut i: usize = 0;
        while i < self.records.len()
            invariant
                i <= self.records.len(),
                forall|j: int| 0 <= j < i ==> self@[j].status == Status::Synced,
            decreases self.records.len() - i,
        {
            if !self.records[i].status.is_synced() {
                assert(self@[i as int].status != Status::Synced);
                return true;
            }
            i += 1;
        }
        false
    }
}

} // verus!
