//! The data the engine works on: records, their identity key, and credentials.

use crate::status::Status;
use vstd::prelude::*;
use vstd::std_specs::cmp::PartialEqSpec;

verus! {

/// A creation instant, the identity key of a record: whole seconds since the
/// epoch and the nanoseconds within that second. Keys are ordered by seconds
/// first, then by nanoseconds.
#[derive(Debug, Clone, Copy, PartialEq, Eq, Structural, Hash)]
pub struct Timestamp {
    pub secs: i64,
    pub nanos: u32,
}

impl Timestamp {
    /// Strict order of two instants.
    pub open spec fn before(self, other: Timestamp) -> bool {
        self.secs < other.secs || (self.secs == other.secs && self.nanos < other.nanos)
    }

    /// The instant `nanos` nanoseconds into second `secs`.
    pub fn new(secs: i64, nanos: u32) -> (t: Timestamp)
        ensures
            t.secs == secs,
            t.nanos == nanos,
    {
        Timestamp { secs, nanos }
    }

    /// Whether this instant comes before `other`.
    pub fn is_before(&self, other: &Timestamp) -> (b: bool)
        ensures
            b == self.before(*other),
    {
        self.secs < other.secs || (self.secs == other.secs && self.nanos < other.nanos)
    }

    /// Whether the two instants are the same.
    pub fn same(&self, other: &Timestamp) -> (b: bool)
        ensures
            b == (*self == *other),
    {
        self.secs == other.secs && self.nanos == other.nanos
    }
}

/// A position offered by a company: a plain value without identity.
#[derive(Debug, Eq)]
pub struct Job {
    pub name: String,
    pub qualification: String,
}

/// A job as a mathematical value.
pub struct JobView {
    pub name: Seq<char>,
    pub qualification: Seq<char>,
}

impl View for Job {
    type V = JobView;

    open spec fn view(&self) -> JobView {
        JobView { name: self.name@, qualification: self.qualification@ }
    }
}

impl DeepView for Job {
    type V = JobView;

    open spec fn deep_view(&self) -> JobView {
        self@
    }
}

impl PartialEq for Job {
    fn eq(&self, other: &Job) -> (same: bool) {
        self.name == other.name && self.qualification == other.qualification
    }
}

impl vstd::std_specs::cmp::PartialEqSpecImpl for Job {
    open spec fn obeys_eq_spec() -> bool {
        true
    }

    /// Two jobs are equal where their names and qualifications read the
    /// same.
    open spec fn eq_spec(&self, other: &Job) -> bool {
        self.name@ == other.name@ && self.qualification@ == other.qualification@
    }
}

impl Clone for Job {
    fn clone(&self) -> (copy: Job)
        ensures
            copy@ == self@,
    {
        Job { name: self.name.clone(), qualification: self.qualification.clone() }
    }
}

/// A copy of a list of jobs, element by element.
pub fn clone_jobs(jobs: &Vec<Job>) -> (copy: Vec<Job>)
    ensures
        copy.deep_view() == jobs.deep_view(),
{
    let mut copy: Vec<Job> = Vec::new();
    let mut i: usize = 0;
    while i < jobs.len()
        invariant
            i <= jobs.len(),
            copy.len() == i,
            forall|j: int| 0 <= j < i ==> copy[j]@ == jobs[j]@,
        decreases jobs.len() - i,
    {
        copy.push(jobs[i].clone());
        i += 1;
    }
    assert(copy.deep_view() =~= jobs.deep_view());
    copy
}

/// A record of the list: a company, its jobs, its identity key and where it
/// stands between this device and the server.
#[derive(Debug, Eq)]
pub struct Company {
    pub name: String,
    pub phone: String,
    pub jobs: Vec<Job>,
    pub date_added: Timestamp,
    pub status: Status,
}

/// A record as a mathematical value.
pub struct CompanyView {
    pub name: Seq<char>,
    pub phone: Seq<char>,
    pub jobs: Seq<JobView>,
    pub date_added: Timestamp,
    pub status: Status,
}

impl CompanyView {
    /// The same record under another status.
    pub open spec fn with_status(self, status: Status) -> CompanyView {
        CompanyView { status, ..self }
    }

    /// The same record with the three editable fields replaced.
    pub open spec fn with_fields(
        self,
        name: Seq<char>,
        phone: Seq<char>,
        jobs: Seq<JobView>,
    ) -> CompanyView {
        CompanyView { name, phone, jobs, ..self }
    }
}

impl View for Company {
    type V = CompanyView;

    open spec fn view(&self) -> CompanyView {
        CompanyView {
            name: self.name@,
            phone: self.phone@,
            jobs: self.jobs.deep_view(),
            date_added: self.date_added,
            status: self.status,
        }
    }
}

impl DeepView for Company {
    type V = CompanyView;

    open spec fn deep_view(&self) -> CompanyView {
        self@
    }
}

impl PartialEq for Company {
    fn eq(&self, other: &Company) -> (same: bool) {
        self.name == other.name && self.phone == other.phone && self.jobs == other.jobs
            && self.date_added == other.date_added && self.status == other.status
    }
}

impl vstd::std_specs::cmp::PartialEqSpecImpl for Company {
    open spec fn obeys_eq_spec() -> bool {
        true
    }

    /// Two records are equal where every field reads the same.
    open spec fn eq_spec(&self, other: &Company) -> bool {
        &&& self.name@ == other.name@
        &&& self.phone@ == other.phone@
        &&& PartialEqSpec::eq_spec(&self.jobs, &other.jobs)
        &&& self.date_added == other.date_added
        &&& self.status == other.status
    }
}

/// Records that are equal have the same view, and the other way round.
pub proof fn lemma_company_eq(a: &Company, b: &Company)
    ensures
        a.eq_spec(b) <==> a@ == b@,
{
    if a.eq_spec(b) {
        assert(a.jobs.deep_view() =~= b.jobs.deep_view());
    }
    if a@ == b@ {
        assert(a.jobs.deep_view().len() == a.jobs.len());
        assert(b.jobs.deep_view().len() == b.jobs.len());
        assert forall|i: int| #![auto] 0 <= i < a.jobs.len() implies a.jobs[i].eq_spec(
            &b.jobs[i],
        ) by {
            assert(a.jobs.deep_view()[i] == b.jobs.deep_view()[i]);
        }
    }
}

impl Clone for Company {
    fn clone(&self) -> (copy: Company)
        ensures
            copy@ == self@,
    {
        Company {
            name: self.name.clone(),
            phone: self.phone.clone(),
            jobs: clone_jobs(&self.jobs),
            date_added: self.date_added,
            status: self.status,
        }
    }
}

/// A row as the server returns it. The server keeps no status: a row taken
/// into the local set counts as `Synced`.
#[derive(Debug, PartialEq, Eq)]
pub struct RemoteCompany {
    pub name: String,
    pub phone: String,
    pub jobs: Vec<Job>,
    pub date_added: Timestamp,
}

impl View for RemoteCompany {
    type V = CompanyView;

    /// The row as a local record: its fields, with status `Synced`.
    open spec fn view(&self) -> CompanyView {
        CompanyView {
            name: self.name@,
            phone: self.phone@,
            jobs: self.jobs.deep_view(),
            date_added: self.date_added,
            status: Status::Synced,
        }
    }
}

impl DeepView for RemoteCompany {
    type V = CompanyView;

    open spec fn deep_view(&self) -> CompanyView {
        self@
    }
}

impl Clone for RemoteCompany {
    fn clone(&self) -> (copy: RemoteCompany)
        ensures
            copy@ == self@,
    {
        RemoteCompany {
            name: self.name.clone(),
            phone: self.phone.clone(),
            jobs: clone_jobs(&self.jobs),
            date_added: self.date_added,
        }
    }
}

impl RemoteCompany {
    /// The local record that stands for this row.
    pub fn to_synced(&self) -> (record: Company)
        ensures
            record@ == self@,
    {
        Company {
            name: self.name.clone(),
            phone: self.phone.clone(),
            jobs: clone_jobs(&self.jobs),
            date_added: self.date_added,
            status: Status::Synced,
        }
    }
}

/// The credentials of the signed-in user. The empty value stands for
/// "nobody is signed in".
#[derive(Debug, PartialEq, Eq)]
pub struct User {
    pub access_token: String,
    pub uuid: String,
    pub refresh_token: String,
    pub email: String,
}

/// A user's credentials as a mathematical value.
pub struct UserView {
    pub access_token: Seq<char>,
    pub uuid: Seq<char>,
    pub refresh_token: Seq<char>,
    pub email: Seq<char>,
}

impl UserView {
    /// The value that stands for "nobody is signed in".
    pub open spec fn empty() -> UserView {
        UserView {
            access_token: Seq::empty(),
            uuid: Seq::empty(),
            refresh_token: Seq::empty(),
            email: Seq::empty(),
        }
    }
}

impl View for User {
    type V = UserView;

    open spec fn view(&self) -> UserView {
        UserView {
            access_token: self.access_token@,
            uuid: self.uuid@,
            refresh_token: self.refresh_token@,
            email: self.email@,
        }
    }
}

impl Clone for User {
    fn clone(&self) -> (copy: User)
        ensures
            copy@ == self@,
    {
        User {
            access_token: self.access_token.clone(),
            uuid: self.uuid.clone(),
            refresh_token: self.refresh_token.clone(),
            email: self.email.clone(),
        }
    }
}

impl Default for User {
    fn default() -> (user: User)
        ensures
            user@ == UserView::empty(),
    {
        User {
            access_token: String::new(),
            uuid: String::new(),
            refresh_token: String::new(),
            email: String::new(),
        }
    }
}

impl User {
    /// Whether the two are the same person: their ids read the same.
    pub fn same_person(&self, other: &User) -> (b: bool)
        ensures
            b == (self@.uuid == other@.uuid),
    {
        self.uuid == other.uuid
    }

    /// Whether somebody is signed in: the access token is not empty.
    pub fn is_signed_in(&self) -> (b: bool)
        ensures
            b == (self@.access_token.len() > 0),
    {
        self.access_token.as_str().unicode_len() > 0
    }
}

/// Why a remote call did not succeed.
#[derive(Debug, Clone, Copy, PartialEq, Eq, Structural)]
pub enum Failure {
    AccessTokenExpired,
    RefreshTokenExpired,
    Other,
}

/// Why a credential refresh gave no new credentials.
#[derive(Debug, Clone, Copy, PartialEq, Eq, Structural)]
pub enum RefreshTokenError {
    NetworkError,
    JsonParseError,
    RefreshTokenExpirationError,
    UnknownError,
}

} // verus!
