//! The per-record lifecycle tag, the remote operation it calls for, and how
//! the answer to that operation moves the tag.

use vstd::prelude::*;

verus! {

/// Where a record stands between the local set and the server.
#[derive(Debug, Clone, Copy, PartialEq, Eq, Structural, Hash)]
pub enum Status {
    SyncingInsert,
    SyncingEdit,
    SyncingDelete,
    InsertFailed,
    EditFailed,
    DeleteFailed,
    Synced,
}

impl Default for Status {
    /// A record that was stored without a status is `Synced`.
    fn default() -> (status: Status)
        ensures
            status == Status::Synced,
    {
        Status::Synced
    }
}

/// One of the three remote mutation calls.
#[derive(Debug, Clone, Copy, PartialEq, Eq, Structural, Hash)]
pub enum Operation {
    Insert,
    Update,
    Delete,
}

/// What came back from a remote call: an HTTP status code, or nothing at all
/// because the request never reached the server or its answer was lost.
#[derive(Debug, Clone, Copy, PartialEq, Eq, Structural)]
pub enum Response {
    Status(u16),
    Unreachable,
}

/// What a response means for the operation that was sent.
#[derive(Debug, Clone, Copy, PartialEq, Eq, Structural)]
pub enum Outcome {
    /// The server accepted the operation.
    Done,
    /// The access token was refused; the operation waits for new credentials.
    Deferred,
    /// The operation was refused for another reason, or never arrived.
    Failed,
}

/// The kinds of error the engine tells apart.
#[derive(Debug, Clone, Copy, PartialEq, Eq, Structural)]
pub enum SyncError {
    /// The request never reached the server, or its answer was lost.
    Network,
    /// The access token was refused (401).
    AuthExpired,
    /// The identity key is already taken on the server (409 on insert).
    Conflict,
    /// Any other answer outside 2xx.
    Server,
    /// A 2xx answer whose body could not be read.
    Parse,
}

/// The HTTP status codes that count as success: 200 to 299.
pub open spec fn is_success(code: u16) -> bool {
    200 <= code < 300
}

impl Response {
    /// What this response means for the operation it answers: a status from
    /// 200 to 299 accepts it, 401 defers it, anything else fails it.
    pub open spec fn outcome(self) -> Outcome {
        match self {
            Response::Status(code) => if is_success(code) {
                Outcome::Done
            } else if code == 401 {
                Outcome::Deferred
            } else {
                Outcome::Failed
            },
            Response::Unreachable => Outcome::Failed,
        }
    }

    /// The error this response stands for when it answers `operation`, if any.
    pub open spec fn error(self, operation: Operation) -> Option<SyncError> {
        match self {
            Response::Status(code) => if is_success(code) {
                None
            } else if code == 401 {
                Some(SyncError::AuthExpired)
            } else if code == 409 && operation == Operation::Insert {
                Some(SyncError::Conflict)
            } else {
                Some(SyncError::Server)
            },
            Response::Unreachable => Some(SyncError::Network),
        }
    }

    /// The error this response stands for when it answers the request for
    /// the whole record set, whose body was `readable` or not.
    pub open spec fn fetch_error(self, readable: bool) -> Option<SyncError> {
        match self {
            Response::Status(code) => if is_success(code) {
                if readable {
                    None
                } else {
                    Some(SyncError::Parse)
                }
            } else if code == 401 {
                Some(SyncError::AuthExpired)
            } else {
                Some(SyncError::Server)
            },
            Response::Unreachable => Some(SyncError::Network),
        }
    }

    /// The error this response stands for when it answers the request for
    /// the whole record set.
    pub fn fetch_error_kind(self, readable: bool) -> (kind: Option<SyncError>)
        ensures
            kind == self.fetch_error(readable),
    {
        match self {
            Response::Status(code) => {
                if 200 <= code && code < 300 {
                    if readable {
                        None
                    } else {
                        Some(SyncError::Parse)
                    }
                } else if code == 401 {
                    Some(SyncError::AuthExpired)
                } else {
                    Some(SyncError::Server)
                }
            },
            Response::Unreachable => Some(SyncError::Network),
        }
    }

    /// What this response means for the operation it answers.
    pub fn classify(self) -> (outcome: Outcome)
        ensures
            outcome == self.outcome(),
    {
        match self {
            Response::Status(code) => {
                if 200 <= code && code < 300 {
                    Outcome::Done
                } else if code == 401 {
                    Outcome::Deferred
                } else {
                    Outcome::Failed
                }
            },
            Response::Unreachable => Outcome::Failed,
        }
    }

    /// The error this response stands for when it answers `operation`.
    pub fn error_kind(self, operation: Operation) -> (kind: Option<SyncError>)
        ensures
            kind == self.error(operation),
    {
        match self {
            Response::Status(code) => {
                if 200 <= code && code < 300 {
                    None
                } else if code == 401 {
                    Some(SyncError::AuthExpired)
                } else if code == 409 && operation == Operation::Insert {
                    Some(SyncError::Conflict)
                } else {
                    Some(SyncError::Server)
                }
            },
            Response::Unreachable => Some(SyncError::Network),
        }
    }
}

impl Operation {
    /// The status a record carries while this operation is in flight.
    pub open spec fn syncing(self) -> Status {
        match self {
            Operation::Insert => Status::SyncingInsert,
            Operation::Update => Status::SyncingEdit,
            Operation::Delete => Status::SyncingDelete,
        }
    }

    /// The status a record carries after this operation was refused or lost.
    pub open spec fn failed(self) -> Status {
        match self {
            Operation::Insert => Status::InsertFailed,
            Operation::Update => Status::EditFailed,
            Operation::Delete => Status::DeleteFailed,
        }
    }

    /// The status of a record after this operation was answered, `None` where
    /// the record leaves the set. A deferred operation leaves `current` as it
    /// is; an accepted delete removes the record.
    pub open spec fn settled(self, current: Status, outcome: Outcome) -> Option<Status> {
        match outcome {
            Outcome::Done => match self {
                Operation::Delete => None,
                _ => Some(Status::Synced),
            },
            Outcome::Deferred => Some(current),
            Outcome::Failed => Some(self.failed()),
        }
    }

    /// The status a record carries while this operation is in flight.
    pub fn syncing_status(self) -> (s: Status)
        ensures
            s == self.syncing(),
    {
        match self {
            Operation::Insert => Status::SyncingInsert,
            Operation::Update => Status::SyncingEdit,
            Operation::Delete => Status::SyncingDelete,
        }
    }

    /// The status a record carries after this operation was refused or lost.
    pub fn failed_status(self) -> (s: Status)
        ensures
            s == self.failed(),
    {
        match self {
            Operation::Insert => Status::InsertFailed,
            Operation::Update => Status::EditFailed,
            Operation::Delete => Status::DeleteFailed,
        }
    }

    /// The status of a record after this operation was answered, `None`
    /// where the record leaves the set.
    pub fn settle(self, current: Status, outcome: Outcome) -> (next: Option<Status>)
        ensures
            next == self.settled(current, outcome),
    {
        match outcome {
            Outcome::Done => match self {
                Operation::Delete => None,
                _ => Some(Status::Synced),
            },
            Outcome::Deferred => Some(current),
            Outcome::Failed => Some(self.failed_status()),
        }
    }
}

impl Status {
    /// An operation for this record is in flight.
    pub open spec fn syncing(self) -> bool {
        self == Status::SyncingInsert || self == Status::SyncingEdit
            || self == Status::SyncingDelete
    }

    /// The last operation for this record was refused or lost.
    pub open spec fn failed(self) -> bool {
        self == Status::InsertFailed || self == Status::EditFailed || self == Status::DeleteFailed
    }

    /// The operation that brings this record to the server, `None` for a
    /// record that is already there.
    pub open spec fn pending(self) -> Option<Operation> {
        match self {
            Status::SyncingInsert | Status::InsertFailed => Some(Operation::Insert),
            Status::SyncingEdit | Status::EditFailed => Some(Operation::Update),
            Status::SyncingDelete | Status::DeleteFailed => Some(Operation::Delete),
            Status::Synced => None,
        }
    }

    /// The server's copy replaces a local record in one of these states.
    pub open spec fn yields_to_server(self) -> bool {
        self == Status::Synced || self == Status::SyncingInsert || self == Status::SyncingEdit
    }

    /// A local record that the server does not have stays in the set in one
    /// of these states: every state but `Synced` and `SyncingDelete`.
    pub open spec fn outlives_absence(self) -> bool {
        self != Status::Synced && self != Status::SyncingDelete
    }

    /// The text shown for this status.
    pub open spec fn label_text(self) -> Seq<char> {
        match self {
            Status::SyncingInsert => "Syncing Insert"@,
            Status::SyncingEdit => "Syncing Edit"@,
            Status::SyncingDelete => "Syncing Delete"@,
            Status::InsertFailed => "Insert failed"@,
            Status::EditFailed => "Edit failed"@,
            Status::DeleteFailed => "Delete failed"@,
            Status::Synced => "Synced"@,
        }
    }

    /// Whether an operation for this record is in flight.
    pub fn is_syncing(self) -> (b: bool)
        ensures
            b == self.syncing(),
    {
        match self {
            Status::SyncingInsert | Status::SyncingEdit | Status::SyncingDelete => true,
            _ => false,
        }
    }

    /// Whether the last operation for this record was refused or lost.
    pub fn is_failed(self) -> (b: bool)
        ensures
            b == self.failed(),
    {
        match self {
            Status::InsertFailed | Status::EditFailed | Status::DeleteFailed => true,
            _ => false,
        }
    }

    /// Whether the record is on the server as it is here.
    pub fn is_synced(self) -> (b: bool)
        ensures
            b == (self == Status::Synced),
    {
        match self {
            Status::Synced => true,
            _ => false,
        }
    }

    /// The operation that brings this record to the server.
    pub fn pending_operation(self) -> (operation: Option<Operation>)
        ensures
            operation == self.pending(),
    {
        match self {
            Status::SyncingInsert | Status::InsertFailed => Some(Operation::Insert),
            Status::SyncingEdit | Status::EditFailed => Some(Operation::Update),
            Status::SyncingDelete | Status::DeleteFailed => Some(Operation::Delete),
            Status::Synced => None,
        }
    }

    /// Whether the server's copy replaces a local record in this state.
    pub fn does_yield_to_server(self) -> (b: bool)
        ensures
            b == self.yields_to_server(),
    {
        match self {
            Status::Synced | Status::SyncingInsert | Status::SyncingEdit => true,
            _ => false,
        }
    }

    /// Whether a local record in this state stays where the server lacks it.
    pub fn does_outlive_absence(self) -> (b: bool)
        ensures
            b == self.outlives_absence(),
    {
        match self {
            Status::Synced | Status::SyncingDelete => false,
            _ => true,
        }
    }

    /// The text shown for this status.
    pub fn label(self) -> (text: String)
        ensures
            text@ == self.label_text(),
    {
        match self {
            Status::SyncingInsert => "Syncing Insert".to_owned(),
            Status::SyncingEdit => "Syncing Edit".to_owned(),
            Status::SyncingDelete => "Syncing Delete".to_owned(),
            Status::InsertFailed => "Insert failed".to_owned(),
            Status::EditFailed => "Edit failed".to_owned(),
            Status::DeleteFailed => "Delete failed".to_owned(),
            Status::Synced => "Synced".to_owned(),
        }
    }
}

/// Every state but `Synced` has an operation to retry, so no failure is final;
/// that operation's in-flight state has the same operation pending; and an
/// answered operation leaves the record out of the in-flight states unless
/// the answer was deferred.
pub proof fn lemma_status_machine(status: Status, operation: Operation, outcome: Outcome)
    ensures
        status != Status::Synced <==> status.pending() is Some,
        status.syncing() || status.failed() || status == Status::Synced,
        operation.syncing().pending() == Some(operation),
        operation.failed().pending() == Some(operation),
        operation.syncing().syncing(),
        operation.failed().failed(),
        outcome != Outcome::Deferred ==> match operation.settled(status, outcome) {
            Some(next) => next == Status::Synced || next.failed(),
            None => operation == Operation::Delete && outcome == Outcome::Done,
        },
{
}

} // verus!
