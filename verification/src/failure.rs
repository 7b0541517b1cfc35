//! What can end a reconciliation early.

use vstd::prelude::*;
use vstd::string::*;

verus! {

/// The reason why the check of one input failed.
#[derive(Clone, Copy, PartialEq, Eq, Debug, Structural)]
pub enum Fault {
    /// The root node names the input, but not by a node identifier.
    NoNodeId,
    /// The node states no type of source.
    NoType,
    /// The node is a GitHub source and states no owner.
    NoOwner,
    /// The node is a GitHub source and states no repository.
    NoRepo,
    /// The node is a GitHub source and no revision is locked for it.
    NoRev,
    /// The cache holds an entry that could not be read.
    EntryUnreadable,
    /// The cache holds an entry that is not JSON.
    EntryNotJson,
    /// The cache holds an entry that is JSON, but no count of commits.
    EntryNotACount,
    /// The entry could not be written to the cache.
    EntryUnwritable,
    /// The remote host gave no answer to the comparison.
    RemoteFailed,
    /// The remote host answered with a negative count.
    RemoteCountNegative,
    /// The caller reported something that the check had not asked for.
    OutOfTurn,
}

/// The four kinds of failure.
#[derive(Clone, Copy, PartialEq, Eq, Debug, Structural)]
pub enum FaultKind {
    /// A field is missing from the lock file, or is no string.
    MalformedLockEntry,
    /// A cache entry could not be read, understood or written.
    CacheIoFailure,
    /// The comparison on the remote host failed.
    RemoteComparisonFailure,
    /// The caller did not keep to the order of a check.
    OutOfTurn,
}

impl Fault {
    pub open spec fn kind_spec(self) -> FaultKind {
        match self {
            Fault::NoNodeId | Fault::NoType | Fault::NoOwner | Fault::NoRepo | Fault::NoRev =>
                FaultKind::MalformedLockEntry,
            Fault::EntryUnreadable
            | Fault::EntryNotJson
            | Fault::EntryNotACount
            | Fault::EntryUnwritable => FaultKind::CacheIoFailure,
            Fault::RemoteFailed | Fault::RemoteCountNegative => FaultKind::RemoteComparisonFailure,
            Fault::OutOfTurn => FaultKind::OutOfTurn,
        }
    }

    /// What each fault is called when it is told to a reader.
    pub open spec fn message_spec(self) -> Seq<char> {
        match self {
            Fault::NoNodeId => "Failed to deserialize input id."@,
            Fault::NoType => "Failed to deserialize original type."@,
            Fault::NoOwner => "Failed to deserialize GitHub repository owner."@,
            Fault::NoRepo => "Failed to deserialize GitHub repository repo."@,
            Fault::NoRev => "Failed to deserialize locked git commit."@,
            Fault::EntryUnreadable => "Failed to read from cache."@,
            Fault::EntryNotJson => "Failed to deserialize cache."@,
            Fault::EntryNotACount => "Failed to deserialize commit data."@,
            Fault::EntryUnwritable => "Failed to write to cache."@,
            Fault::RemoteFailed => "Failed to compare git commits via GitHub."@,
            Fault::RemoteCountNegative => "GitHub counted a negative number of commits."@,
            Fault::OutOfTurn => "A check was told of something that it had not asked for."@,
        }
    }

    /// The fault in words.
    pub fn message(self) -> (m: &'static str)
        ensures
            m@ == self.message_spec(),
    {
        match self {
            Fault::NoNodeId => "Failed to deserialize input id.",
            Fault::NoType => "Failed to deserialize original type.",
            Fault::NoOwner => "Failed to deserialize GitHub repository owner.",
            Fault::NoRepo => "Failed to deserialize GitHub repository repo.",
            Fault::NoRev => "Failed to deserialize locked git commit.",
            Fault::EntryUnreadable => "Failed to read from cache.",
            Fault::EntryNotJson => "Failed to deserialize cache.",
            Fault::EntryNotACount => "Failed to deserialize commit data.",
            Fault::EntryUnwritable => "Failed to write to cache.",
            Fault::RemoteFailed => "Failed to compare git commits via GitHub.",
            Fault::RemoteCountNegative => "GitHub counted a negative number of commits.",
            Fault::OutOfTurn => "A check was told of something that it had not asked for.",
        }
    }

    /// The kind of failure that this fault belongs to.
    #[verifier::when_used_as_spec(kind_spec)]
    pub fn kind(self) -> (k: FaultKind)
        ensures
            k == self.kind_spec(),
    {
        match self {
            Fault::NoNodeId | Fault::NoType | Fault::NoOwner | Fault::NoRepo | Fault::NoRev =>
                FaultKind::MalformedLockEntry,
            Fault::EntryUnreadable
            | Fault::EntryNotJson
            | Fault::EntryNotACount
            | Fault::EntryUnwritable => FaultKind::CacheIoFailure,
            Fault::RemoteFailed | Fault::RemoteCountNegative => FaultKind::RemoteComparisonFailure,
            Fault::OutOfTurn => FaultKind::OutOfTurn,
        }
    }
}

/// A failed check: the input by its name, and what went wrong.
#[derive(Debug, PartialEq, Eq)]
pub struct Failure {
    pub input: String,
    pub fault: Fault,
}

/// A failure as a plain value.
pub struct FailureView {
    pub input: Seq<char>,
    pub fault: Fault,
}

impl Failure {
    /// What to tell a reader of the failure: the input, and the fault in
    /// words.
    pub open spec fn message_spec(self) -> Seq<char> {
        "Failed to read input '"@ + self.input@ + "': "@ + self.fault.message_spec()
    }

    /// The failure in words.
    pub fn message(&self) -> (m: String)
        ensures
            m@ == self.message_spec(),
    {
        String::from_str("Failed to read input '").concat(self.input.as_str()).concat(
            "': ",
        ).concat(self.fault.message())
    }
}

impl View for Failure {
    type V = FailureView;

    open spec fn view(&self) -> FailureView {
        FailureView { input: self.input@, fault: self.fault }
    }
}

impl Clone for Failure {
    fn clone(&self) -> (r: Self)
        ensures
            r == *self,
    {
        Failure { input: self.input.clone(), fault: self.fault }
    }
}

/// Why a lock file as a whole gives nothing to check.
#[derive(Clone, Copy, PartialEq, Eq, Debug, Structural)]
pub enum LockError {
    /// The text is not JSON.
    NotJson,
    /// The root node has no object of inputs.
    NoRootInputs,
}

impl LockError {
    /// What each error is called when it is told to a reader.
    pub open spec fn message_spec(self) -> Seq<char> {
        match self {
            LockError::NotJson => "Failed to parse flake lock file JSON."@,
            LockError::NoRootInputs => "Failed to deserialize node.root."@,
        }
    }

    /// The error in words.
    pub fn message(self) -> (m: &'static str)
        ensures
            m@ == self.message_spec(),
    {
        match self {
            LockError::NotJson => "Failed to parse flake lock file JSON.",
            LockError::NoRootInputs => "Failed to deserialize node.root.",
        }
    }
}

} // verus!
