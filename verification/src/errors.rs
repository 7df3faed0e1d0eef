//! Error kinds shared by the subscriber, friend-graph, profile and
//! collection operations.
//!
//! Every component method returns a result value; no panics cross the
//! library boundary. Each kind names the exact condition under which it is
//! produced, so contracts can state "this error if and only if ...".

use vstd::prelude::*;

verus! {

/// The reason an operation failed.
#[derive(Clone, Copy, Debug, PartialEq, Eq, Structural)]
pub enum ErrorKind {
    /// The operation requires a resolved subscriber identity that is absent.
    NoIdentity,
    /// Identity resolution failed: the external subject has no mapping.
    SubscriberNotFound,
    /// The id being added as a friend is not a known subscriber.
    UnknownFriend,
    /// No friend edge exists for the given id.
    FriendNotFound,
    /// No profile record exists for the subscriber.
    ProfileNotFound,
    /// An item collection could not be read back (a stored value failed to
    /// decode).
    ItemsNotFound,
    /// The category name is reserved and may not hold items.
    InvalidCategory,
    /// The underlying store connection or operation failed.
    StoreUnavailable,
    /// External token verification failed.
    AuthenticationFailed,
}

/// Error value returned by subscriber, friend and profile operations.
#[derive(Clone, Copy, Debug, PartialEq, Eq, Structural)]
pub struct SubscriberError {
    pub kind: ErrorKind,
}

impl SubscriberError {
    /// Builds an error of the given kind.
    pub fn new(kind: ErrorKind) -> (e: SubscriberError)
        ensures
            e.kind == kind,
    {
        SubscriberError { kind }
    }
}

/// Error value returned by item-collection operations.
#[derive(Clone, Copy, Debug, PartialEq, Eq, Structural)]
pub struct ItemError {
    pub kind: ErrorKind,
}

impl ItemError {
    /// Builds an error of the given kind.
    pub fn new(kind: ErrorKind) -> (e: ItemError)
        ensures
            e.kind == kind,
    {
        ItemError { kind }
    }
}

/// Marker for a failed identity resolution.
#[derive(Clone, Copy, Debug, PartialEq, Eq, Structural)]
pub struct SubscriberNotFoundError;

/// The transport-level status answered for each error kind: a missing or
/// failed identity is unauthorized; a missing record or a rejected
/// category is not found or unprocessable; a failing store is a service
/// error.
pub open spec fn spec_status_code(kind: ErrorKind) -> u16 {
    match kind {
        ErrorKind::NoIdentity => 401,
        ErrorKind::AuthenticationFailed => 401,
        ErrorKind::SubscriberNotFound => 404,
        ErrorKind::UnknownFriend => 404,
        ErrorKind::FriendNotFound => 404,
        ErrorKind::ProfileNotFound => 404,
        ErrorKind::ItemsNotFound => 404,
        ErrorKind::InvalidCategory => 422,
        ErrorKind::StoreUnavailable => 503,
    }
}

/// Maps an error kind to the transport-level status the request layer
/// answers with; the mapping is deterministic.
pub fn status_code(kind: ErrorKind) -> (code: u16)
    ensures
        code == spec_status_code(kind),
{
    match kind {
        ErrorKind::NoIdentity => 401,
        ErrorKind::AuthenticationFailed => 401,
        ErrorKind::SubscriberNotFound => 404,
        ErrorKind::UnknownFriend => 404,
        ErrorKind::FriendNotFound => 404,
        ErrorKind::ProfileNotFound => 404,
        ErrorKind::ItemsNotFound => 404,
        ErrorKind::InvalidCategory => 422,
        ErrorKind::StoreUnavailable => 503,
    }
}

} // verus!
