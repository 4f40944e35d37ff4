//! The credential guard: one refresh of the credentials per episode of
//! refused access tokens.

use crate::models::RefreshTokenError;
use vstd::prelude::*;

verus! {

/// The "credentials expired" signal. It is raised by the first refused access
/// token and stays up until the refresh that it started has ended; tokens
/// refused in between start nothing.
#[derive(Debug)]
pub struct CredentialGuard {
    expired: bool,
}

/// What follows the end of a refresh.
#[derive(Debug, Clone, Copy, PartialEq, Eq, Structural)]
pub enum Resumption {
    /// New credentials are in place and what was waiting has been sent
    /// again: once that is answered, fetch the server's records and
    /// reconcile.
    Reconcile,
    /// The refresh token itself has expired: everything local is gone and
    /// the user has to sign in again.
    SignIn,
    /// The refresh failed for another reason: nothing changes until the next
    /// reconciliation or refused token.
    Nothing,
}

/// What follows a refresh that ended with `error`, or without one.
pub open spec fn resumption_after(error: Option<RefreshTokenError>) -> Resumption {
    match error {
        None => Resumption::Reconcile,
        Some(RefreshTokenError::RefreshTokenExpirationError) => Resumption::SignIn,
        Some(_) => Resumption::Nothing,
    }
}

impl CredentialGuard {
    /// A refresh is under way.
    pub closed spec fn refreshing(&self) -> bool {
        self.expired
    }

    /// The guard at rest: no refresh is under way.
    pub fn new() -> (guard: CredentialGuard)
        ensures
            !guard.refreshing(),
    {
        CredentialGuard { expired: false }
    }

    /// Whether a refresh is under way.
    pub fn is_refreshing(&self) -> (b: bool)
        ensures
            b == self.refreshing(),
    {
        self.expired
    }

    /// Records a refused access token. The answer says whether a refresh has
    /// to start now: only where none is under way.
    pub fn raise(&mut self) -> (start: bool)
        ensures
            final(self).refreshing(),
            start == !old(self).refreshing(),
    {
        let start = !self.expired;
        self.expired = true;
        start
    }

    /// Ends the episode.
    pub fn settle(&mut self)
        ensures
            !final(self).refreshing(),
    {
        self.expired = false;
    }
}

/// What follows a refresh that ended with `error`, or without one.
pub fn resumption(error: Option<RefreshTokenError>) -> (next: Resumption)
    ensures
        next == resumption_after(error),
{
    match error {
        None => Resumption::Reconcile,
        Some(RefreshTokenError::RefreshTokenExpirationError) => Resumption::SignIn,
        Some(_) => Resumption::Nothing,
    }
}

} // verus!
