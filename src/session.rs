//! The lock/unlock session: it owns the open store handle, or none, and
//! gates every ledger operation behind being unlocked.
use vstd::prelude::*;
use crate::error::LedgerError;

verus! {

/// Why the store could not be opened with the derived key.
#[derive(Debug, Clone, Copy, PartialEq, Eq, Structural)]
pub enum OpenFailure {
    /// The key does not decrypt the store.
    WrongKey,
    /// The store file is damaged.
    Corrupt,
    /// The file could not be read or written.
    Io,
}

/// What asking the session for the store gives, for the handle it holds.
pub open spec fn access<H>(current: Option<H>) -> Result<H, LedgerError> {
    match current {
        Some(h) => Ok(h),
        None => Err(LedgerError::Locked),
    }
}

/// While locked, every ledger or analytics operation is refused with
/// `Locked` before it reaches the store, so the store is left as it was.
pub proof fn locked_session_refuses_work<H>(current: Option<H>)
    requires
        current is None,
    ensures
        access(current) == Err::<H, LedgerError>(LedgerError::Locked),
{
}

/// The session. `H` is the open store handle; there is at most one.
pub struct AppState<H> {
    db: Option<H>,
}

impl<H> AppState<H> {
    /// The handle held, if unlocked.
    pub closed spec fn current(&self) -> Option<H> {
        self.db
    }

    /// A locked session.
    pub fn new() -> (r: AppState<H>)
        ensures
            r.current() is None,
    {
        AppState { db: None }
    }

    /// Takes the outcome of opening the store with the key derived from the
    /// password. On success the session keeps the handle; on any failure it
    /// is locked and reports one conflated error.
    pub fn unlock_app(&mut self, opened: Result<H, OpenFailure>) -> (r: Result<bool, LedgerError>)
        ensures
            match opened {
                Ok(h) => r == Ok::<bool, LedgerError>(true) && final(self).current() == Some(h),
                Err(_) => r == Err::<bool, LedgerError>(LedgerError::WrongPasswordOrCorruptStore)
                    && final(self).current() is None,
            },
    {
        match opened {
            Ok(h) => {
                self.db = Some(h);
                Ok(true)
            },
            Err(_) => {
                self.db = None;
                Err(LedgerError::WrongPasswordOrCorruptStore)
            },
        }
    }

    /// Drops the handle, and with it the key.
    pub fn lock_app(&mut self)
        ensures
            final(self).current() is None,
    {
        self.db = None;
    }

    pub fn is_locked(&self) -> (r: bool)
        ensures
            r == self.current() is None,
    {
        self.db.is_none()
    }

    /// The handle for an operation, or `Locked`.
    pub fn store(&self) -> (r: Result<&H, LedgerError>)
        ensures
            self.current() is None <==> r == Err::<&H, LedgerError>(LedgerError::Locked),
            r matches Ok(h) ==> self.current() == Some(*h),
            match r {
                Ok(h) => access(self.current()) == Ok::<H, LedgerError>(*h),
                Err(e) => access(self.current()) == Err::<H, LedgerError>(e),
            },
    {
        match &self.db {
            Some(h) => Ok(h),
            None => Err(LedgerError::Locked),
        }
    }
}

} // verus!
