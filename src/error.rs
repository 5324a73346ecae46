//! Failures of the ledger, one variant per category.
use vstd::prelude::*;
use vstd::string::StringExecFns;
use crate::security::CryptoError;

verus! {

#[derive(Debug, Clone, Copy, PartialEq, Eq, Structural)]
pub enum LedgerError {
    /// Unlocking failed; which of the two it was is not told.
    WrongPasswordOrCorruptStore,
    /// The session is locked.
    Locked,
    /// A transaction with the same content is already stored.
    DuplicateTransaction,
    /// A field could not be sealed or opened.
    Crypto(CryptoError),
    /// The store failed a query, or a value does not fit its limits.
    Store,
    /// The store's structural check did not report "ok".
    IntegrityCheckFailed,
    /// A date that is not of the form YYYY-MM-DD, or a window that runs
    /// before the calendar's start.
    InvalidDate,
}

impl LedgerError {
    /// A short message for the user.
    pub fn message(&self) -> (r: String) {
        match self {
            LedgerError::WrongPasswordOrCorruptStore => String::from_str("wrong password or corrupted store"),
            LedgerError::Locked => String::from_str("application locked"),
            LedgerError::DuplicateTransaction => String::from_str("duplicate transaction"),
            LedgerError::Crypto(CryptoError::EncryptionFailed) => String::from_str("encryption failed"),
            LedgerError::Crypto(CryptoError::InvalidFormat) => String::from_str("invalid encrypted data"),
            LedgerError::Crypto(CryptoError::AuthenticationFailed) => String::from_str("decryption failed"),
            LedgerError::Crypto(CryptoError::InvalidText) => String::from_str("decrypted data is not text"),
            LedgerError::Crypto(CryptoError::RandomnessUnavailable) => String::from_str("random generator unavailable"),
            LedgerError::Crypto(CryptoError::InvalidHash) => String::from_str("invalid password hash"),
            LedgerError::Store => String::from_str("store error"),
            LedgerError::IntegrityCheckFailed => String::from_str("integrity check failed"),
            LedgerError::InvalidDate => String::from_str("invalid date"),
        }
    }
}

} // verus!
