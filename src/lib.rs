//! Encrypted personal-finance ledger: field encryption, duplicate-safe
//! ingestion, time-series analytics and the lock/unlock session.
pub mod analytics;
pub mod database;
pub mod error;
pub mod models;
pub mod security;
pub mod session;
pub mod utils;

pub use analytics::DatedAmount;
pub use database::{BudgetRow, DatabaseManager, TransactionRow};
pub use error::LedgerError;
pub use models::{BalancePoint, Budget, FinancialMetrics, ImportResult, Ratio, Transaction};
pub use security::{CryptoError, SecurityManager};
pub use session::{AppState, OpenFailure};
pub use utils::{detect_file_format, parse_date};
