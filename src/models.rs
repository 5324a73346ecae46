//! Domain values handed between the store, the library and its callers.
//! Amounts are whole minor currency units (cents), positive for inflow.
use vstd::prelude::*;

verus! {

/// A ledger entry in plain text.
pub struct Transaction {
    pub id: String,
    pub description: String,
    pub amount: i64,
    pub date: String,
    pub category: String,
    pub account: String,
}

/// A spending allocation for one category.
pub struct Budget {
    pub id: String,
    pub category: String,
    pub amount: i64,
    pub spent: i64,
    pub period: String,
}

/// Cumulative balance at the end of a day.
pub struct BalancePoint {
    pub date: String,
    pub balance: i128,
}

/// The exact quotient `num / den`; `den` is positive.
#[derive(Debug, Clone, Copy, PartialEq, Eq, Structural)]
pub struct Ratio {
    pub num: i128,
    pub den: i128,
}

/// A snapshot of the ledger's figures. Quotients are kept exact; the
/// volatility is given as the population variance of the balances, whose
/// square root is the standard deviation.
pub struct FinancialMetrics {
    pub balance: i128,
    pub burn_rate: Ratio,
    pub runway: Ratio,
    pub itt: Ratio,
    pub volatility: Option<Ratio>,
    pub drawdown: i128,
}

/// Counters of a bank-statement import.
pub struct ImportResult {
    pub success: bool,
    pub imported_count: i32,
    pub duplicate_count: i32,
    pub error_count: i32,
    pub errors: Vec<String>,
}

} // verus!
