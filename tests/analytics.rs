use finledger::analytics::{
    balance_history_since, dates_in_order, calculate_max_drawdown, calculate_volatility, financial_metrics_since,
    on_or_after,
};
use finledger::{BalancePoint, DatabaseManager, DatedAmount, LedgerError, Ratio};

fn rows(v: &[(&str, i64)]) -> Vec<DatedAmount> {
    v.iter().map(|(d, a)| DatedAmount { date: d.to_string(), amount: *a }).collect()
}

fn points(v: &[i128]) -> Vec<BalancePoint> {
    v.iter().map(|b| BalancePoint { date: "2024-01-01".to_string(), balance: *b }).collect()
}

#[test]
fn balance_history_groups_by_day() {
    let db = DatabaseManager::new("pw").unwrap();
    let r = rows(&[("2024-01-01", 100), ("2024-01-01", -30), ("2024-01-03", 10)]);
    let h = db.get_balance_history(&r, "2024-01-05", 7).unwrap();
    assert_eq!(h.len(), 2);
    assert_eq!((h[0].date.as_str(), h[0].balance), ("2024-01-01", 70));
    assert_eq!((h[1].date.as_str(), h[1].balance), ("2024-01-03", 80));
}

#[test]
fn balance_history_skips_rows_before_window() {
    let r = rows(&[("2023-12-01", 500), ("2024-01-02", 5), ("2024-01-02", 6)]);
    let h = balance_history_since(&r, "2024-01-01");
    assert_eq!(h.len(), 1);
    assert_eq!(h[0].balance, 11);
    assert!(balance_history_since(&Vec::new(), "2024-01-01").is_empty());
}

#[test]
fn bad_today_is_invalid_date() {
    let db = DatabaseManager::new("pw").unwrap();
    assert_eq!(db.get_balance_history(&Vec::new(), "yesterday", 7).err(), Some(LedgerError::InvalidDate));
    assert!(db.get_financial_metrics(&Vec::new(), "2024-13-01").is_err());
}

#[test]
fn metrics_without_expenses_use_sentinels() {
    let r = rows(&[("2024-01-02", 1000), ("2024-01-03", 500)]);
    let m = financial_metrics_since(&r, "2024-01-01", "2023-10-01");
    assert_eq!(m.balance, 1500);
    assert_eq!(m.burn_rate, Ratio { num: 0, den: 1 });
    assert_eq!(m.runway, Ratio { num: 999, den: 1 });
    assert_eq!(m.itt, Ratio { num: 999, den: 1 });
}

#[test]
fn metrics_exact_figures() {
    // Two expense days: 2024-01-02 (-100, -50) and 2024-01-04 (-30).
    let r = rows(&[
        ("2023-11-01", 2000),
        ("2024-01-02", -100),
        ("2024-01-02", -50),
        ("2024-01-03", 400),
        ("2024-01-04", -30),
    ]);
    let m = financial_metrics_since(&r, "2024-01-01", "2023-10-01");
    assert_eq!(m.balance, 2220);
    assert_eq!(m.burn_rate, Ratio { num: 180, den: 2 });
    assert_eq!(m.runway, Ratio { num: 2220 * 2, den: 180 });
    assert_eq!(m.itt, Ratio { num: 400, den: 180 });
    // Quarter history: 2000, 1850, 2250, 2220; deepest fall 150.
    assert_eq!(m.drawdown, -150);
    // Month history: -150, 250, 220 => n=3, S=320, Q=22500+62500+48400=133400.
    assert_eq!(m.volatility, Some(Ratio { num: 3 * 133400 - 320 * 320, den: 9 }));
}

#[test]
fn metrics_through_today() {
    let db = DatabaseManager::new("pw").unwrap();
    let r = rows(&[("2024-01-02", -100), ("2024-03-01", 50)]);
    let m = db.get_financial_metrics(&r, "2024-03-05").unwrap();
    assert_eq!(m.balance, -50);
    assert_eq!(m.burn_rate, Ratio { num: 0, den: 1 });
    assert_eq!(m.drawdown, -0);
}

#[test]
fn drawdown_is_never_positive() {
    assert_eq!(calculate_max_drawdown(&points(&[])), 0);
    assert_eq!(calculate_max_drawdown(&points(&[1, 2, 3, 10])), 0);
    assert_eq!(calculate_max_drawdown(&points(&[100, 40, 120, 90, 130])), -60);
}

#[test]
fn constant_balances_have_zero_volatility() {
    let v = calculate_volatility(&points(&[42, 42, 42, 42])).unwrap();
    assert_eq!(v.num, 0);
    assert_eq!(calculate_volatility(&points(&[5])), Some(Ratio { num: 0, den: 1 }));
    let w = calculate_volatility(&points(&[1, 3])).unwrap();
    assert_eq!(w, Ratio { num: 2 * 10 - 16, den: 4 });
}

#[test]
fn dates_compare_in_calendar_order() {
    assert!(on_or_after("2024-01-03", "2024-01-01"));
    assert!(on_or_after("2024-01-01", "2024-01-01"));
    assert!(!on_or_after("2023-12-31", "2024-01-01"));
}

#[test]
fn date_order_is_checked() {
    assert!(dates_in_order(&rows(&[("2024-01-01", 1), ("2024-01-01", 2), ("2024-01-03", 3)])));
    assert!(!dates_in_order(&rows(&[("2024-01-03", 1), ("2024-01-01", 2)])));
    assert!(dates_in_order(&Vec::new()));
}
