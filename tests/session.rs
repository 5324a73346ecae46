use finledger::{detect_file_format, parse_date, AppState, LedgerError, OpenFailure};

#[test]
fn starts_locked_and_gates_operations() {
    let s: AppState<Vec<u32>> = AppState::new();
    assert!(s.is_locked());
    assert_eq!(s.store().err(), Some(LedgerError::Locked));
}

#[test]
fn unlock_then_lock() {
    let mut s: AppState<Vec<u32>> = AppState::new();
    assert_eq!(s.unlock_app(Ok(vec![1, 2, 3])), Ok(true));
    assert!(!s.is_locked());
    assert_eq!(s.store().unwrap().len(), 3);
    s.lock_app();
    assert!(s.is_locked());
    assert_eq!(s.store().err(), Some(LedgerError::Locked));
}

#[test]
fn unlock_failures_are_conflated() {
    let mut s: AppState<Vec<u32>> = AppState::new();
    let a = s.unlock_app(Err(OpenFailure::WrongKey));
    let b = s.unlock_app(Err(OpenFailure::Corrupt));
    assert_eq!(a, Err(LedgerError::WrongPasswordOrCorruptStore));
    assert_eq!(a, b);
    assert!(s.is_locked());
    s.unlock_app(Ok(vec![9])).unwrap();
    assert!(s.unlock_app(Err(OpenFailure::Io)).is_err());
    assert!(s.is_locked());
}

#[test]
fn file_formats_are_detected() {
    assert_eq!(detect_file_format("OFXHEADER:100\nDATA"), "OFX");
    assert_eq!(detect_file_format("!Type:Bank\nD01/01"), "QIF");
    assert_eq!(detect_file_format("date,amount\n"), "CSV");
    assert_eq!(detect_file_format("plain text"), "UNKNOWN");
    assert_eq!(detect_file_format(""), "UNKNOWN");
}

#[test]
fn dates_pass_through() {
    assert_eq!(parse_date("2024-05-06").unwrap(), "2024-05-06");
}

#[test]
fn error_messages_are_short() {
    assert_eq!(LedgerError::Locked.message(), "application locked");
}
