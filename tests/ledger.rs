use finledger::database::{amount_text, integrity_passed, transaction_limit};
use finledger::{Budget, CryptoError, DatabaseManager, LedgerError, SecurityManager, Transaction};

fn tx(description: &str, amount: i64, date: &str, account: &str) -> Transaction {
    Transaction {
        id: "id-1".to_string(),
        description: description.to_string(),
        amount,
        date: date.to_string(),
        category: "food".to_string(),
        account: account.to_string(),
    }
}

fn manager() -> DatabaseManager {
    DatabaseManager::new("hunter2").unwrap()
}

#[test]
fn duplicate_insert_is_rejected() {
    let db = manager();
    let mut stored: Vec<String> = Vec::new();
    let t = tx("Coffee", -350, "2024-01-01", "checking");
    let row = db.add_transaction(&t, &stored).unwrap();
    stored.push(row.hash.clone());
    assert!(matches!(db.add_transaction(&t, &stored), Err(LedgerError::DuplicateTransaction)));
}

#[test]
fn changing_one_field_allows_insert() {
    let db = manager();
    let t = tx("Coffee", -350, "2024-01-01", "checking");
    let stored = vec![db.add_transaction(&t, &Vec::new()).unwrap().hash];
    for other in [
        tx("Tea", -350, "2024-01-01", "checking"),
        tx("Coffee", -351, "2024-01-01", "checking"),
        tx("Coffee", -350, "2024-01-02", "checking"),
        tx("Coffee", -350, "2024-01-01", "savings"),
    ] {
        assert!(db.add_transaction(&other, &stored).is_ok());
    }
}

#[test]
fn stored_row_hides_text_and_opens_again() {
    let db = manager();
    let t = tx("Pharmacy", -1299, "2024-02-10", "card");
    let row = db.add_transaction(&t, &Vec::new()).unwrap();
    assert_ne!(row.description_encrypted, "Pharmacy");
    assert_ne!(row.category_encrypted, "food");
    assert_eq!(row.amount, -1299);
    let sm = SecurityManager::new();
    assert_eq!(row.hash, sm.create_hash("8:Pharmacy5:-129910:2024-02-104:card").unwrap());
    let back = db.get_transactions(&vec![row]).unwrap();
    assert_eq!(back.len(), 1);
    assert_eq!(back[0].description, "Pharmacy");
    assert_eq!(back[0].category, "food");
    assert_eq!(back[0].date, "2024-02-10");
}

#[test]
fn one_bad_row_aborts_the_read() {
    let db = manager();
    let good = db.add_transaction(&tx("A", 1, "2024-01-01", "x"), &Vec::new()).unwrap();
    let mut bad = db.add_transaction(&tx("B", 2, "2024-01-02", "x"), &Vec::new()).unwrap();
    bad.category_encrypted = "garbage".to_string();
    assert_eq!(
        db.get_transactions(&vec![good, bad]).err(),
        Some(LedgerError::Crypto(CryptoError::InvalidFormat))
    );
}

#[test]
fn budgets_round_trip() {
    let db = manager();
    let b = Budget {
        id: "b1".to_string(),
        category: "travel".to_string(),
        amount: 50000,
        spent: 1200,
        period: "monthly".to_string(),
    };
    let row = db.set_budget(&b).unwrap();
    assert_ne!(row.category_encrypted, "travel");
    let back = db.get_budgets(&vec![row]).unwrap();
    assert_eq!(back[0].category, "travel");
    assert_eq!(back[0].amount, 50000);
    assert_eq!(back[0].spent, 1200);
    assert_eq!(back[0].period, "monthly");
}

#[test]
fn key_pragma_is_hex_of_key() {
    let db = manager();
    let key = SecurityManager::new().derive_key("hunter2").unwrap();
    assert_eq!(db.key_pragma(), format!("\"x'{}'\"", hex::encode(key)));
}

#[test]
fn amount_text_is_decimal() {
    assert_eq!(amount_text(0), "0");
    assert_eq!(amount_text(100), "100");
    assert_eq!(amount_text(-30), "-30");
    assert_eq!(amount_text(i64::MIN), "-9223372036854775808");
    assert_eq!(amount_text(i64::MAX), "9223372036854775807");
}

#[test]
fn limit_defaults_to_one_hundred() {
    assert_eq!(transaction_limit(None), 100);
    assert_eq!(transaction_limit(Some(5)), 5);
}

#[test]
fn integrity_and_backup_helpers() {
    assert!(integrity_passed("ok"));
    assert!(!integrity_passed("*** in database main ***"));
    assert!(!integrity_passed("o"));
    assert_eq!(manager().verify_integrity("ok"), Ok(true));
    assert_eq!(manager().backup_database("/tmp/b.db"), "VACUUM INTO '/tmp/b.db'");
}

#[test]
fn run_together_fields_do_not_collide() {
    let db = manager();
    let stored = vec![db.add_transaction(&tx("x1", 5, "2024-01-01", "a"), &Vec::new()).unwrap().hash];
    assert!(db.add_transaction(&tx("x", 15, "2024-01-01", "a"), &stored).is_ok());
    assert!(db.add_transaction(&tx("x", 1, "52024-01-01", "a"), &stored).is_ok());
    assert!(db.add_transaction(&tx("x1", 5, "2024-01-0", "1a"), &stored).is_ok());
}

#[test]
fn rows_sealed_with_given_nonces_are_exact() {
    let db = manager();
    let t = tx("Rent", -90000, "2024-03-01", "checking");
    let n1 = vec![1u8; 12];
    let n2 = vec![2u8; 12];
    let a = db.add_transaction_with_nonces(&t, &Vec::new(), &n1, &n2).unwrap();
    let b = db.add_transaction_with_nonces(&t, &Vec::new(), &n1, &n2).unwrap();
    assert_eq!(a.description_encrypted, b.description_encrypted);
    assert_ne!(a.description_encrypted, a.category_encrypted);
    let stored = vec![a.hash.clone()];
    assert!(matches!(
        db.add_transaction_with_nonces(&t, &stored, &n1, &n2),
        Err(LedgerError::DuplicateTransaction)
    ));
    let back = db.get_transactions(&vec![a]).unwrap();
    assert_eq!(back[0].description, "Rent");
    assert_eq!(back[0].category, "food");
}
