//! End-to-end scenarios over raw rows, edge cases of the row grammar, and
//! the four-decimal rendering of amounts.

use ledger::mapper::{Account, ReaderError, TransactionType};
use ledger::output::{account_record, format_amount};
use ledger::parse::parse_record;
use ledger::reader::{process_records, Record};

fn decode_rows(rows: &[&str]) -> Vec<Record> {
    rows.iter()
        .map(|row| parse_record(row).expect("row should decode"))
        .collect()
}

// A deposit, a second deposit, a withdrawal and a dispute of the first
// deposit: the disputed amount is held, the rest stays available.
#[test]
fn test_scenario_dispute_holds_funds() {
    let records = decode_rows(&[
        "deposit,1,1,100.0",
        "deposit,1,2,50.0",
        "withdrawal,1,3,30.0",
        "dispute,1,1,",
    ]);
    let accounts = process_records(&records).unwrap();
    let account = accounts.get(&1).unwrap();
    assert_eq!(account.available_funds, 200_000); // 20.0
    assert_eq!(account.held_funds, 1_000_000); // 100.0
    assert_eq!(account.total_funds, 1_200_000); // 120.0
    assert!(!account.is_locked);
    // the totals conserve funds
    assert_eq!(
        account.total_funds,
        account.available_funds + account.held_funds
    );
}

// The same run followed by a chargeback of the disputed deposit: the held
// amount leaves the account and the account is locked.
#[test]
fn test_scenario_chargeback_locks_account() {
    let records = decode_rows(&[
        "deposit,1,1,100.0",
        "deposit,1,2,50.0",
        "withdrawal,1,3,30.0",
        "dispute,1,1,",
        "chargeback,1,1,",
    ]);
    let accounts = process_records(&records).unwrap();
    let account = accounts.get(&1).unwrap();
    assert_eq!(account.available_funds, 200_000); // 20.0
    assert_eq!(account.held_funds, 0);
    assert_eq!(account.total_funds, 200_000); // 20.0
    assert!(account.is_locked);
    assert_eq!(
        account.total_funds,
        account.available_funds + account.held_funds
    );
}

// A withdrawal beyond the available funds aborts the run with the
// insufficient-funds error, carrying the requested and available amounts.
#[test]
fn test_scenario_insufficient_funds_aborts() {
    let records = decode_rows(&["deposit,1,1,50.0", "withdrawal,1,2,100.0"]);
    let err = process_records(&records).unwrap_err();
    assert_eq!(
        err,
        ReaderError::InsufficientFundsError(1_000_000, 500_000)
    );

    // applied directly, the failing withdrawal leaves the account unchanged
    let mut account = Account::default();
    account.deposit(500_000, 1);
    let result = account.withdraw(1_000_000, 2);
    assert_eq!(
        result,
        Err(ReaderError::InsufficientFundsError(1_000_000, 500_000))
    );
    assert_eq!(account.available_funds, 500_000);
    assert_eq!(account.total_funds, 500_000);
}

// Disputing a transaction id the account has never seen changes nothing.
#[test]
fn test_dispute_unknown_transaction_is_noop() {
    let mut account = Account::default();
    account.deposit(750_000, 3);
    account.dispute(99);
    assert_eq!(account.available_funds, 750_000);
    assert_eq!(account.held_funds, 0);
    assert_eq!(account.total_funds, 750_000);
    assert!(!account.is_locked);
    assert_eq!(account.successful_transactions.len(), 1);
}

// A disputed withdrawal can drive the available balance negative; funds
// conservation still holds.
#[test]
fn test_dispute_withdrawal_goes_negative() {
    let mut account = Account::default();
    account.deposit(500_000, 1);
    account.withdraw(400_000, 2).expect("ok");
    account.dispute(2);
    assert_eq!(account.available_funds, -300_000);
    assert_eq!(account.held_funds, 400_000);
    assert_eq!(account.total_funds, 100_000);
    assert_eq!(
        account.total_funds,
        account.available_funds + account.held_funds
    );
}

// A later deposit reusing a transaction id silently overwrites the entry.
#[test]
fn test_duplicate_transaction_id_overwrites() {
    let mut account = Account::default();
    account.deposit(100_000, 7);
    account.deposit(250_000, 7);
    assert_eq!(account.available_funds, 350_000);
    assert_eq!(account.successful_transactions.len(), 1);
    assert_eq!(
        account.successful_transactions.get(&7).unwrap().amount,
        250_000
    );
}

// Rows with whitespace, a trailing empty amount field, or only three fields
// all decode; the type is matched case-insensitively.
#[test]
fn test_parse_record_accepts_valid_rows() {
    assert_eq!(
        parse_record("deposit,24,     1,    100.8453"),
        Some(Record {
            transaction_type: TransactionType::Deposit,
            client_id: 24,
            transaction_id: 1,
            amount: Some(1_008_453),
        })
    );
    assert_eq!(
        parse_record("dispute,1,1,"),
        Some(Record {
            transaction_type: TransactionType::Dispute,
            client_id: 1,
            transaction_id: 1,
            amount: None,
        })
    );
    assert_eq!(
        parse_record("resolve,21,2"),
        Some(Record {
            transaction_type: TransactionType::Resolve,
            client_id: 21,
            transaction_id: 2,
            amount: None,
        })
    );
    assert_eq!(
        parse_record("DEPOSIT,1,1,5.0"),
        Some(Record {
            transaction_type: TransactionType::Deposit,
            client_id: 1,
            transaction_id: 1,
            amount: Some(50_000),
        })
    );
    assert_eq!(
        parse_record("withdrawal,65535,4294967295,0.0001"),
        Some(Record {
            transaction_type: TransactionType::Withdrawal,
            client_id: 65535,
            transaction_id: 4294967295,
            amount: Some(1),
        })
    );
    // a negative amount passes through undisturbed
    assert_eq!(
        parse_record("deposit,1,1,-5.25"),
        Some(Record {
            transaction_type: TransactionType::Deposit,
            client_id: 1,
            transaction_id: 1,
            amount: Some(-52_500),
        })
    );
    // the largest accepted magnitude: ten billion units
    assert_eq!(
        parse_record("deposit,1,1,10000000000.0000"),
        Some(Record {
            transaction_type: TransactionType::Deposit,
            client_id: 1,
            transaction_id: 1,
            amount: Some(100_000_000_000_000),
        })
    );
}

// Malformed rows are refused: bad type, bad numbers, too many fields, too
// many fractional digits, out-of-range values.
#[test]
fn test_parse_record_rejects_invalid_rows() {
    assert_eq!(parse_record(""), None);
    assert_eq!(parse_record("transfer,1,1,5.0"), None);
    assert_eq!(parse_record("deposit,1,1,abc"), None);
    assert_eq!(parse_record("deposit,1,1,5.0,extra"), None);
    assert_eq!(parse_record("deposit,1"), None);
    assert_eq!(parse_record("deposit,,1,5.0"), None);
    assert_eq!(parse_record("deposit,1,1,5.00001"), None);
    assert_eq!(parse_record("deposit,1,1,5."), None);
    assert_eq!(parse_record("deposit,1,1,.5"), None);
    assert_eq!(parse_record("deposit,1,1,5.0.0"), None);
    // client id beyond sixteen bits, transaction id beyond thirty-two bits
    assert_eq!(parse_record("deposit,65536,1,5.0"), None);
    assert_eq!(parse_record("deposit,1,4294967296,5.0"), None);
    // magnitude beyond the accepted limit
    assert_eq!(parse_record("deposit,1,1,10000000000.0001"), None);
    assert_eq!(parse_record("deposit,1,1,10000000001.0"), None);
}

// Amounts render with exactly four decimal places.
#[test]
fn test_format_amount_four_decimals() {
    assert_eq!(format_amount(1_008_453), "100.8453");
    assert_eq!(format_amount(200_000), "20.0000");
    assert_eq!(format_amount(0), "0.0000");
    assert_eq!(format_amount(-50_000), "-5.0000");
    assert_eq!(format_amount(1), "0.0001");
    assert_eq!(format_amount(2_095_773), "209.5773");
}

// An output record carries the account's balances and lock state verbatim.
#[test]
fn test_account_record_carries_state() {
    let mut account = Account::default();
    account.deposit(1_200_000, 1);
    account.dispute(1);
    let record = account_record(9, &account);
    assert_eq!(record.client, 9);
    assert_eq!(record.available, 0);
    assert_eq!(record.held, 1_200_000);
    assert_eq!(record.total, 1_200_000);
    assert!(!record.locked);
}
