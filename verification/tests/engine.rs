//! Tests for the account mutation rules, record dispatch, row parsing,
//! path validation and amount rendering. Amounts are fixed-point integers
//! in ten-thousandths of a currency unit (e.g. 325.88 is 3_258_800).

use ledger::mapper::{Account, ReaderError, Transaction, TransactionType};
use ledger::parse::parse_record;
use ledger::reader::{get_file_path, process_records, process_transaction_record, Record};

/// Helper for validating relevant fields for a basic account test
fn assert_account(account: &Account, available_funds: i128, total_funds: i128, is_map_empty: bool) {
    assert_eq!(account.available_funds, available_funds);
    assert_eq!(account.total_funds, total_funds);
    assert!(is_map_empty);
}

/// Helper for validating the results of a chargeback test
fn assert_chargeback(
    account: &Account,
    held_funds: i128,
    total_funds: i128,
    is_locked: bool,
    transaction_id: u32,
    current_state: TransactionType,
) {
    assert_eq!(account.held_funds, held_funds);
    assert_eq!(account.total_funds, total_funds);
    assert!(is_locked);
    assert_eq!(
        account
            .successful_transactions
            .get(&transaction_id)
            .unwrap()
            .current_state,
        current_state
    );
}

/// Helper for validating the results of a dispute or resolve test
fn assert_dispute_or_resolve(
    account: &Account,
    transaction_id: u32,
    available_funds: i128,
    held_funds: i128,
    transaction_type: TransactionType,
) {
    assert_eq!(account.available_funds, available_funds);
    assert_eq!(account.held_funds, held_funds);
    assert_eq!(
        account
            .successful_transactions
            .get(&transaction_id)
            .unwrap()
            .current_state,
        transaction_type
    );
}

/// Helper for creating a Record
fn dummy_record(transaction_type: TransactionType, amount: Option<i128>) -> Record {
    Record {
        transaction_type,
        client_id: 0,
        transaction_id: 0,
        amount,
    }
}

// Tests that available_funds, total_funds and successful_transactions are increased as expected
#[test]
fn test_deposit() {
    let amount = 3_258_800; // 325.88
    let transaction_id = 22;

    let expected_transaction = Transaction {
        amount,
        current_state: TransactionType::Deposit,
    };

    let mut account = Account::default();
    account.deposit(amount, transaction_id);

    assert_account(
        &account,
        amount,
        amount,
        !account.successful_transactions.is_empty(),
    );
    assert_eq!(
        account.successful_transactions.get(&transaction_id),
        Some(&expected_transaction)
    );
}

// Tests that attempting to withdraw an amount greater than the available funds triggers the appropriate error
#[test]
fn test_withdraw_greater_than_available() {
    let withdrawal_amount = 8_003_196; // 800.3196
    let available_amount = 8_003_195; // 800.3195

    let mut account = Account::default();
    account.available_funds = available_amount;

    let result = account.withdraw(8_003_196, 0).unwrap_err();
    let expected_reader_error =
        ReaderError::InsufficientFundsError(withdrawal_amount, available_amount);

    assert_eq!(result, expected_reader_error);
    assert_eq!(account.available_funds, available_amount);
}

// Tests that available_funds, total_funds and successful_transactions are decreased as expected
#[test]
fn test_valid_withdraw() {
    let available_amount = 1_009_100; // 100.91
    let total_funds_amount = 2_756_800; // 275.68
    let decrease_amount = 500_000; // 50.0
    let transaction_id = 1;

    let expected_available_funds = available_amount - decrease_amount;
    let expected_total_funds = total_funds_amount - decrease_amount;
    let expected_transaction = Transaction {
        amount: decrease_amount,
        current_state: TransactionType::Withdrawal,
    };

    let mut account = Account::default();
    account.available_funds = available_amount;
    account.total_funds = total_funds_amount;

    account
        .withdraw(decrease_amount, transaction_id)
        .expect("ok");

    assert_account(
        &account,
        expected_available_funds,
        expected_total_funds,
        !account.successful_transactions.is_empty(),
    );

    assert_eq!(
        account.successful_transactions.get(&transaction_id),
        Some(&expected_transaction)
    );
}

// Tests that available_funds and held_funds are left unchanged when a transaction is currently
// being disputed
#[test]
fn test_add_existing_dispute() {
    let available_funds = 5_000_000; // 500.0
    let held_funds = 742_500; // 74.25
    let transaction_id = 5;

    let mut account = Account::default();
    account.available_funds = available_funds;
    account.held_funds = held_funds;
    account.successful_transactions.insert(
        transaction_id,
        Transaction {
            amount: 1_500_000, // 150.0
            current_state: TransactionType::Dispute,
        },
    );

    account.dispute(transaction_id);

    // account should remain unchanged, since the transaction was already being disputed prior
    // to us executing the dispute
    assert_dispute_or_resolve(
        &account,
        transaction_id,
        available_funds,
        held_funds,
        TransactionType::Dispute,
    )
}

// Tests that available_funds and held_funds are updated correctly, when a transaction is disputed
#[test]
fn test_valid_dispute() {
    let deposit_amount = 40_285_800; // 4028.58
    let transaction_id = 10;

    let mut account = Account::default();
    account.deposit(deposit_amount, transaction_id);

    account.dispute(transaction_id);

    assert_dispute_or_resolve(
        &account,
        transaction_id,
        0,
        deposit_amount,
        TransactionType::Dispute,
    )
}

// Tests that held_funds and available_funds are left unchanged when a transaction is not currently
// being disputed
#[test]
fn test_resolve_non_disputed_transaction() {
    let deposit_amount = 10_000_000; // 1000.0
    let transaction_id = 10;

    let mut account = Account::default();
    account.deposit(deposit_amount, transaction_id);

    account.resolve(transaction_id);

    assert_dispute_or_resolve(
        &account,
        transaction_id,
        deposit_amount,
        0,
        TransactionType::Deposit,
    )
}

// Tests that held_funds and available_funds are updated correctly, when a previously disputed
// transaction is resolved
#[test]
fn test_valid_resolve() {
    let deposit_amount = 10_000_000; // 1000.0
    let transaction_id = 10;

    let mut account = Account::default();
    account.deposit(deposit_amount, transaction_id);
    account.dispute(transaction_id);

    account.resolve(transaction_id);

    assert_dispute_or_resolve(
        &account,
        transaction_id,
        deposit_amount,
        0,
        TransactionType::Resolve,
    )
}

// Tests that an account is unchanged when a chargeback is attempted for a transaction that is
// not currently being disputed
#[test]
fn test_chargeback_non_disputed_transaction() {
    let initial_amount = 10_009_457; // 1000.9457
    let increase_amount = 1_002_831; // 100.2831
    let transaction_id = 8;

    let expected_amount = initial_amount + increase_amount;

    let mut account = Account::default();
    account.deposit(initial_amount, 0);
    account.deposit(increase_amount, transaction_id);

    account.chargeback(transaction_id);

    assert_eq!(account.available_funds, expected_amount);
    assert_chargeback(
        &account,
        0,
        expected_amount,
        !account.is_locked,
        transaction_id,
        TransactionType::Deposit,
    );
}

// Tests that an account is correctly updated when a chargeback occurs
#[test]
fn test_valid_chargeback() {
    let initial_amount = 10_000_000; // 1000.0
    let increase_amount = 1_000_000; // 100.0
    let transaction_id = 8;

    let mut account = Account::default();
    account.deposit(initial_amount, 0);
    account.deposit(increase_amount, transaction_id);
    account.dispute(transaction_id);

    account.chargeback(transaction_id);

    assert_chargeback(
        &account,
        0,
        initial_amount,
        account.is_locked,
        transaction_id,
        TransactionType::Chargeback,
    );
}

// Tests that the expected error is returned when the file path argument has not been provided
#[test]
fn test_get_file_path_missing_arg() {
    let env_args = vec![vec![], vec!["".to_string()]];

    for args in env_args.into_iter() {
        let result = get_file_path(&args, false).unwrap_err();
        let expected_reader_error = ReaderError::MissingArgError;

        assert_eq!(result, expected_reader_error);
    }
}

// Tests that the expected error is returned when the file path leads to a non csv file
#[test]
fn test_get_file_path_invalid_extension() {
    let args = vec!["".to_string(), "someFile.txt".to_string()];
    let result = get_file_path(&args, true).unwrap_err();

    let expected_reader_error = ReaderError::InvalidExtensionError;

    assert_eq!(result, expected_reader_error);
}

// Tests that the expected error is returned when the file path leads to a non existent file
#[test]
fn test_get_file_path_non_existent_file() {
    let non_existent_file = "nonExistentFile.csv";
    let args = vec!["".to_string(), non_existent_file.to_string()];
    let result = get_file_path(&args, false).unwrap_err();

    let expected_reader_error = ReaderError::NonExistentFileError(non_existent_file.to_string());

    assert_eq!(result, expected_reader_error);
}

// Tests that get_file_path returns the correct file path, for an existing .csv file
#[test]
fn test_get_file_path() {
    let file_name = "mock-transactions.csv";

    let args = vec!["".to_string(), file_name.to_string()];
    let result = get_file_path(&args, true).unwrap();

    // we expect the result to end with the file name
    assert!(result.ends_with(file_name));
}

// Tests that account data is correctly being read in from raw rows, for two different client accounts
#[test]
fn test_read_valid_transactions_from_csv_for_clients() {
    // the transactions to decode (type,client,tx,amount), there are 6
    // transactions for client id 24 and 6 transactions for client id 4
    let transactions = vec![
        "deposit,24,     1,    100.8453",
        "deposit,24,10,   250.21",
        "deposit,4,11,76.984",
        "withdrawal,4,     5,21.56",
        "deposit,24,8,13.612",
        "withdrawal,24,50, 50.0",
        "deposit,4,52,79.23",
        "deposit,4,53,31.84",
        "withdrawal,24,100,24.98",
        "withdrawal,24,57,       80.11",
        "withdrawal,4,3     ,47.81",
        "deposit,4,83,8.0",
    ];
    let records: Vec<Record> = transactions
        .iter()
        .map(|row| parse_record(row).expect("row should decode"))
        .collect();

    // By manually summing up the amounts from each element in the transactions array above, we
    // get the expected account balances for each client id (24 and 4)
    let expected_client_ids = [24, 4];
    let expected_account_funds: [i128; 2] = [2_095_773, 1_266_840]; // 209.5773, 126.684

    // the transaction ids, transaction types and transaction amounts for each client
    let transaction_ids: [[u32; 6]; 2] = [[1, 10, 8, 50, 100, 57], [11, 5, 52, 53, 3, 83]];
    let transaction_types = [
        [
            TransactionType::Deposit,
            TransactionType::Deposit,
            TransactionType::Deposit,
            TransactionType::Withdrawal,
            TransactionType::Withdrawal,
            TransactionType::Withdrawal,
        ],
        [
            TransactionType::Deposit,
            TransactionType::Withdrawal,
            TransactionType::Deposit,
            TransactionType::Deposit,
            TransactionType::Withdrawal,
            TransactionType::Deposit,
        ],
    ];
    let transaction_amounts: [[i128; 6]; 2] = [
        [1_008_453, 2_502_100, 136_120, 500_000, 249_800, 801_100],
        [769_840, 215_600, 792_300, 318_400, 478_100, 80_000],
    ];

    let client_account_map = process_records(&records).unwrap();

    for (index, expected_client_id) in expected_client_ids.iter().enumerate() {
        let account = client_account_map.get(expected_client_id).unwrap();
        let expected_funds = expected_account_funds[index];

        assert_account(
            account,
            expected_funds,
            expected_funds,
            !account.successful_transactions.is_empty(),
        );

        // confirm that account transaction data has been correctly stored
        for (i, transaction_id) in transaction_ids[index].iter().enumerate() {
            let account_transaction = account.successful_transactions.get(transaction_id).unwrap();

            let transaction_amount = transaction_amounts[index][i];
            let transaction_type = transaction_types[index][i];

            let expected_account_transaction = Transaction {
                amount: transaction_amount,
                current_state: transaction_type,
            };

            assert_eq!(*account_transaction, expected_account_transaction);
        }
    }
}

// Tests that processing a deposit correctly updates an account
#[test]
fn test_process_deposit_transaction() {
    let amount = 15_009_000; // 1500.90
    let record = dummy_record(TransactionType::Deposit, Some(amount));

    let expected_transaction = Transaction {
        amount,
        current_state: TransactionType::Deposit,
    };

    let mut account = Account::default();

    process_transaction_record(&record, &mut account).expect("ok");

    assert_account(
        &account,
        amount,
        amount,
        !account.successful_transactions.is_empty(),
    );
    assert_eq!(
        account.successful_transactions.get(&0),
        Some(&expected_transaction)
    );
}

// Tests that processing a deposit that does not contain an amount, does not update an account
#[test]
fn test_process_deposit_transaction_no_amount() {
    let record = dummy_record(TransactionType::Deposit, None);
    let mut account = Account::default();

    process_transaction_record(&record, &mut account).expect("ok");

    assert_account(&account, 0, 0, account.successful_transactions.is_empty());
}

// Tests that processing a withdrawal correctly updates an account
#[test]
fn test_process_withdrawal_transaction() {
    let initial_balance = 2_000_000; // 200.0
    let amount = 1_350_000; // 135.0
    let record = dummy_record(TransactionType::Withdrawal, Some(amount));

    let expected_funds = initial_balance - amount;
    let expected_transaction = Transaction {
        amount,
        current_state: TransactionType::Withdrawal,
    };

    let mut account = Account::default();
    account.deposit(initial_balance, 1);

    process_transaction_record(&record, &mut account).expect("ok");

    assert_account(
        &account,
        expected_funds,
        expected_funds,
        !account.successful_transactions.is_empty(),
    );
    assert_eq!(
        account.successful_transactions.get(&0),
        Some(&expected_transaction)
    );
}

// Tests that processing a withdrawal that does not contain an amount, does not update an account
#[test]
fn test_process_withdrawal_transaction_no_amount() {
    let record = dummy_record(TransactionType::Withdrawal, None);
    let mut account = Account::default();

    process_transaction_record(&record, &mut account).expect("ok");

    assert_account(&account, 0, 0, account.successful_transactions.is_empty());
}

// Tests that processing a dispute correctly updates an account
#[test]
fn test_process_dispute_transaction() {
    let initial_balance = 2_000_000; // 200.0
    let record = dummy_record(TransactionType::Dispute, None);

    let expected_transaction = Transaction {
        amount: initial_balance,
        current_state: TransactionType::Dispute,
    };

    let mut account = Account::default();
    account.deposit(initial_balance, 0);

    process_transaction_record(&record, &mut account).expect("ok");

    assert_account(
        &account,
        0,
        initial_balance,
        !account.successful_transactions.is_empty(),
    );
    assert_eq!(account.held_funds, initial_balance);
    assert_eq!(
        account.successful_transactions.get(&0),
        Some(&expected_transaction)
    );
}

// Tests that processing a resolve correctly updates an account
#[test]
fn test_process_resolve_transaction() {
    let initial_balance = 2_000_000; // 200.0
    let record = dummy_record(TransactionType::Resolve, None);

    let expected_transaction = Transaction {
        amount: initial_balance,
        current_state: TransactionType::Resolve,
    };

    let mut account = Account::default();
    account.deposit(initial_balance, 0);
    account.dispute(0);

    process_transaction_record(&record, &mut account).expect("ok");

    assert_account(
        &account,
        initial_balance,
        initial_balance,
        !account.successful_transactions.is_empty(),
    );
    assert_eq!(account.held_funds, 0);
    assert_eq!(
        account.successful_transactions.get(&0),
        Some(&expected_transaction)
    );
}

// Tests that processing a chargeback correctly updates an account
#[test]
fn test_process_chargeback_transaction() {
    let initial_balance = 2_000_000; // 200.0
    let record = dummy_record(TransactionType::Chargeback, None);

    let expected_transaction = Transaction {
        amount: initial_balance,
        current_state: TransactionType::Chargeback,
    };

    let mut account = Account::default();
    account.deposit(initial_balance, 0);
    account.dispute(0);

    process_transaction_record(&record, &mut account).expect("ok");

    assert_account(
        &account,
        0,
        0,
        !account.successful_transactions.is_empty(),
    );

    assert_eq!(account.held_funds, 0);
    assert!(account.is_locked);
    assert_eq!(
        account.successful_transactions.get(&0),
        Some(&expected_transaction)
    );
}
