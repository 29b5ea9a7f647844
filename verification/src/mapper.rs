//! Account state and the rules by which each transaction type mutates it.
//!
//! An [`Account`] tracks available, held and total funds (fixed-point, in
//! ten-thousandths of a currency unit) together with the entries for every
//! funds-moving transaction it has executed. The ghost type [`AccountSnap`]
//! is the mathematical model of an account, and the `spec_*` transition
//! functions state exactly what each mutation does to that model.

use std::collections::HashMap;
use vstd::prelude::*;

verus! {

broadcast use vstd::std_specs::hash::group_hash_axioms;

/// The various types of transactions. A stored transaction entry reuses this
/// enum to record its current lifecycle state (for example `Dispute` means
/// "currently disputed").
#[derive(Debug, Clone, Copy, PartialEq, Eq, Structural)]
pub enum TransactionType {
    /// A credit to the client's asset account
    Deposit,
    /// A debit to the client's asset account
    Withdrawal,
    /// A client's claim that a transaction was erroneous and should be reversed
    Dispute,
    /// A resolution to a dispute, releasing the associated held funds
    Resolve,
    /// The final state of a dispute: the client reverses a transaction
    Chargeback,
}

/// The relevant details of an executed transaction: the amount moved (in
/// ten-thousandths of a unit) and the entry's current lifecycle state.
#[derive(Debug, Clone, Copy, PartialEq, Eq, Structural)]
pub struct Transaction {
    /// The magnitude moved, in ten-thousandths of a currency unit
    pub amount: i128,
    /// The current lifecycle state of this entry (e.g. disputed)
    pub current_state: TransactionType,
}

/// The errors a run of the engine can surface.
#[derive(Debug, PartialEq)]
pub enum ReaderError {
    /// The input file does not have a csv extension (.csv)
    InvalidExtensionError,
    /// Withdrawal amount is bigger than available funds; carries the
    /// requested amount and the available balance
    InsufficientFundsError(i128, i128),
    /// A file path to read transaction data from was not provided
    MissingArgError,
    /// The file does not exist; carries the offending path
    NonExistentFileError(String),
}

/// A generic result type for ReaderError variants
pub type ReaderResult<T> = Result<T, ReaderError>;

/// The details of a client's account.
#[derive(Debug)]
pub struct Account {
    /// Funds available for trading, staking, withdrawal, etc
    pub available_funds: i128,
    /// Funds held pending dispute resolution
    pub held_funds: i128,
    /// Funds that are either available or held
    pub total_funds: i128,
    /// Whether the account is locked (set by a chargeback)
    pub is_locked: bool,
    /// The entries for transactions that moved funds, keyed by transaction id
    pub successful_transactions: HashMap<u32, Transaction>,
}

/// The mathematical model of an account: balances as unbounded integers and
/// the transaction entries as a map.
#[verifier::ext_equal]
pub ghost struct AccountSnap {
    pub available: int,
    pub held: int,
    pub total: int,
    pub locked: bool,
    pub transactions: Map<u32, Transaction>,
}

impl View for Account {
    type V = AccountSnap;

    open spec fn view(&self) -> AccountSnap {
        AccountSnap {
            available: self.available_funds as int,
            held: self.held_funds as int,
            total: self.total_funds as int,
            locked: self.is_locked,
            transactions: self.successful_transactions@,
        }
    }
}

/// The account every client starts from: zero balances, unlocked, no entries.
pub open spec fn empty_snap() -> AccountSnap {
    AccountSnap { available: 0, held: 0, total: 0, locked: false, transactions: Map::empty() }
}

/// Funds conservation: the total is exactly the available plus the held funds.
pub open spec fn funds_conserved(a: AccountSnap) -> bool {
    a.total == a.available + a.held
}

/// What a deposit does: both available and total grow by the amount, and an
/// entry in state `Deposit` is recorded under the transaction id (silently
/// overwriting any previous entry with that id).
pub open spec fn spec_deposit(a: AccountSnap, amount: i128, transaction_id: u32) -> AccountSnap {
    AccountSnap {
        available: a.available + amount,
        total: a.total + amount,
        transactions: a.transactions.insert(
            transaction_id,
            Transaction { amount, current_state: TransactionType::Deposit },
        ),
        ..a
    }
}

/// A withdrawal succeeds exactly when the amount does not exceed the
/// available funds.
pub open spec fn spec_withdraw_ok(a: AccountSnap, amount: i128) -> bool {
    amount <= a.available
}

/// What a successful withdrawal does: both available and total shrink by the
/// amount, and an entry in state `Withdrawal` is recorded.
pub open spec fn spec_withdraw(a: AccountSnap, amount: i128, transaction_id: u32) -> AccountSnap {
    AccountSnap {
        available: a.available - amount,
        total: a.total - amount,
        transactions: a.transactions.insert(
            transaction_id,
            Transaction { amount, current_state: TransactionType::Withdrawal },
        ),
        ..a
    }
}

/// A dispute changes the account exactly when the referenced entry exists and
/// is not already disputed.
pub open spec fn spec_dispute_acts(a: AccountSnap, transaction_id: u32) -> bool {
    &&& a.transactions.contains_key(transaction_id)
    &&& !(a.transactions[transaction_id].current_state is Dispute)
}

/// What a dispute does: when it acts, the entry's amount moves from available
/// to held (the available balance may go negative; there is deliberately no
/// sufficiency check here) and the entry's state becomes `Dispute`. Unknown
/// transaction ids and already-disputed entries are left untouched.
pub open spec fn spec_dispute(a: AccountSnap, transaction_id: u32) -> AccountSnap {
    if spec_dispute_acts(a, transaction_id) {
        let t = a.transactions[transaction_id];
        AccountSnap {
            available: a.available - t.amount,
            held: a.held + t.amount,
            transactions: a.transactions.insert(
                transaction_id,
                Transaction { amount: t.amount, current_state: TransactionType::Dispute },
            ),
            ..a
        }
    } else {
        a
    }
}

/// Resolve and chargeback change the account exactly when the referenced
/// entry exists and is currently disputed.
pub open spec fn spec_settle_acts(a: AccountSnap, transaction_id: u32) -> bool {
    &&& a.transactions.contains_key(transaction_id)
    &&& a.transactions[transaction_id].current_state is Dispute
}

/// What a resolve does: when it acts, the disputed amount moves back from
/// held to available and the entry's state becomes `Resolve`.
pub open spec fn spec_resolve(a: AccountSnap, transaction_id: u32) -> AccountSnap {
    if spec_settle_acts(a, transaction_id) {
        let t = a.transactions[transaction_id];
        AccountSnap {
            available: a.available + t.amount,
            held: a.held - t.amount,
            transactions: a.transactions.insert(
                transaction_id,
                Transaction { amount: t.amount, current_state: TransactionType::Resolve },
            ),
            ..a
        }
    } else {
        a
    }
}

/// What a chargeback does: when it acts, the disputed amount leaves both held
/// and total (available is deliberately untouched: the amount already left it
/// at dispute time), the account is locked, and the entry's state becomes
/// `Chargeback`.
pub open spec fn spec_chargeback(a: AccountSnap, transaction_id: u32) -> AccountSnap {
    if spec_settle_acts(a, transaction_id) {
        let t = a.transactions[transaction_id];
        AccountSnap {
            held: a.held - t.amount,
            total: a.total - t.amount,
            locked: true,
            transactions: a.transactions.insert(
                transaction_id,
                Transaction { amount: t.amount, current_state: TransactionType::Chargeback },
            ),
            ..a
        }
    } else {
        a
    }
}

/// Every transaction rule preserves funds conservation: starting from an
/// account whose total equals available plus held, each of the five
/// mutations leaves that equation intact.
pub proof fn lemma_mutations_conserve_funds(a: AccountSnap, amount: i128, transaction_id: u32)
    requires
        funds_conserved(a),
    ensures
        funds_conserved(spec_deposit(a, amount, transaction_id)),
        funds_conserved(spec_withdraw(a, amount, transaction_id)),
        funds_conserved(spec_dispute(a, transaction_id)),
        funds_conserved(spec_resolve(a, transaction_id)),
        funds_conserved(spec_chargeback(a, transaction_id)),
{
}

/// Disputing is idempotent: disputing a transaction twice gives exactly the
/// state that disputing it once gives, so a re-dispute of an
/// already-disputed entry changes neither held nor available funds.
pub proof fn lemma_dispute_idempotent(a: AccountSnap, transaction_id: u32)
    ensures
        spec_dispute(spec_dispute(a, transaction_id), transaction_id) == spec_dispute(
            a,
            transaction_id,
        ),
{
}

/// A resolve directly after a dispute undoes it on the balances: the full
/// disputed amount moves back to available, held returns to its prior value,
/// and total and the locked flag are untouched; only the entry's state
/// differs, ending at `Resolve`.
pub proof fn lemma_dispute_then_resolve(a: AccountSnap, transaction_id: u32)
    requires
        spec_dispute_acts(a, transaction_id),
    ensures
        ({
            let r = spec_resolve(spec_dispute(a, transaction_id), transaction_id);
            &&& r.available == a.available
            &&& r.held == a.held
            &&& r.total == a.total
            &&& r.locked == a.locked
            &&& r.transactions == a.transactions.insert(
                transaction_id,
                Transaction {
                    amount: a.transactions[transaction_id].amount,
                    current_state: TransactionType::Resolve,
                },
            )
        }),
{
}

/// A chargeback directly after a dispute locks the account, takes the
/// disputed amount out of both held and total, and leaves available exactly
/// where the dispute put it: the chargeback step itself does not touch it.
pub proof fn lemma_dispute_then_chargeback(a: AccountSnap, transaction_id: u32)
    requires
        spec_dispute_acts(a, transaction_id),
    ensures
        ({
            let amt = a.transactions[transaction_id].amount;
            let c = spec_chargeback(spec_dispute(a, transaction_id), transaction_id);
            &&& c.locked == true
            &&& c.held == a.held
            &&& c.total == a.total - amt
            &&& c.available == a.available - amt
            &&& c.available == spec_dispute(a, transaction_id).available
            &&& c.transactions == a.transactions.insert(
                transaction_id,
                Transaction { amount: amt, current_state: TransactionType::Chargeback },
            )
        }),
{
}

impl Default for Account {
    /// A fresh account: zero balances, unlocked, no transaction entries.
    fn default() -> (result: Account)
        ensures
            result@ == empty_snap(),
    {
        Account {
            available_funds: 0,
            held_funds: 0,
            total_funds: 0,
            is_locked: false,
            successful_transactions: HashMap::new(),
        }
    }
}

impl Account {
    /// Updates a client account when a deposit transaction occurs.
    pub fn deposit(&mut self, amount: i128, transaction_id: u32)
        requires
            i128::MIN <= old(self).available_funds + amount <= i128::MAX,
            i128::MIN <= old(self).total_funds + amount <= i128::MAX,
        ensures
            final(self)@ == spec_deposit(old(self)@, amount, transaction_id),
    {
        self.available_funds = self.available_funds + amount;
        self.total_funds = self.total_funds + amount;
        self.successful_transactions.insert(
            transaction_id,
            Transaction { amount, current_state: TransactionType::Deposit },
        );
    }

    /// Updates a client account when a withdrawal transaction occurs. Fails
    /// with `InsufficientFundsError` (carrying the requested amount and the
    /// available balance) when the amount exceeds the available funds, in
    /// which case the account is left completely unchanged.
    pub fn withdraw(&mut self, amount: i128, transaction_id: u32) -> (result: ReaderResult<()>)
        requires
            spec_withdraw_ok(old(self)@, amount) ==> {
                &&& old(self).available_funds - amount <= i128::MAX
                &&& i128::MIN <= old(self).total_funds - amount <= i128::MAX
            },
        ensures
            spec_withdraw_ok(old(self)@, amount) ==> {
                &&& final(self)@ == spec_withdraw(old(self)@, amount, transaction_id)
                &&& result is Ok
            },
            !spec_withdraw_ok(old(self)@, amount) ==> {
                &&& *final(self) == *old(self)
                &&& result == ReaderResult::<()>::Err(
                    ReaderError::InsufficientFundsError(amount, old(self).available_funds),
                )
            },
    {
        // if a client account contains insufficient available funds, ensure the withdrawal fails
        if amount > self.available_funds {
            return Err(ReaderError::InsufficientFundsError(amount, self.available_funds));
        }

        self.available_funds = self.available_funds - amount;
        self.total_funds = self.total_funds - amount;
        self.successful_transactions.insert(
            transaction_id,
            Transaction { amount, current_state: TransactionType::Withdrawal },
        );

        Ok(())
    }

    /// Updates a client account when a dispute transaction occurs. A dispute
    /// referencing an unknown transaction id, or an entry that is already
    /// disputed, leaves the account untouched.
    pub fn dispute(&mut self, transaction_id: u32)
        requires
            spec_dispute_acts(old(self)@, transaction_id) ==> {
                let t = old(self)@.transactions[transaction_id];
                &&& i128::MIN <= old(self).available_funds - t.amount <= i128::MAX
                &&& i128::MIN <= old(self).held_funds + t.amount <= i128::MAX
            },
        ensures
            final(self)@ == spec_dispute(old(self)@, transaction_id),
            !spec_dispute_acts(old(self)@, transaction_id) ==> *final(self) == *old(self),
    {
        if let Some(t_ref) = self.successful_transactions.get(&transaction_id) {
            let t = *t_ref;
            // we only want to update the account if the transaction hasn't been disputed yet
            if t.current_state != TransactionType::Dispute {
                self.available_funds = self.available_funds - t.amount;
                self.held_funds = self.held_funds + t.amount;
                self.successful_transactions.insert(
                    transaction_id,
                    Transaction { amount: t.amount, current_state: TransactionType::Dispute },
                );
            }
        }
    }

    /// Updates a client account when a resolve transaction occurs. It has no
    /// effect unless the referenced entry exists and is currently disputed.
    pub fn resolve(&mut self, transaction_id: u32)
        requires
            spec_settle_acts(old(self)@, transaction_id) ==> {
                let t = old(self)@.transactions[transaction_id];
                &&& i128::MIN <= old(self).available_funds + t.amount <= i128::MAX
                &&& i128::MIN <= old(self).held_funds - t.amount <= i128::MAX
            },
        ensures
            final(self)@ == spec_resolve(old(self)@, transaction_id),
            !spec_settle_acts(old(self)@, transaction_id) ==> *final(self) == *old(self),
    {
        if let Some(t_ref) = self.successful_transactions.get(&transaction_id) {
            let t = *t_ref;
            // we only want to update the account if the transaction is currently being disputed
            if t.current_state == TransactionType::Dispute {
                self.held_funds = self.held_funds - t.amount;
                self.available_funds = self.available_funds + t.amount;
                self.successful_transactions.insert(
                    transaction_id,
                    Transaction { amount: t.amount, current_state: TransactionType::Resolve },
                );
            }
        }
    }

    /// Updates a client account when a chargeback transaction occurs. It has
    /// no effect unless the referenced entry exists and is currently
    /// disputed; when it acts it also freezes the account.
    pub fn chargeback(&mut self, transaction_id: u32)
        requires
            spec_settle_acts(old(self)@, transaction_id) ==> {
                let t = old(self)@.transactions[transaction_id];
                &&& i128::MIN <= old(self).held_funds - t.amount <= i128::MAX
                &&& i128::MIN <= old(self).total_funds - t.amount <= i128::MAX
            },
        ensures
            final(self)@ == spec_chargeback(old(self)@, transaction_id),
            !spec_settle_acts(old(self)@, transaction_id) ==> *final(self) == *old(self),
    {
        if let Some(t_ref) = self.successful_transactions.get(&transaction_id) {
            let t = *t_ref;
            // we only want to update the account if the transaction is currently being disputed
            if t.current_state == TransactionType::Dispute {
                self.held_funds = self.held_funds - t.amount;
                self.total_funds = self.total_funds - t.amount;
                // for chargebacks, immediately freeze the account
                self.is_locked = true;
                self.successful_transactions.insert(
                    transaction_id,
                    Transaction { amount: t.amount, current_state: TransactionType::Chargeback },
                );
            }
        }
    }
}

} // verus!
