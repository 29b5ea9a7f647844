//! Dispatch of decoded transaction records onto client accounts, and the
//! single pass that folds a whole record sequence into the per-client
//! account map.

use crate::mapper::{
    empty_snap, funds_conserved, spec_chargeback, spec_deposit, spec_dispute, spec_dispute_acts,
    spec_resolve, spec_settle_acts, spec_withdraw, spec_withdraw_ok, Account, AccountSnap,
    ReaderError, ReaderResult, TransactionType,
};
use std::collections::HashMap;
use vstd::prelude::*;
use vstd::string::StrSliceExecFns;

verus! {

broadcast use vstd::std_specs::hash::group_hash_axioms;

/// The largest magnitude a decoded amount may have, in ten-thousandths of a
/// currency unit: ten billion whole units. Bounding each record's amount
/// keeps every balance provably inside `i128` over any run that a machine
/// can index.
pub const AMOUNT_LIMIT: i128 = 100_000_000_000_000;

/// One decoded row of input data.
#[derive(Debug, Clone, Copy, PartialEq, Eq)]
pub struct Record {
    /// The type of transaction that occurred (e.g. deposit)
    pub transaction_type: TransactionType,
    /// The unique identifier of the client
    pub client_id: u16,
    /// The unique identifier of the transaction
    pub transaction_id: u32,
    /// The amount moved, in ten-thousandths of a unit; absent for
    /// dispute-family rows
    pub amount: Option<i128>,
}

/// A record whose amount, if any, is within the accepted magnitude.
pub open spec fn record_in_limit(r: Record) -> bool {
    match r.amount {
        Option::Some(a) => -AMOUNT_LIMIT <= a <= AMOUNT_LIMIT,
        Option::None => true,
    }
}

/// Applying a record succeeds unless it is a withdrawal whose amount exceeds
/// the account's available funds. Deposits and withdrawals without an amount
/// are silent no-ops, as are dispute-family records whose transaction id is
/// unknown or whose entry is in the wrong state.
pub open spec fn spec_apply_ok(a: AccountSnap, r: Record) -> bool {
    match r.transaction_type {
        TransactionType::Withdrawal => match r.amount {
            Option::Some(amount) => spec_withdraw_ok(a, amount),
            Option::None => true,
        },
        _ => true,
    }
}

/// The account state after applying one record, assuming application
/// succeeds.
pub open spec fn spec_apply(a: AccountSnap, r: Record) -> AccountSnap {
    match r.transaction_type {
        TransactionType::Deposit => match r.amount {
            Option::Some(amount) => spec_deposit(a, amount, r.transaction_id),
            Option::None => a,
        },
        TransactionType::Withdrawal => match r.amount {
            Option::Some(amount) => spec_withdraw(a, amount, r.transaction_id),
            Option::None => a,
        },
        TransactionType::Dispute => spec_dispute(a, r.transaction_id),
        TransactionType::Resolve => spec_resolve(a, r.transaction_id),
        TransactionType::Chargeback => spec_chargeback(a, r.transaction_id),
    }
}

/// The error a failing record application surfaces: insufficient funds,
/// carrying the requested amount and the available balance.
pub open spec fn spec_apply_err(a: AccountSnap, r: Record) -> ReaderError {
    ReaderError::InsufficientFundsError(r.amount->Some_0, a.available as i128)
}

/// The arithmetic of applying this record to this account stays inside
/// `i128`. These are machine limits only; `snap_bounded` accounts satisfy
/// them for any in-limit record.
pub open spec fn spec_apply_fits(a: AccountSnap, r: Record) -> bool {
    match r.transaction_type {
        TransactionType::Deposit => match r.amount {
            Option::Some(amount) => {
                &&& i128::MIN <= a.available + amount <= i128::MAX
                &&& i128::MIN <= a.total + amount <= i128::MAX
            },
            Option::None => true,
        },
        TransactionType::Withdrawal => match r.amount {
            Option::Some(amount) => spec_withdraw_ok(a, amount) ==> {
                &&& a.available - amount <= i128::MAX
                &&& i128::MIN <= a.total - amount <= i128::MAX
            },
            Option::None => true,
        },
        TransactionType::Dispute => spec_dispute_acts(a, r.transaction_id) ==> {
            let t = a.transactions[r.transaction_id];
            &&& i128::MIN <= a.available - t.amount <= i128::MAX
            &&& i128::MIN <= a.held + t.amount <= i128::MAX
        },
        TransactionType::Resolve => spec_settle_acts(a, r.transaction_id) ==> {
            let t = a.transactions[r.transaction_id];
            &&& i128::MIN <= a.available + t.amount <= i128::MAX
            &&& i128::MIN <= a.held - t.amount <= i128::MAX
        },
        TransactionType::Chargeback => spec_settle_acts(a, r.transaction_id) ==> {
            let t = a.transactions[r.transaction_id];
            &&& i128::MIN <= a.held - t.amount <= i128::MAX
            &&& i128::MIN <= a.total - t.amount <= i128::MAX
        },
    }
}

/// Triggers the relevant logic for updating a client's account, using a
/// decoded record.
pub fn process_transaction_record(record: &Record, account: &mut Account) -> (result: ReaderResult<
    (),
>)
    requires
        spec_apply_fits(old(account)@, *record),
    ensures
        spec_apply_ok(old(account)@, *record) ==> {
            &&& final(account)@ == spec_apply(old(account)@, *record)
            &&& result is Ok
        },
        !spec_apply_ok(old(account)@, *record) ==> {
            &&& *final(account) == *old(account)
            &&& result == ReaderResult::<()>::Err(spec_apply_err(old(account)@, *record))
        },
{
    match record.transaction_type {
        TransactionType::Deposit => {
            // the amount field is optional, only process it when it's been defined
            if let Some(amount) = record.amount {
                account.deposit(amount, record.transaction_id);
            }
        },
        TransactionType::Withdrawal => {
            // the amount field is optional, only process it when it's been defined
            if let Some(amount) = record.amount {
                let r = account.withdraw(amount, record.transaction_id);
                if let Err(e) = r {
                    return Err(e);
                }
            }
        },
        TransactionType::Dispute => account.dispute(record.transaction_id),
        TransactionType::Resolve => account.resolve(record.transaction_id),
        TransactionType::Chargeback => account.chargeback(record.transaction_id),
    }

    Ok(())
}

/// An account that `n` applied records can have built: each balance has
/// moved by at most `AMOUNT_LIMIT` per record, and every stored entry's
/// amount is in limit.
pub open spec fn snap_bounded(a: AccountSnap, n: int) -> bool {
    &&& -(n * AMOUNT_LIMIT) <= a.available <= n * AMOUNT_LIMIT
    &&& -(n * AMOUNT_LIMIT) <= a.held <= n * AMOUNT_LIMIT
    &&& -(n * AMOUNT_LIMIT) <= a.total <= n * AMOUNT_LIMIT
    &&& forall|t: u32|
        a.transactions.contains_key(t) ==> -AMOUNT_LIMIT <= (
        #[trigger] a.transactions[t]).amount <= AMOUNT_LIMIT
}

/// The mathematical model of the whole ledger: each account abstracted to
/// its snapshot.
pub open spec fn ledger_snap(m: Map<u16, Account>) -> Map<u16, AccountSnap> {
    m.map_values(|a: Account| a@)
}

/// The result of feeding a record sequence, in order, into a ledger: each
/// record is applied to its client's account (created empty on first
/// reference), and the first failing application aborts the run with its
/// error.
pub open spec fn spec_run(m: Map<u16, AccountSnap>, records: Seq<Record>) -> Result<
    Map<u16, AccountSnap>,
    ReaderError,
>
    decreases records.len(),
{
    if records.len() == 0 {
        Result::Ok(m)
    } else {
        let r = records.first();
        let a = if m.contains_key(r.client_id) {
            m[r.client_id]
        } else {
            empty_snap()
        };
        if spec_apply_ok(a, r) {
            spec_run(m.insert(r.client_id, spec_apply(a, r)), records.drop_first())
        } else {
            Result::Err(spec_apply_err(a, r))
        }
    }
}

/// Bounded accounts stay bounded when allowed more steps.
proof fn lemma_snap_bounded_mono(a: AccountSnap, n: int, m: int)
    requires
        snap_bounded(a, n),
        0 <= n <= m,
    ensures
        snap_bounded(a, m),
{
}

/// Applying one in-limit record to a bounded account fits in `i128` and
/// yields an account bounded by one more step.
proof fn lemma_apply_bounded(a: AccountSnap, r: Record, n: int)
    requires
        0 <= n,
        n + 1 <= 0x1_0000_0000_0000_0000,
        snap_bounded(a, n),
        record_in_limit(r),
    ensures
        spec_apply_fits(a, r),
        snap_bounded(spec_apply(a, r), n + 1),
{
}

/// Funds conservation holds of every account after any run: starting from a
/// ledger whose accounts all conserve funds (the empty ledger trivially
/// does), a successful run of any record sequence leaves every account with
/// `total == available + held`.
pub proof fn lemma_run_conserves_funds(m: Map<u16, AccountSnap>, records: Seq<Record>)
    requires
        forall|k: u16| m.contains_key(k) ==> funds_conserved(#[trigger] m[k]),
        spec_run(m, records) is Ok,
    ensures
        forall|k: u16|
            spec_run(m, records)->Ok_0.contains_key(k) ==> funds_conserved(
                #[trigger] spec_run(m, records)->Ok_0[k],
            ),
    decreases records.len(),
{
    if records.len() == 0 {
    } else {
        let r = records.first();
        let a = if m.contains_key(r.client_id) {
            m[r.client_id]
        } else {
            empty_snap()
        };
        let amount = match r.amount {
            Option::Some(x) => x,
            Option::None => 0,
        };
        crate::mapper::lemma_mutations_conserve_funds(a, amount, r.transaction_id);
        lemma_run_conserves_funds(
            m.insert(r.client_id, spec_apply(a, r)),
            records.drop_first(),
        );
    }
}

/// Folds a sequence of decoded records into the per-client account map,
/// applying them strictly in order. The first record whose application fails
/// aborts the whole run with its error.
pub fn process_records(records: &Vec<Record>) -> (result: ReaderResult<HashMap<u16, Account>>)
    requires
        forall|i: int| 0 <= i < records@.len() ==> record_in_limit(#[trigger] records@[i]),
    ensures
        ({
            match spec_run(Map::empty(), records@) {
                Result::Ok(m) => result is Ok && ledger_snap(result->Ok_0@) == m,
                Result::Err(e) => result == ReaderResult::<HashMap<u16, Account>>::Err(e),
            }
        }),
{
    let mut accounts: HashMap<u16, Account> = HashMap::new();
    assert(ledger_snap(accounts@) =~= Map::<u16, AccountSnap>::empty());
    assert(records@.skip(0) =~= records@);
    let mut idx: usize = 0;
    while idx < records.len()
        invariant
            0 <= idx <= records@.len(),
            forall|i: int| 0 <= i < records@.len() ==> record_in_limit(#[trigger] records@[i]),
            spec_run(Map::empty(), records@) == spec_run(
                ledger_snap(accounts@),
                records@.skip(idx as int),
            ),
            forall|k: u16|
                accounts@.contains_key(k) ==> snap_bounded(
                    (#[trigger] accounts@[k])@,
                    idx as int,
                ),
        decreases records@.len() - idx,
    {
        let r = records[idx];
        let ghost pre = accounts@;
        let mut account: Account = match accounts.remove(&r.client_id) {
            Some(a) => a,
            None => Account::default(),
        };
        let ghost a0 = account@;
        proof {
            assert(records@.skip(idx as int).first() == records@[idx as int]);
            if pre.contains_key(r.client_id) {
                assert(ledger_snap(pre)[r.client_id] == a0);
            }
            lemma_apply_bounded(a0, r, idx as int);
        }
        let res = process_transaction_record(&r, &mut account);
        match res {
            Ok(_) => {
                accounts.insert(r.client_id, account);
                proof {
                    assert(ledger_snap(accounts@) =~= ledger_snap(pre).insert(
                        r.client_id,
                        spec_apply(a0, r),
                    ));
                    assert(records@.skip(idx as int).drop_first() =~= records@.skip(
                        idx as int + 1,
                    ));
                    assert forall|k: u16| accounts@.contains_key(k) implies snap_bounded(
                        (#[trigger] accounts@[k])@,
                        idx as int + 1,
                    ) by {
                        if k == r.client_id {
                        } else {
                            lemma_snap_bounded_mono(accounts@[k]@, idx as int, idx as int + 1);
                        }
                    }
                }
                idx = idx + 1;
            },
            Err(e) => {
                return Err(e);
            },
        }
    }
    assert(records@.skip(records@.len() as int) =~= Seq::<Record>::empty());
    Ok(accounts)
}

/// Where the final component of a path begins: the index just past the last
/// `/` separator, or 0 when there is none.
pub open spec fn spec_name_start(s: Seq<char>) -> int
    decreases s.len(),
{
    if s.len() == 0 {
        0
    } else if s.last() == '/' {
        s.len() as int
    } else {
        spec_name_start(s.drop_last())
    }
}

/// The index of the last `.` in a file name, or -1 when it has none.
pub open spec fn spec_last_dot(name: Seq<char>) -> int
    decreases name.len(),
{
    if name.len() == 0 {
        -1
    } else if name.last() == '.' {
        name.len() - 1
    } else {
        spec_last_dot(name.drop_last())
    }
}

/// Whether a path's final component ends in a `csv` extension: the part
/// after the component's last dot is exactly `csv`, and that dot is not the
/// component's first character (a leading dot marks a hidden file, not an
/// extension).
pub open spec fn spec_has_csv_extension(s: Seq<char>) -> bool {
    let name = s.skip(spec_name_start(s));
    let d = spec_last_dot(name);
    d > 0 && name.skip(d + 1) == seq!['c', 's', 'v']
}

/// Decides `spec_has_csv_extension` for a path.
fn has_csv_extension(s: &str) -> (result: bool)
    ensures
        result == spec_has_csv_extension(s@),
{
    let n: usize = s.unicode_len();
    proof {
        assert(s@.take(n as int) =~= s@);
    }
    // find where the final path component starts
    let mut j: usize = n;
    while j > 0
        invariant_except_break
            j <= n,
            n == s@.len(),
            spec_name_start(s@) == spec_name_start(s@.take(j as int)),
        ensures
            j <= n,
            n == s@.len(),
            spec_name_start(s@) == j,
        decreases j,
    {
        if s.get_char(j - 1) == '/' {
            proof {
                assert(s@.take(j as int).last() == s@[j as int - 1]);
            }
            break;
        }
        proof {
            assert(s@.take(j as int).last() == s@[j as int - 1]);
            assert(s@.take(j as int).drop_last() =~= s@.take(j as int - 1));
        }
        j = j - 1;
    }
    if j == 0 {
        proof {
            assert(s@.take(0) =~= Seq::<char>::empty());
        }
    }
    let name_start: usize = j;
    let ghost name = s@.skip(name_start as int);
    proof {
        assert(name.take(n - name_start) =~= name);
    }
    // find the last dot of the final component
    let mut k: usize = n;
    let mut dot: usize = 0;
    let mut has_dot: bool = false;
    while k > name_start
        invariant_except_break
            name_start <= k <= n,
            n == s@.len(),
            name == s@.skip(name_start as int),
            spec_last_dot(name) == spec_last_dot(name.take(k - name_start)),
            !has_dot,
        ensures
            name_start <= k <= n,
            n == s@.len(),
            name == s@.skip(name_start as int),
            has_dot ==> name_start < k && spec_last_dot(name) == k - 1 - name_start && dot == k
                - 1,
            !has_dot ==> spec_last_dot(name) == -1,
        decreases k,
    {
        proof {
            assert(name.take(k - name_start).last() == s@[k as int - 1]);
        }
        if s.get_char(k - 1) == '.' {
            dot = k - 1;
            has_dot = true;
            break;
        }
        proof {
            assert(name.take(k - name_start).drop_last() =~= name.take(k - 1 - name_start));
        }
        k = k - 1;
    }
    if !has_dot {
        proof {
            assert(name.take(0) =~= Seq::<char>::empty());
        }
        return false;
    }
    // the dot must not open the component, and what follows it must be csv
    if dot <= name_start {
        return false;
    }
    let ghost d = spec_last_dot(name);
    proof {
        assert(d == dot - name_start);
    }
    if n - dot != 4 {
        proof {
            assert(name.skip(d + 1).len() == n - dot - 1);
            assert(seq!['c', 's', 'v'].len() == 3);
        }
        return false;
    }
    let ext_ok: bool = s.get_char(dot + 1) == 'c' && s.get_char(dot + 2) == 's' && s.get_char(
        dot + 3,
    ) == 'v';
    proof {
        if ext_ok {
            assert(name.skip(d + 1) =~= seq!['c', 's', 'v']);
        } else {
            assert(name.skip(d + 1)[0] == s@[dot + 1]);
            assert(name.skip(d + 1)[1] == s@[dot + 2]);
            assert(name.skip(d + 1)[2] == s@[dot + 3]);
        }
    }
    ext_ok
}

/// Validates the file path handed on the command line. The caller performs
/// the one file-system probe itself and passes the outcome in `file_exists`;
/// everything this function decides is pure: a path argument must be
/// present, must carry a `csv` extension, and must name an existing file,
/// checked in that order.
pub fn get_file_path(args: &Vec<String>, file_exists: bool) -> (result: ReaderResult<String>)
    ensures
        args@.len() < 2 ==> result == ReaderResult::<String>::Err(ReaderError::MissingArgError),
        args@.len() >= 2 && !spec_has_csv_extension(args@[1]@) ==> result == ReaderResult::<
            String,
        >::Err(ReaderError::InvalidExtensionError),
        args@.len() >= 2 && spec_has_csv_extension(args@[1]@) && !file_exists ==> (result
            matches ReaderResult::<String>::Err(ReaderError::NonExistentFileError(p)) && p@
            == args@[1]@),
        args@.len() >= 2 && spec_has_csv_extension(args@[1]@) && file_exists ==> (result
            matches ReaderResult::<String>::Ok(p) && p@ == args@[1]@),
{
    // error when an argument for file path wasn't provided
    if args.len() < 2 {
        return Err(ReaderError::MissingArgError);
    }
    let path: &String = &args[1];
    // error when the file extension is incorrect
    if !has_csv_extension(path.as_str()) {
        return Err(ReaderError::InvalidExtensionError);
    }
    // error when the file doesn't exist (the caller has probed the file system)
    if !file_exists {
        return Err(ReaderError::NonExistentFileError(path.clone()));
    }
    Ok(path.clone())
}

} // verus!
