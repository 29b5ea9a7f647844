//! Rendering of final account state for the output side of the engine:
//! one record per client, with every balance shown with exactly four
//! decimal places.

use crate::mapper::Account;
use vstd::prelude::*;

verus! {

/// The details of a client account as one output record, balances still in
/// ten-thousandths of a unit.
#[derive(Debug, Clone, Copy, PartialEq, Eq, Structural)]
pub struct AccountRecord {
    /// The unique ID of the client
    pub client: u16,
    /// The available funds in the account
    pub available: i128,
    /// The held funds in the account
    pub held: i128,
    /// The total funds in the account
    pub total: i128,
    /// Whether the account is locked
    pub locked: bool,
}

/// The output record of an account.
pub fn account_record(client: u16, account: &Account) -> (result: AccountRecord)
    ensures
        result.client == client,
        result.available == account.available_funds,
        result.held == account.held_funds,
        result.total == account.total_funds,
        result.locked == account.is_locked,
{
    AccountRecord {
        client,
        available: account.available_funds,
        held: account.held_funds,
        total: account.total_funds,
        locked: account.is_locked,
    }
}

/// The character for one decimal digit.
pub open spec fn spec_digit_char(d: int) -> char {
    if d == 0 {
        '0'
    } else if d == 1 {
        '1'
    } else if d == 2 {
        '2'
    } else if d == 3 {
        '3'
    } else if d == 4 {
        '4'
    } else if d == 5 {
        '5'
    } else if d == 6 {
        '6'
    } else if d == 7 {
        '7'
    } else if d == 8 {
        '8'
    } else {
        '9'
    }
}

/// The decimal digits of a number, most significant first, with no leading
/// zeros except for the number zero itself.
pub open spec fn spec_digits_of(n: nat) -> Seq<char>
    decreases n,
{
    if n < 10 {
        seq![spec_digit_char(n as int)]
    } else {
        spec_digits_of(n / 10) + seq![spec_digit_char(n as int % 10)]
    }
}

/// A fixed-point amount rendered with exactly four decimal places: an
/// optional minus sign, the whole units, a dot, and the four fractional
/// digits.
pub open spec fn spec_format_amount(a: int) -> Seq<char> {
    let mag = if a < 0 {
        -a
    } else {
        a
    };
    let sign: Seq<char> = if a < 0 {
        seq!['-']
    } else {
        Seq::<char>::empty()
    };
    sign + spec_digits_of((mag / 10000) as nat) + seq![
        '.',
        spec_digit_char(mag % 10000 / 1000),
        spec_digit_char(mag % 10000 / 100 % 10),
        spec_digit_char(mag % 10000 / 10 % 10),
        spec_digit_char(mag % 10000 % 10),
    ]
}

/// The character for one decimal digit.
fn digit_char(d: u128) -> (c: char)
    requires
        d < 10,
    ensures
        c == spec_digit_char(d as int),
{
    if d == 0 {
        '0'
    } else if d == 1 {
        '1'
    } else if d == 2 {
        '2'
    } else if d == 3 {
        '3'
    } else if d == 4 {
        '4'
    } else if d == 5 {
        '5'
    } else if d == 6 {
        '6'
    } else if d == 7 {
        '7'
    } else if d == 8 {
        '8'
    } else {
        '9'
    }
}

/// The decimal digits of a number, most significant first.
fn digits_chars(units: u128) -> (out: Vec<char>)
    ensures
        out@ == spec_digits_of(units as nat),
{
    let mut rev: Vec<char> = Vec::new();
    let mut cur: u128 = units;
    proof {
        assert(rev@.reverse() =~= Seq::<char>::empty());
        assert(spec_digits_of(units as nat) + rev@.reverse() =~= spec_digits_of(units as nat));
    }
    loop
        invariant_except_break
            spec_digits_of(units as nat) == spec_digits_of(cur as nat) + rev@.reverse(),
        ensures
            spec_digits_of(units as nat) == rev@.reverse(),
        decreases cur,
    {
        let ghost rev_old = rev@;
        let d: u128 = cur % 10;
        rev.push(digit_char(d));
        let ghost c = spec_digit_char(d as int);
        proof {
            assert(rev@.reverse() =~= seq![c] + rev_old.reverse());
        }
        if cur < 10 {
            proof {
                assert(spec_digits_of(cur as nat) + rev_old.reverse() =~= seq![c]
                    + rev_old.reverse());
            }
            break;
        }
        cur = cur / 10;
        proof {
            assert(spec_digits_of((10 * (cur as nat) + d as nat) as nat) + rev_old.reverse()
                =~= spec_digits_of(cur as nat) + (seq![c] + rev_old.reverse()));
        }
    }
    let n = rev.len();
    let mut out: Vec<char> = Vec::new();
    let mut i: usize = 0;
    proof {
        assert(out@ =~= rev@.reverse().take(0));
    }
    while i < n
        invariant
            0 <= i <= n,
            n == rev@.len(),
            spec_digits_of(units as nat) == rev@.reverse(),
            out@ == rev@.reverse().take(i as int),
        decreases n - i,
    {
        out.push(rev[n - 1 - i]);
        proof {
            assert(rev@.reverse().take(i as int + 1) =~= rev@.reverse().take(i as int).push(
                rev@[n as int - 1 - i],
            ));
        }
        i = i + 1;
    }
    proof {
        assert(rev@.reverse().take(n as int) =~= rev@.reverse());
    }
    out
}

/// Relies on the standard library's `FromIterator` for `String`: collecting
/// characters yields the string of exactly those characters, in order.
#[verifier::external_body]
fn chars_to_string(v: &Vec<char>) -> (s: String)
    ensures
        s@ == v@,
{
    v.iter().collect()
}

/// Renders a fixed-point amount with exactly four decimal places, e.g. an
/// amount of 1008453 ten-thousandths as `100.8453` and -50000 as `-5.0000`.
pub fn format_amount(a: i128) -> (s: String)
    requires
        i128::MIN < a,
    ensures
        s@ == spec_format_amount(a as int),
{
    let neg = a < 0;
    let mag: u128 = if neg {
        (-a) as u128
    } else {
        a as u128
    };
    let units: u128 = mag / 10000;
    let frac: u128 = mag % 10000;
    let mut chars: Vec<char> = Vec::new();
    if neg {
        chars.push('-');
    }
    let mut ds = digits_chars(units);
    chars.append(&mut ds);
    chars.push('.');
    chars.push(digit_char(frac / 1000));
    chars.push(digit_char(frac / 100 % 10));
    chars.push(digit_char(frac / 10 % 10));
    chars.push(digit_char(frac % 10));
    proof {
        assert(chars@ =~= spec_format_amount(a as int));
    }
    chars_to_string(&chars)
}

} // verus!
