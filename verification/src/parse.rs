//! Decoding of one raw input row into a [`Record`].
//!
//! A row holds comma-separated fields: transaction type, client id,
//! transaction id, and an optional amount; whitespace around fields is
//! tolerated, the type is matched case-insensitively, and the amount is a
//! decimal with up to four fractional digits. The grammar is stated by the
//! `spec_*` functions below, and [`parse_record`] is proved to decide it
//! exactly.

use crate::mapper::TransactionType;
use crate::reader::{record_in_limit, Record, AMOUNT_LIMIT};
use vstd::prelude::*;
use vstd::string::StrSliceExecFns;

verus! {

/// The whitespace tolerated around a field.
pub open spec fn spec_is_space(c: char) -> bool {
    c == ' ' || c == '\t'
}

/// A decimal digit.
pub open spec fn spec_is_digit(c: char) -> bool {
    '0' <= c <= '9'
}

/// The numeric value of a decimal digit.
pub open spec fn spec_digit_val(c: char) -> int {
    c as int - '0' as int
}

/// A field with its leading whitespace removed.
pub open spec fn spec_trim_start(s: Seq<char>) -> Seq<char>
    decreases s.len(),
{
    if s.len() > 0 && spec_is_space(s.first()) {
        spec_trim_start(s.drop_first())
    } else {
        s
    }
}

/// A field with its trailing whitespace removed.
pub open spec fn spec_trim_end(s: Seq<char>) -> Seq<char>
    decreases s.len(),
{
    if s.len() > 0 && spec_is_space(s.last()) {
        spec_trim_end(s.drop_last())
    } else {
        s
    }
}

/// A field with whitespace removed on both sides.
pub open spec fn spec_trim(s: Seq<char>) -> Seq<char> {
    spec_trim_end(spec_trim_start(s))
}

/// A row split at its commas. Splitting never yields an empty field list:
/// an empty row is one empty field.
pub open spec fn spec_split_commas(s: Seq<char>) -> Seq<Seq<char>>
    decreases s.len(),
{
    if s.len() == 0 {
        seq![Seq::<char>::empty()]
    } else if s.first() == ',' {
        seq![Seq::<char>::empty()] + spec_split_commas(s.drop_first())
    } else {
        let rest = spec_split_commas(s.drop_first());
        rest.update(0, seq![s.first()] + rest[0])
    }
}

/// A non-empty, all-digit field.
pub open spec fn spec_all_digits(s: Seq<char>) -> bool {
    s.len() > 0 && forall|i: int| 0 <= i < s.len() ==> spec_is_digit(#[trigger] s[i])
}

/// The number an all-digit field denotes.
pub open spec fn spec_digits_val(s: Seq<char>) -> int
    decreases s.len(),
{
    if s.len() == 0 {
        0
    } else {
        10 * spec_digits_val(s.drop_last()) + spec_digit_val(s.last())
    }
}

/// A trimmed field parses as a client id exactly when it is all digits and
/// its value fits in sixteen bits.
pub open spec fn spec_parse_u16(s: Seq<char>) -> Option<u16> {
    if spec_all_digits(s) && spec_digits_val(s) <= u16::MAX {
        Option::Some(spec_digits_val(s) as u16)
    } else {
        Option::None
    }
}

/// A trimmed field parses as a transaction id exactly when it is all digits
/// and its value fits in thirty-two bits.
pub open spec fn spec_parse_u32(s: Seq<char>) -> Option<u32> {
    if spec_all_digits(s) && spec_digits_val(s) <= u32::MAX {
        Option::Some(spec_digits_val(s) as u32)
    } else {
        Option::None
    }
}

/// The index of the first `.` in a field, or -1 when it has none.
pub open spec fn spec_dot_pos(s: Seq<char>) -> int
    decreases s.len(),
{
    if s.len() == 0 {
        -1
    } else if s.first() == '.' {
        0
    } else if spec_dot_pos(s.drop_first()) == -1 {
        -1
    } else {
        spec_dot_pos(s.drop_first()) + 1
    }
}

/// What one fractional digit is worth in ten-thousandths, by the number of
/// fractional digits present.
pub open spec fn spec_frac_scale(k: int) -> int {
    if k == 1 {
        1000
    } else if k == 2 {
        100
    } else if k == 3 {
        10
    } else {
        1
    }
}

/// The magnitude of an unsigned decimal amount, in ten-thousandths of a
/// unit: an all-digit integer part, optionally followed by a dot and one to
/// four fractional digits.
pub open spec fn spec_amount_mag(s: Seq<char>) -> Option<int> {
    let d = spec_dot_pos(s);
    if d == -1 {
        if spec_all_digits(s) {
            Option::Some(10000 * spec_digits_val(s))
        } else {
            Option::None
        }
    } else {
        let ip = s.take(d);
        let fp = s.skip(d + 1);
        if spec_all_digits(ip) && spec_all_digits(fp) && 1 <= fp.len() <= 4 {
            Option::Some(
                10000 * spec_digits_val(ip) + spec_frac_scale(fp.len() as int)
                    * spec_digits_val(fp),
            )
        } else {
            Option::None
        }
    }
}

/// A trimmed field parses as an amount exactly when, after an optional
/// leading minus sign, it is a decimal magnitude no larger than
/// `AMOUNT_LIMIT`.
pub open spec fn spec_parse_amount(s: Seq<char>) -> Option<i128> {
    if s.len() > 0 && s.first() == '-' {
        match spec_amount_mag(s.drop_first()) {
            Option::Some(v) => if v <= AMOUNT_LIMIT {
                Option::Some((-v) as i128)
            } else {
                Option::None
            },
            Option::None => Option::None,
        }
    } else {
        match spec_amount_mag(s) {
            Option::Some(v) => if v <= AMOUNT_LIMIT {
                Option::Some(v as i128)
            } else {
                Option::None
            },
            Option::None => Option::None,
        }
    }
}

/// A row character matches a lowercase keyword character either exactly or
/// as its uppercase counterpart.
pub open spec fn spec_lower_eq(c: char, l: char) -> bool {
    c == l || ('a' <= l <= 'z' && c as int == l as int - 32)
}

/// A trimmed field matches a lowercase keyword case-insensitively.
pub open spec fn spec_match_kw(s: Seq<char>, kw: Seq<char>) -> bool {
    s.len() == kw.len() && forall|i: int|
        0 <= i < s.len() ==> spec_lower_eq(#[trigger] s[i], kw[i])
}

/// A trimmed field parses as a transaction type exactly when it matches one
/// of the five type names, case-insensitively.
pub open spec fn spec_parse_type(s: Seq<char>) -> Option<TransactionType> {
    if spec_match_kw(s, "deposit"@) {
        Option::Some(TransactionType::Deposit)
    } else if spec_match_kw(s, "withdrawal"@) {
        Option::Some(TransactionType::Withdrawal)
    } else if spec_match_kw(s, "dispute"@) {
        Option::Some(TransactionType::Dispute)
    } else if spec_match_kw(s, "resolve"@) {
        Option::Some(TransactionType::Resolve)
    } else if spec_match_kw(s, "chargeback"@) {
        Option::Some(TransactionType::Chargeback)
    } else {
        Option::None
    }
}

/// A whole row parses exactly when it has three or four comma-separated
/// fields whose trimmed contents are a transaction type, a client id, a
/// transaction id, and (when a fourth field is present and non-empty) an
/// amount. A missing or empty amount field decodes to `None`.
pub open spec fn spec_parse_record(s: Seq<char>) -> Option<Record> {
    let fs = spec_split_commas(s);
    if fs.len() == 3 || fs.len() == 4 {
        let t = spec_parse_type(spec_trim(fs[0]));
        let c = spec_parse_u16(spec_trim(fs[1]));
        let x = spec_parse_u32(spec_trim(fs[2]));
        let af = if fs.len() == 4 {
            spec_trim(fs[3])
        } else {
            Seq::<char>::empty()
        };
        match (t, c, x) {
            (Option::Some(t), Option::Some(c), Option::Some(x)) => {
                if af.len() == 0 {
                    Option::Some(
                        Record {
                            transaction_type: t,
                            client_id: c,
                            transaction_id: x,
                            amount: Option::None,
                        },
                    )
                } else {
                    match spec_parse_amount(af) {
                        Option::Some(a) => Option::Some(
                            Record {
                                transaction_type: t,
                                client_id: c,
                                transaction_id: x,
                                amount: Option::Some(a),
                            },
                        ),
                        Option::None => Option::None,
                    }
                }
            },
            _ => Option::None,
        }
    } else {
        Option::None
    }
}

/// An all-digit field denotes a nonnegative number.
proof fn lemma_digits_nonneg(s: Seq<char>)
    requires
        forall|i: int| 0 <= i < s.len() ==> spec_is_digit(#[trigger] s[i]),
    ensures
        spec_digits_val(s) >= 0,
    decreases s.len(),
{
    if s.len() > 0 {
        lemma_digits_nonneg(s.drop_last());
    }
}

/// A prefix of an all-digit field denotes at most what the whole field
/// denotes.
proof fn lemma_digits_take_le(s: Seq<char>, j: int)
    requires
        forall|i: int| 0 <= i < s.len() ==> spec_is_digit(#[trigger] s[i]),
        0 <= j <= s.len(),
    ensures
        spec_digits_val(s.take(j)) <= spec_digits_val(s),
    decreases s.len() - j,
{
    if j == s.len() {
        assert(s.take(j) =~= s);
    } else {
        assert(s.take(j + 1).drop_last() =~= s.take(j));
        assert(forall|i: int| 0 <= i < s.take(j).len() ==> spec_is_digit(#[trigger] s.take(j)[i]));
        lemma_digits_nonneg(s.take(j));
        lemma_digits_take_le(s, j + 1);
    }
}

/// Reads the digits of `f[from..to]` as a number, refusing the range unless
/// it is non-empty, all digits, and denotes at most `cap`.
fn digits_value_capped(f: &Vec<char>, from: usize, to: usize, cap: u64) -> (result: Option<u64>)
    requires
        from <= to <= f@.len(),
        cap <= 1_000_000_000_000,
    ensures
        ({
            let s = f@.subrange(from as int, to as int);
            match result {
                Option::Some(v) => spec_all_digits(s) && spec_digits_val(s) == v && v <= cap,
                Option::None => !(spec_all_digits(s) && spec_digits_val(s) <= cap),
            }
        }),
{
    let ghost s = f@.subrange(from as int, to as int);
    if from == to {
        return None;
    }
    let mut acc: u64 = 0;
    let mut i: usize = from;
    while i < to
        invariant
            from <= i <= to <= f@.len(),
            s == f@.subrange(from as int, to as int),
            cap <= 1_000_000_000_000,
            acc <= cap,
            forall|k: int| 0 <= k < i - from ==> spec_is_digit(#[trigger] s[k]),
            acc == spec_digits_val(s.take(i - from)),
        decreases to - i,
    {
        let c = f[i];
        proof {
            assert(s[i - from] == f@[i as int]);
        }
        if !(c >= '0' && c <= '9') {
            return None;
        }
        let d: u64 = (c as u32 - '0' as u32) as u64;
        proof {
            assert(s.take(i + 1 - from).drop_last() =~= s.take(i - from));
            assert(s.take(i + 1 - from).last() == s[i - from]);
        }
        if acc * 10 + d > cap {
            proof {
                if spec_all_digits(s) {
                    lemma_digits_take_le(s, i + 1 - from);
                }
            }
            return None;
        }
        acc = acc * 10 + d;
        i = i + 1;
    }
    proof {
        assert(s.take(to - from) =~= s);
    }
    Some(acc)
}

/// Removes the whitespace around a field, yielding its trimmed content.
fn trim_field(f: &Vec<char>) -> (result: Vec<char>)
    ensures
        result@ == spec_trim(f@),
{
    let n = f.len();
    proof {
        assert(f@.skip(0) =~= f@);
    }
    // drop leading whitespace
    let mut a: usize = 0;
    while a < n && (f[a] == ' ' || f[a] == '\t')
        invariant
            0 <= a <= n,
            n == f@.len(),
            spec_trim_start(f@) == spec_trim_start(f@.skip(a as int)),
        decreases n - a,
    {
        proof {
            assert(f@.skip(a as int).first() == f@[a as int]);
            assert(f@.skip(a as int).drop_first() =~= f@.skip(a as int + 1));
        }
        a = a + 1;
    }
    proof {
        if a < n {
            assert(f@.skip(a as int).first() == f@[a as int]);
        }
        assert(spec_trim_start(f@) == f@.skip(a as int));
    }
    let ghost g = f@.skip(a as int);
    proof {
        assert(g.take(n - a) =~= g);
    }
    // drop trailing whitespace
    let mut b: usize = n;
    while b > a && (f[b - 1] == ' ' || f[b - 1] == '\t')
        invariant
            a <= b <= n,
            n == f@.len(),
            g == f@.skip(a as int),
            spec_trim_end(g) == spec_trim_end(g.take(b - a)),
        decreases b,
    {
        proof {
            assert(g.take(b - a).last() == f@[b as int - 1]);
            assert(g.take(b - a).drop_last() =~= g.take(b - 1 - a));
        }
        b = b - 1;
    }
    proof {
        if b > a {
            assert(g.take(b - a).last() == f@[b as int - 1]);
        }
        assert(spec_trim_end(g) == g.take(b - a));
    }
    // copy out the middle
    let mut out: Vec<char> = Vec::new();
    let mut i: usize = a;
    while i < b
        invariant
            a <= i <= b <= n,
            n == f@.len(),
            out@ == f@.subrange(a as int, i as int),
        decreases b - i,
    {
        out.push(f[i]);
        proof {
            assert(f@.subrange(a as int, i as int + 1) =~= f@.subrange(a as int, i as int).push(
                f@[i as int],
            ));
        }
        i = i + 1;
    }
    proof {
        assert(f@.subrange(a as int, b as int) =~= g.take(b - a));
    }
    out
}

/// The fields of a split row, each abstracted to its character sequence.
pub open spec fn views_of(fields: Seq<Vec<char>>) -> Seq<Seq<char>> {
    fields.map_values(|f: Vec<char>| f@)
}

/// Splits a row at its commas.
fn split_commas(s: &str) -> (fields: Vec<Vec<char>>)
    ensures
        views_of(fields@) == spec_split_commas(s@),
        fields@.len() >= 1,
    decreases s@.len(),
{
    let n = s.unicode_len();
    if n == 0 {
        let mut fields: Vec<Vec<char>> = Vec::new();
        fields.push(Vec::new());
        proof {
            assert(views_of(fields@) =~= seq![Seq::<char>::empty()]);
        }
        fields
    } else {
        let c0 = s.get_char(0);
        let rest = s.substring_char(1, n);
        proof {
            assert(rest@ =~= s@.drop_first());
        }
        let mut fields = split_commas(rest);
        if c0 == ',' {
            fields.insert(0, Vec::new());
            proof {
                assert(views_of(fields@) =~= seq![Seq::<char>::empty()] + spec_split_commas(
                    s@.drop_first(),
                ));
            }
            fields
        } else {
            let ghost rest_fields = views_of(fields@);
            let mut first = fields.remove(0);
            first.insert(0, c0);
            fields.insert(0, first);
            proof {
                assert(first@ =~= seq![s@.first()] + rest_fields[0]);
                assert(views_of(fields@) =~= rest_fields.update(
                    0,
                    seq![s@.first()] + rest_fields[0],
                ));
            }
            fields
        }
    }
}

/// If a field's first dot stands at `d`, that is what `spec_dot_pos` finds.
proof fn lemma_dot_pos_found(s: Seq<char>, d: int)
    requires
        0 <= d < s.len(),
        s[d] == '.',
        forall|i: int| 0 <= i < d ==> s[i] != '.',
    ensures
        spec_dot_pos(s) == d,
    decreases d,
{
    if d > 0 {
        lemma_dot_pos_found(s.drop_first(), d - 1);
    }
}

/// A field without a dot has `spec_dot_pos` -1.
proof fn lemma_dot_pos_none(s: Seq<char>)
    requires
        forall|i: int| 0 <= i < s.len() ==> s[i] != '.',
    ensures
        spec_dot_pos(s) == -1,
    decreases s.len(),
{
    if s.len() > 0 {
        lemma_dot_pos_none(s.drop_first());
    }
}

/// Short all-digit fields denote small numbers: up to four digits stay
/// below ten thousand.
proof fn lemma_digits_bounds(s: Seq<char>)
    requires
        forall|i: int| 0 <= i < s.len() ==> spec_is_digit(#[trigger] s[i]),
    ensures
        s.len() == 0 ==> spec_digits_val(s) == 0,
        s.len() == 1 ==> spec_digits_val(s) <= 9,
        s.len() == 2 ==> spec_digits_val(s) <= 99,
        s.len() == 3 ==> spec_digits_val(s) <= 999,
        s.len() == 4 ==> spec_digits_val(s) <= 9999,
    decreases s.len(),
{
    if s.len() > 0 {
        lemma_digits_bounds(s.drop_last());
        assert(spec_is_digit(s[s.len() - 1]));
        assert(spec_digit_val(s.last()) <= 9);
    }
}

/// Reads an unsigned decimal magnitude, in ten-thousandths, refusing the
/// field when it does not match the grammar or exceeds `AMOUNT_LIMIT`.
fn parse_mag(f: &Vec<char>) -> (result: Option<u64>)
    ensures
        match result {
            Option::Some(v) => spec_amount_mag(f@) == Option::<int>::Some(v as int) && v
                <= 100_000_009_999_000,
            Option::None => spec_amount_mag(f@) is None || spec_amount_mag(f@)->Some_0
                > AMOUNT_LIMIT,
        },
{
    let n = f.len();
    // find the first dot, if any
    let mut i: usize = 0;
    let mut dot: usize = 0;
    let mut has_dot: bool = false;
    while i < n
        invariant_except_break
            0 <= i <= n,
            n == f@.len(),
            !has_dot,
            forall|k: int| 0 <= k < i ==> f@[k] != '.',
        ensures
            n == f@.len(),
            has_dot ==> dot < n && f@[dot as int] == '.' && (forall|k: int|
                0 <= k < dot ==> f@[k] != '.'),
            !has_dot ==> forall|k: int| 0 <= k < n ==> f@[k] != '.',
        decreases n - i,
    {
        if f[i] == '.' {
            dot = i;
            has_dot = true;
            break;
        }
        i = i + 1;
    }
    if !has_dot {
        proof {
            lemma_dot_pos_none(f@);
        }
        match digits_value_capped(f, 0, n, 10_000_000_000) {
            Some(vi) => {
                proof {
                    assert(f@.subrange(0, n as int) =~= f@);
                }
                Some(vi * 10000)
            },
            None => {
                proof {
                    assert(f@.subrange(0, n as int) =~= f@);
                    if spec_all_digits(f@) {
                        lemma_digits_nonneg(f@);
                    }
                }
                None
            },
        }
    } else {
        proof {
            lemma_dot_pos_found(f@, dot as int);
        }
        let ghost ip = f@.take(dot as int);
        let ghost fp = f@.skip(dot as int + 1);
        proof {
            assert(ip =~= f@.subrange(0, dot as int));
            assert(fp =~= f@.subrange(dot as int + 1, n as int));
        }
        let fl: usize = n - dot - 1;
        if fl < 1 || fl > 4 {
            return None;
        }
        let vi: u64 = match digits_value_capped(f, 0, dot, 10_000_000_000) {
            Some(v) => v,
            None => {
                proof {
                    if spec_all_digits(ip) && spec_all_digits(fp) {
                        lemma_digits_nonneg(fp);
                    }
                }
                return None;
            },
        };
        let vf: u64 = match digits_value_capped(f, dot + 1, n, 9999) {
            Some(v) => v,
            None => {
                proof {
                    if spec_all_digits(fp) {
                        lemma_digits_bounds(fp);
                    }
                }
                return None;
            },
        };
        let scale: u64 = if fl == 1 {
            1000
        } else if fl == 2 {
            100
        } else if fl == 3 {
            10
        } else {
            1
        };
        proof {
            assert(vf * scale <= 9_999_000) by (nonlinear_arith)
                requires
                    vf <= 9999,
                    scale <= 1000,
                    0 <= vf,
                    0 <= scale,
            ;
            assert(scale == spec_frac_scale(fp.len() as int));
            assert(vf * scale == spec_frac_scale(fp.len() as int) * spec_digits_val(fp)) by (
            nonlinear_arith)
                requires
                    vf == spec_digits_val(fp),
                    scale == spec_frac_scale(fp.len() as int),
            ;
        }
        Some(vi * 10000 + vf * scale)
    }
}

/// Reads a trimmed amount field: an optional minus sign followed by a
/// decimal magnitude within `AMOUNT_LIMIT`.
fn parse_amount_field(f: &Vec<char>) -> (result: Option<i128>)
    ensures
        result == spec_parse_amount(f@),
        result matches Some(a) ==> -AMOUNT_LIMIT <= a <= AMOUNT_LIMIT,
{
    let n = f.len();
    if n > 0 && f[0] == '-' {
        let mut m: Vec<char> = Vec::new();
        let mut i: usize = 1;
        while i < n
            invariant
                1 <= i <= n,
                n == f@.len(),
                m@ == f@.subrange(1, i as int),
            decreases n - i,
        {
            m.push(f[i]);
            proof {
                assert(f@.subrange(1, i as int + 1) =~= f@.subrange(1, i as int).push(
                    f@[i as int],
                ));
            }
            i = i + 1;
        }
        proof {
            assert(m@ =~= f@.drop_first());
        }
        match parse_mag(&m) {
            Some(v) => {
                if v <= 100_000_000_000_000 {
                    Some(-(v as i128))
                } else {
                    None
                }
            },
            None => None,
        }
    } else {
        match parse_mag(f) {
            Some(v) => {
                if v <= 100_000_000_000_000 {
                    Some(v as i128)
                } else {
                    None
                }
            },
            None => None,
        }
    }
}

/// Decides `spec_lower_eq` for one character against a lowercase keyword
/// character.
fn char_lower_eq(c: char, l: char) -> (result: bool)
    ensures
        result == spec_lower_eq(c, l),
{
    c == l || ('a' <= l && l <= 'z' && (c as u32) + 32 == (l as u32))
}

/// Decides whether a trimmed field matches a lowercase keyword,
/// case-insensitively.
fn field_matches_kw(f: &Vec<char>, kw: &str) -> (result: bool)
    ensures
        result == spec_match_kw(f@, kw@),
{
    let m = kw.unicode_len();
    if f.len() != m {
        return false;
    }
    let mut i: usize = 0;
    while i < m
        invariant
            0 <= i <= m,
            m == kw@.len(),
            f@.len() == m,
            forall|k: int| 0 <= k < i ==> spec_lower_eq(#[trigger] f@[k], kw@[k]),
        decreases m - i,
    {
        if !char_lower_eq(f[i], kw.get_char(i)) {
            return false;
        }
        i = i + 1;
    }
    true
}

/// Reads a trimmed type field as one of the five transaction type names.
fn parse_type_field(f: &Vec<char>) -> (result: Option<TransactionType>)
    ensures
        result == spec_parse_type(f@),
{
    if field_matches_kw(f, "deposit") {
        Some(TransactionType::Deposit)
    } else if field_matches_kw(f, "withdrawal") {
        Some(TransactionType::Withdrawal)
    } else if field_matches_kw(f, "dispute") {
        Some(TransactionType::Dispute)
    } else if field_matches_kw(f, "resolve") {
        Some(TransactionType::Resolve)
    } else if field_matches_kw(f, "chargeback") {
        Some(TransactionType::Chargeback)
    } else {
        None
    }
}

/// Decodes one raw input row into a record, exactly when the row matches
/// the grammar of `spec_parse_record`. Any decoded amount is within
/// `AMOUNT_LIMIT`.
pub fn parse_record(line: &str) -> (result: Option<Record>)
    ensures
        result == spec_parse_record(line@),
        result matches Some(r) ==> record_in_limit(r),
{
    let fields = split_commas(line);
    let nf = fields.len();
    if !(nf == 3 || nf == 4) {
        return None;
    }
    let tf = trim_field(&fields[0]);
    let t = match parse_type_field(&tf) {
        Some(t) => t,
        None => {
            return None;
        },
    };
    let cf = trim_field(&fields[1]);
    let cn = cf.len();
    proof {
        assert(cf@.subrange(0, cn as int) =~= cf@);
    }
    let c: u16 = match digits_value_capped(&cf, 0, cn, 65535) {
        Some(v) => v as u16,
        None => {
            return None;
        },
    };
    let xf = trim_field(&fields[2]);
    let xn = xf.len();
    proof {
        assert(xf@.subrange(0, xn as int) =~= xf@);
    }
    let x: u32 = match digits_value_capped(&xf, 0, xn, 4_294_967_295) {
        Some(v) => v as u32,
        None => {
            return None;
        },
    };
    let amount: Option<i128> = if nf == 4 {
        let af = trim_field(&fields[3]);
        if af.len() == 0 {
            None
        } else {
            match parse_amount_field(&af) {
                Some(a) => Some(a),
                None => {
                    return None;
                },
            }
        }
    } else {
        None
    };
    Some(Record { transaction_type: t, client_id: c, transaction_id: x, amount })
}

} // verus!
