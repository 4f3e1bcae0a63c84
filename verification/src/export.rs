//! The text of an export: transactions as rows of fields between commas,
//! amounts in decimal with two places.

use crate::model::TransactionType;
use vstd::prelude::*;
use vstd::string::StringSliceAdditionalSpecFns;

verus! {

/// A transaction as an export shows it, with the names of its accounts
/// and of its category. The amount is in minor units.
#[derive(Debug)]
pub struct ExportRow {
    pub date: String,
    pub transaction_type: TransactionType,
    pub account_name: String,
    pub to_account_name: Option<String>,
    pub category_name: Option<String>,
    pub amount: i64,
    pub memo: Option<String>,
}

/// The decimal digits of a number, the leading one first.
pub open spec fn digits_of(n: nat) -> Seq<u8>
    decreases n,
{
    if n < 10 {
        seq![(48 + n) as u8]
    } else {
        digits_of(n / 10).push((48 + n % 10) as u8)
    }
}

/// The decimal digits of a number.
pub fn decimal_digits(n: u64) -> (r: Vec<u8>)
    ensures
        r@ == digits_of(n as nat),
    decreases n,
{
    if n < 10 {
        let mut out: Vec<u8> = Vec::new();
        out.push(48 + n as u8);
        assert(out@ =~= seq![(48 + n) as u8]);
        out
    } else {
        let mut out = decimal_digits(n / 10);
        out.push(48 + (n % 10) as u8);
        out
    }
}

/// An amount of minor units in decimal: a minus sign for a negative
/// amount, the major units, a point, and two places.
pub open spec fn amount_text(amount: int) -> Seq<u8> {
    let size = if amount < 0 {
        -amount
    } else {
        amount
    };
    let sign = if amount < 0 {
        seq![45u8]
    } else {
        Seq::<u8>::empty()
    };
    sign + digits_of((size / 100) as nat) + seq![
        46u8,
        (48 + (size % 100) / 10) as u8,
        (48 + size % 10) as u8,
    ]
}

/// An amount of minor units as a number with a fraction is written in
/// full: a minus sign for a negative amount, the major units, a point,
/// and the places of the minor units without a zero at the end, one place
/// at least.
pub open spec fn plain_amount_text(amount: int) -> Seq<u8> {
    let size = if amount < 0 {
        -amount
    } else {
        amount
    };
    let sign = if amount < 0 {
        seq![45u8]
    } else {
        Seq::<u8>::empty()
    };
    let places = if size % 100 == 0 {
        seq![48u8]
    } else if size % 10 == 0 {
        seq![(48 + (size % 100) / 10) as u8]
    } else {
        seq![(48 + (size % 100) / 10) as u8, (48 + size % 10) as u8]
    };
    sign + digits_of((size / 100) as nat) + seq![46u8] + places
}

/// Appends bytes to a text.
pub fn push_bytes(out: &mut Vec<u8>, bytes: &[u8])
    ensures
        final(out)@ == old(out)@ + bytes@,
{
    let mut i: usize = 0;
    while i < bytes.len()
        invariant
            i <= bytes.len(),
            out@ == old(out)@ + bytes@.take(i as int),
        decreases bytes.len() - i,
    {
        out.push(bytes[i]);
        proof {
            assert(bytes@.take(i + 1) =~= bytes@.take(i as int).push(bytes@[i as int]));
            assert(out@ =~= old(out)@ + bytes@.take(i + 1));
        }
        i += 1;
    }
    proof {
        assert(bytes@.take(i as int) =~= bytes@);
    }
}

/// Appends an amount of minor units in decimal.
pub fn push_amount(out: &mut Vec<u8>, amount: i64)
    ensures
        final(out)@ == old(out)@ + amount_text(amount as int),
{
    let ghost start = out@;
    let size: u64 = if amount < 0 {
        (-(amount as i128)) as u64
    } else {
        amount as u64
    };
    if amount < 0 {
        out.push(45);
    }
    let digits = decimal_digits(size / 100);
    push_bytes(out, digits.as_slice());
    out.push(46);
    out.push(48 + ((size % 100) / 10) as u8);
    out.push(48 + (size % 10) as u8);
    proof {
        assert(out@ =~= start + amount_text(amount as int));
    }
}

/// An amount of minor units as a number with a fraction is written in
/// full.
pub fn plain_amount(amount: i64) -> (r: Vec<u8>)
    ensures
        r@ == plain_amount_text(amount as int),
{
    let mut out: Vec<u8> = Vec::new();
    let size: u64 = if amount < 0 {
        (-(amount as i128)) as u64
    } else {
        amount as u64
    };
    if amount < 0 {
        out.push(45);
    }
    let digits = decimal_digits(size / 100);
    push_bytes(&mut out, digits.as_slice());
    out.push(46);
    if size % 100 == 0 {
        out.push(48);
    } else if size % 10 == 0 {
        out.push(48 + ((size % 100) / 10) as u8);
    } else {
        out.push(48 + ((size % 100) / 10) as u8);
        out.push(48 + (size % 10) as u8);
    }
    proof {
        assert(out@ =~= plain_amount_text(amount as int));
    }
    out
}

/// A text with every quotation mark written twice.
pub open spec fn doubled(text: Seq<u8>) -> Seq<u8>
    decreases text.len(),
{
    if text.len() == 0 {
        Seq::empty()
    } else if text.last() == 34 {
        doubled(text.drop_last()).push(34).push(34)
    } else {
        doubled(text.drop_last()).push(text.last())
    }
}

/// A text between quotation marks.
pub open spec fn quoted(text: Seq<u8>) -> Seq<u8> {
    seq![34u8] + text + seq![34u8]
}

/// Appends a text between quotation marks, as it is.
pub fn push_quoted(out: &mut Vec<u8>, text: &[u8])
    ensures
        final(out)@ == old(out)@ + quoted(text@),
{
    let ghost start = out@;
    out.push(34);
    push_bytes(out, text);
    out.push(34);
    proof {
        assert(out@ =~= start + quoted(text@));
    }
}

/// Appends a text between quotation marks, every quotation mark in it
/// written twice.
pub fn push_escaped(out: &mut Vec<u8>, text: &[u8])
    ensures
        final(out)@ == old(out)@ + quoted(doubled(text@)),
{
    let ghost start = out@;
    out.push(34);
    let mut i: usize = 0;
    proof {
        assert(text@.take(0) =~= Seq::<u8>::empty());
        assert(out@ =~= start + seq![34u8] + doubled(text@.take(0)));
    }
    while i < text.len()
        invariant
            i <= text.len(),
            out@ == start + seq![34u8] + doubled(text@.take(i as int)),
        decreases text.len() - i,
    {
        let b = text[i];
        proof {
            assert(text@.take(i + 1).drop_last() =~= text@.take(i as int));
            assert(text@.take(i + 1).last() == b);
        }
        if b == 34 {
            out.push(34);
            out.push(34);
        } else {
            out.push(b);
        }
        proof {
            assert(out@ =~= start + seq![34u8] + doubled(text@.take(i + 1)));
        }
        i += 1;
    }
    out.push(34);
    proof {
        assert(text@.take(i as int) =~= text@);
        assert(out@ =~= start + quoted(doubled(text@)));
    }
}

/// The word for a kind of transaction.
pub open spec fn kind_text(kind: TransactionType) -> Seq<u8> {
    match kind {
        TransactionType::Income => "INCOME".spec_bytes(),
        TransactionType::Expense => "EXPENSE".spec_bytes(),
        TransactionType::Transfer => "TRANSFER".spec_bytes(),
    }
}

/// The word for a kind of transaction.
pub fn kind_name(kind: TransactionType) -> (r: &'static str)
    ensures
        r.spec_bytes() == kind_text(kind),
{
    match kind {
        TransactionType::Income => "INCOME",
        TransactionType::Expense => "EXPENSE",
        TransactionType::Transfer => "TRANSFER",
    }
}

/// The bytes of a text that may be missing; none for a missing one.
pub open spec fn text_or_empty(text: Option<String>) -> Seq<u8> {
    match text {
        Some(t) => vstd::utf8::encode_utf8(t@),
        None => Seq::empty(),
    }
}

/// The first line of an export.
pub open spec fn csv_header() -> Seq<u8> {
    "Date,Type,Account,To Account,Category,Amount,Memo\n".spec_bytes()
}

/// The line of a transaction: date, kind, account, destination and
/// category between quotation marks, the amount in decimal, and the memo
/// between quotation marks with its own quotation marks written twice.
pub open spec fn csv_row(row: ExportRow) -> Seq<u8> {
    quoted(vstd::utf8::encode_utf8(row.date@)) + seq![44u8] + quoted(
        kind_text(row.transaction_type),
    ) + seq![44u8] + quoted(vstd::utf8::encode_utf8(row.account_name@)) + seq![44u8] + quoted(
        text_or_empty(row.to_account_name),
    ) + seq![44u8] + quoted(text_or_empty(row.category_name)) + seq![44u8] + amount_text(
        row.amount as int,
    ) + seq![44u8] + quoted(doubled(text_or_empty(row.memo))) + seq![10u8]
}

/// The header and the lines of the first `n` transactions.
pub open spec fn csv_text(rows: Seq<ExportRow>, n: int) -> Seq<u8>
    decreases n,
{
    if n <= 0 {
        csv_header()
    } else {
        csv_text(rows, n - 1) + csv_row(rows[n - 1])
    }
}

fn bytes_or_empty(text: &Option<String>) -> (r: &[u8])
    ensures
        r@ == text_or_empty(*text),
{
    match text {
        Some(t) => t.as_str().as_bytes(),
        None => {
            proof {
                reveal_strlit("");
                assert(""@ =~= Seq::<char>::empty());
            }
            "".as_bytes()
        },
    }
}

/// Appends the line of a transaction.
pub fn push_row(out: &mut Vec<u8>, row: &ExportRow)
    ensures
        final(out)@ == old(out)@ + csv_row(*row),
{
    let ghost start = out@;
    let ghost date = quoted(vstd::utf8::encode_utf8(row.date@));
    let ghost kind = quoted(kind_text(row.transaction_type));
    let ghost account = quoted(vstd::utf8::encode_utf8(row.account_name@));
    let ghost to_account = quoted(text_or_empty(row.to_account_name));
    let ghost category = quoted(text_or_empty(row.category_name));
    let ghost amount = amount_text(row.amount as int);
    let ghost memo = quoted(doubled(text_or_empty(row.memo)));
    let ghost comma = seq![44u8];
    push_quoted(out, row.date.as_str().as_bytes());
    out.push(44);
    assert(out@ =~= start + (date + comma));
    push_quoted(out, kind_name(row.transaction_type).as_bytes());
    out.push(44);
    assert(out@ =~= start + (date + comma + kind + comma));
    push_quoted(out, row.account_name.as_str().as_bytes());
    out.push(44);
    assert(out@ =~= start + (date + comma + kind + comma + account + comma));
    push_quoted(out, bytes_or_empty(&row.to_account_name));
    out.push(44);
    assert(out@ =~= start + (date + comma + kind + comma + account + comma + to_account + comma));
    push_quoted(out, bytes_or_empty(&row.category_name));
    out.push(44);
    assert(out@ =~= start + (date + comma + kind + comma + account + comma + to_account + comma
        + category + comma));
    push_amount(out, row.amount);
    out.push(44);
    assert(out@ =~= start + (date + comma + kind + comma + account + comma + to_account + comma
        + category + comma + amount + comma));
    push_escaped(out, bytes_or_empty(&row.memo));
    out.push(10);
    assert(out@ =~= start + (date + comma + kind + comma + account + comma + to_account + comma
        + category + comma + amount + comma + memo + seq![10u8]));
}

/// The transactions as comma-separated text: a header, then a line for
/// each transaction in the order in which they are given.
pub fn export_transactions_csv(rows: &Vec<ExportRow>) -> (r: Vec<u8>)
    ensures
        r@ == csv_text(rows@, rows@.len() as int),
{
    let mut out: Vec<u8> = Vec::new();
    push_bytes(&mut out, "Date,Type,Account,To Account,Category,Amount,Memo\n".as_bytes());
    let mut i: usize = 0;
    proof {
        assert(out@ =~= csv_text(rows@, 0));
    }
    while i < rows.len()
        invariant
            i <= rows.len(),
            out@ == csv_text(rows@, i as int),
        decreases rows.len() - i,
    {
        push_row(&mut out, &rows[i]);
        i += 1;
    }
    out
}

} // verus!
