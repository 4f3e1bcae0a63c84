//! Exchange rates and the conversion of amounts.
//!
//! A rate is a fraction of two whole numbers, so that the inverse of a
//! stored rate is exact. The rate for a pair of currencies on a date is
//! the most recent one stored for the pair on or before that date; where
//! none is stored for the pair, the most recent one for the reversed
//! pair is inverted.

use crate::balance::{balance_at, balance_of, Scope, BALANCE_LIMIT};
use crate::date::{date_le, date_lt, Date};
use crate::ledger::Ledger;
use crate::model::{
    date_of_text, parse_date, CurrencyCode, EngineError, MAX_ID, MAX_ROWS,
};
use crate::money::{div_round, round_div};
use vstd::prelude::*;
use vstd::string::StringSliceAdditionalSpecFns;

verus! {

/// A currency that the application offers.
#[derive(Debug)]
pub struct SupportedCurrency {
    pub code: String,
    pub name: String,
    pub symbol: String,
}

/// A rate of exchange: `numerator / denominator` units of the target
/// currency for one unit of the source currency.
#[derive(Clone, Copy, Debug, PartialEq, Eq, Structural)]
pub struct Rate {
    pub numerator: u32,
    pub denominator: u32,
}

/// A rate stored for a pair of currencies from a date on.
#[derive(Clone, Copy, Debug, PartialEq, Eq, Structural)]
pub struct ExchangeRate {
    pub id: i64,
    pub from_currency: CurrencyCode,
    pub to_currency: CurrencyCode,
    pub rate: Rate,
    pub effective_date: Date,
}

#[derive(Debug)]
pub struct SetExchangeRateInput {
    pub from_currency: String,
    pub to_currency: String,
    pub rate: Rate,
    pub effective_date: String,
}

/// An amount converted from one currency to another.
#[derive(Clone, Copy, Debug, PartialEq, Eq, Structural)]
pub struct CurrencyConversion {
    pub from_currency: CurrencyCode,
    pub to_currency: CurrencyCode,
    pub original_amount: i64,
    pub converted_amount: i128,
    pub rate_used: Rate,
    pub rate_date: Date,
}

/// The balance of an account in its own currency and in the primary one.
/// A rate of zero says that no rate was found and the balance was passed
/// through as it is.
#[derive(Clone, Copy, Debug, PartialEq, Eq, Structural)]
pub struct ConvertedBalance {
    pub account_id: i64,
    pub original_currency: CurrencyCode,
    pub original_balance: i128,
    pub primary_currency: CurrencyCode,
    pub converted_balance: i128,
    pub rate_used: Rate,
}

/// The latest rate of a pair of currencies, and how many are stored.
#[derive(Clone, Copy, Debug, PartialEq, Eq, Structural)]
pub struct ExchangeRateSummary {
    pub from_currency: CurrencyCode,
    pub to_currency: CurrencyCode,
    pub latest_rate: Rate,
    pub latest_date: Date,
    pub rate_count: usize,
}

pub open spec fn is_space(b: u8) -> bool {
    b == 32 || 9 <= b <= 13
}

pub open spec fn upper(b: u8) -> u8 {
    if 97 <= b <= 122 {
        (b - 32) as u8
    } else {
        b
    }
}

/// The number of blanks that a text begins with.
pub open spec fn leading_blanks(bytes: Seq<u8>) -> int
    decreases bytes.len(),
{
    if bytes.len() == 0 || !is_space(bytes[0]) {
        0
    } else {
        1 + leading_blanks(bytes.skip(1))
    }
}

/// The number of blanks that a text ends with.
pub open spec fn trailing_blanks(bytes: Seq<u8>) -> int
    decreases bytes.len(),
{
    if bytes.len() == 0 || !is_space(bytes.last()) {
        0
    } else {
        1 + trailing_blanks(bytes.drop_last())
    }
}

/// The currency code that a text names: what is left of it without the
/// blanks around it, in upper case, if that is three bytes.
pub open spec fn currency_code_of(bytes: Seq<u8>) -> Option<CurrencyCode> {
    let start = leading_blanks(bytes);
    let end = bytes.len() - trailing_blanks(bytes);
    if end - start == 3 {
        Some(
            CurrencyCode {
                a: upper(bytes[start]),
                b: upper(bytes[start + 1]),
                c: upper(bytes[start + 2]),
            },
        )
    } else {
        None
    }
}

proof fn lemma_leading_blanks(bytes: Seq<u8>, n: int)
    requires
        0 <= n <= bytes.len(),
        forall|k: int| 0 <= k < n ==> is_space(#[trigger] bytes[k]),
        n == bytes.len() || !is_space(bytes[n]),
    ensures
        leading_blanks(bytes) == n,
    decreases n,
{
    if n > 0 {
        let rest = bytes.skip(1);
        assert forall|k: int| 0 <= k < n - 1 implies is_space(#[trigger] rest[k]) by {
            assert(rest[k] == bytes[k + 1]);
        }
        if n < bytes.len() {
            assert(rest[n - 1] == bytes[n]);
        }
        lemma_leading_blanks(rest, n - 1);
    }
}

proof fn lemma_trailing_blanks(bytes: Seq<u8>, n: int)
    requires
        0 <= n <= bytes.len(),
        forall|k: int| bytes.len() - n <= k < bytes.len() ==> is_space(#[trigger] bytes[k]),
        n == bytes.len() || !is_space(bytes[bytes.len() - n - 1]),
    ensures
        trailing_blanks(bytes) == n,
    decreases n,
{
    if n > 0 {
        let rest = bytes.drop_last();
        assert forall|k: int| rest.len() - (n - 1) <= k < rest.len() implies is_space(
            #[trigger] rest[k],
        ) by {
            assert(rest[k] == bytes[k]);
        }
        if n < bytes.len() {
            assert(rest[rest.len() - (n - 1) - 1] == bytes[bytes.len() - n - 1]);
        }
        lemma_trailing_blanks(rest, n - 1);
    }
}

fn to_upper(b: u8) -> (r: u8)
    ensures
        r == upper(b),
{
    if b >= 97 && b <= 122 {
        b - 32
    } else {
        b
    }
}

fn is_blank(b: u8) -> (r: bool)
    ensures
        r == is_space(b),
{
    b == 32 || (b >= 9 && b <= 13)
}

/// Reads a currency code: blanks around it are dropped, letters are put
/// in upper case, and three bytes must be left.
pub fn parse_currency_code(text: &str) -> (r: Result<CurrencyCode, EngineError>)
    ensures
        match r {
            Ok(code) => currency_code_of(text.spec_bytes()) == Some(code),
            Err(e) => e == EngineError::InvalidCurrency && currency_code_of(text.spec_bytes())
                is None,
        },
{
    let bytes = text.as_bytes();
    let len = bytes.len();
    let mut start: usize = 0;
    while start < len && is_blank(bytes[start])
        invariant
            start <= len,
            len == bytes@.len(),
            forall|k: int| 0 <= k < start ==> is_space(#[trigger] bytes@[k]),
        decreases len - start,
    {
        start += 1;
    }
    let mut trailing: usize = 0;
    while trailing < len && is_blank(bytes[len - trailing - 1])
        invariant
            trailing <= len,
            len == bytes@.len(),
            forall|k: int| len - trailing <= k < len ==> is_space(#[trigger] bytes@[k]),
        decreases len - trailing,
    {
        trailing += 1;
    }
    proof {
        lemma_leading_blanks(bytes@, start as int);
        lemma_trailing_blanks(bytes@, trailing as int);
    }
    if trailing <= len - start && len - start - trailing == 3 {
        Ok(
            CurrencyCode {
                a: to_upper(bytes[start]),
                b: to_upper(bytes[start + 1]),
                c: to_upper(bytes[start + 2]),
            },
        )
    } else {
        Err(EngineError::InvalidCurrency)
    }
}

/// The rate of one for one.
pub open spec fn unit_rate() -> Rate {
    Rate { numerator: 1, denominator: 1 }
}

/// The rate in the other direction.
pub open spec fn inverse(r: Rate) -> Rate {
    Rate { numerator: r.denominator, denominator: r.numerator }
}

/// The stored rate is for the pair and not later than the date.
pub open spec fn quotes(r: ExchangeRate, from: CurrencyCode, to: CurrencyCode, date: Date)
    -> bool {
    r.from_currency == from && r.to_currency == to && date_le(r.effective_date, date)
}

/// Some stored rate is for the pair and not later than the date.
pub open spec fn has_quote(
    rates: Seq<ExchangeRate>,
    from: CurrencyCode,
    to: CurrencyCode,
    date: Date,
) -> bool {
    exists|i: int| 0 <= i < rates.len() && quotes(#[trigger] rates[i], from, to, date)
}

/// The rate at `i` is for the pair, not later than the date, and no such
/// rate is more recent.
pub open spec fn is_latest(
    rates: Seq<ExchangeRate>,
    i: int,
    from: CurrencyCode,
    to: CurrencyCode,
    date: Date,
) -> bool {
    &&& 0 <= i < rates.len()
    &&& quotes(rates[i], from, to, date)
    &&& forall|j: int|
        0 <= j < rates.len() && quotes(#[trigger] rates[j], from, to, date) ==> date_le(
            rates[j].effective_date,
            rates[i].effective_date,
        )
}

/// The table of exchange rates as a mathematical value.
pub struct RateTableView {
    pub rates: Seq<ExchangeRate>,
    pub next_id: int,
}

pub open spec fn same_key(a: ExchangeRate, b: ExchangeRate) -> bool {
    a.from_currency == b.from_currency && a.to_currency == b.to_currency && a.effective_date
        == b.effective_date
}

impl RateTableView {
    pub open spec fn wf(self) -> bool {
        &&& self.rates.len() <= MAX_ROWS
        &&& 1 <= self.next_id <= MAX_ID + 1
        &&& forall|i: int|
            0 <= i < self.rates.len() ==> 1 <= (#[trigger] self.rates[i]).id < self.next_id
                && self.rates[i].rate.denominator > 0
        &&& forall|i: int, j: int|
            0 <= i < j < self.rates.len() ==> (#[trigger] self.rates[i]).id != (
            #[trigger] self.rates[j]).id && !same_key(self.rates[i], self.rates[j])
    }
}

/// The table of exchange rates: for a pair of currencies and a date at
/// most one rate.
pub struct RateTable {
    rates: Vec<ExchangeRate>,
    next_id: i64,
}

impl View for RateTable {
    type V = RateTableView;

    closed spec fn view(&self) -> RateTableView {
        RateTableView { rates: self.rates@, next_id: self.next_id as int }
    }
}

/// The place of the most recent rate stored for the pair on or before the
/// date; of several such rates of one date, the first.
pub open spec fn latest_quote(
    rates: Seq<ExchangeRate>,
    from: CurrencyCode,
    to: CurrencyCode,
    date: Date,
) -> Option<int>
    decreases rates.len(),
{
    if rates.len() == 0 {
        None
    } else {
        let front = latest_quote(rates.drop_last(), from, to, date);
        let last = rates.len() - 1;
        if quotes(rates[last], from, to, date) && (front is None || date_lt(
            rates[front.unwrap()].effective_date,
            rates[last].effective_date,
        )) {
            Some(last)
        } else {
            front
        }
    }
}

/// The rate from one currency to another on a date: one for one for the
/// same currency; else the most recent rate stored for the pair on or
/// before the date; else the inverse of the most recent one stored for the
/// reversed pair, unless that rate is zero; else none.
pub open spec fn resolve(rates: Seq<ExchangeRate>, from: CurrencyCode, to: CurrencyCode, date: Date)
    -> Result<ExchangeRate, EngineError> {
    if from == to {
        Ok(
            ExchangeRate {
                id: 0,
                from_currency: from,
                to_currency: to,
                rate: unit_rate(),
                effective_date: date,
            },
        )
    } else {
        match latest_quote(rates, from, to, date) {
            Some(i) => Ok(rates[i]),
            None => match latest_quote(rates, to, from, date) {
                Some(i) => if rates[i].rate.numerator == 0 {
                    Err(EngineError::InvalidStoredRate)
                } else {
                    Ok(
                        ExchangeRate {
                            id: rates[i].id,
                            from_currency: from,
                            to_currency: to,
                            rate: inverse(rates[i].rate),
                            effective_date: rates[i].effective_date,
                        },
                    )
                },
                None => Err(EngineError::NoRateFound),
            },
        }
    }
}

/// What `latest_quote` finds is a rate for the pair on or before the date
/// than which none is more recent, and it finds one wherever there is one.
pub proof fn lemma_latest_quote(
    rates: Seq<ExchangeRate>,
    from: CurrencyCode,
    to: CurrencyCode,
    date: Date,
)
    ensures
        match latest_quote(rates, from, to, date) {
            Some(i) => is_latest(rates, i, from, to, date),
            None => !has_quote(rates, from, to, date),
        },
    decreases rates.len(),
{
    if rates.len() > 0 {
        let front = rates.drop_last();
        let last = rates.len() - 1;
        lemma_latest_quote(front, from, to, date);
        let found = latest_quote(front, from, to, date);
        assert forall|j: int| 0 <= j < front.len() implies front[j] == rates[j] by {}
        match latest_quote(rates, from, to, date) {
            Some(i) => {
                assert forall|j: int|
                    0 <= j < rates.len() && quotes(
                        #[trigger] rates[j],
                        from,
                        to,
                        date,
                    ) implies date_le(rates[j].effective_date, rates[i].effective_date) by {
                    if j < last {
                        assert(quotes(front[j], from, to, date));
                        assert(found is Some);
                        assert(date_le(
                            front[j].effective_date,
                            front[found.unwrap()].effective_date,
                        ));
                    }
                }
            },
            None => {
                assert forall|j: int| 0 <= j < rates.len() implies !quotes(
                    #[trigger] rates[j],
                    from,
                    to,
                    date,
                ) by {
                    if j < last {
                        assert(!quotes(front[j], from, to, date));
                    }
                }
            },
        }
    }
}

/// The amount in the target currency: the product with the rate, rounded
/// to whole minor units, or to whole units for a currency without minor
/// units.
pub open spec fn converted(amount: int, rate: Rate, to: CurrencyCode) -> int {
    if is_zero_decimal(to) {
        100 * div_round(amount * rate.numerator, rate.denominator * 100)
    } else {
        div_round(amount * rate.numerator, rate.denominator as int)
    }
}

/// Whether amounts in the currency have no minor units: the yen.
pub open spec fn is_zero_decimal(c: CurrencyCode) -> bool {
    c == (CurrencyCode { a: 74, b: 80, c: 89 })
}

/// The stored rate is the one for the pair and the date.
pub open spec fn has_key(r: ExchangeRate, from: CurrencyCode, to: CurrencyCode, date: Date)
    -> bool {
    r.from_currency == from && r.to_currency == to && r.effective_date == date
}

/// A rate is stored for the pair and the date.
pub open spec fn key_stored(
    rates: Seq<ExchangeRate>,
    from: CurrencyCode,
    to: CurrencyCode,
    date: Date,
) -> bool {
    exists|k: int| 0 <= k < rates.len() && has_key(#[trigger] rates[k], from, to, date)
}

/// Why a rate is not stored; `None` for one that is.
pub open spec fn set_rate_error(
    v: RateTableView,
    from: CurrencyCode,
    to: CurrencyCode,
    rate: Rate,
    date: Date,
) -> Option<EngineError> {
    if from == to {
        Some(EngineError::SameCurrency)
    } else if rate.numerator == 0 || rate.denominator == 0 {
        Some(EngineError::NonPositiveRate)
    } else if !key_stored(v.rates, from, to, date) && (v.rates.len() >= MAX_ROWS || v.next_id
        > MAX_ID) {
        Some(EngineError::CapacityExceeded)
    } else {
        None
    }
}

/// `after` is `before` with the rate stored for the pair and the date: in
/// place of the rate that was stored for them, or as a new row.
pub open spec fn rate_stored(
    before: RateTableView,
    after: RateTableView,
    id: int,
    from: CurrencyCode,
    to: CurrencyCode,
    rate: Rate,
    date: Date,
) -> bool {
    &&& forall|k: int|
        0 <= k < before.rates.len() && has_key(#[trigger] before.rates[k], from, to, date)
            ==> id == before.rates[k].id && after.next_id == before.next_id && after.rates
            == before.rates.update(
            k,
            ExchangeRate {
                id: before.rates[k].id,
                from_currency: from,
                to_currency: to,
                rate,
                effective_date: date,
            },
        )
    &&& !key_stored(before.rates, from, to, date) ==> id == before.next_id && after.next_id
        == before.next_id + 1 && after.rates == before.rates.push(
        ExchangeRate {
            id: id as i64,
            from_currency: from,
            to_currency: to,
            rate,
            effective_date: date,
        },
    )
}

/// Why a rate is not taken back; `None` for one that is.
pub open spec fn restore_rate_error(v: RateTableView, row: ExchangeRate) -> Option<EngineError> {
    if row.rate.denominator == 0 {
        Some(EngineError::InvalidStoredRate)
    } else if row.id < 1 || row.id > MAX_ID {
        Some(EngineError::InvalidId)
    } else if exists|k: int|
        0 <= k < v.rates.len() && ((#[trigger] v.rates[k]).id == row.id || same_key(
            v.rates[k],
            row,
        )) {
        Some(EngineError::DuplicateId)
    } else if v.rates.len() >= MAX_ROWS {
        Some(EngineError::CapacityExceeded)
    } else {
        None
    }
}

impl RateTable {
    pub open spec fn wf(&self) -> bool {
        self@.wf()
    }

    /// An empty table.
    pub fn new() -> (r: RateTable)
        ensures
            r.wf(),
            r@.rates.len() == 0,
            r@.next_id == 1,
    {
        RateTable { rates: Vec::new(), next_id: 1 }
    }

    pub fn rates(&self) -> (r: &Vec<ExchangeRate>)
        ensures
            r@ == self@.rates,
    {
        &self.rates
    }

    /// The place of the most recent rate stored for the pair on or before
    /// the date.
    pub fn find_latest(&self, from: CurrencyCode, to: CurrencyCode, date: Date) -> (r: Option<
        usize,
    >)
        ensures
            match r {
                Some(i) => latest_quote(self@.rates, from, to, date) == Some(i as int) && i
                    < self@.rates.len(),
                None => latest_quote(self@.rates, from, to, date) is None,
            },
    {
        let mut best: Option<usize> = None;
        let mut i: usize = 0;
        while i < self.rates.len()
            invariant
                i <= self.rates.len(),
                match best {
                    Some(b) => b < i && latest_quote(self.rates@.take(i as int), from, to, date)
                        == Some(b as int),
                    None => latest_quote(self.rates@.take(i as int), from, to, date) is None,
                },
            decreases self.rates.len() - i,
        {
            proof {
                assert(self.rates@.take(i + 1).drop_last() =~= self.rates@.take(i as int));
            }
            let r = &self.rates[i];
            if r.from_currency == from && r.to_currency == to && r.effective_date.is_on_or_before(
                &date,
            ) {
                match best {
                    None => {
                        best = Some(i);
                    },
                    Some(b) => {
                        if self.rates[b].effective_date.is_before(&r.effective_date) {
                            best = Some(i);
                        }
                    },
                }
            }
            i += 1;
        }
        proof {
            assert(self.rates@.take(i as int) =~= self.rates@);
        }
        best
    }

    /// The rate from one currency to another on a date: one for one for
    /// the same currency; else the most recent rate stored for the pair
    /// on or before the date; else the inverse of the most recent one
    /// stored for the reversed pair.
    pub fn get_exchange_rate(&self, from: CurrencyCode, to: CurrencyCode, date: Date) -> (r: Result<
        ExchangeRate,
        EngineError,
    >)
        ensures
            r == resolve(self@.rates, from, to, date),
    {
        if from == to {
            return Ok(
                ExchangeRate {
                    id: 0,
                    from_currency: from,
                    to_currency: to,
                    rate: Rate { numerator: 1, denominator: 1 },
                    effective_date: date,
                },
            );
        }
        match self.find_latest(from, to, date) {
            Some(i) => Ok(self.rates[i]),
            None => match self.find_latest(to, from, date) {
                Some(i) => {
                    let stored = self.rates[i];
                    if stored.rate.numerator == 0 {
                        Err(EngineError::InvalidStoredRate)
                    } else {
                        Ok(
                            ExchangeRate {
                                id: stored.id,
                                from_currency: from,
                                to_currency: to,
                                rate: Rate {
                                    numerator: stored.rate.denominator,
                                    denominator: stored.rate.numerator,
                                },
                                effective_date: stored.effective_date,
                            },
                        )
                    }
                },
                None => Err(EngineError::NoRateFound),
            },
        }
    }

    /// The place of the rate stored for the pair and the date.
    pub fn find_key(&self, from: CurrencyCode, to: CurrencyCode, date: Date) -> (r: Option<usize>)
        ensures
            match r {
                Some(k) => k < self@.rates.len() && has_key(self@.rates[k as int], from, to, date),
                None => !key_stored(self@.rates, from, to, date),
            },
    {
        let mut i: usize = 0;
        while i < self.rates.len()
            invariant
                i <= self.rates.len(),
                forall|k: int| 0 <= k < i ==> !has_key(#[trigger] self.rates@[k], from, to, date),
            decreases self.rates.len() - i,
        {
            let r = &self.rates[i];
            if r.from_currency == from && r.to_currency == to && r.effective_date == date {
                return Some(i);
            }
            i += 1;
        }
        None
    }

    /// Stores a rate for a pair of currencies from a date on. A rate that
    /// is already stored for the pair and the date is replaced.
    pub fn set_rate(&mut self, from: CurrencyCode, to: CurrencyCode, rate: Rate, date: Date) -> (r:
        Result<i64, EngineError>)
        requires
            old(self).wf(),
        ensures
            final(self).wf(),
            match r {
                Ok(id) => set_rate_error(old(self)@, from, to, rate, date) is None && rate_stored(
                    old(self)@,
                    final(self)@,
                    id as int,
                    from,
                    to,
                    rate,
                    date,
                ),
                Err(e) => set_rate_error(old(self)@, from, to, rate, date) == Some(e)
                    && final(self)@ == old(self)@,
            },
    {
        if from == to {
            return Err(EngineError::SameCurrency);
        }
        if rate.numerator == 0 || rate.denominator == 0 {
            return Err(EngineError::NonPositiveRate);
        }
        let ghost before = self@;
        match self.find_key(from, to, date) {
            Some(k) => {
                let id = self.rates[k].id;
                let row = ExchangeRate {
                    id,
                    from_currency: from,
                    to_currency: to,
                    rate,
                    effective_date: date,
                };
                self.rates.set(k, row);
                proof {
                    let after = self@;
                    assert(after.rates =~= before.rates.update(k as int, row));
                    assert forall|i: int, j: int| 0 <= i < j < after.rates.len() implies (
                    #[trigger] after.rates[i]).id != (#[trigger] after.rates[j]).id && !same_key(
                        after.rates[i],
                        after.rates[j],
                    ) by {
                        assert(same_key(after.rates[i], before.rates[i]));
                        assert(same_key(after.rates[j], before.rates[j]));
                        assert(after.rates[i].id == before.rates[i].id);
                        assert(after.rates[j].id == before.rates[j].id);
                    }
                    assert forall|j: int|
                        0 <= j < before.rates.len() && has_key(
                            #[trigger] before.rates[j],
                            from,
                            to,
                            date,
                        ) implies j == k by {
                        if j != k {
                            assert(same_key(before.rates[j], before.rates[k as int]));
                        }
                    }
                    assert(key_stored(before.rates, from, to, date));
                }
                Ok(id)
            },
            None => {
                if self.rates.len() >= MAX_ROWS || self.next_id > MAX_ID {
                    return Err(EngineError::CapacityExceeded);
                }
                let id = self.next_id;
                self.rates.push(
                    ExchangeRate { id, from_currency: from, to_currency: to, rate, effective_date: date },
                );
                self.next_id = id + 1;
                proof {
                    let after = self@;
                    assert forall|i: int, j: int| 0 <= i < j < after.rates.len() implies (
                    #[trigger] after.rates[i]).id != (#[trigger] after.rates[j]).id && !same_key(
                        after.rates[i],
                        after.rates[j],
                    ) by {
                        assert(after.rates[i] == before.rates[i]);
                        if j < before.rates.len() {
                            assert(after.rates[j] == before.rates[j]);
                        } else {
                            assert(!has_key(before.rates[i], from, to, date));
                        }
                    }
                }
                Ok(id)
            },
        }
    }

    /// Takes a rate back into the table under the identifier that it had.
    /// A rate of zero is taken as it is; it is refused when it is used.
    #[verifier::loop_isolation(false)]
    pub fn restore_rate(&mut self, row: ExchangeRate) -> (r: Result<(), EngineError>)
        requires
            old(self).wf(),
        ensures
            final(self).wf(),
            match r {
                Ok(_) => final(self)@.rates == old(self)@.rates.push(row) && final(self)@.next_id
                    == (if row.id + 1 > old(self)@.next_id {
                    row.id + 1
                } else {
                    old(self)@.next_id
                }),
                Err(e) => final(self)@ == old(self)@,
            },
            r is Ok <==> restore_rate_error(old(self)@, row) is None,
            r matches Err(e) ==> restore_rate_error(old(self)@, row) == Some(e),
    {
        if row.rate.denominator == 0 {
            return Err(EngineError::InvalidStoredRate);
        }
        if row.id < 1 || row.id > MAX_ID {
            return Err(EngineError::InvalidId);
        }
        let mut i: usize = 0;
        while i < self.rates.len()
            invariant
                i <= self.rates.len(),
                forall|k: int|
                    0 <= k < i ==> (#[trigger] self.rates@[k]).id != row.id && !same_key(
                        self.rates@[k],
                        row,
                    ),
            decreases self.rates.len() - i,
        {
            let r = &self.rates[i];
            if r.id == row.id || (r.from_currency == row.from_currency && r.to_currency
                == row.to_currency && r.effective_date == row.effective_date) {
                return Err(EngineError::DuplicateId);
            }
            i += 1;
        }
        if self.rates.len() >= MAX_ROWS {
            return Err(EngineError::CapacityExceeded);
        }
        let ghost before = self@;
        self.rates.push(row);
        if row.id >= self.next_id {
            self.next_id = row.id + 1;
        }
        proof {
            let after = self@;
            assert forall|i: int, j: int| 0 <= i < j < after.rates.len() implies (
            #[trigger] after.rates[i]).id != (#[trigger] after.rates[j]).id && !same_key(
                after.rates[i],
                after.rates[j],
            ) by {
                assert(after.rates[i] == before.rates[i]);
                if j < before.rates.len() {
                    assert(after.rates[j] == before.rates[j]);
                }
            }
        }
        Ok(())
    }

    /// Deletes the rate with the given identifier.
    pub fn delete_exchange_rate(&mut self, rate_id: i64) -> (r: Result<(), EngineError>)
        requires
            old(self).wf(),
        ensures
            final(self).wf(),
            match r {
                Ok(_) => exists|k: int|
                    0 <= k < old(self)@.rates.len() && (#[trigger] old(self)@.rates[k]).id
                        == rate_id && final(self)@ == (RateTableView {
                        rates: old(self)@.rates.remove(k),
                        ..old(self)@
                    }),
                Err(e) => e == EngineError::RateNotFound && final(self)@ == old(self)@ && forall|
                    k: int,
                |
                    0 <= k < old(self)@.rates.len() ==> (#[trigger] old(self)@.rates[k]).id
                        != rate_id,
            },
    {
        let mut i: usize = 0;
        while i < self.rates.len()
            invariant
                i <= self.rates.len(),
                self@ == old(self)@,
                self.wf(),
                forall|k: int| 0 <= k < i ==> (#[trigger] self.rates@[k]).id != rate_id,
            decreases self.rates.len() - i,
        {
            if self.rates[i].id == rate_id {
                let ghost before = self@;
                self.rates.remove(i);
                proof {
                    let after = self@;
                    assert forall|a: int| 0 <= a < after.rates.len() implies (
                    #[trigger] after.rates[a]) == before.rates[if a < i {
                        a
                    } else {
                        a + 1
                    }] by {}
                    assert forall|a: int, b: int| 0 <= a < b < after.rates.len() implies (
                    #[trigger] after.rates[a]).id != (#[trigger] after.rates[b]).id && !same_key(
                        after.rates[a],
                        after.rates[b],
                    ) by {
                        let a0 = if a < i {
                            a
                        } else {
                            a + 1
                        };
                        let b0 = if b < i {
                            b
                        } else {
                            b + 1
                        };
                        assert(after.rates[a] == before.rates[a0]);
                        assert(after.rates[b] == before.rates[b0]);
                    }
                    assert(before.rates[i as int].id == rate_id);
                }
                return Ok(());
            }
            i += 1;
        }
        Err(EngineError::RateNotFound)
    }
}

/// Multiplies an amount by a rate and rounds as the target currency asks.
pub fn apply_rate(amount: i128, rate: Rate, to: CurrencyCode) -> (r: i128)
    requires
        rate.denominator > 0,
        -BALANCE_LIMIT <= amount <= BALANCE_LIMIT,
    ensures
        r == converted(amount as int, rate, to),
{
    assert(-BALANCE_LIMIT * 0x1_0000_0000 <= amount * rate.numerator <= BALANCE_LIMIT
        * 0x1_0000_0000) by (nonlinear_arith)
        requires
            -BALANCE_LIMIT <= amount <= BALANCE_LIMIT,
            0 <= rate.numerator < 0x1_0000_0000,
    ;
    let product: i128 = amount * (rate.numerator as i128);
    if to.a == 74 && to.b == 80 && to.c == 89 {
        let whole = round_div(product, (rate.denominator as i128) * 100);
        whole * 100
    } else {
        round_div(product, rate.denominator as i128)
    }
}

/// The conversion of an amount at the rate of a date. A negative amount
/// is refused, and so is a rate with a denominator of zero.
pub open spec fn conversion(
    rates: Seq<ExchangeRate>,
    amount: i64,
    from: CurrencyCode,
    to: CurrencyCode,
    date: Date,
) -> Result<CurrencyConversion, EngineError> {
    if amount < 0 {
        Err(EngineError::NegativeAmount)
    } else if from == to {
        Ok(
            CurrencyConversion {
                from_currency: from,
                to_currency: to,
                original_amount: amount,
                converted_amount: amount as i128,
                rate_used: unit_rate(),
                rate_date: date,
            },
        )
    } else {
        match resolve(rates, from, to, date) {
            Err(e) => Err(e),
            Ok(found) => if found.rate.denominator == 0 {
                Err(EngineError::InvalidStoredRate)
            } else {
                Ok(
                    CurrencyConversion {
                        from_currency: from,
                        to_currency: to,
                        original_amount: amount,
                        converted_amount: converted(amount as int, found.rate, to) as i128,
                        rate_used: found.rate,
                        rate_date: found.effective_date,
                    },
                )
            },
        }
    }
}

/// Converts an amount from one currency to another at the rate of a
/// date. The result is rounded to whole minor units, and to whole units
/// for the yen.
pub fn convert_amount(
    table: &RateTable,
    amount: i64,
    from: CurrencyCode,
    to: CurrencyCode,
    date: Date,
) -> (r: Result<CurrencyConversion, EngineError>)
    ensures
        r == conversion(table@.rates, amount, from, to, date),
{
    if amount < 0 {
        return Err(EngineError::NegativeAmount);
    }
    if from == to {
        return Ok(
            CurrencyConversion {
                from_currency: from,
                to_currency: to,
                original_amount: amount,
                converted_amount: amount as i128,
                rate_used: Rate { numerator: 1, denominator: 1 },
                rate_date: date,
            },
        );
    }
    match table.get_exchange_rate(from, to, date) {
        Err(e) => Err(e),
        Ok(found) => {
            if found.rate.denominator == 0 {
                return Err(EngineError::InvalidStoredRate);
            }
            let value = apply_rate(amount as i128, found.rate, to);
            Ok(
                CurrencyConversion {
                    from_currency: from,
                    to_currency: to,
                    original_amount: amount,
                    converted_amount: value,
                    rate_used: found.rate,
                    rate_date: found.effective_date,
                },
            )
        },
    }
}


/// The currency code that a text names.
pub open spec fn code_of_text(text: Seq<char>) -> Option<CurrencyCode> {
    currency_code_of(vstd::utf8::encode_utf8(text))
}

/// Why a request to store a rate is refused; `None` for one that is
/// carried out.
pub open spec fn set_exchange_rate_error(v: RateTableView, input: SetExchangeRateInput) -> Option<
    EngineError,
> {
    if code_of_text(input.from_currency@) is None {
        Some(EngineError::InvalidCurrency)
    } else if code_of_text(input.to_currency@) is None {
        Some(EngineError::InvalidCurrency)
    } else if code_of_text(input.from_currency@) == code_of_text(input.to_currency@) {
        Some(EngineError::SameCurrency)
    } else if input.rate.numerator == 0 || input.rate.denominator == 0 {
        Some(EngineError::NonPositiveRate)
    } else if date_of_text(input.effective_date@) is None {
        Some(EngineError::MalformedDate)
    } else {
        set_rate_error(
            v,
            code_of_text(input.from_currency@).unwrap(),
            code_of_text(input.to_currency@).unwrap(),
            input.rate,
            date_of_text(input.effective_date@).unwrap(),
        )
    }
}

/// Stores a rate for a pair of currencies from a date on, replacing the
/// rate that is stored for the pair and the date. Currency codes and the
/// date arrive as text and are read first.
pub fn set_exchange_rate(table: &mut RateTable, input: SetExchangeRateInput) -> (r: Result<
    i64,
    EngineError,
>)
    requires
        old(table).wf(),
    ensures
        final(table).wf(),
        match r {
            Ok(id) => set_exchange_rate_error(old(table)@, input) is None && rate_stored(
                old(table)@,
                final(table)@,
                id as int,
                code_of_text(input.from_currency@).unwrap(),
                code_of_text(input.to_currency@).unwrap(),
                input.rate,
                date_of_text(input.effective_date@).unwrap(),
            ),
            Err(e) => set_exchange_rate_error(old(table)@, input) == Some(e) && final(table)@
                == old(table)@,
        },
{
    let from = match parse_currency_code(input.from_currency.as_str()) {
        Ok(c) => c,
        Err(e) => {
            return Err(e);
        },
    };
    let to = match parse_currency_code(input.to_currency.as_str()) {
        Ok(c) => c,
        Err(e) => {
            return Err(e);
        },
    };
    if from == to {
        return Err(EngineError::SameCurrency);
    }
    if input.rate.numerator == 0 || input.rate.denominator == 0 {
        return Err(EngineError::NonPositiveRate);
    }
    let date = match parse_date(input.effective_date.as_str()) {
        Ok(d) => d,
        Err(e) => {
            return Err(e);
        },
    };
    table.set_rate(from, to, input.rate, date)
}

/// Reads the code of the currency that is to be the primary one.
pub fn set_primary_currency(currency_code: &str) -> (r: Result<CurrencyCode, EngineError>)
    ensures
        match r {
            Ok(code) => currency_code_of(currency_code.spec_bytes()) == Some(code),
            Err(e) => e == EngineError::InvalidCurrency && currency_code_of(
                currency_code.spec_bytes(),
            ) is None,
        },
{
    parse_currency_code(currency_code)
}

/// The primary currency: the stored one, or the rupee where none is
/// stored.
pub fn get_primary_currency(stored: Option<CurrencyCode>) -> (r: CurrencyCode)
    ensures
        r == (match stored {
            Some(c) => c,
            None => CurrencyCode { a: 76, b: 75, c: 82 },
        }),
{
    match stored {
        Some(c) => c,
        None => CurrencyCode { a: 76, b: 75, c: 82 },
    }
}

/// The rate that says that no rate was found.
pub open spec fn no_rate() -> Rate {
    Rate { numerator: 0, denominator: 1 }
}

/// The balance of an account over the whole journal, in its own currency
/// and in the primary one. Where no rate leads to the primary currency,
/// the balance is passed through unchanged with a rate of zero.
pub open spec fn converted_balance(
    account: crate::model::Account,
    postings: Seq<crate::model::PostedTransaction>,
    rates: Seq<ExchangeRate>,
    primary: CurrencyCode,
    today: Date,
) -> ConvertedBalance {
    let original = balance_of(account, postings, Scope::All);
    let quote = resolve(rates, account.currency, primary, today);
    let usable = account.currency != primary && quote is Ok && quote->Ok_0.rate.denominator != 0;
    ConvertedBalance {
        account_id: account.id,
        original_currency: account.currency,
        original_balance: original as i128,
        primary_currency: primary,
        converted_balance: if usable {
            div_round(original * quote->Ok_0.rate.numerator, quote->Ok_0.rate.denominator as int)
                as i128
        } else {
            original as i128
        },
        rate_used: if account.currency == primary {
            unit_rate()
        } else if usable {
            quote->Ok_0.rate
        } else {
            no_rate()
        },
    }
}

/// The balance of every account in the primary currency, at the rates of
/// `today`. An account for which no rate is found does not fail the
/// others: its balance is passed through with a rate of zero.
pub fn convert_balances_to_primary(
    ledger: &Ledger,
    table: &RateTable,
    primary: CurrencyCode,
    today: Date,
) -> (r: Vec<ConvertedBalance>)
    requires
        ledger.wf(),
    ensures
        r@.len() == ledger@.accounts.len(),
        forall|k: int|
            0 <= k < r@.len() ==> #[trigger] r@[k] == converted_balance(
                ledger@.accounts[k],
                ledger@.postings,
                table@.rates,
                primary,
                today,
            ),
{
    let accounts = ledger.accounts();
    let mut out: Vec<ConvertedBalance> = Vec::new();
    let mut i: usize = 0;
    while i < accounts.len()
        invariant
            i <= accounts.len(),
            accounts@ == ledger@.accounts,
            ledger.wf(),
            out@.len() == i,
            forall|k: int|
                0 <= k < i ==> #[trigger] out@[k] == converted_balance(
                    ledger@.accounts[k],
                    ledger@.postings,
                    table@.rates,
                    primary,
                    today,
                ),
        decreases accounts.len() - i,
    {
        let account = &accounts[i];
        let original = balance_at(ledger, i, Scope::All);
        let mut value = original;
        let mut rate = Rate { numerator: 0, denominator: 1 };
        if account.currency == primary {
            rate = Rate { numerator: 1, denominator: 1 };
        } else {
            match table.get_exchange_rate(account.currency, primary, today) {
                Ok(found) => {
                    if found.rate.denominator != 0 {
                        assert(-BALANCE_LIMIT * 0x1_0000_0000 <= original * found.rate.numerator
                            <= BALANCE_LIMIT * 0x1_0000_0000) by (nonlinear_arith)
                            requires
                                -BALANCE_LIMIT <= original <= BALANCE_LIMIT,
                                0 <= found.rate.numerator < 0x1_0000_0000,
                        ;
                        value =
                        round_div(
                            original * (found.rate.numerator as i128),
                            found.rate.denominator as i128,
                        );
                        rate = found.rate;
                    }
                },
                Err(_) => {},
            }
        }
        out.push(
            ConvertedBalance {
                account_id: account.id,
                original_currency: account.currency,
                original_balance: original,
                primary_currency: primary,
                converted_balance: value,
                rate_used: rate,
            },
        );
        i += 1;
    }
    out
}

/// Code, name and symbol of the currency at place `i` of the list of
/// supported currencies.
pub open spec fn supported_currency(i: int) -> (Seq<char>, Seq<char>, Seq<char>) {
    if i == 0 {
        ("LKR"@, "Sri Lankan Rupee"@, "Rs."@)
    } else if i == 1 {
        ("USD"@, "US Dollar"@, "$"@)
    } else if i == 2 {
        ("EUR"@, "Euro"@, "€"@)
    } else if i == 3 {
        ("GBP"@, "British Pound"@, "£"@)
    } else if i == 4 {
        ("INR"@, "Indian Rupee"@, "₹"@)
    } else if i == 5 {
        ("AUD"@, "Australian Dollar"@, "A$"@)
    } else if i == 6 {
        ("CAD"@, "Canadian Dollar"@, "C$"@)
    } else if i == 7 {
        ("JPY"@, "Japanese Yen"@, "¥"@)
    } else if i == 8 {
        ("SGD"@, "Singapore Dollar"@, "S$"@)
    } else {
        ("AED"@, "UAE Dirham"@, "د.إ"@)
    }
}

fn currency_entry(code: &str, name: &str, symbol: &str) -> (r: SupportedCurrency)
    ensures
        r.code@ == code@,
        r.name@ == name@,
        r.symbol@ == symbol@,
{
    SupportedCurrency { code: code.to_owned(), name: name.to_owned(), symbol: symbol.to_owned() }
}

/// The currencies that the application offers.
pub fn get_supported_currencies() -> (r: Vec<SupportedCurrency>)
    ensures
        r@.len() == 10,
        forall|i: int|
            0 <= i < 10 ==> ((#[trigger] r@[i]).code@, r@[i].name@, r@[i].symbol@)
                == supported_currency(i),
{
    let mut out: Vec<SupportedCurrency> = Vec::new();
    out.push(currency_entry("LKR", "Sri Lankan Rupee", "Rs."));
    out.push(currency_entry("USD", "US Dollar", "$"));
    out.push(currency_entry("EUR", "Euro", "€"));
    out.push(currency_entry("GBP", "British Pound", "£"));
    out.push(currency_entry("INR", "Indian Rupee", "₹"));
    out.push(currency_entry("AUD", "Australian Dollar", "A$"));
    out.push(currency_entry("CAD", "Canadian Dollar", "C$"));
    out.push(currency_entry("JPY", "Japanese Yen", "¥"));
    out.push(currency_entry("SGD", "Singapore Dollar", "S$"));
    out.push(currency_entry("AED", "UAE Dirham", "د.إ"));
    out
}

/// Whether a stored rate is listed when rates are asked for from one
/// currency, or from one currency to another; a question for a target
/// currency alone lists every rate.
pub open spec fn listed(r: ExchangeRate, from: Option<CurrencyCode>, to: Option<CurrencyCode>)
    -> bool {
    match (from, to) {
        (Some(f), Some(t)) => r.from_currency == f && r.to_currency == t,
        (Some(f), None) => r.from_currency == f,
        _ => true,
    }
}

/// Those of the first `n` rates that are listed.
pub open spec fn listed_rates(
    rates: Seq<ExchangeRate>,
    from: Option<CurrencyCode>,
    to: Option<CurrencyCode>,
    n: int,
) -> Seq<ExchangeRate>
    decreases n,
{
    if n <= 0 {
        Seq::empty()
    } else {
        let front = listed_rates(rates, from, to, n - 1);
        if listed(rates[n - 1], from, to) {
            front.push(rates[n - 1])
        } else {
            front
        }
    }
}

/// The stored rates from one currency, or from one currency to another,
/// in the order of the table.
pub fn get_exchange_rates(
    table: &RateTable,
    from_currency: Option<CurrencyCode>,
    to_currency: Option<CurrencyCode>,
) -> (r: Vec<ExchangeRate>)
    ensures
        r@ == listed_rates(table@.rates, from_currency, to_currency, table@.rates.len() as int),
{
    let rates = table.rates();
    let mut out: Vec<ExchangeRate> = Vec::new();
    let mut i: usize = 0;
    while i < rates.len()
        invariant
            i <= rates.len(),
            rates@ == table@.rates,
            out@ == listed_rates(table@.rates, from_currency, to_currency, i as int),
        decreases rates.len() - i,
    {
        let r = rates[i];
        let shown = match (from_currency, to_currency) {
            (Some(f), Some(t)) => r.from_currency == f && r.to_currency == t,
            (Some(f), None) => r.from_currency == f,
            _ => true,
        };
        if shown {
            out.push(r);
        }
        i += 1;
    }
    out
}

/// The stored rate is for the pair of currencies.
pub open spec fn of_pair(r: ExchangeRate, from: CurrencyCode, to: CurrencyCode) -> bool {
    r.from_currency == from && r.to_currency == to
}

/// How many of the first `n` rates are for the pair.
pub open spec fn pair_count(rates: Seq<ExchangeRate>, from: CurrencyCode, to: CurrencyCode, n: int)
    -> int
    decreases n,
{
    if n <= 0 {
        0
    } else {
        pair_count(rates, from, to, n - 1) + (if of_pair(rates[n - 1], from, to) {
            1int
        } else {
            0int
        })
    }
}

/// The place of the most recent of the first `n` rates for the pair; of
/// several of one date, the first.
pub open spec fn pair_latest(rates: Seq<ExchangeRate>, from: CurrencyCode, to: CurrencyCode, n: int)
    -> Option<int>
    decreases n,
{
    if n <= 0 {
        None
    } else {
        let front = pair_latest(rates, from, to, n - 1);
        if of_pair(rates[n - 1], from, to) && (front is None || date_lt(
            rates[front.unwrap()].effective_date,
            rates[n - 1].effective_date,
        )) {
            Some(n - 1)
        } else {
            front
        }
    }
}

/// A summary for each pair of currencies among the first `n` rates, in
/// the order in which the pairs first appear.
pub open spec fn rate_summaries(rates: Seq<ExchangeRate>, n: int) -> Seq<ExchangeRateSummary>
    decreases n,
{
    if n <= 0 {
        Seq::empty()
    } else {
        let front = rate_summaries(rates, n - 1);
        let r = rates[n - 1];
        if pair_count(rates, r.from_currency, r.to_currency, n - 1) == 0 {
            let latest = rates[pair_latest(
                rates,
                r.from_currency,
                r.to_currency,
                rates.len() as int,
            ).unwrap()];
            front.push(
                ExchangeRateSummary {
                    from_currency: r.from_currency,
                    to_currency: r.to_currency,
                    latest_rate: latest.rate,
                    latest_date: latest.effective_date,
                    rate_count: pair_count(
                        rates,
                        r.from_currency,
                        r.to_currency,
                        rates.len() as int,
                    ) as usize,
                },
            )
        } else {
            front
        }
    }
}

/// The number of the first `n` rates for a pair, and the place of the
/// most recent of them.
pub fn pair_figures(table: &RateTable, from: CurrencyCode, to: CurrencyCode, n: usize) -> (r: (
    usize,
    Option<usize>,
))
    requires
        n <= table@.rates.len(),
    ensures
        r.0 == pair_count(table@.rates, from, to, n as int),
        r.0 <= n,
        match r.1 {
            Some(k) => pair_latest(table@.rates, from, to, n as int) == Some(k as int) && k < n,
            None => pair_latest(table@.rates, from, to, n as int) is None,
        },
        r.0 > 0 ==> r.1 is Some,
{
    let rates = table.rates();
    let mut count: usize = 0;
    let mut best: Option<usize> = None;
    let mut i: usize = 0;
    while i < n
        invariant
            i <= n <= rates@.len(),
            rates@ == table@.rates,
            count == pair_count(table@.rates, from, to, i as int),
            count <= i,
            match best {
                Some(k) => pair_latest(table@.rates, from, to, i as int) == Some(k as int) && k
                    < i,
                None => pair_latest(table@.rates, from, to, i as int) is None,
            },
            count > 0 ==> best is Some,
        decreases n - i,
    {
        let r = &rates[i];
        if r.from_currency == from && r.to_currency == to {
            count += 1;
            match best {
                None => {
                    best = Some(i);
                },
                Some(k) => {
                    if rates[k].effective_date.is_before(&r.effective_date) {
                        best = Some(i);
                    }
                },
            }
        }
        i += 1;
    }
    (count, best)
}

/// For every pair of currencies for which a rate is stored, the most
/// recent rate and the number of rates.
pub fn get_exchange_rate_summaries(table: &RateTable) -> (r: Vec<ExchangeRateSummary>)
    ensures
        r@ == rate_summaries(table@.rates, table@.rates.len() as int),
{
    let rates = table.rates();
    let mut out: Vec<ExchangeRateSummary> = Vec::new();
    let mut i: usize = 0;
    while i < rates.len()
        invariant
            i <= rates.len(),
            rates@ == table@.rates,
            out@ == rate_summaries(table@.rates, i as int),
        decreases rates.len() - i,
    {
        let r = rates[i];
        let (earlier, _place) = pair_figures(table, r.from_currency, r.to_currency, i);
        if earlier == 0 {
            let (count, latest) = pair_figures(table, r.from_currency, r.to_currency, rates.len());
            proof {
                lemma_pair_count_grows(
                    table@.rates,
                    r.from_currency,
                    r.to_currency,
                    i + 1,
                    rates@.len() as int,
                );
            }
            let newest = rates[latest.unwrap()];
            out.push(
                ExchangeRateSummary {
                    from_currency: r.from_currency,
                    to_currency: r.to_currency,
                    latest_rate: newest.rate,
                    latest_date: newest.effective_date,
                    rate_count: count,
                },
            );
        }
        i += 1;
    }
    out
}

/// More rates never hold fewer rates for a pair.
pub proof fn lemma_pair_count_grows(
    rates: Seq<ExchangeRate>,
    from: CurrencyCode,
    to: CurrencyCode,
    n: int,
    m: int,
)
    requires
        0 <= n <= m,
    ensures
        pair_count(rates, from, to, n) <= pair_count(rates, from, to, m),
    decreases m - n,
{
    if n < m {
        lemma_pair_count_grows(rates, from, to, n, m - 1);
    }
}

/// A text without the blanks around it, its letters in upper case.
pub open spec fn normal_form(bytes: Seq<u8>) -> Seq<u8> {
    let start = leading_blanks(bytes);
    let end = bytes.len() - trailing_blanks(bytes);
    if start < end {
        Seq::new((end - start) as nat, |i: int| upper(bytes[start + i]))
    } else {
        Seq::empty()
    }
}

/// A text without the blanks around it, its letters in upper case.
pub fn normalize_code(text: &str) -> (r: Vec<u8>)
    ensures
        r@ == normal_form(text.spec_bytes()),
{
    let bytes = text.as_bytes();
    let len = bytes.len();
    let mut start: usize = 0;
    while start < len && is_blank(bytes[start])
        invariant
            start <= len,
            len == bytes@.len(),
            forall|k: int| 0 <= k < start ==> is_space(#[trigger] bytes@[k]),
        decreases len - start,
    {
        start += 1;
    }
    let mut trailing: usize = 0;
    while trailing < len && is_blank(bytes[len - trailing - 1])
        invariant
            trailing <= len,
            len == bytes@.len(),
            forall|k: int| len - trailing <= k < len ==> is_space(#[trigger] bytes@[k]),
        decreases len - trailing,
    {
        trailing += 1;
    }
    proof {
        lemma_leading_blanks(bytes@, start as int);
        lemma_trailing_blanks(bytes@, trailing as int);
    }
    let end = len - trailing;
    let mut out: Vec<u8> = Vec::new();
    if start < end {
        let mut i: usize = start;
        while i < end
            invariant
                start <= i <= end,
                end <= len,
                len == bytes@.len(),
                out@.len() == i - start,
                forall|k: int| 0 <= k < i - start ==> out@[k] == upper(bytes@[start + k]),
            decreases end - i,
        {
            out.push(to_upper(bytes[i]));
            i += 1;
        }
    }
    proof {
        assert(out@ =~= normal_form(bytes@));
    }
    out
}

/// Whether two runs of bytes are the same.
pub fn same_bytes(a: &Vec<u8>, b: &Vec<u8>) -> (r: bool)
    ensures
        r == (a@ == b@),
{
    if a.len() != b.len() {
        return false;
    }
    let mut i: usize = 0;
    while i < a.len()
        invariant
            i <= a.len(),
            a@.len() == b@.len(),
            forall|k: int| 0 <= k < i ==> a@[k] == b@[k],
        decreases a.len() - i,
    {
        if a[i] != b[i] {
            return false;
        }
        i += 1;
    }
    proof {
        assert(a@ =~= b@);
    }
    true
}

/// A rate as a lookup by the names of two currencies gives it: the
/// identifier of the stored rate that it comes from, or none for the rate
/// of a currency to itself; the rate; and the day from which it holds.
#[derive(Clone, Copy, Debug, PartialEq, Eq, Structural)]
pub struct RateQuote {
    pub id: i64,
    pub rate: Rate,
    pub effective_date: Date,
}

/// The rate between two currencies named by text. Two names that are the
/// same but for blanks around them and the case of their letters have
/// the rate of one for one, whatever they name; a name that is no
/// currency code has no rate to another one.
pub open spec fn rate_for_names(rates: Seq<ExchangeRate>, from: Seq<u8>, to: Seq<u8>, date: Date)
    -> Result<RateQuote, EngineError> {
    if normal_form(from) == normal_form(to) {
        Ok(RateQuote { id: 0, rate: unit_rate(), effective_date: date })
    } else if currency_code_of(from) is None || currency_code_of(to) is None {
        Err(EngineError::NoRateFound)
    } else {
        match resolve(rates, currency_code_of(from).unwrap(), currency_code_of(to).unwrap(), date) {
            Ok(found) => Ok(
                RateQuote {
                    id: found.id,
                    rate: found.rate,
                    effective_date: found.effective_date,
                },
            ),
            Err(e) => Err(e),
        }
    }
}

/// The rate between two currencies named by text on a date.
pub fn get_exchange_rate(table: &RateTable, from_currency: &str, to_currency: &str, date: Date) -> (r:
    Result<RateQuote, EngineError>)
    ensures
        r == rate_for_names(
            table@.rates,
            from_currency.spec_bytes(),
            to_currency.spec_bytes(),
            date,
        ),
{
    let from = normalize_code(from_currency);
    let to = normalize_code(to_currency);
    if same_bytes(&from, &to) {
        return Ok(RateQuote { id: 0, rate: Rate { numerator: 1, denominator: 1 }, effective_date: date });
    }
    let a = match parse_currency_code(from_currency) {
        Ok(code) => code,
        Err(_) => {
            return Err(EngineError::NoRateFound);
        },
    };
    let b = match parse_currency_code(to_currency) {
        Ok(code) => code,
        Err(_) => {
            return Err(EngineError::NoRateFound);
        },
    };
    match table.get_exchange_rate(a, b, date) {
        Ok(found) => Ok(
            RateQuote { id: found.id, rate: found.rate, effective_date: found.effective_date },
        ),
        Err(e) => Err(e),
    }
}

/// An amount converted between two currencies named by text. Amounts are
/// in minor units.
#[derive(Clone, Copy, Debug, PartialEq, Eq, Structural)]
pub struct AmountQuote {
    pub original_amount: i64,
    pub converted_amount: i128,
    pub rate_used: Rate,
    pub rate_date: Date,
}

/// The conversion of an amount between two currencies named by text. A
/// negative amount is refused; two names that are the same but for
/// blanks and case leave the amount as it is; else the amount is
/// converted at the rate that the names have.
pub open spec fn conversion_for_names(
    rates: Seq<ExchangeRate>,
    amount: i64,
    from: Seq<u8>,
    to: Seq<u8>,
    date: Date,
) -> Result<AmountQuote, EngineError> {
    if amount < 0 {
        Err(EngineError::NegativeAmount)
    } else if normal_form(from) == normal_form(to) {
        Ok(
            AmountQuote {
                original_amount: amount,
                converted_amount: amount as i128,
                rate_used: unit_rate(),
                rate_date: date,
            },
        )
    } else if currency_code_of(from) is None || currency_code_of(to) is None {
        Err(EngineError::NoRateFound)
    } else {
        match conversion(
            rates,
            amount,
            currency_code_of(from).unwrap(),
            currency_code_of(to).unwrap(),
            date,
        ) {
            Ok(c) => Ok(
                AmountQuote {
                    original_amount: c.original_amount,
                    converted_amount: c.converted_amount,
                    rate_used: c.rate_used,
                    rate_date: c.rate_date,
                },
            ),
            Err(e) => Err(e),
        }
    }
}

/// Converts an amount between two currencies named by text at the rate
/// of a date.
pub fn convert_named_amount(
    table: &RateTable,
    amount: i64,
    from_currency: &str,
    to_currency: &str,
    date: Date,
) -> (r: Result<AmountQuote, EngineError>)
    ensures
        r == conversion_for_names(
            table@.rates,
            amount,
            from_currency.spec_bytes(),
            to_currency.spec_bytes(),
            date,
        ),
{
    if amount < 0 {
        return Err(EngineError::NegativeAmount);
    }
    let from = normalize_code(from_currency);
    let to = normalize_code(to_currency);
    if same_bytes(&from, &to) {
        return Ok(
            AmountQuote {
                original_amount: amount,
                converted_amount: amount as i128,
                rate_used: Rate { numerator: 1, denominator: 1 },
                rate_date: date,
            },
        );
    }
    let a = match parse_currency_code(from_currency) {
        Ok(code) => code,
        Err(_) => {
            return Err(EngineError::NoRateFound);
        },
    };
    let b = match parse_currency_code(to_currency) {
        Ok(code) => code,
        Err(_) => {
            return Err(EngineError::NoRateFound);
        },
    };
    match convert_amount(table, amount, a, b, date) {
        Ok(c) => Ok(
            AmountQuote {
                original_amount: c.original_amount,
                converted_amount: c.converted_amount,
                rate_used: c.rate_used,
                rate_date: c.rate_date,
            },
        ),
        Err(e) => Err(e),
    }
}

} // verus!
