use money_manager::currency::{
    get_exchange_rate_summaries, get_exchange_rates, apply_rate, convert_amount, convert_balances_to_primary, get_primary_currency,
    get_supported_currencies, parse_currency_code, set_exchange_rate, set_primary_currency,
    ExchangeRate, Rate, RateTable, SetExchangeRateInput,
};
use money_manager::currency::{
    convert_named_amount, get_exchange_rate, normalize_code, same_bytes, AmountQuote, RateQuote,
};
use money_manager::date::Date;
use money_manager::ledger::{Ledger, NewAccount, TransactionDraft};
use money_manager::model::{AccountType, CurrencyCode, EngineError, TransactionType};

fn d(year: i32, month: u32, day: u32) -> Date {
    Date { year, month, day }
}

fn code(text: &str) -> CurrencyCode {
    let b = text.as_bytes();
    CurrencyCode { a: b[0], b: b[1], c: b[2] }
}

fn rate(numerator: u32, denominator: u32) -> Rate {
    Rate { numerator, denominator }
}

fn table() -> RateTable {
    let mut table = RateTable::new();
    table.set_rate(code("USD"), code("LKR"), rate(300, 1), d(2025, 1, 1)).unwrap();
    table
}

#[test]
fn currency_codes_are_trimmed_and_put_in_upper_case() {
    assert_eq!(parse_currency_code("usd"), Ok(code("USD")));
    assert_eq!(parse_currency_code("  Lkr\t"), Ok(code("LKR")));
    assert_eq!(parse_currency_code("JPY"), Ok(code("JPY")));
    assert_eq!(parse_currency_code(""), Err(EngineError::InvalidCurrency));
    assert_eq!(parse_currency_code("   "), Err(EngineError::InvalidCurrency));
    assert_eq!(parse_currency_code("US"), Err(EngineError::InvalidCurrency));
    assert_eq!(parse_currency_code("USDT"), Err(EngineError::InvalidCurrency));
    assert_eq!(parse_currency_code("U S"), Ok(CurrencyCode { a: b'U', b: b' ', c: b'S' }));
    assert_eq!(set_primary_currency(" eur "), Ok(code("EUR")));
    assert_eq!(set_primary_currency("euro"), Err(EngineError::InvalidCurrency));
    assert_eq!(get_primary_currency(None), code("LKR"));
    assert_eq!(get_primary_currency(Some(code("USD"))), code("USD"));
}

#[test]
fn inverse_rate_is_exact() {
    let table = table();
    let found = table.get_exchange_rate(code("LKR"), code("USD"), d(2025, 1, 5)).unwrap();
    assert_eq!(found.rate, rate(1, 300));
    assert_eq!(found.from_currency, code("LKR"));
    assert_eq!(found.to_currency, code("USD"));
    assert_eq!(found.effective_date, d(2025, 1, 1));
    let as_float = found.rate.numerator as f64 / found.rate.denominator as f64;
    assert_eq!(as_float, 1.0 / 300.0);
}

#[test]
fn no_rate_on_or_before_the_date_is_an_error() {
    let table = table();
    assert_eq!(
        table.get_exchange_rate(code("USD"), code("LKR"), d(2024, 12, 1)),
        Err(EngineError::NoRateFound)
    );
    assert_eq!(
        table.get_exchange_rate(code("LKR"), code("USD"), d(2024, 12, 31)),
        Err(EngineError::NoRateFound)
    );
    assert_eq!(
        table.get_exchange_rate(code("USD"), code("EUR"), d(2025, 6, 1)),
        Err(EngineError::NoRateFound)
    );
}

#[test]
fn same_currency_has_the_rate_of_one() {
    let table = RateTable::new();
    let found = table.get_exchange_rate(code("USD"), code("USD"), d(2020, 1, 1)).unwrap();
    assert_eq!(found.rate, rate(1, 1));
    assert_eq!(found.id, 0);
    assert_eq!(found.effective_date, d(2020, 1, 1));
}

#[test]
fn most_recent_rate_on_or_before_the_date_wins() {
    let mut table = table();
    table.set_rate(code("USD"), code("LKR"), rate(310, 1), d(2025, 3, 1)).unwrap();
    table.set_rate(code("USD"), code("LKR"), rate(305, 1), d(2025, 2, 1)).unwrap();
    table.set_rate(code("LKR"), code("USD"), rate(1, 999), d(2025, 2, 15)).unwrap();
    let on = |date| table.get_exchange_rate(code("USD"), code("LKR"), date).unwrap().rate;
    assert_eq!(on(d(2025, 1, 1)), rate(300, 1));
    assert_eq!(on(d(2025, 1, 31)), rate(300, 1));
    assert_eq!(on(d(2025, 2, 1)), rate(305, 1));
    assert_eq!(on(d(2025, 2, 28)), rate(305, 1));
    assert_eq!(on(d(2025, 3, 1)), rate(310, 1));
    assert_eq!(on(d(2030, 1, 1)), rate(310, 1));
    let direct = table.get_exchange_rate(code("LKR"), code("USD"), d(2025, 3, 1)).unwrap();
    assert_eq!(direct.rate, rate(1, 999));
}

#[test]
fn setting_a_rate_replaces_the_rate_of_the_same_day() {
    let mut table = table();
    assert_eq!(table.set_rate(code("USD"), code("LKR"), rate(301, 1), d(2025, 1, 1)), Ok(1));
    assert_eq!(table.rates().len(), 1);
    assert_eq!(table.rates()[0].rate, rate(301, 1));
    assert_eq!(table.set_rate(code("USD"), code("LKR"), rate(302, 1), d(2025, 1, 2)), Ok(2));
    assert_eq!(table.rates().len(), 2);
    assert_eq!(
        table.set_rate(code("USD"), code("USD"), rate(1, 1), d(2025, 1, 2)),
        Err(EngineError::SameCurrency)
    );
    assert_eq!(
        table.set_rate(code("USD"), code("LKR"), rate(0, 1), d(2025, 1, 2)),
        Err(EngineError::NonPositiveRate)
    );
    assert_eq!(
        table.set_rate(code("USD"), code("LKR"), rate(1, 0), d(2025, 1, 2)),
        Err(EngineError::NonPositiveRate)
    );
    assert_eq!(table.delete_exchange_rate(9), Err(EngineError::RateNotFound));
    assert_eq!(table.delete_exchange_rate(1), Ok(()));
    assert_eq!(table.rates().len(), 1);
    assert_eq!(table.rates()[0].id, 2);
}

#[test]
fn rate_requests_are_read_from_text() {
    let mut table = RateTable::new();
    let input = |from: &str, to: &str, r: Rate, date: &str| SetExchangeRateInput {
        from_currency: from.to_string(),
        to_currency: to.to_string(),
        rate: r,
        effective_date: date.to_string(),
    };
    assert_eq!(
        set_exchange_rate(&mut table, input("us", "LKR", rate(3, 1), "2025-01-01")),
        Err(EngineError::InvalidCurrency)
    );
    assert_eq!(
        set_exchange_rate(&mut table, input("usd", "rupee", rate(3, 1), "2025-01-01")),
        Err(EngineError::InvalidCurrency)
    );
    assert_eq!(
        set_exchange_rate(&mut table, input("usd", " USD ", rate(3, 1), "2025-01-01")),
        Err(EngineError::SameCurrency)
    );
    assert_eq!(
        set_exchange_rate(&mut table, input("usd", "lkr", rate(0, 1), "2025-01-01")),
        Err(EngineError::NonPositiveRate)
    );
    assert_eq!(
        set_exchange_rate(&mut table, input("usd", "lkr", rate(3, 1), "")),
        Err(EngineError::MalformedDate)
    );
    assert_eq!(set_exchange_rate(&mut table, input(" usd", "lkr ", rate(3, 1), "2025-01-01")), Ok(1));
    assert_eq!(
        table.rates()[0],
        ExchangeRate {
            id: 1,
            from_currency: code("USD"),
            to_currency: code("LKR"),
            rate: rate(3, 1),
            effective_date: d(2025, 1, 1),
        }
    );
}

#[test]
fn stored_rate_of_zero_cannot_be_inverted() {
    let mut table = RateTable::new();
    table
        .restore_rate(ExchangeRate {
            id: 4,
            from_currency: code("USD"),
            to_currency: code("LKR"),
            rate: rate(0, 1),
            effective_date: d(2025, 1, 1),
        })
        .unwrap();
    assert_eq!(
        table.get_exchange_rate(code("LKR"), code("USD"), d(2025, 1, 5)),
        Err(EngineError::InvalidStoredRate)
    );
    assert_eq!(
        table.get_exchange_rate(code("USD"), code("LKR"), d(2025, 1, 5)).unwrap().rate,
        rate(0, 1)
    );
    assert!(table
        .restore_rate(ExchangeRate {
            id: 5,
            from_currency: code("USD"),
            to_currency: code("EUR"),
            rate: rate(1, 0),
            effective_date: d(2025, 1, 1),
        })
        .is_err());
}

#[test]
fn amounts_are_converted_and_rounded() {
    let table = table();
    let c = convert_amount(&table, 1_050, code("USD"), code("LKR"), d(2025, 1, 5)).unwrap();
    assert_eq!(c.converted_amount, 315_000);
    assert_eq!(c.rate_used, rate(300, 1));
    assert_eq!(c.rate_date, d(2025, 1, 1));
    assert_eq!(c.original_amount, 1_050);
    let back = convert_amount(&table, 1_000, code("LKR"), code("USD"), d(2025, 1, 5)).unwrap();
    assert_eq!(back.converted_amount, 3);
    let half = convert_amount(&table, 150, code("LKR"), code("USD"), d(2025, 1, 5)).unwrap();
    assert_eq!(half.converted_amount, 1);
    let below = convert_amount(&table, 149, code("LKR"), code("USD"), d(2025, 1, 5)).unwrap();
    assert_eq!(below.converted_amount, 0);
    let same = convert_amount(&table, 777, code("EUR"), code("EUR"), d(2025, 1, 5)).unwrap();
    assert_eq!(same.converted_amount, 777);
    assert_eq!(same.rate_used, rate(1, 1));
    assert_eq!(same.rate_date, d(2025, 1, 5));
    assert_eq!(
        convert_amount(&table, -1, code("USD"), code("LKR"), d(2025, 1, 5)),
        Err(EngineError::NegativeAmount)
    );
    assert_eq!(
        convert_amount(&table, 5, code("USD"), code("LKR"), d(2024, 1, 5)),
        Err(EngineError::NoRateFound)
    );
}

#[test]
fn yen_are_rounded_to_whole_units() {
    let mut table = RateTable::new();
    table.set_rate(code("USD"), code("JPY"), rate(15_033, 100), d(2025, 1, 1)).unwrap();
    let c = convert_amount(&table, 1_000, code("USD"), code("JPY"), d(2025, 1, 5)).unwrap();
    assert_eq!(c.converted_amount, 150_300);
    let c = convert_amount(&table, 1_001, code("USD"), code("JPY"), d(2025, 1, 5)).unwrap();
    assert_eq!(c.converted_amount, 150_500);
    assert_eq!(apply_rate(1_001, rate(15_033, 100), code("EUR")), 150_480);
    assert_eq!(apply_rate(-1_001, rate(15_033, 100), code("EUR")), -150_480);
}

#[test]
fn balances_without_a_rate_pass_through() {
    let mut ledger = Ledger::new();
    let account = |currency: &str, initial| NewAccount {
        group_id: 1,
        account_type: AccountType::Asset,
        name: "account".to_string(),
        initial_balance: initial,
        currency: code(currency),
    };
    ledger.restore_account(1, account("LKR", 50_000)).unwrap();
    ledger.restore_account(2, account("USD", 1_000)).unwrap();
    ledger.restore_account(3, account("EUR", 2_000)).unwrap();
    ledger
        .post(TransactionDraft {
            date: d(2025, 1, 3),
            transaction_type: TransactionType::Income,
            amount: 50,
            account_id: 2,
            to_account_id: None,
            category_id: None,
            memo: None,
            photo_path: None,
            auto_settlement: false,
        })
        .unwrap();
    let rows = convert_balances_to_primary(&ledger, &table(), code("LKR"), d(2025, 1, 5));
    assert_eq!(rows.len(), 3);
    assert_eq!((rows[0].converted_balance, rows[0].rate_used), (50_000, rate(1, 1)));
    assert_eq!(rows[1].original_balance, 1_050);
    assert_eq!((rows[1].converted_balance, rows[1].rate_used), (315_000, rate(300, 1)));
    assert_eq!((rows[2].converted_balance, rows[2].rate_used), (2_000, rate(0, 1)));
    assert_eq!(rows[2].original_currency, code("EUR"));
    assert_eq!(rows[2].primary_currency, code("LKR"));
}

#[test]
fn ten_currencies_are_supported() {
    let list = get_supported_currencies();
    assert_eq!(list.len(), 10);
    assert_eq!((list[0].code.as_str(), list[0].name.as_str(), list[0].symbol.as_str()), ("LKR", "Sri Lankan Rupee", "Rs."));
    assert_eq!((list[2].code.as_str(), list[2].symbol.as_str()), ("EUR", "€"));
    assert_eq!((list[7].code.as_str(), list[7].name.as_str()), ("JPY", "Japanese Yen"));
    assert_eq!((list[9].code.as_str(), list[9].name.as_str()), ("AED", "UAE Dirham"));
}

#[test]
fn rates_are_listed_and_summed_up_by_pair() {
    let mut table = table();
    table.set_rate(code("USD"), code("LKR"), rate(310, 1), d(2025, 3, 1)).unwrap();
    table.set_rate(code("EUR"), code("LKR"), rate(330, 1), d(2025, 2, 1)).unwrap();
    table.set_rate(code("USD"), code("EUR"), rate(9, 10), d(2025, 2, 1)).unwrap();
    table.set_rate(code("USD"), code("LKR"), rate(305, 1), d(2025, 2, 1)).unwrap();
    assert_eq!(get_exchange_rates(&table, None, None).len(), 5);
    assert_eq!(get_exchange_rates(&table, Some(code("USD")), None).len(), 4);
    assert_eq!(get_exchange_rates(&table, Some(code("USD")), Some(code("LKR"))).len(), 3);
    assert_eq!(get_exchange_rates(&table, None, Some(code("EUR"))).len(), 5);
    let summaries = get_exchange_rate_summaries(&table);
    assert_eq!(summaries.len(), 3);
    assert_eq!(summaries[0].from_currency, code("USD"));
    assert_eq!(summaries[0].to_currency, code("LKR"));
    assert_eq!(summaries[0].latest_rate, rate(310, 1));
    assert_eq!(summaries[0].latest_date, d(2025, 3, 1));
    assert_eq!(summaries[0].rate_count, 3);
    assert_eq!(summaries[1].from_currency, code("EUR"));
    assert_eq!(summaries[1].rate_count, 1);
    assert_eq!(summaries[2].to_currency, code("EUR"));
}

#[test]
fn rates_are_looked_up_by_the_names_of_the_currencies() {
    let table = table();
    assert_eq!(
        get_exchange_rate(&table, " lkr ", "usd", d(2025, 1, 5)),
        Ok(RateQuote { id: 1, rate: rate(1, 300), effective_date: d(2025, 1, 1) })
    );
    assert_eq!(
        get_exchange_rate(&table, "USD", "LKR", d(2025, 1, 1)),
        Ok(RateQuote { id: 1, rate: rate(300, 1), effective_date: d(2025, 1, 1) })
    );
    assert_eq!(get_exchange_rate(&table, "USD", "LKR", d(2024, 12, 1)), Err(EngineError::NoRateFound));
    assert_eq!(
        get_exchange_rate(&table, "eur", " EUR", d(2025, 1, 5)),
        Ok(RateQuote { id: 0, rate: rate(1, 1), effective_date: d(2025, 1, 5) })
    );
    assert_eq!(
        get_exchange_rate(&table, "euros", "EUROS ", d(2025, 1, 5)),
        Ok(RateQuote { id: 0, rate: rate(1, 1), effective_date: d(2025, 1, 5) })
    );
    assert_eq!(
        get_exchange_rate(&table, "", "  ", d(2025, 1, 5)),
        Ok(RateQuote { id: 0, rate: rate(1, 1), effective_date: d(2025, 1, 5) })
    );
    assert_eq!(get_exchange_rate(&table, "US", "LKR", d(2025, 1, 5)), Err(EngineError::NoRateFound));
    assert_eq!(get_exchange_rate(&table, "USD", "RUPEE", d(2025, 1, 5)), Err(EngineError::NoRateFound));
    assert_eq!(normalize_code("  usd\t"), b"USD".to_vec());
    assert_eq!(normalize_code("a b"), b"A B".to_vec());
    assert_eq!(normalize_code(" \n "), Vec::<u8>::new());
    assert!(same_bytes(&b"USD".to_vec(), &b"USD".to_vec()));
    assert!(!same_bytes(&b"USD".to_vec(), &b"USd".to_vec()));
    assert!(!same_bytes(&b"USD".to_vec(), &b"US".to_vec()));
}

#[test]
fn amounts_are_converted_by_the_names_of_the_currencies() {
    let table = table();
    assert_eq!(
        convert_named_amount(&table, 1_050, "usd", "lkr", d(2025, 1, 5)),
        Ok(AmountQuote {
            original_amount: 1_050,
            converted_amount: 315_000,
            rate_used: rate(300, 1),
            rate_date: d(2025, 1, 1),
        })
    );
    assert_eq!(
        convert_named_amount(&table, 777, "pounds", " POUNDS", d(2025, 1, 5)),
        Ok(AmountQuote {
            original_amount: 777,
            converted_amount: 777,
            rate_used: rate(1, 1),
            rate_date: d(2025, 1, 5),
        })
    );
    assert_eq!(
        convert_named_amount(&table, -1, "usd", "usd", d(2025, 1, 5)),
        Err(EngineError::NegativeAmount)
    );
    assert_eq!(
        convert_named_amount(&table, 5, "dollars", "lkr", d(2025, 1, 5)),
        Err(EngineError::NoRateFound)
    );
    assert_eq!(
        convert_named_amount(&table, 5, "usd", "lkr", d(2024, 1, 5)),
        Err(EngineError::NoRateFound)
    );
}
