//! The entities of the ledger and the errors of the engine.

use crate::date::{parse_iso, parsed_iso_date, Date};
use vstd::prelude::*;

verus! {

/// The largest magnitude of an amount of money that can be entered, in
/// minor units.
pub const MAX_AMOUNT: i64 = 1_000_000_000_000_000;

/// The largest number of rows that one table of the engine holds.
pub const MAX_ROWS: usize = 1_000_000_000;

/// The largest identifier that the engine hands out.
pub const MAX_ID: i64 = 4_000_000_000_000_000_000;

/// The side of the balance sheet that an account belongs to.
#[derive(Clone, Copy, Debug, PartialEq, Eq, Structural)]
pub enum AccountType {
    Asset,
    Liability,
}

/// The kind of a transaction.
#[derive(Clone, Copy, Debug, PartialEq, Eq, Structural)]
pub enum TransactionType {
    Income,
    Expense,
    Transfer,
}

/// The kind of a category.
#[derive(Clone, Copy, Debug, PartialEq, Eq, Structural)]
pub enum CategoryType {
    Income,
    Expense,
}

/// A currency code of three bytes, such as `USD`.
#[derive(Clone, Copy, Debug, PartialEq, Eq, Structural)]
pub struct CurrencyCode {
    pub a: u8,
    pub b: u8,
    pub c: u8,
}

/// A group of accounts; the group decides the side of the balance sheet.
#[derive(Debug)]
pub struct AccountGroup {
    pub id: i64,
    pub name: String,
    pub account_type: AccountType,
}

/// An account. Its balance is never stored: it is derived from the journal.
#[derive(Debug)]
pub struct Account {
    pub id: i64,
    pub group_id: i64,
    pub account_type: AccountType,
    pub name: String,
    pub initial_balance: i64,
    pub currency: CurrencyCode,
}

#[derive(Debug)]
pub struct CreateAccountInput {
    pub group_id: i64,
    pub name: String,
    pub initial_balance: i64,
    pub currency: Option<CurrencyCode>,
}

/// An account together with its balance over the whole journal.
#[derive(Clone, Copy, Debug, PartialEq, Eq, Structural)]
pub struct AccountWithBalance {
    pub account_id: i64,
    pub current_balance: i128,
}

/// A category of income or expense, with at most one parent.
#[derive(Debug)]
pub struct Category {
    pub id: i64,
    pub parent_id: Option<i64>,
    pub name: String,
    pub category_type: CategoryType,
}

#[derive(Debug)]
pub struct CreateCategoryInput {
    pub parent_id: Option<i64>,
    pub name: String,
    pub category_type: String,
}

#[derive(Debug)]
pub struct UpdateCategoryInput {
    pub id: i64,
    pub name: Option<String>,
    pub parent_id: Option<i64>,
}

/// A root category with the identifiers of its direct children.
#[derive(Debug)]
pub struct CategoryWithChildren {
    pub category_id: i64,
    pub children: Vec<i64>,
}

/// One debit or credit line against one account.
#[derive(Clone, Copy, Debug, PartialEq, Eq, Structural)]
pub struct JournalEntry {
    pub id: i64,
    pub transaction_id: i64,
    pub account_id: i64,
    pub debit: i64,
    pub credit: i64,
}

/// A money movement.
#[derive(Debug)]
pub struct Transaction {
    pub id: i64,
    pub date: Date,
    pub transaction_type: TransactionType,
    pub amount: i64,
    pub account_id: i64,
    pub to_account_id: Option<i64>,
    pub category_id: Option<i64>,
    pub memo: Option<String>,
    pub photo_path: Option<String>,
    pub auto_settlement: bool,
}

/// A text that may be missing, once more.
pub fn copy_of_text(text: &Option<String>) -> (r: Option<String>)
    ensures
        r == *text,
{
    match text {
        Some(t) => Some(t.clone()),
        None => None,
    }
}

impl Transaction {
    /// The transaction once more.
    pub fn copy(&self) -> (r: Transaction)
        ensures
            r == *self,
    {
        Transaction {
            id: self.id,
            date: self.date,
            transaction_type: self.transaction_type,
            amount: self.amount,
            account_id: self.account_id,
            to_account_id: self.to_account_id,
            category_id: self.category_id,
            memo: copy_of_text(&self.memo),
            photo_path: copy_of_text(&self.photo_path),
            auto_settlement: self.auto_settlement,
        }
    }
}

#[derive(Debug)]
pub struct CreateTransactionInput {
    pub date: String,
    pub transaction_type: String,
    pub amount: i64,
    pub account_id: i64,
    pub to_account_id: Option<i64>,
    pub category_id: Option<i64>,
    pub memo: Option<String>,
}

#[derive(Debug)]
pub struct UpdateTransactionInput {
    pub id: i64,
    pub date: Option<String>,
    pub amount: Option<i64>,
    pub category_id: Option<i64>,
    pub memo: Option<String>,
}

/// A transaction with the journal entries that it owns.
#[derive(Debug)]
pub struct PostedTransaction {
    pub transaction: Transaction,
    pub entries: Vec<JournalEntry>,
}

/// Why the engine refused a request. Nothing is written when one is
/// returned.
#[derive(Clone, Copy, Debug, PartialEq, Eq, Structural)]
pub enum EngineError {
    InvalidKind,
    NonPositiveAmount,
    AmountOutOfRange,
    MalformedDate,
    DateOutOfRange,
    AccountNotFound,
    DestinationRequired,
    SelfTransfer,
    DestinationNotFound,
    CategoryNotFound,
    ParentNotFound,
    SelfParent,
    GroupNotFound,
    TransactionNotFound,
    NothingToUpdate,
    AccountInUse,
    CategoryInUse,
    CategoryHasChildren,
    CapacityExceeded,
    InvalidId,
    DuplicateId,
    InvalidRecord,
    InvalidPeriod,
    BudgetNotFound,
    DuplicateBudget,
    CardNotFound,
    NotLiabilityAccount,
    DuplicateCard,
    InvalidStatementDay,
    InvalidDueDay,
    NegativeCreditLimit,
    InvalidPercentage,
    SettlementAccountNotFound,
    SettlementNotAsset,
    SettlementIsCard,
    CardHasStatements,
    DuplicateStatement,
    StatementNotFound,
    PaymentAccountNotFound,
    PaymentNotAsset,
    PaymentFromCard,
    NothingToPay,
    InvalidCurrency,
    SameCurrency,
    NonPositiveRate,
    InvalidStoredRate,
    NoRateFound,
    RateNotFound,
    NegativeAmount,
    Overflow,
    PinLength,
    PinNotDigits,
    NegativeTimeout,
    InvalidFrequency,
    InvalidInterval,
    EndBeforeStart,
    InvalidInstallments,
    PlanCompleted,
    PlanCancelled,
    AllInstallmentsPaid,
    EmptyName,
    NoPinSet,
    IncorrectPin,
    PinVerificationFailed,
    CurrentPinRequired,
    PinHashFailed,
    UnsupportedImage,
    RecurringNotFound,
    PlanNotFound,
    PlanHasPayments,
    TemplateNotFound,
}

/// The kind that a text names.
pub open spec fn transaction_type_of(text: Seq<char>) -> Option<TransactionType> {
    if text == "INCOME"@ {
        Some(TransactionType::Income)
    } else if text == "EXPENSE"@ {
        Some(TransactionType::Expense)
    } else if text == "TRANSFER"@ {
        Some(TransactionType::Transfer)
    } else {
        None
    }
}

/// The category kind that a text names.
pub open spec fn category_type_of(text: Seq<char>) -> Option<CategoryType> {
    if text == "INCOME"@ {
        Some(CategoryType::Income)
    } else if text == "EXPENSE"@ {
        Some(CategoryType::Expense)
    } else {
        None
    }
}

/// Whether two texts hold the same characters.
pub fn same_text(a: &str, b: &str) -> (r: bool)
    ensures
        r == (a@ == b@),
{
    let x = a.to_owned();
    let y = b.to_owned();
    x == y
}

/// Reads the kind of a transaction: `INCOME`, `EXPENSE` or `TRANSFER`.
pub fn parse_transaction_type(text: &str) -> (r: Option<TransactionType>)
    ensures
        r == transaction_type_of(text@),
{
    if same_text(text, "INCOME") {
        Some(TransactionType::Income)
    } else if same_text(text, "EXPENSE") {
        Some(TransactionType::Expense)
    } else if same_text(text, "TRANSFER") {
        Some(TransactionType::Transfer)
    } else {
        None
    }
}

/// Reads the kind of a category: `INCOME` or `EXPENSE`.
pub fn parse_category_type(text: &str) -> (r: Option<CategoryType>)
    ensures
        r == category_type_of(text@),
{
    if same_text(text, "INCOME") {
        Some(CategoryType::Income)
    } else if same_text(text, "EXPENSE") {
        Some(CategoryType::Expense)
    } else {
        None
    }
}

/// The date that a text in the form year-month-day stands for.
pub open spec fn date_of_text(text: Seq<char>) -> Option<Date> {
    match parsed_iso_date(text) {
        Some((y, m, d)) => Some(Date { year: y as i32, month: m as u32, day: d as u32 }),
        None => None,
    }
}

/// Reads a date written as year-month-day; a text that is no such date is
/// refused as malformed.
pub fn parse_date(text: &str) -> (r: Result<Date, EngineError>)
    ensures
        match r {
            Ok(d) => date_of_text(text@) == Some(d) && d.valid(),
            Err(e) => e == EngineError::MalformedDate && date_of_text(text@) is None,
        },
{
    match parse_iso(text) {
        Some(d) => Ok(d),
        None => Err(EngineError::MalformedDate),
    }
}

impl EngineError {
    /// The words in which the refusal is told to the user.
    pub open spec fn message_spec(self) -> Seq<char> {
        match self {
            EngineError::InvalidKind => "Invalid transaction type"@,
            EngineError::NonPositiveAmount => "Amount must be greater than zero"@,
            EngineError::AmountOutOfRange => "Amount is too large"@,
            EngineError::MalformedDate => "Invalid date format. Use YYYY-MM-DD"@,
            EngineError::DateOutOfRange => "Date is out of range"@,
            EngineError::AccountNotFound => "Account does not exist"@,
            EngineError::DestinationRequired => "Transfer requires to_account_id"@,
            EngineError::SelfTransfer => "Cannot transfer to the same account"@,
            EngineError::DestinationNotFound => "Destination account does not exist"@,
            EngineError::CategoryNotFound => "Category does not exist"@,
            EngineError::ParentNotFound => "Parent category does not exist"@,
            EngineError::SelfParent => "Category cannot be its own parent"@,
            EngineError::GroupNotFound => "Account group does not exist"@,
            EngineError::TransactionNotFound => "Transaction not found"@,
            EngineError::NothingToUpdate => "No fields to update"@,
            EngineError::AccountInUse => "Cannot delete account with existing transactions"@,
            EngineError::CategoryInUse => "Cannot delete category with existing transactions"@,
            EngineError::CategoryHasChildren => "Cannot delete category with subcategories"@,
            EngineError::CapacityExceeded => "The table is full"@,
            EngineError::InvalidId => "Identifier is out of range"@,
            EngineError::DuplicateId => "Identifier is already in use"@,
            EngineError::InvalidRecord => "Stored record is not valid"@,
            EngineError::InvalidPeriod => "Period must be MONTHLY or YEARLY"@,
            EngineError::BudgetNotFound => "Budget not found"@,
            EngineError::DuplicateBudget => "Budget already exists for this category and period"@,
            EngineError::CardNotFound => "Credit card settings not found"@,
            EngineError::NotLiabilityAccount => "Credit card settings can only be created for LIABILITY accounts (Credit Card group)"@,
            EngineError::DuplicateCard => "Credit card settings already exist for this account. Use update instead."@,
            EngineError::InvalidStatementDay => "Statement day must be between 1 and 28"@,
            EngineError::InvalidDueDay => "Payment due day must be between 1 and 28"@,
            EngineError::NegativeCreditLimit => "Credit limit cannot be negative"@,
            EngineError::InvalidPercentage => "Minimum payment percentage must be between 0 and 100"@,
            EngineError::SettlementAccountNotFound => "Settlement account not found"@,
            EngineError::SettlementNotAsset => "Settlement account must be an ASSET account (Bank/Cash/Savings)"@,
            EngineError::SettlementIsCard => "Settlement account cannot be the credit card itself"@,
            EngineError::CardHasStatements => "Cannot delete credit card settings with existing statements. Delete statements first."@,
            EngineError::DuplicateStatement => "Statement already exists for this billing cycle"@,
            EngineError::StatementNotFound => "Statement not found"@,
            EngineError::PaymentAccountNotFound => "Payment account not found"@,
            EngineError::PaymentNotAsset => "Payment must come from an ASSET account (Bank/Cash/Savings)"@,
            EngineError::PaymentFromCard => "Cannot pay credit card from itself"@,
            EngineError::NothingToPay => "No outstanding balance to pay"@,
            EngineError::InvalidCurrency => "Currency code must be a 3-letter code (e.g., LKR, USD)"@,
            EngineError::SameCurrency => "'from_currency' and 'to_currency' must be different"@,
            EngineError::NonPositiveRate => "Exchange rate must be greater than 0"@,
            EngineError::InvalidStoredRate => "Stored rate is invalid (zero or negative)"@,
            EngineError::NoRateFound => "No exchange rate found"@,
            EngineError::RateNotFound => "Exchange rate not found"@,
            EngineError::NegativeAmount => "Amount must be non-negative"@,
            EngineError::Overflow => "Amount is out of range"@,
            EngineError::PinLength => "PIN must be 4-8 digits"@,
            EngineError::PinNotDigits => "PIN must contain only digits (0-9)"@,
            EngineError::NegativeTimeout => "Timeout cannot be negative"@,
            EngineError::InvalidFrequency => "Invalid frequency"@,
            EngineError::InvalidInterval => "Interval days must be at least 1"@,
            EngineError::EndBeforeStart => "End date must be after start date"@,
            EngineError::InvalidInstallments => "Number of installments must be greater than 0"@,
            EngineError::PlanCompleted => "Installment plan is already completed"@,
            EngineError::PlanCancelled => "Installment plan is cancelled"@,
            EngineError::AllInstallmentsPaid => "All installments have been paid"@,
            EngineError::EmptyName => "Template name cannot be empty."@,
            EngineError::NoPinSet => "No PIN is set"@,
            EngineError::IncorrectPin => "Incorrect PIN"@,
            EngineError::PinVerificationFailed => "PIN verification error"@,
            EngineError::CurrentPinRequired => "Current PIN is required to change your PIN"@,
            EngineError::PinHashFailed => "Failed to hash PIN"@,
            EngineError::UnsupportedImage => "Unsupported image format. Use JPG, PNG, WebP, BMP, or GIF."@,
            EngineError::RecurringNotFound => "Recurring transaction not found"@,
            EngineError::PlanNotFound => "Installment plan not found"@,
            EngineError::PlanHasPayments => "Cannot delete installment plan with existing payments. Cancel it instead."@,
            EngineError::TemplateNotFound => "Template not found."@,
        }
    }

    /// The words in which the refusal is told to the user.
    pub fn message(&self) -> (r: String)
        ensures
            r@ == self.message_spec(),
    {
        let text = match self {
            EngineError::InvalidKind => "Invalid transaction type",
            EngineError::NonPositiveAmount => "Amount must be greater than zero",
            EngineError::AmountOutOfRange => "Amount is too large",
            EngineError::MalformedDate => "Invalid date format. Use YYYY-MM-DD",
            EngineError::DateOutOfRange => "Date is out of range",
            EngineError::AccountNotFound => "Account does not exist",
            EngineError::DestinationRequired => "Transfer requires to_account_id",
            EngineError::SelfTransfer => "Cannot transfer to the same account",
            EngineError::DestinationNotFound => "Destination account does not exist",
            EngineError::CategoryNotFound => "Category does not exist",
            EngineError::ParentNotFound => "Parent category does not exist",
            EngineError::SelfParent => "Category cannot be its own parent",
            EngineError::GroupNotFound => "Account group does not exist",
            EngineError::TransactionNotFound => "Transaction not found",
            EngineError::NothingToUpdate => "No fields to update",
            EngineError::AccountInUse => "Cannot delete account with existing transactions",
            EngineError::CategoryInUse => "Cannot delete category with existing transactions",
            EngineError::CategoryHasChildren => "Cannot delete category with subcategories",
            EngineError::CapacityExceeded => "The table is full",
            EngineError::InvalidId => "Identifier is out of range",
            EngineError::DuplicateId => "Identifier is already in use",
            EngineError::InvalidRecord => "Stored record is not valid",
            EngineError::InvalidPeriod => "Period must be MONTHLY or YEARLY",
            EngineError::BudgetNotFound => "Budget not found",
            EngineError::DuplicateBudget => "Budget already exists for this category and period",
            EngineError::CardNotFound => "Credit card settings not found",
            EngineError::NotLiabilityAccount => "Credit card settings can only be created for LIABILITY accounts (Credit Card group)",
            EngineError::DuplicateCard => "Credit card settings already exist for this account. Use update instead.",
            EngineError::InvalidStatementDay => "Statement day must be between 1 and 28",
            EngineError::InvalidDueDay => "Payment due day must be between 1 and 28",
            EngineError::NegativeCreditLimit => "Credit limit cannot be negative",
            EngineError::InvalidPercentage => "Minimum payment percentage must be between 0 and 100",
            EngineError::SettlementAccountNotFound => "Settlement account not found",
            EngineError::SettlementNotAsset => "Settlement account must be an ASSET account (Bank/Cash/Savings)",
            EngineError::SettlementIsCard => "Settlement account cannot be the credit card itself",
            EngineError::CardHasStatements => "Cannot delete credit card settings with existing statements. Delete statements first.",
            EngineError::DuplicateStatement => "Statement already exists for this billing cycle",
            EngineError::StatementNotFound => "Statement not found",
            EngineError::PaymentAccountNotFound => "Payment account not found",
            EngineError::PaymentNotAsset => "Payment must come from an ASSET account (Bank/Cash/Savings)",
            EngineError::PaymentFromCard => "Cannot pay credit card from itself",
            EngineError::NothingToPay => "No outstanding balance to pay",
            EngineError::InvalidCurrency => "Currency code must be a 3-letter code (e.g., LKR, USD)",
            EngineError::SameCurrency => "'from_currency' and 'to_currency' must be different",
            EngineError::NonPositiveRate => "Exchange rate must be greater than 0",
            EngineError::InvalidStoredRate => "Stored rate is invalid (zero or negative)",
            EngineError::NoRateFound => "No exchange rate found",
            EngineError::RateNotFound => "Exchange rate not found",
            EngineError::NegativeAmount => "Amount must be non-negative",
            EngineError::Overflow => "Amount is out of range",
            EngineError::PinLength => "PIN must be 4-8 digits",
            EngineError::PinNotDigits => "PIN must contain only digits (0-9)",
            EngineError::NegativeTimeout => "Timeout cannot be negative",
            EngineError::InvalidFrequency => "Invalid frequency",
            EngineError::InvalidInterval => "Interval days must be at least 1",
            EngineError::EndBeforeStart => "End date must be after start date",
            EngineError::InvalidInstallments => "Number of installments must be greater than 0",
            EngineError::PlanCompleted => "Installment plan is already completed",
            EngineError::PlanCancelled => "Installment plan is cancelled",
            EngineError::AllInstallmentsPaid => "All installments have been paid",
            EngineError::EmptyName => "Template name cannot be empty.",
            EngineError::NoPinSet => "No PIN is set",
            EngineError::IncorrectPin => "Incorrect PIN",
            EngineError::PinVerificationFailed => "PIN verification error",
            EngineError::CurrentPinRequired => "Current PIN is required to change your PIN",
            EngineError::PinHashFailed => "Failed to hash PIN",
            EngineError::UnsupportedImage => "Unsupported image format. Use JPG, PNG, WebP, BMP, or GIF.",
            EngineError::RecurringNotFound => "Recurring transaction not found",
            EngineError::PlanNotFound => "Installment plan not found",
            EngineError::PlanHasPayments => "Cannot delete installment plan with existing payments. Cancel it instead.",
            EngineError::TemplateNotFound => "Template not found.",
        };
        text.to_owned()
    }
}

} // verus!
