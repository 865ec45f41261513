//! Everything that can go wrong, as one closed set of variants.

use vstd::prelude::*;

verus! {

/// Why a transaction or an input row was refused.
///
/// The first ten variants come from the ledger; the variants whose names
/// begin with `Csv` come from reading a row and are never returned by the
/// ledger.
#[derive(Clone, Copy, Debug, PartialEq, Eq, Structural)]
pub enum Error {
    /// A deposit would push `total` past the largest amount.
    DepositOverflow,
    /// The account already holds a deposit with this transaction id.
    DuplicateTransactionId,
    /// A withdrawal asks for more than is available.
    WithdrawOverflow,
    /// No deposit with this transaction id exists in the account.
    TransactionNotFound,
    /// The deposit is already under dispute.
    DuplicateDispute,
    /// A resolve names a deposit that is not under dispute.
    ResolveNotDisputed,
    /// A chargeback names a deposit that is not under dispute.
    ChargebackNotDisputed,
    /// A dispute would push `held` past the largest amount.
    HeldOverflow,
    /// The account is frozen.
    AccountFrozen,
    /// The client has no account and the transaction is not a deposit.
    AccountNotFound,
    /// The row has fewer than four columns.
    CsvMissingColumn,
    /// The first column names no transaction kind.
    CsvUnknownTransactionType,
    /// The client column holds no 16-bit number.
    CsvInvalidClientId,
    /// The transaction column holds no 32-bit number.
    CsvInvalidTxId,
    /// The amount column holds no valid amount.
    CsvInvalidAmount,
    /// An amount is given for a kind that takes none.
    CsvUnexpectedAmount,
}

impl Error {
    /// True of the variants that reading a row can produce.
    pub open spec fn is_csv(self) -> bool {
        self is CsvMissingColumn || self is CsvUnknownTransactionType
            || self is CsvInvalidClientId || self is CsvInvalidTxId
            || self is CsvInvalidAmount || self is CsvUnexpectedAmount
    }
}

} // verus!
