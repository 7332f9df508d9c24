//! Decoded transaction records.
use vstd::prelude::*;

verus! {

/// The five kinds of record a stream may hold.
#[derive(Clone, Copy, Debug, PartialEq, Eq, Structural)]
pub enum TransactionType {
    Chargeback,
    Deposit,
    Dispute,
    Resolve,
    Withdrawal,
}

/// A decoded record. `amount` is a fixed-point decimal counted in
/// ten-thousandths; it is present exactly for deposits and withdrawals.
#[derive(Clone, Copy, Debug, PartialEq, Eq, Structural)]
pub struct Transaction {
    pub kind: TransactionType,
    pub client: u16,
    pub tx: u32,
    pub amount: Option<u64>,
}

/// Why a record could not be decoded.
#[derive(Clone, Copy, Debug, PartialEq, Eq, Structural)]
pub enum DecodeError {
    /// The record has fewer than three or more than four fields.
    FieldCount,
    /// The first field names no known kind.
    UnknownKind,
    /// The client field is not a decimal number that fits in 16 bits.
    MalformedClient,
    /// The transaction field is not a decimal number that fits in 32 bits.
    MalformedTx,
    /// A deposit or withdrawal has no amount.
    MissingAmount,
    /// A dispute, resolve or chargeback carries an amount.
    UnexpectedAmount,
    /// The amount is not a decimal with at most four fractional digits in range.
    MalformedAmount,
    /// The text could not be split into records.
    MalformedText,
}

/// Deposits and withdrawals move funds; the other kinds refer to one of them.
pub open spec fn moves_funds(kind: TransactionType) -> bool {
    kind == TransactionType::Deposit || kind == TransactionType::Withdrawal
}

/// The amount is present exactly when the kind moves funds.
pub open spec fn amount_matches_kind(kind: TransactionType, amount: Option<u64>) -> bool {
    moves_funds(kind) == amount.is_some()
}

impl Transaction {
    /// Builds a record, refusing an amount that does not match the kind.
    pub fn new(kind: TransactionType, client: u16, tx: u32, amount: Option<u64>) -> (r: Result<
        Transaction,
        DecodeError,
    >)
        ensures
            amount_matches_kind(kind, amount) ==> r == Ok::<Transaction, DecodeError>(
                Transaction { kind, client, tx, amount },
            ),
            moves_funds(kind) && amount.is_none() ==> r == Err::<Transaction, DecodeError>(
                DecodeError::MissingAmount,
            ),
            !moves_funds(kind) && amount.is_some() ==> r == Err::<Transaction, DecodeError>(
                DecodeError::UnexpectedAmount,
            ),
    {
        let funds = match kind {
            TransactionType::Deposit | TransactionType::Withdrawal => true,
            _ => false,
        };
        if funds && amount.is_none() {
            Err(DecodeError::MissingAmount)
        } else if !funds && amount.is_some() {
            Err(DecodeError::UnexpectedAmount)
        } else {
            Ok(Transaction { kind, client, tx, amount })
        }
    }
}

} // verus!
