//! The errors of the wallet's transaction builder and of what it rests on.

use vstd::prelude::*;

verus! {

/// Why a string is not the hexadecimal form of a byte string.
#[derive(Clone, Copy, Debug, PartialEq, Eq)]
pub enum HexError {
    /// The character `c` at byte `index` is no hexadecimal digit.
    InvalidHexCharacter { c: char, index: usize },
    /// The string has an odd number of digits.
    OddLength,
    /// The string does not have the length of the container it is decoded into.
    InvalidStringLength,
}

/// Why a JSON model is not that of a proposed transaction.
#[derive(Clone, Copy, Debug, PartialEq, Eq)]
pub enum TxProposalError {
    /// A text is not hexadecimal.
    FromHex(HexError),
    /// A text is not a number in decimal that fits in 64 bits.
    InvalidNumber,
    /// A confirmation number has the length carried, and not 32 bytes.
    ConfirmationNumberLength(usize),
    /// An index points beyond the list that it is an index of.
    IndexOutOfRange,
}

/// How much of a token was asked for, and how much there was.
#[derive(Clone, Copy, Debug, PartialEq, Eq, Structural)]
pub struct FundsShortfall {
    pub token_id: u64,
    /// The value that had to be covered.
    pub required: u64,
    /// The value that could be used to cover it.
    pub available: u64,
}

/// Errors of the wallet store's models.
#[derive(Debug, PartialEq, Eq)]
pub enum WalletDbError {
    /// No output of the token can be spent at all.
    NoSpendableTxos,
    /// The spendable outputs reach the target only with outputs above the
    /// largest value that may be spent.
    InsufficientFundsUnderMaxSpendable(FundsShortfall),
    /// The unspent outputs do not reach the target.
    InsufficientFunds(FundsShortfall),
    /// No assigned subaddress matches.
    AssignedSubaddressNotFound(String),
    /// More than one entry matches where one was expected.
    DuplicateEntries(String),
    /// Accounts that use fog have no further subaddresses.
    SubaddressesNotSupportedForFOGEnabledAccounts,
}

/// Errors of the transaction builder.
#[derive(Debug, PartialEq, Eq)]
pub enum WalletTransactionBuilderError {
    /// Insufficient funds.
    InsufficientFunds(String),
    /// The inputs of a token are worth less than its outputs and fee.
    InsufficientInputFunds(FundsShortfall),
    /// The ledger holds too few outputs to sample the rings from.
    InsufficientTxOuts,
    /// The rings and proofs do not fit the inputs: there is not one of each
    /// for every input, or a ring does not have the ring size, or it holds
    /// the output that it hides more than once, or it holds another output
    /// that the transaction spends.
    RingSizeMismatch,
    /// No recipient was specified.
    NoRecipient,
    /// Not enough rings and proofs.
    RingsAndProofsEmpty,
    /// The signer's transaction builder failed.
    TxBuilder(String),
    /// Invalid argument.
    InvalidArgument(String),
    /// A stored output or key could not be decoded.
    ProstDecode(String),
    /// Error interacting with fog.
    FogError(String),
    /// An input has no subaddress.
    NullSubaddress(String),
    /// No inputs selected. Inputs must be set or selected before building.
    NoInputs,
    /// No masked amount in output.
    NoMaskedAmount,
    /// Outbound value plus fee exceeds `u64::MAX`.
    OutboundValueTooLarge,
    /// The tombstone must be set before building, to a block beyond those of
    /// the ledger; setting it to 0 picks the default.
    TombstoneNotSet,
    /// The fee is below the least fee of its token, which is carried.
    InsufficientFee(u64),
    /// The fog public key resolver could not be made.
    FogPubkeyResolver(String),
    /// A public address could not be printed or read.
    B58(String),
    /// An amount could not be read.
    AmountError(String),
    /// A key could not be read.
    KeyError(String),
    /// The token has inputs and no outputs or fee, or outputs or a fee and no inputs.
    MissingInputsForTokenId(u64),
    /// A string is not hexadecimal.
    FromHexError(HexError),
    /// A burn redemption memo must be exactly 128 characters (64 bytes) long;
    /// the length found is carried.
    InvalidBurnRedemptionMemo(usize),
    /// The wallet store's model failed.
    WalletDb(WalletDbError),
    /// The ledger failed.
    LedgerDB(String),
}

/// Errors of the ledger service.
#[derive(Debug, PartialEq, Eq)]
pub enum LedgerServiceError {
    /// The wallet store failed.
    Database(WalletDbError),
    /// The ledger failed.
    LedgerDB(String),
    /// A stored object could not be decoded.
    ProstDecode(String),
    /// No transaction object is recorded for the transaction. Received
    /// transactions have none.
    NoTxInTransaction,
    /// A string is not hexadecimal.
    FromHex(HexError),
    /// A key could not be read.
    Key(String),
    /// Invalid argument.
    InvalidArgument(String),
    /// The ledger holds too few outputs.
    InsufficientTxOuts,
}

} // verus!
