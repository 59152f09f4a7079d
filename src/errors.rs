use vstd::prelude::*;

verus! {

/// Why an operation was refused. Every refusal leaves all state as it was.
#[derive(Clone, Copy, Debug, PartialEq, Eq, Structural)]
pub enum SolcastError {
    /// The caller is not the administrator.
    Unauthorized,
    /// A market with this id is already registered.
    MarketIdAlreadyExists,
    /// The option named is neither of the market's two options.
    InvalidOption,
    /// The market has already been resolved.
    MarketAlreadyResolved,
    /// The market addressed does not carry the id given.
    MarketNotFound,
    /// The market has not been resolved yet.
    MarketNotResolved,
    /// The caller holds no stake on the winning option, or nobody does.
    NoWinningShares,
    /// The caller has already withdrawn their winnings.
    AlreadyWithdrawn,
    /// A market was described with other than exactly two options.
    InvalidOptionsCount,
    /// A stake of zero was offered.
    ZeroAmount,
    /// A total or a payout does not fit in 64 bits.
    ArithmeticOverflow,
    /// The market's share ledger is full.
    TooManyParticipants,
    /// Moving value into or out of escrow failed.
    CustodyError,
    /// The token account given is not the expected one.
    InvalidTokenAccount,
    /// The option token account given is not the expected one.
    InvalidOptionTokenAccount,
    /// The option mint given is not the expected one.
    InvalidOptionMint,
    /// No escrow authority can be derived for the market id.
    InvalidMarketAuthority,
}

} // verus!
