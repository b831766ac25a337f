//! The reasons for which a ledger operation is refused.

use vstd::prelude::*;

verus! {

/// Why an operation was refused. A refused operation leaves the ledger as it was.
#[derive(Clone, Copy, Debug, PartialEq, Eq, Structural)]
pub enum LedgerError {
    /// The ledger was set up before.
    AlreadyInitialized,
    /// A deposit carried no value.
    ZeroDeposit,
    /// Both parties of an exchange are the same account.
    SelfExchange,
    /// The pool holds less than one reward.
    InsufficientFunds,
    /// The caller is not the owner.
    Unauthorized,
    /// A balance or the token counter would leave its range.
    Overflow,
}

impl LedgerError {
    /// The text that tells the caller why the operation was refused.
    pub open spec fn reason_text(self) -> Seq<char> {
        match self {
            LedgerError::AlreadyInitialized => "Already initialized"@,
            LedgerError::ZeroDeposit => "Must attach NEAR to deposit"@,
            LedgerError::SelfExchange => "Cannot exchange cards with yourself"@,
            LedgerError::InsufficientFunds => "Insufficient pool balance for transfer"@,
            LedgerError::Unauthorized => "Only owner can change transfer amount"@,
            LedgerError::Overflow => "Arithmetic overflow"@,
        }
    }

    /// The reason as text.
    pub fn reason(&self) -> (s: &'static str)
        ensures
            s@ == self.reason_text(),
    {
        match self {
            LedgerError::AlreadyInitialized => "Already initialized",
            LedgerError::ZeroDeposit => "Must attach NEAR to deposit",
            LedgerError::SelfExchange => "Cannot exchange cards with yourself",
            LedgerError::InsufficientFunds => "Insufficient pool balance for transfer",
            LedgerError::Unauthorized => "Only owner can change transfer amount",
            LedgerError::Overflow => "Arithmetic overflow",
        }
    }
}

} // verus!
