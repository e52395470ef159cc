use vstd::prelude::*;

verus! {

/// The reasons for which a transaction or a block is rejected.
#[derive(Debug, Clone, Copy, PartialEq, Eq, Structural)]
pub enum Error {
    DuplicateDeposit,
    UnknownBlock,
    BadProof,
    BadRecipient,
    RecipientsExhausted,
    NoDepositOutputs,
    BadAddress,
    NoAccount,
    InsufficientBalance,
    BadNonce,
    BadSignature,
    BadHeader,
    NoActiveCheckpoint,
    SignatureCountMismatch,
    BadSignatureLength,
    SignatoryOutOfBounds,
    AlreadySigned,
    IncorrectSignature,
    InvalidValidatorKey,
    Deserialization,
    /// A balance would leave the range of `u64`.
    Overflow,
}

} // verus!
