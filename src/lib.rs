//! Deterministic state-machine core of a Bitcoin two-way peg zone: a ledger
//! of satoshi balances, an SPV header store, rotating signatory sets derived
//! from the validator set, and the checkpoint protocol that sweeps the peg's
//! Bitcoin outputs into transactions signed by the signatories.

pub mod bytes;
pub mod keyed;
pub mod error;
pub mod btc;
pub mod signatory_set;
pub mod script;
pub mod accounts;
pub mod headers;
pub mod peg;
