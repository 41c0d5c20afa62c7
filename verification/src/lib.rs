//! A simulated proof-of-work blockchain: UTXO-style transactions with
//! Ed25519 signatures, SHA-256 hashed block headers, a byte-wise difficulty
//! threshold, persistent chains with shared tails, and the decision logic of
//! mining and gossiping nodes.

use vstd::prelude::*;

pub mod codec;
pub mod crypto;
pub mod pow;
pub mod transaction;
pub mod block;
pub mod chain;
pub mod miner;
pub mod node;
pub mod network;
pub mod wallet;
pub mod params;
pub mod flatten_select;
pub mod transport;

verus! {

/// Everything that can go wrong while building or validating transactions,
/// blocks and chains.
#[derive(Debug, PartialEq, Eq, Structural)]
pub enum Error {
    InvalidNumberOfKeyPairs,
    SerializationError,
    InvalidAddress,
    InvalidTxAmount,
    CryptographyError,
    InvalidGenesis,
    HeaderAndBodyHashMismatch,
    HeadAndTailHashMismatch,
    InvalidHeaderHash,
    InvalidDifficulty,
    InvalidHeight,
    TooManyInputForCoinbaseTx,
    InvalidCoinbaseAmount,
    HashIsTooHigh,
    UtxoNotFound,
    NotEnoughTokens,
}

} // verus!
