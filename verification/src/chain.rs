//! The chain: an immutable singly-linked list of blocks whose tails are
//! shared by reference counting, so many nodes hold overlapping suffixes
//! cheaply. Validation walks from the head to the genesis block.

use vstd::prelude::*;
use std::sync::Arc;
use crate::block::{Block, Header, Body, COINBASE_AMOUNT, HeaderCoreV, spec_ser_body,
    spec_ser_header_core, spec_coinbase_body};
use crate::crypto::{sha256_of, spec_zero_hash};
use crate::pow::{Difficulty, Nonce};
use crate::transaction::{Address, TxOut, UtxoStore, EmptyUtxoStore};
use crate::Error;

verus! {

/// Relies on `alloc::sync::Arc::clone`: a clone is a second reference to
/// the same chain.
#[verifier::external_body]
pub(crate) fn clone_chain_ref(chain: &Arc<Chain>) -> (r: Arc<Chain>)
    ensures
        r == *chain,
{
    chain.clone()
}

/// A chain: its newest block and, unless it is the genesis chain, a shared
/// reference to the chain it extends.
pub struct Chain {
    pub head: Block,
    pub tail: Option<Arc<Chain>>,
}

/// The verdict of the link between a block and the chain it extends: the
/// height must step by one (`InvalidHeight`), the difficulty must carry over
/// (`InvalidDifficulty`), and the block must name the hash of the block below
/// it (`HeadAndTailHashMismatch`).
pub open spec fn spec_link_verdict(head: Block, tail_head: Block) -> Result<(), Error> {
    if head.header.hashed_content.height != tail_head.header.hashed_content.height + 1 {
        Err(Error::InvalidHeight)
    } else if head.header.hashed_content.difficulty@ != tail_head.header.hashed_content.difficulty@ {
        Err(Error::InvalidDifficulty)
    } else if head.header.hashed_content.previous_block_hash@ != tail_head.header.hash@ {
        Err(Error::HeadAndTailHashMismatch)
    } else {
        Ok(())
    }
}

impl Chain {
    /// The number of blocks in the chain.
    pub open spec fn spec_len(&self) -> nat
        decreases self,
    {
        match self.tail {
            Some(t) => 1 + t.spec_len(),
            None => 1,
        }
    }

    /// Lengths of the parts of a well-formed chain.
    pub open spec fn wf(&self) -> bool
        decreases self,
    {
        &&& self.head.wf()
        &&& match self.tail {
            Some(t) => t.wf(),
            None => true,
        }
    }

    /// The chain's height: its head block's height.
    pub open spec fn spec_height(&self) -> u32 {
        self.head.header.hashed_content.height
    }

    /// The verdict of whole-chain validation against `store`: every block
    /// must validate, every link must hold, and the block without a
    /// predecessor must be the expected genesis block (`InvalidGenesis`).
    pub open spec fn spec_verdict<S: UtxoStore>(
        &self,
        store: &S,
        expected_genesis: Seq<u8>,
    ) -> Result<(), Error>
        decreases self,
    {
        if self.head.spec_verdict(store) is Err {
            self.head.spec_verdict(store)
        } else {
            match self.tail {
                Some(t) => {
                    if spec_link_verdict(self.head, t.head) is Err {
                        spec_link_verdict(self.head, t.head)
                    } else {
                        t.spec_verdict(store, expected_genesis)
                    }
                },
                None => {
                    if self.head.header.hash@ == expected_genesis {
                        Ok(())
                    } else {
                        Err(Error::InvalidGenesis)
                    }
                },
            }
        }
    }

    /// The chain's height; the genesis chain has height 0.
    pub fn height(&self) -> (r: u32)
        ensures
            r == self.spec_height(),
    {
        self.head.header.hashed_content.height
    }

    /// The head of the chain: the block at the top of it.
    pub fn head(&self) -> (r: &Block)
        ensures
            r == self.head,
    {
        &self.head
    }

    /// The cached hash of the head block's header.
    pub fn head_hash(&self) -> (r: &crate::crypto::Hash)
        ensures
            r@ == self.head.header.hash@,
    {
        self.head.header.hash()
    }

    /// The hash of the block at the bottom of the chain.
    pub open spec fn spec_genesis_hash(&self) -> Seq<u8>
        decreases self,
    {
        match self.tail {
            Some(t) => t.spec_genesis_hash(),
            None => self.head.header.hash@,
        }
    }

    /// Walks to the bottom of the chain and returns its block's hash: the
    /// hash that every chain this node accepts must root in.
    pub fn genesis_hash(&self) -> (r: crate::crypto::Hash)
        requires
            self.wf(),
        ensures
            r@ == self.spec_genesis_hash(),
            r.wf(),
    {
        let mut current: &Chain = self;
        loop
            invariant
                current.wf(),
                current.spec_genesis_hash() == self.spec_genesis_hash(),
            decreases current.spec_len(),
        {
            match &current.tail {
                Some(tail) => {
                    current = tail;
                },
                None => {
                    return current.head.header.hash.clone();
                },
            }
        }
    }

    /// Checks well-formedness at run time: every block's digests, threshold
    /// and coinbase address have their fixed lengths. A chain received from
    /// outside is checked before anything is claimed of it.
    pub fn check_wf(&self) -> (r: bool)
        ensures
            r == self.wf(),
    {
        let mut current: &Chain = self;
        loop
            invariant
                self.wf() == current.wf(),
            decreases current.spec_len(),
        {
            let header = &current.head.header;
            let head_ok = header.hash.bytes.len() == 32
                && header.hashed_content.difficulty.threshold.len() == 32
                && header.hashed_content.previous_block_hash.bytes.len() == 32
                && header.hashed_content.body_hash.bytes.len() == 32
                && current.head.body.coinbase_tx.0.to_address.0.bytes.len() == 32;
            if !head_ok {
                return false;
            }
            match &current.tail {
                Some(tail) => {
                    current = tail;
                },
                None => {
                    return true;
                },
            }
        }
    }

    /// Builds a chain from its parts, however ill-linked: validation exists
    /// to catch broken links.
    pub fn from_parts(head: Block, tail: Option<Arc<Chain>>) -> (r: Chain)
        ensures
            r.head == head,
            r.tail == tail,
    {
        Chain { head, tail }
    }

    /// Extends `chain` with `block` without any validation.
    pub fn unvalidated_expand(chain: &Arc<Chain>, block: Block) -> (r: Chain)
        ensures
            r.head == block,
            r.tail == Some(*chain),
    {
        Chain { head: block, tail: Some(clone_chain_ref(chain)) }
    }

    /// Extends `chain` with `block`: the block's header must validate and
    /// the link checks of [`spec_link_verdict`] must pass; the new chain
    /// then shares `chain` as its tail. A chain this returns is one block
    /// higher than its tail and names its tail's head hash.
    pub fn expand(chain: &Arc<Chain>, block: Block) -> (r: Result<Arc<Chain>, Error>)
        requires
            block.header.wf(),
        ensures
            match r {
                Ok(c) => {
                    &&& c.head == block
                    &&& c.tail == Some(*chain)
                    &&& block.header.spec_verdict() is Ok
                    &&& c.spec_height() == chain.spec_height() + 1
                    &&& c.head.header.hashed_content.previous_block_hash@
                        == chain.head.header.hash@
                    &&& c.head.header.hashed_content.difficulty@
                        == chain.head.header.hashed_content.difficulty@
                },
                Err(e) => {
                    if block.header.spec_verdict() is Err {
                        Err::<(), Error>(e) == block.header.spec_verdict()
                    } else {
                        Err::<(), Error>(e) == spec_link_verdict(block, chain.head)
                    }
                },
            },
            r is Ok <==> block.header.spec_verdict() is Ok && spec_link_verdict(
                block,
                chain.head,
            ) is Ok,
    {
        match block.header.verify() {
            Ok(()) => {},
            Err(e) => {
                return Err(e);
            },
        }
        let tail_head = &chain.head;
        if tail_head.header.hashed_content.height == u32::MAX
            || block.header.hashed_content.height != tail_head.header.hashed_content.height + 1 {
            return Err(Error::InvalidHeight);
        }
        if !(block.header.hashed_content.difficulty == tail_head.header.hashed_content.difficulty) {
            return Err(Error::InvalidDifficulty);
        }
        if !(block.header.hashed_content.previous_block_hash == tail_head.header.hash) {
            return Err(Error::HeadAndTailHashMismatch);
        }
        Ok(Arc::new(Chain { head: block, tail: Some(clone_chain_ref(chain)) }))
    }

    /// Mines the genesis chain: a body holding only the coinbase reward to
    /// `coinbase_address`, the zero hash as predecessor, height 0, and the
    /// first nonce whose header hash meets `difficulty`. The result, when the
    /// search succeeds before the nonce space is exhausted, is a well-formed
    /// one-block chain that validates against its own head hash.
    pub fn mine_new_genesis(difficulty: Difficulty, coinbase_address: Address) -> (r: Result<
        Chain,
        Error,
    >)
        requires
            difficulty.wf(),
            coinbase_address.wf(),
        ensures
            r matches Ok(c) ==> {
                &&& c.wf()
                &&& c.tail is None
                &&& c.spec_height() == 0
                &&& c.head.header.hashed_content.previous_block_hash@ == spec_zero_hash()
                &&& c.head.header.hashed_content.difficulty@ == difficulty@
                &&& c.head.header.spec_verdict() is Ok
                &&& c.head.spec_body_matches()
                &&& c.head.body@.transactions.len() == 0
                &&& c.head.body@.coinbase.amount == COINBASE_AMOUNT
                &&& c.head.body@.coinbase.to_address == coinbase_address@
            },
            r matches Err(e) ==> e == Error::HashIsTooHigh,
            // the search gives up only when no nonce at all yields a hash
            // below the threshold
            r is Err ==> forall|n: u64|
                !crate::pow::lex_less(
                    sha256_of(
                        spec_ser_header_core(
                            HeaderCoreV {
                                nonce: n,
                                difficulty: difficulty@,
                                previous_block_hash: spec_zero_hash(),
                                height: 0,
                                body_hash: sha256_of(
                                    spec_ser_body(spec_coinbase_body(coinbase_address@)),
                                ),
                            },
                        ),
                    ),
                    difficulty@,
                ),
    {
        let coinbase_tx_out = TxOut::new(COINBASE_AMOUNT, coinbase_address.clone());
        let body = Body::new(coinbase_tx_out, Vec::new());
        let serialized_body = body.serialize();
        let previous_block_hash = crate::crypto::Hash::min();
        proof {
            assert(body@.transactions =~= spec_coinbase_body(coinbase_address@).transactions);
            assert(body@ == spec_coinbase_body(coinbase_address@));
        }
        let mut header = match Header::new(
            Nonce::new(),
            difficulty.clone(),
            previous_block_hash,
            0,
            serialized_body.as_slice(),
        ) {
            Ok(h) => h,
            Err(e) => {
                return Err(e);
            },
        };
        loop
            invariant
                header.wf(),
                header.spec_hash_ok(),
                header.hashed_content@.height == 0,
                header.hashed_content@.difficulty == difficulty@,
                header.hashed_content@.previous_block_hash == spec_zero_hash(),
                header.hashed_content@.body_hash == sha256_of(spec_ser_body(body@)),
                body@.transactions.len() == 0,
                body@.coinbase.amount == COINBASE_AMOUNT,
                body@.coinbase.to_address == coinbase_address@,
                body@ == spec_coinbase_body(coinbase_address@),
                body.wf(),
                forall|n: u64|
                    n < header.hashed_content.nonce.0 ==> !crate::pow::lex_less(
                        sha256_of(
                            spec_ser_header_core(
                                HeaderCoreV {
                                    nonce: n,
                                    difficulty: difficulty@,
                                    previous_block_hash: spec_zero_hash(),
                                    height: 0,
                                    body_hash: sha256_of(
                                        spec_ser_body(spec_coinbase_body(coinbase_address@)),
                                    ),
                                },
                            ),
                        ),
                        difficulty@,
                    ),
            decreases u64::MAX - header.hashed_content.nonce.0,
        {
            match header.verify() {
                Ok(()) => {
                    let block = Block::new(header, body);
                    let chain = Chain { head: block, tail: None };
                    match chain.verify(&chain.head.header.hash.clone(), &EmptyUtxoStore) {
                        Ok(()) => {
                            return Ok(chain);
                        },
                        Err(e) => {
                            return Err(e);
                        },
                    }
                },
                Err(_) => {
                    // only `HashIsTooHigh` is possible here: the cached hash
                    // is honest by construction, so this nonce's hash is not
                    // below the threshold
                    proof {
                        assert(header.hashed_content@ == HeaderCoreV {
                            nonce: header.hashed_content.nonce.0,
                            difficulty: difficulty@,
                            previous_block_hash: spec_zero_hash(),
                            height: 0,
                            body_hash: sha256_of(
                                spec_ser_body(spec_coinbase_body(coinbase_address@)),
                            ),
                        });
                        assert(!header.spec_pow_ok());
                    }
                    if header.hashed_content.nonce.0 == u64::MAX {
                        return Err(Error::HashIsTooHigh);
                    }
                    match header.increment_nonce() {
                        Ok(()) => {},
                        Err(e) => {
                            return Err(e);
                        },
                    }
                },
            }
        }
    }

    /// Validates the whole chain from head to genesis against `utxo_store`,
    /// as [`Self::spec_verdict`] describes. The walk is iterative, so chains
    /// thousands of blocks long validate without deep recursion.
    pub fn verify<S: UtxoStore>(
        &self,
        expected_genesis_hash: &crate::crypto::Hash,
        utxo_store: &S,
    ) -> (r: Result<(), Error>)
        requires
            self.wf(),
        ensures
            r == self.spec_verdict(utxo_store, expected_genesis_hash@),
    {
        let mut current: &Chain = self;
        loop
            invariant
                current.wf(),
                self.spec_verdict(utxo_store, expected_genesis_hash@) == current.spec_verdict(
                    utxo_store,
                    expected_genesis_hash@,
                ),
            decreases current.spec_len(),
        {
            match current.head.verify(utxo_store) {
                Ok(()) => {},
                Err(e) => {
                    return Err(e);
                },
            }
            match &current.tail {
                Some(tail) => {
                    let h_header = &current.head.header;
                    let t_header = &tail.head.header;
                    if h_header.hashed_content.height == 0 || !(h_header.hashed_content.height - 1
                        == t_header.hashed_content.height) {
                        proof {
                            assert(spec_link_verdict(current.head, tail.head) == Err::<(), Error>(
                                Error::InvalidHeight,
                            ));
                        }
                        return Err(Error::InvalidHeight);
                    }
                    if !(h_header.hashed_content.difficulty == t_header.hashed_content.difficulty) {
                        return Err(Error::InvalidDifficulty);
                    }
                    if !(h_header.hashed_content.previous_block_hash == t_header.hash) {
                        return Err(Error::HeadAndTailHashMismatch);
                    }
                    current = tail;
                },
                None => {
                    if current.head.header.hash() == expected_genesis_hash {
                        return Ok(());
                    } else {
                        return Err(Error::InvalidGenesis);
                    }
                },
            }
        }
    }
}

} // verus!
