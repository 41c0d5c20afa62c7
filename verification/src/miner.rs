//! The mining engine's state machine. The surrounding event loop alternates
//! two inputs: a chain update pushed by the node, and a mining tick. The
//! update rebases the search; the tick makes one attempt with the next
//! nonce and yields the extended chain when its hash meets the difficulty.

use vstd::prelude::*;
use std::sync::Arc;
use crate::block::{Block, Header, Body, COINBASE_AMOUNT, HeaderCoreV, spec_ser_body,
    spec_ser_header_core, spec_coinbase_body};
use crate::chain::Chain;
use crate::crypto::sha256_of;
use crate::pow::lex_less;
use crate::transaction::{Address, TxOut, TxOutV};

verus! {

/// The header pre-image of the state's next candidate block: the current
/// nonce over the tip's difficulty and hash, one block higher, committing to
/// the miner's coinbase-only body.
pub open spec fn spec_candidate_core(state: MiningState) -> HeaderCoreV {
    HeaderCoreV {
        nonce: state.nonce.0,
        difficulty: state.chain.head.header.hashed_content.difficulty@,
        previous_block_hash: state.chain.head.header.hash@,
        height: (state.chain.spec_height() + 1) as u32,
        body_hash: sha256_of(spec_ser_body(spec_coinbase_body(state.payout_address@))),
    }
}

/// A miner's state: the chain it builds on, the nonce of its next attempt,
/// the id of the node it mines for, and the address its rewards pay into.
/// Distinct payout addresses give distinct bodies, so nodes working on one
/// predecessor still search disjoint hash sequences.
pub struct MiningState {
    pub chain: Arc<Chain>,
    pub nonce: crate::pow::Nonce,
    pub node_id: u32,
    pub payout_address: Address,
}

impl MiningState {
    /// Lengths of the parts of a well-formed miner state.
    pub open spec fn wf(&self) -> bool {
        self.chain.wf() && self.payout_address.wf()
    }

    pub fn new(node_id: u32, chain: Arc<Chain>, payout_address: Address) -> (r: MiningState)
        ensures
            r.node_id == node_id,
            r.chain == chain,
            r.nonce.0 == 0,
            r.payout_address == payout_address,
    {
        MiningState { chain, nonce: crate::pow::Nonce::new(), node_id, payout_address }
    }

    /// A chain update from the node: a strictly higher chain is adopted and
    /// the nonce restarts; anything else leaves the state alone.
    pub fn on_chain_update(&mut self, chain_update: Arc<Chain>)
        ensures
            chain_update.spec_height() > old(self).chain.spec_height() ==> *final(self) == (
            MiningState {
                chain: chain_update,
                nonce: crate::pow::Nonce(0u64),
                ..*old(self)
            }),
            chain_update.spec_height() <= old(self).chain.spec_height() ==> *final(self) == *old(
                self,
            ),
    {
        if self.chain.height() < chain_update.height() {
            self.chain = chain_update;
            self.nonce = crate::pow::Nonce::new();
        }
    }

    /// One mining attempt: the nonce steps, a coinbase-only candidate block
    /// is built on the current tip, and the extended chain is returned
    /// exactly when the candidate's hash meets the difficulty. The state's
    /// chain is not adopted here; the node pushes it back through
    /// [`Self::on_chain_update`] after propagation.
    pub fn mine(&mut self) -> (r: Option<Arc<Chain>>)
        requires
            old(self).wf(),
            old(self).nonce.0 < u64::MAX,
        ensures
            final(self).chain == old(self).chain,
            final(self).node_id == old(self).node_id,
            final(self).payout_address == old(self).payout_address,
            final(self).nonce.0 == old(self).nonce.0 + 1,
            final(self).wf(),
            old(self).chain.spec_height() == u32::MAX ==> r is None,
            old(self).chain.spec_height() < u32::MAX ==> (r is Some <==> lex_less(
                sha256_of(spec_ser_header_core(spec_candidate_core(*final(self)))),
                old(self).chain.head.header.hashed_content.difficulty@,
            )),
            r matches Some(c) ==> {
                &&& c.wf()
                &&& c.tail == Some(old(self).chain)
                &&& c.spec_height() == old(self).chain.spec_height() + 1
                &&& c.head.header.hashed_content.previous_block_hash@
                    == old(self).chain.head.header.hash@
                &&& c.head.header.hashed_content.difficulty@
                    == old(self).chain.head.header.hashed_content.difficulty@
                &&& c.head.header.spec_verdict() is Ok
                &&& c.head.spec_body_matches()
                &&& c.head.body@ == spec_coinbase_body(old(self).payout_address@)
            },
    {
        self.nonce.increment();

        let height = self.chain.height();
        if height == u32::MAX {
            return None;
        }

        let coinbase_tx_out = TxOut::new(COINBASE_AMOUNT, self.payout_address.clone());
        let body = Body::new(coinbase_tx_out, Vec::new());
        proof {
            assert(body@.transactions =~= spec_coinbase_body(self.payout_address@).transactions);
            assert(body@ == spec_coinbase_body(self.payout_address@));
        }
        let serialized_body = body.serialize();
        let head_hash = self.chain.head.header.hash.clone();
        let difficulty = self.chain.head.header.hashed_content.difficulty.clone();
        let header = match Header::new(
            self.nonce,
            difficulty,
            head_hash,
            height + 1,
            serialized_body.as_slice(),
        ) {
            Ok(h) => h,
            Err(_) => {
                return None;
            },
        };
        let block = Block::new(header, body);
        match Chain::expand(&self.chain, block) {
            Ok(mined_chain) => Some(mined_chain),
            Err(_) => {
                // the header is honest and the links hold by construction,
                // so the only possible failure is a hash above the threshold
                None
            },
        }
    }
}

} // verus!
