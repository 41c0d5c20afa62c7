//! The decisions of a proof-of-work node's event loop. The node owns its
//! current chain and a list of peers with their last known heights; events
//! arrive merged into one stream, and the node answers each with a
//! propagation plan, the bookkeeping of its results, and possibly the
//! adoption of a longer chain. The policy is pure longest-chain: ties are
//! never adopted, so the first chain of a height a node accepts is the one
//! it keeps.

use vstd::prelude::*;
use std::sync::Arc;
use crate::chain::Chain;
use crate::transaction::EmptyUtxoStore;

verus! {

/// What a node remembers of one peer: the key its channel is filed under on
/// the outside, and the greatest chain height it is known to hold.
#[derive(Clone, Copy, PartialEq, Eq, Structural, Debug)]
pub struct Peer {
    pub id: usize,
    pub known_chain_height: u32,
}

/// One event of the merged stream a node processes.
pub enum NodeEvent {
    /// A new connection: the peer is greeted with the current chain.
    Peer(Peer),
    /// The local miner found a chain.
    MinedChain(Arc<Chain>),
    /// A peer sent a chain.
    ChainRemoteUpdate(Arc<Chain>),
}

/// The peer list after one propagation pass: a peer the chain was sent to
/// successfully is recorded at the new height, one whose channel failed is
/// dropped, and a peer that already knew a chain this high is untouched.
pub open spec fn spec_record(
    peers: Seq<Peer>,
    height: u32,
    sent: Seq<bool>,
    ok: Seq<bool>,
) -> Seq<Peer>
    decreases peers.len(),
{
    if peers.len() == 0 {
        Seq::empty()
    } else {
        let rest = spec_record(peers.drop_first(), height, sent.drop_first(), ok.drop_first());
        if sent[0] {
            if ok[0] {
                seq![Peer { id: peers[0].id, known_chain_height: height }] + rest
            } else {
                rest
            }
        } else {
            seq![peers[0]] + rest
        }
    }
}

/// Adding one peer (with its flags) to the end extends the recorded list
/// with that peer's outcome.
pub proof fn lemma_record_push(
    peers: Seq<Peer>,
    height: u32,
    sent: Seq<bool>,
    ok: Seq<bool>,
    p: Peer,
    s: bool,
    o: bool,
)
    requires
        peers.len() == sent.len() == ok.len(),
    ensures
        spec_record(peers.push(p), height, sent.push(s), ok.push(o)) == spec_record(
            peers,
            height,
            sent,
            ok,
        ) + (if s {
            if o {
                seq![Peer { id: p.id, known_chain_height: height }]
            } else {
                Seq::<Peer>::empty()
            }
        } else {
            seq![p]
        }),
    decreases peers.len(),
{
    let tail_result = if s {
        if o {
            seq![Peer { id: p.id, known_chain_height: height }]
        } else {
            Seq::<Peer>::empty()
        }
    } else {
        seq![p]
    };
    if peers.len() == 0 {
        assert(peers.push(p).drop_first() =~= peers);
        assert(sent.push(s).drop_first() =~= sent);
        assert(ok.push(o).drop_first() =~= ok);
        assert(spec_record(peers.push(p), height, sent.push(s), ok.push(o)) =~= spec_record(
            peers,
            height,
            sent,
            ok,
        ) + tail_result);
    } else {
        lemma_record_push(peers.drop_first(), height, sent.drop_first(), ok.drop_first(), p, s, o);
        assert(peers.push(p).drop_first() =~= peers.drop_first().push(p));
        assert(sent.push(s).drop_first() =~= sent.drop_first().push(s));
        assert(ok.push(o).drop_first() =~= ok.drop_first().push(o));
        assert(spec_record(peers.push(p), height, sent.push(s), ok.push(o)) =~= spec_record(
            peers,
            height,
            sent,
            ok,
        ) + tail_result);
    }
}

/// A node: its identity, the longest chain it has accepted, the hash every
/// acceptable chain must root in, and its peers.
pub struct PowNode {
    pub node_id: u32,
    pub chain: Arc<Chain>,
    pub genesis_hash: crate::crypto::Hash,
    pub peers: Vec<Peer>,
}

impl PowNode {
    /// Lengths of the parts of a well-formed node.
    pub open spec fn wf(&self) -> bool {
        self.chain.wf() && self.genesis_hash.wf()
    }

    /// Builds a node on `initial_chain`; remote chains will be accepted only
    /// if they root in that chain's genesis block.
    pub fn new(node_id: u32, initial_chain: Arc<Chain>) -> (r: PowNode)
        requires
            initial_chain.wf(),
        ensures
            r.node_id == node_id,
            r.chain == initial_chain,
            r.genesis_hash@ == initial_chain.spec_genesis_hash(),
            r.peers@.len() == 0,
            r.wf(),
    {
        let genesis_hash = initial_chain.genesis_hash();
        PowNode { node_id, chain: initial_chain, genesis_hash, peers: Vec::new() }
    }

    /// A new peer: it is recorded with no known height. The caller greets it
    /// with the current chain first and registers it only when that send
    /// succeeded, so a peer whose channel died at the greeting is never kept.
    pub fn register_peer(&mut self, peer: Peer)
        ensures
            final(self).peers@ == old(self).peers@.push(peer),
            final(self).chain == old(self).chain,
            final(self).node_id == old(self).node_id,
            final(self).genesis_hash == old(self).genesis_hash,
    {
        self.peers.push(peer);
    }

    /// Whether a remote chain is acceptable: well-formed, and valid all the
    /// way down to this node's genesis block. Mined bodies carry no
    /// transactions, so validation needs no UTXO entries.
    pub fn accepts_remote(&self, chain: &Chain) -> (r: bool)
        requires
            self.wf(),
        ensures
            r == (chain.wf() && chain.spec_verdict(
                &EmptyUtxoStore,
                self.genesis_hash@,
            ) is Ok),
    {
        if !chain.check_wf() {
            return false;
        }
        match chain.verify(&self.genesis_hash, &EmptyUtxoStore) {
            Ok(()) => true,
            Err(_) => false,
        }
    }

    /// The propagation plan for a chain of height `chain_height`: one flag
    /// per peer, set exactly for the peers that do not yet know a chain this
    /// high.
    pub fn plan_propagation(&self, chain_height: u32) -> (r: Vec<bool>)
        ensures
            r@.len() == self.peers@.len(),
            forall|i: int|
                0 <= i < r@.len() ==> r@[i] == (chain_height
                    > #[trigger] self.peers@[i].known_chain_height),
    {
        let n = self.peers.len();
        let mut r: Vec<bool> = Vec::new();
        let mut i: usize = 0;
        while i < n
            invariant
                n == self.peers@.len(),
                i <= n,
                r@.len() == i,
                forall|j: int|
                    0 <= j < i ==> r@[j] == (chain_height
                        > #[trigger] self.peers@[j].known_chain_height),
            decreases n - i,
        {
            r.push(chain_height > self.peers[i].known_chain_height);
            i = i + 1;
        }
        r
    }

    /// Records the results of a propagation pass, as [`spec_record`]
    /// describes: successful sends raise the peer's known height to
    /// `chain_height`, failed sends drop the peer.
    pub fn record_propagation(&mut self, chain_height: u32, sent: &Vec<bool>, ok: &Vec<bool>)
        requires
            sent@.len() == old(self).peers@.len(),
            ok@.len() == old(self).peers@.len(),
        ensures
            final(self).peers@ == spec_record(old(self).peers@, chain_height, sent@, ok@),
            final(self).chain == old(self).chain,
            final(self).node_id == old(self).node_id,
            final(self).genesis_hash == old(self).genesis_hash,
    {
        let n = self.peers.len();
        let mut kept: Vec<Peer> = Vec::new();
        let mut i: usize = 0;
        while i < n
            invariant
                n == self.peers@.len() == sent@.len() == ok@.len(),
                self == old(self),
                i <= n,
                kept@ == spec_record(
                    self.peers@.take(i as int),
                    chain_height,
                    sent@.take(i as int),
                    ok@.take(i as int),
                ),
            decreases n - i,
        {
            proof {
                lemma_record_push(
                    self.peers@.take(i as int),
                    chain_height,
                    sent@.take(i as int),
                    ok@.take(i as int),
                    self.peers@[i as int],
                    sent@[i as int],
                    ok@[i as int],
                );
                assert(self.peers@.take(i as int).push(self.peers@[i as int]) =~= self.peers@.take(
                    i + 1,
                ));
                assert(sent@.take(i as int).push(sent@[i as int]) =~= sent@.take(i + 1));
                assert(ok@.take(i as int).push(ok@[i as int]) =~= ok@.take(i + 1));
            }
            if sent[i] {
                if ok[i] {
                    kept.push(Peer { id: self.peers[i].id, known_chain_height: chain_height });
                    proof {
                        assert(kept@ =~= spec_record(
                            self.peers@.take(i + 1),
                            chain_height,
                            sent@.take(i + 1),
                            ok@.take(i + 1),
                        ));
                    }
                } else {
                    proof {
                        assert(kept@ =~= spec_record(
                            self.peers@.take(i + 1),
                            chain_height,
                            sent@.take(i + 1),
                            ok@.take(i + 1),
                        ));
                    }
                }
            } else {
                kept.push(self.peers[i]);
                proof {
                    assert(kept@ =~= spec_record(
                        self.peers@.take(i + 1),
                        chain_height,
                        sent@.take(i + 1),
                        ok@.take(i + 1),
                    ));
                }
            }
            i = i + 1;
        }
        proof {
            assert(self.peers@.take(n as int) =~= self.peers@);
            assert(sent@.take(n as int) =~= sent@);
            assert(ok@.take(n as int) =~= ok@);
        }
        self.peers = kept;
    }

    /// Adopts `chain` exactly when it is strictly higher than the current
    /// one; a tie keeps the chain the node already has. Returns whether the
    /// chain was adopted, so the caller can rebase the miner.
    pub fn maybe_adopt(&mut self, chain: &Arc<Chain>) -> (adopted: bool)
        ensures
            adopted == (chain.spec_height() > old(self).chain.spec_height()),
            adopted ==> final(self).chain == *chain,
            !adopted ==> final(self).chain == old(self).chain,
            final(self).peers == old(self).peers,
            final(self).node_id == old(self).node_id,
            final(self).genesis_hash == old(self).genesis_hash,
    {
        if chain.height() > self.chain.height() {
            self.chain = crate::chain::clone_chain_ref(chain);
            true
        } else {
            false
        }
    }
}

} // verus!
