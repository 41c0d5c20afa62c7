use powsim::block::{Block, Body, Header, COINBASE_AMOUNT};
use powsim::chain::Chain;
use powsim::crypto::KeyPairGenerator;
use powsim::miner::MiningState;
use powsim::node::{Peer, PowNode};
use powsim::pow::{Difficulty, Nonce};
use powsim::transaction::{Address, EmptyUtxoStore, TxOut};
use std::sync::Arc;

fn random_address() -> Address {
    let key_pair_generator = KeyPairGenerator::new();
    let account = key_pair_generator.random_keypair().ok().unwrap();
    Address::from_pub_key(&account.pub_key())
}

fn init_chain() -> (Arc<Chain>, u32) {
    let mut difficulty = Difficulty::min_difficulty();
    difficulty.increase();
    let chain = Chain::mine_new_genesis(difficulty, random_address())
        .ok()
        .unwrap();
    (Arc::new(chain), 1)
}

fn mine_next(chain: Arc<Chain>, node_id: u32, address: Address) -> Arc<Chain> {
    let mut state = MiningState::new(node_id, chain, address);
    loop {
        if let Some(mined) = state.mine() {
            return mined;
        }
    }
}

fn mine_5_blocks(mut chain: Arc<Chain>, node_id: u32) -> Arc<Chain> {
    loop {
        let next = mine_next(chain.clone(), node_id, random_address());
        chain = next;

        if chain.height() == 5 {
            return chain;
        }
    }
}

#[test]
fn can_create_and_expand_a_chain() {
    let (chain, node_id) = init_chain();
    let genesis_hash = chain.genesis_hash();

    let chain = mine_5_blocks(chain, node_id);

    assert!(chain.verify(&genesis_hash, &EmptyUtxoStore).is_ok());
    assert_eq!(5, chain.height());
}

#[test]
fn cannot_forge_difficulty() {
    let (chain, node_id) = init_chain();
    let genesis_hash = chain.genesis_hash();
    let chain = mine_5_blocks(chain, node_id);

    // a block mined against the weakest difficulty instead of the chain's
    let body = Body::new(TxOut::new(COINBASE_AMOUNT, random_address()), vec![]);
    let serialized_body = body.serialize();
    let header = Header::new(
        Nonce::new(),
        Difficulty::min_difficulty(),
        chain.head_hash().clone(),
        chain.height() + 1,
        serialized_body.as_slice(),
    )
    .ok()
    .unwrap();
    let block = Block::new(header, body);

    assert!(Chain::expand(&chain, block).is_err());

    let body = Body::new(TxOut::new(COINBASE_AMOUNT, random_address()), vec![]);
    let serialized_body = body.serialize();
    let header = Header::new(
        Nonce::new(),
        Difficulty::min_difficulty(),
        chain.head_hash().clone(),
        chain.height() + 1,
        serialized_body.as_slice(),
    )
    .ok()
    .unwrap();
    let block = Block::new(header, body);
    let forged = Chain::unvalidated_expand(&chain, block);
    assert!(forged.verify(&genesis_hash, &EmptyUtxoStore).is_err());
}

#[test]
fn cannot_forge_nonce() {
    let (chain, node_id) = init_chain();
    let genesis_hash = chain.genesis_hash();
    let chain = mine_5_blocks(chain, node_id);

    // take the head block off its tail and tamper with its nonce
    let (tail, mut block) = match Arc::try_unwrap(chain) {
        Ok(c) => (c.tail.unwrap(), c.head),
        Err(_) => panic!("single owner"),
    };
    block.header.hashed_content.nonce.increment();

    assert!(Chain::expand(&tail, Block::new(block.header.clone(), block.body.clone())).is_err());

    let forged = Chain::unvalidated_expand(&tail, block);
    assert!(forged.verify(&genesis_hash, &EmptyUtxoStore).is_err());
}

#[test]
fn miner_rebases_onto_longer_chains() {
    let (genesis, node_id) = init_chain();
    let mut state = MiningState::new(node_id, genesis.clone(), random_address());

    let longer = mine_next(genesis.clone(), node_id, random_address());
    state.on_chain_update(longer.clone());
    assert_eq!(1, state.chain.height());

    // an equally high chain does not replace the current one
    let other = mine_next(genesis.clone(), node_id, random_address());
    state.on_chain_update(other);
    assert_eq!(longer.head_hash().bytes(), state.chain.head_hash().bytes());
}

#[test]
fn fork_of_equal_height_is_rejected() {
    let (genesis, node_id) = init_chain();

    let first = mine_next(genesis.clone(), node_id, random_address());
    let second = mine_next(genesis.clone(), node_id, random_address());
    assert_ne!(first.head_hash().bytes(), second.head_hash().bytes());

    let mut node = PowNode::new(0, genesis.clone());
    assert!(node.maybe_adopt(&first));

    // the node accepts the fork as valid but keeps the chain it has
    assert!(node.accepts_remote(&second));
    assert!(!node.maybe_adopt(&second));
    assert_eq!(first.head_hash().bytes(), node.chain.head_hash().bytes());

    // a peer that already knows this height is not sent the fork either
    node.register_peer(Peer {
        id: 7,
        known_chain_height: 0,
    });
    let plan = node.plan_propagation(first.height());
    assert_eq!(vec![true], plan);
    node.record_propagation(first.height(), &plan, &vec![true]);

    let plan_for_fork = node.plan_propagation(second.height());
    assert_eq!(vec![false], plan_for_fork);
}

#[test]
fn node_drops_peers_whose_channel_failed() {
    let (genesis, _node_id) = init_chain();
    let mut node = PowNode::new(0, genesis);
    node.register_peer(Peer {
        id: 1,
        known_chain_height: 0,
    });
    node.register_peer(Peer {
        id: 2,
        known_chain_height: 0,
    });
    node.register_peer(Peer {
        id: 3,
        known_chain_height: 5,
    });

    let plan = node.plan_propagation(3);
    assert_eq!(vec![true, true, false], plan);

    // the send to peer 2 failed: it is dropped, peer 1 is caught up
    node.record_propagation(3, &plan, &vec![true, false, true]);
    assert_eq!(2, node.peers.len());
    assert_eq!(1, node.peers[0].id);
    assert_eq!(3, node.peers[0].known_chain_height);
    assert_eq!(3, node.peers[1].id);
    assert_eq!(5, node.peers[1].known_chain_height);
}

#[test]
fn rejects_remote_chain_with_foreign_genesis() {
    let (genesis_a, node_id) = init_chain();
    let (genesis_b, _) = init_chain();

    let node = PowNode::new(0, genesis_a);
    let remote = mine_next(genesis_b, node_id, random_address());
    assert!(!node.accepts_remote(&remote));
}

#[test]
fn network_mesh_is_symmetric_and_bounded() {
    for (size, quota) in [(4usize, 1usize), (8, 2), (8, 1)] {
        let network = powsim::network::Network::new(size, quota);
        assert_eq!(size, network.seeds.len());

        let mut pairs: Vec<(usize, usize)> = Vec::new();
        for (i, seeds) in network.seeds.iter().enumerate() {
            assert!(seeds.len() <= quota);
            for &s in seeds {
                assert!(s < size);
                assert_ne!(s, i);
                let pair = if i <= s { (i, s) } else { (s, i) };
                assert!(!pairs.contains(&pair));
                pairs.push(pair);
            }
        }

        // a node short of its quota is already paired with every other node
        for (i, seeds) in network.seeds.iter().enumerate() {
            if seeds.len() < quota {
                for j in 0..size {
                    if j != i {
                        let pair = if i <= j { (i, j) } else { (j, i) };
                        assert!(pairs.contains(&pair));
                    }
                }
            }
        }
    }
}

#[test]
fn round_robin_rotation_is_fair() {
    let order = powsim::flatten_select::polling_order(5, 2);
    assert_eq!(vec![3, 4, 0, 1, 2], order);

    let order = powsim::flatten_select::polling_order(3, 2);
    assert_eq!(vec![0, 1, 2], order);

    // removing finished children below the cursor re-aims it
    let adjusted = powsim::flatten_select::adjust_last_polled(4, &vec![1, 3, 6]);
    assert_eq!(2, adjusted);
}
