use powsim::block::{Block, Body, Header, COINBASE_AMOUNT};
use powsim::chain::Chain;
use powsim::crypto::{hash, KeyPairGenerator};
use powsim::pow::{Difficulty, Nonce};
use powsim::transaction::{Address, EmptyUtxoStore, TxOut};
use powsim::Error;
use std::sync::Arc;

fn random_address() -> Address {
    let key_pair_generator = KeyPairGenerator::new();
    let account = key_pair_generator.random_keypair().ok().unwrap();
    Address::from_pub_key(&account.pub_key())
}

fn mine_new_genesis() -> Result<Chain, Error> {
    let mut difficulty = Difficulty::min_difficulty();
    difficulty.increase();

    let chain = Chain::mine_new_genesis(difficulty, random_address())?;

    verify_genesis_chain(&chain)?;

    Ok(chain)
}

fn verify_genesis_chain(chain: &Chain) -> Result<(), Error> {
    let genesis_hash = chain.genesis_hash();
    chain.verify(&genesis_hash, &EmptyUtxoStore {})
}

fn mine_new_header(
    body: &Body,
    height: u32,
    difficulty: Difficulty,
    previous_block_hash: powsim::crypto::Hash,
) -> Result<Header, Error> {
    let serialized_body = body.serialize();

    let mut header = Header::new(
        Nonce::new(),
        difficulty,
        previous_block_hash,
        height,
        serialized_body.as_slice(),
    )?;

    loop {
        match header.verify() {
            Err(Error::HashIsTooHigh) => {
                header.increment_nonce()?;
            }
            Ok(()) => {
                return Ok(header);
            }
            Err(error) => {
                return Err(error);
            }
        }
    }
}

fn mine_new_chain(chain: Chain) -> Result<Chain, Error> {
    let coinbase_tx_out = TxOut::new(COINBASE_AMOUNT, random_address());
    let body = Body::new(coinbase_tx_out, vec![]);

    let height = chain.height() + 1;
    let difficulty = chain.head().header().difficulty().clone();
    let previous_block_hash = chain.head_hash().clone();
    let header = mine_new_header(&body, height, difficulty, previous_block_hash)?;
    let block = Block::new(header, body);

    let arc = Arc::new(chain);
    let expanded = Chain::expand(&arc, block)?;
    match Arc::try_unwrap(expanded) {
        Ok(c) => Ok(c),
        Err(_) => panic!("the freshly expanded chain has a single owner"),
    }
}

#[test]
fn can_verify_an_empty_block() {
    let key_pair_generator = KeyPairGenerator::new();

    let account = key_pair_generator.random_keypair().ok().unwrap();
    let address = Address::from_pub_key(&account.pub_key());

    let coinbase_tx_out = TxOut::new(COINBASE_AMOUNT, address);

    let nonce = Nonce::new();
    let difficulty = Difficulty::min_difficulty();
    let body = Body::new(coinbase_tx_out, vec![]);
    let serialized_body = body.serialize();
    let previous_block_hash = powsim::crypto::Hash::min();
    let header = Header::new(
        nonce,
        difficulty,
        previous_block_hash,
        0,
        serialized_body.as_slice(),
    )
    .ok()
    .unwrap();

    let block = Block::new(header, body);

    block.verify(&EmptyUtxoStore {}).ok().unwrap()
}

#[test]
fn can_mine_new_chain() {
    let chain = mine_new_genesis().ok().unwrap();
    verify_genesis_chain(&chain).ok().unwrap();
}

#[test]
fn can_mine_more_blocks() {
    let mut chain = mine_new_genesis().ok().unwrap();
    let genesis_hash = chain.head().header().hash().clone();

    for _i in 0..10 {
        chain = mine_new_chain(chain).ok().unwrap();
    }

    assert_eq!(&10, chain.head().header().height());
    match chain.verify(&genesis_hash, &EmptyUtxoStore) {
        Err(error) => {
            panic!("Invalid chain: {:?}", error);
        }
        Ok(()) => {}
    }
}

#[test]
fn hash_ensures_integrity() {
    let mut chain = mine_new_genesis().ok().unwrap();
    chain.head.header.hashed_content.height = 1;
    assert_eq!(
        Error::InvalidHeaderHash,
        verify_genesis_chain(&chain).err().unwrap()
    );

    let mut chain = mine_new_genesis().ok().unwrap();
    let previous_nonce = chain.head.header.hashed_content.nonce;
    let mut new_nonce = Nonce::new();

    while previous_nonce == new_nonce {
        new_nonce.increment()
    }

    chain.head.header.hashed_content.nonce = new_nonce;

    assert_eq!(
        Error::InvalidHeaderHash,
        verify_genesis_chain(&chain).err().unwrap()
    );

    let mut chain = mine_new_genesis().ok().unwrap();
    chain.head.header.hashed_content.body_hash = hash(b"Garneray");
    assert_eq!(
        Error::InvalidHeaderHash,
        verify_genesis_chain(&chain).err().unwrap()
    );

    let mut chain = mine_new_genesis().ok().unwrap();
    chain.head.header.hashed_content.previous_block_hash = hash(b"Garneray");
    assert_eq!(
        Error::InvalidHeaderHash,
        verify_genesis_chain(&chain).err().unwrap()
    );

    let mut chain = mine_new_genesis().ok().unwrap();
    chain.head.header.hashed_content.difficulty = Difficulty::min_difficulty();
    assert_eq!(
        Error::InvalidHeaderHash,
        verify_genesis_chain(&chain).err().unwrap()
    );

    let mut chain = mine_new_genesis().ok().unwrap();
    chain.head.header.hash = hash(b"Garneray");
    assert_eq!(
        Error::InvalidHeaderHash,
        verify_genesis_chain(&chain).err().unwrap()
    );

    let mut chain = mine_new_genesis().ok().unwrap();
    let coinbase_tx_out = TxOut::new(COINBASE_AMOUNT, random_address());
    let body = Body::new(coinbase_tx_out, vec![]);
    chain.head.body = body;
    assert_eq!(
        Error::HeaderAndBodyHashMismatch,
        verify_genesis_chain(&chain).err().unwrap()
    );
}

#[test]
fn rejects_wrong_genesis_and_broken_links() {
    let chain = mine_new_genesis().ok().unwrap();

    // a chain checked against a foreign genesis hash is rejected
    let wrong_genesis = hash(b"somewhere else entirely");
    assert_eq!(
        Error::InvalidGenesis,
        chain.verify(&wrong_genesis, &EmptyUtxoStore).err().unwrap()
    );

    // a block whose height skips a step is rejected
    let arc = Arc::new(chain);
    let coinbase_tx_out = TxOut::new(COINBASE_AMOUNT, random_address());
    let body = Body::new(coinbase_tx_out, vec![]);
    let difficulty = arc.head().header().difficulty().clone();
    let header = mine_new_header(&body, 2, difficulty, arc.head_hash().clone())
        .ok()
        .unwrap();
    let block = Block::new(header, body);
    assert_eq!(
        Error::InvalidHeight,
        Chain::expand(&arc, block).err().unwrap()
    );

    // a block that names the wrong predecessor is rejected
    let coinbase_tx_out = TxOut::new(COINBASE_AMOUNT, random_address());
    let body = Body::new(coinbase_tx_out, vec![]);
    let difficulty = arc.head().header().difficulty().clone();
    let header = mine_new_header(&body, 1, difficulty, hash(b"Garneray"))
        .ok()
        .unwrap();
    let block = Block::new(header, body);
    assert_eq!(
        Error::HeadAndTailHashMismatch,
        Chain::expand(&arc, block).err().unwrap()
    );
}

#[test]
fn rejects_wrong_coinbase_amount() {
    // a body whose coinbase does not pay base reward plus fees is invalid
    let coinbase_tx_out = TxOut::new(COINBASE_AMOUNT - 1, random_address());
    let body = Body::new(coinbase_tx_out, vec![]);
    assert_eq!(
        Error::InvalidCoinbaseAmount,
        body.verify(&EmptyUtxoStore).err().unwrap()
    );

    let coinbase_tx_out = TxOut::new(COINBASE_AMOUNT, random_address());
    let body = Body::new(coinbase_tx_out, vec![]);
    body.verify(&EmptyUtxoStore).ok().unwrap();
}

#[test]
fn rejects_hash_above_difficulty() {
    // under an extremely strong difficulty no honest header passes
    let difficulty = powsim::pow::initial_difficulty(200);
    let coinbase_tx_out = TxOut::new(COINBASE_AMOUNT, random_address());
    let body = Body::new(coinbase_tx_out, vec![]);
    let serialized_body = body.serialize();
    let header = Header::new(
        Nonce::new(),
        difficulty,
        powsim::crypto::Hash::min(),
        0,
        serialized_body.as_slice(),
    )
    .ok()
    .unwrap();
    assert_eq!(Error::HashIsTooHigh, header.verify().err().unwrap());
}
