use powsim::crypto::{KeyPair, KeyPairGenerator};
use powsim::transaction::{
    Address, RawTx, RawTxIn, SignedTx, SingleEntryUtxoStore, TxOut,
};
use powsim::Error;

fn next_address(key_pair_generator: &KeyPairGenerator) -> Address {
    let next_to_keypair = key_pair_generator.random_keypair().ok().unwrap();
    let next_to_pub_key = next_to_keypair.pub_key();
    Address::from_pub_key(&next_to_pub_key)
}

fn prev_context(key_pair_generator: &KeyPairGenerator, amount: u32) -> (KeyPair, TxOut) {
    let prev_to_keypair = key_pair_generator.random_keypair().ok().unwrap();
    let prev_to_pub_key = prev_to_keypair.pub_key();
    let prev_to_addr = Address::from_pub_key(&prev_to_pub_key);
    let prev_output = TxOut::new(amount, prev_to_addr);
    (prev_to_keypair, prev_output)
}

fn verify(transaction: SignedTx, utxo: TxOut) -> Result<u32, Error> {
    transaction.verify(&SingleEntryUtxoStore(utxo))?;
    Ok(0)
}

#[test]
fn can_sign_and_verify_transactions() {
    let key_pair_generator = KeyPairGenerator::new();

    let initial_amount = 10u32;
    let (prev_to_keypair, prev_output) = prev_context(&key_pair_generator, initial_amount);

    let next_input = RawTxIn {
        prev_tx_output_index: 0,
        prev_tx_hash: powsim::crypto::Hash::min(),
    };

    let next_output = TxOut::new(initial_amount, next_address(&key_pair_generator));

    let next_tx = RawTx {
        input: vec![next_input],
        output: vec![next_output],
    };

    let signed_tx = SignedTx::from_raw_tx(next_tx, vec![&prev_to_keypair])
        .ok()
        .unwrap();

    verify(signed_tx, prev_output).ok().unwrap();
}

#[test]
fn rejects_invalid_amount() {
    let key_pair_generator = KeyPairGenerator::new();

    let initial_amount = 10u32;
    let (prev_to_keypair, prev_output) = prev_context(&key_pair_generator, initial_amount);

    let next_input = RawTxIn {
        prev_tx_output_index: 0,
        prev_tx_hash: powsim::crypto::Hash::min(),
    };

    let next_output = TxOut::new(initial_amount + 1, next_address(&key_pair_generator));

    let next_tx = RawTx {
        input: vec![next_input],
        output: vec![next_output],
    };

    let signed_tx = SignedTx::from_raw_tx(next_tx, vec![&prev_to_keypair])
        .ok()
        .unwrap();

    verify(signed_tx, prev_output).err().unwrap();
}

#[test]
fn rejects_invalid_pub_key() {
    let key_pair_generator = KeyPairGenerator::new();

    let initial_amount = 10u32;
    let (prev_to_keypair, prev_output) = prev_context(&key_pair_generator, initial_amount);

    let next_input = RawTxIn {
        prev_tx_output_index: 0,
        prev_tx_hash: powsim::crypto::Hash::min(),
    };

    let next_output = TxOut::new(10, next_address(&key_pair_generator));

    let next_tx = RawTx {
        input: vec![next_input],
        output: vec![next_output],
    };

    let mut signed_tx = SignedTx::from_raw_tx(next_tx, vec![&prev_to_keypair])
        .ok()
        .unwrap();

    let invalid_key_pair = key_pair_generator.random_keypair().ok().unwrap();
    signed_tx.input[0].sig_public_key = invalid_key_pair.pub_key();

    verify(signed_tx, prev_output).err().unwrap();
}

#[test]
fn rejects_invalid_key_pair() {
    let key_pair_generator = KeyPairGenerator::new();

    let initial_amount = 10u32;
    let (_prev_to_keypair, prev_output) = prev_context(&key_pair_generator, initial_amount);

    let next_input = RawTxIn {
        prev_tx_output_index: 0,
        prev_tx_hash: powsim::crypto::Hash::min(),
    };

    let next_output = TxOut::new(10, next_address(&key_pair_generator));

    let next_tx = RawTx {
        input: vec![next_input],
        output: vec![next_output],
    };

    let invalid_key_pair = key_pair_generator.random_keypair().ok().unwrap();
    let signed_tx = SignedTx::from_raw_tx(next_tx, vec![&invalid_key_pair])
        .ok()
        .unwrap();

    verify(signed_tx, prev_output).err().unwrap();
}

#[test]
fn tx_validation_reports_exact_errors() {
    let key_pair_generator = KeyPairGenerator::new();
    let (prev_to_keypair, prev_output) = prev_context(&key_pair_generator, 10);

    // a valid spend of the whole amount leaves no fee
    let next_tx = RawTx {
        input: vec![RawTxIn {
            prev_tx_output_index: 0,
            prev_tx_hash: powsim::crypto::Hash::min(),
        }],
        output: vec![TxOut::new(10, next_address(&key_pair_generator))],
    };
    let signed = SignedTx::from_raw_tx(next_tx, vec![&prev_to_keypair])
        .ok()
        .unwrap();
    assert_eq!(
        Ok(0u32),
        signed.verify(&SingleEntryUtxoStore(prev_output.clone()))
    );

    // spending less than the input leaves the difference as the fee
    let next_tx = RawTx {
        input: vec![RawTxIn {
            prev_tx_output_index: 0,
            prev_tx_hash: powsim::crypto::Hash::min(),
        }],
        output: vec![TxOut::new(7, next_address(&key_pair_generator))],
    };
    let signed = SignedTx::from_raw_tx(next_tx, vec![&prev_to_keypair])
        .ok()
        .unwrap();
    assert_eq!(
        Ok(3u32),
        signed.verify(&SingleEntryUtxoStore(prev_output.clone()))
    );

    // outputs beyond the inputs
    let next_tx = RawTx {
        input: vec![RawTxIn {
            prev_tx_output_index: 0,
            prev_tx_hash: powsim::crypto::Hash::min(),
        }],
        output: vec![TxOut::new(11, next_address(&key_pair_generator))],
    };
    let signed = SignedTx::from_raw_tx(next_tx, vec![&prev_to_keypair])
        .ok()
        .unwrap();
    assert_eq!(
        Err(Error::InvalidTxAmount),
        signed.verify(&SingleEntryUtxoStore(prev_output.clone()))
    );

    // signed by a key pair whose address does not own the referenced output
    let unrelated = key_pair_generator.random_keypair().ok().unwrap();
    let next_tx = RawTx {
        input: vec![RawTxIn {
            prev_tx_output_index: 0,
            prev_tx_hash: powsim::crypto::Hash::min(),
        }],
        output: vec![TxOut::new(10, next_address(&key_pair_generator))],
    };
    let signed = SignedTx::from_raw_tx(next_tx, vec![&unrelated])
        .ok()
        .unwrap();
    assert_eq!(
        Err(Error::InvalidAddress),
        signed.verify(&SingleEntryUtxoStore(prev_output.clone()))
    );

    // a correct signer with the signature bytes tampered
    let next_tx = RawTx {
        input: vec![RawTxIn {
            prev_tx_output_index: 0,
            prev_tx_hash: powsim::crypto::Hash::min(),
        }],
        output: vec![TxOut::new(10, next_address(&key_pair_generator))],
    };
    let mut signed = SignedTx::from_raw_tx(next_tx, vec![&prev_to_keypair])
        .ok()
        .unwrap();
    signed.input[0].tx_signature.bytes[0] ^= 1;
    assert_eq!(
        Err(Error::CryptographyError),
        signed.verify(&SingleEntryUtxoStore(prev_output.clone()))
    );

    // a missing keypair at signing time
    let next_tx = RawTx {
        input: vec![RawTxIn {
            prev_tx_output_index: 0,
            prev_tx_hash: powsim::crypto::Hash::min(),
        }],
        output: vec![TxOut::new(10, next_address(&key_pair_generator))],
    };
    match SignedTx::from_raw_tx(next_tx, vec![]) {
        Err(Error::InvalidNumberOfKeyPairs) => {}
        other => panic!("expected InvalidNumberOfKeyPairs, got {:?}", other.is_ok()),
    }

    // a referenced output absent from the store
    let next_tx = RawTx {
        input: vec![RawTxIn {
            prev_tx_output_index: 0,
            prev_tx_hash: powsim::crypto::Hash::min(),
        }],
        output: vec![TxOut::new(10, next_address(&key_pair_generator))],
    };
    let signed = SignedTx::from_raw_tx(next_tx, vec![&prev_to_keypair])
        .ok()
        .unwrap();
    assert_eq!(
        Err(Error::UtxoNotFound),
        signed.verify(&powsim::transaction::EmptyUtxoStore)
    );
}

#[test]
fn signature_round_trip_and_tamper() {
    let key_pair_generator = KeyPairGenerator::new();
    let kp = key_pair_generator.random_keypair().ok().unwrap();
    let pk = kp.pub_key();
    let message = b"a message worth signing";

    let signature = kp.sign(message);
    assert!(pk.verify_signature(message, &signature).is_ok());

    // flipping one bit of the message fails verification
    let mut tampered_message = message.to_vec();
    tampered_message[0] ^= 1;
    assert!(pk
        .verify_signature(tampered_message.as_slice(), &signature)
        .is_err());

    // flipping one bit of the signature fails verification
    let mut tampered_signature = kp.sign(message);
    tampered_signature.bytes[0] ^= 1;
    assert!(pk.verify_signature(message, &tampered_signature).is_err());

    // flipping one bit of the public key fails verification (or is rejected)
    let mut tampered_pk = kp.pub_key();
    tampered_pk.bytes[0] ^= 1;
    assert!(tampered_pk.verify_signature(message, &signature).is_err());
}
