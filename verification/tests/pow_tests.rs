use powsim::crypto::hash;
use powsim::pow::{initial_difficulty, less_than_u8, print_u8_as_hexa, Difficulty, Nonce};

fn hash_of_attempt(node_id: u8, counter: u64) -> powsim::crypto::Hash {
    let mut data_to_hash = [0u8; 9];
    data_to_hash[..8].clone_from_slice(&counter.to_be_bytes());
    data_to_hash[8] = node_id;
    hash(&data_to_hash)
}

#[test]
fn min_difficulty_allows_any_hash() {
    let difficulty = Difficulty::min_difficulty();

    for i in 0..100u64 {
        let h = hash_of_attempt(1, i + 1);
        assert_eq!(true, h.less_than(&difficulty));
    }
}

#[test]
fn can_increase_difficulty() {
    let mut difficulty = Difficulty::min_difficulty();
    difficulty.increase();
    difficulty.increase();
    difficulty.increase();

    let number_of_tries = 100000u64;
    let mut number_of_valid_hashes = 0u64;
    for i in 0..number_of_tries {
        let h = hash_of_attempt(1, i + 1);

        if h.less_than(&difficulty) {
            number_of_valid_hashes += 1;
        }
    }

    assert!(number_of_valid_hashes < number_of_tries / 7);
    assert!(number_of_valid_hashes > number_of_tries / 9);
}

#[test]
fn difficulty_halves_as_a_power_of_two() {
    // one increase: the leading byte becomes 0x7f, the rest stays 0xff
    let mut difficulty = Difficulty::min_difficulty();
    difficulty.increase();
    assert_eq!(0x7f, difficulty.threshold[0]);
    for i in 1..32 {
        assert_eq!(0xff, difficulty.threshold[i]);
    }

    // seven more: the leading byte empties into the next one
    for _i in 0..7 {
        difficulty.increase();
    }
    assert_eq!(0x00, difficulty.threshold[0]);
    assert_eq!(0x7f, difficulty.threshold[1]);
    for i in 2..32 {
        assert_eq!(0xff, difficulty.threshold[i]);
    }

    // the same threshold through the bounded constructor
    let d8 = initial_difficulty(8);
    assert_eq!(difficulty.threshold, d8.threshold);
}

#[test]
fn byte_order_is_big_endian() {
    assert!(less_than_u8(&[0x00, 0xff], &[0x01, 0x00]));
    assert!(!less_than_u8(&[0x01, 0x00], &[0x00, 0xff]));
    assert!(!less_than_u8(&[0x01, 0x00], &[0x01, 0x00]));
    assert!(less_than_u8(&[0x01, 0x00], &[0x01, 0x01]));
}

#[test]
fn nonce_counts_from_zero() {
    let mut nonce = Nonce::new();
    assert_eq!(0, nonce.0);
    nonce.increment();
    nonce.increment();
    assert_eq!(2, nonce.0);
}

#[test]
fn hex_rendering_matches_known_digests() {
    assert_eq!("beef", print_u8_as_hexa(&[0xbe, 0xef]));
    assert_eq!("0005ff", print_u8_as_hexa(&[0x00, 0x05, 0xff]));

    // SHA-256 of the empty input, a published constant
    let empty_hash = hash(b"");
    assert_eq!(
        "e3b0c44298fc1c149afbf4c8996fb92427ae41e4649b934ca495991b7852b855",
        print_u8_as_hexa(empty_hash.bytes())
    );
}

#[test]
fn serialization_is_deterministic() {
    // the same structured record serializes to the same bytes, and its
    // digest is stable across calls
    let kp = powsim::crypto::KeyPairGenerator::new()
        .random_keypair()
        .ok()
        .unwrap();
    let address = powsim::transaction::Address::from_pub_key(&kp.pub_key());
    let body = powsim::block::Body::new(powsim::transaction::TxOut::new(1000, address), vec![]);

    let first = body.serialize();
    let second = body.serialize();
    assert_eq!(first, second);

    let h1 = body.hash().ok().unwrap();
    let h2 = body.hash().ok().unwrap();
    assert_eq!(h1.bytes(), h2.bytes());
}

#[test]
fn known_record_serializes_to_known_bytes() {
    // amount 258 in big-endian, then the 32 address bytes
    let addr_hash = powsim::crypto::Hash::min();
    let address = powsim::transaction::Address(addr_hash);
    let tx_out = powsim::transaction::TxOut::new(258, address);

    let body = powsim::block::Body::new(tx_out, vec![]);
    let bytes = body.serialize();

    let mut expected = vec![0u8, 0, 1, 2];
    expected.extend_from_slice(&[0u8; 32]);
    // an empty transaction list: a zero 64-bit count
    expected.extend_from_slice(&[0u8; 8]);
    assert_eq!(expected, bytes);
}

#[test]
fn difficulty_never_silently_reaches_zero() {
    // strengthening stops quietly at a threshold of 1: further increases are
    // refused by the runtime guard instead of zeroing or wrapping the bytes
    let d = initial_difficulty(224);
    for i in 0..31 {
        assert_eq!(0x00, d.threshold[i]);
    }
    assert_eq!(0x01, d.threshold[31]);
    assert!(!d.can_increase());

    // asking for more steps than representable leaves the floor untouched
    let d_more = initial_difficulty(255);
    assert_eq!(d.threshold, d_more.threshold);
}
