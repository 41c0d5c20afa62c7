use powsim::transaction::{TxOut, UtxoStore as TxUtxoStore};
use powsim::wallet::{BasicUtxoStore, Wallet};
use powsim::Error;

#[test]
fn can_create_valid_transactions() {
    let mut wallet_a = Wallet::new();
    let mut wallet_b = Wallet::new();

    let address_a = wallet_a.new_address().unwrap();
    let address_b = wallet_b.new_address().unwrap();

    let mut utxo_store = BasicUtxoStore::new();

    let tx_out = TxOut::new(10, address_a);
    utxo_store.push(powsim::crypto::Hash::min(), tx_out, 0);

    let transaction = wallet_a
        .new_transaction(7, address_b, 2, &utxo_store)
        .unwrap();
    transaction.verify(&utxo_store).unwrap();
}

#[test]
fn cannot_create_transaction_if_insufficient_funds() {
    let mut wallet_a = Wallet::new();
    let mut wallet_b = Wallet::new();

    let address_b = wallet_b.new_address().unwrap();

    let utxo_store = BasicUtxoStore::new();

    wallet_a
        .new_transaction(7, address_b, 2, &utxo_store)
        .err()
        .unwrap();
}

#[test]
fn insufficient_funds_error_is_not_enough_tokens() {
    let mut wallet_a = Wallet::new();
    let mut wallet_b = Wallet::new();
    let address_b = wallet_b.new_address().unwrap();

    let utxo_store = BasicUtxoStore::new();
    assert_eq!(
        Err(Error::NotEnoughTokens)
            .map(|_: powsim::transaction::SignedTx| ()),
        wallet_a
            .new_transaction(7, address_b, 2, &utxo_store)
            .map(|_| ())
    );
}

#[test]
fn wallet_change_returns_to_wallet() {
    let mut wallet_a = Wallet::new();
    let mut wallet_b = Wallet::new();

    let address_a = wallet_a.new_address().unwrap();
    let address_b = wallet_b.new_address().unwrap();

    let mut utxo_store = BasicUtxoStore::new();
    utxo_store.push(powsim::crypto::Hash::min(), TxOut::new(10, address_a), 0);

    let transaction = wallet_a
        .new_transaction(7, address_b, 2, &utxo_store)
        .unwrap();

    // the fee left for the miner is collected minus payment and change
    let fee = transaction.verify(&utxo_store).unwrap();
    assert_eq!(2, fee);

    // change first, payment second
    assert_eq!(2, transaction.output.len());
    assert_eq!(1, *transaction.output[0].amount());
    assert_eq!(7, *transaction.output[1].amount());

    // the store answers by reference as well as by address
    let found = utxo_store.find(&powsim::crypto::Hash::min(), &0).unwrap();
    assert_eq!(10, *found.amount());
}
