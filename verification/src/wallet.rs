//! A naive wallet: a growing list of single-use accounts, and a builder that
//! collects enough funded accounts to cover a payment plus its fee, pays the
//! change back to a fresh account, and signs the result.

use vstd::prelude::*;
use crate::crypto::{KeyPair, KeyPairGenerator, sha256_of, pub_key_of, sign_of};
use crate::transaction::{Address, TxOut, RawTx, RawTxIn, SignedTx, spec_ser_raw_tx};
use crate::Error;

verus! {

/// A reference to one unspent output: where it is and how much it holds.
pub struct TxOutReference {
    pub tx_hash: crate::crypto::Hash,
    pub tx_out_index: u8,
    pub amount: u32,
}

impl Clone for TxOutReference {
    fn clone(&self) -> (r: Self)
        ensures
            r.tx_hash@ == self.tx_hash@,
            r.tx_out_index == self.tx_out_index,
            r.amount == self.amount,
    {
        TxOutReference {
            tx_hash: self.tx_hash.clone(),
            tx_out_index: self.tx_out_index,
            amount: self.amount,
        }
    }
}

/// The capability a wallet expects: a lookup from an address to an unspent
/// output that pays it, if any.
pub trait UtxoStore {
    /// What the store holds for an address: the reference's parts, as plain
    /// values.
    spec fn spec_find_for_address(&self, address: Seq<u8>) -> Option<(Seq<u8>, u8, u32)>;

    /// Looks an address up; the result is exactly what the store holds.
    fn find_for_address(&self, address: &Address) -> (r: Option<TxOutReference>)
        ensures
            match r {
                Some(t) => self.spec_find_for_address(address@) == Some(
                    (t.tx_hash@, t.tx_out_index, t.amount),
                ),
                None => self.spec_find_for_address(address@) is None,
            },
    ;
}

/// What a lookup over a list of entries answers: the first entry whose
/// address matches.
pub open spec fn spec_scan_address(
    entries: Seq<(Seq<u8>, (Seq<u8>, u8, u32))>,
    address: Seq<u8>,
) -> Option<(Seq<u8>, u8, u32)>
    decreases entries.len(),
{
    if entries.len() == 0 {
        None
    } else if entries[0].0 == address {
        Some(entries[0].1)
    } else {
        spec_scan_address(entries.drop_first(), address)
    }
}

/// What a lookup over a list of entries answers: the first entry whose
/// output reference matches.
pub open spec fn spec_scan_ref(
    entries: Seq<(Seq<u8>, u8, crate::transaction::TxOutV)>,
    tx_hash: Seq<u8>,
    txo_index: u8,
) -> Option<crate::transaction::TxOutV>
    decreases entries.len(),
{
    if entries.len() == 0 {
        None
    } else if entries[0].0 == tx_hash && entries[0].1 == txo_index {
        Some(entries[0].2)
    } else {
        spec_scan_ref(entries.drop_first(), tx_hash, txo_index)
    }
}

/// A basic UTXO store: a list of unspent outputs, looked up either by the
/// address they pay or by the transaction and index that made them.
pub struct BasicUtxoStore {
    pub entries: Vec<(crate::crypto::Hash, u8, TxOut)>,
}

impl BasicUtxoStore {
    /// The entries, keyed by the address each output pays.
    pub open spec fn spec_by_address(&self) -> Seq<(Seq<u8>, (Seq<u8>, u8, u32))> {
        self.entries@.map_values(
            |e: (crate::crypto::Hash, u8, TxOut)|
                (e.2.to_address@, (e.0@, e.1, e.2.amount)),
        )
    }

    /// The entries, keyed by the reference that made each output.
    pub open spec fn spec_by_ref(&self) -> Seq<(Seq<u8>, u8, crate::transaction::TxOutV)> {
        self.entries@.map_values(
            |e: (crate::crypto::Hash, u8, TxOut)| (e.0@, e.1, e.2@),
        )
    }

    /// An empty store.
    pub fn new() -> (r: BasicUtxoStore)
        ensures
            r.entries@.len() == 0,
    {
        BasicUtxoStore { entries: Vec::new() }
    }

    /// Records that `tx_out` is the output of `tx_hash` at `tx_out_index`.
    pub fn push(&mut self, tx_hash: crate::crypto::Hash, tx_out: TxOut, tx_out_index: u8)
        ensures
            final(self).entries@.len() == old(self).entries@.len() + 1,
            final(self).entries@.last().0@ == tx_hash@,
            final(self).entries@.last().1 == tx_out_index,
            final(self).entries@.last().2@ == tx_out@,
            forall|i: int|
                0 <= i < old(self).entries@.len() ==> final(self).entries@[i] == old(
                    self,
                ).entries@[i],
    {
        self.entries.push((tx_hash, tx_out_index, tx_out));
    }
}

impl UtxoStore for BasicUtxoStore {
    open spec fn spec_find_for_address(&self, address: Seq<u8>) -> Option<(Seq<u8>, u8, u32)> {
        spec_scan_address(self.spec_by_address(), address)
    }

    fn find_for_address(&self, address: &Address) -> (r: Option<TxOutReference>) {
        let n = self.entries.len();
        proof {
            assert(self.spec_by_address().skip(0) =~= self.spec_by_address());
        }
        let mut i: usize = 0;
        while i < n
            invariant
                n == self.entries@.len(),
                i <= n,
                spec_scan_address(self.spec_by_address(), address@) == spec_scan_address(
                    self.spec_by_address().skip(i as int),
                    address@,
                ),
            decreases n - i,
        {
            let entry = &self.entries[i];
            proof {
                assert(self.spec_by_address().skip(i as int)[0]
                    == self.spec_by_address()[i as int]);
                assert(self.spec_by_address().skip(i as int).drop_first()
                    =~= self.spec_by_address().skip(i + 1));
            }
            if crate::crypto::bytes_equal(
                entry.2.to_address.0.bytes.as_slice(),
                address.0.bytes.as_slice(),
            ) {
                return Some(
                    TxOutReference {
                        tx_hash: entry.0.clone(),
                        tx_out_index: entry.1,
                        amount: entry.2.amount,
                    },
                );
            }
            i = i + 1;
        }
        proof {
            assert(self.spec_by_address().skip(n as int).len() == 0);
        }
        None
    }
}

impl crate::transaction::UtxoStore for BasicUtxoStore {
    open spec fn spec_find(&self, tx_hash: Seq<u8>, txo_index: u8) -> Option<
        crate::transaction::TxOutV,
    > {
        spec_scan_ref(self.spec_by_ref(), tx_hash, txo_index)
    }

    fn find(&self, transaction_hash: &crate::crypto::Hash, txo_index: &u8) -> (r: Option<TxOut>) {
        let n = self.entries.len();
        proof {
            assert(self.spec_by_ref().skip(0) =~= self.spec_by_ref());
        }
        let mut i: usize = 0;
        while i < n
            invariant
                n == self.entries@.len(),
                i <= n,
                spec_scan_ref(self.spec_by_ref(), transaction_hash@, *txo_index) == spec_scan_ref(
                    self.spec_by_ref().skip(i as int),
                    transaction_hash@,
                    *txo_index,
                ),
            decreases n - i,
        {
            let entry = &self.entries[i];
            proof {
                assert(self.spec_by_ref().skip(i as int)[0] == self.spec_by_ref()[i as int]);
                assert(self.spec_by_ref().skip(i as int).drop_first() =~= self.spec_by_ref().skip(
                    i + 1,
                ));
            }
            if crate::crypto::bytes_equal(
                entry.0.bytes.as_slice(),
                transaction_hash.bytes.as_slice(),
            ) && entry.1 == *txo_index {
                return Some(entry.2.clone());
            }
            i = i + 1;
        }
        proof {
            assert(self.spec_by_ref().skip(n as int).len() == 0);
        }
        None
    }
}

/// The amount the store holds for one account's address; zero when none.
pub open spec fn spec_found_amount<S: UtxoStore>(store: &S, account: Account) -> int {
    match store.spec_find_for_address(account.address@) {
        Some(t) => t.2 as int,
        None => 0,
    }
}

/// The funds the store can find for a run of accounts, oldest first.
pub open spec fn spec_funds<S: UtxoStore>(store: &S, accounts: Seq<Account>) -> int
    decreases accounts.len(),
{
    if accounts.len() == 0 {
        0
    } else {
        spec_found_amount(store, accounts[0]) + spec_funds(store, accounts.drop_first())
    }
}

/// The output references the store finds for a run of accounts, in order.
pub open spec fn spec_found_refs<S: UtxoStore>(store: &S, accounts: Seq<Account>) -> Seq<
    (Seq<u8>, u8),
>
    decreases accounts.len(),
{
    if accounts.len() == 0 {
        Seq::empty()
    } else {
        (match store.spec_find_for_address(accounts[0].address@) {
            Some(t) => seq![(t.0, t.1)],
            None => Seq::empty(),
        }) + spec_found_refs(store, accounts.drop_first())
    }
}

/// The key material of the accounts whose address the store finds, in order.
pub open spec fn spec_found_owners<S: UtxoStore>(store: &S, accounts: Seq<Account>) -> Seq<Seq<u8>>
    decreases accounts.len(),
{
    if accounts.len() == 0 {
        Seq::empty()
    } else {
        (match store.spec_find_for_address(accounts[0].address@) {
            Some(t) => seq![accounts[0].key_pair@],
            None => Seq::empty(),
        }) + spec_found_owners(store, accounts.drop_first())
    }
}

/// How many accounts, oldest first, a collection scans before the found
/// funds cover `total`: all of them when they never do, none when nothing
/// is owed.
pub open spec fn spec_scan_count<S: UtxoStore>(
    store: &S,
    accounts: Seq<Account>,
    total: int,
) -> int
    decreases accounts.len(),
{
    if total <= 0 {
        0
    } else if accounts.len() == 0 {
        0
    } else {
        1 + spec_scan_count(
            store,
            accounts.drop_first(),
            total - spec_found_amount(store, accounts[0]),
        )
    }
}

/// Scanning one more account adds what the store finds for it.
pub proof fn lemma_funds_push<S: UtxoStore>(store: &S, s: Seq<Account>, a: Account)
    ensures
        spec_funds(store, s.push(a)) == spec_funds(store, s) + spec_found_amount(store, a),
        spec_found_refs(store, s.push(a)) == spec_found_refs(store, s) + (match store
            .spec_find_for_address(a.address@) {
            Some(t) => seq![(t.0, t.1)],
            None => Seq::<(Seq<u8>, u8)>::empty(),
        }),
        spec_found_owners(store, s.push(a)) == spec_found_owners(store, s) + (match store
            .spec_find_for_address(a.address@) {
            Some(t) => seq![a.key_pair@],
            None => Seq::<Seq<u8>>::empty(),
        }),
    decreases s.len(),
{
    if s.len() == 0 {
        assert(s.push(a).drop_first() =~= s);
        assert(spec_found_refs(store, s.push(a)) =~= spec_found_refs(store, s) + (match store
            .spec_find_for_address(a.address@) {
            Some(t) => seq![(t.0, t.1)],
            None => Seq::<(Seq<u8>, u8)>::empty(),
        }));
        assert(spec_found_owners(store, s.push(a)) =~= spec_found_owners(store, s) + (match store
            .spec_find_for_address(a.address@) {
            Some(t) => seq![a.key_pair@],
            None => Seq::<Seq<u8>>::empty(),
        }));
    } else {
        lemma_funds_push(store, s.drop_first(), a);
        assert(s.push(a).drop_first() =~= s.drop_first().push(a));
        assert(spec_found_refs(store, s.push(a)) =~= spec_found_refs(store, s) + (match store
            .spec_find_for_address(a.address@) {
            Some(t) => seq![(t.0, t.1)],
            None => Seq::<(Seq<u8>, u8)>::empty(),
        }));
        assert(spec_found_owners(store, s.push(a)) =~= spec_found_owners(store, s) + (match store
            .spec_find_for_address(a.address@) {
            Some(t) => seq![a.key_pair@],
            None => Seq::<Seq<u8>>::empty(),
        }));
    }
}

/// Findable funds never go below zero.
pub proof fn lemma_funds_nonneg<S: UtxoStore>(store: &S, s: Seq<Account>)
    ensures
        spec_funds(store, s) >= 0,
    decreases s.len(),
{
    if s.len() > 0 {
        lemma_funds_nonneg(store, s.drop_first());
    }
}

/// Findable funds split at any point.
pub proof fn lemma_funds_split<S: UtxoStore>(store: &S, s: Seq<Account>, i: int)
    requires
        0 <= i <= s.len(),
    ensures
        spec_funds(store, s) == spec_funds(store, s.take(i)) + spec_funds(store, s.skip(i)),
    decreases i,
{
    if i == 0 {
        assert(s.take(0).len() == 0);
        assert(s.skip(0) =~= s);
    } else {
        lemma_funds_split(store, s.drop_first(), i - 1);
        assert(s.take(i).drop_first() =~= s.drop_first().take(i - 1));
        assert(s.drop_first().skip(i - 1) =~= s.skip(i));
        assert(s.take(i)[0] == s[0]);
    }
}

/// A longer scan never finds less.
pub proof fn lemma_funds_monotone<S: UtxoStore>(store: &S, s: Seq<Account>, i: int, j: int)
    requires
        0 <= i <= j <= s.len(),
    ensures
        spec_funds(store, s.take(i)) <= spec_funds(store, s.take(j)),
{
    lemma_funds_split(store, s.take(j), i);
    assert(s.take(j).take(i) =~= s.take(i));
    lemma_funds_nonneg(store, s.take(j).skip(i));
}

/// The scan stops exactly at the first prefix whose funds cover the total:
/// the index where the funds first reach it, or the number of accounts when
/// they never do.
pub proof fn lemma_scan_count_at<S: UtxoStore>(store: &S, s: Seq<Account>, total: int, m: int)
    requires
        0 <= m <= s.len(),
        m < s.len() ==> spec_funds(store, s.take(m)) >= total,
        m > 0 ==> spec_funds(store, s.take(m - 1)) < total,
        m == 0 ==> total <= 0 || s.len() == 0,
    ensures
        spec_scan_count(store, s, total) == m,
    decreases m,
{
    if m == 0 {
    } else {
        assert(s.take(m - 1).len() > 0 || m == 1);
        assert(spec_funds(store, s.take(0)) <= spec_funds(store, s.take(m - 1))) by {
            lemma_funds_monotone(store, s, 0, m - 1);
        }
        assert(total > 0);
        let rest = s.drop_first();
        let total2 = total - spec_found_amount(store, s[0]);
        assert(s.take(m).drop_first() =~= rest.take(m - 1));
        if m < s.len() {
            assert(spec_funds(store, s.take(m)) == spec_found_amount(store, s[0]) + spec_funds(
                store,
                rest.take(m - 1),
            )) by {
                assert(s.take(m)[0] == s[0]);
            }
        }
        if m > 1 {
            assert(s.take(m - 1).drop_first() =~= rest.take(m - 2));
            assert(spec_funds(store, s.take(m - 1)) == spec_found_amount(store, s[0])
                + spec_funds(store, rest.take(m - 2))) by {
                assert(s.take(m - 1)[0] == s[0]);
            }
        }
        lemma_scan_count_at(store, rest, total2, m - 1);
    }
}

/// One account: a key pair and the address derived from its public key.
pub struct Account {
    pub key_pair: KeyPair,
    pub address: Address,
}

impl Account {
    /// The address is honestly derived from the key pair.
    pub open spec fn wf(&self) -> bool {
        self.address@ == sha256_of(pub_key_of(self.key_pair@)) && self.address.wf()
    }

    /// Wraps a key pair with the address its public key pays into.
    pub fn new(key_pair: KeyPair) -> (r: Account)
        ensures
            r.wf(),
            r.key_pair@ == key_pair@,
    {
        let pub_key = key_pair.pub_key();
        let address = Address::from_pub_key(&pub_key);
        Account { address, key_pair }
    }
}

/// A wallet: its accounts, oldest first, and a generator for new ones.
pub struct Wallet {
    pub accounts: Vec<Account>,
    pub generator: KeyPairGenerator,
}

impl Wallet {
    /// Every account's address is honestly derived.
    pub open spec fn wf(&self) -> bool {
        forall|i: int| 0 <= i < self.accounts@.len() ==> (#[trigger] self.accounts@[i]).wf()
    }

    /// An empty wallet.
    pub fn new() -> (r: Wallet)
        ensures
            r.accounts@.len() == 0,
            r.wf(),
    {
        Wallet { accounts: Vec::new(), generator: KeyPairGenerator::new() }
    }

    /// Creates a fresh account and returns its address, or
    /// `Error::CryptographyError` when key generation fails.
    pub fn new_address(&mut self) -> (r: Result<Address, Error>)
        requires
            old(self).wf(),
        ensures
            final(self).wf(),
            r is Err ==> r == Err::<Address, Error>(Error::CryptographyError),
            r matches Ok(a) ==> {
                &&& final(self).accounts@.len() == old(self).accounts@.len() + 1
                &&& forall|i: int|
                    0 <= i < old(self).accounts@.len() ==> final(self).accounts@[i] == old(
                        self,
                    ).accounts@[i]
                &&& a@ == final(self).accounts@.last().address@
                &&& a.wf()
            },
            r is Err ==> *final(self) == *old(self),
    {
        let key_pair = match self.generator.random_keypair() {
            Ok(kp) => kp,
            Err(e) => {
                return Err(e);
            },
        };
        let new_account = Account::new(key_pair);
        let address = new_account.address.clone();
        let ghost prev = self.accounts@;
        self.accounts.push(new_account);
        proof {
            assert forall|i: int| 0 <= i < self.accounts@.len() implies (
            #[trigger] self.accounts@[i]).wf() by {
                if i < prev.len() {
                    assert(self.accounts@[i] == prev[i]);
                }
            }
        }
        Ok(address)
    }

    /// Builds and signs a payment of `amount` to `to_address` with `fees`
    /// left for the miner: funded accounts are collected oldest first until
    /// they cover the total, the change returns to a fresh account of this
    /// wallet, and each collected account signs the result. Fails with
    /// `Error::NotEnoughTokens` when the funded accounts cannot cover the
    /// total, and passes key generation and signing failures through.
    pub fn new_transaction<S: UtxoStore>(
        &mut self,
        amount: u32,
        to_address: Address,
        fees: u32,
        utxo_store: &S,
    ) -> (r: Result<SignedTx, Error>)
        requires
            old(self).wf(),
            amount + fees <= u32::MAX,
        ensures
            final(self).wf(),
            final(self).accounts@.len() == old(self).accounts@.len()
                || final(self).accounts@.len() == old(self).accounts@.len() + 1,
            forall|i: int|
                0 <= i < old(self).accounts@.len() ==> final(self).accounts@[i] == old(
                    self,
                ).accounts@[i],
            r is Err ==> r == Err::<SignedTx, Error>(Error::NotEnoughTokens) || r == Err::<
                SignedTx,
                Error,
            >(Error::CryptographyError),
            // insufficient funds exactly when, the fresh change account made,
            // the store cannot cover the total over the wallet's accounts
            r == Err::<SignedTx, Error>(Error::NotEnoughTokens) <==> (final(self).accounts@.len()
                == old(self).accounts@.len() + 1 && spec_funds(utxo_store, final(self).accounts@)
                < amount + fees),
            // on success: the scan collected the oldest accounts until their
            // funds covered the total; the change of that collection returns
            // to the fresh account, and the collected references are the
            // inputs, each signed by its owning account over the unsigned
            // serialization
            r matches Ok(stx) ==> ({
                let accounts = final(self).accounts@;
                let scanned = accounts.take(
                    spec_scan_count(utxo_store, accounts, amount + fees),
                );
                let refs = spec_found_refs(utxo_store, scanned);
                let owners = spec_found_owners(utxo_store, scanned);
                &&& accounts.len() == old(self).accounts@.len() + 1
                &&& spec_funds(utxo_store, scanned) >= amount + fees
                &&& stx@.output.len() == 2
                &&& stx@.output[0].amount == spec_funds(utxo_store, scanned) - (amount + fees)
                &&& stx@.output[0].to_address == accounts.last().address@
                &&& stx@.output[1].amount == amount
                &&& stx@.output[1].to_address == to_address@
                &&& stx@.input.len() == refs.len()
                &&& forall|k: int|
                    0 <= k < refs.len() ==> {
                        &&& (#[trigger] stx@.input[k]).prev_tx_hash == refs[k].0
                        &&& stx@.input[k].prev_tx_output_index == refs[k].1
                        &&& stx@.input[k].sig_public_key == pub_key_of(owners[k])
                        &&& stx@.input[k].tx_signature == sign_of(
                            owners[k],
                            spec_ser_raw_tx(stx@.unsigned()),
                        )
                    }
            }),
    {
        let change_address = match self.new_address() {
            Ok(a) => a,
            Err(e) => {
                return Err(e);
            },
        };
        let ghost accs = self.accounts@;

        let total_cost = amount + fees;
        let mut collected_amount: u64 = 0;

        let mut raw_tx_ins: Vec<RawTxIn> = Vec::new();
        let mut key_pair_refs: Vec<&KeyPair> = Vec::new();
        let n = self.accounts.len();
        let mut idx: usize = 0;
        proof {
            assert(accs.take(0).len() == 0);
        }
        while collected_amount < total_cost as u64
            invariant
                n == self.accounts@.len(),
                idx <= n,
                self.wf(),
                accs == self.accounts@,
                total_cost == amount + fees,
                accs.len() == old(self).accounts@.len() + 1,
                forall|i: int|
                    0 <= i < old(self).accounts@.len() ==> accs[i] == old(self).accounts@[i],
                raw_tx_ins@.len() == key_pair_refs@.len(),
                collected_amount <= total_cost as u64 + u32::MAX as u64,
                collected_amount as int == spec_funds(utxo_store, accs.take(idx as int)),
                idx > 0 ==> spec_funds(utxo_store, accs.take(idx - 1)) < total_cost,
                raw_tx_ins@.len() == spec_found_refs(utxo_store, accs.take(idx as int)).len(),
                key_pair_refs@.len() == spec_found_owners(
                    utxo_store,
                    accs.take(idx as int),
                ).len(),
                forall|k: int|
                    0 <= k < raw_tx_ins@.len() ==> {
                        &&& (#[trigger] raw_tx_ins@[k])@.prev_tx_hash == spec_found_refs(
                            utxo_store,
                            accs.take(idx as int),
                        )[k].0
                        &&& raw_tx_ins@[k]@.prev_tx_output_index == spec_found_refs(
                            utxo_store,
                            accs.take(idx as int),
                        )[k].1
                    },
                forall|k: int|
                    0 <= k < key_pair_refs@.len() ==> (#[trigger] key_pair_refs@[k])@
                        == spec_found_owners(utxo_store, accs.take(idx as int))[k],
            decreases n - idx,
        {
            if idx >= n {
                proof {
                    assert(accs.take(n as int) =~= accs);
                    lemma_funds_monotone(utxo_store, accs, idx as int, n as int);
                }
                return Err(Error::NotEnoughTokens);
            }
            let account = &self.accounts[idx];
            proof {
                lemma_funds_push(utxo_store, accs.take(idx as int), accs[idx as int]);
                assert(accs.take(idx as int).push(accs[idx as int]) =~= accs.take(idx + 1));
            }
            match utxo_store.find_for_address(&account.address) {
                Some(utxo_reference) => {
                    let raw_tx_in = RawTxIn {
                        prev_tx_hash: utxo_reference.tx_hash.clone(),
                        prev_tx_output_index: utxo_reference.tx_out_index,
                    };
                    raw_tx_ins.push(raw_tx_in);
                    key_pair_refs.push(&account.key_pair);
                    collected_amount = collected_amount + utxo_reference.amount as u64;
                },
                None => {},
            }
            idx = idx + 1;
        }
        proof {
            // the scan stopped exactly where the found funds first covered
            // the total
            if idx > 0 {
                lemma_funds_monotone(utxo_store, accs, 0, idx - 1);
            }
            lemma_scan_count_at(utxo_store, accs, total_cost as int, idx as int);
            lemma_funds_monotone(utxo_store, accs, idx as int, accs.len() as int);
            assert(accs.take(accs.len() as int) =~= accs);
        }

        let change = (collected_amount - total_cost as u64) as u32;
        let change_tx_out = TxOut::new(change, change_address);
        let payment_tx_out = TxOut::new(amount, to_address);

        let mut output: Vec<TxOut> = Vec::new();
        output.push(change_tx_out);
        output.push(payment_tx_out);

        let raw_tx = RawTx { input: raw_tx_ins, output };

        let result = SignedTx::from_raw_tx(raw_tx, key_pair_refs);
        proof {
            assert(result is Ok);
        }
        result
    }
}

} // verus!
