//! Blocks: a header that links the previous block's hash with the body's
//! digest under a proof-of-work nonce, and a body carrying the coinbase
//! reward and the transactions.

use vstd::prelude::*;
use crate::codec::{spec_u32_be, spec_u64_be, push_u32_be, push_u64_be, push_bytes,
    lemma_u32_be_injective, lemma_u64_be_injective};
use crate::crypto::{sha256_of, hash};
use crate::pow::{Difficulty, Nonce, lex_less};
use crate::transaction::{TxOut, TxOutV, SignedTx, SignedTxV, CoinbaseTx, UtxoStore,
    spec_ser_tx_out, spec_ser_signed_tx, spec_tx_verdict};
use crate::Error;

verus! {

/// The fixed reward the coinbase of every block pays its miner, on top of
/// the fees of the block's transactions.
pub const COINBASE_AMOUNT: u32 = 1000;

/// The mathematical value of a [`HeaderCore`].
pub struct HeaderCoreV {
    pub nonce: u64,
    pub difficulty: Seq<u8>,
    pub previous_block_hash: Seq<u8>,
    pub height: u32,
    pub body_hash: Seq<u8>,
}

/// The hash pre-image of a header: every field a block commits to.
pub struct HeaderCore {
    pub nonce: Nonce,
    pub difficulty: Difficulty,
    pub previous_block_hash: crate::crypto::Hash,
    pub height: u32,
    pub body_hash: crate::crypto::Hash,
}

impl View for HeaderCore {
    type V = HeaderCoreV;

    open spec fn view(&self) -> HeaderCoreV {
        HeaderCoreV {
            nonce: self.nonce.0,
            difficulty: self.difficulty@,
            previous_block_hash: self.previous_block_hash@,
            height: self.height,
            body_hash: self.body_hash@,
        }
    }
}

impl HeaderCoreV {
    /// Lengths of the parts of a well-formed pre-image.
    pub open spec fn wf(&self) -> bool {
        self.difficulty.len() == 32 && self.previous_block_hash.len() == 32
            && self.body_hash.len() == 32
    }
}

impl HeaderCore {
    /// Lengths of the parts of a well-formed pre-image.
    pub open spec fn wf(&self) -> bool {
        self@.wf()
    }
}

/// `nonce(8 BE) || difficulty(32) || previous_block_hash(32) || height(4 BE)
/// || body_hash(32)`: the normative header pre-image layout.
pub open spec fn spec_ser_header_core(h: HeaderCoreV) -> Seq<u8> {
    spec_u64_be(h.nonce) + h.difficulty + h.previous_block_hash + spec_u32_be(h.height)
        + h.body_hash
}

/// Two distinct well-formed header pre-images never serialize to the same
/// bytes: every field is recoverable from its fixed offset.
pub proof fn lemma_ser_header_core_injective(a: HeaderCoreV, b: HeaderCoreV)
    requires
        a.wf(),
        b.wf(),
        spec_ser_header_core(a) == spec_ser_header_core(b),
    ensures
        a == b,
{
    let sa = spec_ser_header_core(a);
    let sb = spec_ser_header_core(b);
    assert(sa.len() == 108);
    assert(spec_u64_be(a.nonce) =~= sa.subrange(0, 8));
    assert(spec_u64_be(b.nonce) =~= sb.subrange(0, 8));
    lemma_u64_be_injective(a.nonce, b.nonce);
    assert(a.difficulty =~= sa.subrange(8, 40));
    assert(b.difficulty =~= sb.subrange(8, 40));
    assert(a.previous_block_hash =~= sa.subrange(40, 72));
    assert(b.previous_block_hash =~= sb.subrange(40, 72));
    assert(spec_u32_be(a.height) =~= sa.subrange(72, 76));
    assert(spec_u32_be(b.height) =~= sb.subrange(72, 76));
    lemma_u32_be_injective(a.height, b.height);
    assert(a.body_hash =~= sa.subrange(76, 108));
    assert(b.body_hash =~= sb.subrange(76, 108));
}

impl HeaderCore {
    /// The pre-image bytes of this header, in the normative layout.
    pub fn serialize(&self) -> (r: Vec<u8>)
        ensures
            r@ == spec_ser_header_core(self@),
    {
        let mut out: Vec<u8> = Vec::new();
        push_u64_be(&mut out, self.nonce.0);
        push_bytes(&mut out, &self.difficulty.threshold);
        push_bytes(&mut out, &self.previous_block_hash.bytes);
        push_u32_be(&mut out, self.height);
        push_bytes(&mut out, &self.body_hash.bytes);
        assert(out@ =~= spec_ser_header_core(self@));
        out
    }

    /// The header hash: SHA-256 of the serialized pre-image.
    pub fn hash(&self) -> (r: crate::crypto::Hash)
        ensures
            r@ == sha256_of(spec_ser_header_core(self@)),
            r.wf(),
    {
        let serialized = self.serialize();
        hash(serialized.as_slice())
    }
}

impl Clone for HeaderCore {
    fn clone(&self) -> (r: Self)
        ensures
            r@ == self@,
    {
        HeaderCore {
            nonce: self.nonce,
            difficulty: self.difficulty.clone(),
            previous_block_hash: self.previous_block_hash.clone(),
            height: self.height,
            body_hash: self.body_hash.clone(),
        }
    }
}

/// A header: the pre-image fields and the cached hash over them. A header is
/// valid when the cache is honest and the hash meets the proof of work.
pub struct Header {
    pub hash: crate::crypto::Hash,
    pub hashed_content: HeaderCore,
}

impl Header {
    /// Lengths of the parts of a well-formed header.
    pub open spec fn wf(&self) -> bool {
        self.hash.wf() && self.hashed_content.wf()
    }

    /// The hash this header carries honestly describes its content.
    pub open spec fn spec_hash_ok(&self) -> bool {
        self.hash@ == sha256_of(spec_ser_header_core(self.hashed_content@))
    }

    /// The cached hash meets the proof of work: strictly below the
    /// difficulty threshold, byte-wise big-endian.
    pub open spec fn spec_pow_ok(&self) -> bool {
        lex_less(self.hash@, self.hashed_content.difficulty@)
    }

    /// The verdict of header validation: `InvalidHeaderHash` when the cached
    /// hash is not the hash of the pre-image, `HashIsTooHigh` when it does
    /// not meet the proof of work, `Ok` otherwise.
    pub open spec fn spec_verdict(&self) -> Result<(), Error> {
        if !self.spec_hash_ok() {
            Err(Error::InvalidHeaderHash)
        } else if !self.spec_pow_ok() {
            Err(Error::HashIsTooHigh)
        } else {
            Ok(())
        }
    }

    /// Builds a header over the given serialized body: the body is digested,
    /// the pre-image assembled, and its hash cached.
    pub fn new(
        nonce: Nonce,
        difficulty: Difficulty,
        previous_block_hash: crate::crypto::Hash,
        height: u32,
        serialized_body: &[u8],
    ) -> (r: Result<Header, Error>)
        requires
            difficulty.wf(),
            previous_block_hash.wf(),
        ensures
            r matches Ok(h) ==> {
                &&& h.wf()
                &&& h.spec_hash_ok()
                &&& h.hashed_content@ == (HeaderCoreV {
                    nonce: nonce.0,
                    difficulty: difficulty@,
                    previous_block_hash: previous_block_hash@,
                    height,
                    body_hash: sha256_of(serialized_body@),
                })
            },
            r is Ok,
    {
        let body_hash = hash(serialized_body);
        let hashed_content = HeaderCore { nonce, difficulty, previous_block_hash, height, body_hash };
        let h = hashed_content.hash();
        Ok(Header { hash: h, hashed_content })
    }

    /// Builds a header directly from a pre-image and a claimed hash, however
    /// ill-matched: validation exists to catch the mismatch.
    pub fn from_parts(hash: crate::crypto::Hash, hashed_content: HeaderCore) -> (r: Header)
        ensures
            r.hash@ == hash@,
            r.hashed_content@ == hashed_content@,
    {
        Header { hash, hashed_content }
    }

    /// Steps the nonce and refreshes the cached hash: the next mining
    /// attempt.
    pub fn increment_nonce(&mut self) -> (r: Result<(), Error>)
        requires
            old(self).hashed_content.nonce.0 < u64::MAX,
        ensures
            r is Ok,
            final(self).hashed_content@ == (HeaderCoreV {
                nonce: (old(self).hashed_content@.nonce + 1) as u64,
                ..old(self).hashed_content@
            }),
            final(self).spec_hash_ok(),
            old(self).hashed_content.wf() ==> final(self).wf(),
    {
        self.hashed_content.nonce.increment();
        self.hash = self.hashed_content.hash();
        Ok(())
    }

    /// The cached header hash.
    pub fn hash(&self) -> (r: &crate::crypto::Hash)
        ensures
            r@ == self.hash@,
    {
        &self.hash
    }

    pub fn previous_block_hash(&self) -> (r: &crate::crypto::Hash)
        ensures
            r@ == self.hashed_content.previous_block_hash@,
    {
        &self.hashed_content.previous_block_hash
    }

    pub fn difficulty(&self) -> (r: &Difficulty)
        ensures
            r@ == self.hashed_content.difficulty@,
    {
        &self.hashed_content.difficulty
    }

    pub fn height(&self) -> (r: &u32)
        ensures
            *r == self.hashed_content.height,
    {
        &self.hashed_content.height
    }

    /// Validates this header, as [`Self::spec_verdict`] describes.
    pub fn verify(&self) -> (r: Result<(), Error>)
        requires
            self.wf(),
        ensures
            r == self.spec_verdict(),
    {
        let computed_hash = self.hashed_content.hash();
        if !(computed_hash == self.hash) {
            Err(Error::InvalidHeaderHash)
        } else if !computed_hash.less_than(&self.hashed_content.difficulty) {
            Err(Error::HashIsTooHigh)
        } else {
            Ok(())
        }
    }
}

impl Clone for Header {
    fn clone(&self) -> (r: Self)
        ensures
            r.hash@ == self.hash@,
            r.hashed_content@ == self.hashed_content@,
    {
        Header { hash: self.hash.clone(), hashed_content: self.hashed_content.clone() }
    }
}

/// Tamper detection for headers: whenever a header's pre-image is altered in
/// any field and the hashes of the two pre-images differ, validating the
/// altered header reports `InvalidHeaderHash`. SHA-256 pins the pre-image
/// down to collisions, and the serialization is injective, so any change of
/// nonce, difficulty, previous hash, height or body digest that changes the
/// digest at all is caught.
pub proof fn lemma_header_tamper_detected(original: Header, tampered: Header)
    requires
        original.spec_hash_ok(),
        tampered.hash@ == original.hash@,
        sha256_of(spec_ser_header_core(tampered.hashed_content@)) != sha256_of(
            spec_ser_header_core(original.hashed_content@),
        ),
    ensures
        tampered.spec_verdict() == Err::<(), Error>(Error::InvalidHeaderHash),
{
}

/// Replacing the cached hash itself is caught the same way.
pub proof fn lemma_hash_tamper_detected(original: Header, tampered: Header)
    requires
        original.spec_hash_ok(),
        tampered.hashed_content@ == original.hashed_content@,
        tampered.hash@ != original.hash@,
    ensures
        tampered.spec_verdict() == Err::<(), Error>(Error::InvalidHeaderHash),
{
}

/// The body a miner builds: the coinbase reward to its payout address and no
/// transactions.
pub open spec fn spec_coinbase_body(address: Seq<u8>) -> BodyV {
    BodyV {
        coinbase: TxOutV { amount: COINBASE_AMOUNT, to_address: address },
        transactions: Seq::empty(),
    }
}

/// The mathematical value of a [`Body`].
pub struct BodyV {
    pub coinbase: TxOutV,
    pub transactions: Seq<SignedTxV>,
}

/// A block body: the coinbase reward and the transactions the block carries.
pub struct Body {
    pub coinbase_tx: CoinbaseTx,
    pub transactions: Vec<SignedTx>,
}

impl View for Body {
    type V = BodyV;

    open spec fn view(&self) -> BodyV {
        BodyV {
            coinbase: self.coinbase_tx@,
            transactions: self.transactions@.map_values(|t: SignedTx| t@),
        }
    }
}

/// The concatenation of the serializations of a sequence of transactions.
pub open spec fn spec_ser_signed_txs(s: Seq<SignedTxV>) -> Seq<u8>
    decreases s.len(),
{
    if s.len() == 0 {
        Seq::empty()
    } else {
        spec_ser_signed_tx(s[0]) + spec_ser_signed_txs(s.drop_first())
    }
}

/// Adding one transaction to the end appends its serialization.
pub proof fn lemma_ser_signed_txs_push(s: Seq<SignedTxV>, x: SignedTxV)
    ensures
        spec_ser_signed_txs(s.push(x)) == spec_ser_signed_txs(s) + spec_ser_signed_tx(x),
    decreases s.len(),
{
    if s.len() == 0 {
        assert(s.push(x).drop_first() =~= s);
        assert(spec_ser_signed_txs(s.push(x)) =~= spec_ser_signed_txs(s) + spec_ser_signed_tx(x));
    } else {
        lemma_ser_signed_txs_push(s.drop_first(), x);
        assert(s.push(x).drop_first() =~= s.drop_first().push(x));
        assert(spec_ser_signed_txs(s.push(x)) =~= spec_ser_signed_txs(s) + spec_ser_signed_tx(x));
    }
}

/// `coinbase_tx_out(amount(4 BE) || to_address(32)) || count(8 BE) ||
/// [signed_tx ...]`: the normative body pre-image layout.
pub open spec fn spec_ser_body(b: BodyV) -> Seq<u8> {
    spec_ser_tx_out(b.coinbase) + spec_u64_be(b.transactions.len() as u64) + spec_ser_signed_txs(
        b.transactions,
    )
}

/// The first transaction that fails validation; the length when all pass.
pub open spec fn spec_first_bad_tx<S: UtxoStore>(store: &S, txs: Seq<SignedTxV>) -> int
    decreases txs.len(),
{
    if txs.len() == 0 {
        0
    } else if spec_tx_verdict(store, txs[0]) is Err {
        0
    } else {
        1 + spec_first_bad_tx(store, txs.drop_first())
    }
}

/// A failing transaction preceded only by passing ones is the first.
pub proof fn lemma_first_bad_tx_at<S: UtxoStore>(store: &S, txs: Seq<SignedTxV>, i: int)
    requires
        0 <= i < txs.len(),
        forall|j: int| 0 <= j < i ==> spec_tx_verdict(store, #[trigger] txs[j]) is Ok,
        spec_tx_verdict(store, txs[i]) is Err,
    ensures
        spec_first_bad_tx(store, txs) == i,
    decreases i,
{
    if i > 0 {
        lemma_first_bad_tx_at(store, txs.drop_first(), i - 1);
    }
}

/// When every transaction passes, there is no first failing one.
pub proof fn lemma_first_bad_tx_none<S: UtxoStore>(store: &S, txs: Seq<SignedTxV>)
    requires
        forall|j: int| 0 <= j < txs.len() ==> spec_tx_verdict(store, #[trigger] txs[j]) is Ok,
    ensures
        spec_first_bad_tx(store, txs) == txs.len(),
    decreases txs.len(),
{
    if txs.len() > 0 {
        lemma_first_bad_tx_none(store, txs.drop_first());
    }
}

/// The sum of the fees of a sequence of transactions, unbounded; meaningful
/// where each transaction validates.
pub open spec fn spec_fee_sum<S: UtxoStore>(store: &S, txs: Seq<SignedTxV>) -> int
    decreases txs.len(),
{
    if txs.len() == 0 {
        0
    } else {
        spec_tx_verdict(store, txs[0])->Ok_0 + spec_fee_sum(store, txs.drop_first())
    }
}

/// Adding one transaction to the end adds its fee.
pub proof fn lemma_fee_sum_push<S: UtxoStore>(store: &S, s: Seq<SignedTxV>, x: SignedTxV)
    ensures
        spec_fee_sum(store, s.push(x)) == spec_fee_sum(store, s) + spec_tx_verdict(
            store,
            x,
        )->Ok_0,
    decreases s.len(),
{
    if s.len() == 0 {
        assert(s.push(x).drop_first() =~= s);
    } else {
        lemma_fee_sum_push(store, s.drop_first(), x);
        assert(s.push(x).drop_first() =~= s.drop_first().push(x));
    }
}

/// A fee sum is nonnegative.
pub proof fn lemma_fee_sum_nonneg<S: UtxoStore>(store: &S, s: Seq<SignedTxV>)
    ensures
        spec_fee_sum(store, s) >= 0,
    decreases s.len(),
{
    if s.len() > 0 {
        lemma_fee_sum_nonneg(store, s.drop_first());
    }
}

/// A fee sum splits at any point.
pub proof fn lemma_fee_sum_split<S: UtxoStore>(store: &S, s: Seq<SignedTxV>, i: int)
    requires
        0 <= i <= s.len(),
    ensures
        spec_fee_sum(store, s) == spec_fee_sum(store, s.take(i)) + spec_fee_sum(store, s.skip(i)),
    decreases i,
{
    if i == 0 {
        assert(s.take(0).len() == 0);
        assert(s.skip(0) =~= s);
    } else {
        lemma_fee_sum_split(store, s.drop_first(), i - 1);
        assert(s.take(i).drop_first() =~= s.drop_first().take(i - 1));
        assert(s.drop_first().skip(i - 1) =~= s.skip(i));
        assert(s.take(i)[0] == s[0]);
    }
}

/// The verdict of body validation: the transactions are validated in order
/// and the first failure is reported unchanged; then the coinbase must pay
/// exactly the base reward plus the fees the transactions leave behind,
/// else `InvalidCoinbaseAmount`.
pub open spec fn spec_body_verdict<S: UtxoStore>(store: &S, b: BodyV) -> Result<(), Error> {
    let bad = spec_first_bad_tx(store, b.transactions);
    if bad < b.transactions.len() {
        Err(spec_tx_verdict(store, b.transactions[bad])->Err_0)
    } else if b.coinbase.amount != COINBASE_AMOUNT + spec_fee_sum(store, b.transactions) {
        Err(Error::InvalidCoinbaseAmount)
    } else {
        Ok(())
    }
}

/// A body with validating transactions validates exactly when its coinbase
/// pays the base reward plus the transactions' fees.
pub proof fn lemma_body_verdict_coinbase<S: UtxoStore>(store: &S, b: BodyV)
    requires
        forall|j: int|
            0 <= j < b.transactions.len() ==> spec_tx_verdict(
                store,
                #[trigger] b.transactions[j],
            ) is Ok,
    ensures
        spec_body_verdict(store, b) is Ok <==> b.coinbase.amount == COINBASE_AMOUNT
            + spec_fee_sum(store, b.transactions),
{
    lemma_first_bad_tx_none(store, b.transactions);
}

impl Body {
    /// Lengths of the parts of a well-formed body.
    pub open spec fn wf(&self) -> bool {
        self.coinbase_tx.wf()
    }

    /// Builds a body paying `coinbase_tx_out` and carrying `transactions`.
    pub fn new(coinbase_tx_out: TxOut, transactions: Vec<SignedTx>) -> (r: Body)
        ensures
            r@.coinbase == coinbase_tx_out@,
            r@.transactions == transactions@.map_values(|t: SignedTx| t@),
            coinbase_tx_out.wf() ==> r.wf(),
    {
        Body { coinbase_tx: CoinbaseTx(coinbase_tx_out), transactions }
    }

    /// The body's pre-image bytes, in the normative layout.
    pub fn serialize(&self) -> (r: Vec<u8>)
        ensures
            r@ == spec_ser_body(self@),
    {
        let ghost view_seq = self.transactions@.map_values(|t: SignedTx| t@);
        let mut out: Vec<u8> = Vec::new();
        self.coinbase_tx.0.serialize_into(&mut out);
        push_u64_be(&mut out, self.transactions.len() as u64);
        let len = self.transactions.len();
        let mut i: usize = 0;
        while i < len
            invariant
                len == self.transactions@.len(),
                i <= len,
                view_seq == self.transactions@.map_values(|t: SignedTx| t@),
                out@ == spec_ser_tx_out(self@.coinbase) + spec_u64_be(
                    self.transactions@.len() as u64,
                ) + spec_ser_signed_txs(view_seq.take(i as int)),
            decreases len - i,
        {
            self.transactions[i].serialize_into(&mut out);
            proof {
                lemma_ser_signed_txs_push(view_seq.take(i as int), view_seq[i as int]);
                assert(view_seq.take(i as int).push(view_seq[i as int]) =~= view_seq.take(i + 1));
                assert(out@ =~= spec_ser_tx_out(self@.coinbase) + spec_u64_be(
                    self.transactions@.len() as u64,
                ) + spec_ser_signed_txs(view_seq.take(i + 1)));
            }
            i = i + 1;
        }
        proof {
            assert(view_seq.take(len as int) =~= view_seq);
        }
        assert(out@ =~= spec_ser_body(self@));
        out
    }

    /// SHA-256 of the serialized body.
    pub fn hash(&self) -> (r: Result<crate::crypto::Hash, Error>)
        ensures
            r is Ok,
            r matches Ok(h) ==> h@ == sha256_of(spec_ser_body(self@)) && h.wf(),
    {
        let serialized = self.serialize();
        Ok(hash(serialized.as_slice()))
    }

    /// Validates this body against `utxo_store`, as [`spec_body_verdict`]
    /// describes.
    pub fn verify<S: UtxoStore>(&self, utxo_store: &S) -> (r: Result<(), Error>)
        ensures
            r == spec_body_verdict(utxo_store, self@),
    {
        let ghost txs = self@.transactions;
        let n = self.transactions.len();
        let mut fees: Vec<u32> = Vec::new();
        let mut i: usize = 0;
        while i < n
            invariant
                n == self.transactions@.len(),
                txs == self@.transactions,
                i <= n,
                fees@.len() == i,
                forall|j: int|
                    0 <= j < i ==> spec_tx_verdict(utxo_store, #[trigger] txs[j]) == Ok::<
                        u32,
                        Error,
                    >(fees@[j]),
            decreases n - i,
        {
            match self.transactions[i].verify(utxo_store) {
                Ok(fee) => {
                    fees.push(fee);
                },
                Err(e) => {
                    proof {
                        assert(txs[i as int] == self.transactions@[i as int]@);
                        lemma_first_bad_tx_at(utxo_store, txs, i as int);
                    }
                    return Err(e);
                },
            }
            i = i + 1;
        }
        proof {
            lemma_first_bad_tx_none(utxo_store, txs);
        }

        // The coinbase must pay exactly the base reward plus the fees; the
        // running difference never overflows because it only shrinks.
        let coinbase_amount = *self.coinbase_tx.0.amount();
        let mut remaining: u64 = coinbase_amount as u64;
        if remaining < COINBASE_AMOUNT as u64 {
            proof {
                lemma_fee_sum_nonneg(utxo_store, txs);
            }
            return Err(Error::InvalidCoinbaseAmount);
        }
        remaining = remaining - COINBASE_AMOUNT as u64;
        let mut k: usize = 0;
        while k < n
            invariant
                n == self.transactions@.len() == fees@.len(),
                txs == self@.transactions,
                k <= n,
                coinbase_amount == self@.coinbase.amount,
                forall|j: int|
                    0 <= j < n ==> spec_tx_verdict(utxo_store, #[trigger] txs[j]) == Ok::<
                        u32,
                        Error,
                    >(fees@[j]),
                spec_first_bad_tx(utxo_store, txs) == n,
                remaining == coinbase_amount - COINBASE_AMOUNT - spec_fee_sum(
                    utxo_store,
                    txs.take(k as int),
                ),
                remaining >= 0,
            decreases n - k,
        {
            let fee = fees[k];
            proof {
                lemma_fee_sum_push(utxo_store, txs.take(k as int), txs[k as int]);
                assert(txs.take(k as int).push(txs[k as int]) =~= txs.take(k + 1));
            }
            if (fee as u64) > remaining {
                proof {
                    lemma_fee_sum_split(utxo_store, txs, k + 1);
                    lemma_fee_sum_nonneg(utxo_store, txs.skip(k + 1));
                }
                return Err(Error::InvalidCoinbaseAmount);
            }
            remaining = remaining - fee as u64;
            k = k + 1;
        }
        proof {
            assert(txs.take(n as int) =~= txs);
        }
        if remaining != 0 {
            return Err(Error::InvalidCoinbaseAmount);
        }
        Ok(())
    }
}

impl Clone for Body {
    fn clone(&self) -> (r: Self)
        ensures
            r@ == self@,
    {
        let n = self.transactions.len();
        let mut transactions: Vec<SignedTx> = Vec::new();
        let mut i: usize = 0;
        while i < n
            invariant
                n == self.transactions@.len(),
                i <= n,
                transactions@.len() == i,
                forall|j: int|
                    0 <= j < i ==> #[trigger] transactions@[j]@ == self.transactions@[j]@,
            decreases n - i,
        {
            let tx = &self.transactions[i];
            let cloned = SignedTx::new(clone_signed_tx_ins(&tx.input), clone_tx_outs(&tx.output));
            proof {
                assert(cloned@.input =~= self.transactions@[i as int]@.input);
                assert(cloned@.output =~= self.transactions@[i as int]@.output);
            }
            transactions.push(cloned);
            i = i + 1;
        }
        let r = Body { coinbase_tx: self.coinbase_tx.clone(), transactions };
        assert(r@.transactions =~= self@.transactions);
        r
    }
}

/// Clones a vector of signed inputs element by element.
fn clone_signed_tx_ins(items: &Vec<crate::transaction::SignedTxIn>) -> (r: Vec<
    crate::transaction::SignedTxIn,
>)
    ensures
        r@.map_values(|t: crate::transaction::SignedTxIn| t@) == items@.map_values(
            |t: crate::transaction::SignedTxIn| t@,
        ),
{
    let n = items.len();
    let mut r: Vec<crate::transaction::SignedTxIn> = Vec::new();
    let mut i: usize = 0;
    while i < n
        invariant
            n == items@.len(),
            i <= n,
            r@.len() == i,
            forall|j: int| 0 <= j < i ==> #[trigger] r@[j]@ == items@[j]@,
        decreases n - i,
    {
        r.push(items[i].clone());
        i = i + 1;
    }
    assert(r@.map_values(|t: crate::transaction::SignedTxIn| t@) =~= items@.map_values(
        |t: crate::transaction::SignedTxIn| t@,
    ));
    r
}

/// Clones a vector of outputs element by element.
fn clone_tx_outs(items: &Vec<TxOut>) -> (r: Vec<TxOut>)
    ensures
        r@.map_values(|t: TxOut| t@) == items@.map_values(|t: TxOut| t@),
{
    let n = items.len();
    let mut r: Vec<TxOut> = Vec::new();
    let mut i: usize = 0;
    while i < n
        invariant
            n == items@.len(),
            i <= n,
            r@.len() == i,
            forall|j: int| 0 <= j < i ==> #[trigger] r@[j]@ == items@[j]@,
        decreases n - i,
    {
        r.push(items[i].clone());
        i = i + 1;
    }
    assert(r@.map_values(|t: TxOut| t@) =~= items@.map_values(|t: TxOut| t@));
    r
}

/// A block: a header over a body.
pub struct Block {
    pub header: Header,
    pub body: Body,
}

impl Block {
    /// Lengths of the parts of a well-formed block.
    pub open spec fn wf(&self) -> bool {
        self.header.wf() && self.body.wf()
    }

    /// Whether the header's cached body digest is the digest of the body it
    /// stands over.
    pub open spec fn spec_body_matches(&self) -> bool {
        sha256_of(spec_ser_body(self.body@)) == self.header.hashed_content.body_hash@
    }

    /// The verdict of block validation: the header first, then the body,
    /// then `HeaderAndBodyHashMismatch` when the body is not the one the
    /// header committed to.
    pub open spec fn spec_verdict<S: UtxoStore>(&self, store: &S) -> Result<(), Error> {
        if self.header.spec_verdict() is Err {
            self.header.spec_verdict()
        } else if spec_body_verdict(store, self.body@) is Err {
            spec_body_verdict(store, self.body@)
        } else if !self.spec_body_matches() {
            Err(Error::HeaderAndBodyHashMismatch)
        } else {
            Ok(())
        }
    }

    pub fn new(header: Header, body: Body) -> (r: Block)
        ensures
            r.header.hash@ == header.hash@,
            r.header.hashed_content@ == header.hashed_content@,
            r.body@ == body@,
    {
        Block { header, body }
    }

    pub fn header(&self) -> (r: &Header)
        ensures
            r == self.header,
    {
        &self.header
    }

    /// Validates this block against `utxo_store`, as [`Self::spec_verdict`]
    /// describes.
    pub fn verify<S: UtxoStore>(&self, utxo_store: &S) -> (r: Result<(), Error>)
        requires
            self.header.wf(),
        ensures
            r == self.spec_verdict(utxo_store),
    {
        match self.header.verify() {
            Ok(()) => {},
            Err(e) => {
                return Err(e);
            },
        }
        match self.body.verify(utxo_store) {
            Ok(()) => {},
            Err(e) => {
                return Err(e);
            },
        }
        let body_hash = match self.body.hash() {
            Ok(h) => h,
            Err(e) => {
                return Err(e);
            },
        };
        if body_hash == self.header.hashed_content.body_hash {
            Ok(())
        } else {
            Err(Error::HeaderAndBodyHashMismatch)
        }
    }
}


// ---------------------------------------------------------------------------
// Deserialization: the round trip of the body and header pre-images.
// ---------------------------------------------------------------------------

/// The length bounds under which a body can round-trip.
pub open spec fn spec_body_v_wf(b: BodyV) -> bool {
    &&& crate::transaction::spec_tx_out_v_wf(b.coinbase)
    &&& forall|i: int|
        0 <= i < b.transactions.len() ==> crate::transaction::spec_signed_tx_v_wf(
            #[trigger] b.transactions[i],
        )
    &&& b.transactions.len() <= u64::MAX
}

/// Reads `n` signed transactions from the head of `s`.
pub open spec fn spec_deser_signed_txs(s: Seq<u8>, n: nat) -> Option<(Seq<SignedTxV>, Seq<u8>)>
    decreases n,
{
    if n == 0 {
        Some((Seq::empty(), s))
    } else {
        match crate::transaction::spec_deser_signed_tx(s) {
            None => None,
            Some((v, r)) => match spec_deser_signed_txs(r, (n - 1) as nat) {
                None => None,
                Some((vs, r2)) => Some((seq![v] + vs, r2)),
            },
        }
    }
}

/// Reads a whole body from the head of `s`.
pub open spec fn spec_deser_body(s: Seq<u8>) -> Option<(BodyV, Seq<u8>)> {
    match crate::transaction::spec_deser_tx_out(s) {
        None => None,
        Some((coinbase, r1)) => match crate::codec::spec_deser_u64(r1) {
            None => None,
            Some((n, r2)) => match spec_deser_signed_txs(r2, n as nat) {
                None => None,
                Some((txs, r3)) => Some((BodyV { coinbase, transactions: txs }, r3)),
            },
        },
    }
}

/// Reads a whole header pre-image from the head of `s`.
pub open spec fn spec_deser_header_core(s: Seq<u8>) -> Option<(HeaderCoreV, Seq<u8>)> {
    match crate::codec::spec_deser_u64(s) {
        None => None,
        Some((nonce, r1)) => if r1.len() < 64 {
            None
        } else {
            match crate::codec::spec_deser_u32(r1.skip(64)) {
                None => None,
                Some((height, r2)) => if r2.len() < 32 {
                    None
                } else {
                    Some(
                        (
                            HeaderCoreV {
                                nonce,
                                difficulty: r1.take(32),
                                previous_block_hash: r1.subrange(32, 64),
                                height,
                                body_hash: r2.take(32),
                            },
                            r2.skip(32),
                        ),
                    )
                },
            }
        },
    }
}

/// Reading back a serialized run of transactions returns them.
#[verifier::rlimit(100)]
#[verifier::spinoff_prover]
pub proof fn lemma_signed_txs_round_trip(vs: Seq<SignedTxV>, rest: Seq<u8>)
    requires
        forall|i: int|
            0 <= i < vs.len() ==> crate::transaction::spec_signed_tx_v_wf(#[trigger] vs[i]),
    ensures
        spec_deser_signed_txs(spec_ser_signed_txs(vs) + rest, vs.len()) == Some((vs, rest)),
    decreases vs.len(),
{
    if vs.len() == 0 {
        assert(spec_ser_signed_txs(vs) + rest =~= rest);
    } else {
        let tail = vs.drop_first();
        assert forall|i: int|
            0 <= i < tail.len() implies crate::transaction::spec_signed_tx_v_wf(
            #[trigger] tail[i],
        ) by {
            assert(tail[i] == vs[i + 1]);
        }
        lemma_signed_txs_round_trip(tail, rest);
        let head_bytes = spec_ser_signed_tx(vs[0]);
        let tail_bytes = spec_ser_signed_txs(tail);
        assert(spec_ser_signed_txs(vs) == head_bytes + tail_bytes);
        assert((head_bytes + tail_bytes) + rest =~= head_bytes + (tail_bytes + rest));
        crate::transaction::lemma_signed_tx_round_trip(vs[0], tail_bytes + rest);
        assert(seq![vs[0]] + tail =~= vs);
    }
}

/// The codec round trip for bodies: reading back a serialized body returns
/// it, whatever bytes follow.
#[verifier::rlimit(30)]
pub proof fn lemma_body_round_trip(b: BodyV, rest: Seq<u8>)
    requires
        spec_body_v_wf(b),
    ensures
        spec_deser_body(spec_ser_body(b) + rest) == Some((b, rest)),
{
    let txs = spec_ser_signed_txs(b.transactions);
    let after_coinbase = spec_u64_be(b.transactions.len() as u64) + (txs + rest);
    assert(spec_ser_body(b) + rest =~= spec_ser_tx_out(b.coinbase) + after_coinbase);
    crate::transaction::lemma_tx_out_round_trip(b.coinbase, after_coinbase);
    crate::codec::lemma_u64_round_trip(b.transactions.len() as u64, txs + rest);
    lemma_signed_txs_round_trip(b.transactions, rest);
}

/// The codec round trip for header pre-images: reading back a serialized
/// pre-image returns it, whatever bytes follow. Together with
/// [`lemma_ser_header_core_injective`] this is what makes the layout a
/// codec and not merely a fingerprint.
#[verifier::rlimit(30)]
pub proof fn lemma_header_core_round_trip(h: HeaderCoreV, rest: Seq<u8>)
    requires
        h.wf(),
    ensures
        spec_deser_header_core(spec_ser_header_core(h) + rest) == Some((h, rest)),
{
    let after_nonce = h.difficulty + (h.previous_block_hash + (spec_u32_be(h.height) + (
    h.body_hash + rest)));
    assert(spec_ser_header_core(h) + rest =~= spec_u64_be(h.nonce) + after_nonce);
    crate::codec::lemma_u64_round_trip(h.nonce, after_nonce);
    assert(after_nonce.take(32) =~= h.difficulty);
    assert(after_nonce.subrange(32, 64) =~= h.previous_block_hash);
    assert(after_nonce.skip(64) =~= spec_u32_be(h.height) + (h.body_hash + rest));
    crate::codec::lemma_u32_round_trip(h.height, h.body_hash + rest);
    let r2 = h.body_hash + rest;
    assert(r2.take(32) =~= h.body_hash);
    assert(r2.skip(32) =~= rest);
}

} // verus!
