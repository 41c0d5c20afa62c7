//! UTXO-style transactions: outputs payable to an address, inputs that
//! reference earlier outputs and carry a signature over the unsigned form of
//! the transaction, fee computation, and per-transaction validation against
//! a UTXO lookup.

use vstd::prelude::*;
use crate::codec::{spec_u32_be, spec_u64_be, push_u32_be, push_u64_be, push_bytes};
use crate::crypto::{PubKey, Signature, KeyPair, sha256_of, sign_of, pub_key_of, ed25519_verifies,
    hash, bytes_equal};
use crate::Error;

verus! {

/// An address: the SHA-256 digest of the receiving public key.
pub struct Address(pub crate::crypto::Hash);

impl View for Address {
    type V = Seq<u8>;

    open spec fn view(&self) -> Seq<u8> {
        self.0@
    }
}

impl Address {
    /// Length of a well-formed address.
    pub open spec fn wf(&self) -> bool {
        self.0.wf()
    }

    /// Derives the address that a public key pays into.
    pub fn from_pub_key(pub_key: &PubKey) -> (a: Address)
        ensures
            a@ == sha256_of(pub_key@),
            a.wf(),
    {
        Address(hash(pub_key.as_bytes()))
    }
}

impl Clone for Address {
    fn clone(&self) -> (r: Self)
        ensures
            r@ == self@,
    {
        Address(self.0.clone())
    }
}

impl PartialEq for Address {
    fn eq(&self, other: &Address) -> (r: bool) {
        bytes_equal(self.0.bytes.as_slice(), other.0.bytes.as_slice())
    }
}

impl vstd::std_specs::cmp::PartialEqSpecImpl for Address {
    open spec fn obeys_eq_spec() -> bool {
        true
    }

    open spec fn eq_spec(&self, other: &Address) -> bool {
        self.0.bytes@ == other.0.bytes@
    }
}

/// The mathematical value of a [`TxOut`].
pub struct TxOutV {
    pub amount: u32,
    pub to_address: Seq<u8>,
}

/// An output: an amount payable to an address. Immutable once created.
pub struct TxOut {
    pub amount: u32,
    pub to_address: Address,
}

impl View for TxOut {
    type V = TxOutV;

    open spec fn view(&self) -> TxOutV {
        TxOutV { amount: self.amount, to_address: self.to_address@ }
    }
}

impl TxOut {
    /// Length of the address of a well-formed output.
    pub open spec fn wf(&self) -> bool {
        self.to_address.wf()
    }

    pub fn new(amount: u32, to_address: Address) -> (t: TxOut)
        ensures
            t@.amount == amount,
            t@.to_address == to_address@,
            to_address.wf() ==> t.wf(),
    {
        TxOut { amount, to_address }
    }

    pub fn amount(&self) -> (r: &u32)
        ensures
            *r == self@.amount,
    {
        &self.amount
    }

    pub fn to_address(&self) -> (r: &Address)
        ensures
            r@ == self@.to_address,
    {
        &self.to_address
    }
}

impl Clone for TxOut {
    fn clone(&self) -> (r: Self)
        ensures
            r@ == self@,
    {
        TxOut { amount: self.amount, to_address: self.to_address.clone() }
    }
}

/// The mathematical value of a [`RawTxIn`].
pub struct RawTxInV {
    pub prev_tx_hash: Seq<u8>,
    pub prev_tx_output_index: u8,
}

/// An unsigned input: a reference to the unspent output it consumes.
pub struct RawTxIn {
    pub prev_tx_hash: crate::crypto::Hash,
    pub prev_tx_output_index: u8,
}

impl View for RawTxIn {
    type V = RawTxInV;

    open spec fn view(&self) -> RawTxInV {
        RawTxInV {
            prev_tx_hash: self.prev_tx_hash@,
            prev_tx_output_index: self.prev_tx_output_index,
        }
    }
}

impl RawTxIn {
    /// Length of the referenced hash of a well-formed input.
    pub open spec fn wf(&self) -> bool {
        self.prev_tx_hash.wf()
    }
}

impl Clone for RawTxIn {
    fn clone(&self) -> (r: Self)
        ensures
            r@ == self@,
    {
        RawTxIn {
            prev_tx_hash: self.prev_tx_hash.clone(),
            prev_tx_output_index: self.prev_tx_output_index,
        }
    }
}

/// The mathematical value of a [`SignedTxIn`].
pub struct SignedTxInV {
    pub prev_tx_hash: Seq<u8>,
    pub prev_tx_output_index: u8,
    pub tx_signature: Seq<u8>,
    pub sig_public_key: Seq<u8>,
}

impl SignedTxInV {
    /// The input with the signature and public key stripped.
    pub open spec fn unsigned(self) -> RawTxInV {
        RawTxInV {
            prev_tx_hash: self.prev_tx_hash,
            prev_tx_output_index: self.prev_tx_output_index,
        }
    }
}

/// A signed input: the output reference plus the signature over the unsigned
/// transaction and the public key that made it.
pub struct SignedTxIn {
    pub prev_tx_hash: crate::crypto::Hash,
    pub prev_tx_output_index: u8,
    pub tx_signature: Signature,
    pub sig_public_key: PubKey,
}

impl View for SignedTxIn {
    type V = SignedTxInV;

    open spec fn view(&self) -> SignedTxInV {
        SignedTxInV {
            prev_tx_hash: self.prev_tx_hash@,
            prev_tx_output_index: self.prev_tx_output_index,
            tx_signature: self.tx_signature@,
            sig_public_key: self.sig_public_key@,
        }
    }
}

impl SignedTxIn {
    /// Lengths of the parts of a well-formed signed input.
    pub open spec fn wf(&self) -> bool {
        self.prev_tx_hash.wf() && self.tx_signature.wf() && self.sig_public_key.wf()
    }

    pub fn new(
        prev_tx_hash: crate::crypto::Hash,
        prev_tx_output_index: u8,
        tx_signature: Signature,
        sig_public_key: PubKey,
    ) -> (r: SignedTxIn)
        ensures
            r@ == (SignedTxInV {
                prev_tx_hash: prev_tx_hash@,
                prev_tx_output_index,
                tx_signature: tx_signature@,
                sig_public_key: sig_public_key@,
            }),
    {
        SignedTxIn { prev_tx_hash, prev_tx_output_index, tx_signature, sig_public_key }
    }

    /// The unsigned form: the output reference alone, in place.
    pub fn clone_without_signature(&self) -> (r: RawTxIn)
        ensures
            r@ == self@.unsigned(),
    {
        RawTxIn {
            prev_tx_hash: self.prev_tx_hash.clone(),
            prev_tx_output_index: self.prev_tx_output_index,
        }
    }
}

impl Clone for SignedTxIn {
    fn clone(&self) -> (r: Self)
        ensures
            r@ == self@,
    {
        SignedTxIn {
            prev_tx_hash: self.prev_tx_hash.clone(),
            prev_tx_output_index: self.prev_tx_output_index,
            tx_signature: self.tx_signature.clone(),
            sig_public_key: self.sig_public_key.clone(),
        }
    }
}

/// The mathematical value of a [`RawTx`].
pub struct RawTxV {
    pub input: Seq<RawTxInV>,
    pub output: Seq<TxOutV>,
}

/// An unsigned transaction: ordered inputs and outputs.
pub struct RawTx {
    pub input: Vec<RawTxIn>,
    pub output: Vec<TxOut>,
}

impl View for RawTx {
    type V = RawTxV;

    open spec fn view(&self) -> RawTxV {
        RawTxV {
            input: self.input@.map_values(|i: RawTxIn| i@),
            output: self.output@.map_values(|o: TxOut| o@),
        }
    }
}

impl RawTx {
    /// Well-formedness of every part.
    pub open spec fn wf(&self) -> bool {
        (forall|i: int| 0 <= i < self.input@.len() ==> self.input@[i].wf())
            && (forall|i: int| 0 <= i < self.output@.len() ==> self.output@[i].wf())
    }
}

/// The mathematical value of a [`SignedTx`].
pub struct SignedTxV {
    pub input: Seq<SignedTxInV>,
    pub output: Seq<TxOutV>,
}

impl SignedTxV {
    /// The transaction with every input's signature stripped: the form whose
    /// serialization every signature covers.
    pub open spec fn unsigned(self) -> RawTxV {
        RawTxV { input: self.input.map_values(|i: SignedTxInV| i.unsigned()), output: self.output }
    }
}

/// A signed transaction: one signature per input, each over the
/// serialization of the unsigned form.
pub struct SignedTx {
    pub input: Vec<SignedTxIn>,
    pub output: Vec<TxOut>,
}

impl View for SignedTx {
    type V = SignedTxV;

    open spec fn view(&self) -> SignedTxV {
        SignedTxV {
            input: self.input@.map_values(|i: SignedTxIn| i@),
            output: self.output@.map_values(|o: TxOut| o@),
        }
    }
}

/// A coinbase transaction: the block reward, a single output and no inputs.
pub struct CoinbaseTx(pub TxOut);

impl View for CoinbaseTx {
    type V = TxOutV;

    open spec fn view(&self) -> TxOutV {
        self.0@
    }
}

impl CoinbaseTx {
    /// Length of the address of a well-formed coinbase.
    pub open spec fn wf(&self) -> bool {
        self.0.wf()
    }
}

impl Clone for CoinbaseTx {
    fn clone(&self) -> (r: Self)
        ensures
            r@ == self@,
    {
        CoinbaseTx(self.0.clone())
    }
}

// ---------------------------------------------------------------------------
// Serialization: the layout of every pre-image that is hashed or signed.
// ---------------------------------------------------------------------------

/// `amount(4 BE) || to_address(32)`.
pub open spec fn spec_ser_tx_out(t: TxOutV) -> Seq<u8> {
    spec_u32_be(t.amount) + t.to_address
}

/// `prev_tx_hash(32) || prev_tx_output_index(1)`.
pub open spec fn spec_ser_raw_tx_in(t: RawTxInV) -> Seq<u8> {
    t.prev_tx_hash + seq![t.prev_tx_output_index]
}

/// `prev_tx_hash(32) || prev_tx_output_index(1) || signature(64) || public key(32)`.
pub open spec fn spec_ser_signed_tx_in(t: SignedTxInV) -> Seq<u8> {
    t.prev_tx_hash + seq![t.prev_tx_output_index] + t.tx_signature + t.sig_public_key
}

/// The concatenation of the serializations of a sequence of outputs.
pub open spec fn spec_ser_tx_outs(s: Seq<TxOutV>) -> Seq<u8>
    decreases s.len(),
{
    if s.len() == 0 {
        Seq::empty()
    } else {
        spec_ser_tx_out(s[0]) + spec_ser_tx_outs(s.drop_first())
    }
}

/// The concatenation of the serializations of a sequence of unsigned inputs.
pub open spec fn spec_ser_raw_tx_ins(s: Seq<RawTxInV>) -> Seq<u8>
    decreases s.len(),
{
    if s.len() == 0 {
        Seq::empty()
    } else {
        spec_ser_raw_tx_in(s[0]) + spec_ser_raw_tx_ins(s.drop_first())
    }
}

/// The concatenation of the serializations of a sequence of signed inputs.
pub open spec fn spec_ser_signed_tx_ins(s: Seq<SignedTxInV>) -> Seq<u8>
    decreases s.len(),
{
    if s.len() == 0 {
        Seq::empty()
    } else {
        spec_ser_signed_tx_in(s[0]) + spec_ser_signed_tx_ins(s.drop_first())
    }
}

/// Adding one output to the end appends its serialization.
pub proof fn lemma_ser_tx_outs_push(s: Seq<TxOutV>, x: TxOutV)
    ensures
        spec_ser_tx_outs(s.push(x)) == spec_ser_tx_outs(s) + spec_ser_tx_out(x),
    decreases s.len(),
{
    if s.len() == 0 {
        assert(s.push(x).drop_first() =~= s);
        assert(spec_ser_tx_outs(s.push(x)) =~= spec_ser_tx_outs(s) + spec_ser_tx_out(x));
    } else {
        lemma_ser_tx_outs_push(s.drop_first(), x);
        assert(s.push(x).drop_first() =~= s.drop_first().push(x));
        assert(spec_ser_tx_outs(s.push(x)) =~= spec_ser_tx_outs(s) + spec_ser_tx_out(x));
    }
}

/// Adding one unsigned input to the end appends its serialization.
pub proof fn lemma_ser_raw_tx_ins_push(s: Seq<RawTxInV>, x: RawTxInV)
    ensures
        spec_ser_raw_tx_ins(s.push(x)) == spec_ser_raw_tx_ins(s) + spec_ser_raw_tx_in(x),
    decreases s.len(),
{
    if s.len() == 0 {
        assert(s.push(x).drop_first() =~= s);
        assert(spec_ser_raw_tx_ins(s.push(x)) =~= spec_ser_raw_tx_ins(s) + spec_ser_raw_tx_in(x));
    } else {
        lemma_ser_raw_tx_ins_push(s.drop_first(), x);
        assert(s.push(x).drop_first() =~= s.drop_first().push(x));
        assert(spec_ser_raw_tx_ins(s.push(x)) =~= spec_ser_raw_tx_ins(s) + spec_ser_raw_tx_in(x));
    }
}

/// Adding one signed input to the end appends its serialization.
pub proof fn lemma_ser_signed_tx_ins_push(s: Seq<SignedTxInV>, x: SignedTxInV)
    ensures
        spec_ser_signed_tx_ins(s.push(x)) == spec_ser_signed_tx_ins(s) + spec_ser_signed_tx_in(x),
    decreases s.len(),
{
    if s.len() == 0 {
        assert(s.push(x).drop_first() =~= s);
        assert(spec_ser_signed_tx_ins(s.push(x)) =~= spec_ser_signed_tx_ins(s)
            + spec_ser_signed_tx_in(x));
    } else {
        lemma_ser_signed_tx_ins_push(s.drop_first(), x);
        assert(s.push(x).drop_first() =~= s.drop_first().push(x));
        assert(spec_ser_signed_tx_ins(s.push(x)) =~= spec_ser_signed_tx_ins(s)
            + spec_ser_signed_tx_in(x));
    }
}

/// `input count || inputs || output count || outputs`: the signature
/// pre-image of a transaction.
pub open spec fn spec_ser_raw_tx(t: RawTxV) -> Seq<u8> {
    spec_u64_be(t.input.len() as u64) + spec_ser_raw_tx_ins(t.input) + spec_u64_be(
        t.output.len() as u64,
    ) + spec_ser_tx_outs(t.output)
}

/// `input count || inputs || output count || outputs`, with signed inputs.
pub open spec fn spec_ser_signed_tx(t: SignedTxV) -> Seq<u8> {
    spec_u64_be(t.input.len() as u64) + spec_ser_signed_tx_ins(t.input) + spec_u64_be(
        t.output.len() as u64,
    ) + spec_ser_tx_outs(t.output)
}

impl TxOut {
    /// Appends this output's serialization to `out`.
    pub fn serialize_into(&self, out: &mut Vec<u8>)
        ensures
            final(out)@ == old(out)@ + spec_ser_tx_out(self@),
    {
        push_u32_be(out, self.amount);
        push_bytes(out, &self.to_address.0.bytes);
        assert(out@ =~= old(out)@ + spec_ser_tx_out(self@));
    }
}

impl RawTxIn {
    /// Appends this input's serialization to `out`.
    pub fn serialize_into(&self, out: &mut Vec<u8>)
        ensures
            final(out)@ == old(out)@ + spec_ser_raw_tx_in(self@),
    {
        push_bytes(out, &self.prev_tx_hash.bytes);
        out.push(self.prev_tx_output_index);
        assert(out@ =~= old(out)@ + spec_ser_raw_tx_in(self@));
    }
}

impl SignedTxIn {
    /// Appends this input's serialization to `out`.
    pub fn serialize_into(&self, out: &mut Vec<u8>)
        ensures
            final(out)@ == old(out)@ + spec_ser_signed_tx_in(self@),
    {
        push_bytes(out, &self.prev_tx_hash.bytes);
        out.push(self.prev_tx_output_index);
        push_bytes(out, &self.tx_signature.bytes);
        push_bytes(out, &self.sig_public_key.bytes);
        assert(out@ =~= old(out)@ + spec_ser_signed_tx_in(self@));
    }
}

/// Appends the count and the serializations of a sequence of outputs.
pub fn serialize_tx_outs_into(items: &Vec<TxOut>, out: &mut Vec<u8>)
    ensures
        final(out)@ == old(out)@ + spec_u64_be(items@.len() as u64) + spec_ser_tx_outs(
            items@.map_values(|o: TxOut| o@),
        ),
{
    let ghost view_seq = items@.map_values(|o: TxOut| o@);
    push_u64_be(out, items.len() as u64);
    let len = items.len();
    let mut i: usize = 0;
    while i < len
        invariant
            len == items@.len(),
            i <= len,
            view_seq == items@.map_values(|o: TxOut| o@),
            out@ == old(out)@ + spec_u64_be(items@.len() as u64) + spec_ser_tx_outs(
                view_seq.take(i as int),
            ),
        decreases len - i,
    {
        items[i].serialize_into(out);
        proof {
            lemma_ser_tx_outs_push(view_seq.take(i as int), view_seq[i as int]);
            assert(view_seq.take(i as int).push(view_seq[i as int]) =~= view_seq.take(i + 1));
            assert(out@ =~= old(out)@ + spec_u64_be(items@.len() as u64) + spec_ser_tx_outs(
                view_seq.take(i + 1),
            ));
        }
        i = i + 1;
    }
    proof {
        assert(view_seq.take(len as int) =~= view_seq);
    }
}

/// Appends the count and the serializations of a sequence of unsigned inputs.
pub fn serialize_raw_tx_ins_into(items: &Vec<RawTxIn>, out: &mut Vec<u8>)
    ensures
        final(out)@ == old(out)@ + spec_u64_be(items@.len() as u64) + spec_ser_raw_tx_ins(
            items@.map_values(|t: RawTxIn| t@),
        ),
{
    let ghost view_seq = items@.map_values(|t: RawTxIn| t@);
    push_u64_be(out, items.len() as u64);
    let len = items.len();
    let mut i: usize = 0;
    while i < len
        invariant
            len == items@.len(),
            i <= len,
            view_seq == items@.map_values(|t: RawTxIn| t@),
            out@ == old(out)@ + spec_u64_be(items@.len() as u64) + spec_ser_raw_tx_ins(
                view_seq.take(i as int),
            ),
        decreases len - i,
    {
        items[i].serialize_into(out);
        proof {
            lemma_ser_raw_tx_ins_push(view_seq.take(i as int), view_seq[i as int]);
            assert(view_seq.take(i as int).push(view_seq[i as int]) =~= view_seq.take(i + 1));
            assert(out@ =~= old(out)@ + spec_u64_be(items@.len() as u64) + spec_ser_raw_tx_ins(
                view_seq.take(i + 1),
            ));
        }
        i = i + 1;
    }
    proof {
        assert(view_seq.take(len as int) =~= view_seq);
    }
}

/// Appends the count and the serializations of a sequence of signed inputs.
pub fn serialize_signed_tx_ins_into(items: &Vec<SignedTxIn>, out: &mut Vec<u8>)
    ensures
        final(out)@ == old(out)@ + spec_u64_be(items@.len() as u64) + spec_ser_signed_tx_ins(
            items@.map_values(|t: SignedTxIn| t@),
        ),
{
    let ghost view_seq = items@.map_values(|t: SignedTxIn| t@);
    push_u64_be(out, items.len() as u64);
    let len = items.len();
    let mut i: usize = 0;
    while i < len
        invariant
            len == items@.len(),
            i <= len,
            view_seq == items@.map_values(|t: SignedTxIn| t@),
            out@ == old(out)@ + spec_u64_be(items@.len() as u64) + spec_ser_signed_tx_ins(
                view_seq.take(i as int),
            ),
        decreases len - i,
    {
        items[i].serialize_into(out);
        proof {
            lemma_ser_signed_tx_ins_push(view_seq.take(i as int), view_seq[i as int]);
            assert(view_seq.take(i as int).push(view_seq[i as int]) =~= view_seq.take(i + 1));
            assert(out@ =~= old(out)@ + spec_u64_be(items@.len() as u64) + spec_ser_signed_tx_ins(
                view_seq.take(i + 1),
            ));
        }
        i = i + 1;
    }
    proof {
        assert(view_seq.take(len as int) =~= view_seq);
    }
}

impl RawTx {
    /// The deterministic serialization: the pre-image every input signs.
    pub fn serialize(&self) -> (r: Vec<u8>)
        ensures
            r@ == spec_ser_raw_tx(self@),
    {
        let mut out: Vec<u8> = Vec::new();
        serialize_raw_tx_ins_into(&self.input, &mut out);
        serialize_tx_outs_into(&self.output, &mut out);
        assert(out@ =~= spec_ser_raw_tx(self@));
        out
    }
}

impl SignedTx {
    /// Appends this transaction's serialization to `out`.
    pub fn serialize_into(&self, out: &mut Vec<u8>)
        ensures
            final(out)@ == old(out)@ + spec_ser_signed_tx(self@),
    {
        serialize_signed_tx_ins_into(&self.input, out);
        serialize_tx_outs_into(&self.output, out);
        assert(out@ =~= old(out)@ + spec_ser_signed_tx(self@));
    }
}


// ---------------------------------------------------------------------------
// Validation against a UTXO lookup.
// ---------------------------------------------------------------------------

/// The capability transaction validation expects: a lookup from an output
/// reference `(tx_hash, output_index)` to the output it names, if any.
pub trait UtxoStore {
    /// What the store holds at a reference, as a mathematical value.
    spec fn spec_find(&self, tx_hash: Seq<u8>, txo_index: u8) -> Option<TxOutV>;

    /// Looks the reference up; the result is exactly what the store holds.
    fn find(&self, transaction_hash: &crate::crypto::Hash, txo_index: &u8) -> (r: Option<TxOut>)
        ensures
            match r {
                Some(t) => self.spec_find(transaction_hash@, *txo_index) == Some(t@),
                None => self.spec_find(transaction_hash@, *txo_index) is None,
            },
    ;
}

/// A store that holds nothing; a block of an empty chain validates against it.
pub struct EmptyUtxoStore;

impl UtxoStore for EmptyUtxoStore {
    open spec fn spec_find(&self, tx_hash: Seq<u8>, txo_index: u8) -> Option<TxOutV> {
        None
    }

    fn find(&self, transaction_hash: &crate::crypto::Hash, txo_index: &u8) -> (r: Option<TxOut>) {
        None
    }
}

/// A store that answers every reference with its single entry.
pub struct SingleEntryUtxoStore(pub TxOut);

impl UtxoStore for SingleEntryUtxoStore {
    open spec fn spec_find(&self, tx_hash: Seq<u8>, txo_index: u8) -> Option<TxOutV> {
        Some(self.0@)
    }

    fn find(&self, transaction_hash: &crate::crypto::Hash, txo_index: &u8) -> (r: Option<TxOut>) {
        Some(self.0.clone())
    }
}

/// Whether every input's referenced output is in the store.
pub open spec fn spec_inputs_found<S: UtxoStore>(store: &S, inputs: Seq<SignedTxInV>) -> bool {
    forall|i: int|
        0 <= i < inputs.len() ==> store.spec_find(
            #[trigger] inputs[i].prev_tx_hash,
            inputs[i].prev_tx_output_index,
        ) is Some
}

/// The output an input consumes, where the store holds one.
pub open spec fn spec_referenced<S: UtxoStore>(store: &S, input: SignedTxInV) -> TxOutV {
    store.spec_find(input.prev_tx_hash, input.prev_tx_output_index)->Some_0
}

/// The sum of the amounts an input sequence consumes, unbounded.
pub open spec fn spec_in_sum<S: UtxoStore>(store: &S, inputs: Seq<SignedTxInV>) -> int
    decreases inputs.len(),
{
    if inputs.len() == 0 {
        0
    } else {
        spec_referenced(store, inputs[0]).amount + spec_in_sum(store, inputs.drop_first())
    }
}

/// The sum of the amounts an output sequence pays, unbounded.
pub open spec fn spec_out_sum(outputs: Seq<TxOutV>) -> int
    decreases outputs.len(),
{
    if outputs.len() == 0 {
        0
    } else {
        outputs[0].amount + spec_out_sum(outputs.drop_first())
    }
}

/// Adding one input to the end adds its referenced amount.
pub proof fn lemma_in_sum_push<S: UtxoStore>(store: &S, s: Seq<SignedTxInV>, x: SignedTxInV)
    ensures
        spec_in_sum(store, s.push(x)) == spec_in_sum(store, s) + spec_referenced(store, x).amount,
    decreases s.len(),
{
    if s.len() == 0 {
        assert(s.push(x).drop_first() =~= s);
    } else {
        lemma_in_sum_push(store, s.drop_first(), x);
        assert(s.push(x).drop_first() =~= s.drop_first().push(x));
    }
}

/// Adding one output to the end adds its amount.
pub proof fn lemma_out_sum_push(s: Seq<TxOutV>, x: TxOutV)
    ensures
        spec_out_sum(s.push(x)) == spec_out_sum(s) + x.amount,
    decreases s.len(),
{
    if s.len() == 0 {
        assert(s.push(x).drop_first() =~= s);
    } else {
        lemma_out_sum_push(s.drop_first(), x);
        assert(s.push(x).drop_first() =~= s.drop_first().push(x));
    }
}

/// An amount sum never goes below zero, and a prefix never exceeds the whole.
pub proof fn lemma_in_sum_take_bound<S: UtxoStore>(store: &S, s: Seq<SignedTxInV>, i: int)
    requires
        0 <= i <= s.len(),
    ensures
        0 <= spec_in_sum(store, s.take(i)) <= spec_in_sum(store, s),
    decreases s.len(),
{
    lemma_in_sum_nonneg(store, s.take(i));
    lemma_in_sum_split(store, s, i);
    lemma_in_sum_nonneg(store, s.skip(i));
}

/// An amount sum is nonnegative.
pub proof fn lemma_in_sum_nonneg<S: UtxoStore>(store: &S, s: Seq<SignedTxInV>)
    ensures
        spec_in_sum(store, s) >= 0,
    decreases s.len(),
{
    if s.len() > 0 {
        lemma_in_sum_nonneg(store, s.drop_first());
    }
}

/// An amount sum splits at any point.
pub proof fn lemma_in_sum_split<S: UtxoStore>(store: &S, s: Seq<SignedTxInV>, i: int)
    requires
        0 <= i <= s.len(),
    ensures
        spec_in_sum(store, s) == spec_in_sum(store, s.take(i)) + spec_in_sum(store, s.skip(i)),
    decreases i,
{
    if i == 0 {
        assert(s.take(0).len() == 0);
        assert(s.skip(0) =~= s);
    } else {
        lemma_in_sum_split(store, s.drop_first(), i - 1);
        assert(s.take(i).drop_first() =~= s.drop_first().take(i - 1));
        assert(s.drop_first().skip(i - 1) =~= s.skip(i));
        assert(s.take(i)[0] == s[0]);
    }
}

/// An output sum is nonnegative.
pub proof fn lemma_out_sum_nonneg(s: Seq<TxOutV>)
    ensures
        spec_out_sum(s) >= 0,
    decreases s.len(),
{
    if s.len() > 0 {
        lemma_out_sum_nonneg(s.drop_first());
    }
}

/// An output sum splits at any point.
pub proof fn lemma_out_sum_split(s: Seq<TxOutV>, i: int)
    requires
        0 <= i <= s.len(),
    ensures
        spec_out_sum(s) == spec_out_sum(s.take(i)) + spec_out_sum(s.skip(i)),
    decreases i,
{
    if i == 0 {
        assert(s.take(0).len() == 0);
        assert(s.skip(0) =~= s);
    } else {
        lemma_out_sum_split(s.drop_first(), i - 1);
        assert(s.take(i).drop_first() =~= s.drop_first().take(i - 1));
        assert(s.drop_first().skip(i - 1) =~= s.skip(i));
        assert(s.take(i)[0] == s[0]);
    }
}

/// Whether an input's signer pays into the address its referenced output
/// names.
pub open spec fn spec_addr_ok<S: UtxoStore>(store: &S, input: SignedTxInV) -> bool {
    sha256_of(input.sig_public_key) == spec_referenced(store, input).to_address
}

/// Whether an input's signature is valid over the message `msg`.
pub open spec fn spec_sig_ok(msg: Seq<u8>, input: SignedTxInV) -> bool {
    ed25519_verifies(input.sig_public_key, msg, input.tx_signature)
}

/// Whether an input passes both per-input checks.
pub open spec fn spec_input_ok<S: UtxoStore>(store: &S, msg: Seq<u8>, input: SignedTxInV) -> bool {
    spec_addr_ok(store, input) && spec_sig_ok(msg, input)
}

/// The first input failing a per-input check; the length when all pass.
pub open spec fn spec_first_bad_input<S: UtxoStore>(
    store: &S,
    msg: Seq<u8>,
    inputs: Seq<SignedTxInV>,
) -> int
    decreases inputs.len(),
{
    if inputs.len() == 0 {
        0
    } else if !spec_input_ok(store, msg, inputs[0]) {
        0
    } else {
        1 + spec_first_bad_input(store, msg, inputs.drop_first())
    }
}

/// A failing input preceded only by passing ones is the first failing one.
pub proof fn lemma_first_bad_at<S: UtxoStore>(
    store: &S,
    msg: Seq<u8>,
    inputs: Seq<SignedTxInV>,
    i: int,
)
    requires
        0 <= i < inputs.len(),
        forall|j: int| 0 <= j < i ==> spec_input_ok(store, msg, #[trigger] inputs[j]),
        !spec_input_ok(store, msg, inputs[i]),
    ensures
        spec_first_bad_input(store, msg, inputs) == i,
    decreases i,
{
    if i > 0 {
        lemma_first_bad_at(store, msg, inputs.drop_first(), i - 1);
    }
}

/// When every input passes, there is no first failing one.
pub proof fn lemma_first_bad_none<S: UtxoStore>(store: &S, msg: Seq<u8>, inputs: Seq<SignedTxInV>)
    requires
        forall|j: int| 0 <= j < inputs.len() ==> spec_input_ok(store, msg, #[trigger] inputs[j]),
    ensures
        spec_first_bad_input(store, msg, inputs) == inputs.len(),
    decreases inputs.len(),
{
    if inputs.len() > 0 {
        lemma_first_bad_none(store, msg, inputs.drop_first());
    }
}

/// The verdict of transaction validation, in the order the checks run:
/// every input's referenced output must be found (`UtxoNotFound`); the
/// consumed and paid sums must fit in 32 bits and the inputs must cover the
/// outputs (`InvalidTxAmount`); then input by input, the signer's address
/// must match the referenced output (`InvalidAddress`) and the signature
/// must verify over the unsigned serialization (`CryptographyError`). The
/// fee is what the inputs consume beyond what the outputs pay.
pub open spec fn spec_tx_verdict<S: UtxoStore>(store: &S, tx: SignedTxV) -> Result<u32, Error> {
    let msg = spec_ser_raw_tx(tx.unsigned());
    let in_sum = spec_in_sum(store, tx.input);
    let out_sum = spec_out_sum(tx.output);
    if !spec_inputs_found(store, tx.input) {
        Err(Error::UtxoNotFound)
    } else if in_sum > u32::MAX || out_sum > u32::MAX || in_sum < out_sum {
        Err(Error::InvalidTxAmount)
    } else {
        let bad = spec_first_bad_input(store, msg, tx.input);
        if bad < tx.input.len() {
            if !spec_addr_ok(store, tx.input[bad]) {
                Err(Error::InvalidAddress)
            } else {
                Err(Error::CryptographyError)
            }
        } else {
            Ok((in_sum - out_sum) as u32)
        }
    }
}

impl SignedTxIn {
    /// Builds the signed input for `raw_tx_in`: `key_pair` signs the
    /// serialized unsigned transaction and leaves its public key beside the
    /// signature.
    fn from_raw_tx_in(raw_tx_in: RawTxIn, serialized_tx: &[u8], key_pair: &KeyPair) -> (r:
        SignedTxIn)
        ensures
            r@ == (SignedTxInV {
                prev_tx_hash: raw_tx_in@.prev_tx_hash,
                prev_tx_output_index: raw_tx_in@.prev_tx_output_index,
                tx_signature: sign_of(key_pair@, serialized_tx@),
                sig_public_key: pub_key_of(key_pair@),
            }),
            spec_sig_ok(serialized_tx@, r@),
    {
        let signature = key_pair.sign(serialized_tx);
        let pub_key = key_pair.pub_key();
        SignedTxIn {
            prev_tx_output_index: raw_tx_in.prev_tx_output_index,
            prev_tx_hash: raw_tx_in.prev_tx_hash,
            tx_signature: signature,
            sig_public_key: pub_key,
        }
    }

    /// Checks this input's signature over `tx_bytes`, mapping a failure to
    /// `Error::CryptographyError`.
    fn verify_signature(&self, tx_bytes: &[u8]) -> (r: Result<(), Error>)
        ensures
            r is Ok <==> spec_sig_ok(tx_bytes@, self@),
            r is Err ==> r == Err::<(), Error>(Error::CryptographyError),
    {
        match self.sig_public_key.verify_signature(tx_bytes, &self.tx_signature) {
            Ok(()) => Ok(()),
            Err(_) => Err(Error::CryptographyError),
        }
    }
}

impl SignedTx {
    /// Builds a signed transaction directly from its parts.
    pub fn new(input: Vec<SignedTxIn>, output: Vec<TxOut>) -> (r: SignedTx)
        ensures
            r@.input == input@.map_values(|i: SignedTxIn| i@),
            r@.output == output@.map_values(|o: TxOut| o@),
    {
        SignedTx { input, output }
    }

    /// Signs `raw_tx` with one key pair per input, in input order; the
    /// signatures cover the serialization of `raw_tx` itself. Fails with
    /// `InvalidNumberOfKeyPairs` exactly when the counts differ.
    pub fn from_raw_tx(raw_tx: RawTx, key_pairs: Vec<&KeyPair>) -> (r: Result<SignedTx, Error>)
        ensures
            r is Err <==> raw_tx@.input.len() != key_pairs@.len(),
            r is Err ==> r == Err::<SignedTx, Error>(Error::InvalidNumberOfKeyPairs),
            r matches Ok(stx) ==> {
                &&& stx@.output == raw_tx@.output
                &&& stx@.input.len() == raw_tx@.input.len()
                &&& forall|i: int|
                    0 <= i < raw_tx@.input.len() ==> #[trigger] stx@.input[i] == (SignedTxInV {
                        prev_tx_hash: raw_tx@.input[i].prev_tx_hash,
                        prev_tx_output_index: raw_tx@.input[i].prev_tx_output_index,
                        tx_signature: sign_of(key_pairs@[i]@, spec_ser_raw_tx(raw_tx@)),
                        sig_public_key: pub_key_of(key_pairs@[i]@),
                    })
                &&& stx@.unsigned() == raw_tx@
                &&& forall|i: int|
                    0 <= i < stx@.input.len() ==> spec_sig_ok(
                        spec_ser_raw_tx(stx@.unsigned()),
                        #[trigger] stx@.input[i],
                    )
            },
    {
        if raw_tx.input.len() != key_pairs.len() {
            return Err(Error::InvalidNumberOfKeyPairs);
        }
        let serialized = raw_tx.serialize();
        let n = raw_tx.input.len();
        let mut signed_input: Vec<SignedTxIn> = Vec::new();
        let mut i: usize = 0;
        while i < n
            invariant
                n == raw_tx.input@.len() == key_pairs@.len(),
                i <= n,
                serialized@ == spec_ser_raw_tx(raw_tx@),
                signed_input@.len() == i,
                forall|j: int|
                    0 <= j < i ==> #[trigger] signed_input@[j]@ == (SignedTxInV {
                        prev_tx_hash: raw_tx@.input[j].prev_tx_hash,
                        prev_tx_output_index: raw_tx@.input[j].prev_tx_output_index,
                        tx_signature: sign_of(key_pairs@[j]@, spec_ser_raw_tx(raw_tx@)),
                        sig_public_key: pub_key_of(key_pairs@[j]@),
                    }),
                forall|j: int|
                    0 <= j < i ==> spec_sig_ok(
                        spec_ser_raw_tx(raw_tx@),
                        #[trigger] signed_input@[j]@,
                    ),
            decreases n - i,
        {
            let raw_tx_in = raw_tx.input[i].clone();
            let signed_tx_in = SignedTxIn::from_raw_tx_in(
                raw_tx_in,
                serialized.as_slice(),
                key_pairs[i],
            );
            signed_input.push(signed_tx_in);
            i = i + 1;
        }
        let stx = SignedTx { input: signed_input, output: raw_tx.output };
        proof {
            assert(stx@.unsigned().input =~= raw_tx@.input);
            assert(stx@.unsigned() == raw_tx@);
        }
        Ok(stx)
    }

    /// The unsigned form: each input reduced to its output reference, the
    /// outputs untouched. Its serialization is what every signature covers.
    pub fn clone_without_signatures(&self) -> (r: RawTx)
        ensures
            r@ == self@.unsigned(),
    {
        let n = self.input.len();
        let mut input: Vec<RawTxIn> = Vec::new();
        let mut i: usize = 0;
        while i < n
            invariant
                n == self.input@.len(),
                input@.len() == i,
                i <= n,
                forall|j: int| 0 <= j < i ==> #[trigger] input@[j]@ == self@.input[j].unsigned(),
            decreases n - i,
        {
            input.push(self.input[i].clone_without_signature());
            i = i + 1;
        }
        let m = self.output.len();
        let mut output: Vec<TxOut> = Vec::new();
        let mut k: usize = 0;
        while k < m
            invariant
                m == self.output@.len(),
                output@.len() == k,
                k <= m,
                forall|j: int| 0 <= j < k ==> #[trigger] output@[j]@ == self@.output[j],
            decreases m - k,
        {
            output.push(self.output[k].clone());
            k = k + 1;
        }
        let r = RawTx { input, output };
        assert(r@.input =~= self@.unsigned().input);
        assert(r@.output =~= self@.unsigned().output);
        r
    }

    /// Validates this transaction against `utxo_store` and returns its fee,
    /// exactly as [`spec_tx_verdict`] describes.
    pub fn verify<S: UtxoStore>(&self, utxo_store: &S) -> (r: Result<u32, Error>)
        ensures
            r == spec_tx_verdict(utxo_store, self@),
    {
        let ghost txv = self@;
        let n = self.input.len();
        let mut prev_tx_outs: Vec<TxOut> = Vec::new();
        let mut i: usize = 0;
        while i < n
            invariant
                n == self.input@.len(),
                txv == self@,
                i <= n,
                prev_tx_outs@.len() == i,
                forall|j: int|
                    0 <= j < i ==> utxo_store.spec_find(
                        #[trigger] txv.input[j].prev_tx_hash,
                        txv.input[j].prev_tx_output_index,
                    ) == Some(prev_tx_outs@[j]@),
            decreases n - i,
        {
            match utxo_store.find(&self.input[i].prev_tx_hash, &self.input[i].prev_tx_output_index)
            {
                Some(prev_tx_out) => {
                    prev_tx_outs.push(prev_tx_out);
                },
                None => {
                    proof {
                        assert(txv.input[i as int] == self.input@[i as int]@);
                        assert(utxo_store.spec_find(
                            txv.input[i as int].prev_tx_hash,
                            txv.input[i as int].prev_tx_output_index,
                        ) is None);
                        assert(!spec_inputs_found(utxo_store, txv.input));
                    }
                    return Err(Error::UtxoNotFound);
                },
            }
            i = i + 1;
        }
        assert(spec_inputs_found(utxo_store, txv.input));

        let mut in_amount: u32 = 0;
        let mut k: usize = 0;
        while k < n
            invariant
                n == self.input@.len() == prev_tx_outs@.len(),
                txv == self@,
                k <= n,
                spec_inputs_found(utxo_store, txv.input),
                in_amount == spec_in_sum(utxo_store, txv.input.take(k as int)),
                forall|j: int|
                    0 <= j < n ==> utxo_store.spec_find(
                        #[trigger] txv.input[j].prev_tx_hash,
                        txv.input[j].prev_tx_output_index,
                    ) == Some(prev_tx_outs@[j]@),
            decreases n - k,
        {
            let amount = prev_tx_outs[k].amount;
            proof {
                lemma_in_sum_push(utxo_store, txv.input.take(k as int), txv.input[k as int]);
                assert(txv.input.take(k as int).push(txv.input[k as int]) =~= txv.input.take(
                    k + 1,
                ));
            }
            if amount > u32::MAX - in_amount {
                proof {
                    lemma_in_sum_take_bound(utxo_store, txv.input, k + 1);
                }
                return Err(Error::InvalidTxAmount);
            }
            in_amount = in_amount + amount;
            k = k + 1;
        }
        proof {
            assert(txv.input.take(n as int) =~= txv.input);
        }

        let m = self.output.len();
        let mut out_amount: u32 = 0;
        let mut k2: usize = 0;
        while k2 < m
            invariant
                m == self.output@.len(),
                txv == self@,
                k2 <= m,
                spec_inputs_found(utxo_store, txv.input),
                in_amount == spec_in_sum(utxo_store, txv.input),
                out_amount == spec_out_sum(txv.output.take(k2 as int)),
            decreases m - k2,
        {
            let amount = self.output[k2].amount;
            proof {
                lemma_out_sum_push(txv.output.take(k2 as int), txv.output[k2 as int]);
                assert(txv.output.take(k2 as int).push(txv.output[k2 as int]) =~= txv.output.take(
                    k2 + 1,
                ));
            }
            if amount > u32::MAX - out_amount {
                proof {
                    lemma_out_sum_take_bound(txv.output, k2 + 1);
                }
                return Err(Error::InvalidTxAmount);
            }
            out_amount = out_amount + amount;
            k2 = k2 + 1;
        }
        proof {
            assert(txv.output.take(m as int) =~= txv.output);
        }

        if in_amount < out_amount {
            return Err(Error::InvalidTxAmount);
        }
        let fees = in_amount - out_amount;

        let raw_next_tx = self.clone_without_signatures();
        let serialized = raw_next_tx.serialize();
        let ghost msg = spec_ser_raw_tx(txv.unsigned());

        let mut v: usize = 0;
        while v < n
            invariant
                n == self.input@.len() == prev_tx_outs@.len(),
                txv == self@,
                v <= n,
                serialized@ == msg,
                msg == spec_ser_raw_tx(txv.unsigned()),
                spec_inputs_found(utxo_store, txv.input),
                in_amount == spec_in_sum(utxo_store, txv.input),
                out_amount == spec_out_sum(txv.output),
                in_amount >= out_amount,
                fees == in_amount - out_amount,
                forall|j: int|
                    0 <= j < n ==> utxo_store.spec_find(
                        #[trigger] txv.input[j].prev_tx_hash,
                        txv.input[j].prev_tx_output_index,
                    ) == Some(prev_tx_outs@[j]@),
                forall|j: int|
                    0 <= j < v ==> spec_input_ok(utxo_store, msg, #[trigger] txv.input[j]),
            decreases n - v,
        {
            let address = Address::from_pub_key(&self.input[v].sig_public_key);
            if !(address == *prev_tx_outs[v].to_address()) {
                proof {
                    assert(!spec_addr_ok(utxo_store, txv.input[v as int]));
                    lemma_first_bad_at(utxo_store, msg, txv.input, v as int);
                }
                return Err(Error::InvalidAddress);
            }
            match self.input[v].verify_signature(serialized.as_slice()) {
                Ok(()) => {},
                Err(e) => {
                    proof {
                        assert(spec_addr_ok(utxo_store, txv.input[v as int]));
                        assert(!spec_sig_ok(msg, txv.input[v as int]));
                        lemma_first_bad_at(utxo_store, msg, txv.input, v as int);
                    }
                    return Err(e);
                },
            }
            v = v + 1;
        }
        proof {
            lemma_first_bad_none(utxo_store, msg, txv.input);
        }
        Ok(fees)
    }
}

/// A prefix of an output sum never exceeds the whole.
pub proof fn lemma_out_sum_take_bound(s: Seq<TxOutV>, i: int)
    requires
        0 <= i <= s.len(),
    ensures
        0 <= spec_out_sum(s.take(i)) <= spec_out_sum(s),
{
    lemma_out_sum_nonneg(s.take(i));
    lemma_out_sum_split(s, i);
    lemma_out_sum_nonneg(s.skip(i));
}


// ---------------------------------------------------------------------------
// Deserialization: the codec's round trip, at the specification level.
// Nothing in the running system parses these bytes back (chains travel as
// values), so the converse direction is stated as proved lemmas: reading a
// serialized record returns the record, with the bytes that follow
// untouched.
// ---------------------------------------------------------------------------

/// The length bounds under which an output can round-trip.
pub open spec fn spec_tx_out_v_wf(v: TxOutV) -> bool {
    v.to_address.len() == 32
}

/// The length bounds under which an unsigned input can round-trip.
pub open spec fn spec_raw_tx_in_v_wf(v: RawTxInV) -> bool {
    v.prev_tx_hash.len() == 32
}

/// The length bounds under which a signed input can round-trip.
pub open spec fn spec_signed_tx_in_v_wf(v: SignedTxInV) -> bool {
    v.prev_tx_hash.len() == 32 && v.tx_signature.len() == 64 && v.sig_public_key.len() == 32
}

/// The length bounds under which a signed transaction can round-trip.
pub open spec fn spec_signed_tx_v_wf(v: SignedTxV) -> bool {
    &&& forall|i: int| 0 <= i < v.input.len() ==> spec_signed_tx_in_v_wf(#[trigger] v.input[i])
    &&& forall|i: int| 0 <= i < v.output.len() ==> spec_tx_out_v_wf(#[trigger] v.output[i])
    &&& v.input.len() <= u64::MAX
    &&& v.output.len() <= u64::MAX
}

/// Reads one output from the head of `s`.
pub open spec fn spec_deser_tx_out(s: Seq<u8>) -> Option<(TxOutV, Seq<u8>)> {
    match crate::codec::spec_deser_u32(s) {
        None => None,
        Some((amount, r1)) => if r1.len() < 32 {
            None
        } else {
            Some((TxOutV { amount, to_address: r1.take(32) }, r1.skip(32)))
        },
    }
}

/// Reads one unsigned input from the head of `s`.
pub open spec fn spec_deser_raw_tx_in(s: Seq<u8>) -> Option<(RawTxInV, Seq<u8>)> {
    if s.len() < 33 {
        None
    } else {
        Some(
            (RawTxInV { prev_tx_hash: s.take(32), prev_tx_output_index: s[32] }, s.skip(33)),
        )
    }
}

/// Reads one signed input from the head of `s`.
pub open spec fn spec_deser_signed_tx_in(s: Seq<u8>) -> Option<(SignedTxInV, Seq<u8>)> {
    if s.len() < 129 {
        None
    } else {
        Some(
            (
                SignedTxInV {
                    prev_tx_hash: s.take(32),
                    prev_tx_output_index: s[32],
                    tx_signature: s.subrange(33, 97),
                    sig_public_key: s.subrange(97, 129),
                },
                s.skip(129),
            ),
        )
    }
}

/// Reads `n` outputs from the head of `s`.
pub open spec fn spec_deser_tx_outs(s: Seq<u8>, n: nat) -> Option<(Seq<TxOutV>, Seq<u8>)>
    decreases n,
{
    if n == 0 {
        Some((Seq::empty(), s))
    } else {
        match spec_deser_tx_out(s) {
            None => None,
            Some((v, r)) => match spec_deser_tx_outs(r, (n - 1) as nat) {
                None => None,
                Some((vs, r2)) => Some((seq![v] + vs, r2)),
            },
        }
    }
}

/// Reads `n` unsigned inputs from the head of `s`.
pub open spec fn spec_deser_raw_tx_ins(s: Seq<u8>, n: nat) -> Option<(Seq<RawTxInV>, Seq<u8>)>
    decreases n,
{
    if n == 0 {
        Some((Seq::empty(), s))
    } else {
        match spec_deser_raw_tx_in(s) {
            None => None,
            Some((v, r)) => match spec_deser_raw_tx_ins(r, (n - 1) as nat) {
                None => None,
                Some((vs, r2)) => Some((seq![v] + vs, r2)),
            },
        }
    }
}

/// Reads `n` signed inputs from the head of `s`.
pub open spec fn spec_deser_signed_tx_ins(s: Seq<u8>, n: nat) -> Option<(Seq<SignedTxInV>, Seq<u8>)>
    decreases n,
{
    if n == 0 {
        Some((Seq::empty(), s))
    } else {
        match spec_deser_signed_tx_in(s) {
            None => None,
            Some((v, r)) => match spec_deser_signed_tx_ins(r, (n - 1) as nat) {
                None => None,
                Some((vs, r2)) => Some((seq![v] + vs, r2)),
            },
        }
    }
}

/// Reads a whole unsigned transaction from the head of `s`.
pub open spec fn spec_deser_raw_tx(s: Seq<u8>) -> Option<(RawTxV, Seq<u8>)> {
    match crate::codec::spec_deser_u64(s) {
        None => None,
        Some((n_in, r1)) => match spec_deser_raw_tx_ins(r1, n_in as nat) {
            None => None,
            Some((ins, r2)) => match crate::codec::spec_deser_u64(r2) {
                None => None,
                Some((n_out, r3)) => match spec_deser_tx_outs(r3, n_out as nat) {
                    None => None,
                    Some((outs, r4)) => Some((RawTxV { input: ins, output: outs }, r4)),
                },
            },
        },
    }
}

/// Reads a whole signed transaction from the head of `s`.
pub open spec fn spec_deser_signed_tx(s: Seq<u8>) -> Option<(SignedTxV, Seq<u8>)> {
    match crate::codec::spec_deser_u64(s) {
        None => None,
        Some((n_in, r1)) => match spec_deser_signed_tx_ins(r1, n_in as nat) {
            None => None,
            Some((ins, r2)) => match crate::codec::spec_deser_u64(r2) {
                None => None,
                Some((n_out, r3)) => match spec_deser_tx_outs(r3, n_out as nat) {
                    None => None,
                    Some((outs, r4)) => Some((SignedTxV { input: ins, output: outs }, r4)),
                },
            },
        },
    }
}

/// Reading back a serialized output returns it.
pub proof fn lemma_tx_out_round_trip(v: TxOutV, rest: Seq<u8>)
    requires
        spec_tx_out_v_wf(v),
    ensures
        spec_deser_tx_out(spec_ser_tx_out(v) + rest) == Some((v, rest)),
{
    let s = spec_ser_tx_out(v) + rest;
    assert(s =~= spec_u32_be(v.amount) + (v.to_address + rest));
    crate::codec::lemma_u32_round_trip(v.amount, v.to_address + rest);
    let r1 = v.to_address + rest;
    assert(r1.take(32) =~= v.to_address);
    assert(r1.skip(32) =~= rest);
}

/// Reading back a serialized unsigned input returns it.
pub proof fn lemma_raw_tx_in_round_trip(v: RawTxInV, rest: Seq<u8>)
    requires
        spec_raw_tx_in_v_wf(v),
    ensures
        spec_deser_raw_tx_in(spec_ser_raw_tx_in(v) + rest) == Some((v, rest)),
{
    let s = spec_ser_raw_tx_in(v) + rest;
    assert(s.take(32) =~= v.prev_tx_hash);
    assert(s[32] == v.prev_tx_output_index);
    assert(s.skip(33) =~= rest);
}

/// Reading back a serialized signed input returns it.
pub proof fn lemma_signed_tx_in_round_trip(v: SignedTxInV, rest: Seq<u8>)
    requires
        spec_signed_tx_in_v_wf(v),
    ensures
        spec_deser_signed_tx_in(spec_ser_signed_tx_in(v) + rest) == Some((v, rest)),
{
    let s = spec_ser_signed_tx_in(v) + rest;
    assert(s.take(32) =~= v.prev_tx_hash);
    assert(s[32] == v.prev_tx_output_index);
    assert(s.subrange(33, 97) =~= v.tx_signature);
    assert(s.subrange(97, 129) =~= v.sig_public_key);
    assert(s.skip(129) =~= rest);
}

/// Reading back a serialized run of outputs returns them.
#[verifier::rlimit(30)]
pub proof fn lemma_tx_outs_round_trip(vs: Seq<TxOutV>, rest: Seq<u8>)
    requires
        forall|i: int| 0 <= i < vs.len() ==> spec_tx_out_v_wf(#[trigger] vs[i]),
    ensures
        spec_deser_tx_outs(spec_ser_tx_outs(vs) + rest, vs.len()) == Some((vs, rest)),
    decreases vs.len(),
{
    if vs.len() == 0 {
        assert(spec_ser_tx_outs(vs) + rest =~= rest);
    } else {
        let tail = vs.drop_first();
        assert(forall|i: int| 0 <= i < tail.len() ==> tail[i] == #[trigger] vs[i + 1]);
        lemma_tx_outs_round_trip(tail, rest);
        assert(spec_ser_tx_outs(vs) + rest =~= spec_ser_tx_out(vs[0]) + (spec_ser_tx_outs(tail)
            + rest));
        lemma_tx_out_round_trip(vs[0], spec_ser_tx_outs(tail) + rest);
        assert(seq![vs[0]] + tail =~= vs);
    }
}

/// Reading back a serialized run of unsigned inputs returns them.
#[verifier::rlimit(30)]
pub proof fn lemma_raw_tx_ins_round_trip(vs: Seq<RawTxInV>, rest: Seq<u8>)
    requires
        forall|i: int| 0 <= i < vs.len() ==> spec_raw_tx_in_v_wf(#[trigger] vs[i]),
    ensures
        spec_deser_raw_tx_ins(spec_ser_raw_tx_ins(vs) + rest, vs.len()) == Some((vs, rest)),
    decreases vs.len(),
{
    if vs.len() == 0 {
        assert(spec_ser_raw_tx_ins(vs) + rest =~= rest);
    } else {
        let tail = vs.drop_first();
        assert(forall|i: int| 0 <= i < tail.len() ==> tail[i] == #[trigger] vs[i + 1]);
        lemma_raw_tx_ins_round_trip(tail, rest);
        assert(spec_ser_raw_tx_ins(vs) + rest =~= spec_ser_raw_tx_in(vs[0]) + (
        spec_ser_raw_tx_ins(tail) + rest));
        lemma_raw_tx_in_round_trip(vs[0], spec_ser_raw_tx_ins(tail) + rest);
        assert(seq![vs[0]] + tail =~= vs);
    }
}

/// Reading back a serialized run of signed inputs returns them.
#[verifier::rlimit(30)]
pub proof fn lemma_signed_tx_ins_round_trip(vs: Seq<SignedTxInV>, rest: Seq<u8>)
    requires
        forall|i: int| 0 <= i < vs.len() ==> spec_signed_tx_in_v_wf(#[trigger] vs[i]),
    ensures
        spec_deser_signed_tx_ins(spec_ser_signed_tx_ins(vs) + rest, vs.len()) == Some((vs, rest)),
    decreases vs.len(),
{
    if vs.len() == 0 {
        assert(spec_ser_signed_tx_ins(vs) + rest =~= rest);
    } else {
        let tail = vs.drop_first();
        assert(forall|i: int| 0 <= i < tail.len() ==> tail[i] == #[trigger] vs[i + 1]);
        lemma_signed_tx_ins_round_trip(tail, rest);
        assert(spec_ser_signed_tx_ins(vs) + rest =~= spec_ser_signed_tx_in(vs[0]) + (
        spec_ser_signed_tx_ins(tail) + rest));
        lemma_signed_tx_in_round_trip(vs[0], spec_ser_signed_tx_ins(tail) + rest);
        assert(seq![vs[0]] + tail =~= vs);
    }
}

/// The codec round trip for unsigned transactions: reading back a
/// serialized transaction returns it, whatever bytes follow.
pub proof fn lemma_raw_tx_round_trip(v: RawTxV, rest: Seq<u8>)
    requires
        forall|i: int| 0 <= i < v.input.len() ==> spec_raw_tx_in_v_wf(#[trigger] v.input[i]),
        forall|i: int| 0 <= i < v.output.len() ==> spec_tx_out_v_wf(#[trigger] v.output[i]),
        v.input.len() <= u64::MAX,
        v.output.len() <= u64::MAX,
    ensures
        spec_deser_raw_tx(spec_ser_raw_tx(v) + rest) == Some((v, rest)),
{
    let ins = spec_ser_raw_tx_ins(v.input);
    let outs = spec_ser_tx_outs(v.output);
    let after_count = ins + (spec_u64_be(v.output.len() as u64) + (outs + rest));
    assert(spec_ser_raw_tx(v) + rest =~= spec_u64_be(v.input.len() as u64) + after_count);
    crate::codec::lemma_u64_round_trip(v.input.len() as u64, after_count);
    lemma_raw_tx_ins_round_trip(v.input, spec_u64_be(v.output.len() as u64) + (outs + rest));
    crate::codec::lemma_u64_round_trip(v.output.len() as u64, outs + rest);
    lemma_tx_outs_round_trip(v.output, rest);
}

/// The codec round trip for signed transactions.
pub proof fn lemma_signed_tx_round_trip(v: SignedTxV, rest: Seq<u8>)
    requires
        spec_signed_tx_v_wf(v),
    ensures
        spec_deser_signed_tx(spec_ser_signed_tx(v) + rest) == Some((v, rest)),
{
    let ins = spec_ser_signed_tx_ins(v.input);
    let outs = spec_ser_tx_outs(v.output);
    let after_count = ins + (spec_u64_be(v.output.len() as u64) + (outs + rest));
    assert(spec_ser_signed_tx(v) + rest =~= spec_u64_be(v.input.len() as u64) + after_count);
    crate::codec::lemma_u64_round_trip(v.input.len() as u64, after_count);
    lemma_signed_tx_ins_round_trip(v.input, spec_u64_be(v.output.len() as u64) + (outs + rest));
    crate::codec::lemma_u64_round_trip(v.output.len() as u64, outs + rest);
    lemma_tx_outs_round_trip(v.output, rest);
}

} // verus!
