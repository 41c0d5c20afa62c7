//! SHA-256 hashing and Ed25519 key generation, signing and verification.
//!
//! The arithmetic of the cryptography itself is done by the `ring` crate;
//! this module pins down everything the rest of the library relies on: the
//! digest and the signature are functions of their byte inputs alone, a
//! digest is 32 bytes long, and a signature produced by a key pair verifies
//! under that key pair's public key.

use vstd::prelude::*;

verus! {

/// The SHA-256 digest of a byte sequence.
pub uninterp spec fn sha256_of(data: Seq<u8>) -> Seq<u8>;

/// The Ed25519 signature that the key pair stored as `pkcs8` produces over
/// `msg`. Ed25519 signing is deterministic (RFC 8032), so this is a function
/// of the two byte sequences alone.
pub uninterp spec fn sign_of(pkcs8: Seq<u8>, msg: Seq<u8>) -> Seq<u8>;

/// The 32-byte Ed25519 public key of the key pair stored as `pkcs8`.
pub uninterp spec fn pub_key_of(pkcs8: Seq<u8>) -> Seq<u8>;

/// Whether `sig` is a valid Ed25519 signature over `msg` under `pub_key`.
pub uninterp spec fn ed25519_verifies(pub_key: Seq<u8>, msg: Seq<u8>, sig: Seq<u8>) -> bool;

/// The all-zero byte sequence of the length of a SHA-256 digest.
pub open spec fn spec_zero_hash() -> Seq<u8> {
    Seq::new(32, |i: int| 0u8)
}

/// Ring's opaque Ed25519 key pair type, carried inside [`KeyPair`].
#[verifier::external_type_specification]
#[verifier::external_body]
pub struct ExEd25519KeyPair(ring::signature::Ed25519KeyPair);

/// Ring's system random number generator, carried inside [`KeyPairGenerator`].
#[verifier::external_type_specification]
#[verifier::external_body]
pub struct ExSystemRandom(ring::rand::SystemRandom);

/// Ring's unit error type for operations it gives no detail about.
#[verifier::external_type_specification]
#[verifier::external_body]
pub struct ExUnspecified(ring::error::Unspecified);

/// Ring's error type for key material it refuses to parse.
#[verifier::external_type_specification]
#[verifier::external_body]
pub struct ExKeyRejected(ring::error::KeyRejected);

/// A 32-byte SHA-256 digest. Always built by [`hash`] or as the zero
/// sentinel [`Hash::min`]; `wf()` records the length.
pub struct Hash {
    pub bytes: Vec<u8>,
}

impl View for Hash {
    type V = Seq<u8>;

    open spec fn view(&self) -> Seq<u8> {
        self.bytes@
    }
}

impl Hash {
    /// Length of a well-formed digest.
    pub open spec fn wf(&self) -> bool {
        self.bytes@.len() == 32
    }

    /// The zero hash: the sentinel written as the predecessor of a genesis
    /// block.
    pub fn min() -> (h: Hash)
        ensures
            h@ == spec_zero_hash(),
            h.wf(),
    {
        let bytes = vec![0u8; 32];
        assert(bytes@ =~= spec_zero_hash());
        Hash { bytes }
    }

    /// The digest as a byte slice.
    pub fn bytes(&self) -> (r: &[u8])
        ensures
            r@ == self@,
    {
        self.bytes.as_slice()
    }
}

impl Clone for Hash {
    fn clone(&self) -> (r: Self)
        ensures
            r@ == self@,
    {
        let bytes = self.bytes.clone();
        assert(bytes@ =~= self.bytes@);
        Hash { bytes }
    }
}

impl PartialEq for Hash {
    fn eq(&self, other: &Hash) -> (r: bool) {
        bytes_equal(self.bytes.as_slice(), other.bytes.as_slice())
    }
}

impl vstd::std_specs::cmp::PartialEqSpecImpl for Hash {
    open spec fn obeys_eq_spec() -> bool {
        true
    }

    open spec fn eq_spec(&self, other: &Hash) -> bool {
        self.bytes@ == other.bytes@
    }
}

/// Byte-wise equality of two slices.
pub fn bytes_equal(a: &[u8], b: &[u8]) -> (r: bool)
    ensures
        r == (a@ == b@),
{
    if a.len() != b.len() {
        return false;
    }
    let len = a.len();
    let mut i: usize = 0;
    while i < len
        invariant
            len == a@.len() == b@.len(),
            i <= len,
            forall|j: int| 0 <= j < i ==> a@[j] == b@[j],
        decreases len - i,
    {
        if a[i] != b[i] {
            return false;
        }
        i = i + 1;
    }
    proof {
        assert(a@ =~= b@);
    }
    true
}

/// Relies on `ring::digest::digest` with `ring::digest::SHA256`: the SHA-256
/// digest of `data`, 32 bytes long, depending on `data` alone.
#[verifier::external_body]
fn sha256_digest(data: &[u8]) -> (r: Vec<u8>)
    ensures
        r@ == sha256_of(data@),
        r@.len() == 32,
{
    ring::digest::digest(&ring::digest::SHA256, data).as_ref().to_vec()
}

/// SHA-256 of `input_bytes` as a [`Hash`].
pub fn hash(input_bytes: &[u8]) -> (h: Hash)
    ensures
        h@ == sha256_of(input_bytes@),
        h.wf(),
{
    Hash { bytes: sha256_digest(input_bytes) }
}

/// A 32-byte Ed25519 public key.
pub struct PubKey {
    pub bytes: Vec<u8>,
}

impl View for PubKey {
    type V = Seq<u8>;

    open spec fn view(&self) -> Seq<u8> {
        self.bytes@
    }
}

impl PubKey {
    /// Length of a well-formed public key.
    pub open spec fn wf(&self) -> bool {
        self.bytes@.len() == 32
    }

    /// The key as a byte slice.
    pub fn as_bytes(&self) -> (r: &[u8])
        ensures
            r@ == self@,
    {
        self.bytes.as_slice()
    }

    /// Relies on `ring::signature::UnparsedPublicKey::verify` with
    /// `ring::signature::ED25519`: returns `Ok` exactly when `signature` is a
    /// valid Ed25519 signature over `input_bytes` under this key.
    #[verifier::external_body]
    pub fn verify_signature(&self, input_bytes: &[u8], signature: &Signature) -> (r: Result<
        (),
        ring::error::Unspecified,
    >)
        ensures
            r is Ok <==> ed25519_verifies(self@, input_bytes@, signature@),
    {
        ring::signature::UnparsedPublicKey::new(&ring::signature::ED25519, self.bytes.as_slice())
            .verify(input_bytes, signature.bytes.as_slice())
    }
}

impl Clone for PubKey {
    fn clone(&self) -> (r: Self)
        ensures
            r@ == self@,
    {
        let bytes = self.bytes.clone();
        assert(bytes@ =~= self.bytes@);
        PubKey { bytes }
    }
}

/// A 64-byte Ed25519 signature.
pub struct Signature {
    pub bytes: Vec<u8>,
}

impl View for Signature {
    type V = Seq<u8>;

    open spec fn view(&self) -> Seq<u8> {
        self.bytes@
    }
}

impl Signature {
    /// Length of a well-formed signature.
    pub open spec fn wf(&self) -> bool {
        self.bytes@.len() == 64
    }
}

impl Clone for Signature {
    fn clone(&self) -> (r: Self)
        ensures
            r@ == self@,
    {
        let bytes = self.bytes.clone();
        assert(bytes@ =~= self.bytes@);
        Signature { bytes }
    }
}

/// An Ed25519 key pair. The PKCS#8 document it was parsed from is kept
/// beside ring's opaque key object: contracts speak of the key pair through
/// those bytes, which determine both keys.
pub struct KeyPair {
    pkcs8: Vec<u8>,
    kp: ring::signature::Ed25519KeyPair,
}

impl View for KeyPair {
    type V = Seq<u8>;

    closed spec fn view(&self) -> Seq<u8> {
        self.pkcs8@
    }
}

impl KeyPair {
    /// Relies on `ring::signature::KeyPair::public_key` for
    /// `Ed25519KeyPair`: the 32-byte public key, a function of the key
    /// material alone.
    #[verifier::external_body]
    pub fn pub_key(&self) -> (pk: PubKey)
        ensures
            pk@ == pub_key_of(self@),
            pk.wf(),
    {
        let raw = ring::signature::KeyPair::public_key(&self.kp);
        PubKey { bytes: raw.as_ref().to_vec() }
    }

    /// Relies on `ring::signature::Ed25519KeyPair::sign`: deterministic
    /// Ed25519 signing (RFC 8032), producing a 64-byte signature that
    /// verifies under this key pair's public key.
    #[verifier::external_body]
    pub fn sign(&self, input_bytes: &[u8]) -> (s: Signature)
        ensures
            s@ == sign_of(self@, input_bytes@),
            s.wf(),
            ed25519_verifies(pub_key_of(self@), input_bytes@, s@),
    {
        let raw = self.kp.sign(input_bytes);
        Signature { bytes: raw.as_ref().to_vec() }
    }
}

/// Relies on `ring::signature::Ed25519KeyPair::generate_pkcs8`: a freshly
/// generated key pair as a PKCS#8 document. The result is random; nothing is
/// claimed of it.
#[verifier::external_body]
fn generate_pkcs8_bytes(rng: &ring::rand::SystemRandom) -> (r: Result<
    Vec<u8>,
    ring::error::Unspecified,
>) {
    ring::signature::Ed25519KeyPair::generate_pkcs8(rng).map(|doc| doc.as_ref().to_vec())
}

/// Relies on `ring::signature::Ed25519KeyPair::from_pkcs8`: parses a PKCS#8
/// v2 document into a key pair; the stored bytes are the ones handed in.
#[verifier::external_body]
fn keypair_from_pkcs8(pkcs8_bytes: Vec<u8>) -> (r: Result<KeyPair, ring::error::KeyRejected>)
    ensures
        r matches Ok(kp) ==> kp@ == pkcs8_bytes@,
{
    match ring::signature::Ed25519KeyPair::from_pkcs8(pkcs8_bytes.as_slice()) {
        Ok(kp) => Ok(KeyPair { pkcs8: pkcs8_bytes, kp }),
        Err(e) => Err(e),
    }
}

/// A source of fresh Ed25519 key pairs.
pub struct KeyPairGenerator {
    rng: ring::rand::SystemRandom,
}

impl KeyPairGenerator {
    /// Relies on `ring::rand::SystemRandom::new`: a handle to the system's
    /// secure random number generator.
    #[verifier::external_body]
    pub fn new() -> KeyPairGenerator {
        KeyPairGenerator { rng: ring::rand::SystemRandom::new() }
    }

    /// Generates a fresh random key pair, or `Error::CryptographyError` when
    /// the system's randomness source or the parse of the generated document
    /// fails.
    pub fn random_keypair(&self) -> (r: Result<KeyPair, crate::Error>)
        ensures
            r is Err ==> r == Err::<KeyPair, crate::Error>(crate::Error::CryptographyError),
    {
        let pkcs8_bytes = match generate_pkcs8_bytes(&self.rng) {
            Ok(bytes) => bytes,
            Err(_) => {
                return Err(crate::Error::CryptographyError);
            },
        };
        match keypair_from_pkcs8(pkcs8_bytes) {
            Ok(kp) => Ok(kp),
            Err(_) => Err(crate::Error::CryptographyError),
        }
    }
}

} // verus!
