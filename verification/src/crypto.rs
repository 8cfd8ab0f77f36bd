//! Node identities and detached signatures.
//!
//! A node is known by its 32-byte Ed25519 public key. The text form of a key
//! or of a signature is its multibase encoding in base58 (bitcoin alphabet).

use crate::bytes::{array32, array64, bytes_eq};
use vstd::prelude::*;
use vstd::std_specs::cmp::PartialEqSpecImpl;

verus! {

/// Verified (used as type witness).
#[derive(Debug, Copy, Clone, PartialEq, Eq)]
pub struct Verified;

/// Unverified (used as type witness).
#[derive(Debug, Copy, Clone, PartialEq, Eq)]
pub struct Unverified;

/// Why a multibase string could not be decoded.
#[derive(Debug, Copy, Clone, PartialEq, Eq, Structural)]
pub enum MultibaseError {
    /// The first character names no known base.
    UnknownBase(char),
    /// The text after the base code is not valid in that base.
    InvalidBaseString,
}

/// Why a string is not a public key.
#[derive(Debug, Copy, Clone, PartialEq, Eq, Structural)]
pub enum PublicKeyError {
    /// The decoded key has this many bytes instead of 32.
    InvalidLength(usize),
    /// The string is not valid multibase.
    Multibase(MultibaseError),
    /// The key material was rejected.
    InvalidKey,
}

/// Why a string is not a signature.
#[derive(Debug, Copy, Clone, PartialEq, Eq, Structural)]
pub enum SignatureError {
    /// The string is not valid multibase.
    Multibase(MultibaseError),
    /// The decoded signature does not have 64 bytes.
    Invalid,
}

/// The multibase text, in base58 with the bitcoin alphabet, of a byte string.
pub uninterp spec fn base58_text(bytes: Seq<u8>) -> Seq<char>;

/// The bytes that a multibase text stands for, in whichever base its first
/// character names, or the reason why it stands for none.
pub uninterp spec fn multibase_bytes(text: Seq<char>) -> Result<Seq<u8>, MultibaseError>;

/// The secret key (the seed followed by the public key) that Ed25519 derives
/// from a 32-byte seed. The all-zero seed has none.
pub uninterp spec fn derived_secret(seed: Seq<u8>) -> Option<Seq<u8>>;

/// The deterministic Ed25519 signature of `msg` under the secret key `secret`.
pub uninterp spec fn signature_bytes(secret: Seq<u8>, msg: Seq<u8>) -> Seq<u8>;

/// Whether `sig` is accepted as an Ed25519 signature of `msg` under `public`.
pub uninterp spec fn signature_valid(public: Seq<u8>, msg: Seq<u8>, sig: Seq<u8>) -> bool;

/// The raw public key held in a PEM document, if it holds one.
pub uninterp spec fn pem_key(pem: Seq<char>) -> Option<Seq<u8>>;

/// `multibase::encode` with `Base::Base58Btc`. Trusted: the text is the
/// encoding of the bytes, and decoding that text gives the bytes back.
#[verifier::external_body]
pub(crate) fn multibase_encode(bytes: &[u8]) -> (text: String)
    ensures
        text@ == base58_text(bytes@),
        multibase_bytes(text@) is Ok,
        multibase_bytes(text@)->Ok_0 == bytes@,
{
    multibase::encode(multibase::Base::Base58Btc, bytes)
}

/// `multibase::decode`, without the base it found. Trusted: the result is
/// what the text stands for.
#[verifier::external_body]
pub(crate) fn multibase_decode(text: &str) -> (r: Result<Vec<u8>, MultibaseError>)
    ensures
        match r {
            Ok(bytes) => (multibase_bytes(text@) matches Ok(x) && x == bytes@),
            Err(e) => (multibase_bytes(text@) matches Err(x) && x == e),
        },
{
    match multibase::decode(text) {
        Ok((_, bytes)) => Ok(bytes),
        Err(multibase::Error::UnknownBase(c)) => Err(MultibaseError::UnknownBase(c)),
        Err(multibase::Error::InvalidBaseString) => Err(MultibaseError::InvalidBaseString),
    }
}

/// `ed25519_compact::KeyPair::try_from_seed`. Trusted: the secret key is the
/// one derived from the seed and starts with the seed; only the all-zero seed
/// is refused.
#[verifier::external_body]
fn derive_secret(seed: &[u8; 32]) -> (r: Option<[u8; 64]>)
    ensures
        match r {
            Some(secret) => derived_secret(seed@) == Some(secret@) && secret@.subrange(0, 32)
                == seed@,
            None => derived_secret(seed@) is None,
        },
        r is None <==> forall|i: int| 0 <= i < 32 ==> seed@[i] == 0,
{
    match ed25519_compact::KeyPair::try_from_seed(ed25519_compact::Seed::new(*seed)) {
        Ok(pair) => Some(*pair.sk),
        Err(_) => None,
    }
}

/// `ed25519_compact::SecretKey::sign` without noise, on a secret key that was
/// derived from its seed. Trusted: the signature is the deterministic one, and
/// it is accepted under the public half of the key, which the signing code
/// checks before it returns.
#[verifier::external_body]
fn sign_detached(secret: &[u8; 64], msg: &[u8]) -> (sig: [u8; 64])
    requires
        derived_secret(secret@.subrange(0, 32)) == Some(secret@),
    ensures
        sig@ == signature_bytes(secret@, msg@),
        signature_valid(secret@.subrange(32, 64), msg@, sig@),
{
    *ed25519_compact::SecretKey::new(*secret).sign(msg, None)
}

/// `ed25519_compact::PublicKey::verify`. Trusted: the answer is whether the
/// signature is accepted.
#[verifier::external_body]
fn verify_detached(public: &[u8; 32], msg: &[u8], sig: &[u8; 64]) -> (ok: bool)
    ensures
        ok == signature_valid(public@, msg@, sig@),
{
    let sig = ed25519_compact::Signature::new(*sig);
    ed25519_compact::PublicKey::new(*public).verify(msg, &sig).is_ok()
}

/// `ed25519_compact::PublicKey::from_pem`. Trusted: the result is the key the
/// document holds.
#[verifier::external_body]
fn pem_decode(pem: &str) -> (r: Option<[u8; 32]>)
    ensures
        match r {
            Some(key) => pem_key(pem@) == Some(key@),
            None => pem_key(pem@) is None,
        },
{
    match ed25519_compact::PublicKey::from_pem(pem) {
        Ok(key) => Some(*key),
        Err(_) => None,
    }
}

/// The bytes, or the error, in the result of decoding a multibase text.
pub open spec fn decoded_view(decoded: Result<Vec<u8>, MultibaseError>) -> Result<
    Seq<u8>,
    MultibaseError,
> {
    match decoded {
        Ok(bytes) => Ok(bytes@),
        Err(e) => Err(e),
    }
}

/// The public/verification key.
#[derive(Debug, Copy, Clone, Eq, Hash, PartialOrd, Ord)]
pub struct PublicKey(pub [u8; 32]);

impl View for PublicKey {
    type V = Seq<u8>;

    open spec fn view(&self) -> Seq<u8> {
        self.0@
    }
}

impl PartialEq for PublicKey {
    fn eq(&self, other: &Self) -> (r: bool) {
        let r = bytes_eq(self.0.as_slice(), other.0.as_slice());
        proof {
            if r {
                assert(self.0 =~= other.0);
            }
        }
        r
    }
}

impl PartialEqSpecImpl for PublicKey {
    open spec fn obeys_eq_spec() -> bool {
        true
    }

    open spec fn eq_spec(&self, other: &Self) -> bool {
        *self == *other
    }
}

/// Two keys with the same bytes are the same key.
pub proof fn lemma_key_by_bytes(a: PublicKey, b: PublicKey)
    ensures
        (a@ == b@) == (a == b),
{
    if a@ == b@ {
        assert(a.0 =~= b.0);
    }
}

impl PublicKey {
    /// What a decoded multibase text means as a key: the bytes, if there are
    /// 32 of them.
    pub open spec fn from_decoded(decoded: Result<Seq<u8>, MultibaseError>) -> Result<
        Seq<u8>,
        PublicKeyError,
    > {
        match decoded {
            Ok(bytes) => if bytes.len() == 32 {
                Ok(bytes)
            } else {
                Err(PublicKeyError::InvalidLength(bytes.len() as usize))
            },
            Err(e) => Err(PublicKeyError::Multibase(e)),
        }
    }

    /// What a text means as a key.
    pub open spec fn parsed(text: Seq<char>) -> Result<Seq<u8>, PublicKeyError> {
        Self::from_decoded(multibase_bytes(text))
    }

    /// The key, or the error, that the result of decoding a multibase text
    /// gives.
    pub fn key_from_decoded(decoded: Result<Vec<u8>, MultibaseError>) -> (r: Result<
        PublicKey,
        PublicKeyError,
    >)
        ensures
            match r {
                Ok(key) => (Self::from_decoded(decoded_view(decoded)) matches Ok(x) && x == key@),
                Err(e) => (Self::from_decoded(decoded_view(decoded)) matches Err(x) && x == e),
            },
    {
        match decoded {
            Ok(bytes) => {
                if bytes.len() == 32 {
                    Ok(PublicKey(array32(bytes.as_slice())))
                } else {
                    Err(PublicKeyError::InvalidLength(bytes.len()))
                }
            },
            Err(e) => Err(PublicKeyError::Multibase(e)),
        }
    }

    /// Parse the text form of a key.
    pub fn from_str(s: &str) -> (r: Result<PublicKey, PublicKeyError>)
        ensures
            match r {
                Ok(key) => (Self::parsed(s@) matches Ok(x) && x == key@),
                Err(e) => (Self::parsed(s@) matches Err(x) && x == e),
            },
    {
        Self::key_from_decoded(multibase_decode(s))
    }

    /// The text form of the key. Parsing it gives the key back.
    pub fn to_human(&self) -> (s: String)
        ensures
            s@ == base58_text(self@),
            (Self::parsed(s@) matches Ok(x) && x == self@),
    {
        multibase_encode(self.0.as_slice())
    }

    /// Read a key from a PEM document.
    pub fn from_pem(pem: &str) -> (r: Result<PublicKey, PublicKeyError>)
        ensures
            match r {
                Ok(key) => pem_key(pem@) == Some(key@),
                Err(e) => pem_key(pem@) is None && e == PublicKeyError::InvalidKey,
            },
    {
        match pem_decode(pem) {
            Some(bytes) => Ok(PublicKey(bytes)),
            None => Err(PublicKeyError::InvalidKey),
        }
    }

    /// Whether `sig` is a signature of `msg` by the holder of this key.
    pub fn verify(&self, msg: &[u8], sig: &Signature) -> (ok: bool)
        ensures
            ok == signature_valid(self@, msg@, sig@),
    {
        verify_detached(&self.0, msg, &sig.0)
    }
}

/// Cryptographic signature.
#[derive(Debug, Copy, Clone, Eq)]
pub struct Signature(pub [u8; 64]);

impl View for Signature {
    type V = Seq<u8>;

    open spec fn view(&self) -> Seq<u8> {
        self.0@
    }
}

impl PartialEq for Signature {
    fn eq(&self, other: &Self) -> (r: bool) {
        let r = bytes_eq(self.0.as_slice(), other.0.as_slice());
        proof {
            if r {
                assert(self.0 =~= other.0);
            }
        }
        r
    }
}

impl PartialEqSpecImpl for Signature {
    open spec fn obeys_eq_spec() -> bool {
        true
    }

    open spec fn eq_spec(&self, other: &Self) -> bool {
        *self == *other
    }
}

impl Signature {
    /// What a decoded multibase text means as a signature: the bytes, if
    /// there are 64 of them.
    pub open spec fn from_decoded(decoded: Result<Seq<u8>, MultibaseError>) -> Result<
        Seq<u8>,
        SignatureError,
    > {
        match decoded {
            Ok(bytes) => if bytes.len() == 64 {
                Ok(bytes)
            } else {
                Err(SignatureError::Invalid)
            },
            Err(e) => Err(SignatureError::Multibase(e)),
        }
    }

    /// What a text means as a signature.
    pub open spec fn parsed(text: Seq<char>) -> Result<Seq<u8>, SignatureError> {
        Self::from_decoded(multibase_bytes(text))
    }

    /// A signature from raw bytes, if there are 64 of them.
    pub fn from_slice(bytes: &[u8]) -> (r: Result<Signature, SignatureError>)
        ensures
            match r {
                Ok(sig) => bytes@.len() == 64 && sig@ == bytes@,
                Err(e) => bytes@.len() != 64 && e == SignatureError::Invalid,
            },
    {
        if bytes.len() == 64 {
            Ok(Signature(array64(bytes)))
        } else {
            Err(SignatureError::Invalid)
        }
    }

    /// The signature, or the error, that the result of decoding a multibase
    /// text gives.
    pub fn signature_from_decoded(decoded: Result<Vec<u8>, MultibaseError>) -> (r: Result<
        Signature,
        SignatureError,
    >)
        ensures
            match r {
                Ok(sig) => (Self::from_decoded(decoded_view(decoded)) matches Ok(x) && x == sig@),
                Err(e) => (Self::from_decoded(decoded_view(decoded)) matches Err(x) && x == e),
            },
    {
        match decoded {
            Ok(bytes) => Self::from_slice(bytes.as_slice()),
            Err(e) => Err(SignatureError::Multibase(e)),
        }
    }

    /// Parse the text form of a signature.
    pub fn from_str(s: &str) -> (r: Result<Signature, SignatureError>)
        ensures
            match r {
                Ok(sig) => (Self::parsed(s@) matches Ok(x) && x == sig@),
                Err(e) => (Self::parsed(s@) matches Err(x) && x == e),
            },
    {
        Self::signature_from_decoded(multibase_decode(s))
    }

    /// The text form of the signature. Parsing it gives the signature back.
    pub fn to_human(&self) -> (s: String)
        ensures
            s@ == base58_text(self@),
            (Self::parsed(s@) matches Ok(x) && x == self@),
    {
        multibase_encode(self.0.as_slice())
    }
}

/// Something that holds a signing key.
pub trait Signer {
    /// The key under which what this signer signs is accepted.
    spec fn key(&self) -> PublicKey;

    /// Return this signer's public/verification key.
    fn public_key(&self) -> (key: &PublicKey)
        ensures
            *key == self.key(),
    ;

    /// Sign a message and return the signature, which is accepted under
    /// this signer's key.
    fn sign(&self, msg: &[u8]) -> (sig: Signature)
        ensures
            signature_valid(self.key()@, msg@, sig@),
    ;
}

/// An Ed25519 key pair derived from a seed.
pub struct KeyPair {
    public: PublicKey,
    secret: [u8; 64],
}

impl KeyPair {
    #[verifier::type_invariant]
    spec fn well_formed(self) -> bool {
        &&& derived_secret(self.secret@.subrange(0, 32)) == Some(self.secret@)
        &&& self.public@ == self.secret@.subrange(32, 64)
    }

    /// The public half of the pair.
    pub closed spec fn public(self) -> PublicKey {
        self.public
    }

    /// The secret key: the seed followed by the public key.
    pub closed spec fn secret(self) -> Seq<u8> {
        self.secret@
    }

    /// The key pair of a seed. Every seed but the all-zero one has a pair.
    pub fn from_seed(seed: [u8; 32]) -> (r: Option<KeyPair>)
        ensures
            r is None <==> forall|i: int| 0 <= i < 32 ==> seed@[i] == 0,
            r matches Some(pair) ==> derived_secret(seed@) == Some(pair.secret())
                && pair.public()@ == pair.secret().subrange(32, 64),
    {
        match derive_secret(&seed) {
            Some(secret) => {
                let mut public: [u8; 32] = [0u8; 32];
                let mut i: usize = 0;
                while i < 32
                    invariant
                        i <= 32,
                        forall|j: int| 0 <= j < i ==> public@[j] == secret@[32 + j],
                    decreases 32 - i,
                {
                    public[i] = secret[32 + i];
                    i = i + 1;
                }
                assert(public@ =~= secret@.subrange(32, 64));
                Some(KeyPair { public: PublicKey(public), secret })
            },
            None => None,
        }
    }

    /// The public half of the pair.
    pub fn public_key(&self) -> (key: &PublicKey)
        ensures
            *key == self.public(),
    {
        &self.public
    }

    /// Sign a message. The signature is the deterministic one, and it is
    /// accepted under this pair's public key.
    pub fn sign(&self, msg: &[u8]) -> (sig: Signature)
        ensures
            sig@ == signature_bytes(self.secret(), msg@),
            signature_valid(self.public()@, msg@, sig@),
    {
        proof {
            use_type_invariant(self);
        }
        Signature(sign_detached(&self.secret, msg))
    }
}

impl Signer for KeyPair {
    open spec fn key(&self) -> PublicKey {
        self.public()
    }

    fn public_key(&self) -> (key: &PublicKey)
        ensures
            *key == self.public(),
    {
        &self.public
    }

    fn sign(&self, msg: &[u8]) -> (sig: Signature)
        ensures
            sig@ == signature_bytes(self.secret(), msg@),
            signature_valid(self.public()@, msg@, sig@),
    {
        KeyPair::sign(self, msg)
    }
}

} // verus!
