use radicle_node::crypto::{
    KeyPair, MultibaseError, PublicKey, PublicKeyError, Signature, SignatureError, Signer,
};
use radicle_node::storage::refs::Refs;

/// A signer that holds its key pair behind a count of what it has signed.
struct Counting {
    pair: KeyPair,
    signed: std::cell::Cell<usize>,
}

impl Signer for Counting {
    fn key(&self) -> PublicKey {
        *self.pair.public_key()
    }

    fn public_key(&self) -> &PublicKey {
        self.pair.public_key()
    }

    fn sign(&self, msg: &[u8]) -> Signature {
        self.signed.set(self.signed.get() + 1);
        self.pair.sign(msg)
    }
}

fn seed(n: u8) -> [u8; 32] {
    let mut seed = [0u8; 32];
    seed[0] = n;
    seed[31] = 7;
    seed
}

#[test]
fn prop_encode_decode() {
    for n in 0..32u8 {
        let pair = KeyPair::from_seed(seed(n)).unwrap();
        let input = *pair.public_key();
        let encoded = input.to_human();
        let decoded = PublicKey::from_str(&encoded).unwrap();

        assert_eq!(input, decoded);
    }
}

#[test]
fn encode_is_base58_multibase() {
    let key = PublicKey([0u8; 32]);
    let text = key.to_human();
    assert_eq!(text, "z11111111111111111111111111111111");
    assert_eq!(PublicKey::from_str(&text).unwrap(), key);
}

#[test]
fn decode_rejects_wrong_length() {
    // "zCn8eVZg" is the base58 text of five bytes.
    assert_eq!(PublicKey::from_str("zCn8eVZg"), Err(PublicKeyError::InvalidLength(5)));
}

#[test]
fn decode_rejects_bad_multibase() {
    let invalid = Err(PublicKeyError::Multibase(MultibaseError::InvalidBaseString));
    assert_eq!(PublicKey::from_str(""), invalid);
    assert_eq!(PublicKey::from_str("z0OIl"), invalid);
    assert_eq!(
        PublicKey::from_str("!abc"),
        Err(PublicKeyError::Multibase(MultibaseError::UnknownBase('!')))
    );
    assert_eq!(
        Signature::from_str("?"),
        Err(SignatureError::Multibase(MultibaseError::UnknownBase('?')))
    );
}

#[test]
fn decode_takes_any_base() {
    // The 32 zero bytes in base16.
    let text = format!("f{}", "00".repeat(32));
    assert_eq!(PublicKey::from_str(&text), Ok(PublicKey([0u8; 32])));
}

#[test]
fn round_trip_with_leading_zeros() {
    let mut state: u64 = 0x2545f4914f6cdd1d;
    for round in 0..200 {
        let mut bytes = [0u8; 32];
        for b in bytes.iter_mut().skip(round % 8) {
            state ^= state << 13;
            state ^= state >> 7;
            state ^= state << 17;
            *b = (state >> 24) as u8;
        }
        let key = PublicKey(bytes);
        assert_eq!(PublicKey::from_str(&key.to_human()), Ok(key));
    }
}

#[test]
fn all_zero_seed_has_no_key_pair() {
    assert!(KeyPair::from_seed([0u8; 32]).is_none());
    assert!(KeyPair::from_seed(seed(1)).is_some());
}

#[test]
fn signature_verifies() {
    let pair = KeyPair::from_seed(seed(3)).unwrap();
    let msg = b"hello, world";
    let sig = pair.sign(msg);
    assert!(pair.public_key().verify(msg, &sig));
}

#[test]
fn signature_is_deterministic() {
    let pair = KeyPair::from_seed(seed(3)).unwrap();
    assert_eq!(pair.sign(b"abc"), pair.sign(b"abc"));
    assert_ne!(pair.sign(b"abc"), pair.sign(b"abd"));
}

#[test]
fn flipped_bit_does_not_verify() {
    let pair = KeyPair::from_seed(seed(4)).unwrap();
    let msg = b"some message".to_vec();
    let sig = pair.sign(&msg);

    for i in 0..msg.len() {
        let mut other = msg.clone();
        other[i] ^= 1;
        assert!(!pair.public_key().verify(&other, &sig));
    }
    for i in 0..64 {
        let mut bytes = sig.0;
        bytes[i] ^= 1;
        assert!(!pair.public_key().verify(&msg, &Signature(bytes)));
    }
}

#[test]
fn other_key_does_not_verify() {
    let alice = KeyPair::from_seed(seed(5)).unwrap();
    let bob = KeyPair::from_seed(seed(6)).unwrap();
    let sig = alice.sign(b"msg");
    assert!(!bob.public_key().verify(b"msg", &sig));
}

#[test]
fn signature_text_round_trip() {
    let pair = KeyPair::from_seed(seed(8)).unwrap();
    let sig = pair.sign(b"round trip");
    let text = sig.to_human();
    assert!(text.starts_with('z'));
    assert_eq!(Signature::from_str(&text), Ok(sig));
}

#[test]
fn signature_from_slice_checks_length() {
    assert_eq!(Signature::from_slice(&[1u8; 64]), Ok(Signature([1u8; 64])));
    assert_eq!(Signature::from_slice(&[1u8; 63]), Err(SignatureError::Invalid));
    assert_eq!(Signature::from_slice(&[]), Err(SignatureError::Invalid));
    // A public key is no signature.
    let key = PublicKey([9u8; 32]).to_human();
    assert_eq!(Signature::from_str(&key), Err(SignatureError::Invalid));
}

#[test]
fn from_pem_reads_a_key() {
    let pem = "-----BEGIN PUBLIC KEY-----\nMCowBQYDK2VwAyEAGb9ECWmEzf6FQbrBZ9w7lshQhqowtrbLDFw4rXAxZuE=\n-----END PUBLIC KEY-----\n";
    let key = PublicKey::from_pem(pem).unwrap();
    assert_eq!(
        key.0,
        [
            0x19, 0xbf, 0x44, 0x09, 0x69, 0x84, 0xcd, 0xfe, 0x85, 0x41, 0xba, 0xc1, 0x67, 0xdc,
            0x3b, 0x96, 0xc8, 0x50, 0x86, 0xaa, 0x30, 0xb6, 0xb6, 0xcb, 0x0c, 0x5c, 0x38, 0xad,
            0x70, 0x31, 0x66, 0xe1
        ]
    );
    assert_eq!(PublicKey::from_pem("not a key"), Err(PublicKeyError::InvalidKey));
}

#[test]
fn a_signer_signs_under_its_key() {
    let signer = Counting { pair: KeyPair::from_seed(seed(3)).unwrap(), signed: std::cell::Cell::new(0) };
    let key = *Signer::public_key(&signer);
    assert_eq!(key, *signer.pair.public_key());

    let sig = Signer::sign(&signer, b"hello");
    assert!(key.verify(b"hello", &sig));
    assert!(!key.verify(b"hullo", &sig));

    let signed = Refs::new().signed(&signer);
    assert!(key.verify(&signed.refs.canonical(), &signed.signature));
    assert_eq!(signer.signed.get(), 2);
}
