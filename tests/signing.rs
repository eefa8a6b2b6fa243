use libsecp256k1_rs::schnorr::{self, Challenge};
use libsecp256k1_rs::{Error, Message, PublicKey, RecoveryId, SecretKey, Signature};

fn hex32(s: &str) -> [u8; 32] {
    let mut out = [0u8; 32];
    for i in 0..32 {
        out[i] = u8::from_str_radix(&s[2 * i..2 * i + 2], 16).unwrap();
    }
    out
}

fn key_bytes(last: u8) -> [u8; 32] {
    let mut b = [0u8; 32];
    b[31] = last;
    b
}

#[test]
fn message_constructor() {
    let s = b"secret";
    assert!(Message::hash(s).is_ok());
}

#[test]
fn message_hash_is_sha256() {
    let m = Message::hash(b"Satoshi Nakamoto").unwrap();
    assert_eq!(m.serialize(), hex32("a0dc65ffca799873cbea0ac274015b9526505daaaed385155425f7337704883e"));
}

#[test]
fn message_from_digest_over_order_fails() {
    assert_eq!(Message::from_digest(&[0xffu8; 32]), Err(Error::InvalidSecretKey));
    assert_eq!(Message::from_digest(&[0u8; 32]), Err(Error::InvalidSecretKey));
    assert!(Message::from_digest(&key_bytes(9)).is_ok());
}

#[test]
fn message_parse_reduces() {
    let order = hex32("fffffffffffffffffffffffffffffffebaaedce6af48a03bbfd25e8cd0364141");
    assert_eq!(Message::parse(&order).serialize(), [0u8; 32]);
    let mut above = order;
    above[31] = 0x45;
    assert_eq!(Message::parse(&above).serialize(), key_bytes(4));
    assert_eq!(Message::parse(&key_bytes(7)).serialize(), key_bytes(7));
}

#[test]
fn ecdsa_known_signature() {
    let k = SecretKey::parse(&key_bytes(1)).unwrap();
    let m = Message::hash(b"Satoshi Nakamoto").unwrap();
    let (sig, recid) = Message::sign(&m, &k).unwrap();
    assert_eq!(sig.r.b32(), hex32("934b1ea10a4b3c1757e2b0c017d0b6143ce3c9a7e6a4a49860d7a6ab210ee3d8"));
    assert_eq!(sig.s.b32(), hex32("dbbd3162d46e9f9bef7feb87c16dc13b4f6568a87f4e83f728e2443ba586675c"));
    assert_eq!(recid, RecoveryId(0));
}

#[test]
fn ecdsa_signing_is_deterministic() {
    let k = SecretKey::parse(&hex32("c85afbacaa2c0d7e9a0d2b5e8c2a8bd7f43b2f05c2e7f1a4d3b5a6e7f8091a2b")).unwrap();
    let m = Message::hash(b"hello").unwrap();
    let a = Message::sign(&m, &k).unwrap();
    let b = Message::sign(&m, &k).unwrap();
    assert_eq!(a, b);
    let other = Message::hash(b"hellp").unwrap();
    assert_ne!(Message::sign(&other, &k).unwrap().0, a.0);
}

#[test]
fn ecdsa_signature_verifies() {
    for last in [1u8, 5, 77] {
        let k = SecretKey::parse(&key_bytes(last)).unwrap();
        let p = PublicKey::from_secret_key(&k);
        let m = Message::hash(b"a message").unwrap();
        let (sig, _) = Message::sign(&m, &k).unwrap();
        assert!(Message::verify(&m, &sig, &p));
        let other = PublicKey::from_secret_key(&SecretKey::parse(&key_bytes(last + 1)).unwrap());
        assert!(!Message::verify(&m, &sig, &other));
    }
}

#[test]
fn ecdsa_mutated_signature_fails() {
    let k = SecretKey::parse(&key_bytes(42)).unwrap();
    let p = PublicKey::from_secret_key(&k);
    let m = Message::hash(b"mutate me").unwrap();
    let (sig, _) = Message::sign(&m, &k).unwrap();
    let bytes = sig.serialize();
    for i in [0usize, 17, 31, 32, 50, 63] {
        let mut b = bytes;
        b[i] ^= 0x01;
        match Signature::parse(&b) {
            Ok(bad) => assert!(!Message::verify(&m, &bad, &p)),
            Err(e) => assert_eq!(e, Error::InvalidSignature),
        }
    }
    assert_eq!(Signature::parse(&bytes).unwrap(), sig);
}

#[test]
fn signature_parse_rejects_out_of_range() {
    assert_eq!(Signature::parse(&[0xffu8; 64]), Err(Error::InvalidSignature));
    let m = Message::hash(b"x").unwrap();
    let p = PublicKey::from_secret_key(&SecretKey::parse(&key_bytes(3)).unwrap());
    let zero = Signature::parse(&[0u8; 64]).unwrap();
    assert!(!Message::verify(&m, &zero, &p));
}

#[test]
fn schnorr_without_nonce_leaks_key() {
    let k = SecretKey::parse(&hex32("1f1e1d1c1b1a191817161514131211100f0e0d0c0b0a09080706050403020100")).unwrap();
    let m = Message::hash(b"Meet me at 12").unwrap();
    let p = PublicKey::from_secret_key(&k);
    let s = schnorr::sign_without_nonce(&k, &m).unwrap();
    assert!(schnorr::verify_without_nonce(&p, &m, &s));
    let e = Challenge::new(&vec![p.serialize_compressed().to_vec(), m.serialize().to_vec()]).as_scalar().unwrap();
    assert_eq!(s, e.mul(&k));
    let hacked = schnorr::recover_secret_key(&s, &e).unwrap();
    assert_eq!(hacked, k);
}

#[test]
fn schnorr_end_to_end() {
    let k = SecretKey::parse(&hex32("0123456789abcdef0123456789abcdef0123456789abcdef0123456789abcdef")).unwrap();
    let m = Message::hash(b"Meet me at 12").unwrap();
    let p = PublicKey::from_secret_key(&k);
    let mut rng = rand::rngs::OsRng;
    let (r, s) = schnorr::sign(&k, &m, &mut rng).unwrap();
    assert!(schnorr::verify(&p, &m, &r, &s));
    let e = Challenge::new(&vec![r.serialize_compressed().to_vec(), p.serialize_compressed().to_vec(), m.serialize().to_vec()])
        .as_scalar()
        .unwrap();
    assert_eq!(PublicKey::from_secret_key(&s), e.mul_point(&p).add(&r));
    let mut flipped = m.serialize();
    flipped[31] ^= 0x01;
    let m2 = Message::parse(&flipped);
    assert!(!schnorr::verify(&p, &m2, &r, &s));
}

#[test]
fn schnorr_nonces_differ() {
    let k = SecretKey::parse(&key_bytes(99)).unwrap();
    let m = Message::hash(b"twice").unwrap();
    let mut rng = rand::rngs::OsRng;
    let (r1, s1) = schnorr::sign(&k, &m, &mut rng).unwrap();
    let (r2, s2) = schnorr::sign(&k, &m, &mut rng).unwrap();
    assert_ne!(r1, r2);
    assert_ne!(s1, s2);
    let p = PublicKey::from_secret_key(&k);
    assert!(schnorr::verify(&p, &m, &r1, &s1));
    assert!(schnorr::verify(&p, &m, &r2, &s2));
}

#[test]
fn schnorr_with_given_nonce() {
    let k = SecretKey::parse(&key_bytes(11)).unwrap();
    let nonce = SecretKey::parse(&key_bytes(13)).unwrap();
    let m = Message::parse(&key_bytes(1));
    let (r, s) = schnorr::sign_with_nonce(&k, &m, &nonce).unwrap();
    assert_eq!(r, PublicKey::from_secret_key(&nonce));
    let p = PublicKey::from_secret_key(&k);
    assert!(schnorr::verify(&p, &m, &r, &s));
    // s = k_nonce + e * d
    let e = Challenge::new(&vec![r.serialize_compressed().to_vec(), p.serialize_compressed().to_vec(), m.serialize().to_vec()])
        .as_scalar()
        .unwrap();
    assert_eq!(s, nonce.add(&e.mul(&k)));
}
