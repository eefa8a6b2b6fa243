use libsecp256k1_rs::{Error, PublicKey, SecretKey};

fn hex32(s: &str) -> [u8; 32] {
    let mut out = [0u8; 32];
    for i in 0..32 {
        out[i] = u8::from_str_radix(&s[2 * i..2 * i + 2], 16).unwrap();
    }
    out
}

fn key_bytes(last: u8) -> [u8; 32] {
    let mut b = [0u8; 32];
    b[31] = last;
    b
}

const GX: &str = "79be667ef9dcbbac55a06295ce870b07029bfcdb2dce28d959f2815b16f81798";
const GY: &str = "483ada7726a3c4655da4fbfc0e1108a8fd17b448a68554199c47d08ffb10d4b8";
const G2X: &str = "c6047f9441ed7d6d3045406e95c07cd85c778e4b8cef3ca7abac09b95c709ee5";
const G2Y: &str = "1ae168fea63dc339a3c58419466ceaeef7f632653266d0e1236431a950cfe52a";
const ORDER: &str = "fffffffffffffffffffffffffffffffebaaedce6af48a03bbfd25e8cd0364141";

fn uncompressed(tag: u8, x: &str, y: &str) -> [u8; 65] {
    let mut b = [0u8; 65];
    b[0] = tag;
    b[1..33].copy_from_slice(&hex32(x));
    b[33..65].copy_from_slice(&hex32(y));
    b
}

fn compressed(tag: u8, x: &[u8; 32]) -> [u8; 33] {
    let mut b = [0u8; 33];
    b[0] = tag;
    b[1..33].copy_from_slice(x);
    b
}

#[test]
fn secret_key_round_trip() {
    let b = hex32("0000000000000000000000000000000000000000000000000000000000c0ffee");
    let k = SecretKey::parse(&b).unwrap();
    assert_eq!(k.serialize(), b);
    let top = hex32("fffffffffffffffffffffffffffffffebaaedce6af48a03bbfd25e8cd0364140");
    assert_eq!(SecretKey::parse(&top).unwrap().serialize(), top);
}

#[test]
fn secret_key_zero_rejected() {
    assert_eq!(SecretKey::parse(&[0u8; 32]), Err(Error::InvalidSecretKey));
}

#[test]
fn secret_key_order_rejected() {
    assert_eq!(SecretKey::parse(&hex32(ORDER)), Err(Error::InvalidSecretKey));
    assert_eq!(SecretKey::parse(&[0xffu8; 32]), Err(Error::InvalidSecretKey));
}

#[test]
fn public_key_of_one_is_generator() {
    let k = SecretKey::parse(&key_bytes(1)).unwrap();
    let p = PublicKey::from_secret_key(&k);
    assert_eq!(p.serialize(), uncompressed(4, GX, GY));
    assert_eq!(p.serialize_compressed(), compressed(2, &hex32(GX)));
}

#[test]
fn public_key_of_two() {
    let k = SecretKey::parse(&key_bytes(2)).unwrap();
    let p = PublicKey::from_secret_key(&k);
    assert_eq!(p.serialize(), uncompressed(4, G2X, G2Y));
    assert_eq!(p.serialize_compressed(), compressed(2, &hex32(G2X)));
}

#[test]
fn public_key_uncompressed_round_trip() {
    let b = uncompressed(4, G2X, G2Y);
    let p = PublicKey::parse(&b).unwrap();
    assert_eq!(p.serialize(), b);
}

#[test]
fn public_key_compressed_round_trip() {
    let even = compressed(2, &hex32(G2X));
    assert_eq!(PublicKey::parse_compressed(&even).unwrap().serialize_compressed(), even);
    let odd = compressed(3, &hex32(G2X));
    let p = PublicKey::parse_compressed(&odd).unwrap();
    assert_eq!(p.serialize_compressed(), odd);
    // the odd point is the negation of the even one: y' = p - y
    let full = p.serialize();
    assert_eq!(&full[1..33], &hex32(G2X)[..]);
    assert_eq!(full[64] % 2, 1);
}

#[test]
fn public_key_hybrid_forms() {
    // y of 2G is even
    assert!(PublicKey::parse(&uncompressed(6, G2X, G2Y)).is_ok());
    assert_eq!(PublicKey::parse(&uncompressed(7, G2X, G2Y)), Err(Error::InvalidPublicKey));
    let p = PublicKey::parse(&uncompressed(6, G2X, G2Y)).unwrap();
    assert_eq!(p.serialize(), uncompressed(4, G2X, G2Y));
}

#[test]
fn public_key_tag_five_rejected() {
    assert_eq!(PublicKey::parse(&uncompressed(5, G2X, G2Y)), Err(Error::InvalidPublicKey));
    assert_eq!(PublicKey::parse_compressed(&compressed(5, &hex32(G2X))), Err(Error::InvalidPublicKey));
}

#[test]
fn public_key_off_curve_rejected() {
    // 5^3 + 7 has no square root modulo p
    assert_eq!(PublicKey::parse_compressed(&compressed(2, &key_bytes(5))), Err(Error::InvalidPublicKey));
    // (Gx, Gy + 1) is not on the curve
    let mut b = uncompressed(4, GX, GY);
    b[64] = b[64].wrapping_add(1);
    assert_eq!(PublicKey::parse(&b), Err(Error::InvalidPublicKey));
}

#[test]
fn public_key_coordinate_not_below_prime_rejected() {
    assert_eq!(PublicKey::parse_compressed(&compressed(2, &[0xffu8; 32])), Err(Error::InvalidPublicKey));
}

#[test]
fn derived_key_compressed_round_trip() {
    for last in [1u8, 2, 3, 7, 200] {
        let k = SecretKey::parse(&key_bytes(last)).unwrap();
        let p = PublicKey::from_secret_key(&k);
        let q = PublicKey::parse_compressed(&p.serialize_compressed()).unwrap();
        assert_eq!(p, q);
        let r = PublicKey::parse(&p.serialize()).unwrap();
        assert_eq!(p, r);
    }
}

#[test]
fn key_algebra() {
    let one = SecretKey::parse(&key_bytes(1)).unwrap();
    let two = SecretKey::parse(&key_bytes(2)).unwrap();
    let three = SecretKey::parse(&key_bytes(3)).unwrap();
    let six = SecretKey::parse(&key_bytes(6)).unwrap();
    assert_eq!(one.add(&two), three);
    assert_eq!(two.mul(&three), six);
    assert_eq!(two.neg().add(&two).serialize(), [0u8; 32]);
    let minus_one = hex32("fffffffffffffffffffffffffffffffebaaedce6af48a03bbfd25e8cd0364140");
    assert_eq!(one.neg().serialize(), minus_one);
    assert_eq!(two.inv().unwrap().mul(&two), one);
    let g = PublicKey::from_secret_key(&one);
    assert_eq!(g.add(&g), PublicKey::from_secret_key(&two));
    assert_eq!(three.mul_point(&g), PublicKey::from_secret_key(&three));
    assert!(g.equals(&PublicKey::from_secret_key(&one)));
    assert!(!g.equals(&PublicKey::from_secret_key(&two)));
}

#[test]
fn random_secret_keys_differ() {
    let mut rng = rand::rngs::OsRng;
    let a = SecretKey::random(&mut rng).unwrap();
    let b = SecretKey::random(&mut rng).unwrap();
    assert_ne!(a, b);
    assert!(SecretKey::parse(&a.serialize()).is_ok());
}
