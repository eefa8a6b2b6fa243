//! A Schnorr-style challenge-response signature over the key algebra, in
//! two forms: one without a nonce, which gives the secret key away and is
//! kept to show why, and one with a fresh random nonce.
use crate::bytes::be_val;
use crate::consts::group_order;
use crate::error::Error;
use crate::group::{generator, pt_add, pt_mul, Pt};
use crate::keys::{compressed_of, secret_key_valid, PublicKey, SecretKey};
use crate::message::{sha256, sha256_of, Message};
use crate::scalar::{sadd, sinv, smul};
use crate::bignum::has_inverse;
use rand::rngs::OsRng;
use vstd::arithmetic::div_mod::{lemma_mul_mod_noop_left, lemma_mul_mod_noop_right, lemma_small_mod};
use vstd::arithmetic::mul::{lemma_mul_is_associative, lemma_mul_is_commutative};
use vstd::prelude::*;

verus! {

/// The concatenation of byte strings, in order.
pub open spec fn concat(parts: Seq<Seq<u8>>) -> Seq<u8>
    decreases parts.len(),
{
    if parts.len() == 0 {
        Seq::empty()
    } else {
        concat(parts.drop_last()) + parts.last()
    }
}

/// The views of a vector of byte vectors.
pub open spec fn views(parts: Seq<Vec<u8>>) -> Seq<Seq<u8>> {
    parts.map_values(|v: Vec<u8>| v@)
}

/// A Schnorr challenge: the SHA-256 digest of an ordered list of encodings.
#[derive(Debug, Clone, Copy, Eq, PartialEq)]
pub struct Challenge(pub [u8; 32]);

impl Challenge {
    /// Hashes the concatenation of `parts`.
    pub fn new(parts: &Vec<Vec<u8>>) -> (r: Challenge)
        ensures
            r.0@ == sha256_of(concat(views(parts@))),
    {
        let mut all: Vec<u8> = Vec::new();
        let mut i: usize = 0;
        while i < parts.len()
            invariant
                i <= parts@.len(),
                all@ == concat(views(parts@.take(i as int))),
            decreases parts@.len() - i,
        {
            let part = &parts[i];
            let ghost before = all@;
            let mut j: usize = 0;
            while j < part.len()
                invariant
                    j <= part@.len(),
                    all@ == before + part@.take(j as int),
                decreases part@.len() - j,
            {
                all.push(part[j]);
                j = j + 1;
                assert(all@ =~= before + part@.take(j as int));
            }
            assert(part@.take(j as int) =~= part@);
            assert(views(parts@.take(i + 1)).drop_last() =~= views(parts@.take(i as int)));
            i = i + 1;
        }
        assert(parts@.take(i as int) =~= parts@);
        Challenge(sha256(all.as_slice()))
    }

    /// The challenge as a scalar, read as a secret key would be.
    pub fn as_scalar(&self) -> (r: Result<SecretKey, Error>)
        ensures
            r is Ok <==> secret_key_valid(self.0@),
            r matches Ok(k) ==> k.value() == be_val(self.0@) && k.wf(),
            r matches Err(e) ==> e == Error::InvalidSecretKey,
    {
        SecretKey::parse(&self.0)
    }
}

/// The challenge bytes `H(a || b)` or `H(a || b || c)` of encodings.
pub open spec fn challenge_of(parts: Seq<Seq<u8>>) -> Seq<u8> {
    sha256_of(concat(parts))
}

/// `e = H(P || m)` for the unsafe form, `P` compressed.
fn challenge2(p: &PublicKey, m: &Message) -> (r: Result<SecretKey, Error>)
    ensures
        r is Ok <==> secret_key_valid(challenge_of(seq![p.compressed_encoding(), m.0.encoding()])),
        r matches Ok(e) ==> e.value() == be_val(challenge_of(seq![p.compressed_encoding(), m.0.encoding()])) && e.wf(),
        r matches Err(e) ==> e == Error::InvalidSecretKey,
{
    let parts: Vec<Vec<u8>> = vec![p.to_compressed_vec(), message_vec(m)];
    proof {
        assert(views(parts@) =~= seq![p.compressed_encoding(), m.0.encoding()]);
    }
    Challenge::new(&parts).as_scalar()
}

/// `e = H(R || P || m)` for the nonce form, points compressed.
fn challenge3(rp: &PublicKey, p: &PublicKey, m: &Message) -> (r: Result<SecretKey, Error>)
    ensures
        r is Ok <==> secret_key_valid(challenge_of(seq![rp.compressed_encoding(), p.compressed_encoding(), m.0.encoding()])),
        r matches Ok(e) ==> e.value() == be_val(challenge_of(seq![rp.compressed_encoding(), p.compressed_encoding(), m.0.encoding()]))
            && e.wf(),
        r matches Err(e) ==> e == Error::InvalidSecretKey,
{
    let parts: Vec<Vec<u8>> = vec![rp.to_compressed_vec(), p.to_compressed_vec(), message_vec(m)];
    proof {
        assert(views(parts@) =~= seq![rp.compressed_encoding(), p.compressed_encoding(), m.0.encoding()]);
    }
    Challenge::new(&parts).as_scalar()
}

/// The message's 32 bytes as a vector.
fn message_vec(m: &Message) -> (r: Vec<u8>)
    ensures
        r@ == m.0.encoding(),
{
    let a = m.serialize();
    let mut v: Vec<u8> = Vec::new();
    let mut i: usize = 0;
    while i < 32
        invariant
            i <= 32,
            a@ == m.0.encoding(),
            v@ == a@.take(i as int),
        decreases 32 - i,
    {
        v.push(a[i]);
        i = i + 1;
        assert(v@ =~= a@.take(i as int));
    }
    assert(a@.take(32) =~= a@);
    v
}

/// The unsafe signature without a nonce: `s = e * k` with `e = H(P || m)`.
/// Anyone who sees `s` computes `k = s * e^-1`.
pub fn sign_without_nonce(seckey: &SecretKey, m: &Message) -> (r: Result<SecretKey, Error>)
    requires
        seckey.wf(),
    ensures
        ({
            let p = compressed_of(pt_mul(seckey.value(), generator()));
            let e = challenge_of(seq![p, m.0.encoding()]);
            &&& r is Ok <==> secret_key_valid(e)
            &&& r matches Ok(s) ==> s.value() == smul(be_val(e), seckey.value()) && s.wf()
        }),
        r matches Err(e) ==> e == Error::InvalidSecretKey,
{
    let p = PublicKey::from_secret_key(seckey);
    proof { p.lemma_compressed_of(); }
    let e = challenge2(&p, m)?;
    Ok(e.mul(seckey))
}

/// Verification of the unsafe form: `s * G == e * P` with `e = H(P || m)`.
pub open spec fn verifies_without_nonce(p: Pt, m: Seq<u8>, s: nat) -> bool {
    let e = challenge_of(seq![compressed_of(p), m]);
    secret_key_valid(e) && pt_mul(s, generator()) == pt_mul(be_val(e), p)
}

/// Check a signature of the unsafe form.
pub fn verify_without_nonce(p: &PublicKey, m: &Message, s: &SecretKey) -> (r: bool)
    requires
        p.wf(),
    ensures
        r == verifies_without_nonce(p.pt(), m.0.encoding(), s.value()),
{
    proof { p.lemma_compressed_of(); }
    let e = match challenge2(p, m) {
        Ok(e) => e,
        Err(_) => return false,
    };
    PublicKey::from_secret_key(s).equals(&e.mul_point(p))
}

/// The secret key behind a signature of the unsafe form: `s * e^-1`.
pub fn recover_secret_key(s: &SecretKey, e: &SecretKey) -> (r: Option<SecretKey>)
    ensures
        r is Some <==> has_inverse(e.value(), group_order()),
        r matches Some(k) ==> k.value() == smul(s.value(), sinv(e.value())) && k.wf(),
{
    match e.inv() {
        Some(einv) => Some(s.mul(&einv)),
        None => None,
    }
}

/// Without a nonce the signature gives the key away: for a key `d` and any
/// invertible challenge `e`, `(e * d) * e^-1 == d` modulo `n`.
pub proof fn lemma_key_recovery(d: nat, e: nat)
    requires
        d < group_order(),
        has_inverse(e, group_order()),
    ensures
        smul(smul(e, d), sinv(e)) == d,
{
    let n = group_order() as int;
    let w: int = choose|w: int| 0 <= w < group_order() && #[trigger] ((e * w) % (group_order() as int)) == 1;
    let wn = w as nat;
    assert(wn < group_order() && (e * wn) % group_order() == 1);
    let x = sinv(e);
    assert(x < group_order() && (e * x) % group_order() == 1);
    let (ei, di, xi) = (e as int, d as int, x as int);
    lemma_mul_mod_noop_left(ei * di, xi, n);
    lemma_mul_is_commutative(ei, di);
    lemma_mul_is_associative(di, ei, xi);
    lemma_mul_mod_noop_right(di, ei * xi, n);
    assert(di * 1 == di);
    lemma_small_mod(d, group_order());
}

/// Verification of the nonce form: `s * G == e * P + R` with
/// `e = H(R || P || m)`.
pub open spec fn verifies(p: Pt, m: Seq<u8>, r: Pt, s: nat) -> bool {
    let e = challenge_of(seq![compressed_of(r), compressed_of(p), m]);
    secret_key_valid(e) && pt_mul(s, generator()) == pt_add(pt_mul(be_val(e), p), r)
}

/// Sign with a given nonce `k`: `R = k * G`, `e = H(R || P || m)`,
/// `s = k + e * d`. Returns `(R, s)`.
pub fn sign_with_nonce(seckey: &SecretKey, m: &Message, nonce: &SecretKey) -> (r: Result<(PublicKey, SecretKey), Error>)
    requires
        seckey.wf(),
        nonce.wf(),
    ensures
        ({
            let rp = pt_mul(nonce.value(), generator());
            let p = pt_mul(seckey.value(), generator());
            let e = challenge_of(seq![compressed_of(rp), compressed_of(p), m.0.encoding()]);
            &&& r is Ok <==> secret_key_valid(e)
            &&& r matches Ok((rk, s)) ==> rk.pt() == rp && rk.wf() && s.wf()
                && s.value() == sadd(nonce.value(), smul(be_val(e), seckey.value()))
        }),
        r matches Err(e) ==> e == Error::InvalidSecretKey,
{
    let rp = PublicKey::from_secret_key(nonce);
    let p = PublicKey::from_secret_key(seckey);
    proof {
        rp.lemma_compressed_of();
        p.lemma_compressed_of();
    }
    let e = challenge3(&rp, &p, m)?;
    Ok((rp, nonce.add(&e.mul(seckey))))
}

/// Sign with a fresh random nonce from the operating system's source. Returns `(R, s)`.
pub fn sign(seckey: &SecretKey, m: &Message, rng: &mut OsRng) -> (r: Result<(PublicKey, SecretKey), Error>)
    requires
        seckey.wf(),
    ensures
        r matches Ok((rk, s)) ==> exists|k: nat| #![trigger pt_mul(k, generator())]
            0 < k < group_order() && rk.pt() == pt_mul(k, generator()) && s.value() == sadd(
                k,
                smul(
                    be_val(challenge_of(seq![compressed_of(pt_mul(k, generator())), compressed_of(pt_mul(seckey.value(), generator())), m.0.encoding()])),
                    seckey.value(),
                ),
            ),
        r matches Err(e) ==> e == Error::InvalidSecretKey,
{
    let nonce = SecretKey::random(rng)?;
    sign_with_nonce(seckey, m, &nonce)
}

/// Check a signature `(R, s)` of the nonce form against a public key.
pub fn verify(p: &PublicKey, m: &Message, rk: &PublicKey, s: &SecretKey) -> (r: bool)
    requires
        p.wf(),
        rk.wf(),
    ensures
        r == verifies(p.pt(), m.0.encoding(), rk.pt(), s.value()),
{
    proof {
        p.lemma_compressed_of();
        rk.lemma_compressed_of();
    }
    let e = match challenge3(rk, p, m) {
        Ok(e) => e,
        Err(_) => return false,
    };
    PublicKey::from_secret_key(s).equals(&e.mul_point(p).add(rk))
}

} // verus!
