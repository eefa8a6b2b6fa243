//! Messages to sign, the deterministic nonce generator, and ECDSA-style
//! signing and verification.
use crate::bignum::has_inverse;
use crate::bytes::{be_lt, be_val, put32, take32};
use crate::consts::order_bytes;
use crate::group::{generator, pt_add, pt_mul, Affine, Pt};
use crate::scalar::{lemma_scalar_value_determines, sadd, sinv, smul};
use crate::consts::group_order;
use crate::error::Error;
use crate::keys::{secret_key_valid, PublicKey, SecretKey};
use crate::scalar::Scalar;
use hmac_drbg::HmacDRBG;
use sha2::digest::consts::U32;
use sha2::Digest;
use sha2::Sha256;
use vstd::prelude::*;

verus! {

/// The SHA-256 digest of a byte string.
pub uninterp spec fn sha256_of(b: Seq<u8>) -> Seq<u8>;

/// Relies on sha2's `Sha256::digest`: the 32-byte SHA-256 digest of `b`,
/// which depends on `b` alone.
#[verifier::external_body]
pub(crate) fn sha256(b: &[u8]) -> (r: [u8; 32])
    ensures
        r@ == sha256_of(b@),
{
    let d = Sha256::digest(b);
    let mut out = [0u8; 32];
    out.copy_from_slice(&d);
    out
}

/// Block `i` (counted from 0) of the output of HMAC-DRBG over SHA-256
/// seeded with `seckey` as entropy and `message` as nonce, with no
/// personalization string, drawn 32 bytes at a time.
pub uninterp spec fn drbg_block(seckey: Seq<u8>, message: Seq<u8>, i: nat) -> Seq<u8>;

/// The HMAC-DRBG state itself, opaque here.
#[verifier::external_body]
struct DrbgState {
    drbg: HmacDRBG<Sha256>,
}

/// The deterministic bit generator that nonces are drawn from, with the
/// seed it was made from and the number of blocks drawn so far.
pub struct NonceGenerator {
    state: DrbgState,
    seckey: Ghost<Seq<u8>>,
    message: Ghost<Seq<u8>>,
    drawn: Ghost<nat>,
}

/// Relies on hmac-drbg's `HmacDRBG::new`: a generator seeded with the secret
/// key bytes as entropy and the message bytes as nonce, with no
/// personalization string, that has drawn nothing yet.
#[verifier::external_body]
fn drbg_new(seckey: &[u8; 32], message: &[u8; 32]) -> (r: NonceGenerator)
    ensures
        r.seckey@ == seckey@,
        r.message@ == message@,
        r.drawn@ == 0,
{
    NonceGenerator {
        state: DrbgState { drbg: HmacDRBG::<Sha256>::new(seckey, message, &[]) },
        seckey: Ghost(seckey@),
        message: Ghost(message@),
        drawn: Ghost(0),
    }
}

/// Relies on hmac-drbg's `HmacDRBG::generate`: the next 32 bytes of the
/// generator's output, which depend on the seed and on how many blocks were
/// drawn before alone.
#[verifier::external_body]
fn drbg_generate(g: &mut NonceGenerator) -> (r: [u8; 32])
    ensures
        r@ == drbg_block(old(g).seckey@, old(g).message@, old(g).drawn@),
        final(g).seckey == old(g).seckey,
        final(g).message == old(g).message,
        final(g).drawn@ == old(g).drawn@ + 1,
{
    let out = g.state.drbg.generate::<U32>(None);
    g.drawn = Ghost(g.drawn@ + 1);
    let mut b = [0u8; 32];
    b.copy_from_slice(&out);
    b
}

/// How many generator outputs `Message::sign` tries as the nonce. One output
/// is refused with probability below `2^-127`.
pub const NONCE_ATTEMPTS: u32 = 64;

/// The recovery code: bit 1 says that the nonce point's x-coordinate was
/// not below `n`, bit 0 that its y-coordinate is odd.
pub open spec fn recovery_code(overflow: bool, odd: bool) -> u8 {
    ((if overflow { 2int } else { 0int }) + (if odd { 1int } else { 0int })) as u8
}

/// ECDSA signing with secret `d`, message `m` and nonce `k`: `R = k * G`,
/// `r = R.x mod n`, `s = k^-1 * (m + r * d) mod n`.
pub open spec fn raw_sign(d: nat, m: nat, k: nat) -> Result<(nat, nat, u8), Error> {
    match pt_mul(k, generator()) {
        Pt::Inf => Err(Error::InvalidSignature),
        Pt::At(x, y) => {
            let r = x % group_order();
            if r == 0 || !has_inverse(k, group_order()) {
                Err(Error::InvalidSignature)
            } else {
                let s = smul(sinv(k), sadd(smul(r, d), m));
                if s == 0 {
                    Err(Error::InvalidMessage)
                } else {
                    Ok((r, s, recovery_code(x >= group_order(), y % 2 == 1)))
                }
            }
        },
    }
}

/// The index of the first DRBG block, from `i` on and below
/// `NONCE_ATTEMPTS`, that is a valid secret key.
pub open spec fn nonce_index(seckey: Seq<u8>, message: Seq<u8>, i: nat) -> Option<nat>
    decreases NONCE_ATTEMPTS - i,
{
    if i >= NONCE_ATTEMPTS {
        None
    } else if secret_key_valid(drbg_block(seckey, message, i)) {
        Some(i)
    } else {
        nonce_index(seckey, message, i + 1)
    }
}

/// What deterministic signing gives for secret `d` and message `m`, with
/// encodings `db` and `mb`: ECDSA with the first valid DRBG block as the
/// nonce, or `InvalidMessage` where no block is valid.
pub open spec fn deterministic_sign(d: nat, m: nat, db: Seq<u8>, mb: Seq<u8>) -> Result<(nat, nat, u8), Error> {
    match nonce_index(db, mb, 0) {
        None => Err(Error::InvalidMessage),
        Some(j) => raw_sign(d, m, be_val(drbg_block(db, mb, j))),
    }
}

/// Whether a signing result is the one that deterministic signing gives.
pub open spec fn signs_as(r: Result<(Signature, RecoveryId), Error>, d: nat, m: nat, db: Seq<u8>, mb: Seq<u8>) -> bool {
    match r {
        Ok((sig, id)) => sig.r.wf() && sig.s.wf()
            && deterministic_sign(d, m, db, mb) == Ok::<(nat, nat, u8), Error>((sig.r.value(), sig.s.value(), id.0)),
        Err(e) => deterministic_sign(d, m, db, mb) == Err::<(nat, nat, u8), Error>(e),
    }
}

/// ECDSA verification of `(r, s)` on message `m` against the point `q`:
/// with `w = s^-1`, the point `(m w) * G + (r w) * q` has an x-coordinate
/// congruent to `r` modulo `n`.
pub open spec fn ecdsa_verifies(m: nat, r: nat, s: nat, q: Pt) -> bool {
    &&& 0 < r < group_order()
    &&& 0 < s < group_order()
    &&& has_inverse(s, group_order())
    &&& {
        let w = sinv(s);
        match pt_add(pt_mul(smul(m, w), generator()), pt_mul(smul(r, w), q)) {
            Pt::Inf => false,
            Pt::At(x, _) => x % group_order() == r,
        }
    }
}

/// Hashed message input to a signature.
#[derive(Debug, Clone, Copy, Eq, PartialEq)]
pub struct Message(pub Scalar);

/// An ECDSA signature `(r, s)`.
#[derive(Debug, Clone, Copy, Eq, PartialEq)]
pub struct Signature {
    pub r: Scalar,
    pub s: Scalar,
}

/// The hint that lets a verifier rebuild the nonce point; in `0..=3`.
#[derive(Debug, Clone, Copy, Eq, PartialEq)]
pub struct RecoveryId(pub u8);

impl Message {
    pub open(crate) spec fn value(self) -> nat {
        self.0.value()
    }

    pub open(crate) spec fn wf(self) -> bool {
        self.0.wf()
    }

    /// A message from a 32-byte digest, read as a secret key would be.
    pub fn from_digest(d: &[u8; 32]) -> (r: Result<Message, Error>)
        ensures
            r is Ok <==> secret_key_valid(d@),
            r matches Ok(m) ==> m.value() == be_val(d@) && m.wf(),
            r matches Err(e) ==> e == Error::InvalidSecretKey,
    {
        match SecretKey::parse(d) {
            Ok(k) => Ok(Message::from_secret_key(k)),
            Err(e) => Err(e),
        }
    }

    /// The message whose scalar is the SHA-256 digest of `b`.
    pub fn hash(b: &[u8]) -> (r: Result<Message, Error>)
        ensures
            r is Ok <==> secret_key_valid(sha256_of(b@)),
            r matches Ok(m) ==> m.value() == be_val(sha256_of(b@)) && m.wf(),
            r matches Err(e) ==> e == Error::InvalidSecretKey,
    {
        let h = sha256(b);
        Self::from_digest(&h)
    }

    /// Read 32 big-endian bytes reduced modulo `n`.
    pub fn parse(p: &[u8; 32]) -> (r: Message)
        ensures
            r.value() == be_val(p@) % group_order(),
            r.wf(),
    {
        let (m, _) = Scalar::set_b32(p);
        Message(m)
    }

    pub fn serialize(&self) -> (r: [u8; 32])
        ensures
            r@ == self.0.encoding(),
            be_val(r@) == self.value(),
    {
        self.0.b32()
    }

    /// The message that holds a secret key's scalar.
    pub fn from_secret_key(k: SecretKey) -> (r: Message)
        ensures
            r.value() == k.value(),
            r.wf() == k.wf(),
    {
        Message(k.scalar)
    }

    /// Sign with a given nonce, a valid secret key encoding.
    pub fn sign_with_nonce(message: &Message, seckey: &SecretKey, nonce: &SecretKey) -> (r: Result<(Signature, RecoveryId), Error>)
        requires
            message.wf(),
            seckey.wf(),
            nonce.wf(),
        ensures
            r is Ok <==> raw_sign(seckey.value(), message.value(), nonce.value()) is Ok,
            r matches Ok((sig, id)) ==> raw_sign(seckey.value(), message.value(), nonce.value())
                == Ok::<(nat, nat, u8), Error>((sig.r.value(), sig.s.value(), id.0)),
            r matches Ok((sig, _)) ==> sig.r.wf() && sig.s.wf(),
            r matches Err(e) ==> raw_sign(seckey.value(), message.value(), nonce.value())
                == Err::<(nat, nat, u8), Error>(e),
    {
        let rp = Affine::generator().mul(&nonce.scalar);
        if rp.is_infinity() {
            return Err(Error::InvalidSignature);
        }
        let (sigr, overflow) = Scalar::set_b32(&rp.x.serialize());
        if sigr.is_zero() {
            return Err(Error::InvalidSignature);
        }
        let kinv = match nonce.scalar.inv() {
            Some(i) => i,
            None => return Err(Error::InvalidSignature),
        };
        let recid: u8 = (if overflow { 2u8 } else { 0u8 }) + (if rp.y.is_odd() { 1u8 } else { 0u8 });
        let n = sigr.mul(&seckey.scalar).add(&message.0);
        let sigs = kinv.mul(&n);
        if sigs.is_zero() {
            return Err(Error::InvalidMessage);
        }
        Ok((Signature { r: sigr, s: sigs }, RecoveryId(recid)))
    }

    /// Sign a message with a secret key. The nonce is the first block of an
    /// HMAC-DRBG seeded with the key and the message that is a valid secret
    /// key, so equal inputs give equal signatures.
    pub fn sign(message: &Message, seckey: &SecretKey) -> (r: Result<(Signature, RecoveryId), Error>)
        requires
            message.wf(),
            seckey.wf(),
        ensures
            signs_as(r, seckey.value(), message.value(), seckey.encoding(), message.0.encoding()),
    {
        let seckey_b32 = seckey.serialize();
        let message_b32 = message.serialize();
        let ghost db = seckey.encoding();
        let ghost mb = message.0.encoding();
        let mut drbg = drbg_new(&seckey_b32, &message_b32);
        let mut attempt: u32 = 0;
        while attempt < NONCE_ATTEMPTS
            invariant
                message.wf(),
                seckey.wf(),
                attempt <= NONCE_ATTEMPTS,
                db == seckey.encoding(),
                mb == message.0.encoding(),
                drbg.seckey@ == db,
                drbg.message@ == mb,
                drbg.drawn@ == attempt as nat,
                nonce_index(db, mb, 0) == nonce_index(db, mb, attempt as nat),
            decreases NONCE_ATTEMPTS - attempt,
        {
            let generated = drbg_generate(&mut drbg);
            match SecretKey::parse(&generated) {
                Ok(nonce) => {
                    assert(nonce_index(db, mb, attempt as nat) == Some(attempt as nat));
                    assert(nonce.value() == be_val(drbg_block(db, mb, attempt as nat)));
                    assert(deterministic_sign(seckey.value(), message.value(), db, mb) == raw_sign(
                        seckey.value(),
                        message.value(),
                        nonce.value(),
                    ));
                    let r = Self::sign_with_nonce(message, seckey, &nonce);
                    return r;
                },
                Err(_) => {},
            }
            assert(nonce_index(db, mb, attempt as nat) == nonce_index(db, mb, (attempt + 1) as nat));
            attempt = attempt + 1;
        }
        assert(nonce_index(db, mb, NONCE_ATTEMPTS as nat) is None);
        Err(Error::InvalidMessage)
    }

    /// Check an ECDSA signature on this message against a public key.
    pub fn verify(message: &Message, signature: &Signature, pubkey: &PublicKey) -> (r: bool)
        requires
            message.wf(),
            pubkey.wf(),
        ensures
            r == ecdsa_verifies(message.value(), signature.r.value(), signature.s.value(), pubkey.pt()),
    {
        if signature.r.is_zero() || signature.s.is_zero() {
            return false;
        }
        if !(be_lt(&signature.r.b32(), &order_bytes()) && be_lt(&signature.s.b32(), &order_bytes())) {
            return false;
        }
        let w = match signature.s.inv() {
            Some(w) => w,
            None => return false,
        };
        let u1 = message.0.mul(&w);
        let u2 = signature.r.mul(&w);
        let x = Affine::generator().mul(&u1).add(&pubkey.point.mul(&u2));
        if x.is_infinity() {
            return false;
        }
        let (xr, _) = Scalar::set_b32(&x.x.serialize());
        xr.equals(&signature.r)
    }
}

impl Signature {
    /// Read `r` and `s` from 64 big-endian bytes; each must be below `n`.
    pub fn parse(p: &[u8; 64]) -> (r: Result<Signature, Error>)
        ensures
            r is Ok <==> be_val(p@.subrange(0, 32)) < group_order() && be_val(p@.subrange(32, 64)) < group_order(),
            r matches Ok(sig) ==> sig.r.value() == be_val(p@.subrange(0, 32)) && sig.s.value() == be_val(p@.subrange(32, 64)),
            r matches Err(e) ==> e == Error::InvalidSignature,
    {
        let (r, ro) = Scalar::set_b32(&take32(p.as_slice(), 0));
        let (s, so) = Scalar::set_b32(&take32(p.as_slice(), 32));
        if ro || so {
            Err(Error::InvalidSignature)
        } else {
            Ok(Signature { r, s })
        }
    }

    /// `r` then `s`, 32 big-endian bytes each.
    pub fn serialize(&self) -> (r: [u8; 64])
        ensures
            r@ == self.r.encoding() + self.s.encoding(),
    {
        let mut ret = [0u8; 64];
        put32(&mut ret, 0, &self.r.b32());
        put32(&mut ret, 32, &self.s.b32());
        assert(ret@ =~= self.r.encoding() + self.s.encoding());
        ret
    }
}

/// Signing is deterministic: two results that both are what signing gives
/// for the same key and message are equal, signature and recovery id alike.
pub proof fn lemma_sign_deterministic(
    r1: Result<(Signature, RecoveryId), Error>,
    r2: Result<(Signature, RecoveryId), Error>,
    d: nat,
    m: nat,
    db: Seq<u8>,
    mb: Seq<u8>,
)
    requires
        signs_as(r1, d, m, db, mb),
        signs_as(r2, d, m, db, mb),
    ensures
        r1 == r2,
{
    match (r1, r2) {
        (Ok((s1, i1)), Ok((s2, i2))) => {
            lemma_scalar_value_determines(s1.r, s2.r);
            lemma_scalar_value_determines(s1.s, s2.s);
        },
        _ => {},
    }
}

} // verus!
