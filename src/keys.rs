//! Secret and public keys: parsing, serialization, derivation and key
//! algebra.
use crate::bytes::{be_bytes, be_val, lemma_be_bytes_of_val, put32, take32};
use crate::consts::{field_prime, group_order};
use crate::error::Error;
use crate::field::{fmul, fsub, FieldElement};
use crate::group::{curve_rhs, generator, on_curve, pt_add, pt_mul, sqrt_candidate, Affine, Pt};
use crate::scalar::{sadd, sinv, smul, sneg, Scalar};
use crate::bignum::has_inverse;
use rand::rngs::OsRng;
use rand::RngCore;
use vstd::prelude::*;

verus! {

/// How many draws `SecretKey::random` makes before it gives up. One draw
/// fails with probability below `2^-127`.
pub const RANDOM_KEY_ATTEMPTS: u32 = 64;

/// Whether 32 bytes encode a valid secret key: a number in `[1, n)`.
pub open spec fn secret_key_valid(b: Seq<u8>) -> bool {
    0 < be_val(b) < group_order()
}

/// The x-coordinate bytes of an encoded public key.
pub open spec fn key_x(b: Seq<u8>) -> Seq<u8> {
    b.subrange(1, 33)
}

/// The y-coordinate bytes of an uncompressed public key.
pub open spec fn key_y(b: Seq<u8>) -> Seq<u8> {
    b.subrange(33, 65)
}

/// Whether 65 bytes are an accepted uncompressed (tag 4) or hybrid
/// (tag 6 even, tag 7 odd) encoding of a point on the curve.
pub open spec fn full_key_accepted(b: Seq<u8>) -> bool {
    let x = be_val(key_x(b));
    let y = be_val(key_y(b));
    &&& (b[0] == 4 || b[0] == 6 || b[0] == 7)
    &&& x < field_prime()
    &&& y < field_prime()
    &&& (b[0] == 6 || b[0] == 7) ==> ((y % 2 == 1) == (b[0] == 7))
    &&& on_curve(x, y)
}

/// The y-coordinate that decompression gives for `x` and the wanted parity.
pub open spec fn decompressed_y(x: nat, odd: bool) -> nat {
    let c = sqrt_candidate(curve_rhs(x));
    if (c % 2 == 1) == odd {
        c
    } else {
        fsub(0, c)
    }
}

/// Whether 33 bytes are an accepted compressed encoding (tag 2 even,
/// tag 3 odd) of a point on the curve.
pub open spec fn compressed_key_accepted(b: Seq<u8>) -> bool {
    let x = be_val(key_x(b));
    let c = sqrt_candidate(curve_rhs(x));
    &&& (b[0] == 2 || b[0] == 3)
    &&& x < field_prime()
    &&& fmul(c, c) == curve_rhs(x)
    &&& on_curve(x, decompressed_y(x, b[0] == 3))
}

/// The compressed encoding of a point: the parity tag and 32 bytes of x
/// (the point at infinity has both coordinates zero).
pub open spec fn compressed_of(p: Pt) -> Seq<u8> {
    match p {
        Pt::Inf => seq![2u8] + be_bytes(0, 32),
        Pt::At(x, y) => seq![if y % 2 == 1 { 3u8 } else { 2u8 }] + be_bytes(x, 32),
    }
}

/// Public key: a point on the curve.
#[derive(Debug, Clone, Copy, Eq, PartialEq)]
pub struct PublicKey {
    pub(crate) point: Affine,
}

/// Secret key: a 256-bit scalar.
#[derive(Debug, Clone, Copy, Eq, PartialEq)]
pub struct SecretKey {
    pub(crate) scalar: Scalar,
}

/// Relies on rand_core's `OsRng::try_fill_bytes`: 32 bytes from the
/// operating system's random source, or `None` where that source reports an
/// error.
#[verifier::external_body]
fn random_bytes(rng: &mut OsRng) -> (r: Option<[u8; 32]>) {
    let mut b = [0u8; 32];
    match rng.try_fill_bytes(&mut b) {
        Ok(()) => Some(b),
        Err(_) => None,
    }
}

#[verifier::external_type_specification]
#[verifier::external_body]
pub struct ExOsRng(OsRng);

impl PublicKey {
    /// The point, as a mathematical object.
    pub open(crate) spec fn pt(self) -> Pt {
        self.point.pt()
    }

    /// The encodings of the coordinates held.
    pub open(crate) spec fn x_encoding(self) -> Seq<u8> {
        self.point.x.encoding()
    }

    pub open(crate) spec fn y_encoding(self) -> Seq<u8> {
        self.point.y.encoding()
    }

    /// Whether the y-coordinate is odd.
    pub open(crate) spec fn y_odd(self) -> bool {
        self.point.y.value() % 2 == 1
    }

    /// The 33-byte compressed encoding.
    pub open(crate) spec fn compressed_encoding(self) -> Seq<u8> {
        seq![if self.y_odd() { 3u8 } else { 2u8 }] + self.x_encoding()
    }

    /// Coordinates fully reduced.
    pub open(crate) spec fn wf(self) -> bool {
        self.point.wf()
    }

    /// Create a public key from a secret key: `P = k * G`.
    pub fn from_secret_key(seckey: &SecretKey) -> (r: PublicKey)
        ensures
            r.pt() == pt_mul(seckey.value(), generator()),
            r.wf(),
    {
        PublicKey { point: Affine::generator().mul(&seckey.scalar) }
    }

    /// Create a public key from its 33-byte compressed encoding: a tag byte
    /// that holds the parity of y (2 even, 3 odd), then x.
    pub fn parse_compressed(p: &[u8; 33]) -> (r: Result<PublicKey, Error>)
        ensures
            r is Ok <==> compressed_key_accepted(p@),
            r matches Ok(k) ==> k.wf() && k.x_encoding() == key_x(p@) && k.pt() == Pt::At(
                be_val(key_x(p@)),
                decompressed_y(be_val(key_x(p@)), p@[0] == 3),
            ),
            r matches Err(e) ==> e == Error::InvalidPublicKey,
    {
        if !(p[0] == 0x02 || p[0] == 0x03) {
            return Err(Error::InvalidPublicKey);
        }
        let xb = take32(p.as_slice(), 1);
        let x = match FieldElement::parse(&xb) {
            Some(x) => x,
            None => return Err(Error::InvalidPublicKey),
        };
        let elem = match Affine::set_xo(&x, p[0] == 0x03) {
            Some(e) => e,
            None => return Err(Error::InvalidPublicKey),
        };
        if elem.is_infinity() {
            return Err(Error::InvalidPublicKey);
        }
        if elem.is_valid() {
            Ok(PublicKey { point: elem })
        } else {
            Err(Error::InvalidPublicKey)
        }
    }

    /// Create a public key from its 65-byte encoding: a tag byte (4, or 6
    /// and 7 for the hybrid forms that also state the parity of y), x, y.
    pub fn parse(p: &[u8; 65]) -> (r: Result<PublicKey, Error>)
        ensures
            r is Ok <==> full_key_accepted(p@),
            r matches Ok(k) ==> k.wf() && k.x_encoding() == key_x(p@) && k.y_encoding() == key_y(p@)
                && k.pt() == Pt::At(be_val(key_x(p@)), be_val(key_y(p@))),
            r matches Err(e) ==> e == Error::InvalidPublicKey,
    {
        if !(p[0] == 0x04 || p[0] == 0x06 || p[0] == 0x07) {
            return Err(Error::InvalidPublicKey);
        }
        let xb = take32(p.as_slice(), 1);
        let yb = take32(p.as_slice(), 33);
        let x = match FieldElement::parse(&xb) {
            Some(x) => x,
            None => return Err(Error::InvalidPublicKey),
        };
        let y = match FieldElement::parse(&yb) {
            Some(y) => y,
            None => return Err(Error::InvalidPublicKey),
        };
        let elem = Affine { x, y, infinity: false };
        if (p[0] == 0x06 || p[0] == 0x07) && (y.is_odd() != (p[0] == 0x07)) {
            return Err(Error::InvalidPublicKey);
        }
        if elem.is_valid() {
            Ok(PublicKey { point: elem })
        } else {
            Err(Error::InvalidPublicKey)
        }
    }

    /// The 65-byte uncompressed encoding: tag 4, x, y.
    pub fn serialize(&self) -> (r: [u8; 65])
        ensures
            r@ == seq![4u8] + self.x_encoding() + self.y_encoding(),
    {
        let mut ret = [0u8; 65];
        ret[0] = 0x04;
        put32(&mut ret, 1, &self.point.x.serialize());
        put32(&mut ret, 33, &self.point.y.serialize());
        assert(ret@ =~= seq![4u8] + self.x_encoding() + self.y_encoding());
        ret
    }

    /// The 33-byte compressed encoding: tag 2 for even y or 3 for odd y,
    /// then x.
    pub fn serialize_compressed(&self) -> (r: [u8; 33])
        ensures
            r@ == self.compressed_encoding(),
    {
        let mut ret = [0u8; 33];
        ret[0] = if self.point.y.is_odd() { 0x03 } else { 0x02 };
        put32(&mut ret, 1, &self.point.x.serialize());
        assert(ret@ =~= self.compressed_encoding());
        ret
    }

    pub proof fn lemma_compressed_of(self)
        requires
            self.wf(),
        ensures
            self.compressed_encoding() == compressed_of(self.pt()),
    {
        lemma_be_bytes_of_val(self.point.x.encoding());
        lemma_be_bytes_of_val(self.point.y.encoding());
    }

    /// The compressed encoding as a byte vector.
    pub fn to_compressed_vec(&self) -> (r: Vec<u8>)
        ensures
            r@ == self.compressed_encoding(),
    {
        let a = self.serialize_compressed();
        let mut v: Vec<u8> = Vec::new();
        let mut i: usize = 0;
        while i < 33
            invariant
                i <= 33,
                a@ == self.compressed_encoding(),
                v@ == a@.take(i as int),
            decreases 33 - i,
        {
            v.push(a[i]);
            i = i + 1;
            assert(v@ =~= a@.take(i as int));
        }
        assert(a@.take(33) =~= a@);
        v
    }

    /// Whether the two keys are the same point.
    pub fn equals(&self, o: &PublicKey) -> (r: bool)
        ensures
            r == (self.pt() == o.pt()),
    {
        if self.point.infinity || o.point.infinity {
            self.point.infinity == o.point.infinity
        } else {
            self.point.x.equals(&o.point.x) && self.point.y.equals(&o.point.y)
        }
    }

    /// Point addition of two public keys.
    pub fn add(&self, o: &PublicKey) -> (r: PublicKey)
        requires
            self.wf(),
            o.wf(),
        ensures
            r.pt() == pt_add(self.pt(), o.pt()),
            r.wf(),
    {
        PublicKey { point: self.point.add(&o.point) }
    }
}

impl SecretKey {
    /// The 32-byte big-endian encoding held.
    pub open(crate) spec fn encoding(self) -> Seq<u8> {
        self.scalar.encoding()
    }

    pub open(crate) spec fn value(self) -> nat {
        self.scalar.value()
    }

    /// Below the group order (parsed and random keys are also nonzero).
    pub open(crate) spec fn wf(self) -> bool {
        self.scalar.wf()
    }

    /// Read 32 big-endian bytes as a secret key.
    pub fn parse(p: &[u8; 32]) -> (r: Result<SecretKey, Error>)
        ensures
            r is Ok <==> secret_key_valid(p@),
            r matches Ok(k) ==> k.encoding() == p@ && k.wf(),
            r matches Err(e) ==> e == Error::InvalidSecretKey,
    {
        let (elem, overflow) = Scalar::set_b32(p);
        if !overflow && !elem.is_zero() {
            Ok(SecretKey { scalar: elem })
        } else {
            Err(Error::InvalidSecretKey)
        }
    }

    /// Create a random secret key from the operating system's random bytes,
    /// drawing again while a draw is not a valid key, up to
    /// `RANDOM_KEY_ATTEMPTS` draws. Fails where the source fails.
    pub fn random(rng: &mut OsRng) -> (r: Result<SecretKey, Error>)
        ensures
            r matches Ok(k) ==> secret_key_valid(k.encoding()) && k.wf(),
            r matches Err(e) ==> e == Error::InvalidSecretKey,
    {
        let mut attempt: u32 = 0;
        while attempt < RANDOM_KEY_ATTEMPTS
            decreases RANDOM_KEY_ATTEMPTS - attempt,
        {
            let ret = match random_bytes(rng) {
                Some(b) => b,
                None => return Err(Error::InvalidSecretKey),
            };
            match Self::parse(&ret) {
                Ok(key) => return Ok(key),
                Err(_) => {},
            }
            attempt = attempt + 1;
        }
        Err(Error::InvalidSecretKey)
    }

    /// The 32-byte big-endian encoding.
    pub fn serialize(&self) -> (r: [u8; 32])
        ensures
            r@ == self.encoding(),
    {
        self.scalar.b32()
    }

    /// Scalar addition modulo `n`.
    pub fn add(&self, o: &SecretKey) -> (r: SecretKey)
        ensures
            r.value() == sadd(self.value(), o.value()),
            r.wf(),
    {
        SecretKey { scalar: self.scalar.add(&o.scalar) }
    }

    /// Scalar multiplication modulo `n`.
    pub fn mul(&self, o: &SecretKey) -> (r: SecretKey)
        ensures
            r.value() == smul(self.value(), o.value()),
            r.wf(),
    {
        SecretKey { scalar: self.scalar.mul(&o.scalar) }
    }

    /// Negation modulo `n`.
    pub fn neg(&self) -> (r: SecretKey)
        requires
            self.wf(),
        ensures
            r.value() == sneg(self.value()),
            r.wf(),
    {
        SecretKey { scalar: self.scalar.neg() }
    }

    /// The multiplicative inverse modulo `n`; `None` where there is none.
    pub fn inv(&self) -> (r: Option<SecretKey>)
        ensures
            r is Some <==> has_inverse(self.value(), group_order()),
            r matches Some(v) ==> v.value() == sinv(self.value()) && v.wf(),
    {
        match self.scalar.inv() {
            Some(s) => Some(SecretKey { scalar: s }),
            None => None,
        }
    }

    /// The public key multiplied by this scalar: `k * P`.
    pub fn mul_point(&self, p: &PublicKey) -> (r: PublicKey)
        requires
            p.wf(),
        ensures
            r.pt() == pt_mul(self.value(), p.pt()),
            r.wf(),
    {
        PublicKey { point: p.point.mul(&self.scalar) }
    }
}

/// Secret keys round-trip: every valid 32-byte encoding is accepted by
/// `SecretKey::parse`, which keeps exactly those bytes, and `serialize`
/// returns the bytes kept.
pub proof fn lemma_secret_key_round_trip(b: Seq<u8>, k: SecretKey)
    requires
        b.len() == 32,
        secret_key_valid(b),
        k.encoding() == b,
    ensures
        k.wf(),
        k.value() == be_val(b),
        k.encoding() == b,
{
}

/// Uncompressed public keys round-trip: an accepted encoding with tag 4 is
/// the tag followed by the x and y bytes that `PublicKey::parse` keeps,
/// which is what `serialize` writes.
pub proof fn lemma_full_key_round_trip(b: Seq<u8>)
    requires
        b.len() == 65,
        full_key_accepted(b),
        b[0] == 4,
    ensures
        seq![4u8] + key_x(b) + key_y(b) == b,
{
    assert(seq![4u8] + key_x(b) + key_y(b) =~= b);
}

/// The field prime is odd.
pub proof fn lemma_field_prime_odd()
    ensures
        field_prime() % 2 == 1,
{
    reveal_with_fuel(crate::bytes::pow256, 17);
}

/// Compressed public keys round-trip: for an accepted encoding, the point
/// that `PublicKey::parse_compressed` gives has the y parity that the tag
/// states, so `serialize_compressed` writes the same tag and x bytes. This
/// is shown where the square root found is not zero (on this curve
/// `x^3 + 7` is never zero).
pub proof fn lemma_compressed_key_round_trip(b: Seq<u8>)
    requires
        b.len() == 33,
        compressed_key_accepted(b),
        sqrt_candidate(curve_rhs(be_val(key_x(b)))) != 0,
    ensures
        seq![if decompressed_y(be_val(key_x(b)), b[0] == 3) % 2 == 1 { 3u8 } else { 2u8 }] + key_x(b) == b,
{
    lemma_field_prime_odd();
    let x = be_val(key_x(b));
    let c = sqrt_candidate(curve_rhs(x));
    let p = field_prime() as int;
    assert(c < field_prime());
    if (c % 2 == 1) != (b[0] == 3) {
        assert(fsub(0, c) == p - c) by {
            vstd::arithmetic::div_mod::lemma_mod_add_multiples_vanish(0 - c, p);
            vstd::arithmetic::div_mod::lemma_small_mod((p - c) as nat, field_prime());
        }
    }
    assert(seq![if decompressed_y(x, b[0] == 3) % 2 == 1 { 3u8 } else { 2u8 }] + key_x(b) =~= b);
}

/// Derivation then compressed serialization gives the compressed encoding
/// of the point `d * G`.
pub proof fn lemma_derived_key_encoding(k: SecretKey, p: PublicKey)
    requires
        p.pt() == pt_mul(k.value(), generator()),
        p.wf(),
    ensures
        p.compressed_encoding() == compressed_of(pt_mul(k.value(), generator())),
{
    p.lemma_compressed_of();
}

/// Tag byte 5 is neither an uncompressed nor a compressed tag.
pub proof fn lemma_tag_five_rejected(b: Seq<u8>)
    requires
        b.len() >= 1,
        b[0] == 5,
    ensures
        !full_key_accepted(b),
        !compressed_key_accepted(b),
{
}

/// An x-coordinate for which `x^3 + 7` has no square root is rejected in
/// compressed form; a point off the curve is rejected in uncompressed form.
pub proof fn lemma_off_curve_rejected(b: Seq<u8>)
    requires
        b.len() >= 65,
        forall|y: nat| y < field_prime() ==> #[trigger] fmul(y, y) != curve_rhs(be_val(key_x(b))),
    ensures
        !compressed_key_accepted(b.subrange(0, 33)),
        !full_key_accepted(b),
{
    let c = sqrt_candidate(curve_rhs(be_val(key_x(b))));
    assert(key_x(b.subrange(0, 33)) =~= key_x(b));
    assert(fmul(c, c) != curve_rhs(be_val(key_x(b))));
    if full_key_accepted(b) {
        let y = be_val(key_y(b));
        assert(fmul(y, y) != curve_rhs(be_val(key_x(b))));
    }
}

/// The zero scalar is not a secret key.
pub proof fn lemma_zero_secret_key_rejected(b: Seq<u8>)
    requires
        be_val(b) == 0,
    ensures
        !secret_key_valid(b),
{
}

} // verus!
