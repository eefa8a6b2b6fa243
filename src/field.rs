//! Elements of the coordinate field, the integers modulo the prime `p`.
use crate::bignum::{add_mod, has_inverse, inv_mod, lemma_inverse_unique, mul_mod, pow_mod, sub_mod};
use crate::bytes::{be_lt, be_val, lemma_be_val_zeros_prefix, zeros};
use crate::consts::{field_prime, prime_bytes};
use vstd::prelude::*;

verus! {

/// `(a + b) mod p`.
pub open spec fn fadd(a: nat, b: nat) -> nat {
    (a + b) % field_prime()
}

/// `(a - b) mod p`.
pub open spec fn fsub(a: nat, b: nat) -> nat {
    ((a - b) % (field_prime() as int)) as nat
}

/// `(a * b) mod p`.
pub open spec fn fmul(a: nat, b: nat) -> nat {
    (a * b) % field_prime()
}

/// The inverse of `a` modulo `p`, where one exists.
pub open spec fn finv(a: nat) -> nat {
    choose|x: nat| x < field_prime() && #[trigger] ((a * x) % field_prime()) == 1
}

/// A field element, held as its 32-byte big-endian encoding.
#[derive(Clone, Copy, Debug, PartialEq, Eq)]
pub struct FieldElement {
    pub(crate) bytes: [u8; 32],
}

/// The value of a one-byte number written in 32 bytes.
pub fn bytes_of_u8(v: u8) -> (r: [u8; 32])
    ensures
        be_val(r@) == v as nat,
{
    let mut r = [0u8; 32];
    r[31] = v;
    proof {
        assert(r@ =~= zeros(31) + seq![v]);
        lemma_be_val_zeros_prefix(31, seq![v]);
        reveal_with_fuel(be_val, 2);
    }
    r
}

/// The last byte of a big-endian encoding decides its parity.
pub proof fn lemma_be_val_parity(s: Seq<u8>)
    requires
        s.len() >= 1,
    ensures
        be_val(s) % 2 == (s.last() as nat) % 2,
{
    assert(be_val(s) == be_val(s.drop_last()) * 256 + s.last() as nat);
    assert((be_val(s.drop_last()) * 256 + s.last() as nat) % 2 == (s.last() as nat) % 2) by (nonlinear_arith);
}

impl FieldElement {
    /// The 32-byte big-endian encoding held.
    pub open(crate) spec fn encoding(self) -> Seq<u8> {
        self.bytes@
    }

    pub open(crate) spec fn value(self) -> nat {
        be_val(self.encoding())
    }

    /// Fully reduced: below `p`.
    pub open(crate) spec fn wf(self) -> bool {
        self.value() < field_prime()
    }

    pub fn from_u8(v: u8) -> (r: FieldElement)
        ensures
            r.value() == v as nat,
            r.wf(),
    {
        FieldElement { bytes: bytes_of_u8(v) }
    }

    /// Reads 32 big-endian bytes; `None` where the number is not below `p`.
    pub fn parse(b: &[u8; 32]) -> (r: Option<FieldElement>)
        ensures
            r is Some <==> be_val(b@) < field_prime(),
            r matches Some(f) ==> f.encoding() == b@ && f.wf(),
    {
        let p = prime_bytes();
        if be_lt(b, &p) {
            Some(FieldElement { bytes: *b })
        } else {
            None
        }
    }

    pub fn serialize(&self) -> (r: [u8; 32])
        ensures
            r@ == self.encoding(),
    {
        self.bytes
    }

    pub fn add(&self, o: &FieldElement) -> (r: FieldElement)
        ensures
            r.value() == fadd(self.value(), o.value()),
            r.wf(),
    {
        FieldElement { bytes: add_mod(&self.bytes, &o.bytes, &prime_bytes()) }
    }

    pub fn sub(&self, o: &FieldElement) -> (r: FieldElement)
        requires
            o.wf(),
        ensures
            r.value() == fsub(self.value(), o.value()),
            r.wf(),
    {
        FieldElement { bytes: sub_mod(&self.bytes, &o.bytes, &prime_bytes()) }
    }

    pub fn mul(&self, o: &FieldElement) -> (r: FieldElement)
        ensures
            r.value() == fmul(self.value(), o.value()),
            r.wf(),
    {
        FieldElement { bytes: mul_mod(&self.bytes, &o.bytes, &prime_bytes()) }
    }

    /// `self^e mod p`, for an exponent given in 32 big-endian bytes.
    pub fn pow(&self, e: &[u8; 32]) -> (r: FieldElement)
        ensures
            r.value() == vstd::arithmetic::power::pow(self.value() as int, be_val(e@)) % (field_prime() as int),
            r.wf(),
    {
        FieldElement { bytes: pow_mod(&self.bytes, e, &prime_bytes()) }
    }

    /// The multiplicative inverse; `None` where there is none.
    pub fn inv(&self) -> (r: Option<FieldElement>)
        ensures
            r is Some <==> has_inverse(self.value(), field_prime()),
            r matches Some(v) ==> v.value() == finv(self.value()) && v.wf(),
    {
        match inv_mod(&self.bytes, &prime_bytes()) {
            Some(b) => {
                let r = FieldElement { bytes: b };
                proof {
                    let a = self.value();
                    assert(r.value() < field_prime() && (a * r.value()) % field_prime() == 1);
                    let c = finv(a);
                    assert(c < field_prime() && (a * c) % field_prime() == 1);
                    lemma_inverse_unique(a, r.value(), c, field_prime());
                }
                Some(r)
            },
            None => None,
        }
    }

    /// Whether the two elements have the same value.
    pub fn equals(&self, o: &FieldElement) -> (r: bool)
        ensures
            r == (self.value() == o.value()),
    {
        !be_lt(&self.bytes, &o.bytes) && !be_lt(&o.bytes, &self.bytes)
    }

    pub fn is_zero(&self) -> (r: bool)
        ensures
            r == (self.value() == 0),
    {
        !be_lt(&bytes_of_u8(0), &self.bytes)
    }

    pub fn is_odd(&self) -> (r: bool)
        ensures
            r == (self.value() % 2 == 1),
    {
        let last = self.bytes[31];
        proof {
            lemma_be_val_parity(self.bytes@);
            assert((last & 1 == 1) == (last % 2 == 1)) by (bit_vector);
        }
        last & 1 == 1
    }
}

} // verus!
