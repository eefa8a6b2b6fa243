//! Scalars, the integers modulo the group order `n`.
use crate::bignum::{add_mod, has_inverse, inv_mod, lemma_inverse_unique, mul_mod, sub_mod};
use crate::bytes::{be_lt, be_val, lemma_be_bytes_of_val};
use crate::consts::{group_order, order_bytes};
use crate::field::bytes_of_u8;
use vstd::prelude::*;

verus! {

/// `(a + b) mod n`.
pub open spec fn sadd(a: nat, b: nat) -> nat {
    (a + b) % group_order()
}

/// `(a * b) mod n`.
pub open spec fn smul(a: nat, b: nat) -> nat {
    (a * b) % group_order()
}

/// `-a mod n`.
pub open spec fn sneg(a: nat) -> nat {
    ((0 - a) % (group_order() as int)) as nat
}

/// The inverse of `a` modulo `n`, where one exists.
pub open spec fn sinv(a: nat) -> nat {
    choose|x: nat| x < group_order() && #[trigger] ((a * x) % group_order()) == 1
}

/// A scalar, held as its 32-byte big-endian encoding.
#[derive(Clone, Copy, Debug, PartialEq, Eq)]
pub struct Scalar {
    pub(crate) bytes: [u8; 32],
}

impl Scalar {
    /// The 32-byte big-endian encoding held.
    pub open(crate) spec fn encoding(self) -> Seq<u8> {
        self.bytes@
    }

    pub open(crate) spec fn value(self) -> nat {
        be_val(self.encoding())
    }

    /// Fully reduced: below `n`.
    pub open(crate) spec fn wf(self) -> bool {
        self.value() < group_order()
    }

    /// Reads 32 big-endian bytes reduced modulo `n`, and whether the number
    /// read was `n` or more.
    pub fn set_b32(b: &[u8; 32]) -> (r: (Scalar, bool))
        ensures
            r.0.value() == be_val(b@) % group_order(),
            r.0.wf(),
            r.1 == (be_val(b@) >= group_order()),
            !r.1 ==> r.0.encoding() == b@,
    {
        let n = order_bytes();
        if be_lt(b, &n) {
            proof { vstd::arithmetic::div_mod::lemma_small_mod(be_val(b@), group_order()); }
            (Scalar { bytes: *b }, false)
        } else {
            (Scalar { bytes: add_mod(b, &bytes_of_u8(0), &n) }, true)
        }
    }

    /// The 32-byte big-endian encoding.
    pub fn b32(&self) -> (r: [u8; 32])
        ensures
            r@ == self.encoding(),
    {
        self.bytes
    }

    pub fn add(&self, o: &Scalar) -> (r: Scalar)
        ensures
            r.value() == sadd(self.value(), o.value()),
            r.wf(),
    {
        Scalar { bytes: add_mod(&self.bytes, &o.bytes, &order_bytes()) }
    }

    pub fn mul(&self, o: &Scalar) -> (r: Scalar)
        ensures
            r.value() == smul(self.value(), o.value()),
            r.wf(),
    {
        Scalar { bytes: mul_mod(&self.bytes, &o.bytes, &order_bytes()) }
    }

    pub fn neg(&self) -> (r: Scalar)
        requires
            self.wf(),
        ensures
            r.value() == sneg(self.value()),
            r.wf(),
    {
        Scalar { bytes: sub_mod(&bytes_of_u8(0), &self.bytes, &order_bytes()) }
    }

    /// The multiplicative inverse; `None` where there is none.
    pub fn inv(&self) -> (r: Option<Scalar>)
        ensures
            r is Some <==> has_inverse(self.value(), group_order()),
            r matches Some(v) ==> v.value() == sinv(self.value()) && v.wf(),
    {
        match inv_mod(&self.bytes, &order_bytes()) {
            Some(b) => {
                let r = Scalar { bytes: b };
                proof {
                    let a = self.value();
                    let c = sinv(a);
                    assert(c < group_order() && (a * c) % group_order() == 1);
                    lemma_inverse_unique(a, r.value(), c, group_order());
                }
                Some(r)
            },
            None => None,
        }
    }

    /// Whether the two scalars have the same value.
    pub fn equals(&self, o: &Scalar) -> (r: bool)
        ensures
            r == (self.value() == o.value()),
    {
        !be_lt(&self.bytes, &o.bytes) && !be_lt(&o.bytes, &self.bytes)
    }

    pub fn is_zero(&self) -> (r: bool)
        ensures
            r == (self.value() == 0),
    {
        !be_lt(&bytes_of_u8(0), &self.bytes)
    }
}

/// A scalar is determined by its value: its encoding is always 32 bytes.
pub proof fn lemma_scalar_value_determines(a: Scalar, b: Scalar)
    requires
        a.value() == b.value(),
    ensures
        a == b,
{
    lemma_be_bytes_of_val(a.bytes@);
    lemma_be_bytes_of_val(b.bytes@);
    assert(a.bytes@ == b.bytes@);
    assert(a.bytes =~= b.bytes);
}

} // verus!
