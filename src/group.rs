//! Points of the curve `y^2 = x^3 + 7` over the field, in affine form.
use crate::bignum::has_inverse;
use crate::bytes::{be_bytes, be_val, lemma_be_bytes_of_val};
use crate::consts::{field_prime, generator_x, generator_x_bytes, generator_y, generator_y_bytes, sqrt_exponent_bytes};
use crate::field::{fadd, finv, fmul, fsub, FieldElement};
use crate::scalar::Scalar;
use vstd::prelude::*;

verus! {

/// A point as a mathematical object: the point at infinity, or a pair of
/// coordinates.
pub enum Pt {
    Inf,
    At(nat, nat),
}

/// The right-hand side `x^3 + 7` of the curve equation.
pub open spec fn curve_rhs(x: nat) -> nat {
    fadd(fmul(fmul(x, x), x), 7)
}

/// Whether `(x, y)` satisfies the curve equation.
pub open spec fn on_curve(x: nat, y: nat) -> bool {
    fmul(y, y) == curve_rhs(x)
}

/// The tangent rule: `2a`.
pub open spec fn pt_double(a: Pt) -> Pt {
    match a {
        Pt::Inf => Pt::Inf,
        Pt::At(x, y) => {
            if y == 0 || !has_inverse(fadd(y, y), field_prime()) {
                Pt::Inf
            } else {
                let l = fmul(fmul(3, fmul(x, x)), finv(fadd(y, y)));
                let x3 = fsub(fsub(fmul(l, l), x), x);
                Pt::At(x3, fsub(fmul(l, fsub(x, x3)), y))
            }
        },
    }
}

/// The chord rule: `a + b`.
pub open spec fn pt_add(a: Pt, b: Pt) -> Pt {
    match (a, b) {
        (Pt::Inf, _) => b,
        (_, Pt::Inf) => a,
        (Pt::At(x1, y1), Pt::At(x2, y2)) => {
            if x1 == x2 {
                if fadd(y1, y2) == 0 {
                    Pt::Inf
                } else {
                    pt_double(a)
                }
            } else if !has_inverse(fsub(x2, x1), field_prime()) {
                Pt::Inf
            } else {
                let l = fmul(fsub(y2, y1), finv(fsub(x2, x1)));
                let x3 = fsub(fsub(fmul(l, l), x1), x2);
                Pt::At(x3, fsub(fmul(l, fsub(x1, x3)), y1))
            }
        },
    }
}

/// Bit `i` of a 256-bit big-endian scalar encoding, counted from the most
/// significant bit.
pub open spec fn scalar_bit(s: Seq<u8>, i: int) -> bool {
    (s[i / 8] >> ((7 - i % 8) as u8)) & 1u8 == 1u8
}

/// Double-and-add over the first `k` bits of `s`, most significant first.
pub open spec fn ladder(s: Seq<u8>, k: nat, p: Pt) -> Pt
    decreases k,
{
    if k == 0 {
        Pt::Inf
    } else {
        let d = pt_double(ladder(s, (k - 1) as nat, p));
        if scalar_bit(s, k - 1) {
            pt_add(d, p)
        } else {
            d
        }
    }
}

/// `k * p`: double-and-add over the 256 bits of `k`.
pub open spec fn pt_mul(k: nat, p: Pt) -> Pt {
    ladder(be_bytes(k, 32), 256, p)
}

/// The generator point `G`.
pub open spec fn generator() -> Pt {
    Pt::At(be_val(generator_x()), be_val(generator_y()))
}

/// The square root of `c` that decompression tries: `c^((p+1)/4) mod p`.
pub open spec fn sqrt_candidate(c: nat) -> nat {
    (vstd::arithmetic::power::pow(c as int, (field_prime() + 1) / 4) % (field_prime() as int)) as nat
}

/// A curve point in affine coordinates, or the point at infinity.
#[derive(Clone, Copy, Debug, PartialEq, Eq)]
pub struct Affine {
    pub x: FieldElement,
    pub y: FieldElement,
    pub infinity: bool,
}

impl Affine {
    pub open(crate) spec fn pt(self) -> Pt {
        if self.infinity {
            Pt::Inf
        } else {
            Pt::At(self.x.value(), self.y.value())
        }
    }

    /// Both coordinates fully reduced, and both zero at infinity.
    pub open(crate) spec fn wf(self) -> bool {
        &&& self.x.wf()
        &&& self.y.wf()
        &&& self.infinity ==> self.x.value() == 0 && self.y.value() == 0
    }

    pub fn infinity() -> (r: Affine)
        ensures
            r.pt() == Pt::Inf,
            r.wf(),
    {
        Affine { x: FieldElement::from_u8(0), y: FieldElement::from_u8(0), infinity: true }
    }

    #[verifier::spinoff_prover]
    #[verifier::rlimit(50)]
    pub fn generator() -> (r: Affine)
        ensures
            r.pt() == generator(),
            r.wf(),
    {
        let x = generator_x_bytes();
        let y = generator_y_bytes();
        proof {
            crate::bytes::lemma_be_val_leading_bound(x@);
            crate::bytes::lemma_be_val_leading_bound(y@);
            reveal_with_fuel(crate::bytes::pow256, 32);
            assert(x@[0] == 0x79u8);
            assert(y@[0] == 0x48u8);
            let q = crate::bytes::pow256(31);
            assert(0x80 * q < field_prime());
            assert((x@[0] as nat + 1) * q <= 0x80 * q) by (nonlinear_arith)
                requires x@[0] == 0x79u8;
            assert((y@[0] as nat + 1) * q <= 0x80 * q) by (nonlinear_arith)
                requires y@[0] == 0x48u8;
            assert(be_val(x@) < field_prime());
            assert(be_val(y@) < field_prime());
        }
        Affine { x: FieldElement { bytes: x }, y: FieldElement { bytes: y }, infinity: false }
    }

    pub fn is_infinity(&self) -> (r: bool)
        ensures
            r == (self.pt() == Pt::Inf),
    {
        self.infinity
    }

    /// Whether the point is a finite point on the curve.
    pub fn is_valid(&self) -> (r: bool)
        requires
            self.wf(),
        ensures
            r == (self.pt() matches Pt::At(x, y) && on_curve(x, y)),
    {
        if self.infinity {
            return false;
        }
        let lhs = self.y.mul(&self.y);
        let rhs = self.x.mul(&self.x).mul(&self.x).add(&FieldElement::from_u8(7));
        lhs.equals(&rhs)
    }

    pub fn double(&self) -> (r: Affine)
        requires
            self.wf(),
        ensures
            r.pt() == pt_double(self.pt()),
            r.wf(),
    {
        if self.infinity || self.y.is_zero() {
            return Affine::infinity();
        }
        let two_y = self.y.add(&self.y);
        match two_y.inv() {
            None => Affine::infinity(),
            Some(i) => {
                let xx = self.x.mul(&self.x);
                let l = FieldElement::from_u8(3).mul(&xx).mul(&i);
                let x3 = l.mul(&l).sub(&self.x).sub(&self.x);
                let y3 = l.mul(&self.x.sub(&x3)).sub(&self.y);
                Affine { x: x3, y: y3, infinity: false }
            },
        }
    }

    pub fn add(&self, o: &Affine) -> (r: Affine)
        requires
            self.wf(),
            o.wf(),
        ensures
            r.pt() == pt_add(self.pt(), o.pt()),
            r.wf(),
    {
        if self.infinity {
            return *o;
        }
        if o.infinity {
            return *self;
        }
        if self.x.equals(&o.x) {
            if self.y.add(&o.y).is_zero() {
                return Affine::infinity();
            }
            return self.double();
        }
        match o.x.sub(&self.x).inv() {
            None => Affine::infinity(),
            Some(i) => {
                let l = o.y.sub(&self.y).mul(&i);
                let x3 = l.mul(&l).sub(&self.x).sub(&o.x);
                let y3 = l.mul(&self.x.sub(&x3)).sub(&self.y);
                Affine { x: x3, y: y3, infinity: false }
            },
        }
    }

    /// `k * self` by double-and-add over the bits of `k`; the addition is
    /// made for every bit, so the work done does not depend on them.
    pub fn mul(&self, k: &Scalar) -> (r: Affine)
        requires
            self.wf(),
        ensures
            r.pt() == pt_mul(k.value(), self.pt()),
            r.wf(),
    {
        let kb = k.b32();
        proof { lemma_be_bytes_of_val(kb@); }
        let mut acc = Affine::infinity();
        let mut i: usize = 0;
        while i < 256
            invariant
                i <= 256,
                kb@ == k.encoding(),
                self.wf(),
                acc.wf(),
                acc.pt() == ladder(kb@, i as nat, self.pt()),
            decreases 256 - i,
        {
            let d = acc.double();
            let a = d.add(self);
            let byte = kb[i / 8];
            let sh: u8 = (7 - i % 8) as u8;
            acc = if (byte >> sh) & 1u8 == 1u8 { a } else { d };
            i = i + 1;
        }
        acc
    }

    /// The point with x-coordinate `x` whose y-coordinate has the given
    /// parity, where `x^3 + 7` has the square root that decompression finds.
    pub fn set_xo(x: &FieldElement, odd: bool) -> (r: Option<Affine>)
        requires
            x.wf(),
        ensures
            r is Some <==> fmul(sqrt_candidate(curve_rhs(x.value())), sqrt_candidate(curve_rhs(x.value())))
                == curve_rhs(x.value()),
            r matches Some(a) ==> a.x == *x,
            r matches Some(a) ==> a.wf() && a.pt() == Pt::At(
                x.value(),
                if (sqrt_candidate(curve_rhs(x.value())) % 2 == 1) == odd {
                    sqrt_candidate(curve_rhs(x.value()))
                } else {
                    fsub(0, sqrt_candidate(curve_rhs(x.value())))
                },
            ),
    {
        let c = x.mul(x).mul(x).add(&FieldElement::from_u8(7));
        let y = c.pow(&sqrt_exponent_bytes());
        if !y.mul(&y).equals(&c) {
            return None;
        }
        if y.is_odd() == odd {
            Some(Affine { x: *x, y, infinity: false })
        } else {
            Some(Affine { x: *x, y: FieldElement::from_u8(0).sub(&y), infinity: false })
        }
    }
}

} // verus!
