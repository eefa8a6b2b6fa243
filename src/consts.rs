//! The curve's fixed numbers: the field prime, the group order, the
//! coefficient `b = 7`, and the generator point.
use crate::bytes::{be_val, pow256, lemma_be_val_zeros_prefix, zeros};
use vstd::prelude::*;

verus! {

/// The prime modulus `p` of the coordinate field.
pub open spec fn field_prime() -> nat {
    0xFFFFFFFFFFFFFFFFFFFFFFFFFFFFFFFFu128 as nat * pow256(16) + 0xFFFFFFFFFFFFFFFFFFFFFFFEFFFFFC2Fu128 as nat
}

/// The order `n` of the group that the generator spans.
pub open spec fn group_order() -> nat {
    0xFFFFFFFFFFFFFFFFFFFFFFFFFFFFFFFEu128 as nat * pow256(16) + 0xBAAEDCE6AF48A03BBFD25E8CD0364141u128 as nat
}

#[verifier::spinoff_prover]
#[verifier::rlimit(50)]
pub fn prime_bytes() -> (r: [u8; 32])
    ensures
        be_val(r@) == field_prime(),
{
    let mut r = [0xFFu8; 32];
    r[27] = 0xFE;
    r[30] = 0xFC;
    r[31] = 0x2F;
    proof {
        reveal_with_fuel(be_val, 33);
        reveal_with_fuel(pow256, 17);
    }
    r
}

#[verifier::spinoff_prover]
#[verifier::rlimit(50)]
pub fn order_bytes() -> (r: [u8; 32])
    ensures
        be_val(r@) == group_order(),
{
    let mut r = [0xFFu8; 32];
    r[15] = 0xFE;
    r[16] = 0xBA;
    r[17] = 0xAE;
    r[18] = 0xDC;
    r[19] = 0xE6;
    r[20] = 0xAF;
    r[21] = 0x48;
    r[22] = 0xA0;
    r[23] = 0x3B;
    r[24] = 0xBF;
    r[25] = 0xD2;
    r[26] = 0x5E;
    r[27] = 0x8C;
    r[28] = 0xD0;
    r[29] = 0x36;
    r[30] = 0x41;
    r[31] = 0x41;
    proof {
        reveal_with_fuel(be_val, 33);
        reveal_with_fuel(pow256, 17);
    }
    r
}

/// The exponent `(p + 1) / 4`, which gives a square root modulo `p` of
/// every square.
#[verifier::spinoff_prover]
#[verifier::rlimit(50)]
pub fn sqrt_exponent_bytes() -> (r: [u8; 32])
    ensures
        be_val(r@) == (field_prime() + 1) / 4,
{
    let mut r = [0xFFu8; 32];
    r[0] = 0x3F;
    r[28] = 0xBF;
    r[31] = 0x0C;
    proof {
        reveal_with_fuel(be_val, 33);
        reveal_with_fuel(pow256, 17);
        let v = 0x3FFFFFFFFFFFFFFFFFFFFFFFFFFFFFFFu128 as nat * pow256(16) + 0xFFFFFFFFFFFFFFFFFFFFFFFFBFFFFF0Cu128 as nat;
        assert(be_val(r@) == v);
        assert(field_prime() + 1 == 4 * v);
        vstd::arithmetic::div_mod::lemma_div_by_multiple(v as int, 4);
        assert((4 * v) / 4 == v) by (nonlinear_arith);
    }
    r
}

/// The x-coordinate of the generator, big-endian.
pub open spec fn generator_x() -> Seq<u8> {
    seq![
        0x79u8, 0xBE, 0x66, 0x7E, 0xF9, 0xDC, 0xBB, 0xAC, 0x55, 0xA0, 0x62, 0x95, 0xCE, 0x87, 0x0B, 0x07,
        0x02, 0x9B, 0xFC, 0xDB, 0x2D, 0xCE, 0x28, 0xD9, 0x59, 0xF2, 0x81, 0x5B, 0x16, 0xF8, 0x17, 0x98,
    ]
}

/// The y-coordinate of the generator, big-endian.
pub open spec fn generator_y() -> Seq<u8> {
    seq![
        0x48u8, 0x3A, 0xDA, 0x77, 0x26, 0xA3, 0xC4, 0x65, 0x5D, 0xA4, 0xFB, 0xFC, 0x0E, 0x11, 0x08, 0xA8,
        0xFD, 0x17, 0xB4, 0x48, 0xA6, 0x85, 0x54, 0x19, 0x9C, 0x47, 0xD0, 0x8F, 0xFB, 0x10, 0xD4, 0xB8,
    ]
}

/// Writes a sequence of 32 bytes into an array.
fn array_of(v: &Vec<u8>) -> (r: [u8; 32])
    requires
        v@.len() == 32,
    ensures
        r@ == v@,
{
    let mut r = [0u8; 32];
    let mut i: usize = 0;
    while i < 32
        invariant
            v@.len() == 32,
            i <= 32,
            forall|j: int| 0 <= j < i ==> r@[j] == v@[j],
        decreases 32 - i,
    {
        r[i] = v[i];
        i = i + 1;
    }
    assert(r@ =~= v@);
    r
}

pub fn generator_x_bytes() -> (r: [u8; 32])
    ensures
        r@ == generator_x(),
{
    let v: Vec<u8> = vec![
        0x79u8, 0xBE, 0x66, 0x7E, 0xF9, 0xDC, 0xBB, 0xAC, 0x55, 0xA0, 0x62, 0x95, 0xCE, 0x87, 0x0B, 0x07,
        0x02, 0x9B, 0xFC, 0xDB, 0x2D, 0xCE, 0x28, 0xD9, 0x59, 0xF2, 0x81, 0x5B, 0x16, 0xF8, 0x17, 0x98,
    ];
    assert(v@ =~= generator_x());
    array_of(&v)
}

pub fn generator_y_bytes() -> (r: [u8; 32])
    ensures
        r@ == generator_y(),
{
    let v: Vec<u8> = vec![
        0x48u8, 0x3A, 0xDA, 0x77, 0x26, 0xA3, 0xC4, 0x65, 0x5D, 0xA4, 0xFB, 0xFC, 0x0E, 0x11, 0x08, 0xA8,
        0xFD, 0x17, 0xB4, 0x48, 0xA6, 0x85, 0x54, 0x19, 0x9C, 0x47, 0xD0, 0x8F, 0xFB, 0x10, 0xD4, 0xB8,
    ];
    assert(v@ =~= generator_y());
    array_of(&v)
}

} // verus!
