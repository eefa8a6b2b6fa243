//! Modular arithmetic on 32-byte big-endian numbers, computed by num-bigint.
use crate::bytes::{be_val, lemma_be_val_bound, pad32, pow256};
use num_bigint::BigUint;
use vstd::arithmetic::div_mod::{lemma_mul_mod_noop_left, lemma_mul_mod_noop_right, lemma_small_mod};
use vstd::arithmetic::mul::lemma_mul_is_associative;
use vstd::prelude::*;

verus! {

/// A big-endian encoding without superfluous leading zero bytes, as
/// `BigUint::to_bytes_be` gives it (zero is the single byte 0).
pub open spec fn minimal(s: Seq<u8>) -> bool {
    s.len() >= 1 && (s.len() == 1 || s[0] != 0)
}

/// Whether some number in `[0, m)` is an inverse of `a` modulo `m`.
pub open spec fn has_inverse(a: nat, m: nat) -> bool {
    exists|x: int| 0 <= x < m && #[trigger] ((a * x) % (m as int)) == 1
}

/// Relies on num-bigint's `BigUint` (`from_bytes_be`, `+`, `%`, `to_bytes_be`):
/// the sum of two numbers reduced by a modulus.
#[verifier::external_body]
fn big_add_mod(a: &[u8; 32], b: &[u8; 32], m: &[u8; 32]) -> (r: Vec<u8>)
    requires
        be_val(m@) > 0,
    ensures
        be_val(r@) == (be_val(a@) + be_val(b@)) % be_val(m@),
        minimal(r@),
{
    let s = BigUint::from_bytes_be(a) + BigUint::from_bytes_be(b);
    (s % BigUint::from_bytes_be(m)).to_bytes_be()
}

/// Relies on num-bigint's `BigUint` (`from_bytes_be`, `+`, `-`, `%`,
/// `to_bytes_be`): the difference of two numbers modulo a modulus, computed
/// as `(a + m - b) % m`.
#[verifier::external_body]
fn big_sub_mod(a: &[u8; 32], b: &[u8; 32], m: &[u8; 32]) -> (r: Vec<u8>)
    requires
        be_val(m@) > 0,
        be_val(b@) <= be_val(m@),
    ensures
        be_val(r@) == (be_val(a@) + be_val(m@) - be_val(b@)) % (be_val(m@) as int),
        minimal(r@),
{
    let mm = BigUint::from_bytes_be(m);
    let s = BigUint::from_bytes_be(a) + &mm - BigUint::from_bytes_be(b);
    (s % mm).to_bytes_be()
}

/// Relies on num-bigint's `BigUint` (`from_bytes_be`, `*`, `%`, `to_bytes_be`):
/// the product of two numbers reduced by a modulus.
#[verifier::external_body]
fn big_mul_mod(a: &[u8; 32], b: &[u8; 32], m: &[u8; 32]) -> (r: Vec<u8>)
    requires
        be_val(m@) > 0,
    ensures
        be_val(r@) == (be_val(a@) * be_val(b@)) % be_val(m@),
        minimal(r@),
{
    let p = BigUint::from_bytes_be(a) * BigUint::from_bytes_be(b);
    (p % BigUint::from_bytes_be(m)).to_bytes_be()
}

/// Relies on num-bigint's `BigUint::modpow`: `a` to the power `e`, modulo `m`.
#[verifier::external_body]
fn big_pow_mod(a: &[u8; 32], e: &[u8; 32], m: &[u8; 32]) -> (r: Vec<u8>)
    requires
        be_val(m@) > 0,
    ensures
        be_val(r@) == vstd::arithmetic::power::pow(be_val(a@) as int, be_val(e@)) % (be_val(m@) as int),
        minimal(r@),
{
    let x = BigUint::from_bytes_be(a);
    x.modpow(&BigUint::from_bytes_be(e), &BigUint::from_bytes_be(m)).to_bytes_be()
}

/// Relies on num-bigint's `BigUint::modinv`: the inverse in `[0, m)` of `a`
/// modulo `m`, which exists exactly when some number in that range is one.
#[verifier::external_body]
fn big_inv_mod(a: &[u8; 32], m: &[u8; 32]) -> (r: Option<Vec<u8>>)
    requires
        be_val(m@) > 1,
    ensures
        r is Some <==> has_inverse(be_val(a@), be_val(m@)),
        r matches Some(v) ==> be_val(v@) < be_val(m@) && (be_val(a@) * be_val(v@)) % be_val(m@) == 1,
        r matches Some(v) ==> minimal(v@),
{
    match BigUint::from_bytes_be(a).modinv(&BigUint::from_bytes_be(m)) {
        Some(x) => Some(x.to_bytes_be()),
        None => None,
    }
}

/// `(a + b) mod m`.
pub fn add_mod(a: &[u8; 32], b: &[u8; 32], m: &[u8; 32]) -> (r: [u8; 32])
    requires
        be_val(m@) > 0,
    ensures
        be_val(r@) == (be_val(a@) + be_val(b@)) % be_val(m@),
{
    let v = big_add_mod(a, b, m);
    proof { lemma_be_val_bound(m@); }
    pad32(&v)
}

/// `(a - b) mod m`, for `b <= m`.
pub fn sub_mod(a: &[u8; 32], b: &[u8; 32], m: &[u8; 32]) -> (r: [u8; 32])
    requires
        be_val(m@) > 0,
        be_val(b@) <= be_val(m@),
    ensures
        be_val(r@) == (be_val(a@) - be_val(b@)) % (be_val(m@) as int),
{
    let v = big_sub_mod(a, b, m);
    proof {
        lemma_be_val_bound(m@);
        let (x, y, mm) = (be_val(a@) as int, be_val(b@) as int, be_val(m@) as int);
        vstd::arithmetic::div_mod::lemma_mod_add_multiples_vanish(x - y, mm);
    }
    pad32(&v)
}

/// `(a * b) mod m`.
pub fn mul_mod(a: &[u8; 32], b: &[u8; 32], m: &[u8; 32]) -> (r: [u8; 32])
    requires
        be_val(m@) > 0,
    ensures
        be_val(r@) == (be_val(a@) * be_val(b@)) % be_val(m@),
{
    let v = big_mul_mod(a, b, m);
    proof { lemma_be_val_bound(m@); }
    pad32(&v)
}

/// `a^e mod m`.
pub fn pow_mod(a: &[u8; 32], e: &[u8; 32], m: &[u8; 32]) -> (r: [u8; 32])
    requires
        be_val(m@) > 0,
    ensures
        be_val(r@) == vstd::arithmetic::power::pow(be_val(a@) as int, be_val(e@)) % (be_val(m@) as int),
{
    let v = big_pow_mod(a, e, m);
    proof { lemma_be_val_bound(m@); }
    pad32(&v)
}

/// The inverse of `a` modulo `m`, where one exists.
pub fn inv_mod(a: &[u8; 32], m: &[u8; 32]) -> (r: Option<[u8; 32]>)
    requires
        be_val(m@) > 1,
    ensures
        r is Some <==> has_inverse(be_val(a@), be_val(m@)),
        r matches Some(v) ==> be_val(v@) < be_val(m@) && (be_val(a@) * be_val(v@)) % be_val(m@) == 1,
{
    match big_inv_mod(a, m) {
        Some(v) => {
            proof { lemma_be_val_bound(m@); }
            Some(pad32(&v))
        },
        None => None,
    }
}

} // verus!

verus! {

/// Two inverses of one number modulo `m` that both lie in `[0, m)` are equal.
pub proof fn lemma_inverse_unique(a: nat, x: nat, y: nat, m: nat)
    requires
        m > 1,
        x < m,
        y < m,
        (a * x) % m == 1,
        (a * y) % m == 1,
    ensures
        x == y,
{
    let (ai, xi, yi, mi) = (a as int, x as int, y as int, m as int);
    lemma_mul_mod_noop_right(xi, ai * yi, mi);
    lemma_mul_mod_noop_left(xi * ai, yi, mi);
    lemma_mul_is_associative(xi, ai, yi);
    assert(xi * ai == ai * xi) by (nonlinear_arith);
    assert(xi * 1 == xi);
    assert(1int * yi == yi);
    lemma_small_mod(x, m);
    lemma_small_mod(y, m);
}

} // verus!
