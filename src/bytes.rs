//! Big-endian byte strings read as natural numbers.
use vstd::prelude::*;

verus! {

/// The number that a big-endian byte string encodes.
pub open spec fn be_val(s: Seq<u8>) -> nat
    decreases s.len(),
{
    if s.len() == 0 {
        0
    } else {
        be_val(s.drop_last()) * 256 + s.last() as nat
    }
}

/// 256 raised to the power `k`.
pub open spec fn pow256(k: nat) -> nat
    decreases k,
{
    if k == 0 {
        1
    } else {
        256 * pow256((k - 1) as nat)
    }
}

/// A string of `k` zero bytes.
pub open spec fn zeros(k: nat) -> Seq<u8> {
    Seq::new(k, |i: int| 0u8)
}

pub proof fn lemma_be_val_bound(s: Seq<u8>)
    ensures
        be_val(s) < pow256(s.len()),
    decreases s.len(),
{
    if s.len() > 0 {
        lemma_be_val_bound(s.drop_last());
    }
}

pub proof fn lemma_pow256_monotone(a: nat, b: nat)
    requires
        a <= b,
    ensures
        pow256(a) <= pow256(b),
    decreases b,
{
    if a < b {
        lemma_pow256_monotone(a, (b - 1) as nat);
    }
}

/// A leading byte that is not zero makes the value at least `256^(len-1)`.
pub proof fn lemma_be_val_leading(s: Seq<u8>)
    requires
        s.len() >= 1,
        s[0] != 0,
    ensures
        be_val(s) >= pow256((s.len() - 1) as nat),
    decreases s.len(),
{
    if s.len() > 1 {
        let d = s.drop_last();
        assert(d[0] == s[0]);
        lemma_be_val_leading(d);
    }
}

/// Leading zero bytes do not change the value.
pub proof fn lemma_be_val_zeros_prefix(k: nat, s: Seq<u8>)
    ensures
        be_val(zeros(k) + s) == be_val(s),
    decreases s.len(), k,
{
    if s.len() == 0 {
        assert(zeros(k) + s =~= zeros(k));
        if k > 0 {
            assert(zeros(k).drop_last() =~= zeros((k - 1) as nat));
            lemma_be_val_zeros_prefix((k - 1) as nat, s);
            assert(zeros((k - 1) as nat) + s =~= zeros((k - 1) as nat));
        }
    } else {
        assert((zeros(k) + s).drop_last() =~= zeros(k) + s.drop_last());
        lemma_be_val_zeros_prefix(k, s.drop_last());
    }
}

/// Writes a minimal big-endian encoding of a value below `256^32` into
/// exactly 32 bytes.
pub fn pad32(v: &Vec<u8>) -> (r: [u8; 32])
    requires
        v@.len() >= 1,
        v@.len() == 1 || v@[0] != 0,
        be_val(v@) < pow256(32),
    ensures
        be_val(r@) == be_val(v@),
{
    let len = v.len();
    proof {
        if len > 1 {
            lemma_be_val_leading(v@);
            if len > 32 {
                lemma_pow256_monotone(32, (len - 1) as nat);
            }
        }
    }
    let mut r = [0u8; 32];
    let start: usize = 32 - len;
    let mut i: usize = 0;
    while i < len
        invariant
            len == v@.len(),
            len <= 32,
            start == 32 - len,
            0 <= i <= len,
            r@.len() == 32,
            forall|j: int| 0 <= j < start ==> r@[j] == 0,
            forall|j: int| 0 <= j < i ==> r@[start + j] == v@[j],
        decreases len - i,
    {
        r[start + i] = v[i];
        i = i + 1;
    }
    proof {
        assert(r@ =~= zeros(start as nat) + v@);
        lemma_be_val_zeros_prefix(start as nat, v@);
    }
    r
}

} // verus!

verus! {

/// The leading byte bounds the value: below `(s[0] + 1) * 256^(len-1)`.
pub proof fn lemma_be_val_leading_bound(s: Seq<u8>)
    requires
        s.len() >= 1,
    ensures
        be_val(s) < (s[0] as nat + 1) * pow256((s.len() - 1) as nat),
    decreases s.len(),
{
    if s.len() == 1 {
        assert(s.drop_last().len() == 0);
        assert(be_val(s.drop_last()) == 0);
        assert(s.last() == s[0]);
        assert(be_val(s) == be_val(s.drop_last()) * 256 + s.last() as nat);
        assert(be_val(s) == s[0] as nat);
        assert(pow256(0) == 1);
        assert((s[0] as nat + 1) * 1 == s[0] as nat + 1);
    } else {
        let d = s.drop_last();
        assert(d[0] == s[0]);
        lemma_be_val_leading_bound(d);
        let c = s[0] as nat + 1;
        let q = pow256((d.len() - 1) as nat);
        assert(be_val(s) == be_val(d) * 256 + s.last() as nat);
        assert(be_val(s) < (be_val(d) + 1) * 256);
        assert(pow256((s.len() - 1) as nat) == 256 * q);
        assert(be_val(d) + 1 <= c * q);
        assert((be_val(d) + 1) * 256 <= c * q * 256) by (nonlinear_arith)
            requires be_val(d) + 1 <= c * q;
        assert(c * q * 256 == c * (256 * q)) by (nonlinear_arith);
    }
}

} // verus!

verus! {

/// The 32 bytes of `b` that start at `off`.
pub fn take32(b: &[u8], off: usize) -> (r: [u8; 32])
    requires
        off + 32 <= b@.len(),
    ensures
        r@ == b@.subrange(off as int, off + 32),
{
    let mut r = [0u8; 32];
    let mut i: usize = 0;
    while i < 32
        invariant
            off + 32 <= b@.len(),
            b@.len() == b.len(),
            i <= 32,
            forall|j: int| 0 <= j < i ==> r@[j] == b@[off + j],
        decreases 32 - i,
    {
        r[i] = b[off + i];
        i = i + 1;
    }
    assert(r@ =~= b@.subrange(off as int, off + 32));
    r
}

/// Writes 32 bytes into `out` from position `off` on.
pub fn put32<const N: usize>(out: &mut [u8; N], off: usize, src: &[u8; 32])
    requires
        off + 32 <= N,
    ensures
        final(out)@ == old(out)@.subrange(0, off as int) + src@ + old(out)@.subrange(off + 32, N as int),
{
    let ghost before = out@;
    let mut i: usize = 0;
    while i < 32
        invariant
            off + 32 <= N,
            i <= 32,
            out@.len() == N,
            before.len() == N,
            forall|j: int| 0 <= j < off ==> out@[j] == before[j],
            forall|j: int| off + 32 <= j < N ==> out@[j] == before[j],
            forall|j: int| 0 <= j < i ==> out@[off + j] == src@[j],
        decreases 32 - i,
    {
        out[off + i] = src[i];
        i = i + 1;
    }
    assert(out@ =~= before.subrange(0, off as int) + src@ + before.subrange(off + 32, N as int));
}

} // verus!

verus! {

/// The `k`-byte big-endian encoding of `v` (of `v mod 256^k`).
pub open spec fn be_bytes(v: nat, k: nat) -> Seq<u8>
    decreases k,
{
    if k == 0 {
        Seq::empty()
    } else {
        be_bytes(v / 256, (k - 1) as nat).push((v % 256) as u8)
    }
}

/// A byte string is the encoding of its own value at its own length.
pub proof fn lemma_be_bytes_of_val(s: Seq<u8>)
    ensures
        be_bytes(be_val(s), s.len()) == s,
    decreases s.len(),
{
    if s.len() > 0 {
        let d = s.drop_last();
        lemma_be_bytes_of_val(d);
        let v = be_val(s);
        assert(v == be_val(d) * 256 + s.last() as nat);
        assert(v / 256 == be_val(d)) by {
            vstd::arithmetic::div_mod::lemma_fundamental_div_mod_converse(v as int, 256, be_val(d) as int, s.last() as int);
        }
        assert(v % 256 == s.last() as nat) by {
            vstd::arithmetic::div_mod::lemma_fundamental_div_mod_converse(v as int, 256, be_val(d) as int, s.last() as int);
        }
        assert(be_bytes(v, s.len()) =~= s);
    }
}

/// Of two strings of one length that agree before index `i`, the one with
/// the smaller byte at `i` has the smaller value.
pub proof fn lemma_be_val_lex(a: Seq<u8>, b: Seq<u8>, i: int)
    requires
        a.len() == b.len(),
        0 <= i < a.len(),
        a.take(i) == b.take(i),
        a[i] < b[i],
    ensures
        be_val(a) < be_val(b),
    decreases a.len(),
{
    let (da, db) = (a.drop_last(), b.drop_last());
    if i < a.len() - 1 {
        assert(da.take(i) =~= a.take(i));
        assert(db.take(i) =~= b.take(i));
        lemma_be_val_lex(da, db, i);
    } else {
        assert(da =~= a.take(i));
        assert(db =~= b.take(i));
    }
}

/// Whether `a < b` as numbers, by comparing bytes from the most significant.
pub fn be_lt(a: &[u8; 32], b: &[u8; 32]) -> (r: bool)
    ensures
        r == (be_val(a@) < be_val(b@)),
{
    let mut i: usize = 0;
    while i < 32
        invariant
            i <= 32,
            a@.take(i as int) == b@.take(i as int),
        decreases 32 - i,
    {
        if a[i] != b[i] {
            proof {
                if a[i as int] < b[i as int] {
                    lemma_be_val_lex(a@, b@, i as int);
                } else {
                    lemma_be_val_lex(b@, a@, i as int);
                }
            }
            return a[i] < b[i];
        }
        assert(a@.take(i + 1) =~= a@.take(i as int).push(a@[i as int]));
        assert(b@.take(i + 1) =~= b@.take(i as int).push(b@[i as int]));
        i = i + 1;
    }
    assert(a@ =~= a@.take(32));
    assert(b@ =~= b@.take(32));
    false
}

} // verus!
