//! Fixed-width big-endian integer fields and small byte-vector helpers.
//!
//! All multi-byte integer fields of the wire format (output values, the
//! persisted value field of an output record) are unsigned big-endian.

use vstd::prelude::*;

verus! {

/// 256 raised to `n`: the number of values an `n`-byte field can hold.
pub open spec fn pow256(n: nat) -> nat
    decreases n,
{
    if n == 0 {
        1
    } else {
        256 * pow256((n - 1) as nat)
    }
}

/// The unsigned big-endian value of a byte string.
pub open spec fn be_val(b: Seq<u8>) -> nat
    decreases b.len(),
{
    if b.len() == 0 {
        0
    } else {
        be_val(b.drop_last()) * 256 + b.last() as nat
    }
}

/// The `len`-byte big-endian encoding of `v` (modulo `pow256(len)`).
pub open spec fn be_bytes(v: nat, len: nat) -> Seq<u8>
    decreases len,
{
    if len == 0 {
        Seq::empty()
    } else {
        be_bytes(v / 256, (len - 1) as nat) + seq![(v % 256) as u8]
    }
}

pub proof fn lemma_be_bytes_len(v: nat, len: nat)
    ensures
        be_bytes(v, len).len() == len,
    decreases len,
{
    if len > 0 {
        lemma_be_bytes_len(v / 256, (len - 1) as nat);
    }
}

pub proof fn lemma_be_val_bound(b: Seq<u8>)
    ensures
        be_val(b) < pow256(b.len()),
    decreases b.len(),
{
    if b.len() > 0 {
        lemma_be_val_bound(b.drop_last());
    }
}

pub proof fn lemma_be_val_snoc(b: Seq<u8>, x: u8)
    ensures
        be_val(b.push(x)) == be_val(b) * 256 + x,
{
    assert(b.push(x).drop_last() =~= b);
}

/// A value below `pow256(len)` is recovered exactly from its encoding.
pub proof fn lemma_be_bytes_val(v: nat, len: nat)
    requires
        v < pow256(len),
    ensures
        be_val(be_bytes(v, len)) == v,
    decreases len,
{
    if len > 0 {
        let hi = v / 256;
        let lo = v % 256;
        assert(hi < pow256((len - 1) as nat)) by {
            vstd::arithmetic::div_mod::lemma_div_is_ordered_by_denominator(v as int, 1, 256);
            if hi >= pow256((len - 1) as nat) {
                vstd::arithmetic::div_mod::lemma_fundamental_div_mod(v as int, 256);
                assert(v >= 256 * pow256((len - 1) as nat)) by (nonlinear_arith)
                    requires
                        hi >= pow256((len - 1) as nat),
                        v == 256 * hi + lo,
                        lo >= 0,
                ;
            }
        }
        lemma_be_bytes_val(hi, (len - 1) as nat);
        let pre = be_bytes(hi, (len - 1) as nat);
        assert(be_bytes(v, len) =~= pre.push(lo as u8));
        lemma_be_val_snoc(pre, lo as u8);
        vstd::arithmetic::div_mod::lemma_fundamental_div_mod(v as int, 256);
    }
}

/// Whether two byte vectors hold the same bytes.
pub fn bytes_eq(a: &Vec<u8>, b: &Vec<u8>) -> (r: bool)
    ensures
        r == (a@ == b@),
{
    if a.len() != b.len() {
        assert(a@ != b@);
        return false;
    }
    let mut i: usize = 0;
    while i < a.len()
        invariant
            i <= a.len(),
            a@.len() == b@.len(),
            forall|j: int| 0 <= j < i ==> a@[j] == b@[j],
        decreases a.len() - i,
    {
        if a[i] != b[i] {
            return false;
        }
        i += 1;
    }
    assert(a@ =~= b@);
    true
}

/// A copy of `v[start..end]`.
pub fn subrange_vec(v: &Vec<u8>, start: usize, end: usize) -> (r: Vec<u8>)
    requires
        start <= end <= v@.len(),
    ensures
        r@ == v@.subrange(start as int, end as int),
{
    let mut r: Vec<u8> = Vec::new();
    let mut i: usize = start;
    while i < end
        invariant
            start <= i <= end <= v@.len(),
            r@ == v@.subrange(start as int, i as int),
        decreases end - i,
    {
        r.push(v[i]);
        assert(r@ =~= v@.subrange(start as int, i + 1 as int));
        i += 1;
    }
    r
}

/// The concatenation of two byte vectors.
pub fn concat_bytes(a: &Vec<u8>, b: &Vec<u8>) -> (r: Vec<u8>)
    ensures
        r@ == a@ + b@,
{
    let mut r: Vec<u8> = Vec::new();
    let mut i: usize = 0;
    while i < a.len()
        invariant
            i <= a@.len(),
            r@ == a@.subrange(0, i as int),
        decreases a.len() - i,
    {
        r.push(a[i]);
        assert(r@ =~= a@.subrange(0, i + 1 as int));
        i += 1;
    }
    assert(r@ =~= a@);
    let mut j: usize = 0;
    while j < b.len()
        invariant
            j <= b@.len(),
            r@ == a@ + b@.subrange(0, j as int),
        decreases b.len() - j,
    {
        r.push(b[j]);
        assert(r@ =~= a@ + b@.subrange(0, j + 1 as int));
        j += 1;
    }
    assert(r@ =~= a@ + b@);
    r
}

/// Decodes the big-endian field `v[start..start + len]`.
pub fn be_decode(v: &Vec<u8>, start: usize, len: usize) -> (r: u64)
    requires
        start + len <= v@.len(),
        len <= 7,
    ensures
        r == be_val(v@.subrange(start as int, (start + len) as int)),
{
    let mut r: u64 = 0;
    let mut i: usize = 0;
    let vlen = v.len();
    proof {
        assert(v@.subrange(start as int, start as int) =~= Seq::<u8>::empty());
    }
    while i < len
        invariant
            i <= len <= 7,
            start + len <= v@.len(),
            vlen == v@.len(),
            r == be_val(v@.subrange(start as int, (start + i) as int)),
            r < pow256(i as nat),
        decreases len - i,
    {
        proof {
            let pre = v@.subrange(start as int, (start + i) as int);
            assert(v@.subrange(start as int, (start + i + 1) as int) =~= pre.push(
                v@[start + i],
            ));
            lemma_be_val_snoc(pre, v@[start + i]);
            reveal_with_fuel(pow256, 8);
            assert(pow256(7) == 0x100000000000000);
            assert(pow256((i + 1) as nat) == 256 * pow256(i as nat));
        }
        r = r * 256 + (v[start + i] as u64);
        i += 1;
    }
    r
}

/// Encodes `v` as a `len`-byte big-endian field.
pub fn be_encode(v: u64, len: usize) -> (r: Vec<u8>)
    ensures
        r@ == be_bytes(v as nat, len as nat),
    decreases len,
{
    if len == 0 {
        let r: Vec<u8> = Vec::new();
        assert(r@ =~= be_bytes(v as nat, 0));
        r
    } else {
        let mut r = be_encode(v / 256, len - 1);
        r.push((v % 256) as u8);
        assert(r@ =~= be_bytes(v as nat, len as nat));
        r
    }
}

} // verus!
