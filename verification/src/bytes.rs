//! Base-256 positional encoding of unsigned integers: the little-endian
//! value of a byte sequence, the little-endian bytes of a value, and the
//! executable conversions between them.

use vstd::prelude::*;

verus! {

/// 256 raised to the power `n`: the number of distinct values of `n` bytes.
pub open spec fn pow256(n: nat) -> nat
    decreases n,
{
    if n == 0 {
        1
    } else {
        256 * pow256((n - 1) as nat)
    }
}

/// The value of a byte sequence read least-significant byte first.
pub open spec fn le_val(s: Seq<u8>) -> nat
    decreases s.len(),
{
    if s.len() == 0 {
        0
    } else {
        (s[0] + 256 * le_val(s.drop_first())) as nat
    }
}

/// The `n` little-endian bytes of `v` (the low `8 * n` bits of `v`).
pub open spec fn le_bytes(v: nat, n: nat) -> Seq<u8>
    decreases n,
{
    if n == 0 {
        Seq::empty()
    } else {
        seq![(v % 256) as u8] + le_bytes(v / 256, (n - 1) as nat)
    }
}

pub proof fn lemma_pow256_monotone(a: nat, b: nat)
    requires
        a <= b,
    ensures
        pow256(a) <= pow256(b),
    decreases b,
{
    if a < b {
        lemma_pow256_monotone(a, (b - 1) as nat);
    }
}

/// A sequence of `n` bytes can hold only values below `256^n`.
pub proof fn lemma_le_val_bound(s: Seq<u8>)
    ensures
        le_val(s) < pow256(s.len()),
    decreases s.len(),
{
    if s.len() > 0 {
        lemma_le_val_bound(s.drop_first());
    }
}

pub proof fn lemma_le_bytes_len(v: nat, n: nat)
    ensures
        le_bytes(v, n).len() == n,
    decreases n,
{
    if n > 0 {
        lemma_le_bytes_len(v / 256, (n - 1) as nat);
    }
}

/// Round trip: reading back the little-endian bytes of an in-range value
/// yields the value itself.
pub proof fn lemma_le_bytes_val(v: nat, n: nat)
    requires
        v < pow256(n),
    ensures
        le_val(le_bytes(v, n)) == v,
    decreases n,
{
    if n > 0 {
        assert(v / 256 < pow256((n - 1) as nat));
        lemma_le_bytes_val(v / 256, (n - 1) as nat);
        let s = le_bytes(v, n);
        assert(s.drop_first() =~= le_bytes(v / 256, (n - 1) as nat));
        assert(s[0] == (v % 256) as u8);
    } else {
        assert(v == 0);
    }
}

/// Canonicity: a byte sequence is the little-endian encoding of its own value.
pub proof fn lemma_le_val_bytes(s: Seq<u8>)
    ensures
        le_bytes(le_val(s), s.len()) == s,
    decreases s.len(),
{
    if s.len() > 0 {
        lemma_le_val_bytes(s.drop_first());
        let v = le_val(s);
        assert(v % 256 == s[0] && v / 256 == le_val(s.drop_first())) by {
            assert(v == s[0] + 256 * le_val(s.drop_first()));
        }
        assert(le_bytes(v, s.len()) =~= s);
    } else {
        assert(le_bytes(0, 0) =~= s);
    }
}

/// The `n` little-endian bytes of `v`, least-significant first.
pub fn le_encode(v: u64, n: usize) -> (r: Vec<u8>)
    ensures
        r@ == le_bytes(v as nat, n as nat),
        r@.len() == n,
{
    let mut r: Vec<u8> = Vec::new();
    let mut x: u64 = v;
    let mut i: usize = 0;
    proof {
        assert(le_bytes(v as nat, n as nat) =~= r@ + le_bytes(v as nat, n as nat));
    }
    while i < n
        invariant
            i <= n,
            r@.len() == i,
            le_bytes(v as nat, n as nat) == r@ + le_bytes(x as nat, (n - i) as nat),
        decreases n - i,
    {
        let ghost pre = r@;
        let ghost xg = x as nat;
        let ghost m = (n - i) as nat;
        r.push((x % 256) as u8);
        x = x / 256;
        i = i + 1;
        proof {
            assert(le_bytes(xg, m) == seq![(xg % 256) as u8] + le_bytes(xg / 256, (m - 1) as nat));
            assert(r@ == pre.push((xg % 256) as u8));
            assert(pre.push((xg % 256) as u8) + le_bytes(xg / 256, (m - 1) as nat) =~= pre
                + le_bytes(xg, m));
        }
    }
    proof {
        assert(le_bytes(x as nat, 0) =~= Seq::<u8>::empty());
        assert(r@ + Seq::<u8>::empty() =~= r@);
        lemma_le_bytes_len(v as nat, n as nat);
    }
    r
}

/// The little-endian value of the first `n` bytes of `b`.
pub fn le_decode(b: &Vec<u8>, n: usize) -> (r: u64)
    requires
        n <= 8,
        n <= b@.len(),
    ensures
        r as nat == le_val(b@.take(n as int)),
{
    let mut acc: u64 = 0;
    let mut i: usize = n;
    proof {
        assert(b@.subrange(n as int, n as int) =~= Seq::<u8>::empty());
    }
    while i > 0
        invariant
            i <= n,
            n <= 8,
            n <= b@.len(),
            acc as nat == le_val(b@.subrange(i as int, n as int)),
            acc < pow256((n - i) as nat),
        decreases i,
    {
        i = i - 1;
        let ghost tail = b@.subrange(i as int + 1, n as int);
        proof {
            let cur = b@.subrange(i as int, n as int);
            assert(cur[0] == b@[i as int]);
            assert(cur.drop_first() =~= tail);
            assert(le_val(cur) == b@[i as int] + 256 * le_val(tail));
            // acc * 256 + byte stays below 256^(n - i)
            assert(256 * pow256((n - i - 1) as nat) == pow256((n - i) as nat));
            lemma_pow256_monotone((n - i) as nat, 8);
            assert(pow256(8) == 0x1_0000_0000_0000_0000) by {
                reveal_with_fuel(pow256, 9);
            }
        }
        acc = acc * 256 + (b[i] as u64);
    }
    proof {
        assert(b@.subrange(0, n as int) =~= b@.take(n as int));
    }
    acc
}

/// The bytes of `b` in reverse order.
pub fn rev_bytes(b: &Vec<u8>) -> (r: Vec<u8>)
    ensures
        r@ == b@.reverse(),
{
    let mut r: Vec<u8> = Vec::new();
    let mut i: usize = b.len();
    while i > 0
        invariant
            i <= b@.len(),
            r@.len() == b@.len() - i,
            forall|j: int| 0 <= j < r@.len() ==> r@[j] == b@[b@.len() - 1 - j],
        decreases i,
    {
        i = i - 1;
        r.push(b[i]);
    }
    proof {
        assert(r@ =~= b@.reverse());
    }
    r
}

/// The first `n` bytes of `b`.
pub fn take_bytes(b: &Vec<u8>, n: usize) -> (r: Vec<u8>)
    requires
        n <= b@.len(),
    ensures
        r@ == b@.take(n as int),
{
    let mut r: Vec<u8> = Vec::new();
    let mut i: usize = 0;
    while i < n
        invariant
            i <= n,
            n <= b@.len(),
            r@ =~= b@.take(i as int),
        decreases n - i,
    {
        r.push(b[i]);
        i = i + 1;
    }
    proof {
        assert(r@ =~= b@.take(n as int));
    }
    r
}

} // verus!
