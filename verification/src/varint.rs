//! LEB128-style variable-length integers: 7 payload bits per byte, least
//! significant group first, high bit as continuation flag; and the zigzag
//! bijection that maps signed values onto unsigned ones so small magnitudes
//! stay short.

use vstd::prelude::*;
use crate::binary::BinaryError;

verus! {

/// 128 raised to the power `n`: the number of values `n` payload groups hold.
pub open spec fn pow128(n: nat) -> nat
    decreases n,
{
    if n == 0 {
        1
    } else {
        128 * pow128((n - 1) as nat)
    }
}

/// Whether a byte carries the continuation flag (more groups follow).
pub open spec fn has_cont(b: u8) -> bool {
    b >= 0x80
}

/// The canonical variable-length encoding of `v`: the minimum run of 7-bit
/// groups, least significant first, continuation bit on every byte but the
/// last.
pub open spec fn uvarint(v: nat) -> Seq<u8>
    decreases v,
{
    if v < 0x80 {
        seq![v as u8]
    } else {
        seq![(v % 0x80 + 0x80) as u8] + uvarint(v / 0x80)
    }
}

/// The outcome of decoding a variable-length integer from the front of `s`
/// with at most `max` groups: the decoded value and the number of bytes
/// consumed, or the error the input forces. Exhausting `max` groups is a
/// malformed varint; exhausting the input first is a buffer underrun.
pub open spec fn uvarint_decode(s: Seq<u8>, max: nat) -> Result<(nat, nat), BinaryError>
    decreases max,
{
    if max == 0 {
        Err(BinaryError::MalformedVarInt)
    } else if s.len() == 0 {
        Err(BinaryError::BufferUnderrun)
    } else if !has_cont(s[0]) {
        Ok((s[0] as nat, 1))
    } else {
        match uvarint_decode(s.drop_first(), (max - 1) as nat) {
            Ok(vk) => Ok((((s[0] - 0x80) + 0x80 * vk.0) as nat, vk.1 + 1)),
            Err(e) => Err(e),
        }
    }
}

pub proof fn lemma_pow128_pos(n: nat)
    ensures
        pow128(n) >= 1,
    decreases n,
{
    if n > 0 {
        lemma_pow128_pos((n - 1) as nat);
    }
}

pub proof fn lemma_pow128_monotone(a: nat, b: nat)
    requires
        a <= b,
    ensures
        pow128(a) <= pow128(b),
    decreases b,
{
    if a < b {
        lemma_pow128_monotone(a, (b - 1) as nat);
    }
}

/// Shape and minimality of the canonical encoding: at least one group, the
/// last group without the continuation bit and all earlier ones with it, and
/// as few groups as can represent the value (one group fewer could not).
pub proof fn lemma_uvarint_shape(v: nat)
    ensures
        1 <= uvarint(v).len(),
        v < pow128(uvarint(v).len()),
        uvarint(v).len() > 1 ==> v >= pow128((uvarint(v).len() - 1) as nat),
        !has_cont(uvarint(v).last()),
        forall|i: int| 0 <= i < uvarint(v).len() - 1 ==> has_cont(uvarint(v)[i]),
    decreases v,
{
    if v < 0x80 {
        assert(uvarint(v) =~= seq![v as u8]);
    } else {
        lemma_uvarint_shape(v / 0x80);
        let head = seq![(v % 0x80 + 0x80) as u8];
        let tail = uvarint(v / 0x80);
        let s = uvarint(v);
        assert(s == head + tail);
        assert(s.len() == 1 + tail.len());
        assert(s.last() == tail.last());
        assert(forall|i: int| 1 <= i < s.len() - 1 ==> s[i] == tail[i - 1]);
        // value bound: v = v % 128 + 128 * (v / 128) < 128 * pow128(tail.len())
        assert(v < 128 * pow128(tail.len()));
        assert(pow128(s.len()) == 128 * pow128(tail.len()));
        // minimality: v >= 128 > pow128(0), and for longer tails the bound lifts
        if tail.len() > 1 {
            assert(v / 0x80 >= pow128((tail.len() - 1) as nat));
            assert(v >= 128 * (v / 0x80));
            assert(128 * (v / 0x80) >= 128 * pow128((tail.len() - 1) as nat)) by (nonlinear_arith)
                requires
                    v / 0x80 >= pow128((tail.len() - 1) as nat),
            ;
            assert(pow128((s.len() - 1) as nat) == 128 * pow128((tail.len() - 1) as nat));
        } else {
            assert(pow128((s.len() - 1) as nat) == 128);
        }
    }
}

/// Round trip: decoding an input that starts with the canonical encoding of
/// `v` succeeds, yields `v`, and consumes exactly the encoding, whatever
/// follows it, as long as the group budget admits the encoding.
pub proof fn lemma_uvarint_round_trip(v: nat, rest: Seq<u8>, max: nat)
    requires
        uvarint(v).len() <= max,
    ensures
        uvarint_decode(uvarint(v) + rest, max) == Ok::<(nat, nat), BinaryError>((
            v,
            uvarint(v).len(),
        )),
    decreases v,
{
    let s = uvarint(v) + rest;
    if v < 0x80 {
        assert(s[0] == v as u8);
        assert(!has_cont(s[0]));
    } else {
        let tail = uvarint(v / 0x80);
        lemma_uvarint_shape(v / 0x80);
        assert(uvarint(v).len() == 1 + tail.len());
        lemma_uvarint_round_trip(v / 0x80, rest, (max - 1) as nat);
        assert(s[0] == (v % 0x80 + 0x80) as u8);
        assert(has_cont(s[0]));
        assert(s.drop_first() =~= tail + rest);
        assert((s[0] - 0x80) + 0x80 * (v / 0x80) == v);
    }
}

/// What a successful decode guarantees about the consumed bytes: between one
/// and `max` groups, the last consumed byte without the continuation bit and
/// all earlier ones with it, and a value below `128^groups`.
pub proof fn lemma_uvarint_decode_ok(s: Seq<u8>, max: nat, v: nat, k: nat)
    requires
        uvarint_decode(s, max) == Ok::<(nat, nat), BinaryError>((v, k)),
    ensures
        1 <= k <= max,
        k <= s.len(),
        !has_cont(s[k - 1]),
        forall|i: int| 0 <= i < k - 1 ==> has_cont(s[i]),
        v < pow128(k),
    decreases max,
{
    reveal_with_fuel(pow128, 2);
    if !has_cont(s[0]) {
    } else {
        let inner = uvarint_decode(s.drop_first(), (max - 1) as nat);
        let v2 = inner->Ok_0.0;
        let k2 = inner->Ok_0.1;
        lemma_uvarint_decode_ok(s.drop_first(), (max - 1) as nat, v2, k2);
        assert(forall|i: int| 1 <= i < s.len() ==> s[i] == s.drop_first()[i - 1]);
        assert(v == (s[0] - 0x80) + 0x80 * v2);
        assert(k == k2 + 1);
        assert(v < 0x80 * (v2 + 1));
        assert(0x80 * (v2 + 1) <= 0x80 * pow128(k2));
        assert(pow128(k) == 0x80 * pow128(k2));
    }
}

/// Canonicality: a successful decode whose consumed bytes do not end in a
/// zero group (unless they are a single group) re-encodes to exactly the
/// consumed bytes — no second spelling of a value passes for canonical.
pub proof fn lemma_uvarint_canonical(s: Seq<u8>, max: nat, v: nat, k: nat)
    requires
        uvarint_decode(s, max) == Ok::<(nat, nat), BinaryError>((v, k)),
        k == 1 || s[k - 1] != 0,
    ensures
        uvarint(v) == s.take(k as int),
    decreases max,
{
    lemma_uvarint_decode_ok(s, max, v, k);
    if !has_cont(s[0]) {
        assert(uvarint(v) =~= seq![s[0]]);
        assert(seq![s[0]] =~= s.take(1));
    } else {
        let inner = uvarint_decode(s.drop_first(), (max - 1) as nat);
        let v2 = inner->Ok_0.0;
        let k2 = inner->Ok_0.1;
        lemma_uvarint_decode_ok(s.drop_first(), (max - 1) as nat, v2, k2);
        assert(s.drop_first()[k2 - 1] == s[k - 1]);
        if k2 == 1 {
            // a zero inner value would make s[k-1] == 0 with k > 1
            assert(s.drop_first()[0] == v2 as u8);
            assert(v2 != 0);
        } else {
            assert(s.drop_first()[k2 - 1] != 0);
        }
        lemma_uvarint_canonical(s.drop_first(), (max - 1) as nat, v2, k2);
        assert(v == (s[0] - 0x80) + 0x80 * v2);
        assert(v2 != 0 ==> v >= 0x80) by (nonlinear_arith)
            requires
                v == (s[0] - 0x80) + 0x80 * v2,
                s[0] >= 0x80,
        ;
        assert(v % 0x80 == s[0] - 0x80 && v / 0x80 == v2) by (nonlinear_arith)
            requires
                v == (s[0] - 0x80) + 0x80 * v2,
                0 <= s[0] - 0x80 < 0x80,
        ;
        assert(uvarint(v) == seq![s[0]] + uvarint(v2));
        assert(uvarint(v2) == s.drop_first().take(k2 as int));
        assert(seq![s[0]] + s.drop_first().take(k2 as int) =~= s.take(k as int));
    }
}

/// A value below `128^k` encodes in at most `k` groups.
pub proof fn lemma_uvarint_len_le(v: nat, k: nat)
    requires
        v < pow128(k),
        k >= 1,
    ensures
        uvarint(v).len() <= k,
{
    lemma_uvarint_shape(v);
    if uvarint(v).len() > k {
        lemma_pow128_monotone(k, (uvarint(v).len() - 1) as nat);
    }
}

/// A 32-bit value encodes in at most 5 groups, and 5 groups stay within
/// the exact range this codec accumulates.
pub proof fn lemma_uvarint_fits32(v: nat)
    requires
        v < 0x1_0000_0000,
    ensures
        uvarint(v).len() <= 5,
        v % 0x1_0000_0000 == v,
{
    assert(pow128(5) == 0x8_0000_0000) by {
        reveal_with_fuel(pow128, 6);
    }
    lemma_uvarint_len_le(v, 5);
}

/// A 64-bit value encodes in at most 10 groups.
pub proof fn lemma_uvarint_fits64(v: nat)
    requires
        v < 0x1_0000_0000_0000_0000,
    ensures
        uvarint(v).len() <= 10,
        v % 0x1_0000_0000_0000_0000 == v,
{
    assert(pow128(10) == 0x40_0000_0000_0000_0000) by {
        reveal_with_fuel(pow128, 11);
    }
    lemma_uvarint_len_le(v, 10);
}

/// The zigzag image of a signed value: non-negative `v` maps to `2 * v`,
/// negative `v` to `-2 * v - 1`, interleaving the two signs.
pub open spec fn zigzag_encode(v: int) -> nat {
    if v >= 0 {
        (2 * v) as nat
    } else {
        (-2 * v - 1) as nat
    }
}

/// The signed value a zigzag image stands for: even images are halved,
/// odd ones negated and halved.
pub open spec fn zigzag_decode(n: nat) -> int {
    if n % 2 == 0 {
        (n / 2) as int
    } else {
        -(((n + 1) / 2) as int)
    }
}

/// Zigzag is a bijection: decode inverts encode on every signed value, and
/// encode inverts decode on every unsigned one, at any width.
pub proof fn lemma_zigzag_round_trip(v: int, n: nat)
    ensures
        zigzag_decode(zigzag_encode(v)) == v,
        zigzag_encode(zigzag_decode(n)) == n,
{
}

/// Zigzag keeps a value inside the unsigned range of the same width.
pub proof fn lemma_zigzag_encode_bound(v: int, half: nat)
    requires
        -(half as int) <= v < half,
    ensures
        zigzag_encode(v) < 2 * half,
{
}

/// Round trip at the 32-bit width: the canonical encoding of any 32-bit
/// value, with anything after it, decodes within the 5-group budget to the
/// value itself, consuming exactly the encoding.
pub proof fn lemma_uvarint32_round_trip(v: nat, rest: Seq<u8>)
    requires
        v < 0x1_0000_0000,
    ensures
        uvarint_decode(uvarint(v) + rest, 5) == Ok::<(nat, nat), BinaryError>((
            v,
            uvarint(v).len(),
        )),
        uvarint(v).len() <= 5,
{
    lemma_uvarint_fits32(v);
    lemma_uvarint_round_trip(v, rest, 5);
}

/// Round trip at the 64-bit width, within the 10-group budget.
pub proof fn lemma_uvarint64_round_trip(v: nat, rest: Seq<u8>)
    requires
        v < 0x1_0000_0000_0000_0000,
    ensures
        uvarint_decode(uvarint(v) + rest, 10) == Ok::<(nat, nat), BinaryError>((
            v,
            uvarint(v).len(),
        )),
        uvarint(v).len() <= 10,
{
    lemma_uvarint_fits64(v);
    lemma_uvarint_round_trip(v, rest, 10);
}

/// Round trip for signed 32-bit values through zigzag and the varint
/// coding: the encoding of `v` decodes back to `v` exactly.
pub proof fn lemma_var_int32_round_trip(v: i32, rest: Seq<u8>)
    ensures
        ({
            let enc = uvarint(zigzag_encode(v as int));
            &&& uvarint_decode(enc + rest, 5) matches Ok(vk) && vk.1 == enc.len()
                && zigzag_decode((vk.0 % 0x1_0000_0000) as nat) == v as int
            &&& enc.len() <= 5
        }),
{
    let z = zigzag_encode(v as int);
    lemma_zigzag_encode_bound(v as int, 0x8000_0000);
    lemma_uvarint32_round_trip(z, rest);
    lemma_zigzag_round_trip(v as int, z);
}

/// Round trip for signed 64-bit values through zigzag and the varint
/// coding.
pub proof fn lemma_var_int64_round_trip(v: i64, rest: Seq<u8>)
    ensures
        ({
            let enc = uvarint(zigzag_encode(v as int));
            &&& uvarint_decode(enc + rest, 10) matches Ok(vk) && vk.1 == enc.len()
                && zigzag_decode((vk.0 % 0x1_0000_0000_0000_0000) as nat) == v as int
            &&& enc.len() <= 10
        }),
{
    let z = zigzag_encode(v as int);
    lemma_zigzag_encode_bound(v as int, 0x8000_0000_0000_0000);
    lemma_uvarint64_round_trip(z, rest);
    lemma_zigzag_round_trip(v as int, z);
}

/// Decode at most `max` groups of a variable-length integer starting at
/// `offset`, without committing the offset. The exact value fits `u128`
/// for every group budget this codec uses.
pub fn decode_uvarint_raw(buffer: &Vec<u8>, offset: usize, max: usize) -> (r: Result<
    (u128, usize),
    BinaryError,
>)
    requires
        max <= 10,
        offset <= buffer@.len(),
    ensures
        (match r {
            Ok(vk) => {
                &&& uvarint_decode(buffer@.skip(offset as int), max as nat) == Ok::<
                    (nat, nat),
                    BinaryError,
                >((vk.0 as nat, vk.1 as nat))
                &&& offset + vk.1 <= buffer@.len()
                &&& 1 <= vk.1 <= max
            },
            Err(e) => uvarint_decode(buffer@.skip(offset as int), max as nat) == Err::<
                (nat, nat),
                BinaryError,
            >(e),
        }),
{
    let ghost whole = buffer@.skip(offset as int);
    let mut acc: u128 = 0;
    let mut m: u128 = 1;
    let mut i: usize = 0;
    proof {
        assert(pow128(10) == 0x40_0000_0000_0000_0000) by {
            reveal_with_fuel(pow128, 11);
        }
    }
    while i < max
        invariant
            i <= max,
            max <= 10,
            offset + i <= buffer@.len(),
            whole == buffer@.skip(offset as int),
            m == pow128(i as nat),
            acc < pow128(i as nat),
            pow128(10) == 0x40_0000_0000_0000_0000,
            (match uvarint_decode(buffer@.skip(offset + i as int), (max - i) as nat) {
                Ok(vk) => uvarint_decode(whole, max as nat) == Ok::<(nat, nat), BinaryError>((
                    (acc + vk.0 * pow128(i as nat)) as nat,
                    (vk.1 + i) as nat,
                )),
                Err(e) => uvarint_decode(whole, max as nat) == Err::<(nat, nat), BinaryError>(e),
            }),
        decreases max - i,
    {
        proof {
            lemma_pow128_pos(i as nat);
            lemma_pow128_monotone(i as nat, 10);
            lemma_pow128_monotone(i as nat + 1, 10);
        }
        if i >= buffer.len() - offset {
            proof {
                assert(buffer@.skip(offset + i as int).len() == 0);
            }
            return Err(BinaryError::BufferUnderrun);
        }
        let b = buffer[offset + i];
        let ghost cur = buffer@.skip(offset + i as int);
        proof {
            assert(cur[0] == b);
            assert(cur.drop_first() =~= buffer@.skip(offset + i as int + 1));
        }
        if b < 0x80 {
            proof {
                assert(uvarint_decode(cur, (max - i) as nat) == Ok::<(nat, nat), BinaryError>((
                    b as nat,
                    1,
                )));
                assert(acc + (b as nat) * pow128(i as nat) < 0x80 * pow128(i as nat))
                    by (nonlinear_arith)
                    requires
                        acc < pow128(i as nat),
                        b < 0x80,
                        pow128(i as nat) >= 1,
                ;
                assert(pow128(i as nat + 1) == 128 * pow128(i as nat));
            }
            return Ok((acc + (b as u128) * m, i + 1));
        }
        let ghost acc0 = acc as nat;
        let ghost inner = uvarint_decode(cur.drop_first(), (max - i - 1) as nat);
        proof {
            assert(uvarint_decode(cur, (max - i) as nat) == (match inner {
                Ok(vk) => Ok::<(nat, nat), BinaryError>((((b - 0x80) + 0x80 * vk.0) as nat, vk.1 + 1)),
                Err(e) => Err::<(nat, nat), BinaryError>(e),
            }));
            assert(acc0 + ((b - 0x80) as nat) * pow128(i as nat) < 128 * pow128(i as nat))
                by (nonlinear_arith)
                requires
                    acc0 < pow128(i as nat),
                    0 <= b - 0x80 < 0x80,
                    pow128(i as nat) >= 1,
            ;
            assert(pow128(i as nat + 1) == 128 * pow128(i as nat));
            if inner is Ok {
                let v2 = inner->Ok_0.0;
                // regroup: (acc + low * 128^i) + v2 * 128^(i+1)
                //        == acc + ((low + 128 * v2)) * 128^i
                assert((acc0 + ((b - 0x80) as nat) * pow128(i as nat)) + v2 * (128 * pow128(
                    i as nat,
                )) == acc0 + (((b - 0x80) + 0x80 * v2) as nat) * pow128(i as nat))
                    by (nonlinear_arith)
                    requires
                        b >= 0x80,
                ;
            }
        }
        acc = acc + ((b - 0x80) as u128) * m;
        m = m * 128;
        i = i + 1;
    }
    proof {
        assert(uvarint_decode(buffer@.skip(offset + i as int), 0) == Err::<
            (nat, nat),
            BinaryError,
        >(BinaryError::MalformedVarInt));
    }
    Err(BinaryError::MalformedVarInt)
}

} // verus!
