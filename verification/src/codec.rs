//! The stable binary encoding of stored records, and the decimal rendering
//! of identifiers used as keys.
//!
//! Every value kept in the store is encoded with a fixed, self-contained
//! scheme: integers as eight little-endian bytes (signed values in two's
//! complement), sequences as an eight-byte length prefix followed by the
//! encoded elements.  Encoding and decoding are verified inverses.

use vstd::prelude::*;

use crate::db::Measure;

verus! {

/// 256 to the power `k`: the number of byte strings of length `k`.
pub open spec fn pow256(k: nat) -> nat
    decreases k,
{
    if k == 0 {
        1
    } else {
        256 * pow256((k - 1) as nat)
    }
}

/// The value of a little-endian byte string.
pub open spec fn le_value(b: Seq<u8>) -> nat
    decreases b.len(),
{
    if b.len() == 0 {
        0
    } else {
        b[0] as nat + 256 * le_value(b.drop_first())
    }
}

/// The `k` little-endian bytes of `n` (modulo `pow256(k)`).
pub open spec fn le_bytes(n: nat, k: nat) -> Seq<u8>
    decreases k,
{
    if k == 0 {
        Seq::empty()
    } else {
        seq![(n % 256) as u8] + le_bytes(n / 256, (k - 1) as nat)
    }
}

/// The unsigned number that stands for `x` in two's complement.
pub open spec fn u64_rep(x: int) -> nat {
    if x >= 0 {
        x as nat
    } else {
        (x + 0x1_0000_0000_0000_0000) as nat
    }
}

/// The signed value represented by the unsigned number `v`.
pub open spec fn i64_from_rep(v: nat) -> int {
    if v < 0x8000_0000_0000_0000 {
        v as int
    } else {
        v - 0x1_0000_0000_0000_0000
    }
}

/// The eight-byte encoding of an unsigned integer.
pub open spec fn enc_u64(n: nat) -> Seq<u8> {
    le_bytes(n, 8)
}

/// The eight-byte encoding of a signed integer.
pub open spec fn enc_i64(x: int) -> Seq<u8> {
    le_bytes(u64_rep(x), 8)
}

/// The signed integer encoded by `b`, if `b` has the right length.
pub open spec fn dec_i64(b: Seq<u8>) -> Option<i64> {
    if b.len() == 8 {
        Some(i64_from_rep(le_value(b)) as i64)
    } else {
        None
    }
}

pub proof fn lemma_pow256_values()
    ensures
        pow256(7) == 0x100_0000_0000_0000,
        pow256(8) == 0x1_0000_0000_0000_0000,
{
    reveal_with_fuel(pow256, 9);
}

pub proof fn lemma_le_bytes_len(n: nat, k: nat)
    ensures
        le_bytes(n, k).len() == k,
    decreases k,
{
    if k > 0 {
        lemma_le_bytes_len(n / 256, (k - 1) as nat);
    }
}

/// Reading back the little-endian bytes of `n` yields `n`.
pub proof fn lemma_le_roundtrip(n: nat, k: nat)
    requires
        n < pow256(k),
    ensures
        le_value(le_bytes(n, k)) == n,
    decreases k,
{
    if k == 0 {
    } else {
        let rest = le_bytes(n / 256, (k - 1) as nat);
        let s = seq![(n % 256) as u8] + rest;
        lemma_le_bytes_len(n / 256, (k - 1) as nat);
        assert(s.len() == 1 + rest.len());
        assert(s[0] == (n % 256) as u8);
        assert(s.drop_first() =~= rest);
        assert(n == 256 * (n / 256) + n % 256);
        assert(256 * (n / 256) <= n);
        assert(n / 256 < pow256((k - 1) as nat));
        lemma_le_roundtrip(n / 256, (k - 1) as nat);
        assert(le_value(s) == (n % 256) + 256 * (n / 256));
    }
}

/// A byte string of length `k` encodes a value below `pow256(k)`.
pub proof fn lemma_le_value_bound(b: Seq<u8>)
    ensures
        le_value(b) < pow256(b.len()),
    decreases b.len(),
{
    if b.len() > 0 {
        lemma_le_value_bound(b.drop_first());
    }
}

/// Decoding inverts encoding for every representable signed integer.
pub proof fn lemma_i64_roundtrip(x: int)
    requires
        i64::MIN <= x <= i64::MAX,
    ensures
        dec_i64(enc_i64(x)) == Some(x as i64),
{
    lemma_pow256_values();
    lemma_le_bytes_len(u64_rep(x), 8);
    lemma_le_roundtrip(u64_rep(x), 8);
}

/// Appends the `k` little-endian bytes of `n` to `out`.
pub fn push_le_bytes(n: u64, k: usize, out: &mut Vec<u8>)
    ensures
        final(out)@ == old(out)@ + le_bytes(n as nat, k as nat),
    decreases k,
{
    if k == 0 {
        proof {
            assert(out@ =~= old(out)@ + le_bytes(n as nat, 0));
        }
    } else {
        out.push((n % 256) as u8);
        push_le_bytes(n / 256, k - 1, out);
        proof {
            assert(out@ =~= old(out)@ + le_bytes(n as nat, k as nat));
        }
    }
}

/// Appends the eight-byte encoding of a signed integer to `out`.
pub fn push_i64(x: i64, out: &mut Vec<u8>)
    ensures
        final(out)@ == old(out)@ + enc_i64(x as int),
{
    if x >= 0 {
        push_le_bytes(x as u64, 8, out);
    } else {
        let shifted: u64 = (x - i64::MIN) as u64 + 0x8000_0000_0000_0000u64;
        proof {
            assert(shifted as nat == u64_rep(x as int));
        }
        push_le_bytes(shifted, 8, out);
    }
}

/// Reads the unsigned value of the eight bytes of `v` starting at `off`.
pub fn read_le_u64(v: &Vec<u8>, off: usize) -> (r: u64)
    requires
        off + 8 <= v@.len(),
    ensures
        r as nat == le_value(v@.subrange(off as int, off as int + 8)),
{
    proof {
        lemma_pow256_values();
    }
    let _len: usize = v.len();
    let mut val: u64 = 0;
    let mut i: usize = 8;
    while i > 0
        invariant
            off + 8 <= v@.len(),
            v@.len() <= usize::MAX,
            i <= 8,
            val as nat == le_value(v@.subrange(off + i, off as int + 8)),
            val < pow256((8 - i) as nat),
            pow256(7) == 0x100_0000_0000_0000,
            pow256(8) == 0x1_0000_0000_0000_0000,
        decreases i,
    {
        proof {
            lemma_pow256_mono((8 - i) as nat, 7nat);
        }
        i = i - 1;
        let b: u8 = v[off + i];
        proof {
            let s = v@.subrange(off + i, off as int + 8);
            assert(s.len() >= 1);
            assert(s[0] == v@[off + i]);
            assert(s.drop_first() =~= v@.subrange(off + i + 1, off as int + 8));
        }
        val = b as u64 + val * 256;
        proof {
            let s = v@.subrange(off + i, off as int + 8);
            lemma_le_value_bound(s);
            assert(s.len() == 8 - i);
        }
    }
    proof {
        assert(v@.subrange(off as int, off as int + 8) =~= v@.subrange(
            off + 0,
            off as int + 8,
        ));
    }
    val
}

pub proof fn lemma_pow256_mono(a: nat, b: nat)
    requires
        a <= b,
    ensures
        pow256(a) <= pow256(b),
    decreases b,
{
    if a < b && b > 0 {
        lemma_pow256_mono(a, (b - 1) as nat);
    }
}

/// The sixteen-byte encoding of one history sample.
pub open spec fn measure_bytes(m: Measure) -> Seq<u8> {
    enc_i64(m.timestamp as int) + enc_i64(m.karma as int)
}

/// The encoded elements of a history log, in order.
pub open spec fn measure_items_bytes(s: Seq<Measure>) -> Seq<u8>
    decreases s.len(),
{
    if s.len() == 0 {
        Seq::empty()
    } else {
        measure_bytes(s[0]) + measure_items_bytes(s.drop_first())
    }
}

/// The encoding of a history log: length prefix, then the samples.
pub open spec fn enc_measures(s: Seq<Measure>) -> Seq<u8> {
    enc_u64(s.len()) + measure_items_bytes(s)
}

/// Parses exactly `n` sixteen-byte samples out of `b`.
pub open spec fn dec_measure_items(b: Seq<u8>, n: nat) -> Option<Seq<Measure>>
    decreases n,
{
    if n == 0 {
        if b.len() == 0 {
            Some(Seq::empty())
        } else {
            None
        }
    } else if b.len() < 16 {
        None
    } else {
        match dec_measure_items(b.skip(16), (n - 1) as nat) {
            Some(rest) => match (dec_i64(b.subrange(0, 8)), dec_i64(b.subrange(8, 16))) {
                (Some(t), Some(k)) => Some(
                    seq![Measure { timestamp: t, karma: k }] + rest,
                ),
                _ => None,
            },
            None => None,
        }
    }
}

/// The history log encoded by `b`, if `b` is well formed.
pub open spec fn dec_measures(b: Seq<u8>) -> Option<Seq<Measure>> {
    if b.len() < 8 {
        None
    } else {
        let n = le_value(b.take(8));
        if b.len() == 8 + 16 * n {
            dec_measure_items(b.skip(8), n)
        } else {
            None
        }
    }
}

/// The encoded elements of a membership list, in order.
pub open spec fn member_items_bytes(s: Seq<u64>) -> Seq<u8>
    decreases s.len(),
{
    if s.len() == 0 {
        Seq::empty()
    } else {
        enc_u64(s[0] as nat) + member_items_bytes(s.drop_first())
    }
}

/// The encoding of a membership list: length prefix, then the members.
pub open spec fn enc_members(s: Seq<u64>) -> Seq<u8> {
    enc_u64(s.len()) + member_items_bytes(s)
}

/// Parses exactly `n` eight-byte members out of `b`.
pub open spec fn dec_member_items(b: Seq<u8>, n: nat) -> Option<Seq<u64>>
    decreases n,
{
    if n == 0 {
        if b.len() == 0 {
            Some(Seq::empty())
        } else {
            None
        }
    } else if b.len() < 8 {
        None
    } else {
        match dec_member_items(b.skip(8), (n - 1) as nat) {
            Some(rest) => Some(seq![u64_of_le(b.subrange(0, 8))] + rest),
            None => None,
        }
    }
}

/// The unsigned integer encoded by eight little-endian bytes.
pub open spec fn u64_of_le(b: Seq<u8>) -> u64 {
    le_value(b) as u64
}

/// The membership list encoded by `b`, if `b` is well formed.
pub open spec fn dec_members(b: Seq<u8>) -> Option<Seq<u64>> {
    if b.len() < 8 {
        None
    } else {
        let n = le_value(b.take(8));
        if b.len() == 8 + 8 * n {
            dec_member_items(b.skip(8), n)
        } else {
            None
        }
    }
}

/// Reads a signed integer from the eight bytes of `v` starting at `off`.
pub fn read_i64(v: &Vec<u8>, off: usize) -> (r: i64)
    requires
        off + 8 <= v@.len(),
    ensures
        Some(r) == dec_i64(v@.subrange(off as int, off as int + 8)),
{
    let raw: u64 = read_le_u64(v, off);
    proof {
        lemma_pow256_values();
        lemma_le_value_bound(v@.subrange(off as int, off as int + 8));
    }
    if raw < 0x8000_0000_0000_0000u64 {
        raw as i64
    } else {
        (raw - 0x8000_0000_0000_0000u64) as i64 + i64::MIN
    }
}

pub proof fn lemma_measure_bytes_len(m: Measure)
    ensures
        measure_bytes(m).len() == 16,
{
    lemma_le_bytes_len(u64_rep(m.timestamp as int), 8);
    lemma_le_bytes_len(u64_rep(m.karma as int), 8);
}

pub proof fn lemma_measure_items_len(s: Seq<Measure>)
    ensures
        measure_items_bytes(s).len() == 16 * s.len(),
    decreases s.len(),
{
    if s.len() > 0 {
        lemma_measure_bytes_len(s[0]);
        lemma_measure_items_len(s.drop_first());
    }
}

pub proof fn lemma_member_items_len(s: Seq<u64>)
    ensures
        member_items_bytes(s).len() == 8 * s.len(),
    decreases s.len(),
{
    if s.len() > 0 {
        lemma_le_bytes_len(s[0] as nat, 8);
        lemma_member_items_len(s.drop_first());
    }
}

pub proof fn lemma_measure_items_roundtrip(s: Seq<Measure>)
    ensures
        dec_measure_items(measure_items_bytes(s), s.len()) == Some(s),
    decreases s.len(),
{
    if s.len() == 0 {
    } else {
        let head = s[0];
        let tail = s.drop_first();
        let b = measure_bytes(head) + measure_items_bytes(tail);
        lemma_measure_bytes_len(head);
        lemma_measure_items_len(tail);
        lemma_le_bytes_len(u64_rep(head.timestamp as int), 8);
        lemma_le_bytes_len(u64_rep(head.karma as int), 8);
        assert(b.skip(16) =~= measure_items_bytes(tail));
        lemma_measure_items_roundtrip(tail);
        assert(b.subrange(0, 8) =~= enc_i64(head.timestamp as int));
        assert(b.subrange(8, 16) =~= enc_i64(head.karma as int));
        lemma_i64_roundtrip(head.timestamp as int);
        lemma_i64_roundtrip(head.karma as int);
        assert(seq![Measure { timestamp: head.timestamp, karma: head.karma }] + tail =~= s);
    }
}

/// Decoding inverts encoding for every history log a `Vec` can hold.
pub proof fn lemma_measures_roundtrip(s: Seq<Measure>)
    requires
        s.len() < 0x1_0000_0000_0000_0000,
    ensures
        dec_measures(enc_measures(s)) == Some(s),
{
    let b = enc_u64(s.len()) + measure_items_bytes(s);
    lemma_pow256_values();
    lemma_le_bytes_len(s.len(), 8);
    lemma_measure_items_len(s);
    assert(b.take(8) =~= enc_u64(s.len()));
    lemma_le_roundtrip(s.len(), 8);
    assert(b.skip(8) =~= measure_items_bytes(s));
    lemma_measure_items_roundtrip(s);
}

pub proof fn lemma_member_items_roundtrip(s: Seq<u64>)
    ensures
        dec_member_items(member_items_bytes(s), s.len()) == Some(s),
    decreases s.len(),
{
    if s.len() == 0 {
    } else {
        let head = s[0];
        let tail = s.drop_first();
        let b = enc_u64(head as nat) + member_items_bytes(tail);
        lemma_le_bytes_len(head as nat, 8);
        lemma_member_items_len(tail);
        assert(b.skip(8) =~= member_items_bytes(tail));
        lemma_member_items_roundtrip(tail);
        assert(b.subrange(0, 8) =~= enc_u64(head as nat));
        lemma_pow256_values();
        lemma_le_roundtrip(head as nat, 8);
        assert(u64_of_le(b.subrange(0, 8)) == head);
        assert(seq![head] + tail =~= s);
    }
}

/// Decoding inverts encoding for every membership list a `Vec` can hold.
pub proof fn lemma_members_roundtrip(s: Seq<u64>)
    requires
        s.len() < 0x1_0000_0000_0000_0000,
    ensures
        dec_members(enc_members(s)) == Some(s),
{
    let b = enc_u64(s.len()) + member_items_bytes(s);
    lemma_pow256_values();
    lemma_le_bytes_len(s.len(), 8);
    lemma_member_items_len(s);
    assert(b.take(8) =~= enc_u64(s.len()));
    lemma_le_roundtrip(s.len(), 8);
    assert(b.skip(8) =~= member_items_bytes(s));
    lemma_member_items_roundtrip(s);
}

fn push_measure_items(v: &Vec<Measure>, i: usize, out: &mut Vec<u8>)
    requires
        i <= v@.len(),
    ensures
        final(out)@ == old(out)@ + measure_items_bytes(v@.skip(i as int)),
    decreases v@.len() - i,
{
    if i < v.len() {
        push_i64(v[i].timestamp, out);
        push_i64(v[i].karma, out);
        push_measure_items(v, i + 1, out);
        proof {
            assert(v@.skip(i as int)[0] == v@[i as int]);
            assert(v@.skip(i as int).drop_first() =~= v@.skip(i + 1));
            assert(out@ =~= old(out)@ + measure_items_bytes(v@.skip(i as int)));
        }
    } else {
        proof {
            assert(v@.skip(i as int) =~= Seq::<Measure>::empty());
            assert(out@ =~= old(out)@ + measure_items_bytes(v@.skip(i as int)));
        }
    }
}

/// Encodes a history log.
pub fn encode_measures(v: &Vec<Measure>) -> (out: Vec<u8>)
    ensures
        out@ == enc_measures(v@),
{
    let mut out: Vec<u8> = Vec::new();
    push_le_bytes(v.len() as u64, 8, &mut out);
    push_measure_items(v, 0, &mut out);
    proof {
        assert(v@.skip(0) =~= v@);
        assert(out@ =~= enc_measures(v@));
    }
    out
}

fn push_member_items(v: &Vec<u64>, i: usize, out: &mut Vec<u8>)
    requires
        i <= v@.len(),
    ensures
        final(out)@ == old(out)@ + member_items_bytes(v@.skip(i as int)),
    decreases v@.len() - i,
{
    if i < v.len() {
        push_le_bytes(v[i], 8, &mut *out);
        push_member_items(v, i + 1, out);
        proof {
            assert(v@.skip(i as int)[0] == v@[i as int]);
            assert(v@.skip(i as int).drop_first() =~= v@.skip(i + 1));
            assert(out@ =~= old(out)@ + member_items_bytes(v@.skip(i as int)));
        }
    } else {
        proof {
            assert(v@.skip(i as int) =~= Seq::<u64>::empty());
            assert(out@ =~= old(out)@ + member_items_bytes(v@.skip(i as int)));
        }
    }
}

/// Encodes a membership list.
pub fn encode_members(v: &Vec<u64>) -> (out: Vec<u8>)
    ensures
        out@ == enc_members(v@),
{
    let mut out: Vec<u8> = Vec::new();
    push_le_bytes(v.len() as u64, 8, &mut out);
    push_member_items(v, 0, &mut out);
    proof {
        assert(v@.skip(0) =~= v@);
        assert(out@ =~= enc_members(v@));
    }
    out
}

/// Decodes a history log, or reports that the bytes are malformed.
pub fn decode_measures(v: &Vec<u8>) -> (r: Option<Vec<Measure>>)
    ensures
        match r {
            Some(m) => dec_measures(v@) == Some(m@),
            None => dec_measures(v@) is None,
        },
{
    if v.len() < 8 {
        return None;
    }
    let n: u64 = read_le_u64(v, 0);
    proof {
        assert(v@.take(8) =~= v@.subrange(0, 8));
    }
    let rem: usize = v.len() - 8;
    if rem % 16 != 0 || rem / 16 != (n as usize) || (rem / 16) as u64 != n {
        proof {
            vstd::arithmetic::div_mod::lemma_fundamental_div_mod(rem as int, 16);
            assert(v@.len() != 8 + 16 * le_value(v@.take(8)));
        }
        return None;
    }
    let count: usize = rem / 16;
    let mut out: Vec<Measure> = Vec::new();
    let mut j: usize = 0;
    proof {
        assert(Seq::<Measure>::empty() + dec_measure_items(v@.skip(8), n as nat).unwrap()
            =~= dec_measure_items(v@.skip(8), n as nat).unwrap());
    }
    while j < count
        invariant
            v@.len() == 8 + 16 * count,
            v@.len() <= usize::MAX,
            j <= count,
            out@.len() == j,
            ({
                let full = dec_measure_items(v@.skip(8), count as nat);
                let rest = dec_measure_items(v@.skip(8 + 16 * j), (count - j) as nat);
                full == match rest {
                    Some(r) => Some(out@ + r),
                    None => None,
                }
            }),
        decreases count - j,
    {
        let off: usize = 8 + 16 * j;
        let t: i64 = read_i64(v, off);
        let k: i64 = read_i64(v, off + 8);
        proof {
            let b = v@.skip(off as int);
            assert(b.len() == 16 * (count - j));
            assert(b.subrange(0, 8) =~= v@.subrange(off as int, off as int + 8));
            assert(b.subrange(8, 16) =~= v@.subrange(off as int + 8, off as int + 16));
            assert(b.skip(16) =~= v@.skip(off + 16));
        }
        let m = Measure { timestamp: t, karma: k };
        out.push(m);
        j = j + 1;
        proof {
            let rest_new = dec_measure_items(v@.skip(8 + 16 * j), (count - j) as nat);
            if rest_new is Some {
                assert(out@ + rest_new.unwrap() =~= out@.drop_last() + (seq![m]
                    + rest_new.unwrap()));
            }
        }
    }
    proof {
        assert(v@.skip(8 + 16 * j) =~= Seq::<u8>::empty());
        assert(out@ + Seq::<Measure>::empty() =~= out@);
    }
    Some(out)
}

/// Decodes a membership list, or reports that the bytes are malformed.
pub fn decode_members(v: &Vec<u8>) -> (r: Option<Vec<u64>>)
    ensures
        match r {
            Some(m) => dec_members(v@) == Some(m@),
            None => dec_members(v@) is None,
        },
{
    if v.len() < 8 {
        return None;
    }
    let n: u64 = read_le_u64(v, 0);
    proof {
        assert(v@.take(8) =~= v@.subrange(0, 8));
    }
    let rem: usize = v.len() - 8;
    if rem % 8 != 0 || rem / 8 != (n as usize) || (rem / 8) as u64 != n {
        proof {
            vstd::arithmetic::div_mod::lemma_fundamental_div_mod(rem as int, 8);
            assert(v@.len() != 8 + 8 * le_value(v@.take(8)));
        }
        return None;
    }
    let count: usize = rem / 8;
    let mut out: Vec<u64> = Vec::new();
    let mut j: usize = 0;
    proof {
        assert(Seq::<u64>::empty() + dec_member_items(v@.skip(8), n as nat).unwrap()
            =~= dec_member_items(v@.skip(8), n as nat).unwrap());
    }
    while j < count
        invariant
            v@.len() == 8 + 8 * count,
            v@.len() <= usize::MAX,
            j <= count,
            out@.len() == j,
            ({
                let full = dec_member_items(v@.skip(8), count as nat);
                let rest = dec_member_items(v@.skip(8 + 8 * j), (count - j) as nat);
                full == match rest {
                    Some(r) => Some(out@ + r),
                    None => None,
                }
            }),
        decreases count - j,
    {
        let off: usize = 8 + 8 * j;
        let u: u64 = read_le_u64(v, off);
        proof {
            let b = v@.skip(off as int);
            assert(b.len() == 8 * (count - j));
            assert(b.subrange(0, 8) =~= v@.subrange(off as int, off as int + 8));
            assert(b.skip(8) =~= v@.skip(off + 8));
            lemma_le_value_bound(b.subrange(0, 8));
            lemma_pow256_values();
            assert(u == u64_of_le(b.subrange(0, 8)));
        }
        out.push(u);
        j = j + 1;
        proof {
            let rest_new = dec_member_items(v@.skip(8 + 8 * j), (count - j) as nat);
            if rest_new is Some {
                assert(out@ + rest_new.unwrap() =~= out@.drop_last() + (seq![u]
                    + rest_new.unwrap()));
            }
        }
    }
    proof {
        assert(v@.skip(8 + 8 * j) =~= Seq::<u8>::empty());
        assert(out@ + Seq::<u64>::empty() =~= out@);
    }
    Some(out)
}

/// The decimal digits of an unsigned identifier, most significant first.
pub open spec fn u64_dec_digits(n: nat) -> Seq<u8>
    decreases n,
{
    if n < 10 {
        seq![(48 + n) as u8]
    } else {
        u64_dec_digits(n / 10) + seq![(48 + n % 10) as u8]
    }
}

/// The decimal rendering of a signed identifier, with a leading minus
/// sign (byte 45) when negative.
pub open spec fn i64_dec_digits(x: int) -> Seq<u8> {
    if x >= 0 {
        u64_dec_digits(x as nat)
    } else {
        seq![45u8] + u64_dec_digits((-x) as nat)
    }
}

/// Appends the decimal digits of `n` to `out`.
pub fn push_u64_dec(n: u64, out: &mut Vec<u8>)
    ensures
        final(out)@ == old(out)@ + u64_dec_digits(n as nat),
    decreases n,
{
    if n < 10 {
        out.push(48 + n as u8);
        proof {
            assert(out@ =~= old(out)@ + u64_dec_digits(n as nat));
        }
    } else {
        push_u64_dec(n / 10, out);
        out.push(48 + (n % 10) as u8);
        proof {
            assert(out@ =~= old(out)@ + u64_dec_digits(n as nat));
        }
    }
}

/// The shape of a decimal rendering: never empty, its last byte is the
/// lowest digit, one byte exactly for numbers below ten, and dropping
/// the last byte leaves the rendering of the rest.
pub proof fn lemma_dec_digits_shape(n: nat)
    ensures
        u64_dec_digits(n).len() >= 1,
        u64_dec_digits(n).last() == (48 + n % 10) as u8,
        (n < 10) <==> (u64_dec_digits(n).len() == 1),
        n >= 10 ==> u64_dec_digits(n).drop_last() =~= u64_dec_digits(n / 10),
    decreases n,
{
    if n < 10 {
        assert(u64_dec_digits(n).last() == (48 + n) as u8);
        assert(n % 10 == n);
    } else {
        lemma_dec_digits_shape(n / 10);
        let prefix = u64_dec_digits(n / 10);
        let s = prefix + seq![(48 + n % 10) as u8];
        assert(s.last() == (48 + n % 10) as u8);
        assert(s.drop_last() =~= prefix);
    }
}

/// Distinct numbers render as distinct decimal digit strings.
pub proof fn lemma_dec_digits_injective(a: nat, b: nat)
    requires
        u64_dec_digits(a) == u64_dec_digits(b),
    ensures
        a == b,
    decreases a,
{
    lemma_dec_digits_shape(a);
    lemma_dec_digits_shape(b);
    assert((48 + a % 10) as u8 == (48 + b % 10) as u8);
    assert(a % 10 == b % 10);
    if a < 10 {
        assert(b < 10);
        assert(a == a % 10 && b == b % 10);
    } else {
        assert(b >= 10);
        assert(u64_dec_digits(a).drop_last() == u64_dec_digits(b).drop_last());
        lemma_dec_digits_injective(a / 10, b / 10);
        assert(a == 10 * (a / 10) + a % 10);
        assert(b == 10 * (b / 10) + b % 10);
    }
}

/// Distinct user identifiers have distinct store keys.
pub proof fn lemma_user_key_injective(a: u64, b: u64)
    requires
        user_key(a) == user_key(b),
    ensures
        a == b,
{
    lemma_dec_digits_injective(a as nat, b as nat);
}

/// The store key of a user identifier: its decimal digits.
pub open spec fn user_key(u: u64) -> Seq<u8> {
    u64_dec_digits(u as nat)
}

/// The store key of a group identifier: its decimal rendering.
pub open spec fn chat_key(c: i64) -> Seq<u8> {
    i64_dec_digits(c as int)
}

/// The store key bytes of a user identifier.
pub fn user_key_bytes(u: u64) -> (r: Vec<u8>)
    ensures
        r@ == user_key(u),
{
    let mut out: Vec<u8> = Vec::new();
    push_u64_dec(u, &mut out);
    proof {
        assert(out@ =~= user_key(u));
    }
    out
}

/// The store key bytes of a group identifier.
pub fn chat_key_bytes(c: i64) -> (r: Vec<u8>)
    ensures
        r@ == chat_key(c),
{
    let mut out: Vec<u8> = Vec::new();
    push_i64_dec(c, &mut out);
    proof {
        assert(out@ =~= chat_key(c));
    }
    out
}

/// Appends the decimal rendering of `x` to `out`.
pub fn push_i64_dec(x: i64, out: &mut Vec<u8>)
    ensures
        final(out)@ == old(out)@ + i64_dec_digits(x as int),
{
    if x >= 0 {
        push_u64_dec(x as u64, out);
    } else {
        out.push(45);
        let magnitude: u64 = (-(x + 1)) as u64 + 1;
        proof {
            assert(magnitude as nat == (-(x as int)) as nat);
        }
        push_u64_dec(magnitude, out);
        proof {
            assert(out@ =~= old(out)@ + i64_dec_digits(x as int));
        }
    }
}

} // verus!
