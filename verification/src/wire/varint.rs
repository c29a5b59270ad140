//! QUIC variable-length integers: the top two bits of the first byte give the
//! length (1, 2, 4 or 8 bytes), the other bits hold the value, big-endian.

use super::error::Fault;
use super::error::Parsed;
use vstd::prelude::*;

verus! {

/// The largest value that a variable-length integer holds: 2^62 - 1.
pub const MAX_VAR_INT: u64 = 4_611_686_018_427_387_903;

/// The number of bytes that the shortest encoding of `v` takes.
pub open spec fn varint_len(v: u64) -> nat {
    if v <= 63 {
        1
    } else if v <= 16383 {
        2
    } else if v <= 1_073_741_823 {
        4
    } else {
        8
    }
}

/// The length of an encoding, read off its first byte.
pub open spec fn varint_parse_len(first: u8) -> nat {
    if first < 0x40 {
        1
    } else if first < 0x80 {
        2
    } else if first < 0xc0 {
        4
    } else {
        8
    }
}

/// The largest value that an encoding of `len` bytes holds.
pub open spec fn varint_max_for_len(len: nat) -> u64 {
    if len == 1 {
        63
    } else if len == 2 {
        16383
    } else if len == 4 {
        1_073_741_823
    } else {
        MAX_VAR_INT
    }
}

/// The unsigned big-endian number that `len` bytes of `bytes` from `off` hold.
pub open spec fn be_uint(bytes: Seq<u8>, off: int, len: nat) -> nat
    decreases len,
{
    if len == 0 {
        0
    } else {
        be_uint(bytes, off, (len - 1) as nat) * 256 + bytes[off + len - 1] as nat
    }
}

/// The `len` bytes that hold `x` as an unsigned big-endian number.
pub open spec fn be_bytes(x: nat, len: nat) -> Seq<u8>
    decreases len,
{
    if len == 0 {
        Seq::empty()
    } else {
        be_bytes(x / 256, (len - 1) as nat).push((x % 256) as u8)
    }
}

/// The tag that an encoding of `len` bytes carries in its top two bits, as
/// the number it adds to the big-endian value of the whole encoding.
pub open spec fn varint_tag(len: nat) -> nat {
    if len == 1 {
        0
    } else if len == 2 {
        0x4000
    } else if len == 4 {
        0x8000_0000
    } else {
        0xc000_0000_0000_0000
    }
}

/// The encoding of `v` in `len` bytes, for `len` one of 1, 2, 4, 8 and
/// `v <= varint_max_for_len(len)`.
pub open spec fn varint_bytes_with_len(v: u64, len: nat) -> Seq<u8> {
    be_bytes(v as nat + varint_tag(len), len)
}

/// The shortest encoding of `v`, for `v <= MAX_VAR_INT`.
pub open spec fn varint_bytes(v: u64) -> Seq<u8> {
    varint_bytes_with_len(v, varint_len(v))
}

/// The value of the encoding that starts at `off`, where all of it lies
/// inside `bytes`.
pub open spec fn varint_value(bytes: Seq<u8>, off: int) -> u64 {
    let len = varint_parse_len(bytes[off]);
    (be_uint(bytes, off, len) - varint_tag(len)) as u64
}

/// Reading a variable-length integer at `off`.
pub open spec fn parse_varint(bytes: Seq<u8>, off: int) -> Parsed<u64> {
    if 0 <= off < bytes.len() && off + varint_parse_len(bytes[off]) <= bytes.len() {
        Ok((varint_value(bytes, off), off + varint_parse_len(bytes[off])))
    } else {
        Err(Fault::TooShort)
    }
}

/// Reading one byte at `off`.
pub open spec fn parse_u8(bytes: Seq<u8>, off: int) -> Parsed<u8> {
    if 0 <= off < bytes.len() {
        Ok((bytes[off], off + 1))
    } else {
        Err(Fault::TooShort)
    }
}

/// Reading a big-endian 16-bit number at `off`.
pub open spec fn parse_u16(bytes: Seq<u8>, off: int) -> Parsed<u16> {
    if 0 <= off && off + 2 <= bytes.len() {
        Ok(((bytes[off] as nat * 256 + bytes[off + 1] as nat) as u16, off + 2))
    } else {
        Err(Fault::TooShort)
    }
}

/// The two bytes of a big-endian 16-bit number.
pub open spec fn u16_bytes(v: u16) -> Seq<u8> {
    seq![(v / 256) as u8, (v % 256) as u8]
}

/// Reading `len` bytes at `off`.
pub open spec fn parse_bytes(bytes: Seq<u8>, off: int, len: int) -> Parsed<Seq<u8>> {
    if 0 <= off && 0 <= len && off + len <= bytes.len() {
        Ok((bytes.subrange(off, off + len), off + len))
    } else {
        Err(Fault::TooShort)
    }
}

/// `s` with the bytes from `off` on replaced by `patch`, as far as `patch`
/// reaches.
pub open spec fn splice(s: Seq<u8>, off: int, patch: Seq<u8>) -> Seq<u8> {
    Seq::new(
        s.len(),
        |i: int|
            if off <= i < off + patch.len() {
                patch[i - off]
            } else {
                s[i]
            },
    )
}

/// `bytes` holds `part` from `off` on.
pub open spec fn holds_at(bytes: Seq<u8>, off: int, part: Seq<u8>) -> bool {
    &&& 0 <= off
    &&& off + part.len() <= bytes.len()
    &&& forall|i: int| 0 <= i < part.len() ==> bytes[off + i] == #[trigger] part[i]
}

pub proof fn lemma_be_bytes_len(x: nat, len: nat)
    ensures
        be_bytes(x, len).len() == len,
    decreases len,
{
    if len > 0 {
        lemma_be_bytes_len(x / 256, (len - 1) as nat);
    }
}

pub proof fn lemma_varint_bytes_len(v: u64, len: nat)
    ensures
        varint_bytes_with_len(v, len).len() == len,
{
    lemma_be_bytes_len(v as nat + varint_tag(len), len);
}

/// 256 to the power of `len`.
pub open spec fn pow256(len: nat) -> nat
    decreases len,
{
    if len == 0 {
        1
    } else {
        256 * pow256((len - 1) as nat)
    }
}

/// Bytes that hold the big-endian form of `x` give `x` back.
pub proof fn lemma_be_uint_of_be_bytes(bytes: Seq<u8>, off: int, x: nat, len: nat)
    requires
        holds_at(bytes, off, be_bytes(x, len)),
        x < pow256(len),
    ensures
        be_uint(bytes, off, len) == x,
    decreases len,
{
    if len > 0 {
        let rest = be_bytes(x / 256, (len - 1) as nat);
        lemma_be_bytes_len(x / 256, (len - 1) as nat);
        lemma_be_bytes_len(x, len);
        assert(be_bytes(x, len) == rest.push((x % 256) as u8));
        assert forall|i: int| 0 <= i < rest.len() implies bytes[off + i] == #[trigger] rest[i] by {
            assert(be_bytes(x, len)[i] == rest[i]);
        }
        assert(bytes[off + len - 1] == be_bytes(x, len)[len - 1]);
        lemma_be_uint_of_be_bytes(bytes, off, x / 256, (len - 1) as nat);
    }
}

/// The first byte of a big-endian form holds the top of the number.
pub proof fn lemma_be_bytes_first(x: nat, len: nat)
    requires
        len > 0,
        x < pow256(len),
    ensures
        be_bytes(x, len).len() == len,
        be_bytes(x, len)[0] as nat == x / pow256((len - 1) as nat),
    decreases len,
{
    lemma_be_bytes_len(x, len);
    lemma_be_bytes_len(x / 256, (len - 1) as nat);
    if len > 1 {
        lemma_be_bytes_first(x / 256, (len - 1) as nat);
        let p = pow256((len - 2) as nat);
        lemma_pow256_positive((len - 2) as nat);
        assert(be_bytes(x, len)[0] == be_bytes(x / 256, (len - 1) as nat)[0]);
        assert(pow256((len - 1) as nat) == 256 * p);
        vstd::arithmetic::div_mod::lemma_div_denominator(x as int, 256, p as int);
    } else {
        assert(pow256(0) == 1);
        assert(be_bytes(x, 1) == be_bytes(x / 256, 0).push((x % 256) as u8));
    }
}

pub proof fn lemma_pow256_positive(len: nat)
    ensures
        pow256(len) > 0,
    decreases len,
{
    if len > 0 {
        lemma_pow256_positive((len - 1) as nat);
    }
}

/// An encoding of `v` in `len` bytes reads back as `v`, with the offset
/// `len` bytes on.
pub proof fn lemma_parse_varint_of_bytes(bytes: Seq<u8>, off: int, v: u64, len: nat)
    requires
        len == 1 || len == 2 || len == 4 || len == 8,
        v <= varint_max_for_len(len),
        holds_at(bytes, off, varint_bytes_with_len(v, len)),
    ensures
        parse_varint(bytes, off) == Ok::<(u64, int), Fault>((v, off + len)),
{
    let x = v as nat + varint_tag(len);
    reveal_with_fuel(pow256, 9);
    lemma_be_bytes_first(x, len);
    lemma_be_uint_of_be_bytes(bytes, off, x, len);
    assert(bytes[off] == be_bytes(x, len)[0]);
    let p = pow256((len - 1) as nat);
    let f = bytes[off] as nat;
    assert(f == x / p);
    if len == 1 {
        assert(p == 1);
        assert(f == x / 1);
    } else if len == 2 {
        assert(p == 0x100);
        assert(f == x / 0x100);
    } else if len == 4 {
        assert(p == 0x100_0000);
        assert(f == x / 0x100_0000);
    } else {
        assert(p == 0x100_0000_0000_0000);
        assert(f == x / 0x100_0000_0000_0000);
    }
    assert(varint_parse_len(bytes[off]) == len);
}

/// The shortest encoding of `v` reads back as `v`.
pub proof fn lemma_parse_varint_roundtrip(bytes: Seq<u8>, off: int, v: u64)
    requires
        v <= MAX_VAR_INT,
        holds_at(bytes, off, varint_bytes(v)),
    ensures
        parse_varint(bytes, off) == Ok::<(u64, int), Fault>((v, off + varint_len(v))),
        varint_bytes(v).len() == varint_len(v),
{
    lemma_varint_bytes_len(v, varint_len(v));
    lemma_parse_varint_of_bytes(bytes, off, v, varint_len(v));
}

/// A value read from the wire fits 62 bits, and the encoding that was read
/// is as long as its first byte says.
pub proof fn lemma_parse_varint_bounds(bytes: Seq<u8>, off: int)
    requires
        parse_varint(bytes, off) is Ok,
    ensures
        parse_varint(bytes, off)->Ok_0.0 <= MAX_VAR_INT,
        off < parse_varint(bytes, off)->Ok_0.1 <= bytes.len(),
{
    let len = varint_parse_len(bytes[off]);
    reveal_with_fuel(be_uint, 9);
}

/// Where `bytes` holds two parts one after the other, it holds each.
pub proof fn lemma_holds_at_split(bytes: Seq<u8>, off: int, a: Seq<u8>, b: Seq<u8>)
    requires
        holds_at(bytes, off, a + b),
    ensures
        holds_at(bytes, off, a),
        holds_at(bytes, off + a.len(), b),
{
    assert forall|i: int| 0 <= i < a.len() implies bytes[off + i] == #[trigger] a[i] by {
        assert((a + b)[i] == a[i]);
    }
    assert forall|i: int| 0 <= i < b.len() implies bytes[off + a.len() + i] == #[trigger] b[i] by {
        assert((a + b)[a.len() + i] == b[i]);
    }
}

/// A sequence holds itself at its start, and what is appended behind.
pub proof fn lemma_holds_at_self(a: Seq<u8>, b: Seq<u8>)
    ensures
        holds_at(a + b, 0, a),
        holds_at(a + b, a.len() as int, b),
{
    assert forall|i: int| 0 <= i < a.len() implies (a + b)[0 + i] == #[trigger] a[i] by {}
    assert forall|i: int| 0 <= i < b.len() implies (a + b)[a.len() + i] == #[trigger] b[i] by {}
}

/// Reading a byte string: its length, then that many bytes.
pub open spec fn parse_lp_bytes(bytes: Seq<u8>, off: int) -> Parsed<Seq<u8>> {
    match parse_varint(bytes, off) {
        Err(f) => Err(f),
        Ok((len, o)) => parse_bytes(bytes, o, len as int),
    }
}

/// The bytes of a byte string: its length, then its bytes.
pub open spec fn lp_bytes(v: Seq<u8>) -> Seq<u8> {
    varint_bytes(v.len() as u64) + v
}

/// A byte string that was written reads back as it was.
pub proof fn lemma_lp_bytes_roundtrip(bytes: Seq<u8>, off: int, v: Seq<u8>)
    requires
        v.len() <= MAX_VAR_INT,
        holds_at(bytes, off, lp_bytes(v)),
    ensures
        parse_lp_bytes(bytes, off) == Ok::<(Seq<u8>, int), Fault>((v, off + lp_bytes(v).len())),
{
    let head = varint_bytes(v.len() as u64);
    lemma_holds_at_split(bytes, off, head, v);
    lemma_parse_varint_roundtrip(bytes, off, v.len() as u64);
    let o = off + head.len();
    assert(bytes.subrange(o, o + v.len()) =~= v);
}

/// One byte that was written reads back as it was.
pub proof fn lemma_u8_roundtrip(bytes: Seq<u8>, off: int, v: u8)
    requires
        holds_at(bytes, off, seq![v]),
    ensures
        parse_u8(bytes, off) == Ok::<(u8, int), Fault>((v, off + 1)),
{
    assert(seq![v][0] == v);
    assert(bytes[off + 0] == seq![v][0]);
}

/// The big-endian number of some bytes depends on those bytes alone.
pub proof fn lemma_be_uint_same(a: Seq<u8>, b: Seq<u8>, off: int, len: nat)
    requires
        forall|i: int| off <= i < off + len ==> a[i] == b[i],
    ensures
        be_uint(a, off, len) == be_uint(b, off, len),
    decreases len,
{
    if len > 0 {
        lemma_be_uint_same(a, b, off, (len - 1) as nat);
    }
}

/// A variable-length integer that lies within the first `k` bytes reads the
/// same from those bytes alone.
pub proof fn lemma_parse_varint_take(bytes: Seq<u8>, k: int)
    requires
        0 <= k <= bytes.len(),
    ensures
        parse_varint(bytes.take(k), 0) is Ok ==> parse_varint(bytes, 0) == parse_varint(
            bytes.take(k),
            0,
        ),
        parse_varint(bytes, 0) is Ok && parse_varint(bytes, 0)->Ok_0.1 <= k ==> parse_varint(
            bytes.take(k),
            0,
        ) == parse_varint(bytes, 0),
        k >= 8 || k == bytes.len() ==> (parse_varint(bytes.take(k), 0) is Ok <==> parse_varint(
            bytes,
            0,
        ) is Ok),
{
    let head = bytes.take(k);
    if k > 0 {
        assert(head[0] == bytes[0]);
        let len = varint_parse_len(bytes[0]);
        if len <= k {
            assert forall|i: int| 0 <= i < 0 + len implies head[i] == bytes[i] by {}
            lemma_be_uint_same(head, bytes, 0, len);
        }
    }
    if k == bytes.len() {
        assert(head =~= bytes);
    }
}

/// `a` is the start of `b`.
pub open spec fn begins(b: Seq<u8>, a: Seq<u8>) -> bool {
    a.len() <= b.len() && forall|i: int| 0 <= i < a.len() ==> a[i] == b[i]
}

/// The first bytes of a sequence are its start.
pub proof fn lemma_take_begins(b: Seq<u8>, k: int)
    requires
        0 <= k <= b.len(),
    ensures
        begins(b, b.take(k)),
{
}

/// A variable-length integer that is read from the start of some bytes is
/// read the same from all of them.
pub proof fn lemma_parse_varint_prefix(a: Seq<u8>, b: Seq<u8>, off: int)
    requires
        begins(b, a),
        parse_varint(a, off) is Ok,
    ensures
        parse_varint(b, off) == parse_varint(a, off),
{
    let len = varint_parse_len(a[off]);
    assert(a[off] == b[off]);
    lemma_be_uint_same(a, b, off, len);
}

/// A byte string that is read from the start of some bytes is read the same
/// from all of them.
pub proof fn lemma_parse_lp_bytes_prefix(a: Seq<u8>, b: Seq<u8>, off: int)
    requires
        begins(b, a),
        parse_lp_bytes(a, off) is Ok,
    ensures
        parse_lp_bytes(b, off) == parse_lp_bytes(a, off),
{
    lemma_parse_varint_prefix(a, b, off);
    let (len, o) = parse_varint(a, off)->Ok_0;
    assert(a.subrange(o, o + len) =~= b.subrange(o, o + len));
}

} // verus!
