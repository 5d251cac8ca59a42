//! The variable-length integer of the file format: one to nine bytes, most
//! significant group first. Each of the first eight bytes carries seven bits
//! and a continuation flag. A ninth byte, when reached, ends the integer and
//! gives all of its eight bits below the 56 bits of the eight groups, so
//! that a varint holds any value of 64 bits.

use crate::error::MyError;
use vstd::prelude::*;
use vstd::slice::slice_subrange;

verus! {

/// The value of the first `n` bytes read as groups of seven bits.
pub open spec fn groups_value(bytes: Seq<u8>, n: nat) -> nat
    decreases n,
{
    if n == 0 {
        0
    } else {
        groups_value(bytes, (n - 1) as nat) * 128 + (bytes[n - 1] % 128) as nat
    }
}

/// The length of the varint that starts at index 0, given that the bytes
/// before index `i` all ask for continuation. `None` when the bytes run out.
pub open spec fn varint_len_from(bytes: Seq<u8>, i: nat) -> Option<nat>
    decreases 9 - i,
{
    if i >= bytes.len() {
        None
    } else if i >= 8 {
        Some(9)
    } else if bytes[i as int] < 128 {
        Some(i + 1)
    } else {
        varint_len_from(bytes, i + 1)
    }
}

/// The number of bytes the varint at the start of `bytes` occupies.
pub open spec fn varint_len(bytes: Seq<u8>) -> Option<nat> {
    varint_len_from(bytes, 0)
}

/// The value of eight groups with the eight bits of a ninth byte below
/// them.
pub open spec fn with_ninth_byte(groups: nat, byte: u8) -> nat {
    groups * 256 + byte as nat
}

/// The value of a varint of `len` bytes at the start of `bytes`.
pub open spec fn varint_value(bytes: Seq<u8>, len: nat) -> nat {
    if len == 9 {
        with_ninth_byte(groups_value(bytes, 8), bytes[8])
    } else {
        groups_value(bytes, len)
    }
}

/// The varint at the start of `bytes`: its value and its length.
pub open spec fn spec_read_varint(bytes: Seq<u8>) -> Option<(u64, nat)> {
    match varint_len(bytes) {
        Some(len) => Some((varint_value(bytes, len) as u64, len)),
        None => None,
    }
}

/// 128 to the power `n`.
pub open spec fn pow128(n: nat) -> nat
    decreases n,
{
    if n == 0 {
        1
    } else {
        128 * pow128((n - 1) as nat)
    }
}

proof fn lemma_pow128_values()
    ensures
        pow128(0) == 1,
        pow128(1) == 0x80,
        pow128(2) == 0x4000,
        pow128(3) == 0x20_0000,
        pow128(4) == 0x1000_0000,
        pow128(5) == 0x8_0000_0000,
        pow128(6) == 0x400_0000_0000,
        pow128(7) == 0x2_0000_0000_0000,
        pow128(8) == 0x100_0000_0000_0000,
{
    reveal_with_fuel(pow128, 10);
}

proof fn lemma_pow128_monotonic(a: nat, b: nat)
    requires
        a <= b,
    ensures
        pow128(a) <= pow128(b),
    decreases b,
{
    if a < b {
        lemma_pow128_monotonic(a, (b - 1) as nat);
    }
}

/// The first `n` groups stay below `128^n`.
pub proof fn lemma_groups_value_bound(bytes: Seq<u8>, n: nat)
    ensures
        groups_value(bytes, n) < pow128(n),
    decreases n,
{
    if n > 0 {
        lemma_groups_value_bound(bytes, (n - 1) as nat);
    }
}

/// The number of bytes that the shortest varint of a value takes.
pub open spec fn varint_size(v: nat) -> nat {
    if v < 0x80 {
        1
    } else if v < 0x4000 {
        2
    } else if v < 0x20_0000 {
        3
    } else if v < 0x1000_0000 {
        4
    } else if v < 0x8_0000_0000 {
        5
    } else if v < 0x400_0000_0000 {
        6
    } else if v < 0x2_0000_0000_0000 {
        7
    } else if v < 0x100_0000_0000_0000 {
        8
    } else {
        9
    }
}

/// `n` bytes that ask for continuation and carry the low `7 * n` bits of
/// `v`, the most significant group first.
pub open spec fn continuation_bytes(v: nat, n: nat) -> Seq<u8>
    decreases n,
{
    if n == 0 {
        Seq::empty()
    } else {
        continuation_bytes(v / 128, (n - 1) as nat).push((128 + v % 128) as u8)
    }
}

/// The shortest varint of a value. Below `2^56` the groups above the
/// lowest seven bits ask for continuation and the last byte holds the lowest
/// seven bits; from `2^56` on eight continuation bytes hold the bits above
/// the lowest eight, which the ninth byte holds.
pub open spec fn encode_varint(v: nat) -> Seq<u8> {
    if varint_size(v) == 9 {
        continuation_bytes(v / 256, 8).push((v % 256) as u8)
    } else {
        continuation_bytes(v / 128, (varint_size(v) - 1) as nat).push((v % 128) as u8)
    }
}

proof fn lemma_continuation_bytes(v: nat, n: nat)
    ensures
        continuation_bytes(v, n).len() == n,
        forall|i: int| 0 <= i < n ==> #[trigger] continuation_bytes(v, n)[i] >= 128,
    decreases n,
{
    if n > 0 {
        lemma_continuation_bytes(v / 128, (n - 1) as nat);
    }
}

/// The groups of a sequence are those of any sequence that starts alike.
proof fn lemma_groups_value_prefix(a: Seq<u8>, b: Seq<u8>, n: nat)
    requires
        n <= a.len(),
        n <= b.len(),
        forall|i: int| 0 <= i < n ==> a[i] == b[i],
    ensures
        groups_value(a, n) == groups_value(b, n),
    decreases n,
{
    if n > 0 {
        lemma_groups_value_prefix(a, b, (n - 1) as nat);
    }
}

/// Reading the continuation bytes of a value as groups gives the value.
proof fn lemma_groups_of_continuation_bytes(v: nat, n: nat, s: Seq<u8>)
    requires
        v < pow128(n),
        n <= s.len(),
        forall|i: int| 0 <= i < n ==> s[i] == continuation_bytes(v, n)[i],
    ensures
        groups_value(s, n) == v,
    decreases n,
{
    lemma_continuation_bytes(v, n);
    if n > 0 {
        let prefix = continuation_bytes(v / 128, (n - 1) as nat);
        lemma_continuation_bytes(v / 128, (n - 1) as nat);
        assert forall|i: int| 0 <= i < n - 1 implies s[i] == prefix[i] by {
            assert(continuation_bytes(v, n)[i] == prefix[i]);
        }
        lemma_groups_of_continuation_bytes(v / 128, (n - 1) as nat, s);
        assert(s[n - 1] == continuation_bytes(v, n)[n - 1]);
    }
}

/// A varint whose first `n - 1` bytes ask for continuation ends with its
/// `n`-th byte if that byte does not, or if it is the ninth.
proof fn lemma_varint_len_of(s: Seq<u8>, n: nat, i: nat)
    requires
        1 <= n <= 9,
        s.len() >= n,
        i < n,
        forall|j: int| 0 <= j < n - 1 ==> s[j] >= 128,
        n < 9 ==> s[n - 1] < 128,
    ensures
        varint_len_from(s, i) == Some(n),
    decreases n - i,
{
    if i + 1 < n {
        lemma_varint_len_of(s, n, i + 1);
    }
}

/// Reading the shortest varint of a value gives the value back, whatever
/// bytes follow the varint, and the varint has between one and nine bytes.
pub proof fn lemma_varint_round_trip(v: u64, tail: Seq<u8>)
    ensures
        spec_read_varint(encode_varint(v as nat) + tail) == Some((v, varint_size(v as nat))),
        1 <= varint_size(v as nat) <= 9,
        encode_varint(v as nat).len() == varint_size(v as nat),
{
    let n = varint_size(v as nat);
    let head = (n - 1) as nat;
    let high: nat = if n == 9 {
        v as nat / 256
    } else {
        v as nat / 128
    };
    let last: u8 = if n == 9 {
        (v as nat % 256) as u8
    } else {
        (v as nat % 128) as u8
    };
    let enc = encode_varint(v as nat);
    let s = enc + tail;
    lemma_pow128_values();
    lemma_continuation_bytes(high, head);
    assert(enc == continuation_bytes(high, head).push(last));
    assert(enc.len() == n);
    assert forall|j: int| 0 <= j < n - 1 implies s[j] >= 128 && s[j] == continuation_bytes(
        high,
        head,
    )[j] by {
        assert(s[j] == enc[j]);
        assert(enc[j] == continuation_bytes(high, head)[j]);
    }
    assert(s[n - 1] == last) by {
        assert(s[n - 1] == enc[n - 1]);
    }
    lemma_varint_len_of(s, n, 0);
    assert(high < pow128(head));
    lemma_groups_of_continuation_bytes(high, head, s);
    if n < 9 {
        assert(groups_value(s, n) == groups_value(s, head) * 128 + (s[n - 1] % 128) as nat);
    }
}

/// Whether the continuation flag of a varint byte is set.
pub fn high_bit(byte: u8) -> (r: bool)
    ensures
        r == (byte >= 128),
{
    byte >= 0x80
}

/// Reads one varint from the start of `bytes`. Returns its value, the bytes
/// that follow it and the number of bytes it occupied; fails with
/// `Truncated` when the input ends before the varint does.
pub fn read_varint(bytes: &[u8]) -> (r: Result<(u64, &[u8], usize), MyError>)
    ensures
        match r {
            Ok((value, rest, n)) => {
                &&& spec_read_varint(bytes@) == Some((value, n as nat))
                &&& 1 <= n <= 9
                &&& n <= bytes@.len()
                &&& rest@ == bytes@.subrange(n as int, bytes@.len() as int)
            },
            Err(e) => e == MyError::Truncated && spec_read_varint(bytes@) is None,
        },
{
    let mut result: u64 = 0;
    let mut i: usize = 0;
    loop
        invariant
            i <= 8,
            result == groups_value(bytes@, i as nat),
            varint_len_from(bytes@, i as nat) == varint_len(bytes@),
        decreases 9 - i,
    {
        if i >= bytes.len() {
            return Err(MyError::Truncated);
        }
        let byte = bytes[i];
        proof {
            lemma_pow128_values();
            lemma_groups_value_bound(bytes@, i as nat);
            lemma_pow128_monotonic(i as nat, 8);
        }
        if i == 8 {
            result = result * 256 + byte as u64;
            return Ok((result, slice_subrange(bytes, 9, bytes.len()), 9));
        }
        result = result * 128 + (byte % 128) as u64;
        i = i + 1;
        if !high_bit(byte) {
            return Ok((result, slice_subrange(bytes, i, bytes.len()), i));
        }
    }
}

/// Reads one varint as a row id: the 64 bits of the value taken as a signed
/// integer in two's complement. Returns the bytes that follow and the row id.
pub fn varint(input: &[u8]) -> (r: Result<(&[u8], i64), MyError>)
    ensures
        match r {
            Ok((rest, value)) => {
                &&& spec_read_varint(input@) matches Some((v, n))
                &&& value == as_row_id(v)
                &&& rest@ == input@.subrange(n as int, input@.len() as int)
            },
            Err(e) => e == MyError::Truncated && spec_read_varint(input@) is None,
        },
{
    match read_varint(input) {
        Ok((value, rest, _)) => Ok((rest, to_row_id(value))),
        Err(e) => Err(e),
    }
}

/// A 64-bit value taken as a signed integer in two's complement.
pub open spec fn as_row_id(v: u64) -> i64 {
    if v <= i64::MAX as u64 {
        v as i64
    } else {
        (v - 0x1_0000_0000_0000_0000) as i64
    }
}

/// Reinterprets the 64 bits of a varint value as a signed row id.
pub fn to_row_id(v: u64) -> (r: i64)
    ensures
        r == as_row_id(v),
{
    if v <= 0x7fff_ffff_ffff_ffff {
        v as i64
    } else {
        let low: u64 = v - 0x8000_0000_0000_0000;
        (low as i64) - 0x4000_0000_0000_0000 - 0x4000_0000_0000_0000
    }
}

} // verus!
