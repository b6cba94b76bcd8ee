//! VarInts, the packet reader and the packet writer.

use vstd::prelude::*;

use crate::protocol::error::ProtocolError;
use vstd::utf8::*;
use vstd::string::*;

verus! {

// ----------------------------------------------------------------------------
// The VarInt format
// ----------------------------------------------------------------------------

/// The low seven bits of a byte: the payload that one VarInt byte carries.
pub open spec fn low7(b: u8) -> nat {
    (b % 128) as nat
}

/// `128` raised to the power `i`.
pub open spec fn pow128(i: nat) -> nat
    decreases i,
{
    if i == 0 {
        1
    } else {
        128 * pow128((i - 1) as nat)
    }
}

/// The number that the low seven bits of the first `n` bytes of `s` spell,
/// least significant group first.
pub open spec fn varint_payload(s: Seq<u8>, n: nat) -> nat
    decreases n,
{
    if n == 0 || s.len() == 0 {
        0
    } else {
        low7(s[0]) + 128 * varint_payload(s.drop_first(), (n - 1) as nat)
    }
}

/// The length of the VarInt at the start of `s` when at most `budget` bytes
/// may be read: the first byte without its high bit ends it. `None` when no
/// such byte lies within the budget and within `s`.
pub open spec fn varint_len_within(s: Seq<u8>, budget: nat) -> Option<nat>
    decreases budget,
{
    if budget == 0 || s.len() == 0 {
        None
    } else if s[0] < 128 {
        Some(1)
    } else {
        match varint_len_within(s.drop_first(), (budget - 1) as nat) {
            Some(k) => Some(k + 1),
            None => None,
        }
    }
}

/// The length of the VarInt at the start of `s`; a VarInt has at most five bytes.
pub open spec fn varint_len(s: Seq<u8>) -> Option<nat> {
    varint_len_within(s, 5)
}

/// The `i32` that the first `n` bytes of `s` encode: the payload taken modulo
/// `2^32` as a two's complement bit pattern.
pub open spec fn varint_value(s: Seq<u8>, n: nat) -> i32 {
    ((varint_payload(s, n) % 0x1_0000_0000) as u32) as i32
}

/// The VarInt at the start of `s`, with the number of bytes it takes.
pub open spec fn varint_read(s: Seq<u8>) -> Option<(i32, nat)> {
    match varint_len(s) {
        Some(k) => Some((varint_value(s, k), k)),
        None => None,
    }
}

/// The number of bytes that reading a VarInt from `s` consumes when it fails.
pub open spec fn varint_failed_len(s: Seq<u8>) -> nat {
    if s.len() < 5 {
        s.len()
    } else {
        5
    }
}

/// The VarInt encoding of a 32-bit pattern: seven bits per byte, least
/// significant group first, the high bit set on every byte but the last.
pub open spec fn varint_bytes(x: u32) -> Seq<u8>
    decreases x,
{
    if x < 128 {
        seq![x as u8]
    } else {
        seq![(x % 128 + 128) as u8] + varint_bytes(x / 128)
    }
}

/// The VarInt encoding of an `i32` (of its two's complement bit pattern).
pub open spec fn varint_of(v: i32) -> Seq<u8> {
    varint_bytes(v as u32)
}

// ----------------------------------------------------------------------------
// Lemmas on the format
// ----------------------------------------------------------------------------

proof fn lemma_pow128_values()
    ensures
        pow128(0) == 1,
        pow128(1) == 128,
        pow128(2) == 16384,
        pow128(3) == 2097152,
        pow128(4) == 268435456,
        pow128(5) == 34359738368,
{
    reveal_with_fuel(pow128, 6);
}

proof fn lemma_payload_step(s: Seq<u8>, i: nat)
    requires
        i < s.len(),
    ensures
        varint_payload(s, i + 1) == varint_payload(s, i) + low7(s[i as int]) * pow128(i),
    decreases i,
{
    if i > 0 {
        let t = s.drop_first();
        lemma_payload_step(t, (i - 1) as nat);
        assert(t[i - 1] == s[i as int]);
        let a = low7(s[i as int]);
        let p = pow128((i - 1) as nat);
        assert(128 * (a * p) == a * (128 * p)) by (nonlinear_arith);
        assert(pow128(i) == 128 * p);
        assert(varint_payload(s, i + 1) == low7(s[0]) + 128 * varint_payload(t, i));
        assert(varint_payload(s, i) == low7(s[0]) + 128 * varint_payload(t, (i - 1) as nat));
    } else {
        assert(pow128(0) == 1);
        assert(varint_payload(s, 1) == low7(s[0]) + 128 * varint_payload(s.drop_first(), 0));
    }
}

proof fn lemma_payload_bound(s: Seq<u8>, n: nat)
    ensures
        varint_payload(s, n) < pow128(n),
    decreases n,
{
    if n > 0 {
        lemma_payload_bound(s.drop_first(), (n - 1) as nat);
        if s.len() > 0 {
            assert(varint_payload(s.drop_first(), (n - 1) as nat) + 1 <= pow128((n - 1) as nat));
        }
    }
}

proof fn lemma_len_found(s: Seq<u8>, i: nat, budget: nat)
    requires
        i < s.len(),
        i < budget,
        s[i as int] < 128,
        forall|j: int| 0 <= j < i ==> s[j] >= 128,
    ensures
        varint_len_within(s, budget) == Some(i + 1),
    decreases i,
{
    if i > 0 {
        let t = s.drop_first();
        assert forall|j: int| 0 <= j < i - 1 implies t[j] >= 128 by {
            assert(t[j] == s[j + 1]);
        }
        lemma_len_found(t, (i - 1) as nat, (budget - 1) as nat);
    }
}

proof fn lemma_len_missing(s: Seq<u8>, budget: nat)
    requires
        forall|j: int| 0 <= j < s.len() && j < budget ==> s[j] >= 128,
    ensures
        varint_len_within(s, budget) is None,
    decreases budget,
{
    if budget > 0 && s.len() > 0 {
        let t = s.drop_first();
        assert forall|j: int| 0 <= j < t.len() && j < budget - 1 implies t[j] >= 128 by {
            assert(t[j] == s[j + 1]);
        }
        lemma_len_missing(t, (budget - 1) as nat);
    }
}

proof fn lemma_bytes_len_bound(x: u32, k: nat)
    requires
        k >= 1,
        x < pow128(k),
    ensures
        1 <= varint_bytes(x).len() <= k,
    decreases x,
{
    if x >= 128 {
        assert(k >= 2) by {
            if k == 1 {
                reveal_with_fuel(pow128, 2);
            }
        }
        assert(pow128(k) == 128 * pow128((k - 1) as nat));
        lemma_bytes_len_bound(x / 128, (k - 1) as nat);
    }
}

/// The VarInt encoding of a 32-bit pattern takes one to five bytes.
pub proof fn lemma_varint_bytes_len(x: u32)
    ensures
        1 <= varint_bytes(x).len() <= 5,
        x < 128 ==> varint_bytes(x).len() == 1,
{
    lemma_pow128_values();
    lemma_bytes_len_bound(x, 5);
}

proof fn lemma_bytes_read_back(x: u32, rest: Seq<u8>, budget: nat)
    requires
        varint_bytes(x).len() <= budget,
    ensures
        varint_len_within(varint_bytes(x) + rest, budget) == Some(varint_bytes(x).len()),
        varint_payload(varint_bytes(x) + rest, varint_bytes(x).len()) == x,
    decreases x,
{
    let s = varint_bytes(x) + rest;
    if x < 128 {
        assert(s[0] == x as u8);
        assert(varint_payload(s.drop_first(), 0) == 0);
    } else {
        let c = (x % 128 + 128) as u8;
        let tail = varint_bytes(x / 128);
        assert(s.drop_first() =~= tail + rest);
        assert(s[0] == c);
        lemma_bytes_read_back(x / 128, rest, (budget - 1) as nat);
    }
}

/// Decoding the VarInt encoding of any `i32`, followed by any bytes, gives the
/// value back and stops right after the encoding.
pub proof fn lemma_varint_roundtrip(v: i32, rest: Seq<u8>)
    ensures
        varint_read(varint_of(v) + rest) == Some((v, varint_of(v).len())),
        1 <= varint_of(v).len() <= 5,
{
    let x = v as u32;
    lemma_varint_bytes_len(x);
    lemma_bytes_read_back(x, rest, 5);
    assert(((v as u32) as i32) == v) by (bit_vector);
}

/// Two `i32`s with the same VarInt encoding are equal.
pub proof fn lemma_varint_injective(v: i32, w: i32)
    requires
        varint_of(v) == varint_of(w),
    ensures
        v == w,
{
    lemma_varint_roundtrip(v, Seq::empty());
    lemma_varint_roundtrip(w, Seq::empty());
}

// ----------------------------------------------------------------------------
// Reading and writing VarInts
// ----------------------------------------------------------------------------

/// Adds the low seven bits of `byte` as group `i` of the accumulator.
fn or_group(acc: u32, byte: u8, i: usize) -> (r: u32)
    requires
        i <= 4,
        acc < pow128(i as nat),
    ensures
        i < 4 ==> r == acc + low7(byte) * pow128(i as nat),
        i == 4 ==> r == (acc + low7(byte) * pow128(4)) % 0x1_0000_0000,
{
    proof {
        lemma_pow128_values();
    }
    let group = (byte & 0x7F) as u32;
    let shift = (7 * i) as u32;
    let r = acc | (group << shift);
    proof {
        if i == 0 {
            assert(acc < 1 && group == (byte & 0x7F) as u32 && shift == 0 ==> acc | (group << shift)
                == acc + (byte % 128) * 1) by (bit_vector);
        } else if i == 1 {
            assert(acc < 128 && group == (byte & 0x7F) as u32 && shift == 7 ==> acc | (group
                << shift) == acc + (byte % 128) * 128) by (bit_vector);
        } else if i == 2 {
            assert(acc < 16384 && group == (byte & 0x7F) as u32 && shift == 14 ==> acc | (group
                << shift) == acc + (byte % 128) * 16384) by (bit_vector);
        } else if i == 3 {
            assert(acc < 2097152 && group == (byte & 0x7F) as u32 && shift == 21 ==> acc | (group
                << shift) == acc + (byte % 128) * 2097152) by (bit_vector);
        } else {
            assert(acc < 268435456 && group == (byte & 0x7F) as u32 && shift == 28 ==> acc | (
            group << shift) == (acc + (byte % 128) * 268435456) % 0x1_0000_0000) by (bit_vector);
        }
    }
    r
}

/// Reads the VarInt that starts at `start` in `s`: the value, or the error,
/// with the position after the bytes read.
fn read_varint_at(s: &[u8], start: usize) -> (r: (Result<i32, ProtocolError>, usize))
    requires
        start <= s@.len(),
    ensures
        start <= r.1 <= s@.len(),
        ({
            let t = s@.skip(start as int);
            match varint_len(t) {
                Some(k) => r.0 == Ok::<i32, ProtocolError>(varint_value(t, k)) && r.1 == start + k,
                None => r.0 == Err::<i32, ProtocolError>(ProtocolError::VarIntTooLarge) && r.1
                    == start + varint_failed_len(t),
            }
        }),
{
    let ghost t = s@.skip(start as int);
    let mut val: u32 = 0;
    let mut i: usize = 0;
    let mut pos: usize = start;
    while i < 5
        invariant
            start <= s@.len(),
            pos == start + i,
            t == s@.skip(start as int),
            i <= 5,
            start + i <= s@.len(),
            forall|j: int| 0 <= j < i ==> t[j] >= 128,
            i < 5 ==> val == varint_payload(t, i as nat),
        decreases 5 - i,
    {
        if i >= s.len() - start {
            proof {
                lemma_len_missing(t, 5);
            }
            return (Err(ProtocolError::VarIntTooLarge), pos);
        }
        let byte = s[pos];
        assert(byte == t[i as int]);
        proof {
            lemma_payload_bound(t, i as nat);
            lemma_payload_step(t, i as nat);
        }
        val = or_group(val, byte, i);
        i = i + 1;
        pos = pos + 1;
        if byte & 0x80 == 0 {
            assert(byte & 0x80 == 0 ==> byte < 128) by (bit_vector);
            proof {
                lemma_len_found(t, (i - 1) as nat, 5);
                lemma_payload_bound(t, i as nat);
                lemma_pow128_values();
            }
            return (Ok(#[verifier::truncate] (val as i32)), pos);
        }
        assert(byte & 0x80 != 0 ==> byte >= 128) by (bit_vector);
    }
    proof {
        lemma_len_missing(t, 5);
    }
    (Err(ProtocolError::VarIntTooLarge), pos)
}


/// Reads a VarInt from the front of `buf` and advances `buf` past the bytes
/// read. Fails with `VarIntTooLarge` when the buffer ends first or when five
/// bytes all carry the continuation bit; `buf` is then past those bytes.
pub fn decode_varint<'a>(buf: &mut &'a [u8]) -> (r: Result<i32, ProtocolError>)
    ensures
        match varint_read(old(buf)@) {
            Some((v, k)) => r == Ok::<i32, ProtocolError>(v) && final(buf)@ == old(buf)@.skip(
                k as int,
            ),
            None => r == Err::<i32, ProtocolError>(ProtocolError::VarIntTooLarge) && final(buf)@
                == old(buf)@.skip(varint_failed_len(old(buf)@) as int),
        },
{
    let s: &'a [u8] = *buf;
    proof {
        assert(s@.skip(0) =~= s@);
    }
    let (r, end) = read_varint_at(s, 0);
    *buf = vstd::slice::slice_subrange(s, end, s.len());
    assert(buf@ =~= s@.skip(end as int));
    r
}

/// Appends the VarInt encoding of `value` to `buf`.
pub fn encode_varint(buf: &mut Vec<u8>, value: i32)
    ensures
        final(buf)@ == old(buf)@ + varint_of(value),
{
    let mut x: u32 = #[verifier::truncate] (value as u32);
    loop
        invariant
            buf@ + varint_bytes(x) == old(buf)@ + varint_of(value),
        decreases x,
    {
        if x & !0x7F == 0 {
            assert(x & !0x7F == 0 ==> x < 128) by (bit_vector);
            let ghost before = buf@;
            buf.push(#[verifier::truncate] (x as u8));
            assert(buf@ =~= before + varint_bytes(x));
            return;
        }
        assert(x & !0x7F != 0 ==> x >= 128) by (bit_vector);
        assert((x as u8 & 0x7F) | 0x80 == (x % 128 + 128) as u8) by (bit_vector);
        assert(x >> 7 == x / 128) by (bit_vector);
        let ghost before = buf@;
        buf.push((#[verifier::truncate] (x as u8) & 0x7F) | 0x80);
        assert(before + varint_bytes(x) =~= buf@ + varint_bytes(x / 128));
        x = x >> 7;
    }
}

/// The number of bytes in the VarInt encoding of `value`.
pub fn varint_size(value: i32) -> (size: usize)
    ensures
        size == varint_of(value).len(),
        1 <= size <= 5,
{
    let x: u32 = #[verifier::truncate] (value as u32);
    let mut size: usize = 1;
    let mut v: u32 = x >> 7;
    assert(x >> 7 == x / 128) by (bit_vector);
    proof {
        lemma_varint_bytes_len(x);
    }
    while v != 0
        invariant
            varint_bytes(x).len() == size + (if v == 0 {
                0
            } else {
                varint_bytes(v).len()
            }),
            varint_bytes(x).len() <= 5,
        decreases v,
    {
        assert(v >> 7 == v / 128) by (bit_vector);
        size = size + 1;
        v = v >> 7;
    }
    size
}


// ----------------------------------------------------------------------------
// Reading a VarInt from a stream, one byte at a time
// ----------------------------------------------------------------------------

/// A VarInt being read from a stream: the bytes taken so far all carry the
/// continuation bit, and there are fewer than five of them.
pub struct VarIntDecoder {
    value: u32,
    count: usize,
    seen: Ghost<Seq<u8>>,
}

/// What a stream VarInt read does after one more byte.
pub enum VarIntStep {
    /// The byte ended the VarInt, which has this value.
    Done(i32),
    /// The byte carried the continuation bit; the read goes on.
    More(VarIntDecoder),
    /// Five bytes carried the continuation bit.
    TooLarge,
}

impl VarIntDecoder {
    /// The bytes taken so far.
    pub closed spec fn bytes(&self) -> Seq<u8> {
        self.seen@
    }

    #[verifier::type_invariant]
    closed spec fn inv(&self) -> bool {
        &&& self.count == self.seen@.len()
        &&& self.count < 5
        &&& forall|j: int| 0 <= j < self.seen@.len() ==> self.seen@[j] >= 128
        &&& self.value == varint_payload(self.seen@, self.count as nat)
    }

    /// A read that has taken no byte yet.
    pub fn new() -> (d: VarIntDecoder)
        ensures
            d.bytes() == Seq::<u8>::empty(),
    {
        VarIntDecoder { value: 0, count: 0, seen: Ghost(Seq::empty()) }
    }

    /// Takes the next byte of the stream. With `s` the bytes taken so far
    /// followed by `byte`: `Done(v)` when `s` is a whole VarInt of value `v`,
    /// `TooLarge` when `s` is five bytes that all continue, `More` otherwise.
    pub fn push(self, byte: u8) -> (r: VarIntStep)
        ensures
            ({
                let s = self.bytes().push(byte);
                match r {
                    VarIntStep::Done(v) => varint_read(s) == Some((v, s.len())),
                    VarIntStep::More(d) => varint_len(s) is None && s.len() < 5 && d.bytes() == s,
                    VarIntStep::TooLarge => varint_len(s) is None && s.len() == 5,
                }
            }),
            self.bytes().len() < 5,
            varint_len(self.bytes()) is None,
    {
        proof {
            use_type_invariant(&self);
            lemma_len_missing(self.seen@, 5);
        }
        let ghost s = self.seen@.push(byte);
        let i = self.count;
        proof {
            assert forall|j: int| 0 <= j < i implies s[j] >= 128 by {
                assert(s[j] == self.seen@[j]);
            }
            lemma_payload_bound(s, i as nat);
            lemma_payload_step(s, i as nat);
            assert(s.take(i as int) =~= self.seen@);
            lemma_payload_prefix(s, i as nat, i as nat);
        }
        let value = or_group(self.value, byte, i);
        if byte & 0x80 == 0 {
            assert(byte & 0x80 == 0 ==> byte < 128) by (bit_vector);
            proof {
                lemma_len_found(s, i as nat, 5);
                lemma_payload_bound(s, (i + 1) as nat);
                lemma_pow128_values();
            }
            return VarIntStep::Done(#[verifier::truncate] (value as i32));
        }
        assert(byte & 0x80 != 0 ==> byte >= 128) by (bit_vector);
        if i == 4 {
            proof {
                lemma_len_missing(s, 5);
            }
            return VarIntStep::TooLarge;
        }
        proof {
            lemma_len_missing(s, 5);
        }
        VarIntStep::More(VarIntDecoder { value, count: i + 1, seen: Ghost(s) })
    }
}

proof fn lemma_payload_prefix(s: Seq<u8>, j: nat, n: nat)
    requires
        n <= j <= s.len(),
    ensures
        varint_payload(s.take(j as int), n) == varint_payload(s, n),
    decreases n,
{
    if n > 0 {
        assert(s.take(j as int).drop_first() =~= s.drop_first().take(j - 1));
        lemma_payload_prefix(s.drop_first(), (j - 1) as nat, (n - 1) as nat);
    }
}

proof fn lemma_len_prefix(s: Seq<u8>, j: nat, budget: nat)
    requires
        j <= s.len(),
    ensures
        varint_len_within(s, budget) == Some(j) <==> varint_len_within(s.take(j as int), budget)
            == Some(j),
    decreases budget,
{
    if budget > 0 && s.len() > 0 && j > 0 {
        let t = s.drop_first();
        assert(s.take(j as int).drop_first() =~= t.take(j - 1));
        lemma_len_prefix(t, (j - 1) as nat, (budget - 1) as nat);
    }
}

/// A VarInt read from a stream, which takes bytes only until the VarInt ends,
/// ends where a VarInt decoded from a buffer holding more bytes ends, and has
/// the same value.
pub proof fn lemma_stream_prefix(s: Seq<u8>, j: nat)
    requires
        j <= s.len(),
    ensures
        (varint_len(s) == Some(j)) == (varint_len(s.take(j as int)) == Some(j)),
        varint_len(s) == Some(j) ==> varint_read(s) == varint_read(s.take(j as int)),
{
    lemma_len_prefix(s, j, 5);
    lemma_payload_prefix(s, j, j);
}


// ----------------------------------------------------------------------------
// Fixed-width big-endian fields and strings
// ----------------------------------------------------------------------------

/// The number that `s` spells in base 256, most significant byte first.
pub open spec fn be_value(s: Seq<u8>) -> nat
    decreases s.len(),
{
    if s.len() == 0 {
        0
    } else {
        be_value(s.drop_last()) * 256 + (s.last() as nat)
    }
}

/// The `n` least significant bytes of `x` in base 256, most significant first.
pub open spec fn be_bytes(x: nat, n: nat) -> Seq<u8>
    decreases n,
{
    if n == 0 {
        Seq::empty()
    } else {
        be_bytes(x / 256, (n - 1) as nat).push((x % 256) as u8)
    }
}

/// `256` raised to the power `n`.
pub open spec fn pow256(n: nat) -> nat
    decreases n,
{
    if n == 0 {
        1
    } else {
        256 * pow256((n - 1) as nat)
    }
}

proof fn lemma_pow256_values()
    ensures
        pow256(1) == 0x100,
        pow256(2) == 0x1_0000,
        pow256(4) == 0x1_0000_0000,
        pow256(8) == 0x1_0000_0000_0000_0000,
{
    reveal_with_fuel(pow256, 9);
}

proof fn lemma_pow256_monotone(a: nat, b: nat)
    requires
        a <= b,
    ensures
        pow256(a) <= pow256(b),
    decreases b,
{
    if a < b {
        lemma_pow256_monotone(a, (b - 1) as nat);
    }
}

/// Reading `n` big-endian bytes back gives the number that was written,
/// taken modulo `256^n`.
pub proof fn lemma_be_roundtrip(x: nat, n: nat)
    ensures
        be_bytes(x, n).len() == n,
        be_value(be_bytes(x, n)) == x % pow256(n),
    decreases n,
{
    if n > 0 {
        lemma_be_roundtrip(x / 256, (n - 1) as nat);
        let b = be_bytes(x, n);
        assert(b.drop_last() =~= be_bytes(x / 256, (n - 1) as nat));
        let p = pow256((n - 1) as nat);
        assert(p > 0) by {
            lemma_pow256_monotone(0, (n - 1) as nat);
        }
        vstd::arithmetic::div_mod::lemma_breakdown(x as int, 256, p as int);
        assert(pow256(n) == 256 * p);
        assert(256 * p == p * 256) by (nonlinear_arith);
    }
}

/// The bytes that a `read_*` of `n` bytes at `pos` covers, as a number.
pub open spec fn fixed_read(data: Seq<u8>, pos: nat, n: nat) -> Option<nat> {
    if pos + n <= data.len() {
        Some(be_value(data.subrange(pos as int, (pos + n) as int)))
    } else {
        None
    }
}

proof fn lemma_fixed_read_one(data: Seq<u8>, pos: nat)
    ensures
        pos + 1 <= data.len() ==> fixed_read(data, pos, 1) == Some(data[pos as int] as nat),
{
    if pos + 1 <= data.len() {
        let t = data.subrange(pos as int, pos + 1int);
        assert(t.drop_last() =~= Seq::<u8>::empty());
        assert(be_value(t.drop_last()) == 0);
    }
}

/// The error of a fixed-width read past the end of the packet.
pub open spec fn underflow() -> ProtocolError {
    ProtocolError::Decode("buffer underflow")
}

pub open spec fn spec_read_u8(data: Seq<u8>, pos: nat) -> (Result<u8, ProtocolError>, nat) {
    match fixed_read(data, pos, 1) {
        Some(x) => (Ok(x as u8), pos + 1),
        None => (Err(underflow()), pos),
    }
}

pub open spec fn spec_read_bool(data: Seq<u8>, pos: nat) -> (Result<bool, ProtocolError>, nat) {
    match fixed_read(data, pos, 1) {
        Some(x) => (Ok(x != 0), pos + 1),
        None => (Err(underflow()), pos),
    }
}

pub open spec fn spec_read_u16(data: Seq<u8>, pos: nat) -> (Result<u16, ProtocolError>, nat) {
    match fixed_read(data, pos, 2) {
        Some(x) => (Ok(x as u16), pos + 2),
        None => (Err(underflow()), pos),
    }
}

pub open spec fn spec_read_i16(data: Seq<u8>, pos: nat) -> (Result<i16, ProtocolError>, nat) {
    match fixed_read(data, pos, 2) {
        Some(x) => (Ok((x as u16) as i16), pos + 2),
        None => (Err(underflow()), pos),
    }
}

pub open spec fn spec_read_i32(data: Seq<u8>, pos: nat) -> (Result<i32, ProtocolError>, nat) {
    match fixed_read(data, pos, 4) {
        Some(x) => (Ok((x as u32) as i32), pos + 4),
        None => (Err(underflow()), pos),
    }
}

pub open spec fn spec_read_i64(data: Seq<u8>, pos: nat) -> (Result<i64, ProtocolError>, nat) {
    match fixed_read(data, pos, 8) {
        Some(x) => (Ok((x as u64) as i64), pos + 8),
        None => (Err(underflow()), pos),
    }
}

pub open spec fn spec_read_varint(data: Seq<u8>, pos: nat) -> (Result<i32, ProtocolError>, nat) {
    let t = data.skip(pos as int);
    match varint_read(t) {
        Some((v, k)) => (Ok(v), pos + k),
        None => (Err(ProtocolError::VarIntTooLarge), pos + varint_failed_len(t)),
    }
}

/// The longest string, in bytes, that a packet may carry.
pub const MAX_STRING_LEN: usize = 32767;

/// A string field: a VarInt byte length, then that many bytes of UTF-8.
/// Fails when the length exceeds `MAX_STRING_LEN`, when the bytes run past
/// the end, or when they are not UTF-8; the reader then stays after the length.
pub open spec fn spec_read_string(data: Seq<u8>, pos: nat) -> (Result<Seq<char>, ProtocolError>, nat) {
    let (lr, p) = spec_read_varint(data, pos);
    match lr {
        Err(e) => (Err(e), p),
        Ok(v) => {
            let len = v as usize;
            if len > MAX_STRING_LEN {
                (Err(ProtocolError::StringTooLong { len, max: MAX_STRING_LEN }), p)
            } else if p + len > data.len() {
                (Err(ProtocolError::Decode("string exceeds buffer")), p)
            } else if !valid_utf8(data.subrange(p as int, p + len)) {
                (Err(ProtocolError::Decode("invalid UTF-8")), p)
            } else {
                (Ok(decode_utf8(data.subrange(p as int, p + len))), p + len as nat)
            }
        },
    }
}

/// The bytes of a string field holding `s`, as the writer lays them out.
pub open spec fn string_field(s: Seq<char>) -> Seq<u8> {
    varint_of(((encode_utf8(s).len() as usize) as i32)) + encode_utf8(s)
}

/// A result with the success value taken by its view.
pub open spec fn view_result<T: View, E>(r: Result<T, E>) -> Result<T::V, E> {
    match r {
        Ok(t) => Ok(t@),
        Err(e) => Err(e),
    }
}

/// `std::str::from_utf8`: the bytes as a string slice when they are UTF-8.
#[verifier::external_body]
fn utf8_str<'b>(bytes: &'b [u8]) -> (r: Option<&'b str>)
    ensures
        r is Some <==> valid_utf8(bytes@),
        r matches Some(s) ==> s.spec_bytes() == bytes@,
{
    std::str::from_utf8(bytes).ok()
}

/// Appends `bytes` to `buf`.
fn append_bytes(buf: &mut Vec<u8>, bytes: &[u8])
    ensures
        final(buf)@ == old(buf)@ + bytes@,
{
    let mut i: usize = 0;
    while i < bytes.len()
        invariant
            i <= bytes@.len(),
            buf@ == old(buf)@ + bytes@.take(i as int),
        decreases bytes@.len() - i,
    {
        buf.push(bytes[i]);
        i = i + 1;
        assert(buf@ =~= old(buf)@ + bytes@.take(i as int));
    }
    assert(bytes@.take(i as int) =~= bytes@);
}

/// Appends the `n` least significant bytes of `x`, most significant first.
fn push_be(buf: &mut Vec<u8>, x: u64, n: usize)
    requires
        n <= 8,
    ensures
        final(buf)@ == old(buf)@ + be_bytes(x as nat, n as nat),
    decreases n,
{
    if n > 0 {
        push_be(buf, x / 256, n - 1);
        buf.push((x % 256) as u8);
        assert(buf@ =~= old(buf)@ + be_bytes(x as nat, n as nat));
    }
}

/// Reads the `n` big-endian bytes of `s` that start at `start`.
fn read_be(s: &[u8], start: usize, n: usize) -> (r: u64)
    requires
        n <= 8,
        start + n <= s@.len(),
    ensures
        r == be_value(s@.subrange(start as int, start + n)),
{
    let mut acc: u64 = 0;
    let mut k: usize = 0;
    let total = s.len();
    proof {
        lemma_pow256_values();
    }
    while k < n
        invariant
            total == s@.len(),
            k <= n <= 8,
            start + n <= s@.len(),
            acc == be_value(s@.subrange(start as int, start + k)),
            acc < pow256(k as nat),
            pow256(8) == 0x1_0000_0000_0000_0000,
        decreases n - k,
    {
        let ghost prev = s@.subrange(start as int, start + k);
        let b = s[start + k];
        proof {
            lemma_pow256_monotone((k + 1) as nat, 8);
            assert(pow256((k + 1) as nat) == 256 * pow256(k as nat));
            let next = s@.subrange(start as int, start + k + 1);
            assert(next.drop_last() =~= prev);
        }
        acc = acc * 256 + b as u64;
        k = k + 1;
    }
    acc
}

// ----------------------------------------------------------------------------
// Reading back what the writer wrote
// ----------------------------------------------------------------------------

proof fn lemma_fixed_read_written(prefix: Seq<u8>, x: nat, n: nat, rest: Seq<u8>)
    ensures
        fixed_read(prefix + be_bytes(x, n) + rest, prefix.len(), n) == Some(x % pow256(n)),
{
    lemma_be_roundtrip(x, n);
    let d = prefix + be_bytes(x, n) + rest;
    assert(d.subrange(prefix.len() as int, (prefix.len() + n) as int) =~= be_bytes(x, n));
}

/// A VarInt that the writer appended is read back whole, whatever precedes and follows it.
pub proof fn lemma_read_written_varint(prefix: Seq<u8>, v: i32, rest: Seq<u8>)
    ensures
        spec_read_varint(prefix + varint_of(v) + rest, prefix.len())
            == (Ok::<i32, ProtocolError>(v), prefix.len() + varint_of(v).len()),
{
    let d = prefix + varint_of(v) + rest;
    assert(d.skip(prefix.len() as int) =~= varint_of(v) + rest);
    lemma_varint_roundtrip(v, rest);
}

/// A byte that the writer appended is read back.
pub proof fn lemma_read_written_u8(prefix: Seq<u8>, v: u8, rest: Seq<u8>)
    ensures
        spec_read_u8(prefix + seq![v] + rest, prefix.len()) == (Ok::<u8, ProtocolError>(v), prefix.len() + 1),
{
    let d = prefix + seq![v] + rest;
    lemma_fixed_read_one(d, prefix.len());
    assert(d[prefix.len() as int] == v);
}

/// A boolean that the writer appended is read back.
pub proof fn lemma_read_written_bool(prefix: Seq<u8>, v: bool, rest: Seq<u8>)
    ensures
        spec_read_bool(prefix + seq![if v { 1u8 } else { 0u8 }] + rest, prefix.len())
            == (Ok::<bool, ProtocolError>(v), prefix.len() + 1),
{
    let b: u8 = if v { 1u8 } else { 0u8 };
    let d = prefix + seq![b] + rest;
    lemma_fixed_read_one(d, prefix.len());
    assert(d[prefix.len() as int] == b);
}

/// A big-endian `u16` that the writer appended is read back.
pub proof fn lemma_read_written_u16(prefix: Seq<u8>, v: u16, rest: Seq<u8>)
    ensures
        spec_read_u16(prefix + be_bytes(v as nat, 2) + rest, prefix.len())
            == (Ok::<u16, ProtocolError>(v), prefix.len() + 2),
{
    lemma_fixed_read_written(prefix, v as nat, 2, rest);
    lemma_pow256_values();
}

/// A big-endian `i16` that the writer appended is read back.
pub proof fn lemma_read_written_i16(prefix: Seq<u8>, v: i16, rest: Seq<u8>)
    ensures
        spec_read_i16(prefix + be_bytes((v as u16) as nat, 2) + rest, prefix.len())
            == (Ok::<i16, ProtocolError>(v), prefix.len() + 2),
{
    lemma_fixed_read_written(prefix, (v as u16) as nat, 2, rest);
    lemma_pow256_values();
    assert(((v as u16) as i16) == v) by (bit_vector);
}

/// A big-endian `i32` that the writer appended is read back.
pub proof fn lemma_read_written_i32(prefix: Seq<u8>, v: i32, rest: Seq<u8>)
    ensures
        spec_read_i32(prefix + be_bytes((v as u32) as nat, 4) + rest, prefix.len())
            == (Ok::<i32, ProtocolError>(v), prefix.len() + 4),
{
    lemma_fixed_read_written(prefix, (v as u32) as nat, 4, rest);
    lemma_pow256_values();
    assert(((v as u32) as i32) == v) by (bit_vector);
}

/// A big-endian `i64` that the writer appended is read back.
pub proof fn lemma_read_written_i64(prefix: Seq<u8>, v: i64, rest: Seq<u8>)
    ensures
        spec_read_i64(prefix + be_bytes((v as u64) as nat, 8) + rest, prefix.len())
            == (Ok::<i64, ProtocolError>(v), prefix.len() + 8),
{
    lemma_fixed_read_written(prefix, (v as u64) as nat, 8, rest);
    lemma_pow256_values();
    assert(((v as u64) as i64) == v) by (bit_vector);
}

/// A string that the writer appended is read back, provided its UTF-8 form
/// is no longer than `MAX_STRING_LEN` bytes (longer ones are refused by the reader).
pub proof fn lemma_read_written_string(prefix: Seq<u8>, s: Seq<char>, rest: Seq<u8>)
    requires
        encode_utf8(s).len() <= MAX_STRING_LEN,
    ensures
        spec_read_string(prefix + string_field(s) + rest, prefix.len())
            == (Ok::<Seq<char>, ProtocolError>(s), prefix.len() + string_field(s).len()),
{
    let bytes = encode_utf8(s);
    let len_v: i32 = (bytes.len() as usize) as i32;
    let d = prefix + string_field(s) + rest;
    assert(d =~= prefix + varint_of(len_v) + (bytes + rest));
    lemma_read_written_varint(prefix, len_v, bytes + rest);
    let p = prefix.len() + varint_of(len_v).len();
    assert(len_v as usize == bytes.len());
    assert(d.subrange(p as int, (p + bytes.len()) as int) =~= bytes);
    vstd::utf8::encode_utf8_valid_utf8(s);
    vstd::utf8::encode_utf8_decode_utf8(s);
}

/// Every read stays within the packet: it leaves the reader at or after
/// where it started and never past the end of the data.
pub proof fn lemma_reads_stay_in_bounds(data: Seq<u8>, pos: nat)
    requires
        pos <= data.len(),
    ensures
        pos <= spec_read_varint(data, pos).1 <= data.len(),
        pos <= spec_read_u8(data, pos).1 <= data.len(),
        pos <= spec_read_bool(data, pos).1 <= data.len(),
        pos <= spec_read_u16(data, pos).1 <= data.len(),
        pos <= spec_read_i16(data, pos).1 <= data.len(),
        pos <= spec_read_i32(data, pos).1 <= data.len(),
        pos <= spec_read_i64(data, pos).1 <= data.len(),
        pos <= spec_read_string(data, pos).1 <= data.len(),
{
    let t = data.skip(pos as int);
    if let Some(k) = varint_len(t) {
        lemma_len_within_bound(t, 5);
    }
}

proof fn lemma_len_within_bound(s: Seq<u8>, budget: nat)
    ensures
        varint_len_within(s, budget) matches Some(k) ==> 1 <= k <= s.len(),
    decreases budget,
{
    if budget > 0 && s.len() > 0 {
        lemma_len_within_bound(s.drop_first(), (budget - 1) as nat);
    }
}

// ----------------------------------------------------------------------------
// The packet reader
// ----------------------------------------------------------------------------

/// Reads the fields of one packet from a byte buffer, front to back.
pub struct PacketReader<'a> {
    buf: &'a [u8],
    pos: usize,
}

impl<'a> PacketReader<'a> {
    /// The bytes of the packet.
    pub closed spec fn data(&self) -> Seq<u8> {
        self.buf@
    }

    /// How many bytes have been read.
    pub closed spec fn pos(&self) -> nat {
        self.pos as nat
    }

    #[verifier::type_invariant]
    closed spec fn inv(&self) -> bool {
        self.pos <= self.buf@.len()
    }

    /// A reader at the start of `buf`.
    pub fn new(buf: &'a [u8]) -> (r: Self)
        ensures
            r.data() == buf@,
            r.pos() == 0,
    {
        Self { buf, pos: 0 }
    }

    /// The number of bytes not yet read.
    pub fn remaining(&self) -> (n: usize)
        ensures
            n == self.data().len() - self.pos(),
            self.pos() <= self.data().len(),
    {
        proof {
            use_type_invariant(self);
        }
        self.buf.len().saturating_sub(self.pos)
    }

    /// Fails with `UnconsumedBytes` unless every byte has been read.
    pub fn ensure_consumed(&self) -> (r: Result<(), ProtocolError>)
        ensures
            r == (if self.pos() == self.data().len() {
                Ok::<(), ProtocolError>(())
            } else {
                Err(ProtocolError::UnconsumedBytes { remaining: (self.data().len() - self.pos()) as usize })
            }),
    {
        if self.remaining() != 0 {
            return Err(ProtocolError::UnconsumedBytes { remaining: self.remaining() });
        }
        Ok(())
    }

    /// Reads a VarInt.
    pub fn read_varint(&mut self) -> (r: Result<i32, ProtocolError>)
        ensures
            final(self).data() == old(self).data(),
            (r, final(self).pos()) == spec_read_varint(old(self).data(), old(self).pos()),
    {
        proof {
            use_type_invariant(&*self);
        }
        let (r, end) = read_varint_at(self.buf, self.pos);
        self.pos = end;
        r
    }

    /// Reads one byte.
    pub fn read_u8(&mut self) -> (r: Result<u8, ProtocolError>)
        ensures
            final(self).data() == old(self).data(),
            (r, final(self).pos()) == spec_read_u8(old(self).data(), old(self).pos()),
    {
        proof {
            use_type_invariant(&*self);
        }
        if self.pos >= self.buf.len() {
            return Err(ProtocolError::Decode("buffer underflow"));
        }
        let val = self.buf[self.pos];
        proof {
            lemma_fixed_read_one(self.buf@, self.pos as nat);
        }
        self.pos = self.pos + 1;
        Ok(val)
    }

    /// Reads a big-endian `i16`.
    pub fn read_i16_be(&mut self) -> (r: Result<i16, ProtocolError>)
        ensures
            final(self).data() == old(self).data(),
            (r, final(self).pos()) == spec_read_i16(old(self).data(), old(self).pos()),
    {
        proof {
            use_type_invariant(&*self);
        }
        if self.buf.len() - self.pos < 2 {
            return Err(ProtocolError::Decode("buffer underflow"));
        }
        let val = read_be(self.buf, self.pos, 2);
        proof {
            lemma_pow256_values();
        }
        self.pos = self.pos + 2;
        Ok(#[verifier::truncate] ((val as u16) as i16))
    }

    /// Reads a big-endian `u16`.
    pub fn read_u16_be(&mut self) -> (r: Result<u16, ProtocolError>)
        ensures
            final(self).data() == old(self).data(),
            (r, final(self).pos()) == spec_read_u16(old(self).data(), old(self).pos()),
    {
        proof {
            use_type_invariant(&*self);
        }
        if self.buf.len() - self.pos < 2 {
            return Err(ProtocolError::Decode("buffer underflow"));
        }
        let val = read_be(self.buf, self.pos, 2);
        proof {
            lemma_pow256_values();
        }
        self.pos = self.pos + 2;
        Ok(val as u16)
    }

    /// Reads a big-endian `i32`.
    pub fn read_i32_be(&mut self) -> (r: Result<i32, ProtocolError>)
        ensures
            final(self).data() == old(self).data(),
            (r, final(self).pos()) == spec_read_i32(old(self).data(), old(self).pos()),
    {
        proof {
            use_type_invariant(&*self);
        }
        if self.buf.len() - self.pos < 4 {
            return Err(ProtocolError::Decode("buffer underflow"));
        }
        let val = read_be(self.buf, self.pos, 4);
        proof {
            lemma_pow256_values();
        }
        self.pos = self.pos + 4;
        Ok(#[verifier::truncate] ((val as u32) as i32))
    }

    /// Reads a big-endian `i64`.
    pub fn read_i64_be(&mut self) -> (r: Result<i64, ProtocolError>)
        ensures
            final(self).data() == old(self).data(),
            (r, final(self).pos()) == spec_read_i64(old(self).data(), old(self).pos()),
    {
        proof {
            use_type_invariant(&*self);
        }
        if self.buf.len() - self.pos < 8 {
            return Err(ProtocolError::Decode("buffer underflow"));
        }
        let val = read_be(self.buf, self.pos, 8);
        self.pos = self.pos + 8;
        Ok(#[verifier::truncate] (val as i64))
    }

    /// Reads a boolean byte: any byte but zero is `true`.
    pub fn read_bool(&mut self) -> (r: Result<bool, ProtocolError>)
        ensures
            final(self).data() == old(self).data(),
            (r, final(self).pos()) == spec_read_bool(old(self).data(), old(self).pos()),
    {
        proof {
            lemma_fixed_read_one(old(self).data(), old(self).pos());
        }
        let b = self.read_u8()?;
        Ok(b != 0)
    }

    /// Reads a string field.
    pub fn read_string(&mut self) -> (r: Result<&'a str, ProtocolError>)
        ensures
            final(self).data() == old(self).data(),
            (view_result(r), final(self).pos()) == spec_read_string(old(self).data(), old(self).pos()),
    {
        let len = #[verifier::truncate] (self.read_varint()? as usize);
        proof {
            use_type_invariant(&*self);
        }
        if len > MAX_STRING_LEN {
            return Err(ProtocolError::StringTooLong { len, max: MAX_STRING_LEN });
        }
        if len > self.buf.len() - self.pos {
            return Err(ProtocolError::Decode("string exceeds buffer"));
        }
        let bytes = vstd::slice::slice_subrange(self.buf, self.pos, self.pos + len);
        match utf8_str(bytes) {
            None => Err(ProtocolError::Decode("invalid UTF-8")),
            Some(s) => {
                proof {
                    vstd::utf8::encode_utf8_decode_utf8(s@);
                }
                self.pos = self.pos + len;
                Ok(s)
            },
        }
    }

    /// Takes every byte not yet read.
    pub fn read_remaining(&mut self) -> (r: &'a [u8])
        ensures
            final(self).data() == old(self).data(),
            final(self).pos() == old(self).data().len(),
            r@ == old(self).data().skip(old(self).pos() as int),
    {
        proof {
            use_type_invariant(&*self);
        }
        let remaining = vstd::slice::slice_subrange(self.buf, self.pos, self.buf.len());
        self.pos = self.buf.len();
        remaining
    }
}

// ----------------------------------------------------------------------------
// The packet writer
// ----------------------------------------------------------------------------

/// Builds the bytes of one packet, field after field.
pub struct PacketWriter {
    buf: Vec<u8>,
}

impl View for PacketWriter {
    type V = Seq<u8>;

    closed spec fn view(&self) -> Seq<u8> {
        self.buf@
    }
}

impl PacketWriter {
    /// A writer with no bytes.
    pub fn new() -> (w: Self)
        ensures
            w@ == Seq::<u8>::empty(),
    {
        Self { buf: Vec::new() }
    }

    /// Appends a VarInt.
    pub fn write_varint(&mut self, value: i32)
        ensures
            final(self)@ == old(self)@ + varint_of(value),
    {
        encode_varint(&mut self.buf, value);
    }

    /// Appends one byte.
    pub fn write_u8(&mut self, value: u8)
        ensures
            final(self)@ == old(self)@ + seq![value],
    {
        self.buf.push(value);
        assert(self.buf@ =~= old(self)@ + seq![value]);
    }

    /// Appends a big-endian `i16`.
    pub fn write_i16_be(&mut self, value: i16)
        ensures
            final(self)@ == old(self)@ + be_bytes((value as u16) as nat, 2),
    {
        push_be(&mut self.buf, #[verifier::truncate] (value as u16) as u64, 2);
    }

    /// Appends a big-endian `u16`.
    pub fn write_u16_be(&mut self, value: u16)
        ensures
            final(self)@ == old(self)@ + be_bytes(value as nat, 2),
    {
        push_be(&mut self.buf, value as u64, 2);
    }

    /// Appends a big-endian `i32`.
    pub fn write_i32_be(&mut self, value: i32)
        ensures
            final(self)@ == old(self)@ + be_bytes((value as u32) as nat, 4),
    {
        push_be(&mut self.buf, #[verifier::truncate] (value as u32) as u64, 4);
    }

    /// Appends a big-endian `i64`.
    pub fn write_i64_be(&mut self, value: i64)
        ensures
            final(self)@ == old(self)@ + be_bytes((value as u64) as nat, 8),
    {
        push_be(&mut self.buf, #[verifier::truncate] (value as u64), 8);
    }

    /// Appends a boolean as one byte, `1` or `0`.
    pub fn write_bool(&mut self, value: bool)
        ensures
            final(self)@ == old(self)@ + seq![if value { 1u8 } else { 0u8 }],
    {
        self.buf.push(if value { 1 } else { 0 });
        assert(self.buf@ =~= old(self)@ + seq![if value { 1u8 } else { 0u8 }]);
    }

    /// Appends a string field: the byte length as a VarInt, then the UTF-8 bytes.
    pub fn write_string(&mut self, value: &str)
        ensures
            final(self)@ == old(self)@ + string_field(value@),
    {
        self.write_varint(#[verifier::truncate] (value.len() as i32));
        append_bytes(&mut self.buf, value.as_bytes());
        assert(self.buf@ =~= old(self)@ + string_field(value@));
    }

    /// Appends raw bytes.
    pub fn write_bytes(&mut self, bytes: &[u8])
        ensures
            final(self)@ == old(self)@ + bytes@,
    {
        append_bytes(&mut self.buf, bytes);
    }

    /// The bytes written, giving up the writer.
    pub fn finish(self) -> (r: Vec<u8>)
        ensures
            r@ == self@,
    {
        self.buf
    }

    /// The bytes written so far.
    pub fn as_bytes(&self) -> (r: &[u8])
        ensures
            r@ == self@,
    {
        self.buf.as_slice()
    }
}

impl Default for PacketWriter {
    fn default() -> (w: Self)
        ensures
            w@ == Seq::<u8>::empty(),
    {
        Self::new()
    }
}

} // verus!
