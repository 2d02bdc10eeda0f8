use vstd::prelude::*;
use vstd::utf8::{decode_utf8, encode_utf8, valid_utf8};

verus! {

/// The states a connection moves through, driven by the packets it receives.
#[derive(Debug, Clone, Copy, PartialEq, Eq, Structural)]
pub enum ConnectionState {
    Handshaking,
    Status,
    Login,
    Play,
}

/// Why a buffer could not be read as protocol data.
#[derive(Debug, Clone, Copy, PartialEq, Eq, Structural)]
pub enum ProtocolError {
    InvalidPacket,
    UnsupportedVersion,
    InvalidState,
    StringTooLong,
}

impl ProtocolError {
    /// The message shown for this error.
    pub fn message(&self) -> (r: &'static str)
        ensures
            r@ == (match *self {
                ProtocolError::InvalidPacket => "Invalid packet"@,
                ProtocolError::UnsupportedVersion => "Unsupported protocol version"@,
                ProtocolError::InvalidState => "Invalid state transition"@,
                ProtocolError::StringTooLong => "String too long"@,
            }),
    {
        match self {
            ProtocolError::InvalidPacket => "Invalid packet",
            ProtocolError::UnsupportedVersion => "Unsupported protocol version",
            ProtocolError::InvalidState => "Invalid state transition",
            ProtocolError::StringTooLong => "String too long",
        }
    }
}

pub type ProtocolResult<T> = Result<T, ProtocolError>;

// ---------------------------------------------------------------------------
// Two's complement
// ---------------------------------------------------------------------------

/// The 32-bit pattern of `v` read as an unsigned number.
pub open spec fn unsigned32(v: i32) -> nat {
    if v >= 0 {
        v as nat
    } else {
        (v + 0x1_0000_0000) as nat
    }
}

/// The signed number whose 32-bit pattern is `u mod 2^32`.
pub open spec fn signed32(u: nat) -> i32 {
    let low = u % 0x1_0000_0000;
    if low < 0x8000_0000 {
        low as i32
    } else {
        (low - 0x1_0000_0000) as i32
    }
}

/// The 64-bit pattern of `v` read as an unsigned number.
pub open spec fn unsigned64(v: i64) -> nat {
    if v >= 0 {
        v as nat
    } else {
        (v + 0x1_0000_0000_0000_0000) as nat
    }
}

/// The signed number whose 64-bit pattern is `u mod 2^64`.
pub open spec fn signed64(u: nat) -> i64 {
    let low = u % 0x1_0000_0000_0000_0000;
    if low < 0x8000_0000_0000_0000 {
        low as i64
    } else {
        (low - 0x1_0000_0000_0000_0000) as i64
    }
}

/// The 32-bit pattern of `v` as an unsigned number.
pub fn to_unsigned32(v: i32) -> (r: u32)
    ensures
        r == unsigned32(v),
        signed32(r as nat) == v,
{
    if v >= 0 {
        v as u32
    } else {
        (v as i64 + 0x1_0000_0000) as u32
    }
}

/// The signed number with the 32-bit pattern `u`.
pub fn to_signed32(u: u32) -> (r: i32)
    ensures
        r == signed32(u as nat),
        unsigned32(r) == u,
{
    if u < 0x8000_0000 {
        u as i32
    } else {
        (u as i64 - 0x1_0000_0000) as i32
    }
}

/// The 64-bit pattern of `v` as an unsigned number.
pub fn to_unsigned64(v: i64) -> (r: u64)
    ensures
        r == unsigned64(v),
        signed64(r as nat) == v,
{
    if v >= 0 {
        v as u64
    } else {
        (v as i128 + 0x1_0000_0000_0000_0000) as u64
    }
}

/// The signed number with the 64-bit pattern `u`.
pub fn to_signed64(u: u64) -> (r: i64)
    ensures
        r == signed64(u as nat),
        unsigned64(r) == u,
{
    if u < 0x8000_0000_0000_0000 {
        u as i64
    } else {
        (u as i128 - 0x1_0000_0000_0000_0000) as i64
    }
}

// ---------------------------------------------------------------------------
// Variable-length integers: the model
// ---------------------------------------------------------------------------

/// The base-128 digits of `u`, least significant first; every digit but the
/// last carries the continuation bit.
pub open spec fn varint_digits(u: nat) -> Seq<u8>
    decreases u,
{
    if u < 128 {
        seq![u as u8]
    } else {
        seq![(u % 128 + 128) as u8] + varint_digits(u / 128)
    }
}

/// The bytes that stand for a 32-bit signed integer.
pub open spec fn spec_encode_varint(v: i32) -> Seq<u8> {
    varint_digits(unsigned32(v))
}

/// The bytes that stand for a 64-bit signed integer.
pub open spec fn spec_encode_varlong(v: i64) -> Seq<u8> {
    varint_digits(unsigned64(v))
}

/// How many bytes from `from` on carry the continuation bit, counting at most
/// `limit` of them and stopping at the end of `bytes`.
pub open spec fn continuation_run(bytes: Seq<u8>, from: int, limit: nat) -> nat
    decreases limit,
{
    if limit == 0 || from < 0 || from >= bytes.len() || bytes[from] < 128 {
        0
    } else {
        1 + continuation_run(bytes, from + 1, (limit - 1) as nat)
    }
}

/// The number that the low seven bits of `count` bytes from `from` on spell,
/// least significant first.
pub open spec fn varint_value(bytes: Seq<u8>, from: int, count: nat) -> nat
    decreases count,
{
    if count == 0 {
        0
    } else {
        (bytes[from] % 128) as nat + 128 * varint_value(bytes, from + 1, (count - 1) as nat)
    }
}

/// What reading a variable-length number of at most `limit` bytes at `pos`
/// gives: the raw number and the position behind it. It fails where the
/// bytes end before a byte without continuation bit, and where `limit`
/// bytes in a row carry that bit.
pub open spec fn spec_read_raw(bytes: Seq<u8>, pos: int, limit: nat) -> Option<(nat, int)> {
    let run = continuation_run(bytes, pos, limit);
    if pos < 0 || run >= limit || pos + run >= bytes.len() {
        None
    } else {
        Some((varint_value(bytes, pos, run + 1), pos + run + 1))
    }
}

/// What `read_varint` returns on `bytes` at `pos`.
pub open spec fn spec_read_varint(bytes: Seq<u8>, pos: int) -> ProtocolResult<(i32, int)> {
    match spec_read_raw(bytes, pos, 5) {
        None => Err(ProtocolError::InvalidPacket),
        Some((raw, next)) => Ok((signed32(raw), next)),
    }
}

/// What `read_varlong` returns on `bytes` at `pos`.
pub open spec fn spec_read_varlong(bytes: Seq<u8>, pos: int) -> ProtocolResult<(i64, int)> {
    match spec_read_raw(bytes, pos, 10) {
        None => Err(ProtocolError::InvalidPacket),
        Some((raw, next)) => Ok((signed64(raw), next)),
    }
}

/// 128 to the power `n`.
pub open spec fn pow128(n: nat) -> nat
    decreases n,
{
    if n == 0 {
        1
    } else {
        128 * pow128((n - 1) as nat)
    }
}

/// The powers of 128 that the readers meet.
pub proof fn lemma_pow128_values()
    ensures
        pow128(0) == 1,
        pow128(1) == 0x80,
        pow128(2) == 0x4000,
        pow128(3) == 0x20_0000,
        pow128(4) == 0x1000_0000,
        pow128(5) == 0x8_0000_0000,
        pow128(6) == 0x400_0000_0000,
        pow128(7) == 0x2_0000_0000_0000,
        pow128(8) == 0x100_0000_0000_0000,
        pow128(9) == 0x8000_0000_0000_0000,
        pow128(10) == 0x40_0000_0000_0000_0000,
{
    reveal_with_fuel(pow128, 11);
}

/// The powers of 128 grow with the exponent.
pub proof fn lemma_pow128_monotonic(a: nat, b: nat)
    requires
        a <= b,
    ensures
        pow128(a) <= pow128(b),
        pow128(a) >= 1,
    decreases b,
{
    if a < b {
        lemma_pow128_monotonic(a, (b - 1) as nat);
    } else if a > 0 {
        lemma_pow128_monotonic((a - 1) as nat, (b - 1) as nat);
    }
}

/// `count` digits spell a number below 128 to the power `count`.
pub proof fn lemma_varint_value_bound(bytes: Seq<u8>, from: int, count: nat)
    ensures
        varint_value(bytes, from, count) < pow128(count),
    decreases count,
{
    if count > 0 {
        lemma_varint_value_bound(bytes, from + 1, (count - 1) as nat);
    }
}

/// A number below 128 to the power `k`, with `k` at least 1, has at most `k`
/// digits, and always at least one.
pub proof fn lemma_digits_len(u: nat, k: nat)
    requires
        k >= 1,
        u < pow128(k),
    ensures
        1 <= varint_digits(u).len() <= k,
    decreases u,
{
    if u >= 128 {
        reveal_with_fuel(pow128, 2);
        if k == 1 {
            assert(false);
        }
        lemma_digits_len(u / 128, (k - 1) as nat);
    }
}

/// Reading the digits of `u` back: where `bytes` holds them at `pos`, the
/// continuation bits end with the last digit and the digits spell `u`.
pub proof fn lemma_digits_decode(u: nat, bytes: Seq<u8>, pos: int, limit: nat)
    requires
        0 <= pos,
        pos + varint_digits(u).len() <= bytes.len(),
        bytes.subrange(pos, pos + varint_digits(u).len()) == varint_digits(u),
        limit >= varint_digits(u).len(),
    ensures
        continuation_run(bytes, pos, limit) == varint_digits(u).len() - 1,
        varint_value(bytes, pos, varint_digits(u).len()) == u,
    decreases u,
{
    let digits = varint_digits(u);
    assert(bytes[pos] == bytes.subrange(pos, pos + digits.len())[0]);
    if u < 128 {
        reveal_with_fuel(varint_value, 2);
    } else {
        let rest = varint_digits(u / 128);
        assert(digits.len() == 1 + rest.len());
        assert(bytes.subrange(pos + 1, pos + 1 + rest.len()) =~= rest) by {
            assert forall|i: int| 0 <= i < rest.len() implies bytes.subrange(
                pos + 1,
                pos + 1 + rest.len(),
            )[i] == rest[i] by {
                assert(bytes.subrange(pos, pos + digits.len())[i + 1] == digits[i + 1]);
            }
        }
        lemma_digits_decode(u / 128, bytes, pos + 1, (limit - 1) as nat);
    }
}

/// Reading digits that were cut short: where `bytes` ends inside the digits
/// of `u`, every byte that is there carries the continuation bit.
pub proof fn lemma_digits_truncated(u: nat, bytes: Seq<u8>, pos: int, limit: nat)
    requires
        0 <= pos <= bytes.len(),
        bytes.len() - pos < varint_digits(u).len(),
        bytes.subrange(pos, bytes.len() as int) == varint_digits(u).subrange(
            0,
            bytes.len() - pos,
        ),
        limit >= varint_digits(u).len(),
    ensures
        continuation_run(bytes, pos, limit) == bytes.len() - pos,
    decreases u,
{
    let digits = varint_digits(u);
    if pos < bytes.len() {
        assert(bytes[pos] == bytes.subrange(pos, bytes.len() as int)[0]);
        if u >= 128 {
            let rest = varint_digits(u / 128);
            assert(digits.len() == 1 + rest.len());
            assert(bytes.subrange(pos + 1, bytes.len() as int) =~= rest.subrange(
                0,
                bytes.len() - pos - 1,
            )) by {
                assert forall|i: int| 0 <= i < bytes.len() - pos - 1 implies bytes.subrange(
                    pos + 1,
                    bytes.len() as int,
                )[i] == rest[i] by {
                    assert(bytes.subrange(pos, bytes.len() as int)[i + 1] == digits[i + 1]);
                }
            }
            lemma_digits_truncated(u / 128, bytes, pos + 1, (limit - 1) as nat);
        }
    }
}

/// Every 32-bit signed integer is written in one to five bytes, and reading
/// those bytes back, whatever follows them, gives the integer and the
/// position behind them.
pub proof fn lemma_varint_round_trip(v: i32, tail: Seq<u8>)
    ensures
        1 <= spec_encode_varint(v).len() <= 5,
        spec_read_varint(spec_encode_varint(v) + tail, 0) == Ok::<(i32, int), ProtocolError>(
            (v, spec_encode_varint(v).len() as int),
        ),
{
    let u = unsigned32(v);
    let digits = varint_digits(u);
    let bytes = digits + tail;
    lemma_pow128_values();
    lemma_digits_len(u, 5);
    assert(bytes.subrange(0, digits.len() as int) =~= digits);
    lemma_digits_decode(u, bytes, 0, 5);
}

/// Every 64-bit signed integer is written in one to ten bytes, and reading
/// those bytes back, whatever follows them, gives the integer and the
/// position behind them.
pub proof fn lemma_varlong_round_trip(v: i64, tail: Seq<u8>)
    ensures
        1 <= spec_encode_varlong(v).len() <= 10,
        spec_read_varlong(spec_encode_varlong(v) + tail, 0) == Ok::<(i64, int), ProtocolError>(
            (v, spec_encode_varlong(v).len() as int),
        ),
{
    let u = unsigned64(v);
    let digits = varint_digits(u);
    let bytes = digits + tail;
    lemma_pow128_values();
    lemma_digits_len(u, 10);
    assert(bytes.subrange(0, digits.len() as int) =~= digits);
    lemma_digits_decode(u, bytes, 0, 10);
}

// ---------------------------------------------------------------------------
// Variable-length integers: reading and writing
// ---------------------------------------------------------------------------

/// Appends the digits of `u` to `buf`.
fn write_raw(buf: &mut Vec<u8>, u: u64)
    ensures
        final(buf)@ == old(buf)@ + varint_digits(u as nat),
{
    let ghost start = buf@;
    let mut rest: u64 = u;
    while rest >= 128
        invariant
            start + varint_digits(u as nat) == buf@ + varint_digits(rest as nat),
        decreases rest,
    {
        let ghost before = buf@;
        let digit: u8 = (rest % 128 + 128) as u8;
        buf.push(digit);
        rest = rest / 128;
        assert(before + (seq![digit] + varint_digits(rest as nat)) =~= buf@ + varint_digits(
            rest as nat,
        ));
    }
    let ghost before = buf@;
    buf.push(rest as u8);
    assert(before + seq![rest as u8] =~= buf@);
}

/// Appends `value` as a variable-length integer: one to five bytes.
pub fn write_varint(buf: &mut Vec<u8>, value: i32)
    ensures
        final(buf)@ == old(buf)@ + spec_encode_varint(value),
{
    write_raw(buf, to_unsigned32(value) as u64);
}

/// Appends `value` as a variable-length integer: one to ten bytes.
pub fn write_varlong(buf: &mut Vec<u8>, value: i64)
    ensures
        final(buf)@ == old(buf)@ + spec_encode_varlong(value),
{
    write_raw(buf, to_unsigned64(value));
}

/// Number of bytes that `write_varint` emits for `value`.
pub fn varint_len(value: i32) -> (len: usize)
    ensures
        len == spec_encode_varint(value).len(),
        1 <= len <= 5,
{
    let u: u32 = to_unsigned32(value);
    let mut rest: u32 = u;
    let mut len: usize = 1;
    proof {
        lemma_pow128_values();
        lemma_digits_len(u as nat, 5);
    }
    while rest >= 128
        invariant
            varint_digits(u as nat).len() == (len - 1) + varint_digits(rest as nat).len(),
            1 <= len,
            varint_digits(u as nat).len() <= 5,
        decreases rest,
    {
        rest = rest / 128;
        len = len + 1;
    }
    len
}

/// Reads a variable-length number of at most `limit` bytes at `pos`.
fn read_raw(data: &[u8], pos: usize, limit: usize) -> (r: Option<(u128, usize)>)
    requires
        1 <= limit <= 10,
    ensures
        match (r, spec_read_raw(data@, pos as int, limit as nat)) {
            (None, None) => true,
            (Some((raw, next)), Some((spec_raw, spec_next))) => raw == spec_raw && next
                == spec_next && pos < next <= data@.len() && next <= pos + limit,
            _ => false,
        },
{
    let len = data.len();
    let mut run: usize = 0;
    while run < limit && pos < len && run < len - pos && data[pos + run] >= 128
        invariant
            run <= limit,
            len == data@.len(),
            pos < len ==> run <= len - pos,
            continuation_run(data@, pos as int, limit as nat) == run + continuation_run(
                data@,
                pos + run,
                (limit - run) as nat,
            ),
        decreases limit - run,
    {
        run = run + 1;
    }
    if pos >= len || run >= limit || run >= len - pos {
        return None;
    }
    let count: usize = run + 1;
    let mut taken: usize = 0;
    let mut acc: u128 = 0;
    proof {
        lemma_pow128_values();
    }
    while taken < count
        invariant
            taken <= count <= limit <= 10,
            pos + count <= len,
            len == data@.len(),
            acc == varint_value(data@, pos + count - taken, taken as nat),
        decreases count - taken,
    {
        proof {
            lemma_varint_value_bound(data@, pos + count - taken, taken as nat);
            lemma_pow128_monotonic(taken as nat, 9);
            lemma_pow128_values();
            assert(acc < 0x8000_0000_0000_0000);
        }
        let digit: u8 = data[pos + count - taken - 1] % 128;
        acc = acc * 128 + digit as u128;
        taken = taken + 1;
    }
    Some((acc, pos + count))
}

/// Reads a 32-bit variable-length integer at `pos`: the integer and the
/// position behind it. Fails where the bytes end inside it, and where five
/// bytes in a row carry the continuation bit.
pub fn read_varint(data: &[u8], pos: usize) -> (r: ProtocolResult<(i32, usize)>)
    ensures
        match (r, spec_read_varint(data@, pos as int)) {
            (Ok((v, next)), Ok((spec_v, spec_next))) => v == spec_v && next == spec_next && pos
                < next <= data@.len(),
            (Err(e), Err(spec_e)) => e == spec_e,
            _ => false,
        },
{
    match read_raw(data, pos, 5) {
        None => Err(ProtocolError::InvalidPacket),
        Some((raw, next)) => {
            let low: u32 = (raw % 0x1_0000_0000) as u32;
            Ok((to_signed32(low), next))
        },
    }
}

/// Reads a 64-bit variable-length integer at `pos`: the integer and the
/// position behind it. Fails where the bytes end inside it, and where ten
/// bytes in a row carry the continuation bit.
pub fn read_varlong(data: &[u8], pos: usize) -> (r: ProtocolResult<(i64, usize)>)
    ensures
        match (r, spec_read_varlong(data@, pos as int)) {
            (Ok((v, next)), Ok((spec_v, spec_next))) => v == spec_v && next == spec_next && pos
                < next <= data@.len(),
            (Err(e), Err(spec_e)) => e == spec_e,
            _ => false,
        },
{
    match read_raw(data, pos, 10) {
        None => Err(ProtocolError::InvalidPacket),
        Some((raw, next)) => {
            let low: u64 = (raw % 0x1_0000_0000_0000_0000) as u64;
            Ok((to_signed64(low), next))
        },
    }
}

// ---------------------------------------------------------------------------
// Fixed-width scalars, big-endian
// ---------------------------------------------------------------------------

/// The number that two bytes at `pos` spell, most significant first.
pub open spec fn be16(bytes: Seq<u8>, pos: int) -> nat {
    (bytes[pos] * 0x100 + bytes[pos + 1]) as nat
}

/// The number that four bytes at `pos` spell, most significant first.
pub open spec fn be32(bytes: Seq<u8>, pos: int) -> nat {
    be16(bytes, pos) * 0x1_0000 + be16(bytes, pos + 2)
}

/// The number that eight bytes at `pos` spell, most significant first.
pub open spec fn be64(bytes: Seq<u8>, pos: int) -> nat {
    be32(bytes, pos) * 0x1_0000_0000 + be32(bytes, pos + 4)
}

/// The number that sixteen bytes at `pos` spell, most significant first.
pub open spec fn be128(bytes: Seq<u8>, pos: int) -> nat {
    be64(bytes, pos) * 0x1_0000_0000_0000_0000 + be64(bytes, pos + 8)
}

/// The low 16 bits of `u` as two bytes, most significant first.
pub open spec fn be16_bytes(u: nat) -> Seq<u8> {
    seq![(u / 0x100 % 0x100) as u8, (u % 0x100) as u8]
}

/// The low 32 bits of `u` as four bytes, most significant first.
pub open spec fn be32_bytes(u: nat) -> Seq<u8> {
    be16_bytes(u / 0x1_0000) + be16_bytes(u % 0x1_0000)
}

/// The low 64 bits of `u` as eight bytes, most significant first.
pub open spec fn be64_bytes(u: nat) -> Seq<u8> {
    be32_bytes(u / 0x1_0000_0000) + be32_bytes(u % 0x1_0000_0000)
}

/// The low 128 bits of `u` as sixteen bytes, most significant first.
pub open spec fn be128_bytes(u: nat) -> Seq<u8> {
    be64_bytes(u / 0x1_0000_0000_0000_0000) + be64_bytes(u % 0x1_0000_0000_0000_0000)
}

/// The 16-bit pattern of `v` read as an unsigned number.
pub open spec fn unsigned16(v: i16) -> nat {
    if v >= 0 {
        v as nat
    } else {
        (v + 0x1_0000) as nat
    }
}

/// The 8-bit pattern of `v` read as an unsigned number.
pub open spec fn unsigned8(v: i8) -> nat {
    if v >= 0 {
        v as nat
    } else {
        (v + 0x100) as nat
    }
}

/// The signed number whose 8-bit pattern is `u`.
pub open spec fn signed8(u: u8) -> i8 {
    if u < 0x80 {
        u as i8
    } else {
        (u - 0x100) as i8
    }
}

/// Reads one byte at `pos`; fails where `data` ends before it.
pub fn read_u8(data: &[u8], pos: usize) -> (r: ProtocolResult<(u8, usize)>)
    ensures
        pos < data@.len() ==> r == Ok::<(u8, usize), ProtocolError>(
            (data@[pos as int], (pos + 1) as usize),
        ),
        pos >= data@.len() ==> r == Err::<(u8, usize), ProtocolError>(
            ProtocolError::InvalidPacket,
        ),
{
    if pos < data.len() {
        Ok((data[pos], pos + 1))
    } else {
        Err(ProtocolError::InvalidPacket)
    }
}

/// Reads one signed byte at `pos`; fails where `data` ends before it.
pub fn read_i8(data: &[u8], pos: usize) -> (r: ProtocolResult<(i8, usize)>)
    ensures
        pos < data@.len() ==> r == Ok::<(i8, usize), ProtocolError>(
            (signed8(data@[pos as int]), (pos + 1) as usize),
        ),
        pos >= data@.len() ==> r == Err::<(i8, usize), ProtocolError>(
            ProtocolError::InvalidPacket,
        ),
{
    if pos < data.len() {
        let u: u8 = data[pos];
        let v: i8 = if u < 0x80 {
            u as i8
        } else {
            (u as i16 - 0x100) as i8
        };
        Ok((v, pos + 1))
    } else {
        Err(ProtocolError::InvalidPacket)
    }
}

/// Reads a big-endian 16-bit number at `pos`; fails where fewer than two
/// bytes are left.
pub fn read_u16(data: &[u8], pos: usize) -> (r: ProtocolResult<(u16, usize)>)
    ensures
        pos + 2 <= data@.len() ==> r == Ok::<(u16, usize), ProtocolError>(
            (be16(data@, pos as int) as u16, (pos + 2) as usize),
        ),
        pos + 2 > data@.len() ==> r == Err::<(u16, usize), ProtocolError>(
            ProtocolError::InvalidPacket,
        ),
{
    let len = data.len();
    if len >= 2 && pos <= len - 2 {
        let v: u16 = data[pos] as u16 * 0x100 + data[pos + 1] as u16;
        Ok((v, pos + 2))
    } else {
        Err(ProtocolError::InvalidPacket)
    }
}

/// Reads a big-endian 32-bit number at `pos`; fails where fewer than four
/// bytes are left.
pub fn read_u32(data: &[u8], pos: usize) -> (r: ProtocolResult<(u32, usize)>)
    ensures
        pos + 4 <= data@.len() ==> r == Ok::<(u32, usize), ProtocolError>(
            (be32(data@, pos as int) as u32, (pos + 4) as usize),
        ),
        pos + 4 > data@.len() ==> r == Err::<(u32, usize), ProtocolError>(
            ProtocolError::InvalidPacket,
        ),
{
    let len = data.len();
    if len >= 4 && pos <= len - 4 {
        let hi: u32 = data[pos] as u32 * 0x100 + data[pos + 1] as u32;
        let lo: u32 = data[pos + 2] as u32 * 0x100 + data[pos + 3] as u32;
        Ok((hi * 0x1_0000 + lo, pos + 4))
    } else {
        Err(ProtocolError::InvalidPacket)
    }
}

/// Reads a big-endian 64-bit number at `pos`; fails where fewer than eight
/// bytes are left.
pub fn read_u64(data: &[u8], pos: usize) -> (r: ProtocolResult<(u64, usize)>)
    ensures
        pos + 8 <= data@.len() ==> r == Ok::<(u64, usize), ProtocolError>(
            (be64(data@, pos as int) as u64, (pos + 8) as usize),
        ),
        pos + 8 > data@.len() ==> r == Err::<(u64, usize), ProtocolError>(
            ProtocolError::InvalidPacket,
        ),
{
    let len = data.len();
    if len >= 8 && pos <= len - 8 {
        match (read_u32(data, pos), read_u32(data, pos + 4)) {
            (Ok((hi, _)), Ok((lo, _))) => Ok((hi as u64 * 0x1_0000_0000 + lo as u64, pos + 8)),
            _ => Err(ProtocolError::InvalidPacket),
        }
    } else {
        Err(ProtocolError::InvalidPacket)
    }
}

/// Reads a big-endian signed 64-bit number at `pos`; fails where fewer than
/// eight bytes are left.
pub fn read_i64(data: &[u8], pos: usize) -> (r: ProtocolResult<(i64, usize)>)
    ensures
        pos + 8 <= data@.len() ==> r == Ok::<(i64, usize), ProtocolError>(
            (signed64(be64(data@, pos as int)), (pos + 8) as usize),
        ),
        pos + 8 > data@.len() ==> r == Err::<(i64, usize), ProtocolError>(
            ProtocolError::InvalidPacket,
        ),
{
    match read_u64(data, pos) {
        Ok((u, next)) => Ok((to_signed64(u), next)),
        Err(e) => Err(e),
    }
}

/// Appends the two bytes of `v`, most significant first.
pub fn write_u16(buf: &mut Vec<u8>, v: u16)
    ensures
        final(buf)@ == old(buf)@ + be16_bytes(v as nat),
{
    let ghost before = buf@;
    buf.push((v / 0x100) as u8);
    buf.push((v % 0x100) as u8);
    assert(buf@ =~= before + be16_bytes(v as nat));
}

/// Appends the four bytes of `v`, most significant first.
pub fn write_u32(buf: &mut Vec<u8>, v: u32)
    ensures
        final(buf)@ == old(buf)@ + be32_bytes(v as nat),
{
    let ghost before = buf@;
    write_u16(buf, (v / 0x1_0000) as u16);
    write_u16(buf, (v % 0x1_0000) as u16);
    assert(buf@ =~= before + be32_bytes(v as nat));
}

/// Appends the eight bytes of `v`, most significant first.
pub fn write_u64(buf: &mut Vec<u8>, v: u64)
    ensures
        final(buf)@ == old(buf)@ + be64_bytes(v as nat),
{
    let ghost before = buf@;
    write_u32(buf, (v / 0x1_0000_0000) as u32);
    write_u32(buf, (v % 0x1_0000_0000) as u32);
    assert(buf@ =~= before + be64_bytes(v as nat));
}

/// Appends the byte that is the 8-bit pattern of `v`.
pub fn write_i8(buf: &mut Vec<u8>, v: i8)
    ensures
        final(buf)@ == old(buf)@.push(unsigned8(v) as u8),
{
    let u: u8 = if v >= 0 {
        v as u8
    } else {
        (v as i16 + 0x100) as u8
    };
    buf.push(u);
}

/// Appends the 16-bit pattern of `v`, most significant byte first.
pub fn write_i16(buf: &mut Vec<u8>, v: i16)
    ensures
        final(buf)@ == old(buf)@ + be16_bytes(unsigned16(v)),
{
    let u: u16 = if v >= 0 {
        v as u16
    } else {
        (v as i32 + 0x1_0000) as u16
    };
    write_u16(buf, u);
}

/// Appends the 32-bit pattern of `v`, most significant byte first.
pub fn write_i32(buf: &mut Vec<u8>, v: i32)
    ensures
        final(buf)@ == old(buf)@ + be32_bytes(unsigned32(v)),
{
    write_u32(buf, to_unsigned32(v));
}

/// Appends the 64-bit pattern of `v`, most significant byte first.
pub fn write_i64(buf: &mut Vec<u8>, v: i64)
    ensures
        final(buf)@ == old(buf)@ + be64_bytes(unsigned64(v)),
{
    write_u64(buf, to_unsigned64(v));
}

/// Appends every byte of `src`.
pub fn write_bytes(buf: &mut Vec<u8>, src: &[u8])
    ensures
        final(buf)@ == old(buf)@ + src@,
{
    let ghost start = buf@;
    let mut i: usize = 0;
    while i < src.len()
        invariant
            i <= src@.len(),
            buf@ == start + src@.subrange(0, i as int),
        decreases src@.len() - i,
    {
        let ghost before = buf@;
        buf.push(src[i]);
        i = i + 1;
        assert(buf@ =~= start + src@.subrange(0, i as int));
    }
    assert(src@.subrange(0, i as int) =~= src@);
}

/// The bytes of `data` from `from` up to `to`, as a vector of their own.
pub fn copy_range(data: &[u8], from: usize, to: usize) -> (r: Vec<u8>)
    requires
        from <= to <= data@.len(),
    ensures
        r@ == data@.subrange(from as int, to as int),
{
    let mut out: Vec<u8> = Vec::new();
    let mut i: usize = from;
    while i < to
        invariant
            from <= i <= to <= data@.len(),
            out@ == data@.subrange(from as int, i as int),
        decreases to - i,
    {
        out.push(data[i]);
        i = i + 1;
        assert(out@ =~= data@.subrange(from as int, i as int));
    }
    out
}

// ---------------------------------------------------------------------------
// Strings and identifiers
// ---------------------------------------------------------------------------

/// `String::from_utf8` of std: the text that `bytes` encode, where they are
/// well-formed UTF-8, and nothing where they are not.
#[verifier::external_body]
pub(crate) fn string_from_utf8(bytes: Vec<u8>) -> (r: Option<String>)
    ensures
        r.is_some() == valid_utf8(bytes@),
        r matches Some(s) ==> s@ == decode_utf8(bytes@),
{
    String::from_utf8(bytes).ok()
}

/// What `read_string` returns on `bytes` at `pos` with the limit `max_len`.
pub open spec fn spec_read_string(bytes: Seq<u8>, pos: int, max_len: nat) -> ProtocolResult<
    (Seq<char>, int),
> {
    match spec_read_varint(bytes, pos) {
        Err(e) => Err(e),
        Ok((len, start)) => {
            if len < 0 || len > max_len * 4 {
                Err(ProtocolError::StringTooLong)
            } else if bytes.len() - start < len {
                Err(ProtocolError::InvalidPacket)
            } else if !valid_utf8(bytes.subrange(start, start + len)) {
                Err(ProtocolError::InvalidPacket)
            } else {
                Ok((decode_utf8(bytes.subrange(start, start + len)), start + len))
            }
        },
    }
}

/// Reads a string at `pos`: a variable-length byte count, then that many
/// bytes of UTF-8. A count that is negative or above four times `max_len` is
/// refused as too long; bytes that end early or are not UTF-8 as invalid.
pub fn read_string(data: &[u8], pos: usize, max_len: usize) -> (r: ProtocolResult<
    (String, usize),
>)
    ensures
        match (r, spec_read_string(data@, pos as int, max_len as nat)) {
            (Ok((text, next)), Ok((spec_text, spec_next))) => text@ == spec_text && next
                == spec_next && pos < next <= data@.len(),
            (Err(e), Err(spec_e)) => e == spec_e,
            _ => false,
        },
{
    let (declared, start) = match read_varint(data, pos) {
        Ok(pair) => pair,
        Err(e) => { return Err(e); },
    };
    if declared < 0 || declared as u128 > max_len as u128 * 4 {
        return Err(ProtocolError::StringTooLong);
    }
    let len: usize = declared as usize;
    if data.len() - start < len {
        return Err(ProtocolError::InvalidPacket);
    }
    let raw = copy_range(data, start, start + len);
    match string_from_utf8(raw) {
        Some(text) => Ok((text, start + len)),
        None => Err(ProtocolError::InvalidPacket),
    }
}

/// Appends a string: its byte count as a variable-length integer, then its
/// UTF-8 bytes.
pub fn write_string(buf: &mut Vec<u8>, text: &str)
    requires
        encode_utf8(text@).len() <= i32::MAX,
    ensures
        final(buf)@ == old(buf)@ + spec_encode_string(text@),
{
    let ghost before = buf@;
    let bytes = text.as_bytes();
    write_varint(buf, bytes.len() as i32);
    write_bytes(buf, bytes);
    assert(buf@ =~= before + spec_encode_string(text@));
}

/// The bytes that stand for a string.
pub open spec fn spec_encode_string(text: Seq<char>) -> Seq<u8> {
    spec_encode_varint(encode_utf8(text).len() as i32) + encode_utf8(text)
}

/// A string that is written and read back is the same string, whatever
/// bytes follow it, where its length is within the limit of the reader.
pub proof fn lemma_string_round_trip(text: Seq<char>, tail: Seq<u8>, max_len: nat)
    requires
        encode_utf8(text).len() <= i32::MAX,
        encode_utf8(text).len() <= max_len * 4,
    ensures
        spec_read_string(spec_encode_string(text) + tail, 0, max_len) == Ok::<
            (Seq<char>, int),
            ProtocolError,
        >((text, spec_encode_string(text).len() as int)),
{
    let bytes = encode_utf8(text);
    let count = bytes.len() as i32;
    lemma_varint_round_trip(count, bytes + tail);
    let all = spec_encode_string(text) + tail;
    assert(all =~= spec_encode_varint(count) + (bytes + tail));
    let start = spec_encode_varint(count).len() as int;
    assert(all.subrange(start, start + count) =~= bytes);
    vstd::utf8::encode_utf8_valid_utf8(text);
    vstd::utf8::encode_utf8_decode_utf8(text);
}

/// Reads a 128-bit identifier at `pos`, sixteen bytes in network order;
/// fails where fewer are left.
pub fn read_uuid(data: &[u8], pos: usize) -> (r: ProtocolResult<(u128, usize)>)
    ensures
        pos + 16 <= data@.len() ==> r == Ok::<(u128, usize), ProtocolError>(
            (be128(data@, pos as int) as u128, (pos + 16) as usize),
        ),
        pos + 16 > data@.len() ==> r == Err::<(u128, usize), ProtocolError>(
            ProtocolError::InvalidPacket,
        ),
{
    let len = data.len();
    if len >= 16 && pos <= len - 16 {
        match (read_u64(data, pos), read_u64(data, pos + 8)) {
            (Ok((hi, _)), Ok((lo, _))) => Ok(
                (hi as u128 * 0x1_0000_0000_0000_0000 + lo as u128, pos + 16),
            ),
            _ => Err(ProtocolError::InvalidPacket),
        }
    } else {
        Err(ProtocolError::InvalidPacket)
    }
}

/// Appends a 128-bit identifier, sixteen bytes in network order.
pub fn write_uuid(buf: &mut Vec<u8>, uuid: u128)
    ensures
        final(buf)@ == old(buf)@ + be128_bytes(uuid as nat),
{
    let ghost before = buf@;
    write_u64(buf, (uuid / 0x1_0000_0000_0000_0000) as u64);
    write_u64(buf, (uuid % 0x1_0000_0000_0000_0000) as u64);
    assert(buf@ =~= before + be128_bytes(uuid as nat));
}

// ---------------------------------------------------------------------------
// Packed block positions
// ---------------------------------------------------------------------------

/// The 64-bit number that packs a block position: x in the top 26 bits, then
/// z in 26 bits, then y in the low 12 bits, each cut to its width.
pub open spec fn spec_pack_position(x: i32, y: i32, z: i32) -> nat {
    ((x as int % 0x400_0000) * 0x40_0000_0000 + (z as int % 0x400_0000) * 0x1000 + (y as int
        % 0x1000)) as nat
}

/// The signed number that a field of width 2 * `half` holds.
pub open spec fn sign_extend(field: int, half: int) -> int {
    if field < half {
        field
    } else {
        field - 2 * half
    }
}

/// The block position (x, y, z) that a 64-bit number packs.
pub open spec fn spec_unpack_position(raw: nat) -> (i32, i32, i32) {
    (
        sign_extend(raw as int / 0x40_0000_0000 % 0x400_0000, 0x200_0000) as i32,
        sign_extend(raw as int % 0x1000, 0x800) as i32,
        sign_extend(raw as int / 0x1000 % 0x400_0000, 0x200_0000) as i32,
    )
}

/// Packs a block position into one 64-bit number.
pub fn pack_position(x: i32, y: i32, z: i32) -> (raw: u64)
    ensures
        raw == spec_pack_position(x, y, z),
{
    let xf: u64 = ((x as i64 + 0x8000_0000) as u64) % 0x400_0000;
    let zf: u64 = ((z as i64 + 0x8000_0000) as u64) % 0x400_0000;
    let yf: u64 = ((y as i64 + 0x8000_0000) as u64) % 0x1000;
    xf * 0x40_0000_0000 + zf * 0x1000 + yf
}

/// Unpacks the block position (x, y, z) from one 64-bit number.
pub fn unpack_position(raw: u64) -> (r: (i32, i32, i32))
    ensures
        r == spec_unpack_position(raw as nat),
{
    let xf: i64 = (raw / 0x40_0000_0000 % 0x400_0000) as i64;
    let zf: i64 = (raw / 0x1000 % 0x400_0000) as i64;
    let yf: i64 = (raw % 0x1000) as i64;
    let x: i64 = if xf < 0x200_0000 { xf } else { xf - 0x400_0000 };
    let z: i64 = if zf < 0x200_0000 { zf } else { zf - 0x400_0000 };
    let y: i64 = if yf < 0x800 { yf } else { yf - 0x1000 };
    (x as i32, y as i32, z as i32)
}

/// The three fields of a packed position can be read off it again.
pub proof fn lemma_packed_fields(xf: int, yf: int, zf: int)
    requires
        0 <= xf < 0x400_0000,
        0 <= zf < 0x400_0000,
        0 <= yf < 0x1000,
    ensures
        0 <= xf * 0x40_0000_0000 + zf * 0x1000 + yf < 0x1_0000_0000_0000_0000,
        (xf * 0x40_0000_0000 + zf * 0x1000 + yf) % 0x1000 == yf,
        (xf * 0x40_0000_0000 + zf * 0x1000 + yf) / 0x1000 % 0x400_0000 == zf,
        (xf * 0x40_0000_0000 + zf * 0x1000 + yf) / 0x40_0000_0000 % 0x400_0000 == xf,
{
    let raw = xf * 0x40_0000_0000 + zf * 0x1000 + yf;
    let upper = xf * 0x400_0000 + zf;
    assert(raw == upper * 0x1000 + yf);
    assert(raw / 0x1000 == upper);
    assert(upper % 0x400_0000 == zf);
    assert(raw == xf * 0x40_0000_0000 + (zf * 0x1000 + yf));
    assert(raw / 0x40_0000_0000 == xf);
}

/// A field of a given width holds a signed number of that width unchanged.
pub proof fn lemma_sign_extend(v: int, half: int)
    requires
        half > 0,
        -half <= v < half,
    ensures
        0 <= v % (2 * half) < 2 * half,
        sign_extend(v % (2 * half), half) == v,
{
    if v >= 0 {
        assert(v % (2 * half) == v) by (nonlinear_arith)
            requires
                0 <= v < half,
        ;
    } else {
        assert(v % (2 * half) == v + 2 * half) by (nonlinear_arith)
            requires
                -half <= v < 0,
        ;
    }
}

/// Packing a block position and unpacking it again gives the position back,
/// for x and z of 26 bits and y of 12 bits.
pub proof fn lemma_position_round_trip(x: i32, y: i32, z: i32)
    requires
        -0x200_0000 <= x < 0x200_0000,
        -0x200_0000 <= z < 0x200_0000,
        -0x800 <= y < 0x800,
    ensures
        spec_pack_position(x, y, z) < 0x1_0000_0000_0000_0000,
        spec_unpack_position(spec_pack_position(x, y, z)) == (x, y, z),
{
    lemma_sign_extend(x as int, 0x200_0000);
    lemma_sign_extend(z as int, 0x200_0000);
    lemma_sign_extend(y as int, 0x800);
    lemma_packed_fields(x as int % 0x400_0000, y as int % 0x1000, z as int % 0x400_0000);
}

/// Reads a packed block position at `pos`; fails where fewer than eight
/// bytes are left.
pub fn read_position(data: &[u8], pos: usize) -> (r: ProtocolResult<((i32, i32, i32), usize)>)
    ensures
        pos + 8 <= data@.len() ==> r == Ok::<((i32, i32, i32), usize), ProtocolError>(
            (spec_unpack_position(be64(data@, pos as int)), (pos + 8) as usize),
        ),
        pos + 8 > data@.len() ==> r == Err::<((i32, i32, i32), usize), ProtocolError>(
            ProtocolError::InvalidPacket,
        ),
{
    match read_u64(data, pos) {
        Ok((raw, next)) => Ok((unpack_position(raw), next)),
        Err(e) => Err(e),
    }
}

/// Appends a block position packed into eight bytes.
pub fn write_position(buf: &mut Vec<u8>, x: i32, y: i32, z: i32)
    ensures
        final(buf)@ == old(buf)@ + be64_bytes(spec_pack_position(x, y, z)),
{
    write_u64(buf, pack_position(x, y, z));
}

// ---------------------------------------------------------------------------
// Frames
// ---------------------------------------------------------------------------

/// One packet as it travels: its identifier and the payload behind it.
#[derive(Debug, Clone)]
pub struct PacketFrame {
    pub id: i32,
    pub data: Vec<u8>,
}

/// The bytes of a frame: the combined length of identifier and payload as a
/// variable-length integer, then the identifier, then the payload.
pub open spec fn spec_frame_bytes(id: i32, payload: Seq<u8>) -> Seq<u8> {
    spec_encode_varint((spec_encode_varint(id).len() + payload.len()) as i32) + spec_encode_varint(
        id,
    ) + payload
}

/// What the front of `bytes` holds, read as a frame. `Ok(None)` stands for
/// "more bytes are needed": the length is cut short, or fewer bytes follow it
/// than it announces. Otherwise the identifier, the position where the
/// payload starts and the position where the frame ends. A length of five
/// continuation bytes, a negative length, and an identifier that does not
/// lie within the announced length are invalid.
pub open spec fn spec_scan_frame(bytes: Seq<u8>) -> ProtocolResult<Option<(i32, int, int)>> {
    match spec_read_raw(bytes, 0, 5) {
        None => {
            if continuation_run(bytes, 0, 5) >= 5 {
                Err(ProtocolError::InvalidPacket)
            } else {
                Ok(None)
            }
        },
        Some((raw, header)) => {
            let declared = signed32(raw);
            if declared < 0 {
                Err(ProtocolError::InvalidPacket)
            } else if bytes.len() < header + declared {
                Ok(None)
            } else {
                match spec_read_varint(bytes.subrange(0, header + declared), header) {
                    Err(e) => Err(e),
                    Ok((id, body)) => Ok(Some((id, body, header + declared))),
                }
            }
        },
    }
}

/// The run of continuation bytes is no longer than its limit, nor than what
/// is left of the bytes.
pub proof fn lemma_continuation_run_bound(bytes: Seq<u8>, from: int, limit: nat)
    requires
        0 <= from,
    ensures
        continuation_run(bytes, from, limit) <= limit,
        from <= bytes.len() ==> continuation_run(bytes, from, limit) <= bytes.len() - from,
        from > bytes.len() ==> continuation_run(bytes, from, limit) == 0,
    decreases limit,
{
    if limit > 0 && from < bytes.len() && bytes[from] >= 128 {
        lemma_continuation_run_bound(bytes, from + 1, (limit - 1) as nat);
    }
}

impl PacketFrame {
    pub fn new(id: i32, data: Vec<u8>) -> (frame: Self)
        ensures
            frame.id == id,
            frame.data == data,
    {
        Self { id, data }
    }

    /// The frame as bytes.
    pub fn encode(&self) -> (bytes: Vec<u8>)
        requires
            self.data@.len() + 5 <= i32::MAX,
        ensures
            bytes@ == spec_frame_bytes(self.id, self.data@),
    {
        let mut buf: Vec<u8> = Vec::new();
        let data_len: usize = varint_len(self.id) + self.data.len();
        write_varint(&mut buf, data_len as i32);
        write_varint(&mut buf, self.id);
        write_bytes(&mut buf, self.data.as_slice());
        assert(buf@ =~= spec_frame_bytes(self.id, self.data@));
        buf
    }

    /// Takes one frame off the front of `buf`. Where the front of `buf` is a
    /// whole frame, the frame is returned and its bytes leave `buf`; in every
    /// other case `buf` stays as it was.
    pub fn decode(buf: &mut Vec<u8>) -> (r: ProtocolResult<Option<PacketFrame>>)
        ensures
            match spec_scan_frame(old(buf)@) {
                Err(e) => r == Err::<Option<PacketFrame>, ProtocolError>(e) && final(buf)@ == old(
                    buf,
                )@,
                Ok(None) => r == Ok::<Option<PacketFrame>, ProtocolError>(None) && final(buf)@
                    == old(buf)@,
                Ok(Some((id, body, end))) => {
                    &&& r matches Ok(Some(frame))
                    &&& frame.id == id
                    &&& frame.data@ == old(buf)@.subrange(body, end)
                    &&& final(buf)@ == old(buf)@.subrange(end, old(buf)@.len() as int)
                },
            },
    {
        let len = buf.len();
        let (raw, header) = match read_raw(buf.as_slice(), 0, 5) {
            Some(pair) => pair,
            None => {
                proof {
                    lemma_continuation_run_bound(buf@, 0, 5);
                }
                if len >= 5 {
                    return Err(ProtocolError::InvalidPacket);
                } else {
                    return Ok(None);
                }
            },
        };
        let declared: i32 = to_signed32((raw % 0x1_0000_0000) as u32);
        if declared < 0 {
            return Err(ProtocolError::InvalidPacket);
        }
        if len - header < declared as usize {
            return Ok(None);
        }
        let total: usize = header + declared as usize;
        let mut rest = buf.split_off(total);
        match read_varint(buf.as_slice(), header) {
            Err(e) => {
                buf.append(&mut rest);
                assert(buf@ =~= old(buf)@);
                Err(e)
            },
            Ok((id, body)) => {
                let data = copy_range(buf.as_slice(), body, total);
                assert(data@ =~= old(buf)@.subrange(body as int, total as int));
                *buf = rest;
                Ok(Some(PacketFrame { id, data }))
            },
        }
    }
}

/// A frame that is written and read back gives the same identifier and
/// payload, whatever bytes follow it, and the read ends where the frame ends.
pub proof fn lemma_frame_round_trip(id: i32, payload: Seq<u8>, tail: Seq<u8>)
    requires
        payload.len() + 5 <= i32::MAX,
    ensures
        spec_scan_frame(spec_frame_bytes(id, payload) + tail) matches Ok(Some((got, body, end)))
            && got == id && end == spec_frame_bytes(id, payload).len() && (spec_frame_bytes(
            id,
            payload,
        ) + tail).subrange(body, end) == payload,
{
    let id_digits = spec_encode_varint(id);
    lemma_varint_round_trip(id, payload);
    let declared = (id_digits.len() + payload.len()) as i32;
    let len_digits = spec_encode_varint(declared);
    lemma_varint_round_trip(declared, id_digits + payload + tail);
    let frame = spec_frame_bytes(id, payload);
    let bytes = frame + tail;
    let header = len_digits.len() as int;
    assert(bytes.subrange(0, header) =~= len_digits);
    lemma_digits_decode(unsigned32(declared), bytes, 0, 5);
    let whole = bytes.subrange(0, header + declared);
    assert(whole =~= frame);
    assert(whole.subrange(header, header + id_digits.len()) =~= id_digits);
    lemma_digits_decode(unsigned32(id), whole, header, 5);
    assert(bytes.subrange(header + id_digits.len(), header + declared) =~= payload);
}

/// Of a frame that has not arrived whole, nothing is read: every proper
/// prefix of a frame's bytes asks for more.
pub proof fn lemma_frame_prefix_needs_more(id: i32, payload: Seq<u8>, k: int)
    requires
        payload.len() + 5 <= i32::MAX,
        0 <= k < spec_frame_bytes(id, payload).len(),
    ensures
        spec_scan_frame(spec_frame_bytes(id, payload).subrange(0, k)) == Ok::<
            Option<(i32, int, int)>,
            ProtocolError,
        >(None),
{
    let id_digits = spec_encode_varint(id);
    lemma_varint_round_trip(id, payload);
    let declared = (id_digits.len() + payload.len()) as i32;
    let len_digits = spec_encode_varint(declared);
    lemma_varint_round_trip(declared, id_digits + payload);
    let frame = spec_frame_bytes(id, payload);
    let bytes = frame.subrange(0, k);
    let header = len_digits.len() as int;
    if k < header {
        assert(bytes.subrange(0, k) =~= len_digits.subrange(0, k));
        lemma_digits_truncated(unsigned32(declared), bytes, 0, 5);
    } else {
        assert(bytes.subrange(0, header) =~= len_digits);
        lemma_digits_decode(unsigned32(declared), bytes, 0, 5);
    }
}

} // verus!
