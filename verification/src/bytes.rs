//! Byte-level encodings used by ISO 9660 structures: both-endian integers,
//! space-padded text fields, sector rounding and the "unspecified" date field.

use vstd::prelude::*;
use vstd::string::StringSliceAdditionalSpecFns;

verus! {

/// Size of one logical sector (and logical block) of the image, in bytes.
pub const SECTOR_SIZE: usize = 2048;

/// Little-endian bytes of a 16-bit value.
pub open spec fn le16(v: u16) -> Seq<u8> {
    seq![(v % 256) as u8, (v / 256) as u8]
}

/// Big-endian bytes of a 16-bit value.
pub open spec fn be16(v: u16) -> Seq<u8> {
    seq![(v / 256) as u8, (v % 256) as u8]
}

/// Little-endian bytes of a 32-bit value.
pub open spec fn le32(v: u32) -> Seq<u8> {
    seq![
        (v % 256) as u8,
        ((v / 256) % 256) as u8,
        ((v / 65536) % 256) as u8,
        (v / 16777216) as u8,
    ]
}

/// Big-endian bytes of a 32-bit value.
pub open spec fn be32(v: u32) -> Seq<u8> {
    seq![
        (v / 16777216) as u8,
        ((v / 65536) % 256) as u8,
        ((v / 256) % 256) as u8,
        (v % 256) as u8,
    ]
}

/// The "both-byte order" field of ECMA-119 for a 16-bit value: little-endian, then big-endian.
pub open spec fn both16(v: u16) -> Seq<u8> {
    le16(v) + be16(v)
}

/// The "both-byte order" field of ECMA-119 for a 32-bit value: little-endian, then big-endian.
pub open spec fn both32(v: u32) -> Seq<u8> {
    le32(v) + be32(v)
}

/// `n` copies of the byte `b`.
pub open spec fn repeat_byte(b: u8, n: nat) -> Seq<u8> {
    Seq::new(n, |i: int| b)
}

/// `n` zero bytes.
pub open spec fn zeros(n: nat) -> Seq<u8> {
    repeat_byte(0, n)
}

/// `n` ASCII spaces.
pub open spec fn spaces(n: nat) -> Seq<u8> {
    repeat_byte(32, n)
}

/// A text field of exactly `len` bytes: the first `len` bytes of `b`,
/// filled up with spaces when `b` is shorter.
pub open spec fn space_padded(b: Seq<u8>, len: nat) -> Seq<u8> {
    if b.len() >= len {
        b.take(len as int)
    } else {
        b + spaces((len - b.len()) as nat)
    }
}

/// `b` followed by zero bytes up to a total length of `len` (which must not be below `b.len()`).
pub open spec fn zero_filled(b: Seq<u8>, len: nat) -> Seq<u8> {
    b + zeros((len - b.len()) as nat)
}

/// Number of whole sectors needed to hold `bytes` bytes.
pub open spec fn sectors_for(bytes: nat) -> nat {
    (bytes + 2047) / 2048
}

/// The 17-byte "date and time not specified" value: sixteen ASCII `'0'` digits and a
/// zero offset from GMT.
pub open spec fn unspecified_datetime() -> Seq<u8> {
    repeat_byte(48, 16).push(0)
}

/// Rounds a byte count up to whole sectors.
pub fn ceil_sectors(bytes: usize) -> (n: usize)
    requires
        bytes + 2048 <= usize::MAX,
    ensures
        n == sectors_for(bytes as nat),
        n * 2048 >= bytes,
        n * 2048 < bytes + 2048,
{
    assert(SECTOR_SIZE == 2048);
    let n = (bytes + SECTOR_SIZE - 1) / SECTOR_SIZE;
    assert(n * 2048 >= bytes && n * 2048 < bytes + 2048) by (nonlinear_arith)
        requires
            n == (bytes + 2047) / 2048,
    ;
    n
}

/// Appends a 32-bit value in both byte orders (little-endian first).
pub fn both_endian_32(buf: &mut Vec<u8>, value: u32)
    ensures
        final(buf)@ == old(buf)@ + both32(value),
{
    buf.push((value % 256) as u8);
    buf.push(((value / 256) % 256) as u8);
    buf.push(((value / 65536) % 256) as u8);
    buf.push((value / 16777216) as u8);
    buf.push((value / 16777216) as u8);
    buf.push(((value / 65536) % 256) as u8);
    buf.push(((value / 256) % 256) as u8);
    buf.push((value % 256) as u8);
    assert(buf@ =~= old(buf)@ + both32(value));
}

/// Appends a 16-bit value in both byte orders (little-endian first).
pub fn both_endian_16(buf: &mut Vec<u8>, value: u16)
    ensures
        final(buf)@ == old(buf)@ + both16(value),
{
    buf.push((value % 256) as u8);
    buf.push((value / 256) as u8);
    buf.push((value / 256) as u8);
    buf.push((value % 256) as u8);
    assert(buf@ =~= old(buf)@ + both16(value));
}

/// Appends a 32-bit value in little-endian order only.
pub fn push_le32(buf: &mut Vec<u8>, value: u32)
    ensures
        final(buf)@ == old(buf)@ + le32(value),
{
    buf.push((value % 256) as u8);
    buf.push(((value / 256) % 256) as u8);
    buf.push(((value / 65536) % 256) as u8);
    buf.push((value / 16777216) as u8);
    assert(buf@ =~= old(buf)@ + le32(value));
}

/// Appends a 32-bit value in big-endian order only.
pub fn push_be32(buf: &mut Vec<u8>, value: u32)
    ensures
        final(buf)@ == old(buf)@ + be32(value),
{
    buf.push((value / 16777216) as u8);
    buf.push(((value / 65536) % 256) as u8);
    buf.push(((value / 256) % 256) as u8);
    buf.push((value % 256) as u8);
    assert(buf@ =~= old(buf)@ + be32(value));
}

/// The UTF-8 bytes of `s`, cut or space-filled to exactly `len` bytes.
pub fn pad_str(s: &str, len: usize) -> (field: Vec<u8>)
    ensures
        field@ == space_padded(s.spec_bytes(), len as nat),
        field@.len() == len,
{
    let b = s.as_bytes();
    let mut field: Vec<u8> = Vec::new();
    let mut i: usize = 0;
    while i < len
        invariant
            i <= len,
            b@ == s.spec_bytes(),
            field@.len() == i,
            forall|k: int|
                0 <= k < i ==> #[trigger] field@[k] == (if k < b@.len() {
                    b@[k]
                } else {
                    32u8
                }),
        decreases len - i,
    {
        if i < b.len() {
            field.push(b[i]);
        } else {
            field.push(32u8);
        }
        i = i + 1;
    }
    assert(field@ =~= space_padded(s.spec_bytes(), len as nat));
    field
}

/// Appends `n` copies of the byte `b`.
pub fn push_repeated(buf: &mut Vec<u8>, b: u8, n: usize)
    ensures
        final(buf)@ == old(buf)@ + repeat_byte(b, n as nat),
{
    let ghost start = buf@;
    let mut i: usize = 0;
    while i < n
        invariant
            i <= n,
            buf@ =~= start + repeat_byte(b, i as nat),
        decreases n - i,
    {
        buf.push(b);
        i = i + 1;
    }
}

/// Appends all bytes of `src`.
pub fn push_all(buf: &mut Vec<u8>, src: &[u8])
    ensures
        final(buf)@ == old(buf)@ + src@,
{
    let ghost start = buf@;
    let mut i: usize = 0;
    while i < src.len()
        invariant
            i <= src@.len(),
            buf@ =~= start + src@.take(i as int),
        decreases src@.len() - i,
    {
        buf.push(src[i]);
        i = i + 1;
    }
    assert(src@.take(src@.len() as int) =~= src@);
}

/// The "date and time not specified" value of a volume descriptor.
pub fn unspecified_datetime17() -> (d: [u8; 17])
    ensures
        d@ == unspecified_datetime(),
{
    let d: [u8; 17] = [48, 48, 48, 48, 48, 48, 48, 48, 48, 48, 48, 48, 48, 48, 48, 48, 0];
    assert(d@ =~= unspecified_datetime());
    d
}

/// The value of four bytes read as a little-endian number.
pub open spec fn le_value(b0: u8, b1: u8, b2: u8, b3: u8) -> int {
    b0 + 256 * b1 + 65536 * b2 + 16777216 * b3
}

/// A both-byte-order 32-bit field reads back as its value: its first four bytes are the
/// value in little-endian order and its last four the same bytes reversed.
pub proof fn law_both32_decodes(v: u32)
    ensures
        both32(v).len() == 8,
        le_value(both32(v)[0], both32(v)[1], both32(v)[2], both32(v)[3]) == v,
        forall|k: int| 0 <= k < 4 ==> #[trigger] both32(v)[4 + k] == both32(v)[3 - k],
{
    let b = both32(v);
    let x = v as int;
    assert(x % 256 + 256 * ((x / 256) % 256) + 65536 * ((x / 65536) % 256) + 16777216 * (x
        / 16777216) == x) by (nonlinear_arith)
        requires
            0 <= x < 0x1_0000_0000,
    ;
    assert(b[0] == x % 256);
    assert(b[1] == (x / 256) % 256);
    assert(b[2] == (x / 65536) % 256);
    assert(b[3] == x / 16777216);
    assert forall|k: int| 0 <= k < 4 implies #[trigger] b[4 + k] == b[3 - k] by {
        if k == 0 {
        } else if k == 1 {
        } else if k == 2 {
        } else {
        }
    }
}

/// A both-byte-order 16-bit field reads back as its value: little-endian, then the same
/// two bytes reversed.
pub proof fn law_both16_decodes(v: u16)
    ensures
        both16(v).len() == 4,
        both16(v)[0] + 256 * both16(v)[1] == v,
        both16(v)[2] == both16(v)[1],
        both16(v)[3] == both16(v)[0],
{
    let x = v as int;
    assert(x % 256 + 256 * (x / 256) == x) by (nonlinear_arith)
        requires
            0 <= x < 65536,
    ;
}

/// A padded text field is exactly `len` bytes: the text's bytes while they last, then
/// spaces.
pub proof fn law_space_padded(b: Seq<u8>, len: nat)
    ensures
        space_padded(b, len).len() == len,
        forall|k: int|
            0 <= k < len ==> #[trigger] space_padded(b, len)[k] == (if k < b.len() {
                b[k]
            } else {
                32u8
            }),
{
}

/// Zero filling keeps the bytes and adds zeros up to `len` (when `b` is not longer).
pub proof fn law_zero_filled(b: Seq<u8>, len: nat)
    requires
        b.len() <= len,
    ensures
        zero_filled(b, len).len() == len,
        forall|k: int|
            0 <= k < len ==> #[trigger] zero_filled(b, len)[k] == (if k < b.len() {
                b[k]
            } else {
                0u8
            }),
{
}

/// The unspecified date: sixteen ASCII `'0'` digits, then a zero offset from GMT.
pub proof fn law_unspecified_datetime()
    ensures
        unspecified_datetime().len() == 17,
        forall|k: int| 0 <= k < 16 ==> #[trigger] unspecified_datetime()[k] == 48,
        unspecified_datetime()[16] == 0,
{
}

} // verus!
