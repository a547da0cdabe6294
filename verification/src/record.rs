//! Directory records (ECMA-119 section 9.1), shared by the root directory,
//! its `.`/`..` entries, the files and the primary volume descriptor.

use vstd::prelude::*;
use crate::bytes::{
    both16, both32, both_endian_16, both_endian_32, push_all, push_repeated, zeros, le_value,
    law_both32_decodes,
};

verus! {

/// One directory record before encoding.
pub struct DirRecord {
    /// `[0x00]` for the directory itself, `[0x01]` for its parent, else the file identifier.
    pub identifier: Vec<u8>,
    pub is_directory: bool,
    pub extent_sector: u32,
    pub data_length: u32,
}

/// The identifier length as it is recorded: one byte, so longer identifiers wrap.
pub open spec fn recorded_id_len(ident: Seq<u8>) -> u8 {
    ident.len() as u8
}

/// Number of padding bytes after the identifier: one when the recorded length is even.
pub open spec fn id_padding(ident: Seq<u8>) -> nat {
    if recorded_id_len(ident) % 2 == 0 {
        1
    } else {
        0
    }
}

/// The encoded directory record.
pub open spec fn dir_record_bytes(ident: Seq<u8>, is_dir: bool, extent: u32, length: u32) -> Seq<u8> {
    let id_len = recorded_id_len(ident);
    let pad = id_padding(ident);
    seq![(33 + id_len + pad) as u8, 0u8] + both32(extent) + both32(length) + zeros(7) + seq![
        if is_dir {
            2u8
        } else {
            0u8
        },
        0u8,
        0u8,
    ] + both16(1) + seq![id_len] + ident + zeros(pad)
}

/// Number of bytes that `dir_record_bytes` produces.
pub open spec fn dir_record_len(ident: Seq<u8>) -> nat {
    33 + ident.len() + id_padding(ident)
}

pub proof fn lemma_dir_record_len(ident: Seq<u8>, is_dir: bool, extent: u32, length: u32)
    ensures
        dir_record_bytes(ident, is_dir, extent, length).len() == dir_record_len(ident),
{
}

/// Appends the encoding of `rec`.
pub fn write_dir_record(buf: &mut Vec<u8>, rec: &DirRecord)
    ensures
        final(buf)@ == old(buf)@ + dir_record_bytes(
            rec.identifier@,
            rec.is_directory,
            rec.extent_sector,
            rec.data_length,
        ),
{
    let ghost start = buf@;
    let id_len = rec.identifier.len() as u8;
    let pad: usize = if id_len % 2 == 0 {
        1
    } else {
        0
    };
    let record_len: usize = 33 + id_len as usize + pad;

    buf.push(record_len as u8);
    buf.push(0);
    both_endian_32(buf, rec.extent_sector);
    both_endian_32(buf, rec.data_length);
    push_repeated(buf, 0, 7);
    buf.push(if rec.is_directory {
        2
    } else {
        0
    });
    buf.push(0);
    buf.push(0);
    both_endian_16(buf, 1);
    buf.push(id_len);
    push_all(buf, rec.identifier.as_slice());
    if pad == 1 {
        buf.push(0);
    }
    assert(buf@ =~= start + dir_record_bytes(
        rec.identifier@,
        rec.is_directory,
        rec.extent_sector,
        rec.data_length,
    ));
}

/// What a reader finds in a directory record whose identifier fits (at most 221 bytes, so
/// that the whole record length fits its one-byte field): byte 0 is the record's own
/// length (33 fixed bytes, the identifier, and one padding byte after an identifier of
/// even length); bytes 2..10 hold the extent and 10..18 the data length, each little-endian
/// then big-endian; byte 25 flags a directory; bytes 28..32 give volume sequence number 1;
/// byte 32 is the identifier length, the identifier follows from byte 33, then a zero pad.
pub proof fn law_dir_record_fields(ident: Seq<u8>, is_dir: bool, extent: u32, length: u32)
    requires
        ident.len() <= 221,
    ensures
        ({
            let r = dir_record_bytes(ident, is_dir, extent, length);
            let pad: int = if ident.len() % 2 == 0 {
                1
            } else {
                0
            };
            &&& r.len() == 33 + ident.len() + pad
            &&& r[0] == r.len()
            &&& r[1] == 0
            &&& le_value(r[2], r[3], r[4], r[5]) == extent
            &&& r[6] == r[5] && r[7] == r[4] && r[8] == r[3] && r[9] == r[2]
            &&& le_value(r[10], r[11], r[12], r[13]) == length
            &&& r[14] == r[13] && r[15] == r[12] && r[16] == r[11] && r[17] == r[10]
            &&& r[25] == (if is_dir {
                2u8
            } else {
                0u8
            })
            &&& r[28] == 1 && r[29] == 0 && r[30] == 0 && r[31] == 1
            &&& r[32] == ident.len()
            &&& r.subrange(33, 33 + ident.len() as int) == ident
            &&& pad == 1 ==> r[r.len() - 1] == 0
        }),
{
    law_both32_decodes(extent);
    law_both32_decodes(length);
    let r = dir_record_bytes(ident, is_dir, extent, length);
    assert((ident.len() as u8) == ident.len());
    let e = both32(extent);
    let l = both32(length);
    assert(r[2] == e[0] && r[3] == e[1] && r[4] == e[2] && r[5] == e[3]);
    assert(r[6] == e[4] && r[7] == e[5] && r[8] == e[6] && r[9] == e[7]);
    assert(e[4int + 0] == e[3int - 0] && e[4int + 1] == e[3int - 1] && e[4int + 2] == e[3int - 2]
        && e[4int + 3] == e[3int - 3]);
    assert(r[10] == l[0] && r[11] == l[1] && r[12] == l[2] && r[13] == l[3]);
    assert(r[14] == l[4] && r[15] == l[5] && r[16] == l[6] && r[17] == l[7]);
    assert(l[4int + 0] == l[3int - 0] && l[4int + 1] == l[3int - 1] && l[4int + 2] == l[3int - 2]
        && l[4int + 3] == l[3int - 3]);
    assert(r.subrange(33, 33 + ident.len() as int) =~= ident);
}

} // verus!
