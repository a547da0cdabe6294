//! Layout and assembly of a flat ISO 9660 Level 1 image.
//!
//! Sector map of every image:
//! 0..16 system area (zeros), 16 primary volume descriptor, 17 set terminator,
//! 18 type-L path table, 19 type-M path table, 20 root directory (one sector),
//! 21.. file contents, each file starting on a sector of its own.

use vstd::prelude::*;
use vstd::string::StringSliceAdditionalSpecFns;
use vstd::utf8::encode_utf8;
use crate::bytes::{
    SECTOR_SIZE, le32, be32, both16, both32, zeros, spaces, space_padded, zero_filled, sectors_for,
    unspecified_datetime, ceil_sectors, both_endian_16, both_endian_32, push_le32, push_be32,
    pad_str, push_repeated, push_all, unspecified_datetime17,
};
use crate::record::{DirRecord, dir_record_bytes, write_dir_record};

verus! {

/// Why an image could not be built.
#[derive(Debug, Clone, Copy, PartialEq, Eq)]
pub enum ImageError {
    /// The directory records of all files do not fit in the single root directory sector.
    RootDirectoryTooLarge,
}

/// Sector of the primary volume descriptor.
pub const PVD_SECTOR: usize = 16;

/// Sector of the volume descriptor set terminator.
pub const TERM_SECTOR: usize = 17;

/// Sector of the little-endian (type L) path table.
pub const PATH_TABLE_L_SECTOR: usize = 18;

/// The bytes `"CD001"`, the standard identifier of every volume descriptor.
pub open spec fn standard_id() -> Seq<u8> {
    seq![67u8, 68u8, 48u8, 48u8, 49u8]
}

/// The bytes `"RS-XORRISO"`, used as publisher and application identifier.
pub open spec fn writer_id() -> Seq<u8> {
    seq![82u8, 83u8, 45u8, 88u8, 79u8, 82u8, 82u8, 73u8, 83u8, 79u8]
}

/// Sector of the type-M path table.
pub open spec fn path_table_m_sector() -> nat {
    19
}

/// Sector of the root directory.
pub open spec fn root_dir_sector() -> nat {
    20
}

/// First sector used for file contents.
pub open spec fn first_file_sector() -> nat {
    21
}

/// The name of an entry as the bytes that its directory record holds (UTF-8).
pub open spec fn entry_name(e: (String, Vec<u8>)) -> Seq<u8> {
    encode_utf8(e.0@)
}

/// The contents of an entry.
pub open spec fn entry_data(e: (String, Vec<u8>)) -> Seq<u8> {
    e.1@
}

/// Sectors that a file of `len` bytes occupies: at least one, even when empty.
pub open spec fn file_sectors(len: nat) -> nat {
    if sectors_for(len) == 0 {
        1
    } else {
        sectors_for(len)
    }
}

/// Sectors occupied by the contents of all files of `fs`.
pub open spec fn data_sectors(fs: Seq<(String, Vec<u8>)>) -> nat
    decreases fs.len(),
{
    if fs.len() == 0 {
        0
    } else {
        data_sectors(fs.drop_last()) + file_sectors(entry_data(fs.last()).len())
    }
}

/// First sector of the contents of file `i` of `fs`.
pub open spec fn file_sector(fs: Seq<(String, Vec<u8>)>, i: int) -> nat {
    first_file_sector() + data_sectors(fs.take(i))
}

/// Number of sectors of the image of `fs`.
pub open spec fn total_sectors(fs: Seq<(String, Vec<u8>)>) -> nat {
    first_file_sector() + data_sectors(fs)
}

/// The directory records of the files of `fs`, in order.
pub open spec fn file_records(fs: Seq<(String, Vec<u8>)>) -> Seq<u8>
    decreases fs.len(),
{
    if fs.len() == 0 {
        seq![]
    } else {
        let prev = fs.drop_last();
        file_records(prev) + dir_record_bytes(
            entry_name(fs.last()),
            false,
            (first_file_sector() + data_sectors(prev)) as u32,
            entry_data(fs.last()).len() as u32,
        )
    }
}

/// The record of the root directory for itself (identifier 0x00).
pub open spec fn self_record() -> Seq<u8> {
    dir_record_bytes(seq![0u8], true, root_dir_sector() as u32, 2048)
}

/// The record of the root directory for its parent (identifier 0x01), again itself.
pub open spec fn parent_record() -> Seq<u8> {
    dir_record_bytes(seq![1u8], true, root_dir_sector() as u32, 2048)
}

/// The contents of the root directory before it is filled up to a sector.
pub open spec fn root_directory(fs: Seq<(String, Vec<u8>)>) -> Seq<u8> {
    self_record() + parent_record() + file_records(fs)
}

/// The contents of all files, each filled up with zeros to its sectors.
pub open spec fn file_area(fs: Seq<(String, Vec<u8>)>) -> Seq<u8>
    decreases fs.len(),
{
    if fs.len() == 0 {
        seq![]
    } else {
        let d = entry_data(fs.last());
        file_area(fs.drop_last()) + zero_filled(d, file_sectors(d.len()) * 2048)
    }
}

/// The path table entry of the root directory before the table's sector fill, little-endian form.
pub open spec fn path_table_l_entry() -> Seq<u8> {
    seq![1u8, 0u8] + le32(root_dir_sector() as u32) + seq![1u8, 0u8, 0u8, 0u8]
}

/// The path table entry of the root directory before the table's sector fill, big-endian form.
pub open spec fn path_table_m_entry() -> Seq<u8> {
    seq![1u8, 0u8] + be32(root_dir_sector() as u32) + seq![0u8, 1u8, 0u8, 0u8]
}

/// Bytes 0..88 of the primary volume descriptor: type, standard identifier, version,
/// system and volume identifiers, and the volume space size.
pub open spec fn pvd_identity(total: u32, label: Seq<u8>) -> Seq<u8> {
    seq![1u8] + standard_id() + seq![1u8, 0u8] + spaces(32) + space_padded(label, 32) + zeros(8)
        + both32(total)
}

/// Bytes 88..156 of the primary volume descriptor: set size, sequence number, block size,
/// path table size and the locations of the path tables.
pub open spec fn pvd_tables() -> Seq<u8> {
    zeros(32) + both16(1) + both16(1) + both16(2048) + both32(10) + le32(18) + le32(0) + be32(
        path_table_m_sector() as u32,
    ) + be32(0)
}

/// Bytes 190..883 of the primary volume descriptor: identifier texts, dates and the
/// file structure version.
pub open spec fn pvd_texts() -> Seq<u8> {
    let dt = unspecified_datetime();
    spaces(128) + space_padded(writer_id(), 128) + spaces(128) + space_padded(writer_id(), 128)
        + spaces(37) + spaces(37) + spaces(37) + dt + dt + dt + dt + seq![1u8, 0u8]
}

/// The fields of the primary volume descriptor, before its sector fill; bytes 156..190
/// are the record of the root directory.
pub open spec fn pvd_fields(total: u32, label: Seq<u8>) -> Seq<u8> {
    pvd_identity(total, label) + pvd_tables() + self_record() + pvd_texts()
}

/// The primary volume descriptor sector.
pub open spec fn pvd_sector(total: u32, label: Seq<u8>) -> Seq<u8> {
    zero_filled(pvd_fields(total, label), 2048)
}

/// The volume descriptor set terminator sector.
pub open spec fn terminator_sector() -> Seq<u8> {
    zero_filled(seq![255u8] + standard_id() + seq![1u8], 2048)
}

/// The whole image of the files `fs` under the volume label `label` (as bytes).
pub open spec fn iso_image(fs: Seq<(String, Vec<u8>)>, label: Seq<u8>) -> Seq<u8> {
    zeros(16 * 2048) + pvd_sector(total_sectors(fs) as u32, label) + terminator_sector()
        + zero_filled(path_table_l_entry(), 2048) + zero_filled(path_table_m_entry(), 2048) + zero_filled(
        root_directory(fs),
        2048,
    ) + file_area(fs)
}

/// The inputs whose image can be addressed: sector numbers fit the format's 32-bit fields
/// and the image fits in memory.
pub open spec fn image_fits(fs: Seq<(String, Vec<u8>)>) -> bool {
    &&& total_sectors(fs) <= u32::MAX
    &&& total_sectors(fs) * 2048 <= usize::MAX
}

pub proof fn lemma_data_sectors_step(fs: Seq<(String, Vec<u8>)>, i: int)
    requires
        0 <= i < fs.len(),
    ensures
        data_sectors(fs.take(i + 1)) == data_sectors(fs.take(i)) + file_sectors(
            entry_data(fs[i]).len(),
        ),
        file_records(fs.take(i + 1)) == file_records(fs.take(i)) + dir_record_bytes(
            entry_name(fs[i]),
            false,
            file_sector(fs, i) as u32,
            entry_data(fs[i]).len() as u32,
        ),
        file_area(fs.take(i + 1)) == file_area(fs.take(i)) + zero_filled(
            entry_data(fs[i]),
            file_sectors(entry_data(fs[i]).len()) * 2048,
        ),
{
    assert(fs.take(i + 1).drop_last() =~= fs.take(i));
    assert(fs.take(i + 1).last() == fs[i]);
}

pub proof fn lemma_data_sectors_mono(fs: Seq<(String, Vec<u8>)>, i: int, j: int)
    requires
        0 <= i <= j <= fs.len(),
    ensures
        data_sectors(fs.take(i)) <= data_sectors(fs.take(j)),
    decreases j - i,
{
    if i < j {
        lemma_data_sectors_step(fs, j - 1);
        lemma_data_sectors_mono(fs, i, j - 1);
    }
}

pub proof fn lemma_file_sectors_cover(len: nat)
    ensures
        len <= file_sectors(len) * 2048,
        file_sectors(len) >= 1,
        len > 0 ==> file_sectors(len) * 2048 < len + 2048,
{
    let c = sectors_for(len);
    assert(c * 2048 >= len && c * 2048 < len + 2048) by (nonlinear_arith)
        requires
            c == (len + 2047) / 2048,
    ;
}

/// Appends `src` and zero bytes up to a total of `len` bytes.
fn push_zero_filled(buf: &mut Vec<u8>, src: &[u8], len: usize)
    requires
        src@.len() <= len,
    ensures
        final(buf)@ == old(buf)@ + zero_filled(src@, len as nat),
{
    push_all(buf, src);
    push_repeated(buf, 0, len - src.len());
    assert(final(buf)@ =~= old(buf)@ + zero_filled(src@, len as nat));
}

/// Appends the 17-byte unspecified date and time.
fn push_unspecified_datetime(buf: &mut Vec<u8>)
    ensures
        final(buf)@ == old(buf)@ + unspecified_datetime(),
{
    let d = unspecified_datetime17();
    let ghost start = buf@;
    let mut i: usize = 0;
    while i < 17
        invariant
            i <= 17,
            d@ == unspecified_datetime(),
            buf@ =~= start + d@.take(i as int),
        decreases 17 - i,
    {
        buf.push(d[i]);
        i = i + 1;
    }
    assert(d@.take(17) =~= d@);
}

/// Builds the primary volume descriptor sector.
fn primary_volume_descriptor(total: u32, volume_label: &str) -> (pvd: Vec<u8>)
    ensures
        pvd@ == pvd_sector(total, volume_label.spec_bytes()),
{
    let mut pvd: Vec<u8> = Vec::new();
    pvd.push(1);
    pvd.push(67);
    pvd.push(68);
    pvd.push(48);
    pvd.push(48);
    pvd.push(49);
    pvd.push(1);
    pvd.push(0);
    push_repeated(&mut pvd, 32, 32);
    let label = pad_str(volume_label, 32);
    push_all(&mut pvd, label.as_slice());
    push_repeated(&mut pvd, 0, 8);
    both_endian_32(&mut pvd, total);
    push_repeated(&mut pvd, 0, 32);
    both_endian_16(&mut pvd, 1);
    both_endian_16(&mut pvd, 1);
    both_endian_16(&mut pvd, 2048);
    both_endian_32(&mut pvd, 10);
    push_le32(&mut pvd, 18);
    push_le32(&mut pvd, 0);
    push_be32(&mut pvd, 19);
    push_be32(&mut pvd, 0);
    assert(pvd@ =~= pvd_identity(total, volume_label.spec_bytes()) + pvd_tables());
    let ghost part1 = pvd@;
    write_dir_record(
        &mut pvd,
        &DirRecord { identifier: vec![0u8], is_directory: true, extent_sector: 20, data_length: 2048 },
    );
    push_repeated(&mut pvd, 32, 128);
    let writer = writer_id_field();
    push_all(&mut pvd, writer.as_slice());
    push_repeated(&mut pvd, 32, 128);
    push_all(&mut pvd, writer.as_slice());
    push_repeated(&mut pvd, 32, 37);
    push_repeated(&mut pvd, 32, 37);
    push_repeated(&mut pvd, 32, 37);
    push_unspecified_datetime(&mut pvd);
    push_unspecified_datetime(&mut pvd);
    push_unspecified_datetime(&mut pvd);
    push_unspecified_datetime(&mut pvd);
    pvd.push(1);
    pvd.push(0);
    assert(pvd@ =~= part1 + self_record() + pvd_texts());
    assert(pvd@ =~= pvd_fields(total, volume_label.spec_bytes()));
    assert(pvd.len() == 883);
    let fill = SECTOR_SIZE - pvd.len();
    push_repeated(&mut pvd, 0, fill);
    assert(pvd@ =~= pvd_sector(total, volume_label.spec_bytes()));
    pvd
}

/// The publisher/application identifier field: `"RS-XORRISO"` padded with spaces.
fn writer_id_field() -> (field: Vec<u8>)
    ensures
        field@ == space_padded(writer_id(), 128),
{
    let id = "RS-XORRISO";
    proof {
        reveal_strlit("RS-XORRISO");
        vstd::utf8::is_ascii_chars_encode_utf8(id@);
        assert(id.spec_bytes() =~= writer_id());
    }
    pad_str(id, 128)
}

/// Builds the volume descriptor set terminator sector.
fn set_terminator() -> (term: Vec<u8>)
    ensures
        term@ == terminator_sector(),
{
    let mut term: Vec<u8> = Vec::new();
    term.push(255);
    term.push(67);
    term.push(68);
    term.push(48);
    term.push(48);
    term.push(49);
    term.push(1);
    push_repeated(&mut term, 0, SECTOR_SIZE - 7);
    assert(term@ =~= terminator_sector());
    term
}

/// Builds the image of the files `files` (names already in ISO 9660 form, in directory
/// order) under the volume label `volume_label`.
pub fn build_image(files: &[(String, Vec<u8>)], volume_label: &str) -> (r: Result<Vec<u8>, ImageError>)
    requires
        image_fits(files@),
    ensures
        r is Ok <==> root_directory(files@).len() <= 2048,
        r matches Ok(img) ==> img@ == iso_image(files@, volume_label.spec_bytes()),
        r matches Err(e) ==> e == ImageError::RootDirectoryTooLarge,
{
    let ghost fs = files@;
    // The path table holds the root directory only.
    let path_table_len: usize = 10;
    let path_table_sectors = ceil_sectors(path_table_len);
    let path_table_m_sector = PATH_TABLE_L_SECTOR + path_table_sectors;
    let root_dir_sector = path_table_m_sector + path_table_sectors;
    assert(path_table_m_sector == 19 && root_dir_sector == 20);

    let mut path_table_l: Vec<u8> = Vec::new();
    path_table_l.push(1);
    path_table_l.push(0);
    push_le32(&mut path_table_l, root_dir_sector as u32);
    path_table_l.push(1);
    path_table_l.push(0);
    path_table_l.push(0);
    path_table_l.push(0);
    assert(path_table_l@ =~= path_table_l_entry());

    let mut path_table_m: Vec<u8> = Vec::new();
    path_table_m.push(1);
    path_table_m.push(0);
    push_be32(&mut path_table_m, root_dir_sector as u32);
    path_table_m.push(0);
    path_table_m.push(1);
    path_table_m.push(0);
    path_table_m.push(0);
    assert(path_table_m@ =~= path_table_m_entry());

    // Root directory: itself, its parent, then one record per file; the files'
    // contents follow the root directory sector in order.
    let mut root_dir: Vec<u8> = Vec::new();
    write_dir_record(
        &mut root_dir,
        &DirRecord {
            identifier: vec![0u8],
            is_directory: true,
            extent_sector: root_dir_sector as u32,
            data_length: SECTOR_SIZE as u32,
        },
    );
    write_dir_record(
        &mut root_dir,
        &DirRecord {
            identifier: vec![1u8],
            is_directory: true,
            extent_sector: root_dir_sector as u32,
            data_length: SECTOR_SIZE as u32,
        },
    );
    assert(root_dir@ =~= self_record() + parent_record() + file_records(fs.take(0)));

    let mut next_sector: usize = root_dir_sector + 1;
    let mut i: usize = 0;
    while i < files.len()
        invariant
            fs == files@,
            image_fits(fs),
            i <= fs.len(),
            next_sector == first_file_sector() + data_sectors(fs.take(i as int)),
            root_dir@ == self_record() + parent_record() + file_records(fs.take(i as int)),
        decreases fs.len() - i,
    {
        proof {
            lemma_data_sectors_step(fs, i as int);
            lemma_data_sectors_mono(fs, i as int + 1, fs.len() as int);
            assert(fs.take(fs.len() as int) =~= fs);
            lemma_file_sectors_cover(entry_data(fs[i as int]).len());
        }
        let data_len = files[i].1.len();
        let mut sectors = ceil_sectors(data_len);
        if sectors == 0 {
            sectors = 1;
        }
        let name = vstd::slice::slice_to_vec(files[i].0.as_str().as_bytes());
        write_dir_record(
            &mut root_dir,
            &DirRecord {
                identifier: name,
                is_directory: false,
                extent_sector: next_sector as u32,
                data_length: data_len as u32,
            },
        );
        next_sector = next_sector + sectors;
        i = i + 1;
    }
    assert(fs.take(fs.len() as int) =~= fs);
    let total_sectors = next_sector;

    if root_dir.len() > SECTOR_SIZE {
        return Err(ImageError::RootDirectoryTooLarge);
    }

    let mut image: Vec<u8> = Vec::new();
    push_repeated(&mut image, 0, PVD_SECTOR * SECTOR_SIZE);
    let pvd = primary_volume_descriptor(total_sectors as u32, volume_label);
    push_all(&mut image, pvd.as_slice());
    let term = set_terminator();
    push_all(&mut image, term.as_slice());
    push_zero_filled(&mut image, path_table_l.as_slice(), SECTOR_SIZE);
    push_zero_filled(&mut image, path_table_m.as_slice(), SECTOR_SIZE);
    push_zero_filled(&mut image, root_dir.as_slice(), SECTOR_SIZE);
    let ghost header = image@;
    assert(header + file_area(fs.take(0)) =~= header);

    let mut j: usize = 0;
    while j < files.len()
        invariant
            fs == files@,
            image_fits(fs),
            j <= fs.len(),
            image@ == header + file_area(fs.take(j as int)),
        decreases fs.len() - j,
    {
        proof {
            lemma_data_sectors_step(fs, j as int);
            lemma_data_sectors_mono(fs, j as int + 1, fs.len() as int);
            assert(fs.take(fs.len() as int) =~= fs);
            lemma_file_sectors_cover(entry_data(fs[j as int]).len());
        }
        let data = files[j].1.as_slice();
        let mut sectors = ceil_sectors(data.len());
        if sectors == 0 {
            sectors = 1;
        }
        push_zero_filled(&mut image, data, sectors * SECTOR_SIZE);
        assert(image@ =~= header + file_area(fs.take(j as int + 1)));
        j = j + 1;
    }
    assert(image@ =~= iso_image(fs, volume_label.spec_bytes()));
    Ok(image)
}

} // verus!
