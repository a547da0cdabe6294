//! Properties of every image that `build_image` produces: where the volume
//! descriptors, tables, directory records and file contents can be found.

use vstd::prelude::*;
use crate::bytes::{
    le32, be32, both32, zeros, space_padded, zero_filled, le_value, law_both32_decodes,
    unspecified_datetime,
};
use crate::record::{dir_record_bytes, lemma_dir_record_len, law_dir_record_fields};
use crate::image::{
    iso_image, image_fits, root_directory, file_records, file_area, data_sectors, file_sectors, file_sector,
    total_sectors, entry_data, entry_name, pvd_fields, pvd_sector, terminator_sector,
    path_table_l_entry, path_table_m_entry, pvd_identity, pvd_tables, pvd_texts, self_record, writer_id, parent_record,
    standard_id,
    lemma_file_sectors_cover, lemma_data_sectors_step, lemma_data_sectors_mono,
};

verus! {

/// Offset of the first byte of sector `n`.
pub open spec fn at(n: int) -> int {
    n * 2048
}

proof fn lemma_zero_filled(b: Seq<u8>, n: nat)
    requires
        b.len() <= n,
    ensures
        zero_filled(b, n).len() == n,
        zero_filled(b, n).subrange(0, b.len() as int) == b,
{
    assert(zero_filled(b, n).subrange(0, b.len() as int) =~= b);
}

proof fn lemma_file_area_len(fs: Seq<(String, Vec<u8>)>)
    ensures
        file_area(fs).len() == data_sectors(fs) * 2048,
    decreases fs.len(),
{
    if fs.len() > 0 {
        lemma_file_area_len(fs.drop_last());
        let d = entry_data(fs.last());
        lemma_file_sectors_cover(d.len());
        lemma_zero_filled(d, file_sectors(d.len()) * 2048);
    }
}

proof fn lemma_file_area_prefix(fs: Seq<(String, Vec<u8>)>, k: int)
    requires
        0 <= k <= fs.len(),
    ensures
        data_sectors(fs.take(k)) * 2048 <= file_area(fs).len(),
        file_area(fs).subrange(0, (data_sectors(fs.take(k)) * 2048) as int) == file_area(fs.take(k)),
    decreases fs.len(),
{
    lemma_file_area_len(fs);
    lemma_file_area_len(fs.take(k));
    lemma_data_sectors_mono(fs, k, fs.len() as int);
    assert(fs.take(fs.len() as int) =~= fs);
    if k < fs.len() {
        let prev = fs.drop_last();
        assert(prev.take(k) =~= fs.take(k));
        lemma_file_area_prefix(prev, k);
        lemma_file_area_len(prev);
        let a = file_area(prev);
        let d = entry_data(fs.last());
        let z = zero_filled(d, file_sectors(d.len()) * 2048);
        let n: int = (data_sectors(fs.take(k)) * 2048) as int;
        assert((a + z).subrange(0, n) =~= a.subrange(0, n));
    } else {
        assert(file_area(fs).subrange(0, (data_sectors(fs.take(k)) * 2048) as int) =~= file_area(fs));
    }
}

proof fn lemma_file_records_prefix(fs: Seq<(String, Vec<u8>)>, k: int)
    requires
        0 <= k <= fs.len(),
    ensures
        file_records(fs.take(k)).len() <= file_records(fs).len(),
        file_records(fs).subrange(0, file_records(fs.take(k)).len() as int) == file_records(
            fs.take(k),
        ),
    decreases fs.len(),
{
    assert(fs.take(fs.len() as int) =~= fs);
    if k < fs.len() {
        let prev = fs.drop_last();
        assert(prev.take(k) =~= fs.take(k));
        lemma_file_records_prefix(prev, k);
        let a = file_records(prev);
        let r = dir_record_bytes(
            entry_name(fs.last()),
            false,
            (21 + data_sectors(prev)) as u32,
            entry_data(fs.last()).len() as u32,
        );
        let n: int = file_records(fs.take(k)).len() as int;
        assert((a + r).subrange(0, n) =~= a.subrange(0, n));
    } else {
        assert(file_records(fs).subrange(0, file_records(fs.take(k)).len() as int) =~= file_records(
            fs,
        ));
    }
}

proof fn lemma_pvd_parts(total: u32, label: Seq<u8>)
    ensures
        pvd_sector(total, label).len() == 2048,
        pvd_sector(total, label).subrange(0, 88) == pvd_identity(total, label),
        pvd_sector(total, label).subrange(156, 190) == self_record(),
        pvd_sector(total, label).subrange(88, 156) == pvd_tables(),
        pvd_sector(total, label).subrange(190, 883) == pvd_texts(),
        pvd_sector(total, label).subrange(883, 2048) == zeros(1165),
{
    lemma_dir_record_len(seq![0u8], true, 20, 2048);
    let f = pvd_fields(total, label);
    let id = pvd_identity(total, label);
    assert(space_padded(label, 32).len() == 32);
    assert(id.len() == 88);
    assert(pvd_tables().len() == 68);
    assert(f.len() == 883);
    lemma_zero_filled(f, 2048);
    let p = pvd_sector(total, label);
    assert(f.subrange(0, 88) =~= id);
    assert(f.subrange(156, 190) =~= self_record());
    assert(p.subrange(0, 88) =~= f.subrange(0, 88));
    assert(p.subrange(156, 190) =~= f.subrange(156, 190));
    assert(f.subrange(88, 156) =~= pvd_tables());
    assert(f.subrange(190, 883) =~= pvd_texts());
    assert(p.subrange(88, 156) =~= f.subrange(88, 156));
    assert(p.subrange(190, 883) =~= f.subrange(190, 883));
    assert(p.subrange(883, 2048) =~= zeros(1165));
}

/// The part of the image before the file contents.
spec fn image_head(fs: Seq<(String, Vec<u8>)>, label: Seq<u8>) -> Seq<u8> {
    zeros(16 * 2048) + pvd_sector(total_sectors(fs) as u32, label) + terminator_sector()
        + zero_filled(path_table_l_entry(), 2048) + zero_filled(path_table_m_entry(), 2048)
        + zero_filled(root_directory(fs), 2048)
}

proof fn lemma_head(fs: Seq<(String, Vec<u8>)>, label: Seq<u8>)
    requires
        root_directory(fs).len() <= 2048,
    ensures
        image_head(fs, label).len() == at(21),
        image_head(fs, label).subrange(0, at(16)) == zeros(16 * 2048),
        iso_image(fs, label) == image_head(fs, label) + file_area(fs),
        image_head(fs, label).subrange(at(16), at(17)) == pvd_sector(
            total_sectors(fs) as u32,
            label,
        ),
        image_head(fs, label).subrange(at(17), at(18)) == terminator_sector(),
        image_head(fs, label).subrange(at(18), at(19)) == zero_filled(
            path_table_l_entry(),
            2048,
        ),
        image_head(fs, label).subrange(at(19), at(20)) == zero_filled(
            path_table_m_entry(),
            2048,
        ),
        image_head(fs, label).subrange(at(20), at(21)) == zero_filled(
            root_directory(fs),
            2048,
        ),
{
    lemma_dir_record_len(seq![0u8], true, 20, 2048);
    assert(pvd_fields(total_sectors(fs) as u32, label).len() == 883);
    lemma_zero_filled(pvd_fields(total_sectors(fs) as u32, label), 2048);
    lemma_zero_filled(seq![255u8] + standard_id() + seq![1u8], 2048);
    lemma_zero_filled(path_table_l_entry(), 2048);
    lemma_zero_filled(path_table_m_entry(), 2048);
    lemma_zero_filled(root_directory(fs), 2048);
    let h = image_head(fs, label);
    assert(h.subrange(0, at(16)) =~= zeros(16 * 2048));
    assert(h.subrange(at(16), at(17)) =~= pvd_sector(total_sectors(fs) as u32, label));
    assert(h.subrange(at(17), at(18)) =~= terminator_sector());
    assert(h.subrange(at(18), at(19)) =~= zero_filled(path_table_l_entry(), 2048));
    assert(h.subrange(at(19), at(20)) =~= zero_filled(path_table_m_entry(), 2048));
    assert(h.subrange(at(20), at(21)) =~= zero_filled(root_directory(fs), 2048));
}

/// An image consists of whole sectors: its length is its sector count times the sector size.
pub proof fn law_image_is_whole_sectors(fs: Seq<(String, Vec<u8>)>, label: Seq<u8>)
    requires
        root_directory(fs).len() <= 2048,
    ensures
        iso_image(fs, label).len() == total_sectors(fs) * 2048,
        iso_image(fs, label).len() % 2048 == 0,
{
    lemma_head(fs, label);
    lemma_file_area_len(fs);
}

/// Sector 16 holds a primary volume descriptor (type 1, `"CD001"`, version 1) and sector 17
/// a volume descriptor set terminator (type 255, `"CD001"`, version 1).
pub proof fn law_volume_descriptors(fs: Seq<(String, Vec<u8>)>, label: Seq<u8>)
    requires
        root_directory(fs).len() <= 2048,
    ensures
        iso_image(fs, label)[at(16)] == 1,
        iso_image(fs, label).subrange(at(16) + 1, at(16) + 6) == standard_id(),
        iso_image(fs, label)[at(16) + 6] == 1,
        iso_image(fs, label)[at(17)] == 255,
        iso_image(fs, label).subrange(at(17) + 1, at(17) + 6) == standard_id(),
        iso_image(fs, label)[at(17) + 6] == 1,
{
    lemma_head(fs, label);
    let img = iso_image(fs, label);
    let h = image_head(fs, label);
    let p = pvd_sector(total_sectors(fs) as u32, label);
    let t = terminator_sector();
    let id = pvd_identity(total_sectors(fs) as u32, label);
    lemma_pvd_parts(total_sectors(fs) as u32, label);
    assert(img.subrange(at(16), at(17)) =~= p);
    assert(img.subrange(at(17), at(18)) =~= t);
    assert(img.subrange(at(16), at(16) + 88) =~= p.subrange(0, 88));
    assert(id[0] == 1);
    assert(id[6] == 1);
    assert(id.subrange(1, 6) =~= standard_id());
    assert(t.subrange(1, 6) =~= standard_id());
    assert(img.subrange(at(16) + 1, at(16) + 6) =~= id.subrange(1, 6));
    assert(img.subrange(at(17) + 1, at(17) + 6) =~= t.subrange(1, 6));
    assert(img[at(16)] == img.subrange(at(16), at(16) + 88)[0]);
    assert(img[at(16) + 6] == img.subrange(at(16), at(16) + 88)[6]);
    assert(img[at(17)] == img.subrange(at(17), at(18))[0]);
    assert(img[at(17) + 6] == img.subrange(at(17), at(18))[6]);
}

/// The volume identifier (bytes 40..72 of the primary volume descriptor) is the label,
/// cut or space-filled to 32 bytes, and the volume space size (bytes 80..88) is the
/// number of sectors of the image.
pub proof fn law_volume_identity(fs: Seq<(String, Vec<u8>)>, label: Seq<u8>)
    requires
        root_directory(fs).len() <= 2048,
    ensures
        iso_image(fs, label).subrange(at(16) + 40, at(16) + 72) == space_padded(label, 32),
        iso_image(fs, label).subrange(at(16) + 80, at(16) + 88) == both32(
            total_sectors(fs) as u32,
        ),
{
    lemma_head(fs, label);
    let img = iso_image(fs, label);
    let p = pvd_sector(total_sectors(fs) as u32, label);
    let id = pvd_identity(total_sectors(fs) as u32, label);
    lemma_pvd_parts(total_sectors(fs) as u32, label);
    assert(img.subrange(at(16), at(17)) =~= p);
    assert(img.subrange(at(16), at(16) + 88) =~= id);
    assert(space_padded(label, 32).len() == 32);
    assert(id.subrange(40, 72) =~= space_padded(label, 32));
    assert(id.subrange(80, 88) =~= both32(total_sectors(fs) as u32));
    assert(img.subrange(at(16) + 40, at(16) + 72) =~= id.subrange(40, 72));
    assert(img.subrange(at(16) + 80, at(16) + 88) =~= id.subrange(80, 88));
}

/// Every way to the root directory leads to sector 20: the root record of the primary
/// volume descriptor (bytes 156..190), both path tables, and the root directory's own
/// first two records, which sector 20 begins with.
pub proof fn law_root_directory_location(fs: Seq<(String, Vec<u8>)>, label: Seq<u8>)
    requires
        root_directory(fs).len() <= 2048,
    ensures
        iso_image(fs, label).subrange(at(16) + 156, at(16) + 190) == dir_record_bytes(
            seq![0u8],
            true,
            20,
            2048,
        ),
        iso_image(fs, label).subrange(at(18) + 2, at(18) + 6) == le32(20),
        iso_image(fs, label).subrange(at(19) + 2, at(19) + 6) == be32(20),
        iso_image(fs, label).subrange(at(20), at(20) + 68) == self_record() + parent_record(),
{
    lemma_head(fs, label);
    lemma_dir_record_len(seq![0u8], true, 20, 2048);
    lemma_dir_record_len(seq![1u8], true, 20, 2048);
    let img = iso_image(fs, label);
    let p = pvd_sector(total_sectors(fs) as u32, label);
    let l = zero_filled(path_table_l_entry(), 2048);
    let m = zero_filled(path_table_m_entry(), 2048);
    let r = zero_filled(root_directory(fs), 2048);
    assert(img.subrange(at(16), at(17)) =~= p);
    assert(img.subrange(at(18), at(19)) =~= l);
    assert(img.subrange(at(19), at(20)) =~= m);
    assert(img.subrange(at(20), at(21)) =~= r);
    lemma_pvd_parts(total_sectors(fs) as u32, label);
    assert(l.subrange(2, 6) =~= le32(20));
    assert(m.subrange(2, 6) =~= be32(20));
    assert(r.subrange(0, 68) =~= self_record() + parent_record());
    assert(img.subrange(at(16) + 156, at(16) + 190) =~= p.subrange(156, 190));
    assert(img.subrange(at(18) + 2, at(18) + 6) =~= l.subrange(2, 6));
    assert(img.subrange(at(19) + 2, at(19) + 6) =~= m.subrange(2, 6));
    assert(img.subrange(at(20), at(20) + 68) =~= r.subrange(0, 68));
}

/// Offset, within the root directory sector, of the record of file `i`.
pub open spec fn record_offset(fs: Seq<(String, Vec<u8>)>, i: int) -> nat {
    68 + file_records(fs.take(i)).len()
}

/// Each file can be read back: its contents stand unchanged at the start of the sector
/// that its directory record names, and the root directory holds that record, with the
/// file's name, its first sector and its length.
pub proof fn law_file_readable(fs: Seq<(String, Vec<u8>)>, label: Seq<u8>, i: int)
    requires
        root_directory(fs).len() <= 2048,
        0 <= i < fs.len(),
    ensures
        file_sector(fs, i) + file_sectors(entry_data(fs[i]).len()) <= total_sectors(fs),
        iso_image(fs, label).subrange(
            (file_sector(fs, i) * 2048) as int,
            (file_sector(fs, i) * 2048 + entry_data(fs[i]).len()) as int,
        ) == entry_data(fs[i]),
        iso_image(fs, label).subrange(
            (file_sector(fs, i) * 2048 + entry_data(fs[i]).len()) as int,
            ((file_sector(fs, i) + file_sectors(entry_data(fs[i]).len())) * 2048) as int,
        ) == zeros((file_sectors(entry_data(fs[i]).len()) * 2048 - entry_data(fs[i]).len()) as nat),
        iso_image(fs, label).subrange(
            at(20) + record_offset(fs, i),
            at(20) + record_offset(fs, i) + dir_record_bytes(
                entry_name(fs[i]),
                false,
                file_sector(fs, i) as u32,
                entry_data(fs[i]).len() as u32,
            ).len() as int,
        ) == dir_record_bytes(
            entry_name(fs[i]),
            false,
            file_sector(fs, i) as u32,
            entry_data(fs[i]).len() as u32,
        ),
{
    lemma_head(fs, label);
    let img = iso_image(fs, label);
    let h = image_head(fs, label);
    let d = entry_data(fs[i]);
    let ds: int = data_sectors(fs.take(i)) as int;
    lemma_data_sectors_step(fs, i);
    lemma_data_sectors_mono(fs, i + 1, fs.len() as int);
    assert(fs.take(fs.len() as int) =~= fs);
    lemma_file_sectors_cover(d.len());
    let z = zero_filled(d, file_sectors(d.len()) * 2048);
    lemma_zero_filled(d, file_sectors(d.len()) * 2048);

    // contents
    lemma_file_area_prefix(fs, i + 1);
    lemma_file_area_len(fs.take(i));
    let fa = file_area(fs);
    let pre = file_area(fs.take(i + 1));
    assert(pre == file_area(fs.take(i)) + z);
    assert(pre.subrange(ds * 2048, ds * 2048 + d.len() as int) =~= d);
    assert(fa.subrange(ds * 2048, ds * 2048 + d.len() as int) =~= pre.subrange(
        ds * 2048,
        ds * 2048 + d.len() as int,
    ));
    assert(img.subrange((file_sector(fs, i) * 2048) as int, (file_sector(fs, i) * 2048 + d.len()) as int)
        =~= fa.subrange(ds * 2048, ds * 2048 + d.len() as int));
    let fsz = (file_sectors(d.len()) * 2048) as int;
    let zl = (file_sectors(d.len()) * 2048 - d.len()) as nat;
    assert(pre.subrange(ds * 2048 + d.len() as int, ds * 2048 + fsz) =~= zeros(zl));
    assert(fa.subrange(ds * 2048 + d.len() as int, ds * 2048 + fsz) =~= pre.subrange(
        ds * 2048 + d.len() as int,
        ds * 2048 + fsz,
    ));
    assert(img.subrange(
        (file_sector(fs, i) * 2048 + d.len()) as int,
        ((file_sector(fs, i) + file_sectors(d.len())) * 2048) as int,
    ) =~= fa.subrange(ds * 2048 + d.len() as int, ds * 2048 + fsz));

    // directory record
    let rec = dir_record_bytes(entry_name(fs[i]), false, file_sector(fs, i) as u32, d.len() as u32);
    lemma_file_records_prefix(fs, i + 1);
    let frs = file_records(fs);
    let fpre = file_records(fs.take(i + 1));
    let off: int = file_records(fs.take(i)).len() as int;
    assert(fpre == file_records(fs.take(i)) + rec);
    assert(fpre.subrange(off, off + rec.len() as int) =~= rec);
    assert(frs.subrange(off, off + rec.len() as int) =~= fpre.subrange(off, off + rec.len() as int));
    lemma_dir_record_len(seq![0u8], true, 20, 2048);
    lemma_dir_record_len(seq![1u8], true, 20, 2048);
    let rd = root_directory(fs);
    assert(rd.subrange(68 + off, 68 + off + rec.len() as int) =~= frs.subrange(
        off as int,
        off + rec.len() as int,
    ));
    let rz = zero_filled(rd, 2048);
    lemma_zero_filled(rd, 2048);
    assert(rz.subrange(68 + off, 68 + off + rec.len() as int) =~= rd.subrange(
        68 + off,
        68 + off + rec.len() as int,
    ));
    assert(img.subrange(at(20), at(21)) =~= rz);
    assert(img.subrange(at(20) + 68 + off, at(20) + 68 + off + rec.len() as int) =~= rz.subrange(
        68 + off,
        68 + off + rec.len() as int,
    ));
}

proof fn lemma_file_records_len(fs: Seq<(String, Vec<u8>)>)
    requires
        forall|i: int| 0 <= i < fs.len() ==> (#[trigger] entry_name(fs[i])).len() <= 14,
    ensures
        file_records(fs).len() <= 48 * fs.len(),
    decreases fs.len(),
{
    if fs.len() > 0 {
        let prev = fs.drop_last();
        assert forall|i: int| 0 <= i < prev.len() implies (#[trigger] entry_name(prev[i])).len() <= 14 by {
            assert(prev[i] == fs[i]);
        }
        lemma_file_records_len(prev);
        assert(entry_name(fs[fs.len() - 1]).len() <= 14);
        lemma_dir_record_len(
            entry_name(fs.last()),
            false,
            (21 + data_sectors(prev)) as u32,
            entry_data(fs.last()).len() as u32,
        );
    }
}

/// A directory of at most 41 files with Level 1 names (at most 14 bytes each) always fits
/// in the root directory sector, so its image can be built.
pub proof fn law_small_directory_fits(fs: Seq<(String, Vec<u8>)>)
    requires
        fs.len() <= 41,
        forall|i: int| 0 <= i < fs.len() ==> (#[trigger] entry_name(fs[i])).len() <= 14,
    ensures
        root_directory(fs).len() <= 2048,
{
    lemma_file_records_len(fs);
    lemma_dir_record_len(seq![0u8], true, 20, 2048);
    lemma_dir_record_len(seq![1u8], true, 20, 2048);
}

/// The sectors before the file contents, each whole: 16 zero sectors of system area, the
/// primary volume descriptor, the set terminator (`255`, `"CD001"`, `1`, then zeros), the
/// two path tables and the root directory (its records, then zeros).
pub proof fn law_image_head_sectors(fs: Seq<(String, Vec<u8>)>, label: Seq<u8>)
    requires
        root_directory(fs).len() <= 2048,
    ensures
        iso_image(fs, label).subrange(0, at(16)) == zeros(16 * 2048),
        iso_image(fs, label).subrange(at(16), at(17)) == pvd_sector(total_sectors(fs) as u32, label),
        iso_image(fs, label).subrange(at(17), at(18)) == zero_filled(
            seq![255u8] + standard_id() + seq![1u8],
            2048,
        ),
        iso_image(fs, label).subrange(at(18), at(19)) == zero_filled(path_table_l_entry(), 2048),
        iso_image(fs, label).subrange(at(19), at(20)) == zero_filled(path_table_m_entry(), 2048),
        iso_image(fs, label).subrange(at(20), at(21)) == zero_filled(
            self_record() + parent_record() + file_records(fs),
            2048,
        ),
{
    lemma_head(fs, label);
    let img = iso_image(fs, label);
    let h = image_head(fs, label);
    assert(img.subrange(0, at(16)) =~= h.subrange(0, at(16)));
    assert(img.subrange(at(16), at(17)) =~= h.subrange(at(16), at(17)));
    assert(img.subrange(at(17), at(18)) =~= h.subrange(at(17), at(18)));
    assert(img.subrange(at(18), at(19)) =~= h.subrange(at(18), at(19)));
    assert(img.subrange(at(19), at(20)) =~= h.subrange(at(19), at(20)));
    assert(img.subrange(at(20), at(21)) =~= h.subrange(at(20), at(21)));
}

/// The primary volume descriptor field by field: bytes 0..88 (type, `"CD001"`, version,
/// blank system identifier, the label, the volume space size), 88..156 (set size 1,
/// sequence number 1, block size 2048, path table size 10 and locations 18 and 19),
/// 156..190 the root directory record, 190..883 (blank and `RS-XORRISO` identifier texts,
/// four unspecified dates, file structure version 1), then zeros.
pub proof fn law_pvd_layout(fs: Seq<(String, Vec<u8>)>, label: Seq<u8>)
    requires
        root_directory(fs).len() <= 2048,
    ensures
        iso_image(fs, label).subrange(at(16), at(16) + 88) == pvd_identity(
            total_sectors(fs) as u32,
            label,
        ),
        iso_image(fs, label).subrange(at(16) + 88, at(16) + 156) == pvd_tables(),
        iso_image(fs, label).subrange(at(16) + 156, at(16) + 190) == self_record(),
        iso_image(fs, label).subrange(at(16) + 190, at(16) + 883) == pvd_texts(),
        iso_image(fs, label).subrange(at(16) + 883, at(17)) == zeros(1165),
{
    lemma_head(fs, label);
    let total = total_sectors(fs) as u32;
    lemma_pvd_parts(total, label);
    let img = iso_image(fs, label);
    let p = pvd_sector(total, label);
    assert(img.subrange(at(16), at(17)) =~= p);
    assert(img.subrange(at(16), at(16) + 88) =~= p.subrange(0, 88));
    assert(img.subrange(at(16) + 88, at(16) + 156) =~= p.subrange(88, 156));
    assert(img.subrange(at(16) + 156, at(16) + 190) =~= p.subrange(156, 190));
    assert(img.subrange(at(16) + 190, at(16) + 883) =~= p.subrange(190, 883));
    assert(img.subrange(at(16) + 883, at(17)) =~= p.subrange(883, 2048));
}

/// The root directory's record of each file (name of at most 221 bytes) reads back as
/// that file: its length byte counts the whole record, its extent field holds the file's
/// first sector, its data-length field the file's length (both as 32-bit numbers, so
/// exactly when they fit), and its identifier is the file's name.
pub proof fn law_file_record_reads_back(fs: Seq<(String, Vec<u8>)>, label: Seq<u8>, i: int)
    requires
        root_directory(fs).len() <= 2048,
        0 <= i < fs.len(),
        entry_name(fs[i]).len() <= 221,
    ensures
        ({
            let img = iso_image(fs, label);
            let off = at(20) + record_offset(fs, i);
            let name = entry_name(fs[i]);
            let len = entry_data(fs[i]).len();
            &&& img[off] == 33 + name.len() + (if name.len() % 2 == 0 {
                1int
            } else {
                0int
            })
            &&& le_value(img[off + 2], img[off + 3], img[off + 4], img[off + 5]) == (file_sector(
                fs,
                i,
            ) as u32)
            &&& le_value(img[off + 10], img[off + 11], img[off + 12], img[off + 13]) == (len as u32)
            &&& len <= u32::MAX ==> le_value(img[off + 10], img[off + 11], img[off + 12], img[off + 13]) == len
            &&& file_sector(fs, i) <= u32::MAX ==> le_value(img[off + 2], img[off + 3], img[off + 4], img[off + 5]) == file_sector(fs, i)
            &&& img.subrange(off + 33, off + 33 + name.len() as int) == name
        }),
{
    law_file_readable(fs, label, i);
    let img = iso_image(fs, label);
    let off = at(20) + record_offset(fs, i);
    let name = entry_name(fs[i]);
    let len = entry_data(fs[i]).len();
    let rec = dir_record_bytes(name, false, file_sector(fs, i) as u32, len as u32);
    law_dir_record_fields(name, false, file_sector(fs, i) as u32, len as u32);
    lemma_head(fs, label);
    lemma_file_records_prefix(fs, i + 1);
    lemma_data_sectors_step(fs, i);
    lemma_dir_record_len(seq![0u8], true, 20, 2048);
    lemma_dir_record_len(seq![1u8], true, 20, 2048);
    assert(off + rec.len() <= at(21));
    assert(img.len() >= at(21));
    let sub = img.subrange(off, off + rec.len() as int);
    assert(sub == rec);
    assert(img[off] == sub[0]);
    assert(img[off + 2] == sub[2] && img[off + 3] == sub[3] && img[off + 4] == sub[4] && img[off + 5] == sub[5]);
    assert(img[off + 10] == sub[10] && img[off + 11] == sub[11] && img[off + 12] == sub[12] && img[off + 13] == sub[13]);
    assert(img.subrange(off + 33, off + 33 + name.len() as int) =~= rec.subrange(33, 33 + name.len() as int));
}

/// A file of `len` bytes takes the fewest whole sectors that hold it, and at least one.
pub proof fn law_file_sectors_least(len: nat)
    ensures
        file_sectors(len) >= 1,
        file_sectors(len) * 2048 >= len,
        len > 0 ==> (file_sectors(len) - 1) * 2048 < len,
        len == 0 ==> file_sectors(len) == 1,
{
    lemma_file_sectors_cover(len);
}

/// An image can be built exactly when its sector count fits the 32-bit sector fields
/// (at most 4294967295) and its size in bytes fits in memory (`usize`); nothing smaller
/// is refused.
pub proof fn law_image_fits_exactly(fs: Seq<(String, Vec<u8>)>)
    ensures
        image_fits(fs) <==> (total_sectors(fs) <= 4294967295 && total_sectors(fs) * 2048
            <= usize::MAX),
{
}

/// The bytes `"RS-XORRISO"`.
pub open spec fn rs_xorriso() -> Seq<u8> {
    seq![82u8, 83u8, 45u8, 88u8, 79u8, 82u8, 82u8, 73u8, 83u8, 79u8]
}

/// The first 88 bytes of the primary volume descriptor, byte by byte: type 1, `"CD001"`,
/// version 1, a zero, 32 blanks (system identifier), the label cut or blank-filled to 32
/// bytes, 8 zeros, then the volume space size little-endian and big-endian.
pub proof fn law_pvd_identity_bytes(total: u32, label: Seq<u8>)
    ensures
        ({
            let id = pvd_identity(total, label);
            &&& id.len() == 88
            &&& id[0] == 1
            &&& id.subrange(1, 6) == seq![67u8, 68u8, 48u8, 48u8, 49u8]
            &&& id[6] == 1 && id[7] == 0
            &&& forall|k: int| 8 <= k < 40 ==> #[trigger] id[k] == 32
            &&& forall|k: int|
                40 <= k < 72 ==> #[trigger] id[k] == (if k - 40 < label.len() {
                    label[k - 40]
                } else {
                    32u8
                })
            &&& forall|k: int| 72 <= k < 80 ==> #[trigger] id[k] == 0
            &&& le_value(id[80], id[81], id[82], id[83]) == total
            &&& id[84] == id[83] && id[85] == id[82] && id[86] == id[81] && id[87] == id[80]
        }),
{
    law_both32_decodes(total);
    let id = pvd_identity(total, label);
    let lab = space_padded(label, 32);
    assert(lab.len() == 32);
    assert(id.subrange(1, 6) =~= seq![67u8, 68u8, 48u8, 48u8, 49u8]);
    assert forall|k: int| 40 <= k < 72 implies #[trigger] id[k] == (if k - 40 < label.len() {
        label[k - 40]
    } else {
        32u8
    }) by {
        assert(id[k] == lab[k - 40]);
    }
    let b = both32(total);
    assert(id[80] == b[0] && id[81] == b[1] && id[82] == b[2] && id[83] == b[3]);
    assert(id[84] == b[4] && id[85] == b[5] && id[86] == b[6] && id[87] == b[7]);
    assert(b[4int + 0] == b[3int - 0] && b[4int + 1] == b[3int - 1] && b[4int + 2] == b[3int - 2]
        && b[4int + 3] == b[3int - 3]);
}

/// Bytes 88..156 of the primary volume descriptor: 32 zeros, then volume set size 1,
/// volume sequence number 1, block size 2048 (each both-endian 16-bit), path table size 10
/// (both-endian 32-bit), type-L path table at 18 (little-endian) with no optional table,
/// type-M path table at 19 (big-endian) with no optional table.
pub proof fn law_pvd_tables_bytes()
    ensures
        pvd_tables().len() == 68,
        forall|k: int| 0 <= k < 32 ==> #[trigger] pvd_tables()[k] == 0,
        pvd_tables().subrange(32, 68) == seq![
            1u8, 0, 0, 1, 1, 0, 0, 1, 0, 8, 8, 0, 10, 0, 0, 0, 0, 0, 0, 10, 18, 0, 0, 0, 0, 0, 0,
            0, 0, 0, 0, 19, 0, 0, 0, 0,
        ],
{
    assert(pvd_tables().subrange(32, 68) =~= seq![
        1u8, 0, 0, 1, 1, 0, 0, 1, 0, 8, 8, 0, 10, 0, 0, 0, 0, 0, 0, 10, 18, 0, 0, 0, 0, 0, 0,
        0, 0, 0, 0, 19, 0, 0, 0, 0,
    ]);
}

/// Bytes 190..883 of the primary volume descriptor: a blank volume set identifier,
/// `"RS-XORRISO"` as publisher, a blank data preparer, `"RS-XORRISO"` as application (each
/// 128 bytes, blank-filled), three blank 37-byte file identifiers, four dates of sixteen
/// `'0'` digits and a zero offset, file structure version 1 and a reserved zero.
pub proof fn law_pvd_texts_bytes()
    ensures
        ({
            let t = pvd_texts();
            &&& t.len() == 693
            &&& forall|k: int| 0 <= k < 128 ==> #[trigger] t[k] == 32
            &&& t.subrange(128, 138) == rs_xorriso()
            &&& forall|k: int| 138 <= k < 384 ==> #[trigger] t[k] == 32
            &&& t.subrange(384, 394) == rs_xorriso()
            &&& forall|k: int| 394 <= k < 623 ==> #[trigger] t[k] == 32
            &&& forall|k: int| 623 <= k < 691 ==> #[trigger] t[k] == (if (k - 623) % 17 == 16 {
                0u8
            } else {
                48u8
            })
            &&& t[691] == 1
            &&& t[692] == 0
        }),
{
    let t = pvd_texts();
    let w = space_padded(writer_id(), 128);
    assert(w.len() == 128);
    assert(w.subrange(0, 10) =~= rs_xorriso());
    assert forall|k: int| 10 <= k < 128 implies #[trigger] w[k] == 32 by {
    }
    assert(t.subrange(128, 138) =~= rs_xorriso()) by {
        assert forall|k: int| 0 <= k < 10 implies #[trigger] t.subrange(128, 138)[k] == rs_xorriso()[k] by {
            assert(t[128 + k] == w[k]);
        }
    }
    assert(t.subrange(384, 394) =~= rs_xorriso()) by {
        assert forall|k: int| 0 <= k < 10 implies #[trigger] t.subrange(384, 394)[k] == rs_xorriso()[k] by {
            assert(t[384 + k] == w[k]);
        }
    }
    assert forall|k: int| 138 <= k < 384 implies #[trigger] t[k] == 32 by {
        if k < 256 {
            assert(t[k] == w[k - 128]);
        }
    }
    assert forall|k: int| 394 <= k < 623 implies #[trigger] t[k] == 32 by {
        if k < 512 {
            assert(t[k] == w[k - 384]);
        }
    }
    assert forall|k: int| 623 <= k < 691 implies #[trigger] t[k] == (if (k - 623) % 17 == 16 {
        0u8
    } else {
        48u8
    }) by {
        let dt = unspecified_datetime();
        assert(t[k] == dt[(k - 623) % 17]);
    }
}

/// The terminator sector, the two path table sectors and the system area byte by byte.
pub proof fn law_fixed_sector_bytes()
    ensures
        terminator_sector().len() == 2048,
        terminator_sector().subrange(0, 7) == seq![255u8, 67, 68, 48, 48, 49, 1],
        forall|k: int| 7 <= k < 2048 ==> #[trigger] terminator_sector()[k] == 0,
        zero_filled(path_table_l_entry(), 2048).len() == 2048,
        zero_filled(path_table_l_entry(), 2048).subrange(0, 10) == seq![1u8, 0, 20, 0, 0, 0, 1, 0, 0, 0],
        forall|k: int| 10 <= k < 2048 ==> #[trigger] zero_filled(path_table_l_entry(), 2048)[k] == 0,
        zero_filled(path_table_m_entry(), 2048).len() == 2048,
        zero_filled(path_table_m_entry(), 2048).subrange(0, 10) == seq![1u8, 0, 0, 0, 0, 20, 0, 1, 0, 0],
        forall|k: int| 10 <= k < 2048 ==> #[trigger] zero_filled(path_table_m_entry(), 2048)[k] == 0,
        forall|k: int| 0 <= k < 16 * 2048 ==> #[trigger] zeros(16 * 2048)[k] == 0,
{
    assert(terminator_sector().subrange(0, 7) =~= seq![255u8, 67, 68, 48, 48, 49, 1]);
    assert(zero_filled(path_table_l_entry(), 2048).subrange(0, 10) =~= seq![1u8, 0, 20, 0, 0, 0, 1, 0, 0, 0]);
    assert(zero_filled(path_table_m_entry(), 2048).subrange(0, 10) =~= seq![1u8, 0, 0, 0, 0, 20, 0, 1, 0, 0]);
}

} // verus!
