use lib::bytes::{both_endian_16, both_endian_32, ceil_sectors, pad_str, unspecified_datetime17, SECTOR_SIZE};
use lib::image::{build_image, ImageError};
use lib::record::{write_dir_record, DirRecord};

fn two_files() -> Vec<(String, Vec<u8>)> {
    vec![
        ("A.TXT;1".to_string(), vec![1u8; 5000]),
        ("B.TXT;1".to_string(), b"xyz".to_vec()),
    ]
}

#[test]
fn both_endian_fields() {
    let mut b = vec![9u8];
    both_endian_32(&mut b, 0x0102_0304);
    assert_eq!(b, vec![9, 4, 3, 2, 1, 1, 2, 3, 4]);
    let mut c = Vec::new();
    both_endian_16(&mut c, 0x0102);
    assert_eq!(c, vec![2, 1, 1, 2]);
}

#[test]
fn ceil_sectors_rounds_up() {
    assert_eq!(ceil_sectors(0), 0);
    assert_eq!(ceil_sectors(1), 1);
    assert_eq!(ceil_sectors(2048), 1);
    assert_eq!(ceil_sectors(2049), 2);
    assert_eq!(ceil_sectors(5000), 3);
}

#[test]
fn pad_str_cuts_or_fills_with_spaces() {
    assert_eq!(pad_str("AB", 4), b"AB  ".to_vec());
    assert_eq!(pad_str("ABCDEF", 3), b"ABC".to_vec());
    assert_eq!(pad_str("", 2), b"  ".to_vec());
    assert_eq!(pad_str("é", 3), vec![0xC3, 0xA9, b' ']);
}

#[test]
fn unspecified_datetime_is_sixteen_zero_digits() {
    let d = unspecified_datetime17();
    assert_eq!(&d[..16], b"0000000000000000");
    assert_eq!(d[16], 0);
}

#[test]
fn dir_record_with_odd_identifier_has_no_padding() {
    let mut b = Vec::new();
    let rec = DirRecord { identifier: b"A.TXT;1".to_vec(), is_directory: false, extent_sector: 21, data_length: 5000 };
    write_dir_record(&mut b, &rec);
    assert_eq!(b.len(), 40);
    assert_eq!(b[0], 40);
    assert_eq!(&b[2..10], &[21, 0, 0, 0, 0, 0, 0, 21]);
    assert_eq!(&b[10..18], &[0x88, 0x13, 0, 0, 0, 0, 0x13, 0x88]);
    assert_eq!(b[25], 0);
    assert_eq!(&b[28..32], &[1, 0, 0, 1]);
    assert_eq!(b[32], 7);
    assert_eq!(&b[33..40], b"A.TXT;1");
}

#[test]
fn dir_record_with_even_identifier_is_padded() {
    let mut b = Vec::new();
    let rec = DirRecord { identifier: vec![0u8], is_directory: true, extent_sector: 20, data_length: 2048 };
    write_dir_record(&mut b, &rec);
    assert_eq!(b.len(), 34);
    assert_eq!(b[0], 34);
    assert_eq!(b[25], 2);
    let mut c = Vec::new();
    let rec2 = DirRecord { identifier: b"AB.TXT;1".to_vec(), is_directory: false, extent_sector: 1, data_length: 0 };
    write_dir_record(&mut c, &rec2);
    assert_eq!(c.len(), 42);
    assert_eq!(c[0], 42);
    assert_eq!(c[41], 0);
}

#[test]
fn file_contents_stand_at_their_sectors() {
    let image = build_image(&two_files(), "VOL").unwrap();
    // A: 5000 bytes -> sectors 21..24; B: sector 24; 25 sectors in all.
    assert_eq!(image.len(), 25 * SECTOR_SIZE);
    assert!(image[21 * SECTOR_SIZE..21 * SECTOR_SIZE + 5000].iter().all(|&b| b == 1));
    assert!(image[21 * SECTOR_SIZE + 5000..24 * SECTOR_SIZE].iter().all(|&b| b == 0));
    assert_eq!(&image[24 * SECTOR_SIZE..24 * SECTOR_SIZE + 3], b"xyz");
    assert!(image[24 * SECTOR_SIZE + 3..].iter().all(|&b| b == 0));
    assert!(image[..16 * SECTOR_SIZE].iter().all(|&b| b == 0));
}

#[test]
fn root_directory_lists_files_with_sector_and_length() {
    let image = build_image(&two_files(), "VOL").unwrap();
    let root = &image[20 * SECTOR_SIZE..21 * SECTOR_SIZE];
    // "." and ".." records, 34 bytes each, pointing at sector 20.
    assert_eq!(root[0], 34);
    assert_eq!(&root[2..10], &[20, 0, 0, 0, 0, 0, 0, 20]);
    assert_eq!(root[33], 0);
    assert_eq!(root[34], 34);
    assert_eq!(root[34 + 33], 1);
    // A.TXT;1 at offset 68: sector 21, length 5000.
    let a = &root[68..108];
    assert_eq!(a[0], 40);
    assert_eq!(&a[2..10], &[21, 0, 0, 0, 0, 0, 0, 21]);
    assert_eq!(&a[10..18], &[0x88, 0x13, 0, 0, 0, 0, 0x13, 0x88]);
    assert_eq!(&a[33..40], b"A.TXT;1");
    // B.TXT;1 at offset 108: sector 24, length 3.
    let b = &root[108..148];
    assert_eq!(&b[2..10], &[24, 0, 0, 0, 0, 0, 0, 24]);
    assert_eq!(&b[10..18], &[3, 0, 0, 0, 0, 0, 0, 3]);
    assert_eq!(&b[33..40], b"B.TXT;1");
    assert!(root[148..].iter().all(|&x| x == 0));
}

#[test]
fn path_tables_point_at_root_directory() {
    let image = build_image(&two_files(), "VOL").unwrap();
    assert_eq!(&image[18 * SECTOR_SIZE..18 * SECTOR_SIZE + 10], &[1, 0, 20, 0, 0, 0, 1, 0, 0, 0]);
    assert_eq!(&image[19 * SECTOR_SIZE..19 * SECTOR_SIZE + 10], &[1, 0, 0, 0, 0, 20, 0, 1, 0, 0]);
}

#[test]
fn primary_volume_descriptor_fields() {
    let image = build_image(&two_files(), "VOL").unwrap();
    let pvd = &image[16 * SECTOR_SIZE..17 * SECTOR_SIZE];
    assert_eq!(pvd[0], 1);
    assert_eq!(pvd[6], 1);
    assert!(pvd[8..40].iter().all(|&b| b == b' '));
    assert_eq!(&pvd[40..72], b"VOL                             ");
    assert_eq!(&pvd[80..88], &[25, 0, 0, 0, 0, 0, 0, 25]);
    assert_eq!(&pvd[120..124], &[1, 0, 0, 1]);
    assert_eq!(&pvd[128..132], &[0, 8, 8, 0]);
    assert_eq!(&pvd[132..140], &[10, 0, 0, 0, 0, 0, 0, 10]);
    assert_eq!(&pvd[140..144], &[18, 0, 0, 0]);
    assert_eq!(&pvd[148..152], &[0, 0, 0, 19]);
    assert_eq!(pvd[156], 34);
    assert_eq!(&pvd[158..166], &[20, 0, 0, 0, 0, 0, 0, 20]);
    assert_eq!(&pvd[318..328], b"RS-XORRISO");
    assert_eq!(&pvd[574..584], b"RS-XORRISO");
    assert_eq!(&pvd[813..829], b"0000000000000000");
    assert_eq!(pvd[829], 0);
    assert_eq!(pvd[881], 1);
    assert!(pvd[882..].iter().all(|&b| b == 0));
}

#[test]
fn terminator_sector_layout() {
    let image = build_image(&two_files(), "VOL").unwrap();
    let term = &image[17 * SECTOR_SIZE..18 * SECTOR_SIZE];
    assert_eq!(&term[..7], &[255, b'C', b'D', b'0', b'0', b'1', 1]);
    assert!(term[7..].iter().all(|&b| b == 0));
}

#[test]
fn long_label_is_cut_to_32_bytes() {
    let files: Vec<(String, Vec<u8>)> = vec![];
    let image = build_image(&files, "ABCDEFGHIJKLMNOPQRSTUVWXYZ0123456789").unwrap();
    assert_eq!(&image[16 * SECTOR_SIZE + 40..16 * SECTOR_SIZE + 72], b"ABCDEFGHIJKLMNOPQRSTUVWXYZ012345");
    assert_eq!(image.len(), 21 * SECTOR_SIZE);
}

#[test]
fn empty_file_takes_one_sector() {
    let files = vec![("E;1".to_string(), Vec::new()), ("F;1".to_string(), vec![7u8])];
    let image = build_image(&files, "V").unwrap();
    assert_eq!(image.len(), 23 * SECTOR_SIZE);
    assert_eq!(image[22 * SECTOR_SIZE], 7);
}

#[test]
fn too_many_files_for_one_directory_sector_is_refused() {
    // Each "Fnnnnn.TXT;1"-like 11-byte name makes a 44-byte record: 68 + 45 * 44 == 2048.
    let fits: Vec<(String, Vec<u8>)> = (0..45).map(|i| (format!("F{:04}.TX;1", i), vec![])).collect();
    assert!(build_image(&fits, "V").is_ok());
    let too_many: Vec<(String, Vec<u8>)> = (0..46).map(|i| (format!("F{:04}.TX;1", i), vec![])).collect();
    assert_eq!(build_image(&too_many, "V").unwrap_err(), ImageError::RootDirectoryTooLarge);
}
