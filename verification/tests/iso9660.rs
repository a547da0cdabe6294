use lib::bytes::SECTOR_SIZE;
use lib::image::build_image;
use lib::name::sanitize_iso_name;

#[test]
fn sanitizes_long_names_to_8_3() {
    assert_eq!(sanitize_iso_name("my-song.mp3"), "MY_SONG.MP3;1");
    assert_eq!(sanitize_iso_name("verylongfilename.txt"), "VERYLONG.TXT;1");
    assert_eq!(sanitize_iso_name("README"), "README;1");
}

#[test]
fn image_has_valid_cd001_magic_at_pvd_and_terminator() {
    let files = vec![("HELLO.TXT;1".to_string(), b"hello world".to_vec())];
    let image = build_image(&files, "TESTVOL").unwrap();
    assert_eq!(&image[16 * SECTOR_SIZE + 1..16 * SECTOR_SIZE + 6], b"CD001");
    assert_eq!(&image[17 * SECTOR_SIZE + 1..17 * SECTOR_SIZE + 6], b"CD001");
    assert_eq!(image[17 * SECTOR_SIZE], 255);
}

#[test]
fn image_length_is_whole_number_of_sectors() {
    let files = vec![("A.TXT;1".to_string(), vec![1u8; 5000])];
    let image = build_image(&files, "TESTVOL").unwrap();
    assert_eq!(image.len() % SECTOR_SIZE, 0);
}

#[test]
fn volume_identifier_is_embedded_in_pvd() {
    let files: Vec<(String, Vec<u8>)> = vec![];
    let image = build_image(&files, "MAKE_DISK").unwrap();
    let pvd = &image[16 * SECTOR_SIZE..17 * SECTOR_SIZE];
    let vol_id = &pvd[40..72];
    assert!(String::from_utf8_lossy(vol_id).starts_with("MAKE_DISK"));
}
