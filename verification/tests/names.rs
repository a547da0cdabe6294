use lib::entries::{bytes_less, check_image_fits, prepare_entries, sort_entries};
use lib::name::{iso_name_from_upper, sanitize_iso_name};

#[test]
fn sanitize_replaces_and_keeps_characters() {
    assert_eq!(sanitize_iso_name("a.b.c"), "A_B.C;1");
    assert_eq!(sanitize_iso_name("file."), "FILE;1");
    assert_eq!(sanitize_iso_name("archive.tar.gz"), "ARCHIVE_.GZ;1");
    assert_eq!(sanitize_iso_name("v1.2.3"), "V1_2.3;1");
    assert_eq!(sanitize_iso_name("photo.jpeg"), "PHOTO.JPE;1");
    assert_eq!(sanitize_iso_name("x y+z"), "X_Y_Z;1");
    assert_eq!(sanitize_iso_name(""), ";1");
    assert_eq!(sanitize_iso_name(".hidden"), ".HID;1");
}

#[test]
fn converting_a_converted_name_gives_it_back() {
    for name in ["my-song.mp3", "a.b.c", "archive.tar.gz", "README", "file.", ".hidden"] {
        let r = sanitize_iso_name(name);
        let body = &r[..r.len() - 2];
        assert_eq!(sanitize_iso_name(body), r);
    }
}

#[test]
fn sanitize_uses_unicode_upper_case() {
    // 'ß' upper-cases to "SS"; 'é' to 'É', which is not ASCII and becomes '_'.
    assert_eq!(sanitize_iso_name("ß.txt"), "SS.TXT;1");
    assert_eq!(sanitize_iso_name("é.txt"), "_.TXT;1");
}

#[test]
fn name_from_upper_does_not_change_case() {
    // Only upper-case letters are d-characters.
    assert_eq!(iso_name_from_upper("abc.txt"), "___.___;1");
    assert_eq!(iso_name_from_upper("LONGNAME123.TEXT"), "LONGNAME.TEX;1");
}

#[test]
fn byte_order_of_names() {
    assert!(bytes_less(b"A", b"B"));
    assert!(!bytes_less(b"B", b"A"));
    assert!(bytes_less(b"A", b"AB"));
    assert!(!bytes_less(b"AB", b"AB"));
    assert!(bytes_less(b"A.B;1", b"A;1"));
    assert!(bytes_less(b"0", b"A"));
    assert!(bytes_less(b"Z", b"_"));
}

#[test]
fn sort_is_by_bytes_and_stable() {
    let mut v = vec![
        ("_.TXT;1".to_string(), vec![1u8]),
        ("A.TXT;1".to_string(), vec![2u8]),
        ("0.TXT;1".to_string(), vec![3u8]),
        ("A.TXT;1".to_string(), vec![4u8]),
    ];
    sort_entries(&mut v);
    let names: Vec<&str> = v.iter().map(|e| e.0.as_str()).collect();
    assert_eq!(names, vec!["0.TXT;1", "A.TXT;1", "A.TXT;1", "_.TXT;1"]);
    let data: Vec<u8> = v.iter().map(|e| e.1[0]).collect();
    assert_eq!(data, vec![3, 2, 4, 1]);
}

#[test]
fn prepare_renames_then_sorts() {
    let entries = vec![
        ("b.txt".to_string(), vec![1u8]),
        ("A.txt".to_string(), vec![2u8]),
        ("a.txt".to_string(), vec![3u8]),
    ];
    let files = prepare_entries(entries);
    let names: Vec<&str> = files.iter().map(|e| e.0.as_str()).collect();
    assert_eq!(names, vec!["A.TXT;1", "A.TXT;1", "B.TXT;1"]);
    let data: Vec<u8> = files.iter().map(|e| e.1[0]).collect();
    assert_eq!(data, vec![2, 3, 1]);
}

#[test]
fn small_images_fit() {
    let files = vec![("A;1".to_string(), vec![0u8; 10])];
    assert!(check_image_fits(&files));
    let none: Vec<(String, Vec<u8>)> = vec![];
    assert!(check_image_fits(&none));
}

#[test]
fn prepared_directory_of_41_long_names_builds() {
    let entries: Vec<(String, Vec<u8>)> =
        (0..41).map(|i| (format!("verylongfilename{:02}.text", i), vec![i as u8])).collect();
    let files = prepare_entries(entries);
    assert!(files.iter().all(|e| e.0 == "VERYLONG.TEX;1"));
    assert!(check_image_fits(&files));
    let image = lib::image::build_image(&files, "LONG").unwrap();
    assert_eq!(image.len(), (21 + 41) * 2048);
    assert_eq!(image[21 * 2048], 0);
    assert_eq!(image[61 * 2048], 40);
}
