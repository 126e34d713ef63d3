use gthr::classify::{
    extension, get_utf8_char_length, is_likely_text, is_text_by_content, is_text_by_extension, is_text_file,
};

#[test]
fn extension_rules() {
    assert_eq!(extension("main.rs"), Some("rs".to_string()));
    assert_eq!(extension("a.tar.gz"), Some("gz".to_string()));
    assert_eq!(extension(".gitignore"), None);
    assert_eq!(extension("README"), None);
    assert_eq!(extension(".."), None);
}

#[test]
fn text_by_name() {
    assert!(is_text_by_extension("src/main.rs"));
    assert!(is_text_by_extension("/x/Cargo.TOML"));
    assert!(is_text_by_extension("/x/README"));
    assert!(is_text_by_extension("/x/Makefile"));
    assert!(!is_text_by_extension("/x/image.png"));
    assert!(!is_text_by_extension("/x/data.bin"));
    assert!(!is_text_by_extension("/x/.gitignore"));
}

#[test]
fn utf8_lengths() {
    assert_eq!(get_utf8_char_length(b'a'), Some(1));
    assert_eq!(get_utf8_char_length(0xC3), Some(2));
    assert_eq!(get_utf8_char_length(0xE2), Some(3));
    assert_eq!(get_utf8_char_length(0xF0), Some(4));
    assert_eq!(get_utf8_char_length(0x80), None);
    assert_eq!(get_utf8_char_length(0xFF), None);
}

#[test]
fn nul_byte_is_not_text() {
    assert!(!is_likely_text(b"hello\0world"));
    assert!(!is_text_by_content(b"plain text with a \0 inside"));
}

#[test]
fn empty_sample_is_not_text() {
    assert!(!is_likely_text(b""));
    assert!(!is_text_by_content(b""));
}

#[test]
fn only_leading_bytes_are_inspected() {
    let mut data = vec![b'a'; 9000];
    data[8500] = 0;
    assert!(is_text_by_content(&data));
    data[100] = 0;
    assert!(!is_text_by_content(&data));
}

#[test]
fn ninety_five_percent_threshold() {
    let mut ok = vec![b'x'; 19];
    ok.push(0x01);
    assert!(is_likely_text(&ok));
    let mut bad = vec![b'x'; 18];
    bad.push(0x01);
    bad.push(0x02);
    assert!(!is_likely_text(&bad));
}

#[test]
fn utf8_sequences_count_as_printable() {
    assert!(is_likely_text("héllo wörld – ünïcode".as_bytes()));
    let mut broken = vec![0xC3u8; 10];
    broken.extend_from_slice(b"ab");
    assert!(!is_likely_text(&broken));
}

#[test]
fn known_signature_is_not_text() {
    let png = [0x89u8, b'P', b'N', b'G', 0x0D, 0x0A, 0x1A, 0x0A, b'a', b'b', b'c'];
    assert!(!is_text_by_content(&png));
    assert!(is_text_by_content(b"just some words\n"));
}

#[test]
fn name_check_comes_first() {
    assert!(is_text_file("/x/main.rs", b"\0\0\0"));
    assert!(is_text_file("/x/notes", b"plain words"));
    assert!(!is_text_file("/x/blob", b"\0\0\0"));
}
