use logflat::extract::{convert_zip, ConvertError, Entry};
use logflat::extract::render_zip_entries;
use std::io::{Cursor, Write};
use zip::write::SimpleFileOptions;
use zip::ZipWriter;

fn zip_bytes(files: &[(&str, &[u8])], dirs: &[&str]) -> Vec<u8> {
    let mut writer = ZipWriter::new(Cursor::new(Vec::new()));
    for dir in dirs {
        writer.add_directory(*dir, SimpleFileOptions::default()).unwrap();
    }
    for (name, data) in files {
        writer.start_file(*name, SimpleFileOptions::default()).unwrap();
        writer.write_all(data).unwrap();
    }
    writer.finish().unwrap().into_inner()
}

#[test]
fn zip_flattens_nested_paths() {
    let bytes = zip_bytes(&[("deep/nested/one.log", b"first"), ("other/two.log", b"second")], &[]);
    let out = convert_zip(&bytes).unwrap();
    assert_eq!(out, b"first\nsecond\n");
}

#[test]
fn zip_directory_only_archive_gives_empty_output() {
    let bytes = zip_bytes(&[], &["only/a/dir/"]);
    let out = convert_zip(&bytes).unwrap();
    assert_eq!(out, b"");
}

#[test]
fn zip_one_terminator_per_entry_not_per_line() {
    let bytes = zip_bytes(&[("a.txt", b"a"), ("b.txt", b"b")], &[]);
    let out = convert_zip(&bytes).unwrap();
    assert_eq!(out, b"a\nb\n");
}

#[test]
fn zip_copies_multi_line_content_verbatim() {
    let bytes = zip_bytes(&[("a.txt", b"one\ntwo\nthree")], &[]);
    let out = convert_zip(&bytes).unwrap();
    assert_eq!(out, b"one\ntwo\nthree\n");
}

#[test]
fn zip_keeps_invalid_utf8_bytes() {
    let bytes = zip_bytes(&[("a.bin", &[0xff, 0xfe])], &[]);
    let out = convert_zip(&bytes).unwrap();
    assert_eq!(out, &[0xff, 0xfe, b'\n']);
}

#[test]
fn zip_empty_archive_gives_empty_output() {
    let bytes = zip_bytes(&[], &[]);
    let out = convert_zip(&bytes).unwrap();
    assert_eq!(out, b"");
}

#[test]
fn zip_rerun_gives_identical_bytes() {
    let bytes = zip_bytes(&[("x/y.log", b"alpha\nbeta")], &[]);
    let first = convert_zip(&bytes).unwrap();
    let second = convert_zip(&bytes).unwrap();
    assert_eq!(first, second);
}

#[test]
fn zip_symlink_member_is_skipped() {
    let mut writer = ZipWriter::new(Cursor::new(Vec::new()));
    writer
        .add_symlink("link", "target", SimpleFileOptions::default())
        .unwrap();
    writer.start_file("real.txt", SimpleFileOptions::default()).unwrap();
    writer.write_all(b"kept").unwrap();
    let bytes = writer.finish().unwrap().into_inner();
    let out = convert_zip(&bytes).unwrap();
    assert_eq!(out, b"kept\n");
}

#[test]
fn corrupt_member_body_is_fatal() {
    let options = SimpleFileOptions::default()
        .compression_method(zip::CompressionMethod::Stored);
    let mut writer = ZipWriter::new(Cursor::new(Vec::new()));
    writer.start_file("a.txt", options).unwrap();
    writer.write_all(b"stored-payload").unwrap();
    let mut bytes = writer.finish().unwrap().into_inner();
    // flip one byte of the stored member data so its checksum no longer holds
    let at = bytes
        .windows(b"stored-payload".len())
        .position(|w| w == b"stored-payload")
        .unwrap();
    bytes[at] ^= 0xff;
    let r = convert_zip(&bytes);
    assert_eq!(r, Err(ConvertError::MalformedZip));
}

#[test]
fn corrupt_zip_is_fatal() {
    let r = convert_zip(b"this is not a zip archive");
    assert_eq!(r, Err(ConvertError::MalformedZip));
}

#[test]
fn render_zip_entries_filters_non_files() {
    let entries = vec![
        Entry { is_file: false, data: b"ignored".to_vec() },
        Entry { is_file: true, data: b"kept".to_vec() },
    ];
    let out = render_zip_entries(&entries);
    assert_eq!(out, b"kept\n");
}
