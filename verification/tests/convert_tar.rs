use flate2::write::GzEncoder;
use flate2::Compression;
use logflat::extract::{convert_tar_gz, ConvertError, Entry};
use logflat::extract::render_tar_entries;
use logflat::text::render_text;
use tar::{Builder, EntryType, Header};

fn tar_gz_bytes(members: &[(&str, EntryType, &[u8])]) -> Vec<u8> {
    let enc = GzEncoder::new(Vec::new(), Compression::default());
    let mut builder = Builder::new(enc);
    for (path, ty, data) in members {
        let mut header = Header::new_gnu();
        header.set_entry_type(*ty);
        header.set_size(data.len() as u64);
        header.set_mode(0o644);
        header.set_cksum();
        builder.append_data(&mut header, *path, *data).unwrap();
    }
    builder.into_inner().unwrap().finish().unwrap()
}

#[test]
fn tar_flattens_nested_paths() {
    let bytes = tar_gz_bytes(&[
        ("deep/nested/dir/one.log", EntryType::Regular, b"first\n"),
        ("other/two.log", EntryType::Regular, b"second\n"),
    ]);
    let out = convert_tar_gz(&bytes).unwrap();
    assert_eq!(out, b"first\nsecond\n");
}

#[test]
fn tar_directory_only_archive_gives_empty_output() {
    let bytes = tar_gz_bytes(&[("lonely/dir/", EntryType::Directory, b"")]);
    let out = convert_tar_gz(&bytes).unwrap();
    assert_eq!(out, b"");
}

#[test]
fn tar_skips_non_file_members_keeps_files() {
    let bytes = tar_gz_bytes(&[
        ("d/", EntryType::Directory, b""),
        ("d/a.log", EntryType::Regular, b"kept\n"),
    ]);
    let out = convert_tar_gz(&bytes).unwrap();
    assert_eq!(out, b"kept\n");
}

#[test]
fn tar_drops_invalid_utf8_lines_only() {
    let mut content: Vec<u8> = Vec::new();
    content.extend_from_slice(b"good one\n");
    content.extend_from_slice(&[0xff, 0xfe, b'\n']);
    content.extend_from_slice(b"good two\n");
    content.extend_from_slice(&[0xc0, b'\n']);
    let bytes = tar_gz_bytes(&[("a.log", EntryType::Regular, &content)]);
    let out = convert_tar_gz(&bytes).unwrap();
    let line_count = out.iter().filter(|b| **b == b'\n').count();
    assert_eq!(line_count, 2);
    assert_eq!(out, b"good one\ngood two\n");
}

#[test]
fn tar_empty_archive_gives_empty_output() {
    let bytes = tar_gz_bytes(&[]);
    let out = convert_tar_gz(&bytes).unwrap();
    assert_eq!(out, b"");
}

#[test]
fn tar_final_line_without_terminator_is_terminated() {
    let bytes = tar_gz_bytes(&[("a.log", EntryType::Regular, b"one\ntwo")]);
    let out = convert_tar_gz(&bytes).unwrap();
    assert_eq!(out, b"one\ntwo\n");
}

#[test]
fn tar_crlf_terminator_loses_carriage_return() {
    let bytes = tar_gz_bytes(&[("a.log", EntryType::Regular, b"one\r\ntwo\r\n")]);
    let out = convert_tar_gz(&bytes).unwrap();
    assert_eq!(out, b"one\ntwo\n");
}

#[test]
fn tar_final_carriage_return_without_newline_is_kept() {
    let bytes = tar_gz_bytes(&[("a.log", EntryType::Regular, b"one\r")]);
    let out = convert_tar_gz(&bytes).unwrap();
    assert_eq!(out, b"one\r\n");
}

#[test]
fn tar_rerun_gives_identical_bytes() {
    let bytes = tar_gz_bytes(&[("a/b.log", EntryType::Regular, b"alpha\nbeta\n")]);
    let first = convert_tar_gz(&bytes).unwrap();
    let second = convert_tar_gz(&bytes).unwrap();
    assert_eq!(first, second);
}

#[test]
fn corrupt_gzip_header_is_fatal() {
    let r = convert_tar_gz(b"this is not a gzip stream");
    assert_eq!(r, Err(ConvertError::MalformedTarGz));
}

#[test]
fn truncated_tar_stream_is_fatal() {
    let mut bytes = tar_gz_bytes(&[("a.log", EntryType::Regular, b"data\n")]);
    bytes.truncate(bytes.len() / 2);
    let r = convert_tar_gz(&bytes);
    assert_eq!(r, Err(ConvertError::MalformedTarGz));
}

#[test]
fn render_text_splits_and_filters() {
    let out = render_text(&b"a\r\nb".to_vec());
    assert_eq!(out, b"a\nb\n");
    let out = render_text(&vec![0xff, b'\n', b'x', b'\n']);
    assert_eq!(out, b"x\n");
    let out = render_text(&Vec::new());
    assert_eq!(out, b"");
}

#[test]
fn render_tar_entries_filters_non_files() {
    let entries = vec![
        Entry { is_file: false, data: b"ignored\n".to_vec() },
        Entry { is_file: true, data: b"kept\n".to_vec() },
    ];
    let out = render_tar_entries(&entries);
    assert_eq!(out, b"kept\n");
}
