//! Container codec round trips, determinism, the trailer, and format
//! detection.

use sha2::{Digest, Sha256};
use tmd::archive::encode_archive;
use tmd::{
    export_db, extract_markdown_len_from_comment, find_eocd_offset, import_db, read_tmd,
    set_tmd_comment, sniff_format, write_tmd, write_tmdz, Format, ReadMode, Reader, TmdDoc,
    TmdError, WriteMode, Writer,
};

fn must_fail(r: Result<TmdDoc, TmdError>) -> TmdError {
    match r {
        Ok(_) => panic!("expected a failure"),
        Err(e) => e,
    }
}

fn sample_doc() -> TmdDoc {
    TmdDoc::new("# Sample\n".to_string()).expect("doc creation")
}

fn build_doc_with_attachment() -> TmdDoc {
    let mut doc = sample_doc();
    doc.markdown.push_str("Body text\n");
    doc.manifest.title = Some("Roundtrip".into());
    doc.manifest.tags = vec!["report".into()];
    doc.add_attachment("images/pixel.png", "image/png", vec![0, 1, 2, 3])
        .expect("add attachment");
    doc.db_with_conn_mut(|conn| {
        conn.execute("CREATE TABLE items(id INTEGER PRIMARY KEY, name TEXT)", [])
            .unwrap();
        conn.execute("INSERT INTO items(name) VALUES ('apricot')", [])
            .unwrap();
        conn.pragma_update(None, "user_version", 2).unwrap();
    })
    .expect("populate db");
    doc.manifest.db_schema_version = Some(2);
    doc
}

#[test]
fn writing_after_mutation_keeps_manifest_consistent() {
    let mut doc = sample_doc();
    let attachment_id = doc
        .add_attachment("attachments/data.bin", "text/plain", vec![1, 2, 3, 4])
        .expect("add attachment");

    let touched = doc.attachments.data_mut(attachment_id, |mut data| {
        data.extend_from_slice(&[5, 6]);
        data
    });
    assert!(touched, "mutable handle");

    let buffer = write_tmd(&doc, WriteMode::default()).expect("write");
    let mut reader = Reader::new(buffer, Some(Format::Tmd), ReadMode::default()).expect("reader");
    let rebuilt = reader.read_doc().expect("read");

    let rebuilt_meta = rebuilt
        .attachment_meta(attachment_id)
        .expect("attachment meta");
    assert_eq!(rebuilt_meta.length, 6);
    assert_eq!(
        rebuilt.attachments.data(attachment_id).unwrap(),
        &[1, 2, 3, 4, 5, 6]
    );
}

#[test]
fn tmd_roundtrip_preserves_content() {
    let doc = build_doc_with_attachment();
    let buffer = write_tmd(&doc, WriteMode::default()).expect("write");
    let mut reader = Reader::new(buffer, Some(Format::Tmd), ReadMode::default()).expect("reader");
    let rebuilt = reader.read_doc().expect("read");

    assert_eq!(rebuilt.markdown, doc.markdown);
    assert_eq!(rebuilt.manifest.title, doc.manifest.title);
    assert_eq!(
        rebuilt.manifest.db_schema_version,
        doc.manifest.db_schema_version
    );

    let original = doc.list_attachments();
    let original_meta = original.first().expect("original attachment meta");
    let rebuilt_list = rebuilt.list_attachments();
    let rebuilt_meta = rebuilt_list.first().expect("rebuilt attachment meta");
    assert_eq!(original_meta.logical_path, rebuilt_meta.logical_path);
    assert_eq!(original_meta.length, rebuilt_meta.length);
    assert_eq!(
        rebuilt.attachments.data(rebuilt_meta.id).unwrap(),
        &[0, 1, 2, 3]
    );

    let user_version: u32 = rebuilt
        .db_with_conn(|conn| {
            conn.query_row("PRAGMA user_version", [], |row| row.get(0))
                .unwrap()
        })
        .expect("user version");
    assert_eq!(user_version, 2);
}

#[test]
fn tmdz_roundtrip_preserves_content() {
    let doc = build_doc_with_attachment();
    let buffer = write_tmdz(&doc, WriteMode::default()).expect("write");
    let mut reader = Reader::new(buffer, Some(Format::Tmdz), ReadMode::default()).expect("reader");
    let rebuilt = reader.read_doc().expect("read");
    assert_eq!(rebuilt.markdown, doc.markdown);
    assert_eq!(rebuilt.manifest.title, doc.manifest.title);
}

#[test]
fn example_scenario_pixel_attachment() {
    let mut doc = sample_doc();
    doc.add_attachment("images/pixel.png", "image/png", vec![7, 8, 9, 10])
        .expect("add attachment");
    let bytes = write_tmdz(&doc, WriteMode::default()).expect("encode");
    let rebuilt = tmd::read_tmdz(&bytes, ReadMode::default()).expect("decode");
    let meta = rebuilt
        .attachment_meta_by_path("images/pixel.png")
        .expect("recovered attachment");
    assert_eq!(meta.length, 4);
    assert_eq!(meta.sha256, Some(Sha256::digest([7u8, 8, 9, 10]).to_vec()));
}

#[test]
fn sniff_format_detects_variants() {
    assert_eq!(sniff_format(b"PK\x03\x04"), Some(Format::Tmdz));
    assert_eq!(sniff_format(b"#"), Some(Format::Tmd));
    assert_eq!(sniff_format(b""), None);
}

#[test]
fn encoding_is_deterministic() {
    let doc = build_doc_with_attachment();
    let first = write_tmdz(&doc, WriteMode::default()).expect("first write");
    let second = write_tmdz(&doc, WriteMode::default()).expect("second write");
    assert_eq!(first, second);
}

#[test]
fn attachment_order_is_canonicalized() {
    let mut doc1 = sample_doc();
    let id_a = doc1
        .add_attachment("b/late.bin", "text/plain", vec![1])
        .expect("add");
    let id_b = doc1
        .add_attachment("a/early.bin", "text/plain", vec![2])
        .expect("add");

    // Same content inserted in the opposite order, under the same
    // identifiers and the same manifest and database bytes.
    let mut doc2 = sample_doc();
    doc2.attachments
        .insert(id_b, "a/early.bin".to_string(), "text/plain".to_string(), vec![2])
        .expect("insert");
    doc2.attachments
        .insert(id_a, "b/late.bin".to_string(), "text/plain".to_string(), vec![1])
        .expect("insert");
    doc2.manifest = doc1.manifest.clone();
    let db = export_db(&doc1).expect("export");
    import_db(&mut doc2, &db).expect("import");

    let first = write_tmdz(&doc1, WriteMode::default()).expect("write one");
    let second = write_tmdz(&doc2, WriteMode::default()).expect("write two");
    assert_eq!(first, second);
}

#[test]
fn extract_markdown_len_validates_prefix_and_length() {
    let mut comment = Vec::new();
    comment.extend_from_slice(b"TMD1\0");
    comment.extend_from_slice(&1234u64.to_le_bytes());

    assert_eq!(
        extract_markdown_len_from_comment(&comment).unwrap(),
        1234
    );

    let mut bad_prefix = comment.clone();
    bad_prefix[0] = b'X';
    assert!(extract_markdown_len_from_comment(&bad_prefix).is_err());

    let mut bad_length = comment.clone();
    bad_length.push(0);
    assert!(extract_markdown_len_from_comment(&bad_length).is_err());
}

#[test]
fn set_tmd_comment_writes_expected_marker() {
    let entries = vec![(b"dummy.txt".to_vec(), b"hello world".to_vec())];
    let mut zip_bytes = encode_archive(&entries).expect("archive");
    set_tmd_comment(&mut zip_bytes, 42).expect("set comment");

    let eocd_offset = find_eocd_offset(&zip_bytes).expect("eocd");
    let comment_len_pos = eocd_offset + 20;
    let comment_len =
        u16::from_le_bytes([zip_bytes[comment_len_pos], zip_bytes[comment_len_pos + 1]]) as usize;
    assert_eq!(comment_len, 5 + 8);

    let comment_start = eocd_offset + 22;
    let comment = &zip_bytes[comment_start..comment_start + comment_len];
    assert!(comment.starts_with(b"TMD1\0"));
    let mut len_bytes = [0u8; 8];
    len_bytes.copy_from_slice(&comment[5..]);
    assert_eq!(u64::from_le_bytes(len_bytes), 42);
}

#[test]
fn short_buffers_fail_with_structural_errors() {
    let err = must_fail(read_tmd(b"x", ReadMode::default()));
    assert!(matches!(err, TmdError::InvalidFormat(_)));
    let err = tmd::split_tmd_bytes(&[0u8; 21]).expect_err("below end-marker size");
    assert!(matches!(err, TmdError::InvalidFormat(_)));
    let err = must_fail(tmd::read_tmdz(b"PK\x03\x04", ReadMode::default()));
    assert!(matches!(err, TmdError::InvalidFormat(_)));
}

#[test]
fn writer_and_reader_pair_round_trip() {
    let doc = build_doc_with_attachment();
    let mut writer = Writer::new(Format::Tmd, WriteMode::default()).expect("writer");
    writer.write_doc(&doc).expect("write");
    let bytes = writer.finish().expect("finish");
    // the hybrid file starts with the verbatim Markdown text
    assert!(bytes.starts_with(doc.markdown.as_bytes()));
    let rebuilt = read_tmd(&bytes, ReadMode::default()).expect("read");
    assert_eq!(rebuilt.markdown, doc.markdown);
}

#[test]
fn detect_format_goes_by_extension() {
    assert_eq!(tmd::detect_format("notes/a.tmd").unwrap(), Format::Tmd);
    assert_eq!(tmd::detect_format("B.TMDZ").unwrap(), Format::Tmdz);
    assert!(tmd::detect_format("plain.txt").is_err());
    assert!(tmd::detect_format("noext").is_err());
    assert_eq!(tmd::format_display(Format::Tmd), ".tmd");
    assert_eq!(tmd::format_display(Format::Tmdz), ".tmdz");
}

#[test]
fn numeric_format_selectors() {
    assert_eq!(tmd::parse_optional_format(0).unwrap(), None);
    assert_eq!(tmd::parse_optional_format(1).unwrap(), Some(Format::Tmd));
    assert_eq!(tmd::parse_optional_format(2).unwrap(), Some(Format::Tmdz));
    assert!(tmd::parse_optional_format(9).is_err());
    assert_eq!(tmd::parse_required_format(2).unwrap(), Format::Tmdz);
    assert!(tmd::parse_required_format(0).is_err());
}
