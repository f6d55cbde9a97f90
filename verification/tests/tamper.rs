//! Adversarial archives: tampered bytes, undeclared entries, malformed
//! structured documents.  The tampered archives are produced with an
//! independent archive implementation, which also exercises interoperability
//! in both directions.

use sha2::Digest;
use std::io::{Cursor, Read, Write};
use tmd::{read_tmdz, write_tmdz, ReadMode, TmdDoc, TmdError, WriteMode};
use zip::write::SimpleFileOptions;

fn must_fail(r: Result<TmdDoc, TmdError>) -> TmdError {
    match r {
        Ok(_) => panic!("expected a failure"),
        Err(e) => e,
    }
}

fn manifest_entry_name() -> String {
    String::from_utf8(tmd::format::name_manifest_vec()).expect("entry name")
}

fn build_doc() -> TmdDoc {
    let mut doc = TmdDoc::new("# Tamper\n".to_string()).expect("doc");
    doc.add_attachment("blob.bin", "application/octet-stream", vec![10, 20, 30, 40])
        .expect("add");
    doc
}

/// Read every entry of an archive produced by this library with the outside
/// archive implementation.
fn entries_via_zip_crate(bytes: &[u8]) -> Vec<(String, Vec<u8>)> {
    let mut archive = zip::ZipArchive::new(Cursor::new(bytes.to_vec())).expect("foreign read");
    let mut out = Vec::new();
    for i in 0..archive.len() {
        let mut f = archive.by_index(i).expect("entry");
        let mut data = Vec::new();
        f.read_to_end(&mut data).expect("entry bytes");
        out.push((f.name().to_string(), data));
    }
    out
}

/// Re-pack entries with the outside archive implementation, applying `edit`
/// to each (name, bytes) pair and appending any extra entries.
fn repack(
    entries: &[(String, Vec<u8>)],
    edit: impl Fn(&str, &[u8]) -> Vec<u8>,
    extra: &[(String, Vec<u8>)],
) -> Vec<u8> {
    let mut writer = zip::ZipWriter::new(Cursor::new(Vec::new()));
    let stored = SimpleFileOptions::default().compression_method(zip::CompressionMethod::Stored);
    for (name, data) in entries {
        writer.start_file(name.clone(), stored).expect("start");
        writer.write_all(&edit(name, data)).expect("write");
    }
    for (name, data) in extra {
        writer.start_file(name.clone(), stored).expect("start extra");
        writer.write_all(data).expect("write extra");
    }
    writer.finish().expect("finish").into_inner()
}

#[test]
fn foreign_reader_accepts_library_archives() {
    let doc = build_doc();
    let bytes = write_tmdz(&doc, WriteMode::default()).expect("write");
    let entries = entries_via_zip_crate(&bytes);
    let names: Vec<&str> = entries.iter().map(|(n, _)| n.as_str()).collect();
    assert!(names.iter().any(|n| **n == manifest_entry_name()));
    assert!(names.contains(&"index.md"));
    assert!(names.contains(&"attachments.json"));
    assert!(names.contains(&"db/main.sqlite3"));
    assert!(names.contains(&"blob.bin"));
}

#[test]
fn repacked_archive_still_decodes() {
    let doc = build_doc();
    let bytes = write_tmdz(&doc, WriteMode::default()).expect("write");
    let entries = entries_via_zip_crate(&bytes);
    let repacked = repack(&entries, |_, d| d.to_vec(), &[]);
    let rebuilt = read_tmdz(&repacked, ReadMode::default()).expect("decode foreign bytes");
    assert_eq!(rebuilt.markdown, doc.markdown);
}

#[test]
fn truncated_attachment_is_a_length_mismatch() {
    let doc = build_doc();
    let bytes = write_tmdz(&doc, WriteMode::default()).expect("write");
    let entries = entries_via_zip_crate(&bytes);
    let tampered = repack(
        &entries,
        |name, d| {
            if name == "blob.bin" {
                d[..d.len() - 1].to_vec()
            } else {
                d.to_vec()
            }
        },
        &[],
    );
    let err = must_fail(read_tmdz(&tampered, ReadMode::default()));
    match err {
        TmdError::Attachment(message) => {
            assert!(message.contains("length mismatch"), "message: {}", message)
        }
        other => panic!("expected a length mismatch, got {:?}", other),
    }
}

#[test]
fn flipped_bit_is_a_digest_mismatch() {
    let doc = build_doc();
    let bytes = write_tmdz(&doc, WriteMode::default()).expect("write");
    let entries = entries_via_zip_crate(&bytes);
    let tampered = repack(
        &entries,
        |name, d| {
            if name == "blob.bin" {
                let mut d = d.to_vec();
                d[0] ^= 0x01;
                d
            } else {
                d.to_vec()
            }
        },
        &[],
    );
    let err = must_fail(read_tmdz(&tampered, ReadMode::default()));
    match err {
        TmdError::Attachment(message) => {
            assert!(message.contains("sha256 mismatch"), "message: {}", message)
        }
        other => panic!("expected a digest mismatch, got {:?}", other),
    }
}

#[test]
fn flipped_bit_passes_without_verification() {
    let doc = build_doc();
    let bytes = write_tmdz(&doc, WriteMode::default()).expect("write");
    let entries = entries_via_zip_crate(&bytes);
    let tampered = repack(
        &entries,
        |name, d| {
            if name == "blob.bin" {
                let mut d = d.to_vec();
                d[0] ^= 0x01;
                d
            } else {
                d.to_vec()
            }
        },
        &[],
    );
    let mode = ReadMode {
        verify_hashes: false,
        lazy_attachments: false,
    };
    let rebuilt = read_tmdz(&tampered, mode).expect("digest checks disabled");
    let meta = rebuilt
        .attachment_meta_by_path("blob.bin")
        .expect("attachment");
    // even then, the stored digest is recomputed from the actual bytes
    assert_eq!(
        meta.sha256,
        Some(sha2::Sha256::digest([11u8, 20, 30, 40]).to_vec())
    );
}

#[test]
fn undeclared_entry_is_rejected() {
    let doc = build_doc();
    let bytes = write_tmdz(&doc, WriteMode::default()).expect("write");
    let entries = entries_via_zip_crate(&bytes);
    let tampered = repack(
        &entries,
        |_, d| d.to_vec(),
        &[("sneaky.txt".to_string(), b"injected".to_vec())],
    );
    let err = must_fail(read_tmdz(&tampered, ReadMode::default()));
    match err {
        TmdError::InvalidFormat(message) => {
            assert!(message.contains("undeclared"), "message: {}", message)
        }
        other => panic!("expected a structural error, got {:?}", other),
    }
}

#[test]
fn malformed_manifest_is_a_json_error() {
    let doc = build_doc();
    let bytes = write_tmdz(&doc, WriteMode::default()).expect("write");
    let entries = entries_via_zip_crate(&bytes);
    let tampered = repack(
        &entries,
        |name, d| {
            if *name == manifest_entry_name() {
                b"{not json".to_vec()
            } else {
                d.to_vec()
            }
        },
        &[],
    );
    let err = must_fail(read_tmdz(&tampered, ReadMode::default()));
    assert!(matches!(err, TmdError::Json(_)));
}

#[test]
fn corrupted_database_magic_is_rejected() {
    let doc = build_doc();
    let bytes = write_tmdz(&doc, WriteMode::default()).expect("write");
    let entries = entries_via_zip_crate(&bytes);
    let tampered = repack(
        &entries,
        |name, d| {
            if name == "db/main.sqlite3" {
                let mut d = d.to_vec();
                d[0] = b'X';
                d
            } else {
                d.to_vec()
            }
        },
        &[],
    );
    let err = must_fail(read_tmdz(&tampered, ReadMode::default()));
    assert!(matches!(err, TmdError::InvalidFormat(_)));
}

#[test]
fn original_style_manifest_decodes() {
    let doc = build_doc();
    let bytes = write_tmdz(&doc, WriteMode::default()).expect("write");
    let entries = entries_via_zip_crate(&bytes);

    let digest_hex = hex::encode(sha2::Sha256::digest([10u8, 20, 30, 40]));
    let manifest_text = "{\n  \"tmd_version\": {\n    \"major\": 1,\n    \"minor\": 0,\n    \"patch\": 0\n  },\n  \"doc_id\": \"123e4567-e89b-12d3-a456-426614174000\",\n  \"title\": \"Original style\",\n  \"authors\": [\"Someone\"],\n  \"created_utc\": \"2024-01-02T03:04:05Z\",\n  \"modified_utc\": \"2024-01-02T03:04:06+00:00\",\n  \"tags\": [],\n  \"cover_image\": null,\n  \"links\": [],\n  \"db_schema_version\": null,\n  \"extras\": null\n}";
    let attachments_text = format!(
        "{{\n  \"attachments\": [\n    {{\n      \"id\": \"123e4567-e89b-12d3-a456-426614174000\",\n      \"logical_path\": \"blob.bin\",\n      \"mime\": \"application/octet-stream\",\n      \"length\": 4,\n      \"sha256\": \"{}\",\n      \"title\": null,\n      \"alt\": null,\n      \"extras\": null\n    }}\n  ]\n}}",
        digest_hex
    );

    let restyled = repack(
        &entries,
        |name, d| {
            if *name == manifest_entry_name() {
                manifest_text.as_bytes().to_vec()
            } else if name == "attachments.json" {
                attachments_text.as_bytes().to_vec()
            } else {
                d.to_vec()
            }
        },
        &[],
    );

    let rebuilt = read_tmdz(&restyled, ReadMode::default()).expect("decode original style");
    assert_eq!(rebuilt.markdown, doc.markdown);
    assert_eq!(rebuilt.manifest.title, Some("Original style".to_string()));
    assert_eq!(rebuilt.manifest.authors, vec!["Someone".to_string()]);
    let created = chrono::DateTime::parse_from_rfc3339("2024-01-02T03:04:05Z")
        .unwrap()
        .timestamp_millis() as u64;
    assert_eq!(rebuilt.manifest.created_utc, created);
    assert_eq!(rebuilt.manifest.modified_utc, created + 1000);
    let meta = rebuilt
        .attachment_meta_by_path("blob.bin")
        .expect("attachment");
    assert_eq!(meta.length, 4);
    assert_eq!(meta.media_type, "application/octet-stream");
}
