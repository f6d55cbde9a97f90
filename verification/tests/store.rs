//! Attachment store and path behaviour, seen through the document API.

use sha2::{Digest, Sha256};
use tmd::{normalize_logical_path, TmdDoc, TmdError};

fn sample_doc() -> TmdDoc {
    TmdDoc::new("# Sample\n".to_string()).expect("doc creation")
}

#[test]
fn normalize_logical_path_rejects_invalid_segments() {
    assert!(normalize_logical_path("foo/../bar").is_err());
    assert!(normalize_logical_path("/absolute").is_err());
    assert_eq!(
        normalize_logical_path("images/figure.png").unwrap(),
        "images/figure.png"
    );
}

#[test]
fn normalize_logical_path_drops_dot_segments() {
    assert_eq!(normalize_logical_path("a/./b").unwrap(), "a/b");
    assert_eq!(normalize_logical_path("a//b").unwrap(), "a/b");
    assert_eq!(normalize_logical_path("a\\b").unwrap(), "a/b");
    assert!(normalize_logical_path("").is_err());
    assert!(normalize_logical_path("./.").is_err());
}

#[test]
fn attachment_lifecycle() {
    let mut doc = sample_doc();
    let attachment_id = doc
        .add_attachment("attachments/data.bin", "text/plain", vec![1, 2, 3])
        .expect("add attachment");
    let meta = doc.attachment_meta(attachment_id).expect("meta exists");
    assert_eq!(meta.logical_path, "attachments/data.bin");
    assert_eq!(meta.length, 3);

    doc.rename_attachment(attachment_id, "data/renamed.bin")
        .expect("rename");
    assert!(doc
        .attachment_meta_by_path("attachments/data.bin")
        .is_none());
    assert!(doc.attachment_meta_by_path("data/renamed.bin").is_some());

    doc.remove_attachment(attachment_id).expect("remove");
    assert!(doc.attachment_meta(attachment_id).is_none());
}

#[test]
fn attachment_data_mut_refreshes_metadata() {
    let mut doc = sample_doc();
    let attachment_id = doc
        .add_attachment("attachments/blob.bin", "text/plain", vec![0, 1, 2, 3])
        .expect("add attachment");

    let touched = doc.attachments.data_mut(attachment_id, |mut data| {
        data.extend_from_slice(&[4, 5, 6]);
        data
    });
    assert!(touched, "mutable handle");

    let meta = doc
        .attachment_meta(attachment_id)
        .expect("updated metadata");
    assert_eq!(meta.length, 7);

    let expected = Sha256::digest([0u8, 1, 2, 3, 4, 5, 6]).to_vec();
    assert_eq!(meta.sha256, Some(expected));
}

#[test]
fn duplicate_paths_are_rejected() {
    let mut doc = sample_doc();
    doc.add_attachment("a.bin", "text/plain", vec![1])
        .expect("first add");
    let err = doc
        .add_attachment("a.bin", "text/plain", vec![2])
        .expect_err("duplicate path must fail");
    match err {
        TmdError::Attachment(message) => {
            assert!(message.contains("already exists"), "message: {}", message)
        }
        other => panic!("expected attachment error, got {:?}", other),
    }
}

#[test]
fn inserted_digest_matches_external_computation() {
    let mut doc = sample_doc();
    let id = doc
        .add_attachment("x/y.bin", "application/octet-stream", vec![9, 9, 9])
        .expect("add");
    let meta = doc.attachment_meta(id).expect("meta");
    assert_eq!(meta.sha256, Some(Sha256::digest([9u8, 9, 9]).to_vec()));
    assert_ne!(meta.sha256, Some(vec![9, 9, 9]));
}
