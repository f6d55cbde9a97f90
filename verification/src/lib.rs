//! Core library for the TMD document container: a hybrid single-file format
//! that bundles Markdown text, a structured manifest, binary attachments and
//! an embedded relational database into one artifact.

use vstd::prelude::*;

pub mod archive;
pub mod attach;
pub mod db;
pub mod digest;
pub mod doc;
pub mod format;
pub mod manifest;
pub mod manifest_json;
pub mod ids;
pub mod json;
pub mod numfmt;
pub mod order;
pub mod path;
pub mod strutil;
pub mod sys;

pub use attach::{AttachmentStore, AttachmentEntry};
pub use db::{DbHandle, DbOptions, leading_sql_keyword, export_db, import_db, migrate, reset_db, with_conn,
    with_conn_mut};
pub use doc::TmdDoc;
pub use format::{Format, ReadMode, Reader, WriteMode, Writer, detect_format, format_display,
    parse_optional_format, parse_required_format, read_tmd, read_tmdz, sniff_format, write_tmd,
    write_tmdz, find_eocd_offset, extract_markdown_len_from_comment, split_tmd_bytes,
    set_tmd_comment, read_doc_from_entries};
pub use ids::{AttachmentId, Uid};
pub use manifest::{AttachmentMeta, AttachmentRef, LinkRef, Manifest, Semver};
pub use path::normalize_logical_path;
pub use sys::now_utc;

verus! {

/// Result type specialised for the operations of this crate.
pub type TmdResult<T> = Result<T, TmdError>;

/// Error type covering the operations provided by this crate.
#[derive(Debug, Clone)]
pub enum TmdError {
    /// I/O failure reported by the surrounding tooling.
    Io(String),
    /// Malformed manifest or attachment-list JSON.
    Json(String),
    /// Invalid container structure or trailer.
    InvalidFormat(String),
    /// Duplicate, missing or inconsistent attachment.
    Attachment(String),
    /// Embedded database failure.
    Db(String),
}

} // verus!
