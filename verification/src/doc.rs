//! The document aggregate: Markdown text, manifest, attachment store and
//! embedded database handle, owned together as one unit of work.

use vstd::prelude::*;
use crate::attach::{AttachmentStore, EntryView, has_id, has_path, idx_of_id, idx_of_path,
    inserted_meta, meta_views, metas_of};
use crate::db::DbHandle;
use crate::ids::{AttachmentId, Uid};
use crate::manifest::{AttachmentMeta, AttachmentMetaView, Manifest, ManifestView, Semver};
use crate::path::normalize_spec;
use crate::sys::now_utc;
use crate::{TmdError, TmdResult};

verus! {

/// Document representation that holds the Markdown, manifest, attachments,
/// and database handle.
pub struct TmdDoc {
    pub markdown: String,
    pub manifest: Manifest,
    pub attachments: AttachmentStore,
    pub db: DbHandle,
}

/// The new manifest differs from the old one only in its modification time,
/// which never moves backwards and never precedes the creation time,
/// whatever the clock returned.
pub open spec fn touched(m0: ManifestView, m1: ManifestView) -> bool {
    &&& m1 == ManifestView { modified_utc: m1.modified_utc, ..m0 }
    &&& m1.modified_utc >= m0.created_utc
    &&& m1.modified_utc >= m0.modified_utc
}

impl TmdDoc {
    /// The document invariant: the store's tables agree and every digest is
    /// derived, and the manifest's timestamps are ordered.
    pub open spec fn wf(&self) -> bool {
        &&& self.attachments.wf()
        &&& self.manifest.wf()
    }

    /// Create a new in-memory document with an empty embedded database.
    pub fn new(markdown: String) -> (r: TmdResult<TmdDoc>)
        ensures
            r matches Ok(d) ==> {
                &&& d.wf()
                &&& d.markdown@ == markdown@
                &&& d.attachments@ == Seq::<EntryView>::empty()
                &&& d.db.version() == 0
                &&& d.manifest@.tmd_version == (Semver { major: 1, minor: 0, patch: 0 })
                &&& d.manifest@.title is None
                &&& d.manifest@.authors.len() == 0
                &&& d.manifest@.tags.len() == 0
                &&& d.manifest@.cover_image is None
                &&& d.manifest@.links.len() == 0
                &&& d.manifest@.db_schema_version is None
                &&& d.manifest@.created_utc == d.manifest@.modified_utc
            },
    {
        let mut db = match DbHandle::new_empty() {
            Ok(h) => h,
            Err(e) => {
                return Err(e);
            },
        };
        match db.ensure_initialized(None) {
            Ok(()) => {},
            Err(e) => {
                return Err(e);
            },
        }
        let now: u64 = now_utc();
        let manifest = Manifest {
            tmd_version: Semver { major: 1, minor: 0, patch: 0 },
            doc_id: Uid::fresh(),
            title: None,
            authors: Vec::new(),
            created_utc: now,
            modified_utc: now,
            tags: Vec::new(),
            cover_image: None,
            links: Vec::new(),
            db_schema_version: None,
            extras: String::from_str("null"),
        };
        let attachments = AttachmentStore::new();
        Ok(TmdDoc { markdown, manifest, attachments, db })
    }

    /// Replace the document manifest, returning the updated document.  The
    /// modification time is clamped so it never precedes the creation time.
    pub fn with_manifest(self, manifest: Manifest) -> (r: Self)
        requires
            self.wf(),
        ensures
            r.wf(),
            r.markdown@ == self.markdown@,
            r.attachments@ == self.attachments@,
            r.db == self.db,
            r.manifest@ == if manifest@.modified_utc >= manifest@.created_utc {
                manifest@
            } else {
                ManifestView { modified_utc: manifest@.created_utc, ..manifest@ }
            },
    {
        let mut manifest = manifest;
        if manifest.modified_utc < manifest.created_utc {
            manifest.modified_utc = manifest.created_utc;
        }
        TmdDoc { manifest, ..self }
    }

    /// Update the modification timestamp to the current time, clamped so it
    /// never moves backwards and never precedes the creation time (the clock
    /// may regress).
    pub fn touch(&mut self)
        ensures
            final(self).markdown == old(self).markdown,
            final(self).attachments == old(self).attachments,
            final(self).db == old(self).db,
            touched(old(self).manifest@, final(self).manifest@),
            final(self).manifest.wf(),
    {
        let now: u64 = now_utc();
        let mut stamp: u64 = now;
        if self.manifest.modified_utc > stamp {
            stamp = self.manifest.modified_utc;
        }
        if self.manifest.created_utc > stamp {
            stamp = self.manifest.created_utc;
        }
        self.manifest.modified_utc = stamp;
    }

    /// Add an attachment from an owned byte buffer under a fresh identifier.
    /// The logical path is normalized first; length and digest are computed
    /// from the bytes.
    pub fn add_attachment(&mut self, logical_path: &str, media_type: &str, bytes: Vec<u8>)
        -> (r: TmdResult<AttachmentId>)
        requires
            old(self).wf(),
        ensures
            final(self).wf(),
            final(self).markdown == old(self).markdown,
            final(self).db == old(self).db,
            r is Err ==> final(self).manifest == old(self).manifest,
            normalize_spec(logical_path@) is None ==> r is Err,
            r matches Ok(id) ==> {
                &&& normalize_spec(logical_path@) is Some
                &&& !has_id(old(self).attachments@, id)
                &&& !has_path(old(self).attachments@, normalize_spec(logical_path@).unwrap())
                &&& final(self).attachments@ == old(self).attachments@.push(
                    EntryView {
                        meta: inserted_meta(id, normalize_spec(logical_path@).unwrap(),
                            media_type@, bytes@),
                        data: bytes@,
                    },
                )
                &&& touched(old(self).manifest@, final(self).manifest@)
            },
            r matches Err(e) ==> final(self).attachments@ == old(self).attachments@
                && e is Attachment,
    {
        let id = Uid::fresh();
        let path = String::from_str(logical_path);
        let media = String::from_str(media_type);
        match self.attachments.insert(id, path, media, bytes) {
            Ok(rid) => {
                self.touch();
                Ok(rid)
            },
            Err(e) => Err(e),
        }
    }

    /// Remove an attachment by identifier.
    pub fn remove_attachment(&mut self, id: AttachmentId) -> (r: TmdResult<()>)
        requires
            old(self).wf(),
        ensures
            final(self).wf(),
            final(self).markdown == old(self).markdown,
            final(self).db == old(self).db,
            r is Err ==> final(self).manifest == old(self).manifest,
            r is Ok <==> has_id(old(self).attachments@, id),
            r is Ok ==> final(self).attachments@ == old(self).attachments@.remove(
                idx_of_id(old(self).attachments@, id)) && touched(old(self).manifest@,
                final(self).manifest@),
            r is Err ==> final(self).attachments@ == old(self).attachments@,
            r matches Err(e) ==> e is Attachment,
    {
        match self.attachments.remove(id) {
            Ok(()) => {
                self.touch();
                Ok(())
            },
            Err(m) => Err(TmdError::Attachment(m)),
        }
    }

    /// Rename an attachment to a new logical path.
    pub fn rename_attachment(&mut self, id: AttachmentId, new_logical_path: &str)
        -> (r: TmdResult<()>)
        requires
            old(self).wf(),
        ensures
            final(self).wf(),
            final(self).markdown == old(self).markdown,
            final(self).db == old(self).db,
            r is Err ==> final(self).manifest == old(self).manifest,
            r is Ok <==> {
                &&& normalize_spec(new_logical_path@) is Some
                &&& has_id(old(self).attachments@, id)
                &&& (has_path(old(self).attachments@, normalize_spec(new_logical_path@).unwrap())
                    ==> old(self).attachments@[idx_of_path(old(self).attachments@,
                        normalize_spec(new_logical_path@).unwrap())].meta.id == id)
            },
            r is Ok ==> touched(old(self).manifest@, final(self).manifest@)
                && final(self).attachments@ == old(self).attachments@.update(
                idx_of_id(old(self).attachments@, id),
                EntryView {
                    meta: AttachmentMetaView {
                        logical_path: normalize_spec(new_logical_path@).unwrap(),
                        ..old(self).attachments@[idx_of_id(old(self).attachments@, id)].meta
                    },
                    ..old(self).attachments@[idx_of_id(old(self).attachments@, id)]
                },
            ),
            r is Err ==> final(self).attachments@ == old(self).attachments@,
            r matches Err(e) ==> e is Attachment,
    {
        let path = String::from_str(new_logical_path);
        match self.attachments.rename(id, path) {
            Ok(()) => {
                self.touch();
                Ok(())
            },
            Err(e) => Err(e),
        }
    }

    /// Get attachment metadata by identifier.
    pub fn attachment_meta(&self, id: AttachmentId) -> (r: Option<&AttachmentMeta>)
        requires
            self.wf(),
        ensures
            r is Some <==> has_id(self.attachments@, id),
            r matches Some(m) ==> m@ == self.attachments@[idx_of_id(self.attachments@, id)].meta,
    {
        self.attachments.meta(id)
    }

    /// Get attachment metadata by logical path.
    pub fn attachment_meta_by_path(&self, logical_path: &str) -> (r: Option<&AttachmentMeta>)
        requires
            self.wf(),
        ensures
            r is Some <==> has_path(self.attachments@, logical_path@),
            r matches Some(m) ==> m@ == self.attachments@[idx_of_path(self.attachments@,
                logical_path@)].meta,
    {
        self.attachments.meta_by_path(logical_path)
    }

    /// A snapshot of all attachment metadata, in store order.
    pub fn list_attachments(&self) -> (r: Vec<AttachmentMeta>)
        ensures
            meta_views(r@) == metas_of(self.attachments@),
    {
        self.attachments.iter()
    }

    /// Execute a read-only closure with a connection to the embedded
    /// database.
    pub fn db_with_conn<T, F: FnOnce(&rusqlite::Connection) -> T>(&self, f: F)
        -> (r: TmdResult<T>) {
        self.db.with_conn(f)
    }

    /// Execute a mutable closure with a connection to the embedded database.
    pub fn db_with_conn_mut<T, F: FnOnce(&mut rusqlite::Connection) -> T>(&mut self, f: F)
        -> (r: TmdResult<T>) {
        self.db.with_conn_mut(f)
    }
}

} // verus!
