//! The attachment store: content-addressed binary blobs keyed by identifier
//! and indexed by logical path, with derived length and digest metadata.

use vstd::prelude::*;
use crate::digest::{sha256, sha256_of};
use crate::ids::{AttachmentId, Uid};
use crate::manifest::{AttachmentMeta, AttachmentMetaView, clone_bytes, clone_opt_string};
use crate::path::{is_normal_path, normalize_spec, normalize_logical_path};
use crate::strutil::str_eq;
use crate::{TmdError, TmdResult};

verus! {

/// One stored attachment: its metadata and its bytes.
#[derive(Debug)]
pub struct AttachmentEntry {
    pub meta: AttachmentMeta,
    pub data: Vec<u8>,
}

/// Mathematical model of one stored attachment.
pub ghost struct EntryView {
    pub meta: AttachmentMetaView,
    pub data: Seq<u8>,
}

impl View for AttachmentEntry {
    type V = EntryView;

    open spec fn view(&self) -> EntryView {
        EntryView { meta: self.meta@, data: self.data@ }
    }
}

/// A stored entry is well formed when its length and digest are derived from
/// its current bytes.
pub open spec fn entry_wf(e: EntryView) -> bool {
    &&& e.meta.length == e.data.len()
    &&& e.meta.sha256 == Some(sha256_of(e.data))
}

/// Whether some entry carries the given identifier.
pub open spec fn has_id(s: Seq<EntryView>, id: Uid) -> bool {
    exists|i: int| 0 <= i < s.len() && s[i].meta.id == id
}

/// Whether some entry carries the given logical path.
pub open spec fn has_path(s: Seq<EntryView>, p: Seq<char>) -> bool {
    exists|i: int| 0 <= i < s.len() && s[i].meta.logical_path == p
}

/// Index of the entry carrying the given identifier.
pub open spec fn idx_of_id(s: Seq<EntryView>, id: Uid) -> int {
    choose|i: int| 0 <= i < s.len() && s[i].meta.id == id
}

/// Index of the entry carrying the given logical path.
pub open spec fn idx_of_path(s: Seq<EntryView>, p: Seq<char>) -> int {
    choose|i: int| 0 <= i < s.len() && s[i].meta.logical_path == p
}

/// The metadata recorded when bytes are first inserted under a path.
pub open spec fn inserted_meta(id: Uid, norm: Seq<char>, media: Seq<char>, data: Seq<u8>)
    -> AttachmentMetaView {
    AttachmentMetaView {
        id,
        logical_path: norm,
        media_type: media,
        length: data.len() as u64,
        sha256: Some(sha256_of(data)),
        title: None,
        alt: None,
        extras: "null"@,
    }
}

/// Owns all attachments of one document.  The primary key is the identifier;
/// logical paths form a secondary unique index.
#[derive(Debug)]
pub struct AttachmentStore {
    entries: Vec<AttachmentEntry>,
}

impl View for AttachmentStore {
    type V = Seq<EntryView>;

    closed spec fn view(&self) -> Seq<EntryView> {
        self.entries@.map_values(|e: AttachmentEntry| e@)
    }
}

impl AttachmentStore {
    /// The store invariant: identifiers and paths are unique, and every
    /// entry's metadata is derived from its bytes.
    pub open spec fn wf(&self) -> bool {
        &&& forall|i: int, j: int|
            0 <= i < j < self@.len() ==> #[trigger] self@[i].meta.id != #[trigger] self@[j].meta.id
        &&& forall|i: int, j: int|
            0 <= i < j < self@.len() ==> #[trigger] self@[i].meta.logical_path
                != #[trigger] self@[j].meta.logical_path
        &&& forall|i: int| 0 <= i < self@.len() ==> entry_wf(#[trigger] self@[i])
    }

    /// Create an empty store.
    pub fn new() -> (r: Self)
        ensures
            r@ == Seq::<EntryView>::empty(),
            r.wf(),
    {
        let r = AttachmentStore { entries: Vec::new() };
        proof {
            assert(r@ =~= Seq::<EntryView>::empty());
        }
        r
    }

    /// Find the index of the entry with the given identifier.
    fn position_by_id(&self, id: AttachmentId) -> (r: Option<usize>)
        ensures
            r matches Some(i) ==> 0 <= i < self@.len() && self@[i as int].meta.id == id,
            r is None ==> !has_id(self@, id),
    {
        let mut i: usize = 0;
        while i < self.entries.len()
            invariant
                i <= self@.len(),
                self@.len() == self.entries@.len(),
                forall|j: int| 0 <= j < i ==> self@[j].meta.id != id,
            decreases self@.len() - i,
        {
            if self.entries[i].meta.id.value == id.value {
                return Some(i);
            }
            i = i + 1;
        }
        None
    }

    /// Find the index of the entry with the given logical path.
    fn position_by_path(&self, p: &str) -> (r: Option<usize>)
        ensures
            r matches Some(i) ==> 0 <= i < self@.len() && self@[i as int].meta.logical_path == p@,
            r is None ==> !has_path(self@, p@),
    {
        let mut i: usize = 0;
        while i < self.entries.len()
            invariant
                i <= self@.len(),
                self@.len() == self.entries@.len(),
                forall|j: int| 0 <= j < i ==> self@[j].meta.logical_path != p@,
            decreases self@.len() - i,
        {
            if str_eq(self.entries[i].meta.logical_path.as_str(), p) {
                return Some(i);
            }
            i = i + 1;
        }
        None
    }

    /// Insert a new attachment.  The path is normalized first; length and
    /// digest are computed from the bytes.  Fails when the path is invalid,
    /// the identifier is already present, or the normalized path is already
    /// indexed.
    pub fn insert(&mut self, id: AttachmentId, logical_path: String, media_type: String,
        data: Vec<u8>) -> (r: TmdResult<AttachmentId>)
        requires
            old(self).wf(),
        ensures
            final(self).wf(),
            r is Ok <==> {
                &&& normalize_spec(logical_path@) is Some
                &&& !has_id(old(self)@, id)
                &&& !has_path(old(self)@, normalize_spec(logical_path@).unwrap())
            },
            r matches Ok(rid) ==> rid == id && final(self)@ == old(self)@.push(
                EntryView {
                    meta: inserted_meta(id, normalize_spec(logical_path@).unwrap(),
                        media_type@, data@),
                    data: data@,
                },
            ),
            r matches Err(e) ==> final(self)@ == old(self)@ && e is Attachment,
    {
        let norm: String = match normalize_logical_path(logical_path.as_str()) {
            Ok(p) => p,
            Err(e) => {
                return Err(e);
            },
        };
        if self.position_by_id(id).is_some() {
            return Err(TmdError::Attachment(String::from_str("attachment id already exists")));
        }
        if self.position_by_path(norm.as_str()).is_some() {
            let mut m = String::from_str("attachment `");
            m.append(norm.as_str());
            m.append("` already exists");
            return Err(TmdError::Attachment(m));
        }
        let length: u64 = data.len() as u64;
        let dig: Vec<u8> = sha256(data.as_slice());
        let meta = AttachmentMeta {
            id,
            logical_path: norm,
            media_type,
            length,
            sha256: Some(dig),
            title: None,
            alt: None,
            extras: String::from_str("null"),
        };
        let ghost prev = self@;
        self.entries.push(AttachmentEntry { meta, data });
        proof {
            assert(self@ =~= prev.push(self.entries@.last()@));
            reveal_strlit("null");
            assert(self@.last().meta == inserted_meta(id, normalize_spec(logical_path@).unwrap(),
                media_type@, self@.last().data));
            assert forall|i: int, j: int| 0 <= i < j < self@.len() implies
                #[trigger] self@[i].meta.id != #[trigger] self@[j].meta.id by {
                if j == self@.len() - 1 {
                    assert(!has_id(prev, id));
                    assert(prev[i] == self@[i]);
                }
            }
            assert forall|i: int, j: int| 0 <= i < j < self@.len() implies
                #[trigger] self@[i].meta.logical_path != #[trigger] self@[j].meta.logical_path by {
                if j == self@.len() - 1 {
                    assert(!has_path(prev, self@[j].meta.logical_path));
                    assert(prev[i] == self@[i]);
                }
            }
        }
        Ok(id)
    }

    /// Remove an attachment by identifier; fails when it is absent.
    pub fn remove(&mut self, id: AttachmentId) -> (r: Result<(), String>)
        requires
            old(self).wf(),
        ensures
            final(self).wf(),
            r is Ok <==> has_id(old(self)@, id),
            r is Ok ==> final(self)@ == old(self)@.remove(idx_of_id(old(self)@, id)),
            r is Err ==> final(self)@ == old(self)@,
    {
        match self.position_by_id(id) {
            Some(i) => {
                let ghost prev = self@;
                let _ = self.entries.remove(i);
                proof {
                    assert(0 <= idx_of_id(prev, id) < prev.len() && prev[idx_of_id(prev,
                        id)].meta.id == id);
                    assert(idx_of_id(prev, id) == i as int);
                    assert(self@ =~= prev.remove(i as int));
                }
                Ok(())
            },
            None => Err(String::from_str("attachment id not found")),
        }
    }

    /// Rename an attachment to a new logical path.  The path is normalized
    /// first; fails when the attachment is absent or the path is already
    /// indexed by a different attachment.
    pub fn rename(&mut self, id: AttachmentId, new_path: String) -> (r: TmdResult<()>)
        requires
            old(self).wf(),
        ensures
            final(self).wf(),
            r is Ok <==> {
                &&& normalize_spec(new_path@) is Some
                &&& has_id(old(self)@, id)
                &&& (has_path(old(self)@, normalize_spec(new_path@).unwrap())
                    ==> old(self)@[idx_of_path(old(self)@, normalize_spec(new_path@).unwrap())]
                        .meta.id == id)
            },
            r is Ok ==> final(self)@ == old(self)@.update(idx_of_id(old(self)@, id),
                EntryView {
                    meta: AttachmentMetaView {
                        logical_path: normalize_spec(new_path@).unwrap(),
                        ..old(self)@[idx_of_id(old(self)@, id)].meta
                    },
                    ..old(self)@[idx_of_id(old(self)@, id)]
                },
            ),
            r is Err ==> final(self)@ == old(self)@,
            r matches Err(e) ==> e is Attachment,
    {
        let norm: String = match normalize_logical_path(new_path.as_str()) {
            Ok(p) => p,
            Err(e) => {
                return Err(e);
            },
        };
        let ghost prev = self@;
        match self.position_by_path(norm.as_str()) {
            Some(j) => {
                if self.entries[j].meta.id.value != id.value {
                    proof {
                        assert(has_path(prev, normalize_spec(new_path@).unwrap()));
                        let pj = idx_of_path(prev, normalize_spec(new_path@).unwrap());
                        assert(0 <= pj < prev.len() && prev[pj].meta.logical_path
                            == normalize_spec(new_path@).unwrap());
                        assert(pj == j as int);
                    }
                    let mut m = String::from_str("attachment `");
                    m.append(norm.as_str());
                    m.append("` already exists");
                    return Err(TmdError::Attachment(m));
                }
            },
            None => {},
        }
        match self.position_by_id(id) {
            Some(i) => {
                proof {
                    assert(idx_of_id(prev, id) == i as int);
                }
                let e = &self.entries[i];
                let meta = AttachmentMeta {
                    id: e.meta.id,
                    logical_path: norm,
                    media_type: e.meta.media_type.clone(),
                    length: e.meta.length,
                    sha256: match &e.meta.sha256 {
                        Some(d) => Some(clone_bytes(d)),
                        None => None,
                    },
                    title: clone_opt_string(&e.meta.title),
                    alt: clone_opt_string(&e.meta.alt),
                    extras: e.meta.extras.clone(),
                };
                let data = clone_bytes(&self.entries[i].data);
                self.entries.set(i, AttachmentEntry { meta, data });
                proof {
                    assert(self@ =~= prev.update(i as int, self@[i as int]));
                    assert forall|a: int, b: int| 0 <= a < b < self@.len() implies
                        #[trigger] self@[a].meta.logical_path
                            != #[trigger] self@[b].meta.logical_path by {
                        let np = normalize_spec(new_path@).unwrap();
                        if a != i as int && b != i as int {
                            assert(self@[a] == prev[a] && self@[b] == prev[b]);
                        } else {
                            let o = if a == i as int { b } else { a };
                            assert(self@[o] == prev[o]);
                            if prev[o].meta.logical_path == np {
                                assert(has_path(prev, np));
                                assert(idx_of_path(prev, np) == o || prev[idx_of_path(prev,
                                    np)].meta.id == prev[o].meta.id || true);
                                assert(prev[idx_of_path(prev, np)].meta.id == id);
                                if idx_of_path(prev, np) != o {
                                    assert(false);
                                }
                                assert(prev[o].meta.id == id);
                                assert(o != i as int ==> prev[o].meta.id != prev[i as int].meta.id
                                    || o == i as int);
                                assert(false);
                            }
                        }
                    }
                }
                Ok(())
            },
            None => Err(TmdError::Attachment(String::from_str("attachment id not found"))),
        }
    }

    /// Look up metadata by identifier.
    pub fn meta(&self, id: AttachmentId) -> (r: Option<&AttachmentMeta>)
        requires
            self.wf(),
        ensures
            r is Some <==> has_id(self@, id),
            r matches Some(m) ==> m@ == self@[idx_of_id(self@, id)].meta,
    {
        match self.position_by_id(id) {
            Some(i) => {
                proof {
                    lemma_idx_of_id_unique(self@, id, i as int);
                }
                Some(&self.entries[i].meta)
            },
            None => None,
        }
    }

    /// Look up metadata by exact logical path.
    pub fn meta_by_path(&self, logical_path: &str) -> (r: Option<&AttachmentMeta>)
        requires
            self.wf(),
        ensures
            r is Some <==> has_path(self@, logical_path@),
            r matches Some(m) ==> m@ == self@[idx_of_path(self@, logical_path@)].meta,
    {
        match self.position_by_path(logical_path) {
            Some(i) => {
                proof {
                    lemma_idx_of_path_unique(self@, logical_path@, i as int);
                }
                Some(&self.entries[i].meta)
            },
            None => None,
        }
    }

    /// Borrow an attachment's bytes by identifier.
    pub fn data(&self, id: AttachmentId) -> (r: Option<&Vec<u8>>)
        requires
            self.wf(),
        ensures
            r is Some <==> has_id(self@, id),
            r matches Some(d) ==> d@ == self@[idx_of_id(self@, id)].data,
    {
        match self.position_by_id(id) {
            Some(i) => {
                proof {
                    lemma_idx_of_id_unique(self@, id, i as int);
                }
                Some(&self.entries[i].data)
            },
            None => None,
        }
    }

    /// Scoped mutable access to an attachment's bytes.  The mutator receives
    /// the entry's current bytes and returns the new ones, which are stored;
    /// on return, length and digest are unconditionally recomputed from the
    /// stored bytes, so no caller can observe a stale digest.  Returns
    /// whether the attachment existed.
    pub fn data_mut<F: FnOnce(Vec<u8>) -> Vec<u8>>(&mut self, id: AttachmentId, f: F) -> (r: bool)
        requires
            old(self).wf(),
            forall|v: Vec<u8>| #[trigger] f.requires((v,)),
        ensures
            final(self).wf(),
            r <==> has_id(old(self)@, id),
            r ==> {
                let i = idx_of_id(old(self)@, id);
                exists|v0: Vec<u8>, v2: Vec<u8>|
                    {
                        &&& #[trigger] call_ensures(f, (v0,), v2)
                        &&& v0@ == old(self)@[i].data
                        &&& v2@.len() <= u64::MAX
                        &&& final(self)@ == old(self)@.update(i,
                            EntryView {
                                meta: AttachmentMetaView {
                                    length: v2@.len() as u64,
                                    sha256: Some(sha256_of(v2@)),
                                    ..old(self)@[i].meta
                                },
                                data: v2@,
                            },
                        )
                    }
            },
            !r ==> final(self)@ == old(self)@,
    {
        let ghost prev = self@;
        match self.position_by_id(id) {
            Some(i) => {
                proof {
                    assert(has_id(prev, id));
                    assert(idx_of_id(prev, id) == i as int);
                }
                let e = &self.entries[i];
                let d0 = clone_bytes(&e.data);
                let ghost gv0 = d0;
                let d2 = f(d0);
                let ghost gv2 = d2;
                let length: u64 = d2.len() as u64;
                let dig: Vec<u8> = sha256(d2.as_slice());
                let meta = AttachmentMeta {
                    id: e.meta.id,
                    logical_path: e.meta.logical_path.clone(),
                    media_type: e.meta.media_type.clone(),
                    length,
                    sha256: Some(dig),
                    title: clone_opt_string(&e.meta.title),
                    alt: clone_opt_string(&e.meta.alt),
                    extras: e.meta.extras.clone(),
                };
                self.entries.set(i, AttachmentEntry { meta, data: d2 });
                proof {
                    assert(self@ =~= prev.update(i as int, self@[i as int]));
                    assert forall|a: int, b: int| 0 <= a < b < self@.len() implies
                        #[trigger] self@[a].meta.id != #[trigger] self@[b].meta.id by {
                        assert(self@[a].meta.id == prev[a].meta.id);
                        assert(self@[b].meta.id == prev[b].meta.id);
                    }
                    assert forall|a: int, b: int| 0 <= a < b < self@.len() implies
                        #[trigger] self@[a].meta.logical_path
                            != #[trigger] self@[b].meta.logical_path by {
                        assert(self@[a].meta.logical_path == prev[a].meta.logical_path);
                        assert(self@[b].meta.logical_path == prev[b].meta.logical_path);
                    }
                    assert(call_ensures(f, (gv0,), gv2));
                    assert(gv0@ == prev[i as int].data);
                    assert(self@ =~= prev.update(i as int,
                        EntryView {
                            meta: AttachmentMetaView {
                                length: gv2@.len() as u64,
                                sha256: Some(sha256_of(gv2@)),
                                ..prev[i as int].meta
                            },
                            data: gv2@,
                        },
                    ));
                }
                true
            },
            None => false,
        }
    }

    /// A snapshot of all attachment metadata, in store order.
    pub fn iter(&self) -> (r: Vec<AttachmentMeta>)
        ensures
            meta_views(r@) == metas_of(self@),
    {
        let mut out: Vec<AttachmentMeta> = Vec::new();
        let mut i: usize = 0;
        while i < self.entries.len()
            invariant
                i <= self.entries@.len(),
                self@.len() == self.entries@.len(),
                meta_views(out@) == metas_of(self@.take(i as int)),
            decreases self.entries@.len() - i,
        {
            let m = self.entries[i].meta.clone();
            let ghost prevout = out@;
            out.push(m);
            proof {
                lemma_meta_views_push(prevout, m);
                assert(self@.take(i + 1) =~= self@.take(i as int).push(self@[i as int]));
                lemma_metas_of_push(self@.take(i as int), self@[i as int]);
                assert(meta_views(out@) =~= metas_of(self@.take(i + 1)));
            }
            i = i + 1;
        }
        proof {
            assert(self@.take(self@.len() as int) =~= self@);
        }
        out
    }

    /// A snapshot of all metadata together with copies of the bytes.
    pub fn iter_with_data(&self) -> (r: Vec<(AttachmentMeta, Vec<u8>)>)
        ensures
            pair_views(r@) == self@,
    {
        let mut out: Vec<(AttachmentMeta, Vec<u8>)> = Vec::new();
        let mut i: usize = 0;
        while i < self.entries.len()
            invariant
                i <= self.entries@.len(),
                self@.len() == self.entries@.len(),
                pair_views(out@) == self@.take(i as int),
            decreases self.entries@.len() - i,
        {
            let m = self.entries[i].meta.clone();
            let d = clone_bytes(&self.entries[i].data);
            let ghost prevout = out@;
            out.push((m, d));
            proof {
                lemma_pair_views_push(prevout, (m, d));
                assert(self@.take(i + 1) =~= self@.take(i as int).push(self@[i as int]));
                assert(pair_views(out@) =~= self@.take(i + 1));
            }
            i = i + 1;
        }
        proof {
            assert(self@.take(self@.len() as int) =~= self@);
        }
        out
    }

    /// Whether the store holds no attachments.
    pub fn is_empty(&self) -> (r: bool)
        ensures
            r == (self@.len() == 0),
    {
        self.entries.len() == 0
    }

    /// Number of attachments.
    pub fn len(&self) -> (r: usize)
        ensures
            r == self@.len(),
    {
        self.entries.len()
    }

    /// Insert an entry with declared metadata, as the codec's read path does.
    /// The stored digest is always recomputed from the bytes; when `verify`
    /// is set, a declared digest that disagrees with the computed one is a
    /// content-mismatch error.  A declared length that disagrees with the
    /// bytes is always an error.
    pub fn insert_entry(&mut self, meta: AttachmentMeta, data: Vec<u8>, verify_hashes: bool)
        -> (r: TmdResult<()>)
        requires
            old(self).wf(),
        ensures
            final(self).wf(),
            r is Ok <==> {
                &&& is_normal_path(meta@.logical_path)
                &&& !has_id(old(self)@, meta@.id)
                &&& !has_path(old(self)@, meta@.logical_path)
                &&& meta@.length == data@.len()
                &&& (verify_hashes ==> match meta@.sha256 {
                    Some(d) => d == sha256_of(data@),
                    None => true,
                })
            },
            r is Ok ==> final(self)@ == old(self)@.push(
                EntryView {
                    meta: AttachmentMetaView {
                        sha256: Some(sha256_of(data@)),
                        ..meta@
                    },
                    data: data@,
                },
            ),
            r is Err ==> final(self)@ == old(self)@,
            r matches Err(e) ==> e is Attachment,
    {
        if !path_is_normal(meta.logical_path.as_str()) {
            let mut m = String::from_str("attachment `");
            m.append(meta.logical_path.as_str());
            m.append("` has an invalid logical path");
            return Err(TmdError::Attachment(m));
        }
        if self.position_by_id(meta.id).is_some() {
            return Err(TmdError::Attachment(String::from_str("attachment id already exists")));
        }
        if self.position_by_path(meta.logical_path.as_str()).is_some() {
            let mut m = String::from_str("attachment `");
            m.append(meta.logical_path.as_str());
            m.append("` already exists");
            return Err(TmdError::Attachment(m));
        }
        let length: u64 = data.len() as u64;
        if length != meta.length {
            let mut m = String::from_str("attachment `");
            m.append(meta.logical_path.as_str());
            m.append("` length mismatch: manifest=");
            m.append(dec_string(meta.length).as_str());
            m.append(" actual=");
            m.append(dec_string(length).as_str());
            return Err(TmdError::Attachment(m));
        }
        let dig: Vec<u8> = sha256(data.as_slice());
        if verify_hashes {
            match &meta.sha256 {
                Some(declared) => {
                    if !bytes_eq(declared, &dig) {
                        let mut m = String::from_str("attachment `");
                        m.append(meta.logical_path.as_str());
                        m.append("` sha256 mismatch: manifest=");
                        m.append(hex_string(declared).as_str());
                        m.append(" actual=");
                        m.append(hex_string(&dig).as_str());
                        return Err(TmdError::Attachment(m));
                    }
                },
                None => {},
            }
        }
        let ghost prev = self@;
        let stored = AttachmentMeta {
            id: meta.id,
            logical_path: meta.logical_path,
            media_type: meta.media_type,
            length: meta.length,
            sha256: Some(dig),
            title: meta.title,
            alt: meta.alt,
            extras: meta.extras,
        };
        self.entries.push(AttachmentEntry { meta: stored, data });
        proof {
            assert(self@ =~= prev.push(self.entries@.last()@));
            assert forall|i: int, j: int| 0 <= i < j < self@.len() implies
                #[trigger] self@[i].meta.id != #[trigger] self@[j].meta.id by {
                if j == self@.len() - 1 {
                    assert(!has_id(prev, meta@.id));
                    assert(prev[i] == self@[i]);
                }
            }
            assert forall|i: int, j: int| 0 <= i < j < self@.len() implies
                #[trigger] self@[i].meta.logical_path != #[trigger] self@[j].meta.logical_path by {
                if j == self@.len() - 1 {
                    assert(!has_path(prev, meta@.logical_path));
                    assert(prev[i] == self@[i]);
                }
            }
        }
        Ok(())
    }
}

/// The metadata views of a vector of metadata.
pub open spec fn meta_views(v: Seq<AttachmentMeta>) -> Seq<AttachmentMetaView> {
    v.map_values(|m: AttachmentMeta| m@)
}

/// The metadata of each entry, in order.
pub open spec fn metas_of(s: Seq<EntryView>) -> Seq<AttachmentMetaView> {
    s.map_values(|e: EntryView| e.meta)
}

/// The views of a vector of metadata/bytes pairs.
pub open spec fn pair_views(v: Seq<(AttachmentMeta, Vec<u8>)>) -> Seq<EntryView> {
    v.map_values(|p: (AttachmentMeta, Vec<u8>)| EntryView { meta: p.0@, data: p.1@ })
}

/// Pushing onto a metadata vector pushes its view.
pub proof fn lemma_meta_views_push(v: Seq<AttachmentMeta>, m: AttachmentMeta)
    ensures
        meta_views(v.push(m)) =~= meta_views(v).push(m@),
{
    assert forall|j: int| 0 <= j < v.len() + 1 implies meta_views(v.push(m))[j] == meta_views(
        v,
    ).push(m@)[j] by {
        if j < v.len() {
            assert(v.push(m)[j] == v[j]);
        } else {
            assert(v.push(m)[j] == m);
        }
    }
}

/// Pushing onto an entry-view sequence pushes its metadata.
pub proof fn lemma_metas_of_push(s: Seq<EntryView>, e: EntryView)
    ensures
        metas_of(s.push(e)) =~= metas_of(s).push(e.meta),
{
    assert forall|j: int| 0 <= j < s.len() + 1 implies metas_of(s.push(e))[j] == metas_of(
        s,
    ).push(e.meta)[j] by {
        if j < s.len() {
            assert(s.push(e)[j] == s[j]);
        } else {
            assert(s.push(e)[j] == e);
        }
    }
}

/// Pushing onto a pair vector pushes its view.
pub proof fn lemma_pair_views_push(v: Seq<(AttachmentMeta, Vec<u8>)>, p: (AttachmentMeta, Vec<u8>))
    ensures
        pair_views(v.push(p)) =~= pair_views(v).push(EntryView { meta: p.0@, data: p.1@ }),
{
    assert forall|j: int| 0 <= j < v.len() + 1 implies pair_views(v.push(p))[j] == pair_views(
        v,
    ).push(EntryView { meta: p.0@, data: p.1@ })[j] by {
        if j < v.len() {
            assert(v.push(p)[j] == v[j]);
        } else {
            assert(v.push(p)[j] == p);
        }
    }
}

/// In a well-formed sequence an identifier picks out a single index.
pub proof fn lemma_idx_of_id_unique(s: Seq<EntryView>, id: Uid, i: int)
    requires
        forall|a: int, b: int|
            0 <= a < b < s.len() ==> #[trigger] s[a].meta.id != #[trigger] s[b].meta.id,
        0 <= i < s.len(),
        s[i].meta.id == id,
    ensures
        has_id(s, id),
        idx_of_id(s, id) == i,
{
    assert(has_id(s, id));
    let k = idx_of_id(s, id);
    assert(0 <= k < s.len() && s[k].meta.id == id);
    if k < i {
        assert(s[k].meta.id != s[i].meta.id);
    } else if i < k {
        assert(s[i].meta.id != s[k].meta.id);
    }
}

/// In a well-formed sequence a logical path picks out a single index.
pub proof fn lemma_idx_of_path_unique(s: Seq<EntryView>, p: Seq<char>, i: int)
    requires
        forall|a: int, b: int|
            0 <= a < b < s.len() ==> #[trigger] s[a].meta.logical_path
                != #[trigger] s[b].meta.logical_path,
        0 <= i < s.len(),
        s[i].meta.logical_path == p,
    ensures
        has_path(s, p),
        idx_of_path(s, p) == i,
{
    assert(has_path(s, p));
    let k = idx_of_path(s, p);
    assert(0 <= k < s.len() && s[k].meta.logical_path == p);
    if k < i {
        assert(s[k].meta.logical_path != s[i].meta.logical_path);
    } else if i < k {
        assert(s[i].meta.logical_path != s[k].meta.logical_path);
    }
}

/// In a well-formed store every attachment's recorded length and digest are
/// derived from its current bytes — there is no observable instant with a
/// stale digest, since every operation of the store preserves
/// well-formedness.
pub proof fn lemma_digests_always_derived(s: &AttachmentStore)
    requires
        s.wf(),
    ensures
        forall|i: int| 0 <= i < s@.len() ==> (#[trigger] s@[i]).meta.length == s@[i].data.len()
            && s@[i].meta.sha256 == Some(sha256_of(s@[i].data)),
{
}

/// Whether a path string is already in normal form.
pub fn path_is_normal(p: &str) -> (r: bool)
    ensures
        r == is_normal_path(p@),
{
    match normalize_logical_path(p) {
        Ok(n) => str_eq(n.as_str(), p),
        Err(_) => false,
    }
}

/// Decimal text of a number, for error messages.
fn dec_string(n: u64) -> (r: String) {
    let mut b: Vec<u8> = Vec::new();
    crate::numfmt::push_dec(&mut b, n);
    match crate::strutil::string_from_utf8(b) {
        Some(s) => s,
        None => String::new(),
    }
}

/// Lowercase hex text of bytes, for error messages.
fn hex_string(d: &Vec<u8>) -> (r: String) {
    let mut b: Vec<u8> = Vec::new();
    crate::numfmt::push_hex(&mut b, d.as_slice());
    match crate::strutil::string_from_utf8(b) {
        Some(s) => s,
        None => String::new(),
    }
}

/// Byte-vector equality.
pub fn bytes_eq(a: &Vec<u8>, b: &Vec<u8>) -> (r: bool)
    ensures
        r == (a@ == b@),
{
    if a.len() != b.len() {
        return false;
    }
    let mut i: usize = 0;
    while i < a.len()
        invariant
            a@.len() == b@.len(),
            i <= a@.len(),
            forall|j: int| 0 <= j < i ==> a@[j] == b@[j],
        decreases a@.len() - i,
    {
        if a[i] != b[i] {
            return false;
        }
        i = i + 1;
    }
    proof {
        assert(a@ =~= b@);
    }
    true
}

} // verus!
