//! The document manifest and attachment metadata: the structured data
//! serialized into the manifest and attachment-list entries of the container.

use vstd::prelude::*;
use crate::ids::{AttachmentId, Uid};

verus! {

/// Format version triple.
#[derive(Clone, Copy, Debug, PartialEq, Eq, Structural)]
pub struct Semver {
    pub major: u16,
    pub minor: u16,
    pub patch: u16,
}

/// Reference to an attachment by identifier.
#[derive(Clone, Copy, Debug, PartialEq, Eq, Structural)]
pub struct AttachmentRef {
    pub id: AttachmentId,
}

/// A typed link: a relation name and a target.
#[derive(Debug)]
pub struct LinkRef {
    pub rel: String,
    pub href: String,
}

/// Mathematical model of a typed link.
pub ghost struct LinkRefView {
    pub rel: Seq<char>,
    pub href: Seq<char>,
}

impl View for LinkRef {
    type V = LinkRefView;

    open spec fn view(&self) -> LinkRefView {
        LinkRefView { rel: self.rel@, href: self.href@ }
    }
}

impl Clone for LinkRef {
    fn clone(&self) -> (r: Self)
        ensures
            r@ == self@,
    {
        LinkRef { rel: self.rel.clone(), href: self.href.clone() }
    }
}

/// The view of an optional string.
pub open spec fn opt_view(o: Option<String>) -> Option<Seq<char>> {
    match o {
        Some(s) => Some(s@),
        None => None,
    }
}

/// The views of a vector of strings.
pub open spec fn vec_views(v: Seq<String>) -> Seq<Seq<char>> {
    v.map_values(|s: String| s@)
}

/// The views of a vector of links.
pub open spec fn link_views(v: Seq<LinkRef>) -> Seq<LinkRefView> {
    v.map_values(|l: LinkRef| l@)
}

/// The document's structured metadata.
#[derive(Debug)]
pub struct Manifest {
    /// Container format version.
    pub tmd_version: Semver,
    /// Stable document identifier, assigned at creation.
    pub doc_id: Uid,
    pub title: Option<String>,
    pub authors: Vec<String>,
    /// Creation time, milliseconds since the Unix epoch.
    pub created_utc: u64,
    /// Last modification time, milliseconds since the Unix epoch.
    pub modified_utc: u64,
    pub tags: Vec<String>,
    /// Cover image, by attachment identifier.
    pub cover_image: Option<AttachmentRef>,
    pub links: Vec<LinkRef>,
    /// Informational mirror of the embedded database's version counter.
    pub db_schema_version: Option<u32>,
    /// Forward-compatible extension data, as raw JSON text.
    pub extras: String,
}

/// Mathematical model of a manifest.
pub ghost struct ManifestView {
    pub tmd_version: Semver,
    pub doc_id: Uid,
    pub title: Option<Seq<char>>,
    pub authors: Seq<Seq<char>>,
    pub created_utc: u64,
    pub modified_utc: u64,
    pub tags: Seq<Seq<char>>,
    pub cover_image: Option<AttachmentRef>,
    pub links: Seq<LinkRefView>,
    pub db_schema_version: Option<u32>,
    pub extras: Seq<char>,
}

impl View for Manifest {
    type V = ManifestView;

    open spec fn view(&self) -> ManifestView {
        ManifestView {
            tmd_version: self.tmd_version,
            doc_id: self.doc_id,
            title: opt_view(self.title),
            authors: vec_views(self.authors@),
            created_utc: self.created_utc,
            modified_utc: self.modified_utc,
            tags: vec_views(self.tags@),
            cover_image: self.cover_image,
            links: link_views(self.links@),
            db_schema_version: self.db_schema_version,
            extras: self.extras@,
        }
    }
}

impl Manifest {
    /// The manifest invariant: a document is never modified before it is
    /// created.
    pub open spec fn wf(&self) -> bool {
        self.modified_utc >= self.created_utc
    }
}

/// Metadata of one attachment.
#[derive(Debug)]
pub struct AttachmentMeta {
    /// Opaque identifier, immutable for the attachment's lifetime.
    pub id: AttachmentId,
    /// Normalized logical path, unique within the document.
    pub logical_path: String,
    /// Declared media type.
    pub media_type: String,
    /// Byte length, derived from the current bytes.
    pub length: u64,
    /// SHA-256 content digest, derived from the current bytes.
    pub sha256: Option<Vec<u8>>,
    pub title: Option<String>,
    pub alt: Option<String>,
    /// Forward-compatible extension data, as raw JSON text.
    pub extras: String,
}

/// Mathematical model of attachment metadata.
pub ghost struct AttachmentMetaView {
    pub id: AttachmentId,
    pub logical_path: Seq<char>,
    pub media_type: Seq<char>,
    pub length: u64,
    pub sha256: Option<Seq<u8>>,
    pub title: Option<Seq<char>>,
    pub alt: Option<Seq<char>>,
    pub extras: Seq<char>,
}

impl View for AttachmentMeta {
    type V = AttachmentMetaView;

    open spec fn view(&self) -> AttachmentMetaView {
        AttachmentMetaView {
            id: self.id,
            logical_path: self.logical_path@,
            media_type: self.media_type@,
            length: self.length,
            sha256: match self.sha256 {
                Some(ref d) => Some(d@),
                None => None,
            },
            title: opt_view(self.title),
            alt: opt_view(self.alt),
            extras: self.extras@,
        }
    }
}

/// Pushing onto a vector of strings pushes its view.
pub proof fn lemma_vec_views_push(s: Seq<String>, x: String)
    ensures
        vec_views(s.push(x)) =~= vec_views(s).push(x@),
{
    assert forall|j: int| 0 <= j < s.len() + 1 implies vec_views(s.push(x))[j] == vec_views(
        s,
    ).push(x@)[j] by {
        if j < s.len() {
            assert(s.push(x)[j] == s[j]);
        } else {
            assert(s.push(x)[j] == x);
        }
    }
}

/// Pushing onto a vector of links pushes its view.
pub proof fn lemma_link_views_push(s: Seq<LinkRef>, x: LinkRef)
    ensures
        link_views(s.push(x)) =~= link_views(s).push(x@),
{
    assert forall|j: int| 0 <= j < s.len() + 1 implies link_views(s.push(x))[j] == link_views(
        s,
    ).push(x@)[j] by {
        if j < s.len() {
            assert(s.push(x)[j] == s[j]);
        } else {
            assert(s.push(x)[j] == x);
        }
    }
}

/// Clone an optional string, preserving its view.
pub fn clone_opt_string(o: &Option<String>) -> (r: Option<String>)
    ensures
        opt_view(r) == opt_view(*o),
{
    match o {
        Some(s) => Some(s.clone()),
        None => None,
    }
}

/// Clone a vector of strings, preserving its views.
pub fn clone_string_vec(v: &Vec<String>) -> (r: Vec<String>)
    ensures
        vec_views(r@) == vec_views(v@),
{
    let mut out: Vec<String> = Vec::new();
    let mut i: usize = 0;
    while i < v.len()
        invariant
            i <= v@.len(),
            vec_views(out@) == vec_views(v@.take(i as int)),
        decreases v@.len() - i,
    {
        let x = v[i].clone();
        let ghost prev = out@;
        out.push(x);
        proof {
            lemma_vec_views_push(prev, x);
            assert(v@.take(i + 1) =~= v@.take(i as int).push(v@[i as int]));
            lemma_vec_views_push(v@.take(i as int), v@[i as int]);
            assert(vec_views(out@) =~= vec_views(v@.take(i + 1)));
        }
        i = i + 1;
    }
    proof {
        assert(v@.take(v@.len() as int) =~= v@);
    }
    out
}

impl Clone for AttachmentMeta {
    fn clone(&self) -> (r: Self)
        ensures
            r@ == self@,
    {
        AttachmentMeta {
            id: self.id,
            logical_path: self.logical_path.clone(),
            media_type: self.media_type.clone(),
            length: self.length,
            sha256: match &self.sha256 {
                Some(d) => Some(clone_bytes(d)),
                None => None,
            },
            title: clone_opt_string(&self.title),
            alt: clone_opt_string(&self.alt),
            extras: self.extras.clone(),
        }
    }
}

/// Clone a byte vector, preserving its view.
pub fn clone_bytes(v: &Vec<u8>) -> (r: Vec<u8>)
    ensures
        r@ == v@,
{
    let mut out: Vec<u8> = Vec::new();
    let mut i: usize = 0;
    while i < v.len()
        invariant
            i <= v@.len(),
            out@ == v@.take(i as int),
        decreases v@.len() - i,
    {
        out.push(v[i]);
        proof {
            assert(out@ =~= v@.take(i + 1));
        }
        i = i + 1;
    }
    proof {
        assert(v@.take(v@.len() as int) =~= v@);
    }
    out
}

impl Clone for Manifest {
    fn clone(&self) -> (r: Self)
        ensures
            r@ == self@,
    {
        let mut links: Vec<LinkRef> = Vec::new();
        let mut i: usize = 0;
        while i < self.links.len()
            invariant
                i <= self.links@.len(),
                link_views(links@) == link_views(self.links@.take(i as int)),
            decreases self.links@.len() - i,
        {
            let x = self.links[i].clone();
            let ghost prev = links@;
            links.push(x);
            proof {
                lemma_link_views_push(prev, x);
                assert(self.links@.take(i + 1) =~= self.links@.take(i as int).push(
                    self.links@[i as int],
                ));
                lemma_link_views_push(self.links@.take(i as int), self.links@[i as int]);
                assert(link_views(links@) =~= link_views(self.links@.take(i + 1)));
            }
            i = i + 1;
        }
        proof {
            assert(self.links@.take(self.links@.len() as int) =~= self.links@);
        }
        Manifest {
            tmd_version: self.tmd_version,
            doc_id: self.doc_id,
            title: clone_opt_string(&self.title),
            authors: clone_string_vec(&self.authors),
            created_utc: self.created_utc,
            modified_utc: self.modified_utc,
            tags: clone_string_vec(&self.tags),
            cover_image: self.cover_image,
            links,
            db_schema_version: self.db_schema_version,
            extras: self.extras.clone(),
        }
    }
}

} // verus!
