//! The container codec: the two on-disk formats, the end-marker trailer that
//! makes the hybrid format both readable text and a valid archive, and the
//! assembly of whole documents from archive entries.

use vstd::prelude::*;
use vstd::bytes::{spec_u16_to_le_bytes, spec_u64_to_le_bytes, spec_u16_from_le_bytes,
    spec_u64_from_le_bytes, u16_to_le_bytes, u64_to_le_bytes, u64_from_le_bytes};
use vstd::slice::slice_subrange;
use vstd::string::StrSliceExecFns;
use vstd::utf8::{encode_utf8, valid_utf8};
use crate::archive::{EntryPair, EntryPairView, bpair_views, sig_end, archive_bytes,
    sp_parse_archive, encode_archive, decode_archive, copy_range, archive_fits, segs_bytes,
    cd_bytes, eocd_bytes, lemma_eocd_len, lemma_archive_round_trip};
use crate::attach::{AttachmentStore, EntryView, has_id, has_path, meta_views, metas_of,
    lemma_meta_views_push, bytes_eq};
use crate::db::DbHandle;
use crate::doc::TmdDoc;
use crate::json::{b_sub, eat_lit, push_lit, sp_eat, strip_ws, strip_json_ws};
use crate::manifest::{AttachmentMeta, Manifest, ManifestView, AttachmentMetaView, clone_bytes};
use crate::digest::sha256_of;
use crate::manifest_json::{em_manifest, em_attachments, sp_manifest, sp_attachments,
    push_manifest_json, push_attachments_json, parse_manifest_json, parse_attachments_json};
use crate::order::{sort_entries, sort_pairs, spair_views};
use crate::path::is_normal_path;
use crate::strutil::string_from_utf8;
use crate::{TmdError, TmdResult};

verus! {

/// The reserved name of the manifest entry.
pub open spec fn name_manifest() -> Seq<u8> {
    seq![109u8, 97, 110, 105, 102, 101, 115, 116, 46, 106, 115, 111, 110]
}

/// Executable copy of `name_manifest`.
pub fn name_manifest_vec() -> (r: Vec<u8>)
    ensures
        r@ == name_manifest(),
{
    let r = vec![109u8, 97, 110, 105, 102, 101, 115, 116, 46, 106, 115, 111, 110];
    proof {
        assert(r@ =~= name_manifest());
    }
    r
}

/// The reserved entry name `index.md`.
pub open spec fn name_index() -> Seq<u8> {
    seq![105u8, 110, 100, 101, 120, 46, 109, 100]
}

/// Executable copy of `name_index`.
pub fn name_index_vec() -> (r: Vec<u8>)
    ensures
        r@ == name_index(),
{
    let r = vec![105u8, 110, 100, 101, 120, 46, 109, 100];
    proof {
        assert(r@ =~= name_index());
    }
    r
}

/// The reserved entry name `attachments.json`.
pub open spec fn name_attjson() -> Seq<u8> {
    seq![97u8, 116, 116, 97, 99, 104, 109, 101, 110, 116, 115, 46, 106, 115, 111, 110]
}

/// Executable copy of `name_attjson`.
pub fn name_attjson_vec() -> (r: Vec<u8>)
    ensures
        r@ == name_attjson(),
{
    let r = vec![97u8, 116, 116, 97, 99, 104, 109, 101, 110, 116, 115, 46, 106, 115, 111, 110];
    proof {
        assert(r@ =~= name_attjson());
    }
    r
}

/// The reserved entry name `db/main.sqlite3`.
pub open spec fn name_db() -> Seq<u8> {
    seq![100u8, 98, 47, 109, 97, 105, 110, 46, 115, 113, 108, 105, 116, 101, 51]
}

/// Executable copy of `name_db`.
pub fn name_db_vec() -> (r: Vec<u8>)
    ensures
        r@ == name_db(),
{
    let r = vec![100u8, 98, 47, 109, 97, 105, 110, 46, 115, 113, 108, 105, 116, 101, 51];
    proof {
        assert(r@ =~= name_db());
    }
    r
}

/// The 16-byte magic header identifying the embedded database format.
pub open spec fn db_magic() -> Seq<u8> {
    seq![83u8, 81, 76, 105, 116, 101, 32, 102, 111, 114, 109, 97, 116, 32, 51, 0]
}

/// Executable copy of `db_magic`.
pub fn db_magic_vec() -> (r: Vec<u8>)
    ensures
        r@ == db_magic(),
{
    let r = vec![83u8, 81, 76, 105, 116, 101, 32, 102, 111, 114, 109, 97, 116, 32, 51, 0];
    proof {
        assert(r@ =~= db_magic());
    }
    r
}

/// The five-byte signature opening the hybrid format's trailer.
pub open spec fn tmd_comment_prefix() -> Seq<u8> {
    seq![84u8, 77, 68, 49, 0]
}

/// Executable copy of `tmd_comment_prefix`.
pub fn tmd_comment_prefix_vec() -> (r: Vec<u8>)
    ensures
        r@ == tmd_comment_prefix(),
{
    let r = vec![84u8, 77, 68, 49, 0];
    proof {
        assert(r@ =~= tmd_comment_prefix());
    }
    r
}

// ---------------------------------------------------------------------------
// Formats and modes
// ---------------------------------------------------------------------------

/// The two on-disk container formats.
#[derive(Clone, Copy, Debug, PartialEq, Eq, Structural)]
pub enum Format {
    /// The hybrid single-file format: Markdown prefix, archive suffix.
    Tmd,
    /// The plain archive format.
    Tmdz,
}

/// What a leading fragment of a file says about its format: an archive
/// signature means the plain format, any other nonempty prefix the hybrid
/// one.
pub open spec fn sniff_spec(h: Seq<u8>) -> Option<Format> {
    if h.len() >= 4 && h[0] == 0x50 && h[1] == 0x4B && h[2] == 0x03 && h[3] == 0x04 {
        Some(Format::Tmdz)
    } else if h.len() > 0 {
        Some(Format::Tmd)
    } else {
        None
    }
}

/// Guess the container format from the first bytes of a file.
pub fn sniff_format(header: &[u8]) -> (r: Option<Format>)
    ensures
        r == sniff_spec(header@),
{
    if header.len() >= 4 && header[0] == 0x50 && header[1] == 0x4B && header[2] == 0x03
        && header[3] == 0x04 {
        Some(Format::Tmdz)
    } else if header.len() > 0 {
        Some(Format::Tmd)
    } else {
        None
    }
}

/// Read-path configuration.
#[derive(Clone, Copy, Debug)]
pub struct ReadMode {
    /// Whether attachment digests are recomputed and checked against the
    /// declared metadata during decode.
    pub verify_hashes: bool,
    /// Whether attachment bytes may be loaded lazily (an optimization hint;
    /// this codec always loads eagerly).
    pub lazy_attachments: bool,
}

impl Default for ReadMode {
    /// Verify digests; load eagerly.
    fn default() -> (r: Self)
        ensures
            r.verify_hashes,
            !r.lazy_attachments,
    {
        ReadMode { verify_hashes: true, lazy_attachments: false }
    }
}

/// Write-path configuration.  Both fields are consistency aids; output
/// correctness does not depend on them and this codec always computes
/// digests and never deduplicates.
#[derive(Clone, Copy, Debug)]
pub struct WriteMode {
    pub compute_hashes: bool,
    pub solid_zip: bool,
    pub dedup_by_hash: bool,
}

impl Default for WriteMode {
    /// Compute digests; no solid archive; no deduplication.
    fn default() -> (r: Self)
        ensures
            r.compute_hashes,
            !r.solid_zip,
            !r.dedup_by_hash,
    {
        WriteMode { compute_hashes: true, solid_zip: false, dedup_by_hash: false }
    }
}

// ---------------------------------------------------------------------------
// The end-marker trailer
// ---------------------------------------------------------------------------

/// Scan downward from `i` to `lo` for the end-marker signature, returning
/// the highest match.
pub open spec fn eocd_scan(b: Seq<u8>, i: int, lo: int) -> Option<int>
    decreases i - lo + 1,
{
    if i < lo {
        None
    } else if b_sub(b, i, 4) == sig_end() {
        Some(i)
    } else {
        eocd_scan(b, i - 1, lo)
    }
}

/// The bounded backward search for the end marker: the signature cannot be
/// farther from the end than the maximum comment length plus the fixed
/// record size.
pub open spec fn find_eocd(b: Seq<u8>) -> Option<int> {
    if b.len() < 22 {
        None
    } else {
        let lo = if b.len() > 0xFFFF + 22 {
            b.len() - 0xFFFF - 22
        } else {
            0
        };
        eocd_scan(b, b.len() - 22, lo as int)
    }
}

/// Find the end-marker record by bounded backward scan.
pub fn find_eocd_offset(v: &[u8]) -> (r: TmdResult<usize>)
    ensures
        r matches Ok(i) ==> find_eocd(v@) == Some(i as int),
        r is Err ==> find_eocd(v@) is None,
        r matches Err(e) ==> e is InvalidFormat,
{
    let n: usize = v.len();
    if n < 22 {
        return Err(TmdError::InvalidFormat(String::from_str(
            "input too small to contain an end marker",
        )));
    }
    let lo: usize = if n > 0xFFFF + 22 {
        n - 0xFFFF - 22
    } else {
        0
    };
    let mut i: usize = n - 22;
    loop
        invariant
            n == v@.len(),
            n >= 22,
            lo == if n > 0xFFFF + 22 {
                n - 0xFFFF - 22
            } else {
                0
            },
            lo <= i <= n - 22,
            find_eocd(v@) == eocd_scan(v@, i as int, lo as int),
        decreases i,
    {
        if v[i] == 0x50 && v[i + 1] == 0x4B && v[i + 2] == 0x05 && v[i + 3] == 0x06 {
            proof {
                assert(b_sub(v@, i as int, 4) =~= sig_end());
            }
            return Ok(i);
        }
        proof {
            assert(b_sub(v@, i as int, 4) != sig_end()) by {
                assert(b_sub(v@, i as int, 4)[0] == v@[i as int]);
                assert(b_sub(v@, i as int, 4)[1] == v@[i as int + 1]);
                assert(b_sub(v@, i as int, 4)[2] == v@[i as int + 2]);
                assert(b_sub(v@, i as int, 4)[3] == v@[i as int + 3]);
            }
        }
        if i == lo {
            proof {
                assert(eocd_scan(v@, i as int, lo as int) == eocd_scan(v@, i as int - 1,
                    lo as int));
                assert(eocd_scan(v@, i as int - 1, lo as int) is None);
            }
            return Err(TmdError::InvalidFormat(String::from_str(
                "archive end marker not found",
            )));
        }
        i = i - 1;
    }
}

/// The Markdown prefix length carried by a trailer comment: the fixed
/// signature followed by eight little-endian length bytes.
pub open spec fn sp_extract_md_len(c: Seq<u8>) -> Option<u64> {
    if c.len() == 13 && c.subrange(0, 5) == tmd_comment_prefix() {
        Some(spec_u64_from_le_bytes(c.subrange(5, 13)))
    } else {
        None
    }
}

/// Read the Markdown prefix length out of a trailer comment.
pub fn extract_markdown_len_from_comment(c: &[u8]) -> (r: TmdResult<u64>)
    ensures
        r matches Ok(x) ==> sp_extract_md_len(c@) == Some(x),
        r is Err ==> sp_extract_md_len(c@) is None,
        r matches Err(e) ==> e is InvalidFormat,
{
    if c.len() != 13 {
        return Err(TmdError::InvalidFormat(String::from_str(
            "unexpected trailer comment length",
        )));
    }
    match eat_lit(c, 0, tmd_comment_prefix_vec().as_slice()) {
        Some(_) => {
            proof {
                assert(c@.subrange(0, 5) =~= b_sub(c@, 0, 5));
            }
            Ok(u64_from_le_bytes(slice_subrange(c, 5, 13)))
        },
        None => {
            proof {
                assert(b_sub(c@, 0, 5) =~= c@.subrange(0, 5));
            }
            Err(TmdError::InvalidFormat(String::from_str(
                "missing trailer signature",
            )))
        },
    }
}

/// Split a hybrid buffer at the Markdown length recorded in the trailer.
pub open spec fn sp_split_tmd(b: Seq<u8>) -> Option<(Seq<u8>, Seq<u8>)> {
    match find_eocd(b) {
        Some(e) => {
            let clen = spec_u16_from_le_bytes(b_sub(b, e + 20, 2));
            if e + 22 + clen > b.len() {
                None
            } else {
                match sp_extract_md_len(b_sub(b, e + 22, clen as int)) {
                    Some(md_len) => if md_len > b.len() {
                        None
                    } else {
                        Some((b.take(md_len as int), b.skip(md_len as int)))
                    },
                    None => None,
                }
            }
        },
        None => None,
    }
}

/// Split a hybrid buffer into its Markdown prefix and archive suffix, going
/// by the trailer in the end-marker comment.
pub fn split_tmd_bytes(v: &[u8]) -> (r: TmdResult<(Vec<u8>, Vec<u8>)>)
    ensures
        r matches Ok((md, z)) ==> sp_split_tmd(v@) == Some((md@, z@)),
        r is Err ==> sp_split_tmd(v@) is None,
        r matches Err(e) ==> e is InvalidFormat,
{
    let n: usize = v.len();
    let e: usize = match find_eocd_offset(v) {
        Ok(i) => i,
        Err(err) => {
            return Err(err);
        },
    };
    proof {
        lemma_eocd_in_range(v@, e as int);
    }
    let clen: u16 = vstd::bytes::u16_from_le_bytes(slice_subrange(v, e + 20, e + 22));
    if ((n - e) as u64) < 22 + clen as u64 {
        return Err(TmdError::InvalidFormat(String::from_str(
            "end-marker comment exceeds buffer",
        )));
    }
    let comment: Vec<u8> = copy_range(v, e + 22, clen as usize);
    let md_len: u64 = match extract_markdown_len_from_comment(comment.as_slice()) {
        Ok(x) => x,
        Err(err) => {
            return Err(err);
        },
    };
    if md_len > n as u64 {
        return Err(TmdError::InvalidFormat(String::from_str(
            "markdown length exceeds buffer",
        )));
    }
    let md: Vec<u8> = copy_range(v, 0, md_len as usize);
    let z: Vec<u8> = copy_range(v, md_len as usize, n - md_len as usize);
    proof {
        assert(md@ =~= v@.take(md_len as int));
        assert(z@ =~= v@.skip(md_len as int));
    }
    Ok((md, z))
}

/// A found end marker leaves room for its fixed fields.
pub proof fn lemma_eocd_in_range(b: Seq<u8>, e: int)
    requires
        find_eocd(b) == Some(e),
    ensures
        0 <= e <= b.len() - 22,
{
    if b.len() >= 22 {
        let lo = if b.len() > 0xFFFF + 22 {
            b.len() - 0xFFFF - 22
        } else {
            0
        };
        lemma_eocd_scan_range(b, b.len() - 22, lo as int, e);
    }
}

/// The scan only returns positions within its range.
proof fn lemma_eocd_scan_range(b: Seq<u8>, i: int, lo: int, e: int)
    requires
        eocd_scan(b, i, lo) == Some(e),
        0 <= lo,
    ensures
        lo <= e <= i,
    decreases i - lo + 1,
{
    if i >= lo && b_sub(b, i, 4) != sig_end() {
        lemma_eocd_scan_range(b, i - 1, lo, e);
    }
}

/// The trailer comment recording a Markdown prefix length.
pub open spec fn trailer_of(md_len: u64) -> Seq<u8> {
    tmd_comment_prefix() + spec_u64_to_le_bytes(md_len)
}

/// Patch an archive's end-marker comment to the trailer for `md_len`: fix
/// the comment-length field, drop any previous comment, append the trailer.
pub open spec fn patch_spec(b: Seq<u8>, md_len: u64) -> Option<Seq<u8>> {
    match find_eocd(b) {
        Some(e) => Some(b.take(e + 20) + spec_u16_to_le_bytes(13) + trailer_of(md_len)),
        None => None,
    }
}

/// Overwrite the end-marker comment with the hybrid trailer for `md_len`.
pub fn set_tmd_comment(zip_bytes: &mut Vec<u8>, markdown_len: u64) -> (r: TmdResult<()>)
    ensures
        r is Ok ==> patch_spec(old(zip_bytes)@, markdown_len) == Some(final(zip_bytes)@),
        r is Err ==> final(zip_bytes)@ == old(zip_bytes)@ && patch_spec(old(zip_bytes)@,
            markdown_len) is None,
        r matches Err(e) ==> e is InvalidFormat,
{
    let n: usize = zip_bytes.len();
    let e: usize = match find_eocd_offset(zip_bytes.as_slice()) {
        Ok(i) => i,
        Err(err) => {
            return Err(err);
        },
    };
    proof {
        lemma_eocd_in_range(zip_bytes@, e as int);
        assert(e + 22 <= n);
    }
    zip_bytes.truncate(e + 20);
    push_lit(zip_bytes, u16_to_le_bytes(13).as_slice());
    push_lit(zip_bytes, tmd_comment_prefix_vec().as_slice());
    push_lit(zip_bytes, u64_to_le_bytes(markdown_len).as_slice());
    proof {
        assert(old(zip_bytes)@.take(e as int + 20) =~= old(zip_bytes)@.subrange(0, e + 20));
        assert(zip_bytes@ =~= old(zip_bytes)@.take(e as int + 20) + spec_u16_to_le_bytes(13)
            + trailer_of(markdown_len));
    }
    Ok(())
}

// ---------------------------------------------------------------------------
// Entry lookup and container assembly
// ---------------------------------------------------------------------------

/// The bytes of the first entry with the given name, if any.
pub open spec fn find_entry(es: Seq<EntryPairView>, name: Seq<u8>) -> Option<Seq<u8>>
    decreases es.len(),
{
    if es.len() == 0 {
        None
    } else if es[0].0 == name {
        Some(es[0].1)
    } else {
        find_entry(es.drop_first(), name)
    }
}

/// Find the index of the first entry with the given name.
pub fn lookup_entry(entries: &Vec<EntryPair>, name: &[u8]) -> (r: Option<usize>)
    ensures
        r matches Some(i) ==> i < entries@.len() && bpair_views(entries@)[i as int].0 == name@
            && find_entry(bpair_views(entries@), name@) == Some(bpair_views(entries@)[
            i as int].1),
        r is None ==> find_entry(bpair_views(entries@), name@) is None,
{
    let ghost es = bpair_views(entries@);
    let mut i: usize = 0;
    proof {
        assert(es.skip(0) =~= es);
    }
    while i < entries.len()
        invariant
            es == bpair_views(entries@),
            es.len() == entries@.len(),
            i <= entries@.len(),
            find_entry(es, name@) == find_entry(es.skip(i as int), name@),
        decreases entries@.len() - i,
    {
        proof {
            assert(es[i as int] == (entries@[i as int].0@, entries@[i as int].1@));
            assert(es.skip(i as int)[0] == es[i as int]);
            assert(es.skip(i as int).drop_first() =~= es.skip(i + 1));
        }
        if slices_eq(entries[i].0.as_slice(), name) {
            return Some(i);
        }
        i = i + 1;
    }
    proof {
        assert(es.skip(es.len() as int) =~= Seq::<EntryPairView>::empty());
    }
    None
}

/// Byte-slice equality.
pub fn slices_eq(a: &[u8], b: &[u8]) -> (r: bool)
    ensures
        r == (a@ == b@),
{
    let n: usize = a.len();
    if n != b.len() {
        return false;
    }
    let mut i: usize = 0;
    while i < n
        invariant
            n == a@.len() == b@.len(),
            i <= n,
            forall|j: int| 0 <= j < i ==> a@[j] == b@[j],
        decreases n - i,
    {
        if a[i] != b[i] {
            return false;
        }
        i = i + 1;
    }
    proof {
        assert(a@ =~= b@);
    }
    true
}

/// One archive entry per attachment, at its logical path.
pub open spec fn att_pairs(atts: Seq<EntryView>) -> Seq<EntryPairView> {
    atts.map_values(|e: EntryView| (encode_utf8(e.meta.logical_path), e.data))
}

/// The full entry list of a container: the three structured documents, the
/// embedded database bytes, then one entry per attachment, sorted by path.
pub open spec fn container_entries(markdown: Seq<char>, mf: ManifestView, atts: Seq<EntryView>,
    db: Seq<u8>) -> Seq<EntryPairView> {
    seq![
        (name_manifest(), em_manifest(mf)),
        (name_index(), encode_utf8(markdown)),
        (name_attjson(), em_attachments(metas_of(atts))),
        (name_db(), db),
    ] + att_pairs(atts)
}

/// Build the archive entry list for a document around the given database
/// bytes.
#[verifier::rlimit(100)]
pub fn entries_for_doc(doc: &TmdDoc, db_bytes: Vec<u8>) -> (r: Vec<EntryPair>)
    ensures
        bpair_views(r@) == container_entries(doc.markdown@, doc.manifest@, sort_entries(
            doc.attachments@), db_bytes@),
{
    let ghost sorted_v = sort_entries(doc.attachments@);
    let mut entries: Vec<EntryPair> = Vec::new();
    let mut mj: Vec<u8> = Vec::new();
    push_manifest_json(&mut mj, &doc.manifest);
    entries.push((name_manifest_vec(), mj));
    entries.push((name_index_vec(), doc.markdown.as_str().as_bytes_vec()));
    let sorted: Vec<(AttachmentMeta, Vec<u8>)> = sort_pairs(doc.attachments.iter_with_data());
    proof {
        assert(spair_views(sorted@) == sorted_v);
    }
    let mut metas: Vec<AttachmentMeta> = Vec::new();
    let mut k: usize = 0;
    while k < sorted.len()
        invariant
            spair_views(sorted@) == sorted_v,
            k <= sorted@.len(),
            meta_views(metas@) == metas_of(sorted_v.take(k as int)),
        decreases sorted@.len() - k,
    {
        let m = sorted[k].0.clone();
        let ghost prev = metas@;
        metas.push(m);
        proof {
            assert(sorted_v[k as int] == EntryView { meta: sorted@[k as int].0@, data: sorted@[
                k as int].1@ });
            lemma_meta_views_push(prev, metas@[metas@.len() - 1]);
            assert(sorted_v.take(k + 1).drop_last() =~= sorted_v.take(k as int));
            assert(sorted_v.take(k + 1).last() == sorted_v[k as int]);
            assert(metas_of(sorted_v.take(k + 1)) =~= metas_of(sorted_v.take(k as int)).push(
                sorted_v[k as int].meta));
            assert(meta_views(metas@) =~= metas_of(sorted_v.take(k + 1)));
        }
        k = k + 1;
    }
    proof {
        assert(sorted_v.take(sorted_v.len() as int) =~= sorted_v);
    }
    let mut aj: Vec<u8> = Vec::new();
    push_attachments_json(&mut aj, &metas);
    entries.push((name_attjson_vec(), aj));
    entries.push((name_db_vec(), db_bytes));
    let ghost base = bpair_views(entries@);
    let mut k2: usize = 0;
    while k2 < sorted.len()
        invariant
            spair_views(sorted@) == sorted_v,
            k2 <= sorted@.len(),
            bpair_views(entries@) == base + att_pairs(sorted_v.take(k2 as int)),
        decreases sorted@.len() - k2,
    {
        let nm: Vec<u8> = sorted[k2].0.logical_path.as_str().as_bytes_vec();
        let dt: Vec<u8> = clone_bytes(&sorted[k2].1);
        let ghost prev = bpair_views(entries@);
        entries.push((nm, dt));
        proof {
            assert(sorted_v[k2 as int] == EntryView { meta: sorted@[k2 as int].0@, data: sorted@[
                k2 as int].1@ });
            assert(bpair_views(entries@) =~= prev.push((encode_utf8(
                sorted_v[k2 as int].meta.logical_path), sorted_v[k2 as int].data)));
            assert(sorted_v.take(k2 + 1).drop_last() =~= sorted_v.take(k2 as int));
            assert(sorted_v.take(k2 + 1).last() == sorted_v[k2 as int]);
            assert(att_pairs(sorted_v.take(k2 + 1)) =~= att_pairs(sorted_v.take(k2 as int)).push(
                (encode_utf8(sorted_v[k2 as int].meta.logical_path), sorted_v[k2 as int].data)));
            assert(bpair_views(entries@) =~= base + att_pairs(sorted_v.take(k2 + 1)));
        }
        k2 = k2 + 1;
    }
    proof {
        assert(sorted_v.take(sorted_v.len() as int) =~= sorted_v);
        assert(base =~= seq![
            (name_manifest(), em_manifest(doc.manifest@)),
            (name_index(), encode_utf8(doc.markdown@)),
            (name_attjson(), em_attachments(metas_of(sorted_v))),
            (name_db(), db_bytes@),
        ]);
    }
    entries
}

// ---------------------------------------------------------------------------
// Reading a document out of archive entries
// ---------------------------------------------------------------------------

/// Whether a name is one of the four reserved entry names.
pub open spec fn reserved_name(n: Seq<u8>) -> bool {
    n == name_manifest() || n == name_index() || n == name_attjson() || n == name_db()
}

/// How a decoded store relates to declared metadata and the archive entries:
/// entry `k` of the store carries declared metadata `k` (with the digest
/// derived from the actual bytes and the path in normal form), and its bytes
/// are the archive entry at its declared path.
#[verifier::opaque]
pub open spec fn atts_match(declared: Seq<AttachmentMetaView>, atts: Seq<EntryView>,
    es: Seq<EntryPairView>, verify: bool) -> bool {
    &&& atts.len() == declared.len()
    &&& forall|k: int| 0 <= k < atts.len() ==> {
        let d = declared[k];
        let a = #[trigger] atts[k];
        &&& a.meta == AttachmentMetaView { sha256: Some(sha256_of(a.data)), ..d }
        &&& is_normal_path(d.logical_path)
        &&& find_entry(es, encode_utf8(d.logical_path)) == Some(a.data)
        &&& d.length == a.data.len()
        &&& (verify ==> match d.sha256 {
            Some(x) => x == sha256_of(a.data),
            None => true,
        })
    }
}

/// Every archive entry is reserved or stands at the logical path of some
/// decoded attachment (defence against archive-based injection).
#[verifier::opaque]
pub open spec fn all_declared(es: Seq<EntryPairView>, atts: Seq<EntryView>) -> bool {
    forall|i: int| 0 <= i < es.len() ==> reserved_name(#[trigger] es[i].0) || exists|k: int|
        0 <= k < atts.len() && encode_utf8(#[trigger] atts[k].meta.logical_path) == es[i].0
}

/// How a decoded document's manifest, attachments and database relate to the
/// archive entries it was read from.  The manifest and attachment-list texts
/// are read with insignificant whitespace removed.
#[verifier::opaque]
pub open spec fn doc_matches_entries(es: Seq<EntryPairView>, mf: ManifestView,
    atts: Seq<EntryView>, verify: bool) -> bool {
    &&& find_entry(es, name_manifest()) is Some
    &&& sp_manifest(strip_ws(find_entry(es, name_manifest()).unwrap())) == Some(mf)
    &&& mf.modified_utc >= mf.created_utc
    &&& find_entry(es, name_attjson()) is Some
    &&& sp_attachments(strip_ws(find_entry(es, name_attjson()).unwrap())) is Some
    &&& atts_match(sp_attachments(strip_ws(find_entry(es, name_attjson()).unwrap())).unwrap(),
        atts, es, verify)
    &&& find_entry(es, name_db()) is Some
    &&& find_entry(es, name_db()).unwrap().len() >= 16
    &&& find_entry(es, name_db()).unwrap().take(16) == db_magic()
    &&& all_declared(es, atts)
}

/// Every archive entry is reserved or carries the path of a declared
/// attachment.
#[verifier::opaque]
pub open spec fn all_names_declared(es: Seq<EntryPairView>, decl: Seq<AttachmentMetaView>)
    -> bool {
    forall|i: int| 0 <= i < es.len() ==> reserved_name(#[trigger] es[i].0) || exists|k: int|
        0 <= k < decl.len() && encode_utf8(#[trigger] decl[k].logical_path) == es[i].0
}

/// Every declared attachment can be inserted: identifiers and paths unique,
/// paths in normal form, bytes present at the declared path, and length (and
/// digest, when checked) agreeing with those bytes.
#[verifier::opaque]
pub open spec fn declared_ok(decl: Seq<AttachmentMetaView>, es: Seq<EntryPairView>,
    verify: bool) -> bool {
    &&& forall|i: int, j: int| 0 <= i < j < decl.len() ==> #[trigger] decl[i].id
        != #[trigger] decl[j].id
    &&& forall|i: int, j: int| 0 <= i < j < decl.len() ==> #[trigger] decl[i].logical_path
        != #[trigger] decl[j].logical_path
    &&& forall|k: int| 0 <= k < decl.len() ==> {
        let d = #[trigger] decl[k];
        &&& is_normal_path(d.logical_path)
        &&& find_entry(es, encode_utf8(d.logical_path)) is Some
        &&& d.length == find_entry(es, encode_utf8(d.logical_path)).unwrap().len()
        &&& (verify ==> match d.sha256 {
            Some(x) => x == sha256_of(find_entry(es, encode_utf8(d.logical_path)).unwrap()),
            None => true,
        })
    }
}

/// The declared attachment list of an entry set whose structural stages
/// passed.
pub open spec fn sp_declared(es: Seq<EntryPairView>) -> Seq<AttachmentMetaView> {
    sp_attachments(strip_ws(find_entry(es, name_attjson()).unwrap())).unwrap()
}

/// The outcome the staged decode checks assign to an entry list, in the
/// order the checks run.
#[derive(Clone, Copy, Debug, PartialEq, Eq, Structural)]
pub enum DecodeVerdict {
    /// Every library-side check passes; only the database materialisation
    /// (an outside call) can still fail.
    Accept,
    /// A reserved entry is missing or malformed at the byte level, the
    /// manifest breaks its timestamp invariant, or an entry is undeclared.
    RejectStructure,
    /// The manifest or the attachment list does not parse.
    RejectJson,
    /// A declared attachment is absent, duplicated, invalid, or fails its
    /// length or digest check.
    RejectAttachment,
}

/// The staged decode verdict of an entry list.
#[verifier::opaque]
pub open spec fn sp_read_verdict(es: Seq<EntryPairView>, verify: bool) -> DecodeVerdict {
    if find_entry(es, name_index()) is None {
        DecodeVerdict::RejectStructure
    } else if !valid_utf8(find_entry(es, name_index()).unwrap()) {
        DecodeVerdict::RejectStructure
    } else if find_entry(es, name_manifest()) is None {
        DecodeVerdict::RejectStructure
    } else if sp_manifest(strip_ws(find_entry(es, name_manifest()).unwrap())) is None {
        DecodeVerdict::RejectJson
    } else if sp_manifest(strip_ws(find_entry(es, name_manifest()).unwrap())).unwrap().modified_utc
        < sp_manifest(strip_ws(find_entry(es, name_manifest()).unwrap())).unwrap().created_utc {
        DecodeVerdict::RejectStructure
    } else if find_entry(es, name_attjson()) is None {
        DecodeVerdict::RejectStructure
    } else if sp_attachments(strip_ws(find_entry(es, name_attjson()).unwrap())) is None {
        DecodeVerdict::RejectJson
    } else if find_entry(es, name_db()) is None {
        DecodeVerdict::RejectStructure
    } else if !(find_entry(es, name_db()).unwrap().len() >= 16 && find_entry(es,
        name_db()).unwrap().take(16) == db_magic()) {
        DecodeVerdict::RejectStructure
    } else if !all_names_declared(es, sp_declared(es)) {
        DecodeVerdict::RejectStructure
    } else if !declared_ok(sp_declared(es), es, verify) {
        DecodeVerdict::RejectAttachment
    } else {
        DecodeVerdict::Accept
    }
}

/// Check that every archive entry is either reserved or declared in the
/// attachment list.
fn check_all_declared(entries: &Vec<EntryPair>, declared: &Vec<AttachmentMeta>)
    -> (r: TmdResult<()>)
    ensures
        r is Ok <==> all_names_declared(bpair_views(entries@), meta_views(declared@)),
        r matches Err(e) ==> e is InvalidFormat,
{
    let ghost es = bpair_views(entries@);
    let ghost decl = meta_views(declared@);
    let mut i: usize = 0;
    while i < entries.len()
        invariant
            es == bpair_views(entries@),
            es.len() == entries@.len(),
            decl == meta_views(declared@),
            decl.len() == declared@.len(),
            i <= entries@.len(),
            forall|j: int| 0 <= j < i ==> reserved_name(#[trigger] es[j].0) || exists|k: int|
                0 <= k < decl.len() && encode_utf8(#[trigger] decl[k].logical_path) == es[j].0,
        decreases entries@.len() - i,
    {
        proof {
            assert(es[i as int] == (entries@[i as int].0@, entries@[i as int].1@));
        }
        let nm: &Vec<u8> = &entries[i].0;
        let is_reserved: bool = slices_eq(nm.as_slice(), name_manifest_vec().as_slice())
            || slices_eq(nm.as_slice(), name_index_vec().as_slice()) || slices_eq(nm.as_slice(),
            name_attjson_vec().as_slice()) || slices_eq(nm.as_slice(), name_db_vec().as_slice());
        if !is_reserved {
            let mut found: bool = false;
            let mut k: usize = 0;
            while k < declared.len() && !found
                invariant
                    es == bpair_views(entries@),
                    decl == meta_views(declared@),
                    decl.len() == declared@.len(),
                    i < entries@.len(),
                    es.len() == entries@.len(),
                    es[i as int].0 == entries@[i as int].0@,
                    nm@ == es[i as int].0,
                    k <= declared@.len(),
                    found ==> exists|x: int| 0 <= x < decl.len() && encode_utf8(
                        #[trigger] decl[x].logical_path) == es[i as int].0,
                    !found ==> forall|x: int| 0 <= x < k ==> encode_utf8(
                        #[trigger] decl[x].logical_path) != es[i as int].0,
                decreases declared@.len() - k,
            {
                proof {
                    assert(decl[k as int] == declared@[k as int]@);
                }
                if slices_eq(declared[k].logical_path.as_str().as_bytes(), nm.as_slice()) {
                    proof {
                        assert(encode_utf8(decl[k as int].logical_path) == es[i as int].0);
                    }
                    found = true;
                }
                k = k + 1;
            }
            if !found {
                proof {
                    assert(!all_names_declared(es, decl)) by {
                        reveal(all_names_declared);
                        assert(!reserved_name(es[i as int].0));
                        assert(forall|x: int| 0 <= x < decl.len() ==> encode_utf8(
                            #[trigger] decl[x].logical_path) != es[i as int].0);
                    }
                }
                return Err(TmdError::InvalidFormat(String::from_str(
                    "undeclared archive entry",
                )));
            }
        } else {
            proof {
                assert(reserved_name(es[i as int].0));
            }
        }
        i = i + 1;
    }
    proof {
        assert(all_names_declared(es, decl)) by {
            reveal(all_names_declared);
        }
    }
    Ok(())
}

/// Insert every declared attachment, taking its bytes from the archive entry
/// at its declared path and checking them as configured.
#[verifier::spinoff_prover]
#[verifier::rlimit(100)]
fn build_store(entries: &Vec<EntryPair>, declared: &Vec<AttachmentMeta>, verify: bool)
    -> (r: TmdResult<AttachmentStore>)
    ensures
        r matches Ok(store) ==> store.wf() && atts_match(meta_views(declared@), store@,
            bpair_views(entries@), verify) && declared_ok(meta_views(declared@),
            bpair_views(entries@), verify),
        r matches Err(e) ==> e is Attachment && !declared_ok(meta_views(declared@),
            bpair_views(entries@), verify),
{
    let ghost es = bpair_views(entries@);
    let ghost decl = meta_views(declared@);
    let mut store: AttachmentStore = AttachmentStore::new();
    let mut k: usize = 0;
    while k < declared.len()
        invariant
            es == bpair_views(entries@),
            decl == meta_views(declared@),
            decl.len() == declared@.len(),
            k <= declared@.len(),
            store.wf(),
            store@.len() == k,
            forall|j: int| 0 <= j < k ==> {
                let d = decl[j];
                let a = #[trigger] store@[j];
                &&& a.meta == AttachmentMetaView { sha256: Some(sha256_of(a.data)), ..d }
                &&& is_normal_path(d.logical_path)
                &&& find_entry(es, encode_utf8(d.logical_path)) == Some(a.data)
                &&& d.length == a.data.len()
                &&& (verify ==> match d.sha256 {
                    Some(x) => x == sha256_of(a.data),
                    None => true,
                })
            },
        decreases declared@.len() - k,
    {
        proof {
            assert(decl[k as int] == declared@[k as int]@);
        }
        let meta: AttachmentMeta = declared[k].clone();
        let di: usize = match lookup_entry(entries, meta.logical_path.as_str().as_bytes()) {
            Some(i2) => i2,
            None => {
                proof {
                    assert(!declared_ok(decl, es, verify)) by {
                        reveal(declared_ok);
                        assert(find_entry(es, encode_utf8(decl[k as int].logical_path)) is None);
                    }
                }
                let mut m = String::from_str("attachment data for `");
                m.append(meta.logical_path.as_str());
                m.append("` missing");
                return Err(TmdError::Attachment(m));
            },
        };
        let data: Vec<u8> = clone_bytes(&entries[di].1);
        let ghost gdata = data@;
        let ghost prev = store@;
        match store.insert_entry(meta, data, verify) {
            Ok(()) => {},
            Err(e) => {
                proof {
                    let d = decl[k as int];
                    assert(gdata == find_entry(es, encode_utf8(d.logical_path)).unwrap());
                    assert(!declared_ok(decl, es, verify)) by {
                        reveal(declared_ok);
                        if !is_normal_path(d.logical_path) {
                        } else if has_id(prev, d.id) {
                            let j = choose|j: int|
                                0 <= j < prev.len() && #[trigger] prev[j].meta.id == d.id;
                            assert(decl[j].id == d.id);
                        } else if has_path(prev, d.logical_path) {
                            let j = choose|j: int|
                                0 <= j < prev.len() && #[trigger] prev[j].meta.logical_path
                                    == d.logical_path;
                            assert(decl[j].logical_path == d.logical_path);
                        } else if d.length != gdata.len() {
                        } else {
                            assert(verify && match d.sha256 {
                                Some(x) => x != sha256_of(gdata),
                                None => false,
                            });
                        }
                    }
                }
                return Err(e);
            },
        }
        proof {
            assert(store@ == prev.push(store@.last()));
            assert(store@.last().meta == AttachmentMetaView {
                sha256: Some(sha256_of(store@.last().data)),
                ..decl[k as int]
            });
        }
        k = k + 1;
    }
    proof {
        assert(atts_match(decl, store@, es, verify)) by {
            reveal(atts_match);
        }
        assert(declared_ok(decl, es, verify)) by {
            reveal(declared_ok);
            assert forall|i: int, j: int| 0 <= i < j < decl.len() implies #[trigger] decl[i].id
                != #[trigger] decl[j].id by {
                assert(store@[i].meta.id == decl[i].id);
                assert(store@[j].meta.id == decl[j].id);
            }
            assert forall|i: int, j: int| 0 <= i < j < decl.len() implies
                #[trigger] decl[i].logical_path != #[trigger] decl[j].logical_path by {
                assert(store@[i].meta.logical_path == decl[i].logical_path);
                assert(store@[j].meta.logical_path == decl[j].logical_path);
            }
            assert forall|k2: int| 0 <= k2 < decl.len() implies {
                let d = #[trigger] decl[k2];
                &&& is_normal_path(d.logical_path)
                &&& find_entry(es, encode_utf8(d.logical_path)) is Some
                &&& d.length == find_entry(es, encode_utf8(d.logical_path)).unwrap().len()
                &&& (verify ==> match d.sha256 {
                    Some(x) => x == sha256_of(find_entry(es, encode_utf8(
                        d.logical_path)).unwrap()),
                    None => true,
                })
            } by {
                assert(store@[k2].meta == AttachmentMetaView {
                    sha256: Some(sha256_of(store@[k2].data)),
                    ..decl[k2]
                });
                assert(find_entry(es, encode_utf8(decl[k2].logical_path)) == Some(
                    store@[k2].data,
                ));
            }
        }
    }
    Ok(store)
}

/// How the staged verdict evaluates under each stage's outcome, in check
/// order.
#[verifier::spinoff_prover]
#[verifier::rlimit(100)]
proof fn lemma_read_verdict_cases(es: Seq<EntryPairView>, verify: bool)
    ensures
        find_entry(es, name_index()) is None ==> sp_read_verdict(es, verify)
            == DecodeVerdict::RejectStructure,
        find_entry(es, name_index()) is Some && !valid_utf8(find_entry(es,
            name_index()).unwrap()) ==> sp_read_verdict(es, verify)
            == DecodeVerdict::RejectStructure,
        stage_index_ok(es) && find_entry(es, name_manifest()) is None ==> sp_read_verdict(es,
            verify) == DecodeVerdict::RejectStructure,
        stage_index_ok(es) && find_entry(es, name_manifest()) is Some && sp_manifest(strip_ws(
            find_entry(es, name_manifest()).unwrap())) is None ==> sp_read_verdict(es, verify)
            == DecodeVerdict::RejectJson,
        stage_manifest_ok(es) is Some && stage_manifest_ok(es).unwrap().modified_utc
            < stage_manifest_ok(es).unwrap().created_utc ==> sp_read_verdict(es, verify)
            == DecodeVerdict::RejectStructure,
        stage_wf_manifest_ok(es) && find_entry(es, name_attjson()) is None ==> sp_read_verdict(
            es, verify) == DecodeVerdict::RejectStructure,
        stage_wf_manifest_ok(es) && find_entry(es, name_attjson()) is Some && sp_attachments(
            strip_ws(find_entry(es, name_attjson()).unwrap())) is None ==> sp_read_verdict(es,
            verify) == DecodeVerdict::RejectJson,
        stage_attjson_ok(es) && find_entry(es, name_db()) is None ==> sp_read_verdict(es, verify)
            == DecodeVerdict::RejectStructure,
        stage_attjson_ok(es) && find_entry(es, name_db()) is Some && !(find_entry(es,
            name_db()).unwrap().len() >= 16 && find_entry(es, name_db()).unwrap().take(16)
            == db_magic()) ==> sp_read_verdict(es, verify) == DecodeVerdict::RejectStructure,
        stage_db_ok(es) && !all_names_declared(es, sp_declared(es)) ==> sp_read_verdict(es,
            verify) == DecodeVerdict::RejectStructure,
        stage_db_ok(es) && all_names_declared(es, sp_declared(es)) ==> sp_read_verdict(es,
            verify) == (if declared_ok(sp_declared(es), es, verify) {
            DecodeVerdict::Accept
        } else {
            DecodeVerdict::RejectAttachment
        }),
{
    reveal(sp_read_verdict);
}

/// The Markdown entry is present and valid UTF-8.
pub open spec fn stage_index_ok(es: Seq<EntryPairView>) -> bool {
    &&& find_entry(es, name_index()) is Some
    &&& valid_utf8(find_entry(es, name_index()).unwrap())
}

/// The manifest entry, parsed, once the Markdown stage passed.
pub open spec fn stage_manifest_ok(es: Seq<EntryPairView>) -> Option<ManifestView> {
    if stage_index_ok(es) && find_entry(es, name_manifest()) is Some {
        sp_manifest(strip_ws(find_entry(es, name_manifest()).unwrap()))
    } else {
        None
    }
}

/// The manifest parsed and respects its timestamp invariant.
pub open spec fn stage_wf_manifest_ok(es: Seq<EntryPairView>) -> bool {
    &&& stage_manifest_ok(es) is Some
    &&& stage_manifest_ok(es).unwrap().modified_utc >= stage_manifest_ok(es).unwrap().created_utc
}

/// The attachment list parsed as well.
pub open spec fn stage_attjson_ok(es: Seq<EntryPairView>) -> bool {
    &&& stage_wf_manifest_ok(es)
    &&& find_entry(es, name_attjson()) is Some
    &&& sp_attachments(strip_ws(find_entry(es, name_attjson()).unwrap())) is Some
}

/// The database entry is present with its magic header.
pub open spec fn stage_db_ok(es: Seq<EntryPairView>) -> bool {
    &&& stage_attjson_ok(es)
    &&& find_entry(es, name_db()) is Some
    &&& find_entry(es, name_db()).unwrap().len() >= 16
    &&& find_entry(es, name_db()).unwrap().take(16) == db_magic()
}

/// Locate and parse the reserved entries of a container, in the staged
/// order of `sp_read_verdict`: the Markdown text, the manifest (whose
/// timestamp invariant must hold), the declared attachment list, and the
/// database entry with its magic header; finally every other entry must be
/// declared.
#[verifier::spinoff_prover]
#[verifier::rlimit(100)]
fn locate_and_parse(entries: &Vec<EntryPair>, mode: ReadMode)
    -> (r: TmdResult<(String, Manifest, Vec<AttachmentMeta>, usize)>)
    ensures
        r matches Ok(t) ==> {
            &&& find_entry(bpair_views(entries@), name_index()) == Some(encode_utf8(t.0@))
            &&& find_entry(bpair_views(entries@), name_manifest()) is Some
            &&& sp_manifest(strip_ws(find_entry(bpair_views(entries@),
                name_manifest()).unwrap())) == Some(t.1@)
            &&& t.1@.modified_utc >= t.1@.created_utc
            &&& find_entry(bpair_views(entries@), name_attjson()) is Some
            &&& sp_attachments(strip_ws(find_entry(bpair_views(entries@),
                name_attjson()).unwrap())) == Some(meta_views(t.2@))
            &&& t.3 < bpair_views(entries@).len()
            &&& find_entry(bpair_views(entries@), name_db()) == Some(bpair_views(entries@)[
                t.3 as int].1)
            &&& find_entry(bpair_views(entries@), name_db()).unwrap().len() >= 16
            &&& find_entry(bpair_views(entries@), name_db()).unwrap().take(16) == db_magic()
            &&& all_names_declared(bpair_views(entries@), meta_views(t.2@))
            &&& sp_read_verdict(bpair_views(entries@), mode.verify_hashes) == (
            if declared_ok(meta_views(t.2@), bpair_views(entries@), mode.verify_hashes) {
                DecodeVerdict::Accept
            } else {
                DecodeVerdict::RejectAttachment
            })
        },
        sp_read_verdict(bpair_views(entries@), mode.verify_hashes)
            == DecodeVerdict::RejectStructure ==> (r matches Err(e) && e is InvalidFormat),
        sp_read_verdict(bpair_views(entries@), mode.verify_hashes) == DecodeVerdict::RejectJson
            ==> (r matches Err(e) && e is Json),
        (sp_read_verdict(bpair_views(entries@), mode.verify_hashes) == DecodeVerdict::Accept
            || sp_read_verdict(bpair_views(entries@), mode.verify_hashes)
            == DecodeVerdict::RejectAttachment) ==> r is Ok,
{
    let ghost es = bpair_views(entries@);
    proof {
        lemma_read_verdict_cases(es, mode.verify_hashes);
    }
    // markdown
    let mdi: usize = match lookup_entry(entries, name_index_vec().as_slice()) {
        Some(i) => i,
        None => {
            return Err(TmdError::InvalidFormat(String::from_str("missing index.md entry")));
        },
    };
    let markdown: String = match string_from_utf8(clone_bytes(&entries[mdi].1)) {
        Some(s) => s,
        None => {
            return Err(TmdError::InvalidFormat(String::from_str(
                "markdown section is not valid UTF-8",
            )));
        },
    };
    // manifest
    let mfi: usize = match lookup_entry(entries, name_manifest_vec().as_slice()) {
        Some(i) => i,
        None => {
            return Err(TmdError::InvalidFormat(String::from_str("missing manifest entry")));
        },
    };
    let mf_text: Vec<u8> = strip_json_ws(entries[mfi].1.as_slice());
    let manifest: Manifest = match parse_manifest_json(mf_text.as_slice()) {
        Some(m) => m,
        None => {
            return Err(TmdError::Json(String::from_str("malformed manifest entry")));
        },
    };
    if manifest.modified_utc < manifest.created_utc {
        return Err(TmdError::InvalidFormat(String::from_str(
            "manifest modification time precedes its creation time",
        )));
    }
    // attachment list
    let aji: usize = match lookup_entry(entries, name_attjson_vec().as_slice()) {
        Some(i) => i,
        None => {
            return Err(TmdError::InvalidFormat(String::from_str(
                "missing attachments.json entry",
            )));
        },
    };
    let aj_text: Vec<u8> = strip_json_ws(entries[aji].1.as_slice());
    let declared: Vec<AttachmentMeta> = match parse_attachments_json(aj_text.as_slice()) {
        Some(d) => d,
        None => {
            return Err(TmdError::Json(String::from_str("malformed attachments.json")));
        },
    };
    // database bytes
    let dbi: usize = match lookup_entry(entries, name_db_vec().as_slice()) {
        Some(i) => i,
        None => {
            return Err(TmdError::InvalidFormat(String::from_str(
                "missing embedded database entry",
            )));
        },
    };
    match eat_lit(entries[dbi].1.as_slice(), 0, db_magic_vec().as_slice()) {
        Some(_) => {},
        None => {
            proof {
                assert(find_entry(es, name_db()).unwrap().take(16) =~= b_sub(find_entry(es,
                    name_db()).unwrap(), 0, 16) || find_entry(es, name_db()).unwrap().len() < 16);
            }
            return Err(TmdError::InvalidFormat(String::from_str(
                "embedded database entry is not a recognised database",
            )));
        },
    }
    proof {
        assert(find_entry(es, name_db()).unwrap().take(16) =~= b_sub(find_entry(es,
            name_db()).unwrap(), 0, 16));
    }
    // no undeclared entries
    match check_all_declared(entries, &declared) {
        Ok(()) => {},
        Err(e) => {
            return Err(e);
        },
    }
    Ok((markdown, manifest, declared, dbi))
}

/// Read a whole document out of decoded archive entries: the three
/// structured documents and the database are taken from their reserved
/// names, every other entry must be declared in the attachment list, and
/// each declared attachment is checked against its bytes as it is inserted.
/// The checks run in the staged order of `sp_read_verdict`, which fixes the
/// kind of every library-side error; once every check has passed, only the
/// database materialisation (an outside call) can still fail.
#[verifier::spinoff_prover]
#[verifier::rlimit(100)]
pub fn read_doc_from_entries(entries: &Vec<EntryPair>, mode: ReadMode) -> (r: TmdResult<TmdDoc>)
    ensures
        r matches Ok(d) ==> d.wf() && find_entry(bpair_views(entries@), name_index())
            == Some(encode_utf8(d.markdown@)) && doc_matches_entries(bpair_views(entries@),
            d.manifest@, d.attachments@, mode.verify_hashes) && sp_read_verdict(
            bpair_views(entries@), mode.verify_hashes) == DecodeVerdict::Accept,
        sp_read_verdict(bpair_views(entries@), mode.verify_hashes) == DecodeVerdict::Accept
            ==> r is Ok || (r matches Err(e) && e is Db),
        sp_read_verdict(bpair_views(entries@), mode.verify_hashes)
            == DecodeVerdict::RejectStructure ==> (r matches Err(e) && e is InvalidFormat),
        sp_read_verdict(bpair_views(entries@), mode.verify_hashes) == DecodeVerdict::RejectJson
            ==> (r matches Err(e) && e is Json),
        sp_read_verdict(bpair_views(entries@), mode.verify_hashes)
            == DecodeVerdict::RejectAttachment ==> (r matches Err(e) && e is Attachment),
{
    let ghost es = bpair_views(entries@);
    let parts: (String, Manifest, Vec<AttachmentMeta>, usize) = match locate_and_parse(entries,
        mode) {
        Ok(t) => t,
        Err(e) => {
            return Err(e);
        },
    };
    let markdown: String = parts.0;
    let manifest: Manifest = parts.1;
    let declared: Vec<AttachmentMeta> = parts.2;
    let dbi: usize = parts.3;
    // build the store from the declared list
    let store: AttachmentStore = match build_store(entries, &declared, mode.verify_hashes) {
        Ok(st) => st,
        Err(e) => {
            return Err(e);
        },
    };
    // materialise the database
    let mut db: DbHandle = match DbHandle::from_bytes(entries[dbi].1.as_slice()) {
        Ok(h) => h,
        Err(e) => {
            return Err(e);
        },
    };
    match db.ensure_initialized(None) {
        Ok(()) => {},
        Err(e) => {
            return Err(e);
        },
    }
    proof {
        let ghost decl = meta_views(declared@);
        assert(all_declared(es, store@)) by {
            reveal(all_declared);
            reveal(atts_match);
            reveal(all_names_declared);
            assert forall|i: int| 0 <= i < es.len() implies reserved_name(#[trigger] es[i].0)
                || exists|k: int| 0 <= k < store@.len() && encode_utf8(
                #[trigger] store@[k].meta.logical_path) == es[i].0 by {
                if !reserved_name(es[i].0) {
                    let k = choose|k: int|
                        0 <= k < decl.len() && encode_utf8(#[trigger] decl[k].logical_path)
                            == es[i].0;
                    assert(store@[k].meta.logical_path == decl[k].logical_path);
                    assert(encode_utf8(store@[k].meta.logical_path) == es[i].0);
                }
            }
        }
        assert(doc_matches_entries(es, manifest@, store@, mode.verify_hashes)) by {
            reveal(doc_matches_entries);
            assert(find_entry(es, name_manifest()) is Some);
            assert(sp_manifest(strip_ws(find_entry(es, name_manifest()).unwrap())) == Some(
                manifest@,
            ));
            assert(sp_attachments(strip_ws(find_entry(es, name_attjson()).unwrap())) == Some(
                meta_views(declared@),
            ));
            assert(atts_match(meta_views(declared@), store@, es, mode.verify_hashes));
            assert(find_entry(es, name_db()) is Some);
        }
    }
    Ok(TmdDoc { markdown, manifest, attachments: store, db })
}

// ---------------------------------------------------------------------------
// Whole-container read and write
// ---------------------------------------------------------------------------

/// What a plain-archive output looks like, for some embedded database bytes:
/// the archive of the container's entries, which respect the format limits,
/// with an empty comment.
#[verifier::opaque]
pub open spec fn is_tmdz_output(markdown: Seq<char>, mf: ManifestView, atts: Seq<EntryView>,
    out: Seq<u8>) -> bool {
    exists|db: Seq<u8>|
        #![trigger container_entries(markdown, mf, sort_entries(atts), db)]
        {
            &&& archive_fits(container_entries(markdown, mf, sort_entries(atts), db))
            &&& out == archive_bytes(container_entries(markdown, mf, sort_entries(atts), db),
                Seq::empty())
        }
}

/// Serialize a document to the plain archive format.  The write-mode fields
/// are consistency aids only; digests are always computed.
pub fn write_tmdz(doc: &TmdDoc, _mode: WriteMode) -> (r: TmdResult<Vec<u8>>)
    ensures
        r matches Ok(out) ==> is_tmdz_output(doc.markdown@, doc.manifest@, doc.attachments@,
            out@),
{
    let db: Vec<u8> = match doc.db.export_bytes() {
        Ok(b) => b,
        Err(e) => {
            return Err(e);
        },
    };
    let ghost dbv = db@;
    let entries: Vec<EntryPair> = entries_for_doc(doc, db);
    match encode_archive(&entries) {
        Ok(out) => {
            proof {
                assert(archive_fits(container_entries(doc.markdown@, doc.manifest@, sort_entries(
                    doc.attachments@), dbv)));
                assert(out@ == archive_bytes(container_entries(doc.markdown@, doc.manifest@,
                    sort_entries(doc.attachments@), dbv), Seq::empty()));
                assert(is_tmdz_output(doc.markdown@, doc.manifest@, doc.attachments@, out@)) by {
                    reveal(is_tmdz_output);
                }
            }
            Ok(out)
        },
        Err(e) => Err(e),
    }
}

/// What a hybrid-format output looks like, for some embedded database bytes:
/// the Markdown, then the archive (whose entries respect the format limits)
/// patched to carry the trailer.
#[verifier::opaque]
pub open spec fn tmd_bytes_for(markdown: Seq<char>, mf: ManifestView, atts: Seq<EntryView>,
    db: Seq<u8>, out: Seq<u8>) -> bool {
    let z = archive_bytes(container_entries(markdown, mf, sort_entries(atts), db), Seq::empty());
    &&& archive_fits(container_entries(markdown, mf, sort_entries(atts), db))
    &&& patch_spec(z, encode_utf8(markdown).len() as u64) matches Some(p) && out == encode_utf8(
        markdown,
    ) + p
}

/// What the hybrid writer guarantees of its output: for some embedded
/// database bytes, the output is the Markdown followed by the patched
/// archive.
#[verifier::opaque]
pub open spec fn tmd_bytes_output(markdown: Seq<char>, mf: ManifestView, atts: Seq<EntryView>,
    out: Seq<u8>) -> bool {
    exists|db: Seq<u8>| tmd_bytes_for(markdown, mf, atts, db, out)
}

/// Serialize a document to the hybrid format: the Markdown bytes verbatim,
/// followed by the archive whose end-marker comment carries the trailer.
#[verifier::spinoff_prover]
#[verifier::rlimit(100)]
pub fn write_tmd(doc: &TmdDoc, mode: WriteMode) -> (r: TmdResult<Vec<u8>>)
    ensures
        r matches Ok(o) ==> tmd_bytes_output(doc.markdown@, doc.manifest@, doc.attachments@, o@),
{
    let md: Vec<u8> = doc.markdown.as_str().as_bytes_vec();
    let mut zip: Vec<u8> = match write_tmdz(doc, mode) {
        Ok(z) => z,
        Err(e) => {
            return Err(e);
        },
    };
    let ghost zip0 = zip@;
    proof {
        reveal(is_tmdz_output);
    }
    let ghost dbv = choose|db: Seq<u8>|
        #![trigger container_entries(doc.markdown@, doc.manifest@, sort_entries(
            doc.attachments@), db)]
        archive_fits(container_entries(doc.markdown@, doc.manifest@, sort_entries(
            doc.attachments@), db)) && zip0 == archive_bytes(container_entries(doc.markdown@,
            doc.manifest@, sort_entries(doc.attachments@), db), Seq::empty());
    match set_tmd_comment(&mut zip, md.len() as u64) {
        Ok(()) => {},
        Err(e) => {
            return Err(e);
        },
    }
    let mut out: Vec<u8> = md;
    out.append(&mut zip);
    proof {
        assert(tmd_bytes_for(doc.markdown@, doc.manifest@, doc.attachments@, dbv, out@)) by {
            reveal(tmd_bytes_for);
        }
        assert(tmd_bytes_output(doc.markdown@, doc.manifest@, doc.attachments@, out@)) by {
            reveal(tmd_bytes_output);
        }
    }
    Ok(out)
}


/// Canonical write ordering: for fixed Markdown, manifest and database
/// bytes, two stores holding the same attachments under unique paths
/// produce byte-identical containers, whatever order they were filled in.
pub proof fn lemma_container_bytes_order_independent(markdown: Seq<char>, mf: ManifestView,
    s1: Seq<EntryView>, s2: Seq<EntryView>, db: Seq<u8>)
    requires
        s1.to_multiset() == s2.to_multiset(),
        crate::order::paths_distinct(s1),
        crate::order::paths_distinct(s2),
    ensures
        archive_bytes(container_entries(markdown, mf, sort_entries(s1), db), Seq::empty())
            == archive_bytes(container_entries(markdown, mf, sort_entries(s2), db),
            Seq::empty()),
{
    crate::order::lemma_canonical_order_unique(s1, s2);
}

/// Decode a document from a plain archive buffer: a buffer that does not
/// parse as an archive is a structural error, and the staged verdict of the
/// parsed entries fixes the kind of every further library-side outcome.
pub fn read_tmdz(bytes: &[u8], mode: ReadMode) -> (r: TmdResult<TmdDoc>)
    ensures
        r matches Ok(d) ==> d.wf() && sp_parse_archive(bytes@) is Some && find_entry(
            sp_parse_archive(bytes@).unwrap(), name_index()) == Some(encode_utf8(d.markdown@))
            && doc_matches_entries(sp_parse_archive(bytes@).unwrap(), d.manifest@,
            d.attachments@, mode.verify_hashes) && sp_read_verdict(sp_parse_archive(
            bytes@).unwrap(), mode.verify_hashes) == DecodeVerdict::Accept,
        sp_parse_archive(bytes@) is None ==> (r matches Err(e) && e is InvalidFormat),
        sp_parse_archive(bytes@) matches Some(es2) ==> {
            &&& sp_read_verdict(es2, mode.verify_hashes) == DecodeVerdict::Accept ==> r is Ok || (
            r matches Err(e) && e is Db)
            &&& sp_read_verdict(es2, mode.verify_hashes) == DecodeVerdict::RejectStructure ==> (
            r matches Err(e) && e is InvalidFormat)
            &&& sp_read_verdict(es2, mode.verify_hashes) == DecodeVerdict::RejectJson ==> (
            r matches Err(e) && e is Json)
            &&& sp_read_verdict(es2, mode.verify_hashes) == DecodeVerdict::RejectAttachment ==> (
            r matches Err(e) && e is Attachment)
        },
{
    let entries: Vec<EntryPair> = match decode_archive(bytes) {
        Ok(es) => es,
        Err(e) => {
            return Err(e);
        },
    };
    read_doc_from_entries(&entries, mode)
}

/// Decode a document from a hybrid buffer: split at the trailer, decode the
/// archive, then take the Markdown from the verbatim prefix.  A buffer that
/// does not split, a non-UTF-8 prefix, and an unparsable archive are
/// structural errors; the staged verdict of the parsed entries fixes the
/// kind of everything further.
pub fn read_tmd(bytes: &[u8], mode: ReadMode) -> (r: TmdResult<TmdDoc>)
    ensures
        r matches Ok(d) ==> d.wf() && sp_split_tmd(bytes@) is Some && {
            let mdb = sp_split_tmd(bytes@).unwrap().0;
            let zb = sp_split_tmd(bytes@).unwrap().1;
            &&& encode_utf8(d.markdown@) == mdb
            &&& sp_parse_archive(zb) is Some
            &&& doc_matches_entries(sp_parse_archive(zb).unwrap(), d.manifest@, d.attachments@,
                mode.verify_hashes)
            &&& sp_read_verdict(sp_parse_archive(zb).unwrap(), mode.verify_hashes)
                == DecodeVerdict::Accept
        },
        sp_split_tmd(bytes@) is None ==> (r matches Err(e) && e is InvalidFormat),
        sp_split_tmd(bytes@) matches Some((mdb, zb)) ==> {
            &&& !valid_utf8(mdb) ==> (r matches Err(e) && e is InvalidFormat)
            &&& (valid_utf8(mdb) && sp_parse_archive(zb) is None) ==> (r matches Err(e)
                && e is InvalidFormat)
            &&& (valid_utf8(mdb) && sp_parse_archive(zb) is Some) ==> {
                let es2 = sp_parse_archive(zb).unwrap();
                &&& sp_read_verdict(es2, mode.verify_hashes) == DecodeVerdict::Accept ==> r is Ok
                    || (r matches Err(e) && e is Db)
                &&& sp_read_verdict(es2, mode.verify_hashes) == DecodeVerdict::RejectStructure
                    ==> (r matches Err(e) && e is InvalidFormat)
                &&& sp_read_verdict(es2, mode.verify_hashes) == DecodeVerdict::RejectJson ==> (
                r matches Err(e) && e is Json)
                &&& sp_read_verdict(es2, mode.verify_hashes) == DecodeVerdict::RejectAttachment
                    ==> (r matches Err(e) && e is Attachment)
            }
        },
{
    let split: (Vec<u8>, Vec<u8>) = match split_tmd_bytes(bytes) {
        Ok(t) => t,
        Err(e) => {
            return Err(e);
        },
    };
    let markdown: String = match string_from_utf8(split.0) {
        Some(s) => s,
        None => {
            return Err(TmdError::InvalidFormat(String::from_str(
                "markdown section is not valid UTF-8",
            )));
        },
    };
    let entries: Vec<EntryPair> = match decode_archive(split.1.as_slice()) {
        Ok(es) => es,
        Err(e) => {
            return Err(e);
        },
    };
    let mut d: TmdDoc = match read_doc_from_entries(&entries, mode) {
        Ok(d0) => d0,
        Err(e) => {
            return Err(e);
        },
    };
    d.markdown = markdown;
    Ok(d)
}

/// Buffered reader for either container format.
pub struct Reader {
    pub bytes: Vec<u8>,
    pub format: Format,
    pub mode: ReadMode,
}

impl Reader {
    /// Wrap a byte buffer, sniffing the format when none is assumed.
    pub fn new(bytes: Vec<u8>, assumed: Option<Format>, mode: ReadMode) -> (r: TmdResult<Reader>)
        ensures
            r matches Ok(rd) ==> rd.bytes@ == bytes@ && match assumed {
                Some(f) => rd.format == f,
                None => sniff_spec(bytes@) == Some(rd.format),
            },
            r is Err <==> assumed is None && sniff_spec(bytes@) is None,
            r matches Err(e) ==> e is InvalidFormat,
    {
        let format: Format = match assumed {
            Some(f) => f,
            None => {
                match sniff_format(bytes.as_slice()) {
                    Some(f) => f,
                    None => {
                        return Err(TmdError::InvalidFormat(String::from_str(
                            "unable to sniff format",
                        )));
                    },
                }
            },
        };
        Ok(Reader { bytes, format, mode })
    }

    /// Decode the wrapped buffer as a whole document, with the guarantees of
    /// `read_tmd` or `read_tmdz` according to the wrapped format.
    pub fn read_doc(&mut self) -> (r: TmdResult<TmdDoc>)
        ensures
            *final(self) == *old(self),
            r matches Ok(d) ==> d.wf(),
            old(self).format == Format::Tmd ==> {
                &&& r matches Ok(d) ==> sp_split_tmd(old(self).bytes@) is Some && encode_utf8(
                    d.markdown@) == sp_split_tmd(old(self).bytes@).unwrap().0 && sp_parse_archive(
                    sp_split_tmd(old(self).bytes@).unwrap().1) is Some && doc_matches_entries(
                    sp_parse_archive(sp_split_tmd(old(self).bytes@).unwrap().1).unwrap(),
                    d.manifest@, d.attachments@, old(self).mode.verify_hashes)
                &&& sp_split_tmd(old(self).bytes@) is None ==> (r matches Err(e)
                    && e is InvalidFormat)
            },
            old(self).format == Format::Tmdz ==> {
                &&& r matches Ok(d) ==> sp_parse_archive(old(self).bytes@) is Some && find_entry(
                    sp_parse_archive(old(self).bytes@).unwrap(), name_index()) == Some(
                    encode_utf8(d.markdown@)) && doc_matches_entries(sp_parse_archive(
                    old(self).bytes@).unwrap(), d.manifest@, d.attachments@,
                    old(self).mode.verify_hashes)
                &&& sp_parse_archive(old(self).bytes@) is None ==> (r matches Err(e)
                    && e is InvalidFormat)
            },
    {
        match self.format {
            Format::Tmd => read_tmd(self.bytes.as_slice(), self.mode),
            Format::Tmdz => read_tmdz(self.bytes.as_slice(), self.mode),
        }
    }
}

/// Buffered writer for either container format.
pub struct Writer {
    pub format: Format,
    pub mode: WriteMode,
    pub out: Vec<u8>,
}

impl Writer {
    /// Create a writer for the given format.
    pub fn new(format: Format, mode: WriteMode) -> (r: TmdResult<Writer>)
        ensures
            r matches Ok(w) ==> w.format == format && w.out@ == Seq::<u8>::empty(),
    {
        Ok(Writer { format, mode, out: Vec::new() })
    }

    /// Serialize a document into the writer's buffer.
    pub fn write_doc(&mut self, doc: &TmdDoc) -> (r: TmdResult<()>)
        ensures
            final(self).format == old(self).format,
            final(self).mode == old(self).mode,
            r is Ok ==> match old(self).format {
                Format::Tmd => tmd_bytes_output(doc.markdown@, doc.manifest@, doc.attachments@,
                    final(self).out@),
                Format::Tmdz => is_tmdz_output(doc.markdown@, doc.manifest@, doc.attachments@,
                    final(self).out@),
            },
            r is Err ==> final(self).out@ == old(self).out@,
    {
        let bytes: Vec<u8> = match self.format {
            Format::Tmd => match write_tmd(doc, self.mode) {
                Ok(b) => b,
                Err(e) => {
                    return Err(e);
                },
            },
            Format::Tmdz => match write_tmdz(doc, self.mode) {
                Ok(b) => b,
                Err(e) => {
                    return Err(e);
                },
            },
        };
        self.out = bytes;
        Ok(())
    }

    /// Hand back the serialized bytes.
    pub fn finish(self) -> (r: TmdResult<Vec<u8>>)
        ensures
            r matches Ok(b) ==> b@ == self.out@,
    {
        Ok(self.out)
    }
}

// ---------------------------------------------------------------------------
// Format names
// ---------------------------------------------------------------------------

/// Start of the file extension: just after the last dot of the final path
/// segment.
pub open spec fn ext_start(s: Seq<char>, i: int) -> Option<int>
    decreases i + 1,
{
    if i < 0 {
        None
    } else if s[i] == '.' {
        Some(i + 1)
    } else if s[i] == '/' || s[i] == '\\' {
        None
    } else {
        ext_start(s, i - 1)
    }
}

/// Case-insensitive match of one ASCII letter.
pub open spec fn ci_eq(c: char, lo: char, up: char) -> bool {
    c == lo || c == up
}

/// The container format named by a path's extension, matched without case.
pub open spec fn detect_spec(s: Seq<char>) -> Option<Format> {
    match ext_start(s, s.len() - 1) {
        Some(st) => {
            let e = s.skip(st);
            if e.len() == 3 && ci_eq(e[0], 't', 'T') && ci_eq(e[1], 'm', 'M') && ci_eq(e[2], 'd',
                'D') {
                Some(Format::Tmd)
            } else if e.len() == 4 && ci_eq(e[0], 't', 'T') && ci_eq(e[1], 'm', 'M') && ci_eq(
                e[2], 'd', 'D') && ci_eq(e[3], 'z', 'Z') {
                Some(Format::Tmdz)
            } else {
                None
            }
        },
        None => None,
    }
}

/// Find where the path's extension starts.
fn find_ext_start(path: &str) -> (r: Option<usize>)
    ensures
        r matches Some(i) ==> ext_start(path@, path@.len() - 1) == Some(i as int)
            && i <= path@.len(),
        r is None ==> ext_start(path@, path@.len() - 1) is None,
{
    let n: usize = path.unicode_len();
    let mut i: usize = n;
    loop
        invariant
            n == path@.len(),
            i <= n,
            ext_start(path@, n - 1) == ext_start(path@, i - 1),
        decreases i,
    {
        if i == 0 {
            return None;
        }
        let c: char = path.get_char(i - 1);
        if c == '.' {
            return Some(i);
        }
        if c == '/' || c == '\\' {
            return None;
        }
        i = i - 1;
    }
}

/// Determine the container format from a path's extension (`.tmd` or
/// `.tmdz`, matched without case).
pub fn detect_format(path: &str) -> (r: TmdResult<Format>)
    ensures
        r matches Ok(f) ==> detect_spec(path@) == Some(f),
        r is Err ==> detect_spec(path@) is None,
        r matches Err(e) ==> e is InvalidFormat,
{
    let n: usize = path.unicode_len();
    let i: usize = match find_ext_start(path) {
        Some(i0) => i0,
        None => {
            return Err(TmdError::InvalidFormat(String::from_str(
                "expected a path with extension .tmd or .tmdz",
            )));
        },
    };
    let ghost e = path@.skip(i as int);
    proof {
        assert(e.len() == n - i);
    }
    let len: usize = n - i;
    if len == 3 {
        let c0: char = path.get_char(i);
        let c1: char = path.get_char(i + 1);
        let c2: char = path.get_char(i + 2);
        proof {
            assert(e[0] == path@[i as int] && e[1] == path@[i + 1] && e[2] == path@[i + 2]);
        }
        if (c0 == 't' || c0 == 'T') && (c1 == 'm' || c1 == 'M') && (c2 == 'd' || c2 == 'D') {
            return Ok(Format::Tmd);
        }
    } else if len == 4 {
        let c0: char = path.get_char(i);
        let c1: char = path.get_char(i + 1);
        let c2: char = path.get_char(i + 2);
        let c3: char = path.get_char(i + 3);
        proof {
            assert(e[0] == path@[i as int] && e[1] == path@[i + 1] && e[2] == path@[i + 2] && e[3]
                == path@[i + 3]);
        }
        if (c0 == 't' || c0 == 'T') && (c1 == 'm' || c1 == 'M') && (c2 == 'd' || c2 == 'D') && (
        c3 == 'z' || c3 == 'Z') {
            return Ok(Format::Tmdz);
        }
    }
    Err(TmdError::InvalidFormat(String::from_str(
        "expected a path with extension .tmd or .tmdz",
    )))
}

/// The file suffix conventionally used for a format.
pub fn format_display(format: Format) -> (r: &'static str)
    ensures
        format == Format::Tmd ==> r@ == ".tmd"@,
        format == Format::Tmdz ==> r@ == ".tmdz"@,
{
    match format {
        Format::Tmd => ".tmd",
        Format::Tmdz => ".tmdz",
    }
}

/// Interpret a numeric format selector: zero means automatic detection.
pub fn parse_optional_format(value: i32) -> (r: Result<Option<Format>, String>)
    ensures
        value == 0 ==> r == Result::<Option<Format>, String>::Ok(None::<Format>),
        value == 1 ==> r == Result::<Option<Format>, String>::Ok(Some(Format::Tmd)),
        value == 2 ==> r == Result::<Option<Format>, String>::Ok(Some(Format::Tmdz)),
        (value < 0 || value > 2) ==> r is Err,
{
    match value {
        0 => Ok(None),
        1 => Ok(Some(Format::Tmd)),
        2 => Ok(Some(Format::Tmdz)),
        _ => Err(String::from_str("unknown format value")),
    }
}

/// Interpret a numeric format selector where automatic detection is not
/// allowed.
pub fn parse_required_format(value: i32) -> (r: Result<Format, String>)
    ensures
        value == 1 ==> r == Result::<Format, String>::Ok(Format::Tmd),
        value == 2 ==> r == Result::<Format, String>::Ok(Format::Tmdz),
        (value < 1 || value > 2) ==> r is Err,
{
    match value {
        1 => Ok(Format::Tmd),
        2 => Ok(Format::Tmdz),
        _ => Err(String::from_str("format must not be automatic when writing")),
    }
}

// ---------------------------------------------------------------------------
// Round trip: the hybrid split recovers the Markdown and the archive
// ---------------------------------------------------------------------------

/// A buffer shorter than the end marker's minimum size never splits: the
/// decoder reports a structural error rather than reading out of bounds.
pub proof fn lemma_short_buffer_never_splits(b: Seq<u8>)
    requires
        b.len() < 22,
    ensures
        find_eocd(b) is None,
        sp_split_tmd(b) is None,
{
}

/// The backward scan returns the target once nothing above it matches.
proof fn lemma_scan_down(b: Seq<u8>, i: int, lo: int, target: int)
    requires
        lo <= target <= i,
        b_sub(b, target, 4) == sig_end(),
        forall|j: int| target < j <= i ==> b_sub(b, #[trigger] (j + 0), 4) != sig_end(),
    ensures
        eocd_scan(b, i, lo) == Some(target),
    decreases i - target,
{
    if i > target {
        assert(b_sub(b, i + 0, 4) != sig_end());
        assert(b_sub(b, i, 4) == b_sub(b, i + 0, 4));
        lemma_scan_down(b, i - 1, lo, target);
    }
}

/// Splitting a buffer made of Markdown followed by a patched archive
/// recovers both halves exactly.  The two entry-count and directory-size
/// bounds keep the scan from finding a fake end-marker signature inside the
/// real end marker's own fields.
#[verifier::spinoff_prover]
#[verifier::rlimit(100)]
pub proof fn lemma_split_round_trip(md: Seq<u8>, es: Seq<EntryPairView>, b: Seq<u8>, p: Seq<u8>)
    requires
        archive_fits(es),
        es.len() < 0x4B50,
        cd_bytes(es).len() < 0x0500_0000,
        md.len() <= u64::MAX,
        patch_spec(archive_bytes(es, Seq::empty()), md.len() as u64) == Some(p),
        b == md + p,
    ensures
        sp_split_tmd(b) == Some((md, p)),
{
    vstd::bytes::lemma_auto_spec_u16_to_from_le_bytes();
    vstd::bytes::lemma_auto_spec_u64_to_from_le_bytes();
    let z = archive_bytes(es, Seq::empty());
    let sl = segs_bytes(es).len() as int;
    let cl = cd_bytes(es).len() as int;
    let e = sl + cl;
    let n = es.len() as int;
    let eocd = eocd_bytes(n, cl, sl, Seq::empty());
    lemma_eocd_len(n, cl, sl, Seq::empty());
    lemma_find_eocd_of_archive(es);
    assert(p == z.take(e + 20) + vstd::bytes::spec_u16_to_le_bytes(13) + trailer_of(
        md.len() as u64));
    assert(p.len() == e + 35);
    let ours = md.len() + e;
    let lb = b.len();
    assert(lb == ours + 35);
    // the bytes of the end marker's fixed fields, seen from `ours`
    assert forall|k: int| 0 <= k < 20 implies b[ours + k] == eocd[k] by {
        assert(b[ours + k] == p[e + k]);
        assert(p[e + k] == z.take(e + 20)[e + k]);
        assert(z[e + k] == eocd[k]);
    }
    assert(b_sub(b, ours, 4) =~= sig_end()) by {
        assert(b[ours + 0] == eocd[0] && b[ours + 1] == eocd[1] && b[ours + 2] == eocd[2] && b[
        ours + 3] == eocd[3]);
    }
    // nothing above `ours` matches the signature
    assert forall|j: int| ours < j <= lb - 22 implies b_sub(b, #[trigger] (j + 0), 4)
        != sig_end() by {
        let d = j - ours;
        assert(1 <= d <= 13);
        let w = b_sub(b, j + 0, 4);
        assert(w[0] == b[ours + (d + 0)] && w[1] == b[ours + (d + 1)] && w[2] == b[ours + (d + 2)]
            && w[3] == b[ours + (d + 3)]);
        if d <= 7 {
            assert(w[0] == eocd[d + 0]);
            assert(eocd[1] == 0x4B && eocd[2] == 0x05 && eocd[3] == 0x06 && eocd[4] == 0 && eocd[5]
                == 0 && eocd[6] == 0 && eocd[7] == 0);
            assert(w[0] != 0x50);
            assert(w != sig_end());
        } else if d == 8 {
            if w == sig_end() {
                assert(eocd[8] == 0x50 && eocd[9] == 0x4B && eocd[10] == 0x05);
                assert(eocd[8] == eocd[10]);
                assert(false);
            }
        } else if d == 9 {
            if w == sig_end() {
                assert(eocd[9] == 0x50 && eocd[11] == 0x05);
                assert(eocd[9] == eocd[11]);
                assert(false);
            }
        } else if d == 10 {
            if w == sig_end() {
                assert(eocd[10] == 0x50 && eocd[11] == 0x4B);
                assert((n as u16) % 256 == 0x50 && (n as u16) / 256 == 0x4B);
                assert(n == 0x4B50);
                assert(false);
            }
        } else if d == 11 {
            if w == sig_end() {
                assert(eocd[11] == 0x50);
                assert((n as u16) / 256 == 0x50);
                assert(n >= 0x5000);
                assert(false);
            }
        } else if d == 12 {
            if w == sig_end() {
                assert(eocd[15] == 0x06);
                assert((cl as u32) / 0x1000000 == 0x06);
                assert(cl >= 0x0600_0000);
                assert(false);
            }
        } else {
            if w == sig_end() {
                assert(eocd[15] == 0x05);
                assert((cl as u32) / 0x1000000 == 0x05);
                assert(cl >= 0x0500_0000);
                assert(false);
            }
        }
    }
    // the bounded backward scan finds exactly our end marker
    let lo: int = if lb > 0xFFFF + 22 {
        lb - 0xFFFF - 22
    } else {
        0
    };
    assert(lo <= ours);
    lemma_scan_down(b, lb - 22, lo, ours);
    assert(find_eocd(b) == Some(ours));
    // the comment-length field and the trailer read back as written
    assert(b_sub(b, ours + 20, 2) =~= vstd::bytes::spec_u16_to_le_bytes(13)) by {
        assert(b[ours + 20] == p[e + 20] && b[ours + 21] == p[e + 21]);
        assert(p[e + 20] == vstd::bytes::spec_u16_to_le_bytes(13)[0]);
        assert(p[e + 21] == vstd::bytes::spec_u16_to_le_bytes(13)[1]);
        assert(b_sub(b, ours + 20, 2)[0] == b[ours + 20]);
        assert(b_sub(b, ours + 20, 2)[1] == b[ours + 21]);
    }
    assert(spec_u16_from_le_bytes(b_sub(b, ours + 20, 2)) == 13);
    assert(b_sub(b, ours + 22, 13) =~= trailer_of(md.len() as u64)) by {
        assert forall|k: int| 0 <= k < 13 implies b[ours + 22 + k] == #[trigger] trailer_of(
            md.len() as u64,
        )[k] by {
            assert(b[ours + (22 + k)] == p[e + (22 + k)]);
            assert(ours + (22 + k) == ours + 22 + k);
            assert(p[e + 22 + k] == trailer_of(md.len() as u64)[k]);
            assert(e + (22 + k) == e + 22 + k);
        }
    }
    let cmt = trailer_of(md.len() as u64);
    assert(cmt.len() == 13);
    assert(cmt.subrange(0, 5) =~= tmd_comment_prefix());
    assert(cmt.subrange(5, 13) =~= vstd::bytes::spec_u64_to_le_bytes(md.len() as u64));
    assert(sp_extract_md_len(cmt) == Some(md.len() as u64));
    assert(b.take(md.len() as int) =~= md);
    assert(b.skip(md.len() as int) =~= p);
}

/// The plain archive ends with its own end marker, which the scan finds at
/// once.
proof fn lemma_find_eocd_of_archive(es: Seq<EntryPairView>)
    ensures
        find_eocd(archive_bytes(es, Seq::empty())) == Some(segs_bytes(es).len() + cd_bytes(
            es,
        ).len() as int),
{
    let z = archive_bytes(es, Seq::empty());
    let e = segs_bytes(es).len() + cd_bytes(es).len() as int;
    lemma_eocd_len(es.len() as int, cd_bytes(es).len() as int, segs_bytes(es).len() as int,
        Seq::empty());
    assert(z.len() == e + 22);
    assert(b_sub(z, e, 4) =~= sig_end()) by {
        let eocd = eocd_bytes(es.len() as int, cd_bytes(es).len() as int, segs_bytes(
            es,
        ).len() as int, Seq::empty());
        assert(b_sub(z, e, 4)[0] == z[e + 0] && b_sub(z, e, 4)[1] == z[e + 1] && b_sub(z, e, 4)[2]
            == z[e + 2] && b_sub(z, e, 4)[3] == z[e + 3]);
        assert(z[e + 0] == eocd[0] && z[e + 1] == eocd[1] && z[e + 2] == eocd[2] && z[e + 3]
            == eocd[3]);
    }
    assert(eocd_scan(z, e, if z.len() > 0xFFFF + 22 {
        (z.len() - 0xFFFF - 22) as int
    } else {
        0
    }) == Some(e));
}

/// Reading the plain archive format inverts writing it, at the entry level:
/// parsing what the archive writer produced gives back exactly the entries.
#[verifier::spinoff_prover]
#[verifier::rlimit(100)]
pub proof fn lemma_tmdz_entries_round_trip(es: Seq<EntryPairView>)
    requires
        archive_fits(es),
    ensures
        sp_parse_archive(archive_bytes(es, Seq::empty())) == Some(es),
{
    let z = archive_bytes(es, Seq::empty());
    let sl = segs_bytes(es).len() as int;
    let cl = cd_bytes(es).len() as int;
    lemma_eocd_len(es.len() as int, cl, sl, Seq::empty());
    assert(b_sub(z, 0, sl) =~= segs_bytes(es));
    assert(b_sub(z, sl, cl) =~= cd_bytes(es)) by {
        assert forall|k: int| 0 <= k < cl implies b_sub(z, sl, cl)[k] == cd_bytes(es)[k] by {
            assert(b_sub(z, sl, cl)[k] == z[sl + k]);
        }
    }
    assert(b_sub(z, sl + cl as int, 20) =~= b_sub(eocd_bytes(es.len() as int, cl, sl,
        Seq::empty()), 0, 20)) by {
        assert forall|k: int| 0 <= k < 20 implies b_sub(z, sl + cl as int, 20)[k] == b_sub(
            eocd_bytes(es.len() as int, cl, sl, Seq::empty()), 0, 20)[k] by {
            assert(b_sub(z, sl + cl as int, 20)[k] == z[sl + cl + k]);
            assert(b_sub(eocd_bytes(es.len() as int, cl, sl, Seq::empty()), 0, 20)[k]
                == eocd_bytes(es.len() as int, cl, sl, Seq::empty())[0 + k]);
        }
    }
    lemma_archive_round_trip(es, z);
}

/// A concatenation after truncation keeps every truncated byte.
proof fn lemma_concat_prefix(z: Seq<u8>, tail: Seq<u8>, p: Seq<u8>, m: int)
    requires
        0 <= m <= z.len(),
        p == z.take(m) + tail,
    ensures
        p.len() == m + tail.len(),
        forall|k: int| 0 <= k < m ==> #[trigger] p[k] == z[k],
{
    assert forall|k: int| 0 <= k < m implies #[trigger] p[k] == z[k] by {
        assert(p[k] == z.take(m)[k]);
    }
}

/// Pointwise: a patched archive keeps every byte below the comment-length
/// field.
#[verifier::spinoff_prover]
#[verifier::rlimit(100)]
proof fn lemma_patched_bytes(es: Seq<EntryPairView>, md_len: u64, p: Seq<u8>)
    requires
        archive_fits(es),
        patch_spec(archive_bytes(es, Seq::empty()), md_len) == Some(p),
    ensures
        p.len() == segs_bytes(es).len() + cd_bytes(es).len() + 35,
        forall|k: int| 0 <= k < segs_bytes(es).len() + cd_bytes(es).len() + 20 ==> #[trigger] p[k]
            == archive_bytes(es, Seq::empty())[k],
{
    let z = archive_bytes(es, Seq::empty());
    let e = segs_bytes(es).len() + cd_bytes(es).len() as int;
    lemma_eocd_len(es.len() as int, cd_bytes(es).len() as int, segs_bytes(es).len() as int,
        Seq::empty());
    lemma_find_eocd_of_archive(es);
    vstd::bytes::lemma_auto_spec_u16_to_from_le_bytes();
    vstd::bytes::lemma_auto_spec_u64_to_from_le_bytes();
    assert(z.len() == e + 22);
    assert(p =~= z.take(e + 20) + (vstd::bytes::spec_u16_to_le_bytes(13) + trailer_of(md_len)));
    lemma_concat_prefix(z, vstd::bytes::spec_u16_to_le_bytes(13) + trailer_of(md_len), p,
        e + 20);
}

/// A patched archive keeps the writer's records and end-marker fields.
#[verifier::spinoff_prover]
#[verifier::rlimit(100)]
proof fn lemma_patched_prefix(es: Seq<EntryPairView>, md_len: u64, p: Seq<u8>)
    requires
        archive_fits(es),
        p.len() == segs_bytes(es).len() + cd_bytes(es).len() + 35,
        forall|k: int| 0 <= k < segs_bytes(es).len() + cd_bytes(es).len() + 20 ==> #[trigger] p[k]
            == archive_bytes(es, Seq::empty())[k],
    ensures
        segs_bytes(es).len() + cd_bytes(es).len() + 22 <= p.len(),
        b_sub(p, 0, segs_bytes(es).len() as int) == segs_bytes(es),
        b_sub(p, segs_bytes(es).len() as int, cd_bytes(es).len() as int) == cd_bytes(es),
        b_sub(p, segs_bytes(es).len() + cd_bytes(es).len() as int, 20) == b_sub(eocd_bytes(
            es.len() as int, cd_bytes(es).len() as int, segs_bytes(es).len() as int,
            Seq::empty()), 0, 20),
{
    let z = archive_bytes(es, Seq::empty());
    let sl = segs_bytes(es).len() as int;
    let cl = cd_bytes(es).len() as int;
    let e = sl + cl;
    lemma_eocd_len(es.len() as int, cl, sl, Seq::empty());
    assert(b_sub(p, 0, sl) =~= segs_bytes(es)) by {
        assert forall|k: int| 0 <= k < sl implies b_sub(p, 0, sl)[k] == #[trigger] segs_bytes(
            es,
        )[k] by {
            assert(b_sub(p, 0, sl)[k] == p[0 + k]);
            assert(p[k] == z[k]);
        }
    }
    assert(b_sub(p, sl, cl) =~= cd_bytes(es)) by {
        assert forall|k: int| 0 <= k < cl implies b_sub(p, sl, cl)[k] == #[trigger] cd_bytes(
            es,
        )[k] by {
            assert(b_sub(p, sl, cl)[k] == p[sl + k]);
            assert(p[sl + k] == z[sl + k]);
            assert(z[sl + k] == cd_bytes(es)[k]);
        }
    }
    assert(b_sub(p, sl + cl as int, 20) =~= b_sub(eocd_bytes(es.len() as int, cl, sl,
        Seq::empty()), 0, 20)) by {
        assert forall|k: int| 0 <= k < 20 implies b_sub(p, sl + cl as int, 20)[k] == #[trigger]
            b_sub(eocd_bytes(es.len() as int, cl, sl, Seq::empty()), 0, 20)[k] by {
            assert(b_sub(p, sl + cl as int, 20)[k] == p[sl + cl + k]);
            assert(p[sl + cl + k] == z[sl + cl + k]);
            assert(z[e + k] == eocd_bytes(es.len() as int, cl, sl, Seq::empty())[k]);
            assert(sl + cl + k == e + k);
            assert(b_sub(eocd_bytes(es.len() as int, cl, sl, Seq::empty()), 0, 20)[k]
                == eocd_bytes(es.len() as int, cl, sl, Seq::empty())[0 + k]);
        }
    }
}

/// Reading the hybrid format inverts writing it, at the container level:
/// splitting and parsing what the hybrid writer produced gives back exactly
/// the Markdown bytes and the entries.  The entry-count and directory-size
/// bounds rule out a fake end-marker signature inside the end marker's own
/// fields; both allow far more than the format's entry limit in practice.
pub proof fn lemma_tmd_layers_round_trip(md: Seq<u8>, es: Seq<EntryPairView>, p: Seq<u8>)
    requires
        archive_fits(es),
        es.len() < 0x4B50,
        cd_bytes(es).len() < 0x0500_0000,
        md.len() <= u64::MAX,
        patch_spec(archive_bytes(es, Seq::empty()), md.len() as u64) == Some(p),
    ensures
        sp_split_tmd(md + p) == Some((md, p)),
        sp_parse_archive(p) == Some(es),
{
    lemma_split_round_trip(md, es, md + p, p);
    lemma_patched_bytes(es, md.len() as u64, p);
    lemma_patched_prefix(es, md.len() as u64, p);
    lemma_archive_round_trip(es, p);
}

} // verus!

