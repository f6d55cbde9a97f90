//! Canonical JSON text for the manifest and the attachment list: emitters
//! whose output is pinned byte for byte, and strict parsers for the same
//! grammar.

use vstd::prelude::*;
use vstd::utf8::{encode_utf8, decode_utf8, valid_utf8};
use crate::ids::{Uid, uid_text_of, uid_parse, push_uid_text, uid_from_text};
use crate::json::{em_string, sp_string, push_json_string, parse_string, sp_eat, eat_lit,
    push_lit, sp_value, parse_value, sp_u64, parse_u64, sp_digits_end, b_sub};
use crate::manifest::{AttachmentMeta, AttachmentMetaView, AttachmentRef, LinkRef, LinkRefView,
    Manifest, ManifestView, Semver, vec_views, link_views, opt_view, lemma_vec_views_push,
    lemma_link_views_push, clone_opt_string};
use crate::attach::{meta_views, lemma_meta_views_push};
use crate::numfmt::{dec_of, hex_of, hex_parse, push_dec, push_hex, hex_decode};
use crate::strutil::string_from_utf8;
use crate::sys::{rfc3339_millis_of, parse_rfc3339_millis};

verus! {

/// The fixed text `{"tmd_version":{"major":`.
pub open spec fn l_mf_open() -> Seq<u8> {
    seq![123u8, 34, 116, 109, 100, 95, 118, 101, 114, 115, 105, 111, 110, 34, 58, 123, 34, 109, 97, 106, 111, 114, 34, 58]
}

/// Executable copy of `l_mf_open`.
pub fn l_mf_open_vec() -> (r: Vec<u8>)
    ensures
        r@ == l_mf_open(),
{
    let r = vec![123u8, 34, 116, 109, 100, 95, 118, 101, 114, 115, 105, 111, 110, 34, 58, 123, 34, 109, 97, 106, 111, 114, 34, 58];
    proof {
        assert(r@ =~= l_mf_open());
    }
    r
}

/// The fixed text `,"minor":`.
pub open spec fn l_minor() -> Seq<u8> {
    seq![44u8, 34, 109, 105, 110, 111, 114, 34, 58]
}

/// Executable copy of `l_minor`.
pub fn l_minor_vec() -> (r: Vec<u8>)
    ensures
        r@ == l_minor(),
{
    let r = vec![44u8, 34, 109, 105, 110, 111, 114, 34, 58];
    proof {
        assert(r@ =~= l_minor());
    }
    r
}

/// The fixed text `,"patch":`.
pub open spec fn l_patch() -> Seq<u8> {
    seq![44u8, 34, 112, 97, 116, 99, 104, 34, 58]
}

/// Executable copy of `l_patch`.
pub fn l_patch_vec() -> (r: Vec<u8>)
    ensures
        r@ == l_patch(),
{
    let r = vec![44u8, 34, 112, 97, 116, 99, 104, 34, 58];
    proof {
        assert(r@ =~= l_patch());
    }
    r
}

/// The fixed text `},"doc_id":`.
pub open spec fn l_docid() -> Seq<u8> {
    seq![125u8, 44, 34, 100, 111, 99, 95, 105, 100, 34, 58]
}

/// Executable copy of `l_docid`.
pub fn l_docid_vec() -> (r: Vec<u8>)
    ensures
        r@ == l_docid(),
{
    let r = vec![125u8, 44, 34, 100, 111, 99, 95, 105, 100, 34, 58];
    proof {
        assert(r@ =~= l_docid());
    }
    r
}

/// The fixed text `,"title":`.
pub open spec fn l_title() -> Seq<u8> {
    seq![44u8, 34, 116, 105, 116, 108, 101, 34, 58]
}

/// Executable copy of `l_title`.
pub fn l_title_vec() -> (r: Vec<u8>)
    ensures
        r@ == l_title(),
{
    let r = vec![44u8, 34, 116, 105, 116, 108, 101, 34, 58];
    proof {
        assert(r@ =~= l_title());
    }
    r
}

/// The fixed text `,"authors":`.
pub open spec fn l_authors() -> Seq<u8> {
    seq![44u8, 34, 97, 117, 116, 104, 111, 114, 115, 34, 58]
}

/// Executable copy of `l_authors`.
pub fn l_authors_vec() -> (r: Vec<u8>)
    ensures
        r@ == l_authors(),
{
    let r = vec![44u8, 34, 97, 117, 116, 104, 111, 114, 115, 34, 58];
    proof {
        assert(r@ =~= l_authors());
    }
    r
}

/// The fixed text `,"created_utc":`.
pub open spec fn l_created() -> Seq<u8> {
    seq![44u8, 34, 99, 114, 101, 97, 116, 101, 100, 95, 117, 116, 99, 34, 58]
}

/// Executable copy of `l_created`.
pub fn l_created_vec() -> (r: Vec<u8>)
    ensures
        r@ == l_created(),
{
    let r = vec![44u8, 34, 99, 114, 101, 97, 116, 101, 100, 95, 117, 116, 99, 34, 58];
    proof {
        assert(r@ =~= l_created());
    }
    r
}

/// The fixed text `,"modified_utc":`.
pub open spec fn l_modified() -> Seq<u8> {
    seq![44u8, 34, 109, 111, 100, 105, 102, 105, 101, 100, 95, 117, 116, 99, 34, 58]
}

/// Executable copy of `l_modified`.
pub fn l_modified_vec() -> (r: Vec<u8>)
    ensures
        r@ == l_modified(),
{
    let r = vec![44u8, 34, 109, 111, 100, 105, 102, 105, 101, 100, 95, 117, 116, 99, 34, 58];
    proof {
        assert(r@ =~= l_modified());
    }
    r
}

/// The fixed text `,"tags":`.
pub open spec fn l_tags() -> Seq<u8> {
    seq![44u8, 34, 116, 97, 103, 115, 34, 58]
}

/// Executable copy of `l_tags`.
pub fn l_tags_vec() -> (r: Vec<u8>)
    ensures
        r@ == l_tags(),
{
    let r = vec![44u8, 34, 116, 97, 103, 115, 34, 58];
    proof {
        assert(r@ =~= l_tags());
    }
    r
}

/// The fixed text `,"cover_image":`.
pub open spec fn l_cover() -> Seq<u8> {
    seq![44u8, 34, 99, 111, 118, 101, 114, 95, 105, 109, 97, 103, 101, 34, 58]
}

/// Executable copy of `l_cover`.
pub fn l_cover_vec() -> (r: Vec<u8>)
    ensures
        r@ == l_cover(),
{
    let r = vec![44u8, 34, 99, 111, 118, 101, 114, 95, 105, 109, 97, 103, 101, 34, 58];
    proof {
        assert(r@ =~= l_cover());
    }
    r
}

/// The fixed text `,"links":`.
pub open spec fn l_links() -> Seq<u8> {
    seq![44u8, 34, 108, 105, 110, 107, 115, 34, 58]
}

/// Executable copy of `l_links`.
pub fn l_links_vec() -> (r: Vec<u8>)
    ensures
        r@ == l_links(),
{
    let r = vec![44u8, 34, 108, 105, 110, 107, 115, 34, 58];
    proof {
        assert(r@ =~= l_links());
    }
    r
}

/// The fixed text `,"db_schema_version":`.
pub open spec fn l_dbv() -> Seq<u8> {
    seq![44u8, 34, 100, 98, 95, 115, 99, 104, 101, 109, 97, 95, 118, 101, 114, 115, 105, 111, 110, 34, 58]
}

/// Executable copy of `l_dbv`.
pub fn l_dbv_vec() -> (r: Vec<u8>)
    ensures
        r@ == l_dbv(),
{
    let r = vec![44u8, 34, 100, 98, 95, 115, 99, 104, 101, 109, 97, 95, 118, 101, 114, 115, 105, 111, 110, 34, 58];
    proof {
        assert(r@ =~= l_dbv());
    }
    r
}

/// The fixed text `,"extras":`.
pub open spec fn l_extras() -> Seq<u8> {
    seq![44u8, 34, 101, 120, 116, 114, 97, 115, 34, 58]
}

/// Executable copy of `l_extras`.
pub fn l_extras_vec() -> (r: Vec<u8>)
    ensures
        r@ == l_extras(),
{
    let r = vec![44u8, 34, 101, 120, 116, 114, 97, 115, 34, 58];
    proof {
        assert(r@ =~= l_extras());
    }
    r
}

/// The fixed text `{"rel":`.
pub open spec fn l_rel() -> Seq<u8> {
    seq![123u8, 34, 114, 101, 108, 34, 58]
}

/// Executable copy of `l_rel`.
pub fn l_rel_vec() -> (r: Vec<u8>)
    ensures
        r@ == l_rel(),
{
    let r = vec![123u8, 34, 114, 101, 108, 34, 58];
    proof {
        assert(r@ =~= l_rel());
    }
    r
}

/// The fixed text `,"href":`.
pub open spec fn l_href() -> Seq<u8> {
    seq![44u8, 34, 104, 114, 101, 102, 34, 58]
}

/// Executable copy of `l_href`.
pub fn l_href_vec() -> (r: Vec<u8>)
    ensures
        r@ == l_href(),
{
    let r = vec![44u8, 34, 104, 114, 101, 102, 34, 58];
    proof {
        assert(r@ =~= l_href());
    }
    r
}

/// The fixed text `{"id":`.
pub open spec fn l_idkey() -> Seq<u8> {
    seq![123u8, 34, 105, 100, 34, 58]
}

/// Executable copy of `l_idkey`.
pub fn l_idkey_vec() -> (r: Vec<u8>)
    ensures
        r@ == l_idkey(),
{
    let r = vec![123u8, 34, 105, 100, 34, 58];
    proof {
        assert(r@ =~= l_idkey());
    }
    r
}

/// The fixed text `null`.
pub open spec fn l_null() -> Seq<u8> {
    seq![110u8, 117, 108, 108]
}

/// Executable copy of `l_null`.
pub fn l_null_vec() -> (r: Vec<u8>)
    ensures
        r@ == l_null(),
{
    let r = vec![110u8, 117, 108, 108];
    proof {
        assert(r@ =~= l_null());
    }
    r
}

/// The fixed text `{"attachments":`.
pub open spec fn l_att_open() -> Seq<u8> {
    seq![123u8, 34, 97, 116, 116, 97, 99, 104, 109, 101, 110, 116, 115, 34, 58]
}

/// Executable copy of `l_att_open`.
pub fn l_att_open_vec() -> (r: Vec<u8>)
    ensures
        r@ == l_att_open(),
{
    let r = vec![123u8, 34, 97, 116, 116, 97, 99, 104, 109, 101, 110, 116, 115, 34, 58];
    proof {
        assert(r@ =~= l_att_open());
    }
    r
}

/// The fixed text `,"logical_path":`.
pub open spec fn l_path() -> Seq<u8> {
    seq![44u8, 34, 108, 111, 103, 105, 99, 97, 108, 95, 112, 97, 116, 104, 34, 58]
}

/// Executable copy of `l_path`.
pub fn l_path_vec() -> (r: Vec<u8>)
    ensures
        r@ == l_path(),
{
    let r = vec![44u8, 34, 108, 111, 103, 105, 99, 97, 108, 95, 112, 97, 116, 104, 34, 58];
    proof {
        assert(r@ =~= l_path());
    }
    r
}

/// The fixed text `,"mime":`.
pub open spec fn l_media() -> Seq<u8> {
    seq![44u8, 34, 109, 105, 109, 101, 34, 58]
}

/// Executable copy of `l_media`.
pub fn l_media_vec() -> (r: Vec<u8>)
    ensures
        r@ == l_media(),
{
    let r = vec![44u8, 34, 109, 105, 109, 101, 34, 58];
    proof {
        assert(r@ =~= l_media());
    }
    r
}

/// The fixed text `,"length":`.
pub open spec fn l_length() -> Seq<u8> {
    seq![44u8, 34, 108, 101, 110, 103, 116, 104, 34, 58]
}

/// Executable copy of `l_length`.
pub fn l_length_vec() -> (r: Vec<u8>)
    ensures
        r@ == l_length(),
{
    let r = vec![44u8, 34, 108, 101, 110, 103, 116, 104, 34, 58];
    proof {
        assert(r@ =~= l_length());
    }
    r
}

/// The fixed text `,"sha256":`.
pub open spec fn l_sha() -> Seq<u8> {
    seq![44u8, 34, 115, 104, 97, 50, 53, 54, 34, 58]
}

/// Executable copy of `l_sha`.
pub fn l_sha_vec() -> (r: Vec<u8>)
    ensures
        r@ == l_sha(),
{
    let r = vec![44u8, 34, 115, 104, 97, 50, 53, 54, 34, 58];
    proof {
        assert(r@ =~= l_sha());
    }
    r
}

/// The fixed text `,"alt":`.
pub open spec fn l_alt() -> Seq<u8> {
    seq![44u8, 34, 97, 108, 116, 34, 58]
}

/// Executable copy of `l_alt`.
pub fn l_alt_vec() -> (r: Vec<u8>)
    ensures
        r@ == l_alt(),
{
    let r = vec![44u8, 34, 97, 108, 116, 34, 58];
    proof {
        assert(r@ =~= l_alt());
    }
    r
}

// ---------------------------------------------------------------------------
// Emission
// ---------------------------------------------------------------------------

/// An optional string value: `null` or a string token.
pub open spec fn em_opt_str(o: Option<Seq<char>>) -> Seq<u8> {
    match o {
        Some(s) => em_string(encode_utf8(s)),
        None => l_null(),
    }
}

/// Comma-separated string tokens.
pub open spec fn em_str_items(items: Seq<Seq<char>>) -> Seq<u8>
    decreases items.len(),
{
    if items.len() == 0 {
        Seq::empty()
    } else if items.len() == 1 {
        em_string(encode_utf8(items[0]))
    } else {
        em_string(encode_utf8(items[0])) + seq![0x2Cu8] + em_str_items(items.drop_first())
    }
}

/// A JSON array of string tokens.
pub open spec fn em_str_array(items: Seq<Seq<char>>) -> Seq<u8> {
    seq![0x5Bu8] + em_str_items(items) + seq![0x5Du8]
}

/// Item emission distributes over appending one item at the end.
pub proof fn lemma_em_str_items_snoc(items: Seq<Seq<char>>, x: Seq<char>)
    ensures
        em_str_items(items.push(x)) == if items.len() == 0 {
            em_string(encode_utf8(x))
        } else {
            em_str_items(items) + seq![0x2Cu8] + em_string(encode_utf8(x))
        },
    decreases items.len(),
{
    let p = items.push(x);
    if items.len() == 0 {
        assert(p[0] == x);
    } else if items.len() == 1 {
        assert(p[0] == items[0]);
        assert(p.drop_first() =~= seq![x]);
        assert(em_str_items(seq![x]) == em_string(encode_utf8(seq![x][0])));
        assert(seq![x][0] == x);
    } else {
        assert(p[0] == items[0]);
        assert(p.drop_first() =~= items.drop_first().push(x));
        lemma_em_str_items_snoc(items.drop_first(), x);
        assert(em_str_items(p) == em_string(encode_utf8(items[0])) + seq![0x2Cu8] + (em_str_items(
            items.drop_first(),
        ) + seq![0x2Cu8] + em_string(encode_utf8(x))));
        assert(em_string(encode_utf8(items[0])) + seq![0x2Cu8] + (em_str_items(items.drop_first())
            + seq![0x2Cu8] + em_string(encode_utf8(x))) =~= (em_string(encode_utf8(items[0]))
            + seq![0x2Cu8] + em_str_items(items.drop_first())) + seq![0x2Cu8] + em_string(
            encode_utf8(x),
        ));
    }
}

/// Append a JSON array of the given strings.
pub fn push_str_array(out: &mut Vec<u8>, items: &Vec<String>)
    ensures
        final(out)@ == old(out)@ + em_str_array(vec_views(items@)),
{
    out.push(0x5B);
    let mut i: usize = 0;
    while i < items.len()
        invariant
            i <= items@.len(),
            out@ == old(out)@ + seq![0x5Bu8] + em_str_items(vec_views(items@.take(i as int))),
        decreases items@.len() - i,
    {
        if i > 0 {
            out.push(0x2C);
        }
        push_json_string(out, items[i].as_str().as_bytes());
        proof {
            let pre = vec_views(items@.take(i as int));
            lemma_em_str_items_snoc(pre, items@[i as int]@);
            assert(items@.take(i + 1) =~= items@.take(i as int).push(items@[i as int]));
            lemma_vec_views_push(items@.take(i as int), items@[i as int]);
            assert(vec_views(items@.take(i + 1)) =~= pre.push(items@[i as int]@));
            assert(out@ =~= old(out)@ + seq![0x5Bu8] + em_str_items(vec_views(items@.take(
                i + 1,
            ))));
        }
        i = i + 1;
    }
    out.push(0x5D);
    proof {
        assert(items@.take(items@.len() as int) =~= items@);
        assert(out@ =~= old(out)@ + em_str_array(vec_views(items@)));
    }
}

/// Append an optional string value.
pub fn push_opt_string(out: &mut Vec<u8>, o: &Option<String>)
    ensures
        final(out)@ == old(out)@ + em_opt_str(opt_view(*o)),
{
    match o {
        Some(s) => {
            push_json_string(out, s.as_str().as_bytes());
        },
        None => {
            push_lit(out, l_null_vec().as_slice());
        },
    }
}

/// One link object.
pub open spec fn em_link(l: LinkRefView) -> Seq<u8> {
    l_rel() + em_string(encode_utf8(l.rel)) + l_href() + em_string(encode_utf8(l.href)) + seq![
        0x7Du8,
    ]
}

/// Comma-separated link objects.
pub open spec fn em_link_items(items: Seq<LinkRefView>) -> Seq<u8>
    decreases items.len(),
{
    if items.len() == 0 {
        Seq::empty()
    } else if items.len() == 1 {
        em_link(items[0])
    } else {
        em_link(items[0]) + seq![0x2Cu8] + em_link_items(items.drop_first())
    }
}

/// A JSON array of link objects.
pub open spec fn em_link_array(items: Seq<LinkRefView>) -> Seq<u8> {
    seq![0x5Bu8] + em_link_items(items) + seq![0x5Du8]
}

/// Link emission distributes over appending one link at the end.
pub proof fn lemma_em_link_items_snoc(items: Seq<LinkRefView>, x: LinkRefView)
    ensures
        em_link_items(items.push(x)) == if items.len() == 0 {
            em_link(x)
        } else {
            em_link_items(items) + seq![0x2Cu8] + em_link(x)
        },
    decreases items.len(),
{
    let p = items.push(x);
    if items.len() == 0 {
        assert(p[0] == x);
    } else if items.len() == 1 {
        assert(p[0] == items[0]);
        assert(p.drop_first() =~= seq![x]);
        assert(em_link_items(seq![x]) == em_link(seq![x][0]));
        assert(seq![x][0] == x);
    } else {
        assert(p[0] == items[0]);
        assert(p.drop_first() =~= items.drop_first().push(x));
        lemma_em_link_items_snoc(items.drop_first(), x);
        assert(em_link_items(p) == em_link(items[0]) + seq![0x2Cu8] + (em_link_items(
            items.drop_first(),
        ) + seq![0x2Cu8] + em_link(x)));
        assert(em_link(items[0]) + seq![0x2Cu8] + (em_link_items(items.drop_first()) + seq![
            0x2Cu8,
        ] + em_link(x)) =~= (em_link(items[0]) + seq![0x2Cu8] + em_link_items(items.drop_first()))
            + seq![0x2Cu8] + em_link(x));
    }
}

/// Append one link object.
pub fn push_link(out: &mut Vec<u8>, l: &LinkRef)
    ensures
        final(out)@ == old(out)@ + em_link(l@),
{
    push_lit(out, l_rel_vec().as_slice());
    push_json_string(out, l.rel.as_str().as_bytes());
    push_lit(out, l_href_vec().as_slice());
    push_json_string(out, l.href.as_str().as_bytes());
    out.push(0x7D);
    proof {
        assert(out@ =~= old(out)@ + em_link(l@));
    }
}

/// Append a JSON array of the given links.
pub fn push_link_array(out: &mut Vec<u8>, items: &Vec<LinkRef>)
    ensures
        final(out)@ == old(out)@ + em_link_array(link_views(items@)),
{
    out.push(0x5B);
    let mut i: usize = 0;
    while i < items.len()
        invariant
            i <= items@.len(),
            out@ == old(out)@ + seq![0x5Bu8] + em_link_items(link_views(items@.take(i as int))),
        decreases items@.len() - i,
    {
        if i > 0 {
            out.push(0x2C);
        }
        push_link(out, &items[i]);
        proof {
            let pre = link_views(items@.take(i as int));
            lemma_em_link_items_snoc(pre, items@[i as int]@);
            assert(items@.take(i + 1) =~= items@.take(i as int).push(items@[i as int]));
            lemma_link_views_push(items@.take(i as int), items@[i as int]);
            assert(link_views(items@.take(i + 1)) =~= pre.push(items@[i as int]@));
            assert(out@ =~= old(out)@ + seq![0x5Bu8] + em_link_items(link_views(items@.take(
                i + 1,
            ))));
        }
        i = i + 1;
    }
    out.push(0x5D);
    proof {
        assert(items@.take(items@.len() as int) =~= items@);
        assert(out@ =~= old(out)@ + em_link_array(link_views(items@)));
    }
}

/// The cover image reference: `null` or an object holding the identifier.
pub open spec fn em_cover(c: Option<AttachmentRef>) -> Seq<u8> {
    match c {
        Some(ar) => l_idkey() + em_string(uid_text_of(ar.id)) + seq![0x7Du8],
        None => l_null(),
    }
}

/// An optional `u32` value: `null` or a number token.
pub open spec fn em_opt_u32(o: Option<u32>) -> Seq<u8> {
    match o {
        Some(v) => dec_of(v as u64),
        None => l_null(),
    }
}

/// Append an identifier as a string token.
pub fn push_uid_string(out: &mut Vec<u8>, id: Uid)
    ensures
        final(out)@ == old(out)@ + em_string(uid_text_of(id)),
{
    let mut t: Vec<u8> = Vec::new();
    push_uid_text(&mut t, id);
    push_json_string(out, t.as_slice());
}

/// The version and identity fields of the canonical manifest text.
pub open spec fn em_manifest_head(m: ManifestView) -> Seq<u8> {
    l_mf_open() + dec_of(m.tmd_version.major as u64) + l_minor() + dec_of(
        m.tmd_version.minor as u64,
    ) + l_patch() + dec_of(m.tmd_version.patch as u64) + l_docid() + em_string(uid_text_of(
        m.doc_id,
    )) + l_title() + em_opt_str(m.title) + l_authors() + em_str_array(m.authors)
}

/// The remaining fields of the canonical manifest text.
pub open spec fn em_manifest_tail(m: ManifestView) -> Seq<u8> {
    l_created() + dec_of(m.created_utc) + l_modified() + dec_of(m.modified_utc) + l_tags()
        + em_str_array(m.tags) + l_cover() + em_cover(m.cover_image) + l_links() + em_link_array(
        m.links,
    ) + l_dbv() + em_opt_u32(m.db_schema_version) + l_extras() + encode_utf8(m.extras) + seq![
        0x7Du8,
    ]
}

/// The whole canonical manifest text.
pub open spec fn em_manifest(m: ManifestView) -> Seq<u8> {
    em_manifest_head(m) + em_manifest_tail(m)
}

/// Append the version and identity fields.
#[verifier::rlimit(80)]
fn push_manifest_head(out: &mut Vec<u8>, m: &Manifest)
    ensures
        final(out)@ == old(out)@ + em_manifest_head(m@),
{
    push_lit(out, l_mf_open_vec().as_slice());
    push_dec(out, m.tmd_version.major as u64);
    push_lit(out, l_minor_vec().as_slice());
    push_dec(out, m.tmd_version.minor as u64);
    push_lit(out, l_patch_vec().as_slice());
    push_dec(out, m.tmd_version.patch as u64);
    push_lit(out, l_docid_vec().as_slice());
    push_uid_string(out, m.doc_id);
    push_lit(out, l_title_vec().as_slice());
    push_opt_string(out, &m.title);
    push_lit(out, l_authors_vec().as_slice());
    push_str_array(out, &m.authors);
    proof {
        assert(out@ =~= old(out)@ + em_manifest_head(m@));
    }
}

/// Append the remaining fields.
#[verifier::rlimit(100)]
fn push_manifest_tail(out: &mut Vec<u8>, m: &Manifest)
    ensures
        final(out)@ == old(out)@ + em_manifest_tail(m@),
{
    push_lit(out, l_created_vec().as_slice());
    push_dec(out, m.created_utc);
    push_lit(out, l_modified_vec().as_slice());
    push_dec(out, m.modified_utc);
    push_lit(out, l_tags_vec().as_slice());
    push_str_array(out, &m.tags);
    push_lit(out, l_cover_vec().as_slice());
    match &m.cover_image {
        Some(ar) => {
            push_lit(out, l_idkey_vec().as_slice());
            push_uid_string(out, ar.id);
            out.push(0x7D);
        },
        None => {
            push_lit(out, l_null_vec().as_slice());
        },
    }
    push_lit(out, l_links_vec().as_slice());
    push_link_array(out, &m.links);
    push_lit(out, l_dbv_vec().as_slice());
    match m.db_schema_version {
        Some(v) => {
            push_dec(out, v as u64);
        },
        None => {
            push_lit(out, l_null_vec().as_slice());
        },
    }
    push_lit(out, l_extras_vec().as_slice());
    push_lit(out, m.extras.as_str().as_bytes());
    out.push(0x7D);
    proof {
        assert(out@ =~= old(out)@ + em_manifest_tail(m@));
    }
}

/// Append the canonical manifest text for the given manifest.
pub fn push_manifest_json(out: &mut Vec<u8>, m: &Manifest)
    ensures
        final(out)@ == old(out)@ + em_manifest(m@),
{
    push_manifest_head(out, m);
    push_manifest_tail(out, m);
    proof {
        assert(out@ =~= old(out)@ + em_manifest(m@));
    }
}

/// The declared digest: `null` or hex text in a string token.
pub open spec fn em_sha(o: Option<Seq<u8>>) -> Seq<u8> {
    match o {
        Some(d) => em_string(hex_of(d)),
        None => l_null(),
    }
}

/// One attachment metadata object.
pub open spec fn em_meta(m: AttachmentMetaView) -> Seq<u8> {
    l_idkey() + em_string(uid_text_of(m.id)) + l_path() + em_string(encode_utf8(m.logical_path))
        + l_media() + em_string(encode_utf8(m.media_type)) + l_length() + dec_of(m.length)
        + l_sha() + em_sha(m.sha256) + l_title() + em_opt_str(m.title) + l_alt() + em_opt_str(
        m.alt,
    ) + l_extras() + encode_utf8(m.extras) + seq![0x7Du8]
}

/// Comma-separated attachment metadata objects.
pub open spec fn em_meta_items(items: Seq<AttachmentMetaView>) -> Seq<u8>
    decreases items.len(),
{
    if items.len() == 0 {
        Seq::empty()
    } else if items.len() == 1 {
        em_meta(items[0])
    } else {
        em_meta(items[0]) + seq![0x2Cu8] + em_meta_items(items.drop_first())
    }
}

/// A JSON array of attachment metadata objects.
pub open spec fn em_meta_array(items: Seq<AttachmentMetaView>) -> Seq<u8> {
    seq![0x5Bu8] + em_meta_items(items) + seq![0x5Du8]
}

/// Metadata emission distributes over appending one object at the end.
pub proof fn lemma_em_meta_items_snoc(items: Seq<AttachmentMetaView>, x: AttachmentMetaView)
    ensures
        em_meta_items(items.push(x)) == if items.len() == 0 {
            em_meta(x)
        } else {
            em_meta_items(items) + seq![0x2Cu8] + em_meta(x)
        },
    decreases items.len(),
{
    let p = items.push(x);
    if items.len() == 0 {
        assert(p[0] == x);
    } else if items.len() == 1 {
        assert(p[0] == items[0]);
        assert(p.drop_first() =~= seq![x]);
        assert(em_meta_items(seq![x]) == em_meta(seq![x][0]));
        assert(seq![x][0] == x);
    } else {
        assert(p[0] == items[0]);
        assert(p.drop_first() =~= items.drop_first().push(x));
        lemma_em_meta_items_snoc(items.drop_first(), x);
        assert(em_meta_items(p) == em_meta(items[0]) + seq![0x2Cu8] + (em_meta_items(
            items.drop_first(),
        ) + seq![0x2Cu8] + em_meta(x)));
        assert(em_meta(items[0]) + seq![0x2Cu8] + (em_meta_items(items.drop_first()) + seq![
            0x2Cu8,
        ] + em_meta(x)) =~= (em_meta(items[0]) + seq![0x2Cu8] + em_meta_items(items.drop_first()))
            + seq![0x2Cu8] + em_meta(x));
    }
}

/// The whole canonical `attachments.json` text.
pub open spec fn em_attachments(items: Seq<AttachmentMetaView>) -> Seq<u8> {
    l_att_open() + em_meta_array(items) + seq![0x7Du8]
}

/// Append one attachment metadata object.
#[verifier::rlimit(80)]
pub fn push_meta(out: &mut Vec<u8>, m: &AttachmentMeta)
    ensures
        final(out)@ == old(out)@ + em_meta(m@),
{
    push_lit(out, l_idkey_vec().as_slice());
    push_uid_string(out, m.id);
    push_lit(out, l_path_vec().as_slice());
    push_json_string(out, m.logical_path.as_str().as_bytes());
    push_lit(out, l_media_vec().as_slice());
    push_json_string(out, m.media_type.as_str().as_bytes());
    push_lit(out, l_length_vec().as_slice());
    push_dec(out, m.length);
    push_lit(out, l_sha_vec().as_slice());
    match &m.sha256 {
        Some(d) => {
            let mut h: Vec<u8> = Vec::new();
            push_hex(&mut h, d.as_slice());
            push_json_string(out, h.as_slice());
        },
        None => {
            push_lit(out, l_null_vec().as_slice());
        },
    }
    push_lit(out, l_title_vec().as_slice());
    push_opt_string(out, &m.title);
    push_lit(out, l_alt_vec().as_slice());
    push_opt_string(out, &m.alt);
    push_lit(out, l_extras_vec().as_slice());
    push_lit(out, m.extras.as_str().as_bytes());
    out.push(0x7D);
    proof {
        assert(out@ =~= old(out)@ + em_meta(m@));
    }
}

/// Append the canonical `attachments.json` text for the given metadata, in
/// the given order.
pub fn push_attachments_json(out: &mut Vec<u8>, items: &Vec<AttachmentMeta>)
    ensures
        final(out)@ == old(out)@ + em_attachments(meta_views(items@)),
{
    push_lit(out, l_att_open_vec().as_slice());
    out.push(0x5B);
    let mut i: usize = 0;
    while i < items.len()
        invariant
            i <= items@.len(),
            out@ == old(out)@ + l_att_open() + seq![0x5Bu8] + em_meta_items(meta_views(
                items@.take(i as int),
            )),
        decreases items@.len() - i,
    {
        if i > 0 {
            out.push(0x2C);
        }
        push_meta(out, &items[i]);
        proof {
            let pre = meta_views(items@.take(i as int));
            lemma_em_meta_items_snoc(pre, items@[i as int]@);
            assert(items@.take(i + 1) =~= items@.take(i as int).push(items@[i as int]));
            lemma_meta_views_push(items@.take(i as int), items@[i as int]);
            assert(meta_views(items@.take(i + 1)) =~= pre.push(items@[i as int]@));
            assert(out@ =~= old(out)@ + l_att_open() + seq![0x5Bu8] + em_meta_items(meta_views(
                items@.take(i + 1),
            )));
        }
        i = i + 1;
    }
    out.push(0x5D);
    out.push(0x7D);
    proof {
        assert(items@.take(items@.len() as int) =~= items@);
        assert(out@ =~= old(out)@ + em_attachments(meta_views(items@)));
    }
}

// ---------------------------------------------------------------------------
// Parsing
// ---------------------------------------------------------------------------

/// A string token decoded to characters; fails on invalid UTF-8 content.
pub open spec fn sp_chars_string(b: Seq<u8>, pos: int) -> Option<(Seq<char>, int)> {
    match sp_string(b, pos) {
        Some((t, e)) => if valid_utf8(t) {
            Some((decode_utf8(t), e))
        } else {
            None
        },
        None => None,
    }
}

/// Parse a string token into characters.
pub fn parse_chars_string(v: &[u8], pos: usize) -> (r: Option<(String, usize)>)
    ensures
        r matches Some((s, e)) ==> sp_chars_string(v@, pos as int) == Some((s@, e as int))
            && pos < e <= v@.len(),
        r is None ==> sp_chars_string(v@, pos as int) is None,
{
    match parse_string(v, pos) {
        Some((bytes, e)) => {
            let ghost t = bytes@;
            match string_from_utf8(bytes) {
                Some(s) => {
                    proof {
                        vstd::utf8::encode_utf8_decode_utf8(s@);
                    }
                    Some((s, e))
                },
                None => None,
            }
        },
        None => None,
    }
}

/// An optional string value: `null` or a string token.
pub open spec fn sp_opt_str(b: Seq<u8>, pos: int) -> Option<(Option<Seq<char>>, int)> {
    if 0 <= pos < b.len() && b[pos] == 0x6E {
        match sp_eat(b, pos, l_null()) {
            Some(e) => Some((None, e)),
            None => None,
        }
    } else {
        match sp_chars_string(b, pos) {
            Some((s, e)) => Some((Some(s), e)),
            None => None,
        }
    }
}

/// Parse an optional string value.
pub fn parse_opt_string(v: &[u8], pos: usize) -> (r: Option<(Option<String>, usize)>)
    ensures
        r matches Some((o, e)) ==> sp_opt_str(v@, pos as int) == Some((opt_view(o), e as int))
            && pos < e <= v@.len(),
        r is None ==> sp_opt_str(v@, pos as int) is None,
{
    if pos < v.len() && v[pos] == 0x6E {
        match eat_lit(v, pos, l_null_vec().as_slice()) {
            Some(e) => Some((None, e)),
            None => None,
        }
    } else {
        match parse_chars_string(v, pos) {
            Some((s, e)) => Some((Some(s), e)),
            None => None,
        }
    }
}

/// Comma-separated string tokens up to a closing bracket.
pub open spec fn sp_str_items(b: Seq<u8>, pos: int) -> Option<(Seq<Seq<char>>, int)>
    decreases b.len() - pos,
{
    if pos < 0 {
        None
    } else {
        match sp_chars_string(b, pos) {
            Some((s, e)) => if pos < e && e < b.len() {
                if b[e] == 0x2C {
                    match sp_str_items(b, e + 1) {
                        Some((rest, e2)) => Some((seq![s] + rest, e2)),
                        None => None,
                    }
                } else if b[e] == 0x5D {
                    Some((seq![s], e + 1))
                } else {
                    None
                }
            } else {
                None
            },
            None => None,
        }
    }
}

/// A JSON array of string tokens.
pub open spec fn sp_str_array(b: Seq<u8>, pos: int) -> Option<(Seq<Seq<char>>, int)> {
    if 0 <= pos && pos + 1 < b.len() && b[pos] == 0x5B {
        if b[pos + 1] == 0x5D {
            Some((Seq::empty(), pos + 2))
        } else {
            sp_str_items(b, pos + 1)
        }
    } else {
        None
    }
}

/// Append a parsed string list to strings already read.
pub open spec fn glue_strs(pre: Seq<Seq<char>>, r: Option<(Seq<Seq<char>>, int)>)
    -> Option<(Seq<Seq<char>>, int)> {
    match r {
        Some((rest, e)) => Some((pre + rest, e)),
        None => None,
    }
}

/// Parse a JSON array of string tokens.
pub fn parse_str_array(v: &[u8], pos: usize) -> (r: Option<(Vec<String>, usize)>)
    ensures
        r matches Some((out, e)) ==> sp_str_array(v@, pos as int) == Some((vec_views(out@),
            e as int)) && pos < e <= v@.len(),
        r is None ==> sp_str_array(v@, pos as int) is None,
{
    let n: usize = v.len();
    if !(pos < n && n - pos > 1 && v[pos] == 0x5B) {
        return None;
    }
    if v[pos + 1] == 0x5D {
        proof {
            assert(vec_views(Seq::<String>::empty()) =~= Seq::<Seq<char>>::empty());
        }
        return Some((Vec::new(), pos + 2));
    }
    let mut out: Vec<String> = Vec::new();
    let mut i: usize = pos + 1;
    loop
        invariant
            n == v@.len(),
            pos + 1 <= i <= n,
            sp_str_array(v@, pos as int) == glue_strs(vec_views(out@), sp_str_items(v@, i as int)),
        decreases n - i,
    {
        match parse_chars_string(v, i) {
            Some((s, e)) => {
                if e < n && v[e] == 0x2C {
                    let ghost prev = out@;
                    out.push(s);
                    proof {
                        lemma_vec_views_push(prev, s);
                        lemma_glue_strs_shift(vec_views(prev), s@, sp_str_items(v@, e + 1));
                    }
                    i = e + 1;
                } else if e < n && v[e] == 0x5D {
                    let ghost prev = out@;
                    out.push(s);
                    proof {
                        lemma_vec_views_push(prev, s);
                        assert(sp_str_items(v@, i as int) == Some((seq![s@], e + 1)));
                        assert(vec_views(prev) + seq![s@] =~= vec_views(prev).push(s@));
                    }
                    return Some((out, e + 1));
                } else {
                    return None;
                }
            },
            None => {
                return None;
            },
        }
    }
}

/// Gluing after consing one string is gluing with the string appended.
proof fn lemma_glue_strs_shift(pre: Seq<Seq<char>>, s: Seq<char>,
    r: Option<(Seq<Seq<char>>, int)>)
    ensures
        glue_strs(pre, match r {
            Some((rest, e)) => Some((seq![s] + rest, e)),
            None => None,
        }) == glue_strs(pre.push(s), r),
{
    match r {
        Some((rest, e)) => {
            assert(pre + (seq![s] + rest) =~= pre.push(s) + rest);
        },
        None => {},
    }
}

/// An identifier in a string token.
pub open spec fn sp_uid(b: Seq<u8>, pos: int) -> Option<(Uid, int)> {
    match sp_string(b, pos) {
        Some((t, e)) => match uid_parse(t) {
            Some(u) => Some((u, e)),
            None => None,
        },
        None => None,
    }
}

/// Parse an identifier from a string token.
pub fn parse_uid(v: &[u8], pos: usize) -> (r: Option<(Uid, usize)>)
    ensures
        r matches Some((u, e)) ==> sp_uid(v@, pos as int) == Some((u, e as int))
            && pos < e <= v@.len(),
        r is None ==> sp_uid(v@, pos as int) is None,
{
    match parse_string(v, pos) {
        Some((t, e)) => match uid_from_text(t.as_slice()) {
            Some(u) => Some((u, e)),
            None => None,
        },
        None => None,
    }
}

/// A declared digest: `null` or 64 hex digits in a string token.
pub open spec fn sp_sha(b: Seq<u8>, pos: int) -> Option<(Option<Seq<u8>>, int)> {
    if 0 <= pos < b.len() && b[pos] == 0x6E {
        match sp_eat(b, pos, l_null()) {
            Some(e) => Some((None, e)),
            None => None,
        }
    } else {
        match sp_string(b, pos) {
            Some((t, e)) => match hex_parse(t) {
                Some(d) => if d.len() == 32 {
                    Some((Some(d), e))
                } else {
                    None
                },
                None => None,
            },
            None => None,
        }
    }
}

/// Parse a declared digest.
pub fn parse_sha(v: &[u8], pos: usize) -> (r: Option<(Option<Vec<u8>>, usize)>)
    ensures
        r matches Some((o, e)) ==> sp_sha(v@, pos as int) == Some((match o {
            Some(d) => Some(d@),
            None => None,
        }, e as int)) && pos < e <= v@.len(),
        r is None ==> sp_sha(v@, pos as int) is None,
{
    if pos < v.len() && v[pos] == 0x6E {
        match eat_lit(v, pos, l_null_vec().as_slice()) {
            Some(e) => Some((None, e)),
            None => None,
        }
    } else {
        match parse_string(v, pos) {
            Some((t, e)) => match hex_decode(t.as_slice()) {
                Some(d) => {
                    if d.len() == 32 {
                        Some((Some(d), e))
                    } else {
                        None
                    }
                },
                None => None,
            },
            None => None,
        }
    }
}

/// Extension data: a raw JSON value whose text is valid UTF-8.
pub open spec fn sp_extras(b: Seq<u8>, pos: int) -> Option<(Seq<char>, int)> {
    match sp_value(b, pos) {
        Some((t, e)) => if valid_utf8(t) {
            Some((decode_utf8(t), e))
        } else {
            None
        },
        None => None,
    }
}

/// Parse extension data.
pub fn parse_extras(v: &[u8], pos: usize) -> (r: Option<(String, usize)>)
    ensures
        r matches Some((s, e)) ==> sp_extras(v@, pos as int) == Some((s@, e as int))
            && pos < e <= v@.len(),
        r is None ==> sp_extras(v@, pos as int) is None,
{
    match parse_value(v, pos) {
        Some((t, e)) => {
            match string_from_utf8(t) {
                Some(s) => {
                    proof {
                        vstd::utf8::encode_utf8_decode_utf8(s@);
                    }
                    Some((s, e))
                },
                None => None,
            }
        },
        None => None,
    }
}

/// A creation or modification timestamp: either a number of milliseconds
/// since the Unix epoch, or an RFC 3339 timestamp in a string token, read in
/// milliseconds and clamped below at zero.
pub open spec fn sp_timestamp(b: Seq<u8>, pos: int) -> Option<(u64, int)> {
    if 0 <= pos < b.len() && b[pos] == 0x22 {
        match sp_chars_string(b, pos) {
            Some((t, e)) => match rfc3339_millis_of(t) {
                Some(ms) => Some((if ms < 0 {
                    0u64
                } else {
                    ms as u64
                }, e)),
                None => None,
            },
            None => None,
        }
    } else {
        sp_u64(b, pos)
    }
}

/// Parse a timestamp field.
pub fn parse_timestamp(v: &[u8], pos: usize) -> (r: Option<(u64, usize)>)
    ensures
        r matches Some((x, e)) ==> sp_timestamp(v@, pos as int) == Some((x, e as int))
            && pos < e <= v@.len(),
        r is None ==> sp_timestamp(v@, pos as int) is None,
{
    if pos < v.len() && v[pos] == 0x22 {
        match parse_chars_string(v, pos) {
            Some((t, e)) => match parse_rfc3339_millis(t.as_str()) {
                Some(ms) => {
                    let x: u64 = if ms < 0 {
                        0
                    } else {
                        ms as u64
                    };
                    Some((x, e))
                },
                None => None,
            },
            None => None,
        }
    } else {
        parse_u64(v, pos)
    }
}

/// An unsigned number not exceeding the given bound.
pub open spec fn sp_bounded(b: Seq<u8>, pos: int, bound: u64) -> Option<(u64, int)> {
    match sp_u64(b, pos) {
        Some((x, e)) => if x <= bound {
            Some((x, e))
        } else {
            None
        },
        None => None,
    }
}

/// Parse an unsigned number not exceeding the given bound.
pub fn parse_bounded(v: &[u8], pos: usize, bound: u64) -> (r: Option<(u64, usize)>)
    ensures
        r matches Some((x, e)) ==> sp_bounded(v@, pos as int, bound) == Some((x, e as int))
            && pos < e <= v@.len() && x <= bound,
        r is None ==> sp_bounded(v@, pos as int, bound) is None,
{
    match parse_u64(v, pos) {
        Some((x, e)) => {
            if x <= bound {
                Some((x, e))
            } else {
                None
            }
        },
        None => None,
    }
}

/// An optional `u32`: `null` or a number.
pub open spec fn sp_opt_u32(b: Seq<u8>, pos: int) -> Option<(Option<u32>, int)> {
    if 0 <= pos < b.len() && b[pos] == 0x6E {
        match sp_eat(b, pos, l_null()) {
            Some(e) => Some((None, e)),
            None => None,
        }
    } else {
        match sp_bounded(b, pos, 0xFFFF_FFFF) {
            Some((x, e)) => Some((Some(x as u32), e)),
            None => None,
        }
    }
}

/// Parse an optional `u32`.
pub fn parse_opt_u32(v: &[u8], pos: usize) -> (r: Option<(Option<u32>, usize)>)
    ensures
        r matches Some((o, e)) ==> sp_opt_u32(v@, pos as int) == Some((o, e as int))
            && pos < e <= v@.len(),
        r is None ==> sp_opt_u32(v@, pos as int) is None,
{
    if pos < v.len() && v[pos] == 0x6E {
        match eat_lit(v, pos, l_null_vec().as_slice()) {
            Some(e) => Some((None, e)),
            None => None,
        }
    } else {
        match parse_bounded(v, pos, 0xFFFF_FFFF) {
            Some((x, e)) => Some((Some(x as u32), e)),
            None => None,
        }
    }
}

/// The cover image: `null` or an object holding the identifier.
pub open spec fn sp_cover(b: Seq<u8>, pos: int) -> Option<(Option<AttachmentRef>, int)> {
    if 0 <= pos < b.len() && b[pos] == 0x6E {
        match sp_eat(b, pos, l_null()) {
            Some(e) => Some((None, e)),
            None => None,
        }
    } else {
        match sp_eat(b, pos, l_idkey()) {
            Some(e1) => match sp_uid(b, e1) {
                Some((u, e2)) => if e2 < b.len() && b[e2] == 0x7D {
                    Some((Some(AttachmentRef { id: u }), e2 + 1))
                } else {
                    None
                },
                None => None,
            },
            None => None,
        }
    }
}

/// Parse the cover image reference.
pub fn parse_cover(v: &[u8], pos: usize) -> (r: Option<(Option<AttachmentRef>, usize)>)
    ensures
        r matches Some((o, e)) ==> sp_cover(v@, pos as int) == Some((o, e as int))
            && pos < e <= v@.len(),
        r is None ==> sp_cover(v@, pos as int) is None,
{
    if pos < v.len() && v[pos] == 0x6E {
        match eat_lit(v, pos, l_null_vec().as_slice()) {
            Some(e) => Some((None, e)),
            None => None,
        }
    } else {
        match eat_lit(v, pos, l_idkey_vec().as_slice()) {
            Some(e1) => match parse_uid(v, e1) {
                Some((u, e2)) => {
                    if e2 < v.len() && v[e2] == 0x7D {
                        Some((Some(AttachmentRef { id: u }), e2 + 1))
                    } else {
                        None
                    }
                },
                None => None,
            },
            None => None,
        }
    }
}

/// One link object.
pub open spec fn sp_link(b: Seq<u8>, pos: int) -> Option<(LinkRefView, int)> {
    match sp_eat(b, pos, l_rel()) {
        Some(e1) => match sp_chars_string(b, e1) {
            Some((rel, e2)) => match sp_eat(b, e2, l_href()) {
                Some(e3) => match sp_chars_string(b, e3) {
                    Some((href, e4)) => if e4 < b.len() && b[e4] == 0x7D {
                        Some((LinkRefView { rel, href }, e4 + 1))
                    } else {
                        None
                    },
                    None => None,
                },
                None => None,
            },
            None => None,
        },
        None => None,
    }
}

/// Parse one link object.
pub fn parse_link(v: &[u8], pos: usize) -> (r: Option<(LinkRef, usize)>)
    ensures
        r matches Some((l, e)) ==> sp_link(v@, pos as int) == Some((l@, e as int))
            && pos < e <= v@.len(),
        r is None ==> sp_link(v@, pos as int) is None,
{
    match eat_lit(v, pos, l_rel_vec().as_slice()) {
        Some(e1) => match parse_chars_string(v, e1) {
            Some((rel, e2)) => match eat_lit(v, e2, l_href_vec().as_slice()) {
                Some(e3) => match parse_chars_string(v, e3) {
                    Some((href, e4)) => {
                        if e4 < v.len() && v[e4] == 0x7D {
                            Some((LinkRef { rel, href }, e4 + 1))
                        } else {
                            None
                        }
                    },
                    None => None,
                },
                None => None,
            },
            None => None,
        },
        None => None,
    }
}

/// Comma-separated link objects up to a closing bracket.
pub open spec fn sp_link_items(b: Seq<u8>, pos: int) -> Option<(Seq<LinkRefView>, int)>
    decreases b.len() - pos,
{
    if pos < 0 {
        None
    } else {
        match sp_link(b, pos) {
            Some((l, e)) => if pos < e && e < b.len() {
                if b[e] == 0x2C {
                    match sp_link_items(b, e + 1) {
                        Some((rest, e2)) => Some((seq![l] + rest, e2)),
                        None => None,
                    }
                } else if b[e] == 0x5D {
                    Some((seq![l], e + 1))
                } else {
                    None
                }
            } else {
                None
            },
            None => None,
        }
    }
}

/// A JSON array of link objects.
pub open spec fn sp_link_array(b: Seq<u8>, pos: int) -> Option<(Seq<LinkRefView>, int)> {
    if 0 <= pos && pos + 1 < b.len() && b[pos] == 0x5B {
        if b[pos + 1] == 0x5D {
            Some((Seq::empty(), pos + 2))
        } else {
            sp_link_items(b, pos + 1)
        }
    } else {
        None
    }
}

/// Append a parsed link list to links already read.
pub open spec fn glue_links(pre: Seq<LinkRefView>, r: Option<(Seq<LinkRefView>, int)>)
    -> Option<(Seq<LinkRefView>, int)> {
    match r {
        Some((rest, e)) => Some((pre + rest, e)),
        None => None,
    }
}

/// Gluing after consing one link is gluing with the link appended.
proof fn lemma_glue_links_shift(pre: Seq<LinkRefView>, l: LinkRefView,
    r: Option<(Seq<LinkRefView>, int)>)
    ensures
        glue_links(pre, match r {
            Some((rest, e)) => Some((seq![l] + rest, e)),
            None => None,
        }) == glue_links(pre.push(l), r),
{
    match r {
        Some((rest, e)) => {
            assert(pre + (seq![l] + rest) =~= pre.push(l) + rest);
        },
        None => {},
    }
}

/// Parse a JSON array of link objects.
pub fn parse_link_array(v: &[u8], pos: usize) -> (r: Option<(Vec<LinkRef>, usize)>)
    ensures
        r matches Some((out, e)) ==> sp_link_array(v@, pos as int) == Some((link_views(out@),
            e as int)) && pos < e <= v@.len(),
        r is None ==> sp_link_array(v@, pos as int) is None,
{
    let n: usize = v.len();
    if !(pos < n && n - pos > 1 && v[pos] == 0x5B) {
        return None;
    }
    if v[pos + 1] == 0x5D {
        proof {
            assert(link_views(Seq::<LinkRef>::empty()) =~= Seq::<LinkRefView>::empty());
        }
        return Some((Vec::new(), pos + 2));
    }
    let mut out: Vec<LinkRef> = Vec::new();
    let mut i: usize = pos + 1;
    loop
        invariant
            n == v@.len(),
            pos + 1 <= i <= n,
            sp_link_array(v@, pos as int) == glue_links(link_views(out@), sp_link_items(v@,
                i as int)),
        decreases n - i,
    {
        match parse_link(v, i) {
            Some((l, e)) => {
                if e < n && v[e] == 0x2C {
                    let ghost prev = out@;
                    let ghost lv = l@;
                    out.push(l);
                    proof {
                        lemma_link_views_push(prev, out@[out@.len() - 1]);
                        lemma_glue_links_shift(link_views(prev), lv, sp_link_items(v@, e + 1));
                    }
                    i = e + 1;
                } else if e < n && v[e] == 0x5D {
                    let ghost prev = out@;
                    let ghost lv = l@;
                    out.push(l);
                    proof {
                        lemma_link_views_push(prev, out@[out@.len() - 1]);
                        assert(sp_link_items(v@, i as int) == Some((seq![lv], e + 1)));
                        assert(link_views(prev) + seq![lv] =~= link_views(prev).push(lv));
                    }
                    return Some((out, e + 1));
                } else {
                    return None;
                }
            },
            None => {
                return None;
            },
        }
    }
}

// ---------------------------------------------------------------------------
// Records and whole documents
// ---------------------------------------------------------------------------

/// One attachment metadata object.
pub open spec fn sp_meta(b: Seq<u8>, pos: int) -> Option<(AttachmentMetaView, int)> {
    match sp_eat(b, pos, l_idkey()) {
        Some(e1) => match sp_uid(b, e1) {
            Some((id, e2)) => match sp_eat(b, e2, l_path()) {
                Some(e3) => match sp_chars_string(b, e3) {
                    Some((path, e4)) => match sp_eat(b, e4, l_media()) {
                        Some(e5) => match sp_chars_string(b, e5) {
                            Some((media, e6)) => match sp_eat(b, e6, l_length()) {
                                Some(e7) => match sp_u64(b, e7) {
                                    Some((len, e8)) => match sp_eat(b, e8, l_sha()) {
                                        Some(e9) => match sp_sha(b, e9) {
                                            Some((sha, e10)) => match sp_eat(b, e10, l_title()) {
                                                Some(e11) => match sp_opt_str(b, e11) {
                                                    Some((title, e12)) => match sp_eat(b, e12,
                                                        l_alt()) {
                                                        Some(e13) => match sp_opt_str(b, e13) {
                                                            Some((alt, e14)) => match sp_eat(b,
                                                                e14, l_extras()) {
                                                                Some(e15) => match sp_extras(b,
                                                                    e15) {
                                                                    Some((extras, e16)) => if e16
                                                                        < b.len() && b[e16]
                                                                        == 0x7D {
                                                                        Some((AttachmentMetaView {
                                                                            id,
                                                                            logical_path: path,
                                                                            media_type: media,
                                                                            length: len,
                                                                            sha256: sha,
                                                                            title,
                                                                            alt,
                                                                            extras,
                                                                        }, e16 + 1))
                                                                    } else {
                                                                        None
                                                                    },
                                                                    None => None,
                                                                },
                                                                None => None,
                                                            },
                                                            None => None,
                                                        },
                                                        None => None,
                                                    },
                                                    None => None,
                                                },
                                                None => None,
                                            },
                                            None => None,
                                        },
                                        None => None,
                                    },
                                    None => None,
                                },
                                None => None,
                            },
                            None => None,
                        },
                        None => None,
                    },
                    None => None,
                },
                None => None,
            },
            None => None,
        },
        None => None,
    }
}

/// Parse one attachment metadata object.
#[verifier::rlimit(80)]
pub fn parse_meta(v: &[u8], pos: usize) -> (r: Option<(AttachmentMeta, usize)>)
    ensures
        r matches Some((m, e)) ==> sp_meta(v@, pos as int) == Some((m@, e as int))
            && pos < e <= v@.len(),
        r is None ==> sp_meta(v@, pos as int) is None,
{
    let e1 = match eat_lit(v, pos, l_idkey_vec().as_slice()) {
        Some(e) => e,
        None => {
            return None;
        },
    };
    let (id, e2) = match parse_uid(v, e1) {
        Some(t) => t,
        None => {
            return None;
        },
    };
    let e3 = match eat_lit(v, e2, l_path_vec().as_slice()) {
        Some(e) => e,
        None => {
            return None;
        },
    };
    let (path, e4) = match parse_chars_string(v, e3) {
        Some(t) => t,
        None => {
            return None;
        },
    };
    let e5 = match eat_lit(v, e4, l_media_vec().as_slice()) {
        Some(e) => e,
        None => {
            return None;
        },
    };
    let (media, e6) = match parse_chars_string(v, e5) {
        Some(t) => t,
        None => {
            return None;
        },
    };
    let e7 = match eat_lit(v, e6, l_length_vec().as_slice()) {
        Some(e) => e,
        None => {
            return None;
        },
    };
    let (len, e8) = match parse_u64(v, e7) {
        Some(t) => t,
        None => {
            return None;
        },
    };
    let e9 = match eat_lit(v, e8, l_sha_vec().as_slice()) {
        Some(e) => e,
        None => {
            return None;
        },
    };
    let (sha, e10) = match parse_sha(v, e9) {
        Some(t) => t,
        None => {
            return None;
        },
    };
    let e11 = match eat_lit(v, e10, l_title_vec().as_slice()) {
        Some(e) => e,
        None => {
            return None;
        },
    };
    let (title, e12) = match parse_opt_string(v, e11) {
        Some(t) => t,
        None => {
            return None;
        },
    };
    let e13 = match eat_lit(v, e12, l_alt_vec().as_slice()) {
        Some(e) => e,
        None => {
            return None;
        },
    };
    let (alt, e14) = match parse_opt_string(v, e13) {
        Some(t) => t,
        None => {
            return None;
        },
    };
    let e15 = match eat_lit(v, e14, l_extras_vec().as_slice()) {
        Some(e) => e,
        None => {
            return None;
        },
    };
    let (extras, e16) = match parse_extras(v, e15) {
        Some(t) => t,
        None => {
            return None;
        },
    };
    if e16 < v.len() && v[e16] == 0x7D {
        Some((AttachmentMeta {
            id,
            logical_path: path,
            media_type: media,
            length: len,
            sha256: sha,
            title,
            alt,
            extras,
        }, e16 + 1))
    } else {
        None
    }
}

/// Comma-separated metadata objects up to a closing bracket.
pub open spec fn sp_meta_items(b: Seq<u8>, pos: int) -> Option<(Seq<AttachmentMetaView>, int)>
    decreases b.len() - pos,
{
    if pos < 0 {
        None
    } else {
        match sp_meta(b, pos) {
            Some((m, e)) => if pos < e && e < b.len() {
                if b[e] == 0x2C {
                    match sp_meta_items(b, e + 1) {
                        Some((rest, e2)) => Some((seq![m] + rest, e2)),
                        None => None,
                    }
                } else if b[e] == 0x5D {
                    Some((seq![m], e + 1))
                } else {
                    None
                }
            } else {
                None
            },
            None => None,
        }
    }
}

/// A JSON array of metadata objects.
pub open spec fn sp_meta_array(b: Seq<u8>, pos: int) -> Option<(Seq<AttachmentMetaView>, int)> {
    if 0 <= pos && pos + 1 < b.len() && b[pos] == 0x5B {
        if b[pos + 1] == 0x5D {
            Some((Seq::empty(), pos + 2))
        } else {
            sp_meta_items(b, pos + 1)
        }
    } else {
        None
    }
}

/// Append a parsed metadata list to metadata already read.
pub open spec fn glue_metas(pre: Seq<AttachmentMetaView>, r: Option<(Seq<AttachmentMetaView>,
    int)>) -> Option<(Seq<AttachmentMetaView>, int)> {
    match r {
        Some((rest, e)) => Some((pre + rest, e)),
        None => None,
    }
}

/// Gluing after consing one object is gluing with the object appended.
proof fn lemma_glue_metas_shift(pre: Seq<AttachmentMetaView>, m: AttachmentMetaView,
    r: Option<(Seq<AttachmentMetaView>, int)>)
    ensures
        glue_metas(pre, match r {
            Some((rest, e)) => Some((seq![m] + rest, e)),
            None => None,
        }) == glue_metas(pre.push(m), r),
{
    match r {
        Some((rest, e)) => {
            assert(pre + (seq![m] + rest) =~= pre.push(m) + rest);
        },
        None => {},
    }
}

/// Parse a JSON array of metadata objects.
pub fn parse_meta_array(v: &[u8], pos: usize) -> (r: Option<(Vec<AttachmentMeta>, usize)>)
    ensures
        r matches Some((out, e)) ==> sp_meta_array(v@, pos as int) == Some((meta_views(out@),
            e as int)) && pos < e <= v@.len(),
        r is None ==> sp_meta_array(v@, pos as int) is None,
{
    let n: usize = v.len();
    if !(pos < n && n - pos > 1 && v[pos] == 0x5B) {
        return None;
    }
    if v[pos + 1] == 0x5D {
        proof {
            assert(meta_views(Seq::<AttachmentMeta>::empty()) =~= Seq::<
                AttachmentMetaView,
            >::empty());
        }
        return Some((Vec::new(), pos + 2));
    }
    let mut out: Vec<AttachmentMeta> = Vec::new();
    let mut i: usize = pos + 1;
    loop
        invariant
            n == v@.len(),
            pos + 1 <= i <= n,
            sp_meta_array(v@, pos as int) == glue_metas(meta_views(out@), sp_meta_items(v@,
                i as int)),
        decreases n - i,
    {
        match parse_meta(v, i) {
            Some((m, e)) => {
                if e < n && v[e] == 0x2C {
                    let ghost prev = out@;
                    let ghost mv = m@;
                    out.push(m);
                    proof {
                        lemma_meta_views_push(prev, out@[out@.len() - 1]);
                        lemma_glue_metas_shift(meta_views(prev), mv, sp_meta_items(v@, e + 1));
                    }
                    i = e + 1;
                } else if e < n && v[e] == 0x5D {
                    let ghost prev = out@;
                    let ghost mv = m@;
                    out.push(m);
                    proof {
                        lemma_meta_views_push(prev, out@[out@.len() - 1]);
                        assert(sp_meta_items(v@, i as int) == Some((seq![mv], e + 1)));
                        assert(meta_views(prev) + seq![mv] =~= meta_views(prev).push(mv));
                    }
                    return Some((out, e + 1));
                } else {
                    return None;
                }
            },
            None => {
                return None;
            },
        }
    }
}

/// The whole `attachments.json` document: the list of declared attachments.
pub open spec fn sp_attachments(b: Seq<u8>) -> Option<Seq<AttachmentMetaView>> {
    match sp_eat(b, 0, l_att_open()) {
        Some(e1) => match sp_meta_array(b, e1) {
            Some((metas, e2)) => if e2 < b.len() && b[e2] == 0x7D && e2 + 1 == b.len() {
                Some(metas)
            } else {
                None
            },
            None => None,
        },
        None => None,
    }
}

/// Parse a whole `attachments.json` document.
pub fn parse_attachments_json(v: &[u8]) -> (r: Option<Vec<AttachmentMeta>>)
    ensures
        r matches Some(out) ==> sp_attachments(v@) == Some(meta_views(out@)),
        r is None ==> sp_attachments(v@) is None,
{
    let e1 = match eat_lit(v, 0, l_att_open_vec().as_slice()) {
        Some(e) => e,
        None => {
            return None;
        },
    };
    let (metas, e2) = match parse_meta_array(v, e1) {
        Some(t) => t,
        None => {
            return None;
        },
    };
    if e2 < v.len() && v[e2] == 0x7D && e2 + 1 == v.len() {
        Some(metas)
    } else {
        None
    }
}

/// The version and identity fields of the manifest document.
pub open spec fn sp_manifest_head(b: Seq<u8>) -> Option<((Semver, Uid, Option<Seq<char>>,
    Seq<Seq<char>>), int)> {
    match sp_eat(b, 0, l_mf_open()) {
        Some(e1) => match sp_bounded(b, e1, 0xFFFF) {
            Some((major, e2)) => match sp_eat(b, e2, l_minor()) {
                Some(e3) => match sp_bounded(b, e3, 0xFFFF) {
                    Some((minor, e4)) => match sp_eat(b, e4, l_patch()) {
                        Some(e5) => match sp_bounded(b, e5, 0xFFFF) {
                            Some((patch, e6)) => match sp_eat(b, e6, l_docid()) {
                                Some(e7) => match sp_uid(b, e7) {
                                    Some((doc_id, e8)) => match sp_eat(b, e8, l_title()) {
                                        Some(e9) => match sp_opt_str(b, e9) {
                                            Some((title, e10)) => match sp_eat(b, e10,
                                                l_authors()) {
                                                Some(e11) => match sp_str_array(b, e11) {
                                                    Some((authors, e12)) => Some(((Semver {
                                                        major: major as u16,
                                                        minor: minor as u16,
                                                        patch: patch as u16,
                                                    }, doc_id, title, authors), e12)),
                                                    None => None,
                                                },
                                                None => None,
                                            },
                                            None => None,
                                        },
                                        None => None,
                                    },
                                    None => None,
                                },
                                None => None,
                            },
                            None => None,
                        },
                        None => None,
                    },
                    None => None,
                },
                None => None,
            },
            None => None,
        },
        None => None,
    }
}

/// The remaining fields of the manifest document.
pub open spec fn sp_manifest_tail(b: Seq<u8>, pos: int) -> Option<((u64, u64, Seq<Seq<char>>,
    Option<AttachmentRef>, Seq<LinkRefView>, Option<u32>, Seq<char>), int)> {
    match sp_eat(b, pos, l_created()) {
        Some(e1) => match sp_timestamp(b, e1) {
            Some((created, e2)) => match sp_eat(b, e2, l_modified()) {
                Some(e3) => match sp_timestamp(b, e3) {
                    Some((modified, e4)) => match sp_eat(b, e4, l_tags()) {
                        Some(e5) => match sp_str_array(b, e5) {
                            Some((tags, e6)) => match sp_eat(b, e6, l_cover()) {
                                Some(e7) => match sp_cover(b, e7) {
                                    Some((cover, e8)) => match sp_eat(b, e8, l_links()) {
                                        Some(e9) => match sp_link_array(b, e9) {
                                            Some((links, e10)) => match sp_eat(b, e10, l_dbv()) {
                                                Some(e11) => match sp_opt_u32(b, e11) {
                                                    Some((dbv, e12)) => match sp_eat(b, e12,
                                                        l_extras()) {
                                                        Some(e13) => match sp_extras(b, e13) {
                                                            Some((extras, e14)) => if e14
                                                                < b.len() && b[e14] == 0x7D && e14
                                                                + 1 == b.len() {
                                                                Some(((created, modified, tags,
                                                                    cover, links, dbv, extras),
                                                                    e14 + 1))
                                                            } else {
                                                                None
                                                            },
                                                            None => None,
                                                        },
                                                        None => None,
                                                    },
                                                    None => None,
                                                },
                                                None => None,
                                            },
                                            None => None,
                                        },
                                        None => None,
                                    },
                                    None => None,
                                },
                                None => None,
                            },
                            None => None,
                        },
                        None => None,
                    },
                    None => None,
                },
                None => None,
            },
            None => None,
        },
        None => None,
    }
}

/// The whole manifest document.
pub open spec fn sp_manifest(b: Seq<u8>) -> Option<ManifestView> {
    match sp_manifest_head(b) {
        Some(((tmd_version, doc_id, title, authors), p)) => match sp_manifest_tail(b, p) {
            Some(((created_utc, modified_utc, tags, cover_image, links, db_schema_version,
                extras), _e)) => Some(ManifestView {
                tmd_version,
                doc_id,
                title,
                authors,
                created_utc,
                modified_utc,
                tags,
                cover_image,
                links,
                db_schema_version,
                extras,
            }),
            None => None,
        },
        None => None,
    }
}

/// Parse the version and identity fields.
#[verifier::rlimit(80)]
fn parse_manifest_head(v: &[u8]) -> (r: Option<((Semver, Uid, Option<String>, Vec<String>),
    usize)>)
    ensures
        r matches Some((t, e)) ==> sp_manifest_head(v@) == Some(((t.0, t.1, opt_view(t.2),
            vec_views(t.3@)), e as int)) && e <= v@.len(),
        r is None ==> sp_manifest_head(v@) is None,
{
    let e1 = match eat_lit(v, 0, l_mf_open_vec().as_slice()) {
        Some(e) => e,
        None => {
            return None;
        },
    };
    let (major, e2) = match parse_bounded(v, e1, 0xFFFF) {
        Some(t) => t,
        None => {
            return None;
        },
    };
    let e3 = match eat_lit(v, e2, l_minor_vec().as_slice()) {
        Some(e) => e,
        None => {
            return None;
        },
    };
    let (minor, e4) = match parse_bounded(v, e3, 0xFFFF) {
        Some(t) => t,
        None => {
            return None;
        },
    };
    let e5 = match eat_lit(v, e4, l_patch_vec().as_slice()) {
        Some(e) => e,
        None => {
            return None;
        },
    };
    let (patch, e6) = match parse_bounded(v, e5, 0xFFFF) {
        Some(t) => t,
        None => {
            return None;
        },
    };
    let e7 = match eat_lit(v, e6, l_docid_vec().as_slice()) {
        Some(e) => e,
        None => {
            return None;
        },
    };
    let (doc_id, e8) = match parse_uid(v, e7) {
        Some(t) => t,
        None => {
            return None;
        },
    };
    let e9 = match eat_lit(v, e8, l_title_vec().as_slice()) {
        Some(e) => e,
        None => {
            return None;
        },
    };
    let (title, e10) = match parse_opt_string(v, e9) {
        Some(t) => t,
        None => {
            return None;
        },
    };
    let e11 = match eat_lit(v, e10, l_authors_vec().as_slice()) {
        Some(e) => e,
        None => {
            return None;
        },
    };
    let (authors, e12) = match parse_str_array(v, e11) {
        Some(t) => t,
        None => {
            return None;
        },
    };
    let sv = Semver { major: major as u16, minor: minor as u16, patch: patch as u16 };
    Some(((sv, doc_id, title, authors), e12))
}

/// Parse the remaining fields.
#[verifier::rlimit(80)]
fn parse_manifest_tail(v: &[u8], pos: usize) -> (r: Option<((u64, u64, Vec<String>,
    Option<AttachmentRef>, Vec<LinkRef>, Option<u32>, String), usize)>)
    ensures
        r matches Some((t, e)) ==> sp_manifest_tail(v@, pos as int) == Some(((t.0, t.1,
            vec_views(t.2@), t.3, link_views(t.4@), t.5, t.6@), e as int)),
        r is None ==> sp_manifest_tail(v@, pos as int) is None,
{
    let e1 = match eat_lit(v, pos, l_created_vec().as_slice()) {
        Some(e) => e,
        None => {
            return None;
        },
    };
    let (created, e2) = match parse_timestamp(v, e1) {
        Some(t) => t,
        None => {
            return None;
        },
    };
    let e3 = match eat_lit(v, e2, l_modified_vec().as_slice()) {
        Some(e) => e,
        None => {
            return None;
        },
    };
    let (modified, e4) = match parse_timestamp(v, e3) {
        Some(t) => t,
        None => {
            return None;
        },
    };
    let e5 = match eat_lit(v, e4, l_tags_vec().as_slice()) {
        Some(e) => e,
        None => {
            return None;
        },
    };
    let (tags, e6) = match parse_str_array(v, e5) {
        Some(t) => t,
        None => {
            return None;
        },
    };
    let e7 = match eat_lit(v, e6, l_cover_vec().as_slice()) {
        Some(e) => e,
        None => {
            return None;
        },
    };
    let (cover, e8) = match parse_cover(v, e7) {
        Some(t) => t,
        None => {
            return None;
        },
    };
    let e9 = match eat_lit(v, e8, l_links_vec().as_slice()) {
        Some(e) => e,
        None => {
            return None;
        },
    };
    let (links, e10) = match parse_link_array(v, e9) {
        Some(t) => t,
        None => {
            return None;
        },
    };
    let e11 = match eat_lit(v, e10, l_dbv_vec().as_slice()) {
        Some(e) => e,
        None => {
            return None;
        },
    };
    let (dbv, e12) = match parse_opt_u32(v, e11) {
        Some(t) => t,
        None => {
            return None;
        },
    };
    let e13 = match eat_lit(v, e12, l_extras_vec().as_slice()) {
        Some(e) => e,
        None => {
            return None;
        },
    };
    let (extras, e14) = match parse_extras(v, e13) {
        Some(t) => t,
        None => {
            return None;
        },
    };
    if e14 < v.len() && v[e14] == 0x7D && e14 + 1 == v.len() {
        Some(((created, modified, tags, cover, links, dbv, extras), e14 + 1))
    } else {
        None
    }
}

/// Parse a whole manifest document.
pub fn parse_manifest_json(v: &[u8]) -> (r: Option<Manifest>)
    ensures
        r matches Some(m) ==> sp_manifest(v@) == Some(m@),
        r is None ==> sp_manifest(v@) is None,
{
    let (head, p) = match parse_manifest_head(v) {
        Some(t) => t,
        None => {
            return None;
        },
    };
    let (tail, _e) = match parse_manifest_tail(v, p) {
        Some(t) => t,
        None => {
            return None;
        },
    };
    Some(Manifest {
        tmd_version: head.0,
        doc_id: head.1,
        title: head.2,
        authors: head.3,
        created_utc: tail.0,
        modified_utc: tail.1,
        tags: tail.2,
        cover_image: tail.3,
        links: tail.4,
        db_schema_version: tail.5,
        extras: tail.6,
    })
}

} // verus!
