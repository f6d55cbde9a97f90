//! The stored-entry archive layout used by both container formats: local
//! entry records, a central directory, and an end marker whose comment field
//! carries the hybrid format's trailer.  Every byte of the writer's output is
//! pinned; the reader is specified on arbitrary (adversarial) buffers.

use vstd::prelude::*;
use crate::digest::{crc32, crc32_of};
use crate::json::{push_lit, b_sub};
use crate::{TmdError, TmdResult};

verus! {

/// An archive entry: a name and its raw bytes (entries are stored, never
/// compressed).
pub type EntryPair = (Vec<u8>, Vec<u8>);

/// Model of an archive entry.
pub type EntryPairView = (Seq<u8>, Seq<u8>);

/// The views of a vector of entries.
pub open spec fn bpair_views(v: Seq<EntryPair>) -> Seq<EntryPairView> {
    v.map_values(|p: EntryPair| (p.0@, p.1@))
}

/// Little-endian bytes of a 16-bit value (arithmetic form, kept open so
/// byte-level facts about headers can be proved).
pub open spec fn u16le(x: u16) -> Seq<u8> {
    seq![(x % 256) as u8, (x / 256) as u8]
}

/// Little-endian bytes of a 32-bit value.
pub open spec fn u32le(x: u32) -> Seq<u8> {
    seq![
        (x % 256) as u8,
        ((x / 256) % 256) as u8,
        ((x / 0x10000) % 256) as u8,
        (x / 0x1000000) as u8,
    ]
}

/// The 16-bit value written at `pos` in little-endian order.
pub open spec fn u16_at(b: Seq<u8>, pos: int) -> u16 {
    (b[pos] + 256 * b[pos + 1]) as u16
}

/// The 32-bit value written at `pos` in little-endian order.
pub open spec fn u32_at(b: Seq<u8>, pos: int) -> u32 {
    (b[pos] + 256 * (b[pos + 1] + 256 * (b[pos + 2] + 256 * b[pos + 3]))) as u32
}

/// Reading back what `u16le` wrote gives the value.
pub proof fn lemma_u16le_round_trip(x: u16, b: Seq<u8>, pos: int)
    requires
        0 <= pos,
        pos + 2 <= b.len(),
        b[pos] == u16le(x)[0],
        b[pos + 1] == u16le(x)[1],
    ensures
        u16_at(b, pos) == x,
{
}

/// Reading back what `u32le` wrote gives the value.
pub proof fn lemma_u32le_round_trip(x: u32, b: Seq<u8>, pos: int)
    requires
        0 <= pos,
        pos + 4 <= b.len(),
        b[pos] == u32le(x)[0],
        b[pos + 1] == u32le(x)[1],
        b[pos + 2] == u32le(x)[2],
        b[pos + 3] == u32le(x)[3],
    ensures
        u32_at(b, pos) == x,
{
}

/// Append the little-endian bytes of a 16-bit value.
pub fn push_u16le(out: &mut Vec<u8>, x: u16)
    ensures
        final(out)@ == old(out)@ + u16le(x),
{
    out.push((x % 256) as u8);
    out.push((x / 256) as u8);
    proof {
        assert(out@ =~= old(out)@ + u16le(x));
    }
}

/// Append the little-endian bytes of a 32-bit value.
pub fn push_u32le(out: &mut Vec<u8>, x: u32)
    ensures
        final(out)@ == old(out)@ + u32le(x),
{
    out.push((x % 256) as u8);
    out.push(((x / 256) % 256) as u8);
    out.push(((x / 0x10000) % 256) as u8);
    out.push((x / 0x1000000) as u8);
    proof {
        assert(out@ =~= old(out)@ + u32le(x));
    }
}

/// Read a 16-bit little-endian value.
pub fn read_u16le(v: &[u8], pos: usize) -> (r: u16)
    requires
        pos + 2 <= v@.len(),
    ensures
        r == u16_at(v@, pos as int),
{
    v[pos] as u16 + 256 * (v[pos + 1] as u16)
}

/// Read a 32-bit little-endian value.
pub fn read_u32le(v: &[u8], pos: usize) -> (r: u32)
    requires
        pos + 4 <= v@.len(),
    ensures
        r == u32_at(v@, pos as int),
{
    v[pos] as u32 + 256 * (v[pos + 1] as u32 + 256 * (v[pos + 2] as u32 + 256 * (v[pos
        + 3] as u32)))
}

/// The four-byte signature of a local entry record.
pub open spec fn sig_local() -> Seq<u8> {
    seq![0x50u8, 0x4B, 0x03, 0x04]
}

/// The four-byte signature of a central directory record.
pub open spec fn sig_central() -> Seq<u8> {
    seq![0x50u8, 0x4B, 0x01, 0x02]
}

/// The four-byte signature of the end marker.
pub open spec fn sig_end() -> Seq<u8> {
    seq![0x50u8, 0x4B, 0x05, 0x06]
}

/// One local record: signature, fixed header fields, name, then the bytes.
pub open spec fn seg_bytes(name: Seq<u8>, data: Seq<u8>) -> Seq<u8> {
    sig_local() + u16le(20)  // version needed
     + u16le(0)  // flags
     + u16le(0)  // method: stored
     + u16le(0)  // time
     + u16le(0)  // date
     + u32le(crc32_of(data)) + u32le(data.len() as u32)
        + u32le(data.len() as u32) + u16le(name.len() as u16)
        + u16le(0)  // extra length
     + name + data
}

/// All local records, in entry order.
pub open spec fn segs_bytes(es: Seq<EntryPairView>) -> Seq<u8>
    decreases es.len(),
{
    if es.len() == 0 {
        Seq::empty()
    } else {
        segs_bytes(es.drop_last()) + seg_bytes(es.last().0, es.last().1)
    }
}

/// One central directory record for an entry whose local record starts at
/// `off`.
pub open spec fn cdh_bytes(name: Seq<u8>, data: Seq<u8>, off: int) -> Seq<u8> {
    sig_central() + u16le(20)  // version made by
     + u16le(20)  // version needed
     + u16le(0)  // flags
     + u16le(0)  // method
     + u16le(0)  // time
     + u16le(0)  // date
     + u32le(crc32_of(data)) + u32le(data.len() as u32)
        + u32le(data.len() as u32) + u16le(name.len() as u16)
        + u16le(0)  // extra length
     + u16le(0)  // comment length
     + u16le(0)  // disk number
     + u16le(0)  // internal attributes
     + u32le(0)  // external attributes
     + u32le(off as u32) + name
}

/// The whole central directory, in entry order.
pub open spec fn cd_bytes(es: Seq<EntryPairView>) -> Seq<u8>
    decreases es.len(),
{
    if es.len() == 0 {
        Seq::empty()
    } else {
        cd_bytes(es.drop_last()) + cdh_bytes(es.last().0, es.last().1,
            segs_bytes(es.drop_last()).len() as int)
    }
}

/// The end marker: signature, disk fields, entry counts, directory size and
/// offset, and the comment.
pub open spec fn eocd_bytes(n: int, cd_size: int, cd_off: int, comment: Seq<u8>) -> Seq<u8> {
    sig_end() + u16le(0)  // disk number
     + u16le(0)  // directory disk
     + u16le(n as u16) + u16le(n as u16) + u32le(
        cd_size as u32,
    ) + u32le(cd_off as u32) + u16le(comment.len() as u16) + comment
}

/// The whole archive for the given entries and end-marker comment.
pub open spec fn archive_bytes(es: Seq<EntryPairView>, comment: Seq<u8>) -> Seq<u8> {
    segs_bytes(es) + cd_bytes(es) + eocd_bytes(es.len() as int, cd_bytes(es).len() as int,
        segs_bytes(es).len() as int, comment)
}

/// The format's limits: entry counts and sizes must fit the fixed-width
/// header fields.
pub open spec fn archive_fits(es: Seq<EntryPairView>) -> bool {
    &&& es.len() <= 0xFFFF
    &&& forall|i: int| 0 <= i < es.len() ==> (#[trigger] es[i].0).len() <= 0xFFFF
    &&& forall|i: int| 0 <= i < es.len() ==> (#[trigger] es[i].1).len() <= 0xFFFF_FFFF
    &&& segs_bytes(es).len() + cd_bytes(es).len() <= 0xFFFF_FFFF
}

/// Length of one local record.
pub proof fn lemma_seg_len(name: Seq<u8>, data: Seq<u8>)
    ensures
        seg_bytes(name, data).len() == 30 + name.len() + data.len(),
{
}

/// Length of one central directory record.
pub proof fn lemma_cdh_len(name: Seq<u8>, data: Seq<u8>, off: int)
    ensures
        cdh_bytes(name, data, off).len() == 46 + name.len(),
{
}

/// Length of the end marker.
pub proof fn lemma_eocd_len(n: int, cd_size: int, cd_off: int, comment: Seq<u8>)
    ensures
        eocd_bytes(n, cd_size, cd_off, comment).len() == 22 + comment.len(),
{
}

/// Validate the format limits and measure the local section and central
/// directory.  Fails exactly when the entries exceed the format's limits.
fn measure_archive(entries: &Vec<EntryPair>) -> (r: TmdResult<(u64, u64)>)
    ensures
        r matches Ok(t) ==> archive_fits(bpair_views(entries@)) && t.0 == segs_bytes(
            bpair_views(entries@)).len() && t.1 == cd_bytes(bpair_views(entries@)).len(),
        r is Err <==> !archive_fits(bpair_views(entries@)),
        r matches Err(e) ==> e is InvalidFormat,
{
    let ghost es = bpair_views(entries@);
    if entries.len() > 0xFFFF {
        return Err(err_fmt("too many archive entries"));
    }
    let mut total: u64 = 0;
    let mut cd_total: u64 = 0;
    let mut i: usize = 0;
    while i < entries.len()
        invariant
            es == bpair_views(entries@),
            i <= entries@.len(),
            es.len() == entries@.len() <= 0xFFFF,
            forall|j: int| 0 <= j < i ==> (#[trigger] es[j].0).len() <= 0xFFFF,
            forall|j: int| 0 <= j < i ==> (#[trigger] es[j].1).len() <= 0xFFFF_FFFF,
            total == segs_bytes(es.take(i as int)).len(),
            cd_total == cd_bytes(es.take(i as int)).len(),
            total + cd_total <= 0xFFFF_FFFF,
        decreases entries@.len() - i,
    {
        let name_len: usize = entries[i].0.len();
        let data_len: usize = entries[i].1.len();
        proof {
            assert(es[i as int] == (entries@[i as int].0@, entries@[i as int].1@));
            assert(es.take(i + 1).drop_last() =~= es.take(i as int));
            assert(es.take(i + 1).last() == es[i as int]);
            lemma_seg_len(es[i as int].0, es[i as int].1);
            lemma_cdh_len(es[i as int].0, es[i as int].1, segs_bytes(es.take(
                i + 1,
            ).drop_last()).len() as int);
        }
        if name_len > 0xFFFF {
            proof {
                assert((es[i as int].0).len() > 0xFFFF);
            }
            return Err(err_fmt("archive entry name too long"));
        }
        if data_len as u64 > 0xFFFF_FFFF {
            proof {
                assert((es[i as int].1).len() > 0xFFFF_FFFF);
            }
            return Err(err_fmt("archive entry too large"));
        }
        let add: u64 = 30 + name_len as u64 + data_len as u64;
        let cd_add: u64 = 46 + name_len as u64;
        if total + add + cd_total + cd_add > 0xFFFF_FFFF {
            proof {
                lemma_segs_cd_monotone(es, i as int + 1);
            }
            return Err(err_fmt("archive too large"));
        }
        total = total + add;
        cd_total = cd_total + cd_add;
        i = i + 1;
    }
    proof {
        assert(es.take(es.len() as int) =~= es);
    }
    Ok((total, cd_total))
}

/// Build the archive for the given entries with an empty comment.  Fails
/// exactly when the entries exceed the format's limits.
#[verifier::spinoff_prover]
#[verifier::rlimit(100)]
pub fn encode_archive(entries: &Vec<EntryPair>) -> (r: TmdResult<Vec<u8>>)
    ensures
        r matches Ok(out) ==> archive_fits(bpair_views(entries@)) && out@ == archive_bytes(
            bpair_views(entries@), Seq::empty()),
        r is Err <==> !archive_fits(bpair_views(entries@)),
        r matches Err(e) ==> e is InvalidFormat,
{
    let ghost es = bpair_views(entries@);
    let sizes: (u64, u64) = match measure_archive(entries) {
        Ok(t) => t,
        Err(e) => {
            return Err(e);
        },
    };
    let total: u64 = sizes.0;
    let cd_total: u64 = sizes.1;
    // emit the local records
    let mut out: Vec<u8> = Vec::new();
    let mut i2: usize = 0;
    while i2 < entries.len()
        invariant
            es == bpair_views(entries@),
            i2 <= entries@.len(),
            es.len() == entries@.len() <= 0xFFFF,
            archive_fits(es),
            out@ == segs_bytes(es.take(i2 as int)),
        decreases entries@.len() - i2,
    {
        proof {
            assert(es[i2 as int] == (entries@[i2 as int].0@, entries@[i2 as int].1@));
            assert((es[i2 as int].0).len() <= 0xFFFF);
            assert((es[i2 as int].1).len() <= 0xFFFF_FFFF);
        }
        push_seg(&mut out, &entries[i2].0, &entries[i2].1);
        proof {
            assert(es.take(i2 + 1).drop_last() =~= es.take(i2 as int));
            assert(es.take(i2 + 1).last() == es[i2 as int]);
        }
        i2 = i2 + 1;
    }
    proof {
        assert(es.take(es.len() as int) =~= es);
    }
    // emit the central directory
    let mut off: u64 = 0;
    let mut k2: usize = 0;
    while k2 < entries.len()
        invariant
            es == bpair_views(entries@),
            k2 <= entries@.len(),
            es.len() == entries@.len() <= 0xFFFF,
            archive_fits(es),
            off == segs_bytes(es.take(k2 as int)).len(),
            out@ == segs_bytes(es) + cd_bytes(es.take(k2 as int)),
        decreases entries@.len() - k2,
    {
        proof {
            assert(es[k2 as int] == (entries@[k2 as int].0@, entries@[k2 as int].1@));
            assert((es[k2 as int].0).len() <= 0xFFFF);
            assert((es[k2 as int].1).len() <= 0xFFFF_FFFF);
            lemma_segs_cd_monotone(es, k2 as int + 1);
            assert(es.take(k2 + 1).drop_last() =~= es.take(k2 as int));
            assert(es.take(k2 + 1).last() == es[k2 as int]);
            lemma_seg_len(es[k2 as int].0, es[k2 as int].1);
        }
        push_cdh(&mut out, &entries[k2].0, &entries[k2].1, off as u32);
        off = off + 30 + entries[k2].0.len() as u64 + entries[k2].1.len() as u64;
        k2 = k2 + 1;
    }
    proof {
        assert(es.take(es.len() as int) =~= es);
    }
    // emit the end marker with an empty comment
    let n: u16 = entries.len() as u16;
    out.push(0x50);
    out.push(0x4B);
    out.push(0x05);
    out.push(0x06);
    push_u16le(&mut out, 0);
    push_u16le(&mut out, 0);
    push_u16le(&mut out, n);
    push_u16le(&mut out, n);
    push_u32le(&mut out, cd_total as u32);
    push_u32le(&mut out, total as u32);
    push_u16le(&mut out, 0);
    proof {
        assert(out@ =~= archive_bytes(es, Seq::empty()));
    }
    Ok(out)
}

/// Append one local record.
fn push_seg(out: &mut Vec<u8>, name: &Vec<u8>, data: &Vec<u8>)
    requires
        name@.len() <= 0xFFFF,
        data@.len() <= 0xFFFF_FFFF,
    ensures
        final(out)@ == old(out)@ + seg_bytes(name@, data@),
{
    let c: u32 = crc32(data.as_slice());
    out.push(0x50);
    out.push(0x4B);
    out.push(0x03);
    out.push(0x04);
    push_u16le(out, 20);
    push_u16le(out, 0);
    push_u16le(out, 0);
    push_u16le(out, 0);
    push_u16le(out, 0);
    push_u32le(out, c);
    push_u32le(out, data.len() as u32);
    push_u32le(out, data.len() as u32);
    push_u16le(out, name.len() as u16);
    push_u16le(out, 0);
    push_lit(out, name.as_slice());
    push_lit(out, data.as_slice());
    proof {
        assert(out@ =~= old(out)@ + seg_bytes(name@, data@));
    }
}

/// Append one central directory record.
fn push_cdh(out: &mut Vec<u8>, name: &Vec<u8>, data: &Vec<u8>, off: u32)
    requires
        name@.len() <= 0xFFFF,
        data@.len() <= 0xFFFF_FFFF,
    ensures
        final(out)@ == old(out)@ + cdh_bytes(name@, data@, off as int),
{
    let c: u32 = crc32(data.as_slice());
    out.push(0x50);
    out.push(0x4B);
    out.push(0x01);
    out.push(0x02);
    push_u16le(out, 20);
    push_u16le(out, 20);
    push_u16le(out, 0);
    push_u16le(out, 0);
    push_u16le(out, 0);
    push_u16le(out, 0);
    push_u32le(out, c);
    push_u32le(out, data.len() as u32);
    push_u32le(out, data.len() as u32);
    push_u16le(out, name.len() as u16);
    push_u16le(out, 0);
    push_u16le(out, 0);
    push_u16le(out, 0);
    push_u16le(out, 0);
    push_u32le(out, 0);
    push_u32le(out, off);
    push_lit(out, name.as_slice());
    proof {
        assert(out@ =~= old(out)@ + cdh_bytes(name@, data@, off as int));
    }
}

/// Local and directory sections only grow with more entries.
pub proof fn lemma_segs_cd_monotone(es: Seq<EntryPairView>, i: int)
    requires
        0 <= i <= es.len(),
    ensures
        segs_bytes(es.take(i)).len() <= segs_bytes(es).len(),
        cd_bytes(es.take(i)).len() <= cd_bytes(es).len(),
    decreases es.len() - i,
{
    if i == es.len() {
        assert(es.take(i) =~= es);
    } else {
        lemma_segs_cd_monotone(es, i + 1);
        assert(es.take(i + 1).drop_last() =~= es.take(i));
    }
}

// ---------------------------------------------------------------------------
// Reading
// ---------------------------------------------------------------------------

/// Parse consecutive local records from `pos` until a central-directory or
/// end signature; any other byte shape is a hard failure.
pub open spec fn sp_parse_entries(b: Seq<u8>, pos: int) -> Option<(Seq<EntryPairView>, int)>
    decreases b.len() - pos,
{
    if pos < 0 || pos + 4 > b.len() {
        None
    } else if b_sub(b, pos, 4) == sig_local() {
        if pos + 30 > b.len() {
            None
        } else {
            let method = u16_at(b, pos + 8);
            let csize = u32_at(b, pos + 18);
            let usize_ = u32_at(b, pos + 22);
            let namelen = u16_at(b, pos + 26);
            let extralen = u16_at(b, pos + 28);
            if method != 0 || csize != usize_ || pos + 30 + namelen + extralen + csize > b.len() {
                None
            } else {
                let name = b_sub(b, pos + 30, namelen as int);
                let data = b_sub(b, pos + 30 + namelen + extralen, csize as int);
                let next = pos + 30 + namelen + extralen + csize;
                match sp_parse_entries(b, next) {
                    Some((rest, e)) => Some((seq![(name, data)] + rest, e)),
                    None => None,
                }
            }
        }
    } else if b_sub(b, pos, 4) == sig_central() || b_sub(b, pos, 4) == sig_end() {
        Some((Seq::empty(), pos))
    } else {
        None
    }
}

/// Skip `k` central directory records from `pos`.
pub open spec fn sp_skip_cd(b: Seq<u8>, pos: int, k: int) -> Option<int>
    decreases k,
{
    if k <= 0 {
        Some(pos)
    } else if pos < 0 || pos + 46 > b.len() || b_sub(b, pos, 4) != sig_central() {
        None
    } else {
        let namelen = u16_at(b, pos + 28);
        let extralen = u16_at(b, pos + 30);
        let commentlen = u16_at(b, pos + 32);
        let next = pos + 46 + namelen + extralen + commentlen;
        if next > b.len() {
            None
        } else {
            sp_skip_cd(b, next, k - 1)
        }
    }
}

/// Parse a whole archive: local records, then a matching central directory,
/// then a consistent end marker.
pub open spec fn sp_parse_archive(b: Seq<u8>) -> Option<Seq<EntryPairView>> {
    match sp_parse_entries(b, 0) {
        Some((es, p)) => match sp_skip_cd(b, p, es.len() as int) {
            Some(q) => if q + 22 <= b.len() && b_sub(b, q, 4) == sig_end()
                && u16_at(b, q + 8) == es.len()
                && u16_at(b, q + 10) == es.len()
                && u32_at(b, q + 12) == q - p
                && u32_at(b, q + 16) == p {
                Some(es)
            } else {
                None
            },
            None => None,
        },
        None => None,
    }
}

/// Append a parsed entry list to entries already read.
pub open spec fn glue_entries(pre: Seq<EntryPairView>, r: Option<(Seq<EntryPairView>, int)>)
    -> Option<(Seq<EntryPairView>, int)> {
    match r {
        Some((rest, e)) => Some((pre + rest, e)),
        None => None,
    }
}

/// Read a four-byte signature.
fn sig_at(v: &[u8], pos: usize) -> (r: (u8, u8, u8, u8))
    requires
        pos + 4 <= v@.len(),
    ensures
        (r.0 == v@[pos as int] && r.1 == v@[pos as int + 1] && r.2 == v@[pos as int + 2] && r.3
            == v@[pos as int + 3]),
{
    (v[pos], v[pos + 1], v[pos + 2], v[pos + 3])
}

/// Walk the local records from the start of the buffer.
fn walk_entries(v: &[u8]) -> (r: TmdResult<(Vec<EntryPair>, usize)>)
    ensures
        r matches Ok((out, p)) ==> sp_parse_entries(v@, 0) == Some((bpair_views(out@), p as int))
            && p <= v@.len(),
        r is Err ==> sp_parse_entries(v@, 0) is None,
        r matches Err(e) ==> e is InvalidFormat,
{
    let n: usize = v.len();
    let mut entries: Vec<EntryPair> = Vec::new();
    let mut pos: usize = 0;
    loop
        invariant
            n == v@.len(),
            pos <= n,
            sp_parse_entries(v@, 0) == glue_entries(bpair_views(entries@), sp_parse_entries(v@,
                pos as int)),
        decreases n - pos,
    {
        if n - pos < 4 {
            return Err(err_fmt("truncated archive"));
        }
        let s = sig_at(v, pos);
        if s.0 == 0x50 && s.1 == 0x4B && s.2 == 0x03 && s.3 == 0x04 {
            proof {
                assert(b_sub(v@, pos as int, 4) =~= sig_local());
            }
            if n - pos < 30 {
                return Err(err_fmt("truncated entry header"));
            }
            let method: u16 = read_u16le(v, pos + 8);
            let csize: u32 = read_u32le(v, pos + 18);
            let usize_: u32 = read_u32le(v, pos + 22);
            let namelen: u16 = read_u16le(v, pos + 26);
            let extralen: u16 = read_u16le(v, pos + 28);
            if method != 0 {
                return Err(err_fmt("unsupported storage method"));
            }
            if csize != usize_ {
                return Err(err_fmt("inconsistent entry sizes"));
            }
            if ((n - pos) as u64) < 30 + namelen as u64 + extralen as u64 + csize as u64 {
                return Err(err_fmt("entry exceeds buffer"));
            }
            let name_start: usize = pos + 30;
            let data_start: usize = name_start + namelen as usize + extralen as usize;
            let name: Vec<u8> = copy_range(v, name_start, namelen as usize);
            let data: Vec<u8> = copy_range(v, data_start, csize as usize);
            let ghost prev = bpair_views(entries@);
            let next: usize = data_start + csize as usize;
            entries.push((name, data));
            proof {
                assert(bpair_views(entries@) =~= prev.push((v@.subrange(pos + 30, pos + 30
                    + namelen as int), v@.subrange(pos + 30 + namelen + extralen, pos + 30
                    + namelen + extralen + csize))));
                lemma_glue_entries_shift(prev, (v@.subrange(pos + 30, pos + 30 + namelen as int),
                    v@.subrange(pos + 30 + namelen + extralen, pos + 30 + namelen + extralen
                    + csize)), sp_parse_entries(v@, next as int));
            }
            pos = next;
        } else if s.0 == 0x50 && s.1 == 0x4B && ((s.2 == 0x01 && s.3 == 0x02) || (s.2 == 0x05
            && s.3 == 0x06)) {
            proof {
                if s.2 == 0x01 {
                    assert(b_sub(v@, pos as int, 4) =~= sig_central());
                } else {
                    assert(b_sub(v@, pos as int, 4) =~= sig_end());
                }
                assert(sp_parse_entries(v@, pos as int) == Some((Seq::<EntryPairView>::empty(),
                    pos as int)));
                assert(bpair_views(entries@) + Seq::<EntryPairView>::empty() =~= bpair_views(
                    entries@,
                ));
            }
            return Ok((entries, pos));
        } else {
            proof {
                assert(b_sub(v@, pos as int, 4) != sig_local());
                assert(b_sub(v@, pos as int, 4) != sig_central());
                assert(b_sub(v@, pos as int, 4) != sig_end());
            }
            return Err(err_fmt("unrecognized archive record"));
        }
    }
}

/// Decode a whole archive buffer into its entries.
pub fn decode_archive(v: &[u8]) -> (r: TmdResult<Vec<EntryPair>>)
    ensures
        r matches Ok(out) ==> sp_parse_archive(v@) == Some(bpair_views(out@)),
        r is Err ==> sp_parse_archive(v@) is None,
        r matches Err(e) ==> e is InvalidFormat,
{
    let n: usize = v.len();
    let walked: (Vec<EntryPair>, usize) = match walk_entries(v) {
        Ok(t) => t,
        Err(e) => {
            return Err(e);
        },
    };
    let entries: Vec<EntryPair> = walked.0;
    let p: usize = walked.1;
    // skip the central directory, one record per entry
    let mut q: usize = p;
    let mut k: usize = 0;
    while k < entries.len()
        invariant
            n == v@.len(),
            p <= q <= n,
            k <= entries@.len(),
            sp_parse_entries(v@, 0) == Some((bpair_views(entries@), p as int)),
            sp_skip_cd(v@, p as int, entries@.len() as int) == sp_skip_cd(v@, q as int,
                entries@.len() - k),
        decreases entries@.len() - k,
    {
        if n - q < 46 {
            return Err(err_fmt("truncated central directory"));
        }
        let s = sig_at(v, q);
        if !(s.0 == 0x50 && s.1 == 0x4B && s.2 == 0x01 && s.3 == 0x02) {
            proof {
                assert(b_sub(v@, q as int, 4) != sig_central());
            }
            return Err(err_fmt("bad central directory record"));
        }
        proof {
            assert(b_sub(v@, q as int, 4) =~= sig_central());
        }
        let namelen: u16 = read_u16le(v, q + 28);
        let extralen: u16 = read_u16le(v, q + 30);
        let commentlen: u16 = read_u16le(v, q + 32);
        if ((n - q) as u64) < 46 + namelen as u64 + extralen as u64 + commentlen as u64 {
            return Err(err_fmt("central directory record exceeds buffer"));
        }
        q = q + 46 + namelen as usize + extralen as usize + commentlen as usize;
        k = k + 1;
    }
    // validate the end marker
    if n - q < 22 {
        return Err(err_fmt("missing end marker"));
    }
    let s = sig_at(v, q);
    if !(s.0 == 0x50 && s.1 == 0x4B && s.2 == 0x05 && s.3 == 0x06) {
        proof {
            assert(b_sub(v@, q as int, 4) != sig_end());
        }
        return Err(err_fmt("bad end marker"));
    }
    proof {
        assert(b_sub(v@, q as int, 4) =~= sig_end());
    }
    let n1: u16 = read_u16le(v, q + 8);
    let n2: u16 = read_u16le(v, q + 10);
    let cds: u32 = read_u32le(v, q + 12);
    let cdo: u32 = read_u32le(v, q + 16);
    if n1 as usize != entries.len() || n2 as usize != entries.len() {
        return Err(err_fmt("entry count mismatch"));
    }
    if !(cds as u64 == (q - p) as u64 && cdo as u64 == p as u64) {
        return Err(err_fmt("directory location mismatch"));
    }
    Ok(entries)
}

/// Copy `len` bytes starting at `start`.
pub fn copy_range(v: &[u8], start: usize, len: usize) -> (r: Vec<u8>)
    requires
        start + len <= v@.len(),
    ensures
        r@ == v@.subrange(start as int, start as int + len),
{
    let n: usize = v.len();
    let mut out: Vec<u8> = Vec::new();
    let mut k: usize = 0;
    while k < len
        invariant
            n == v@.len(),
            start + len <= n,
            k <= len,
            out@ == v@.subrange(start as int, start as int + k),
        decreases len - k,
    {
        out.push(v[start + k]);
        proof {
            assert(out@ =~= v@.subrange(start as int, start as int + k + 1));
        }
        k = k + 1;
    }
    out
}

/// Gluing after consing one entry is gluing with the entry appended.
proof fn lemma_glue_entries_shift(pre: Seq<EntryPairView>, e: EntryPairView,
    r: Option<(Seq<EntryPairView>, int)>)
    ensures
        glue_entries(pre, match r {
            Some((rest, x)) => Some((seq![e] + rest, x)),
            None => None,
        }) == glue_entries(pre.push(e), r),
{
    match r {
        Some((rest, x)) => {
            assert(pre + (seq![e] + rest) =~= pre.push(e) + rest);
        },
        None => {},
    }
}

/// Construct a structural-format error.
fn err_fmt(msg: &str) -> (r: TmdError)
    ensures
        r is InvalidFormat,
{
    TmdError::InvalidFormat(String::from_str(msg))
}

// ---------------------------------------------------------------------------
// Round trip: reading back what the writer produced
// ---------------------------------------------------------------------------

/// The local section decomposes from the front as well.
proof fn lemma_segs_cons(es: Seq<EntryPairView>)
    requires
        es.len() > 0,
    ensures
        segs_bytes(es) == seg_bytes(es[0].0, es[0].1) + segs_bytes(es.drop_first()),
    decreases es.len(),
{
    if es.len() == 1 {
        assert(es.drop_last() =~= Seq::<EntryPairView>::empty());
        assert(es.drop_first() =~= Seq::<EntryPairView>::empty());
        assert(es.last() == es[0]);
        assert(Seq::<u8>::empty() + seg_bytes(es[0].0, es[0].1) =~= seg_bytes(es[0].0, es[0].1));
        assert(seg_bytes(es[0].0, es[0].1) + Seq::<u8>::empty() =~= seg_bytes(es[0].0, es[0].1));
    } else {
        let head = es.drop_last();
        lemma_segs_cons(head);
        assert(head[0] == es[0]);
        assert(head.drop_first() =~= es.drop_first().drop_last());
        assert(es.drop_first().last() == es.last());
        assert(segs_bytes(es.drop_first()) == segs_bytes(es.drop_first().drop_last())
            + seg_bytes(es.last().0, es.last().1));
        assert((seg_bytes(es[0].0, es[0].1) + segs_bytes(es.drop_first().drop_last()))
            + seg_bytes(es.last().0, es.last().1) =~= seg_bytes(es[0].0, es[0].1) + (segs_bytes(
            es.drop_first().drop_last(),
        ) + seg_bytes(es.last().0, es.last().1)));
    }
}

/// The central directory decomposes from the front as well, with the first
/// record at offset zero relative to a base.
proof fn lemma_cd_cons(es: Seq<EntryPairView>)
    requires
        es.len() > 0,
    ensures
        cd_bytes(es) == cdh_bytes(es[0].0, es[0].1, 0) + cd_shift(es.drop_first(),
            seg_bytes(es[0].0, es[0].1).len() as int),
    decreases es.len(),
{
    lemma_cd_shift_zero(es);
}

/// The central directory of `es` where every offset is shifted by `base`.
spec fn cd_shift(es: Seq<EntryPairView>, base: int) -> Seq<u8>
    decreases es.len(),
{
    if es.len() == 0 {
        Seq::empty()
    } else {
        cd_shift(es.drop_last(), base) + cdh_bytes(es.last().0, es.last().1, base + segs_bytes(
            es.drop_last(),
        ).len())
    }
}

/// The plain central directory is the shifted one at base zero, and shifting
/// decomposes from the front.
proof fn lemma_cd_shift_zero(es: Seq<EntryPairView>)
    ensures
        cd_bytes(es) == cd_shift(es, 0),
        es.len() > 0 ==> cd_shift(es, 0) == cdh_bytes(es[0].0, es[0].1, 0) + cd_shift(
            es.drop_first(), seg_bytes(es[0].0, es[0].1).len() as int),
    decreases es.len(),
{
    lemma_cd_shift_base(es, 0);
    if es.len() > 0 {
        lemma_cd_shift_cons(es, 0);
    }
}

/// `cd_bytes` equals `cd_shift` at base zero.
proof fn lemma_cd_shift_base(es: Seq<EntryPairView>, base: int)
    requires
        base == 0,
    ensures
        cd_bytes(es) == cd_shift(es, 0),
    decreases es.len(),
{
    if es.len() > 0 {
        lemma_cd_shift_base(es.drop_last(), 0);
    }
}

/// Shifted central directories decompose from the front.
#[verifier::rlimit(100)]
proof fn lemma_cd_shift_cons(es: Seq<EntryPairView>, base: int)
    requires
        es.len() > 0,
    ensures
        cd_shift(es, base) == cdh_bytes(es[0].0, es[0].1, base) + cd_shift(es.drop_first(), base
            + seg_bytes(es[0].0, es[0].1).len()),
    decreases es.len(),
{
    if es.len() == 1 {
        assert(es.drop_last() =~= Seq::<EntryPairView>::empty());
        assert(es.drop_first() =~= Seq::<EntryPairView>::empty());
        assert(es.last() == es[0]);
        assert(segs_bytes(es.drop_last()).len() == 0);
        assert(cd_shift(es, base) == cd_shift(es.drop_last(), base) + cdh_bytes(es[0].0, es[0].1,
            base + 0));
        assert(Seq::<u8>::empty() + cdh_bytes(es[0].0, es[0].1, base) =~= cdh_bytes(es[0].0,
            es[0].1, base));
        assert(cd_shift(es.drop_first(), base + seg_bytes(es[0].0, es[0].1).len())
            == Seq::<u8>::empty());
        assert(cdh_bytes(es[0].0, es[0].1, base) + Seq::<u8>::empty() =~= cdh_bytes(es[0].0,
            es[0].1, base));
    } else {
        let head = es.drop_last();
        lemma_cd_shift_cons(head, base);
        assert(head[0] == es[0]);
        assert(head.drop_first() =~= es.drop_first().drop_last());
        assert(es.drop_first().last() == es.last());
        lemma_segs_cons(es.drop_last());
        assert(segs_bytes(es.drop_last()) == seg_bytes(es[0].0, es[0].1) + segs_bytes(
            es.drop_last().drop_first()));
        lemma_seg_len(es[0].0, es[0].1);
        assert(cd_shift(es.drop_first(), base + seg_bytes(es[0].0, es[0].1).len()) == cd_shift(
            es.drop_first().drop_last(), base + seg_bytes(es[0].0, es[0].1).len()) + cdh_bytes(
            es.last().0, es.last().1, base + seg_bytes(es[0].0, es[0].1).len() + segs_bytes(
            es.drop_first().drop_last()).len()));
        assert((cdh_bytes(es[0].0, es[0].1, base) + cd_shift(es.drop_first().drop_last(), base
            + seg_bytes(es[0].0, es[0].1).len())) + cdh_bytes(es.last().0, es.last().1, base
            + seg_bytes(es[0].0, es[0].1).len() + segs_bytes(es.drop_first().drop_last()).len())
            =~= cdh_bytes(es[0].0, es[0].1, base) + (cd_shift(es.drop_first().drop_last(), base
            + seg_bytes(es[0].0, es[0].1).len()) + cdh_bytes(es.last().0, es.last().1, base
            + seg_bytes(es[0].0, es[0].1).len() + segs_bytes(
            es.drop_first().drop_last()).len())));
    }
}

/// Walking the local records of an encoded archive recovers the entries.
#[verifier::spinoff_prover]
#[verifier::rlimit(100)]
proof fn lemma_parse_entries_round_trip(es: Seq<EntryPairView>, b: Seq<u8>, pos: int)
    requires
        0 <= pos,
        pos + segs_bytes(es).len() + 4 <= b.len(),
        b_sub(b, pos, segs_bytes(es).len() as int) == segs_bytes(es),
        b_sub(b, pos + segs_bytes(es).len(), 4) == sig_central() || b_sub(b, pos + segs_bytes(
            es,
        ).len(), 4) == sig_end(),
        forall|i: int| 0 <= i < es.len() ==> (#[trigger] es[i].0).len() <= 0xFFFF
            && es[i].1.len() <= 0xFFFF_FFFF,
    ensures
        sp_parse_entries(b, pos) == Some((es, pos + segs_bytes(es).len())),
    decreases es.len(),
{
    if es.len() == 0 {
        assert(segs_bytes(es).len() == 0);
        assert(b_sub(b, pos, 4) == b_sub(b, pos + 0, 4));
        assert(sp_parse_entries(b, pos) == Some((Seq::<EntryPairView>::empty(), pos)));
        assert(es =~= Seq::<EntryPairView>::empty());
    } else {
        lemma_segs_cons(es);
        let name = es[0].0;
        let data = es[0].1;
        let sg = seg_bytes(name, data);
        lemma_seg_len(name, data);
        // every byte of the first record is visible at its offset
        assert forall|k: int| 0 <= k < sg.len() implies b[pos + k] == #[trigger] sg[k] by {
            assert(b_sub(b, pos, segs_bytes(es).len() as int)[k] == b[pos + k]);
            assert(segs_bytes(es)[k] == sg[k]);
        }
        assert(b_sub(b, pos, 4) =~= sig_local()) by {
            assert(b[pos + 0] == sg[0] && b[pos + 1] == sg[1] && b[pos + 2] == sg[2] && b[pos + 3]
                == sg[3]);
        }
        assert(u16_at(b, pos + 8) == 0) by {
            assert(b[pos + (8 + 0)] == sg[8] && b[pos + (8 + 1)] == sg[9]);
            assert(pos + (8 + 0) == pos + 8 && pos + (8 + 1) == pos + 8 + 1);
            lemma_u16le_round_trip(0, b, pos + 8);
        }
        assert(u32_at(b, pos + 18) == data.len() as u32) by {
            assert forall|k: int| 0 <= k < 4 implies b[pos + 18 + k] == #[trigger] u32le(
                data.len() as u32,
            )[k] by {
                assert(b[pos + (18 + k)] == sg[18 + k]);
                assert(pos + (18 + k) == pos + 18 + k);
            }
            assert(b[pos + 18] == b[pos + 18 + 0]);
            lemma_u32le_round_trip(data.len() as u32, b, pos + 18);
        }
        assert(u32_at(b, pos + 22) == data.len() as u32) by {
            assert forall|k: int| 0 <= k < 4 implies b[pos + 22 + k] == #[trigger] u32le(
                data.len() as u32,
            )[k] by {
                assert(b[pos + (22 + k)] == sg[22 + k]);
                assert(pos + (22 + k) == pos + 22 + k);
            }
            assert(b[pos + 22] == b[pos + 22 + 0]);
            lemma_u32le_round_trip(data.len() as u32, b, pos + 22);
        }
        assert(u16_at(b, pos + 26) == name.len() as u16) by {
            assert(b[pos + (26 + 0)] == sg[26] && b[pos + (26 + 1)] == sg[27]);
            assert(pos + (26 + 0) == pos + 26 && pos + (26 + 1) == pos + 26 + 1);
            lemma_u16le_round_trip(name.len() as u16, b, pos + 26);
        }
        assert(u16_at(b, pos + 28) == 0) by {
            assert(b[pos + (28 + 0)] == sg[28] && b[pos + (28 + 1)] == sg[29]);
            assert(pos + (28 + 0) == pos + 28 && pos + (28 + 1) == pos + 28 + 1);
            lemma_u16le_round_trip(0, b, pos + 28);
        }
        assert(b_sub(b, pos + 30, name.len() as int) =~= name) by {
            assert forall|k: int| 0 <= k < name.len() implies b[pos + 30 + k] == #[trigger] name[k] by {
                assert(b[pos + (30 + k)] == sg[30 + k]);
                assert(pos + (30 + k) == pos + 30 + k);
            }
        }
        assert(b_sub(b, pos + 30 + name.len() + 0, data.len() as int) =~= data) by {
            assert forall|k: int| 0 <= k < data.len() implies b[pos + 30 + name.len() + 0 + k]
                == #[trigger] data[k] by {
                assert(b[pos + (30 + name.len() + k)] == sg[30 + name.len() + k]);
                assert(pos + (30 + name.len() + k) == pos + 30 + name.len() + 0 + k);
            }
        }
        // the remaining records sit right after, with the same terminator
        let rest = es.drop_first();
        let next = pos + sg.len();
        assert(b_sub(b, next, segs_bytes(rest).len() as int) =~= segs_bytes(rest)) by {
            assert forall|k: int| 0 <= k < segs_bytes(rest).len() implies b[next + k]
                == #[trigger] segs_bytes(rest)[k] by {
                assert(b_sub(b, pos, segs_bytes(es).len() as int)[sg.len() + k] == b[pos + (
                sg.len() + k)]);
                assert(segs_bytes(es)[sg.len() + k] == segs_bytes(rest)[k]);
                assert(pos + (sg.len() + k) == next + k);
            }
        }
        assert(pos + segs_bytes(es).len() == next + segs_bytes(rest).len());
        assert forall|i: int| 0 <= i < rest.len() implies (#[trigger] rest[i].0).len() <= 0xFFFF
            && rest[i].1.len() <= 0xFFFF_FFFF by {
            assert(rest[i] == es[i + 1]);
            assert((es[i + 1].0).len() <= 0xFFFF && es[i + 1].1.len() <= 0xFFFF_FFFF);
        }
        lemma_parse_entries_round_trip(rest, b, next);
        // now the parser's one step matches
        assert(sp_parse_entries(b, pos) == Some((seq![(name, data)] + rest, next + segs_bytes(
            rest,
        ).len())));
        assert(seq![(name, data)] + rest =~= es);
    }
}

/// Skipping the central directory of an encoded archive lands on the end
/// marker.
#[verifier::spinoff_prover]
#[verifier::rlimit(100)]
proof fn lemma_skip_cd_round_trip(es: Seq<EntryPairView>, b: Seq<u8>, pos: int, base: int)
    requires
        0 <= pos,
        pos + cd_shift(es, base).len() + 4 <= b.len(),
        b_sub(b, pos, cd_shift(es, base).len() as int) == cd_shift(es, base),
        forall|i: int| 0 <= i < es.len() ==> (#[trigger] es[i].0).len() <= 0xFFFF,
    ensures
        sp_skip_cd(b, pos, es.len() as int) == Some(pos + cd_shift(es, base).len()),
    decreases es.len(),
{
    if es.len() == 0 {
    } else {
        lemma_cd_shift_cons(es, base);
        let name = es[0].0;
        let data = es[0].1;
        let rec = cdh_bytes(name, data, base);
        lemma_cdh_len(name, data, base);
        assert forall|k: int| 0 <= k < rec.len() implies b[pos + k] == #[trigger] rec[k] by {
            assert(b_sub(b, pos, cd_shift(es, base).len() as int)[k] == b[pos + k]);
            assert(cd_shift(es, base)[k] == rec[k]);
        }
        assert(b_sub(b, pos, 4) =~= sig_central()) by {
            assert(b[pos + 0] == rec[0] && b[pos + 1] == rec[1] && b[pos + 2] == rec[2] && b[pos
                + 3] == rec[3]);
        }
        assert(u16_at(b, pos + 28) == name.len() as u16) by {
            assert(b[pos + (28 + 0)] == rec[28] && b[pos + (28 + 1)] == rec[29]);
            assert(pos + (28 + 0) == pos + 28 && pos + (28 + 1) == pos + 28 + 1);
            lemma_u16le_round_trip(name.len() as u16, b, pos + 28);
        }
        assert(u16_at(b, pos + 30) == 0) by {
            assert(b[pos + (30 + 0)] == rec[30] && b[pos + (30 + 1)] == rec[31]);
            assert(pos + (30 + 0) == pos + 30 && pos + (30 + 1) == pos + 30 + 1);
            lemma_u16le_round_trip(0, b, pos + 30);
        }
        assert(u16_at(b, pos + 32) == 0) by {
            assert(b[pos + (32 + 0)] == rec[32] && b[pos + (32 + 1)] == rec[33]);
            assert(pos + (32 + 0) == pos + 32 && pos + (32 + 1) == pos + 32 + 1);
            lemma_u16le_round_trip(0, b, pos + 32);
        }
        let rest = es.drop_first();
        let next = pos + rec.len();
        let base2 = base + seg_bytes(name, data).len() as int;
        assert(b_sub(b, next, cd_shift(rest, base2).len() as int) =~= cd_shift(rest, base2)) by {
            assert forall|k: int| 0 <= k < cd_shift(rest, base2).len() implies b[next + k]
                == #[trigger] cd_shift(rest, base2)[k] by {
                assert(b_sub(b, pos, cd_shift(es, base).len() as int)[rec.len() + k] == b[pos + (
                rec.len() + k)]);
                assert(cd_shift(es, base)[rec.len() + k] == cd_shift(rest, base2)[k]);
                assert(pos + (rec.len() + k) == next + k);
            }
        }
        assert forall|i: int| 0 <= i < rest.len() implies (#[trigger] rest[i].0).len()
            <= 0xFFFF by {
            assert(rest[i] == es[i + 1]);
            assert((es[i + 1].0).len() <= 0xFFFF);
        }
        lemma_skip_cd_round_trip(rest, b, next, base2);
        assert(sp_skip_cd(b, pos, es.len() as int) == sp_skip_cd(b, next, rest.len() as int));
    }
}

/// Parsing recovers the entries from any buffer that begins with an encoded
/// archive whose end-marker fixed fields are intact; the comment-length
/// field and everything after it play no part.  This covers both the plain
/// archive and the archive after its comment was patched to the hybrid
/// trailer.
#[verifier::spinoff_prover]
#[verifier::rlimit(100)]
pub proof fn lemma_archive_round_trip(es: Seq<EntryPairView>, b: Seq<u8>)
    requires
        archive_fits(es),
        segs_bytes(es).len() + cd_bytes(es).len() + 22 <= b.len(),
        b_sub(b, 0, segs_bytes(es).len() as int) == segs_bytes(es),
        b_sub(b, segs_bytes(es).len() as int, cd_bytes(es).len() as int) == cd_bytes(es),
        b_sub(b, segs_bytes(es).len() + cd_bytes(es).len() as int, 20) == b_sub(eocd_bytes(
            es.len() as int, cd_bytes(es).len() as int, segs_bytes(es).len() as int,
            Seq::empty()), 0, 20),
    ensures
        sp_parse_archive(b) == Some(es),
{
    let s = segs_bytes(es).len() as int;
    let c = cd_bytes(es).len() as int;
    let eocd = eocd_bytes(es.len() as int, c, s, Seq::empty());
    lemma_eocd_len(es.len() as int, c, s, Seq::empty());
    assert forall|k: int| 0 <= k < 20 implies b[s + c + k] == #[trigger] eocd[k] by {
        assert(b_sub(b, s + c, 20)[k] == b[s + c + k]);
        assert(b_sub(eocd, 0, 20)[k] == eocd[k]);
    }
    assert(b_sub(b, s + c, 4) =~= sig_end()) by {
        assert(b[s + c + 0] == eocd[0] && b[s + c + 1] == eocd[1] && b[s + c + 2] == eocd[2] && b[
        s + c + 3] == eocd[3]);
    }
    // the local records are terminated by the directory (or, with no
    // entries, directly by the end marker)
    if es.len() > 0 {
        lemma_cd_shift_zero(es);
        lemma_cdh_len(es[0].0, es[0].1, 0);
        assert(b_sub(b, s, 4) =~= sig_central()) by {
            lemma_cd_shift_cons(es, 0);
            assert forall|k: int| 0 <= k < 4 implies b[s + k] == #[trigger] (sig_central()[k]) by {
                assert(b_sub(b, s, c)[k] == b[s + k]);
                assert(cd_bytes(es)[k] == cdh_bytes(es[0].0, es[0].1, 0)[k]);
            }
        }
    }
    assert forall|i: int| 0 <= i < es.len() implies (#[trigger] es[i].0).len() <= 0xFFFF
        && es[i].1.len() <= 0xFFFF_FFFF by {
        assert((es[i].0).len() <= 0xFFFF);
        assert((es[i].1).len() <= 0xFFFF_FFFF);
    }
    lemma_parse_entries_round_trip(es, b, 0);
    lemma_cd_shift_base(es, 0);
    lemma_skip_cd_round_trip(es, b, s, 0);
    assert(sp_skip_cd(b, s, es.len() as int) == Some(s + c));
    // the end-marker fields agree with the parse positions
    assert(u16_at(b, s + c + 8) == es.len() as u16) by {
        assert(b[s + c + (8 + 0)] == eocd[8] && b[s + c + (8 + 1)] == eocd[9]);
        assert(s + c + (8 + 0) == s + c + 8 && s + c + (8 + 1) == s + c + 8 + 1);
        lemma_u16le_round_trip(es.len() as u16, b, s + c + 8);
    }
    assert(u16_at(b, s + c + 10) == es.len() as u16) by {
        assert(b[s + c + (10 + 0)] == eocd[10] && b[s + c + (10 + 1)] == eocd[11]);
        assert(s + c + (10 + 0) == s + c + 10 && s + c + (10 + 1) == s + c + 10 + 1);
        lemma_u16le_round_trip(es.len() as u16, b, s + c + 10);
    }
    assert(u32_at(b, s + c + 12) == c as u32) by {
        assert forall|k: int| 0 <= k < 4 implies b[s + c + 12 + k] == #[trigger] u32le(
            c as u32,
        )[k] by {
            assert(b[s + c + (12 + k)] == eocd[12 + k]);
            assert(s + c + (12 + k) == s + c + 12 + k);
        }
        assert(b[s + c + 12] == b[s + c + 12 + 0]);
        lemma_u32le_round_trip(c as u32, b, s + c + 12);
    }
    assert(u32_at(b, s + c + 16) == s as u32) by {
        assert forall|k: int| 0 <= k < 4 implies b[s + c + 16 + k] == #[trigger] u32le(
            s as u32,
        )[k] by {
            assert(b[s + c + (16 + k)] == eocd[16 + k]);
            assert(s + c + (16 + k) == s + c + 16 + k);
        }
        assert(b[s + c + 16] == b[s + c + 16 + 0]);
        lemma_u32le_round_trip(s as u32, b, s + c + 16);
    }
}

} // verus!
