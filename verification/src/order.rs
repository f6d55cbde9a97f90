//! Canonical ordering of attachments by logical path, used so that two
//! semantically identical documents serialize to byte-identical archives.

use vstd::prelude::*;
use vstd::string::StrSliceExecFns;
use crate::attach::EntryView;
use crate::manifest::AttachmentMeta;

verus! {

/// Lexicographic order on character sequences, by code point.
pub open spec fn chars_le(a: Seq<char>, b: Seq<char>) -> bool
    decreases a.len(),
{
    if a.len() == 0 {
        true
    } else if b.len() == 0 {
        false
    } else if a[0] != b[0] {
        (a[0] as u32) < (b[0] as u32)
    } else {
        chars_le(a.drop_first(), b.drop_first())
    }
}

/// Compare two strings in lexicographic code-point order.
pub fn str_le(a: &str, b: &str) -> (r: bool)
    ensures
        r == chars_le(a@, b@),
{
    let na: usize = a.unicode_len();
    let nb: usize = b.unicode_len();
    let min: usize = if na < nb {
        na
    } else {
        nb
    };
    let mut i: usize = 0;
    proof {
        assert(a@.skip(0) =~= a@);
        assert(b@.skip(0) =~= b@);
    }
    while i < min
        invariant
            na == a@.len(),
            nb == b@.len(),
            min == if na < nb {
                na
            } else {
                nb
            },
            i <= min,
            chars_le(a@, b@) == chars_le(a@.skip(i as int), b@.skip(i as int)),
        decreases min - i,
    {
        let ca: char = a.get_char(i);
        let cb: char = b.get_char(i);
        proof {
            assert(a@.skip(i as int)[0] == a@[i as int]);
            assert(b@.skip(i as int)[0] == b@[i as int]);
            assert(a@.skip(i as int).drop_first() =~= a@.skip(i + 1));
            assert(b@.skip(i as int).drop_first() =~= b@.skip(i + 1));
        }
        if ca != cb {
            return (ca as u32) < (cb as u32);
        }
        i = i + 1;
    }
    proof {
        if na <= nb {
            assert(a@.skip(i as int).len() == 0);
        } else {
            assert(a@.skip(i as int).len() > 0);
            assert(b@.skip(i as int).len() == 0);
        }
    }
    na <= nb
}

/// Insert an entry into a path-sorted sequence, keeping it sorted; an entry
/// equal in path to an existing one goes after it.
pub open spec fn insert_sorted(e: EntryView, s: Seq<EntryView>) -> Seq<EntryView>
    decreases s.len(),
{
    if s.len() == 0 {
        seq![e]
    } else if chars_le(s.last().meta.logical_path, e.meta.logical_path) {
        s.push(e)
    } else {
        insert_sorted(e, s.drop_last()).push(s.last())
    }
}

/// Sort entries by logical path (insertion sort, stable).
pub open spec fn sort_entries(s: Seq<EntryView>) -> Seq<EntryView>
    decreases s.len(),
{
    if s.len() == 0 {
        Seq::empty()
    } else {
        insert_sorted(s.last(), sort_entries(s.drop_last()))
    }
}

/// The views of a vector of metadata/bytes pairs (shared with the store).
pub open spec fn spair_views(v: Seq<(AttachmentMeta, Vec<u8>)>) -> Seq<EntryView> {
    crate::attach::pair_views(v)
}

/// Sort metadata/bytes pairs by logical path.
pub fn sort_pairs(v: Vec<(AttachmentMeta, Vec<u8>)>) -> (r: Vec<(AttachmentMeta, Vec<u8>)>)
    ensures
        spair_views(r@) == sort_entries(spair_views(v@)),
{
    let mut out: Vec<(AttachmentMeta, Vec<u8>)> = Vec::new();
    proof {
        assert(spair_views(out@) =~= Seq::<EntryView>::empty());
        assert(spair_views(v@.take(0)) =~= Seq::<EntryView>::empty());
        assert(sort_entries(spair_views(v@.take(0))) =~= Seq::<EntryView>::empty());
    }
    let n: usize = v.len();
    let ghost all = spair_views(v@);
    let mut i: usize = 0;
    while i < n
        invariant
            n == v@.len(),
            all == spair_views(v@),
            i <= n,
            spair_views(out@) == sort_entries(spair_views(v@).take(i as int)),
            out@.len() == i,
        decreases n - i,
    {
        // find the insertion position from the end
        let mut j: usize = out.len();
        let ghost s = spair_views(out@);
        proof {
            assert(s.skip(j as int) =~= Seq::<EntryView>::empty());
            assert(s.take(j as int) =~= s);
            assert(insert_sorted(spair_views(v@)[i as int], s.take(j as int)) + s.skip(j as int)
                =~= insert_sorted(spair_views(v@)[i as int], s));
        }
        while j > 0 && !str_le(out[j - 1].0.logical_path.as_str(),
            v[i].0.logical_path.as_str())
            invariant
                n == v@.len(),
                all == spair_views(v@),
                i < n,
                j <= out@.len(),
                s == spair_views(out@),
                insert_sorted(spair_views(v@)[i as int], s) == insert_sorted(
                    spair_views(v@)[i as int], s.take(j as int)) + s.skip(j as int),
            decreases j,
        {
            proof {
                let e = spair_views(v@)[i as int];
                assert(s[j - 1] == EntryView { meta: out@[j - 1].0@, data: out@[j - 1].1@ });
                assert(s.take(j as int).last() == s[j - 1]);
                assert(s.take(j as int).drop_last() =~= s.take(j - 1));
                assert(insert_sorted(e, s.take(j as int)) == insert_sorted(e, s.take(j - 1)).push(
                    s[j - 1]));
                assert(insert_sorted(e, s.take(j - 1)).push(s[j - 1]) + s.skip(j as int)
                    =~= insert_sorted(e, s.take(j - 1)) + s.skip(j - 1));
            }
            j = j - 1;
        }
        proof {
            let e = spair_views(v@)[i as int];
            if j > 0 {
                assert(s.take(j as int).last() == s[j - 1]);
                assert(chars_le(s[j - 1].meta.logical_path, e.meta.logical_path));
                assert(insert_sorted(e, s.take(j as int)) == s.take(j as int).push(e));
            } else {
                assert(s.take(0) =~= Seq::<EntryView>::empty());
                assert(insert_sorted(e, s.take(0)) =~= seq![e]);
            }
        }
        let m = v[i].0.clone();
        let d = crate::manifest::clone_bytes(&v[i].1);
        out.insert(j, (m, d));
        proof {
            let e = spair_views(v@)[i as int];
            assert(spair_views(out@) =~= insert_sorted(e, s));
            assert(spair_views(v@).take(i + 1).drop_last() =~= spair_views(v@).take(i as int));
            assert(spair_views(v@).take(i + 1).last() == e);
        }
        i = i + 1;
    }
    proof {
        assert(spair_views(v@).take(n as int) =~= spair_views(v@));
    }
    out
}

// ---------------------------------------------------------------------------
// The canonical order is a sorted permutation
// ---------------------------------------------------------------------------

/// The path order is total.
pub proof fn lemma_chars_le_total(a: Seq<char>, b: Seq<char>)
    ensures
        chars_le(a, b) || chars_le(b, a),
    decreases a.len(),
{
    if a.len() == 0 || b.len() == 0 {
    } else if a[0] != b[0] {
        vstd::utf8::char_u32_cast(a[0], a[0] as u32);
        vstd::utf8::char_u32_cast(b[0], b[0] as u32);
        assert(a[0] as u32 != b[0] as u32);
    } else {
        lemma_chars_le_total(a.drop_first(), b.drop_first());
    }
}

/// The path order is transitive.
pub proof fn lemma_chars_le_trans(a: Seq<char>, b: Seq<char>, c: Seq<char>)
    requires
        chars_le(a, b),
        chars_le(b, c),
    ensures
        chars_le(a, c),
    decreases a.len(),
{
    if a.len() == 0 || b.len() == 0 || c.len() == 0 {
    } else {
        vstd::utf8::char_u32_cast(a[0], a[0] as u32);
        vstd::utf8::char_u32_cast(b[0], b[0] as u32);
        vstd::utf8::char_u32_cast(c[0], c[0] as u32);
        if a[0] == b[0] && b[0] == c[0] {
            lemma_chars_le_trans(a.drop_first(), b.drop_first(), c.drop_first());
        } else {
            assert(a[0] != b[0] ==> (a[0] as u32) < (b[0] as u32));
            assert(b[0] != c[0] ==> (b[0] as u32) < (c[0] as u32));
            assert((a[0] as u32) < (c[0] as u32));
        }
    }
}

/// Inserting into the sorted sequence adds exactly the new entry.
pub proof fn lemma_insert_sorted_multiset(e: EntryView, s: Seq<EntryView>)
    ensures
        insert_sorted(e, s).to_multiset() == s.push(e).to_multiset(),
    decreases s.len(),
{
    broadcast use vstd::seq_lib::group_to_multiset_ensures;

    if s.len() == 0 {
        assert(seq![e] =~= Seq::<EntryView>::empty().push(e));
    } else if chars_le(s.last().meta.logical_path, e.meta.logical_path) {
    } else {
        lemma_insert_sorted_multiset(e, s.drop_last());
        assert(insert_sorted(e, s).to_multiset() =~= insert_sorted(e,
            s.drop_last()).to_multiset().insert(s.last()));
        assert(s.drop_last().push(e).to_multiset() =~= s.drop_last().to_multiset().insert(e));
        assert(s.drop_last().push(s.last()) =~= s);
        assert(s.to_multiset() =~= s.drop_last().to_multiset().insert(s.last()));
        assert(s.push(e).to_multiset() =~= s.to_multiset().insert(e));
        assert(insert_sorted(e, s).to_multiset() =~= s.push(e).to_multiset());
    }
}

/// Sorting keeps exactly the entries.
pub proof fn lemma_sort_entries_multiset(s: Seq<EntryView>)
    ensures
        sort_entries(s).to_multiset() == s.to_multiset(),
    decreases s.len(),
{
    broadcast use vstd::seq_lib::group_to_multiset_ensures;

    if s.len() > 0 {
        lemma_sort_entries_multiset(s.drop_last());
        lemma_insert_sorted_multiset(s.last(), sort_entries(s.drop_last()));
        assert(sort_entries(s.drop_last()).push(s.last()).to_multiset() =~= sort_entries(
            s.drop_last()).to_multiset().insert(s.last()));
        assert(s.drop_last().push(s.last()) =~= s);
        assert(s.to_multiset() =~= s.drop_last().to_multiset().insert(s.last()));
    }
}

/// Whether a sequence of entries is ordered by logical path.
pub open spec fn sorted_by_path(s: Seq<EntryView>) -> bool {
    forall|i: int, j: int| 0 <= i < j < s.len() ==> chars_le(
        #[trigger] s[i].meta.logical_path,
        #[trigger] s[j].meta.logical_path,
    )
}

/// Every entry of an insertion stays below a bound that covers the old
/// entries and the new one.
proof fn lemma_insert_sorted_bound(e: EntryView, s: Seq<EntryView>, bound: Seq<char>)
    requires
        forall|i: int| 0 <= i < s.len() ==> chars_le(#[trigger] s[i].meta.logical_path, bound),
        chars_le(e.meta.logical_path, bound),
    ensures
        forall|i: int| 0 <= i < insert_sorted(e, s).len() ==> chars_le(
            #[trigger] insert_sorted(e, s)[i].meta.logical_path,
            bound,
        ),
    decreases s.len(),
{
    if s.len() == 0 {
    } else if chars_le(s.last().meta.logical_path, e.meta.logical_path) {
        assert forall|i: int| 0 <= i < insert_sorted(e, s).len() implies chars_le(
            #[trigger] insert_sorted(e, s)[i].meta.logical_path,
            bound,
        ) by {
            if i < s.len() {
                assert(insert_sorted(e, s)[i] == s[i]);
            }
        }
    } else {
        assert(forall|i: int| 0 <= i < s.drop_last().len() ==> chars_le(
            #[trigger] s.drop_last()[i].meta.logical_path,
            bound,
        ));
        lemma_insert_sorted_bound(e, s.drop_last(), bound);
        assert forall|i: int| 0 <= i < insert_sorted(e, s).len() implies chars_le(
            #[trigger] insert_sorted(e, s)[i].meta.logical_path,
            bound,
        ) by {
            if i < insert_sorted(e, s.drop_last()).len() {
                assert(insert_sorted(e, s)[i] == insert_sorted(e, s.drop_last())[i]);
            } else {
                assert(insert_sorted(e, s)[i] == s.last());
            }
        }
    }
}

/// Inserting into a sorted sequence keeps it sorted.
proof fn lemma_insert_sorted_sorted(e: EntryView, s: Seq<EntryView>)
    requires
        sorted_by_path(s),
    ensures
        sorted_by_path(insert_sorted(e, s)),
    decreases s.len(),
{
    if s.len() == 0 {
    } else if chars_le(s.last().meta.logical_path, e.meta.logical_path) {
        assert forall|i: int, j: int| 0 <= i < j < s.push(e).len() implies chars_le(
            #[trigger] s.push(e)[i].meta.logical_path,
            #[trigger] s.push(e)[j].meta.logical_path,
        ) by {
            if j < s.len() {
                assert(s.push(e)[i] == s[i] && s.push(e)[j] == s[j]);
            } else {
                assert(s.push(e)[i] == s[i] && s.push(e)[j] == e);
                if i < s.len() - 1 {
                    lemma_chars_le_trans(s[i].meta.logical_path, s.last().meta.logical_path,
                        e.meta.logical_path);
                }
            }
        }
    } else {
        lemma_chars_le_total(s.last().meta.logical_path, e.meta.logical_path);
        assert(forall|i: int, j: int| 0 <= i < j < s.drop_last().len() ==> chars_le(
            #[trigger] s.drop_last()[i].meta.logical_path,
            #[trigger] s.drop_last()[j].meta.logical_path,
        ));
        lemma_insert_sorted_sorted(e, s.drop_last());
        assert(forall|i: int| 0 <= i < s.drop_last().len() ==> chars_le(
            #[trigger] s.drop_last()[i].meta.logical_path,
            s.last().meta.logical_path,
        ));
        lemma_insert_sorted_bound(e, s.drop_last(), s.last().meta.logical_path);
        let t = insert_sorted(e, s.drop_last()).push(s.last());
        assert forall|i: int, j: int| 0 <= i < j < t.len() implies chars_le(
            #[trigger] t[i].meta.logical_path,
            #[trigger] t[j].meta.logical_path,
        ) by {
            if j < t.len() - 1 {
                assert(t[i] == insert_sorted(e, s.drop_last())[i]);
                assert(t[j] == insert_sorted(e, s.drop_last())[j]);
            } else {
                assert(t[i] == insert_sorted(e, s.drop_last())[i]);
                assert(t[j] == s.last());
            }
        }
    }
}

/// The canonical write order is a sorted permutation of the store's entries:
/// the attachment section of every written container holds exactly the
/// store's attachments, ordered by logical path, independent of the order
/// they were inserted in.
pub proof fn lemma_sort_entries_canonical(s: Seq<EntryView>)
    ensures
        sort_entries(s).to_multiset() == s.to_multiset(),
        sort_entries(s).len() == s.len(),
        sorted_by_path(sort_entries(s)),
    decreases s.len(),
{
    broadcast use vstd::seq_lib::group_to_multiset_ensures;

    lemma_sort_entries_multiset(s);
    if s.len() > 0 {
        lemma_sort_entries_canonical(s.drop_last());
        lemma_insert_sorted_sorted(s.last(), sort_entries(s.drop_last()));
        lemma_insert_sorted_multiset(s.last(), sort_entries(s.drop_last()));
        assert(insert_sorted(s.last(), sort_entries(s.drop_last())).to_multiset().len()
            == sort_entries(s.drop_last()).push(s.last()).to_multiset().len());
    }
}

/// The path order is antisymmetric.
pub proof fn lemma_chars_le_antisym(a: Seq<char>, b: Seq<char>)
    requires
        chars_le(a, b),
        chars_le(b, a),
    ensures
        a == b,
    decreases a.len(),
{
    if a.len() == 0 {
        assert(b.len() == 0);
        assert(a =~= b);
    } else {
        assert(b.len() > 0);
        vstd::utf8::char_u32_cast(a[0], a[0] as u32);
        vstd::utf8::char_u32_cast(b[0], b[0] as u32);
        assert(a[0] == b[0]);
        lemma_chars_le_antisym(a.drop_first(), b.drop_first());
        assert(a =~= b) by {
            assert(a.len() == b.len());
            assert(forall|k: int| 1 <= k < a.len() ==> #[trigger] a[k] == a.drop_first()[k - 1]
                && b[k] == b.drop_first()[k - 1]);
        }
    }
}

/// Whether every logical path appears at most once.
pub open spec fn paths_distinct(s: Seq<EntryView>) -> bool {
    forall|i: int, j: int| 0 <= i < j < s.len() ==> #[trigger] s[i].meta.logical_path
        != #[trigger] s[j].meta.logical_path
}

/// A duplicated index puts at least two copies in the multiset.
proof fn lemma_dup_index_count(t: Seq<EntryView>, i: int, j: int)
    requires
        0 <= i < j < t.len(),
        t[i] == t[j],
    ensures
        t.to_multiset().count(t[i]) >= 2,
{
    broadcast use vstd::seq_lib::group_to_multiset_ensures;
    broadcast use vstd::multiset::group_multiset_axioms;

    assert(t.remove(i).to_multiset() =~= t.to_multiset().remove(t[i]));
    assert(t.remove(i)[j - 1] == t[j]);
    assert(t.remove(i).contains(t[i]));
    assert(t.remove(i).to_multiset().count(t[i]) > 0);
}

/// At least two copies in the multiset come from two distinct indices.
proof fn lemma_count_dup_indices(s: Seq<EntryView>, x: EntryView)
    requires
        s.to_multiset().count(x) >= 2,
    ensures
        exists|a: int, b: int|
            0 <= a < b < s.len() && #[trigger] s[a] == x && #[trigger] s[b] == x,
{
    broadcast use vstd::seq_lib::group_to_multiset_ensures;
    broadcast use vstd::multiset::group_multiset_axioms;

    assert(s.contains(x));
    let a = choose|a: int| 0 <= a < s.len() && s[a] == x;
    assert(s.remove(a).to_multiset() =~= s.to_multiset().remove(s[a]));
    assert(s.remove(a).to_multiset().count(x) >= 1);
    assert(s.remove(a).contains(x));
    let b0 = choose|b0: int| 0 <= b0 < s.remove(a).len() && s.remove(a)[b0] == x;
    if b0 < a {
        assert(s[b0] == s.remove(a)[b0]);
        assert(s[b0] == x && s[a] == x && b0 < a);
    } else {
        assert(s[b0 + 1] == s.remove(a)[b0]);
        assert(s[a] == x && s[b0 + 1] == x && a < b0 + 1);
    }
}

/// Path uniqueness transfers along multiset equality.
proof fn lemma_paths_distinct_transfer(s: Seq<EntryView>, t: Seq<EntryView>)
    requires
        paths_distinct(s),
        s.to_multiset() == t.to_multiset(),
    ensures
        paths_distinct(t),
{
    broadcast use vstd::seq_lib::group_to_multiset_ensures;
    broadcast use vstd::multiset::group_multiset_axioms;

    assert forall|i: int, j: int| 0 <= i < j < t.len() implies #[trigger] t[i].meta.logical_path
        != #[trigger] t[j].meta.logical_path by {
        if t[i].meta.logical_path == t[j].meta.logical_path {
            if t[i] == t[j] {
                lemma_dup_index_count(t, i, j);
                let (a, b): (int, int) = choose|a: int, b: int|
                    0 <= a < b < s.len() && #[trigger] s[a] == t[i] && #[trigger] s[b] == t[i];
                lemma_count_dup_indices(s, t[i]);
                assert(s[a].meta.logical_path == s[b].meta.logical_path);
            } else {
                assert(t.contains(t[i]) && t.contains(t[j]));
                assert(s.to_multiset().count(t[i]) > 0 && s.to_multiset().count(t[j]) > 0);
                assert(s.contains(t[i]) && s.contains(t[j]));
                let a = choose|a: int| 0 <= a < s.len() && s[a] == t[i];
                let b = choose|b: int| 0 <= b < s.len() && s[b] == t[j];
                assert(a != b);
                assert(s[a].meta.logical_path == s[b].meta.logical_path);
                if a < b {
                } else {
                }
            }
        }
    }
}

/// Two path-sorted sequences with unique paths and the same entries are the
/// same sequence.
pub proof fn lemma_sorted_unique(s1: Seq<EntryView>, s2: Seq<EntryView>)
    requires
        sorted_by_path(s1),
        sorted_by_path(s2),
        paths_distinct(s1),
        paths_distinct(s2),
        s1.to_multiset() == s2.to_multiset(),
    ensures
        s1 == s2,
    decreases s1.len(),
{
    broadcast use vstd::seq_lib::group_to_multiset_ensures;
    broadcast use vstd::multiset::group_multiset_axioms;

    assert(s1.len() == s1.to_multiset().len());
    assert(s2.len() == s2.to_multiset().len());
    if s1.len() == 0 {
        assert(s1 =~= s2);
    } else {
        // the last entries carry the same (maximal) path, so they are equal
        assert(s1[s1.len() - 1] == s1.last());
        assert(s1.contains(s1.last()));
        assert(s2.to_multiset().count(s1.last()) > 0);
        assert(s2.contains(s1.last()));
        let j = choose|j: int| 0 <= j < s2.len() && s2[j] == s1.last();
        assert(s2[s2.len() - 1] == s2.last());
        assert(s2.contains(s2.last()));
        assert(s1.to_multiset().count(s2.last()) > 0);
        assert(s1.contains(s2.last()));
        let i = choose|i: int| 0 <= i < s1.len() && s1[i] == s2.last();
        lemma_chars_le_total(s1.last().meta.logical_path, s1.last().meta.logical_path);
        lemma_chars_le_total(s2.last().meta.logical_path, s2.last().meta.logical_path);
        assert(chars_le(s2[j].meta.logical_path, s2.last().meta.logical_path));
        assert(chars_le(s1[i].meta.logical_path, s1.last().meta.logical_path));
        lemma_chars_le_antisym(s1.last().meta.logical_path, s2.last().meta.logical_path);
        assert(s1.last().meta.logical_path == s2.last().meta.logical_path);
        if j < s2.len() - 1 {
            assert(s2[j].meta.logical_path != s2.last().meta.logical_path);
            assert(false);
        }
        assert(s2.last() == s1.last());
        // peel the shared last entry and recurse
        assert(s1.drop_last().push(s1.last()) =~= s1);
        assert(s2.drop_last().push(s2.last()) =~= s2);
        assert(s1.to_multiset() =~= s1.drop_last().to_multiset().insert(s1.last()));
        assert(s2.to_multiset() =~= s2.drop_last().to_multiset().insert(s2.last()));
        assert(s1.drop_last().to_multiset() =~= s2.drop_last().to_multiset()) by {
            assert forall|x: EntryView| s1.drop_last().to_multiset().count(x)
                == s2.drop_last().to_multiset().count(x) by {
                assert(s1.drop_last().to_multiset().insert(s1.last()).count(x)
                    == s2.drop_last().to_multiset().insert(s2.last()).count(x));
            }
        }
        assert(forall|a: int, b: int| 0 <= a < b < s1.drop_last().len()
            ==> #[trigger] s1.drop_last()[a].meta.logical_path
            != #[trigger] s1.drop_last()[b].meta.logical_path);
        assert(forall|a: int, b: int| 0 <= a < b < s2.drop_last().len()
            ==> #[trigger] s2.drop_last()[a].meta.logical_path
            != #[trigger] s2.drop_last()[b].meta.logical_path);
        assert(forall|a: int, b: int| 0 <= a < b < s1.drop_last().len() ==> chars_le(
            #[trigger] s1.drop_last()[a].meta.logical_path,
            #[trigger] s1.drop_last()[b].meta.logical_path,
        ));
        assert(forall|a: int, b: int| 0 <= a < b < s2.drop_last().len() ==> chars_le(
            #[trigger] s2.drop_last()[a].meta.logical_path,
            #[trigger] s2.drop_last()[b].meta.logical_path,
        ));
        lemma_sorted_unique(s1.drop_last(), s2.drop_last());
        assert(s1 =~= s2);
    }
}

/// The canonical write order depends only on which attachments a store
/// holds: two stores with the same attachments under unique paths
/// canonicalize to the same entry order, whatever order they were filled
/// in — so the written container bytes are insertion-order independent.
pub proof fn lemma_canonical_order_unique(s1: Seq<EntryView>, s2: Seq<EntryView>)
    requires
        s1.to_multiset() == s2.to_multiset(),
        paths_distinct(s1),
        paths_distinct(s2),
    ensures
        sort_entries(s1) == sort_entries(s2),
{
    lemma_sort_entries_canonical(s1);
    lemma_sort_entries_canonical(s2);
    lemma_paths_distinct_transfer(s1, sort_entries(s1));
    lemma_paths_distinct_transfer(s2, sort_entries(s2));
    lemma_sorted_unique(sort_entries(s1), sort_entries(s2));
}

} // verus!
