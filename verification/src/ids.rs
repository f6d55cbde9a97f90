//! Opaque 128-bit identifiers for documents and attachments, with their
//! manifest text form (32 lowercase hex digits of the little-endian bytes).

use vstd::prelude::*;
use vstd::slice::slice_subrange;
use vstd::bytes::{spec_u128_to_le_bytes, spec_u128_from_le_bytes, u128_to_le_bytes,
    u128_from_le_bytes, lemma_auto_spec_u128_to_from_le_bytes};
use crate::numfmt::{hex_of, hex_parse, push_hex, hex_decode, lemma_hex_round_trip,
    lemma_hex_len};
use crate::json::push_lit;
use crate::sys::fresh_uid_value;

verus! {

/// An opaque 128-bit identifier, assigned once and never regenerated.
#[derive(Clone, Copy, Debug, PartialEq, Eq, Structural, Hash)]
pub struct Uid {
    pub value: u128,
}

/// Identifier of an attachment.
pub type AttachmentId = Uid;

impl Uid {
    /// Draw a fresh random identifier.
    pub fn fresh() -> Uid {
        Uid { value: fresh_uid_value() }
    }
}

/// The manifest text form of an identifier.
pub open spec fn uid_text_of(id: Uid) -> Seq<u8> {
    hex_of(spec_u128_to_le_bytes(id.value))
}

/// A byte string reversed.
pub open spec fn rev_bytes(s: Seq<u8>) -> Seq<u8>
    decreases s.len(),
{
    if s.len() == 0 {
        Seq::empty()
    } else {
        seq![s.last()] + rev_bytes(s.drop_last())
    }
}

/// Reversal indexes from the other end.
pub proof fn lemma_rev_bytes(s: Seq<u8>)
    ensures
        rev_bytes(s).len() == s.len(),
        forall|k: int| 0 <= k < s.len() ==> #[trigger] rev_bytes(s)[k] == s[s.len() - 1 - k],
    decreases s.len(),
{
    if s.len() > 0 {
        lemma_rev_bytes(s.drop_last());
        assert forall|k: int| 0 <= k < s.len() implies #[trigger] rev_bytes(s)[k] == s[s.len() - 1
            - k] by {
            if k > 0 {
                assert(rev_bytes(s)[k] == rev_bytes(s.drop_last())[k - 1]);
                assert(s.drop_last()[s.len() - 1 - k] == s[s.len() - 1 - k]);
            }
        }
    }
}

/// Whether the text is the conventional hyphenated identifier form.
pub open spec fn hyphenated(b: Seq<u8>) -> bool {
    b.len() == 36 && b[8] == 0x2D && b[13] == 0x2D && b[18] == 0x2D && b[23] == 0x2D
}

/// The hyphenated form with the hyphens removed.
pub open spec fn strip_hyphens(b: Seq<u8>) -> Seq<u8> {
    b.subrange(0, 8) + b.subrange(9, 13) + b.subrange(14, 18) + b.subrange(19, 23) + b.subrange(
        24,
        36,
    )
}

/// The identifier denoted by manifest text, if well-formed: either this
/// crate's compact form (32 hex digits of the little-endian bytes) or the
/// conventional hyphenated form (32 hex digits of the big-endian bytes in
/// five groups).
pub open spec fn uid_parse(b: Seq<u8>) -> Option<Uid> {
    if hyphenated(b) {
        match hex_parse(strip_hyphens(b)) {
            Some(bytes) => if bytes.len() == 16 {
                Some(Uid { value: spec_u128_from_le_bytes(rev_bytes(bytes)) })
            } else {
                None
            },
            None => None,
        }
    } else {
        match hex_parse(b) {
            Some(bytes) => if bytes.len() == 16 {
                Some(Uid { value: spec_u128_from_le_bytes(bytes) })
            } else {
                None
            },
            None => None,
        }
    }
}

/// Parsing inverts printing for identifiers.
pub proof fn lemma_uid_round_trip(id: Uid)
    ensures
        uid_parse(uid_text_of(id)) == Some(id),
        uid_text_of(id).len() == 32,
{
    lemma_auto_spec_u128_to_from_le_bytes();
    lemma_hex_round_trip(spec_u128_to_le_bytes(id.value));
    lemma_hex_len(spec_u128_to_le_bytes(id.value));
}

/// Append the text form of `id` to `out`.
pub fn push_uid_text(out: &mut Vec<u8>, id: Uid)
    ensures
        final(out)@ == old(out)@ + uid_text_of(id),
{
    let bytes: Vec<u8> = u128_to_le_bytes(id.value);
    push_hex(out, bytes.as_slice());
}

/// Read an identifier back from its text form.
pub fn uid_from_text(v: &[u8]) -> (r: Option<Uid>)
    ensures
        r == uid_parse(v@),
{
    if v.len() == 36 && v[8] == 0x2D && v[13] == 0x2D && v[18] == 0x2D && v[23] == 0x2D {
        let mut compact: Vec<u8> = Vec::new();
        push_lit(&mut compact, slice_subrange(v, 0, 8));
        push_lit(&mut compact, slice_subrange(v, 9, 13));
        push_lit(&mut compact, slice_subrange(v, 14, 18));
        push_lit(&mut compact, slice_subrange(v, 19, 23));
        push_lit(&mut compact, slice_subrange(v, 24, 36));
        proof {
            assert(compact@ =~= strip_hyphens(v@));
        }
        match hex_decode(compact.as_slice()) {
            Some(bytes) => {
                if bytes.len() == 16 {
                    let mut rev: Vec<u8> = Vec::new();
                    let mut k: usize = 0;
                    while k < 16
                        invariant
                            bytes@.len() == 16,
                            k <= 16,
                            rev@.len() == k,
                            forall|j: int| 0 <= j < k ==> #[trigger] rev@[j] == bytes@[15 - j],
                        decreases 16 - k,
                    {
                        rev.push(bytes[15 - k]);
                        k = k + 1;
                    }
                    proof {
                        lemma_rev_bytes(bytes@);
                        assert(rev@ =~= rev_bytes(bytes@));
                    }
                    Some(Uid { value: u128_from_le_bytes(rev.as_slice()) })
                } else {
                    None
                }
            },
            None => None,
        }
    } else {
        match hex_decode(v) {
            Some(bytes) => {
                if bytes.len() == 16 {
                    Some(Uid { value: u128_from_le_bytes(bytes.as_slice()) })
                } else {
                    None
                }
            },
            None => None,
        }
    }
}

} // verus!
