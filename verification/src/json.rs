//! Byte-level JSON primitives for the manifest codec: canonical (compact)
//! emission and a strict parser for the same grammar, with round-trip proofs.
//!
//! Text is handled as UTF-8 bytes throughout; string values cross to
//! `String` only at the manifest layer.

use vstd::prelude::*;
use crate::numfmt::{hex_digit, hex_val, dec_of, dec_val, is_digit, lemma_dec_round_trip,
    lemma_dec_val_grows, lemma_dec_val_nonneg};

verus! {

// ---------------------------------------------------------------------------
// Fixed byte strings
// ---------------------------------------------------------------------------

/// Consume an exact byte string at `pos`.
pub open spec fn sp_eat(b: Seq<u8>, pos: int, lit: Seq<u8>) -> Option<int> {
    if 0 <= pos && pos + lit.len() <= b.len() && b.subrange(pos, pos + lit.len()) == lit {
        Some(pos + lit.len() as int)
    } else {
        None
    }
}

/// Match an exact byte string at `pos`.
pub fn eat_lit(v: &[u8], pos: usize, lit: &[u8]) -> (r: Option<usize>)
    ensures
        r matches Some(p) ==> sp_eat(v@, pos as int, lit@) == Some(p as int),
        r is None ==> sp_eat(v@, pos as int, lit@) is None,
{
    let n: usize = v.len();
    if n < lit.len() || pos > n - lit.len() {
        proof {
            assert(pos + lit@.len() > v@.len());
        }
        return None;
    }
    let mut k: usize = 0;
    while k < lit.len()
        invariant
            n == v@.len(),
            pos + lit@.len() <= n,
            k <= lit@.len(),
            forall|j: int| 0 <= j < k ==> v@[pos + j] == lit@[j],
        decreases lit@.len() - k,
    {
        if v[pos + k] != lit[k] {
            proof {
                assert(b_sub(v@, pos as int, lit@.len() as int)[k as int] != lit@[k as int]);
            }
            return None;
        }
        k = k + 1;
    }
    proof {
        assert(v@.subrange(pos as int, pos + lit@.len()) =~= lit@);
    }
    Some(pos + lit.len())
}

/// Shorthand for a subrange of the given length.
pub open spec fn b_sub(b: Seq<u8>, pos: int, n: int) -> Seq<u8> {
    b.subrange(pos, pos + n)
}

/// Append a fixed byte string.
pub fn push_lit(out: &mut Vec<u8>, lit: &[u8])
    ensures
        final(out)@ == old(out)@ + lit@,
{
    let mut k: usize = 0;
    while k < lit.len()
        invariant
            k <= lit@.len(),
            out@ == old(out)@ + lit@.take(k as int),
        decreases lit@.len() - k,
    {
        out.push(lit[k]);
        proof {
            assert(out@ =~= old(out)@ + lit@.take(k + 1));
        }
        k = k + 1;
    }
    proof {
        assert(lit@.take(lit@.len() as int) =~= lit@);
    }
}

// ---------------------------------------------------------------------------
// Strings
// ---------------------------------------------------------------------------

/// JSON escape of one content byte: quote and backslash get a backslash
/// escape, control bytes get a `\u00XX` escape, everything else stands as is.
pub open spec fn esc1(c: u8) -> Seq<u8> {
    if c == 0x22 {
        seq![0x5Cu8, 0x22u8]
    } else if c == 0x5C {
        seq![0x5Cu8, 0x5Cu8]
    } else if c < 0x20 {
        seq![0x5Cu8, 0x75u8, 0x30u8, 0x30u8, hex_digit(c / 16), hex_digit(c % 16)]
    } else {
        seq![c]
    }
}

/// JSON escape of a whole byte string.
pub open spec fn em_escape(s: Seq<u8>) -> Seq<u8>
    decreases s.len(),
{
    if s.len() == 0 {
        Seq::empty()
    } else {
        esc1(s[0]) + em_escape(s.drop_first())
    }
}

/// Escaping distributes over appending one byte at the end.
pub proof fn lemma_em_escape_snoc(s: Seq<u8>, c: u8)
    ensures
        em_escape(s.push(c)) == em_escape(s) + esc1(c),
    decreases s.len(),
{
    if s.len() == 0 {
        assert(s.push(c)[0] == c);
        assert(s.push(c).drop_first() =~= Seq::<u8>::empty());
        assert(em_escape(s.push(c)) == esc1(c) + em_escape(Seq::<u8>::empty()));
        assert(esc1(c) + Seq::<u8>::empty() =~= esc1(c));
        assert(em_escape(s) + esc1(c) =~= esc1(c));
    } else {
        assert(s.push(c).drop_first() =~= s.drop_first().push(c));
        lemma_em_escape_snoc(s.drop_first(), c);
        assert(em_escape(s.push(c)) == esc1(s[0]) + (em_escape(s.drop_first()) + esc1(c)));
        assert(esc1(s[0]) + (em_escape(s.drop_first()) + esc1(c)) =~= (esc1(s[0]) + em_escape(
            s.drop_first(),
        )) + esc1(c));
    }
}

/// A JSON string token: quote, escaped content, quote.
pub open spec fn em_string(s: Seq<u8>) -> Seq<u8> {
    seq![0x22u8] + em_escape(s) + seq![0x22u8]
}

/// Append the JSON string token for content bytes `s`.
pub fn push_json_string(out: &mut Vec<u8>, s: &[u8])
    ensures
        final(out)@ == old(out)@ + em_string(s@),
{
    out.push(0x22);
    let mut i: usize = 0;
    while i < s.len()
        invariant
            i <= s@.len(),
            out@ == old(out)@ + seq![0x22u8] + em_escape(s@.take(i as int)),
        decreases s@.len() - i,
    {
        let c: u8 = s[i];
        if c == 0x22 {
            out.push(0x5C);
            out.push(0x22);
        } else if c == 0x5C {
            out.push(0x5C);
            out.push(0x5C);
        } else if c < 0x20 {
            out.push(0x5C);
            out.push(0x75);
            out.push(0x30);
            out.push(0x30);
            out.push(hex_digit_byte(c / 16));
            out.push(hex_digit_byte(c % 16));
        } else {
            out.push(c);
        }
        proof {
            lemma_em_escape_snoc(s@.take(i as int), s@[i as int]);
            assert(s@.take(i + 1) =~= s@.take(i as int).push(s@[i as int]));
            assert(out@ =~= old(out)@ + seq![0x22u8] + em_escape(s@.take(i + 1)));
        }
        i = i + 1;
    }
    out.push(0x22);
    proof {
        assert(s@.take(s@.len() as int) =~= s@);
        assert(out@ =~= old(out)@ + em_string(s@));
    }
}

/// Executable lowercase hex digit (shared with the escape emitter).
fn hex_digit_byte(d: u8) -> (r: u8)
    requires
        d < 16,
    ensures
        r == hex_digit(d),
{
    if d < 10 {
        0x30 + d
    } else {
        0x61 + (d - 10)
    }
}

/// Parse the remainder of a string token after the opening quote: the
/// unescaped content bytes and the position just past the closing quote.
pub open spec fn sp_str_rest(b: Seq<u8>, pos: int) -> Option<(Seq<u8>, int)>
    decreases b.len() - pos,
{
    if pos < 0 || pos >= b.len() {
        None
    } else if b[pos] == 0x22 {
        Some((Seq::empty(), pos + 1))
    } else if b[pos] == 0x5C {
        if pos + 1 < b.len() && (b[pos + 1] == 0x22 || b[pos + 1] == 0x5C) {
            sp_cons(b[pos + 1], sp_str_rest(b, pos + 2))
        } else if pos + 5 < b.len() && b[pos + 1] == 0x75 && b[pos + 2] == 0x30 && b[pos + 3]
            == 0x30 && hex_val(b[pos + 4]) is Some && hex_val(b[pos + 5]) is Some && (hex_val(
            b[pos + 4],
        ).unwrap() * 16 + hex_val(b[pos + 5]).unwrap()) < 0x20 {
            sp_cons((hex_val(b[pos + 4]).unwrap() * 16 + hex_val(b[pos + 5]).unwrap()) as u8,
                sp_str_rest(b, pos + 6))
        } else {
            None
        }
    } else if b[pos] < 0x20 {
        None
    } else {
        sp_cons(b[pos], sp_str_rest(b, pos + 1))
    }
}

/// Prepend one byte to a parse result.
pub open spec fn sp_cons(c: u8, r: Option<(Seq<u8>, int)>) -> Option<(Seq<u8>, int)> {
    match r {
        Some((t, e)) => Some((seq![c] + t, e)),
        None => None,
    }
}

/// A whole string token at `pos`.
pub open spec fn sp_string(b: Seq<u8>, pos: int) -> Option<(Seq<u8>, int)> {
    if 0 <= pos < b.len() && b[pos] == 0x22 {
        sp_str_rest(b, pos + 1)
    } else {
        None
    }
}

/// Append a parse result to already-read content.
pub open spec fn glue_bytes(pre: Seq<u8>, r: Option<(Seq<u8>, int)>) -> Option<(Seq<u8>, int)> {
    match r {
        Some((t, e)) => Some((pre + t, e)),
        None => None,
    }
}

/// Parse a string token at `pos`.
pub fn parse_string(v: &[u8], pos: usize) -> (r: Option<(Vec<u8>, usize)>)
    ensures
        r matches Some((out, e)) ==> sp_string(v@, pos as int) == Some((out@, e as int))
            && pos < e <= v@.len(),
        r is None ==> sp_string(v@, pos as int) is None,
{
    if pos >= v.len() || v[pos] != 0x22 {
        return None;
    }
    let mut out: Vec<u8> = Vec::new();
    let mut i: usize = pos + 1;
    loop
        invariant
            pos + 1 <= i <= v@.len() + 1,
            i <= v@.len() + 1,
            sp_string(v@, pos as int) == glue_bytes(out@, sp_str_rest(v@, i as int)),
        decreases v@.len() + 1 - i,
    {
        if i >= v.len() {
            proof {
                assert(sp_str_rest(v@, i as int) is None);
            }
            return None;
        }
        let c: u8 = v[i];
        if c == 0x22 {
            proof {
                assert(sp_str_rest(v@, i as int) == Some((Seq::<u8>::empty(), i + 1)));
                assert(out@ + Seq::<u8>::empty() =~= out@);
            }
            return Some((out, i + 1));
        } else if c == 0x5C {
            if v.len() - i > 1 && (v[i + 1] == 0x22 || v[i + 1] == 0x5C) {
                let ghost prevout = out@;
                out.push(v[i + 1]);
                proof {
                    lemma_glue_shift(prevout, v@[i + 1], sp_str_rest(v@, i + 2));
                }
                i = i + 2;
            } else if v.len() - i > 5 && v[i + 1] == 0x75 && v[i + 2] == 0x30 && v[i + 3] == 0x30 {
                let h = hex_val_byte(v[i + 4]);
                let l = hex_val_byte(v[i + 5]);
                match (h, l) {
                    (Some(hv), Some(lv)) => {
                        let byte: u8 = hv * 16 + lv;
                        if byte < 0x20 {
                            let ghost prevout = out@;
                            out.push(byte);
                            proof {
                                lemma_glue_shift(prevout, byte, sp_str_rest(v@, i + 6));
                            }
                            i = i + 6;
                        } else {
                            return None;
                        }
                    },
                    _ => {
                        return None;
                    },
                }
            } else {
                return None;
            }
        } else if c < 0x20 {
            return None;
        } else {
            let ghost prevout = out@;
            out.push(c);
            proof {
                lemma_glue_shift(prevout, c, sp_str_rest(v@, i + 1));
            }
            i = i + 1;
        }
    }
}

/// Gluing after consing one byte is gluing with the byte appended.
proof fn lemma_glue_shift(pre: Seq<u8>, c: u8, r: Option<(Seq<u8>, int)>)
    ensures
        glue_bytes(pre, sp_cons(c, r)) == glue_bytes(pre.push(c), r),
{
    match r {
        Some((t, e)) => {
            assert(pre + (seq![c] + t) =~= pre.push(c) + t);
        },
        None => {},
    }
}

/// Executable hex digit value (shared with the unescape parser).
fn hex_val_byte(c: u8) -> (r: Option<u8>)
    ensures
        r == hex_val(c),
{
    if 0x30 <= c && c <= 0x39 {
        Some(c - 0x30)
    } else if 0x61 <= c && c <= 0x66 {
        Some(c - 0x61 + 10)
    } else if 0x41 <= c && c <= 0x46 {
        Some(c - 0x41 + 10)
    } else {
        None
    }
}

/// Parsing a string token inverts emission: wherever `em_string(s)` sits in
/// a buffer, parsing from its start yields exactly `s`.
pub proof fn lemma_string_round_trip(s: Seq<u8>, b: Seq<u8>, pos: int)
    requires
        0 <= pos,
        pos + em_string(s).len() <= b.len(),
        b_sub(b, pos, em_string(s).len() as int) == em_string(s),
    ensures
        sp_string(b, pos) == Some((s, pos + em_string(s).len())),
{
    let w = em_string(s);
    assert forall|k: int| 0 <= k < w.len() implies b[pos + k] == w[k] by {
        assert(b_sub(b, pos, w.len() as int)[k] == b[pos + k]);
    }
    assert(b[pos] == b[pos + 0]);
    assert(w[0] == 0x22);
    assert(b_sub(b, pos + 1, em_escape(s).len() as int + 1) =~= em_escape(s) + seq![0x22u8]) by {
        assert forall|k: int| 0 <= k < em_escape(s).len() + 1 implies b[pos + 1 + k] == (em_escape(
            s,
        ) + seq![0x22u8])[k] by {
            assert(b[pos + (1 + k)] == w[1 + k]);
            assert(pos + (1 + k) == pos + 1 + k);
        }
    }
    lemma_str_rest_round_trip(s, b, pos + 1);
    assert(em_escape(s).len() + 2 == w.len());
}

/// Parsing the string remainder inverts escaping.
proof fn lemma_str_rest_round_trip(s: Seq<u8>, b: Seq<u8>, pos: int)
    requires
        0 <= pos,
        pos + em_escape(s).len() + 1 <= b.len(),
        b_sub(b, pos, em_escape(s).len() as int + 1) == em_escape(s) + seq![0x22u8],
    ensures
        sp_str_rest(b, pos) == Some((s, pos + em_escape(s).len() + 1)),
    decreases s.len(),
{
    let w = em_escape(s) + seq![0x22u8];
    if s.len() == 0 {
        assert(b[pos] == w[0]);
        assert(b[pos] == 0x22);
        assert(sp_str_rest(b, pos) == Some((Seq::<u8>::empty(), pos + 1)));
        assert(s =~= Seq::<u8>::empty());
    } else {
        let c = s[0];
        let e = esc1(c);
        let rest = s.drop_first();
        assert(em_escape(s) == e + em_escape(rest));
        assert forall|k: int| 0 <= k < e.len() implies b[pos + k] == e[k] by {
            assert(w[k] == e[k]);
            assert(b_sub(b, pos, em_escape(s).len() as int + 1)[k] == b[pos + k]);
        }
        assert(b[pos] == b[pos + 0]);
        assert(e[0] == esc1(c)[0]);
        assert(b_sub(b, pos + e.len(), em_escape(rest).len() as int + 1) =~= em_escape(rest) + seq![
            0x22u8,
        ]) by {
            assert forall|k: int| 0 <= k < em_escape(rest).len() + 1 implies b[pos + e.len() + k]
                == (em_escape(rest) + seq![0x22u8])[k] by {
                assert(b_sub(b, pos, em_escape(s).len() as int + 1)[e.len() + k] == b[pos + (
                e.len() + k)]);
                assert(pos + (e.len() + k) == pos + e.len() + k);
                assert(w[e.len() + k] == (em_escape(rest) + seq![0x22u8])[k]);
            }
        }
        lemma_str_rest_round_trip(rest, b, pos + e.len());
        if c == 0x22 {
            assert(b[pos] == 0x5C);
            assert(b[pos + 1] == e[1]);
            assert(sp_str_rest(b, pos) == sp_cons(c, sp_str_rest(b, pos + 2)));
        } else if c == 0x5C {
            assert(b[pos] == 0x5C);
            assert(b[pos + 1] == e[1]);
            assert(sp_str_rest(b, pos) == sp_cons(c, sp_str_rest(b, pos + 2)));
        } else if c < 0x20 {
            assert(b[pos] == 0x5C);
            assert(b[pos + 1] == e[1] && b[pos + 2] == e[2] && b[pos + 3] == e[3]);
            assert(b[pos + 4] == hex_digit(c / 16) && b[pos + 5] == hex_digit(c % 16));
            assert(hex_val(hex_digit(c / 16)) == Some((c / 16) as u8));
            assert(hex_val(hex_digit(c % 16)) == Some((c % 16) as u8));
            assert((c / 16) * 16 + c % 16 == c);
            assert(sp_str_rest(b, pos) == sp_cons(c, sp_str_rest(b, pos + 6)));
        } else {
            assert(b[pos] == c);
            assert(c != 0x22 && c != 0x5C && !(c < 0x20));
            assert(sp_str_rest(b, pos) == sp_cons(c, sp_str_rest(b, pos + 1)));
        }
        assert(seq![c] + rest =~= s);
    }
}

// ---------------------------------------------------------------------------
// Numbers
// ---------------------------------------------------------------------------

/// First position at or after `pos` that does not hold a decimal digit.
pub open spec fn sp_digits_end(b: Seq<u8>, pos: int) -> int
    decreases b.len() - pos,
{
    if pos < 0 || pos >= b.len() {
        pos
    } else if is_digit(b[pos]) {
        sp_digits_end(b, pos + 1)
    } else {
        pos
    }
}

/// A decimal `u64` token at `pos`: fails on a missing digit or overflow.
pub open spec fn sp_u64(b: Seq<u8>, pos: int) -> Option<(u64, int)> {
    let end = sp_digits_end(b, pos);
    if pos < 0 || end == pos {
        None
    } else {
        let val = dec_val(b.subrange(pos, end));
        if val > u64::MAX {
            None
        } else {
            Some((val as u64, end))
        }
    }
}

/// The digit scan stays in bounds and sees only digits.
proof fn lemma_digits_end(b: Seq<u8>, pos: int)
    requires
        0 <= pos <= b.len(),
    ensures
        pos <= sp_digits_end(b, pos) <= b.len(),
        forall|j: int| pos <= j < sp_digits_end(b, pos) ==> is_digit(#[trigger] b[j]),
    decreases b.len() - pos,
{
    if pos < b.len() && is_digit(b[pos]) {
        lemma_digits_end(b, pos + 1);
    }
}

/// Parse a decimal `u64` token at `pos`.
pub fn parse_u64(v: &[u8], pos: usize) -> (r: Option<(u64, usize)>)
    ensures
        r matches Some((x, e)) ==> sp_u64(v@, pos as int) == Some((x, e as int))
            && pos < e <= v@.len(),
        r is None ==> sp_u64(v@, pos as int) is None,
{
    if pos >= v.len() || !(0x30 <= v[pos] && v[pos] <= 0x39) {
        proof {
            assert(sp_digits_end(v@, pos as int) == pos);
        }
        return None;
    }
    let mut end: usize = pos;
    while end < v.len() && 0x30 <= v[end] && v[end] <= 0x39
        invariant
            pos <= end <= v@.len(),
            sp_digits_end(v@, pos as int) == sp_digits_end(v@, end as int),
            forall|j: int| pos <= j < end ==> is_digit(#[trigger] v@[j]),
        decreases v@.len() - end,
    {
        end = end + 1;
    }
    proof {
        assert(sp_digits_end(v@, end as int) == end);
        assert(sp_digits_end(v@, pos as int) == end);
    }
    let ghost digits = v@.subrange(pos as int, end as int);
    let mut val: u64 = 0;
    let mut i: usize = pos;
    while i < end
        invariant
            pos <= i <= end <= v@.len(),
            pos < end,
            sp_digits_end(v@, pos as int) == end,
            forall|j: int| pos <= j < end ==> is_digit(#[trigger] v@[j]),
            digits == v@.subrange(pos as int, end as int),
            val == dec_val(v@.subrange(pos as int, i as int)),
        decreases end - i,
    {
        let d: u8 = v[i] - 0x30;
        proof {
            lemma_dec_val_nonneg(v@.subrange(pos as int, i as int));
            assert(v@.subrange(pos as int, i + 1).drop_last() =~= v@.subrange(pos as int,
                i as int));
            assert(v@.subrange(pos as int, i + 1).last() == v@[i as int]);
        }
        if val > (u64::MAX - d as u64) / 10 {
            proof {
                let part = v@.subrange(pos as int, i + 1);
                assert(dec_val(part) == dec_val(v@.subrange(pos as int, i as int)) * 10 + d);
                assert(dec_val(part) > u64::MAX);
                assert forall|j: int| 0 <= j < digits.len() implies is_digit(
                    #[trigger] digits[j],
                ) by {
                    assert(digits[j] == v@[pos + j]);
                }
                assert(part =~= digits.take(i + 1 - pos));
                lemma_dec_val_grows(digits, i + 1 - pos);
            }
            return None;
        }
        val = val * 10 + d as u64;
        i = i + 1;
    }
    proof {
        assert(v@.subrange(pos as int, end as int) == digits);
    }
    Some((val, end))
}

/// Parsing a number token inverts emission: wherever `dec_of(n)` sits in a
/// buffer, followed by a non-digit, parsing yields exactly `n`.
pub proof fn lemma_u64_round_trip(n: u64, b: Seq<u8>, pos: int)
    requires
        0 <= pos,
        pos + dec_of(n).len() <= b.len(),
        b_sub(b, pos, dec_of(n).len() as int) == dec_of(n),
        pos + dec_of(n).len() < b.len() ==> !is_digit(b[pos + dec_of(n).len()]),
    ensures
        sp_u64(b, pos) == Some((n, pos + dec_of(n).len())),
{
    lemma_dec_round_trip(n);
    let w = dec_of(n);
    assert forall|k: int| 0 <= k < w.len() implies b[pos + k] == w[k] by {
        assert(b_sub(b, pos, w.len() as int)[k] == b[pos + k]);
    }
    assert forall|j: int| pos <= j < pos + w.len() implies is_digit(#[trigger] b[j]) by {
        assert(b[pos + (j - pos)] == w[j - pos]);
        assert(pos + (j - pos) == j);
    }
    lemma_digits_scan(b, pos, pos + w.len());
    assert(b.subrange(pos, pos + w.len()) =~= w);
}

/// A run of digits followed by a non-digit (or the end) is exactly what the
/// digit scan consumes.
proof fn lemma_digits_scan(b: Seq<u8>, pos: int, end: int)
    requires
        0 <= pos <= end <= b.len(),
        forall|j: int| pos <= j < end ==> is_digit(#[trigger] b[j]),
        end < b.len() ==> !is_digit(b[end]),
    ensures
        sp_digits_end(b, pos) == end,
    decreases end - pos,
{
    if pos < end {
        lemma_digits_scan(b, pos + 1, end);
    }
}

// ---------------------------------------------------------------------------
// Raw JSON values (for pass-through extension data)
// ---------------------------------------------------------------------------

/// End of a bracketed value started before `pos`, given the open-bracket
/// depth and whether the scan stands inside a string (after a backslash).
pub open spec fn sp_brackets_end(b: Seq<u8>, pos: int, depth: int, instr: bool, esc: bool)
    -> Option<int>
    decreases b.len() - pos,
{
    if pos < 0 || pos >= b.len() {
        None
    } else {
        let c = b[pos];
        if esc {
            sp_brackets_end(b, pos + 1, depth, instr, false)
        } else if instr {
            if c == 0x5C {
                sp_brackets_end(b, pos + 1, depth, true, true)
            } else if c == 0x22 {
                sp_brackets_end(b, pos + 1, depth, false, false)
            } else {
                sp_brackets_end(b, pos + 1, depth, true, false)
            }
        } else if c == 0x22 {
            sp_brackets_end(b, pos + 1, depth, true, false)
        } else if c == 0x7B || c == 0x5B {
            sp_brackets_end(b, pos + 1, depth + 1, false, false)
        } else if c == 0x7D || c == 0x5D {
            if depth == 1 {
                Some(pos + 1)
            } else {
                sp_brackets_end(b, pos + 1, depth - 1, false, false)
            }
        } else {
            sp_brackets_end(b, pos + 1, depth, false, false)
        }
    }
}

/// End of an unquoted atom (number, `null`, `true`, `false`): the next
/// top-level delimiter.
pub open spec fn sp_atom_end(b: Seq<u8>, pos: int) -> int
    decreases b.len() - pos,
{
    if pos < 0 || pos >= b.len() {
        pos
    } else if b[pos] == 0x2C || b[pos] == 0x7D || b[pos] == 0x5D {
        pos
    } else {
        sp_atom_end(b, pos + 1)
    }
}

/// A raw JSON value at `pos`: the verbatim text and the position after it.
pub open spec fn sp_value(b: Seq<u8>, pos: int) -> Option<(Seq<u8>, int)> {
    if pos < 0 || pos >= b.len() {
        None
    } else if b[pos] == 0x7B || b[pos] == 0x5B {
        match sp_brackets_end(b, pos + 1, 1, false, false) {
            Some(e) => Some((b.subrange(pos, e), e)),
            None => None,
        }
    } else if b[pos] == 0x22 {
        match sp_str_rest(b, pos + 1) {
            Some((_, e)) => Some((b.subrange(pos, e), e)),
            None => None,
        }
    } else {
        let e = sp_atom_end(b, pos);
        if e == pos {
            None
        } else {
            Some((b.subrange(pos, e), e))
        }
    }
}

/// Parse a raw JSON value at `pos`, returning its verbatim text.
pub fn parse_value(v: &[u8], pos: usize) -> (r: Option<(Vec<u8>, usize)>)
    ensures
        r matches Some((out, e)) ==> sp_value(v@, pos as int) == Some((out@, e as int))
            && pos < e <= v@.len(),
        r is None ==> sp_value(v@, pos as int) is None,
{
    if pos >= v.len() {
        return None;
    }
    let c0: u8 = v[pos];
    let end: usize;
    if c0 == 0x7B || c0 == 0x5B {
        match brackets_end(v, pos + 1) {
            Some(e) => {
                end = e;
            },
            None => {
                return None;
            },
        }
    } else if c0 == 0x22 {
        match parse_string(v, pos) {
            Some((_, e)) => {
                end = e;
            },
            None => {
                return None;
            },
        }
    } else {
        let mut i: usize = pos;
        while i < v.len() && v[i] != 0x2C && v[i] != 0x7D && v[i] != 0x5D
            invariant
                pos <= i <= v@.len(),
                sp_atom_end(v@, pos as int) == sp_atom_end(v@, i as int),
            decreases v@.len() - i,
        {
            i = i + 1;
        }
        proof {
            assert(sp_atom_end(v@, i as int) == i);
        }
        if i == pos {
            return None;
        }
        end = i;
    }
    let mut out: Vec<u8> = Vec::new();
    let mut k: usize = pos;
    while k < end
        invariant
            pos <= k <= end <= v@.len(),
            out@ == v@.subrange(pos as int, k as int),
        decreases end - k,
    {
        out.push(v[k]);
        proof {
            assert(out@ =~= v@.subrange(pos as int, k + 1));
        }
        k = k + 1;
    }
    Some((out, end))
}

/// Find the end of a bracketed value whose opening bracket stands just
/// before `start`.
fn brackets_end(v: &[u8], start: usize) -> (r: Option<usize>)
    requires
        1 <= start <= v@.len(),
    ensures
        r matches Some(e) ==> sp_brackets_end(v@, start as int, 1, false, false)
            == Some(e as int) && start < e <= v@.len(),
        r is None ==> sp_brackets_end(v@, start as int, 1, false, false) is None,
{
    let n: usize = v.len();
    let mut i: usize = start;
    let mut depth: usize = 1;
    let mut instr: bool = false;
    let mut esc: bool = false;
    while i < n
        invariant
            n == v@.len(),
            start <= i <= n,
            1 <= depth,
            depth <= 1 + i - start,
            1 <= start,
            sp_brackets_end(v@, start as int, 1, false, false) == sp_brackets_end(v@, i as int,
                depth as int, instr, esc),
        decreases n - i,
    {
        let c: u8 = v[i];
        if esc {
            esc = false;
        } else if instr {
            if c == 0x5C {
                esc = true;
            } else if c == 0x22 {
                instr = false;
            }
        } else if c == 0x22 {
            instr = true;
        } else if c == 0x7B || c == 0x5B {
            depth = depth + 1;
        } else if c == 0x7D || c == 0x5D {
            if depth == 1 {
                return Some(i + 1);
            }
            depth = depth - 1;
        }
        i = i + 1;
    }
    proof {
        assert(sp_brackets_end(v@, i as int, depth as int, instr, esc) is None);
    }
    None
}

/// Parsing a raw value inverts emitting an atom: wherever nonempty atom text
/// free of delimiters, quotes and brackets sits in a buffer, followed by a
/// delimiter, parsing captures exactly that text.
pub proof fn lemma_atom_round_trip(t: Seq<u8>, b: Seq<u8>, pos: int)
    requires
        0 <= pos,
        t.len() > 0,
        pos + t.len() < b.len(),
        b_sub(b, pos, t.len() as int) == t,
        t[0] != 0x7B && t[0] != 0x5B && t[0] != 0x22,
        forall|j: int| 0 <= j < t.len() ==> #[trigger] t[j] != 0x2C && t[j] != 0x7D && t[j] != 0x5D,
        b[pos + t.len()] == 0x2C || b[pos + t.len()] == 0x7D || b[pos + t.len()] == 0x5D,
    ensures
        sp_value(b, pos) == Some((t, pos + t.len())),
{
    assert forall|k: int| 0 <= k < t.len() implies b[pos + k] == t[k] by {
        assert(b_sub(b, pos, t.len() as int)[k] == b[pos + k]);
    }
    assert forall|j: int| pos <= j < pos + t.len() implies #[trigger] b[j] != 0x2C && b[j] != 0x7D
        && b[j] != 0x5D by {
        assert(b[pos + (j - pos)] == t[j - pos]);
        assert(pos + (j - pos) == j);
    }
    assert(b[pos] == b[pos + 0]);
    lemma_atom_scan(b, pos, pos + t.len());
    assert(b.subrange(pos, pos + t.len()) =~= t);
}

/// A run of non-delimiter bytes followed by a delimiter is exactly what the
/// atom scan consumes.
proof fn lemma_atom_scan(b: Seq<u8>, pos: int, end: int)
    requires
        0 <= pos <= end < b.len(),
        forall|j: int| pos <= j < end ==> #[trigger] b[j] != 0x2C && b[j] != 0x7D && b[j] != 0x5D,
        b[end] == 0x2C || b[end] == 0x7D || b[end] == 0x5D,
    ensures
        sp_atom_end(b, pos) == end,
    decreases end - pos,
{
    if pos < end {
        lemma_atom_scan(b, pos + 1, end);
    }
}

// ---------------------------------------------------------------------------
// Whitespace normalization
// ---------------------------------------------------------------------------

/// The text from `i` on with insignificant whitespace removed: whitespace
/// inside string tokens is kept, everything else dropped.
pub open spec fn sp_strip_from(b: Seq<u8>, i: int, instr: bool, esc: bool) -> Seq<u8>
    decreases b.len() - i,
{
    if i < 0 || i >= b.len() {
        Seq::empty()
    } else {
        let c = b[i];
        if instr {
            if esc {
                seq![c] + sp_strip_from(b, i + 1, true, false)
            } else if c == 0x5C {
                seq![c] + sp_strip_from(b, i + 1, true, true)
            } else if c == 0x22 {
                seq![c] + sp_strip_from(b, i + 1, false, false)
            } else {
                seq![c] + sp_strip_from(b, i + 1, true, false)
            }
        } else if c == 0x22 {
            seq![c] + sp_strip_from(b, i + 1, true, false)
        } else if c == 0x20 || c == 0x09 || c == 0x0A || c == 0x0D {
            sp_strip_from(b, i + 1, false, false)
        } else {
            seq![c] + sp_strip_from(b, i + 1, false, false)
        }
    }
}

/// A JSON text with insignificant whitespace removed.
pub open spec fn strip_ws(b: Seq<u8>) -> Seq<u8> {
    sp_strip_from(b, 0, false, false)
}

/// Remove insignificant whitespace from a JSON text, so that texts written
/// with indentation parse against the canonical compact grammar.
pub fn strip_json_ws(v: &[u8]) -> (r: Vec<u8>)
    ensures
        r@ == strip_ws(v@),
{
    let n: usize = v.len();
    let mut out: Vec<u8> = Vec::new();
    let mut i: usize = 0;
    let mut instr: bool = false;
    let mut esc: bool = false;
    while i < n
        invariant
            n == v@.len(),
            i <= n,
            instr || !esc,
            strip_ws(v@) == out@ + sp_strip_from(v@, i as int, instr, esc),
        decreases n - i,
    {
        let c: u8 = v[i];
        let ghost pi = instr;
        let ghost pe = esc;
        let ghost pout = out@;
        if instr {
            if esc {
                out.push(c);
                esc = false;
            } else if c == 0x5C {
                out.push(c);
                esc = true;
            } else if c == 0x22 {
                out.push(c);
                instr = false;
            } else {
                out.push(c);
            }
        } else if c == 0x22 {
            out.push(c);
            instr = true;
        } else if c == 0x20 || c == 0x09 || c == 0x0A || c == 0x0D {
            // dropped
        } else {
            out.push(c);
        }
        proof {
            let here = sp_strip_from(v@, i as int, pi, pe);
            if pi {
                if pe {
                    assert(here == seq![c] + sp_strip_from(v@, i + 1, true, false));
                } else if c == 0x5C {
                    assert(here == seq![c] + sp_strip_from(v@, i + 1, true, true));
                } else if c == 0x22 {
                    assert(here == seq![c] + sp_strip_from(v@, i + 1, false, false));
                } else {
                    assert(here == seq![c] + sp_strip_from(v@, i + 1, true, false));
                }
            } else if c == 0x22 {
                assert(here == seq![c] + sp_strip_from(v@, i + 1, true, false));
            } else if c == 0x20 || c == 0x09 || c == 0x0A || c == 0x0D {
                assert(here == sp_strip_from(v@, i + 1, false, false));
            } else {
                assert(here == seq![c] + sp_strip_from(v@, i + 1, false, false));
            }
            assert(out@ + sp_strip_from(v@, i + 1, instr, esc) =~= pout + here);
        }
        i = i + 1;
    }
    proof {
        assert(sp_strip_from(v@, n as int, instr, esc) =~= Seq::<u8>::empty());
        assert(strip_ws(v@) =~= out@);
    }
    out
}

} // verus!
