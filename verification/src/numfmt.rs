//! Byte-level hexadecimal and decimal text, used by the manifest codec for
//! digests, identifiers and integer fields.

use vstd::prelude::*;

verus! {

// ---------------------------------------------------------------------------
// Hexadecimal
// ---------------------------------------------------------------------------

/// Lowercase hex digit for a value below 16.
pub open spec fn hex_digit(d: u8) -> u8 {
    if d < 10 {
        (0x30 + d) as u8
    } else {
        (0x61 + (d - 10)) as u8
    }
}

/// Lowercase hex text of a byte string: two digits per byte.
pub open spec fn hex_of(b: Seq<u8>) -> Seq<u8>
    decreases b.len(),
{
    if b.len() == 0 {
        Seq::empty()
    } else {
        hex_of(b.drop_last()) + seq![
            hex_digit(b.last() / 16),
            hex_digit(b.last() % 16),
        ]
    }
}

/// Value of one hex digit, accepting both cases; `None` on other bytes.
pub open spec fn hex_val(c: u8) -> Option<u8> {
    if 0x30 <= c && c <= 0x39 {
        Some((c - 0x30) as u8)
    } else if 0x61 <= c && c <= 0x66 {
        Some((c - 0x61 + 10) as u8)
    } else if 0x41 <= c && c <= 0x46 {
        Some((c - 0x41 + 10) as u8)
    } else {
        None
    }
}

/// Bytes denoted by hex text: fails on odd length or a non-hex byte.
pub open spec fn hex_parse(b: Seq<u8>) -> Option<Seq<u8>>
    decreases b.len(),
{
    if b.len() % 2 != 0 {
        None
    } else if b.len() == 0 {
        Some(Seq::empty())
    } else {
        let hi = hex_val(b[b.len() - 2]);
        let lo = hex_val(b[b.len() - 1]);
        if hi is Some && lo is Some {
            match hex_parse(b.take(b.len() - 2)) {
                Some(rest) => Some(rest.push((hi.unwrap() * 16 + lo.unwrap()) as u8)),
                None => None,
            }
        } else {
            None
        }
    }
}

/// Parsing inverts printing: `hex_parse(hex_of(b)) == Some(b)`.
pub proof fn lemma_hex_round_trip(b: Seq<u8>)
    ensures
        hex_parse(hex_of(b)) == Some(b),
    decreases b.len(),
{
    if b.len() == 0 {
        assert(hex_parse(hex_of(b)) == Some(b));
    } else {
        let h = hex_of(b);
        lemma_hex_round_trip(b.drop_last());
        assert(h.len() == hex_of(b.drop_last()).len() + 2) by {
            lemma_hex_len(b);
            lemma_hex_len(b.drop_last());
        }
        assert(h.take(h.len() - 2) =~= hex_of(b.drop_last()));
        assert(h[h.len() - 2] == hex_digit(b.last() / 16));
        assert(h[h.len() - 1] == hex_digit(b.last() % 16));
        assert(hex_val(hex_digit(b.last() / 16)) == Some(b.last() / 16));
        assert(hex_val(hex_digit(b.last() % 16)) == Some(b.last() % 16));
        assert(b.last() / 16 * 16 + b.last() % 16 == b.last());
        assert(hex_parse(h) == Some(b.drop_last().push(b.last())));
        assert(b.drop_last().push(b.last()) =~= b);
    }
}

/// Hex text is twice as long as the bytes it denotes.
pub proof fn lemma_hex_len(b: Seq<u8>)
    ensures
        hex_of(b).len() == 2 * b.len(),
    decreases b.len(),
{
    if b.len() > 0 {
        lemma_hex_len(b.drop_last());
    }
}

/// Append the lowercase hex text of `v` to `out`.
pub fn push_hex(out: &mut Vec<u8>, v: &[u8])
    ensures
        final(out)@ == old(out)@ + hex_of(v@),
{
    let mut i: usize = 0;
    while i < v.len()
        invariant
            i <= v@.len(),
            out@ == old(out)@ + hex_of(v@.take(i as int)),
        decreases v@.len() - i,
    {
        let b: u8 = v[i];
        out.push(hex_digit_exec(b / 16));
        out.push(hex_digit_exec(b % 16));
        proof {
            let t1 = v@.take(i + 1);
            assert(t1.drop_last() =~= v@.take(i as int));
            assert(t1.last() == v@[i as int]);
            assert(out@ =~= old(out)@ + hex_of(t1));
        }
        i = i + 1;
    }
    proof {
        assert(v@.take(v@.len() as int) =~= v@);
    }
}

/// Executable lowercase hex digit.
fn hex_digit_exec(d: u8) -> (r: u8)
    requires
        d < 16,
    ensures
        r == hex_digit(d),
{
    if d < 10 {
        0x30 + d
    } else {
        0x61 + (d - 10)
    }
}

/// Executable hex digit value.
fn hex_val_exec(c: u8) -> (r: Option<u8>)
    ensures
        r == hex_val(c),
{
    if 0x30 <= c && c <= 0x39 {
        Some(c - 0x30)
    } else if 0x61 <= c && c <= 0x66 {
        Some(c - 0x61 + 10)
    } else if 0x41 <= c && c <= 0x46 {
        Some(c - 0x41 + 10)
    } else {
        None
    }
}

/// Decode hex text to bytes; fails exactly where `hex_parse` does.
pub fn hex_decode(v: &[u8]) -> (r: Option<Vec<u8>>)
    ensures
        r matches Some(out) ==> hex_parse(v@) == Some(out@),
        r is None ==> hex_parse(v@) is None,
{
    if v.len() % 2 != 0 {
        proof {
            assert(v@.len() % 2 != 0);
        }
        return None;
    }
    let mut out: Vec<u8> = Vec::new();
    let mut i: usize = 0;
    while i < v.len()
        invariant
            i <= v@.len(),
            i % 2 == 0,
            v@.len() % 2 == 0,
            hex_parse(v@.take(i as int)) == Some(out@),
        decreases v@.len() - i,
    {
        proof {
            assert(i + 1 < v@.len());
        }
        let hi = hex_val_exec(v[i]);
        let lo = hex_val_exec(v[i + 1]);
        match (hi, lo) {
            (Some(h), Some(l)) => {
                out.push(h * 16 + l);
                proof {
                    let t1 = v@.take(i + 2);
                    assert(t1.take(t1.len() - 2) =~= v@.take(i as int));
                    assert(t1[t1.len() - 2] == v@[i as int]);
                    assert(t1[t1.len() - 1] == v@[i + 1]);
                }
                i = i + 2;
            },
            _ => {
                proof {
                    lemma_hex_parse_bad(v@, i as int);
                }
                return None;
            },
        }
    }
    proof {
        assert(v@.take(v@.len() as int) =~= v@);
    }
    Some(out)
}

/// If some digit pair of even-length hex text is invalid, parsing fails.
proof fn lemma_hex_parse_bad(b: Seq<u8>, i: int)
    requires
        b.len() % 2 == 0,
        0 <= i,
        i + 1 < b.len(),
        i % 2 == 0,
        hex_val(b[i]) is None || hex_val(b[i + 1]) is None,
    ensures
        hex_parse(b) is None,
    decreases b.len(),
{
    if b.len() >= 2 {
        if i + 2 == b.len() {
            assert(hex_parse(b) is None);
        } else {
            assert(b.take(b.len() - 2)[i] == b[i]);
            assert(b.take(b.len() - 2)[i + 1] == b[i + 1]);
            lemma_hex_parse_bad(b.take(b.len() - 2), i);
        }
    }
}

// ---------------------------------------------------------------------------
// Decimal
// ---------------------------------------------------------------------------

/// Decimal text of an unsigned number, without leading zeros.
pub open spec fn dec_of(n: u64) -> Seq<u8>
    decreases n,
{
    if n < 10 {
        seq![(0x30 + n) as u8]
    } else {
        dec_of(n / 10).push((0x30 + n % 10) as u8)
    }
}

/// Whether a byte is an ASCII decimal digit.
pub open spec fn is_digit(c: u8) -> bool {
    0x30 <= c && c <= 0x39
}

/// Numeric value of digit text, as an unbounded integer.
pub open spec fn dec_val(b: Seq<u8>) -> int
    decreases b.len(),
{
    if b.len() == 0 {
        0
    } else {
        dec_val(b.drop_last()) * 10 + (b.last() - 0x30)
    }
}

/// Printing then evaluating gives the number back, and the text is all
/// digits, nonempty, with no leading zero unless the number is zero.
pub proof fn lemma_dec_round_trip(n: u64)
    ensures
        dec_val(dec_of(n)) == n,
        dec_of(n).len() > 0,
        forall|i: int| 0 <= i < dec_of(n).len() ==> is_digit(#[trigger] dec_of(n)[i]),
        dec_of(n)[0] == 0x30 ==> n == 0,
    decreases n,
{
    if n < 10 {
        assert(dec_of(n).drop_last() =~= Seq::<u8>::empty());
        assert(dec_val(Seq::<u8>::empty()) == 0);
        assert(dec_of(n).last() == (0x30 + n) as u8);
    } else {
        lemma_dec_round_trip(n / 10);
        assert(dec_of(n).drop_last() =~= dec_of(n / 10));
        assert(dec_of(n)[0] == dec_of(n / 10)[0]);
    }
}

/// Append the decimal text of `n` to `out`.
pub fn push_dec(out: &mut Vec<u8>, n: u64)
    ensures
        final(out)@ == old(out)@ + dec_of(n),
    decreases n,
{
    if n < 10 {
        out.push(0x30 + n as u8);
        proof {
            assert(out@ =~= old(out)@ + dec_of(n));
        }
    } else {
        push_dec(out, n / 10);
        out.push(0x30 + (n % 10) as u8);
        proof {
            assert(out@ =~= old(out)@ + dec_of(n));
        }
    }
}

/// Digit text values only grow as more digits are read: if a prefix already
/// exceeds a bound, the whole text does.
pub proof fn lemma_dec_val_grows(b: Seq<u8>, i: int)
    requires
        0 <= i <= b.len(),
        forall|j: int| 0 <= j < b.len() ==> is_digit(#[trigger] b[j]),
    ensures
        dec_val(b) >= dec_val(b.take(i)),
        dec_val(b) >= 0,
    decreases b.len() - i,
{
    if i == b.len() {
        assert(b.take(i) =~= b);
        lemma_dec_val_nonneg(b);
    } else {
        lemma_dec_val_grows(b, i + 1);
        let t1 = b.take(i + 1);
        assert(t1.drop_last() =~= b.take(i));
        lemma_dec_val_nonneg(b.take(i));
        assert(dec_val(t1) == dec_val(b.take(i)) * 10 + (b[i] - 0x30));
    }
}

/// Digit text never denotes a negative value.
pub proof fn lemma_dec_val_nonneg(b: Seq<u8>)
    requires
        forall|j: int| 0 <= j < b.len() ==> is_digit(#[trigger] b[j]),
    ensures
        dec_val(b) >= 0,
    decreases b.len(),
{
    if b.len() > 0 {
        assert(forall|j: int| 0 <= j < b.drop_last().len() ==> is_digit(
            #[trigger] b.drop_last()[j],
        ));
        lemma_dec_val_nonneg(b.drop_last());
    }
}

} // verus!
