//! Logical-path normalization for attachments.
//!
//! A logical path is a forward-slash-separated relative path.  Normalization
//! maps backslashes to slashes, drops empty and `.` segments, rejects `..`
//! segments and leading separators, and joins the remaining segments with
//! single slashes.

use vstd::prelude::*;
use vstd::string::{StrSliceExecFns, StringExecFns};
use crate::{TmdError, TmdResult};
use crate::strutil::string_push;

verus! {

/// Intermediate state of the single left-to-right normalization pass.
/// Views of a vector of strings, used to relate executable state to ghost state.
pub open spec fn views_of(v: Seq<String>) -> Seq<Seq<char>> {
    v.map_values(|p: String| p@)
}

pub ghost struct NormState {
    /// Completed path segments, in order.
    pub comps: Seq<Seq<char>>,
    /// Characters of the segment currently being read.
    pub cur: Seq<char>,
    /// Whether a forbidden `..` segment has been seen.
    pub bad: bool,
}

/// Initial state of the normalization pass.
pub open spec fn norm_init() -> NormState {
    NormState { comps: Seq::empty(), cur: Seq::empty(), bad: false }
}

/// Close the segment currently being read: drop it if it is empty or `.`,
/// mark the state bad if it is `..`, keep it otherwise.
pub open spec fn norm_close(st: NormState) -> NormState {
    if st.cur.len() == 0 || st.cur == seq!['.'] {
        NormState { cur: Seq::empty(), ..st }
    } else if st.cur == seq!['.', '.'] {
        NormState { cur: Seq::empty(), bad: true, ..st }
    } else {
        NormState { comps: st.comps.push(st.cur), cur: Seq::empty(), ..st }
    }
}

/// Process one input character: a separator closes the current segment,
/// anything else extends it.  Backslashes count as separators.
pub open spec fn norm_step(st: NormState, c: char) -> NormState {
    if c == '/' || c == '\\' {
        norm_close(st)
    } else {
        NormState { cur: st.cur.push(c), ..st }
    }
}

/// State after processing the first `i` characters of `s`.
pub open spec fn norm_fold(s: Seq<char>, i: int) -> NormState
    decreases i,
{
    if i <= 0 {
        norm_init()
    } else {
        norm_step(norm_fold(s, i - 1), s[i - 1])
    }
}

/// Join path segments with single `/` separators.
pub open spec fn join_slash(comps: Seq<Seq<char>>) -> Seq<char>
    decreases comps.len(),
{
    if comps.len() == 0 {
        Seq::empty()
    } else if comps.len() == 1 {
        comps[0]
    } else {
        join_slash(comps.drop_last()) + seq!['/'] + comps.last()
    }
}

/// What normalization yields on a whole input: `None` exactly when the input
/// is rejected (empty, leading separator, a `..` segment, or no segment left).
pub open spec fn normalize_spec(s: Seq<char>) -> Option<Seq<char>> {
    let st = norm_close(norm_fold(s, s.len() as int));
    if s.len() == 0 || s[0] == '/' || s[0] == '\\' || st.bad || st.comps.len() == 0 {
        None
    } else {
        Some(join_slash(st.comps))
    }
}

/// A path already in normal form normalizes to itself.
pub open spec fn is_normal_path(s: Seq<char>) -> bool {
    normalize_spec(s) == Some(s)
}

/// Normalise a logical attachment path, ensuring POSIX separators and the
/// security constraints of the container: no empty, `.` or `..` segments and
/// no leading separator.
pub fn normalize_logical_path(input: &str) -> (r: TmdResult<String>)
    ensures
        r matches Ok(p) ==> normalize_spec(input@) == Some(p@),
        r is Err ==> normalize_spec(input@) is None,
        r matches Err(e) ==> e is Attachment,
{
    let ghost gs: Seq<char> = input@;
    let n: usize = input.unicode_len();
    if n == 0 {
        return Err(TmdError::Attachment(String::from_str(
            "logical path must not be empty",
        )));
    }
    let first: char = input.get_char(0);
    if first == '/' || first == '\\' {
        return Err(TmdError::Attachment(String::from_str(
            "logical path must not start with a separator",
        )));
    }

    let mut comps: Vec<String> = Vec::new();
    let mut cur: String = String::new();
    let mut bad: bool = false;
    let mut i: usize = 0;
    proof {
        assert(views_of(comps@) =~= norm_init().comps);
    }
    while i < n
        invariant
            gs == input@,
            n == gs.len(),
            i <= n,
            ({
                let st = norm_fold(gs, i as int);
                &&& views_of(comps@) == st.comps
                &&& cur@ == st.cur
                &&& bad == st.bad
            }),
        decreases n - i,
    {
        let c: char = input.get_char(i);
        let ghost st = norm_fold(gs, i as int);
        if c == '/' || c == '\\' {
            // close the current segment
            if cur.as_str().unicode_len() == 0 {
                // dropped
            } else if eq_dot(&cur) {
                cur = String::new();
            } else if eq_dotdot(&cur) {
                bad = true;
                cur = String::new();
            } else {
                comps.push(cur);
                cur = String::new();
            }
            proof {
                let st2 = norm_step(st, gs[i as int]);
                assert(cur@ =~= st2.cur);
                assert forall|j: int| 0 <= j < comps@.len() implies
                    views_of(comps@)[j] == comps@[j]@ by {}
                assert(views_of(comps@) =~= st2.comps);
            }
        } else {
            string_push(&mut cur, c);
        }
        i = i + 1;
    }

    // close the final segment
    let ghost st = norm_fold(gs, n as int);
    if cur.as_str().unicode_len() == 0 {
        // dropped
    } else if eq_dot(&cur) {
        // dropped
    } else if eq_dotdot(&cur) {
        bad = true;
    } else {
        comps.push(cur);
        proof {
            assert forall|j: int| 0 <= j < comps@.len() implies
                views_of(comps@)[j] == comps@[j]@ by {}
            assert(views_of(comps@) =~= norm_close(st).comps);
        }
    }

    if bad {
        return Err(TmdError::Attachment(String::from_str(
            "logical path must not contain '..'",
        )));
    }
    if comps.len() == 0 {
        return Err(TmdError::Attachment(String::from_str(
            "logical path resolves to empty",
        )));
    }

    // join the kept segments with '/'
    let ghost all = norm_close(st).comps;
    let mut out: String = String::new();
    let mut k: usize = 0;
    while k < comps.len()
        invariant
            views_of(comps@) == all,
            k <= comps.len(),
            0 < comps.len(),
            out@ == join_slash(all.take(k as int)),
        decreases comps.len() - k,
    {
        if k > 0 {
            string_push(&mut out, '/');
        }
        out.append(comps[k].as_str());
        proof {
            let t1 = all.take(k as int + 1);
            assert(t1.drop_last() =~= all.take(k as int));
            assert(t1.last() == all[k as int]);
            if k == 0 {
                assert(join_slash(t1) == all[0]);
                assert(out@ =~= all[0]);
            } else {
                assert(out@ =~= join_slash(all.take(k as int)) + seq!['/'] + all[k as int]);
            }
        }
        k = k + 1;
    }
    proof {
        assert(all.take(comps.len() as int) =~= all);
    }
    Ok(out)
}

/// True exactly when the string is the single character `.`.
fn eq_dot(s: &String) -> (r: bool)
    ensures
        r == (s@ == seq!['.']),
{
    if s.as_str().unicode_len() == 1 {
        let c: char = s.as_str().get_char(0);
        proof {
            if c == '.' {
                assert(s@ =~= seq!['.']);
            }
        }
        c == '.'
    } else {
        false
    }
}

/// True exactly when the string is the two characters `..`.
fn eq_dotdot(s: &String) -> (r: bool)
    ensures
        r == (s@ == seq!['.', '.']),
{
    if s.as_str().unicode_len() == 2 {
        let c0: char = s.as_str().get_char(0);
        let c1: char = s.as_str().get_char(1);
        proof {
            if c0 == '.' && c1 == '.' {
                assert(s@ =~= seq!['.', '.']);
            }
        }
        c0 == '.' && c1 == '.'
    } else {
        false
    }
}

} // verus!
