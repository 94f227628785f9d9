//! The output comparator: verdicts produced-vs-expected output under a
//! comparison mode.
//!
//! Standard mode strips trailing whitespace from every line, then asks
//! that the two line lists agree on their common prefix and that any
//! extra lines on either side are blank. Strict mode is exact equality.
//! The special-judge and dynamic-ranking modes have no comparator and
//! never match.

use vstd::prelude::*;
use vstd::string::StrSliceExecFns;
use crate::text::{split_lines, split_lines_exec, trim_line, trimmed_eq, trimmed_len_exec};
use crate::wire::ProblemType;

verus! {

/// The lines of `s`, each without its trailing whitespace.
pub open spec fn trimmed_lines(s: Seq<char>) -> Seq<Seq<char>> {
    split_lines(s).map_values(|l: Seq<char>| trim_line(l))
}

/// Standard-mode agreement: equal trimmed lines on the common prefix,
/// nothing but blank lines beyond it, on either side.
pub open spec fn standard_match(out: Seq<char>, ans: Seq<char>) -> bool {
    let a = trimmed_lines(out);
    let b = trimmed_lines(ans);
    let n = if a.len() <= b.len() {
        a.len() as int
    } else {
        b.len() as int
    };
    &&& (forall|i: int| 0 <= i < n ==> a[i] == b[i])
    &&& (forall|i: int| n <= i < a.len() ==> a[i].len() == 0)
    &&& (forall|i: int| n <= i < b.len() ==> b[i].len() == 0)
}

/// What `compare_output` decides, for every mode.
pub open spec fn output_matches(out: Seq<char>, ans: Seq<char>, ty: ProblemType) -> bool {
    match ty {
        ProblemType::Standard => standard_match(out, ans),
        ProblemType::Strict => out == ans,
        ProblemType::Spj => false,
        ProblemType::DynamicRanking => false,
    }
}

/// Whether two strings hold the same characters.
pub fn str_eq(a: &str, b: &str) -> (r: bool)
    ensures
        r == (a@ == b@),
{
    let n = a.unicode_len();
    if n != b.unicode_len() {
        return false;
    }
    let mut i: usize = 0;
    while i < n
        invariant
            i <= n,
            n == a@.len() == b@.len(),
            forall|j: int| 0 <= j < i ==> a@[j] == b@[j],
        decreases n - i,
    {
        if a.get_char(i) != b.get_char(i) {
            return false;
        }
        i += 1;
    }
    proof {
        assert(a@ =~= b@);
    }
    true
}

/// Verdict produced-vs-expected output under a comparison mode.
///
/// Pure and deterministic; the caller reads the two files.
pub fn compare_output(out: &str, ans: &str, ty: ProblemType) -> (r: bool)
    ensures
        r == output_matches(out@, ans@, ty),
{
    match ty {
        ProblemType::Standard => {
            let lo = split_lines_exec(out);
            let la = split_lines_exec(ans);
            let ghost ta = trimmed_lines(out@);
            let ghost tb = trimmed_lines(ans@);
            let n = if lo.len() <= la.len() {
                lo.len()
            } else {
                la.len()
            };
            let mut i: usize = 0;
            while i < n
                invariant
                    i <= n,
                    lo.deep_view() == split_lines(out@),
                    la.deep_view() == split_lines(ans@),
                    ta == trimmed_lines(out@),
                    tb == trimmed_lines(ans@),
                    n == if lo@.len() <= la@.len() {
                        lo@.len()
                    } else {
                        la@.len()
                    },
                    forall|j: int| 0 <= j < i ==> ta[j] == tb[j],
                decreases n - i,
            {
                proof {
                    assert(lo.deep_view()[i as int] == lo@[i as int]@);
                    assert(la.deep_view()[i as int] == la@[i as int]@);
                }
                if !trimmed_eq(lo[i].as_str(), la[i].as_str()) {
                    proof {
                        assert(ta[i as int] != tb[i as int]);
                    }
                    return false;
                }
                i += 1;
            }
            let mut j: usize = n;
            while j < lo.len()
                invariant
                    n <= j <= lo@.len(),
                    lo.deep_view() == split_lines(out@),
                    la.deep_view() == split_lines(ans@),
                    ta == trimmed_lines(out@),
                    tb == trimmed_lines(ans@),
                    n == if lo@.len() <= la@.len() {
                        lo@.len()
                    } else {
                        la@.len()
                    },
                    forall|k: int| 0 <= k < n ==> ta[k] == tb[k],
                    forall|k: int| n <= k < j ==> ta[k].len() == 0,
                decreases lo@.len() - j,
            {
                proof {
                    assert(lo.deep_view()[j as int] == lo@[j as int]@);
                }
                if trimmed_len_exec(lo[j].as_str()) != 0 {
                    proof {
                        assert(ta[j as int].len() != 0);
                    }
                    return false;
                }
                j += 1;
            }
            let mut k: usize = n;
            while k < la.len()
                invariant
                    n <= k <= la@.len(),
                    lo.deep_view() == split_lines(out@),
                    la.deep_view() == split_lines(ans@),
                    ta == trimmed_lines(out@),
                    tb == trimmed_lines(ans@),
                    n == if lo@.len() <= la@.len() {
                        lo@.len()
                    } else {
                        la@.len()
                    },
                    forall|m: int| 0 <= m < n ==> ta[m] == tb[m],
                    forall|m: int| n <= m < lo@.len() ==> ta[m].len() == 0,
                    forall|m: int| n <= m < k ==> tb[m].len() == 0,
                decreases la@.len() - k,
            {
                proof {
                    assert(la.deep_view()[k as int] == la@[k as int]@);
                }
                if trimmed_len_exec(la[k].as_str()) != 0 {
                    proof {
                        assert(tb[k as int].len() != 0);
                    }
                    return false;
                }
                k += 1;
            }
            proof {
                assert(standard_match(out@, ans@));
            }
            true
        },
        ProblemType::Strict => str_eq(out, ans),
        ProblemType::Spj => false,
        ProblemType::DynamicRanking => false,
    }
}

/// Differences that are only trailing whitespace on matching lines
/// never make standard comparison mismatch.
pub proof fn lemma_trailing_ws_ignored(out: Seq<char>, ans: Seq<char>)
    requires
        split_lines(out).len() == split_lines(ans).len(),
        forall|i: int|
            0 <= i < split_lines(out).len() ==> trim_line(split_lines(out)[i]) == trim_line(
                split_lines(ans)[i],
            ),
    ensures
        standard_match(out, ans),
{
}

/// A non-blank line present only in the produced output always makes
/// standard comparison mismatch.
pub proof fn lemma_extra_line_mismatches(out: Seq<char>, ans: Seq<char>, i: int)
    requires
        split_lines(ans).len() <= i < split_lines(out).len(),
        trim_line(split_lines(out)[i]).len() != 0,
    ensures
        !standard_match(out, ans),
{
    assert(trimmed_lines(out)[i].len() != 0);
}

/// A non-blank line present only in the expected answer always makes
/// standard comparison mismatch.
pub proof fn lemma_extra_expected_line_mismatches(out: Seq<char>, ans: Seq<char>, i: int)
    requires
        split_lines(out).len() <= i < split_lines(ans).len(),
        trim_line(split_lines(ans)[i]).len() != 0,
    ensures
        !standard_match(out, ans),
{
    assert(trimmed_lines(ans)[i].len() != 0);
}

/// Standard comparison does not care which side is longer.
pub proof fn lemma_standard_match_symmetric(out: Seq<char>, ans: Seq<char>)
    ensures
        standard_match(out, ans) == standard_match(ans, out),
{
}

} // verus!
