//! Substring search over character sequences: where a pattern occurs in a
//! text, the position of its first occurrence, and an executable search that
//! is proved to return exactly that position.

use vstd::prelude::*;
use vstd::string::StrSliceExecFns;

verus! {

/// `pat` occurs in `s` at position `i`.
pub open spec fn occurs_at(s: Seq<char>, pat: Seq<char>, i: int) -> bool {
    0 <= i && i + pat.len() <= s.len() && s.subrange(i, i + pat.len() as int) == pat
}

/// `pat` occurs somewhere in `s`.
pub open spec fn has_occurrence(s: Seq<char>, pat: Seq<char>) -> bool {
    exists|i: int| occurs_at(s, pat, i)
}

/// The least position at or after `i` where `pat` occurs in `s`, or `s.len()`
/// when it occurs nowhere at or after `i`.
pub open spec fn find_from(s: Seq<char>, pat: Seq<char>, i: int) -> int
    decreases s.len() + 1 - i,
{
    if i < 0 || i + pat.len() > s.len() {
        s.len() as int
    } else if occurs_at(s, pat, i) {
        i
    } else {
        find_from(s, pat, i + 1)
    }
}

/// The position of the first occurrence of `pat` in `s`; `s.len()` when `pat`
/// does not occur.
pub open spec fn first_occur(s: Seq<char>, pat: Seq<char>) -> int {
    find_from(s, pat, 0)
}

/// `find_from(s, pat, i)` is the least position at or after `i` where `pat`
/// occurs, and is `s.len()` exactly when there is no such position.
pub proof fn lemma_find_from(s: Seq<char>, pat: Seq<char>, i: int)
    requires
        0 <= i <= s.len(),
    ensures
        i <= find_from(s, pat, i) <= s.len(),
        forall|k: int| i <= k < find_from(s, pat, i) ==> !occurs_at(s, pat, k),
        (exists|k: int| #[trigger] occurs_at(s, pat, k) && i <= k) ==> occurs_at(
            s,
            pat,
            find_from(s, pat, i),
        ),
        !(exists|k: int| #[trigger] occurs_at(s, pat, k) && i <= k) ==> find_from(s, pat, i)
            == s.len(),
    decreases s.len() + 1 - i,
{
    if i + pat.len() > s.len() {
        assert(forall|k: int| i <= k ==> !occurs_at(s, pat, k));
    } else if occurs_at(s, pat, i) {
    } else {
        assert(pat.len() > 0) by {
            if pat.len() == 0 {
                assert(s.subrange(i, i + pat.len() as int) =~= pat);
            }
        }
        lemma_find_from(s, pat, i + 1);
    }
}

/// `first_occur(s, pat)` is the least position where `pat` occurs in `s`, and
/// is `s.len()` exactly when `pat` does not occur.
pub proof fn lemma_first_occur(s: Seq<char>, pat: Seq<char>)
    ensures
        0 <= first_occur(s, pat) <= s.len(),
        forall|k: int| 0 <= k < first_occur(s, pat) ==> !occurs_at(s, pat, k),
        has_occurrence(s, pat) ==> occurs_at(s, pat, first_occur(s, pat)),
        !has_occurrence(s, pat) ==> first_occur(s, pat) == s.len(),
{
    lemma_find_from(s, pat, 0);
}

/// Whether `pat` occurs in `s` exactly at position `i`, compared character by
/// character.
fn matches_at(s: &str, pat: &str, i: usize) -> (r: bool)
    requires
        i + pat@.len() <= s@.len(),
    ensures
        r == occurs_at(s@, pat@, i as int),
{
    let n = s.unicode_len();
    let m = pat.unicode_len();
    let mut k: usize = 0;
    while k < m
        invariant
            n == s@.len(),
            m == pat@.len(),
            i + m <= s@.len(),
            0 <= k <= m,
            forall|j: int| 0 <= j < k ==> s@[i + j] == pat@[j],
        decreases m - k,
    {
        if s.get_char(i + k) != pat.get_char(k) {
            proof {
                assert(!occurs_at(s@, pat@, i as int)) by {
                    if occurs_at(s@, pat@, i as int) {
                        assert(s@.subrange(i as int, i + m as int)[k as int] == pat@[k as int]);
                    }
                }
            }
            return false;
        }
        k += 1;
    }
    proof {
        assert(s@.subrange(i as int, i + m as int) =~= pat@);
    }
    true
}

/// Finds the first occurrence of `pat` in `s`, by character position, or
/// `None` when `pat` does not occur in `s`.
pub fn find_in(s: &str, pat: &str) -> (r: Option<usize>)
    ensures
        match r {
            Some(i) => has_occurrence(s@, pat@) && i == first_occur(s@, pat@),
            None => !has_occurrence(s@, pat@),
        },
{
    let n = s.unicode_len();
    let m = pat.unicode_len();
    if m > n {
        proof {
            lemma_first_occur(s@, pat@);
        }
        return None;
    }
    let last = n - m;
    let mut i: usize = 0;
    loop
        invariant
            n == s@.len(),
            m == pat@.len(),
            m <= n,
            last == n - m,
            0 <= i <= last,
            forall|k: int| 0 <= k < i ==> !occurs_at(s@, pat@, k),
        decreases last - i,
    {
        if matches_at(s, pat, i) {
            proof {
                lemma_first_occur(s@, pat@);
            }
            return Some(i);
        }
        if i == last {
            proof {
                assert(forall|k: int| #[trigger] occurs_at(s@, pat@, k) ==> k <= last);
                lemma_first_occur(s@, pat@);
            }
            return None;
        }
        i += 1;
    }
}

} // verus!
