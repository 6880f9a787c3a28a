//! The incremental cursor parser: a view over the unconsumed suffix of a
//! source string, consumed left to right by byte counts or by prefix and
//! suffix delimiters.

use vstd::pervasive::unreached;
use vstd::prelude::*;
use vstd::string::StrSliceExecFns;
use crate::search::find_in;
use crate::search::first_occur;
use crate::search::has_occurrence;
use crate::search::lemma_first_occur;
use crate::search::occurs_at;

verus! {

/// A cursor for gradually parsing data out of a string from left to right.
///
/// Each operation consumes a prefix of the remaining text; the cursor only
/// ever shrinks. Its view is the character sequence of the unconsumed
/// suffix.
#[derive(Debug)]
pub struct Parser<'a> {
    inner: &'a str,
}

impl<'a> Clone for Parser<'a> {
    /// A clone scans the same remaining text as the original.
    fn clone(&self) -> (r: Self)
        ensures
            r@ == self@,
    {
        Parser { inner: self.inner }
    }
}

impl<'a> View for Parser<'a> {
    type V = Seq<char>;

    closed spec fn view(&self) -> Seq<char> {
        self.inner@
    }
}

/// The text that remains once the first occurrence of `pre` and everything
/// before it is consumed.
pub open spec fn after_prefix(c: Seq<char>, pre: Seq<char>) -> Seq<char> {
    c.subrange(first_occur(c, pre) + pre.len(), c.len() as int)
}

impl<'a> Parser<'a> {
    /// Creates a parser whose cursor is the whole of `s`.
    pub fn new(s: &'a str) -> (r: Self)
        ensures
            r@ == s@,
    {
        Parser { inner: s }
    }

    /// Skips past the next `n` characters of the cursor; both mutates `self`
    /// and returns a copy of the parser after the mutation.
    pub fn skip(&mut self, n: usize) -> (r: Self)
        requires
            n <= old(self)@.len(),
        ensures
            final(self)@ == old(self)@.subrange(n as int, old(self)@.len() as int),
            r@ == final(self)@,
    {
        let len = self.inner.unicode_len();
        self.inner = self.inner.substring_char(n, len);
        Parser { inner: self.inner }
    }

    /// Returns the next `n` characters of the cursor and advances the cursor
    /// past them.
    pub fn take(&mut self, n: usize) -> (r: &str)
        requires
            n <= old(self)@.len(),
        ensures
            r@ == old(self)@.subrange(0, n as int),
            final(self)@ == old(self)@.subrange(n as int, old(self)@.len() as int),
    {
        let len = self.inner.unicode_len();
        let first = self.inner.substring_char(0, n);
        self.inner = self.inner.substring_char(n, len);
        first
    }

    /// Returns the remainder of the string, consuming the parser.
    pub fn rest(self) -> (r: &'a str)
        ensures
            r@ == self@,
    {
        self.inner
    }

    /// Returns the slice of the cursor before the first occurrence of
    /// `suffix` and advances the cursor to just past that occurrence; the
    /// matched delimiter itself is consumed and discarded.
    pub fn before(&mut self, suffix: &str) -> (r: &'a str)
        requires
            has_occurrence(old(self)@, suffix@),
        ensures
            r@ == old(self)@.subrange(0, first_occur(old(self)@, suffix@)),
            final(self)@ == old(self)@.subrange(
                first_occur(old(self)@, suffix@) + suffix@.len(),
                old(self)@.len() as int,
            ),
    {
        let cur = self.inner;
        let i = match find_in(cur, suffix) {
            Option::Some(i) => i,
            Option::None => unreached(),
        };
        proof {
            lemma_first_occur(cur@, suffix@);
        }
        let len = cur.unicode_len();
        let m = suffix.unicode_len();
        let found = cur.substring_char(0, i);
        self.inner = cur.substring_char(i + m, len);
        found
    }

    /// Returns the slice of the cursor after the first occurrence of
    /// `prefix`, consuming the parser.
    pub fn after(self, prefix: &str) -> (r: &'a str)
        requires
            has_occurrence(self@, prefix@),
        ensures
            r@ == after_prefix(self@, prefix@),
    {
        let cur = self.inner;
        let i = match find_in(cur, prefix) {
            Option::Some(i) => i,
            Option::None => unreached(),
        };
        proof {
            lemma_first_occur(cur@, prefix@);
        }
        let len = cur.unicode_len();
        let m = prefix.unicode_len();
        cur.substring_char(i + m, len)
    }

    /// Returns the slice of the cursor after the first occurrence of
    /// `prefix` and before the next occurrence of `suffix`, and advances the
    /// cursor to just past that occurrence of `suffix`.
    pub fn between(&mut self, prefix: &str, suffix: &str) -> (r: &'a str)
        requires
            has_occurrence(old(self)@, prefix@),
            has_occurrence(after_prefix(old(self)@, prefix@), suffix@),
        ensures
            ({
                let mid = after_prefix(old(self)@, prefix@);
                let q = first_occur(mid, suffix@);
                r@ == mid.subrange(0, q) && final(self)@ == mid.subrange(
                    q + suffix@.len(),
                    mid.len() as int,
                )
            }),
    {
        let cur = self.inner;
        let i = match find_in(cur, prefix) {
            Option::Some(i) => i,
            Option::None => unreached(),
        };
        proof {
            lemma_first_occur(cur@, prefix@);
        }
        let len = cur.unicode_len();
        let m = prefix.unicode_len();
        self.inner = cur.substring_char(i + m, len);
        self.before(suffix)
    }
}


/// Occurrences of `pat` in a suffix of `s` are exactly the occurrences of
/// `pat` in `s` at or after the cut position, shifted by it.
pub proof fn lemma_occurs_in_suffix(s: Seq<char>, pat: Seq<char>, a: int, k: int)
    requires
        0 <= a <= s.len(),
    ensures
        occurs_at(s.subrange(a, s.len() as int), pat, k) <==> (0 <= k && occurs_at(s, pat, a + k)),
{
    let t = s.subrange(a, s.len() as int);
    if 0 <= k && k + pat.len() <= t.len() {
        assert(t.subrange(k, k + pat.len() as int) =~= s.subrange(
            a + k,
            a + k + pat.len() as int,
        ));
    }
}

/// Skipping `n` characters and then taking the rest of the cursor yields the
/// suffix of the original text that starts at position `n`: `skip` consumes
/// exactly the first `n` characters and `rest` hands back whatever remains.
pub proof fn lemma_skip_then_rest(s: Seq<char>, n: int, cursor: Seq<char>, rest: Seq<char>)
    requires
        0 <= n <= s.len(),
        cursor == s.subrange(n, s.len() as int),
        rest == cursor,
    ensures
        rest == s.subrange(n, s.len() as int),
{
}

/// Taking `n` characters consumes exactly as much as skipping `n`
/// characters: after either, the rest of the cursor is the same suffix of
/// the original text.
pub proof fn lemma_take_consumes_like_skip(
    s: Seq<char>,
    n: int,
    cursor_after_take: Seq<char>,
    cursor_after_skip: Seq<char>,
)
    requires
        0 <= n <= s.len(),
        cursor_after_take == s.subrange(n, s.len() as int),
        cursor_after_skip == s.subrange(n, s.len() as int),
    ensures
        cursor_after_take == cursor_after_skip,
{
}

/// Building a parser from the same text twice gives the same cursor state:
/// the construction has no hidden state, so equal texts make parsers on
/// which every operation sequence behaves identically.
pub proof fn lemma_new_no_hidden_state(p1: Parser, p2: Parser, s: Seq<char>)
    requires
        p1@ == s,
        p2@ == s,
    ensures
        p1@ == p2@,
{
}

/// When `pre` first occurs in `s` at position `p`, and the first occurrence
/// of `suf` at or after the end of that occurrence is at `q`, `between`
/// returns the text strictly between the two delimiters and leaves the
/// cursor just past that occurrence of `suf`.
pub proof fn lemma_between_window(s: Seq<char>, pre: Seq<char>, suf: Seq<char>, p: int, q: int)
    requires
        occurs_at(s, pre, p),
        forall|k: int| 0 <= k < p ==> !occurs_at(s, pre, k),
        occurs_at(s, suf, q),
        q >= p + pre.len(),
        forall|k: int| p + pre.len() <= k < q ==> !occurs_at(s, suf, k),
    ensures
        has_occurrence(s, pre),
        has_occurrence(after_prefix(s, pre), suf),
        after_prefix(s, pre).subrange(0, first_occur(after_prefix(s, pre), suf)) == s.subrange(
            p + pre.len(),
            q,
        ),
        after_prefix(s, pre).subrange(
            first_occur(after_prefix(s, pre), suf) + suf.len(),
            after_prefix(s, pre).len() as int,
        ) == s.subrange(q + suf.len(), s.len() as int),
{
    assert(has_occurrence(s, pre));
    lemma_first_occur(s, pre);
    assert(first_occur(s, pre) == p);
    let a = p + pre.len() as int;
    let mid = after_prefix(s, pre);
    assert(mid == s.subrange(a, s.len() as int));
    lemma_occurs_in_suffix(s, suf, a, q - a);
    assert(occurs_at(mid, suf, q - a));
    assert(has_occurrence(mid, suf));
    assert forall|k: int| 0 <= k < q - a implies !occurs_at(mid, suf, k) by {
        lemma_occurs_in_suffix(s, suf, a, k);
    }
    lemma_first_occur(mid, suf);
    assert(first_occur(mid, suf) == q - a);
    assert(mid.subrange(0, q - a) =~= s.subrange(a, q));
    assert(mid.subrange(q - a + suf.len(), mid.len() as int) =~= s.subrange(
        q + suf.len(),
        s.len() as int,
    ));
}

} // verus!
