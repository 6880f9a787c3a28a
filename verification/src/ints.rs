//! Lazy extraction of the integers embedded in a string: the meaning of digit
//! runs and sign-adjacent tokens, and the restartable forward sequences
//! [`Ints`] and [`UInts`] that scan them out of a source text.

use core::marker::PhantomData;
use vstd::pervasive::unreached;
use vstd::prelude::*;
use vstd::string::StrSliceExecFns;
use crate::scalar::FromStrUnwrap;
use crate::scalar::digits_val;
use crate::scalar::int_val;
use crate::scalar::is_digit;
use crate::scalar::is_sign;
use crate::scalar::sign_mul;

verus! {

/// The length of the run of decimal digits in `s` that begins at position
/// `i`.
pub open spec fn run_len(s: Seq<char>, i: int) -> nat
    decreases s.len() - i,
{
    if 0 <= i < s.len() && is_digit(s[i]) {
        (1 + run_len(s, i + 1)) as nat
    } else {
        0
    }
}

/// A digit run that begins inside `s` ends inside `s`.
pub proof fn lemma_run_len_bound(s: Seq<char>, i: int)
    requires
        0 <= i <= s.len(),
    ensures
        i + run_len(s, i) <= s.len(),
    decreases s.len() - i,
{
    if i < s.len() && is_digit(s[i]) {
        lemma_run_len_bound(s, i + 1);
    }
}

/// The unsigned integers scanned out of `s` from position `i` on: the values
/// of the maximal digit runs, in order. Sign characters are ordinary noise.
pub open spec fn uvals_from(s: Seq<char>, i: int) -> Seq<int>
    decreases s.len() - i,
    via uvals_from_decreases
{
    if i < 0 || i >= s.len() {
        Seq::empty()
    } else if is_digit(s[i]) {
        seq![digits_val(s.subrange(i, i + run_len(s, i)))] + uvals_from(s, i + run_len(s, i))
    } else {
        uvals_from(s, i + 1)
    }
}

#[via_fn]
proof fn uvals_from_decreases(s: Seq<char>, i: int) {
    if 0 <= i < s.len() && is_digit(s[i]) {
        lemma_run_len_bound(s, i);
    }
}

/// The unsigned integers embedded in `s`.
pub open spec fn uvals(s: Seq<char>) -> Seq<int> {
    uvals_from(s, 0)
}

/// The position just past the first maximal digit run at or after `i`, or
/// `s.len()` when no digit remains.
pub open spec fn utok_end(s: Seq<char>, i: int) -> int
    decreases s.len() - i,
{
    if i < 0 || i >= s.len() {
        s.len() as int
    } else if is_digit(s[i]) {
        i + run_len(s, i)
    } else {
        utok_end(s, i + 1)
    }
}

/// The signed integers scanned out of `s` from position `i` on: the values of
/// the maximal digit runs, each negated when the single character just before
/// the run is `'-'`. Of several adjacent signs only the one next to the
/// digits takes part; a sign with no digit after it is ordinary noise.
pub open spec fn ivals_from(s: Seq<char>, i: int) -> Seq<int>
    decreases s.len() - i,
    via ivals_from_decreases
{
    if i < 0 || i >= s.len() {
        Seq::empty()
    } else if is_digit(s[i]) {
        seq![digits_val(s.subrange(i, i + run_len(s, i)))] + ivals_from(s, i + run_len(s, i))
    } else if is_sign(s[i]) && i + 1 < s.len() && is_digit(s[i + 1]) {
        seq![sign_mul(s[i]) * digits_val(s.subrange(i + 1, i + 1 + run_len(s, i + 1)))]
            + ivals_from(s, i + 1 + run_len(s, i + 1))
    } else {
        ivals_from(s, i + 1)
    }
}

#[via_fn]
proof fn ivals_from_decreases(s: Seq<char>, i: int) {
    if 0 <= i < s.len() {
        if is_digit(s[i]) {
            lemma_run_len_bound(s, i);
        } else if is_sign(s[i]) && i + 1 < s.len() && is_digit(s[i + 1]) {
            lemma_run_len_bound(s, i + 1);
        }
    }
}

/// The signed integers embedded in `s`.
pub open spec fn ivals(s: Seq<char>) -> Seq<int> {
    ivals_from(s, 0)
}

/// The position just past the first signed token at or after `i`, or
/// `s.len()` when no signed token remains.
pub open spec fn itok_end(s: Seq<char>, i: int) -> int
    decreases s.len() - i,
{
    if i < 0 || i >= s.len() {
        s.len() as int
    } else if is_digit(s[i]) {
        i + run_len(s, i)
    } else if is_sign(s[i]) && i + 1 < s.len() && is_digit(s[i + 1]) {
        i + 1 + run_len(s, i + 1)
    } else {
        itok_end(s, i + 1)
    }
}

/// Digit runs are unchanged by cutting a prefix off the text.
pub proof fn lemma_run_len_shift(s: Seq<char>, a: int, i: int)
    requires
        0 <= a <= s.len(),
        0 <= i,
    ensures
        run_len(s.subrange(a, s.len() as int), i) == run_len(s, a + i),
    decreases s.len() - a - i,
{
    let t = s.subrange(a, s.len() as int);
    if i < t.len() && is_digit(t[i]) {
        lemma_run_len_shift(s, a, i + 1);
    }
}

/// The unsigned integers in a suffix of `s` are the ones scanned from the cut
/// position on.
pub proof fn lemma_uvals_shift(s: Seq<char>, a: int, i: int)
    requires
        0 <= a <= s.len(),
        0 <= i,
    ensures
        uvals_from(s.subrange(a, s.len() as int), i) == uvals_from(s, a + i),
    decreases s.len() - a - i,
{
    let t = s.subrange(a, s.len() as int);
    if i >= t.len() {
    } else if is_digit(t[i]) {
        lemma_run_len_shift(s, a, i);
        let r = run_len(s, a + i) as int;
        assert(r >= 1);
        lemma_run_len_bound(s, a + i);
        assert(t.subrange(i, i + r) =~= s.subrange(a + i, a + i + r));
        lemma_uvals_shift(s, a, i + r);
    } else {
        lemma_uvals_shift(s, a, i + 1);
    }
}

/// The signed integers in a suffix of `s` are the ones scanned from the cut
/// position on.
pub proof fn lemma_ivals_shift(s: Seq<char>, a: int, i: int)
    requires
        0 <= a <= s.len(),
        0 <= i,
    ensures
        ivals_from(s.subrange(a, s.len() as int), i) == ivals_from(s, a + i),
    decreases s.len() - a - i,
{
    let t = s.subrange(a, s.len() as int);
    if i >= t.len() {
    } else if is_digit(t[i]) {
        lemma_run_len_shift(s, a, i);
        let r = run_len(s, a + i) as int;
        assert(r >= 1);
        lemma_run_len_bound(s, a + i);
        assert(t.subrange(i, i + r) =~= s.subrange(a + i, a + i + r));
        lemma_ivals_shift(s, a, i + r);
    } else if is_sign(t[i]) && i + 1 < t.len() && is_digit(t[i + 1]) {
        lemma_run_len_shift(s, a, i + 1);
        let r = run_len(s, a + i + 1) as int;
        lemma_run_len_bound(s, a + i + 1);
        assert(t.subrange(i + 1, i + 1 + r) =~= s.subrange(a + i + 1, a + i + 1 + r));
        lemma_ivals_shift(s, a, i + 1 + r);
    } else {
        lemma_ivals_shift(s, a, i + 1);
    }
}

/// The unsigned scan is blind to signs: putting a sign character in front of
/// a text changes nothing about the unsigned integers found in it, so `-12`
/// and `12` carry the same unsigned integers.
pub proof fn lemma_uvals_sign_transparent(c: char, s: Seq<char>)
    requires
        is_sign(c),
    ensures
        uvals(seq![c] + s) == uvals(s),
{
    let cs = seq![c] + s;
    assert(!is_digit(cs[0]));
    assert(uvals_from(cs, 0) == uvals_from(cs, 1));
    lemma_uvals_shift(cs, 1, 0);
    assert(cs.subrange(1, cs.len() as int) =~= s);
}

/// Whether the character of `s` at position `i` is a decimal digit.
fn digit_at(s: &str, i: usize) -> (r: bool)
    requires
        i < s@.len(),
    ensures
        r == is_digit(s@[i as int]),
{
    let c = s.get_char(i);
    '0' <= c && c <= '9'
}

/// Whether the character of `s` at position `i` is a sign character.
fn sign_at(s: &str, i: usize) -> (r: bool)
    requires
        i < s@.len(),
    ensures
        r == is_sign(s@[i as int]),
{
    let c = s.get_char(i);
    c == '+' || c == '-'
}

/// A restartable forward sequence of the unsigned integers in a `&str`,
/// yielded as values of `T`. Sign characters are ordinary skippable noise, so
/// the text `-12` yields the same value as `12`.
#[derive(Debug)]
pub struct UInts<'a, T> {
    s: &'a str,
    _phantom: PhantomData<T>,
}

impl<'a, T> View for UInts<'a, T> {
    type V = Seq<char>;

    closed spec fn view(&self) -> Seq<char> {
        self.s@
    }
}

impl<'a, T: FromStrUnwrap> UInts<'a, T> {
    /// Creates a sequence scanning the unsigned integers in `s`.
    pub fn new(s: &'a str) -> (r: Self)
        ensures
            r@ == s@,
    {
        UInts { s, _phantom: PhantomData }
    }

    /// Yields the next unsigned integer in the remaining text, or `None` when
    /// no digit remains; the consumed prefix, token included, is cut off.
    pub fn next(&mut self) -> (r: Option<T>)
        requires
            uvals(old(self)@).len() > 0 ==> T::min_val() <= uvals(old(self)@)[0] <= T::max_val(),
        ensures
            match r {
                Option::None => uvals(old(self)@).len() == 0 && final(self)@ == old(self)@,
                Option::Some(v) => {
                    &&& uvals(old(self)@).len() > 0
                    &&& v.val() == uvals(old(self)@)[0]
                    &&& final(self)@ == old(self)@.subrange(
                        utok_end(old(self)@, 0),
                        old(self)@.len() as int,
                    )
                    &&& uvals(final(self)@) == uvals(old(self)@).skip(1)
                },
            },
    {
        let s = self.s;
        let n = s.unicode_len();
        let mut i: usize = 0;
        while i < n && !digit_at(s, i)
            invariant
                n == s@.len(),
                0 <= i <= n,
                uvals_from(s@, i as int) == uvals(s@),
                utok_end(s@, i as int) == utok_end(s@, 0),
            decreases n - i,
        {
            i += 1;
        }
        if i == n {
            return None;
        }
        let mut j = i + 1;
        while j < n && digit_at(s, j)
            invariant
                n == s@.len(),
                i < j <= n,
                forall|k: int| i <= k < j ==> is_digit(#[trigger] s@[k]),
                run_len(s@, i as int) == j - i + run_len(s@, j as int),
            decreases n - j,
        {
            j += 1;
        }
        let ghost tok_seq = s@.subrange(i as int, j as int);
        proof {
            assert(run_len(s@, i as int) == j - i);
            assert(uvals_from(s@, i as int) == seq![digits_val(tok_seq)] + uvals_from(
                s@,
                j as int,
            ));
            assert(!is_sign(tok_seq[0]));
            assert(int_val(tok_seq) == digits_val(tok_seq));
            assert(uvals(s@)[0] == digits_val(tok_seq));
        }
        let tok = s.substring_char(i, j);
        let v = T::parse(tok);
        let rem = s.substring_char(j, n);
        self.s = rem;
        proof {
            lemma_uvals_shift(s@, j as int, 0);
            assert(uvals(rem@) =~= uvals(s@).skip(1));
            assert(utok_end(s@, 0) == j);
        }
        Some(v)
    }
}

/// A restartable forward sequence of the signed integers in a `&str`, yielded
/// as values of `T`. A single sign character immediately before a digit run
/// takes part in the value; any other sign character is skippable noise.
#[derive(Debug)]
pub struct Ints<'a, T> {
    s: &'a str,
    _phantom: PhantomData<T>,
}

impl<'a, T> View for Ints<'a, T> {
    type V = Seq<char>;

    closed spec fn view(&self) -> Seq<char> {
        self.s@
    }
}

impl<'a, T: FromStrUnwrap> Ints<'a, T> {
    /// Creates a sequence scanning the signed integers in `s`.
    pub fn new(s: &'a str) -> (r: Self)
        ensures
            r@ == s@,
    {
        Ints { s, _phantom: PhantomData }
    }

    /// Yields the next signed integer in the remaining text, or `None` when
    /// no token remains; the consumed prefix, token included, is cut off.
    pub fn next(&mut self) -> (r: Option<T>)
        requires
            ivals(old(self)@).len() > 0 ==> T::min_val() <= ivals(old(self)@)[0] <= T::max_val(),
        ensures
            match r {
                Option::None => ivals(old(self)@).len() == 0 && final(self)@ == old(self)@,
                Option::Some(v) => {
                    &&& ivals(old(self)@).len() > 0
                    &&& v.val() == ivals(old(self)@)[0]
                    &&& final(self)@ == old(self)@.subrange(
                        itok_end(old(self)@, 0),
                        old(self)@.len() as int,
                    )
                    &&& ivals(final(self)@) == ivals(old(self)@).skip(1)
                },
            },
    {
        let s = self.s;
        let n = s.unicode_len();
        let mut i: usize = 0;
        loop
            invariant
                n == s@.len(),
                0 <= i <= n,
                s@ == old(self)@,
                self.s@ == s@,
                ivals(s@).len() > 0 ==> T::min_val() <= ivals(s@)[0] <= T::max_val(),
                ivals_from(s@, i as int) == ivals(s@),
                itok_end(s@, i as int) == itok_end(s@, 0),
            decreases n - i,
        {
            if i == n {
                return None;
            }
            if digit_at(s, i) {
                let mut j = i + 1;
                while j < n && digit_at(s, j)
                    invariant
                        n == s@.len(),
                        i < j <= n,
                        forall|k: int| i <= k < j ==> is_digit(#[trigger] s@[k]),
                        run_len(s@, i as int) == j - i + run_len(s@, j as int),
                    decreases n - j,
                {
                    j += 1;
                }
                let ghost tok_seq = s@.subrange(i as int, j as int);
                proof {
                    assert(run_len(s@, i as int) == j - i);
                    assert(ivals_from(s@, i as int) == seq![digits_val(tok_seq)] + ivals_from(
                        s@,
                        j as int,
                    ));
                    assert(!is_sign(tok_seq[0]));
                    assert(int_val(tok_seq) == digits_val(tok_seq));
                    assert(ivals(s@).len() > 0);
                    assert(ivals(s@)[0] == int_val(tok_seq));
                }
                let tok = s.substring_char(i, j);
                let v = T::parse(tok);
                let rem = s.substring_char(j, n);
                self.s = rem;
                proof {
                    lemma_ivals_shift(s@, j as int, 0);
                    assert(ivals(rem@) =~= ivals(s@).skip(1));
                    assert(itok_end(s@, 0) == j);
                }
                return Some(v);
            }
            if sign_at(s, i) && i + 1 < n && digit_at(s, i + 1) {
                let mut j = i + 2;
                while j < n && digit_at(s, j)
                    invariant
                        n == s@.len(),
                        i + 2 <= j <= n,
                        is_sign(s@[i as int]),
                        forall|k: int| i + 1 <= k < j ==> is_digit(#[trigger] s@[k]),
                        run_len(s@, i + 1) == j - i - 1 + run_len(s@, j as int),
                    decreases n - j,
                {
                    j += 1;
                }
                let ghost tok_seq = s@.subrange(i as int, j as int);
                proof {
                    assert(run_len(s@, i + 1) == j - i - 1);
                    assert(ivals_from(s@, i as int) == seq![
                        sign_mul(s@[i as int]) * digits_val(s@.subrange(i + 1, j as int)),
                    ] + ivals_from(s@, j as int));
                    assert(tok_seq.skip(1) =~= s@.subrange(i + 1, j as int));
                    assert(int_val(tok_seq) == sign_mul(s@[i as int]) * digits_val(
                        s@.subrange(i + 1, j as int),
                    ));
                    assert(ivals(s@).len() > 0);
                    assert(ivals(s@)[0] == int_val(tok_seq));
                }
                let tok = s.substring_char(i, j);
                let v = T::parse(tok);
                let rem = s.substring_char(j, n);
                self.s = rem;
                proof {
                    lemma_ivals_shift(s@, j as int, 0);
                    assert(ivals(rem@) =~= ivals(s@).skip(1));
                    assert(itok_end(s@, 0) == j);
                }
                return Some(v);
            }
            i += 1;
        }
    }
}

/// Completion helpers over the toolkit's forward sequences, for callers that
/// know how many items remain: pull the next item, or exactly `N` items,
/// where anything less is a caller bug.
pub trait IterUnwrap: Sized {
    /// The type of the items the sequence yields.
    type Item: FromStrUnwrap;

    /// The mathematical values of the items still to come.
    spec fn rem(&self) -> Seq<int>;

    /// Pulls the next item; the sequence is known by the caller to have one.
    fn next_uw(&mut self) -> (r: Self::Item)
        requires
            old(self).rem().len() > 0,
            <Self::Item as FromStrUnwrap>::min_val() <= old(self).rem()[0]
                <= <Self::Item as FromStrUnwrap>::max_val(),
        ensures
            r.val() == old(self).rem()[0],
            final(self).rem() == old(self).rem().skip(1),
    ;

    /// Pulls exactly `N` items into an ordered container, preserving order
    /// and consuming nothing past the `N`th item; the sequence is known by
    /// the caller to have that many.
    fn collect_n<const N: usize>(&mut self) -> (r: Vec<Self::Item>)
        requires
            old(self).rem().len() >= N,
            forall|k: int|
                0 <= k < N ==> <Self::Item as FromStrUnwrap>::min_val() <= #[trigger] old(
                    self,
                ).rem()[k] <= <Self::Item as FromStrUnwrap>::max_val(),
        ensures
            r@.len() == N,
            forall|k: int| 0 <= k < N ==> r@[k].val() == old(self).rem()[k],
            final(self).rem() == old(self).rem().skip(N as int),
    {
        let mut out: Vec<Self::Item> = Vec::new();
        let mut k: usize = 0;
        while k < N
            invariant
                0 <= k <= N,
                old(self).rem().len() >= N,
                forall|j: int|
                    0 <= j < N ==> <Self::Item as FromStrUnwrap>::min_val() <= #[trigger] old(
                        self,
                    ).rem()[j] <= <Self::Item as FromStrUnwrap>::max_val(),
                self.rem() == old(self).rem().skip(k as int),
                out@.len() == k,
                forall|j: int| 0 <= j < k ==> out@[j].val() == old(self).rem()[j],
            decreases N - k,
        {
            proof {
                assert(self.rem().len() > 0);
                assert(self.rem()[0] == old(self).rem()[k as int]);
            }
            let x = self.next_uw();
            out.push(x);
            k += 1;
            proof {
                assert(old(self).rem().skip(k - 1 as int).skip(1) =~= old(self).rem().skip(
                    k as int,
                ));
            }
        }
        out
    }
}

impl<'a, T: FromStrUnwrap> IterUnwrap for UInts<'a, T> {
    type Item = T;

    open spec fn rem(&self) -> Seq<int> {
        uvals(self@)
    }

    fn next_uw(&mut self) -> (r: T) {
        match self.next() {
            Option::Some(v) => v,
            Option::None => unreached(),
        }
    }
}

impl<'a, T: FromStrUnwrap> IterUnwrap for Ints<'a, T> {
    type Item = T;

    open spec fn rem(&self) -> Seq<int> {
        ivals(self@)
    }

    fn next_uw(&mut self) -> (r: T) {
        match self.next() {
            Option::Some(v) => v,
            Option::None => unreached(),
        }
    }
}

} // verus!
