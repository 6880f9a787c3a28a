//! The [`Parse`] extension trait: parsing helpers available directly on
//! string slices, for input whose shape the caller already trusts.

use vstd::prelude::*;
use vstd::string::StrSliceExecFns;
use vstd::utf8::is_ascii_chars;
use crate::ints::Ints;
use crate::ints::IterUnwrap;
use crate::ints::UInts;
use crate::ints::ivals;
use crate::ints::uvals;
use crate::parser::Parser;
use crate::parser::after_prefix;
use crate::scalar::FromStrUnwrap;
use crate::scalar::int_val;
use crate::scalar::is_int_literal;
use crate::search::find_in;
use crate::search::first_occur;
use crate::search::has_occurrence;
use crate::search::lemma_first_occur;

verus! {

/// Parsing helpers on text, for input whose shape the caller has already
/// validated: instead of returning recoverable errors, each operation demands
/// in its precondition that the text has the shape it needs.
pub trait Parse {
    /// The character sequence this text stands for.
    spec fn text(&self) -> Seq<char>;

    /// Reads the whole of the text as a value of `T`; the text is known by
    /// the caller to be an integer literal whose value `T` can hold.
    fn parse_uw<T: FromStrUnwrap>(&self) -> (r: T)
        requires
            is_int_literal(self.text()),
            T::min_val() <= int_val(self.text()) <= T::max_val(),
        ensures
            r.val() == int_val(self.text()),
    ;

    /// Returns the byte at the given index of the text, meant for ASCII
    /// text, where bytes and characters coincide.
    fn idx(&self, index: usize) -> (r: u8)
        requires
            is_ascii_chars(self.text()),
            index < self.text().len(),
        ensures
            r == self.text()[index as int] as u8,
    ;

    /// Returns a forward sequence over the signed integers in the text,
    /// parsed into type `T`.
    fn ints_iter<T: FromStrUnwrap>(&self) -> (r: Ints<'_, T>)
        ensures
            r@ == self.text(),
    ;

    /// Returns the first `N` signed integers in the text, in order.
    fn ints<const N: usize, T: FromStrUnwrap>(&self) -> (r: Vec<T>)
        requires
            ivals(self.text()).len() >= N,
            forall|k: int|
                0 <= k < N ==> T::min_val() <= #[trigger] ivals(self.text())[k] <= T::max_val(),
        ensures
            r@.len() == N,
            forall|k: int| 0 <= k < N ==> #[trigger] r@[k].val() == ivals(self.text())[k],
    ;

    /// Returns a forward sequence over the unsigned integers in the text,
    /// parsed into type `T`.
    fn uints_iter<T: FromStrUnwrap>(&self) -> (r: UInts<'_, T>)
        ensures
            r@ == self.text(),
    ;

    /// Returns the first `N` unsigned integers in the text, in order.
    fn uints<const N: usize, T: FromStrUnwrap>(&self) -> (r: Vec<T>)
        requires
            uvals(self.text()).len() >= N,
            forall|k: int|
                0 <= k < N ==> T::min_val() <= #[trigger] uvals(self.text())[k] <= T::max_val(),
        ensures
            r@.len() == N,
            forall|k: int| 0 <= k < N ==> #[trigger] r@[k].val() == uvals(self.text())[k],
    ;

    /// Returns the text between the first occurrence of `pre` and the first
    /// occurrence of `post` after it, or up to the end of the text when
    /// `post` does not occur there; `None` when `pre` does not occur.
    fn try_between(&self, pre: &str, post: &str) -> (r: Option<&str>)
        ensures
            match r {
                Option::None => !has_occurrence(self.text(), pre@),
                Option::Some(t) => has_occurrence(self.text(), pre@) && ({
                    let mid = after_prefix(self.text(), pre@);
                    if has_occurrence(mid, post@) {
                        t@ == mid.subrange(0, first_occur(mid, post@))
                    } else {
                        t@ == mid
                    }
                }),
            },
    ;

    /// Returns a parser whose cursor is the whole text.
    fn as_parser(&self) -> (r: Parser<'_>)
        ensures
            r@ == self.text(),
    ;
}

impl Parse for str {
    open spec fn text(&self) -> Seq<char> {
        self@
    }

    fn parse_uw<T: FromStrUnwrap>(&self) -> (r: T) {
        T::parse(self)
    }

    fn idx(&self, index: usize) -> (r: u8) {
        self.get_ascii(index)
    }

    fn ints_iter<T: FromStrUnwrap>(&self) -> (r: Ints<'_, T>) {
        Ints::new(self)
    }

    fn ints<const N: usize, T: FromStrUnwrap>(&self) -> (r: Vec<T>) {
        let mut it: Ints<'_, T> = Ints::new(self);
        it.collect_n::<N>()
    }

    fn uints_iter<T: FromStrUnwrap>(&self) -> (r: UInts<'_, T>) {
        UInts::new(self)
    }

    fn uints<const N: usize, T: FromStrUnwrap>(&self) -> (r: Vec<T>) {
        let mut it: UInts<'_, T> = UInts::new(self);
        it.collect_n::<N>()
    }

    fn try_between(&self, pre: &str, post: &str) -> (r: Option<&str>) {
        let i = match find_in(self, pre) {
            Option::Some(i) => i,
            Option::None => {
                return None;
            },
        };
        proof {
            lemma_first_occur(self@, pre@);
        }
        let len = self.unicode_len();
        let m = pre.unicode_len();
        let mid = self.substring_char(i + m, len);
        match find_in(mid, post) {
            Option::Some(j) => {
                proof {
                    lemma_first_occur(mid@, post@);
                }
                Some(mid.substring_char(0, j))
            },
            Option::None => Some(mid),
        }
    }

    fn as_parser(&self) -> (r: Parser<'_>) {
        Parser::new(self)
    }
}

impl Parse for String {
    open spec fn text(&self) -> Seq<char> {
        self@
    }

    fn parse_uw<T: FromStrUnwrap>(&self) -> (r: T) {
        T::parse(self.as_str())
    }

    fn idx(&self, index: usize) -> (r: u8) {
        self.as_str().get_ascii(index)
    }

    fn ints_iter<T: FromStrUnwrap>(&self) -> (r: Ints<'_, T>) {
        Ints::new(self.as_str())
    }

    fn ints<const N: usize, T: FromStrUnwrap>(&self) -> (r: Vec<T>) {
        let mut it: Ints<'_, T> = Ints::new(self.as_str());
        it.collect_n::<N>()
    }

    fn uints_iter<T: FromStrUnwrap>(&self) -> (r: UInts<'_, T>) {
        UInts::new(self.as_str())
    }

    fn uints<const N: usize, T: FromStrUnwrap>(&self) -> (r: Vec<T>) {
        let mut it: UInts<'_, T> = UInts::new(self.as_str());
        it.collect_n::<N>()
    }

    fn try_between(&self, pre: &str, post: &str) -> (r: Option<&str>) {
        self.as_str().try_between(pre, post)
    }

    fn as_parser(&self) -> (r: Parser<'_>) {
        Parser::new(self.as_str())
    }
}

} // verus!
