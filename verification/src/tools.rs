//! Parsing tools.
//!
//! This module provides the [`ParseTool`] trait and some parsing tools which incapsulates some
//! basic algorithms which you can use to define more sofisticated ones.
//!
//! A tool is specified by [`ParseTool::spec_parse`], a function from the characters of the
//! parsed string to the number of characters of the matched prefix, if any.
use vstd::prelude::*;
use crate::atoms::{Atom, Match};
use crate::chains::{repeat_parse, repeat_spec, repeat_can, lazy_parse_split, lazy_split, lazy_can};
use crate::text::{
    prefix_len, starts_with, byte_len, first_char, char_len, skip_chars, take_chars,
    lemma_prefix_len_one, lemma_prefix_len_zero, lemma_prefix_len_add, lemma_prefix_len_bound,
};
use crate::toolerr::{char_pred_ok, char_pred, ref_pred_ok, ref_pred};

verus! {

/// Return type of a [`ParseTool`].
pub enum ToolResult {
    /// A successful match.
    Match {
        /// The length in bytes of the matching prefix.
        len: usize,
    },
    /// A failed match.
    NoMatch,
}

/// Return type of a [`ParseToolData`].
pub enum ToolResultData<D> {
    /// A successful match.
    Match {
        /// The length in bytes of the matching prefix.
        len: usize,
        /// The carried data.
        data: D,
    },
    /// A failed match.
    NoMatch,
}

/// True when `r` is the executable form of the abstract result `sp` of parsing `st`:
/// a match of `k` characters is reported as the byte length of those characters.
pub open spec fn agrees(r: ToolResult, st: Seq<char>, sp: Option<nat>) -> bool {
    match sp {
        Some(k) => k <= st.len() && match r {
            ToolResult::Match { len } => len == prefix_len(st, k),
            ToolResult::NoMatch => false,
        },
        None => r is NoMatch,
    }
}

/// True when `r` is the executable form of the abstract result `sp` of parsing `st` with data:
/// a match of `k` characters with data whose view is `v`.
pub open spec fn agrees_data<D: View>(r: ToolResultData<D>, st: Seq<char>, sp: Option<(nat, D::V)>) -> bool {
    match sp {
        Some((k, v)) => k <= st.len() && match r {
            ToolResultData::Match { len, data } => len == prefix_len(st, k) && data@ == v,
            ToolResultData::NoMatch => false,
        },
        None => r is NoMatch,
    }
}

/// The main parsing trait.
///
/// Every object which incapsulate a parsing strategy should implement this trait in order to be
/// composed with other tools.
pub trait ParseTool {
    /// What the tool does on a string whose characters are `st`: `Some(k)` when it matches the
    /// first `k` characters, `None` when no prefix satisfies it.
    spec fn spec_parse(&self, st: Seq<char>) -> Option<nat>;

    /// Holds on the inputs on which [`ParseTool::parse`] returns, with the result that
    /// [`ParseTool::spec_parse`] gives: it fails where a repetition would loop forever, or where a
    /// user-supplied function cannot be called or does not answer as a function.
    open spec fn can_parse(&self, st: Seq<char>) -> bool {
        true
    }

    /// The main parsing algorithm.
    ///
    /// If there is a match, `Match` is returned with the length *in bytes* of the matched
    /// prefix. Notice that a zero may return if the empty string `""` is a valid match for this
    /// tool. If no prefix of `st` satisfies this parsing strategy then `NoMatch` is returned.
    fn parse(&self, st: &str) -> (r: ToolResult)
        requires
            self.can_parse(st@),
        ensures
            agrees(r, st@, self.spec_parse(st@)),
    ;
}

/// A tool that can generate additional `Data` after a successful match.
///
/// Type `P` can be used not only to pass additional information to generate the `Data`, but can be
/// used to provide multiple implementation of this trait for a single object and to disambiguate
/// between them.
pub trait ParseToolData<'a, P> {
    /// The data that is generate at a successful match.
    type Data: View;

    /// What the tool does on a string whose characters are `st`: `Some((k, v))` when it matches
    /// the first `k` characters and generates data whose view is `v`, `None` when it does not
    /// match.
    spec fn spec_parse_data(&self, st: Seq<char>, par: P) -> Option<(nat, <Self::Data as View>::V)>;

    /// Holds on the inputs on which [`ParseToolData::parse`] returns with the result that
    /// [`ParseToolData::spec_parse_data`] gives.
    open spec fn can_parse_data(&self, st: Seq<char>, par: P) -> bool {
        true
    }

    /// The main parsing algorithm.
    fn parse(&self, st: &'a str, par: P) -> (r: ToolResultData<Self::Data>)
        requires
            self.can_parse_data(st@, par),
        ensures
            agrees_data(r, st@, self.spec_parse_data(st@, par)),
    ;
}

impl<T: ParseTool + ?Sized> ParseTool for &T {
    open spec fn spec_parse(&self, st: Seq<char>) -> Option<nat> {
        (**self).spec_parse(st)
    }

    open spec fn can_parse(&self, st: Seq<char>) -> bool {
        (**self).can_parse(st)
    }

    fn parse(&self, st: &str) -> (r: ToolResult) {
        (**self).parse(st)
    }
}

impl<T: ParseTool + ?Sized> ParseTool for Box<T> {
    open spec fn spec_parse(&self, st: Seq<char>) -> Option<nat> {
        (**self).spec_parse(st)
    }

    open spec fn can_parse(&self, st: Seq<char>) -> bool {
        (**self).can_parse(st)
    }

    fn parse(&self, st: &str) -> (r: ToolResult) {
        (**self).parse(st)
    }
}

/// Matches a string exactly.
impl ParseTool for str {
    open spec fn spec_parse(&self, st: Seq<char>) -> Option<nat> {
        if self@.len() <= st.len() && st.take(self@.len() as int) == self@ {
            Some(self@.len())
        } else {
            None
        }
    }

    fn parse(&self, st: &str) -> (r: ToolResult) {
        if starts_with(st, self) {
            let n = byte_len(self);
            ToolResult::Match { len: n }
        } else {
            ToolResult::NoMatch
        }
    }
}

/// Matches the first character exactly.
impl ParseTool for char {
    open spec fn spec_parse(&self, st: Seq<char>) -> Option<nat> {
        if st.len() > 0 && st[0] == *self {
            Some(1)
        } else {
            None
        }
    }

    fn parse(&self, st: &str) -> (r: ToolResult) {
        match first_char(st) {
            Some(c) => {
                if *self == c {
                    proof {
                        lemma_prefix_len_one(st@);
                    }
                    ToolResult::Match { len: char_len(c) }
                } else {
                    ToolResult::NoMatch
                }
            },
            None => ToolResult::NoMatch,
        }
    }
}

/// The first tool of `tools` that matches `st`.
pub open spec fn first_match<R: ParseTool>(tools: Seq<R>, st: Seq<char>) -> Option<nat>
    decreases tools.len(),
{
    if tools.len() == 0 {
        None
    } else {
        match tools[0].spec_parse(st) {
            Some(k) => Some(k),
            None => first_match(tools.drop_first(), st),
        }
    }
}

/// Every tool of `tools` that [`first_match`] may run can run on `st`.
pub open spec fn first_match_can_parse<R: ParseTool>(tools: Seq<R>, st: Seq<char>) -> bool
    decreases tools.len(),
{
    tools.len() > 0 ==> tools[0].can_parse(st) && (tools[0].spec_parse(st) is None
        ==> first_match_can_parse(tools.drop_first(), st))
}

/// Matches any of the tools in the slice, trying them in order.
impl<R: ParseTool> ParseTool for [R] {
    open spec fn spec_parse(&self, st: Seq<char>) -> Option<nat> {
        first_match(self@, st)
    }

    open spec fn can_parse(&self, st: Seq<char>) -> bool {
        first_match_can_parse(self@, st)
    }

    fn parse(&self, st: &str) -> (r: ToolResult) {
        let mut i: usize = 0;
        assert(self@.skip(0) =~= self@);
        while i < self.len()
            invariant
                0 <= i <= self@.len(),
                first_match(self@, st@) == first_match(self@.skip(i as int), st@),
                first_match_can_parse(self@.skip(i as int), st@),
            decreases self@.len() - i,
        {
            let ghost rest = self@.skip(i as int);
            assert(rest[0] == self@[i as int]);
            assert(rest.drop_first() =~= self@.skip(i + 1));
            match self[i].parse(st) {
                ToolResult::Match { len } => {
                    return ToolResult::Match { len };
                },
                ToolResult::NoMatch => {},
            }
            i = i + 1;
        }
        ToolResult::NoMatch
    }
}

/// Matches any of the tools in the array, trying them in order.
impl<R: ParseTool, const N: usize> ParseTool for [R; N] {
    open spec fn spec_parse(&self, st: Seq<char>) -> Option<nat> {
        first_match(self@, st)
    }

    open spec fn can_parse(&self, st: Seq<char>) -> bool {
        first_match_can_parse(self@, st)
    }

    fn parse(&self, st: &str) -> (r: ToolResult) {
        self.as_slice().parse(st)
    }
}

/// Parses only the end of the input.
#[derive(Debug, Clone, Copy, Default)]
pub struct EOFTool;

impl ParseTool for EOFTool {
    open spec fn spec_parse(&self, st: Seq<char>) -> Option<nat> {
        if st.len() == 0 {
            Some(0)
        } else {
            None
        }
    }

    fn parse(&self, st: &str) -> (r: ToolResult) {
        proof {
            lemma_prefix_len_zero(st@);
        }
        if st.is_empty() {
            ToolResult::Match { len: 0 }
        } else {
            ToolResult::NoMatch
        }
    }
}

/// Only checks the provided tool, without progressing.
#[derive(Debug, Copy, Clone, Default)]
pub struct CheckTool<T>(pub T);

impl<T: ParseTool> ParseTool for CheckTool<T> {
    open spec fn spec_parse(&self, st: Seq<char>) -> Option<nat> {
        match self.0.spec_parse(st) {
            Some(_) => Some(0),
            None => None,
        }
    }

    open spec fn can_parse(&self, st: Seq<char>) -> bool {
        self.0.can_parse(st)
    }

    fn parse(&self, st: &str) -> (r: ToolResult) {
        proof {
            lemma_prefix_len_zero(st@);
        }
        self.0.parse(st).map(|l: usize| -> (z: usize) ensures z == 0 { 0 })
    }
}

/// Matches only if the provided tool doesn't match.
#[derive(Debug, Copy, Clone, Default)]
pub struct CheckInvTool<T>(pub T);

impl<T: ParseTool> ParseTool for CheckInvTool<T> {
    open spec fn spec_parse(&self, st: Seq<char>) -> Option<nat> {
        match self.0.spec_parse(st) {
            Some(_) => None,
            None => Some(0),
        }
    }

    open spec fn can_parse(&self, st: Seq<char>) -> bool {
        self.0.can_parse(st)
    }

    fn parse(&self, st: &str) -> (r: ToolResult) {
        proof {
            lemma_prefix_len_zero(st@);
        }
        match self.0.parse(st) {
            ToolResult::Match { .. } => ToolResult::NoMatch,
            ToolResult::NoMatch => ToolResult::Match { len: 0 },
        }
    }
}

/// Matches any character.
#[derive(Debug, Copy, Clone, Default)]
pub struct AnyTool;

impl ParseTool for AnyTool {
    open spec fn spec_parse(&self, st: Seq<char>) -> Option<nat> {
        if st.len() > 0 {
            Some(1)
        } else {
            None
        }
    }

    fn parse(&self, st: &str) -> (r: ToolResult) {
        match first_char(st) {
            Some(c) => {
                proof {
                    lemma_prefix_len_one(st@);
                }
                ToolResult::Match { len: char_len(c) }
            },
            None => ToolResult::NoMatch,
        }
    }
}

/// Matches the empty string, therefore it always matches.
#[derive(Debug, Clone, Copy, Default)]
pub struct TrueParser;

impl ParseTool for TrueParser {
    open spec fn spec_parse(&self, st: Seq<char>) -> Option<nat> {
        Some(0)
    }

    fn parse(&self, st: &str) -> (r: ToolResult) {
        proof {
            lemma_prefix_len_zero(st@);
        }
        ToolResult::Match { len: 0 }
    }
}

/// Tool that matches at least one of many subtools.
///
/// Implemented for tuples with up to 15 elements; thanks to associativity you can use nested
/// tuples to support more tools.
///
/// *Ordering matters here*: if one matches then the followings are not tried.
#[derive(Debug, Clone, Copy, Default)]
pub struct Or<Tup>(
    /// Tools to be tested.
    pub Tup,
);

/// Tool that matches a sequence of subtools.
///
/// Implemented for tuples with up to 15 elements; thanks to associativity you can use nested
/// tuples to support more tools.
#[derive(Debug, Clone, Copy, Default)]
pub struct SeqTool<Tup>(
    /// Tools to be tested.
    pub Tup,
);

impl ParseTool for Or<()> {
    open spec fn spec_parse(&self, st: Seq<char>) -> Option<nat> {
        None
    }

    fn parse(&self, st: &str) -> (r: ToolResult) {
        ToolResult::NoMatch
    }
}

impl ParseTool for SeqTool<()> {
    open spec fn spec_parse(&self, st: Seq<char>) -> Option<nat> {
        Some(0)
    }

    fn parse(&self, st: &str) -> (r: ToolResult) {
        proof {
            lemma_prefix_len_zero(st@);
        }
        ToolResult::Match { len: 0 }
    }
}

impl<A: ParseTool> ParseTool for Or<(A,)> {
    open spec fn spec_parse(&self, st: Seq<char>) -> Option<nat> {
        self.0.0.spec_parse(st)
    }

    open spec fn can_parse(&self, st: Seq<char>) -> bool {
        self.0.0.can_parse(st)
    }

    fn parse(&self, st: &str) -> (r: ToolResult) {
        self.0.0.parse(st)
    }
}

impl<A: ParseTool> ParseTool for SeqTool<(A,)> {
    open spec fn spec_parse(&self, st: Seq<char>) -> Option<nat> {
        self.0.0.spec_parse(st)
    }

    open spec fn can_parse(&self, st: Seq<char>) -> bool {
        self.0.0.can_parse(st)
    }

    fn parse(&self, st: &str) -> (r: ToolResult) {
        self.0.0.parse(st)
    }
}

impl<A: ParseTool, B: ParseTool> ParseTool for Or<(A, B)> {
    open spec fn spec_parse(&self, st: Seq<char>) -> Option<nat> {
        match self.0.0.spec_parse(st) {
            Some(k) => Some(k),
            None => Or((self.0.1,)).spec_parse(st),
        }
    }

    open spec fn can_parse(&self, st: Seq<char>) -> bool {
        self.0.0.can_parse(st) && (self.0.0.spec_parse(st) is None ==> Or((self.0.1,)).can_parse(st))
    }

    fn parse(&self, st: &str) -> (r: ToolResult) {
        let (t0, t1) = &self.0;
        match t0.parse(st) {
            ToolResult::Match { len } => ToolResult::Match { len },
            ToolResult::NoMatch => Or((t1,)).parse(st),
        }
    }
}

impl<A: ParseTool, B: ParseTool> ParseTool for SeqTool<(A, B)> {
    open spec fn spec_parse(&self, st: Seq<char>) -> Option<nat> {
        match self.0.0.spec_parse(st) {
            Some(k) => if k <= st.len() {
                match SeqTool((self.0.1,)).spec_parse(st.skip(k as int)) {
                    Some(k2) => Some(k + k2),
                    None => None,
                }
            } else {
                None
            },
            None => None,
        }
    }

    open spec fn can_parse(&self, st: Seq<char>) -> bool {
        self.0.0.can_parse(st) && match self.0.0.spec_parse(st) {
            Some(k) => k <= st.len() ==> SeqTool((self.0.1,)).can_parse(st.skip(k as int)),
            None => true,
        }
    }

    fn parse(&self, st: &str) -> (r: ToolResult) {
        let (t0, t1) = &self.0;
        match t0.parse(st) {
            ToolResult::Match { len: rlen } => {
                let ghost k = self.0.0.spec_parse(st@)->Some_0;
                let rest = skip_chars(st, rlen, Ghost(k));
                match SeqTool((t1,)).parse(rest) {
                    ToolResult::Match { len } => {
                        let total = byte_len(st);
                        proof {
                            let k2 = SeqTool((self.0.1,)).spec_parse(st@.skip(k as int))->Some_0;
                            lemma_prefix_len_add(st@, k, k2);
                            lemma_prefix_len_bound(st@, k + k2);
                        }
                        ToolResult::Match { len: len + rlen }
                    },
                    ToolResult::NoMatch => ToolResult::NoMatch,
                }
            },
            ToolResult::NoMatch => ToolResult::NoMatch,
        }
    }
}

impl<A: ParseTool, B: ParseTool, C: ParseTool> ParseTool for Or<(A, B, C)> {
    open spec fn spec_parse(&self, st: Seq<char>) -> Option<nat> {
        match self.0.0.spec_parse(st) {
            Some(k) => Some(k),
            None => Or((self.0.1, self.0.2)).spec_parse(st),
        }
    }

    open spec fn can_parse(&self, st: Seq<char>) -> bool {
        self.0.0.can_parse(st) && (self.0.0.spec_parse(st) is None ==> Or((self.0.1, self.0.2)).can_parse(st))
    }

    fn parse(&self, st: &str) -> (r: ToolResult) {
        let (t0, t1, t2) = &self.0;
        match t0.parse(st) {
            ToolResult::Match { len } => ToolResult::Match { len },
            ToolResult::NoMatch => Or((t1, t2)).parse(st),
        }
    }
}

impl<A: ParseTool, B: ParseTool, C: ParseTool> ParseTool for SeqTool<(A, B, C)> {
    open spec fn spec_parse(&self, st: Seq<char>) -> Option<nat> {
        match self.0.0.spec_parse(st) {
            Some(k) => if k <= st.len() {
                match SeqTool((self.0.1, self.0.2)).spec_parse(st.skip(k as int)) {
                    Some(k2) => Some(k + k2),
                    None => None,
                }
            } else {
                None
            },
            None => None,
        }
    }

    open spec fn can_parse(&self, st: Seq<char>) -> bool {
        self.0.0.can_parse(st) && match self.0.0.spec_parse(st) {
            Some(k) => k <= st.len() ==> SeqTool((self.0.1, self.0.2)).can_parse(st.skip(k as int)),
            None => true,
        }
    }

    fn parse(&self, st: &str) -> (r: ToolResult) {
        let (t0, t1, t2) = &self.0;
        match t0.parse(st) {
            ToolResult::Match { len: rlen } => {
                let ghost k = self.0.0.spec_parse(st@)->Some_0;
                let rest = skip_chars(st, rlen, Ghost(k));
                match SeqTool((t1, t2)).parse(rest) {
                    ToolResult::Match { len } => {
                        let total = byte_len(st);
                        proof {
                            let k2 = SeqTool((self.0.1, self.0.2)).spec_parse(st@.skip(k as int))->Some_0;
                            lemma_prefix_len_add(st@, k, k2);
                            lemma_prefix_len_bound(st@, k + k2);
                        }
                        ToolResult::Match { len: len + rlen }
                    },
                    ToolResult::NoMatch => ToolResult::NoMatch,
                }
            },
            ToolResult::NoMatch => ToolResult::NoMatch,
        }
    }
}

impl<A: ParseTool, B: ParseTool, C: ParseTool, D: ParseTool> ParseTool for Or<(A, B, C, D)> {
    open spec fn spec_parse(&self, st: Seq<char>) -> Option<nat> {
        match self.0.0.spec_parse(st) {
            Some(k) => Some(k),
            None => Or((self.0.1, self.0.2, self.0.3)).spec_parse(st),
        }
    }

    open spec fn can_parse(&self, st: Seq<char>) -> bool {
        self.0.0.can_parse(st) && (self.0.0.spec_parse(st) is None ==> Or((self.0.1, self.0.2, self.0.3)).can_parse(st))
    }

    fn parse(&self, st: &str) -> (r: ToolResult) {
        let (t0, t1, t2, t3) = &self.0;
        match t0.parse(st) {
            ToolResult::Match { len } => ToolResult::Match { len },
            ToolResult::NoMatch => Or((t1, t2, t3)).parse(st),
        }
    }
}

impl<A: ParseTool, B: ParseTool, C: ParseTool, D: ParseTool> ParseTool for SeqTool<(A, B, C, D)> {
    open spec fn spec_parse(&self, st: Seq<char>) -> Option<nat> {
        match self.0.0.spec_parse(st) {
            Some(k) => if k <= st.len() {
                match SeqTool((self.0.1, self.0.2, self.0.3)).spec_parse(st.skip(k as int)) {
                    Some(k2) => Some(k + k2),
                    None => None,
                }
            } else {
                None
            },
            None => None,
        }
    }

    open spec fn can_parse(&self, st: Seq<char>) -> bool {
        self.0.0.can_parse(st) && match self.0.0.spec_parse(st) {
            Some(k) => k <= st.len() ==> SeqTool((self.0.1, self.0.2, self.0.3)).can_parse(st.skip(k as int)),
            None => true,
        }
    }

    fn parse(&self, st: &str) -> (r: ToolResult) {
        let (t0, t1, t2, t3) = &self.0;
        match t0.parse(st) {
            ToolResult::Match { len: rlen } => {
                let ghost k = self.0.0.spec_parse(st@)->Some_0;
                let rest = skip_chars(st, rlen, Ghost(k));
                match SeqTool((t1, t2, t3)).parse(rest) {
                    ToolResult::Match { len } => {
                        let total = byte_len(st);
                        proof {
                            let k2 = SeqTool((self.0.1, self.0.2, self.0.3)).spec_parse(st@.skip(k as int))->Some_0;
                            lemma_prefix_len_add(st@, k, k2);
                            lemma_prefix_len_bound(st@, k + k2);
                        }
                        ToolResult::Match { len: len + rlen }
                    },
                    ToolResult::NoMatch => ToolResult::NoMatch,
                }
            },
            ToolResult::NoMatch => ToolResult::NoMatch,
        }
    }
}

impl<A: ParseTool, B: ParseTool, C: ParseTool, D: ParseTool, E: ParseTool> ParseTool for Or<(A, B, C, D, E)> {
    open spec fn spec_parse(&self, st: Seq<char>) -> Option<nat> {
        match self.0.0.spec_parse(st) {
            Some(k) => Some(k),
            None => Or((self.0.1, self.0.2, self.0.3, self.0.4)).spec_parse(st),
        }
    }

    open spec fn can_parse(&self, st: Seq<char>) -> bool {
        self.0.0.can_parse(st) && (self.0.0.spec_parse(st) is None ==> Or((self.0.1, self.0.2, self.0.3, self.0.4)).can_parse(st))
    }

    fn parse(&self, st: &str) -> (r: ToolResult) {
        let (t0, t1, t2, t3, t4) = &self.0;
        match t0.parse(st) {
            ToolResult::Match { len } => ToolResult::Match { len },
            ToolResult::NoMatch => Or((t1, t2, t3, t4)).parse(st),
        }
    }
}

impl<A: ParseTool, B: ParseTool, C: ParseTool, D: ParseTool, E: ParseTool> ParseTool for SeqTool<(A, B, C, D, E)> {
    open spec fn spec_parse(&self, st: Seq<char>) -> Option<nat> {
        match self.0.0.spec_parse(st) {
            Some(k) => if k <= st.len() {
                match SeqTool((self.0.1, self.0.2, self.0.3, self.0.4)).spec_parse(st.skip(k as int)) {
                    Some(k2) => Some(k + k2),
                    None => None,
                }
            } else {
                None
            },
            None => None,
        }
    }

    open spec fn can_parse(&self, st: Seq<char>) -> bool {
        self.0.0.can_parse(st) && match self.0.0.spec_parse(st) {
            Some(k) => k <= st.len() ==> SeqTool((self.0.1, self.0.2, self.0.3, self.0.4)).can_parse(st.skip(k as int)),
            None => true,
        }
    }

    fn parse(&self, st: &str) -> (r: ToolResult) {
        let (t0, t1, t2, t3, t4) = &self.0;
        match t0.parse(st) {
            ToolResult::Match { len: rlen } => {
                let ghost k = self.0.0.spec_parse(st@)->Some_0;
                let rest = skip_chars(st, rlen, Ghost(k));
                match SeqTool((t1, t2, t3, t4)).parse(rest) {
                    ToolResult::Match { len } => {
                        let total = byte_len(st);
                        proof {
                            let k2 = SeqTool((self.0.1, self.0.2, self.0.3, self.0.4)).spec_parse(st@.skip(k as int))->Some_0;
                            lemma_prefix_len_add(st@, k, k2);
                            lemma_prefix_len_bound(st@, k + k2);
                        }
                        ToolResult::Match { len: len + rlen }
                    },
                    ToolResult::NoMatch => ToolResult::NoMatch,
                }
            },
            ToolResult::NoMatch => ToolResult::NoMatch,
        }
    }
}

impl<A: ParseTool, B: ParseTool, C: ParseTool, D: ParseTool, E: ParseTool, F: ParseTool> ParseTool for Or<(A, B, C, D, E, F)> {
    open spec fn spec_parse(&self, st: Seq<char>) -> Option<nat> {
        match self.0.0.spec_parse(st) {
            Some(k) => Some(k),
            None => Or((self.0.1, self.0.2, self.0.3, self.0.4, self.0.5)).spec_parse(st),
        }
    }

    open spec fn can_parse(&self, st: Seq<char>) -> bool {
        self.0.0.can_parse(st) && (self.0.0.spec_parse(st) is None ==> Or((self.0.1, self.0.2, self.0.3, self.0.4, self.0.5)).can_parse(st))
    }

    fn parse(&self, st: &str) -> (r: ToolResult) {
        let (t0, t1, t2, t3, t4, t5) = &self.0;
        match t0.parse(st) {
            ToolResult::Match { len } => ToolResult::Match { len },
            ToolResult::NoMatch => Or((t1, t2, t3, t4, t5)).parse(st),
        }
    }
}

impl<A: ParseTool, B: ParseTool, C: ParseTool, D: ParseTool, E: ParseTool, F: ParseTool> ParseTool for SeqTool<(A, B, C, D, E, F)> {
    open spec fn spec_parse(&self, st: Seq<char>) -> Option<nat> {
        match self.0.0.spec_parse(st) {
            Some(k) => if k <= st.len() {
                match SeqTool((self.0.1, self.0.2, self.0.3, self.0.4, self.0.5)).spec_parse(st.skip(k as int)) {
                    Some(k2) => Some(k + k2),
                    None => None,
                }
            } else {
                None
            },
            None => None,
        }
    }

    open spec fn can_parse(&self, st: Seq<char>) -> bool {
        self.0.0.can_parse(st) && match self.0.0.spec_parse(st) {
            Some(k) => k <= st.len() ==> SeqTool((self.0.1, self.0.2, self.0.3, self.0.4, self.0.5)).can_parse(st.skip(k as int)),
            None => true,
        }
    }

    fn parse(&self, st: &str) -> (r: ToolResult) {
        let (t0, t1, t2, t3, t4, t5) = &self.0;
        match t0.parse(st) {
            ToolResult::Match { len: rlen } => {
                let ghost k = self.0.0.spec_parse(st@)->Some_0;
                let rest = skip_chars(st, rlen, Ghost(k));
                match SeqTool((t1, t2, t3, t4, t5)).parse(rest) {
                    ToolResult::Match { len } => {
                        let total = byte_len(st);
                        proof {
                            let k2 = SeqTool((self.0.1, self.0.2, self.0.3, self.0.4, self.0.5)).spec_parse(st@.skip(k as int))->Some_0;
                            lemma_prefix_len_add(st@, k, k2);
                            lemma_prefix_len_bound(st@, k + k2);
                        }
                        ToolResult::Match { len: len + rlen }
                    },
                    ToolResult::NoMatch => ToolResult::NoMatch,
                }
            },
            ToolResult::NoMatch => ToolResult::NoMatch,
        }
    }
}

impl<A: ParseTool, B: ParseTool, C: ParseTool, D: ParseTool, E: ParseTool, F: ParseTool, G: ParseTool> ParseTool for Or<(A, B, C, D, E, F, G)> {
    open spec fn spec_parse(&self, st: Seq<char>) -> Option<nat> {
        match self.0.0.spec_parse(st) {
            Some(k) => Some(k),
            None => Or((self.0.1, self.0.2, self.0.3, self.0.4, self.0.5, self.0.6)).spec_parse(st),
        }
    }

    open spec fn can_parse(&self, st: Seq<char>) -> bool {
        self.0.0.can_parse(st) && (self.0.0.spec_parse(st) is None ==> Or((self.0.1, self.0.2, self.0.3, self.0.4, self.0.5, self.0.6)).can_parse(st))
    }

    fn parse(&self, st: &str) -> (r: ToolResult) {
        let (t0, t1, t2, t3, t4, t5, t6) = &self.0;
        match t0.parse(st) {
            ToolResult::Match { len } => ToolResult::Match { len },
            ToolResult::NoMatch => Or((t1, t2, t3, t4, t5, t6)).parse(st),
        }
    }
}

impl<A: ParseTool, B: ParseTool, C: ParseTool, D: ParseTool, E: ParseTool, F: ParseTool, G: ParseTool> ParseTool for SeqTool<(A, B, C, D, E, F, G)> {
    open spec fn spec_parse(&self, st: Seq<char>) -> Option<nat> {
        match self.0.0.spec_parse(st) {
            Some(k) => if k <= st.len() {
                match SeqTool((self.0.1, self.0.2, self.0.3, self.0.4, self.0.5, self.0.6)).spec_parse(st.skip(k as int)) {
                    Some(k2) => Some(k + k2),
                    None => None,
                }
            } else {
                None
            },
            None => None,
        }
    }

    open spec fn can_parse(&self, st: Seq<char>) -> bool {
        self.0.0.can_parse(st) && match self.0.0.spec_parse(st) {
            Some(k) => k <= st.len() ==> SeqTool((self.0.1, self.0.2, self.0.3, self.0.4, self.0.5, self.0.6)).can_parse(st.skip(k as int)),
            None => true,
        }
    }

    fn parse(&self, st: &str) -> (r: ToolResult) {
        let (t0, t1, t2, t3, t4, t5, t6) = &self.0;
        match t0.parse(st) {
            ToolResult::Match { len: rlen } => {
                let ghost k = self.0.0.spec_parse(st@)->Some_0;
                let rest = skip_chars(st, rlen, Ghost(k));
                match SeqTool((t1, t2, t3, t4, t5, t6)).parse(rest) {
                    ToolResult::Match { len } => {
                        let total = byte_len(st);
                        proof {
                            let k2 = SeqTool((self.0.1, self.0.2, self.0.3, self.0.4, self.0.5, self.0.6)).spec_parse(st@.skip(k as int))->Some_0;
                            lemma_prefix_len_add(st@, k, k2);
                            lemma_prefix_len_bound(st@, k + k2);
                        }
                        ToolResult::Match { len: len + rlen }
                    },
                    ToolResult::NoMatch => ToolResult::NoMatch,
                }
            },
            ToolResult::NoMatch => ToolResult::NoMatch,
        }
    }
}

impl<A: ParseTool, B: ParseTool, C: ParseTool, D: ParseTool, E: ParseTool, F: ParseTool, G: ParseTool, H: ParseTool> ParseTool for Or<(A, B, C, D, E, F, G, H)> {
    open spec fn spec_parse(&self, st: Seq<char>) -> Option<nat> {
        match self.0.0.spec_parse(st) {
            Some(k) => Some(k),
            None => Or((self.0.1, self.0.2, self.0.3, self.0.4, self.0.5, self.0.6, self.0.7)).spec_parse(st),
        }
    }

    open spec fn can_parse(&self, st: Seq<char>) -> bool {
        self.0.0.can_parse(st) && (self.0.0.spec_parse(st) is None ==> Or((self.0.1, self.0.2, self.0.3, self.0.4, self.0.5, self.0.6, self.0.7)).can_parse(st))
    }

    fn parse(&self, st: &str) -> (r: ToolResult) {
        let (t0, t1, t2, t3, t4, t5, t6, t7) = &self.0;
        match t0.parse(st) {
            ToolResult::Match { len } => ToolResult::Match { len },
            ToolResult::NoMatch => Or((t1, t2, t3, t4, t5, t6, t7)).parse(st),
        }
    }
}

impl<A: ParseTool, B: ParseTool, C: ParseTool, D: ParseTool, E: ParseTool, F: ParseTool, G: ParseTool, H: ParseTool> ParseTool for SeqTool<(A, B, C, D, E, F, G, H)> {
    open spec fn spec_parse(&self, st: Seq<char>) -> Option<nat> {
        match self.0.0.spec_parse(st) {
            Some(k) => if k <= st.len() {
                match SeqTool((self.0.1, self.0.2, self.0.3, self.0.4, self.0.5, self.0.6, self.0.7)).spec_parse(st.skip(k as int)) {
                    Some(k2) => Some(k + k2),
                    None => None,
                }
            } else {
                None
            },
            None => None,
        }
    }

    open spec fn can_parse(&self, st: Seq<char>) -> bool {
        self.0.0.can_parse(st) && match self.0.0.spec_parse(st) {
            Some(k) => k <= st.len() ==> SeqTool((self.0.1, self.0.2, self.0.3, self.0.4, self.0.5, self.0.6, self.0.7)).can_parse(st.skip(k as int)),
            None => true,
        }
    }

    fn parse(&self, st: &str) -> (r: ToolResult) {
        let (t0, t1, t2, t3, t4, t5, t6, t7) = &self.0;
        match t0.parse(st) {
            ToolResult::Match { len: rlen } => {
                let ghost k = self.0.0.spec_parse(st@)->Some_0;
                let rest = skip_chars(st, rlen, Ghost(k));
                match SeqTool((t1, t2, t3, t4, t5, t6, t7)).parse(rest) {
                    ToolResult::Match { len } => {
                        let total = byte_len(st);
                        proof {
                            let k2 = SeqTool((self.0.1, self.0.2, self.0.3, self.0.4, self.0.5, self.0.6, self.0.7)).spec_parse(st@.skip(k as int))->Some_0;
                            lemma_prefix_len_add(st@, k, k2);
                            lemma_prefix_len_bound(st@, k + k2);
                        }
                        ToolResult::Match { len: len + rlen }
                    },
                    ToolResult::NoMatch => ToolResult::NoMatch,
                }
            },
            ToolResult::NoMatch => ToolResult::NoMatch,
        }
    }
}

impl<A: ParseTool, B: ParseTool, C: ParseTool, D: ParseTool, E: ParseTool, F: ParseTool, G: ParseTool, H: ParseTool, I: ParseTool> ParseTool for Or<(A, B, C, D, E, F, G, H, I)> {
    open spec fn spec_parse(&self, st: Seq<char>) -> Option<nat> {
        match self.0.0.spec_parse(st) {
            Some(k) => Some(k),
            None => Or((self.0.1, self.0.2, self.0.3, self.0.4, self.0.5, self.0.6, self.0.7, self.0.8)).spec_parse(st),
        }
    }

    open spec fn can_parse(&self, st: Seq<char>) -> bool {
        self.0.0.can_parse(st) && (self.0.0.spec_parse(st) is None ==> Or((self.0.1, self.0.2, self.0.3, self.0.4, self.0.5, self.0.6, self.0.7, self.0.8)).can_parse(st))
    }

    fn parse(&self, st: &str) -> (r: ToolResult) {
        let (t0, t1, t2, t3, t4, t5, t6, t7, t8) = &self.0;
        match t0.parse(st) {
            ToolResult::Match { len } => ToolResult::Match { len },
            ToolResult::NoMatch => Or((t1, t2, t3, t4, t5, t6, t7, t8)).parse(st),
        }
    }
}

impl<A: ParseTool, B: ParseTool, C: ParseTool, D: ParseTool, E: ParseTool, F: ParseTool, G: ParseTool, H: ParseTool, I: ParseTool> ParseTool for SeqTool<(A, B, C, D, E, F, G, H, I)> {
    open spec fn spec_parse(&self, st: Seq<char>) -> Option<nat> {
        match self.0.0.spec_parse(st) {
            Some(k) => if k <= st.len() {
                match SeqTool((self.0.1, self.0.2, self.0.3, self.0.4, self.0.5, self.0.6, self.0.7, self.0.8)).spec_parse(st.skip(k as int)) {
                    Some(k2) => Some(k + k2),
                    None => None,
                }
            } else {
                None
            },
            None => None,
        }
    }

    open spec fn can_parse(&self, st: Seq<char>) -> bool {
        self.0.0.can_parse(st) && match self.0.0.spec_parse(st) {
            Some(k) => k <= st.len() ==> SeqTool((self.0.1, self.0.2, self.0.3, self.0.4, self.0.5, self.0.6, self.0.7, self.0.8)).can_parse(st.skip(k as int)),
            None => true,
        }
    }

    fn parse(&self, st: &str) -> (r: ToolResult) {
        let (t0, t1, t2, t3, t4, t5, t6, t7, t8) = &self.0;
        match t0.parse(st) {
            ToolResult::Match { len: rlen } => {
                let ghost k = self.0.0.spec_parse(st@)->Some_0;
                let rest = skip_chars(st, rlen, Ghost(k));
                match SeqTool((t1, t2, t3, t4, t5, t6, t7, t8)).parse(rest) {
                    ToolResult::Match { len } => {
                        let total = byte_len(st);
                        proof {
                            let k2 = SeqTool((self.0.1, self.0.2, self.0.3, self.0.4, self.0.5, self.0.6, self.0.7, self.0.8)).spec_parse(st@.skip(k as int))->Some_0;
                            lemma_prefix_len_add(st@, k, k2);
                            lemma_prefix_len_bound(st@, k + k2);
                        }
                        ToolResult::Match { len: len + rlen }
                    },
                    ToolResult::NoMatch => ToolResult::NoMatch,
                }
            },
            ToolResult::NoMatch => ToolResult::NoMatch,
        }
    }
}

impl<A: ParseTool, B: ParseTool, C: ParseTool, D: ParseTool, E: ParseTool, F: ParseTool, G: ParseTool, H: ParseTool, I: ParseTool, J: ParseTool> ParseTool for Or<(A, B, C, D, E, F, G, H, I, J)> {
    open spec fn spec_parse(&self, st: Seq<char>) -> Option<nat> {
        match self.0.0.spec_parse(st) {
            Some(k) => Some(k),
            None => Or((self.0.1, self.0.2, self.0.3, self.0.4, self.0.5, self.0.6, self.0.7, self.0.8, self.0.9)).spec_parse(st),
        }
    }

    open spec fn can_parse(&self, st: Seq<char>) -> bool {
        self.0.0.can_parse(st) && (self.0.0.spec_parse(st) is None ==> Or((self.0.1, self.0.2, self.0.3, self.0.4, self.0.5, self.0.6, self.0.7, self.0.8, self.0.9)).can_parse(st))
    }

    fn parse(&self, st: &str) -> (r: ToolResult) {
        let (t0, t1, t2, t3, t4, t5, t6, t7, t8, t9) = &self.0;
        match t0.parse(st) {
            ToolResult::Match { len } => ToolResult::Match { len },
            ToolResult::NoMatch => Or((t1, t2, t3, t4, t5, t6, t7, t8, t9)).parse(st),
        }
    }
}

impl<A: ParseTool, B: ParseTool, C: ParseTool, D: ParseTool, E: ParseTool, F: ParseTool, G: ParseTool, H: ParseTool, I: ParseTool, J: ParseTool> ParseTool for SeqTool<(A, B, C, D, E, F, G, H, I, J)> {
    open spec fn spec_parse(&self, st: Seq<char>) -> Option<nat> {
        match self.0.0.spec_parse(st) {
            Some(k) => if k <= st.len() {
                match SeqTool((self.0.1, self.0.2, self.0.3, self.0.4, self.0.5, self.0.6, self.0.7, self.0.8, self.0.9)).spec_parse(st.skip(k as int)) {
                    Some(k2) => Some(k + k2),
                    None => None,
                }
            } else {
                None
            },
            None => None,
        }
    }

    open spec fn can_parse(&self, st: Seq<char>) -> bool {
        self.0.0.can_parse(st) && match self.0.0.spec_parse(st) {
            Some(k) => k <= st.len() ==> SeqTool((self.0.1, self.0.2, self.0.3, self.0.4, self.0.5, self.0.6, self.0.7, self.0.8, self.0.9)).can_parse(st.skip(k as int)),
            None => true,
        }
    }

    fn parse(&self, st: &str) -> (r: ToolResult) {
        let (t0, t1, t2, t3, t4, t5, t6, t7, t8, t9) = &self.0;
        match t0.parse(st) {
            ToolResult::Match { len: rlen } => {
                let ghost k = self.0.0.spec_parse(st@)->Some_0;
                let rest = skip_chars(st, rlen, Ghost(k));
                match SeqTool((t1, t2, t3, t4, t5, t6, t7, t8, t9)).parse(rest) {
                    ToolResult::Match { len } => {
                        let total = byte_len(st);
                        proof {
                            let k2 = SeqTool((self.0.1, self.0.2, self.0.3, self.0.4, self.0.5, self.0.6, self.0.7, self.0.8, self.0.9)).spec_parse(st@.skip(k as int))->Some_0;
                            lemma_prefix_len_add(st@, k, k2);
                            lemma_prefix_len_bound(st@, k + k2);
                        }
                        ToolResult::Match { len: len + rlen }
                    },
                    ToolResult::NoMatch => ToolResult::NoMatch,
                }
            },
            ToolResult::NoMatch => ToolResult::NoMatch,
        }
    }
}

impl<A: ParseTool, B: ParseTool, C: ParseTool, D: ParseTool, E: ParseTool, F: ParseTool, G: ParseTool, H: ParseTool, I: ParseTool, J: ParseTool, K: ParseTool> ParseTool for Or<(A, B, C, D, E, F, G, H, I, J, K)> {
    open spec fn spec_parse(&self, st: Seq<char>) -> Option<nat> {
        match self.0.0.spec_parse(st) {
            Some(k) => Some(k),
            None => Or((self.0.1, self.0.2, self.0.3, self.0.4, self.0.5, self.0.6, self.0.7, self.0.8, self.0.9, self.0.10)).spec_parse(st),
        }
    }

    open spec fn can_parse(&self, st: Seq<char>) -> bool {
        self.0.0.can_parse(st) && (self.0.0.spec_parse(st) is None ==> Or((self.0.1, self.0.2, self.0.3, self.0.4, self.0.5, self.0.6, self.0.7, self.0.8, self.0.9, self.0.10)).can_parse(st))
    }

    fn parse(&self, st: &str) -> (r: ToolResult) {
        let (t0, t1, t2, t3, t4, t5, t6, t7, t8, t9, t10) = &self.0;
        match t0.parse(st) {
            ToolResult::Match { len } => ToolResult::Match { len },
            ToolResult::NoMatch => Or((t1, t2, t3, t4, t5, t6, t7, t8, t9, t10)).parse(st),
        }
    }
}

impl<A: ParseTool, B: ParseTool, C: ParseTool, D: ParseTool, E: ParseTool, F: ParseTool, G: ParseTool, H: ParseTool, I: ParseTool, J: ParseTool, K: ParseTool> ParseTool for SeqTool<(A, B, C, D, E, F, G, H, I, J, K)> {
    open spec fn spec_parse(&self, st: Seq<char>) -> Option<nat> {
        match self.0.0.spec_parse(st) {
            Some(k) => if k <= st.len() {
                match SeqTool((self.0.1, self.0.2, self.0.3, self.0.4, self.0.5, self.0.6, self.0.7, self.0.8, self.0.9, self.0.10)).spec_parse(st.skip(k as int)) {
                    Some(k2) => Some(k + k2),
                    None => None,
                }
            } else {
                None
            },
            None => None,
        }
    }

    open spec fn can_parse(&self, st: Seq<char>) -> bool {
        self.0.0.can_parse(st) && match self.0.0.spec_parse(st) {
            Some(k) => k <= st.len() ==> SeqTool((self.0.1, self.0.2, self.0.3, self.0.4, self.0.5, self.0.6, self.0.7, self.0.8, self.0.9, self.0.10)).can_parse(st.skip(k as int)),
            None => true,
        }
    }

    fn parse(&self, st: &str) -> (r: ToolResult) {
        let (t0, t1, t2, t3, t4, t5, t6, t7, t8, t9, t10) = &self.0;
        match t0.parse(st) {
            ToolResult::Match { len: rlen } => {
                let ghost k = self.0.0.spec_parse(st@)->Some_0;
                let rest = skip_chars(st, rlen, Ghost(k));
                match SeqTool((t1, t2, t3, t4, t5, t6, t7, t8, t9, t10)).parse(rest) {
                    ToolResult::Match { len } => {
                        let total = byte_len(st);
                        proof {
                            let k2 = SeqTool((self.0.1, self.0.2, self.0.3, self.0.4, self.0.5, self.0.6, self.0.7, self.0.8, self.0.9, self.0.10)).spec_parse(st@.skip(k as int))->Some_0;
                            lemma_prefix_len_add(st@, k, k2);
                            lemma_prefix_len_bound(st@, k + k2);
                        }
                        ToolResult::Match { len: len + rlen }
                    },
                    ToolResult::NoMatch => ToolResult::NoMatch,
                }
            },
            ToolResult::NoMatch => ToolResult::NoMatch,
        }
    }
}

impl<A: ParseTool, B: ParseTool, C: ParseTool, D: ParseTool, E: ParseTool, F: ParseTool, G: ParseTool, H: ParseTool, I: ParseTool, J: ParseTool, K: ParseTool, L: ParseTool> ParseTool for Or<(A, B, C, D, E, F, G, H, I, J, K, L)> {
    open spec fn spec_parse(&self, st: Seq<char>) -> Option<nat> {
        match self.0.0.spec_parse(st) {
            Some(k) => Some(k),
            None => Or((self.0.1, self.0.2, self.0.3, self.0.4, self.0.5, self.0.6, self.0.7, self.0.8, self.0.9, self.0.10, self.0.11)).spec_parse(st),
        }
    }

    open spec fn can_parse(&self, st: Seq<char>) -> bool {
        self.0.0.can_parse(st) && (self.0.0.spec_parse(st) is None ==> Or((self.0.1, self.0.2, self.0.3, self.0.4, self.0.5, self.0.6, self.0.7, self.0.8, self.0.9, self.0.10, self.0.11)).can_parse(st))
    }

    fn parse(&self, st: &str) -> (r: ToolResult) {
        let (t0, t1, t2, t3, t4, t5, t6, t7, t8, t9, t10, t11) = &self.0;
        match t0.parse(st) {
            ToolResult::Match { len } => ToolResult::Match { len },
            ToolResult::NoMatch => Or((t1, t2, t3, t4, t5, t6, t7, t8, t9, t10, t11)).parse(st),
        }
    }
}

impl<A: ParseTool, B: ParseTool, C: ParseTool, D: ParseTool, E: ParseTool, F: ParseTool, G: ParseTool, H: ParseTool, I: ParseTool, J: ParseTool, K: ParseTool, L: ParseTool> ParseTool for SeqTool<(A, B, C, D, E, F, G, H, I, J, K, L)> {
    open spec fn spec_parse(&self, st: Seq<char>) -> Option<nat> {
        match self.0.0.spec_parse(st) {
            Some(k) => if k <= st.len() {
                match SeqTool((self.0.1, self.0.2, self.0.3, self.0.4, self.0.5, self.0.6, self.0.7, self.0.8, self.0.9, self.0.10, self.0.11)).spec_parse(st.skip(k as int)) {
                    Some(k2) => Some(k + k2),
                    None => None,
                }
            } else {
                None
            },
            None => None,
        }
    }

    open spec fn can_parse(&self, st: Seq<char>) -> bool {
        self.0.0.can_parse(st) && match self.0.0.spec_parse(st) {
            Some(k) => k <= st.len() ==> SeqTool((self.0.1, self.0.2, self.0.3, self.0.4, self.0.5, self.0.6, self.0.7, self.0.8, self.0.9, self.0.10, self.0.11)).can_parse(st.skip(k as int)),
            None => true,
        }
    }

    fn parse(&self, st: &str) -> (r: ToolResult) {
        let (t0, t1, t2, t3, t4, t5, t6, t7, t8, t9, t10, t11) = &self.0;
        match t0.parse(st) {
            ToolResult::Match { len: rlen } => {
                let ghost k = self.0.0.spec_parse(st@)->Some_0;
                let rest = skip_chars(st, rlen, Ghost(k));
                match SeqTool((t1, t2, t3, t4, t5, t6, t7, t8, t9, t10, t11)).parse(rest) {
                    ToolResult::Match { len } => {
                        let total = byte_len(st);
                        proof {
                            let k2 = SeqTool((self.0.1, self.0.2, self.0.3, self.0.4, self.0.5, self.0.6, self.0.7, self.0.8, self.0.9, self.0.10, self.0.11)).spec_parse(st@.skip(k as int))->Some_0;
                            lemma_prefix_len_add(st@, k, k2);
                            lemma_prefix_len_bound(st@, k + k2);
                        }
                        ToolResult::Match { len: len + rlen }
                    },
                    ToolResult::NoMatch => ToolResult::NoMatch,
                }
            },
            ToolResult::NoMatch => ToolResult::NoMatch,
        }
    }
}

impl<A: ParseTool, B: ParseTool, C: ParseTool, D: ParseTool, E: ParseTool, F: ParseTool, G: ParseTool, H: ParseTool, I: ParseTool, J: ParseTool, K: ParseTool, L: ParseTool, M: ParseTool> ParseTool for Or<(A, B, C, D, E, F, G, H, I, J, K, L, M)> {
    open spec fn spec_parse(&self, st: Seq<char>) -> Option<nat> {
        match self.0.0.spec_parse(st) {
            Some(k) => Some(k),
            None => Or((self.0.1, self.0.2, self.0.3, self.0.4, self.0.5, self.0.6, self.0.7, self.0.8, self.0.9, self.0.10, self.0.11, self.0.12)).spec_parse(st),
        }
    }

    open spec fn can_parse(&self, st: Seq<char>) -> bool {
        self.0.0.can_parse(st) && (self.0.0.spec_parse(st) is None ==> Or((self.0.1, self.0.2, self.0.3, self.0.4, self.0.5, self.0.6, self.0.7, self.0.8, self.0.9, self.0.10, self.0.11, self.0.12)).can_parse(st))
    }

    fn parse(&self, st: &str) -> (r: ToolResult) {
        let (t0, t1, t2, t3, t4, t5, t6, t7, t8, t9, t10, t11, t12) = &self.0;
        match t0.parse(st) {
            ToolResult::Match { len } => ToolResult::Match { len },
            ToolResult::NoMatch => Or((t1, t2, t3, t4, t5, t6, t7, t8, t9, t10, t11, t12)).parse(st),
        }
    }
}

impl<A: ParseTool, B: ParseTool, C: ParseTool, D: ParseTool, E: ParseTool, F: ParseTool, G: ParseTool, H: ParseTool, I: ParseTool, J: ParseTool, K: ParseTool, L: ParseTool, M: ParseTool> ParseTool for SeqTool<(A, B, C, D, E, F, G, H, I, J, K, L, M)> {
    open spec fn spec_parse(&self, st: Seq<char>) -> Option<nat> {
        match self.0.0.spec_parse(st) {
            Some(k) => if k <= st.len() {
                match SeqTool((self.0.1, self.0.2, self.0.3, self.0.4, self.0.5, self.0.6, self.0.7, self.0.8, self.0.9, self.0.10, self.0.11, self.0.12)).spec_parse(st.skip(k as int)) {
                    Some(k2) => Some(k + k2),
                    None => None,
                }
            } else {
                None
            },
            None => None,
        }
    }

    open spec fn can_parse(&self, st: Seq<char>) -> bool {
        self.0.0.can_parse(st) && match self.0.0.spec_parse(st) {
            Some(k) => k <= st.len() ==> SeqTool((self.0.1, self.0.2, self.0.3, self.0.4, self.0.5, self.0.6, self.0.7, self.0.8, self.0.9, self.0.10, self.0.11, self.0.12)).can_parse(st.skip(k as int)),
            None => true,
        }
    }

    fn parse(&self, st: &str) -> (r: ToolResult) {
        let (t0, t1, t2, t3, t4, t5, t6, t7, t8, t9, t10, t11, t12) = &self.0;
        match t0.parse(st) {
            ToolResult::Match { len: rlen } => {
                let ghost k = self.0.0.spec_parse(st@)->Some_0;
                let rest = skip_chars(st, rlen, Ghost(k));
                match SeqTool((t1, t2, t3, t4, t5, t6, t7, t8, t9, t10, t11, t12)).parse(rest) {
                    ToolResult::Match { len } => {
                        let total = byte_len(st);
                        proof {
                            let k2 = SeqTool((self.0.1, self.0.2, self.0.3, self.0.4, self.0.5, self.0.6, self.0.7, self.0.8, self.0.9, self.0.10, self.0.11, self.0.12)).spec_parse(st@.skip(k as int))->Some_0;
                            lemma_prefix_len_add(st@, k, k2);
                            lemma_prefix_len_bound(st@, k + k2);
                        }
                        ToolResult::Match { len: len + rlen }
                    },
                    ToolResult::NoMatch => ToolResult::NoMatch,
                }
            },
            ToolResult::NoMatch => ToolResult::NoMatch,
        }
    }
}

impl<A: ParseTool, B: ParseTool, C: ParseTool, D: ParseTool, E: ParseTool, F: ParseTool, G: ParseTool, H: ParseTool, I: ParseTool, J: ParseTool, K: ParseTool, L: ParseTool, M: ParseTool, N: ParseTool> ParseTool for Or<(A, B, C, D, E, F, G, H, I, J, K, L, M, N)> {
    open spec fn spec_parse(&self, st: Seq<char>) -> Option<nat> {
        match self.0.0.spec_parse(st) {
            Some(k) => Some(k),
            None => Or((self.0.1, self.0.2, self.0.3, self.0.4, self.0.5, self.0.6, self.0.7, self.0.8, self.0.9, self.0.10, self.0.11, self.0.12, self.0.13)).spec_parse(st),
        }
    }

    open spec fn can_parse(&self, st: Seq<char>) -> bool {
        self.0.0.can_parse(st) && (self.0.0.spec_parse(st) is None ==> Or((self.0.1, self.0.2, self.0.3, self.0.4, self.0.5, self.0.6, self.0.7, self.0.8, self.0.9, self.0.10, self.0.11, self.0.12, self.0.13)).can_parse(st))
    }

    fn parse(&self, st: &str) -> (r: ToolResult) {
        let (t0, t1, t2, t3, t4, t5, t6, t7, t8, t9, t10, t11, t12, t13) = &self.0;
        match t0.parse(st) {
            ToolResult::Match { len } => ToolResult::Match { len },
            ToolResult::NoMatch => Or((t1, t2, t3, t4, t5, t6, t7, t8, t9, t10, t11, t12, t13)).parse(st),
        }
    }
}

impl<A: ParseTool, B: ParseTool, C: ParseTool, D: ParseTool, E: ParseTool, F: ParseTool, G: ParseTool, H: ParseTool, I: ParseTool, J: ParseTool, K: ParseTool, L: ParseTool, M: ParseTool, N: ParseTool> ParseTool for SeqTool<(A, B, C, D, E, F, G, H, I, J, K, L, M, N)> {
    open spec fn spec_parse(&self, st: Seq<char>) -> Option<nat> {
        match self.0.0.spec_parse(st) {
            Some(k) => if k <= st.len() {
                match SeqTool((self.0.1, self.0.2, self.0.3, self.0.4, self.0.5, self.0.6, self.0.7, self.0.8, self.0.9, self.0.10, self.0.11, self.0.12, self.0.13)).spec_parse(st.skip(k as int)) {
                    Some(k2) => Some(k + k2),
                    None => None,
                }
            } else {
                None
            },
            None => None,
        }
    }

    open spec fn can_parse(&self, st: Seq<char>) -> bool {
        self.0.0.can_parse(st) && match self.0.0.spec_parse(st) {
            Some(k) => k <= st.len() ==> SeqTool((self.0.1, self.0.2, self.0.3, self.0.4, self.0.5, self.0.6, self.0.7, self.0.8, self.0.9, self.0.10, self.0.11, self.0.12, self.0.13)).can_parse(st.skip(k as int)),
            None => true,
        }
    }

    fn parse(&self, st: &str) -> (r: ToolResult) {
        let (t0, t1, t2, t3, t4, t5, t6, t7, t8, t9, t10, t11, t12, t13) = &self.0;
        match t0.parse(st) {
            ToolResult::Match { len: rlen } => {
                let ghost k = self.0.0.spec_parse(st@)->Some_0;
                let rest = skip_chars(st, rlen, Ghost(k));
                match SeqTool((t1, t2, t3, t4, t5, t6, t7, t8, t9, t10, t11, t12, t13)).parse(rest) {
                    ToolResult::Match { len } => {
                        let total = byte_len(st);
                        proof {
                            let k2 = SeqTool((self.0.1, self.0.2, self.0.3, self.0.4, self.0.5, self.0.6, self.0.7, self.0.8, self.0.9, self.0.10, self.0.11, self.0.12, self.0.13)).spec_parse(st@.skip(k as int))->Some_0;
                            lemma_prefix_len_add(st@, k, k2);
                            lemma_prefix_len_bound(st@, k + k2);
                        }
                        ToolResult::Match { len: len + rlen }
                    },
                    ToolResult::NoMatch => ToolResult::NoMatch,
                }
            },
            ToolResult::NoMatch => ToolResult::NoMatch,
        }
    }
}

impl<A: ParseTool, B: ParseTool, C: ParseTool, D: ParseTool, E: ParseTool, F: ParseTool, G: ParseTool, H: ParseTool, I: ParseTool, J: ParseTool, K: ParseTool, L: ParseTool, M: ParseTool, N: ParseTool, O: ParseTool> ParseTool for Or<(A, B, C, D, E, F, G, H, I, J, K, L, M, N, O)> {
    open spec fn spec_parse(&self, st: Seq<char>) -> Option<nat> {
        match self.0.0.spec_parse(st) {
            Some(k) => Some(k),
            None => Or((self.0.1, self.0.2, self.0.3, self.0.4, self.0.5, self.0.6, self.0.7, self.0.8, self.0.9, self.0.10, self.0.11, self.0.12, self.0.13, self.0.14)).spec_parse(st),
        }
    }

    open spec fn can_parse(&self, st: Seq<char>) -> bool {
        self.0.0.can_parse(st) && (self.0.0.spec_parse(st) is None ==> Or((self.0.1, self.0.2, self.0.3, self.0.4, self.0.5, self.0.6, self.0.7, self.0.8, self.0.9, self.0.10, self.0.11, self.0.12, self.0.13, self.0.14)).can_parse(st))
    }

    fn parse(&self, st: &str) -> (r: ToolResult) {
        let (t0, t1, t2, t3, t4, t5, t6, t7, t8, t9, t10, t11, t12, t13, t14) = &self.0;
        match t0.parse(st) {
            ToolResult::Match { len } => ToolResult::Match { len },
            ToolResult::NoMatch => Or((t1, t2, t3, t4, t5, t6, t7, t8, t9, t10, t11, t12, t13, t14)).parse(st),
        }
    }
}

impl<A: ParseTool, B: ParseTool, C: ParseTool, D: ParseTool, E: ParseTool, F: ParseTool, G: ParseTool, H: ParseTool, I: ParseTool, J: ParseTool, K: ParseTool, L: ParseTool, M: ParseTool, N: ParseTool, O: ParseTool> ParseTool for SeqTool<(A, B, C, D, E, F, G, H, I, J, K, L, M, N, O)> {
    open spec fn spec_parse(&self, st: Seq<char>) -> Option<nat> {
        match self.0.0.spec_parse(st) {
            Some(k) => if k <= st.len() {
                match SeqTool((self.0.1, self.0.2, self.0.3, self.0.4, self.0.5, self.0.6, self.0.7, self.0.8, self.0.9, self.0.10, self.0.11, self.0.12, self.0.13, self.0.14)).spec_parse(st.skip(k as int)) {
                    Some(k2) => Some(k + k2),
                    None => None,
                }
            } else {
                None
            },
            None => None,
        }
    }

    open spec fn can_parse(&self, st: Seq<char>) -> bool {
        self.0.0.can_parse(st) && match self.0.0.spec_parse(st) {
            Some(k) => k <= st.len() ==> SeqTool((self.0.1, self.0.2, self.0.3, self.0.4, self.0.5, self.0.6, self.0.7, self.0.8, self.0.9, self.0.10, self.0.11, self.0.12, self.0.13, self.0.14)).can_parse(st.skip(k as int)),
            None => true,
        }
    }

    fn parse(&self, st: &str) -> (r: ToolResult) {
        let (t0, t1, t2, t3, t4, t5, t6, t7, t8, t9, t10, t11, t12, t13, t14) = &self.0;
        match t0.parse(st) {
            ToolResult::Match { len: rlen } => {
                let ghost k = self.0.0.spec_parse(st@)->Some_0;
                let rest = skip_chars(st, rlen, Ghost(k));
                match SeqTool((t1, t2, t3, t4, t5, t6, t7, t8, t9, t10, t11, t12, t13, t14)).parse(rest) {
                    ToolResult::Match { len } => {
                        let total = byte_len(st);
                        proof {
                            let k2 = SeqTool((self.0.1, self.0.2, self.0.3, self.0.4, self.0.5, self.0.6, self.0.7, self.0.8, self.0.9, self.0.10, self.0.11, self.0.12, self.0.13, self.0.14)).spec_parse(st@.skip(k as int))->Some_0;
                            lemma_prefix_len_add(st@, k, k2);
                            lemma_prefix_len_bound(st@, k + k2);
                        }
                        ToolResult::Match { len: len + rlen }
                    },
                    ToolResult::NoMatch => ToolResult::NoMatch,
                }
            },
            ToolResult::NoMatch => ToolResult::NoMatch,
        }
    }
}


/// A tool seen as an [`Atom`]: through it, tools share the repetition engine of atoms.
pub struct AsAtom<'t, T: ?Sized>(pub &'t T);

impl<'t, T: ParseTool + ?Sized> Atom for AsAtom<'t, T> {
    open spec fn spec_parse(&self, st: Seq<char>) -> Option<nat> {
        self.0.spec_parse(st)
    }

    open spec fn can_parse(&self, st: Seq<char>) -> bool {
        self.0.can_parse(st)
    }

    fn parse(&self, st: &str) -> (r: Option<Match>) {
        match self.0.parse(st) {
            ToolResult::Match { len } => Some(Match { len }),
            ToolResult::NoMatch => None,
        }
    }
}

/// The upper bound `max` is strictly lesser than the lower bound `min`, so that no number of
/// repetitions is allowed.
pub open spec fn max_below_min(min: usize, max: Option<usize>) -> bool {
    match max {
        Some(m) => m < min,
        None => false,
    }
}

/// Tool that matches repetitions with separator requiring a minimum number of repetitions.
///
/// What it matches is given by [`repeat_spec`] on the tool and the separator: greedy
/// repetitions, at least `min` (else no match) and at most `max`. No match is possible when
/// `max` is below `min`.
#[derive(Debug, Clone, Copy)]
pub struct RepeatTool<T, SEP> {
    tool: T,
    sep: SEP,
    min: usize,
    max: Option<usize>,
}

impl<T, SEP> RepeatTool<T, SEP> {
    /// The repeated tool.
    pub closed spec fn tool(self) -> T {
        self.tool
    }

    /// The separator between two repetitions.
    pub closed spec fn sep(self) -> SEP {
        self.sep
    }

    /// The minimum number of repetitions.
    pub closed spec fn min(self) -> usize {
        self.min
    }

    /// The maximum number of repetitions, if any.
    pub closed spec fn max(self) -> Option<usize> {
        self.max
    }

    /// Create a new [`RepeatTool`] with specified separator.
    pub fn new_sep(tool: T, sep: SEP, min: usize, max: Option<usize>) -> (r: Self)
        ensures
            r.tool() == tool,
            r.sep() == sep,
            r.min() == min,
            r.max() == max,
    {
        Self { tool, sep, min, max }
    }

    /// Create a new [`RepeatTool`] with specified separator and upper bound.
    pub fn new_sep_bounds(tool: T, sep: SEP, min: usize, max: usize) -> (r: Self)
        ensures
            r.tool() == tool,
            r.sep() == sep,
            r.min() == min,
            r.max() == Some(max),
    {
        Self::new_sep(tool, sep, min, Some(max))
    }

    /// Create a new [`RepeatTool`] with specified separator without upper bound.
    pub fn new_sep_unbounded(tool: T, sep: SEP, min: usize) -> (r: Self)
        ensures
            r.tool() == tool,
            r.sep() == sep,
            r.min() == min,
            r.max() == None::<usize>,
    {
        Self::new_sep(tool, sep, min, None)
    }

    /// Create a new [`RepeatTool`] that matches at least one occurrence.
    pub fn new_any_one(tool: T, sep: SEP) -> (r: Self)
        ensures
            r.tool() == tool,
            r.sep() == sep,
            r.min() == 1,
            r.max() == None::<usize>,
    {
        Self::new_sep(tool, sep, 1, None)
    }
}

impl<T> RepeatTool<T, TrueParser> {
    /// Create a new [`RepeatTool`] without separators.
    ///
    /// `max`, when given, may not be strictly lesser than `min`.
    pub fn new(tool: T, min: usize, max: Option<usize>) -> (r: Self)
        requires
            !max_below_min(min, max),
        ensures
            r.tool() == tool,
            r.sep() == TrueParser,
            r.min() == min,
            r.max() == max,
    {
        Self { tool, sep: TrueParser, min, max }
    }

    /// Create a new [`RepeatTool`] with specified upper bound.
    pub fn new_bounds(tool: T, min: usize, max: usize) -> (r: Self)
        requires
            min <= max,
        ensures
            r.tool() == tool,
            r.sep() == TrueParser,
            r.min() == min,
            r.max() == Some(max),
    {
        Self::new(tool, min, Some(max))
    }

    /// Create a new [`RepeatTool`] without upper bound.
    pub fn new_unbounded(tool: T, min: usize) -> (r: Self)
        ensures
            r.tool() == tool,
            r.sep() == TrueParser,
            r.min() == min,
            r.max() == None::<usize>,
    {
        Self::new(tool, min, None)
    }
}

impl<T: ParseTool, SEP: ParseTool> ParseTool for RepeatTool<T, SEP> {
    open spec fn spec_parse(&self, st: Seq<char>) -> Option<nat> {
        if max_below_min(self.min(), self.max()) {
            None
        } else {
            repeat_spec(AsAtom(&self.tool()), AsAtom(&self.sep()), self.min(), self.max(), st)
        }
    }

    open spec fn can_parse(&self, st: Seq<char>) -> bool {
        max_below_min(self.min(), self.max())
            || repeat_can(AsAtom(&self.tool()), AsAtom(&self.sep()), self.min(), self.max(), st)
    }

    fn parse(&self, st: &str) -> (r: ToolResult) {
        if let Some(m) = self.max {
            if m < self.min {
                return ToolResult::NoMatch;
            }
        }
        match repeat_parse(&AsAtom(&self.tool), &AsAtom(&self.sep), self.min, self.max, st, &mut Vec::new()) {
            Some(m) => ToolResult::Match { len: m.len },
            None => ToolResult::NoMatch,
        }
    }
}

/// Tool that matches repetitions lazily.
///
/// It matches the least number of `T` tool (separated by `SEP`) which are followed by `TERM`
/// tool, as [`lazy_split`] gives it. The difference with respect to a [`RepeatTool`] followed by
/// `TERM` is that here repetitions are evaluated lazily: it interrupts at the first match of
/// `TERM`, whereas `RepeatTool` evaluates repetitions eagerly and so `TERM` is matched only
/// after the repetition ends.
#[derive(Copy, Clone, Debug)]
pub struct LazyRepeatTool<T, SEP, TERM> {
    tool: T,
    sep: SEP,
    term: TERM,
    min: usize,
    max: Option<usize>,
}

/// Unit struct for [`LazyRepeatTool`] in order to return a matching string without `TERM`.
#[derive(Copy, Clone, Debug, Default)]
pub struct LazyNoTerm;

impl<T, SEP, TERM> LazyRepeatTool<T, SEP, TERM> {
    /// The repeated tool.
    pub closed spec fn tool(self) -> T {
        self.tool
    }

    /// The separator between two repetitions.
    pub closed spec fn sep(self) -> SEP {
        self.sep
    }

    /// The tool that ends the repetitions.
    pub closed spec fn term(self) -> TERM {
        self.term
    }

    /// The minimum number of repetitions.
    pub closed spec fn min(self) -> usize {
        self.min
    }

    /// The maximum number of repetitions, if any.
    pub closed spec fn max(self) -> Option<usize> {
        self.max
    }

    /// Create a new `LazyRepeatTool`.
    ///
    /// `max`, when given, may not be strictly lesser than `min`.
    pub fn new(tool: T, sep: SEP, term: TERM, min: usize, max: Option<usize>) -> (r: Self)
        requires
            !max_below_min(min, max),
        ensures
            r.tool() == tool,
            r.sep() == sep,
            r.term() == term,
            r.min() == min,
            r.max() == max,
    {
        Self { tool, sep, term, min, max }
    }

    /// Create a new `LazyRepeatTool` with specified upper bound.
    pub fn new_bounds(tool: T, sep: SEP, term: TERM, min: usize, max: usize) -> (r: Self)
        requires
            min <= max,
        ensures
            r.tool() == tool,
            r.sep() == sep,
            r.term() == term,
            r.min() == min,
            r.max() == Some(max),
    {
        Self::new(tool, sep, term, min, Some(max))
    }

    /// Create a new `LazyRepeatTool` without upper bound.
    pub fn new_unbounded(tool: T, sep: SEP, term: TERM, min: usize) -> (r: Self)
        ensures
            r.tool() == tool,
            r.sep() == sep,
            r.term() == term,
            r.min() == min,
            r.max() == None::<usize>,
    {
        Self::new(tool, sep, term, min, None)
    }
}

impl<'a, T: ParseTool, SEP: ParseTool, TERM: ParseTool> ParseToolData<'a, LazyNoTerm> for LazyRepeatTool<T, SEP, TERM> {
    type Data = &'a str;

    open spec fn spec_parse_data(&self, st: Seq<char>, par: LazyNoTerm) -> Option<(nat, Seq<char>)> {
        if max_below_min(self.min(), self.max()) {
            None
        } else {
            match lazy_split(AsAtom(&self.tool()), AsAtom(&self.sep()), AsAtom(&self.term()), self.min(), self.max(), st) {
                Some((b, t)) => Some((b + t, st.take(b as int))),
                None => None,
            }
        }
    }

    open spec fn can_parse_data(&self, st: Seq<char>, par: LazyNoTerm) -> bool {
        max_below_min(self.min(), self.max())
            || lazy_can(AsAtom(&self.tool()), AsAtom(&self.sep()), AsAtom(&self.term()), self.min(), self.max(), st)
    }

    fn parse(&self, st: &'a str, par: LazyNoTerm) -> (r: ToolResultData<&'a str>) {
        if let Some(m) = self.max {
            if m < self.min {
                return ToolResultData::NoMatch;
            }
        }
        match lazy_parse_split(&AsAtom(&self.tool), &AsAtom(&self.sep), &AsAtom(&self.term), self.min, self.max, st, &mut Vec::new()) {
            Some((blen, len)) => {
                let ghost b = lazy_split(AsAtom(&self.tool), AsAtom(&self.sep), AsAtom(&self.term), self.min, self.max, st@)->Some_0.0;
                let ghost t = lazy_split(AsAtom(&self.tool), AsAtom(&self.sep), AsAtom(&self.term), self.min, self.max, st@)->Some_0.1;
                proof {
                    lemma_prefix_len_add(st@, b, t);
                }
                let data = take_chars(st, blen, Ghost(b));
                ToolResultData::Match { len, data }
            },
            None => ToolResultData::NoMatch,
        }
    }
}

impl<T: ParseTool, SEP: ParseTool, TERM: ParseTool> ParseTool for LazyRepeatTool<T, SEP, TERM> {
    open spec fn spec_parse(&self, st: Seq<char>) -> Option<nat> {
        match self.spec_parse_data(st, LazyNoTerm) {
            Some((k, _)) => Some(k),
            None => None,
        }
    }

    open spec fn can_parse(&self, st: Seq<char>) -> bool {
        self.can_parse_data(st, LazyNoTerm)
    }

    fn parse(&self, st: &str) -> (r: ToolResult) {
        ParseToolData::parse(self, st, LazyNoTerm).drop_data()
    }
}

/// Get matched character in [`PredicateTool`] and [`PredicateRefTool`].
pub struct GetChar;

/// Transform the matched character in [`PredicateTool`] and [`PredicateRefTool`].
pub struct Transform<F>(pub F);

/// The function `f` can be called on every character and the view of its result depends only
/// on the character.
pub open spec fn transform_ok<D: View, F: Fn(char) -> D>(f: F) -> bool {
    &&& forall|c: char| call_requires(f, (c,))
    &&& forall|c: char, d1: D, d2: D|
        call_ensures(f, (c,), d1) && call_ensures(f, (c,), d2) ==> d1@ == d2@
}

/// The view of the value of `f` on `c`.
pub open spec fn transformed<D: View, F: Fn(char) -> D>(f: F, c: char) -> D::V {
    (choose|d: D| call_ensures(f, (c,), d))@
}

/// Tool that matches characters which satisfies the provided predicate.
///
/// See also [`PredicateRefTool`].
#[derive(Debug, Clone, Copy)]
pub struct PredicateTool<P> {
    predicate: P,
}

impl<P: Fn(char) -> bool> PredicateTool<P> {
    /// The predicate tested by this tool.
    pub closed spec fn pred(self) -> P {
        self.predicate
    }

    /// Create a new [`PredicateTool`] from a predicate.
    pub fn new(predicate: P) -> (r: Self)
        ensures
            r.pred() == predicate,
    {
        Self { predicate }
    }

    /// Creates a tool that matches zero or more occurrences of characters that satisfy the
    /// specified predicate.
    pub fn new_zero_or_more(predicate: P) -> (r: RepeatTool<Self, TrueParser>)
        ensures
            r.tool().pred() == predicate,
            r.sep() == TrueParser,
            r.min() == 0,
            r.max() == None::<usize>,
    {
        RepeatTool::new_unbounded(Self::new(predicate), 0)
    }

    /// Creates a tool that matches one or more occurrences of characters that satisfy the
    /// specified predicate.
    pub fn new_one_or_more(predicate: P) -> (r: RepeatTool<Self, TrueParser>)
        ensures
            r.tool().pred() == predicate,
            r.sep() == TrueParser,
            r.min() == 1,
            r.max() == None::<usize>,
    {
        RepeatTool::new_unbounded(Self::new(predicate), 1)
    }
}

impl<P: Fn(char) -> bool> ParseTool for PredicateTool<P> {
    open spec fn spec_parse(&self, st: Seq<char>) -> Option<nat> {
        if st.len() > 0 && char_pred(self.pred(), st[0]) {
            Some(1)
        } else {
            None
        }
    }

    open spec fn can_parse(&self, st: Seq<char>) -> bool {
        char_pred_ok(self.pred())
    }

    fn parse(&self, st: &str) -> (r: ToolResult) {
        match first_char(st) {
            Some(c) => {
                if (self.predicate)(c) {
                    proof {
                        lemma_prefix_len_one(st@);
                    }
                    ToolResult::Match { len: char_len(c) }
                } else {
                    ToolResult::NoMatch
                }
            },
            None => ToolResult::NoMatch,
        }
    }
}

impl<'a, P: Fn(char) -> bool> ParseToolData<'a, GetChar> for PredicateTool<P> {
    type Data = char;

    open spec fn spec_parse_data(&self, st: Seq<char>, par: GetChar) -> Option<(nat, char)> {
        if st.len() > 0 && char_pred(self.pred(), st[0]) {
            Some((1, st[0]))
        } else {
            None
        }
    }

    open spec fn can_parse_data(&self, st: Seq<char>, par: GetChar) -> bool {
        char_pred_ok(self.pred())
    }

    fn parse(&self, st: &'a str, par: GetChar) -> (r: ToolResultData<char>) {
        match first_char(st) {
            Some(c) => {
                if (self.predicate)(c) {
                    proof {
                        lemma_prefix_len_one(st@);
                    }
                    ToolResultData::Match { len: char_len(c), data: c }
                } else {
                    ToolResultData::NoMatch
                }
            },
            None => ToolResultData::NoMatch,
        }
    }
}

impl<'a, P: Fn(char) -> bool, D: View, F: Fn(char) -> D> ParseToolData<'a, Transform<F>> for PredicateTool<P> {
    type Data = D;

    open spec fn spec_parse_data(&self, st: Seq<char>, par: Transform<F>) -> Option<(nat, D::V)> {
        if st.len() > 0 && char_pred(self.pred(), st[0]) {
            Some((1, transformed(par.0, st[0])))
        } else {
            None
        }
    }

    open spec fn can_parse_data(&self, st: Seq<char>, par: Transform<F>) -> bool {
        char_pred_ok(self.pred()) && transform_ok(par.0)
    }

    fn parse(&self, st: &'a str, par: Transform<F>) -> (r: ToolResultData<D>) {
        match first_char(st) {
            Some(c) => {
                if (self.predicate)(c) {
                    proof {
                        lemma_prefix_len_one(st@);
                    }
                    let data = (par.0)(c);
                    ToolResultData::Match { len: char_len(c), data }
                } else {
                    ToolResultData::NoMatch
                }
            },
            None => ToolResultData::NoMatch,
        }
    }
}

/// Tool that matches characters which satisfies the provided ref predicate.
///
/// See also [`PredicateTool`].
#[derive(Debug, Clone, Copy)]
pub struct PredicateRefTool<P> {
    predicate: P,
}

impl<P: Fn(&char) -> bool> PredicateRefTool<P> {
    /// The predicate tested by this tool.
    pub closed spec fn pred(self) -> P {
        self.predicate
    }

    /// Create a new [`PredicateRefTool`] from a predicate.
    pub fn new(predicate: P) -> (r: Self)
        ensures
            r.pred() == predicate,
    {
        Self { predicate }
    }

    /// Creates a tool that matches zero or more occurrences of characters that satisfy the
    /// specified predicate.
    pub fn new_zero_or_more(predicate: P) -> (r: RepeatTool<Self, TrueParser>)
        ensures
            r.tool().pred() == predicate,
            r.sep() == TrueParser,
            r.min() == 0,
            r.max() == None::<usize>,
    {
        RepeatTool::new_unbounded(Self::new(predicate), 0)
    }

    /// Creates a tool that matches one or more occurrences of characters that satisfy the
    /// specified predicate.
    pub fn new_one_or_more(predicate: P) -> (r: RepeatTool<Self, TrueParser>)
        ensures
            r.tool().pred() == predicate,
            r.sep() == TrueParser,
            r.min() == 1,
            r.max() == None::<usize>,
    {
        RepeatTool::new_unbounded(Self::new(predicate), 1)
    }
}

impl<P: Fn(&char) -> bool> ParseTool for PredicateRefTool<P> {
    open spec fn spec_parse(&self, st: Seq<char>) -> Option<nat> {
        if st.len() > 0 && ref_pred(self.pred(), st[0]) {
            Some(1)
        } else {
            None
        }
    }

    open spec fn can_parse(&self, st: Seq<char>) -> bool {
        ref_pred_ok(self.pred())
    }

    fn parse(&self, st: &str) -> (r: ToolResult) {
        match first_char(st) {
            Some(c) => {
                if (self.predicate)(&c) {
                    proof {
                        lemma_prefix_len_one(st@);
                    }
                    ToolResult::Match { len: char_len(c) }
                } else {
                    ToolResult::NoMatch
                }
            },
            None => ToolResult::NoMatch,
        }
    }
}

impl<'a, P: Fn(&char) -> bool> ParseToolData<'a, GetChar> for PredicateRefTool<P> {
    type Data = char;

    open spec fn spec_parse_data(&self, st: Seq<char>, par: GetChar) -> Option<(nat, char)> {
        if st.len() > 0 && ref_pred(self.pred(), st[0]) {
            Some((1, st[0]))
        } else {
            None
        }
    }

    open spec fn can_parse_data(&self, st: Seq<char>, par: GetChar) -> bool {
        ref_pred_ok(self.pred())
    }

    fn parse(&self, st: &'a str, par: GetChar) -> (r: ToolResultData<char>) {
        match first_char(st) {
            Some(c) => {
                if (self.predicate)(&c) {
                    proof {
                        lemma_prefix_len_one(st@);
                    }
                    ToolResultData::Match { len: char_len(c), data: c }
                } else {
                    ToolResultData::NoMatch
                }
            },
            None => ToolResultData::NoMatch,
        }
    }
}

impl<'a, P: Fn(&char) -> bool, D: View, F: Fn(char) -> D> ParseToolData<'a, Transform<F>> for PredicateRefTool<P> {
    type Data = D;

    open spec fn spec_parse_data(&self, st: Seq<char>, par: Transform<F>) -> Option<(nat, D::V)> {
        if st.len() > 0 && ref_pred(self.pred(), st[0]) {
            Some((1, transformed(par.0, st[0])))
        } else {
            None
        }
    }

    open spec fn can_parse_data(&self, st: Seq<char>, par: Transform<F>) -> bool {
        ref_pred_ok(self.pred()) && transform_ok(par.0)
    }

    fn parse(&self, st: &'a str, par: Transform<F>) -> (r: ToolResultData<D>) {
        match first_char(st) {
            Some(c) => {
                if (self.predicate)(&c) {
                    proof {
                        lemma_prefix_len_one(st@);
                    }
                    let data = (par.0)(c);
                    ToolResultData::Match { len: char_len(c), data }
                } else {
                    ToolResultData::NoMatch
                }
            },
            None => ToolResultData::NoMatch,
        }
    }
}

/// `out` is what [`ToolResult::map`] gives on `r` with `f`: the length that `f` gives from the
/// length of a match.
pub open spec fn mapped<F: FnOnce(usize) -> usize>(r: ToolResult, f: F, out: ToolResult) -> bool {
    match r {
        ToolResult::Match { len } => out matches ToolResult::Match { len: l } && call_ensures(f, (len,), l),
        ToolResult::NoMatch => out is NoMatch,
    }
}

/// `out` is what [`ToolResult::map_data`] gives on `r` with `f`: the length and the data that `f`
/// gives from the length of a match.
pub open spec fn mapped_data<D, F: FnOnce(usize) -> (usize, D)>(r: ToolResult, f: F, out: ToolResultData<D>) -> bool {
    match r {
        ToolResult::Match { len } => out matches ToolResultData::Match { len: l, data } && call_ensures(f, (len,), (l, data)),
        ToolResult::NoMatch => out is NoMatch,
    }
}

/// `out` is what [`ToolResult::and_then`] gives on `r` with `f`: the result of `f` on the length
/// of a match.
pub open spec fn chained<F: FnOnce(usize) -> ToolResult>(r: ToolResult, f: F, out: ToolResult) -> bool {
    match r {
        ToolResult::Match { len } => call_ensures(f, (len,), out),
        ToolResult::NoMatch => out is NoMatch,
    }
}

/// `out` is what [`ToolResult::or_else`] gives on `r` with `f`: the result of `f` on a missed
/// match.
pub open spec fn recovered<F: FnOnce() -> ToolResult>(r: ToolResult, f: F, out: ToolResult) -> bool {
    match r {
        ToolResult::Match { len } => out == (ToolResult::Match { len }),
        ToolResult::NoMatch => call_ensures(f, (), out),
    }
}

/// What [`ToolResultData::drop_data`] gives: the result without its data.
pub open spec fn dropped<D>(r: ToolResultData<D>) -> ToolResult {
    match r {
        ToolResultData::Match { len, .. } => ToolResult::Match { len },
        ToolResultData::NoMatch => ToolResult::NoMatch,
    }
}

impl ToolResult {
    /// Apply `f` to a successful match.
    pub fn map<F: FnOnce(usize) -> usize>(self, f: F) -> (r: Self)
        requires
            self matches ToolResult::Match { len } ==> call_requires(f, (len,)),
        ensures
            mapped(self, f, r),
    {
        match self {
            ToolResult::Match { len } => ToolResult::Match { len: f(len) },
            ToolResult::NoMatch => ToolResult::NoMatch,
        }
    }

    /// Apply `f` to a successful match and generate data.
    pub fn map_data<D, F: FnOnce(usize) -> (usize, D)>(self, f: F) -> (r: ToolResultData<D>)
        requires
            self matches ToolResult::Match { len } ==> call_requires(f, (len,)),
        ensures
            mapped_data(self, f, r),
    {
        match self {
            ToolResult::Match { len: i } => {
                let (len, data) = f(i);
                ToolResultData::Match { len, data }
            },
            ToolResult::NoMatch => ToolResultData::NoMatch,
        }
    }

    /// Call `f` if the match is successful, otherwise return `NoMatch`.
    pub fn and_then<F: FnOnce(usize) -> Self>(self, f: F) -> (r: Self)
        requires
            self matches ToolResult::Match { len } ==> call_requires(f, (len,)),
        ensures
            chained(self, f, r),
    {
        match self {
            ToolResult::Match { len } => f(len),
            ToolResult::NoMatch => ToolResult::NoMatch,
        }
    }

    /// Call `f` if the match is not successful, otherwise return the `Match` variant of `self`.
    pub fn or_else<F: FnOnce() -> Self>(self, f: F) -> (r: Self)
        requires
            self is NoMatch ==> call_requires(f, ()),
        ensures
            recovered(self, f, r),
    {
        match self {
            ToolResult::Match { len } => ToolResult::Match { len },
            ToolResult::NoMatch => f(),
        }
    }
}

impl<D> ToolResultData<D> {
    /// Drops the data field.
    pub fn drop_data(self) -> (r: ToolResult)
        ensures
            r == dropped(self),
    {
        match self {
            ToolResultData::Match { len, .. } => ToolResult::Match { len },
            ToolResultData::NoMatch => ToolResult::NoMatch,
        }
    }
}

/// [`CheckTool`] matches exactly where its tool matches, and never progresses.
pub proof fn law_check_tool<T: ParseTool>(t: T, st: Seq<char>)
    ensures
        CheckTool(t).spec_parse(st) is Some <==> t.spec_parse(st) is Some,
        CheckTool(t).spec_parse(st) matches Some(k) ==> k == 0,
{
}

/// [`CheckInvTool`] matches exactly where its tool misses, and never progresses.
pub proof fn law_check_inv_tool<T: ParseTool>(t: T, st: Seq<char>)
    ensures
        CheckInvTool(t).spec_parse(st) is Some <==> t.spec_parse(st) is None,
        CheckInvTool(t).spec_parse(st) matches Some(k) ==> k == 0,
{
}

/// Ordering matters in [`Or`]: if the first tool matches, its match is the result, and the
/// second tool is tried only where the first misses.
pub proof fn law_or_first_wins<A: ParseTool, B: ParseTool>(a: A, b: B, st: Seq<char>)
    ensures
        a.spec_parse(st) is Some ==> Or((a, b)).spec_parse(st) == a.spec_parse(st),
        a.spec_parse(st) is None ==> Or((a, b)).spec_parse(st) == b.spec_parse(st),
{
}

/// [`Or`] is associative: three tools in one tuple match as the first one followed by the other
/// two nested, and as the first two nested followed by the third.
pub proof fn law_or_associative<A: ParseTool, B: ParseTool, C: ParseTool>(a: A, b: B, c: C, st: Seq<char>)
    ensures
        Or((a, b, c)).spec_parse(st) == Or((a, Or((b, c)))).spec_parse(st),
        Or((a, b, c)).spec_parse(st) == Or((Or((a, b)), c)).spec_parse(st),
{
}

/// [`SeqTool`] is associative: three tools in one tuple match as the first one followed by the
/// other two nested, and as the first two nested followed by the third.
pub proof fn law_seq_tool_associative<A: ParseTool, B: ParseTool, C: ParseTool>(a: A, b: B, c: C, st: Seq<char>)
    ensures
        SeqTool((a, b, c)).spec_parse(st) == SeqTool((a, SeqTool((b, c)))).spec_parse(st),
        SeqTool((a, b, c)).spec_parse(st) == SeqTool((SeqTool((a, b)), c)).spec_parse(st),
{
    match a.spec_parse(st) {
        Some(k1) => {
            if k1 <= st.len() {
                let s1 = st.skip(k1 as int);
                match b.spec_parse(s1) {
                    Some(k2) => {
                        if k2 <= s1.len() {
                            crate::text::lemma_skip_skip(st, k1, k2);
                        }
                    },
                    None => {},
                }
            }
        },
        None => {},
    }
}

/// A [`RepeatTool`] whose maximum is below its minimum never matches.
pub proof fn law_repeat_max_below_min<T: ParseTool, SEP: ParseTool>(r: RepeatTool<T, SEP>, st: Seq<char>)
    requires
        max_below_min(r.min(), r.max()),
    ensures
        r.spec_parse(st) is None,
{
}

/// A [`RepeatTool`] without a minimum number of repetitions always matches.
pub proof fn law_repeat_without_min_matches<T: ParseTool, SEP: ParseTool>(r: RepeatTool<T, SEP>, st: Seq<char>)
    requires
        r.min() == 0,
    ensures
        r.spec_parse(st) is Some,
{
}

/// A [`LazyRepeatTool`] without a minimum number of repetitions stops at the first match of its
/// terminator: where the terminator matches at once, the match is the terminator's and carries
/// no repeated text.
pub proof fn law_lazy_stops_at_term<'a, T: ParseTool, SEP: ParseTool, TERM: ParseTool>(l: LazyRepeatTool<T, SEP, TERM>, st: Seq<char>)
    requires
        l.min() == 0,
        l.term().spec_parse(st) is Some,
    ensures
        ParseToolData::<'a, LazyNoTerm>::spec_parse_data(&l, st, LazyNoTerm)
            == Some((l.term().spec_parse(st)->Some_0, Seq::<char>::empty())),
{
    assert(st.take(0) =~= Seq::<char>::empty());
}

/// A maximum is an upper bound on the repetitions: with no minimum and a maximum of zero, a
/// [`RepeatTool`] matches the empty prefix only, and a [`LazyRepeatTool`] matches exactly where
/// its terminator matches, with no repeated text.
pub proof fn law_zero_max_repeats_nothing<'a, T: ParseTool, SEP: ParseTool, TERM: ParseTool>(r: RepeatTool<T, SEP>, l: LazyRepeatTool<T, SEP, TERM>, st: Seq<char>)
    requires
        r.min() == 0,
        r.max() == Some(0usize),
        l.min() == 0,
        l.max() == Some(0usize),
    ensures
        r.spec_parse(st) == Some(0nat),
        l.term().spec_parse(st) is Some ==> ParseToolData::<'a, LazyNoTerm>::spec_parse_data(&l, st, LazyNoTerm)
            == Some((l.term().spec_parse(st)->Some_0, Seq::<char>::empty())),
        l.term().spec_parse(st) is None ==> ParseToolData::<'a, LazyNoTerm>::spec_parse_data(&l, st, LazyNoTerm) is None,
{
    assert(st.take(0) =~= Seq::<char>::empty());
}

/// [`ToolResult::map`] with a function that gives back its argument keeps the result.
pub proof fn law_map_identity<F: FnOnce(usize) -> usize>(r: ToolResult, f: F, out: ToolResult)
    requires
        mapped(r, f, out),
        forall|l: usize, l2: usize| call_ensures(f, (l,), l2) ==> l2 == l,
    ensures
        out == r,
{
}

/// Two [`ToolResult::map`] in a row give what one map gives with their composition `h`, when `h`
/// answers as a function.
pub proof fn law_map_compose<F: FnOnce(usize) -> usize, G: FnOnce(usize) -> usize, H: FnOnce(usize) -> usize>(
    r: ToolResult,
    f: F,
    g: G,
    h: H,
    mid: ToolResult,
    out: ToolResult,
    once: ToolResult,
)
    requires
        mapped(r, f, mid),
        mapped(mid, g, out),
        mapped(r, h, once),
        forall|l: usize, l1: usize, l2: usize| call_ensures(f, (l,), l1) && call_ensures(g, (l1,), l2) ==> call_ensures(h, (l,), l2),
        forall|l: usize, a: usize, b: usize| call_ensures(h, (l,), a) && call_ensures(h, (l,), b) ==> a == b,
    ensures
        out == once,
{
}

/// [`ToolResult::and_then`] with a function that matches the length it is given keeps the
/// result.
pub proof fn law_and_then_identity<F: FnOnce(usize) -> ToolResult>(r: ToolResult, f: F, out: ToolResult)
    requires
        chained(r, f, out),
        forall|l: usize, o: ToolResult| call_ensures(f, (l,), o) ==> o == (ToolResult::Match { len: l }),
    ensures
        out == r,
{
}

/// [`ToolResult::or_else`] with a function that misses keeps the result.
pub proof fn law_or_else_identity<F: FnOnce() -> ToolResult>(r: ToolResult, f: F, out: ToolResult)
    requires
        recovered(r, f, out),
        forall|o: ToolResult| call_ensures(f, (), o) ==> o is NoMatch,
    ensures
        out == r,
{
}

/// [`ToolResultData::drop_data`] undoes [`ToolResult::map_data`] with a function that keeps the
/// length.
pub proof fn law_drop_data_undoes_map_data<D, F: FnOnce(usize) -> (usize, D)>(r: ToolResult, f: F, out: ToolResultData<D>)
    requires
        mapped_data(r, f, out),
        forall|l: usize, p: (usize, D)| call_ensures(f, (l,), p) ==> p.0 == l,
    ensures
        dropped(out) == r,
{
}

/// A [`PredicateTool`] matches exactly one character, the first one, where its predicate answers
/// `true` on it, and misses where it answers `false` or the input is empty.
pub proof fn law_predicate_tool<P: Fn(char) -> bool>(t: PredicateTool<P>, st: Seq<char>)
    requires
        char_pred_ok(t.pred()),
    ensures
        st.len() > 0 && call_ensures(t.pred(), (st[0],), true) ==> t.spec_parse(st) == Some(1nat),
        st.len() > 0 && call_ensures(t.pred(), (st[0],), false) ==> t.spec_parse(st) is None,
        st.len() == 0 ==> t.spec_parse(st) is None,
{
}

/// A [`PredicateRefTool`] matches exactly one character, the first one, where its predicate
/// answers `true` on it, and misses where it answers `false` or the input is empty.
pub proof fn law_predicate_ref_tool<P: Fn(&char) -> bool>(t: PredicateRefTool<P>, st: Seq<char>)
    requires
        ref_pred_ok(t.pred()),
    ensures
        st.len() > 0 && call_ensures(t.pred(), (&st[0],), true) ==> t.spec_parse(st) == Some(1nat),
        st.len() > 0 && call_ensures(t.pred(), (&st[0],), false) ==> t.spec_parse(st) is None,
        st.len() == 0 ==> t.spec_parse(st) is None,
{
}

/// [`SeqTool`] on two tools matches the first one and then the second one on what follows, with
/// the sum of their lengths, and misses where either misses.
pub proof fn law_seq_tool_pair<A: ParseTool, B: ParseTool>(a: A, b: B, st: Seq<char>)
    ensures
        match a.spec_parse(st) {
            Some(k) => k <= st.len() ==> SeqTool((a, b)).spec_parse(st) == match b.spec_parse(st.skip(k as int)) {
                Some(k2) => Some(k + k2),
                None => None,
            },
            None => SeqTool((a, b)).spec_parse(st) is None,
        },
{
}

/// [`Or`] on a tuple of any size tries its first tool and, where it misses, the rest of the tuple:
/// it matches as the first tool followed by the rest nested, so that the first tool that matches
/// gives the match, and the tuple misses only where every tool misses.
pub proof fn law_or_tuples<T0: ParseTool, T1: ParseTool, T2: ParseTool, T3: ParseTool, T4: ParseTool, T5: ParseTool, T6: ParseTool, T7: ParseTool, T8: ParseTool, T9: ParseTool, T10: ParseTool, T11: ParseTool, T12: ParseTool, T13: ParseTool, T14: ParseTool>(t0: T0, t1: T1, t2: T2, t3: T3, t4: T4, t5: T5, t6: T6, t7: T7, t8: T8, t9: T9, t10: T10, t11: T11, t12: T12, t13: T13, t14: T14, st: Seq<char>)
    ensures
        Or((t0, t1, t2, t3)).spec_parse(st) == Or((t0, Or((t1, t2, t3)))).spec_parse(st),
        Or((t0, t1, t2, t3, t4)).spec_parse(st) == Or((t0, Or((t1, t2, t3, t4)))).spec_parse(st),
        Or((t0, t1, t2, t3, t4, t5)).spec_parse(st) == Or((t0, Or((t1, t2, t3, t4, t5)))).spec_parse(st),
        Or((t0, t1, t2, t3, t4, t5, t6)).spec_parse(st) == Or((t0, Or((t1, t2, t3, t4, t5, t6)))).spec_parse(st),
        Or((t0, t1, t2, t3, t4, t5, t6, t7)).spec_parse(st) == Or((t0, Or((t1, t2, t3, t4, t5, t6, t7)))).spec_parse(st),
        Or((t0, t1, t2, t3, t4, t5, t6, t7, t8)).spec_parse(st) == Or((t0, Or((t1, t2, t3, t4, t5, t6, t7, t8)))).spec_parse(st),
        Or((t0, t1, t2, t3, t4, t5, t6, t7, t8, t9)).spec_parse(st) == Or((t0, Or((t1, t2, t3, t4, t5, t6, t7, t8, t9)))).spec_parse(st),
        Or((t0, t1, t2, t3, t4, t5, t6, t7, t8, t9, t10)).spec_parse(st) == Or((t0, Or((t1, t2, t3, t4, t5, t6, t7, t8, t9, t10)))).spec_parse(st),
        Or((t0, t1, t2, t3, t4, t5, t6, t7, t8, t9, t10, t11)).spec_parse(st) == Or((t0, Or((t1, t2, t3, t4, t5, t6, t7, t8, t9, t10, t11)))).spec_parse(st),
        Or((t0, t1, t2, t3, t4, t5, t6, t7, t8, t9, t10, t11, t12)).spec_parse(st) == Or((t0, Or((t1, t2, t3, t4, t5, t6, t7, t8, t9, t10, t11, t12)))).spec_parse(st),
        Or((t0, t1, t2, t3, t4, t5, t6, t7, t8, t9, t10, t11, t12, t13)).spec_parse(st) == Or((t0, Or((t1, t2, t3, t4, t5, t6, t7, t8, t9, t10, t11, t12, t13)))).spec_parse(st),
        Or((t0, t1, t2, t3, t4, t5, t6, t7, t8, t9, t10, t11, t12, t13, t14)).spec_parse(st) == Or((t0, Or((t1, t2, t3, t4, t5, t6, t7, t8, t9, t10, t11, t12, t13, t14)))).spec_parse(st),
{
}

/// [`SeqTool`] on a tuple of any size matches its first tool and then the rest of the tuple on
/// what follows: it matches as the first tool followed by the rest nested, so that every tool
/// runs in turn after the previous ones, and the length is the sum of their lengths.
pub proof fn law_seq_tool_tuples<T0: ParseTool, T1: ParseTool, T2: ParseTool, T3: ParseTool, T4: ParseTool, T5: ParseTool, T6: ParseTool, T7: ParseTool, T8: ParseTool, T9: ParseTool, T10: ParseTool, T11: ParseTool, T12: ParseTool, T13: ParseTool, T14: ParseTool>(t0: T0, t1: T1, t2: T2, t3: T3, t4: T4, t5: T5, t6: T6, t7: T7, t8: T8, t9: T9, t10: T10, t11: T11, t12: T12, t13: T13, t14: T14, st: Seq<char>)
    ensures
        SeqTool((t0, t1, t2, t3)).spec_parse(st) == SeqTool((t0, SeqTool((t1, t2, t3)))).spec_parse(st),
        SeqTool((t0, t1, t2, t3, t4)).spec_parse(st) == SeqTool((t0, SeqTool((t1, t2, t3, t4)))).spec_parse(st),
        SeqTool((t0, t1, t2, t3, t4, t5)).spec_parse(st) == SeqTool((t0, SeqTool((t1, t2, t3, t4, t5)))).spec_parse(st),
        SeqTool((t0, t1, t2, t3, t4, t5, t6)).spec_parse(st) == SeqTool((t0, SeqTool((t1, t2, t3, t4, t5, t6)))).spec_parse(st),
        SeqTool((t0, t1, t2, t3, t4, t5, t6, t7)).spec_parse(st) == SeqTool((t0, SeqTool((t1, t2, t3, t4, t5, t6, t7)))).spec_parse(st),
        SeqTool((t0, t1, t2, t3, t4, t5, t6, t7, t8)).spec_parse(st) == SeqTool((t0, SeqTool((t1, t2, t3, t4, t5, t6, t7, t8)))).spec_parse(st),
        SeqTool((t0, t1, t2, t3, t4, t5, t6, t7, t8, t9)).spec_parse(st) == SeqTool((t0, SeqTool((t1, t2, t3, t4, t5, t6, t7, t8, t9)))).spec_parse(st),
        SeqTool((t0, t1, t2, t3, t4, t5, t6, t7, t8, t9, t10)).spec_parse(st) == SeqTool((t0, SeqTool((t1, t2, t3, t4, t5, t6, t7, t8, t9, t10)))).spec_parse(st),
        SeqTool((t0, t1, t2, t3, t4, t5, t6, t7, t8, t9, t10, t11)).spec_parse(st) == SeqTool((t0, SeqTool((t1, t2, t3, t4, t5, t6, t7, t8, t9, t10, t11)))).spec_parse(st),
        SeqTool((t0, t1, t2, t3, t4, t5, t6, t7, t8, t9, t10, t11, t12)).spec_parse(st) == SeqTool((t0, SeqTool((t1, t2, t3, t4, t5, t6, t7, t8, t9, t10, t11, t12)))).spec_parse(st),
        SeqTool((t0, t1, t2, t3, t4, t5, t6, t7, t8, t9, t10, t11, t12, t13)).spec_parse(st) == SeqTool((t0, SeqTool((t1, t2, t3, t4, t5, t6, t7, t8, t9, t10, t11, t12, t13)))).spec_parse(st),
        SeqTool((t0, t1, t2, t3, t4, t5, t6, t7, t8, t9, t10, t11, t12, t13, t14)).spec_parse(st) == SeqTool((t0, SeqTool((t1, t2, t3, t4, t5, t6, t7, t8, t9, t10, t11, t12, t13, t14)))).spec_parse(st),
{
}

/// Where a [`RepeatTool`] with a minimum matches, it matches what the same repetition without a
/// minimum matches: the repetitions beyond the minimum are still taken greedily, up to the maximum.
pub proof fn law_repeat_min_keeps_greedy<T: ParseTool, SEP: ParseTool>(r: RepeatTool<T, SEP>, r0: RepeatTool<T, SEP>, st: Seq<char>)
    requires
        r.min() > 0,
        r0.min() == 0,
        r0.tool() == r.tool(),
        r0.sep() == r.sep(),
        r0.max() == r.max(),
        r.spec_parse(st) is Some,
    ensures
        r.spec_parse(st) == r0.spec_parse(st),
{
    crate::chains::law_repeat_min_keeps_greedy(AsAtom(&r.tool()), AsAtom(&r.sep()), r.min(), r.max(), st);
}

/// A [`RepeatTool`] without a minimum nor a maximum is greedy: it takes the first item where the
/// tool matches, and stops only where no separator followed by the tool matches any further
/// characters of what remains.
pub proof fn law_repeat_greedy<T: ParseTool, SEP: ParseTool>(r: RepeatTool<T, SEP>, st: Seq<char>)
    requires
        r.min() == 0,
        r.max() is None,
    ensures
        r.spec_parse(st) is Some,
        r.spec_parse(st)->Some_0 <= st.len(),
        match r.tool().spec_parse(st) {
            Some(k) => k <= st.len() ==> r.spec_parse(st)->Some_0 >= k,
            None => r.spec_parse(st)->Some_0 == 0,
        },
        r.tool().spec_parse(st) matches Some(k) && k <= st.len() ==> {
            let n = r.spec_parse(st)->Some_0;
            let rest = st.skip(n as int);
            match r.sep().spec_parse(rest) {
                Some(a) => a <= rest.len() ==> match r.tool().spec_parse(rest.skip(a as int)) {
                    Some(b) => a + b == 0 || a + b > rest.len(),
                    None => true,
                },
                None => true,
            }
        },
{
    crate::chains::law_repeat_greedy(AsAtom(&r.tool()), AsAtom(&r.sep()), st);
}

/// A [`LazyRepeatTool`] match is the repeated text that it returns, a prefix of the input,
/// followed by a match of the terminator: the whole length is the length of that text plus the
/// length that the terminator matches right after it. Where the text is not empty, the tool
/// matches at the start within it, and, without a minimum, the terminator misses at the start.
pub proof fn law_lazy_match_is_text_then_term<'a, T: ParseTool, SEP: ParseTool, TERM: ParseTool>(l: LazyRepeatTool<T, SEP, TERM>, st: Seq<char>)
    ensures
        ParseToolData::<'a, LazyNoTerm>::spec_parse_data(&l, st, LazyNoTerm) matches Some((len, d)) ==> {
            &&& d.len() <= len
            &&& d.len() <= st.len()
            &&& d == st.take(d.len() as int)
            &&& l.term().spec_parse(st.skip(d.len() as int)) == Some((len - d.len()) as nat)
            &&& d.len() > 0 ==> (l.tool().spec_parse(st) matches Some(k) && k <= d.len())
            &&& d.len() > 0 && l.min() == 0 ==> l.term().spec_parse(st) is None
        },
{
    crate::chains::law_lazy_is_reps_then_term(AsAtom(&l.tool()), AsAtom(&l.sep()), AsAtom(&l.term()), l.min(), l.max(), st);
}

/// Where the tools of `ts` before the `i`-th all miss, trying them in order from the start gives
/// what trying them from the `i`-th gives.
proof fn lemma_first_match_skips_misses<R: ParseTool>(ts: Seq<R>, st: Seq<char>, i: int)
    requires
        0 <= i <= ts.len(),
        forall|j: int| 0 <= j < i ==> #[trigger] ts[j].spec_parse(st) is None,
    ensures
        first_match(ts, st) == first_match(ts.skip(i), st),
    decreases i,
{
    if i == 0 {
        assert(ts.skip(0) =~= ts);
    } else {
        assert(ts[0].spec_parse(st) is None);
        let d = ts.drop_first();
        assert forall|j: int| 0 <= j < i - 1 implies #[trigger] d[j].spec_parse(st) is None by {
            assert(d[j] == ts[j + 1]);
        }
        lemma_first_match_skips_misses(d, st, i - 1);
        assert(d.skip(i - 1) =~= ts.skip(i));
    }
}

/// Trying the tools of `ts` in order gives the match of the first one that matches, and misses
/// only where every one of them misses.
proof fn lemma_first_match_first<R: ParseTool>(ts: Seq<R>, st: Seq<char>)
    ensures
        forall|i: int| 0 <= i < ts.len() && ts[i].spec_parse(st) is Some
            && (forall|j: int| 0 <= j < i ==> #[trigger] ts[j].spec_parse(st) is None)
            ==> first_match(ts, st) == #[trigger] ts[i].spec_parse(st),
        (forall|j: int| 0 <= j < ts.len() ==> #[trigger] ts[j].spec_parse(st) is None) ==> first_match(ts, st) is None,
{
    assert forall|i: int| 0 <= i < ts.len() && ts[i].spec_parse(st) is Some
        && (forall|j: int| 0 <= j < i ==> #[trigger] ts[j].spec_parse(st) is None)
        implies first_match(ts, st) == #[trigger] ts[i].spec_parse(st) by {
        lemma_first_match_skips_misses(ts, st, i);
        assert(ts.skip(i)[0] == ts[i]);
    }
    if forall|j: int| 0 <= j < ts.len() ==> #[trigger] ts[j].spec_parse(st) is None {
        lemma_first_match_skips_misses(ts, st, ts.len() as int);
    }
}

/// A slice of tools tries them in order: the first one that matches gives the match, and the
/// slice misses only where every one of them misses.
pub proof fn law_slice_first_match<R: ParseTool>(ts: &[R], st: Seq<char>)
    ensures
        forall|i: int| 0 <= i < ts@.len() && ts@[i].spec_parse(st) is Some
            && (forall|j: int| 0 <= j < i ==> #[trigger] ts@[j].spec_parse(st) is None)
            ==> ts.spec_parse(st) == #[trigger] ts@[i].spec_parse(st),
        (forall|j: int| 0 <= j < ts@.len() ==> #[trigger] ts@[j].spec_parse(st) is None) ==> ts.spec_parse(st) is None,
{
    lemma_first_match_first(ts@, st);
}

/// An array of tools tries them in order: the first one that matches gives the match, and the
/// array misses only where every one of them misses.
pub proof fn law_array_first_match<R: ParseTool, const N: usize>(ts: [R; N], st: Seq<char>)
    ensures
        forall|i: int| 0 <= i < ts@.len() && ts@[i].spec_parse(st) is Some
            && (forall|j: int| 0 <= j < i ==> #[trigger] ts@[j].spec_parse(st) is None)
            ==> ts.spec_parse(st) == #[trigger] ts@[i].spec_parse(st),
        (forall|j: int| 0 <= j < ts@.len() ==> #[trigger] ts@[j].spec_parse(st) is None) ==> ts.spec_parse(st) is None,
{
    lemma_first_match_first(ts@, st);
}

/// A string matches exactly where it is a prefix of the input, with its own length, and a
/// character matches exactly where the input starts with it, with length one.
pub proof fn law_str_and_char(s: &str, c: char, st: Seq<char>)
    ensures
        <str as ParseTool>::spec_parse(s, st) is Some <==> s@.is_prefix_of(st),
        s@.is_prefix_of(st) ==> <str as ParseTool>::spec_parse(s, st) == Some(s@.len()),
        <char as ParseTool>::spec_parse(&c, st) is Some <==> seq![c].is_prefix_of(st),
        seq![c].is_prefix_of(st) ==> <char as ParseTool>::spec_parse(&c, st) == Some(1nat),
{
    if s@.is_prefix_of(st) {
        assert(st.take(s@.len() as int) =~= s@);
    }
    if seq![c].is_prefix_of(st) {
        assert(st[0] == seq![c][0]);
    }
    if st.len() > 0 && st[0] == c {
        assert(seq![c].is_prefix_of(st));
    }
}

/// A [`RepeatTool`] without a minimum that may take one repetition matches exactly the first
/// item, and each further repetition allowed adds exactly the separator and tool that match
/// right after what was matched, if they match.
pub proof fn law_repeat_one_more<T: ParseTool, SEP: ParseTool>(a: RepeatTool<T, SEP>, b: RepeatTool<T, SEP>, st: Seq<char>)
    requires
        a.min() == 0,
        b.min() == 0,
        b.tool() == a.tool(),
        b.sep() == a.sep(),
        a.max() matches Some(m) && 1 <= m < usize::MAX,
        b.max() == Some((a.max()->Some_0 + 1) as usize),
    ensures
        a.max() == Some(1usize) ==> a.spec_parse(st) == Some(match a.tool().spec_parse(st) {
            Some(k) => if k <= st.len() { k } else { 0 },
            None => 0,
        }),
        a.tool().spec_parse(st) matches Some(k) && k <= st.len() ==> {
            let n = a.spec_parse(st)->Some_0;
            let rest = st.skip(n as int);
            &&& n <= st.len()
            &&& b.spec_parse(st) == Some(n + match a.sep().spec_parse(rest) {
                Some(x) => if x <= rest.len() {
                    match a.tool().spec_parse(rest.skip(x as int)) {
                        Some(y) => if x + y <= rest.len() { x + y } else { 0 },
                        None => 0,
                    }
                } else {
                    0
                },
                None => 0,
            })
        },
{
    crate::chains::law_repeat_one_more(AsAtom(&a.tool()), AsAtom(&a.sep()), a.max()->Some_0, st);
}

/// A [`LazyRepeatTool`] stops at the first match of its terminator: where it matches with at
/// most `m` repetitions, allowing more repetitions gives the same match and the same text.
pub proof fn law_lazy_first_term_wins<'a, T: ParseTool, SEP: ParseTool, TERM: ParseTool>(l: LazyRepeatTool<T, SEP, TERM>, l2: LazyRepeatTool<T, SEP, TERM>, st: Seq<char>)
    requires
        l2.tool() == l.tool(),
        l2.sep() == l.sep(),
        l2.term() == l.term(),
        l2.min() == l.min(),
        l.max() matches Some(m) && l2.max() matches Some(m2) && m <= m2,
        ParseToolData::<'a, LazyNoTerm>::spec_parse_data(&l, st, LazyNoTerm) is Some,
    ensures
        ParseToolData::<'a, LazyNoTerm>::spec_parse_data(&l2, st, LazyNoTerm)
            == ParseToolData::<'a, LazyNoTerm>::spec_parse_data(&l, st, LazyNoTerm),
{
    crate::chains::law_lazy_first_term_wins(AsAtom(&l.tool()), AsAtom(&l.sep()), AsAtom(&l.term()), l.min(), l.max()->Some_0, l2.max()->Some_0, st);
}

/// A [`PredicateTool`] asked for its data gives, where it matches, the matched character
/// itself, or the value that the transform gives on it.
pub proof fn law_predicate_tool_data<'a, P: Fn(char) -> bool, D: View, F: Fn(char) -> D>(t: PredicateTool<P>, f: F, st: Seq<char>, d: D)
    requires
        char_pred_ok(t.pred()),
        transform_ok(f),
        st.len() > 0 ==> call_ensures(f, (st[0],), d),
    ensures
        st.len() > 0 && call_ensures(t.pred(), (st[0],), true)
            ==> ParseToolData::<'a, GetChar>::spec_parse_data(&t, st, GetChar) == Some((1nat, st[0]))
            && ParseToolData::<'a, Transform<F>>::spec_parse_data(&t, st, Transform(f)) == Some((1nat, d@)),
        !(st.len() > 0 && call_ensures(t.pred(), (st[0],), true))
            ==> ParseToolData::<'a, GetChar>::spec_parse_data(&t, st, GetChar) is None
            && ParseToolData::<'a, Transform<F>>::spec_parse_data(&t, st, Transform(f)) is None,
{
    if st.len() > 0 {
        let w = choose|w: D| call_ensures(f, (st[0],), w);
        assert(call_ensures(f, (st[0],), w));
    }
}

/// A [`LazyRepeatTool`] with a minimum takes at least that many repetitions before the
/// terminator: where it matches, a [`RepeatTool`] asking for exactly `min` items matches at the
/// start, within the repeated text.
pub proof fn law_lazy_respects_min<'a, T: ParseTool, SEP: ParseTool, TERM: ParseTool>(l: LazyRepeatTool<T, SEP, TERM>, r: RepeatTool<T, SEP>, st: Seq<char>)
    requires
        l.min() > 0,
        r.tool() == l.tool(),
        r.sep() == l.sep(),
        r.min() == l.min(),
        r.max() == Some(l.min()),
    ensures
        ParseToolData::<'a, LazyNoTerm>::spec_parse_data(&l, st, LazyNoTerm) matches Some((len, d))
            ==> (r.spec_parse(st) matches Some(c) && c <= d.len()),
{
    crate::chains::law_lazy_respects_min(AsAtom(&l.tool()), AsAtom(&l.sep()), AsAtom(&l.term()), l.min(), l.max(), st);
    crate::chains::law_lazy_is_reps_then_term(AsAtom(&l.tool()), AsAtom(&l.sep()), AsAtom(&l.term()), l.min(), l.max(), st);
}

} // verus!
