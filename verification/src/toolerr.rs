//! Parsing tools with custom errors.
//!
//! A tool is specified by [`ParseTool::spec_parse`], a function from the characters of the
//! parsed string to either the number of characters of the matched prefix or an error, and by
//! [`ParseTool::can_parse`], which holds on the inputs on which the tool returns at all.
use vstd::prelude::*;
use crate::text::{
    prefix_len, starts_with, byte_len, first_char, char_len, skip_chars, take_chars, lemma_prefix_len_one,
    lemma_prefix_len_zero, lemma_prefix_len_add, lemma_prefix_len_bound, lemma_skip_skip,
};
use core::marker::PhantomData;
use core::convert::Infallible;

verus! {

/// Return type of a [`ParseTool`].
pub enum ToolResult<E> {
    /// A successful match.
    Match {
        /// The length in bytes of the matching prefix.
        len: usize,
    },
    /// A failed match.
    NoMatch(E),
}

/// True when `r` is the executable form of the abstract result `sp` of parsing `st`:
/// a match of `k` characters is reported as the byte length of those characters.
pub open spec fn agrees<E>(r: ToolResult<E>, st: Seq<char>, sp: Result<nat, E>) -> bool {
    match sp {
        Ok(k) => k <= st.len() && match r {
            ToolResult::Match { len } => len == prefix_len(st, k),
            ToolResult::NoMatch(_) => false,
        },
        Err(e) => r == ToolResult::<E>::NoMatch(e),
    }
}

/// The main parsing trait.
///
/// Every object which incapsulate a parsing strategy should implement this trait in order to be
/// composed with other tools.
pub trait ParseTool {
    /// Error type.
    type Error;

    /// What the tool does on a string whose characters are `st`: `Ok(k)` when it matches the
    /// first `k` characters, `Err(e)` when it fails with error `e`.
    spec fn spec_parse(&self, st: Seq<char>) -> Result<nat, Self::Error>;

    /// Holds on the inputs on which [`ParseTool::parse`] returns, with the result that
    /// [`ParseTool::spec_parse`] gives: it fails where a repetition would loop forever, or where a
    /// user-supplied function cannot be called or does not answer as a function.
    open spec fn can_parse(&self, st: Seq<char>) -> bool {
        true
    }

    /// The main parsing algorithm.
    ///
    /// If there is a match, `Match` is returned with the length *in bytes* of the matched
    /// prefix. Notice that a zero may return if the empty string `""` is a valid match for this
    /// tool.
    fn parse(&self, st: &str) -> (r: ToolResult<Self::Error>)
        requires
            self.can_parse(st@),
        ensures
            agrees(r, st@, self.spec_parse(st@)),
    ;

    /// Convert to a tool that only checks the match, without progression.
    fn only_check(self) -> (r: CheckTool<Self>) where Self: Sized
        ensures
            r.0 == self,
    {
        CheckTool(self)
    }

    /// Convert to a tool that doesn't match when the matching result would have zero length.
    fn force_nonempty(self) -> (r: NonEmpty<Self>) where Self: Sized
        ensures
            r.0 == self,
    {
        NonEmpty(self)
    }
}

/// Matches a string prefix.
impl ParseTool for str {
    type Error = ();

    open spec fn spec_parse(&self, st: Seq<char>) -> Result<nat, ()> {
        if self@.len() <= st.len() && st.take(self@.len() as int) == self@ {
            Ok(self@.len())
        } else {
            Err(())
        }
    }

    fn parse(&self, st: &str) -> (r: ToolResult<()>) {
        if starts_with(st, self) {
            let n = byte_len(self);
            ToolResult::Match { len: n }
        } else {
            ToolResult::NoMatch(())
        }
    }
}

/// Matches the first character.
impl ParseTool for char {
    type Error = ();

    open spec fn spec_parse(&self, st: Seq<char>) -> Result<nat, ()> {
        if st.len() > 0 && st[0] == *self {
            Ok(1)
        } else {
            Err(())
        }
    }

    fn parse(&self, st: &str) -> (r: ToolResult<()>) {
        match first_char(st) {
            Some(c) => {
                if *self == c {
                    proof {
                        lemma_prefix_len_one(st@);
                    }
                    ToolResult::Match { len: char_len(c) }
                } else {
                    ToolResult::NoMatch(())
                }
            },
            None => ToolResult::NoMatch(()),
        }
    }
}

impl<T: ParseTool + ?Sized> ParseTool for &T {
    type Error = T::Error;

    open spec fn spec_parse(&self, st: Seq<char>) -> Result<nat, T::Error> {
        (**self).spec_parse(st)
    }

    open spec fn can_parse(&self, st: Seq<char>) -> bool {
        (**self).can_parse(st)
    }

    fn parse(&self, st: &str) -> (r: ToolResult<T::Error>) {
        (**self).parse(st)
    }
}

/// The first tool of `tools` that matches `st`.
pub open spec fn first_match<R: ParseTool>(tools: Seq<R>, st: Seq<char>) -> Result<nat, ()>
    decreases tools.len(),
{
    if tools.len() == 0 {
        Err(())
    } else {
        match tools[0].spec_parse(st) {
            Ok(k) => Ok(k),
            Err(_) => first_match(tools.drop_first(), st),
        }
    }
}

/// Every tool of `tools` that [`first_match`] may run can_parse on `st`.
pub open spec fn first_match_can_parse<R: ParseTool>(tools: Seq<R>, st: Seq<char>) -> bool
    decreases tools.len(),
{
    tools.len() > 0 ==> tools[0].can_parse(st) && (tools[0].spec_parse(st) is Err
        ==> first_match_can_parse(tools.drop_first(), st))
}

/// Matches any of the tools in the slice, trying them in order.
impl<R: ParseTool> ParseTool for [R] {
    type Error = ();

    open spec fn spec_parse(&self, st: Seq<char>) -> Result<nat, ()> {
        first_match(self@, st)
    }

    open spec fn can_parse(&self, st: Seq<char>) -> bool {
        first_match_can_parse(self@, st)
    }

    fn parse(&self, st: &str) -> (r: ToolResult<()>) {
        let mut i: usize = 0;
        assert(self@.skip(0) =~= self@);
        while i < self.len()
            invariant
                0 <= i <= self@.len(),
                first_match(self@, st@) == first_match(self@.skip(i as int), st@),
                first_match_can_parse(self@.skip(i as int), st@),
            decreases self@.len() - i,
        {
            let ghost rest = self@.skip(i as int);
            assert(rest[0] == self@[i as int]);
            assert(rest.drop_first() =~= self@.skip(i + 1));
            match self[i].parse(st) {
                ToolResult::Match { len } => {
                    return ToolResult::Match { len };
                },
                ToolResult::NoMatch(_) => {},
            }
            i = i + 1;
        }
        ToolResult::NoMatch(())
    }
}

/// Matches any of the tools in the array, trying them in order.
impl<R: ParseTool, const N: usize> ParseTool for [R; N] {
    type Error = ();

    open spec fn spec_parse(&self, st: Seq<char>) -> Result<nat, ()> {
        first_match(self@, st)
    }

    open spec fn can_parse(&self, st: Seq<char>) -> bool {
        first_match_can_parse(self@, st)
    }

    fn parse(&self, st: &str) -> (r: ToolResult<()>) {
        self.as_slice().parse(st)
    }
}


/// A tool that always matches.
///
/// Note: even if the tool always matches the match length may be equal to 0, which sometimes can
/// be interpreted as a failed match.
pub trait AlwaysParseTool: ParseTool<Error = Infallible> {
    /// Every input is matched.
    proof fn lemma_always_matches(&self, st: Seq<char>)
        ensures
            self.spec_parse(st) is Ok,
    ;

    /// Returns the length of the match.
    fn parse_always(&self, st: &str) -> (n: usize)
        requires
            self.can_parse(st@),
        ensures
            self.spec_parse(st@) matches Ok(k) && k <= st@.len() && n == prefix_len(st@, k),
    ;
}

/// Parses only the end of the input.
#[derive(Debug, Clone, Copy, Default)]
pub struct EOFTool;

impl ParseTool for EOFTool {
    type Error = ();

    open spec fn spec_parse(&self, st: Seq<char>) -> Result<nat, ()> {
        if st.len() == 0 {
            Ok(0)
        } else {
            Err(())
        }
    }

    fn parse(&self, st: &str) -> (r: ToolResult<()>) {
        proof {
            lemma_prefix_len_zero(st@);
        }
        if st.is_empty() {
            ToolResult::Match { len: 0 }
        } else {
            ToolResult::NoMatch(())
        }
    }
}

/// Only checks the provided tool, without progressing.
#[derive(Debug, Copy, Clone, Default)]
pub struct CheckTool<T>(pub T);

impl<T: ParseTool> ParseTool for CheckTool<T> {
    type Error = T::Error;

    open spec fn spec_parse(&self, st: Seq<char>) -> Result<nat, T::Error> {
        match self.0.spec_parse(st) {
            Ok(_) => Ok(0),
            Err(e) => Err(e),
        }
    }

    open spec fn can_parse(&self, st: Seq<char>) -> bool {
        self.0.can_parse(st)
    }

    fn parse(&self, st: &str) -> (r: ToolResult<T::Error>) {
        proof {
            lemma_prefix_len_zero(st@);
        }
        match self.0.parse(st) {
            ToolResult::Match { .. } => ToolResult::Match { len: 0 },
            ToolResult::NoMatch(e) => ToolResult::NoMatch(e),
        }
    }
}

/// Matches only if the provided tool doesn't match.
#[derive(Debug, Copy, Clone, Default)]
pub struct CheckInvTool<T>(pub T);

impl<T: ParseTool> ParseTool for CheckInvTool<T> {
    type Error = ();

    open spec fn spec_parse(&self, st: Seq<char>) -> Result<nat, ()> {
        match self.0.spec_parse(st) {
            Ok(_) => Err(()),
            Err(_) => Ok(0),
        }
    }

    open spec fn can_parse(&self, st: Seq<char>) -> bool {
        self.0.can_parse(st)
    }

    fn parse(&self, st: &str) -> (r: ToolResult<()>) {
        proof {
            lemma_prefix_len_zero(st@);
        }
        match self.0.parse(st) {
            ToolResult::Match { .. } => ToolResult::NoMatch(()),
            ToolResult::NoMatch(_) => ToolResult::Match { len: 0 },
        }
    }
}

/// Matches any character.
///
/// It is the exact opposite of [`EOFTool`] that is one matches if and only if the other misses.
#[derive(Debug, Copy, Clone, Default)]
pub struct AnyTool;

impl ParseTool for AnyTool {
    type Error = ();

    open spec fn spec_parse(&self, st: Seq<char>) -> Result<nat, ()> {
        if st.len() > 0 {
            Ok(1)
        } else {
            Err(())
        }
    }

    fn parse(&self, st: &str) -> (r: ToolResult<()>) {
        match first_char(st) {
            Some(c) => {
                proof {
                    lemma_prefix_len_one(st@);
                }
                ToolResult::Match { len: char_len(c) }
            },
            None => ToolResult::NoMatch(()),
        }
    }
}

/// Discards empty strings from a match.
///
/// Some tools that needs to match an undefined number of other tools (like [`RepeatTool`] or
/// [`LazyRepeatAnyTool`]) may enter in an infinite loop if the inner tool matches an empty
/// string `""`. This tool takes another tool and converts any match with an empty string with a
/// missing match, avoiding so the issue.
#[derive(Debug, Clone, Copy, Default)]
pub struct NonEmpty<P>(pub P);

impl<P: ParseTool> ParseTool for NonEmpty<P> {
    type Error = Option<P::Error>;

    open spec fn spec_parse(&self, st: Seq<char>) -> Result<nat, Option<P::Error>> {
        match self.0.spec_parse(st) {
            Ok(k) => if k > 0 {
                Ok(k)
            } else {
                Err(None)
            },
            Err(e) => Err(Some(e)),
        }
    }

    open spec fn can_parse(&self, st: Seq<char>) -> bool {
        self.0.can_parse(st)
    }

    fn parse(&self, st: &str) -> (r: ToolResult<Option<P::Error>>) {
        match self.0.parse(st) {
            ToolResult::Match { len } => {
                if len > 0 {
                    ToolResult::Match { len }
                } else {
                    proof {
                        let k = self.0.spec_parse(st@)->Ok_0;
                        if k > 0 {
                            crate::text::lemma_prefix_len_positive(st@, k);
                        }
                    }
                    ToolResult::NoMatch(None)
                }
            },
            ToolResult::NoMatch(e) => ToolResult::NoMatch(Some(e)),
        }
    }
}

/// Matches the empty string, therefore it always matches.
#[derive(Debug, Clone, Copy, Default)]
pub struct TrueTool;

impl ParseTool for TrueTool {
    type Error = Infallible;

    open spec fn spec_parse(&self, st: Seq<char>) -> Result<nat, Infallible> {
        Ok(0)
    }

    fn parse(&self, st: &str) -> (r: ToolResult<Infallible>) {
        ToolResult::Match { len: self.parse_always(st) }
    }
}

impl AlwaysParseTool for TrueTool {
    proof fn lemma_always_matches(&self, st: Seq<char>) {
    }

    fn parse_always(&self, st: &str) -> (n: usize) {
        proof {
            lemma_prefix_len_zero(st@);
        }
        0
    }
}

/// The predicate `p` can be called on every character and always gives the same answer for
/// the same character.
pub open spec fn char_pred_ok<P: Fn(char) -> bool>(p: P) -> bool {
    &&& forall|c: char| call_requires(p, (c,))
    &&& forall|c: char, b1: bool, b2: bool|
        call_ensures(p, (c,), b1) && call_ensures(p, (c,), b2) ==> b1 == b2
}

/// The value of the predicate `p` on `c`.
pub open spec fn char_pred<P: Fn(char) -> bool>(p: P, c: char) -> bool {
    call_ensures(p, (c,), true)
}

/// The reference predicate `p` can be called on every character and always gives the same
/// answer for the same character.
pub open spec fn ref_pred_ok<P: Fn(&char) -> bool>(p: P) -> bool {
    &&& forall|c: &char| call_requires(p, (c,))
    &&& forall|c: &char, b1: bool, b2: bool|
        call_ensures(p, (c,), b1) && call_ensures(p, (c,), b2) ==> b1 == b2
}

/// The value of the reference predicate `p` on `c`.
pub open spec fn ref_pred<P: Fn(&char) -> bool>(p: P, c: char) -> bool {
    call_ensures(p, (&c,), true)
}

/// Tool that matches characters which satisfies the provided predicate.
///
/// See also [`PredicateRefTool`].
#[derive(Debug, Clone, Copy)]
pub struct PredicateTool<P> {
    predicate: P,
}

impl<P: Fn(char) -> bool> PredicateTool<P> {
    /// The predicate tested by this tool.
    pub closed spec fn pred(self) -> P {
        self.predicate
    }

    /// Create a new [`PredicateTool`] from a predicate.
    pub fn new(predicate: P) -> (r: Self)
        ensures
            r.pred() == predicate,
    {
        Self { predicate }
    }

    /// Creates a tool that matches zero or more occurrences of characters that satisfy the
    /// specified predicate.
    pub fn new_zero_or_more(predicate: P) -> (r: RepeatTool<Self, TrueTool>)
        ensures
            r.tool().pred() == predicate,
            r.sep() == TrueTool,
            r.min() == 0,
            r.max() == None::<usize>,
    {
        RepeatTool::new_unbounded(Self::new(predicate), 0)
    }

    /// Creates a tool that matches one or more occurrences of characters that satisfy the
    /// specified predicate.
    pub fn new_one_or_more(predicate: P) -> (r: RepeatTool<Self, TrueTool>)
        ensures
            r.tool().pred() == predicate,
            r.sep() == TrueTool,
            r.min() == 1,
            r.max() == None::<usize>,
    {
        RepeatTool::new_unbounded(Self::new(predicate), 1)
    }
}

impl<P: Fn(char) -> bool> ParseTool for PredicateTool<P> {
    type Error = Option<char>;

    open spec fn spec_parse(&self, st: Seq<char>) -> Result<nat, Option<char>> {
        if st.len() == 0 {
            Err(None)
        } else if char_pred(self.pred(), st[0]) {
            Ok(1)
        } else {
            Err(Some(st[0]))
        }
    }

    open spec fn can_parse(&self, st: Seq<char>) -> bool {
        char_pred_ok(self.pred())
    }

    fn parse(&self, st: &str) -> (r: ToolResult<Option<char>>) {
        match first_char(st) {
            Some(c) => {
                if (self.predicate)(c) {
                    proof {
                        lemma_prefix_len_one(st@);
                    }
                    ToolResult::Match { len: char_len(c) }
                } else {
                    ToolResult::NoMatch(Some(c))
                }
            },
            None => ToolResult::NoMatch(None),
        }
    }
}


/// Tool that matches characters which satisfies the provided ref predicate.
///
/// See also [`PredicateTool`].
#[derive(Debug, Clone, Copy)]
pub struct PredicateRefTool<P> {
    predicate: P,
}

impl<P: Fn(&char) -> bool> PredicateRefTool<P> {
    /// The predicate tested by this tool.
    pub closed spec fn pred(self) -> P {
        self.predicate
    }

    /// Create a new [`PredicateRefTool`] from a predicate.
    pub fn new(predicate: P) -> (r: Self)
        ensures
            r.pred() == predicate,
    {
        Self { predicate }
    }

    /// Creates a tool that matches zero or more occurrences of characters that satisfy the
    /// specified predicate.
    pub fn new_zero_or_more(predicate: P) -> (r: RepeatTool<Self, TrueTool>)
        ensures
            r.tool().pred() == predicate,
            r.sep() == TrueTool,
            r.min() == 0,
            r.max() == None::<usize>,
    {
        RepeatTool::new_unbounded(Self::new(predicate), 0)
    }

    /// Creates a tool that matches one or more occurrences of characters that satisfy the
    /// specified predicate.
    pub fn new_one_or_more(predicate: P) -> (r: RepeatTool<Self, TrueTool>)
        ensures
            r.tool().pred() == predicate,
            r.sep() == TrueTool,
            r.min() == 1,
            r.max() == None::<usize>,
    {
        RepeatTool::new_unbounded(Self::new(predicate), 1)
    }
}

impl<P: Fn(&char) -> bool> ParseTool for PredicateRefTool<P> {
    type Error = Option<char>;

    open spec fn spec_parse(&self, st: Seq<char>) -> Result<nat, Option<char>> {
        if st.len() == 0 {
            Err(None)
        } else if ref_pred(self.pred(), st[0]) {
            Ok(1)
        } else {
            Err(Some(st[0]))
        }
    }

    open spec fn can_parse(&self, st: Seq<char>) -> bool {
        ref_pred_ok(self.pred())
    }

    fn parse(&self, st: &str) -> (r: ToolResult<Option<char>>) {
        match first_char(st) {
            Some(c) => {
                if (self.predicate)(&c) {
                    proof {
                        lemma_prefix_len_one(st@);
                    }
                    ToolResult::Match { len: char_len(c) }
                } else {
                    ToolResult::NoMatch(Some(c))
                }
            },
            None => ToolResult::NoMatch(None),
        }
    }
}

/// The error function `f` can be called on every error and string, and its result only depends
/// on the error and on the characters of the string.
pub open spec fn err_fn_ok<D, E, F: Fn(D, &str) -> E>(f: F) -> bool {
    &&& forall|d: D, s: &str| #[trigger] call_requires(f, (d, s))
    &&& forall|d: D, s1: &str, s2: &str, e1: E, e2: E|
        #![trigger call_ensures(f, (d, s1), e1), call_ensures(f, (d, s2), e2)]
        s1@ == s2@ && call_ensures(f, (d, s1), e1) && call_ensures(f, (d, s2), e2) ==> e1 == e2
}

/// The value of the error function `f` on the error `d` and a string made of `st`.
pub open spec fn err_fn<D, E, F: Fn(D, &str) -> E>(f: F, d: D, st: Seq<char>) -> E {
    (choose|e: E, s: &str| s@ == st && #[trigger] call_ensures(f, (d, s), e)).0
}

/// A tool wrapper that changes the error types on missed matches.
#[derive(Debug)]
#[verifier::reject_recursive_types(E)]
pub struct ErrorTool<T, E, F>(T, F, PhantomData<E>) where T: ParseTool, F: Fn(T::Error, &str) -> E;

impl<T: ParseTool, E, F: Fn(T::Error, &str) -> E> ErrorTool<T, E, F> {
    /// The wrapped tool.
    pub closed spec fn tool(self) -> T {
        self.0
    }

    /// The function applied to the errors of the wrapped tool.
    pub closed spec fn fun(self) -> F {
        self.1
    }

    /// Creates a new [`ErrorTool`].
    pub fn new(tool: T, fun: F) -> (r: Self)
        ensures
            r.tool() == tool,
            r.fun() == fun,
    {
        Self(tool, fun, PhantomData)
    }
}

impl<T: ParseTool, E, F: Fn(T::Error, &str) -> E> ParseTool for ErrorTool<T, E, F> {
    type Error = E;

    open spec fn spec_parse(&self, st: Seq<char>) -> Result<nat, E> {
        match self.tool().spec_parse(st) {
            Ok(k) => Ok(k),
            Err(d) => Err(err_fn(self.fun(), d, st)),
        }
    }

    open spec fn can_parse(&self, st: Seq<char>) -> bool {
        self.tool().can_parse(st) && err_fn_ok(self.fun())
    }

    fn parse(&self, st: &str) -> (r: ToolResult<E>) {
        match self.0.parse(st) {
            ToolResult::Match { len } => ToolResult::Match { len },
            ToolResult::NoMatch(d) => {
                let e = (self.1)(d, st);
                proof {
                    assert(exists|e1: E, s: &str| s@ == st@ && #[trigger] call_ensures(self.1, (d, s), e1));
                    let (e2, s2) = choose|e1: E, s: &str| s@ == st@ && #[trigger] call_ensures(self.1, (d, s), e1);
                    assert(call_ensures(self.1, (d, s2), e2));
                }
                ToolResult::NoMatch(e)
            },
        }
    }
}



/// Tool that matches at least one of many subtools.
///
/// Implemented for tuples with up to 15 elements; thanks to associativity you can use nested
/// tuples to support more tools.
///
/// *Ordering matters here*: if one matches then the followings are not tried.
#[derive(Debug, Clone, Copy, Default)]
pub struct Or<Tup>(
    /// Tuple of tools to be tested.
    pub Tup,
);

/// Tool that matches a sequence of subtools.
///
/// Implemented for tuples with up to 15 elements; thanks to associativity you can use nested
/// tuples to support more tools.
#[derive(Debug, Clone, Copy, Default)]
pub struct SeqTool<Tup>(
    /// Tuple of tools to be tested.
    pub Tup,
);

impl ParseTool for Or<()> {
    type Error = ();

    open spec fn spec_parse(&self, st: Seq<char>) -> Result<nat, ()> {
        Err(())
    }

    fn parse(&self, st: &str) -> (r: ToolResult<()>) {
        ToolResult::NoMatch(())
    }
}

impl ParseTool for SeqTool<()> {
    type Error = Infallible;

    open spec fn spec_parse(&self, st: Seq<char>) -> Result<nat, Infallible> {
        Ok(0)
    }

    fn parse(&self, st: &str) -> (r: ToolResult<Infallible>) {
        proof {
            lemma_prefix_len_zero(st@);
        }
        ToolResult::Match { len: 0 }
    }
}

impl<A: ParseTool> ParseTool for Or<(A,)> {
    type Error = ();

    open spec fn spec_parse(&self, st: Seq<char>) -> Result<nat, ()> {
        match self.0.0.spec_parse(st) {
            Ok(k) => Ok(k),
            Err(_) => Err(()),
        }
    }

    open spec fn can_parse(&self, st: Seq<char>) -> bool {
        self.0.0.can_parse(st)
    }

    fn parse(&self, st: &str) -> (r: ToolResult<()>) {
        match self.0.0.parse(st) {
            ToolResult::Match { len } => ToolResult::Match { len },
            ToolResult::NoMatch(_) => ToolResult::NoMatch(()),
        }
    }
}

impl<A: ParseTool> ParseTool for SeqTool<(A,)> {
    type Error = ();

    open spec fn spec_parse(&self, st: Seq<char>) -> Result<nat, ()> {
        match self.0.0.spec_parse(st) {
            Ok(k) => Ok(k),
            Err(_) => Err(()),
        }
    }

    open spec fn can_parse(&self, st: Seq<char>) -> bool {
        self.0.0.can_parse(st)
    }

    fn parse(&self, st: &str) -> (r: ToolResult<()>) {
        match self.0.0.parse(st) {
            ToolResult::Match { len } => ToolResult::Match { len },
            ToolResult::NoMatch(_) => ToolResult::NoMatch(()),
        }
    }
}

impl<A: ParseTool, B: ParseTool> ParseTool for Or<(A, B)> {
    type Error = ();

    open spec fn spec_parse(&self, st: Seq<char>) -> Result<nat, ()> {
        match self.0.0.spec_parse(st) {
            Ok(k) => Ok(k),
            Err(_) => Or((self.0.1,)).spec_parse(st),
        }
    }

    open spec fn can_parse(&self, st: Seq<char>) -> bool {
        self.0.0.can_parse(st) && (self.0.0.spec_parse(st) is Err ==> Or((self.0.1,)).can_parse(st))
    }

    fn parse(&self, st: &str) -> (r: ToolResult<()>) {
        let (t0, t1) = &self.0;
        match t0.parse(st) {
            ToolResult::Match { len } => ToolResult::Match { len },
            ToolResult::NoMatch(_) => Or((t1,)).parse(st),
        }
    }
}

impl<A: ParseTool, B: ParseTool> ParseTool for SeqTool<(A, B)> {
    type Error = ();

    open spec fn spec_parse(&self, st: Seq<char>) -> Result<nat, ()> {
        match self.0.0.spec_parse(st) {
            Ok(k) => if k <= st.len() {
                match SeqTool((self.0.1,)).spec_parse(st.skip(k as int)) {
                    Ok(k2) => Ok(k + k2),
                    Err(_) => Err(()),
                }
            } else {
                Err(())
            },
            Err(_) => Err(()),
        }
    }

    open spec fn can_parse(&self, st: Seq<char>) -> bool {
        self.0.0.can_parse(st) && match self.0.0.spec_parse(st) {
            Ok(k) => k <= st.len() ==> SeqTool((self.0.1,)).can_parse(st.skip(k as int)),
            Err(_) => true,
        }
    }

    fn parse(&self, st: &str) -> (r: ToolResult<()>) {
        let (t0, t1) = &self.0;
        match t0.parse(st) {
            ToolResult::Match { len: rlen } => {
                let ghost k = self.0.0.spec_parse(st@)->Ok_0;
                let rest = skip_chars(st, rlen, Ghost(k));
                match SeqTool((t1,)).parse(rest) {
                    ToolResult::Match { len } => {
                        let total = byte_len(st);
                        proof {
                            let k2 = SeqTool((self.0.1,)).spec_parse(st@.skip(k as int))->Ok_0;
                            lemma_prefix_len_add(st@, k, k2);
                            lemma_prefix_len_bound(st@, k + k2);
                        }
                        ToolResult::Match { len: len + rlen }
                    },
                    ToolResult::NoMatch(_) => ToolResult::NoMatch(()),
                }
            },
            ToolResult::NoMatch(_) => ToolResult::NoMatch(()),
        }
    }
}

impl<A: ParseTool, B: ParseTool, C: ParseTool> ParseTool for Or<(A, B, C)> {
    type Error = ();

    open spec fn spec_parse(&self, st: Seq<char>) -> Result<nat, ()> {
        match self.0.0.spec_parse(st) {
            Ok(k) => Ok(k),
            Err(_) => Or((self.0.1, self.0.2)).spec_parse(st),
        }
    }

    open spec fn can_parse(&self, st: Seq<char>) -> bool {
        self.0.0.can_parse(st) && (self.0.0.spec_parse(st) is Err ==> Or((self.0.1, self.0.2)).can_parse(st))
    }

    fn parse(&self, st: &str) -> (r: ToolResult<()>) {
        let (t0, t1, t2) = &self.0;
        match t0.parse(st) {
            ToolResult::Match { len } => ToolResult::Match { len },
            ToolResult::NoMatch(_) => Or((t1, t2)).parse(st),
        }
    }
}

impl<A: ParseTool, B: ParseTool, C: ParseTool> ParseTool for SeqTool<(A, B, C)> {
    type Error = ();

    open spec fn spec_parse(&self, st: Seq<char>) -> Result<nat, ()> {
        match self.0.0.spec_parse(st) {
            Ok(k) => if k <= st.len() {
                match SeqTool((self.0.1, self.0.2)).spec_parse(st.skip(k as int)) {
                    Ok(k2) => Ok(k + k2),
                    Err(_) => Err(()),
                }
            } else {
                Err(())
            },
            Err(_) => Err(()),
        }
    }

    open spec fn can_parse(&self, st: Seq<char>) -> bool {
        self.0.0.can_parse(st) && match self.0.0.spec_parse(st) {
            Ok(k) => k <= st.len() ==> SeqTool((self.0.1, self.0.2)).can_parse(st.skip(k as int)),
            Err(_) => true,
        }
    }

    fn parse(&self, st: &str) -> (r: ToolResult<()>) {
        let (t0, t1, t2) = &self.0;
        match t0.parse(st) {
            ToolResult::Match { len: rlen } => {
                let ghost k = self.0.0.spec_parse(st@)->Ok_0;
                let rest = skip_chars(st, rlen, Ghost(k));
                match SeqTool((t1, t2)).parse(rest) {
                    ToolResult::Match { len } => {
                        let total = byte_len(st);
                        proof {
                            let k2 = SeqTool((self.0.1, self.0.2)).spec_parse(st@.skip(k as int))->Ok_0;
                            lemma_prefix_len_add(st@, k, k2);
                            lemma_prefix_len_bound(st@, k + k2);
                        }
                        ToolResult::Match { len: len + rlen }
                    },
                    ToolResult::NoMatch(_) => ToolResult::NoMatch(()),
                }
            },
            ToolResult::NoMatch(_) => ToolResult::NoMatch(()),
        }
    }
}

impl<A: ParseTool, B: ParseTool, C: ParseTool, D: ParseTool> ParseTool for Or<(A, B, C, D)> {
    type Error = ();

    open spec fn spec_parse(&self, st: Seq<char>) -> Result<nat, ()> {
        match self.0.0.spec_parse(st) {
            Ok(k) => Ok(k),
            Err(_) => Or((self.0.1, self.0.2, self.0.3)).spec_parse(st),
        }
    }

    open spec fn can_parse(&self, st: Seq<char>) -> bool {
        self.0.0.can_parse(st) && (self.0.0.spec_parse(st) is Err ==> Or((self.0.1, self.0.2, self.0.3)).can_parse(st))
    }

    fn parse(&self, st: &str) -> (r: ToolResult<()>) {
        let (t0, t1, t2, t3) = &self.0;
        match t0.parse(st) {
            ToolResult::Match { len } => ToolResult::Match { len },
            ToolResult::NoMatch(_) => Or((t1, t2, t3)).parse(st),
        }
    }
}

impl<A: ParseTool, B: ParseTool, C: ParseTool, D: ParseTool> ParseTool for SeqTool<(A, B, C, D)> {
    type Error = ();

    open spec fn spec_parse(&self, st: Seq<char>) -> Result<nat, ()> {
        match self.0.0.spec_parse(st) {
            Ok(k) => if k <= st.len() {
                match SeqTool((self.0.1, self.0.2, self.0.3)).spec_parse(st.skip(k as int)) {
                    Ok(k2) => Ok(k + k2),
                    Err(_) => Err(()),
                }
            } else {
                Err(())
            },
            Err(_) => Err(()),
        }
    }

    open spec fn can_parse(&self, st: Seq<char>) -> bool {
        self.0.0.can_parse(st) && match self.0.0.spec_parse(st) {
            Ok(k) => k <= st.len() ==> SeqTool((self.0.1, self.0.2, self.0.3)).can_parse(st.skip(k as int)),
            Err(_) => true,
        }
    }

    fn parse(&self, st: &str) -> (r: ToolResult<()>) {
        let (t0, t1, t2, t3) = &self.0;
        match t0.parse(st) {
            ToolResult::Match { len: rlen } => {
                let ghost k = self.0.0.spec_parse(st@)->Ok_0;
                let rest = skip_chars(st, rlen, Ghost(k));
                match SeqTool((t1, t2, t3)).parse(rest) {
                    ToolResult::Match { len } => {
                        let total = byte_len(st);
                        proof {
                            let k2 = SeqTool((self.0.1, self.0.2, self.0.3)).spec_parse(st@.skip(k as int))->Ok_0;
                            lemma_prefix_len_add(st@, k, k2);
                            lemma_prefix_len_bound(st@, k + k2);
                        }
                        ToolResult::Match { len: len + rlen }
                    },
                    ToolResult::NoMatch(_) => ToolResult::NoMatch(()),
                }
            },
            ToolResult::NoMatch(_) => ToolResult::NoMatch(()),
        }
    }
}

impl<A: ParseTool, B: ParseTool, C: ParseTool, D: ParseTool, E: ParseTool> ParseTool for Or<(A, B, C, D, E)> {
    type Error = ();

    open spec fn spec_parse(&self, st: Seq<char>) -> Result<nat, ()> {
        match self.0.0.spec_parse(st) {
            Ok(k) => Ok(k),
            Err(_) => Or((self.0.1, self.0.2, self.0.3, self.0.4)).spec_parse(st),
        }
    }

    open spec fn can_parse(&self, st: Seq<char>) -> bool {
        self.0.0.can_parse(st) && (self.0.0.spec_parse(st) is Err ==> Or((self.0.1, self.0.2, self.0.3, self.0.4)).can_parse(st))
    }

    fn parse(&self, st: &str) -> (r: ToolResult<()>) {
        let (t0, t1, t2, t3, t4) = &self.0;
        match t0.parse(st) {
            ToolResult::Match { len } => ToolResult::Match { len },
            ToolResult::NoMatch(_) => Or((t1, t2, t3, t4)).parse(st),
        }
    }
}

impl<A: ParseTool, B: ParseTool, C: ParseTool, D: ParseTool, E: ParseTool> ParseTool for SeqTool<(A, B, C, D, E)> {
    type Error = ();

    open spec fn spec_parse(&self, st: Seq<char>) -> Result<nat, ()> {
        match self.0.0.spec_parse(st) {
            Ok(k) => if k <= st.len() {
                match SeqTool((self.0.1, self.0.2, self.0.3, self.0.4)).spec_parse(st.skip(k as int)) {
                    Ok(k2) => Ok(k + k2),
                    Err(_) => Err(()),
                }
            } else {
                Err(())
            },
            Err(_) => Err(()),
        }
    }

    open spec fn can_parse(&self, st: Seq<char>) -> bool {
        self.0.0.can_parse(st) && match self.0.0.spec_parse(st) {
            Ok(k) => k <= st.len() ==> SeqTool((self.0.1, self.0.2, self.0.3, self.0.4)).can_parse(st.skip(k as int)),
            Err(_) => true,
        }
    }

    fn parse(&self, st: &str) -> (r: ToolResult<()>) {
        let (t0, t1, t2, t3, t4) = &self.0;
        match t0.parse(st) {
            ToolResult::Match { len: rlen } => {
                let ghost k = self.0.0.spec_parse(st@)->Ok_0;
                let rest = skip_chars(st, rlen, Ghost(k));
                match SeqTool((t1, t2, t3, t4)).parse(rest) {
                    ToolResult::Match { len } => {
                        let total = byte_len(st);
                        proof {
                            let k2 = SeqTool((self.0.1, self.0.2, self.0.3, self.0.4)).spec_parse(st@.skip(k as int))->Ok_0;
                            lemma_prefix_len_add(st@, k, k2);
                            lemma_prefix_len_bound(st@, k + k2);
                        }
                        ToolResult::Match { len: len + rlen }
                    },
                    ToolResult::NoMatch(_) => ToolResult::NoMatch(()),
                }
            },
            ToolResult::NoMatch(_) => ToolResult::NoMatch(()),
        }
    }
}

impl<A: ParseTool, B: ParseTool, C: ParseTool, D: ParseTool, E: ParseTool, F: ParseTool> ParseTool for Or<(A, B, C, D, E, F)> {
    type Error = ();

    open spec fn spec_parse(&self, st: Seq<char>) -> Result<nat, ()> {
        match self.0.0.spec_parse(st) {
            Ok(k) => Ok(k),
            Err(_) => Or((self.0.1, self.0.2, self.0.3, self.0.4, self.0.5)).spec_parse(st),
        }
    }

    open spec fn can_parse(&self, st: Seq<char>) -> bool {
        self.0.0.can_parse(st) && (self.0.0.spec_parse(st) is Err ==> Or((self.0.1, self.0.2, self.0.3, self.0.4, self.0.5)).can_parse(st))
    }

    fn parse(&self, st: &str) -> (r: ToolResult<()>) {
        let (t0, t1, t2, t3, t4, t5) = &self.0;
        match t0.parse(st) {
            ToolResult::Match { len } => ToolResult::Match { len },
            ToolResult::NoMatch(_) => Or((t1, t2, t3, t4, t5)).parse(st),
        }
    }
}

impl<A: ParseTool, B: ParseTool, C: ParseTool, D: ParseTool, E: ParseTool, F: ParseTool> ParseTool for SeqTool<(A, B, C, D, E, F)> {
    type Error = ();

    open spec fn spec_parse(&self, st: Seq<char>) -> Result<nat, ()> {
        match self.0.0.spec_parse(st) {
            Ok(k) => if k <= st.len() {
                match SeqTool((self.0.1, self.0.2, self.0.3, self.0.4, self.0.5)).spec_parse(st.skip(k as int)) {
                    Ok(k2) => Ok(k + k2),
                    Err(_) => Err(()),
                }
            } else {
                Err(())
            },
            Err(_) => Err(()),
        }
    }

    open spec fn can_parse(&self, st: Seq<char>) -> bool {
        self.0.0.can_parse(st) && match self.0.0.spec_parse(st) {
            Ok(k) => k <= st.len() ==> SeqTool((self.0.1, self.0.2, self.0.3, self.0.4, self.0.5)).can_parse(st.skip(k as int)),
            Err(_) => true,
        }
    }

    fn parse(&self, st: &str) -> (r: ToolResult<()>) {
        let (t0, t1, t2, t3, t4, t5) = &self.0;
        match t0.parse(st) {
            ToolResult::Match { len: rlen } => {
                let ghost k = self.0.0.spec_parse(st@)->Ok_0;
                let rest = skip_chars(st, rlen, Ghost(k));
                match SeqTool((t1, t2, t3, t4, t5)).parse(rest) {
                    ToolResult::Match { len } => {
                        let total = byte_len(st);
                        proof {
                            let k2 = SeqTool((self.0.1, self.0.2, self.0.3, self.0.4, self.0.5)).spec_parse(st@.skip(k as int))->Ok_0;
                            lemma_prefix_len_add(st@, k, k2);
                            lemma_prefix_len_bound(st@, k + k2);
                        }
                        ToolResult::Match { len: len + rlen }
                    },
                    ToolResult::NoMatch(_) => ToolResult::NoMatch(()),
                }
            },
            ToolResult::NoMatch(_) => ToolResult::NoMatch(()),
        }
    }
}

impl<A: ParseTool, B: ParseTool, C: ParseTool, D: ParseTool, E: ParseTool, F: ParseTool, G: ParseTool> ParseTool for Or<(A, B, C, D, E, F, G)> {
    type Error = ();

    open spec fn spec_parse(&self, st: Seq<char>) -> Result<nat, ()> {
        match self.0.0.spec_parse(st) {
            Ok(k) => Ok(k),
            Err(_) => Or((self.0.1, self.0.2, self.0.3, self.0.4, self.0.5, self.0.6)).spec_parse(st),
        }
    }

    open spec fn can_parse(&self, st: Seq<char>) -> bool {
        self.0.0.can_parse(st) && (self.0.0.spec_parse(st) is Err ==> Or((self.0.1, self.0.2, self.0.3, self.0.4, self.0.5, self.0.6)).can_parse(st))
    }

    fn parse(&self, st: &str) -> (r: ToolResult<()>) {
        let (t0, t1, t2, t3, t4, t5, t6) = &self.0;
        match t0.parse(st) {
            ToolResult::Match { len } => ToolResult::Match { len },
            ToolResult::NoMatch(_) => Or((t1, t2, t3, t4, t5, t6)).parse(st),
        }
    }
}

impl<A: ParseTool, B: ParseTool, C: ParseTool, D: ParseTool, E: ParseTool, F: ParseTool, G: ParseTool> ParseTool for SeqTool<(A, B, C, D, E, F, G)> {
    type Error = ();

    open spec fn spec_parse(&self, st: Seq<char>) -> Result<nat, ()> {
        match self.0.0.spec_parse(st) {
            Ok(k) => if k <= st.len() {
                match SeqTool((self.0.1, self.0.2, self.0.3, self.0.4, self.0.5, self.0.6)).spec_parse(st.skip(k as int)) {
                    Ok(k2) => Ok(k + k2),
                    Err(_) => Err(()),
                }
            } else {
                Err(())
            },
            Err(_) => Err(()),
        }
    }

    open spec fn can_parse(&self, st: Seq<char>) -> bool {
        self.0.0.can_parse(st) && match self.0.0.spec_parse(st) {
            Ok(k) => k <= st.len() ==> SeqTool((self.0.1, self.0.2, self.0.3, self.0.4, self.0.5, self.0.6)).can_parse(st.skip(k as int)),
            Err(_) => true,
        }
    }

    fn parse(&self, st: &str) -> (r: ToolResult<()>) {
        let (t0, t1, t2, t3, t4, t5, t6) = &self.0;
        match t0.parse(st) {
            ToolResult::Match { len: rlen } => {
                let ghost k = self.0.0.spec_parse(st@)->Ok_0;
                let rest = skip_chars(st, rlen, Ghost(k));
                match SeqTool((t1, t2, t3, t4, t5, t6)).parse(rest) {
                    ToolResult::Match { len } => {
                        let total = byte_len(st);
                        proof {
                            let k2 = SeqTool((self.0.1, self.0.2, self.0.3, self.0.4, self.0.5, self.0.6)).spec_parse(st@.skip(k as int))->Ok_0;
                            lemma_prefix_len_add(st@, k, k2);
                            lemma_prefix_len_bound(st@, k + k2);
                        }
                        ToolResult::Match { len: len + rlen }
                    },
                    ToolResult::NoMatch(_) => ToolResult::NoMatch(()),
                }
            },
            ToolResult::NoMatch(_) => ToolResult::NoMatch(()),
        }
    }
}

impl<A: ParseTool, B: ParseTool, C: ParseTool, D: ParseTool, E: ParseTool, F: ParseTool, G: ParseTool, H: ParseTool> ParseTool for Or<(A, B, C, D, E, F, G, H)> {
    type Error = ();

    open spec fn spec_parse(&self, st: Seq<char>) -> Result<nat, ()> {
        match self.0.0.spec_parse(st) {
            Ok(k) => Ok(k),
            Err(_) => Or((self.0.1, self.0.2, self.0.3, self.0.4, self.0.5, self.0.6, self.0.7)).spec_parse(st),
        }
    }

    open spec fn can_parse(&self, st: Seq<char>) -> bool {
        self.0.0.can_parse(st) && (self.0.0.spec_parse(st) is Err ==> Or((self.0.1, self.0.2, self.0.3, self.0.4, self.0.5, self.0.6, self.0.7)).can_parse(st))
    }

    fn parse(&self, st: &str) -> (r: ToolResult<()>) {
        let (t0, t1, t2, t3, t4, t5, t6, t7) = &self.0;
        match t0.parse(st) {
            ToolResult::Match { len } => ToolResult::Match { len },
            ToolResult::NoMatch(_) => Or((t1, t2, t3, t4, t5, t6, t7)).parse(st),
        }
    }
}

impl<A: ParseTool, B: ParseTool, C: ParseTool, D: ParseTool, E: ParseTool, F: ParseTool, G: ParseTool, H: ParseTool> ParseTool for SeqTool<(A, B, C, D, E, F, G, H)> {
    type Error = ();

    open spec fn spec_parse(&self, st: Seq<char>) -> Result<nat, ()> {
        match self.0.0.spec_parse(st) {
            Ok(k) => if k <= st.len() {
                match SeqTool((self.0.1, self.0.2, self.0.3, self.0.4, self.0.5, self.0.6, self.0.7)).spec_parse(st.skip(k as int)) {
                    Ok(k2) => Ok(k + k2),
                    Err(_) => Err(()),
                }
            } else {
                Err(())
            },
            Err(_) => Err(()),
        }
    }

    open spec fn can_parse(&self, st: Seq<char>) -> bool {
        self.0.0.can_parse(st) && match self.0.0.spec_parse(st) {
            Ok(k) => k <= st.len() ==> SeqTool((self.0.1, self.0.2, self.0.3, self.0.4, self.0.5, self.0.6, self.0.7)).can_parse(st.skip(k as int)),
            Err(_) => true,
        }
    }

    fn parse(&self, st: &str) -> (r: ToolResult<()>) {
        let (t0, t1, t2, t3, t4, t5, t6, t7) = &self.0;
        match t0.parse(st) {
            ToolResult::Match { len: rlen } => {
                let ghost k = self.0.0.spec_parse(st@)->Ok_0;
                let rest = skip_chars(st, rlen, Ghost(k));
                match SeqTool((t1, t2, t3, t4, t5, t6, t7)).parse(rest) {
                    ToolResult::Match { len } => {
                        let total = byte_len(st);
                        proof {
                            let k2 = SeqTool((self.0.1, self.0.2, self.0.3, self.0.4, self.0.5, self.0.6, self.0.7)).spec_parse(st@.skip(k as int))->Ok_0;
                            lemma_prefix_len_add(st@, k, k2);
                            lemma_prefix_len_bound(st@, k + k2);
                        }
                        ToolResult::Match { len: len + rlen }
                    },
                    ToolResult::NoMatch(_) => ToolResult::NoMatch(()),
                }
            },
            ToolResult::NoMatch(_) => ToolResult::NoMatch(()),
        }
    }
}

impl<A: ParseTool, B: ParseTool, C: ParseTool, D: ParseTool, E: ParseTool, F: ParseTool, G: ParseTool, H: ParseTool, I: ParseTool> ParseTool for Or<(A, B, C, D, E, F, G, H, I)> {
    type Error = ();

    open spec fn spec_parse(&self, st: Seq<char>) -> Result<nat, ()> {
        match self.0.0.spec_parse(st) {
            Ok(k) => Ok(k),
            Err(_) => Or((self.0.1, self.0.2, self.0.3, self.0.4, self.0.5, self.0.6, self.0.7, self.0.8)).spec_parse(st),
        }
    }

    open spec fn can_parse(&self, st: Seq<char>) -> bool {
        self.0.0.can_parse(st) && (self.0.0.spec_parse(st) is Err ==> Or((self.0.1, self.0.2, self.0.3, self.0.4, self.0.5, self.0.6, self.0.7, self.0.8)).can_parse(st))
    }

    fn parse(&self, st: &str) -> (r: ToolResult<()>) {
        let (t0, t1, t2, t3, t4, t5, t6, t7, t8) = &self.0;
        match t0.parse(st) {
            ToolResult::Match { len } => ToolResult::Match { len },
            ToolResult::NoMatch(_) => Or((t1, t2, t3, t4, t5, t6, t7, t8)).parse(st),
        }
    }
}

impl<A: ParseTool, B: ParseTool, C: ParseTool, D: ParseTool, E: ParseTool, F: ParseTool, G: ParseTool, H: ParseTool, I: ParseTool> ParseTool for SeqTool<(A, B, C, D, E, F, G, H, I)> {
    type Error = ();

    open spec fn spec_parse(&self, st: Seq<char>) -> Result<nat, ()> {
        match self.0.0.spec_parse(st) {
            Ok(k) => if k <= st.len() {
                match SeqTool((self.0.1, self.0.2, self.0.3, self.0.4, self.0.5, self.0.6, self.0.7, self.0.8)).spec_parse(st.skip(k as int)) {
                    Ok(k2) => Ok(k + k2),
                    Err(_) => Err(()),
                }
            } else {
                Err(())
            },
            Err(_) => Err(()),
        }
    }

    open spec fn can_parse(&self, st: Seq<char>) -> bool {
        self.0.0.can_parse(st) && match self.0.0.spec_parse(st) {
            Ok(k) => k <= st.len() ==> SeqTool((self.0.1, self.0.2, self.0.3, self.0.4, self.0.5, self.0.6, self.0.7, self.0.8)).can_parse(st.skip(k as int)),
            Err(_) => true,
        }
    }

    fn parse(&self, st: &str) -> (r: ToolResult<()>) {
        let (t0, t1, t2, t3, t4, t5, t6, t7, t8) = &self.0;
        match t0.parse(st) {
            ToolResult::Match { len: rlen } => {
                let ghost k = self.0.0.spec_parse(st@)->Ok_0;
                let rest = skip_chars(st, rlen, Ghost(k));
                match SeqTool((t1, t2, t3, t4, t5, t6, t7, t8)).parse(rest) {
                    ToolResult::Match { len } => {
                        let total = byte_len(st);
                        proof {
                            let k2 = SeqTool((self.0.1, self.0.2, self.0.3, self.0.4, self.0.5, self.0.6, self.0.7, self.0.8)).spec_parse(st@.skip(k as int))->Ok_0;
                            lemma_prefix_len_add(st@, k, k2);
                            lemma_prefix_len_bound(st@, k + k2);
                        }
                        ToolResult::Match { len: len + rlen }
                    },
                    ToolResult::NoMatch(_) => ToolResult::NoMatch(()),
                }
            },
            ToolResult::NoMatch(_) => ToolResult::NoMatch(()),
        }
    }
}

impl<A: ParseTool, B: ParseTool, C: ParseTool, D: ParseTool, E: ParseTool, F: ParseTool, G: ParseTool, H: ParseTool, I: ParseTool, J: ParseTool> ParseTool for Or<(A, B, C, D, E, F, G, H, I, J)> {
    type Error = ();

    open spec fn spec_parse(&self, st: Seq<char>) -> Result<nat, ()> {
        match self.0.0.spec_parse(st) {
            Ok(k) => Ok(k),
            Err(_) => Or((self.0.1, self.0.2, self.0.3, self.0.4, self.0.5, self.0.6, self.0.7, self.0.8, self.0.9)).spec_parse(st),
        }
    }

    open spec fn can_parse(&self, st: Seq<char>) -> bool {
        self.0.0.can_parse(st) && (self.0.0.spec_parse(st) is Err ==> Or((self.0.1, self.0.2, self.0.3, self.0.4, self.0.5, self.0.6, self.0.7, self.0.8, self.0.9)).can_parse(st))
    }

    fn parse(&self, st: &str) -> (r: ToolResult<()>) {
        let (t0, t1, t2, t3, t4, t5, t6, t7, t8, t9) = &self.0;
        match t0.parse(st) {
            ToolResult::Match { len } => ToolResult::Match { len },
            ToolResult::NoMatch(_) => Or((t1, t2, t3, t4, t5, t6, t7, t8, t9)).parse(st),
        }
    }
}

impl<A: ParseTool, B: ParseTool, C: ParseTool, D: ParseTool, E: ParseTool, F: ParseTool, G: ParseTool, H: ParseTool, I: ParseTool, J: ParseTool> ParseTool for SeqTool<(A, B, C, D, E, F, G, H, I, J)> {
    type Error = ();

    open spec fn spec_parse(&self, st: Seq<char>) -> Result<nat, ()> {
        match self.0.0.spec_parse(st) {
            Ok(k) => if k <= st.len() {
                match SeqTool((self.0.1, self.0.2, self.0.3, self.0.4, self.0.5, self.0.6, self.0.7, self.0.8, self.0.9)).spec_parse(st.skip(k as int)) {
                    Ok(k2) => Ok(k + k2),
                    Err(_) => Err(()),
                }
            } else {
                Err(())
            },
            Err(_) => Err(()),
        }
    }

    open spec fn can_parse(&self, st: Seq<char>) -> bool {
        self.0.0.can_parse(st) && match self.0.0.spec_parse(st) {
            Ok(k) => k <= st.len() ==> SeqTool((self.0.1, self.0.2, self.0.3, self.0.4, self.0.5, self.0.6, self.0.7, self.0.8, self.0.9)).can_parse(st.skip(k as int)),
            Err(_) => true,
        }
    }

    fn parse(&self, st: &str) -> (r: ToolResult<()>) {
        let (t0, t1, t2, t3, t4, t5, t6, t7, t8, t9) = &self.0;
        match t0.parse(st) {
            ToolResult::Match { len: rlen } => {
                let ghost k = self.0.0.spec_parse(st@)->Ok_0;
                let rest = skip_chars(st, rlen, Ghost(k));
                match SeqTool((t1, t2, t3, t4, t5, t6, t7, t8, t9)).parse(rest) {
                    ToolResult::Match { len } => {
                        let total = byte_len(st);
                        proof {
                            let k2 = SeqTool((self.0.1, self.0.2, self.0.3, self.0.4, self.0.5, self.0.6, self.0.7, self.0.8, self.0.9)).spec_parse(st@.skip(k as int))->Ok_0;
                            lemma_prefix_len_add(st@, k, k2);
                            lemma_prefix_len_bound(st@, k + k2);
                        }
                        ToolResult::Match { len: len + rlen }
                    },
                    ToolResult::NoMatch(_) => ToolResult::NoMatch(()),
                }
            },
            ToolResult::NoMatch(_) => ToolResult::NoMatch(()),
        }
    }
}

impl<A: ParseTool, B: ParseTool, C: ParseTool, D: ParseTool, E: ParseTool, F: ParseTool, G: ParseTool, H: ParseTool, I: ParseTool, J: ParseTool, K: ParseTool> ParseTool for Or<(A, B, C, D, E, F, G, H, I, J, K)> {
    type Error = ();

    open spec fn spec_parse(&self, st: Seq<char>) -> Result<nat, ()> {
        match self.0.0.spec_parse(st) {
            Ok(k) => Ok(k),
            Err(_) => Or((self.0.1, self.0.2, self.0.3, self.0.4, self.0.5, self.0.6, self.0.7, self.0.8, self.0.9, self.0.10)).spec_parse(st),
        }
    }

    open spec fn can_parse(&self, st: Seq<char>) -> bool {
        self.0.0.can_parse(st) && (self.0.0.spec_parse(st) is Err ==> Or((self.0.1, self.0.2, self.0.3, self.0.4, self.0.5, self.0.6, self.0.7, self.0.8, self.0.9, self.0.10)).can_parse(st))
    }

    fn parse(&self, st: &str) -> (r: ToolResult<()>) {
        let (t0, t1, t2, t3, t4, t5, t6, t7, t8, t9, t10) = &self.0;
        match t0.parse(st) {
            ToolResult::Match { len } => ToolResult::Match { len },
            ToolResult::NoMatch(_) => Or((t1, t2, t3, t4, t5, t6, t7, t8, t9, t10)).parse(st),
        }
    }
}

impl<A: ParseTool, B: ParseTool, C: ParseTool, D: ParseTool, E: ParseTool, F: ParseTool, G: ParseTool, H: ParseTool, I: ParseTool, J: ParseTool, K: ParseTool> ParseTool for SeqTool<(A, B, C, D, E, F, G, H, I, J, K)> {
    type Error = ();

    open spec fn spec_parse(&self, st: Seq<char>) -> Result<nat, ()> {
        match self.0.0.spec_parse(st) {
            Ok(k) => if k <= st.len() {
                match SeqTool((self.0.1, self.0.2, self.0.3, self.0.4, self.0.5, self.0.6, self.0.7, self.0.8, self.0.9, self.0.10)).spec_parse(st.skip(k as int)) {
                    Ok(k2) => Ok(k + k2),
                    Err(_) => Err(()),
                }
            } else {
                Err(())
            },
            Err(_) => Err(()),
        }
    }

    open spec fn can_parse(&self, st: Seq<char>) -> bool {
        self.0.0.can_parse(st) && match self.0.0.spec_parse(st) {
            Ok(k) => k <= st.len() ==> SeqTool((self.0.1, self.0.2, self.0.3, self.0.4, self.0.5, self.0.6, self.0.7, self.0.8, self.0.9, self.0.10)).can_parse(st.skip(k as int)),
            Err(_) => true,
        }
    }

    fn parse(&self, st: &str) -> (r: ToolResult<()>) {
        let (t0, t1, t2, t3, t4, t5, t6, t7, t8, t9, t10) = &self.0;
        match t0.parse(st) {
            ToolResult::Match { len: rlen } => {
                let ghost k = self.0.0.spec_parse(st@)->Ok_0;
                let rest = skip_chars(st, rlen, Ghost(k));
                match SeqTool((t1, t2, t3, t4, t5, t6, t7, t8, t9, t10)).parse(rest) {
                    ToolResult::Match { len } => {
                        let total = byte_len(st);
                        proof {
                            let k2 = SeqTool((self.0.1, self.0.2, self.0.3, self.0.4, self.0.5, self.0.6, self.0.7, self.0.8, self.0.9, self.0.10)).spec_parse(st@.skip(k as int))->Ok_0;
                            lemma_prefix_len_add(st@, k, k2);
                            lemma_prefix_len_bound(st@, k + k2);
                        }
                        ToolResult::Match { len: len + rlen }
                    },
                    ToolResult::NoMatch(_) => ToolResult::NoMatch(()),
                }
            },
            ToolResult::NoMatch(_) => ToolResult::NoMatch(()),
        }
    }
}

impl<A: ParseTool, B: ParseTool, C: ParseTool, D: ParseTool, E: ParseTool, F: ParseTool, G: ParseTool, H: ParseTool, I: ParseTool, J: ParseTool, K: ParseTool, L: ParseTool> ParseTool for Or<(A, B, C, D, E, F, G, H, I, J, K, L)> {
    type Error = ();

    open spec fn spec_parse(&self, st: Seq<char>) -> Result<nat, ()> {
        match self.0.0.spec_parse(st) {
            Ok(k) => Ok(k),
            Err(_) => Or((self.0.1, self.0.2, self.0.3, self.0.4, self.0.5, self.0.6, self.0.7, self.0.8, self.0.9, self.0.10, self.0.11)).spec_parse(st),
        }
    }

    open spec fn can_parse(&self, st: Seq<char>) -> bool {
        self.0.0.can_parse(st) && (self.0.0.spec_parse(st) is Err ==> Or((self.0.1, self.0.2, self.0.3, self.0.4, self.0.5, self.0.6, self.0.7, self.0.8, self.0.9, self.0.10, self.0.11)).can_parse(st))
    }

    fn parse(&self, st: &str) -> (r: ToolResult<()>) {
        let (t0, t1, t2, t3, t4, t5, t6, t7, t8, t9, t10, t11) = &self.0;
        match t0.parse(st) {
            ToolResult::Match { len } => ToolResult::Match { len },
            ToolResult::NoMatch(_) => Or((t1, t2, t3, t4, t5, t6, t7, t8, t9, t10, t11)).parse(st),
        }
    }
}

impl<A: ParseTool, B: ParseTool, C: ParseTool, D: ParseTool, E: ParseTool, F: ParseTool, G: ParseTool, H: ParseTool, I: ParseTool, J: ParseTool, K: ParseTool, L: ParseTool> ParseTool for SeqTool<(A, B, C, D, E, F, G, H, I, J, K, L)> {
    type Error = ();

    open spec fn spec_parse(&self, st: Seq<char>) -> Result<nat, ()> {
        match self.0.0.spec_parse(st) {
            Ok(k) => if k <= st.len() {
                match SeqTool((self.0.1, self.0.2, self.0.3, self.0.4, self.0.5, self.0.6, self.0.7, self.0.8, self.0.9, self.0.10, self.0.11)).spec_parse(st.skip(k as int)) {
                    Ok(k2) => Ok(k + k2),
                    Err(_) => Err(()),
                }
            } else {
                Err(())
            },
            Err(_) => Err(()),
        }
    }

    open spec fn can_parse(&self, st: Seq<char>) -> bool {
        self.0.0.can_parse(st) && match self.0.0.spec_parse(st) {
            Ok(k) => k <= st.len() ==> SeqTool((self.0.1, self.0.2, self.0.3, self.0.4, self.0.5, self.0.6, self.0.7, self.0.8, self.0.9, self.0.10, self.0.11)).can_parse(st.skip(k as int)),
            Err(_) => true,
        }
    }

    fn parse(&self, st: &str) -> (r: ToolResult<()>) {
        let (t0, t1, t2, t3, t4, t5, t6, t7, t8, t9, t10, t11) = &self.0;
        match t0.parse(st) {
            ToolResult::Match { len: rlen } => {
                let ghost k = self.0.0.spec_parse(st@)->Ok_0;
                let rest = skip_chars(st, rlen, Ghost(k));
                match SeqTool((t1, t2, t3, t4, t5, t6, t7, t8, t9, t10, t11)).parse(rest) {
                    ToolResult::Match { len } => {
                        let total = byte_len(st);
                        proof {
                            let k2 = SeqTool((self.0.1, self.0.2, self.0.3, self.0.4, self.0.5, self.0.6, self.0.7, self.0.8, self.0.9, self.0.10, self.0.11)).spec_parse(st@.skip(k as int))->Ok_0;
                            lemma_prefix_len_add(st@, k, k2);
                            lemma_prefix_len_bound(st@, k + k2);
                        }
                        ToolResult::Match { len: len + rlen }
                    },
                    ToolResult::NoMatch(_) => ToolResult::NoMatch(()),
                }
            },
            ToolResult::NoMatch(_) => ToolResult::NoMatch(()),
        }
    }
}

impl<A: ParseTool, B: ParseTool, C: ParseTool, D: ParseTool, E: ParseTool, F: ParseTool, G: ParseTool, H: ParseTool, I: ParseTool, J: ParseTool, K: ParseTool, L: ParseTool, M: ParseTool> ParseTool for Or<(A, B, C, D, E, F, G, H, I, J, K, L, M)> {
    type Error = ();

    open spec fn spec_parse(&self, st: Seq<char>) -> Result<nat, ()> {
        match self.0.0.spec_parse(st) {
            Ok(k) => Ok(k),
            Err(_) => Or((self.0.1, self.0.2, self.0.3, self.0.4, self.0.5, self.0.6, self.0.7, self.0.8, self.0.9, self.0.10, self.0.11, self.0.12)).spec_parse(st),
        }
    }

    open spec fn can_parse(&self, st: Seq<char>) -> bool {
        self.0.0.can_parse(st) && (self.0.0.spec_parse(st) is Err ==> Or((self.0.1, self.0.2, self.0.3, self.0.4, self.0.5, self.0.6, self.0.7, self.0.8, self.0.9, self.0.10, self.0.11, self.0.12)).can_parse(st))
    }

    fn parse(&self, st: &str) -> (r: ToolResult<()>) {
        let (t0, t1, t2, t3, t4, t5, t6, t7, t8, t9, t10, t11, t12) = &self.0;
        match t0.parse(st) {
            ToolResult::Match { len } => ToolResult::Match { len },
            ToolResult::NoMatch(_) => Or((t1, t2, t3, t4, t5, t6, t7, t8, t9, t10, t11, t12)).parse(st),
        }
    }
}

impl<A: ParseTool, B: ParseTool, C: ParseTool, D: ParseTool, E: ParseTool, F: ParseTool, G: ParseTool, H: ParseTool, I: ParseTool, J: ParseTool, K: ParseTool, L: ParseTool, M: ParseTool> ParseTool for SeqTool<(A, B, C, D, E, F, G, H, I, J, K, L, M)> {
    type Error = ();

    open spec fn spec_parse(&self, st: Seq<char>) -> Result<nat, ()> {
        match self.0.0.spec_parse(st) {
            Ok(k) => if k <= st.len() {
                match SeqTool((self.0.1, self.0.2, self.0.3, self.0.4, self.0.5, self.0.6, self.0.7, self.0.8, self.0.9, self.0.10, self.0.11, self.0.12)).spec_parse(st.skip(k as int)) {
                    Ok(k2) => Ok(k + k2),
                    Err(_) => Err(()),
                }
            } else {
                Err(())
            },
            Err(_) => Err(()),
        }
    }

    open spec fn can_parse(&self, st: Seq<char>) -> bool {
        self.0.0.can_parse(st) && match self.0.0.spec_parse(st) {
            Ok(k) => k <= st.len() ==> SeqTool((self.0.1, self.0.2, self.0.3, self.0.4, self.0.5, self.0.6, self.0.7, self.0.8, self.0.9, self.0.10, self.0.11, self.0.12)).can_parse(st.skip(k as int)),
            Err(_) => true,
        }
    }

    fn parse(&self, st: &str) -> (r: ToolResult<()>) {
        let (t0, t1, t2, t3, t4, t5, t6, t7, t8, t9, t10, t11, t12) = &self.0;
        match t0.parse(st) {
            ToolResult::Match { len: rlen } => {
                let ghost k = self.0.0.spec_parse(st@)->Ok_0;
                let rest = skip_chars(st, rlen, Ghost(k));
                match SeqTool((t1, t2, t3, t4, t5, t6, t7, t8, t9, t10, t11, t12)).parse(rest) {
                    ToolResult::Match { len } => {
                        let total = byte_len(st);
                        proof {
                            let k2 = SeqTool((self.0.1, self.0.2, self.0.3, self.0.4, self.0.5, self.0.6, self.0.7, self.0.8, self.0.9, self.0.10, self.0.11, self.0.12)).spec_parse(st@.skip(k as int))->Ok_0;
                            lemma_prefix_len_add(st@, k, k2);
                            lemma_prefix_len_bound(st@, k + k2);
                        }
                        ToolResult::Match { len: len + rlen }
                    },
                    ToolResult::NoMatch(_) => ToolResult::NoMatch(()),
                }
            },
            ToolResult::NoMatch(_) => ToolResult::NoMatch(()),
        }
    }
}

impl<A: ParseTool, B: ParseTool, C: ParseTool, D: ParseTool, E: ParseTool, F: ParseTool, G: ParseTool, H: ParseTool, I: ParseTool, J: ParseTool, K: ParseTool, L: ParseTool, M: ParseTool, N: ParseTool> ParseTool for Or<(A, B, C, D, E, F, G, H, I, J, K, L, M, N)> {
    type Error = ();

    open spec fn spec_parse(&self, st: Seq<char>) -> Result<nat, ()> {
        match self.0.0.spec_parse(st) {
            Ok(k) => Ok(k),
            Err(_) => Or((self.0.1, self.0.2, self.0.3, self.0.4, self.0.5, self.0.6, self.0.7, self.0.8, self.0.9, self.0.10, self.0.11, self.0.12, self.0.13)).spec_parse(st),
        }
    }

    open spec fn can_parse(&self, st: Seq<char>) -> bool {
        self.0.0.can_parse(st) && (self.0.0.spec_parse(st) is Err ==> Or((self.0.1, self.0.2, self.0.3, self.0.4, self.0.5, self.0.6, self.0.7, self.0.8, self.0.9, self.0.10, self.0.11, self.0.12, self.0.13)).can_parse(st))
    }

    fn parse(&self, st: &str) -> (r: ToolResult<()>) {
        let (t0, t1, t2, t3, t4, t5, t6, t7, t8, t9, t10, t11, t12, t13) = &self.0;
        match t0.parse(st) {
            ToolResult::Match { len } => ToolResult::Match { len },
            ToolResult::NoMatch(_) => Or((t1, t2, t3, t4, t5, t6, t7, t8, t9, t10, t11, t12, t13)).parse(st),
        }
    }
}

impl<A: ParseTool, B: ParseTool, C: ParseTool, D: ParseTool, E: ParseTool, F: ParseTool, G: ParseTool, H: ParseTool, I: ParseTool, J: ParseTool, K: ParseTool, L: ParseTool, M: ParseTool, N: ParseTool> ParseTool for SeqTool<(A, B, C, D, E, F, G, H, I, J, K, L, M, N)> {
    type Error = ();

    open spec fn spec_parse(&self, st: Seq<char>) -> Result<nat, ()> {
        match self.0.0.spec_parse(st) {
            Ok(k) => if k <= st.len() {
                match SeqTool((self.0.1, self.0.2, self.0.3, self.0.4, self.0.5, self.0.6, self.0.7, self.0.8, self.0.9, self.0.10, self.0.11, self.0.12, self.0.13)).spec_parse(st.skip(k as int)) {
                    Ok(k2) => Ok(k + k2),
                    Err(_) => Err(()),
                }
            } else {
                Err(())
            },
            Err(_) => Err(()),
        }
    }

    open spec fn can_parse(&self, st: Seq<char>) -> bool {
        self.0.0.can_parse(st) && match self.0.0.spec_parse(st) {
            Ok(k) => k <= st.len() ==> SeqTool((self.0.1, self.0.2, self.0.3, self.0.4, self.0.5, self.0.6, self.0.7, self.0.8, self.0.9, self.0.10, self.0.11, self.0.12, self.0.13)).can_parse(st.skip(k as int)),
            Err(_) => true,
        }
    }

    fn parse(&self, st: &str) -> (r: ToolResult<()>) {
        let (t0, t1, t2, t3, t4, t5, t6, t7, t8, t9, t10, t11, t12, t13) = &self.0;
        match t0.parse(st) {
            ToolResult::Match { len: rlen } => {
                let ghost k = self.0.0.spec_parse(st@)->Ok_0;
                let rest = skip_chars(st, rlen, Ghost(k));
                match SeqTool((t1, t2, t3, t4, t5, t6, t7, t8, t9, t10, t11, t12, t13)).parse(rest) {
                    ToolResult::Match { len } => {
                        let total = byte_len(st);
                        proof {
                            let k2 = SeqTool((self.0.1, self.0.2, self.0.3, self.0.4, self.0.5, self.0.6, self.0.7, self.0.8, self.0.9, self.0.10, self.0.11, self.0.12, self.0.13)).spec_parse(st@.skip(k as int))->Ok_0;
                            lemma_prefix_len_add(st@, k, k2);
                            lemma_prefix_len_bound(st@, k + k2);
                        }
                        ToolResult::Match { len: len + rlen }
                    },
                    ToolResult::NoMatch(_) => ToolResult::NoMatch(()),
                }
            },
            ToolResult::NoMatch(_) => ToolResult::NoMatch(()),
        }
    }
}

impl<A: ParseTool, B: ParseTool, C: ParseTool, D: ParseTool, E: ParseTool, F: ParseTool, G: ParseTool, H: ParseTool, I: ParseTool, J: ParseTool, K: ParseTool, L: ParseTool, M: ParseTool, N: ParseTool, O: ParseTool> ParseTool for Or<(A, B, C, D, E, F, G, H, I, J, K, L, M, N, O)> {
    type Error = ();

    open spec fn spec_parse(&self, st: Seq<char>) -> Result<nat, ()> {
        match self.0.0.spec_parse(st) {
            Ok(k) => Ok(k),
            Err(_) => Or((self.0.1, self.0.2, self.0.3, self.0.4, self.0.5, self.0.6, self.0.7, self.0.8, self.0.9, self.0.10, self.0.11, self.0.12, self.0.13, self.0.14)).spec_parse(st),
        }
    }

    open spec fn can_parse(&self, st: Seq<char>) -> bool {
        self.0.0.can_parse(st) && (self.0.0.spec_parse(st) is Err ==> Or((self.0.1, self.0.2, self.0.3, self.0.4, self.0.5, self.0.6, self.0.7, self.0.8, self.0.9, self.0.10, self.0.11, self.0.12, self.0.13, self.0.14)).can_parse(st))
    }

    fn parse(&self, st: &str) -> (r: ToolResult<()>) {
        let (t0, t1, t2, t3, t4, t5, t6, t7, t8, t9, t10, t11, t12, t13, t14) = &self.0;
        match t0.parse(st) {
            ToolResult::Match { len } => ToolResult::Match { len },
            ToolResult::NoMatch(_) => Or((t1, t2, t3, t4, t5, t6, t7, t8, t9, t10, t11, t12, t13, t14)).parse(st),
        }
    }
}

impl<A: ParseTool, B: ParseTool, C: ParseTool, D: ParseTool, E: ParseTool, F: ParseTool, G: ParseTool, H: ParseTool, I: ParseTool, J: ParseTool, K: ParseTool, L: ParseTool, M: ParseTool, N: ParseTool, O: ParseTool> ParseTool for SeqTool<(A, B, C, D, E, F, G, H, I, J, K, L, M, N, O)> {
    type Error = ();

    open spec fn spec_parse(&self, st: Seq<char>) -> Result<nat, ()> {
        match self.0.0.spec_parse(st) {
            Ok(k) => if k <= st.len() {
                match SeqTool((self.0.1, self.0.2, self.0.3, self.0.4, self.0.5, self.0.6, self.0.7, self.0.8, self.0.9, self.0.10, self.0.11, self.0.12, self.0.13, self.0.14)).spec_parse(st.skip(k as int)) {
                    Ok(k2) => Ok(k + k2),
                    Err(_) => Err(()),
                }
            } else {
                Err(())
            },
            Err(_) => Err(()),
        }
    }

    open spec fn can_parse(&self, st: Seq<char>) -> bool {
        self.0.0.can_parse(st) && match self.0.0.spec_parse(st) {
            Ok(k) => k <= st.len() ==> SeqTool((self.0.1, self.0.2, self.0.3, self.0.4, self.0.5, self.0.6, self.0.7, self.0.8, self.0.9, self.0.10, self.0.11, self.0.12, self.0.13, self.0.14)).can_parse(st.skip(k as int)),
            Err(_) => true,
        }
    }

    fn parse(&self, st: &str) -> (r: ToolResult<()>) {
        let (t0, t1, t2, t3, t4, t5, t6, t7, t8, t9, t10, t11, t12, t13, t14) = &self.0;
        match t0.parse(st) {
            ToolResult::Match { len: rlen } => {
                let ghost k = self.0.0.spec_parse(st@)->Ok_0;
                let rest = skip_chars(st, rlen, Ghost(k));
                match SeqTool((t1, t2, t3, t4, t5, t6, t7, t8, t9, t10, t11, t12, t13, t14)).parse(rest) {
                    ToolResult::Match { len } => {
                        let total = byte_len(st);
                        proof {
                            let k2 = SeqTool((self.0.1, self.0.2, self.0.3, self.0.4, self.0.5, self.0.6, self.0.7, self.0.8, self.0.9, self.0.10, self.0.11, self.0.12, self.0.13, self.0.14)).spec_parse(st@.skip(k as int))->Ok_0;
                            lemma_prefix_len_add(st@, k, k2);
                            lemma_prefix_len_bound(st@, k + k2);
                        }
                        ToolResult::Match { len: len + rlen }
                    },
                    ToolResult::NoMatch(_) => ToolResult::NoMatch(()),
                }
            },
            ToolResult::NoMatch(_) => ToolResult::NoMatch(()),
        }
    }
}


/// One more repetition: the separator and then the tool, on `st`; the number of characters
/// they match together.
pub open spec fn sep_then<T: ParseTool, S: ParseTool>(tool: T, sep: S, st: Seq<char>) -> Option<nat> {
    match sep.spec_parse(st) {
        Ok(a) => if a <= st.len() {
            match tool.spec_parse(st.skip(a as int)) {
                Ok(b) => Some(a + b),
                Err(_) => None,
            }
        } else {
            None
        },
        Err(_) => None,
    }
}

/// The separator, and the tool after it when the separator matches, can run on `st`.
pub open spec fn sep_then_can<T: ParseTool, S: ParseTool>(tool: T, sep: S, st: Seq<char>) -> bool {
    sep.can_parse(st) && match sep.spec_parse(st) {
        Ok(a) => a <= st.len() ==> tool.can_parse(st.skip(a as int)),
        Err(_) => true,
    }
}

/// Characters matched by at most `n` greedy repetitions of separator and tool.
pub open spec fn rep_bounded<T: ParseTool, S: ParseTool>(tool: T, sep: S, st: Seq<char>, n: nat) -> nat
    decreases n,
{
    if n == 0 {
        0
    } else {
        match sep_then(tool, sep, st) {
            Some(k) => if k <= st.len() {
                k + rep_bounded(tool, sep, st.skip(k as int), (n - 1) as nat)
            } else {
                0
            },
            None => 0,
        }
    }
}

/// Every step of [`rep_bounded`] can run.
pub open spec fn rep_bounded_can<T: ParseTool, S: ParseTool>(tool: T, sep: S, st: Seq<char>, n: nat) -> bool
    decreases n,
{
    n == 0 || (sep_then_can(tool, sep, st) && match sep_then(tool, sep, st) {
        Some(k) => k <= st.len() ==> rep_bounded_can(tool, sep, st.skip(k as int), (n - 1) as nat),
        None => true,
    })
}

/// Characters matched by greedy repetitions of separator and tool, as many as match.
pub open spec fn rep_unbounded<T: ParseTool, S: ParseTool>(tool: T, sep: S, st: Seq<char>) -> nat
    decreases st.len(),
{
    match sep_then(tool, sep, st) {
        Some(k) => if 0 < k <= st.len() {
            k + rep_unbounded(tool, sep, st.skip(k as int))
        } else {
            0
        },
        None => 0,
    }
}

/// Every step of [`rep_unbounded`] can run and consumes at least one character, so that the
/// repetition ends.
pub open spec fn rep_unbounded_can<T: ParseTool, S: ParseTool>(tool: T, sep: S, st: Seq<char>) -> bool
    decreases st.len(),
{
    sep_then_can(tool, sep, st) && match sep_then(tool, sep, st) {
        Some(k) => 0 < k && (k <= st.len() ==> rep_unbounded_can(tool, sep, st.skip(k as int))),
        None => true,
    }
}

/// An optional bound, as a natural number.
pub open spec fn opt_nat(max: Option<usize>) -> Option<nat> {
    match max {
        Some(m) => Some(m as nat),
        None => None,
    }
}

/// Characters matched by greedy repetitions of separator and tool, at most `max` of them.
pub open spec fn rep_more<T: ParseTool, S: ParseTool>(tool: T, sep: S, st: Seq<char>, max: Option<nat>) -> nat {
    match max {
        Some(n) => rep_bounded(tool, sep, st, n),
        None => rep_unbounded(tool, sep, st),
    }
}

/// The repetitions of [`rep_more`] can run.
pub open spec fn rep_more_can<T: ParseTool, S: ParseTool>(tool: T, sep: S, st: Seq<char>, max: Option<nat>) -> bool {
    match max {
        Some(n) => rep_bounded_can(tool, sep, st, n),
        None => rep_unbounded_can(tool, sep, st),
    }
}

/// Matches the separator and then the tool.
fn sep_step<T: ParseTool, S: ParseTool>(tool: &T, sep: &S, st: &str) -> (r: Option<usize>)
    requires
        sep_then_can(*tool, *sep, st@),
    ensures
        match sep_then(*tool, *sep, st@) {
            Some(k) => k <= st@.len() && r == Some(prefix_len(st@, k) as usize) && prefix_len(st@, k) <= usize::MAX,
            None => r == None::<usize>,
        },
{
    match sep.parse(st) {
        ToolResult::Match { len: splen } => {
            let ghost a = sep.spec_parse(st@)->Ok_0;
            let rest = skip_chars(st, splen, Ghost(a));
            match tool.parse(rest) {
                ToolResult::Match { len: tlen } => {
                    let total = byte_len(st);
                    proof {
                        let b = tool.spec_parse(rest@)->Ok_0;
                        lemma_prefix_len_add(st@, a, b);
                        lemma_prefix_len_bound(st@, a + b);
                    }
                    Some(splen + tlen)
                },
                ToolResult::NoMatch(_) => None,
            }
        },
        ToolResult::NoMatch(_) => None,
    }
}

/// Greedily matches separator and tool, at most `max` times; returns the matched bytes.
fn repeat_more<T: ParseTool, S: ParseTool>(tool: &T, sep: &S, st: &str, max: Option<usize>) -> (n: usize)
    requires
        rep_more_can(*tool, *sep, st@, opt_nat(max)),
    ensures
        rep_more(*tool, *sep, st@, opt_nat(max)) <= st@.len(),
        n == prefix_len(st@, rep_more(*tool, *sep, st@, opt_nat(max))),
{
    let total = byte_len(st);
    let mut rest = st;
    let mut len: usize = 0;
    let ghost mut c: nat = 0;
    proof {
        lemma_prefix_len_zero(st@);
        assert(st@.skip(0) =~= st@);
    }
    match max {
        Some(m) => {
            let mut i: usize = 0;
            while i < m
                invariant
                    i <= m,
                    max == Some(m),
                    total == crate::text::utf8_len(st@),
                    c <= st@.len(),
                    rest@ == st@.skip(c as int),
                    len == prefix_len(st@, c),
                    rep_bounded(*tool, *sep, st@, m as nat) == c + rep_bounded(*tool, *sep, rest@, (m - i) as nat),
                    rep_bounded_can(*tool, *sep, rest@, (m - i) as nat),
                decreases m - i,
            {
                match sep_step(tool, sep, rest) {
                    Some(n) => {
                        let ghost k = sep_then(*tool, *sep, rest@)->Some_0;
                        proof {
                            lemma_prefix_len_add(st@, c, k);
                            lemma_prefix_len_bound(st@, c + k);
                            lemma_skip_skip(st@, c, k);
                        }
                        rest = skip_chars(rest, n, Ghost(k));
                        len = len + n;
                        proof {
                            c = c + k;
                        }
                        i = i + 1;
                    },
                    None => {
                        return len;
                    },
                }
            }
            len
        },
        None => {
            loop
                invariant
                    max == None::<usize>,
                    total == crate::text::utf8_len(st@),
                    c <= st@.len(),
                    rest@ == st@.skip(c as int),
                    len == prefix_len(st@, c),
                    rep_unbounded(*tool, *sep, st@) == c + rep_unbounded(*tool, *sep, rest@),
                    rep_unbounded_can(*tool, *sep, rest@),
                decreases rest@.len(),
            {
                match sep_step(tool, sep, rest) {
                    Some(n) => {
                        let ghost k = sep_then(*tool, *sep, rest@)->Some_0;
                        proof {
                            lemma_prefix_len_add(st@, c, k);
                            lemma_prefix_len_bound(st@, c + k);
                            lemma_skip_skip(st@, c, k);
                        }
                        rest = skip_chars(rest, n, Ghost(k));
                        len = len + n;
                        proof {
                            c = c + k;
                        }
                    },
                    None => {
                        return len;
                    },
                }
            }
        },
    }
}

/// Tool that matches repetitions with separator.
///
/// Like [`RepeatTool`] but without specifying a minimum number of repetitions. Therefore it will
/// always match.
#[derive(Debug, Clone, Copy)]
pub struct RepeatAnyTool<T, SEP> {
    tool: T,
    sep: SEP,
    max: Option<usize>,
}

impl<T, SEP> RepeatAnyTool<T, SEP> {
    /// The repeated tool.
    pub closed spec fn tool(self) -> T {
        self.tool
    }

    /// The separator between repetitions.
    pub closed spec fn sep(self) -> SEP {
        self.sep
    }

    /// The maximum number of repetitions, if any.
    pub closed spec fn max(self) -> Option<usize> {
        self.max
    }

    /// Create a new [`RepeatAnyTool`] with specified separator.
    pub fn new_sep(tool: T, sep: SEP, max: Option<usize>) -> (r: Self)
        ensures
            r.tool() == tool,
            r.sep() == sep,
            r.max() == max,
    {
        Self { tool, sep, max }
    }

    /// Create a new [`RepeatAnyTool`] with specified separator and upper bound.
    pub fn new_sep_bounds(tool: T, sep: SEP, max: usize) -> (r: Self)
        ensures
            r.tool() == tool,
            r.sep() == sep,
            r.max() == Some(max),
    {
        Self::new_sep(tool, sep, Some(max))
    }

    /// Create a new [`RepeatAnyTool`] with specified separator without upper bound.
    pub fn new_sep_unbounded(tool: T, sep: SEP) -> (r: Self)
        ensures
            r.tool() == tool,
            r.sep() == sep,
            r.max() == None::<usize>,
    {
        Self::new_sep(tool, sep, None)
    }
}

impl<T> RepeatAnyTool<T, TrueTool> {
    /// Create a new [`RepeatAnyTool`] without separator.
    pub fn new(tool: T, max: Option<usize>) -> (r: Self)
        ensures
            r.tool() == tool,
            r.sep() == TrueTool,
            r.max() == max,
    {
        Self { tool, sep: TrueTool, max }
    }

    /// Create a new [`RepeatAnyTool`] without separator, with specified upper bound.
    pub fn new_bounds(tool: T, max: usize) -> (r: Self)
        ensures
            r.tool() == tool,
            r.sep() == TrueTool,
            r.max() == Some(max),
    {
        Self::new(tool, Some(max))
    }

    /// Create a new [`RepeatAnyTool`] without separator and without upper bound.
    pub fn new_unbounded(tool: T) -> (r: Self)
        ensures
            r.tool() == tool,
            r.sep() == TrueTool,
            r.max() == None::<usize>,
    {
        Self::new(tool, None)
    }
}

/// The bound on the repetitions after the first one.
pub open spec fn after_first(max: Option<usize>) -> Option<nat> {
    match max {
        Some(m) => Some((m - 1) as nat),
        None => None,
    }
}

/// Characters matched by a repetition of `tool` separated by `sep`, at most `max` times and
/// without a minimum: the greedy matches after the first one are counted by [`rep_more`].
pub open spec fn any_reps<T: ParseTool, S: ParseTool>(tool: T, sep: S, max: Option<usize>, st: Seq<char>) -> nat {
    if max == Some(0usize) {
        0
    } else {
        match tool.spec_parse(st) {
            Ok(k) => if k <= st.len() {
                k + rep_more(tool, sep, st.skip(k as int), after_first(max))
            } else {
                0
            },
            Err(_) => 0,
        }
    }
}

/// The tools that [`any_reps`] runs can run.
pub open spec fn any_reps_can<T: ParseTool, S: ParseTool>(tool: T, sep: S, max: Option<usize>, st: Seq<char>) -> bool {
    max == Some(0usize) || (tool.can_parse(st) && match tool.spec_parse(st) {
        Ok(k) => k <= st.len() ==> rep_more_can(tool, sep, st.skip(k as int), after_first(max)),
        Err(_) => true,
    })
}

/// Matches `tool` separated by `sep` greedily, at most `max` times; returns the matched bytes.
fn repeat_any<T: ParseTool, S: ParseTool>(tool: &T, sep: &S, max: Option<usize>, st: &str) -> (n: usize)
    requires
        any_reps_can(*tool, *sep, max, st@),
    ensures
        any_reps(*tool, *sep, max, st@) <= st@.len(),
        n == prefix_len(st@, any_reps(*tool, *sep, max, st@)),
{
    proof {
        lemma_prefix_len_zero(st@);
    }
    if max == Some(0usize) {
        return 0;
    }
    match tool.parse(st) {
        ToolResult::Match { len: ilen } => {
            let ghost k = tool.spec_parse(st@)->Ok_0;
            let rest = skip_chars(st, ilen, Ghost(k));
            let more = match max {
                Some(m) => Some(m - 1),
                None => None,
            };
            let extra = repeat_more(tool, sep, rest, more);
            let total = byte_len(st);
            proof {
                let e = rep_more(*tool, *sep, rest@, after_first(max));
                lemma_prefix_len_add(st@, k, e);
                lemma_prefix_len_bound(st@, k + e);
            }
            ilen + extra
        },
        ToolResult::NoMatch(_) => 0,
    }
}

impl<T: ParseTool, SEP: ParseTool> ParseTool for RepeatAnyTool<T, SEP> {
    type Error = Infallible;

    open spec fn spec_parse(&self, st: Seq<char>) -> Result<nat, Infallible> {
        Ok(any_reps(self.tool(), self.sep(), self.max(), st))
    }

    open spec fn can_parse(&self, st: Seq<char>) -> bool {
        any_reps_can(self.tool(), self.sep(), self.max(), st)
    }

    fn parse(&self, st: &str) -> (r: ToolResult<Infallible>) {
        ToolResult::Match { len: self.parse_always(st) }
    }
}

impl<T: ParseTool, SEP: ParseTool> AlwaysParseTool for RepeatAnyTool<T, SEP> {
    proof fn lemma_always_matches(&self, st: Seq<char>) {
    }

    fn parse_always(&self, st: &str) -> (n: usize) {
        repeat_any(&self.tool, &self.sep, self.max, st)
    }
}

/// Error type for [`RepeatTool`].
#[derive(Debug, Copy, Clone, PartialEq, Eq)]
pub enum RepeatToolErr {
    /// The minimum number of repetitions is not reached.
    Min {
        /// Minimum number of repetitions.
        min: usize,
        /// Repetitions reached.
        fnd: usize,
    },
    /// No match is possible because the maximum number of repetitions is strictly lesser than the
    /// minimum one.
    MinMax {
        /// Minimum number of repetitions.
        min: usize,
        /// Maximum number of repetitions.
        max: usize,
    },
}

/// Exactly `n` repetitions of separator and tool: the characters they match, or the number of
/// repetitions that matched before one failed.
pub open spec fn rep_exact<T: ParseTool, S: ParseTool>(tool: T, sep: S, st: Seq<char>, n: nat) -> Result<nat, nat>
    decreases n,
{
    if n == 0 {
        Ok(0)
    } else {
        match sep_then(tool, sep, st) {
            Some(k) => if k <= st.len() {
                match rep_exact(tool, sep, st.skip(k as int), (n - 1) as nat) {
                    Ok(r) => Ok(k + r),
                    Err(i) => Err(i + 1),
                }
            } else {
                Err(0)
            },
            None => Err(0),
        }
    }
}

/// The bound on the repetitions after the first `min` ones.
pub open spec fn after_min(max: Option<usize>, min: usize) -> Option<nat> {
    match max {
        Some(m) => Some((m - min) as nat),
        None => None,
    }
}

/// Tool that matches repetitions with separator requiring a minimum number of repetitions.
#[derive(Debug, Clone, Copy)]
pub struct RepeatTool<T, SEP> {
    tool: T,
    sep: SEP,
    min: usize,
    max: Option<usize>,
}

impl<T, SEP> RepeatTool<T, SEP> {
    /// The repeated tool.
    pub closed spec fn tool(self) -> T {
        self.tool
    }

    /// The separator between repetitions.
    pub closed spec fn sep(self) -> SEP {
        self.sep
    }

    /// The minimum number of repetitions.
    pub closed spec fn min(self) -> usize {
        self.min
    }

    /// The maximum number of repetitions, if any.
    pub closed spec fn max(self) -> Option<usize> {
        self.max
    }

    /// Create a new [`RepeatTool`] with specified separator.
    pub fn new_sep(tool: T, sep: SEP, min: usize, max: Option<usize>) -> (r: Self)
        ensures
            r.tool() == tool,
            r.sep() == sep,
            r.min() == min,
            r.max() == max,
    {
        Self { tool, sep, min, max }
    }

    /// Create a new [`RepeatTool`] with specified separator and upper bound.
    pub fn new_sep_bounds(tool: T, sep: SEP, min: usize, max: usize) -> (r: Self)
        ensures
            r.tool() == tool,
            r.sep() == sep,
            r.min() == min,
            r.max() == Some(max),
    {
        Self::new_sep(tool, sep, min, Some(max))
    }

    /// Create a new [`RepeatTool`] with specified separator without upper bound.
    pub fn new_sep_unbounded(tool: T, sep: SEP, min: usize) -> (r: Self)
        ensures
            r.tool() == tool,
            r.sep() == sep,
            r.min() == min,
            r.max() == None::<usize>,
    {
        Self::new_sep(tool, sep, min, None)
    }

    /// Create a new [`RepeatTool`] that matches at least one occurrence.
    pub fn new_any_one(tool: T, sep: SEP) -> (r: Self)
        ensures
            r.tool() == tool,
            r.sep() == sep,
            r.min() == 1,
            r.max() == None::<usize>,
    {
        Self::new_sep(tool, sep, 1, None)
    }
}

impl<T> RepeatTool<T, TrueTool> {
    /// Create a new [`RepeatTool`] without separator.
    pub fn new(tool: T, min: usize, max: Option<usize>) -> (r: Self)
        ensures
            r.tool() == tool,
            r.sep() == TrueTool,
            r.min() == min,
            r.max() == max,
    {
        Self { tool, sep: TrueTool, min, max }
    }

    /// Create a new [`RepeatTool`] without separator, with specified upper bound.
    pub fn new_bounds(tool: T, min: usize, max: usize) -> (r: Self)
        ensures
            r.tool() == tool,
            r.sep() == TrueTool,
            r.min() == min,
            r.max() == Some(max),
    {
        Self::new(tool, min, Some(max))
    }

    /// Create a new [`RepeatTool`] without separator and without upper bound.
    pub fn new_unbounded(tool: T, min: usize) -> (r: Self)
        ensures
            r.tool() == tool,
            r.sep() == TrueTool,
            r.min() == min,
            r.max() == None::<usize>,
    {
        Self::new(tool, min, None)
    }
}

/// Matches exactly `n` repetitions of separator and tool.
fn repeat_exact<T: ParseTool, S: ParseTool>(tool: &T, sep: &S, st: &str, n: usize) -> (r: Result<usize, usize>)
    requires
        rep_bounded_can(*tool, *sep, st@, n as nat),
    ensures
        match rep_exact(*tool, *sep, st@, n as nat) {
            Ok(k) => k <= st@.len() && r == Ok::<usize, usize>(prefix_len(st@, k) as usize) && prefix_len(st@, k) <= usize::MAX,
            Err(i) => i < n && r == Err::<usize, usize>(i as usize),
        },
{
    let total = byte_len(st);
    let mut rest = st;
    let mut len: usize = 0;
    let ghost mut c: nat = 0;
    let mut i: usize = 0;
    proof {
        lemma_prefix_len_zero(st@);
        assert(st@.skip(0) =~= st@);
    }
    while i < n
        invariant
            i <= n,
            total == crate::text::utf8_len(st@),
            c <= st@.len(),
            rest@ == st@.skip(c as int),
            len == prefix_len(st@, c),
            rep_exact(*tool, *sep, st@, n as nat) == match rep_exact(*tool, *sep, rest@, (n - i) as nat) {
                Ok(r) => Ok::<nat, nat>(c + r),
                Err(j) => Err::<nat, nat>((i + j) as nat),
            },
            rep_bounded_can(*tool, *sep, rest@, (n - i) as nat),
        decreases n - i,
    {
        match sep_step(tool, sep, rest) {
            Some(m) => {
                let ghost k = sep_then(*tool, *sep, rest@)->Some_0;
                proof {
                    lemma_prefix_len_add(st@, c, k);
                    lemma_prefix_len_bound(st@, c + k);
                    lemma_skip_skip(st@, c, k);
                }
                rest = skip_chars(rest, m, Ghost(k));
                len = len + m;
                proof {
                    c = c + k;
                }
                i = i + 1;
            },
            None => {
                return Err(i);
            },
        }
    }
    proof {
        lemma_prefix_len_bound(st@, c);
    }
    Ok(len)
}

impl<T: ParseTool, SEP: ParseTool> ParseTool for RepeatTool<T, SEP> {
    type Error = RepeatToolErr;

    open spec fn spec_parse(&self, st: Seq<char>) -> Result<nat, RepeatToolErr> {
        let min = self.min();
        if min == 0 {
            Ok(any_reps(self.tool(), self.sep(), self.max(), st))
        } else if self.max() matches Some(m) && m < min {
            Err(RepeatToolErr::MinMax { min, max: self.max()->Some_0 })
        } else {
            match self.tool().spec_parse(st) {
                Ok(k) => if k <= st.len() {
                    match rep_exact(self.tool(), self.sep(), st.skip(k as int), (min - 1) as nat) {
                        Ok(k2) => if k + k2 <= st.len() {
                            Ok(k + k2 + rep_more(self.tool(), self.sep(), st.skip((k + k2) as int), after_min(self.max(), min)))
                        } else {
                            Ok(k)
                        },
                        Err(i) => Err(RepeatToolErr::Min { min, fnd: (i + 1) as usize }),
                    }
                } else {
                    Err(RepeatToolErr::Min { min, fnd: 0 })
                },
                Err(_) => Err(RepeatToolErr::Min { min, fnd: 0 }),
            }
        }
    }

    open spec fn can_parse(&self, st: Seq<char>) -> bool {
        let min = self.min();
        if min == 0 {
            any_reps_can(self.tool(), self.sep(), self.max(), st)
        } else if self.max() matches Some(m) && m < min {
            true
        } else {
            self.tool().can_parse(st) && match self.tool().spec_parse(st) {
                Ok(k) => k <= st.len() ==> {
                    &&& rep_bounded_can(self.tool(), self.sep(), st.skip(k as int), (min - 1) as nat)
                    &&& match rep_exact(self.tool(), self.sep(), st.skip(k as int), (min - 1) as nat) {
                        Ok(k2) => k + k2 <= st.len() ==> rep_more_can(self.tool(), self.sep(), st.skip((k + k2) as int), after_min(self.max(), min)),
                        Err(_) => true,
                    }
                },
                Err(_) => true,
            }
        }
    }

    fn parse(&self, st: &str) -> (r: ToolResult<RepeatToolErr>) {
        if self.min == 0 {
            return ToolResult::Match { len: repeat_any(&self.tool, &self.sep, self.max, st) };
        }
        if let Some(max) = self.max {
            if max < self.min {
                return ToolResult::NoMatch(RepeatToolErr::MinMax { min: self.min, max });
            }
        }
        match self.tool.parse(st) {
            ToolResult::Match { len } => {
                let ghost k = self.tool.spec_parse(st@)->Ok_0;
                let rest = skip_chars(st, len, Ghost(k));
                match repeat_exact(&self.tool, &self.sep, rest, self.min - 1) {
                    Ok(mlen) => {
                        let ghost k2 = rep_exact(self.tool, self.sep, rest@, (self.min - 1) as nat)->Ok_0;
                        let total = byte_len(st);
                        proof {
                            lemma_prefix_len_add(st@, k, k2);
                            lemma_prefix_len_bound(st@, k + k2);
                            lemma_skip_skip(st@, k, k2);
                        }
                        let rest2 = skip_chars(rest, mlen, Ghost(k2));
                        let new_max = match self.max {
                            Some(m) => Some(m - self.min),
                            None => None,
                        };
                        let inc = repeat_more(&self.tool, &self.sep, rest2, new_max);
                        proof {
                            let e = rep_more(self.tool, self.sep, rest2@, after_min(self.max, self.min));
                            lemma_prefix_len_add(st@, k + k2, e);
                            lemma_prefix_len_bound(st@, k + k2 + e);
                        }
                        ToolResult::Match { len: len + mlen + inc }
                    },
                    Err(i) => ToolResult::NoMatch(RepeatToolErr::Min { min: self.min, fnd: i + 1 }),
                }
            },
            ToolResult::NoMatch(_) => ToolResult::NoMatch(RepeatToolErr::Min { min: self.min, fnd: 0 }),
        }
    }
}

/// Return type of a [`ParseToolData`].
pub enum ToolResultData<D, E> {
    /// A successful match.
    Match {
        /// The length in bytes of the matching prefix.
        len: usize,
        /// The carried data.
        data: D,
    },
    /// A failed match.
    NoMatch(E),
}

/// True when `r` is the executable form of the abstract result `sp` of parsing `st`: a match of
/// `k` characters carrying data whose view is `v`.
pub open spec fn agrees_data<D: View, E>(r: ToolResultData<D, E>, st: Seq<char>, sp: Result<(nat, D::V), E>) -> bool {
    match sp {
        Ok((k, v)) => k <= st.len() && match r {
            ToolResultData::Match { len, data } => len == prefix_len(st, k) && data@ == v,
            ToolResultData::NoMatch(_) => false,
        },
        Err(e) => r == ToolResultData::<D, E>::NoMatch(e),
    }
}

/// A tool that can generate additional `Data` after a successful match.
///
/// Type `P` can be used not only to pass additional information to generate the `Data`, but can be
/// used to provide multiple implementation of this trait for a single object and to disambiguate
/// between them.
pub trait ParseToolData<'a, P> {
    /// The data that is generate at a successful match.
    type Data: View;
    /// Error type.
    type Error;

    /// What the tool does on a string whose characters are `st`: `Ok((k, v))` when it matches the
    /// first `k` characters and generates data whose view is `v`, `Err(e)` when it fails.
    spec fn spec_parse_data(&self, st: Seq<char>, par: P) -> Result<(nat, <Self::Data as View>::V), Self::Error>;

    /// Holds on the inputs on which [`ParseToolData::parse`] returns with the result that
    /// [`ParseToolData::spec_parse_data`] gives.
    open spec fn can_parse_data(&self, st: Seq<char>, par: P) -> bool {
        true
    }

    /// The main parsing algorithm.
    fn parse(&self, st: &'a str, par: P) -> (r: ToolResultData<Self::Data, Self::Error>)
        requires
            self.can_parse_data(st@, par),
        ensures
            agrees_data(r, st@, self.spec_parse_data(st@, par)),
    ;
}

/// Lazy repetitions of separator and tool, at most `n` of them, each tried only where `term`
/// does not match: the characters of the repetitions and of the final match of `term`.
pub open spec fn lazy_bounded<T: ParseTool, S: ParseTool, R: ParseTool>(tool: T, sep: S, term: R, st: Seq<char>, n: nat) -> Result<(nat, nat), R::Error>
    decreases n,
{
    match term.spec_parse(st) {
        Ok(t) => Ok((0, t)),
        Err(te) => if n == 0 {
            Err(te)
        } else {
            match sep_then(tool, sep, st) {
                Some(k) => if k <= st.len() {
                    match lazy_bounded(tool, sep, term, st.skip(k as int), (n - 1) as nat) {
                        Ok((b, t)) => Ok((k + b, t)),
                        Err(e) => Err(e),
                    }
                } else {
                    Err(te)
                },
                None => Err(te),
            }
        },
    }
}

/// The tools that [`lazy_bounded`] runs can run.
pub open spec fn lazy_bounded_can<T: ParseTool, S: ParseTool, R: ParseTool>(tool: T, sep: S, term: R, st: Seq<char>, n: nat) -> bool
    decreases n,
{
    term.can_parse(st) && (term.spec_parse(st) is Err && n > 0 ==> sep_then_can(tool, sep, st)
        && match sep_then(tool, sep, st) {
        Some(k) => k <= st.len() ==> lazy_bounded_can(tool, sep, term, st.skip(k as int), (n - 1) as nat),
        None => true,
    })
}

/// Lazy repetitions of separator and tool, as many as needed for `term` to match.
pub open spec fn lazy_unbounded<T: ParseTool, S: ParseTool, R: ParseTool>(tool: T, sep: S, term: R, st: Seq<char>) -> Result<(nat, nat), R::Error>
    decreases st.len(),
{
    match term.spec_parse(st) {
        Ok(t) => Ok((0, t)),
        Err(te) => match sep_then(tool, sep, st) {
            Some(k) => if 0 < k <= st.len() {
                match lazy_unbounded(tool, sep, term, st.skip(k as int)) {
                    Ok((b, t)) => Ok((k + b, t)),
                    Err(e) => Err(e),
                }
            } else {
                Err(te)
            },
            None => Err(te),
        },
    }
}

/// The tools that [`lazy_unbounded`] runs can run, and every repetition consumes at least one
/// character, so that the repetition ends.
pub open spec fn lazy_unbounded_can<T: ParseTool, S: ParseTool, R: ParseTool>(tool: T, sep: S, term: R, st: Seq<char>) -> bool
    decreases st.len(),
{
    term.can_parse(st) && (term.spec_parse(st) is Err ==> sep_then_can(tool, sep, st)
        && match sep_then(tool, sep, st) {
        Some(k) => 0 < k && (k <= st.len() ==> lazy_unbounded_can(tool, sep, term, st.skip(k as int))),
        None => true,
    })
}

/// Lazy repetitions, at most `max` of them.
pub open spec fn lazy_more<T: ParseTool, S: ParseTool, R: ParseTool>(tool: T, sep: S, term: R, st: Seq<char>, max: Option<nat>) -> Result<(nat, nat), R::Error> {
    match max {
        Some(n) => lazy_bounded(tool, sep, term, st, n),
        None => lazy_unbounded(tool, sep, term, st),
    }
}

/// The tools that [`lazy_more`] runs can run.
pub open spec fn lazy_more_can<T: ParseTool, S: ParseTool, R: ParseTool>(tool: T, sep: S, term: R, st: Seq<char>, max: Option<nat>) -> bool {
    match max {
        Some(n) => lazy_bounded_can(tool, sep, term, st, n),
        None => lazy_unbounded_can(tool, sep, term, st),
    }
}

/// Runs the lazy repetitions of [`lazy_more`]; returns the bytes of the repetitions and of the
/// final match of `term`.
fn lazy_repeat<T: ParseTool, S: ParseTool, R: ParseTool>(tool: &T, sep: &S, term: &R, st: &str, max: Option<usize>) -> (r: Result<(usize, usize), R::Error>)
    requires
        lazy_more_can(*tool, *sep, *term, st@, opt_nat(max)),
    ensures
        match lazy_more(*tool, *sep, *term, st@, opt_nat(max)) {
            Ok((b, t)) => b + t <= st@.len() && prefix_len(st@, b + t) <= usize::MAX && r == Ok::<(usize, usize), R::Error>(
                (prefix_len(st@, b) as usize, prefix_len(st@.skip(b as int), t) as usize),
            ),
            Err(e) => r == Err::<(usize, usize), R::Error>(e),
        },
{
    let total = byte_len(st);
    let mut rest = st;
    let mut len: usize = 0;
    let ghost mut c: nat = 0;
    proof {
        lemma_prefix_len_zero(st@);
        assert(st@.skip(0) =~= st@);
    }
    let mut i: usize = 0;
    loop
        invariant
            total == crate::text::utf8_len(st@),
            c <= st@.len(),
            rest@ == st@.skip(c as int),
            len == prefix_len(st@, c),
            max matches Some(m) ==> i <= m,
            lazy_more(*tool, *sep, *term, st@, opt_nat(max)) == match lazy_more(*tool, *sep, *term, rest@, match max {
                Some(m) => Some((m - i) as nat),
                None => None,
            }) {
                Ok((b, t)) => Ok::<(nat, nat), R::Error>((c + b, t)),
                Err(e) => Err(e),
            },
            lazy_more_can(*tool, *sep, *term, rest@, match max {
                Some(m) => Some((m - i) as nat),
                None => None,
            }),
        decreases (match max {
            Some(m) => (m - i) as int,
            None => 0,
        }), rest@.len(),
    {
        match term.parse(rest) {
            ToolResult::Match { len: tlen } => {
                proof {
                    let t = term.spec_parse(rest@)->Ok_0;
                    lemma_prefix_len_add(st@, c, t);
                    lemma_prefix_len_bound(st@, c + t);
                }
                return Ok((len, tlen));
            },
            ToolResult::NoMatch(te) => {
                if let Some(m) = max {
                    if i == m {
                        return Err(te);
                    }
                }
                match sep_step(tool, sep, rest) {
                    Some(n) => {
                        let ghost k = sep_then(*tool, *sep, rest@)->Some_0;
                        proof {
                            lemma_prefix_len_add(st@, c, k);
                            lemma_prefix_len_bound(st@, c + k);
                            lemma_skip_skip(st@, c, k);
                        }
                        rest = skip_chars(rest, n, Ghost(k));
                        len = len + n;
                        proof {
                            c = c + k;
                        }
                        if max.is_some() {
                            i = i + 1;
                        }
                    },
                    None => {
                        return Err(te);
                    },
                }
            },
        }
    }
}

/// Tool that matches repetitions lazily.
///
/// It matches the least number of `T` tool (separated by `SEP`) which are followed by `TERM`
/// tool. The difference with respect to a [`RepeatTool`] followed by `TERM` is that here
/// repetitions are evaluated lazily: it interrupts at the first match of `TERM`, whereas
/// `RepeatTool` evaluates repetitions eagerly and so `TERM` is matched only after the repetition
/// ends.
#[derive(Copy, Clone, Debug)]
pub struct LazyRepeatAnyTool<T, SEP, TERM> {
    tool: T,
    sep: SEP,
    term: TERM,
    max: Option<usize>,
}

/// Unit struct for [`LazyRepeatAnyTool`] in order to return a matching string without `TERM`.
#[derive(Copy, Clone, Debug, Default)]
pub struct LazyNoTerm;

impl<T, SEP, TERM> LazyRepeatAnyTool<T, SEP, TERM> {
    /// The repeated tool.
    pub closed spec fn tool(self) -> T {
        self.tool
    }

    /// The separator between repetitions.
    pub closed spec fn sep(self) -> SEP {
        self.sep
    }

    /// The tool that ends the repetition.
    pub closed spec fn term(self) -> TERM {
        self.term
    }

    /// The maximum number of repetitions, if any.
    pub closed spec fn max(self) -> Option<usize> {
        self.max
    }

    /// Create a new `LazyRepeatAnyTool`.
    pub fn new(tool: T, sep: SEP, term: TERM, max: Option<usize>) -> (r: Self)
        ensures
            r.tool() == tool,
            r.sep() == sep,
            r.term() == term,
            r.max() == max,
    {
        Self { tool, sep, term, max }
    }

    /// Create a new `LazyRepeatAnyTool` with specified upper bound.
    pub fn new_bounds(tool: T, sep: SEP, term: TERM, max: usize) -> (r: Self)
        ensures
            r.tool() == tool,
            r.sep() == sep,
            r.term() == term,
            r.max() == Some(max),
    {
        Self::new(tool, sep, term, Some(max))
    }

    /// Create a new `LazyRepeatAnyTool` without upper bound.
    pub fn new_unbounded(tool: T, sep: SEP, term: TERM) -> (r: Self)
        ensures
            r.tool() == tool,
            r.sep() == sep,
            r.term() == term,
            r.max() == None::<usize>,
    {
        Self::new(tool, sep, term, None)
    }
}

/// What a [`LazyRepeatAnyTool`] made of `tool`, `sep`, `term` and `max` does on `st`: the
/// characters matched in all, and the number of them before the final match of `term`.
pub open spec fn lazy_reps<T: ParseTool, S: ParseTool, R: ParseTool>(tool: T, sep: S, term: R, max: Option<usize>, st: Seq<char>) -> Result<(nat, nat), R::Error> {
    match term.spec_parse(st) {
        Ok(t) => Ok((t, 0)),
        Err(te) => if max == Some(0usize) {
            Err(te)
        } else {
            match tool.spec_parse(st) {
                Ok(k) => if k <= st.len() {
                    match lazy_more(tool, sep, term, st.skip(k as int), after_first(max)) {
                        Ok((b, t)) => Ok((k + b + t, k + b)),
                        Err(e) => Err(e),
                    }
                } else {
                    Err(te)
                },
                Err(_) => Err(te),
            }
        },
    }
}

/// The tools that [`lazy_reps`] runs can run.
pub open spec fn lazy_reps_can<T: ParseTool, S: ParseTool, R: ParseTool>(tool: T, sep: S, term: R, max: Option<usize>, st: Seq<char>) -> bool {
    term.can_parse(st) && (term.spec_parse(st) is Err && max != Some(0usize) ==> tool.can_parse(st)
        && match tool.spec_parse(st) {
        Ok(k) => k <= st.len() ==> lazy_more_can(tool, sep, term, st.skip(k as int), after_first(max)),
        Err(_) => true,
    })
}

impl<'a, T: ParseTool, SEP: ParseTool, TERM: ParseTool> ParseToolData<'a, LazyNoTerm> for LazyRepeatAnyTool<T, SEP, TERM> {
    type Data = &'a str;
    type Error = TERM::Error;

    open spec fn spec_parse_data(&self, st: Seq<char>, par: LazyNoTerm) -> Result<(nat, Seq<char>), TERM::Error> {
        match lazy_reps(self.tool(), self.sep(), self.term(), self.max(), st) {
            Ok((k, b)) => Ok((k, st.take(b as int))),
            Err(e) => Err(e),
        }
    }

    open spec fn can_parse_data(&self, st: Seq<char>, par: LazyNoTerm) -> bool {
        lazy_reps_can(self.tool(), self.sep(), self.term(), self.max(), st)
    }

    fn parse(&self, st: &'a str, par: LazyNoTerm) -> (r: ToolResultData<&'a str, TERM::Error>) {
        proof {
            lemma_prefix_len_zero(st@);
            assert(st@.take(0) =~= Seq::<char>::empty());
        }
        match self.term.parse(st) {
            ToolResult::Match { len } => {
                let empty: &'a str = "";
                proof {
                    reveal_strlit("");
                    assert(empty@ =~= Seq::<char>::empty());
                    assert(empty@ == st@.take(0));
                }
                return ToolResultData::Match { len, data: empty };
            },
            ToolResult::NoMatch(te) => {
                if self.max == Some(0usize) {
                    return ToolResultData::NoMatch(te);
                }
                match self.tool.parse(st) {
                    ToolResult::Match { len: ilen } => {
                        let ghost k = self.tool.spec_parse(st@)->Ok_0;
                        let rest = skip_chars(st, ilen, Ghost(k));
                        let more = match self.max {
                            Some(m) => Some(m - 1),
                            None => None,
                        };
                        match lazy_repeat(&self.tool, &self.sep, &self.term, rest, more) {
                            Ok((blen, tlen)) => {
                                let ghost b = lazy_more(self.tool, self.sep, self.term, rest@, after_first(self.max))->Ok_0.0;
                                let ghost t = lazy_more(self.tool, self.sep, self.term, rest@, after_first(self.max))->Ok_0.1;
                                let total = byte_len(st);
                                proof {
                                    lemma_prefix_len_add(st@, k, b);
                                    lemma_prefix_len_add(st@, k + b, t);
                                    lemma_prefix_len_bound(st@, k + b + t);
                                    lemma_skip_skip(st@, k, b);
                                }
                                let data = take_chars(st, ilen + blen, Ghost(k + b));
                                ToolResultData::Match { len: ilen + blen + tlen, data }
                            },
                            Err(e) => ToolResultData::NoMatch(e),
                        }
                    },
                    ToolResult::NoMatch(_) => ToolResultData::NoMatch(te),
                }
            },
        }
    }
}

impl<T: ParseTool, SEP: ParseTool, TERM: ParseTool> ParseTool for LazyRepeatAnyTool<T, SEP, TERM> {
    type Error = TERM::Error;

    open spec fn spec_parse(&self, st: Seq<char>) -> Result<nat, TERM::Error> {
        match lazy_reps(self.tool(), self.sep(), self.term(), self.max(), st) {
            Ok((k, _)) => Ok(k),
            Err(e) => Err(e),
        }
    }

    open spec fn can_parse(&self, st: Seq<char>) -> bool {
        lazy_reps_can(self.tool(), self.sep(), self.term(), self.max(), st)
    }

    fn parse(&self, st: &str) -> (r: ToolResult<TERM::Error>) {
        match ParseToolData::parse(self, st, LazyNoTerm) {
            ToolResultData::Match { len, .. } => ToolResult::Match { len },
            ToolResultData::NoMatch(e) => ToolResult::NoMatch(e),
        }
    }
}


/// `out` is what [`ToolResult::map`] gives on `r` with `f`: `f` applied to the length of a match.
pub open spec fn mapped<E, F: FnOnce(usize) -> usize>(r: ToolResult<E>, f: F, out: ToolResult<E>) -> bool {
    match r {
        ToolResult::Match { len } => out matches ToolResult::Match { len: l } && call_ensures(f, (len,), l),
        ToolResult::NoMatch(e) => out == ToolResult::<E>::NoMatch(e),
    }
}

/// `out` is what [`ToolResult::map_data`] gives on `r` with `f`: the length and the data that `f`
/// gives from the length of a match.
pub open spec fn mapped_data<D, E, F: FnOnce(usize) -> (usize, D)>(r: ToolResult<E>, f: F, out: ToolResultData<D, E>) -> bool {
    match r {
        ToolResult::Match { len } => out matches ToolResultData::Match { len: l, data } && call_ensures(f, (len,), (l, data)),
        ToolResult::NoMatch(e) => out == ToolResultData::<D, E>::NoMatch(e),
    }
}

/// `out` is what [`ToolResult::and_then`] gives on `r` with `f`: the result of `f` on the length
/// of a match.
pub open spec fn chained<E, F: FnOnce(usize) -> ToolResult<E>>(r: ToolResult<E>, f: F, out: ToolResult<E>) -> bool {
    match r {
        ToolResult::Match { len } => call_ensures(f, (len,), out),
        ToolResult::NoMatch(e) => out == ToolResult::<E>::NoMatch(e),
    }
}

/// `out` is what [`ToolResult::or_else`] gives on `r` with `f`: the result of `f` on the error of
/// a missed match.
pub open spec fn recovered<E, EE, F: FnOnce(E) -> ToolResult<EE>>(r: ToolResult<E>, f: F, out: ToolResult<EE>) -> bool {
    match r {
        ToolResult::Match { len } => out == ToolResult::<EE>::Match { len },
        ToolResult::NoMatch(e) => call_ensures(f, (e,), out),
    }
}

/// What [`ToolResultData::drop_data`] gives: the result without its data.
pub open spec fn dropped<D, E>(r: ToolResultData<D, E>) -> ToolResult<E> {
    match r {
        ToolResultData::Match { len, .. } => ToolResult::Match { len },
        ToolResultData::NoMatch(e) => ToolResult::NoMatch(e),
    }
}

impl<E> ToolResult<E> {
    /// Convert to a compatible error type.
    pub fn into_tr<F>(self) -> (r: ToolResult<F>) where E: Into<F>
        ensures
            match self {
                ToolResult::Match { len } => r == ToolResult::<F>::Match { len },
                ToolResult::NoMatch(e) => r matches ToolResult::NoMatch(f) && call_ensures(E::into, (e,), f),
            },
    {
        match self {
            ToolResult::Match { len } => ToolResult::Match { len },
            ToolResult::NoMatch(e) => ToolResult::NoMatch(e.into()),
        }
    }

    /// Apply `f` to a successful match.
    pub fn map<F: FnOnce(usize) -> usize>(self, f: F) -> (r: Self)
        requires
            self matches ToolResult::Match { len } ==> call_requires(f, (len,)),
        ensures
            mapped(self, f, r),
    {
        match self {
            ToolResult::Match { len } => ToolResult::Match { len: f(len) },
            ToolResult::NoMatch(e) => ToolResult::NoMatch(e),
        }
    }

    /// Apply `f` to a missed match.
    pub fn map_err<G, F: FnOnce(E) -> G>(self, f: F) -> (r: ToolResult<G>)
        requires
            self matches ToolResult::NoMatch(e) ==> call_requires(f, (e,)),
        ensures
            match self {
                ToolResult::Match { len } => r == ToolResult::<G>::Match { len },
                ToolResult::NoMatch(e) => r matches ToolResult::NoMatch(g) && call_ensures(f, (e,), g),
            },
    {
        match self {
            ToolResult::Match { len } => ToolResult::Match { len },
            ToolResult::NoMatch(e) => ToolResult::NoMatch(f(e)),
        }
    }

    /// Apply `f` to a successful match and generate data.
    pub fn map_data<D, F: FnOnce(usize) -> (usize, D)>(self, f: F) -> (r: ToolResultData<D, E>)
        requires
            self matches ToolResult::Match { len } ==> call_requires(f, (len,)),
        ensures
            mapped_data(self, f, r),
    {
        match self {
            ToolResult::Match { len: i } => {
                let (len, data) = f(i);
                ToolResultData::Match { len, data }
            },
            ToolResult::NoMatch(e) => ToolResultData::NoMatch(e),
        }
    }

    /// Call `f` if the match is successful, otherwise return `NoMatch`.
    pub fn and_then<F: FnOnce(usize) -> Self>(self, f: F) -> (r: Self)
        requires
            self matches ToolResult::Match { len } ==> call_requires(f, (len,)),
        ensures
            chained(self, f, r),
    {
        match self {
            ToolResult::Match { len } => f(len),
            ToolResult::NoMatch(e) => ToolResult::NoMatch(e),
        }
    }

    /// Call `f` if the match is not successful, otherwise return the `Match` variant of `self`.
    pub fn or_else<EE, F: FnOnce(E) -> ToolResult<EE>>(self, f: F) -> (r: ToolResult<EE>)
        requires
            self matches ToolResult::NoMatch(e) ==> call_requires(f, (e,)),
        ensures
            recovered(self, f, r),
    {
        match self {
            ToolResult::Match { len } => ToolResult::Match { len },
            ToolResult::NoMatch(e) => f(e),
        }
    }
}

impl ToolResult<Infallible> {
    /// Convert to any type.
    ///
    /// A `ToolResult<Infallible>` is always a match, since no value of `Infallible` exists.
    pub fn into_any<F>(self) -> (r: ToolResult<F>)
        requires
            (self is Match),
        ensures
            r == (ToolResult::<F>::Match { len: self->len }),
    {
        match self {
            ToolResult::Match { len } => ToolResult::Match { len },
            ToolResult::NoMatch(_) => ToolResult::Match { len: 0 },
        }
    }
}

impl<D, E> ToolResultData<D, E> {
    /// Convert to a compatible data and error types.
    pub fn into_tr<S, F>(self) -> (r: ToolResultData<S, F>) where D: Into<S>, E: Into<F>
        ensures
            match self {
                ToolResultData::Match { len, data } => r matches ToolResultData::Match { len: l, data: s } && l == len
                    && call_ensures(D::into, (data,), s),
                ToolResultData::NoMatch(e) => r matches ToolResultData::NoMatch(f) && call_ensures(E::into, (e,), f),
            },
    {
        match self {
            ToolResultData::Match { len, data } => ToolResultData::Match { len, data: data.into() },
            ToolResultData::NoMatch(e) => ToolResultData::NoMatch(e.into()),
        }
    }

    /// Drops the data field.
    pub fn drop_data(self) -> (r: ToolResult<E>)
        ensures
            r == dropped(self),
    {
        match self {
            ToolResultData::Match { len, .. } => ToolResult::Match { len },
            ToolResultData::NoMatch(e) => ToolResult::NoMatch(e),
        }
    }
}



/// [`AnyTool`] is the exact opposite of [`EOFTool`]: on every input, one matches if and only if
/// the other misses.
pub proof fn law_any_tool_opposite_of_eof(st: Seq<char>)
    ensures
        AnyTool.spec_parse(st) is Ok <==> EOFTool.spec_parse(st) is Err,
{
}

/// [`CheckTool`] matches exactly where its tool matches, and never progresses.
pub proof fn law_check_tool<T: ParseTool>(t: T, st: Seq<char>)
    ensures
        CheckTool(t).spec_parse(st) is Ok <==> t.spec_parse(st) is Ok,
        CheckTool(t).spec_parse(st) matches Ok(k) ==> k == 0,
{
}

/// [`CheckInvTool`] matches exactly where its tool misses, and never progresses.
pub proof fn law_check_inv_tool<T: ParseTool>(t: T, st: Seq<char>)
    ensures
        CheckInvTool(t).spec_parse(st) is Ok <==> t.spec_parse(st) is Err,
        CheckInvTool(t).spec_parse(st) matches Ok(k) ==> k == 0,
{
}

/// [`NonEmpty`] never matches the empty string, and keeps every nonempty match of its tool.
pub proof fn law_non_empty<P: ParseTool>(p: P, st: Seq<char>)
    ensures
        NonEmpty(p).spec_parse(st) matches Ok(k) ==> k > 0,
        p.spec_parse(st) matches Ok(k) ==> (k > 0 ==> NonEmpty(p).spec_parse(st) == Ok::<nat, Option<P::Error>>(k)),
{
}

/// Ordering matters in [`Or`]: if the first tool matches, its match is the result.
pub proof fn law_or_first_wins<A: ParseTool, B: ParseTool>(a: A, b: B, st: Seq<char>)
    ensures
        a.spec_parse(st) matches Ok(k) ==> Or((a, b)).spec_parse(st) == Ok::<nat, ()>(k),
        a.spec_parse(st) is Err ==> Or((a, b)).spec_parse(st) == match b.spec_parse(st) {
            Ok(k) => Ok::<nat, ()>(k),
            Err(_) => Err(()),
        },
{
}

/// [`Or`] is associative: three tools in one tuple match as the first one followed by the other
/// two nested, and as the first two nested followed by the third.
pub proof fn law_or_associative<A: ParseTool, B: ParseTool, C: ParseTool>(a: A, b: B, c: C, st: Seq<char>)
    ensures
        Or((a, b, c)).spec_parse(st) == Or((a, Or((b, c)))).spec_parse(st),
        Or((a, b, c)).spec_parse(st) == Or((Or((a, b)), c)).spec_parse(st),
{
}

/// [`SeqTool`] is associative: three tools in one tuple match as the first one followed by the
/// other two nested, and as the first two nested followed by the third.
pub proof fn law_seq_tool_associative<A: ParseTool, B: ParseTool, C: ParseTool>(a: A, b: B, c: C, st: Seq<char>)
    ensures
        SeqTool((a, b, c)).spec_parse(st) == SeqTool((a, SeqTool((b, c)))).spec_parse(st),
        SeqTool((a, b, c)).spec_parse(st) == SeqTool((SeqTool((a, b)), c)).spec_parse(st),
{
    match a.spec_parse(st) {
        Ok(k1) => {
            if k1 <= st.len() {
                let s1 = st.skip(k1 as int);
                match b.spec_parse(s1) {
                    Ok(k2) => {
                        if k2 <= s1.len() {
                            lemma_skip_skip(st, k1, k2);
                        }
                    },
                    Err(_) => {},
                }
            }
        },
        Err(_) => {},
    }
}

/// A [`RepeatTool`] without a minimum number of repetitions matches as the [`RepeatAnyTool`]
/// with the same tool, separator and maximum, and so always matches.
pub proof fn law_repeat_without_min<T: ParseTool, SEP: ParseTool>(r: RepeatTool<T, SEP>, a: RepeatAnyTool<T, SEP>, st: Seq<char>)
    requires
        r.min() == 0,
        r.tool() == a.tool(),
        r.sep() == a.sep(),
        r.max() == a.max(),
    ensures
        r.spec_parse(st) == match a.spec_parse(st) {
            Ok(k) => Ok::<nat, RepeatToolErr>(k),
            Err(_) => Err(RepeatToolErr::Min { min: 0, fnd: 0 }),
        },
        r.spec_parse(st) is Ok,
{
}

/// A [`RepeatTool`] whose maximum is below its minimum never matches.
pub proof fn law_repeat_max_below_min<T: ParseTool, SEP: ParseTool>(r: RepeatTool<T, SEP>, st: Seq<char>)
    requires
        r.max() matches Some(m) && m < r.min(),
    ensures
        r.spec_parse(st) == Err::<nat, RepeatToolErr>(RepeatToolErr::MinMax { min: r.min(), max: r.max()->Some_0 }),
{
}

/// A [`LazyRepeatAnyTool`] stops at the first match of its terminator: where the terminator
/// matches at once, the match is the terminator's and carries no repeated text.
pub proof fn law_lazy_stops_at_term<'a, T: ParseTool, SEP: ParseTool, TERM: ParseTool>(l: LazyRepeatAnyTool<T, SEP, TERM>, st: Seq<char>)
    requires
        l.term().spec_parse(st) is Ok,
    ensures
        ParseToolData::<'a, LazyNoTerm>::spec_parse_data(&l, st, LazyNoTerm)
            == Ok::<(nat, Seq<char>), TERM::Error>((l.term().spec_parse(st)->Ok_0, Seq::empty())),
{
    assert(st.take(0) =~= Seq::<char>::empty());
}

/// [`ToolResult::map`] with a function that gives back its argument keeps the result.
pub proof fn law_map_identity<E, F: FnOnce(usize) -> usize>(r: ToolResult<E>, f: F, out: ToolResult<E>)
    requires
        mapped(r, f, out),
        forall|l: usize, l2: usize| call_ensures(f, (l,), l2) ==> l2 == l,
    ensures
        out == r,
{
}

/// Two [`ToolResult::map`] in a row give what one map gives with their composition `h`, when `h`
/// answers as a function.
pub proof fn law_map_compose<E, F: FnOnce(usize) -> usize, G: FnOnce(usize) -> usize, H: FnOnce(usize) -> usize>(
    r: ToolResult<E>,
    f: F,
    g: G,
    h: H,
    mid: ToolResult<E>,
    out: ToolResult<E>,
    once: ToolResult<E>,
)
    requires
        mapped(r, f, mid),
        mapped(mid, g, out),
        mapped(r, h, once),
        forall|l: usize, l1: usize, l2: usize| call_ensures(f, (l,), l1) && call_ensures(g, (l1,), l2) ==> call_ensures(h, (l,), l2),
        forall|l: usize, a: usize, b: usize| call_ensures(h, (l,), a) && call_ensures(h, (l,), b) ==> a == b,
    ensures
        out == once,
{
}

/// [`ToolResult::and_then`] with a function that matches the length it is given keeps the
/// result.
pub proof fn law_and_then_identity<E, F: FnOnce(usize) -> ToolResult<E>>(r: ToolResult<E>, f: F, out: ToolResult<E>)
    requires
        chained(r, f, out),
        forall|l: usize, o: ToolResult<E>| call_ensures(f, (l,), o) ==> o == (ToolResult::<E>::Match { len: l }),
    ensures
        out == r,
{
}

/// [`ToolResult::or_else`] with a function that misses with the error it is given keeps the
/// result.
pub proof fn law_or_else_identity<E, F: FnOnce(E) -> ToolResult<E>>(r: ToolResult<E>, f: F, out: ToolResult<E>)
    requires
        recovered(r, f, out),
        forall|e: E, o: ToolResult<E>| call_ensures(f, (e,), o) ==> o == ToolResult::<E>::NoMatch(e),
    ensures
        out == r,
{
}

/// [`ToolResultData::drop_data`] undoes [`ToolResult::map_data`] with a function that keeps the
/// length.
pub proof fn law_drop_data_undoes_map_data<D, E, F: FnOnce(usize) -> (usize, D)>(r: ToolResult<E>, f: F, out: ToolResultData<D, E>)
    requires
        mapped_data(r, f, out),
        forall|l: usize, p: (usize, D)| call_ensures(f, (l,), p) ==> p.0 == l,
    ensures
        dropped(out) == r,
{
}

/// A [`PredicateTool`] matches exactly one character, the first one, where its predicate answers
/// `true` on it; where the predicate answers `false`, it misses with that character, and on an
/// empty input it misses with no character.
pub proof fn law_predicate_tool<P: Fn(char) -> bool>(t: PredicateTool<P>, st: Seq<char>)
    requires
        char_pred_ok(t.pred()),
    ensures
        st.len() > 0 && call_ensures(t.pred(), (st[0],), true) ==> t.spec_parse(st) == Ok::<nat, Option<char>>(1),
        st.len() > 0 && call_ensures(t.pred(), (st[0],), false) ==> t.spec_parse(st) == Err::<nat, Option<char>>(Some(st[0])),
        st.len() == 0 ==> t.spec_parse(st) == Err::<nat, Option<char>>(None),
{
}

/// A [`PredicateRefTool`] matches exactly one character, the first one, where its predicate
/// answers `true` on it; where the predicate answers `false`, it misses with that character, and
/// on an empty input it misses with no character.
pub proof fn law_predicate_ref_tool<P: Fn(&char) -> bool>(t: PredicateRefTool<P>, st: Seq<char>)
    requires
        ref_pred_ok(t.pred()),
    ensures
        st.len() > 0 && call_ensures(t.pred(), (&st[0],), true) ==> t.spec_parse(st) == Ok::<nat, Option<char>>(1),
        st.len() > 0 && call_ensures(t.pred(), (&st[0],), false) ==> t.spec_parse(st) == Err::<nat, Option<char>>(Some(st[0])),
        st.len() == 0 ==> t.spec_parse(st) == Err::<nat, Option<char>>(None),
{
}

/// [`SeqTool`] on two tools matches the first one and then the second one on what follows, with
/// the sum of their lengths, and misses where either misses.
pub proof fn law_seq_tool_pair<A: ParseTool, B: ParseTool>(a: A, b: B, st: Seq<char>)
    ensures
        match a.spec_parse(st) {
            Ok(k) => k <= st.len() ==> SeqTool((a, b)).spec_parse(st) == match b.spec_parse(st.skip(k as int)) {
                Ok(k2) => Ok::<nat, ()>(k + k2),
                Err(_) => Err::<nat, ()>(()),
            },
            Err(_) => SeqTool((a, b)).spec_parse(st) is Err,
        },
{
}

/// [`Or`] on a tuple of any size tries its first tool and, where it misses, the rest of the tuple:
/// it matches as the first tool followed by the rest nested, so that the first tool that matches
/// gives the match, and the tuple misses only where every tool misses.
pub proof fn law_or_tuples<T0: ParseTool, T1: ParseTool, T2: ParseTool, T3: ParseTool, T4: ParseTool, T5: ParseTool, T6: ParseTool, T7: ParseTool, T8: ParseTool, T9: ParseTool, T10: ParseTool, T11: ParseTool, T12: ParseTool, T13: ParseTool, T14: ParseTool>(t0: T0, t1: T1, t2: T2, t3: T3, t4: T4, t5: T5, t6: T6, t7: T7, t8: T8, t9: T9, t10: T10, t11: T11, t12: T12, t13: T13, t14: T14, st: Seq<char>)
    ensures
        Or((t0, t1, t2, t3)).spec_parse(st) == Or((t0, Or((t1, t2, t3)))).spec_parse(st),
        Or((t0, t1, t2, t3, t4)).spec_parse(st) == Or((t0, Or((t1, t2, t3, t4)))).spec_parse(st),
        Or((t0, t1, t2, t3, t4, t5)).spec_parse(st) == Or((t0, Or((t1, t2, t3, t4, t5)))).spec_parse(st),
        Or((t0, t1, t2, t3, t4, t5, t6)).spec_parse(st) == Or((t0, Or((t1, t2, t3, t4, t5, t6)))).spec_parse(st),
        Or((t0, t1, t2, t3, t4, t5, t6, t7)).spec_parse(st) == Or((t0, Or((t1, t2, t3, t4, t5, t6, t7)))).spec_parse(st),
        Or((t0, t1, t2, t3, t4, t5, t6, t7, t8)).spec_parse(st) == Or((t0, Or((t1, t2, t3, t4, t5, t6, t7, t8)))).spec_parse(st),
        Or((t0, t1, t2, t3, t4, t5, t6, t7, t8, t9)).spec_parse(st) == Or((t0, Or((t1, t2, t3, t4, t5, t6, t7, t8, t9)))).spec_parse(st),
        Or((t0, t1, t2, t3, t4, t5, t6, t7, t8, t9, t10)).spec_parse(st) == Or((t0, Or((t1, t2, t3, t4, t5, t6, t7, t8, t9, t10)))).spec_parse(st),
        Or((t0, t1, t2, t3, t4, t5, t6, t7, t8, t9, t10, t11)).spec_parse(st) == Or((t0, Or((t1, t2, t3, t4, t5, t6, t7, t8, t9, t10, t11)))).spec_parse(st),
        Or((t0, t1, t2, t3, t4, t5, t6, t7, t8, t9, t10, t11, t12)).spec_parse(st) == Or((t0, Or((t1, t2, t3, t4, t5, t6, t7, t8, t9, t10, t11, t12)))).spec_parse(st),
        Or((t0, t1, t2, t3, t4, t5, t6, t7, t8, t9, t10, t11, t12, t13)).spec_parse(st) == Or((t0, Or((t1, t2, t3, t4, t5, t6, t7, t8, t9, t10, t11, t12, t13)))).spec_parse(st),
        Or((t0, t1, t2, t3, t4, t5, t6, t7, t8, t9, t10, t11, t12, t13, t14)).spec_parse(st) == Or((t0, Or((t1, t2, t3, t4, t5, t6, t7, t8, t9, t10, t11, t12, t13, t14)))).spec_parse(st),
{
}

/// [`SeqTool`] on a tuple of any size matches its first tool and then the rest of the tuple on
/// what follows: it matches as the first tool followed by the rest nested, so that every tool
/// runs in turn after the previous ones, and the length is the sum of their lengths.
pub proof fn law_seq_tool_tuples<T0: ParseTool, T1: ParseTool, T2: ParseTool, T3: ParseTool, T4: ParseTool, T5: ParseTool, T6: ParseTool, T7: ParseTool, T8: ParseTool, T9: ParseTool, T10: ParseTool, T11: ParseTool, T12: ParseTool, T13: ParseTool, T14: ParseTool>(t0: T0, t1: T1, t2: T2, t3: T3, t4: T4, t5: T5, t6: T6, t7: T7, t8: T8, t9: T9, t10: T10, t11: T11, t12: T12, t13: T13, t14: T14, st: Seq<char>)
    ensures
        SeqTool((t0, t1, t2, t3)).spec_parse(st) == SeqTool((t0, SeqTool((t1, t2, t3)))).spec_parse(st),
        SeqTool((t0, t1, t2, t3, t4)).spec_parse(st) == SeqTool((t0, SeqTool((t1, t2, t3, t4)))).spec_parse(st),
        SeqTool((t0, t1, t2, t3, t4, t5)).spec_parse(st) == SeqTool((t0, SeqTool((t1, t2, t3, t4, t5)))).spec_parse(st),
        SeqTool((t0, t1, t2, t3, t4, t5, t6)).spec_parse(st) == SeqTool((t0, SeqTool((t1, t2, t3, t4, t5, t6)))).spec_parse(st),
        SeqTool((t0, t1, t2, t3, t4, t5, t6, t7)).spec_parse(st) == SeqTool((t0, SeqTool((t1, t2, t3, t4, t5, t6, t7)))).spec_parse(st),
        SeqTool((t0, t1, t2, t3, t4, t5, t6, t7, t8)).spec_parse(st) == SeqTool((t0, SeqTool((t1, t2, t3, t4, t5, t6, t7, t8)))).spec_parse(st),
        SeqTool((t0, t1, t2, t3, t4, t5, t6, t7, t8, t9)).spec_parse(st) == SeqTool((t0, SeqTool((t1, t2, t3, t4, t5, t6, t7, t8, t9)))).spec_parse(st),
        SeqTool((t0, t1, t2, t3, t4, t5, t6, t7, t8, t9, t10)).spec_parse(st) == SeqTool((t0, SeqTool((t1, t2, t3, t4, t5, t6, t7, t8, t9, t10)))).spec_parse(st),
        SeqTool((t0, t1, t2, t3, t4, t5, t6, t7, t8, t9, t10, t11)).spec_parse(st) == SeqTool((t0, SeqTool((t1, t2, t3, t4, t5, t6, t7, t8, t9, t10, t11)))).spec_parse(st),
        SeqTool((t0, t1, t2, t3, t4, t5, t6, t7, t8, t9, t10, t11, t12)).spec_parse(st) == SeqTool((t0, SeqTool((t1, t2, t3, t4, t5, t6, t7, t8, t9, t10, t11, t12)))).spec_parse(st),
        SeqTool((t0, t1, t2, t3, t4, t5, t6, t7, t8, t9, t10, t11, t12, t13)).spec_parse(st) == SeqTool((t0, SeqTool((t1, t2, t3, t4, t5, t6, t7, t8, t9, t10, t11, t12, t13)))).spec_parse(st),
        SeqTool((t0, t1, t2, t3, t4, t5, t6, t7, t8, t9, t10, t11, t12, t13, t14)).spec_parse(st) == SeqTool((t0, SeqTool((t1, t2, t3, t4, t5, t6, t7, t8, t9, t10, t11, t12, t13, t14)))).spec_parse(st),
{
}

/// `n` repetitions of separator and tool that all match take no more than the characters there are.
proof fn lemma_rep_exact_len<T: ParseTool, S: ParseTool>(tool: T, sep: S, s: Seq<char>, m: nat)
    requires
        rep_exact(tool, sep, s, m) is Ok,
    ensures
        rep_exact(tool, sep, s, m)->Ok_0 <= s.len(),
    decreases m,
{
    if m > 0 {
        let k = sep_then(tool, sep, s)->Some_0;
        lemma_rep_exact_len(tool, sep, s.skip(k as int), (m - 1) as nat);
    }
}

/// Where `m` repetitions of separator and tool all match, at most `n >= m` greedy ones match
/// those `m` and then at most `n - m` more.
proof fn lemma_rep_bounded_split<T: ParseTool, S: ParseTool>(tool: T, sep: S, s: Seq<char>, m: nat, n: nat)
    requires
        m <= n,
        rep_exact(tool, sep, s, m) is Ok,
    ensures
        rep_exact(tool, sep, s, m)->Ok_0 <= s.len(),
        rep_bounded(tool, sep, s, n) == rep_exact(tool, sep, s, m)->Ok_0
            + rep_bounded(tool, sep, s.skip(rep_exact(tool, sep, s, m)->Ok_0 as int), (n - m) as nat),
    decreases m,
{
    lemma_rep_exact_len(tool, sep, s, m);
    if m == 0 {
        assert(s.skip(0) =~= s);
    } else {
        let k = sep_then(tool, sep, s)->Some_0;
        let r = rep_exact(tool, sep, s.skip(k as int), (m - 1) as nat)->Ok_0;
        lemma_rep_bounded_split(tool, sep, s.skip(k as int), (m - 1) as nat, (n - 1) as nat);
        lemma_skip_skip(s, k, r);
    }
}

/// Where separator and tool match nothing at `s`, any number of them match nothing there.
proof fn lemma_rep_exact_zero_step<T: ParseTool, S: ParseTool>(tool: T, sep: S, s: Seq<char>, j: nat)
    requires
        sep_then(tool, sep, s) == Some(0nat),
    ensures
        rep_exact(tool, sep, s, j) == Ok::<nat, nat>(0),
    decreases j,
{
    assert(s.skip(0) =~= s);
    if j > 0 {
        lemma_rep_exact_zero_step(tool, sep, s, (j - 1) as nat);
    }
}

/// Where `m` repetitions of separator and tool all match, the unbounded greedy repetitions match
/// those `m` and then the unbounded greedy repetitions that follow them.
proof fn lemma_rep_unbounded_split<T: ParseTool, S: ParseTool>(tool: T, sep: S, s: Seq<char>, m: nat)
    requires
        rep_exact(tool, sep, s, m) is Ok,
    ensures
        rep_exact(tool, sep, s, m)->Ok_0 <= s.len(),
        rep_unbounded(tool, sep, s) == rep_exact(tool, sep, s, m)->Ok_0
            + rep_unbounded(tool, sep, s.skip(rep_exact(tool, sep, s, m)->Ok_0 as int)),
    decreases m,
{
    lemma_rep_exact_len(tool, sep, s, m);
    if m == 0 {
        assert(s.skip(0) =~= s);
    } else {
        let k = sep_then(tool, sep, s)->Some_0;
        if k == 0 {
            assert(s.skip(0) =~= s);
            lemma_rep_exact_zero_step(tool, sep, s, (m - 1) as nat);
        } else {
            let r = rep_exact(tool, sep, s.skip(k as int), (m - 1) as nat)->Ok_0;
            lemma_rep_unbounded_split(tool, sep, s.skip(k as int), (m - 1) as nat);
            lemma_skip_skip(s, k, r);
        }
    }
}

/// Where a [`RepeatTool`] with a minimum matches, it matches what the repetition of the same tool
/// and separator up to the same maximum, with no minimum ([`RepeatAnyTool`]), matches: the
/// repetitions beyond the minimum are still taken greedily, up to the maximum.
pub proof fn law_repeat_min_keeps_greedy<T: ParseTool, SEP: ParseTool>(r: RepeatTool<T, SEP>, a: RepeatAnyTool<T, SEP>, st: Seq<char>)
    requires
        r.min() > 0,
        a.tool() == r.tool(),
        a.sep() == r.sep(),
        a.max() == r.max(),
        r.spec_parse(st) is Ok,
    ensures
        r.spec_parse(st) == Ok::<nat, RepeatToolErr>(a.spec_parse(st)->Ok_0),
{
    let tool = r.tool();
    let sep = r.sep();
    let min = r.min();
    let k = tool.spec_parse(st)->Ok_0;
    let rest = st.skip(k as int);
    let k2 = rep_exact(tool, sep, rest, (min - 1) as nat)->Ok_0;
    match r.max() {
        Some(m) => {
            lemma_rep_bounded_split(tool, sep, rest, (min - 1) as nat, (m - 1) as nat);
        },
        None => {
            lemma_rep_unbounded_split(tool, sep, rest, (min - 1) as nat);
        },
    }
    lemma_skip_skip(st, k, k2);
}

/// After the characters that unbounded greedy repetitions match, no further separator and tool
/// match with progress.
proof fn lemma_rep_unbounded_stops<T: ParseTool, S: ParseTool>(tool: T, sep: S, s: Seq<char>)
    ensures
        rep_unbounded(tool, sep, s) <= s.len(),
        match sep_then(tool, sep, s.skip(rep_unbounded(tool, sep, s) as int)) {
            Some(k) => k == 0 || k > s.len() - rep_unbounded(tool, sep, s),
            None => true,
        },
    decreases s.len(),
{
    match sep_then(tool, sep, s) {
        Some(k) => if 0 < k <= s.len() {
            lemma_rep_unbounded_stops(tool, sep, s.skip(k as int));
            lemma_skip_skip(s, k, rep_unbounded(tool, sep, s.skip(k as int)));
        } else {
            assert(s.skip(0) =~= s);
        },
        None => {
            assert(s.skip(0) =~= s);
        },
    }
}

/// A [`RepeatAnyTool`] without a maximum is greedy: it takes the first item where the tool
/// matches, and it stops only where no separator followed by the tool matches any further
/// characters of what remains.
pub proof fn law_repeat_any_greedy<T: ParseTool, SEP: ParseTool>(a: RepeatAnyTool<T, SEP>, st: Seq<char>)
    requires
        a.max() is None,
    ensures
        a.spec_parse(st)->Ok_0 <= st.len(),
        match a.tool().spec_parse(st) {
            Ok(k) => k <= st.len() ==> a.spec_parse(st)->Ok_0 >= k,
            Err(_) => a.spec_parse(st)->Ok_0 == 0,
        },
        a.tool().spec_parse(st) matches Ok(k) && k <= st.len() ==> {
            let n = a.spec_parse(st)->Ok_0;
            let rest = st.skip(n as int);
            match a.sep().spec_parse(rest) {
                Ok(s) => s <= rest.len() ==> match a.tool().spec_parse(rest.skip(s as int)) {
                    Ok(t) => s + t == 0 || s + t > rest.len(),
                    Err(_) => true,
                },
                Err(_) => true,
            }
        },
{
    match a.tool().spec_parse(st) {
        Ok(k) => if k <= st.len() {
            let s1 = st.skip(k as int);
            lemma_rep_unbounded_stops(a.tool(), a.sep(), s1);
            lemma_skip_skip(st, k, rep_unbounded(a.tool(), a.sep(), s1));
        },
        Err(_) => {},
    }
}

/// Where at most `n` lazy repetitions end in a match of `term`, the repetitions stay within the
/// characters there are and `term` matches right after them.
proof fn lemma_lazy_bounded_ends<T: ParseTool, S: ParseTool, R: ParseTool>(tool: T, sep: S, term: R, s: Seq<char>, n: nat)
    requires
        lazy_bounded(tool, sep, term, s, n) is Ok,
    ensures
        lazy_bounded(tool, sep, term, s, n)->Ok_0.0 <= s.len(),
        term.spec_parse(s.skip(lazy_bounded(tool, sep, term, s, n)->Ok_0.0 as int))
            == Ok::<nat, R::Error>(lazy_bounded(tool, sep, term, s, n)->Ok_0.1),
    decreases n,
{
    if term.spec_parse(s) is Ok {
        assert(s.skip(0) =~= s);
    } else {
        let k = sep_then(tool, sep, s)->Some_0;
        lemma_lazy_bounded_ends(tool, sep, term, s.skip(k as int), (n - 1) as nat);
        lemma_skip_skip(s, k, lazy_bounded(tool, sep, term, s.skip(k as int), (n - 1) as nat)->Ok_0.0);
    }
}

/// Where unbounded lazy repetitions end in a match of `term`, the repetitions stay within the
/// characters there are and `term` matches right after them.
proof fn lemma_lazy_unbounded_ends<T: ParseTool, S: ParseTool, R: ParseTool>(tool: T, sep: S, term: R, s: Seq<char>)
    requires
        lazy_unbounded(tool, sep, term, s) is Ok,
    ensures
        lazy_unbounded(tool, sep, term, s)->Ok_0.0 <= s.len(),
        term.spec_parse(s.skip(lazy_unbounded(tool, sep, term, s)->Ok_0.0 as int))
            == Ok::<nat, R::Error>(lazy_unbounded(tool, sep, term, s)->Ok_0.1),
    decreases s.len(),
{
    if term.spec_parse(s) is Ok {
        assert(s.skip(0) =~= s);
    } else {
        let k = sep_then(tool, sep, s)->Some_0;
        lemma_lazy_unbounded_ends(tool, sep, term, s.skip(k as int));
        lemma_skip_skip(s, k, lazy_unbounded(tool, sep, term, s.skip(k as int))->Ok_0.0);
    }
}

/// A [`LazyRepeatAnyTool`] match is the repeated text that it returns, a prefix of the input,
/// followed by a match of the terminator: the whole length is the length of that text plus the
/// length that the terminator matches right after it. Where the text is not empty, the
/// terminator misses at the start and the tool matches there, within the text.
pub proof fn law_lazy_match_is_text_then_term<'a, T: ParseTool, SEP: ParseTool, TERM: ParseTool>(l: LazyRepeatAnyTool<T, SEP, TERM>, st: Seq<char>)
    ensures
        ParseToolData::<'a, LazyNoTerm>::spec_parse_data(&l, st, LazyNoTerm) matches Ok((len, d)) ==> {
            &&& d.len() <= len
            &&& d.len() <= st.len()
            &&& d == st.take(d.len() as int)
            &&& l.term().spec_parse(st.skip(d.len() as int)) == Ok::<nat, TERM::Error>((len - d.len()) as nat)
            &&& d.len() > 0 ==> l.term().spec_parse(st) is Err
            &&& d.len() > 0 ==> (l.tool().spec_parse(st) matches Ok(k) && k <= d.len())
        },
{
    let (tool, sep, term, max) = (l.tool(), l.sep(), l.term(), l.max());
    if term.spec_parse(st) is Ok {
        assert(st.take(0) =~= Seq::<char>::empty());
        assert(st.skip(0) =~= st);
    } else if max != Some(0usize) {
        if let Ok(k) = tool.spec_parse(st) {
            if k <= st.len() {
                let s1 = st.skip(k as int);
                match after_first(max) {
                    Some(n) => {
                        if lazy_bounded(tool, sep, term, s1, n) is Ok {
                            lemma_lazy_bounded_ends(tool, sep, term, s1, n);
                            lemma_skip_skip(st, k, lazy_bounded(tool, sep, term, s1, n)->Ok_0.0);
                        }
                    },
                    None => {
                        if lazy_unbounded(tool, sep, term, s1) is Ok {
                            lemma_lazy_unbounded_ends(tool, sep, term, s1);
                            lemma_skip_skip(st, k, lazy_unbounded(tool, sep, term, s1)->Ok_0.0);
                        }
                    },
                }
            }
        }
    }
}

/// Where the tools of `ts` before the `i`-th all miss, trying them in order from the start gives
/// what trying them from the `i`-th gives.
proof fn lemma_first_match_skips_misses<R: ParseTool>(ts: Seq<R>, st: Seq<char>, i: int)
    requires
        0 <= i <= ts.len(),
        forall|j: int| 0 <= j < i ==> #[trigger] ts[j].spec_parse(st) is Err,
    ensures
        first_match(ts, st) == first_match(ts.skip(i), st),
    decreases i,
{
    if i == 0 {
        assert(ts.skip(0) =~= ts);
    } else {
        assert(ts[0].spec_parse(st) is Err);
        let d = ts.drop_first();
        assert forall|j: int| 0 <= j < i - 1 implies #[trigger] d[j].spec_parse(st) is Err by {
            assert(d[j] == ts[j + 1]);
        }
        lemma_first_match_skips_misses(d, st, i - 1);
        assert(d.skip(i - 1) =~= ts.skip(i));
    }
}

/// Trying the tools of `ts` in order gives the match of the first one that matches, and misses
/// only where every one of them misses.
proof fn lemma_first_match_first<R: ParseTool>(ts: Seq<R>, st: Seq<char>)
    ensures
        forall|i: int| 0 <= i < ts.len() && ts[i].spec_parse(st) is Ok
            && (forall|j: int| 0 <= j < i ==> #[trigger] ts[j].spec_parse(st) is Err)
            ==> first_match(ts, st) == Ok::<nat, ()>((#[trigger] ts[i].spec_parse(st))->Ok_0),
        (forall|j: int| 0 <= j < ts.len() ==> #[trigger] ts[j].spec_parse(st) is Err) ==> first_match(ts, st) is Err,
{
    assert forall|i: int| 0 <= i < ts.len() && ts[i].spec_parse(st) is Ok
        && (forall|j: int| 0 <= j < i ==> #[trigger] ts[j].spec_parse(st) is Err)
        implies first_match(ts, st) == Ok::<nat, ()>((#[trigger] ts[i].spec_parse(st))->Ok_0) by {
        lemma_first_match_skips_misses(ts, st, i);
        assert(ts.skip(i)[0] == ts[i]);
    }
    if forall|j: int| 0 <= j < ts.len() ==> #[trigger] ts[j].spec_parse(st) is Err {
        lemma_first_match_skips_misses(ts, st, ts.len() as int);
    }
}

/// A slice of tools tries them in order: the first one that matches gives the match, and the
/// slice misses only where every one of them misses.
pub proof fn law_slice_first_match<R: ParseTool>(ts: &[R], st: Seq<char>)
    ensures
        forall|i: int| 0 <= i < ts@.len() && ts@[i].spec_parse(st) is Ok
            && (forall|j: int| 0 <= j < i ==> #[trigger] ts@[j].spec_parse(st) is Err)
            ==> ts.spec_parse(st) == Ok::<nat, ()>((#[trigger] ts@[i].spec_parse(st))->Ok_0),
        (forall|j: int| 0 <= j < ts@.len() ==> #[trigger] ts@[j].spec_parse(st) is Err) ==> ts.spec_parse(st) is Err,
{
    lemma_first_match_first(ts@, st);
}

/// An array of tools tries them in order: the first one that matches gives the match, and the
/// array misses only where every one of them misses.
pub proof fn law_array_first_match<R: ParseTool, const N: usize>(ts: [R; N], st: Seq<char>)
    ensures
        forall|i: int| 0 <= i < ts@.len() && ts@[i].spec_parse(st) is Ok
            && (forall|j: int| 0 <= j < i ==> #[trigger] ts@[j].spec_parse(st) is Err)
            ==> ts.spec_parse(st) == Ok::<nat, ()>((#[trigger] ts@[i].spec_parse(st))->Ok_0),
        (forall|j: int| 0 <= j < ts@.len() ==> #[trigger] ts@[j].spec_parse(st) is Err) ==> ts.spec_parse(st) is Err,
{
    lemma_first_match_first(ts@, st);
}

/// A string matches exactly where it is a prefix of the input, with its own length, and a
/// character matches exactly where the input starts with it, with length one.
pub proof fn law_str_and_char(s: &str, c: char, st: Seq<char>)
    ensures
        <str as ParseTool>::spec_parse(s, st) is Ok <==> s@.is_prefix_of(st),
        s@.is_prefix_of(st) ==> <str as ParseTool>::spec_parse(s, st) == Ok::<nat, ()>(s@.len()),
        <char as ParseTool>::spec_parse(&c, st) is Ok <==> seq![c].is_prefix_of(st),
        seq![c].is_prefix_of(st) ==> <char as ParseTool>::spec_parse(&c, st) == Ok::<nat, ()>(1nat),
{
    if s@.is_prefix_of(st) {
        assert(st.take(s@.len() as int) =~= s@);
    }
    if seq![c].is_prefix_of(st) {
        assert(st[0] == seq![c][0]);
    }
    if st.len() > 0 && st[0] == c {
        assert(seq![c].is_prefix_of(st));
    }
}

/// Allowing one more greedy repetition adds exactly the separator and tool that match next, if
/// they match.
proof fn lemma_rep_bounded_one_more<T: ParseTool, S: ParseTool>(tool: T, sep: S, s: Seq<char>, n: nat)
    ensures
        rep_bounded(tool, sep, s, n) <= s.len(),
        rep_bounded(tool, sep, s, n + 1) == rep_bounded(tool, sep, s, n)
            + match sep_then(tool, sep, s.skip(rep_bounded(tool, sep, s, n) as int)) {
                Some(k) => if k <= s.len() - rep_bounded(tool, sep, s, n) { k } else { 0 },
                None => 0,
            },
    decreases n,
{
    assert(s.skip(0) =~= s);
    if n == 0 {
        if let Some(k) = sep_then(tool, sep, s) {
            assert(rep_bounded(tool, sep, s.skip(k as int), 0) == 0);
        }
    } else {
        match sep_then(tool, sep, s) {
            Some(k) => if k <= s.len() {
                let s1 = s.skip(k as int);
                lemma_rep_bounded_one_more(tool, sep, s1, (n - 1) as nat);
                lemma_skip_skip(s, k, rep_bounded(tool, sep, s1, (n - 1) as nat));
                assert(rep_bounded(tool, sep, s, n) == k + rep_bounded(tool, sep, s1, (n - 1) as nat));
                assert(rep_bounded(tool, sep, s, n + 1) == k + rep_bounded(tool, sep, s1, n));
                assert((n - 1) as nat + 1 == n);
            } else {
                assert(rep_bounded(tool, sep, s, n) == 0);
                assert(rep_bounded(tool, sep, s, n + 1) == 0);
            },
            None => {
                assert(rep_bounded(tool, sep, s, n) == 0);
                assert(rep_bounded(tool, sep, s, n + 1) == 0);
            },
        }
    }
}

/// A [`RepeatAnyTool`] that may take one repetition matches exactly the first item, and each
/// further repetition allowed adds exactly the separator and item that match right after what
/// was matched, if they match.
pub proof fn law_repeat_any_one_more<T: ParseTool, SEP: ParseTool>(a: RepeatAnyTool<T, SEP>, b: RepeatAnyTool<T, SEP>, st: Seq<char>)
    requires
        b.tool() == a.tool(),
        b.sep() == a.sep(),
        a.max() matches Some(m) && m >= 1 && m < usize::MAX,
        b.max() == Some((a.max()->Some_0 + 1) as usize),
    ensures
        a.max() == Some(1usize) ==> a.spec_parse(st) == Ok::<nat, Infallible>(match a.tool().spec_parse(st) {
            Ok(k) => if k <= st.len() { k } else { 0 },
            Err(_) => 0,
        }),
        a.tool().spec_parse(st) matches Ok(k) && k <= st.len() ==> {
            let n = a.spec_parse(st)->Ok_0;
            let rest = st.skip(n as int);
            &&& n <= st.len()
            &&& b.spec_parse(st)->Ok_0 == n + match a.sep().spec_parse(rest) {
                Ok(x) => if x <= rest.len() {
                    match a.tool().spec_parse(rest.skip(x as int)) {
                        Ok(y) => if x + y <= rest.len() { x + y } else { 0 },
                        Err(_) => 0,
                    }
                } else {
                    0
                },
                Err(_) => 0,
            }
        },
{
    let m = a.max()->Some_0;
    match a.tool().spec_parse(st) {
        Ok(k) => if k <= st.len() {
            let s1 = st.skip(k as int);
            lemma_rep_bounded_one_more(a.tool(), a.sep(), s1, (m - 1) as nat);
            lemma_skip_skip(st, k, rep_bounded(a.tool(), a.sep(), s1, (m - 1) as nat));
        },
        Err(_) => {},
    }
}

/// Where `m` repetitions of separator and tool do not all match, the first `i` of them do, and
/// asking for any number of them beyond `i` fails at the same place.
proof fn lemma_rep_exact_fails_at<T: ParseTool, S: ParseTool>(tool: T, sep: S, s: Seq<char>, m: nat, j: nat)
    requires
        rep_exact(tool, sep, s, m) is Err,
        j > rep_exact(tool, sep, s, m)->Err_0,
    ensures
        rep_exact(tool, sep, s, m)->Err_0 < m,
        rep_exact(tool, sep, s, rep_exact(tool, sep, s, m)->Err_0) is Ok,
        rep_exact(tool, sep, s, j) == rep_exact(tool, sep, s, m),
    decreases m,
{
    let i = rep_exact(tool, sep, s, m)->Err_0;
    match sep_then(tool, sep, s) {
        Some(k) => if k <= s.len() {
            if i > 0 {
                lemma_rep_exact_fails_at(tool, sep, s.skip(k as int), (m - 1) as nat, (j - 1) as nat);
            }
        },
        None => {},
    }
}

/// Where a [`RepeatTool`] fails for too few repetitions, it reports how many items match in a
/// row, fewer than its minimum: asking for that many (where it is not zero) matches, and asking
/// for one more fails with the same count; where the count is zero, the tool misses at the
/// start.
pub proof fn law_repeat_min_error_counts<T: ParseTool, SEP: ParseTool>(r: RepeatTool<T, SEP>, fewer: RepeatTool<T, SEP>, more: RepeatTool<T, SEP>, st: Seq<char>)
    requires
        r.spec_parse(st) is Err,
        r.spec_parse(st)->Err_0 is Min,
        fewer.tool() == r.tool() && fewer.sep() == r.sep() && fewer.max() == r.max(),
        more.tool() == r.tool() && more.sep() == r.sep() && more.max() == r.max(),
        fewer.min() == r.spec_parse(st)->Err_0->Min_fnd,
        more.min() == r.spec_parse(st)->Err_0->Min_fnd + 1,
    ensures
        r.spec_parse(st)->Err_0->Min_min == r.min(),
        r.spec_parse(st)->Err_0->Min_fnd < r.min(),
        fewer.min() > 0 ==> fewer.spec_parse(st) is Ok,
        fewer.min() == 0 ==> !(r.tool().spec_parse(st) matches Ok(k) && k <= st.len()),
        more.spec_parse(st) == Err::<nat, RepeatToolErr>(RepeatToolErr::Min { min: more.min(), fnd: r.spec_parse(st)->Err_0->Min_fnd }),
{
    let min = r.min();
    if let Ok(k) = r.tool().spec_parse(st) {
        if k <= st.len() {
            let rest = st.skip(k as int);
            let i = rep_exact(r.tool(), r.sep(), rest, (min - 1) as nat)->Err_0;
            lemma_rep_exact_fails_at(r.tool(), r.sep(), rest, (min - 1) as nat, i + 1);
            lemma_rep_exact_len(r.tool(), r.sep(), rest, i);
        }
    }
}

/// Where at most `n` lazy repetitions end in a match of the terminator, allowing more of them
/// changes nothing: the terminator found first is still the one found.
proof fn lemma_lazy_bounded_more<T: ParseTool, S: ParseTool, R: ParseTool>(tool: T, sep: S, term: R, s: Seq<char>, n: nat, n2: nat)
    requires
        n <= n2,
        lazy_bounded(tool, sep, term, s, n) is Ok,
    ensures
        lazy_bounded(tool, sep, term, s, n2) == lazy_bounded(tool, sep, term, s, n),
    decreases n,
{
    if term.spec_parse(s) is Err {
        let k = sep_then(tool, sep, s)->Some_0;
        lemma_lazy_bounded_more(tool, sep, term, s.skip(k as int), (n - 1) as nat, (n2 - 1) as nat);
    }
}

/// A [`LazyRepeatAnyTool`] stops at the first match of its terminator: where it matches with at
/// most `m` repetitions, allowing more repetitions gives the same match.
pub proof fn law_lazy_first_term_wins<T: ParseTool, SEP: ParseTool, TERM: ParseTool>(l: LazyRepeatAnyTool<T, SEP, TERM>, l2: LazyRepeatAnyTool<T, SEP, TERM>, st: Seq<char>)
    requires
        l2.tool() == l.tool(),
        l2.sep() == l.sep(),
        l2.term() == l.term(),
        l.max() matches Some(m) && l2.max() matches Some(m2) && m <= m2,
        l.spec_parse(st) is Ok,
    ensures
        l2.spec_parse(st) == l.spec_parse(st),
        lazy_reps(l2.tool(), l2.sep(), l2.term(), l2.max(), st) == lazy_reps(l.tool(), l.sep(), l.term(), l.max(), st),
{
    let m = l.max()->Some_0;
    let m2 = l2.max()->Some_0;
    if l.term().spec_parse(st) is Err && m > 0 {
        let k = l.tool().spec_parse(st)->Ok_0;
        lemma_lazy_bounded_more(l.tool(), l.sep(), l.term(), st.skip(k as int), (m - 1) as nat, (m2 - 1) as nat);
    }
}

} // verus!
