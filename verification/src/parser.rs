//! Parsing tools that carry data.
//!
//! This module provides the [`ParseTool`] trait, whose tools take a [`View`] and return the
//! view that follows the match together with the data the match produced. A tool is specified
//! by [`ParseTool::spec_parse`], a function from the characters and the position of the view to
//! the number of matched characters and the (deep view of the) data, or to an error.
use vstd::prelude::*;
use vstd::view::View as _;
use crate::pos::{Position, NoFile, advance, advance_fits, lemma_advance_concat};
use crate::text::{prefix_len, byte_len, first_char, char_len, starts_with, lemma_prefix_len_one, lemma_prefix_len_zero, lemma_encode_concat};
use crate::viewerr::{self, prefix_bytes};
use vstd::pervasive::cloned;

verus! {

/// A view on a `str` to be parsed, carrying some data.
///
/// The view holds the rest of the string, the [`Position`] of its first character and the data
/// produced by the last match.
#[derive(Debug, Clone, Copy)]
pub struct View<'a, D, F = NoFile> {
    inner: viewerr::View<'a, F>,
    data: D,
}

/// The error of a missing match: the position at which the match was tried.
#[derive(Debug, Clone, Copy, Eq, PartialEq)]
pub struct NoMatch<F = NoFile> {
    /// Position of the missing match.
    pub pos: Position<F>,
}

impl<'a, D, F> View<'a, D, F> {
    /// The string that remains to be parsed.
    pub closed spec fn text(self) -> &'a str {
        self.inner.text()
    }

    /// The position of the first character of [`View::text`].
    pub closed spec fn pos(self) -> Position<F> {
        self.inner.pos()
    }

    /// The carried data.
    pub closed spec fn data(self) -> D {
        self.data
    }

    /// Every character of the string has a position whose line and column fit in `u32`.
    pub open spec fn fits(self) -> bool {
        forall|i: nat| i <= self.text()@.len() ==> #[trigger] advance_fits(self.pos(), prefix_bytes(self.text()@, i))
    }

    /// `next` is what remains after a match of `k` characters: the rest of the string, at the
    /// position reached after the matched characters.
    pub open spec fn stepped<E>(self, k: nat, next: View<'a, E, F>) -> bool {
        &&& k <= self.text()@.len()
        &&& next.text()@ == self.text()@.skip(k as int)
        &&& next.pos() == advance(self.pos(), prefix_bytes(self.text()@, k))
    }

    /// What remains after a match of a view whose characters fit, fits too.
    pub proof fn lemma_stepped_fits<E>(self, k: nat, next: View<'a, E, F>)
        requires
            self.fits(),
            self.stepped(k, next),
        ensures
            next.fits(),
    {
        let s = self.text()@;
        assert forall|i: nat| i <= next.text()@.len() implies #[trigger] advance_fits(next.pos(), prefix_bytes(next.text()@, i)) by {
            let a = s.take(k as int);
            let b = s.skip(k as int).take(i as int);
            assert(s.take((k + i) as int) =~= a + b);
            lemma_encode_concat(a, b);
            assert(advance_fits(self.pos(), prefix_bytes(s, k)));
            assert(advance_fits(self.pos(), prefix_bytes(s, k + i)));
            lemma_advance_concat(self.pos(), prefix_bytes(s, k), prefix_bytes(s.skip(k as int), i));
        }
    }

    /// Returns the underlying string.
    pub fn get_view(&self) -> (r: &'a str)
        ensures
            r == self.text(),
    {
        self.inner.get_view()
    }

    /// Tests if the underlying string is empty.
    pub fn is_empty(&self) -> (r: bool)
        ensures
            r == (self.text()@.len() == 0),
    {
        self.inner.is_empty()
    }

    /// Returns the position of the first character with respect to the main file.
    pub fn top_position(&self) -> (r: &Position<F>)
        ensures
            *r == self.pos(),
    {
        self.inner.top_position()
    }

    /// Consumes the view and returns the carried data.
    pub fn consume(self) -> (r: D)
        ensures
            r == self.data(),
    {
        self.data
    }

    /// Replaces the carried data.
    pub fn set_data<E>(self, data: E) -> (r: View<'a, E, F>)
        ensures
            r.text() == self.text(),
            r.pos() == self.pos(),
            r.data() == data,
    {
        View { inner: self.inner, data }
    }

    /// Applies `f` to the carried data.
    pub fn map_data<E, G: FnOnce(D) -> E>(self, f: G) -> (r: View<'a, E, F>)
        requires
            call_requires(f, (self.data(),)),
        ensures
            r.text() == self.text(),
            r.pos() == self.pos(),
            call_ensures(f, (self.data(),), r.data()),
    {
        let data = f(self.data);
        View { inner: self.inner, data }
    }

    /// Drops the carried data.
    pub fn drop(self) -> (r: View<'a, (), F>)
        ensures
            r.text() == self.text(),
            r.pos() == self.pos(),
    {
        View { inner: self.inner, data: () }
    }

    /// Moves the carried data at the end of `v`.
    pub fn push(self, v: &mut Vec<D>) -> (r: View<'a, (), F>)
        ensures
            r.text() == self.text(),
            r.pos() == self.pos(),
            final(v)@ == old(v)@.push(self.data()),
    {
        v.push(self.data);
        View { inner: self.inner, data: () }
    }

    /// Moves the carried data into `d`.
    pub fn save(self, d: &mut D) -> (r: View<'a, (), F>)
        ensures
            r.text() == self.text(),
            r.pos() == self.pos(),
            *final(d) == self.data(),
    {
        *d = self.data;
        View { inner: self.inner, data: () }
    }
}

impl<'a, F> View<'a, (), F> {
    /// Creates a new [`View`] object with provided *file*.
    pub fn new(view: &'a str, file: F) -> (r: Self)
        ensures
            r.text() == view,
            r.pos() == (Position::<F> { file, line: 0, column: 0 }),
    {
        View { inner: viewerr::View::new(view, file), data: () }
    }

    /// Progresses the view by the first `k` characters of its string, which take `inc` bytes;
    /// returns the rest and the matched characters.
    fn step(self, inc: usize, Ghost(k): Ghost<nat>) -> (r: (Self, &'a str))
        requires
            self.fits(),
            k <= self.text()@.len(),
            inc == prefix_len(self.text()@, k),
        ensures
            self.stepped(k, r.0),
            r.1@ == self.text()@.take(k as int),
    {
        assert(advance_fits(self.pos(), prefix_bytes(self.text()@, k)));
        let (inner, s) = self.inner.advance_chars(inc, Ghost(k));
        (View { inner, data: () }, s)
    }

    /// Matches the string `s`; the data is the matched part of the view.
    pub fn match_str(self, s: &str) -> (r: Result<View<'a, &'a str, F>, NoMatch<F>>)
        requires
            self.fits(),
        ensures
            match str_spec(s@, self.text()@, self.pos()) {
                Ok((k, d)) => r matches Ok(v) && self.stepped(k, v) && v.data()@ == d,
                Err(e) => r == Err::<View<'a, &'a str, F>, NoMatch<F>>(e),
            },
    {
        let st = self.inner.get_view();
        if starts_with(st, s) {
            let n = byte_len(s);
            let ghost k = s@.len();
            let (v, m) = self.step(n, Ghost(k));
            Ok(v.set_data(m))
        } else {
            Err(NoMatch { pos: self.inner.into_pos() })
        }
    }

    /// Matches the first string of `ss` that matches; the data is the matched part of the view.
    pub fn match_strs(self, ss: &[&str]) -> (r: Result<View<'a, &'a str, F>, NoMatch<F>>)
        requires
            self.fits(),
        ensures
            match strs_spec(ss@, self.text()@, self.pos()) {
                Ok((k, d)) => r matches Ok(v) && self.stepped(k, v) && v.data()@ == d,
                Err(e) => r == Err::<View<'a, &'a str, F>, NoMatch<F>>(e),
            },
    {
        let st = self.inner.get_view();
        let mut i: usize = 0;
        assert(ss@.skip(0) =~= ss@);
        while i < ss.len()
            invariant
                0 <= i <= ss@.len(),
                self.fits(),
                st@ == self.text()@,
                strs_spec(ss@, st@, self.pos()) == strs_spec(ss@.skip(i as int), st@, self.pos()),
            decreases ss@.len() - i,
        {
            let ghost rest = ss@.skip(i as int);
            assert(rest[0] == ss@[i as int]);
            assert(rest.drop_first() =~= ss@.skip(i + 1));
            if starts_with(st, ss[i]) {
                let n = byte_len(ss[i]);
                let ghost k = ss[i as int]@.len();
                let (v, m) = self.step(n, Ghost(k));
                return Ok(v.set_data(m));
            }
            i = i + 1;
        }
        Err(NoMatch { pos: self.inner.into_pos() })
    }

    /// Matches the character `c`; the data is the matched character.
    pub fn match_char(self, c: char) -> (r: Result<View<'a, char, F>, NoMatch<F>>)
        requires
            self.fits(),
        ensures
            match char_spec(c, self.text()@, self.pos()) {
                Ok((k, d)) => r matches Ok(v) && self.stepped(k, v) && v.data() == d,
                Err(e) => r == Err::<View<'a, char, F>, NoMatch<F>>(e),
            },
    {
        match first_char(self.inner.get_view()) {
            Some(x) => {
                if x == c {
                    proof {
                        lemma_prefix_len_one(self.text()@);
                    }
                    let (v, _) = self.step(char_len(x), Ghost(1));
                    Ok(v.set_data(x))
                } else {
                    Err(NoMatch { pos: self.inner.into_pos() })
                }
            },
            None => Err(NoMatch { pos: self.inner.into_pos() }),
        }
    }

    /// Matches the first character when it is in `cs`; the data is the matched character.
    pub fn match_chars(self, cs: &[char]) -> (r: Result<View<'a, char, F>, NoMatch<F>>)
        requires
            self.fits(),
        ensures
            match chars_spec(cs@, self.text()@, self.pos()) {
                Ok((k, d)) => r matches Ok(v) && self.stepped(k, v) && v.data() == d,
                Err(e) => r == Err::<View<'a, char, F>, NoMatch<F>>(e),
            },
    {
        match first_char(self.inner.get_view()) {
            Some(x) => {
                let mut i: usize = 0;
                while i < cs.len()
                    invariant
                        0 <= i <= cs@.len(),
                        self.fits(),
                        self.text()@.len() > 0,
                        x == self.text()@[0],
                        forall|j: int| 0 <= j < i ==> cs@[j] != x,
                    decreases cs@.len() - i,
                {
                    if cs[i] == x {
                        proof {
                            lemma_prefix_len_one(self.text()@);
                        }
                        let (v, _) = self.step(char_len(x), Ghost(1));
                        return Ok(v.set_data(x));
                    }
                    i = i + 1;
                }
                Err(NoMatch { pos: self.inner.into_pos() })
            },
            None => Err(NoMatch { pos: self.inner.into_pos() }),
        }
    }

    /// Takes the first character, if any, as data.
    pub fn pop_char(self) -> (r: Option<View<'a, char, F>>)
        requires
            self.fits(),
        ensures
            self.text()@.len() == 0 ==> r is None,
            self.text()@.len() > 0 ==> (r matches Some(v) && self.stepped(1, v) && v.data() == self.text()@[0]),
    {
        match first_char(self.inner.get_view()) {
            Some(x) => {
                proof {
                    lemma_prefix_len_one(self.text()@);
                }
                let (v, _) = self.step(char_len(x), Ghost(1));
                Some(v.set_data(x))
            },
            None => None,
        }
    }

    /// Matches a parsing tool.
    pub fn match_tool<T: ParseTool<'a, F>>(self, t: T) -> (r: Result<View<'a, T::Data, F>, T::Error>)
        requires
            self.fits(),
            t.can_parse(self.text()@, self.pos()),
        ensures
            match t.spec_parse(self.text()@, self.pos()) {
                Ok((k, d)) => r matches Ok(v) && self.stepped(k, v) && v.data().deep_view() == d,
                Err(e) => r == Err::<View<'a, T::Data, F>, T::Error>(e),
            },
    {
        t.parse(self)
    }
}

impl<'a, F: Default> View<'a, (), F> {
    /// Creates a new [`View`] object with the default file.
    pub fn new_default(view: &'a str) -> (r: Self)
        ensures
            r.text() == view,
            r.pos().line == 0,
            r.pos().column == 0,
            call_ensures(F::default, (), r.pos().file),
    {
        Self::new(view, F::default())
    }
}

/// What matching the string `s` gives on `text` at `pos`.
pub open spec fn str_spec<F>(s: Seq<char>, text: Seq<char>, pos: Position<F>) -> Result<(nat, Seq<char>), NoMatch<F>> {
    if s.len() <= text.len() && text.take(s.len() as int) == s {
        Ok((s.len(), s))
    } else {
        Err(NoMatch { pos })
    }
}

/// What matching the first string of `ss` that matches gives on `text` at `pos`.
pub open spec fn strs_spec<F>(ss: Seq<&str>, text: Seq<char>, pos: Position<F>) -> Result<(nat, Seq<char>), NoMatch<F>>
    decreases ss.len(),
{
    if ss.len() == 0 {
        Err(NoMatch { pos })
    } else {
        match str_spec(ss[0]@, text, pos) {
            Ok(x) => Ok(x),
            Err(_) => strs_spec(ss.drop_first(), text, pos),
        }
    }
}

/// What matching the character `c` gives on `text` at `pos`.
pub open spec fn char_spec<F>(c: char, text: Seq<char>, pos: Position<F>) -> Result<(nat, char), NoMatch<F>> {
    if text.len() > 0 && text[0] == c {
        Ok((1, c))
    } else {
        Err(NoMatch { pos })
    }
}

/// What matching a character of `cs` gives on `text` at `pos`.
pub open spec fn chars_spec<F>(cs: Seq<char>, text: Seq<char>, pos: Position<F>) -> Result<(nat, char), NoMatch<F>> {
    if text.len() > 0 && cs.contains(text[0]) {
        Ok((1, text[0]))
    } else {
        Err(NoMatch { pos })
    }
}

/// The main parsing trait.
///
/// Every object which incapsulate a parsing strategy should implement this trait in order to be
/// composed with other tools.
pub trait ParseTool<'a, F> {
    /// The error type is a match is not found.
    type Error;

    /// Additional data the match provides.
    type Data: DeepView;

    /// What the tool does on a view whose characters are `text` at position `pos`: `Ok((k, d))`
    /// when it matches the first `k` characters and produces data whose deep view is `d`,
    /// `Err(e)` when it fails with error `e`.
    spec fn spec_parse(&self, text: Seq<char>, pos: Position<F>) -> Result<(nat, <Self::Data as DeepView>::V), Self::Error>;

    /// Holds on the inputs on which [`ParseTool::parse`] returns, with the result that
    /// [`ParseTool::spec_parse`] gives: it fails where a repetition would loop forever, or where a
    /// user-supplied function does not behave as a function.
    open spec fn can_parse(&self, text: Seq<char>, pos: Position<F>) -> bool {
        true
    }

    /// The main parsing algorithm.
    ///
    /// If no prefix of `st` satisfies this parsing strategy then an error is issued.
    fn parse(&self, st: View<'a, (), F>) -> (r: Result<View<'a, Self::Data, F>, Self::Error>)
        requires
            st.fits(),
            self.can_parse(st.text()@, st.pos()),
        ensures
            match self.spec_parse(st.text()@, st.pos()) {
                Ok((k, d)) => r matches Ok(v) && st.stepped(k, v) && v.data().deep_view() == d,
                Err(e) => r == Err::<View<'a, Self::Data, F>, Self::Error>(e),
            },
    ;

    /// Assigns a name to the parsing tool, providing more useful error information.
    fn assign_name<N>(self, name: N) -> (r: Named<N, Self>) where Self: Sized
        ensures
            r.name() == name,
            r.tool() == self,
    {
        Named::new(name, self)
    }
}

impl<'a, F, T: ParseTool<'a, F> + ?Sized> ParseTool<'a, F> for &T {
    type Error = T::Error;
    type Data = T::Data;

    open spec fn spec_parse(&self, text: Seq<char>, pos: Position<F>) -> Result<(nat, <T::Data as DeepView>::V), T::Error> {
        (**self).spec_parse(text, pos)
    }

    open spec fn can_parse(&self, text: Seq<char>, pos: Position<F>) -> bool {
        (**self).can_parse(text, pos)
    }

    fn parse(&self, st: View<'a, (), F>) -> (r: Result<View<'a, T::Data, F>, T::Error>) {
        (**self).parse(st)
    }
}

/// Matches a string exactly; the data is the matched part of the view.
impl<'a, F> ParseTool<'a, F> for str {
    type Error = NoMatch<F>;
    type Data = &'a str;

    open spec fn spec_parse(&self, text: Seq<char>, pos: Position<F>) -> Result<(nat, Seq<char>), NoMatch<F>> {
        str_spec(self@, text, pos)
    }

    fn parse(&self, st: View<'a, (), F>) -> (r: Result<View<'a, &'a str, F>, NoMatch<F>>) {
        st.match_str(self)
    }
}

/// Matches the first string of the slice that matches.
impl<'a, 'b, F> ParseTool<'a, F> for [&'b str] {
    type Error = NoMatch<F>;
    type Data = &'a str;

    open spec fn spec_parse(&self, text: Seq<char>, pos: Position<F>) -> Result<(nat, Seq<char>), NoMatch<F>> {
        strs_spec(self@, text, pos)
    }

    fn parse(&self, st: View<'a, (), F>) -> (r: Result<View<'a, &'a str, F>, NoMatch<F>>) {
        st.match_strs(self)
    }
}

/// Matches the first string of the array that matches.
impl<'a, 'b, F, const N: usize> ParseTool<'a, F> for [&'b str; N] {
    type Error = NoMatch<F>;
    type Data = &'a str;

    open spec fn spec_parse(&self, text: Seq<char>, pos: Position<F>) -> Result<(nat, Seq<char>), NoMatch<F>> {
        strs_spec(self@, text, pos)
    }

    fn parse(&self, st: View<'a, (), F>) -> (r: Result<View<'a, &'a str, F>, NoMatch<F>>) {
        st.match_strs(self.as_slice())
    }
}

/// Matches a character exactly; the data is the character.
impl<'a, F> ParseTool<'a, F> for char {
    type Error = NoMatch<F>;
    type Data = char;

    open spec fn spec_parse(&self, text: Seq<char>, pos: Position<F>) -> Result<(nat, char), NoMatch<F>> {
        char_spec(*self, text, pos)
    }

    fn parse(&self, st: View<'a, (), F>) -> (r: Result<View<'a, char, F>, NoMatch<F>>) {
        st.match_char(*self)
    }
}

/// Matches a character of the slice; the data is the character.
impl<'a, F> ParseTool<'a, F> for [char] {
    type Error = NoMatch<F>;
    type Data = char;

    open spec fn spec_parse(&self, text: Seq<char>, pos: Position<F>) -> Result<(nat, char), NoMatch<F>> {
        chars_spec(self@, text, pos)
    }

    fn parse(&self, st: View<'a, (), F>) -> (r: Result<View<'a, char, F>, NoMatch<F>>) {
        st.match_chars(self)
    }
}

/// Matches a character of the array; the data is the character.
impl<'a, F, const N: usize> ParseTool<'a, F> for [char; N] {
    type Error = NoMatch<F>;
    type Data = char;

    open spec fn spec_parse(&self, text: Seq<char>, pos: Position<F>) -> Result<(nat, char), NoMatch<F>> {
        chars_spec(self@, text, pos)
    }

    fn parse(&self, st: View<'a, (), F>) -> (r: Result<View<'a, char, F>, NoMatch<F>>) {
        st.match_chars(self.as_slice())
    }
}

/// Parses only the end of the input.
#[derive(Debug, Clone, Copy)]
pub struct EOFTool;

impl<'a, F> ParseTool<'a, F> for EOFTool {
    type Error = ();
    type Data = ();

    open spec fn spec_parse(&self, text: Seq<char>, pos: Position<F>) -> Result<(nat, ()), ()> {
        if text.len() == 0 {
            Ok((0, ()))
        } else {
            Err(())
        }
    }

    fn parse(&self, st: View<'a, (), F>) -> (r: Result<View<'a, (), F>, ()>) {
        if st.is_empty() {
            proof {
                lemma_prefix_len_zero(st.text()@);
                assert(st.text()@.skip(0) =~= st.text()@);
            }
            let (v, _) = st.step(0, Ghost(0));
            Ok(v)
        } else {
            Err(())
        }
    }
}

/// Matches the empty string, therefore it always matches.
#[derive(Debug, Clone, Copy)]
pub struct TrueParser;

impl<'a, F> ParseTool<'a, F> for TrueParser {
    type Error = core::convert::Infallible;
    type Data = ();

    open spec fn spec_parse(&self, text: Seq<char>, pos: Position<F>) -> Result<(nat, ()), core::convert::Infallible> {
        Ok((0, ()))
    }

    fn parse(&self, st: View<'a, (), F>) -> (r: Result<View<'a, (), F>, core::convert::Infallible>) {
        proof {
            lemma_prefix_len_zero(st.text()@);
            assert(st.text()@.skip(0) =~= st.text()@);
        }
        let (v, _) = st.step(0, Ghost(0));
        Ok(v)
    }
}

/// Cloning a value of `T` gives the same value.
pub open spec fn clones_exactly<T: Clone>() -> bool {
    forall|a: T, b: T| #[trigger] cloned(a, b) ==> a == b
}

impl<'a, F: Clone> View<'a, (), F> {
    /// A copy of the view, with a clone of its file.
    fn dup(&self) -> (r: Self)
        ensures
            r.text() == self.text(),
            r.pos().line == self.pos().line,
            r.pos().column == self.pos().column,
            cloned(self.pos().file, r.pos().file),
            clones_exactly::<F>() ==> r.pos() == self.pos(),
    {
        let p = self.inner.top_position();
        let file = p.file.clone();
        let pos = Position::new_file(file, p.line, p.column);
        View { inner: self.inner.with_pos(pos), data: () }
    }
}

/// Error type for [`Named`].
#[derive(Debug)]
pub struct NamedError<N, E, F> {
    name: N,
    err: E,
    pos: Position<F>,
}

impl<N, E, F> NamedError<N, E, F> {
    /// The name of the rule that is not satisfied.
    pub closed spec fn name(self) -> N {
        self.name
    }

    /// The error of the rule.
    pub closed spec fn err(self) -> E {
        self.err
    }

    /// The position at which the rule was tried.
    pub closed spec fn pos(self) -> Position<F> {
        self.pos
    }

    /// The error of the rule `name` that fails with `err` at `pos`.
    pub closed spec fn spec_new(name: N, err: E, pos: Position<F>) -> Self {
        NamedError { name, err, pos }
    }

    /// The error of the rule `name` that fails with `err` at `pos`.
    pub fn from_parts(name: N, err: E, pos: Position<F>) -> (r: Self)
        ensures
            r == Self::spec_new(name, err, pos),
    {
        NamedError { name, err, pos }
    }

    /// The name, the error and the position of the error.
    pub fn into_parts(self) -> (r: (N, E, Position<F>))
        ensures
            r.0 == self.name(),
            r.1 == self.err(),
            r.2 == self.pos(),
    {
        (self.name, self.err, self.pos)
    }

    /// The parts of [`NamedError::spec_new`].
    pub proof fn lemma_spec_new(name: N, err: E, pos: Position<F>)
        ensures
            Self::spec_new(name, err, pos).name() == name,
            Self::spec_new(name, err, pos).err() == err,
            Self::spec_new(name, err, pos).pos() == pos,
    {
    }
}

/// A named parsing tool.
///
/// It assignes a "name" to an already existing parsing tool, in order to provide more information
/// in the error type. Otherwise, it is equivalent to using the underlying parser.
#[derive(Debug, Clone)]
pub struct Named<N, P> {
    name: N,
    p: P,
}

impl<N, P> Named<N, P> {
    /// The name of the tool.
    pub closed spec fn name(self) -> N {
        self.name
    }

    /// The named tool.
    pub closed spec fn tool(self) -> P {
        self.p
    }

    /// Assigns `name` to the tool `p`.
    pub fn new(name: N, p: P) -> (r: Self)
        ensures
            r.name() == name,
            r.tool() == p,
    {
        Self { name, p }
    }

    /// Renames the tool: `name` replaces the name it had, on the same tool.
    pub fn assign_name<M>(self, name: M) -> (r: Named<M, P>)
        ensures
            r.name() == name,
            r.tool() == self.tool(),
    {
        Named::new(name, self.p)
    }
}

impl<'a, N: Clone, P: ParseTool<'a, F>, F: Clone> ParseTool<'a, F> for Named<N, P> {
    type Error = NamedError<N, P::Error, F>;
    type Data = P::Data;

    open spec fn spec_parse(&self, text: Seq<char>, pos: Position<F>) -> Result<(nat, <P::Data as DeepView>::V), NamedError<N, P::Error, F>> {
        match self.tool().spec_parse(text, pos) {
            Ok(x) => Ok(x),
            Err(e) => Err(NamedError::spec_new(self.name(), e, pos)),
        }
    }

    open spec fn can_parse(&self, text: Seq<char>, pos: Position<F>) -> bool {
        &&& self.tool().can_parse(text, pos)
        &&& self.tool().spec_parse(text, pos) is Err ==> clones_exactly::<N>() && clones_exactly::<F>()
    }

    fn parse(&self, st: View<'a, (), F>) -> (r: Result<View<'a, P::Data, F>, NamedError<N, P::Error, F>>) {
        let pos = st.dup().inner.into_pos();
        match self.p.parse(st) {
            Ok(v) => Ok(v),
            Err(err) => {
                let name = self.name.clone();
                proof {
                    assert(cloned(self.name, name));
                    assert(pos == st.pos());
                }
                Err(NamedError { name, err, pos })
            },
        }
    }
}

/// Tool that matches at least one of two subtools.
///
/// Ordering matters: if the first one matches then the second one is not tried.
#[derive(Debug, Clone, Copy)]
pub struct OrTool<F, S> {
    /// First tool to be tested.
    pub fir: F,
    /// Second tool to be tested.
    pub sec: S,
}

/// Result type for [`OrTool`].
#[derive(Debug, Clone, Copy, Eq, PartialEq)]
pub enum OrToolData<FD, SD> {
    /// Data returned by first tool.
    First(FD),
    /// Data returned by second tool.
    Second(SD),
}

impl<FD: DeepView, SD: DeepView> DeepView for OrToolData<FD, SD> {
    type V = OrToolData<FD::V, SD::V>;

    open spec fn deep_view(&self) -> OrToolData<FD::V, SD::V> {
        match self {
            OrToolData::First(d) => OrToolData::First(d.deep_view()),
            OrToolData::Second(d) => OrToolData::Second(d.deep_view()),
        }
    }
}

/// Error type for [`OrTool`].
#[derive(Debug, Clone, Copy)]
pub struct OrToolErr<FE, SE> {
    /// First tool error.
    pub fir: FE,
    /// Second tool error.
    pub sec: SE,
}

impl<'a, F: Clone, FT: ParseTool<'a, F>, ST: ParseTool<'a, F>> ParseTool<'a, F> for OrTool<FT, ST> {
    type Error = OrToolErr<FT::Error, ST::Error>;
    type Data = OrToolData<FT::Data, ST::Data>;

    open spec fn spec_parse(&self, text: Seq<char>, pos: Position<F>) -> Result<(nat, OrToolData<<FT::Data as DeepView>::V, <ST::Data as DeepView>::V>), OrToolErr<FT::Error, ST::Error>> {
        match self.fir.spec_parse(text, pos) {
            Ok((k, d)) => Ok((k, OrToolData::First(d))),
            Err(e1) => match self.sec.spec_parse(text, pos) {
                Ok((k, d)) => Ok((k, OrToolData::Second(d))),
                Err(e2) => Err(OrToolErr { fir: e1, sec: e2 }),
            },
        }
    }

    open spec fn can_parse(&self, text: Seq<char>, pos: Position<F>) -> bool {
        &&& self.fir.can_parse(text, pos)
        &&& (self.fir.spec_parse(text, pos) is Err ==> self.sec.can_parse(text, pos) && clones_exactly::<F>())
    }

    fn parse(&self, st: View<'a, (), F>) -> (r: Result<View<'a, OrToolData<FT::Data, ST::Data>, F>, OrToolErr<FT::Error, ST::Error>>) {
        let st2 = st.dup();
        match self.fir.parse(st) {
            Ok(d) => {
                let r = d.map_data(|x: FT::Data| -> (o: OrToolData<FT::Data, ST::Data>)
                    ensures
                        o == OrToolData::<FT::Data, ST::Data>::First(x),
                    { OrToolData::First(x) });
                Ok(r)
            },
            Err(e1) => match self.sec.parse(st2) {
                Ok(d) => {
                    let r = d.map_data(|x: ST::Data| -> (o: OrToolData<FT::Data, ST::Data>)
                        ensures
                            o == OrToolData::<FT::Data, ST::Data>::Second(x),
                        { OrToolData::Second(x) });
                    Ok(r)
                },
                Err(e2) => Err(OrToolErr { fir: e1, sec: e2 }),
            },
        }
    }
}

/// Tool that matches repetitions with separator.
///
/// The data of each repetition of the tool is collected in a `Vec`; separator data is discarded.
#[derive(Debug, Clone, Copy)]
pub struct RepeatTool<T, SEP> {
    tool: T,
    sep: SEP,
    min: usize,
    max: Option<usize>,
}

/// Error type for [`RepeatTool`].
#[derive(Debug, Clone, Copy)]
pub enum RepeatToolErr<TE, SEPE> {
    /// Error of the main tool.
    Item(TE),
    /// Error of the tool used for separators.
    Separator(SEPE),
}

impl<T, SEP> RepeatTool<T, SEP> {
    /// The repeated tool.
    pub closed spec fn tool(self) -> T {
        self.tool
    }

    /// The separator between two repetitions.
    pub closed spec fn sep(self) -> SEP {
        self.sep
    }

    /// The minimum number of repetitions.
    pub closed spec fn min(self) -> usize {
        self.min
    }

    /// The maximum number of repetitions, if any.
    pub closed spec fn max(self) -> Option<usize> {
        self.max
    }

    /// Create a new [`RepeatTool`] with specified separator.
    pub fn new_sep(tool: T, sep: SEP, min: usize, max: Option<usize>) -> (r: Self)
        ensures
            r.tool() == tool,
            r.sep() == sep,
            r.min() == min,
            r.max() == max,
    {
        Self { tool, sep, min, max }
    }

    /// Create a new [`RepeatTool`] with specified separator and upper bound.
    pub fn new_sep_bounds(tool: T, sep: SEP, min: usize, max: usize) -> (r: Self)
        ensures
            r.tool() == tool,
            r.sep() == sep,
            r.min() == min,
            r.max() == Some(max),
    {
        Self::new_sep(tool, sep, min, Some(max))
    }

    /// Create a new [`RepeatTool`] with specified separator without upper bound.
    pub fn new_sep_unbounded(tool: T, sep: SEP, min: usize) -> (r: Self)
        ensures
            r.tool() == tool,
            r.sep() == sep,
            r.min() == min,
            r.max() == None::<usize>,
    {
        Self::new_sep(tool, sep, min, None)
    }

    /// Creates a new [`RepeatTool`] which matches an arbitrary number of `tool`.
    pub fn new_any(tool: T, sep: SEP) -> (r: Self)
        ensures
            r.tool() == tool,
            r.sep() == sep,
            r.min() == 0,
            r.max() == None::<usize>,
    {
        Self::new_sep(tool, sep, 0, None)
    }

    /// Creates a new [`RepeatTool`] which matches at least one occurrence of `tool`.
    pub fn new_one(tool: T, sep: SEP) -> (r: Self)
        ensures
            r.tool() == tool,
            r.sep() == sep,
            r.min() == 1,
            r.max() == None::<usize>,
    {
        Self::new_sep(tool, sep, 1, None)
    }
}

impl<T> RepeatTool<T, TrueParser> {
    /// Create a new [`RepeatTool`] without separators.
    pub fn new(tool: T, min: usize, max: Option<usize>) -> (r: Self)
        ensures
            r.tool() == tool,
            r.sep() == TrueParser,
            r.min() == min,
            r.max() == max,
    {
        Self { tool, sep: TrueParser, min, max }
    }

    /// Create a new [`RepeatTool`] with specified upper bound.
    pub fn new_bounds(tool: T, min: usize, max: usize) -> (r: Self)
        ensures
            r.tool() == tool,
            r.sep() == TrueParser,
            r.min() == min,
            r.max() == Some(max),
    {
        Self::new(tool, min, Some(max))
    }

    /// Create a new [`RepeatTool`] without upper bound.
    pub fn new_unbounded(tool: T, min: usize) -> (r: Self)
        ensures
            r.tool() == tool,
            r.sep() == TrueParser,
            r.min() == min,
            r.max() == None::<usize>,
    {
        Self::new(tool, min, None)
    }

    /// Creates a new [`RepeatTool`] which matches zero or one occurrence of `tool`.
    pub fn new_optional(tool: T) -> (r: Self)
        ensures
            r.tool() == tool,
            r.sep() == TrueParser,
            r.min() == 0,
            r.max() == Some(1usize),
    {
        Self::new(tool, 0, Some(1))
    }
}

/// `i` repetitions reach the upper bound `max`.
pub open spec fn reached(max: Option<usize>, i: nat) -> bool {
    match max {
        Some(m) => i >= m,
        None => false,
    }
}

/// The position reached from `pos` after the first `k` characters of `text`.
pub open spec fn pos_after<F>(pos: Position<F>, text: Seq<char>, k: nat) -> Position<F> {
    advance(pos, prefix_bytes(text, k))
}

/// The repetitions of separator and tool after the first `i` repetitions of the tool, on `text`
/// at `pos`: the characters they match and the data of the tool, or the error that stops them.
///
/// A repetition stops at the bound `max`; a missing separator or tool stops it too, with an error
/// when fewer than `min` repetitions are done. A separator followed by a missing tool is matched.
pub open spec fn rep_more<'a, F, T: ParseTool<'a, F>, S: ParseTool<'a, F>>(
    tool: T,
    sep: S,
    min: usize,
    max: Option<usize>,
    text: Seq<char>,
    pos: Position<F>,
    i: nat,
) -> Result<(nat, Seq<<T::Data as DeepView>::V>), RepeatToolErr<T::Error, S::Error>>
    decreases (match max {
        Some(m) => m - i,
        None => 0,
    }), (if i < min {
        min - i
    } else {
        0
    }), text.len(),
{
    if reached(max, i) {
        Ok((0, seq![]))
    } else {
        match sep.spec_parse(text, pos) {
            Err(e) => if min <= i {
                Ok((0, seq![]))
            } else {
                Err(RepeatToolErr::Separator(e))
            },
            Ok((a, _)) => if a <= text.len() {
                let text1 = text.skip(a as int);
                let pos1 = pos_after(pos, text, a);
                match tool.spec_parse(text1, pos1) {
                    Err(e) => if min <= i {
                        Ok((a, seq![]))
                    } else {
                        Err(RepeatToolErr::Item(e))
                    },
                    Ok((b, d)) => if b <= text1.len() && (i < min || max is Some || a + b > 0) {
                        match rep_more(tool, sep, min, max, text1.skip(b as int), pos_after(pos1, text1, b), i + 1) {
                            Ok((c, ds)) => Ok((a + b + c, seq![d] + ds)),
                            Err(e) => Err(e),
                        }
                    } else {
                        Ok((a + b, seq![d]))
                    },
                }
            } else {
                Ok((0, seq![]))
            },
        }
    }
}

/// The tools that [`rep_more`] runs can run, and every repetition done after the first `min`
/// ones, when no `max` bounds them, consumes at least one character, so that the repetition ends.
pub open spec fn rep_more_can<'a, F, T: ParseTool<'a, F>, S: ParseTool<'a, F>>(
    tool: T,
    sep: S,
    min: usize,
    max: Option<usize>,
    text: Seq<char>,
    pos: Position<F>,
    i: nat,
) -> bool
    decreases (match max {
        Some(m) => m - i,
        None => 0,
    }), (if i < min {
        min - i
    } else {
        0
    }), text.len(),
{
    !reached(max, i) ==> sep.can_parse(text, pos) && match sep.spec_parse(text, pos) {
        Err(_) => true,
        Ok((a, _)) => a <= text.len() ==> {
            let text1 = text.skip(a as int);
            let pos1 = pos_after(pos, text, a);
            tool.can_parse(text1, pos1) && match tool.spec_parse(text1, pos1) {
                Err(_) => true,
                Ok((b, _)) => b <= text1.len() ==> (i < min || max is Some || a + b > 0)
                    && rep_more_can(tool, sep, min, max, text1.skip(b as int), pos_after(pos1, text1, b), i + 1),
            }
        },
    }
}

/// What the repetition of [`RepeatTool`] gives on `text` at `pos`: the first repetition of the
/// tool, if any, and then those of [`rep_more`].
pub open spec fn rep_spec<'a, F, T: ParseTool<'a, F>, S: ParseTool<'a, F>>(
    tool: T,
    sep: S,
    min: usize,
    max: Option<usize>,
    text: Seq<char>,
    pos: Position<F>,
) -> Result<(nat, Seq<<T::Data as DeepView>::V>), RepeatToolErr<T::Error, S::Error>> {
    if max == Some(0usize) {
        Ok((0, seq![]))
    } else {
        match tool.spec_parse(text, pos) {
            Err(e) => if min == 0 {
                Ok((0, seq![]))
            } else {
                Err(RepeatToolErr::Item(e))
            },
            Ok((k, d)) => if k <= text.len() {
                match rep_more(tool, sep, min, max, text.skip(k as int), pos_after(pos, text, k), 1) {
                    Ok((c, ds)) => Ok((k + c, seq![d] + ds)),
                    Err(e) => Err(e),
                }
            } else {
                Ok((0, seq![]))
            },
        }
    }
}

/// The tools that [`rep_spec`] runs can run.
pub open spec fn rep_can<'a, F, T: ParseTool<'a, F>, S: ParseTool<'a, F>>(
    tool: T,
    sep: S,
    min: usize,
    max: Option<usize>,
    text: Seq<char>,
    pos: Position<F>,
) -> bool {
    max != Some(0usize) ==> tool.can_parse(text, pos) && match tool.spec_parse(text, pos) {
        Err(_) => true,
        Ok((k, _)) => k <= text.len() ==> rep_more_can(tool, sep, min, max, text.skip(k as int), pos_after(pos, text, k), 1),
    }
}

/// Advancing over `c` characters and then over `a` more reaches the position reached over
/// `c + a` characters.
pub proof fn lemma_pos_after_add<F>(pos: Position<F>, text: Seq<char>, c: nat, a: nat)
    requires
        c + a <= text.len(),
        advance_fits(pos, prefix_bytes(text, c)),
        advance_fits(pos, prefix_bytes(text, c + a)),
    ensures
        pos_after(pos_after(pos, text, c), text.skip(c as int), a) == pos_after(pos, text, c + a),
{
    let x = text.take(c as int);
    let y = text.skip(c as int).take(a as int);
    assert(text.take((c + a) as int) =~= x + y);
    lemma_encode_concat(x, y);
    lemma_advance_concat(pos, prefix_bytes(text, c), prefix_bytes(text.skip(c as int), a));
}

impl<'a, F: Clone, T: ParseTool<'a, F>, SEP: ParseTool<'a, F>> ParseTool<'a, F> for RepeatTool<T, SEP> {
    type Error = RepeatToolErr<T::Error, SEP::Error>;
    type Data = Vec<T::Data>;

    open spec fn spec_parse(&self, text: Seq<char>, pos: Position<F>) -> Result<(nat, Seq<<T::Data as DeepView>::V>), RepeatToolErr<T::Error, SEP::Error>> {
        rep_spec(self.tool(), self.sep(), self.min(), self.max(), text, pos)
    }

    open spec fn can_parse(&self, text: Seq<char>, pos: Position<F>) -> bool {
        rep_can(self.tool(), self.sep(), self.min(), self.max(), text, pos) && clones_exactly::<F>()
    }

    fn parse(&self, st: View<'a, (), F>) -> (r: Result<View<'a, Vec<T::Data>, F>, RepeatToolErr<T::Error, SEP::Error>>) {
        let mut ret: Vec<T::Data> = Vec::new();
        let ghost text = st.text()@;
        let ghost pos = st.pos();
        if let Some(m) = self.max {
            if m == 0 {
                proof {
                    lemma_prefix_len_zero(text);
                    assert(text.skip(0) =~= text);
                }
                let (v, _) = st.step(0, Ghost(0));
                assert(ret.deep_view() =~= Seq::<<T::Data as DeepView>::V>::empty());
                return Ok(v.set_data(ret));
            }
        }
        let mut nst = match self.tool.parse(st.dup()) {
            Ok(d) => d.push(&mut ret),
            Err(e) => {
                if self.min == 0 {
                    proof {
                        lemma_prefix_len_zero(text);
                        assert(text.skip(0) =~= text);
                    }
                    let (v, _) = st.step(0, Ghost(0));
                    assert(ret.deep_view() =~= Seq::<<T::Data as DeepView>::V>::empty());
                    return Ok(v.set_data(ret));
                } else {
                    return Err(RepeatToolErr::Item(e));
                }
            },
        };
        let ghost k0 = self.tool.spec_parse(text, pos)->Ok_0.0;
        let ghost d0 = self.tool.spec_parse(text, pos)->Ok_0.1;
        let ghost mut c: nat = k0;
        let ghost mut gi: nat = 1;
        let mut i: usize = 1;
        proof {
            st.lemma_stepped_fits(k0, nst);
            assert(ret.deep_view() =~= seq![d0]);
        }
        loop
            invariant_except_break
                gi >= 1,
                i == (if gi <= usize::MAX { gi } else { usize::MAX as nat }),
                gi > usize::MAX ==> self.min() <= gi && self.max() is None,
                rep_spec(self.tool(), self.sep(), self.min(), self.max(), text, pos) == match rep_more(self.tool(), self.sep(), self.min(), self.max(), nst.text()@, nst.pos(), gi) {
                    Ok((c2, ds)) => Ok((c + c2, ret.deep_view() + ds)),
                    Err(e) => Err(e),
                },
                rep_more_can(self.tool(), self.sep(), self.min(), self.max(), nst.text()@, nst.pos(), gi),
            invariant
                c <= text.len(),
                nst.text()@ == text.skip(c as int),
                nst.pos() == pos_after(pos, text, c),
                nst.fits(),
                st.fits(),
                text == st.text()@,
                pos == st.pos(),
                clones_exactly::<F>(),
            ensures
                rep_spec(self.tool(), self.sep(), self.min(), self.max(), text, pos) == Ok::<(nat, Seq<<T::Data as DeepView>::V>), RepeatToolErr<T::Error, SEP::Error>>((c, ret.deep_view())),
            decreases (match self.max() {
                Some(m) => m - gi,
                None => 0,
            }), (if gi < self.min() {
                self.min() - gi
            } else {
                0
            }), nst.text()@.len(),
        {
            let ghost before = nst;
            let ghost ret0 = ret.deep_view();
            if let Some(m) = self.max {
                if i >= m {
                    proof {
                        assert(ret.deep_view() + seq![] =~= ret.deep_view());
                    }
                    break;
                }
            }
            let after_sep = match self.sep.parse(nst.dup()) {
                Ok(d) => d.drop(),
                Err(e) => {
                    if self.min <= i {
                        proof {
                            assert(ret.deep_view() + seq![] =~= ret.deep_view());
                        }
                        break;
                    } else {
                        return Err(RepeatToolErr::Separator(e));
                    }
                },
            };
            let ghost a = self.sep().spec_parse(before.text()@, before.pos())->Ok_0.0;
            proof {
                before.lemma_stepped_fits(a, after_sep);
                lemma_pos_after_add(pos, text, c, a);
                assert(text.skip(c as int).skip(a as int) =~= text.skip((c + a) as int));
                c = c + a;
            }
            nst = after_sep;
            let ghost mid = nst;
            nst = match self.tool.parse(nst.dup()) {
                Ok(d) => d.push(&mut ret),
                Err(e) => {
                    if self.min <= i {
                        proof {
                            assert(ret.deep_view() + seq![] =~= ret.deep_view());
                        }
                        break;
                    } else {
                        return Err(RepeatToolErr::Item(e));
                    }
                },
            };
            let ghost b = self.tool().spec_parse(mid.text()@, mid.pos())->Ok_0.0;
            let ghost d = self.tool().spec_parse(mid.text()@, mid.pos())->Ok_0.1;
            proof {
                mid.lemma_stepped_fits(b, nst);
                lemma_pos_after_add(pos, text, c, b);
                assert(text.skip(c as int).skip(b as int) =~= text.skip((c + b) as int));
                c = c + b;
                gi = gi + 1;
                assert(ret.deep_view() =~= ret0.push(d));
                let rest = rep_more(self.tool(), self.sep(), self.min(), self.max(), nst.text()@, nst.pos(), gi);
                if rest is Ok {
                    assert(ret0 + (seq![d] + rest->Ok_0.1) =~= ret.deep_view() + rest->Ok_0.1);
                }
            }
            i = i.saturating_add(1);
        }
        Ok(nst.set_data(ret))
    }
}

/// The map `p` can be called on every character, and the deep view of its result only depends
/// on the character.
pub open spec fn char_map_ok<D: DeepView, P: Fn(char) -> Option<D>>(p: P) -> bool {
    &&& forall|c: char| call_requires(p, (c,))
    &&& forall|c: char, o1: Option<D>, o2: Option<D>|
        call_ensures(p, (c,), o1) && call_ensures(p, (c,), o2) ==> o1.deep_view() == o2.deep_view()
}

/// The deep view of the value of the map `p` on `c`.
pub open spec fn char_map<D: DeepView, P: Fn(char) -> Option<D>>(p: P, c: char) -> Option<D::V> {
    (choose|o: Option<D>| call_ensures(p, (c,), o)).deep_view()
}

/// Tool that matches characters which satisfies the provided predicate.
///
/// A predicate is a function that accepts `char` and returns an `Option`: the `None` variant will
/// be interpreted as a nonmatch, whereas the `Some(d)` variant will be interpreted as a match and the
/// provided data `d` is stored in the returned [`View`].
#[derive(Debug, Clone, Copy)]
pub struct PredicateTool<P> {
    predicate: P,
}

impl<P> PredicateTool<P> {
    /// The predicate of the tool.
    pub closed spec fn pred(self) -> P {
        self.predicate
    }
}

impl<D, P: Fn(char) -> Option<D>> PredicateTool<P> {
    /// Create a new [`PredicateTool`] from a predicate.
    pub fn new_map(predicate: P) -> (r: Self)
        ensures
            r.pred() == predicate,
    {
        Self { predicate }
    }
}

/// A function returning a `bool`, read as a predicate that keeps the matched character: a
/// `false` result is a missing match, and a `true` result keeps the character as data.
pub struct KeepIf<G>(pub G);

impl<G: Fn(char) -> bool> PredicateTool<KeepIf<G>> {
    /// Create a new [`PredicateTool`] from a function returning a `bool`.
    ///
    /// A `false` result is interpreted as a `None` and a `true` result is converted to
    /// `Some(c)` with `c` is the matched character in the view.
    pub fn new_predicate(f: G) -> (r: Self)
        ensures
            r.pred().0 == f,
    {
        PredicateTool { predicate: KeepIf(f) }
    }
}

impl<'a, F, G: Fn(char) -> bool> ParseTool<'a, F> for PredicateTool<KeepIf<G>> {
    type Error = ();
    type Data = char;

    open spec fn spec_parse(&self, text: Seq<char>, pos: Position<F>) -> Result<(nat, char), ()> {
        if text.len() > 0 && crate::toolerr::char_pred(self.pred().0, text[0]) {
            Ok((1, text[0]))
        } else {
            Err(())
        }
    }

    open spec fn can_parse(&self, text: Seq<char>, pos: Position<F>) -> bool {
        crate::toolerr::char_pred_ok(self.pred().0)
    }

    fn parse(&self, st: View<'a, (), F>) -> (r: Result<View<'a, char, F>, ()>) {
        match st.pop_char() {
            None => Err(()),
            Some(v) => {
                let mut chr = '€';
                let nv = v.save(&mut chr);
                if (self.predicate.0)(chr) {
                    Ok(nv.set_data(chr))
                } else {
                    Err(())
                }
            },
        }
    }
}

impl<'a, F, D: DeepView, P: Fn(char) -> Option<D>> ParseTool<'a, F> for PredicateTool<P> {
    type Error = ();
    type Data = D;

    open spec fn spec_parse(&self, text: Seq<char>, pos: Position<F>) -> Result<(nat, D::V), ()> {
        if text.len() > 0 && char_map(self.pred(), text[0]) is Some {
            Ok((1, char_map(self.pred(), text[0])->Some_0))
        } else {
            Err(())
        }
    }

    open spec fn can_parse(&self, text: Seq<char>, pos: Position<F>) -> bool {
        char_map_ok(self.pred())
    }

    fn parse(&self, st: View<'a, (), F>) -> (r: Result<View<'a, D, F>, ()>) {
        match st.pop_char() {
            None => Err(()),
            Some(v) => {
                let mut chr = '€';
                let nv = v.save(&mut chr);
                let o = (self.predicate)(chr);
                proof {
                    let w = choose|o2: Option<D>| call_ensures(self.predicate, (chr,), o2);
                    assert(call_ensures(self.predicate, (chr,), o));
                    assert(o.deep_view() == w.deep_view());
                }
                match o {
                    Some(d) => Ok(nv.set_data(d)),
                    None => Err(()),
                }
            },
        }
    }
}

/// Ordering matters in [`OrTool`]: if the first tool matches then the second one is not tried,
/// and where the first misses the result is the second's, with both errors when both miss.
pub proof fn law_or_tool_first_wins<'a, F: Clone, FT: ParseTool<'a, F>, ST: ParseTool<'a, F>>(o: OrTool<FT, ST>, text: Seq<char>, pos: Position<F>)
    ensures
        o.fir.spec_parse(text, pos) matches Ok((k, d)) ==> ParseTool::<'a, F>::spec_parse(&o, text, pos)
            == Ok::<(nat, OrToolData<<FT::Data as DeepView>::V, <ST::Data as DeepView>::V>), OrToolErr<FT::Error, ST::Error>>((k, OrToolData::First(d))),
        o.fir.spec_parse(text, pos) matches Err(e1) ==> ParseTool::<'a, F>::spec_parse(&o, text, pos) == match o.sec.spec_parse(text, pos) {
            Ok((k, d)) => Ok((k, OrToolData::<<FT::Data as DeepView>::V, <ST::Data as DeepView>::V>::Second(d))),
            Err(e2) => Err(OrToolErr { fir: e1, sec: e2 }),
        },
{
}

/// A [`Named`] tool is equivalent to the underlying tool: it matches exactly where the tool
/// matches, with the same match and data, and its errors are those of the tool with the name and
/// the position of the view.
pub proof fn law_named_equivalent<'a, N: Clone, P: ParseTool<'a, F>, F: Clone>(n: Named<N, P>, text: Seq<char>, pos: Position<F>)
    ensures
        n.tool().spec_parse(text, pos) matches Ok(x) ==> n.spec_parse(text, pos)
            == Ok::<(nat, <P::Data as DeepView>::V), NamedError<N, P::Error, F>>(x),
        n.tool().spec_parse(text, pos) matches Err(e) ==> n.spec_parse(text, pos) matches Err(ne)
            && ne.name() == n.name() && ne.err() == e && ne.pos() == pos,
{
    if let Err(e) = n.tool().spec_parse(text, pos) {
        NamedError::<N, P::Error, F>::lemma_spec_new(n.name(), e, pos);
    }
}

/// Repetitions of [`rep_more`] with no minimum never fail.
proof fn lemma_rep_more_without_min<'a, F, T: ParseTool<'a, F>, S: ParseTool<'a, F>>(
    tool: T,
    sep: S,
    max: Option<usize>,
    text: Seq<char>,
    pos: Position<F>,
    i: nat,
)
    ensures
        rep_more(tool, sep, 0, max, text, pos, i) is Ok,
    decreases (match max {
        Some(m) => m - i,
        None => 0,
    }), text.len(),
{
    if !reached(max, i) {
        if let Ok((a, _)) = sep.spec_parse(text, pos) {
            if a <= text.len() {
                let text1 = text.skip(a as int);
                let pos1 = pos_after(pos, text, a);
                if let Ok((b, _)) = tool.spec_parse(text1, pos1) {
                    if b <= text1.len() && (max is Some || a + b > 0) {
                        lemma_rep_more_without_min(tool, sep, max, text1.skip(b as int), pos_after(pos1, text1, b), i + 1);
                    }
                }
            }
        }
    }
}

/// A [`RepeatTool`] without a minimum number of repetitions (as [`RepeatTool::new_any`] builds
/// it) never fails.
pub proof fn law_repeat_without_min_matches<'a, F: Clone, T: ParseTool<'a, F>, SEP: ParseTool<'a, F>>(r: RepeatTool<T, SEP>, text: Seq<char>, pos: Position<F>)
    requires
        r.min() == 0,
    ensures
        ParseTool::<'a, F>::spec_parse(&r, text, pos) is Ok,
{
    if let Ok((k, _)) = r.tool().spec_parse(text, pos) {
        if k <= text.len() {
            lemma_rep_more_without_min(r.tool(), r.sep(), r.max(), text.skip(k as int), pos_after(pos, text, k), 1);
        }
    }
}

/// A [`PredicateTool`] made from a `bool` predicate matches exactly one character, the first one,
/// where the predicate answers `true` on it, with that character as data, and misses where it
/// answers `false` or the input is empty.
pub proof fn law_predicate_keep_if<'a, F, G: Fn(char) -> bool>(t: PredicateTool<KeepIf<G>>, text: Seq<char>, pos: Position<F>)
    requires
        crate::toolerr::char_pred_ok(t.pred().0),
    ensures
        text.len() > 0 && call_ensures(t.pred().0, (text[0],), true)
            ==> ParseTool::<'a, F>::spec_parse(&t, text, pos) == Ok::<(nat, char), ()>((1, text[0])),
        text.len() > 0 && call_ensures(t.pred().0, (text[0],), false)
            ==> ParseTool::<'a, F>::spec_parse(&t, text, pos) is Err,
        text.len() == 0 ==> ParseTool::<'a, F>::spec_parse(&t, text, pos) is Err,
{
}

/// A [`PredicateTool`] made from a map matches exactly one character, the first one, where the
/// map gives `Some(d)` on it, with `d` as data, and misses where it gives `None` or the input is
/// empty.
pub proof fn law_predicate_map<'a, F, D: DeepView, P: Fn(char) -> Option<D>>(t: PredicateTool<P>, text: Seq<char>, pos: Position<F>, o: Option<D>)
    requires
        char_map_ok(t.pred()),
        text.len() > 0 ==> call_ensures(t.pred(), (text[0],), o),
    ensures
        text.len() > 0 && o is Some
            ==> ParseTool::<'a, F>::spec_parse(&t, text, pos) == Ok::<(nat, D::V), ()>((1, o->Some_0.deep_view())),
        text.len() > 0 && o is None ==> ParseTool::<'a, F>::spec_parse(&t, text, pos) is Err,
        text.len() == 0 ==> ParseTool::<'a, F>::spec_parse(&t, text, pos) is Err,
{
    if text.len() > 0 {
        let w = choose|o2: Option<D>| call_ensures(t.pred(), (text[0],), o2);
        assert(call_ensures(t.pred(), (text[0],), w));
        assert(o.deep_view() == w.deep_view());
    }
}

} // verus!
