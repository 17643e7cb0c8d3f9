//! [`View`] on atoms and the parsing tools that drive it.
//!
//! The tools of this module take a [`View`] and return the data of the match together with the
//! view that follows it. A tool is specified by [`ParseTool::spec_outcome`], which says of each
//! possible result whether it is the result of the tool on a view.
use vstd::prelude::*;
use vstd::view::View as _;
use vstd::string::StringSliceAdditionalSpecFns;
use vstd::utf8::is_char_boundary;
use core::marker::PhantomData;
use crate::pos::{Position, NoFile, advance, advance_fits};
use crate::atoms::{Atom, AlwaysAtom, Match};
use crate::atomlist::AnyChar;
use crate::chains::{Sequence, Or, left_after};
use crate::text::{first_char, char_len, lemma_prefix_len_one};
use crate::viewerr::{self, prefix_bytes};
use crate::parser::clones_exactly;
use vstd::pervasive::cloned;

verus! {

/// A view on a `str` to be parsed.
///
/// This view carries a [`Position<F>`] with respect of the initial string.
/// Each time a pattern is matched against a `View` object a new `View` object is returned,
/// returning the *remaining* part of the view which follows the matched prefix.
#[derive(Debug, Clone, Copy)]
pub struct View<'a, F = NoFile> {
    inner: viewerr::View<'a, F>,
}

/// [`View`] alias if you don't want to specify a file.
pub type ViewFile<'a> = View<'a, NoFile>;

impl<'a, F> View<'a, F> {
    /// The string that remains to be parsed.
    pub closed spec fn text(self) -> &'a str {
        self.inner.text()
    }

    /// The position of the first character of [`View::text`].
    pub closed spec fn pos(self) -> Position<F> {
        self.inner.pos()
    }

    /// The view that remains after a match of `k` characters: the rest of the string, at the
    /// position reached after the matched characters.
    pub open spec fn matched(self, k: nat, next: Self) -> bool {
        &&& k <= self.text()@.len()
        &&& next.text()@ == self.text()@.skip(k as int)
        &&& next.pos() == advance(self.pos(), prefix_bytes(self.text()@, k))
    }

    /// The line and column reached after the first `k` characters fit in `u32`.
    pub open spec fn fits(self, k: nat) -> bool {
        advance_fits(self.pos(), prefix_bytes(self.text()@, k))
    }

    /// Creates a new [`View`] object with provided *file*.
    pub fn new(view: &'a str, file: F) -> (r: Self)
        ensures
            r.text() == view,
            r.pos() == (Position::<F> { file, line: 0, column: 0 }),
    {
        View { inner: viewerr::View::new(view, file) }
    }

    /// Returns the underlying string.
    pub fn get_view(&self) -> (r: &'a str)
        ensures
            r == self.text(),
    {
        self.inner.get_view()
    }

    /// Tests if the underlying string is empty.
    pub fn is_empty(&self) -> (r: bool)
        ensures
            r == (self.text()@.len() == 0),
    {
        self.inner.is_empty()
    }

    /// Returns the position of the first character with respect to the main file.
    pub fn top_position(&self) -> (r: &Position<F>)
        ensures
            *r == self.pos(),
    {
        self.inner.top_position()
    }

    /// Consumes the view and returns the actual [`Position`].
    pub fn into_pos(self) -> (r: Position<F>)
        ensures
            r == self.pos(),
    {
        self.inner.into_pos()
    }

    /// Progress the view and its position by `inc` bytes; returns the skipped string and the
    /// rest.
    ///
    /// `inc` must lie on a UTF-8 code point boundary, and the line and column reached must fit in
    /// `u32`.
    pub fn progress(self, inc: usize) -> (r: (&'a str, Self))
        requires
            is_char_boundary(self.text().spec_bytes(), inc as int),
            advance_fits(self.pos(), self.text().spec_bytes().take(inc as int)),
        ensures
            r.0.spec_bytes() == self.text().spec_bytes().take(inc as int),
            r.1.text().spec_bytes() == self.text().spec_bytes().skip(inc as int),
            r.1.pos() == advance(self.pos(), self.text().spec_bytes().take(inc as int)),
    {
        let (inner, pfx) = self.inner.progress(inc);
        (pfx, View { inner })
    }

    /// Progress the view by the first `k` characters of its string, which take `inc` bytes.
    fn advance_chars(self, inc: usize, Ghost(k): Ghost<nat>) -> (r: (&'a str, Self))
        requires
            k <= self.text()@.len(),
            inc == crate::text::prefix_len(self.text()@, k),
            self.fits(k),
        ensures
            self.matched(k, r.1),
            r.0@ == self.text()@.take(k as int),
    {
        let (inner, pfx) = self.inner.advance_chars(inc, Ghost(k));
        (pfx, View { inner })
    }

    /// Matches an atom with the view.
    ///
    /// If a match doesn't happen then the calling view is returned as `Err` unchanged. You can
    /// then use the [`into_pos`](View::into_pos) method to get the actual position of the missing
    /// match.
    pub fn match_atom<R: Atom>(self, t: R) -> (r: Result<Self, Self>)
        requires
            t.can_parse(self.text()@),
            t.spec_parse(self.text()@) matches Some(k) ==> self.fits(k),
        ensures
            match t.spec_parse(self.text()@) {
                Some(k) => r matches Ok(v) && self.matched(k, v),
                None => r == Err::<Self, Self>(self),
            },
    {
        match t.parse(self.inner.get_view()) {
            Some(m) => {
                let ghost k = t.spec_parse(self.text()@)->Some_0;
                Ok(self.advance_chars(m.len, Ghost(k)).1)
            },
            None => Err(self),
        }
    }

    /// Applies the matching atom and returns the prefix matching such atom.
    pub fn match_atom_string<R: Atom>(self, t: R) -> (r: Result<(&'a str, Self), Self>)
        requires
            t.can_parse(self.text()@),
            t.spec_parse(self.text()@) matches Some(k) ==> self.fits(k),
        ensures
            match t.spec_parse(self.text()@) {
                Some(k) => r matches Ok((s, v)) && self.matched(k, v) && s@ == self.text()@.take(k as int),
                None => r == Err::<(&'a str, Self), Self>(self),
            },
    {
        match t.parse(self.inner.get_view()) {
            Some(m) => {
                let ghost k = t.spec_parse(self.text()@)->Some_0;
                Ok(self.advance_chars(m.len, Ghost(k)))
            },
            None => Err(self),
        }
    }

    /// Matches an atom with the view.
    ///
    /// If a match doesn't happen then a new error is created by `f` from the view that doesn't
    /// match the atom.
    pub fn match_atom_err<E, R: Atom, FF: FnOnce(Self) -> E>(self, t: R, f: FF) -> (r: Result<Self, E>)
        requires
            t.can_parse(self.text()@),
            t.spec_parse(self.text()@) matches Some(k) ==> self.fits(k),
            t.spec_parse(self.text()@) is None ==> call_requires(f, (self,)),
        ensures
            match t.spec_parse(self.text()@) {
                Some(k) => r matches Ok(v) && self.matched(k, v),
                None => r matches Err(e) && call_ensures(f, (self,), e),
            },
    {
        match t.parse(self.inner.get_view()) {
            Some(m) => {
                let ghost k = t.spec_parse(self.text()@)->Some_0;
                Ok(self.advance_chars(m.len, Ghost(k)).1)
            },
            None => Err(f(self)),
        }
    }

    /// Matches an infallible atom with the view.
    pub fn match_always<R: AlwaysAtom>(self, t: R) -> (r: Self)
        requires
            t.can_parse(self.text()@),
            t.spec_parse(self.text()@) matches Some(k) ==> self.fits(k),
        ensures
            t.spec_parse(self.text()@) matches Some(k) && self.matched(k, r),
    {
        let m = t.parse_always(self.inner.get_view());
        let ghost k = t.spec_parse(self.text()@)->Some_0;
        self.advance_chars(m.len, Ghost(k)).1
    }

    /// Matches an infallible atom with the view and returns the matching string.
    pub fn match_always_string<R: AlwaysAtom>(self, t: R) -> (r: (&'a str, Self))
        requires
            t.can_parse(self.text()@),
            t.spec_parse(self.text()@) matches Some(k) ==> self.fits(k),
        ensures
            t.spec_parse(self.text()@) matches Some(k) && self.matched(k, r.1) && r.0@ == self.text()@.take(k as int),
    {
        let m = t.parse_always(self.inner.get_view());
        let ghost k = t.spec_parse(self.text()@)->Some_0;
        self.advance_chars(m.len, Ghost(k))
    }

    /// Matches a parsing tool.
    pub fn match_tool<T: ParseTool<'a, F>>(self, t: &T) -> (r: Result<Self, T::Error>)
        requires
            t.can_parse(self),
        ensures
            r is Ok ==> exists|d: T::Data| #[trigger] t.spec_outcome(self, Ok((d, r->Ok_0))),
            r is Err ==> t.spec_outcome(self, Err(r->Err_0)),
    {
        let r = t.parse(self);
        match r {
            Ok((d, v)) => {
                assert(t.spec_outcome(self, Ok((d, v))));
                let res: Result<Self, T::Error> = Ok(v);
                assert(t.spec_outcome(self, Ok((d, res->Ok_0))));
                res
            },
            Err(e) => Err(e),
        }
    }

    /// Matches a parsing tool and returns associated data.
    pub fn match_tool_data<T: ParseTool<'a, F>>(self, t: &T) -> (r: Result<(T::Data, Self), T::Error>)
        requires
            t.can_parse(self),
        ensures
            t.spec_outcome(self, r),
    {
        t.parse(self)
    }
}

impl<'a, F: Clone> View<'a, F> {
    /// A copy of the view, with a clone of its file.
    fn dup(&self) -> (r: Self)
        ensures
            dup_of(*self, r),
    {
        let p = self.inner.top_position();
        let file = p.file.clone();
        let pos = Position::new_file(file, p.line, p.column);
        View { inner: self.inner.with_pos(pos) }
    }

    /// Matches a tool only if another tool matches.
    pub fn match_if_matches<PRE: ParseTool<'a, F>, R: ParseTool<'a, F>>(self, pre: PRE, t: R) -> (r: Result<Self, R::Error>)
        requires
            can_parse_copies(pre, self),
            forall|c: Self, d: PRE::Data, v: Self| dup_of(self, c) && #[trigger] pre.spec_outcome(c, Ok((d, v))) ==> t.can_parse(v),
        ensures
            match r {
                Ok(v) => (exists|e: PRE::Error| #[trigger] on_copy(pre, self, Err(e))) && v == self
                    || exists|d: PRE::Data, w: Self, d2: R::Data|
                        #[trigger] on_copy(pre, self, Ok((d, w))) && #[trigger] t.spec_outcome(w, Ok((d2, v))),
                Err(e) => exists|d: PRE::Data, w: Self|
                    #[trigger] on_copy(pre, self, Ok((d, w))) && t.spec_outcome(w, Err(e)),
            },
    {
        let copy = self.dup();
        let ghost c0 = copy;
        match pre.parse(copy) {
            Ok((d, next)) => {
                proof {
                    assert(pre.spec_outcome(c0, Ok((d, next))));
                    assert(on_copy(pre, self, Ok((d, next))));
                }
                match t.parse(next) {
                    Ok((d2, v)) => Ok(v),
                    Err(e) => Err(e),
                }
            },
            Err(e1) => {
                proof {
                    assert(pre.spec_outcome(c0, Err(e1)));
                    assert(on_copy(pre, self, Err(e1)));
                }
                Ok(self)
            },
        }
    }
}

impl<'a, F: Default> View<'a, F> {
    /// Creates a new [`View`] object with the default file.
    pub fn new_default(view: &'a str) -> (r: Self)
        ensures
            r.text() == view,
            r.pos().line == 0,
            r.pos().column == 0,
            call_ensures(F::default, (), r.pos().file),
    {
        Self::new(view, F::default())
    }
}

/// Parsing tool trait.
///
/// The main difference with the [`Atom`] is that `ParseTool` can fail at multiple positions. If
/// an `Atom` failed to match then the position at which the missing match happened is always at
/// the start of the matching. Instead, `ParseTool` is more specific because it can specify where
/// exactly the match failed. Moreover, `ParseTool` has a custom error type that can store both
/// the position and the string prefix.
pub trait ParseTool<'a, F> {
    /// Error type.
    type Error;
    /// Associated data.
    type Data;

    /// `r` is the result of the tool on the view `st`.
    spec fn spec_outcome(&self, st: View<'a, F>, r: Result<(Self::Data, View<'a, F>), Self::Error>) -> bool;

    /// Holds on the views on which [`ParseTool::parse`] returns, with a result that
    /// [`ParseTool::spec_outcome`] accepts.
    open spec fn can_parse(&self, st: View<'a, F>) -> bool {
        true
    }

    /// The main parsing algorithm.
    ///
    /// If no prefix of `st` satisfies this parsing strategy then `Error` is returned.
    fn parse(&self, st: View<'a, F>) -> (r: Result<(Self::Data, View<'a, F>), Self::Error>)
        requires
            self.can_parse(st),
        ensures
            self.spec_outcome(st, r),
    ;

    /// Apply a function to both `Data` and `Error`.
    fn map_both<D, E, FD, FE>(self, fd: FD, fe: FE) -> (r: MapTool<Self, D, E, FD, FE>) where Self: Sized
        ensures
            r.tool() == self,
            r.data_fn() == fd,
            r.error_fn() == fe,
    {
        MapTool(self, fd, fe, PhantomData, PhantomData)
    }
}

/// Tool wrapper that modify both `Data` and `Error`.
#[verifier::reject_recursive_types(D)]
#[verifier::reject_recursive_types(E)]
pub struct MapTool<T, D, E, FD, FE>(T, FD, FE, PhantomData<D>, PhantomData<E>);

impl<T, D, E, FD, FE> MapTool<T, D, E, FD, FE> {
    /// The wrapped tool.
    pub closed spec fn tool(self) -> T {
        self.0
    }

    /// The function applied to the data.
    pub closed spec fn data_fn(self) -> FD {
        self.1
    }

    /// The function applied to the errors.
    pub closed spec fn error_fn(self) -> FE {
        self.2
    }
}

impl<'a, F, T: ParseTool<'a, F>, D, E, FD: Fn(T::Data) -> D, FE: Fn(T::Error) -> E> ParseTool<'a, F> for MapTool<T, D, E, FD, FE> {
    type Error = E;
    type Data = D;

    open spec fn spec_outcome(&self, st: View<'a, F>, r: Result<(D, View<'a, F>), E>) -> bool {
        match r {
            Ok((d, v)) => exists|d0: T::Data| #[trigger] self.tool().spec_outcome(st, Ok((d0, v)))
                && call_ensures(self.data_fn(), (d0,), d),
            Err(e) => exists|e0: T::Error| #[trigger] self.tool().spec_outcome(st, Err(e0))
                && call_ensures(self.error_fn(), (e0,), e),
        }
    }

    open spec fn can_parse(&self, st: View<'a, F>) -> bool {
        &&& self.tool().can_parse(st)
        &&& forall|d0: T::Data| call_requires(self.data_fn(), (d0,))
        &&& forall|e0: T::Error| call_requires(self.error_fn(), (e0,))
    }

    fn parse(&self, st: View<'a, F>) -> (r: Result<(D, View<'a, F>), E>) {
        let r0 = self.0.parse(st);
        match r0 {
            Ok((d0, v)) => {
                assert(call_requires(self.data_fn(), (d0,)));
                let d = (self.1)(d0);
                let res: Result<(D, View<'a, F>), E> = Ok((d, v));
                assert(self.tool().spec_outcome(st, Ok((d0, res->Ok_0.1))));
                res
            },
            Err(e0) => {
                assert(call_requires(self.error_fn(), (e0,)));
                let e = (self.2)(e0);
                assert(self.tool().spec_outcome(st, Err(e0)));
                Err(e)
            },
        }
    }
}

/// Takes the first character; the error is the view itself when it is empty.
impl<'a, F> ParseTool<'a, F> for AnyChar {
    type Data = char;
    type Error = View<'a, F>;

    open spec fn spec_outcome(&self, st: View<'a, F>, r: Result<(char, View<'a, F>), View<'a, F>>) -> bool {
        if st.text()@.len() > 0 {
            r matches Ok((c, v)) && c == st.text()@[0] && st.matched(1, v)
        } else {
            r == Err::<(char, View<'a, F>), View<'a, F>>(st)
        }
    }

    open spec fn can_parse(&self, st: View<'a, F>) -> bool {
        st.fits(1)
    }

    fn parse(&self, st: View<'a, F>) -> (r: Result<(char, View<'a, F>), View<'a, F>>) {
        match first_char(st.inner.get_view()) {
            None => Err(st),
            Some(c) => {
                proof {
                    lemma_prefix_len_one(st.text()@);
                }
                Ok((c, st.advance_chars(char_len(c), Ghost(1)).1))
            },
        }
    }
}

/// Matches both tools in sequence; the data is the pair of their data.
impl<'a, FF, F: ParseTool<'a, FF>, S: ParseTool<'a, FF, Error = F::Error>> ParseTool<'a, FF> for Sequence<F, S> {
    type Error = F::Error;
    type Data = (F::Data, S::Data);

    open spec fn spec_outcome(&self, st: View<'a, FF>, r: Result<((F::Data, S::Data), View<'a, FF>), F::Error>) -> bool {
        match r {
            Ok(((d1, d2), v)) => exists|w: View<'a, FF>| #[trigger] self.first.spec_outcome(st, Ok((d1, w)))
                && self.second.spec_outcome(w, Ok((d2, v))),
            Err(e) => self.first.spec_outcome(st, Err(e)) || exists|d1: F::Data, w: View<'a, FF>|
                #[trigger] self.first.spec_outcome(st, Ok((d1, w))) && self.second.spec_outcome(w, Err(e)),
        }
    }

    open spec fn can_parse(&self, st: View<'a, FF>) -> bool {
        &&& self.first.can_parse(st)
        &&& forall|d1: F::Data, w: View<'a, FF>| #[trigger] self.first.spec_outcome(st, Ok((d1, w))) ==> self.second.can_parse(w)
    }

    fn parse(&self, st: View<'a, FF>) -> (r: Result<((F::Data, S::Data), View<'a, FF>), F::Error>) {
        let r1 = self.first.parse(st);
        match r1 {
            Err(e) => Err(e),
            Ok((d1, w)) => {
                assert(self.first.spec_outcome(st, Ok((d1, w))));
                match self.second.parse(w) {
                    Ok((d2, v)) => {
                        let res: Result<((F::Data, S::Data), View<'a, FF>), F::Error> = Ok(((d1, d2), v));
                        assert(self.first.spec_outcome(st, Ok((res->Ok_0.0.0, w))));
                        res
                    },
                    Err(e) => {
                        let res: Result<((F::Data, S::Data), View<'a, FF>), F::Error> = Err(e);
                        assert(self.first.spec_outcome(st, Ok((d1, w))) && self.second.spec_outcome(w, Err(res->Err_0)));
                        res
                    },
                }
            },
        }
    }
}

/// Matches the first tool, or the second one where the first misses; both give the same data.
impl<'a, FF: Clone, F: ParseTool<'a, FF>, S: ParseTool<'a, FF, Data = F::Data>> ParseTool<'a, FF> for Or<F, S> {
    type Error = S::Error;
    type Data = F::Data;

    open spec fn spec_outcome(&self, st: View<'a, FF>, r: Result<(F::Data, View<'a, FF>), S::Error>) -> bool {
        match r {
            Ok(x) => on_copy(self.first, st, Ok(x))
                || (exists|e1: F::Error| #[trigger] on_copy(self.first, st, Err(e1))) && self.second.spec_outcome(st, Ok(x)),
            Err(e) => (exists|e1: F::Error| #[trigger] on_copy(self.first, st, Err(e1))) && self.second.spec_outcome(st, Err(e)),
        }
    }

    open spec fn can_parse(&self, st: View<'a, FF>) -> bool {
        &&& can_parse_copies(self.first, st)
        &&& (exists|e1: F::Error| #[trigger] on_copy(self.first, st, Err(e1))) ==> self.second.can_parse(st)
    }

    fn parse(&self, st: View<'a, FF>) -> (r: Result<(F::Data, View<'a, FF>), S::Error>) {
        let c = st.dup();
        let ghost c0 = c;
        match self.first.parse(c) {
            Ok(x) => {
                proof {
                    assert(on_copy(self.first, st, Ok(x))) by {
                        assert(dup_of(st, c0) && self.first.spec_outcome(c0, Ok(x)));
                    }
                }
                Ok(x)
            },
            Err(e1) => {
                proof {
                    assert(on_copy(self.first, st, Err(e1))) by {
                        assert(dup_of(st, c0) && self.first.spec_outcome(c0, Err(e1)));
                    }
                }
                self.second.parse(st)
            },
        }
    }
}

/// A wrapper for [`Atom`] that implements [`ParseTool`].
pub struct AtomTool<A>(pub A);

impl<'a, F, A: Atom> ParseTool<'a, F> for AtomTool<A> {
    type Error = View<'a, F>;
    type Data = &'a str;

    open spec fn spec_outcome(&self, st: View<'a, F>, r: Result<(&'a str, View<'a, F>), View<'a, F>>) -> bool {
        match self.0.spec_parse(st.text()@) {
            Some(k) => r matches Ok((s, v)) && st.matched(k, v) && s@ == st.text()@.take(k as int),
            None => r == Err::<(&'a str, View<'a, F>), View<'a, F>>(st),
        }
    }

    open spec fn can_parse(&self, st: View<'a, F>) -> bool {
        &&& self.0.can_parse(st.text()@)
        &&& self.0.spec_parse(st.text()@) matches Some(k) ==> st.fits(k)
    }

    fn parse(&self, st: View<'a, F>) -> (r: Result<(&'a str, View<'a, F>), View<'a, F>>) {
        st.match_atom_string(&self.0)
    }
}

/// A wrapper for [`AlwaysAtom`] that implements [`ParseTool`].
pub struct AlwAtomTool<A>(pub A);

impl<'a, F, A: AlwaysAtom> ParseTool<'a, F> for AlwAtomTool<A> {
    type Error = core::convert::Infallible;
    type Data = &'a str;

    open spec fn spec_outcome(&self, st: View<'a, F>, r: Result<(&'a str, View<'a, F>), core::convert::Infallible>) -> bool {
        self.0.spec_parse(st.text()@) matches Some(k) && r matches Ok((s, v)) && st.matched(k, v)
            && s@ == st.text()@.take(k as int)
    }

    open spec fn can_parse(&self, st: View<'a, F>) -> bool {
        &&& self.0.can_parse(st.text()@)
        &&& self.0.spec_parse(st.text()@) matches Some(k) ==> st.fits(k)
    }

    fn parse(&self, st: View<'a, F>) -> (r: Result<(&'a str, View<'a, F>), core::convert::Infallible>) {
        Ok(st.match_always_string(&self.0))
    }
}

/// `c` is a copy of the view `v`: the same string at the same line and column, with a clone of
/// the file of `v`.
pub open spec fn dup_of<'a, F: Clone>(v: View<'a, F>, c: View<'a, F>) -> bool {
    &&& c.text() == v.text()
    &&& c.pos().line == v.pos().line
    &&& c.pos().column == v.pos().column
    &&& cloned(v.pos().file, c.pos().file)
}

/// `t`, run on a copy of the view `st`, gives `r`.
pub open spec fn on_copy<'a, F: Clone, R: ParseTool<'a, F>>(t: R, st: View<'a, F>, r: Result<(R::Data, View<'a, F>), R::Error>) -> bool {
    exists|c: View<'a, F>| dup_of(st, c) && #[trigger] t.spec_outcome(c, r)
}

/// `t` can run on every copy of the view `st`.
pub open spec fn can_parse_copies<'a, F: Clone, R: ParseTool<'a, F>>(t: R, st: View<'a, F>) -> bool {
    forall|c: View<'a, F>| #[trigger] dup_of(st, c) ==> t.can_parse(c)
}

/// Where a clone of a file is always the same file, a copy of a view is the view itself: what a
/// tool gives on a copy it gives on the view, and a tool that can run on the view can run on
/// every copy.
pub proof fn lemma_copy_exact<'a, F: Clone, R: ParseTool<'a, F>>(t: R, st: View<'a, F>, r: Result<(R::Data, View<'a, F>), R::Error>)
    requires
        clones_exactly::<F>(),
    ensures
        on_copy(t, st, r) ==> t.spec_outcome(st, r),
        t.can_parse(st) ==> can_parse_copies(t, st),
{
    assert forall|c: View<'a, F>| #[trigger] dup_of(st, c) implies c == st by {
        assert(c.pos() == st.pos());
        c.inner.lemma_same(st.inner);
    }
}

/// `term`, run on a copy of the view `st`, matches, and the view that follows its match is `v`.
pub open spec fn ends_at<'a, F: Clone, R: ParseTool<'a, F>>(term: R, st: View<'a, F>, v: View<'a, F>) -> bool {
    exists|d: R::Data| #[trigger] on_copy(term, st, Ok((d, v)))
}

/// One less repetition left.
pub open spec fn one_less(n: Option<nat>) -> Option<nat> {
    match n {
        Some(k) => Some((k - 1) as nat),
        None => None,
    }
}

/// `r` is a result, and `ds` the data stored, of the lazy repetitions of separator and atom, at
/// most `n` of them, each tried only where `term` misses, on the view `st`. Where `term` misses
/// and no repetition can be done, the result is the error of `term`.
pub open spec fn lazy_tail<'a, F: Clone, E, T: ParseTool<'a, F, Error = E>, S: ParseTool<'a, F, Error = E>, R: ParseTool<'a, F, Error = E>>(
    atom: T,
    sep: S,
    term: R,
    n: Option<nat>,
    st: View<'a, F>,
    r: Result<View<'a, F>, E>,
    ds: Seq<T::Data>,
) -> bool
    decreases (match n {
        Some(k) => k as int,
        None => 0,
    }), st.text()@.len(),
{
    ||| r matches Ok(v) && ds.len() == 0 && ends_at(term, st, v)
    ||| r matches Err(e) && on_copy(term, st, Err(e)) && {
        ||| n == Some(0nat) && ds.len() == 0
        ||| n != Some(0nat) && ds.len() == 0 && exists|e2: E| #[trigger] sep.spec_outcome(st, Err(e2))
        ||| n != Some(0nat) && ds.len() == 0 && exists|sd: S::Data, w1: View<'a, F>, e2: E|
            #[trigger] sep.spec_outcome(st, Ok((sd, w1))) && #[trigger] atom.spec_outcome(w1, Err(e2))
    }
    ||| n != Some(0nat) && ds.len() > 0 && exists|e: E, sd: S::Data, w1: View<'a, F>, w2: View<'a, F>|
        #[trigger] on_copy(term, st, Err(e)) && #[trigger] sep.spec_outcome(st, Ok((sd, w1)))
        && #[trigger] atom.spec_outcome(w1, Ok((ds[0], w2)))
        && (n is Some || w2.text()@.len() < st.text()@.len())
        && lazy_tail(atom, sep, term, one_less(n), w2, r, ds.drop_first())
}

/// The tools that [`lazy_tail`] runs can run, and every repetition done where no bound `n`
/// stops them consumes at least one character, so that the repetitions end.
pub open spec fn lazy_tail_can<'a, F: Clone, E, T: ParseTool<'a, F, Error = E>, S: ParseTool<'a, F, Error = E>, R: ParseTool<'a, F, Error = E>>(
    atom: T,
    sep: S,
    term: R,
    n: Option<nat>,
    st: View<'a, F>,
) -> bool
    decreases (match n {
        Some(k) => k as int,
        None => 0,
    }), st.text()@.len(),
{
    &&& can_parse_copies(term, st)
    &&& n != Some(0nat) ==> sep.can_parse(st)
    &&& n != Some(0nat) ==> forall|sd: S::Data, w1: View<'a, F>| #[trigger] sep.spec_outcome(st, Ok((sd, w1))) ==> atom.can_parse(w1)
    &&& n != Some(0nat) ==> forall|sd: S::Data, w1: View<'a, F>, d: T::Data, w2: View<'a, F>|
        #[trigger] sep.spec_outcome(st, Ok((sd, w1))) && #[trigger] atom.spec_outcome(w1, Ok((d, w2)))
        ==> (n is Some || w2.text()@.len() < st.text()@.len()) && lazy_tail_can(atom, sep, term, one_less(n), w2)
}

/// Runs the lazy repetitions of [`lazy_tail`] from `st`, pushing the data of the repeated atom
/// in `vec`.
fn lazy_tail_run<'a, F: Clone, E, T: ParseTool<'a, F, Error = E>, S: ParseTool<'a, F, Error = E>, R: ParseTool<'a, F, Error = E>>(
    atom: &T,
    sep: &S,
    term: &R,
    n: Option<usize>,
    st: View<'a, F>,
    vec: &mut Vec<T::Data>,
) -> (r: Result<View<'a, F>, E>)
    requires
        lazy_tail_can(*atom, *sep, *term, crate::chains::opt_nat(n), st),
    ensures
        final(vec)@.len() >= old(vec)@.len(),
        final(vec)@.take(old(vec)@.len() as int) == old(vec)@,
        lazy_tail(*atom, *sep, *term, crate::chains::opt_nat(n), st, r, final(vec)@.skip(old(vec)@.len() as int)),
{
    let ghost l = vec@.len();
    let ghost vec0 = vec@;
    let mut helper = st;
    let mut left = n;
    proof {
        assert(vec@.skip(l as int) =~= Seq::<T::Data>::empty());
        assert forall|r2: Result<View<'a, F>, E>, ds2: Seq<T::Data>|
            #[trigger] lazy_tail(*atom, *sep, *term, crate::chains::opt_nat(left), helper, r2, ds2)
            implies lazy_tail(*atom, *sep, *term, crate::chains::opt_nat(n), st, r2, vec@.skip(l as int) + ds2) by {
            assert(vec@.skip(l as int) + ds2 =~= ds2);
        }
    }
    loop
        invariant
            vec0 == old(vec)@,
            l == vec0.len(),
            vec@.len() >= l,
            vec@.take(l as int) == vec0,
            lazy_tail_can(*atom, *sep, *term, crate::chains::opt_nat(left), helper),
            forall|r2: Result<View<'a, F>, E>, ds2: Seq<T::Data>|
                #[trigger] lazy_tail(*atom, *sep, *term, crate::chains::opt_nat(left), helper, r2, ds2)
                ==> lazy_tail(*atom, *sep, *term, crate::chains::opt_nat(n), st, r2, vec@.skip(l as int) + ds2),
        decreases (match left {
            Some(k) => k as int,
            None => 0,
        }), helper.text()@.len(),
    {
        let ghost h0 = helper;
        let c = helper.dup();
        let ghost c0 = c;
        match term.parse(c) {
            Ok((d, hh)) => {
                proof {
                    assert(term.spec_outcome(c0, Ok((d, hh))));
                    assert(on_copy(*term, h0, Ok((d, hh))));
                    assert(ends_at(*term, h0, hh));
                    let r2 = Ok::<View<'a, F>, E>(hh);
                    assert(lazy_tail(*atom, *sep, *term, crate::chains::opt_nat(left), h0, r2, Seq::<T::Data>::empty()));
                    assert(vec@.skip(l as int) + Seq::<T::Data>::empty() =~= vec@.skip(l as int));
                    assert(vec@.take(l as int) == vec0);
                    assert(lazy_tail(*atom, *sep, *term, crate::chains::opt_nat(n), st, r2, vec@.skip(l as int)));
                }
                return Ok(hh);
            },
            Err(e) => {
                proof {
                    assert(term.spec_outcome(c0, Err(e)));
                    assert(on_copy(*term, h0, Err(e)));
                    assert(vec@.skip(l as int) + Seq::<T::Data>::empty() =~= vec@.skip(l as int));
                }
                if let Some(k) = left {
                    if k == 0 {
                        proof {
                            let r2 = Err::<View<'a, F>, E>(e);
                            assert(lazy_tail(*atom, *sep, *term, crate::chains::opt_nat(left), h0, r2, Seq::<T::Data>::empty()));
                        }
                        return Err(e);
                    }
                }
                match sep.parse(helper) {
                    Err(e2) => {
                        proof {
                            assert(sep.spec_outcome(h0, Err(e2)));
                            let r2 = Err::<View<'a, F>, E>(e);
                            assert(lazy_tail(*atom, *sep, *term, crate::chains::opt_nat(left), h0, r2, Seq::<T::Data>::empty()));
                        }
                        return Err(e);
                    },
                    Ok((sd, w1)) => {
                        proof {
                            assert(sep.spec_outcome(h0, Ok((sd, w1))));
                        }
                        match atom.parse(w1) {
                            Err(e2) => {
                                proof {
                                    assert(atom.spec_outcome(w1, Err(e2)));
                                    let r2 = Err::<View<'a, F>, E>(e);
                                    assert(lazy_tail(*atom, *sep, *term, crate::chains::opt_nat(left), h0, r2, Seq::<T::Data>::empty()));
                                }
                                return Err(e);
                            },
                            Ok((d, w2)) => {
                                let ghost vprev = vec@;
                                let ghost left0 = left;
                                proof {
                                    assert(atom.spec_outcome(w1, Ok((d, w2))));
                                }
                                vec.push(d);
                                helper = w2;
                                left = match left {
                                    Some(k) => Some(k - 1),
                                    None => None,
                                };
                                proof {
                                    assert(vec@.take(l as int) =~= vprev.take(l as int));
                                    assert forall|r2: Result<View<'a, F>, E>, ds2: Seq<T::Data>|
                                        #[trigger] lazy_tail(*atom, *sep, *term, crate::chains::opt_nat(left), helper, r2, ds2)
                                        implies lazy_tail(*atom, *sep, *term, crate::chains::opt_nat(n), st, r2, vec@.skip(l as int) + ds2) by {
                                        let ds3 = seq![d] + ds2;
                                        assert(ds3[0] == d);
                                        assert(ds3.drop_first() =~= ds2);
                                        assert(on_copy(*term, h0, Err(e)));
                                        assert(lazy_tail(*atom, *sep, *term, crate::chains::opt_nat(left0), h0, r2, ds3));
                                        assert(vprev.skip(l as int) + ds3 =~= vec@.skip(l as int) + ds2);
                                    }
                                }
                            },
                        }
                    },
                }
            },
        }
    }
}

/// `r` is a result, and `ds` the data stored, of exactly `k` repetitions of separator and atom
/// on the view `st`, followed by the lazy repetitions of [`lazy_tail`], at most `n` of them.
/// A missing separator or atom among the `k` repetitions fails with its error.
pub open spec fn lazy_exact<'a, F: Clone, E, T: ParseTool<'a, F, Error = E>, S: ParseTool<'a, F, Error = E>, R: ParseTool<'a, F, Error = E>>(
    atom: T,
    sep: S,
    term: R,
    k: nat,
    n: Option<nat>,
    st: View<'a, F>,
    r: Result<View<'a, F>, E>,
    ds: Seq<T::Data>,
) -> bool
    decreases k,
{
    if k == 0 {
        lazy_tail(atom, sep, term, n, st, r, ds)
    } else {
        ||| r matches Err(e) && ds.len() == 0 && sep.spec_outcome(st, Err(e))
        ||| r matches Err(e) && ds.len() == 0 && exists|sd: S::Data, w1: View<'a, F>|
            #[trigger] sep.spec_outcome(st, Ok((sd, w1))) && atom.spec_outcome(w1, Err(e))
        ||| ds.len() > 0 && exists|sd: S::Data, w1: View<'a, F>, w2: View<'a, F>|
            #[trigger] sep.spec_outcome(st, Ok((sd, w1))) && #[trigger] atom.spec_outcome(w1, Ok((ds[0], w2)))
            && lazy_exact(atom, sep, term, (k - 1) as nat, n, w2, r, ds.drop_first())
    }
}

/// The tools that [`lazy_exact`] runs can run, and its repetitions end.
pub open spec fn lazy_exact_can<'a, F: Clone, E, T: ParseTool<'a, F, Error = E>, S: ParseTool<'a, F, Error = E>, R: ParseTool<'a, F, Error = E>>(
    atom: T,
    sep: S,
    term: R,
    k: nat,
    n: Option<nat>,
    st: View<'a, F>,
) -> bool
    decreases k,
{
    if k == 0 {
        lazy_tail_can(atom, sep, term, n, st)
    } else {
        &&& sep.can_parse(st)
        &&& forall|sd: S::Data, w1: View<'a, F>| #[trigger] sep.spec_outcome(st, Ok((sd, w1))) ==> atom.can_parse(w1)
        &&& forall|sd: S::Data, w1: View<'a, F>, d: T::Data, w2: View<'a, F>|
            #[trigger] sep.spec_outcome(st, Ok((sd, w1))) && #[trigger] atom.spec_outcome(w1, Ok((d, w2)))
            ==> lazy_exact_can(atom, sep, term, (k - 1) as nat, n, w2)
    }
}

/// `r` is a result, and `ds` the data stored, of the lazy repetition of `atom` separated by
/// `sep` until `term` matches, on the view `st`: at least `min` repetitions before `term` is
/// first tried, and at most `max`.
pub open spec fn lazy_store<'a, F: Clone, E, T: ParseTool<'a, F, Error = E>, S: ParseTool<'a, F, Error = E>, R: ParseTool<'a, F, Error = E>>(
    atom: T,
    sep: S,
    term: R,
    min: usize,
    max: Option<usize>,
    st: View<'a, F>,
    r: Result<View<'a, F>, E>,
    ds: Seq<T::Data>,
) -> bool {
    if min > 0 {
        ||| r matches Err(e) && ds.len() == 0 && atom.spec_outcome(st, Err(e))
        ||| ds.len() > 0 && exists|w: View<'a, F>| #[trigger] atom.spec_outcome(st, Ok((ds[0], w)))
            && lazy_exact(atom, sep, term, (min - 1) as nat, left_after(max, min as nat), w, r, ds.drop_first())
    } else {
        ||| r matches Ok(v) && ds.len() == 0 && ends_at(term, st, v)
        ||| r matches Err(e) && ds.len() == 0 && on_copy(term, st, Err(e)) && max == Some(0usize)
        ||| r matches Err(e) && ds.len() == 0 && on_copy(term, st, Err(e)) && max != Some(0usize)
            && exists|e2: E| #[trigger] atom.spec_outcome(st, Err(e2))
        ||| ds.len() > 0 && max != Some(0usize) && exists|e: E, w: View<'a, F>|
            #[trigger] on_copy(term, st, Err(e)) && #[trigger] atom.spec_outcome(st, Ok((ds[0], w)))
            && lazy_tail(atom, sep, term, left_after(max, 1), w, r, ds.drop_first())
    }
}

/// The tools that [`lazy_store`] runs can run, and its repetitions end.
pub open spec fn lazy_store_can<'a, F: Clone, E, T: ParseTool<'a, F, Error = E>, S: ParseTool<'a, F, Error = E>, R: ParseTool<'a, F, Error = E>>(
    atom: T,
    sep: S,
    term: R,
    min: usize,
    max: Option<usize>,
    st: View<'a, F>,
) -> bool {
    if min > 0 {
        &&& atom.can_parse(st)
        &&& forall|d: T::Data, w: View<'a, F>| #[trigger] atom.spec_outcome(st, Ok((d, w)))
            ==> lazy_exact_can(atom, sep, term, (min - 1) as nat, left_after(max, min as nat), w)
    } else {
        &&& can_parse_copies(term, st)
        &&& (exists|e: E| #[trigger] on_copy(term, st, Err(e))) && max != Some(0usize) ==> atom.can_parse(st)
        &&& max != Some(0usize) ==> forall|d: T::Data, w: View<'a, F>| #[trigger] atom.spec_outcome(st, Ok((d, w)))
            ==> lazy_tail_can(atom, sep, term, left_after(max, 1), w)
    }
}

/// Runs the lazy repetition of [`lazy_store`] from `st`, pushing the data of the repeated atom
/// in `vec`.
pub(crate) fn lazy_store_run<'a, F: Clone, E, T: ParseTool<'a, F, Error = E>, S: ParseTool<'a, F, Error = E>, R: ParseTool<'a, F, Error = E>>(
    atom: &T,
    sep: &S,
    term: &R,
    min: usize,
    max: Option<usize>,
    st: View<'a, F>,
    vec: &mut Vec<T::Data>,
) -> (r: Result<View<'a, F>, E>)
    requires
        lazy_store_can(*atom, *sep, *term, min, max, st),
    ensures
        final(vec)@.len() >= old(vec)@.len(),
        final(vec)@.take(old(vec)@.len() as int) == old(vec)@,
        lazy_store(*atom, *sep, *term, min, max, st, r, final(vec)@.skip(old(vec)@.len() as int)),
{
    let ghost l = vec@.len();
    let ghost vec0 = vec@;
    proof {
        assert(vec@.skip(l as int) =~= Seq::<T::Data>::empty());
    }
    if min > 0 {
        let (d0, w0) = match atom.parse(st) {
            Err(e) => {
                return Err(e);
            },
            Ok(x) => x,
        };
        proof {
            assert(atom.spec_outcome(st, Ok((d0, w0))));
        }
        vec.push(d0);
        let mut helper = w0;
        let mut k: usize = min - 1;
        proof {
            assert forall|r2: Result<View<'a, F>, E>, ds2: Seq<T::Data>|
                #[trigger] lazy_exact(*atom, *sep, *term, k as nat, left_after(max, min as nat), helper, r2, ds2)
                implies lazy_store(*atom, *sep, *term, min, max, st, r2, vec@.skip(l as int) + ds2) by {
                let ds3 = vec@.skip(l as int) + ds2;
                assert(ds3[0] == d0);
                assert(ds3.drop_first() =~= ds2);
            }
        }
        while k > 0
            invariant
                vec0 == old(vec)@,
                l == vec0.len(),
                vec@.len() >= l,
                vec@.take(l as int) == vec0,
                lazy_exact_can(*atom, *sep, *term, k as nat, left_after(max, min as nat), helper),
                forall|r2: Result<View<'a, F>, E>, ds2: Seq<T::Data>|
                    #[trigger] lazy_exact(*atom, *sep, *term, k as nat, left_after(max, min as nat), helper, r2, ds2)
                    ==> lazy_store(*atom, *sep, *term, min, max, st, r2, vec@.skip(l as int) + ds2),
            decreases k,
        {
            let ghost h0 = helper;
            proof {
                assert(vec@.skip(l as int) + Seq::<T::Data>::empty() =~= vec@.skip(l as int));
            }
            let (sd, w1) = match sep.parse(helper) {
                Err(e) => {
                    proof {
                        let r2 = Err::<View<'a, F>, E>(e);
                        assert(lazy_exact(*atom, *sep, *term, k as nat, left_after(max, min as nat), h0, r2, Seq::<T::Data>::empty()));
                    }
                    return Err(e);
                },
                Ok(x) => x,
            };
            proof {
                assert(sep.spec_outcome(h0, Ok((sd, w1))));
            }
            let (d, w2) = match atom.parse(w1) {
                Err(e) => {
                    proof {
                        let r2 = Err::<View<'a, F>, E>(e);
                        assert(lazy_exact(*atom, *sep, *term, k as nat, left_after(max, min as nat), h0, r2, Seq::<T::Data>::empty()));
                    }
                    return Err(e);
                },
                Ok(x) => x,
            };
            proof {
                assert(atom.spec_outcome(w1, Ok((d, w2))));
            }
            let ghost vprev = vec@;
            let ghost k0 = k;
            vec.push(d);
            helper = w2;
            k = k - 1;
            proof {
                assert(vec@.take(l as int) =~= vprev.take(l as int));
                assert forall|r2: Result<View<'a, F>, E>, ds2: Seq<T::Data>|
                    #[trigger] lazy_exact(*atom, *sep, *term, k as nat, left_after(max, min as nat), helper, r2, ds2)
                    implies lazy_store(*atom, *sep, *term, min, max, st, r2, vec@.skip(l as int) + ds2) by {
                    let ds3 = seq![d] + ds2;
                    assert(ds3[0] == d);
                    assert(ds3.drop_first() =~= ds2);
                    assert(lazy_exact(*atom, *sep, *term, k0 as nat, left_after(max, min as nat), h0, r2, ds3));
                    assert(vprev.skip(l as int) + ds3 =~= vec@.skip(l as int) + ds2);
                }
            }
        }
        let ghost vmid = vec@;
        let n = crate::chains::left_after_exec(max, min);
        let r = lazy_tail_run(atom, sep, term, n, helper, vec);
        proof {
            let ds2 = vec@.skip(vmid.len() as int);
            assert(vec@.take(vmid.len() as int) == vmid);
            assert(vec@ =~= vmid + ds2);
            assert(lazy_exact(*atom, *sep, *term, 0, left_after(max, min as nat), helper, r, ds2));
            assert(vmid.skip(l as int) + ds2 =~= vec@.skip(l as int));
            assert(vec@.take(l as int) =~= vmid.take(l as int));
        }
        r
    } else {
        let c = st.dup();
        let ghost c0 = c;
        match term.parse(c) {
            Ok((d, hh)) => {
                proof {
                    assert(term.spec_outcome(c0, Ok((d, hh))));
                    assert(on_copy(*term, st, Ok((d, hh))));
                    assert(ends_at(*term, st, hh));
                }
                Ok(hh)
            },
            Err(e) => {
                proof {
                    assert(term.spec_outcome(c0, Err(e)));
                    assert(on_copy(*term, st, Err(e)));
                }
                if let Some(m) = max {
                    if m == 0 {
                        return Err(e);
                    }
                }
                match atom.parse(st) {
                    Err(e2) => {
                        proof {
                            assert(atom.spec_outcome(st, Err(e2)));
                        }
                        Err(e)
                    },
                    Ok((d, w)) => {
                        proof {
                            assert(atom.spec_outcome(st, Ok((d, w))));
                        }
                        vec.push(d);
                        let ghost vmid = vec@;
                        let n = crate::chains::left_after_exec(max, 1);
                        let r = lazy_tail_run(atom, sep, term, n, w, vec);
                        proof {
                            let ds2 = vec@.skip(vmid.len() as int);
                            assert(vec@ =~= vmid + ds2);
                            let ds = vec@.skip(l as int);
                            assert(ds[0] == d);
                            assert(ds.drop_first() =~= ds2);
                            assert(vec@.take(l as int) =~= vec0);
                        }
                        r
                    },
                }
            },
        }
    }
}

/// Matching `k1` characters and then `k2` more leaves the view that matching the `k1 + k2`
/// characters at once leaves: the text stays the rest of the source, at the position reached
/// over all the matched characters.
pub proof fn law_matched_chain<'a, F>(a: View<'a, F>, b: View<'a, F>, c: View<'a, F>, k1: nat, k2: nat)
    requires
        a.matched(k1, b),
        b.matched(k2, c),
        advance_fits(a.pos(), prefix_bytes(a.text()@, k1)),
        advance_fits(b.pos(), prefix_bytes(b.text()@, k2)),
    ensures
        a.matched(k1 + k2, c),
{
    let s = a.text()@;
    assert(s.skip(k1 as int).skip(k2 as int) =~= s.skip((k1 + k2) as int));
    let x = s.take(k1 as int);
    let y = s.skip(k1 as int).take(k2 as int);
    assert(s.take((k1 + k2) as int) =~= x + y);
    crate::text::lemma_encode_concat(x, y);
    crate::pos::lemma_advance_concat(a.pos(), prefix_bytes(s, k1), prefix_bytes(s.skip(k1 as int), k2));
}

/// A view built with the default file is the view that `new` builds with the file that
/// `F::default` returns, where `F::default` always returns the same file.
pub proof fn law_new_default_is_new<'a, F: Default>(s: &'a str, d: F, v: View<'a, F>, w: View<'a, F>)
    requires
        v.text() == s,
        v.pos().line == 0,
        v.pos().column == 0,
        call_ensures(F::default, (), v.pos().file),
        w.text() == s,
        w.pos() == (Position::<F> { file: d, line: 0, column: 0 }),
        call_ensures(F::default, (), d),
        forall|a: F, b: F| call_ensures(F::default, (), a) && call_ensures(F::default, (), b) ==> a == b,
    ensures
        v == w,
{
    assert(v.pos() == w.pos());
    v.inner.lemma_same(w.inner);
}

/// `b` is `a`, the view that matching some characters of `a` leaves, or the view that stepping
/// over some bytes of `a` leaves.
pub open spec fn steps_to<'a, F>(a: View<'a, F>, b: View<'a, F>) -> bool {
    ||| a == b
    ||| exists|k: nat| #![trigger a.text()@.skip(k as int)] a.matched(k, b)
    ||| exists|n: int| #![trigger a.text().spec_bytes().skip(n)]
        0 <= n <= a.text().spec_bytes().len() && b.text().spec_bytes() == a.text().spec_bytes().skip(n)
}

/// `t` is what remains of the bytes `s` after the first `n` of them, for some `n`.
pub open spec fn rest_of(s: Seq<u8>, t: Seq<u8>) -> bool {
    exists|n: int| #![trigger s.skip(n)] 0 <= n <= s.len() && t == s.skip(n)
}

/// Along a chain of views in which each one is the one before, or the view that a match or a
/// `progress` on the one before leaves, the text of every view is what remains of the text of
/// the first one: a view built on `s` stays a suffix of `s`.
pub proof fn law_text_stays_suffix<'a, F>(vs: Seq<View<'a, F>>)
    requires
        vs.len() > 0,
        forall|i: int| #![trigger vs[i]] 0 <= i < vs.len() - 1 ==> steps_to(vs[i], vs[i + 1]),
    ensures
        forall|i: int| #![trigger vs[i]] 0 <= i < vs.len() ==> rest_of(vs[0].text().spec_bytes(), vs[i].text().spec_bytes()),
{
    assert forall|i: int| #![trigger vs[i]] 0 <= i < vs.len() implies rest_of(vs[0].text().spec_bytes(), vs[i].text().spec_bytes()) by {
        lemma_text_stays_suffix(vs, i);
    }
}

proof fn lemma_text_stays_suffix<'a, F>(vs: Seq<View<'a, F>>, i: int)
    requires
        0 <= i < vs.len(),
        forall|i: int| #![trigger vs[i]] 0 <= i < vs.len() - 1 ==> steps_to(vs[i], vs[i + 1]),
    ensures
        rest_of(vs[0].text().spec_bytes(), vs[i].text().spec_bytes()),
    decreases i,
{
    let s = vs[0].text().spec_bytes();
    if i == 0 {
        assert(s.skip(0) =~= s);
    } else {
        lemma_text_stays_suffix(vs, i - 1);
        let prev = vs[i - 1];
        let pb = prev.text().spec_bytes();
        let n1 = choose|n: int| #![trigger s.skip(n)] 0 <= n <= s.len() && pb == s.skip(n);
        assert(steps_to(vs[i - 1], vs[i]));
        let n2: int = if vs[i] == prev {
            0
        } else if exists|k: nat| #![trigger prev.text()@.skip(k as int)] prev.matched(k, vs[i]) {
            let k = choose|k: nat| #![trigger prev.text()@.skip(k as int)] prev.matched(k, vs[i]);
            crate::text::lemma_prefix_boundary(prev.text()@, k);
            crate::text::lemma_prefix_len_bound(prev.text()@, k);
            crate::text::prefix_len(prev.text()@, k) as int
        } else {
            choose|n: int| #![trigger pb.skip(n)] 0 <= n <= pb.len() && vs[i].text().spec_bytes() == pb.skip(n)
        };
        assert(0 <= n2 <= pb.len() && vs[i].text().spec_bytes() == pb.skip(n2)) by {
            if vs[i] == prev {
                assert(pb.skip(0) =~= pb);
            }
        }
        assert(s.skip(n1).skip(n2) =~= s.skip(n1 + n2));
        assert(0 <= n1 + n2 <= s.len() && vs[i].text().spec_bytes() == s.skip(n1 + n2));
    }
}

/// [`Or`] tries its first tool, on a copy of the view, before its second one: what the first
/// gives where it matches is a result of the alternative, the second is run on the view where
/// the first misses, and the alternative gives nothing else.
pub proof fn law_or_first_wins<'a, FF: Clone, F: ParseTool<'a, FF>, S: ParseTool<'a, FF, Data = F::Data>>(
    o: Or<F, S>,
    st: View<'a, FF>,
    x: (F::Data, View<'a, FF>),
    e: S::Error,
)
    ensures
        on_copy(o.first, st, Ok(x)) ==> o.spec_outcome(st, Ok(x)),
        (exists|e1: F::Error| #[trigger] on_copy(o.first, st, Err(e1))) && o.second.spec_outcome(st, Ok(x))
            ==> o.spec_outcome(st, Ok(x)),
        (exists|e1: F::Error| #[trigger] on_copy(o.first, st, Err(e1))) && o.second.spec_outcome(st, Err(e))
            ==> o.spec_outcome(st, Err(e)),
        o.spec_outcome(st, Ok(x)) ==> on_copy(o.first, st, Ok(x)) || o.second.spec_outcome(st, Ok(x)),
        o.spec_outcome(st, Err(e)) ==> o.second.spec_outcome(st, Err(e))
            && exists|e1: F::Error| #[trigger] on_copy(o.first, st, Err(e1)),
{
}

} // verus!
