//! [`View`] and other associated utilities.
use vstd::prelude::*;
use vstd::string::StringSliceAdditionalSpecFns;
use vstd::view::View as _;
use vstd::utf8::{encode_utf8, is_char_boundary};
use crate::pos::{Position, NoFile, Posable, advance, advance_fits, count_nl, last_line_len};
use crate::text::{prefix_len, lemma_prefix_boundary, lemma_split_views};
use crate::toolerr::{ParseTool, ParseToolData, ToolResult, ToolResultData};

verus! {

broadcast use {vstd::string::group_string_axioms, vstd::utf8::group_utf8_lib};

/// A view on a `str` to be parsed.
///
/// This view carries a [`Position<F>`] with respect of the initial string.
/// Each time a pattern is matched against a `View` object a new `View` object is returned,
/// returning the *remaining* part of the view which follows the matched prefix.
#[derive(Debug, Clone, Copy)]
pub struct View<'a, F = NoFile> {
    pub(crate) view: &'a str,
    pub(crate) pos: Position<F>,
}

/// The standard error type for a missing match at specified position.
#[derive(Debug, Clone, Copy, Eq, PartialEq)]
#[non_exhaustive]
pub struct PosNoMatch<E, F = NoFile> {
    /// Error position.
    pub pos: Position<F>,
    /// Error data
    pub err: E,
}

/// [`View`] alias if you don't want to specify a file.
pub type ViewFile<'a> = View<'a, NoFile>;

impl<F> AsRef<str> for View<'_, F> {
    fn as_ref(&self) -> (r: &str)
        ensures
            r == self.text(),
    {
        self.view
    }
}

impl<F> From<Position<F>> for PosNoMatch<(), F> {
    fn from(pos: Position<F>) -> (r: Self) {
        Self { pos, err: () }
    }
}

impl<F> vstd::std_specs::convert::FromSpecImpl<Position<F>> for PosNoMatch<(), F> {
    open spec fn obeys_from_spec() -> bool {
        true
    }

    open spec fn from_spec(pos: Position<F>) -> Self {
        PosNoMatch { pos, err: () }
    }
}

impl<E, F> PosNoMatch<E, F> {
    /// The error `err` at the position `pos`.
    pub fn new(pos: Position<F>, err: E) -> (r: Self)
        ensures
            r.pos == pos,
            r.err == err,
    {
        PosNoMatch { pos, err }
    }
}

impl<E, F> Posable<F> for PosNoMatch<E, F> {
    open spec fn spec_pos(&self) -> Position<F> {
        self.pos
    }

    fn get_pos(&self) -> (r: &Position<F>) {
        &self.pos
    }
}

/// The bytes of the first `k` characters of `s`.
pub open spec fn prefix_bytes(s: Seq<char>, k: nat) -> Seq<u8> {
    encode_utf8(s.take(k as int))
}

impl<'a, F> View<'a, F> {
    /// The string that remains to be parsed.
    pub closed spec fn text(self) -> &'a str {
        self.view
    }

    /// The position of the first character of [`View::text`].
    pub closed spec fn pos(self) -> Position<F> {
        self.pos
    }

    /// The view that remains after a match of `k` characters: the rest of the string, at the
    /// position reached after the matched characters.
    pub open spec fn matched(self, k: nat, next: Self) -> bool {
        &&& k <= self.text()@.len()
        &&& next.text()@ == self.text()@.skip(k as int)
        &&& next.pos() == advance(self.pos(), prefix_bytes(self.text()@, k))
    }

    /// Creates a new [`View`] object with provided *file*.
    pub fn new(view: &'a str, file: F) -> (r: Self)
        ensures
            r.text() == view,
            r.pos() == (Position::<F> { file, line: 0, column: 0 }),
    {
        Self { view, pos: Position::new_file_zero(file) }
    }

    /// Returns the underlying string.
    pub fn get_view(&self) -> (r: &'a str)
        ensures
            r == self.text(),
    {
        self.view
    }

    /// Tests if the underlying string is empty.
    pub fn is_empty(&self) -> (r: bool)
        ensures
            r == (self.text()@.len() == 0),
    {
        self.view.is_empty()
    }

    /// Returns the position of the first character with respect to the main file.
    pub fn top_position(&self) -> (r: &Position<F>)
        ensures
            *r == self.pos(),
    {
        &self.pos
    }

    /// The same string at the position `pos`.
    pub(crate) fn with_pos(&self, pos: Position<F>) -> (r: Self)
        ensures
            r.text() == self.text(),
            r.pos() == pos,
    {
        Self { view: self.view, pos }
    }

    /// Views with the same string and position are the same.
    pub(crate) proof fn lemma_same(self, other: Self)
        requires
            self.text() == other.text(),
            self.pos() == other.pos(),
        ensures
            self == other,
    {
    }

    /// Consumes the view and returns the actual [`Position`].
    pub fn into_pos(self) -> (r: Position<F>)
        ensures
            r == self.pos(),
    {
        self.pos
    }

    /// Progress the view and its position by `inc` bytes.
    ///
    /// `inc` must lie on a UTF-8 code point boundary, and the line and column reached must fit in
    /// `u32`.
    pub fn progress(self, inc: usize) -> (r: (Self, &'a str))
        requires
            is_char_boundary(self.text().spec_bytes(), inc as int),
            advance_fits(self.pos(), self.text().spec_bytes().take(inc as int)),
        ensures
            r.1.spec_bytes() == self.text().spec_bytes().take(inc as int),
            r.0.text().spec_bytes() == self.text().spec_bytes().skip(inc as int),
            r.0.pos() == advance(self.pos(), self.text().spec_bytes().take(inc as int)),
    {
        if inc == 0 {
            let empty: &'a str = "";
            proof {
                reveal_strlit("");
                assert(empty@ =~= Seq::<char>::empty());
                assert(encode_utf8(empty@) =~= Seq::<u8>::empty());
                assert(self.text().spec_bytes().take(0) =~= Seq::<u8>::empty());
                assert(self.text().spec_bytes().skip(0) =~= self.text().spec_bytes());
            }
            return (self, empty);
        }
        let (pfx, sfx) = self.view.split_at(inc);
        let bytes = pfx.as_bytes();
        let mut nls: usize = 0;
        let mut tail: usize = 0;
        let mut i: usize = 0;
        proof {
            assert(bytes@.take(0) =~= Seq::<u8>::empty());
        }
        while i < bytes.len()
            invariant
                i <= bytes@.len(),
                nls == count_nl(bytes@.take(i as int)),
                tail == last_line_len(bytes@.take(i as int)),
                nls <= i,
                tail <= i,
            decreases bytes@.len() - i,
        {
            proof {
                assert(bytes@.take(i + 1).drop_last() =~= bytes@.take(i as int));
                assert(bytes@.take(i + 1).last() == bytes@[i as int]);
            }
            if bytes[i] == 10u8 {
                nls = nls + 1;
                tail = 0;
            } else {
                tail = tail + 1;
            }
            i = i + 1;
        }
        proof {
            assert(bytes@.take(i as int) =~= bytes@);
            assert(bytes@ =~= self.text().spec_bytes().take(inc as int));
            crate::pos::lemma_last_line_len_concat(Seq::empty(), bytes@);
            assert(Seq::<u8>::empty() + bytes@ =~= bytes@);
        }
        let (mut r, mut c, file) = self.pos.unpack();
        if nls > 0 {
            c = 0;
            r = r + nls as u32;
        }
        c = c + tail as u32;
        (Self { pos: Position::new_file(file, r, c), view: sfx }, pfx)
    }

    /// Progress the view by the first `k` characters of its string, which take `inc` bytes.
    pub(crate) fn advance_chars(self, inc: usize, Ghost(k): Ghost<nat>) -> (r: (Self, &'a str))
        requires
            k <= self.text()@.len(),
            inc == prefix_len(self.text()@, k),
            advance_fits(self.pos(), prefix_bytes(self.text()@, k)),
        ensures
            self.matched(k, r.0),
            r.1@ == self.text()@.take(k as int),
    {
        proof {
            lemma_prefix_boundary(self.text()@, k);
        }
        let r = self.progress(inc);
        proof {
            lemma_split_views(self.text()@, k, r.1@, r.0.text()@);
        }
        r
    }

    /// Apply the transformation `f` to the view.
    pub fn match_map<E, FF: FnOnce(Self) -> Result<Self, E>>(self, f: FF) -> (r: Result<Self, E>)
        requires
            call_requires(f, (self,)),
        ensures
            call_ensures(f, (self,), r),
    {
        f(self)
    }

    /// Matches a tool with the view.
    pub fn match_tool<R: ParseTool>(self, t: R) -> (r: Result<Self, PosNoMatch<R::Error, F>>)
        requires
            t.can_parse(self.text()@),
            t.spec_parse(self.text()@) matches Ok(k) ==> advance_fits(self.pos(), prefix_bytes(self.text()@, k)),
        ensures
            match t.spec_parse(self.text()@) {
                Ok(k) => r matches Ok(v) && self.matched(k, v),
                Err(e) => r == Err::<Self, PosNoMatch<R::Error, F>>(PosNoMatch { pos: self.pos(), err: e }),
            },
    {
        match t.parse(self.view) {
            ToolResult::Match { len } => {
                let ghost k = t.spec_parse(self.text()@)->Ok_0;
                Ok(self.advance_chars(len, Ghost(k)).0)
            },
            ToolResult::NoMatch(err) => Err(PosNoMatch { err, pos: self.pos }),
        }
    }

    /// Matches a tool with the entire view, not only with a prefix.
    ///
    /// A failed match carries `Some` error of the tool at the position of the view; a match that
    /// does not reach the end of the view carries `None` at the position where the match ends.
    pub fn match_tool_final<R: ParseTool>(self, t: R) -> (r: Result<(), PosNoMatch<Option<R::Error>, F>>)
        requires
            t.can_parse(self.text()@),
            t.spec_parse(self.text()@) matches Ok(k) ==> advance_fits(self.pos(), prefix_bytes(self.text()@, k)),
        ensures
            match t.spec_parse(self.text()@) {
                Ok(k) => if k == self.text()@.len() {
                    r == Ok::<(), PosNoMatch<Option<R::Error>, F>>(())
                } else {
                    r == Err::<(), PosNoMatch<Option<R::Error>, F>>(PosNoMatch {
                        pos: advance(self.pos(), prefix_bytes(self.text()@, k)),
                        err: None,
                    })
                },
                Err(e) => r == Err::<(), PosNoMatch<Option<R::Error>, F>>(PosNoMatch { pos: self.pos(), err: Some(e) }),
            },
    {
        match self.match_tool(t) {
            Ok(next) => {
                if next.view.is_empty() {
                    Ok(())
                } else {
                    Err(PosNoMatch { pos: next.pos, err: None })
                }
            },
            Err(e) => Err(PosNoMatch { pos: e.pos, err: Some(e.err) }),
        }
    }

    /// Matches a [`ParseToolData`].
    ///
    /// Parameter `P` can be used to provide additional parameter to the `ParseToolData` object.
    pub fn match_tool_data<P, R: ParseToolData<'a, P>>(self, t: R, p: P) -> (r: Result<(Self, R::Data), PosNoMatch<R::Error, F>>)
        requires
            t.can_parse_data(self.text()@, p),
            t.spec_parse_data(self.text()@, p) matches Ok((k, _)) ==> advance_fits(self.pos(), prefix_bytes(self.text()@, k)),
        ensures
            match t.spec_parse_data(self.text()@, p) {
                Ok((k, v)) => r matches Ok((n, d)) && self.matched(k, n) && d@ == v,
                Err(e) => r == Err::<(Self, R::Data), PosNoMatch<R::Error, F>>(PosNoMatch { pos: self.pos(), err: e }),
            },
    {
        match t.parse(self.view, p) {
            ToolResultData::Match { len, data } => {
                let ghost k = t.spec_parse_data(self.text()@, p)->Ok_0.0;
                Ok((self.advance_chars(len, Ghost(k)).0, data))
            },
            ToolResultData::NoMatch(err) => Err(PosNoMatch { err, pos: self.pos }),
        }
    }

    /// Applies the matching tool and returns the prefix matching such tool.
    pub fn match_tool_string<R: ParseTool>(self, t: R) -> (r: Result<(Self, &'a str), PosNoMatch<R::Error, F>>)
        requires
            t.can_parse(self.text()@),
            t.spec_parse(self.text()@) matches Ok(k) ==> advance_fits(self.pos(), prefix_bytes(self.text()@, k)),
        ensures
            match t.spec_parse(self.text()@) {
                Ok(k) => r matches Ok((v, s)) && self.matched(k, v) && s@ == self.text()@.take(k as int),
                Err(e) => r == Err::<(Self, &'a str), PosNoMatch<R::Error, F>>(PosNoMatch { pos: self.pos(), err: e }),
            },
    {
        match t.parse(self.view) {
            ToolResult::Match { len } => {
                let ghost k = t.spec_parse(self.text()@)->Ok_0;
                Ok(self.advance_chars(len, Ghost(k)))
            },
            ToolResult::NoMatch(err) => Err(PosNoMatch { err, pos: self.pos }),
        }
    }
}

impl<'a, F: Default> View<'a, F> {
    /// Creates a new [`View`] object with the default file.
    pub fn new_default(view: &'a str) -> (r: Self)
        ensures
            r.text() == view,
            r.pos().line == 0,
            r.pos().column == 0,
            call_ensures(F::default, (), r.pos().file),
    {
        Self::new(view, F::default())
    }
}

/// Matching `k1` characters and then `k2` more leaves the view that matching the `k1 + k2`
/// characters at once leaves: the text stays the rest of the source, at the position reached
/// over all the matched characters.
pub proof fn law_matched_chain<'a, F>(a: View<'a, F>, b: View<'a, F>, c: View<'a, F>, k1: nat, k2: nat)
    requires
        a.matched(k1, b),
        b.matched(k2, c),
        advance_fits(a.pos(), prefix_bytes(a.text()@, k1)),
        advance_fits(b.pos(), prefix_bytes(b.text()@, k2)),
    ensures
        a.matched(k1 + k2, c),
{
    let s = a.text()@;
    assert(s.skip(k1 as int).skip(k2 as int) =~= s.skip((k1 + k2) as int));
    let x = s.take(k1 as int);
    let y = s.skip(k1 as int).take(k2 as int);
    assert(s.take((k1 + k2) as int) =~= x + y);
    crate::text::lemma_encode_concat(x, y);
    crate::pos::lemma_advance_concat(a.pos(), prefix_bytes(s, k1), prefix_bytes(s.skip(k1 as int), k2));
}

/// A view built with the default file is the view that `new` builds with the file that
/// `F::default` returns, where `F::default` always returns the same file.
pub proof fn law_new_default_is_new<'a, F: Default>(s: &'a str, d: F, v: View<'a, F>, w: View<'a, F>)
    requires
        v.text() == s,
        v.pos().line == 0,
        v.pos().column == 0,
        call_ensures(F::default, (), v.pos().file),
        w.text() == s,
        w.pos() == (Position::<F> { file: d, line: 0, column: 0 }),
        call_ensures(F::default, (), d),
        forall|a: F, b: F| call_ensures(F::default, (), a) && call_ensures(F::default, (), b) ==> a == b,
    ensures
        v == w,
{
    assert(v.pos() == w.pos());
    v.lemma_same(w);
}

/// `b` is `a`, the view that matching some characters of `a` leaves, or the view that stepping
/// over some bytes of `a` leaves.
pub open spec fn steps_to<'a, F>(a: View<'a, F>, b: View<'a, F>) -> bool {
    ||| a == b
    ||| exists|k: nat| #![trigger a.text()@.skip(k as int)] a.matched(k, b)
    ||| exists|n: int| #![trigger a.text().spec_bytes().skip(n)]
        0 <= n <= a.text().spec_bytes().len() && b.text().spec_bytes() == a.text().spec_bytes().skip(n)
}

/// `t` is what remains of the bytes `s` after the first `n` of them, for some `n`.
pub open spec fn rest_of(s: Seq<u8>, t: Seq<u8>) -> bool {
    exists|n: int| #![trigger s.skip(n)] 0 <= n <= s.len() && t == s.skip(n)
}

/// Along a chain of views in which each one is the one before, or the view that a match or a
/// `progress` on the one before leaves, the text of every view is what remains of the text of
/// the first one: a view built on `s` stays a suffix of `s`.
pub proof fn law_text_stays_suffix<'a, F>(vs: Seq<View<'a, F>>)
    requires
        vs.len() > 0,
        forall|i: int| #![trigger vs[i]] 0 <= i < vs.len() - 1 ==> steps_to(vs[i], vs[i + 1]),
    ensures
        forall|i: int| #![trigger vs[i]] 0 <= i < vs.len() ==> rest_of(vs[0].text().spec_bytes(), vs[i].text().spec_bytes()),
{
    assert forall|i: int| #![trigger vs[i]] 0 <= i < vs.len() implies rest_of(vs[0].text().spec_bytes(), vs[i].text().spec_bytes()) by {
        lemma_text_stays_suffix(vs, i);
    }
}

proof fn lemma_text_stays_suffix<'a, F>(vs: Seq<View<'a, F>>, i: int)
    requires
        0 <= i < vs.len(),
        forall|i: int| #![trigger vs[i]] 0 <= i < vs.len() - 1 ==> steps_to(vs[i], vs[i + 1]),
    ensures
        rest_of(vs[0].text().spec_bytes(), vs[i].text().spec_bytes()),
    decreases i,
{
    let s = vs[0].text().spec_bytes();
    if i == 0 {
        assert(s.skip(0) =~= s);
    } else {
        lemma_text_stays_suffix(vs, i - 1);
        let prev = vs[i - 1];
        let pb = prev.text().spec_bytes();
        let n1 = choose|n: int| #![trigger s.skip(n)] 0 <= n <= s.len() && pb == s.skip(n);
        assert(steps_to(vs[i - 1], vs[i]));
        let n2: int = if vs[i] == prev {
            0
        } else if exists|k: nat| #![trigger prev.text()@.skip(k as int)] prev.matched(k, vs[i]) {
            let k = choose|k: nat| #![trigger prev.text()@.skip(k as int)] prev.matched(k, vs[i]);
            crate::text::lemma_prefix_boundary(prev.text()@, k);
            crate::text::lemma_prefix_len_bound(prev.text()@, k);
            crate::text::prefix_len(prev.text()@, k) as int
        } else {
            choose|n: int| #![trigger pb.skip(n)] 0 <= n <= pb.len() && vs[i].text().spec_bytes() == pb.skip(n)
        };
        assert(0 <= n2 <= pb.len() && vs[i].text().spec_bytes() == pb.skip(n2)) by {
            if vs[i] == prev {
                assert(pb.skip(0) =~= pb);
            }
        }
        assert(s.skip(n1).skip(n2) =~= s.skip(n1 + n2));
        assert(0 <= n1 + n2 <= s.len() && vs[i].text().spec_bytes() == s.skip(n1 + n2));
    }
}

} // verus!
