//! Parsing atoms.
//!
//! This module provides the [`Atom`] trait and some parsing atoms which incapsulates some
//! basic algorithms which you can use to define more sofisticated ones.
//!
//! An atom is specified by [`Atom::spec_parse`], a function from the characters of the parsed
//! string to the number of characters of the matched prefix, if any.
use vstd::prelude::*;
use crate::view::AtomTool;
use crate::text::{
    prefix_len, utf8_len, starts_with, byte_len, first_char, char_len, skip_chars, split_chars,
    lemma_prefix_len_one, lemma_prefix_len_zero, lemma_prefix_len_add, lemma_prefix_len_bound,
    lemma_skip_skip, lemma_utf8_len_concat,
};

verus! {

/// Data obtained from a successful match.
#[derive(Debug, Copy, Clone, Eq, PartialEq)]
#[non_exhaustive]
pub struct Match {
    /// Length *in bytes* of the string prefix satisfying the match.
    pub len: usize,
}

impl Match {
    fn new_zero() -> (r: Self)
        ensures
            r.len == 0,
    {
        Self { len: 0 }
    }

    fn append(self, m: Self) -> (r: Self)
        requires
            self.len + m.len <= usize::MAX,
        ensures
            r.len == self.len + m.len,
    {
        Self { len: self.len + m.len }
    }
}

/// True when `r` is the executable form of the abstract result `sp` of parsing `st`:
/// a match of `k` characters is reported as the byte length of those characters.
pub open spec fn atom_agrees(r: Option<Match>, st: Seq<char>, sp: Option<nat>) -> bool {
    match sp {
        Some(k) => r matches Some(m) && m.len == prefix_len(st, k) && k <= st.len(),
        None => r is None,
    }
}

/// The main parsing trait.
///
/// Every object which incapsulate a parsing strategy should implement this trait in order to be
/// composed with other atoms.
pub trait Atom {
    /// What the atom does on a string whose characters are `st`: `Some(k)` when it matches the
    /// first `k` characters, `None` when it does not match.
    spec fn spec_parse(&self, st: Seq<char>) -> Option<nat>;

    /// Holds on the inputs on which [`Atom::parse`] returns, with the result that
    /// [`Atom::spec_parse`] gives: it fails where a repetition would loop forever, or where a
    /// user-supplied function cannot be called or does not answer as a function.
    open spec fn can_parse(&self, st: Seq<char>) -> bool {
        true
    }

    /// The main parsing algorithm.
    ///
    /// If no prefix of `st` satisfies this parsing strategy then `None` is returned.
    fn parse(&self, st: &str) -> (r: Option<Match>)
        requires
            self.can_parse(st@),
        ensures
            atom_agrees(r, st@, self.spec_parse(st@)),
    ;

    /// Converts this atom into a [`ParseTool`](crate::view::ParseTool).
    ///
    /// The generated tool will always return the matched string as data, and the
    /// [`View`](crate::view::View) pointing at the beginning of the string in case of a failed
    /// match.
    fn into_tool(self) -> (r: AtomTool<Self>) where Self: Sized
        ensures
            r.0 == self,
    {
        AtomTool(self)
    }
}

/// A atom that always matches.
///
/// Note: even if the atom always matches the match length may be equal to 0, which sometimes can
/// be interpreted as a failed match.
pub trait AlwaysAtom: Atom {
    /// Every input is matched.
    proof fn lemma_always_matches(&self, st: Seq<char>)
        ensures
            self.spec_parse(st) is Some,
    ;

    /// Returns the length of the match.
    fn parse_always(&self, st: &str) -> (r: Match)
        requires
            self.can_parse(st@),
        ensures
            self.spec_parse(st@) matches Some(k) && k <= st@.len() && r.len == prefix_len(st@, k),
    ;
}

/// String view with accessory matching methods.
///
/// Unlike [`View`](crate::viewerr::View), this object does not contain the string's `Position`
/// but instead stores the byte length of the matched string prefix.
#[derive(Debug, Copy, Clone, Eq, PartialEq)]
pub struct MatchHelper<'a> {
    st: &'a str,
    prefix: Match,
}

impl<'a> From<&'a str> for MatchHelper<'a> {
    fn from(st: &'a str) -> (r: Self) {
        Self { st, prefix: Match::new_zero() }
    }
}

impl<'a> vstd::std_specs::convert::FromSpecImpl<&'a str> for MatchHelper<'a> {
    open spec fn obeys_from_spec() -> bool {
        true
    }

    closed spec fn from_spec(st: &'a str) -> Self {
        MatchHelper { st, prefix: Match { len: 0 } }
    }
}

/// A helper built from `st` holds all of `st` and has matched nothing.
pub proof fn lemma_from_str<'a>(st: &'a str)
    ensures
        <MatchHelper<'a> as vstd::std_specs::convert::FromSpec<&'a str>>::from_spec(st).rest() == st,
        <MatchHelper<'a> as vstd::std_specs::convert::FromSpec<&'a str>>::from_spec(st).consumed() == 0,
{
}

impl<'a> MatchHelper<'a> {
    /// The string that remains to be parsed.
    pub closed spec fn rest(self) -> &'a str {
        self.st
    }

    /// The number of bytes matched so far.
    pub closed spec fn consumed(self) -> usize {
        self.prefix.len
    }

    /// The bytes matched so far and the bytes that remain fit together in `usize`.
    pub open spec fn wf(self) -> bool {
        self.consumed() + utf8_len(self.rest()@) <= usize::MAX
    }

    /// The helper after a match of `k` characters.
    pub open spec fn matched(self, k: nat, next: Self) -> bool {
        &&& k <= self.rest()@.len()
        &&& next.rest()@ == self.rest()@.skip(k as int)
        &&& next.consumed() == self.consumed() + prefix_len(self.rest()@, k)
        &&& next.wf()
    }

    /// Builds a helper on `st`.
    pub fn new(st: &'a str) -> (r: Self)
        ensures
            r.rest() == st,
            r.consumed() == 0,
            r.wf(),
    {
        let n = byte_len(st);
        Self { st, prefix: Match::new_zero() }
    }

    /// Progress the view by the first `k` characters, which take `inc.len` bytes.
    fn progress(self, inc: Match, Ghost(k): Ghost<nat>) -> (r: (&'a str, Self))
        requires
            self.wf(),
            k <= self.rest()@.len(),
            inc.len == prefix_len(self.rest()@, k),
        ensures
            self.matched(k, r.1),
            r.0@ == self.rest()@.take(k as int),
    {
        proof {
            lemma_prefix_len_add(self.rest()@, k, (self.rest()@.len() - k) as nat);
            assert(self.rest()@.take(self.rest()@.len() as int) =~= self.rest()@);
            assert(self.rest()@.skip(k as int).take((self.rest()@.len() - k) as int) =~= self.rest()@.skip(k as int));
        }
        let (pfx, sfx) = split_chars(self.st, inc.len, Ghost(k));
        (pfx, Self { st: sfx, prefix: self.prefix.append(inc) })
    }

    /// Matches an atom with the view.
    ///
    /// If a match happens then the progressed view is returned in the `Ok` variant.
    /// If a match doesn't happen then the calling view is returned as `Err` unchanged.
    pub fn match_atom<R: Atom>(self, t: R) -> (r: Result<Self, Self>)
        requires
            self.wf(),
            t.can_parse(self.rest()@),
        ensures
            match t.spec_parse(self.rest()@) {
                Some(k) => r matches Ok(h) && self.matched(k, h),
                None => r == Err::<Self, Self>(self),
            },
    {
        match t.parse(self.st) {
            Some(inc) => {
                let ghost k = t.spec_parse(self.rest()@)->Some_0;
                Ok(self.progress(inc, Ghost(k)).1)
            },
            None => Err(self),
        }
    }

    /// Matches an atom with the view and returns the matching prefix.
    ///
    /// If a match doesn't happen then the calling view is returned as `Err` unchanged.
    pub fn match_atom_string<R: Atom>(self, t: R) -> (r: Result<(&'a str, Self), Self>)
        requires
            self.wf(),
            t.can_parse(self.rest()@),
        ensures
            match t.spec_parse(self.rest()@) {
                Some(k) => r matches Ok((s, h)) && self.matched(k, h) && s@ == self.rest()@.take(k as int),
                None => r == Err::<(&'a str, Self), Self>(self),
            },
    {
        match t.parse(self.st) {
            Some(inc) => {
                let ghost k = t.spec_parse(self.rest()@)->Some_0;
                Ok(self.progress(inc, Ghost(k)))
            },
            None => Err(self),
        }
    }

    /// Matches an [`AlwaysAtom`] with the view.
    pub fn match_always<R: AlwaysAtom>(self, t: R) -> (r: Self)
        requires
            self.wf(),
            t.can_parse(self.rest()@),
        ensures
            t.spec_parse(self.rest()@) matches Some(k) && self.matched(k, r),
    {
        let inc = t.parse_always(self.st);
        let ghost k = t.spec_parse(self.rest()@)->Some_0;
        self.progress(inc, Ghost(k)).1
    }

    /// Matches an [`AlwaysAtom`] and returns the matched prefix.
    pub fn match_always_string<R: AlwaysAtom>(self, t: R) -> (r: (&'a str, Self))
        requires
            self.wf(),
            t.can_parse(self.rest()@),
        ensures
            t.spec_parse(self.rest()@) matches Some(k) && self.matched(k, r.1) && r.0@ == self.rest()@.take(k as int),
    {
        let inc = t.parse_always(self.st);
        let ghost k = t.spec_parse(self.rest()@)->Some_0;
        self.progress(inc, Ghost(k))
    }

    /// Finalize the helper, returning the remaining unparsed string and the matched prefix
    /// length.
    pub fn finalize(self) -> (r: (&'a str, Match))
        ensures
            r.0 == self.rest(),
            r.1.len == self.consumed(),
    {
        (self.st, self.prefix)
    }

    /// Enforce that all the string has been parsed before finalizing.
    pub fn all_finalize(self) -> (r: Result<Match, Self>)
        ensures
            if self.rest()@.len() == 0 {
                r matches Ok(m) && m.len == self.consumed()
            } else {
                r == Err::<Match, Self>(self)
            },
    {
        if self.st.is_empty() {
            Ok(self.prefix)
        } else {
            Err(self)
        }
    }

    /// Enforce that the atom matches the entire string before finalizing.
    pub fn match_finalize<R: Atom>(self, t: R) -> (r: Result<Match, Self>)
        requires
            self.wf(),
            t.can_parse(self.rest()@),
        ensures
            match t.spec_parse(self.rest()@) {
                Some(k) => if k == self.rest()@.len() {
                    r matches Ok(m) && m.len == self.consumed() + utf8_len(self.rest()@)
                } else {
                    r matches Err(h) && self.matched(k, h)
                },
                None => r == Err::<Match, Self>(self),
            },
    {
        proof {
            assert(self.rest()@.take(self.rest()@.len() as int) =~= self.rest()@);
        }
        match self.match_atom(t) {
            Ok(h) => h.all_finalize(),
            Err(h) => Err(h),
        }
    }

    /// Matches an atom only if another atom matches.
    pub fn match_if_matches<PRE: Atom, R: Atom>(self, pre: PRE, t: R) -> (r: Result<Self, Self>)
        requires
            self.wf(),
            pre.can_parse(self.rest()@),
            pre.spec_parse(self.rest()@) matches Some(k) ==> (k <= self.rest()@.len() ==> t.can_parse(self.rest()@.skip(k as int))),
        ensures
            match pre.spec_parse(self.rest()@) {
                Some(k) => match t.spec_parse(self.rest()@.skip(k as int)) {
                    Some(k2) => r matches Ok(h) && k + k2 <= self.rest()@.len() && self.matched(k + k2, h),
                    None => r matches Err(h) && self.matched(k, h),
                },
                None => r == Ok::<Self, Self>(self),
            },
    {
        match self.match_atom(pre) {
            Ok(next) => {
                let r = next.match_atom(t);
                proof {
                    let k = pre.spec_parse(self.rest()@)->Some_0;
                    if let Some(k2) = t.spec_parse(self.rest()@.skip(k as int)) {
                        lemma_prefix_len_add(self.rest()@, k, k2);
                        lemma_skip_skip(self.rest()@, k, k2);
                    }
                }
                r
            },
            Err(same) => Ok(same),
        }
    }

    /// Matches an [`AlwaysAtom`] only if another atom matches.
    ///
    /// This always result in a successful match.
    pub fn always_if_matches<PRE: Atom, R: AlwaysAtom>(self, pre: PRE, t: R) -> (r: Self)
        requires
            self.wf(),
            pre.can_parse(self.rest()@),
            pre.spec_parse(self.rest()@) matches Some(k) ==> (k <= self.rest()@.len() ==> t.can_parse(self.rest()@.skip(k as int))),
        ensures
            match pre.spec_parse(self.rest()@) {
                Some(k) => t.spec_parse(self.rest()@.skip(k as int)) matches Some(k2) && k + k2 <= self.rest()@.len()
                    && self.matched(k + k2, r),
                None => r == self,
            },
    {
        match self.match_atom(pre) {
            Ok(next) => {
                let r = next.match_always(t);
                proof {
                    let k = pre.spec_parse(self.rest()@)->Some_0;
                    let k2 = t.spec_parse(self.rest()@.skip(k as int))->Some_0;
                    lemma_prefix_len_add(self.rest()@, k, k2);
                    lemma_skip_skip(self.rest()@, k, k2);
                }
                r
            },
            Err(same) => same,
        }
    }
}

impl<T: Atom + ?Sized> Atom for &T {
    open spec fn spec_parse(&self, st: Seq<char>) -> Option<nat> {
        (**self).spec_parse(st)
    }

    open spec fn can_parse(&self, st: Seq<char>) -> bool {
        (**self).can_parse(st)
    }

    fn parse(&self, st: &str) -> (r: Option<Match>) {
        (**self).parse(st)
    }
}

impl<T: AlwaysAtom + ?Sized> AlwaysAtom for &T {
    proof fn lemma_always_matches(&self, st: Seq<char>) {
        (**self).lemma_always_matches(st)
    }

    fn parse_always(&self, st: &str) -> (r: Match) {
        (**self).parse_always(st)
    }
}

impl<T: Atom + ?Sized> Atom for Box<T> {
    open spec fn spec_parse(&self, st: Seq<char>) -> Option<nat> {
        (**self).spec_parse(st)
    }

    open spec fn can_parse(&self, st: Seq<char>) -> bool {
        (**self).can_parse(st)
    }

    fn parse(&self, st: &str) -> (r: Option<Match>) {
        (**self).parse(st)
    }
}

impl<T: AlwaysAtom + ?Sized> AlwaysAtom for Box<T> {
    proof fn lemma_always_matches(&self, st: Seq<char>) {
        (**self).lemma_always_matches(st)
    }

    fn parse_always(&self, st: &str) -> (r: Match) {
        (**self).parse_always(st)
    }
}

/// Matches a string exactly.
impl Atom for str {
    open spec fn spec_parse(&self, st: Seq<char>) -> Option<nat> {
        if self@.len() <= st.len() && st.take(self@.len() as int) == self@ {
            Some(self@.len())
        } else {
            None
        }
    }

    fn parse(&self, st: &str) -> (r: Option<Match>) {
        if starts_with(st, self) {
            Some(Match { len: byte_len(self) })
        } else {
            None
        }
    }
}

/// Matches the first character exactly.
impl Atom for char {
    open spec fn spec_parse(&self, st: Seq<char>) -> Option<nat> {
        if st.len() > 0 && st[0] == *self {
            Some(1)
        } else {
            None
        }
    }

    fn parse(&self, st: &str) -> (r: Option<Match>) {
        match first_char(st) {
            Some(chr) => {
                if *self == chr {
                    proof {
                        lemma_prefix_len_one(st@);
                    }
                    Some(Match { len: char_len(*self) })
                } else {
                    None
                }
            },
            None => None,
        }
    }
}

/// The first atom of `atoms` that matches `st`.
pub open spec fn first_atom_match<R: Atom>(atoms: Seq<R>, st: Seq<char>) -> Option<nat>
    decreases atoms.len(),
{
    if atoms.len() == 0 {
        None
    } else {
        match atoms[0].spec_parse(st) {
            Some(k) => Some(k),
            None => first_atom_match(atoms.drop_first(), st),
        }
    }
}

/// Every atom of `atoms` that [`first_atom_match`] may run can run on `st`.
pub open spec fn first_atom_match_can<R: Atom>(atoms: Seq<R>, st: Seq<char>) -> bool
    decreases atoms.len(),
{
    atoms.len() > 0 ==> atoms[0].can_parse(st) && (atoms[0].spec_parse(st) is None
        ==> first_atom_match_can(atoms.drop_first(), st))
}

/// Matches any of the atoms in the slice.
impl<R: Atom> Atom for [R] {
    open spec fn spec_parse(&self, st: Seq<char>) -> Option<nat> {
        first_atom_match(self@, st)
    }

    open spec fn can_parse(&self, st: Seq<char>) -> bool {
        first_atom_match_can(self@, st)
    }

    fn parse(&self, st: &str) -> (r: Option<Match>) {
        let mut i: usize = 0;
        assert(self@.skip(0) =~= self@);
        while i < self.len()
            invariant
                0 <= i <= self@.len(),
                first_atom_match(self@, st@) == first_atom_match(self@.skip(i as int), st@),
                first_atom_match_can(self@.skip(i as int), st@),
            decreases self@.len() - i,
        {
            let ghost rest = self@.skip(i as int);
            assert(rest[0] == self@[i as int]);
            assert(rest.drop_first() =~= self@.skip(i + 1));
            if let Some(m) = self[i].parse(st) {
                return Some(m);
            }
            i = i + 1;
        }
        None
    }
}

/// Matches any of the atoms in the array.
impl<R: Atom, const N: usize> Atom for [R; N] {
    open spec fn spec_parse(&self, st: Seq<char>) -> Option<nat> {
        first_atom_match(self@, st)
    }

    open spec fn can_parse(&self, st: Seq<char>) -> bool {
        first_atom_match_can(self@, st)
    }

    fn parse(&self, st: &str) -> (r: Option<Match>) {
        self.as_slice().parse(st)
    }
}

/// Matching `k1` characters and then `k2` more leaves the helper that matching the `k1 + k2`
/// characters at once leaves: what is consumed and what remains still make up the source.
pub proof fn law_matched_chain<'a>(a: MatchHelper<'a>, b: MatchHelper<'a>, c: MatchHelper<'a>, k1: nat, k2: nat)
    requires
        a.matched(k1, b),
        b.matched(k2, c),
    ensures
        a.matched(k1 + k2, c),
{
    let s = a.rest()@;
    assert(s.skip(k1 as int).skip(k2 as int) =~= s.skip((k1 + k2) as int));
    lemma_prefix_len_add(s, k1, k2);
}

/// `b` is `a`, or the helper that matching some characters of `a` leaves.
pub open spec fn helper_steps_to<'a>(a: MatchHelper<'a>, b: MatchHelper<'a>) -> bool {
    a == b || exists|k: nat| #![trigger a.rest()@.skip(k as int)] a.matched(k, b)
}

/// `h` is a helper on `s` after its first `k` characters, for some `k`: what remains is `s`
/// after them, and what is consumed is their bytes.
pub open spec fn helper_on<'a>(s: Seq<char>, h: MatchHelper<'a>) -> bool {
    exists|k: nat| #![trigger s.skip(k as int)] k <= s.len() && h.rest()@ == s.skip(k as int) && h.consumed() == prefix_len(s, k)
}

/// Along a chain of helpers that starts from the one built on `s`, in which each one is the one
/// before or the helper that matching some characters of the one before leaves (as every match
/// method gives, on success and on failure), what [`MatchHelper::finalize`] would give makes up
/// `s`: the rest is `s` after the characters consumed, and the bytes consumed and the bytes of the
/// rest add up to the bytes of `s`.
pub proof fn law_helper_chain<'a>(s: &'a str, hs: Seq<MatchHelper<'a>>)
    requires
        hs.len() > 0,
        hs[0].rest() == s,
        hs[0].consumed() == 0,
        forall|i: int| #![trigger hs[i]] 0 <= i < hs.len() - 1 ==> helper_steps_to(hs[i], hs[i + 1]),
    ensures
        forall|i: int| #![trigger hs[i]] 0 <= i < hs.len() ==> helper_on(s@, hs[i]) && hs[i].consumed() + utf8_len(hs[i].rest()@) == utf8_len(s@),
{
    assert forall|i: int| #![trigger hs[i]] 0 <= i < hs.len() implies helper_on(s@, hs[i]) && hs[i].consumed() + utf8_len(hs[i].rest()@) == utf8_len(s@) by {
        lemma_helper_chain(s, hs, i);
        let k = choose|k: nat| #![trigger s@.skip(k as int)] k <= s@.len() && hs[i].rest()@ == s@.skip(k as int) && hs[i].consumed() == prefix_len(s@, k);
        assert(s@ =~= s@.take(k as int) + s@.skip(k as int));
        lemma_utf8_len_concat(s@.take(k as int), s@.skip(k as int));
    }
}

proof fn lemma_helper_chain<'a>(s: &'a str, hs: Seq<MatchHelper<'a>>, i: int)
    requires
        0 <= i < hs.len(),
        hs[0].rest() == s,
        hs[0].consumed() == 0,
        forall|i: int| #![trigger hs[i]] 0 <= i < hs.len() - 1 ==> helper_steps_to(hs[i], hs[i + 1]),
    ensures
        helper_on(s@, hs[i]),
    decreases i,
{
    let t = s@;
    if i == 0 {
        assert(t.skip(0) =~= t);
        lemma_prefix_len_zero(t);
        assert(0 <= t.len() && hs[0].rest()@ == t.skip(0) && hs[0].consumed() == prefix_len(t, 0));
    } else {
        lemma_helper_chain(s, hs, i - 1);
        let prev = hs[i - 1];
        let k1 = choose|k: nat| #![trigger t.skip(k as int)] k <= t.len() && prev.rest()@ == t.skip(k as int) && prev.consumed() == prefix_len(t, k);
        if hs[i] != prev {
            assert(helper_steps_to(hs[i - 1], hs[i]));
            let k = choose|k: nat| #![trigger prev.rest()@.skip(k as int)] prev.matched(k, hs[i]);
            lemma_skip_skip(t, k1, k);
            lemma_prefix_len_add(t, k1, k);
            assert(k1 + k <= t.len() && hs[i].rest()@ == t.skip((k1 + k) as int) && hs[i].consumed() == prefix_len(t, k1 + k));
        }
    }
}

/// Where the tools of `ts` before the `i`-th all miss, trying them in order from the start gives
/// what trying them from the `i`-th gives.
proof fn lemma_first_atom_match_skips_misses<R: Atom>(ts: Seq<R>, st: Seq<char>, i: int)
    requires
        0 <= i <= ts.len(),
        forall|j: int| 0 <= j < i ==> #[trigger] ts[j].spec_parse(st) is None,
    ensures
        first_atom_match(ts, st) == first_atom_match(ts.skip(i), st),
    decreases i,
{
    if i == 0 {
        assert(ts.skip(0) =~= ts);
    } else {
        assert(ts[0].spec_parse(st) is None);
        let d = ts.drop_first();
        assert forall|j: int| 0 <= j < i - 1 implies #[trigger] d[j].spec_parse(st) is None by {
            assert(d[j] == ts[j + 1]);
        }
        lemma_first_atom_match_skips_misses(d, st, i - 1);
        assert(d.skip(i - 1) =~= ts.skip(i));
    }
}

/// Trying the tools of `ts` in order gives the match of the first one that matches, and misses
/// only where every one of them misses.
proof fn lemma_first_atom_match_first<R: Atom>(ts: Seq<R>, st: Seq<char>)
    ensures
        forall|i: int| 0 <= i < ts.len() && ts[i].spec_parse(st) is Some
            && (forall|j: int| 0 <= j < i ==> #[trigger] ts[j].spec_parse(st) is None)
            ==> first_atom_match(ts, st) == #[trigger] ts[i].spec_parse(st),
        (forall|j: int| 0 <= j < ts.len() ==> #[trigger] ts[j].spec_parse(st) is None) ==> first_atom_match(ts, st) is None,
{
    assert forall|i: int| 0 <= i < ts.len() && ts[i].spec_parse(st) is Some
        && (forall|j: int| 0 <= j < i ==> #[trigger] ts[j].spec_parse(st) is None)
        implies first_atom_match(ts, st) == #[trigger] ts[i].spec_parse(st) by {
        lemma_first_atom_match_skips_misses(ts, st, i);
        assert(ts.skip(i)[0] == ts[i]);
    }
    if forall|j: int| 0 <= j < ts.len() ==> #[trigger] ts[j].spec_parse(st) is None {
        lemma_first_atom_match_skips_misses(ts, st, ts.len() as int);
    }
}

/// A slice of tools tries them in order: the first one that matches gives the match, and the
/// slice misses only where every one of them misses.
pub proof fn law_slice_first_match<R: Atom>(ts: &[R], st: Seq<char>)
    ensures
        forall|i: int| 0 <= i < ts@.len() && ts@[i].spec_parse(st) is Some
            && (forall|j: int| 0 <= j < i ==> #[trigger] ts@[j].spec_parse(st) is None)
            ==> ts.spec_parse(st) == #[trigger] ts@[i].spec_parse(st),
        (forall|j: int| 0 <= j < ts@.len() ==> #[trigger] ts@[j].spec_parse(st) is None) ==> ts.spec_parse(st) is None,
{
    lemma_first_atom_match_first(ts@, st);
}

/// An array of tools tries them in order: the first one that matches gives the match, and the
/// array misses only where every one of them misses.
pub proof fn law_array_first_match<R: Atom, const N: usize>(ts: [R; N], st: Seq<char>)
    ensures
        forall|i: int| 0 <= i < ts@.len() && ts@[i].spec_parse(st) is Some
            && (forall|j: int| 0 <= j < i ==> #[trigger] ts@[j].spec_parse(st) is None)
            ==> ts.spec_parse(st) == #[trigger] ts@[i].spec_parse(st),
        (forall|j: int| 0 <= j < ts@.len() ==> #[trigger] ts@[j].spec_parse(st) is None) ==> ts.spec_parse(st) is None,
{
    lemma_first_atom_match_first(ts@, st);
}

/// A string matches exactly where it is a prefix of the input, with its own length, and a
/// character matches exactly where the input starts with it, with length one.
pub proof fn law_str_and_char(s: &str, c: char, st: Seq<char>)
    ensures
        <str as Atom>::spec_parse(s, st) is Some <==> s@.is_prefix_of(st),
        s@.is_prefix_of(st) ==> <str as Atom>::spec_parse(s, st) == Some(s@.len()),
        <char as Atom>::spec_parse(&c, st) is Some <==> seq![c].is_prefix_of(st),
        seq![c].is_prefix_of(st) ==> <char as Atom>::spec_parse(&c, st) == Some(1nat),
{
    if s@.is_prefix_of(st) {
        assert(st.take(s@.len() as int) =~= s@);
    }
    if seq![c].is_prefix_of(st) {
        assert(st[0] == seq![c][0]);
    }
    if st.len() > 0 && st[0] == c {
        assert(seq![c].is_prefix_of(st));
    }
}

} // verus!
