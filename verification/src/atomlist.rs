//! Some useful parsing atoms.
use vstd::prelude::*;
use crate::atoms::{Atom, AlwaysAtom, Match, atom_agrees};
use crate::chains::{
    Sequence, Or, Check, CheckInv, Repeat, RepeatAny, LazyRepeat, LazyRepeatAny, repeat_spec,
    repeat_can, lazy_spec, lazy_can,
};
use crate::toolerr::{char_pred_ok, char_pred, ref_pred_ok, ref_pred};
use crate::text::{
    prefix_len, byte_len, first_char, char_len, skip_chars, lemma_prefix_len_one,
    lemma_prefix_len_zero, lemma_prefix_len_add, lemma_prefix_len_bound, lemma_prefix_len_positive,
    lemma_utf8_len_single,
};

verus! {

/// Parses only the end of the input.
#[derive(Debug, Clone, Copy, Default)]
pub struct EOFChar;

impl Atom for EOFChar {
    open spec fn spec_parse(&self, st: Seq<char>) -> Option<nat> {
        if st.len() == 0 {
            Some(0)
        } else {
            None
        }
    }

    fn parse(&self, st: &str) -> (r: Option<Match>) {
        proof {
            lemma_prefix_len_zero(st@);
        }
        if st.is_empty() {
            Some(Match { len: 0 })
        } else {
            None
        }
    }
}

impl<T: Atom> Atom for Check<T> {
    open spec fn spec_parse(&self, st: Seq<char>) -> Option<nat> {
        match self.0.spec_parse(st) {
            Some(_) => Some(0),
            None => None,
        }
    }

    open spec fn can_parse(&self, st: Seq<char>) -> bool {
        self.0.can_parse(st)
    }

    fn parse(&self, st: &str) -> (r: Option<Match>) {
        proof {
            lemma_prefix_len_zero(st@);
        }
        match self.0.parse(st) {
            Some(_) => Some(Match { len: 0 }),
            None => None,
        }
    }
}

impl<T: AlwaysAtom> AlwaysAtom for Check<T> {
    proof fn lemma_always_matches(&self, st: Seq<char>) {
        self.0.lemma_always_matches(st);
    }

    fn parse_always(&self, st: &str) -> (r: Match) {
        proof {
            self.0.lemma_always_matches(st@);
            lemma_prefix_len_zero(st@);
        }
        Match { len: 0 }
    }
}

impl<T: Atom> Atom for CheckInv<T> {
    open spec fn spec_parse(&self, st: Seq<char>) -> Option<nat> {
        match self.0.spec_parse(st) {
            Some(_) => None,
            None => Some(0),
        }
    }

    open spec fn can_parse(&self, st: Seq<char>) -> bool {
        self.0.can_parse(st)
    }

    fn parse(&self, st: &str) -> (r: Option<Match>) {
        proof {
            lemma_prefix_len_zero(st@);
        }
        match self.0.parse(st) {
            Some(_) => None,
            None => Some(Match { len: 0 }),
        }
    }
}

impl<F: Atom, S: Atom> Atom for Sequence<F, S> {
    open spec fn spec_parse(&self, st: Seq<char>) -> Option<nat> {
        match self.first.spec_parse(st) {
            Some(k) => match self.second.spec_parse(st.skip(k as int)) {
                Some(k2) => Some(k + k2),
                None => None,
            },
            None => None,
        }
    }

    open spec fn can_parse(&self, st: Seq<char>) -> bool {
        self.first.can_parse(st) && match self.first.spec_parse(st) {
            Some(k) => k <= st.len() ==> self.second.can_parse(st.skip(k as int)),
            None => true,
        }
    }

    fn parse(&self, st: &str) -> (r: Option<Match>) {
        match self.first.parse(st) {
            Some(m) => {
                let ghost k = self.first.spec_parse(st@)->Some_0;
                let rest = skip_chars(st, m.len, Ghost(k));
                match self.second.parse(rest) {
                    Some(m2) => {
                        let total = byte_len(st);
                        proof {
                            let k2 = self.second.spec_parse(rest@)->Some_0;
                            lemma_prefix_len_add(st@, k, k2);
                            lemma_prefix_len_bound(st@, k + k2);
                        }
                        Some(Match { len: m.len + m2.len })
                    },
                    None => None,
                }
            },
            None => None,
        }
    }
}

impl<F: AlwaysAtom, S: AlwaysAtom> AlwaysAtom for Sequence<F, S> {
    proof fn lemma_always_matches(&self, st: Seq<char>) {
        self.first.lemma_always_matches(st);
        let k = self.first.spec_parse(st)->Some_0;
        self.second.lemma_always_matches(st.skip(k as int));
    }

    fn parse_always(&self, st: &str) -> (r: Match) {
        let m = self.first.parse_always(st);
        let ghost k = self.first.spec_parse(st@)->Some_0;
        let rest = skip_chars(st, m.len, Ghost(k));
        let m2 = self.second.parse_always(rest);
        let total = byte_len(st);
        proof {
            let k2 = self.second.spec_parse(rest@)->Some_0;
            lemma_prefix_len_add(st@, k, k2);
            lemma_prefix_len_bound(st@, k + k2);
        }
        Match { len: m.len + m2.len }
    }
}

impl<F: Atom, S: Atom> Atom for Or<F, S> {
    open spec fn spec_parse(&self, st: Seq<char>) -> Option<nat> {
        match self.first.spec_parse(st) {
            Some(k) => Some(k),
            None => self.second.spec_parse(st),
        }
    }

    open spec fn can_parse(&self, st: Seq<char>) -> bool {
        self.first.can_parse(st) && (self.first.spec_parse(st) is None ==> self.second.can_parse(st))
    }

    fn parse(&self, st: &str) -> (r: Option<Match>) {
        match self.first.parse(st) {
            Some(m) => Some(m),
            None => self.second.parse(st),
        }
    }
}

impl<F: AlwaysAtom, S: Atom> AlwaysAtom for Or<F, S> {
    proof fn lemma_always_matches(&self, st: Seq<char>) {
        self.first.lemma_always_matches(st);
    }

    fn parse_always(&self, st: &str) -> (r: Match) {
        self.first.parse_always(st)
    }
}

/// Matches any single character.
///
/// It is exactly the opposite of [`EOFChar`].
#[derive(Debug, Copy, Clone, Default)]
pub struct AnyChar;

impl Atom for AnyChar {
    open spec fn spec_parse(&self, st: Seq<char>) -> Option<nat> {
        if st.len() > 0 {
            Some(1)
        } else {
            None
        }
    }

    fn parse(&self, st: &str) -> (r: Option<Match>) {
        match first_char(st) {
            Some(c) => {
                proof {
                    lemma_prefix_len_one(st@);
                }
                Some(Match { len: char_len(c) })
            },
            None => None,
        }
    }
}

/// Discards empty strings from a match.
///
/// Some atoms that needs to match an undefined number of other atoms (like [`Repeat`] or
/// [`LazyRepeat`]) may enter in an infinite loop if the inner atom matches an empty string `""`.
/// This atom takes another atom and converts any match with an empty string with a missing
/// match, avoiding so the issue.
#[derive(Debug, Clone, Copy, Default)]
pub struct NonEmpty<P>(pub P);

impl<P: Atom> Atom for NonEmpty<P> {
    open spec fn spec_parse(&self, st: Seq<char>) -> Option<nat> {
        match self.0.spec_parse(st) {
            Some(k) => if k > 0 {
                Some(k)
            } else {
                None
            },
            None => None,
        }
    }

    open spec fn can_parse(&self, st: Seq<char>) -> bool {
        self.0.can_parse(st)
    }

    fn parse(&self, st: &str) -> (r: Option<Match>) {
        match self.0.parse(st) {
            Some(mtc) => {
                if mtc.len > 0 {
                    Some(mtc)
                } else {
                    proof {
                        let k = self.0.spec_parse(st@)->Some_0;
                        if k > 0 {
                            lemma_prefix_len_positive(st@, k);
                        }
                    }
                    None
                }
            },
            None => None,
        }
    }
}

/// Matches the empty string, therefore it always matches.
#[derive(Debug, Clone, Copy, Default)]
pub struct TrueAtom;

impl AlwaysAtom for TrueAtom {
    proof fn lemma_always_matches(&self, st: Seq<char>) {
    }

    fn parse_always(&self, st: &str) -> (r: Match) {
        proof {
            lemma_prefix_len_zero(st@);
        }
        Match { len: 0 }
    }
}

impl Atom for TrueAtom {
    open spec fn spec_parse(&self, st: Seq<char>) -> Option<nat> {
        Some(0)
    }

    fn parse(&self, st: &str) -> (r: Option<Match>) {
        Some(self.parse_always(st))
    }
}

/// Repeat atom with the specified limits without a separator.
pub fn repeat_bounds<T>(atom: T, min: usize, max: usize) -> (r: Repeat<T, TrueAtom>)
    requires
        min <= max,
    ensures
        r.atom() == atom,
        r.sep() == TrueAtom,
        r.min() == min,
        r.max() == Some(max),
{
    Repeat::new_bounds(atom, TrueAtom, min, max)
}

/// Repeat atom with the specified minimum without a separator.
pub fn repeat_unbounded<T>(atom: T, min: usize) -> (r: Repeat<T, TrueAtom>)
    ensures
        r.atom() == atom,
        r.sep() == TrueAtom,
        r.min() == min,
        r.max() == None::<usize>,
{
    Repeat::new_unbounded(atom, TrueAtom, min)
}

impl<T: Atom, SEP: Atom> Atom for Repeat<T, SEP> {
    open spec fn spec_parse(&self, st: Seq<char>) -> Option<nat> {
        repeat_spec(self.atom(), self.sep(), self.min(), self.max(), st)
    }

    open spec fn can_parse(&self, st: Seq<char>) -> bool {
        repeat_can(self.atom(), self.sep(), self.min(), self.max(), st)
    }

    fn parse(&self, st: &str) -> (r: Option<Match>) {
        self.parse_logic(st, &mut Vec::new())
    }
}

/// Repeat atom at most `max` times without a separator.
pub fn repeat_any_bounds<T>(atom: T, max: usize) -> (r: RepeatAny<T, TrueAtom>)
    ensures
        r.atom() == atom,
        r.sep() == TrueAtom,
        r.max() == Some(max),
{
    RepeatAny::new_bounds(atom, TrueAtom, max)
}

/// Repeat atom without limits and without a separator.
pub fn repeat_any_unbounded<T>(atom: T) -> (r: RepeatAny<T, TrueAtom>)
    ensures
        r.atom() == atom,
        r.sep() == TrueAtom,
        r.max() == None::<usize>,
{
    RepeatAny::new_unbounded(atom, TrueAtom)
}

impl<T: Atom, SEP: Atom> AlwaysAtom for RepeatAny<T, SEP> {
    proof fn lemma_always_matches(&self, st: Seq<char>) {
    }

    fn parse_always(&self, st: &str) -> (r: Match) {
        self.parse_logic(st, &mut Vec::new()).unwrap()
    }
}

impl<T: Atom, SEP: Atom> Atom for RepeatAny<T, SEP> {
    open spec fn spec_parse(&self, st: Seq<char>) -> Option<nat> {
        repeat_spec(self.atom(), self.sep(), 0, self.max(), st)
    }

    open spec fn can_parse(&self, st: Seq<char>) -> bool {
        repeat_can(self.atom(), self.sep(), 0, self.max(), st)
    }

    fn parse(&self, st: &str) -> (r: Option<Match>) {
        Some(self.parse_always(st))
    }
}

impl<T: Atom, SEP: Atom, TERM: Atom> Atom for LazyRepeat<T, SEP, TERM> {
    open spec fn spec_parse(&self, st: Seq<char>) -> Option<nat> {
        lazy_spec(self.atom(), self.sep(), self.term(), self.min(), self.max(), st)
    }

    open spec fn can_parse(&self, st: Seq<char>) -> bool {
        lazy_can(self.atom(), self.sep(), self.term(), self.min(), self.max(), st)
    }

    fn parse(&self, st: &str) -> (r: Option<Match>) {
        self.parse_logic(st, &mut Vec::new())
    }
}

impl<T: Atom, SEP: Atom, TERM: Atom> Atom for LazyRepeatAny<T, SEP, TERM> {
    open spec fn spec_parse(&self, st: Seq<char>) -> Option<nat> {
        lazy_spec(self.atom(), self.sep(), self.term(), 0, self.max(), st)
    }

    open spec fn can_parse(&self, st: Seq<char>) -> bool {
        lazy_can(self.atom(), self.sep(), self.term(), 0, self.max(), st)
    }

    fn parse(&self, st: &str) -> (r: Option<Match>) {
        self.parse_logic(st, &mut Vec::new())
    }
}

/// Tool that matches characters which satisfies the provided predicate.
///
/// See also [`PredicateRefAtom`].
#[derive(Debug, Clone, Copy)]
pub struct PredicateAtom<P> {
    pub(crate) predicate: P,
}

impl<P: Fn(char) -> bool> PredicateAtom<P> {
    /// The predicate tested by this atom.
    pub closed spec fn pred(self) -> P {
        self.predicate
    }

    /// Create a new [`PredicateAtom`] from a predicate.
    pub fn new(predicate: P) -> (r: Self)
        ensures
            r.pred() == predicate,
    {
        Self { predicate }
    }

    /// Creates an atom that matches zero or more occurrences of characters that satisfy the
    /// specified predicate.
    pub fn new_zero_or_more(predicate: P) -> (r: RepeatAny<Self, TrueAtom>)
        ensures
            r.atom().pred() == predicate,
            r.sep() == TrueAtom,
            r.max() == None::<usize>,
    {
        repeat_any_unbounded(Self::new(predicate))
    }

    /// Creates an atom that matches one or more occurrences of characters that satisfy the
    /// specified predicate.
    pub fn new_one_or_more(predicate: P) -> (r: Repeat<Self, TrueAtom>)
        ensures
            r.atom().pred() == predicate,
            r.sep() == TrueAtom,
            r.min() == 1,
            r.max() == None::<usize>,
    {
        repeat_unbounded(Self::new(predicate), 1)
    }

    /// Tests if the first character satisfy the predicate, and in the affirmative case the
    /// matched character and its length are returned.
    pub fn parse_char(&self, st: &str) -> (r: Option<(char, usize)>)
        requires
            char_pred_ok(self.pred()),
        ensures
            if st@.len() > 0 && char_pred(self.pred(), st@[0]) {
                r == Some((st@[0], prefix_len(st@, 1) as usize))
            } else {
                r == None::<(char, usize)>
            },
    {
        match first_char(st) {
            Some(c) => {
                if (self.predicate)(c) {
                    proof {
                        lemma_prefix_len_one(st@);
                    }
                    Some((c, char_len(c)))
                } else {
                    None
                }
            },
            None => None,
        }
    }
}

impl<P: Fn(char) -> bool> Atom for PredicateAtom<P> {
    open spec fn spec_parse(&self, st: Seq<char>) -> Option<nat> {
        if st.len() > 0 && char_pred(self.pred(), st[0]) {
            Some(1)
        } else {
            None
        }
    }

    open spec fn can_parse(&self, st: Seq<char>) -> bool {
        char_pred_ok(self.pred())
    }

    fn parse(&self, st: &str) -> (r: Option<Match>) {
        proof {
            if st@.len() > 0 {
                lemma_prefix_len_one(st@);
                lemma_utf8_len_single(st@[0]);
            }
        }
        match self.parse_char(st) {
            Some((_, len)) => Some(Match { len }),
            None => None,
        }
    }
}

/// Tool that matches characters which satisfies the provided ref predicate.
///
/// See also [`PredicateAtom`].
#[derive(Debug, Clone, Copy)]
pub struct PredicateRefAtom<P> {
    pub(crate) predicate: P,
}

impl<P: Fn(&char) -> bool> PredicateRefAtom<P> {
    /// The predicate tested by this atom.
    pub closed spec fn pred(self) -> P {
        self.predicate
    }

    /// Create a new [`PredicateRefAtom`] from a predicate.
    pub fn new(predicate: P) -> (r: Self)
        ensures
            r.pred() == predicate,
    {
        Self { predicate }
    }

    /// Creates an atom that matches zero or more occurrences of characters that satisfy the
    /// specified predicate.
    pub fn new_zero_or_more(predicate: P) -> (r: RepeatAny<Self, TrueAtom>)
        ensures
            r.atom().pred() == predicate,
            r.sep() == TrueAtom,
            r.max() == None::<usize>,
    {
        repeat_any_unbounded(Self::new(predicate))
    }

    /// Creates an atom that matches one or more occurrences of characters that satisfy the
    /// specified predicate.
    pub fn new_one_or_more(predicate: P) -> (r: Repeat<Self, TrueAtom>)
        ensures
            r.atom().pred() == predicate,
            r.sep() == TrueAtom,
            r.min() == 1,
            r.max() == None::<usize>,
    {
        repeat_unbounded(Self::new(predicate), 1)
    }

    /// Tests if the first character satisfy the predicate, and in the affirmative case the
    /// matched character and its length are returned.
    pub fn parse_char(&self, st: &str) -> (r: Option<(char, usize)>)
        requires
            ref_pred_ok(self.pred()),
        ensures
            if st@.len() > 0 && ref_pred(self.pred(), st@[0]) {
                r == Some((st@[0], prefix_len(st@, 1) as usize))
            } else {
                r == None::<(char, usize)>
            },
    {
        match first_char(st) {
            Some(c) => {
                if (self.predicate)(&c) {
                    proof {
                        lemma_prefix_len_one(st@);
                    }
                    Some((c, char_len(c)))
                } else {
                    None
                }
            },
            None => None,
        }
    }
}

impl<P: Fn(&char) -> bool> Atom for PredicateRefAtom<P> {
    open spec fn spec_parse(&self, st: Seq<char>) -> Option<nat> {
        if st.len() > 0 && ref_pred(self.pred(), st[0]) {
            Some(1)
        } else {
            None
        }
    }

    open spec fn can_parse(&self, st: Seq<char>) -> bool {
        ref_pred_ok(self.pred())
    }

    fn parse(&self, st: &str) -> (r: Option<Match>) {
        proof {
            if st@.len() > 0 {
                lemma_prefix_len_one(st@);
                lemma_utf8_len_single(st@[0]);
            }
        }
        match self.parse_char(st) {
            Some((_, len)) => Some(Match { len }),
            None => None,
        }
    }
}

/// [`AnyChar`] is exactly the opposite of [`EOFChar`]: on every input, one matches if and only
/// if the other misses.
pub proof fn law_any_char_opposite_of_eof(st: Seq<char>)
    ensures
        AnyChar.spec_parse(st) is Some <==> EOFChar.spec_parse(st) is None,
{
}

/// [`Check`] matches exactly where its atom matches, and never progresses; [`CheckInv`] matches
/// exactly where its atom misses, and never progresses.
pub proof fn law_checks<T: Atom>(t: T, st: Seq<char>)
    ensures
        Check(t).spec_parse(st) is Some <==> t.spec_parse(st) is Some,
        Check(t).spec_parse(st) matches Some(k) ==> k == 0,
        CheckInv(t).spec_parse(st) is Some <==> t.spec_parse(st) is None,
        CheckInv(t).spec_parse(st) matches Some(k) ==> k == 0,
{
}

/// [`Or`] tries `first` before `second`: where `first` matches, its match is the result, and
/// `second` is tried only where `first` misses.
pub proof fn law_or_first_wins<F: Atom, S: Atom>(o: Or<F, S>, st: Seq<char>)
    ensures
        o.first.spec_parse(st) is Some ==> o.spec_parse(st) == o.first.spec_parse(st),
        o.first.spec_parse(st) is None ==> o.spec_parse(st) == o.second.spec_parse(st),
{
}

/// A [`LazyRepeat`] without a minimum number of repetitions stops at the first match of its
/// terminator: where the terminator matches at once, the match is the terminator's.
pub proof fn law_lazy_stops_at_term<T: Atom, SEP: Atom, TERM: Atom>(l: LazyRepeat<T, SEP, TERM>, st: Seq<char>)
    requires
        l.min() == 0,
        l.term().spec_parse(st) is Some,
    ensures
        l.spec_parse(st) == l.term().spec_parse(st),
{
}

/// A maximum is an upper bound on the repetitions: with no minimum and a maximum of zero,
/// [`Repeat`] and [`RepeatAny`] match the empty prefix only, and [`LazyRepeat`] and
/// [`LazyRepeatAny`] match exactly where their terminator matches, with its match.
pub proof fn law_zero_max_repeats_nothing<T: Atom, SEP: Atom, TERM: Atom>(r: Repeat<T, SEP>, a: RepeatAny<T, SEP>, l: LazyRepeat<T, SEP, TERM>, la: LazyRepeatAny<T, SEP, TERM>, st: Seq<char>)
    requires
        r.min() == 0,
        r.max() == Some(0usize),
        a.max() == Some(0usize),
        l.min() == 0,
        l.max() == Some(0usize),
        la.max() == Some(0usize),
    ensures
        r.spec_parse(st) == Some(0nat),
        a.spec_parse(st) == Some(0nat),
        l.spec_parse(st) == l.term().spec_parse(st),
        la.spec_parse(st) == la.term().spec_parse(st),
{
}

/// A [`PredicateAtom`] matches exactly one character, the first one, where its predicate answers
/// `true` on it, and misses where it answers `false` or the input is empty.
pub proof fn law_predicate_atom<P: Fn(char) -> bool>(a: PredicateAtom<P>, st: Seq<char>)
    requires
        char_pred_ok(a.pred()),
    ensures
        st.len() > 0 && call_ensures(a.pred(), (st[0],), true) ==> a.spec_parse(st) == Some(1nat),
        st.len() > 0 && call_ensures(a.pred(), (st[0],), false) ==> a.spec_parse(st) is None,
        st.len() == 0 ==> a.spec_parse(st) is None,
{
}

/// A [`PredicateRefAtom`] matches exactly one character, the first one, where its predicate
/// answers `true` on it, and misses where it answers `false` or the input is empty.
pub proof fn law_predicate_ref_atom<P: Fn(&char) -> bool>(a: PredicateRefAtom<P>, st: Seq<char>)
    requires
        ref_pred_ok(a.pred()),
    ensures
        st.len() > 0 && call_ensures(a.pred(), (&st[0],), true) ==> a.spec_parse(st) == Some(1nat),
        st.len() > 0 && call_ensures(a.pred(), (&st[0],), false) ==> a.spec_parse(st) is None,
        st.len() == 0 ==> a.spec_parse(st) is None,
{
}

/// Where a [`Repeat`] (with its minimum at most its maximum) matches, it matches what
/// [`RepeatAny`] of the same atom, separator and maximum matches: the repetitions beyond the
/// minimum are still taken greedily, up to the maximum.
pub proof fn law_repeat_min_keeps_greedy<T: Atom, SEP: Atom>(r: Repeat<T, SEP>, a: RepeatAny<T, SEP>, st: Seq<char>)
    requires
        r.min() > 0,
        r.max() matches Some(m) ==> r.min() <= m,
        a.atom() == r.atom(),
        a.sep() == r.sep(),
        a.max() == r.max(),
        r.spec_parse(st) is Some,
    ensures
        r.spec_parse(st) == a.spec_parse(st),
{
    crate::chains::law_repeat_min_keeps_greedy(r.atom(), r.sep(), r.min(), r.max(), st);
}

/// A [`RepeatAny`] without a maximum is greedy: it takes the first item where the atom matches,
/// and stops only where no separator followed by the atom matches any further characters of
/// what remains.
pub proof fn law_repeat_any_greedy<T: Atom, SEP: Atom>(a: RepeatAny<T, SEP>, st: Seq<char>)
    requires
        a.max() is None,
    ensures
        a.spec_parse(st) is Some,
        a.spec_parse(st)->Some_0 <= st.len(),
        match a.atom().spec_parse(st) {
            Some(k) => k <= st.len() ==> a.spec_parse(st)->Some_0 >= k,
            None => a.spec_parse(st)->Some_0 == 0,
        },
        a.atom().spec_parse(st) matches Some(k) && k <= st.len() ==> {
            let n = a.spec_parse(st)->Some_0;
            let rest = st.skip(n as int);
            match a.sep().spec_parse(rest) {
                Some(x) => x <= rest.len() ==> match a.atom().spec_parse(rest.skip(x as int)) {
                    Some(y) => x + y == 0 || x + y > rest.len(),
                    None => true,
                },
                None => true,
            }
        },
{
    crate::chains::law_repeat_greedy(a.atom(), a.sep(), st);
}

/// A [`LazyRepeat`] match is repetitions followed by a match of the terminator: some `b`
/// characters, within the match, after which the terminator matches the rest of the match;
/// where `b` is not zero the atom matches at the start within them, and, without a minimum, the
/// terminator misses at the start.
pub proof fn law_lazy_repeat_ends_with_term<T: Atom, SEP: Atom, TERM: Atom>(l: LazyRepeat<T, SEP, TERM>, st: Seq<char>)
    ensures
        l.spec_parse(st) matches Some(n) ==> exists|b: nat| #![trigger st.skip(b as int)] {
            &&& b <= n
            &&& b <= st.len()
            &&& l.term().spec_parse(st.skip(b as int)) == Some((n - b) as nat)
            &&& b > 0 ==> (l.atom().spec_parse(st) matches Some(k) && k <= b)
            &&& b > 0 && l.min() == 0 ==> l.term().spec_parse(st) is None
        },
{
    crate::chains::law_lazy_is_reps_then_term(l.atom(), l.sep(), l.term(), l.min(), l.max(), st);
    if let Some((b, t)) = crate::chains::lazy_split(l.atom(), l.sep(), l.term(), l.min(), l.max(), st) {
        assert(st.skip(b as int) == st.skip(b as int));
    }
}

/// A [`LazyRepeatAny`] match is repetitions followed by a match of the terminator: some `b`
/// characters, within the match, after which the terminator matches the rest of the match;
/// where `b` is not zero the terminator misses at the start and the atom matches there within
/// them.
pub proof fn law_lazy_repeat_any_ends_with_term<T: Atom, SEP: Atom, TERM: Atom>(l: LazyRepeatAny<T, SEP, TERM>, st: Seq<char>)
    ensures
        l.spec_parse(st) matches Some(n) ==> exists|b: nat| #![trigger st.skip(b as int)] {
            &&& b <= n
            &&& b <= st.len()
            &&& l.term().spec_parse(st.skip(b as int)) == Some((n - b) as nat)
            &&& b > 0 ==> (l.atom().spec_parse(st) matches Some(k) && k <= b)
            &&& b > 0 ==> l.term().spec_parse(st) is None
        },
{
    crate::chains::law_lazy_is_reps_then_term(l.atom(), l.sep(), l.term(), 0, l.max(), st);
    if let Some((b, t)) = crate::chains::lazy_split(l.atom(), l.sep(), l.term(), 0, l.max(), st) {
        assert(st.skip(b as int) == st.skip(b as int));
    }
}

/// A [`Sequence`] matches its first atom and then its second one on what follows, with the sum
/// of their lengths, and misses where either misses.
pub proof fn law_sequence<F: Atom, S: Atom>(q: Sequence<F, S>, st: Seq<char>)
    ensures
        match q.first.spec_parse(st) {
            Some(k) => q.spec_parse(st) == match q.second.spec_parse(st.skip(k as int)) {
                Some(k2) => Some(k + k2),
                None => None::<nat>,
            },
            None => q.spec_parse(st) is None,
        },
{
}

/// A [`RepeatAny`] that may take one repetition matches exactly the first item, and each
/// further repetition allowed adds exactly the separator and atom that match right after what
/// was matched, if they match.
pub proof fn law_repeat_any_one_more<T: Atom, SEP: Atom>(a: RepeatAny<T, SEP>, b: RepeatAny<T, SEP>, st: Seq<char>)
    requires
        b.atom() == a.atom(),
        b.sep() == a.sep(),
        a.max() matches Some(m) && 1 <= m < usize::MAX,
        b.max() == Some((a.max()->Some_0 + 1) as usize),
    ensures
        a.max() == Some(1usize) ==> a.spec_parse(st) == Some(match a.atom().spec_parse(st) {
            Some(k) => if k <= st.len() { k } else { 0 },
            None => 0,
        }),
        a.atom().spec_parse(st) matches Some(k) && k <= st.len() ==> {
            let n = a.spec_parse(st)->Some_0;
            let rest = st.skip(n as int);
            &&& n <= st.len()
            &&& b.spec_parse(st) == Some(n + match a.sep().spec_parse(rest) {
                Some(x) => if x <= rest.len() {
                    match a.atom().spec_parse(rest.skip(x as int)) {
                        Some(y) => if x + y <= rest.len() { x + y } else { 0 },
                        None => 0,
                    }
                } else {
                    0
                },
                None => 0,
            })
        },
{
    crate::chains::law_repeat_one_more(a.atom(), a.sep(), a.max()->Some_0, st);
}

/// A [`LazyRepeat`] stops at the first match of its terminator: where it matches with at most
/// `m` repetitions, allowing more repetitions gives the same match.
pub proof fn law_lazy_first_term_wins<T: Atom, SEP: Atom, TERM: Atom>(l: LazyRepeat<T, SEP, TERM>, l2: LazyRepeat<T, SEP, TERM>, st: Seq<char>)
    requires
        l2.atom() == l.atom(),
        l2.sep() == l.sep(),
        l2.term() == l.term(),
        l2.min() == l.min(),
        l.max() matches Some(m) && l2.max() matches Some(m2) && l.min() <= m <= m2,
        l.spec_parse(st) is Some,
    ensures
        l2.spec_parse(st) == l.spec_parse(st),
{
    crate::chains::law_lazy_first_term_wins(l.atom(), l.sep(), l.term(), l.min(), l.max()->Some_0, l2.max()->Some_0, st);
}

/// A [`LazyRepeatAny`] stops at the first match of its terminator: where it matches with at most
/// `m` repetitions, allowing more repetitions gives the same match.
pub proof fn law_lazy_any_first_term_wins<T: Atom, SEP: Atom, TERM: Atom>(l: LazyRepeatAny<T, SEP, TERM>, l2: LazyRepeatAny<T, SEP, TERM>, st: Seq<char>)
    requires
        l2.atom() == l.atom(),
        l2.sep() == l.sep(),
        l2.term() == l.term(),
        l.max() matches Some(m) && l2.max() matches Some(m2) && m <= m2,
        l.spec_parse(st) is Some,
    ensures
        l2.spec_parse(st) == l.spec_parse(st),
{
    crate::chains::law_lazy_first_term_wins(l.atom(), l.sep(), l.term(), 0, l.max()->Some_0, l2.max()->Some_0, st);
}

/// A [`LazyRepeat`] with a minimum takes at least that many repetitions before the terminator:
/// where it matches, a [`Repeat`] asking for exactly `min` items matches at the start, within
/// the match.
pub proof fn law_lazy_respects_min<T: Atom, SEP: Atom, TERM: Atom>(l: LazyRepeat<T, SEP, TERM>, r: Repeat<T, SEP>, st: Seq<char>)
    requires
        l.min() > 0,
        r.atom() == l.atom(),
        r.sep() == l.sep(),
        r.min() == l.min(),
        r.max() == Some(l.min()),
    ensures
        l.spec_parse(st) matches Some(n) ==> (r.spec_parse(st) matches Some(c) && c <= n),
{
    crate::chains::law_lazy_respects_min(l.atom(), l.sep(), l.term(), l.min(), l.max(), st);
}

} // verus!
