//! Combinators of atoms: sequences, alternatives, checks and repetitions.
//!
//! The structures are defined here together with what they match; their [`Atom`]
//! implementations are in [`atomlist`](crate::atomlist).
use vstd::prelude::*;
use crate::atoms::{Atom, Match};
use crate::view::{ParseTool, lazy_store, lazy_store_can, lazy_store_run};
use vstd::view::View as _;
use crate::text::{
    prefix_len, utf8_len, byte_len, skip_chars, lemma_prefix_len_zero, lemma_prefix_len_add,
    lemma_prefix_len_bound, lemma_skip_skip,
};

verus! {

/// Matches both the provided atoms, trying `first` before `second`.
pub struct Sequence<F, S> {
    /// The first atom to be checked
    pub first: F,
    /// The second atom to be checked.
    pub second: S,
}

impl<F, S> Sequence<F, S> {
    /// Creates a new `Sequence`.
    pub fn new(first: F, second: S) -> (r: Self)
        ensures
            r.first == first,
            r.second == second,
    {
        Self { first, second }
    }
}

/// Matches at least one of the provided atoms, trying `first` before `second`.
pub struct Or<F, S> {
    /// The first atom to be checked
    pub first: F,
    /// The second atom to be checked.
    ///
    /// If `first` matches then `second` would not be tested.
    pub second: S,
}

impl<F, S> Or<F, S> {
    /// Creates a new `Or`.
    pub fn new(first: F, second: S) -> (r: Self)
        ensures
            r.first == first,
            r.second == second,
    {
        Self { first, second }
    }
}

/// Only checks the provided atom, without progressing.
#[derive(Debug, Copy, Clone, Default)]
pub struct Check<T>(pub T);

/// Matches only if the provided atom doesn't match.
#[derive(Debug, Copy, Clone, Default)]
pub struct CheckInv<T>(pub T);

/// The separator and then the atom, on `st`: the number of characters they match together.
pub open spec fn atom_sep_then<T: Atom, S: Atom>(atom: T, sep: S, st: Seq<char>) -> Option<nat> {
    match sep.spec_parse(st) {
        Some(a) => if a <= st.len() {
            match atom.spec_parse(st.skip(a as int)) {
                Some(b) => Some(a + b),
                None => None,
            }
        } else {
            None
        },
        None => None,
    }
}

/// The separator, and the atom after it when the separator matches, can run on `st`.
pub open spec fn atom_sep_then_can<T: Atom, S: Atom>(atom: T, sep: S, st: Seq<char>) -> bool {
    sep.can_parse(st) && match sep.spec_parse(st) {
        Some(a) => a <= st.len() ==> atom.can_parse(st.skip(a as int)),
        None => true,
    }
}

/// Characters matched by at most `n` greedy repetitions of separator and atom.
pub open spec fn arep_bounded<T: Atom, S: Atom>(atom: T, sep: S, st: Seq<char>, n: nat) -> nat
    decreases n,
{
    if n == 0 {
        0
    } else {
        match atom_sep_then(atom, sep, st) {
            Some(k) => if k <= st.len() {
                k + arep_bounded(atom, sep, st.skip(k as int), (n - 1) as nat)
            } else {
                0
            },
            None => 0,
        }
    }
}

/// Every step of [`arep_bounded`] can run.
pub open spec fn arep_bounded_can<T: Atom, S: Atom>(atom: T, sep: S, st: Seq<char>, n: nat) -> bool
    decreases n,
{
    n == 0 || (atom_sep_then_can(atom, sep, st) && match atom_sep_then(atom, sep, st) {
        Some(k) => k <= st.len() ==> arep_bounded_can(atom, sep, st.skip(k as int), (n - 1) as nat),
        None => true,
    })
}

/// Characters matched by greedy repetitions of separator and atom, as many as match.
pub open spec fn arep_unbounded<T: Atom, S: Atom>(atom: T, sep: S, st: Seq<char>) -> nat
    decreases st.len(),
{
    match atom_sep_then(atom, sep, st) {
        Some(k) => if 0 < k <= st.len() {
            k + arep_unbounded(atom, sep, st.skip(k as int))
        } else {
            0
        },
        None => 0,
    }
}

/// Every step of [`arep_unbounded`] can run and consumes at least one character, so that the
/// repetition ends.
pub open spec fn arep_unbounded_can<T: Atom, S: Atom>(atom: T, sep: S, st: Seq<char>) -> bool
    decreases st.len(),
{
    atom_sep_then_can(atom, sep, st) && match atom_sep_then(atom, sep, st) {
        Some(k) => 0 < k && (k <= st.len() ==> arep_unbounded_can(atom, sep, st.skip(k as int))),
        None => true,
    }
}

/// Characters matched by greedy repetitions of separator and atom, at most `max` of them.
pub open spec fn arep_more<T: Atom, S: Atom>(atom: T, sep: S, st: Seq<char>, max: Option<nat>) -> nat {
    match max {
        Some(n) => arep_bounded(atom, sep, st, n),
        None => arep_unbounded(atom, sep, st),
    }
}

/// The repetitions of [`arep_more`] can run.
pub open spec fn arep_more_can<T: Atom, S: Atom>(atom: T, sep: S, st: Seq<char>, max: Option<nat>) -> bool {
    match max {
        Some(n) => arep_bounded_can(atom, sep, st, n),
        None => arep_unbounded_can(atom, sep, st),
    }
}

/// The number of atoms that [`arep_bounded`] matches.
pub open spec fn arep_bounded_count<T: Atom, S: Atom>(atom: T, sep: S, st: Seq<char>, n: nat) -> nat
    decreases n,
{
    if n == 0 {
        0
    } else {
        match atom_sep_then(atom, sep, st) {
            Some(k) => if k <= st.len() {
                1 + arep_bounded_count(atom, sep, st.skip(k as int), (n - 1) as nat)
            } else {
                0
            },
            None => 0,
        }
    }
}

/// The number of atoms that [`arep_unbounded`] matches.
pub open spec fn arep_unbounded_count<T: Atom, S: Atom>(atom: T, sep: S, st: Seq<char>) -> nat
    decreases st.len(),
{
    match atom_sep_then(atom, sep, st) {
        Some(k) => if 0 < k <= st.len() {
            1 + arep_unbounded_count(atom, sep, st.skip(k as int))
        } else {
            0
        },
        None => 0,
    }
}

/// The number of atoms that [`arep_more`] matches.
pub open spec fn arep_more_count<T: Atom, S: Atom>(atom: T, sep: S, st: Seq<char>, max: Option<nat>) -> nat {
    match max {
        Some(n) => arep_bounded_count(atom, sep, st, n),
        None => arep_unbounded_count(atom, sep, st),
    }
}

/// Exactly `n` repetitions of separator and atom: the characters they match, if they all match.
pub open spec fn arep_exact<T: Atom, S: Atom>(atom: T, sep: S, st: Seq<char>, n: nat) -> Option<nat>
    decreases n,
{
    if n == 0 {
        Some(0)
    } else {
        match atom_sep_then(atom, sep, st) {
            Some(k) => if k <= st.len() {
                match arep_exact(atom, sep, st.skip(k as int), (n - 1) as nat) {
                    Some(r) => Some(k + r),
                    None => None,
                }
            } else {
                None
            },
            None => None,
        }
    }
}

/// The number of repetitions left when `done` of at most `max` are done.
pub open spec fn left_after(max: Option<usize>, done: nat) -> Option<nat> {
    match max {
        Some(m) => Some(if m >= done {
            (m - done) as nat
        } else {
            0
        }),
        None => None,
    }
}

/// Greedy repetitions of `atom` separated by `sep`: at least `min` of them (else no match), and
/// at most `max`.
pub open spec fn repeat_spec<T: Atom, S: Atom>(atom: T, sep: S, min: usize, max: Option<usize>, st: Seq<char>) -> Option<nat> {
    if min > 0 {
        match atom.spec_parse(st) {
            Some(k) => if k <= st.len() {
                match arep_exact(atom, sep, st.skip(k as int), (min - 1) as nat) {
                    Some(k2) => if k + k2 <= st.len() {
                        Some(k + k2 + arep_more(atom, sep, st.skip((k + k2) as int), left_after(max, min as nat)))
                    } else {
                        None
                    },
                    None => None,
                }
            } else {
                None
            },
            None => None,
        }
    } else if max == Some(0usize) {
        Some(0)
    } else {
        match atom.spec_parse(st) {
            Some(k) => if k <= st.len() {
                Some(k + arep_more(atom, sep, st.skip(k as int), left_after(max, 1)))
            } else {
                Some(0)
            },
            None => Some(0),
        }
    }
}

/// The atoms that [`repeat_spec`] runs can run.
pub open spec fn repeat_can<T: Atom, S: Atom>(atom: T, sep: S, min: usize, max: Option<usize>, st: Seq<char>) -> bool {
    (min == 0 && max == Some(0usize)) || atom.can_parse(st) && match atom.spec_parse(st) {
        Some(k) => k <= st.len() ==> if min > 0 {
            &&& arep_bounded_can(atom, sep, st.skip(k as int), (min - 1) as nat)
            &&& match arep_exact(atom, sep, st.skip(k as int), (min - 1) as nat) {
                Some(k2) => k + k2 <= st.len() ==> arep_more_can(atom, sep, st.skip((k + k2) as int), left_after(max, min as nat)),
                None => true,
            }
        } else {
            arep_more_can(atom, sep, st.skip(k as int), left_after(max, 1))
        },
        None => true,
    }
}

/// The number of atoms that the repetition of [`repeat_spec`] matches, counted also when it
/// fails: those matched before the failure.
pub open spec fn repeat_count<T: Atom, S: Atom>(atom: T, sep: S, min: usize, max: Option<usize>, st: Seq<char>) -> nat {
    if min > 0 {
        match atom.spec_parse(st) {
            Some(k) => if k <= st.len() {
                1 + arep_bounded_count(atom, sep, st.skip(k as int), (min - 1) as nat) + match arep_exact(atom, sep, st.skip(k as int), (min - 1) as nat) {
                    Some(k2) => if k + k2 <= st.len() {
                        arep_more_count(atom, sep, st.skip((k + k2) as int), left_after(max, min as nat))
                    } else {
                        0
                    },
                    None => 0,
                }
            } else {
                0
            },
            None => 0,
        }
    } else if max == Some(0usize) {
        0
    } else {
        match atom.spec_parse(st) {
            Some(k) => if k <= st.len() {
                1 + arep_more_count(atom, sep, st.skip(k as int), left_after(max, 1))
            } else {
                0
            },
            None => 0,
        }
    }
}

/// Matches the separator and then the atom.
fn atom_sep_step<T: Atom, S: Atom>(atom: &T, sep: &S, st: &str) -> (r: Option<usize>)
    requires
        atom_sep_then_can(*atom, *sep, st@),
    ensures
        match atom_sep_then(*atom, *sep, st@) {
            Some(k) => k <= st@.len() && r == Some(prefix_len(st@, k) as usize) && prefix_len(st@, k) <= usize::MAX,
            None => r == None::<usize>,
        },
{
    match sep.parse(st) {
        Some(m) => {
            let ghost a = sep.spec_parse(st@)->Some_0;
            let rest = skip_chars(st, m.len, Ghost(a));
            match atom.parse(rest) {
                Some(m2) => {
                    let total = byte_len(st);
                    proof {
                        let b = atom.spec_parse(rest@)->Some_0;
                        lemma_prefix_len_add(st@, a, b);
                        lemma_prefix_len_bound(st@, a + b);
                    }
                    Some(m.len + m2.len)
                },
                None => None,
            }
        },
        None => None,
    }
}

/// Greedily matches separator and atom, at most `max` times; returns the matched bytes.
fn arepeat_more<T: Atom, S: Atom>(atom: &T, sep: &S, st: &str, max: Option<usize>, vec: &mut Vec<()>) -> (n: usize)
    requires
        arep_more_can(*atom, *sep, st@, opt_nat(max)),
    ensures
        arep_more(*atom, *sep, st@, opt_nat(max)) <= st@.len(),
        n == prefix_len(st@, arep_more(*atom, *sep, st@, opt_nat(max))),
        final(vec)@.len() == old(vec)@.len() + arep_more_count(*atom, *sep, st@, opt_nat(max)),
{
    let total = byte_len(st);
    let mut rest = st;
    let mut len: usize = 0;
    let ghost mut c: nat = 0;
    let ghost l0 = vec@.len();
    proof {
        lemma_prefix_len_zero(st@);
        assert(st@.skip(0) =~= st@);
    }
    match max {
        Some(m) => {
            let mut i: usize = 0;
            while i < m
                invariant
                    i <= m,
                    max == Some(m),
                    total == utf8_len(st@),
                    c <= st@.len(),
                    rest@ == st@.skip(c as int),
                    len == prefix_len(st@, c),
                    arep_bounded(*atom, *sep, st@, m as nat) == c + arep_bounded(*atom, *sep, rest@, (m - i) as nat),
                    arep_bounded_can(*atom, *sep, rest@, (m - i) as nat),
                    vec@.len() >= l0,
                    l0 == old(vec)@.len(),
                    arep_bounded_count(*atom, *sep, st@, m as nat) == (vec@.len() - l0) + arep_bounded_count(*atom, *sep, rest@, (m - i) as nat),
                decreases m - i,
            {
                match atom_sep_step(atom, sep, rest) {
                    Some(n) => {
                        let ghost k = atom_sep_then(*atom, *sep, rest@)->Some_0;
                        proof {
                            lemma_prefix_len_add(st@, c, k);
                            lemma_prefix_len_bound(st@, c + k);
                            lemma_skip_skip(st@, c, k);
                        }
                        rest = skip_chars(rest, n, Ghost(k));
                        len = len + n;
                        vec.push(());
                        proof {
                            c = c + k;
                        }
                        i = i + 1;
                    },
                    None => {
                        return len;
                    },
                }
            }
            len
        },
        None => {
            loop
                invariant
                    max == None::<usize>,
                    total == utf8_len(st@),
                    c <= st@.len(),
                    rest@ == st@.skip(c as int),
                    len == prefix_len(st@, c),
                    arep_unbounded(*atom, *sep, st@) == c + arep_unbounded(*atom, *sep, rest@),
                    arep_unbounded_can(*atom, *sep, rest@),
                    vec@.len() >= l0,
                    l0 == old(vec)@.len(),
                    arep_unbounded_count(*atom, *sep, st@) == (vec@.len() - l0) + arep_unbounded_count(*atom, *sep, rest@),
                decreases rest@.len(),
            {
                match atom_sep_step(atom, sep, rest) {
                    Some(n) => {
                        let ghost k = atom_sep_then(*atom, *sep, rest@)->Some_0;
                        proof {
                            lemma_prefix_len_add(st@, c, k);
                            lemma_prefix_len_bound(st@, c + k);
                            lemma_skip_skip(st@, c, k);
                        }
                        rest = skip_chars(rest, n, Ghost(k));
                        len = len + n;
                        vec.push(());
                        proof {
                            c = c + k;
                        }
                    },
                    None => {
                        return len;
                    },
                }
            }
        },
    }
}

/// Matches exactly `n` repetitions of separator and atom.
fn arepeat_exact<T: Atom, S: Atom>(atom: &T, sep: &S, st: &str, n: usize, vec: &mut Vec<()>) -> (r: Option<usize>)
    requires
        arep_bounded_can(*atom, *sep, st@, n as nat),
    ensures
        final(vec)@.len() == old(vec)@.len() + arep_bounded_count(*atom, *sep, st@, n as nat),
        match arep_exact(*atom, *sep, st@, n as nat) {
            Some(k) => k <= st@.len() && r == Some(prefix_len(st@, k) as usize) && prefix_len(st@, k) <= usize::MAX,
            None => r == None::<usize>,
        },
{
    let total = byte_len(st);
    let mut rest = st;
    let mut len: usize = 0;
    let ghost mut c: nat = 0;
    let mut i: usize = 0;
    let ghost l0 = vec@.len();
    proof {
        lemma_prefix_len_zero(st@);
        assert(st@.skip(0) =~= st@);
    }
    while i < n
        invariant
            i <= n,
            total == utf8_len(st@),
            c <= st@.len(),
            rest@ == st@.skip(c as int),
            len == prefix_len(st@, c),
            arep_exact(*atom, *sep, st@, n as nat) == match arep_exact(*atom, *sep, rest@, (n - i) as nat) {
                Some(r) => Some(c + r),
                None => None,
            },
            arep_bounded_can(*atom, *sep, rest@, (n - i) as nat),
            vec@.len() >= l0,
            l0 == old(vec)@.len(),
            arep_bounded_count(*atom, *sep, st@, n as nat) == (vec@.len() - l0) + arep_bounded_count(*atom, *sep, rest@, (n - i) as nat),
        decreases n - i,
    {
        match atom_sep_step(atom, sep, rest) {
            Some(m) => {
                let ghost k = atom_sep_then(*atom, *sep, rest@)->Some_0;
                proof {
                    lemma_prefix_len_add(st@, c, k);
                    lemma_prefix_len_bound(st@, c + k);
                    lemma_skip_skip(st@, c, k);
                }
                rest = skip_chars(rest, m, Ghost(k));
                len = len + m;
                vec.push(());
                proof {
                    c = c + k;
                }
                i = i + 1;
            },
            None => {
                return None;
            },
        }
    }
    proof {
        lemma_prefix_len_bound(st@, c);
    }
    Some(len)
}

/// An optional bound, as a natural number.
pub open spec fn opt_nat(max: Option<usize>) -> Option<nat> {
    match max {
        Some(m) => Some(m as nat),
        None => None,
    }
}

/// The number of repetitions left when `done` of at most `max` are done.
pub(crate) fn left_after_exec(max: Option<usize>, done: usize) -> (r: Option<usize>)
    ensures
        opt_nat(r) == left_after(max, done as nat),
{
    match max {
        Some(m) => Some(if m >= done {
            m - done
        } else {
            0
        }),
        None => None,
    }
}

/// Runs the repetition of [`repeat_spec`]; returns the matched bytes.
pub(crate) fn repeat_parse<T: Atom, S: Atom>(atom: &T, sep: &S, min: usize, max: Option<usize>, st: &str, vec: &mut Vec<()>) -> (r: Option<Match>)
    requires
        repeat_can(*atom, *sep, min, max, st@),
    ensures
        crate::atoms::atom_agrees(r, st@, repeat_spec(*atom, *sep, min, max, st@)),
        final(vec)@.len() == old(vec)@.len() + repeat_count(*atom, *sep, min, max, st@),
{
    let total = byte_len(st);
    proof {
        lemma_prefix_len_zero(st@);
    }
    if min == 0 {
        if let Some(m) = max {
            if m == 0 {
                return Some(Match { len: 0 });
            }
        }
    }
    match atom.parse(st) {
        Some(m) => {
            let ghost k = atom.spec_parse(st@)->Some_0;
            let rest = skip_chars(st, m.len, Ghost(k));
            vec.push(());
            if min > 0 {
                match arepeat_exact(atom, sep, rest, min - 1, vec) {
                    Some(mlen) => {
                        let ghost k2 = arep_exact(*atom, *sep, rest@, (min - 1) as nat)->Some_0;
                        proof {
                            lemma_prefix_len_add(st@, k, k2);
                            lemma_prefix_len_bound(st@, k + k2);
                            lemma_skip_skip(st@, k, k2);
                        }
                        let rest2 = skip_chars(rest, mlen, Ghost(k2));
                        let inc = arepeat_more(atom, sep, rest2, left_after_exec(max, min), vec);
                        proof {
                            let e = arep_more(*atom, *sep, rest2@, left_after(max, min as nat));
                            lemma_prefix_len_add(st@, k + k2, e);
                            lemma_prefix_len_bound(st@, k + k2 + e);
                        }
                        Some(Match { len: m.len + mlen + inc })
                    },
                    None => None,
                }
            } else {
                let inc = arepeat_more(atom, sep, rest, left_after_exec(max, 1), vec);
                proof {
                    let e = arep_more(*atom, *sep, rest@, left_after(max, 1));
                    lemma_prefix_len_add(st@, k, e);
                    lemma_prefix_len_bound(st@, k + e);
                }
                Some(Match { len: m.len + inc })
            }
        },
        None => {
            if min > 0 {
                None
            } else {
                Some(Match { len: 0 })
            }
        },
    }
}

/// Lazy repetitions of separator and atom, at most `n` of them, each tried only where `term`
/// does not match: the characters of the repetitions, and those of the final match of `term`.
pub open spec fn alazy_bounded<T: Atom, S: Atom, R: Atom>(atom: T, sep: S, term: R, st: Seq<char>, n: nat) -> Option<(nat, nat)>
    decreases n,
{
    match term.spec_parse(st) {
        Some(t) => Some((0, t)),
        None => if n == 0 {
            None
        } else {
            match atom_sep_then(atom, sep, st) {
                Some(k) => if k <= st.len() {
                    match alazy_bounded(atom, sep, term, st.skip(k as int), (n - 1) as nat) {
                        Some((b, t)) => Some((k + b, t)),
                        None => None,
                    }
                } else {
                    None
                },
                None => None,
            }
        },
    }
}

/// The atoms that [`alazy_bounded`] runs can run.
pub open spec fn alazy_bounded_can<T: Atom, S: Atom, R: Atom>(atom: T, sep: S, term: R, st: Seq<char>, n: nat) -> bool
    decreases n,
{
    term.can_parse(st) && (term.spec_parse(st) is None && n > 0 ==> atom_sep_then_can(atom, sep, st)
        && match atom_sep_then(atom, sep, st) {
        Some(k) => k <= st.len() ==> alazy_bounded_can(atom, sep, term, st.skip(k as int), (n - 1) as nat),
        None => true,
    })
}

/// Lazy repetitions of separator and atom, as many as needed for `term` to match: the
/// characters of the repetitions, and those of the match of `term`.
pub open spec fn alazy_unbounded<T: Atom, S: Atom, R: Atom>(atom: T, sep: S, term: R, st: Seq<char>) -> Option<(nat, nat)>
    decreases st.len(),
{
    match term.spec_parse(st) {
        Some(t) => Some((0, t)),
        None => match atom_sep_then(atom, sep, st) {
            Some(k) => if 0 < k <= st.len() {
                match alazy_unbounded(atom, sep, term, st.skip(k as int)) {
                    Some((b, t)) => Some((k + b, t)),
                    None => None,
                }
            } else {
                None
            },
            None => None,
        },
    }
}

/// The atoms that [`alazy_unbounded`] runs can run, and every repetition consumes at least one
/// character, so that the repetition ends.
pub open spec fn alazy_unbounded_can<T: Atom, S: Atom, R: Atom>(atom: T, sep: S, term: R, st: Seq<char>) -> bool
    decreases st.len(),
{
    term.can_parse(st) && (term.spec_parse(st) is None ==> atom_sep_then_can(atom, sep, st)
        && match atom_sep_then(atom, sep, st) {
        Some(k) => 0 < k && (k <= st.len() ==> alazy_unbounded_can(atom, sep, term, st.skip(k as int))),
        None => true,
    })
}

/// Lazy repetitions, at most `max` of them.
pub open spec fn alazy_more<T: Atom, S: Atom, R: Atom>(atom: T, sep: S, term: R, st: Seq<char>, max: Option<nat>) -> Option<(nat, nat)> {
    match max {
        Some(n) => alazy_bounded(atom, sep, term, st, n),
        None => alazy_unbounded(atom, sep, term, st),
    }
}

/// The atoms that [`alazy_more`] runs can run.
pub open spec fn alazy_more_can<T: Atom, S: Atom, R: Atom>(atom: T, sep: S, term: R, st: Seq<char>, max: Option<nat>) -> bool {
    match max {
        Some(n) => alazy_bounded_can(atom, sep, term, st, n),
        None => alazy_unbounded_can(atom, sep, term, st),
    }
}

/// The number of atoms that [`alazy_bounded`] matches, counted also when it fails.
pub open spec fn alazy_bounded_count<T: Atom, S: Atom, R: Atom>(atom: T, sep: S, term: R, st: Seq<char>, n: nat) -> nat
    decreases n,
{
    match term.spec_parse(st) {
        Some(t) => 0,
        None => if n == 0 {
            0
        } else {
            match atom_sep_then(atom, sep, st) {
                Some(k) => if k <= st.len() {
                    1 + alazy_bounded_count(atom, sep, term, st.skip(k as int), (n - 1) as nat)
                } else {
                    0
                },
                None => 0,
            }
        },
    }
}

/// The number of atoms that [`alazy_unbounded`] matches, counted also when it fails.
pub open spec fn alazy_unbounded_count<T: Atom, S: Atom, R: Atom>(atom: T, sep: S, term: R, st: Seq<char>) -> nat
    decreases st.len(),
{
    match term.spec_parse(st) {
        Some(t) => 0,
        None => match atom_sep_then(atom, sep, st) {
            Some(k) => if 0 < k <= st.len() {
                1 + alazy_unbounded_count(atom, sep, term, st.skip(k as int))
            } else {
                0
            },
            None => 0,
        },
    }
}

/// The number of atoms that [`alazy_more`] matches, counted also when it fails.
pub open spec fn alazy_more_count<T: Atom, S: Atom, R: Atom>(atom: T, sep: S, term: R, st: Seq<char>, max: Option<nat>) -> nat {
    match max {
        Some(n) => alazy_bounded_count(atom, sep, term, st, n),
        None => alazy_unbounded_count(atom, sep, term, st),
    }
}

/// Runs the lazy repetitions of [`alazy_more`]; returns the bytes of the repetitions and the
/// bytes of the whole match.
fn alazy_repeat<T: Atom, S: Atom, R: Atom>(atom: &T, sep: &S, term: &R, st: &str, max: Option<usize>, vec: &mut Vec<()>) -> (r: Option<(usize, usize)>)
    requires
        alazy_more_can(*atom, *sep, *term, st@, opt_nat(max)),
    ensures
        final(vec)@.len() == old(vec)@.len() + alazy_more_count(*atom, *sep, *term, st@, opt_nat(max)),
        match alazy_more(*atom, *sep, *term, st@, opt_nat(max)) {
            Some((b, t)) => b + t <= st@.len() && prefix_len(st@, b + t) <= usize::MAX
                && r == Some((prefix_len(st@, b) as usize, prefix_len(st@, b + t) as usize)),
            None => r == None::<(usize, usize)>,
        },
{
    let total = byte_len(st);
    let mut rest = st;
    let mut len: usize = 0;
    let ghost mut c: nat = 0;
    proof {
        lemma_prefix_len_zero(st@);
        assert(st@.skip(0) =~= st@);
    }
    let mut i: usize = 0;
    let ghost l0 = vec@.len();
    loop
        invariant
            total == utf8_len(st@),
            c <= st@.len(),
            rest@ == st@.skip(c as int),
            len == prefix_len(st@, c),
            max matches Some(m) ==> i <= m,
            alazy_more(*atom, *sep, *term, st@, opt_nat(max)) == match alazy_more(*atom, *sep, *term, rest@, match max {
                Some(m) => Some((m - i) as nat),
                None => None,
            }) {
                Some((b, t)) => Some((c + b, t)),
                None => None,
            },
            alazy_more_can(*atom, *sep, *term, rest@, match max {
                Some(m) => Some((m - i) as nat),
                None => None,
            }),
            vec@.len() >= l0,
            l0 == old(vec)@.len(),
            alazy_more_count(*atom, *sep, *term, st@, opt_nat(max)) == (vec@.len() - l0) + alazy_more_count(*atom, *sep, *term, rest@, match max {
                Some(m) => Some((m - i) as nat),
                None => None,
            }),
        decreases (match max {
            Some(m) => (m - i) as int,
            None => 0,
        }), rest@.len(),
    {
        match term.parse(rest) {
            Some(tm) => {
                proof {
                    let t = term.spec_parse(rest@)->Some_0;
                    lemma_prefix_len_add(st@, c, t);
                    lemma_prefix_len_bound(st@, c + t);
                }
                return Some((len, len + tm.len));
            },
            None => {
                if let Some(m) = max {
                    if i == m {
                        return None;
                    }
                }
                match atom_sep_step(atom, sep, rest) {
                    Some(n) => {
                        let ghost k = atom_sep_then(*atom, *sep, rest@)->Some_0;
                        proof {
                            lemma_prefix_len_add(st@, c, k);
                            lemma_prefix_len_bound(st@, c + k);
                            lemma_skip_skip(st@, c, k);
                        }
                        rest = skip_chars(rest, n, Ghost(k));
                        len = len + n;
                        vec.push(());
                        proof {
                            c = c + k;
                        }
                        if max.is_some() {
                            i = i + 1;
                        }
                    },
                    None => {
                        return None;
                    },
                }
            },
        }
    }
}

/// Lazy repetitions of `atom` separated by `sep` until `term` matches: at least `min`
/// repetitions before `term` is first tried, and at most `max`. The result gives the characters of the repetitions, and those of
/// the match of `term`.
pub open spec fn lazy_split<T: Atom, S: Atom, R: Atom>(atom: T, sep: S, term: R, min: usize, max: Option<usize>, st: Seq<char>) -> Option<(nat, nat)> {
    if min > 0 {
        match atom.spec_parse(st) {
            Some(k) => if k <= st.len() {
                match arep_exact(atom, sep, st.skip(k as int), (min - 1) as nat) {
                    Some(k2) => if k + k2 <= st.len() {
                        match alazy_more(atom, sep, term, st.skip((k + k2) as int), left_after(max, min as nat)) {
                            Some((b, t)) => Some((k + k2 + b, t)),
                            None => None,
                        }
                    } else {
                        None
                    },
                    None => None,
                }
            } else {
                None
            },
            None => None,
        }
    } else {
        match term.spec_parse(st) {
            Some(t) => Some((0, t)),
            None => if max == Some(0usize) {
                None
            } else {
                match atom.spec_parse(st) {
                    Some(k) => if k <= st.len() {
                        match alazy_more(atom, sep, term, st.skip(k as int), left_after(max, 1)) {
                            Some((b, t)) => Some((k + b, t)),
                            None => None,
                        }
                    } else {
                        None
                    },
                    None => None,
                }
            },
        }
    }
}

/// The characters matched by the lazy repetition of [`lazy_split`], the final `term` included.
pub open spec fn lazy_spec<T: Atom, S: Atom, R: Atom>(atom: T, sep: S, term: R, min: usize, max: Option<usize>, st: Seq<char>) -> Option<nat> {
    match lazy_split(atom, sep, term, min, max, st) {
        Some((b, t)) => Some(b + t),
        None => None,
    }
}

/// The atoms that [`lazy_split`] runs can run.
pub open spec fn lazy_can<T: Atom, S: Atom, R: Atom>(atom: T, sep: S, term: R, min: usize, max: Option<usize>, st: Seq<char>) -> bool {
    if min > 0 {
        atom.can_parse(st) && match atom.spec_parse(st) {
            Some(k) => k <= st.len() ==> {
                &&& arep_bounded_can(atom, sep, st.skip(k as int), (min - 1) as nat)
                &&& match arep_exact(atom, sep, st.skip(k as int), (min - 1) as nat) {
                    Some(k2) => k + k2 <= st.len() ==> alazy_more_can(atom, sep, term, st.skip((k + k2) as int), left_after(max, min as nat)),
                    None => true,
                }
            },
            None => true,
        }
    } else {
        term.can_parse(st) && (term.spec_parse(st) is None && max != Some(0usize) ==> atom.can_parse(st) && match atom.spec_parse(st) {
            Some(k) => k <= st.len() ==> alazy_more_can(atom, sep, term, st.skip(k as int), left_after(max, 1)),
            None => true,
        })
    }
}

/// The number of atoms that the lazy repetition of [`lazy_split`] matches, counted also when it
/// fails: those matched before the failure.
pub open spec fn lazy_count<T: Atom, S: Atom, R: Atom>(atom: T, sep: S, term: R, min: usize, max: Option<usize>, st: Seq<char>) -> nat {
    if min > 0 {
        match atom.spec_parse(st) {
            Some(k) => if k <= st.len() {
                1 + arep_bounded_count(atom, sep, st.skip(k as int), (min - 1) as nat) + match arep_exact(atom, sep, st.skip(k as int), (min - 1) as nat) {
                    Some(k2) => if k + k2 <= st.len() {
                        alazy_more_count(atom, sep, term, st.skip((k + k2) as int), left_after(max, min as nat))
                    } else {
                        0
                    },
                    None => 0,
                }
            } else {
                0
            },
            None => 0,
        }
    } else {
        match term.spec_parse(st) {
            Some(t) => 0,
            None => if max == Some(0usize) {
                0
            } else {
                match atom.spec_parse(st) {
                    Some(k) => if k <= st.len() {
                        1 + alazy_more_count(atom, sep, term, st.skip(k as int), left_after(max, 1))
                    } else {
                        0
                    },
                    None => 0,
                }
            },
        }
    }
}

/// Runs the lazy repetition of [`lazy_split`]; returns the bytes of the repetitions and the
/// bytes of the whole match.
pub(crate) fn lazy_parse_split<T: Atom, S: Atom, R: Atom>(atom: &T, sep: &S, term: &R, min: usize, max: Option<usize>, st: &str, vec: &mut Vec<()>) -> (r: Option<(usize, usize)>)
    requires
        lazy_can(*atom, *sep, *term, min, max, st@),
    ensures
        final(vec)@.len() == old(vec)@.len() + lazy_count(*atom, *sep, *term, min, max, st@),
        match lazy_split(*atom, *sep, *term, min, max, st@) {
            Some((b, t)) => b + t <= st@.len() && prefix_len(st@, b + t) <= usize::MAX
                && r == Some((prefix_len(st@, b) as usize, prefix_len(st@, b + t) as usize)),
            None => r == None::<(usize, usize)>,
        },
{
    let total = byte_len(st);
    proof {
        lemma_prefix_len_zero(st@);
    }
    if min > 0 {
        match atom.parse(st) {
            Some(m) => {
                let ghost k = atom.spec_parse(st@)->Some_0;
                let rest = skip_chars(st, m.len, Ghost(k));
                vec.push(());
                match arepeat_exact(atom, sep, rest, min - 1, vec) {
                    Some(mlen) => {
                        let ghost k2 = arep_exact(*atom, *sep, rest@, (min - 1) as nat)->Some_0;
                        proof {
                            lemma_prefix_len_add(st@, k, k2);
                            lemma_prefix_len_bound(st@, k + k2);
                            lemma_skip_skip(st@, k, k2);
                        }
                        let rest2 = skip_chars(rest, mlen, Ghost(k2));
                        match alazy_repeat(atom, sep, term, rest2, left_after_exec(max, min), vec) {
                            Some((blen, inc)) => {
                                proof {
                                    let (b, t) = alazy_more(*atom, *sep, *term, rest2@, left_after(max, min as nat))->Some_0;
                                    lemma_prefix_len_add(st@, k + k2, b);
                                    lemma_prefix_len_add(st@, k + k2, b + t);
                                    lemma_prefix_len_bound(st@, k + k2 + b + t);
                                    lemma_prefix_len_bound(st@, k + k2 + b);
                                }
                                Some((m.len + mlen + blen, m.len + mlen + inc))
                            },
                            None => None,
                        }
                    },
                    None => None,
                }
            },
            None => None,
        }
    } else {
        match term.parse(st) {
            Some(tm) => Some((0, tm.len)),
            None => if max == Some(0usize) {
                None
            } else {
                match atom.parse(st) {
                    Some(m) => {
                        let ghost k = atom.spec_parse(st@)->Some_0;
                        let rest = skip_chars(st, m.len, Ghost(k));
                        vec.push(());
                        match alazy_repeat(atom, sep, term, rest, left_after_exec(max, 1), vec) {
                            Some((blen, inc)) => {
                                proof {
                                    let (b, t) = alazy_more(*atom, *sep, *term, rest@, left_after(max, 1))->Some_0;
                                    lemma_prefix_len_add(st@, k, b);
                                    lemma_prefix_len_add(st@, k, b + t);
                                    lemma_prefix_len_bound(st@, k + b + t);
                                    lemma_prefix_len_bound(st@, k + b);
                                }
                                Some((m.len + blen, m.len + inc))
                            },
                            None => None,
                        }
                    },
                    None => None,
                }
            },
        }
    }
}

/// Runs the lazy repetition of [`lazy_spec`]; returns the matched bytes.
fn lazy_parse<T: Atom, S: Atom, R: Atom>(atom: &T, sep: &S, term: &R, min: usize, max: Option<usize>, st: &str, vec: &mut Vec<()>) -> (r: Option<Match>)
    requires
        lazy_can(*atom, *sep, *term, min, max, st@),
    ensures
        crate::atoms::atom_agrees(r, st@, lazy_spec(*atom, *sep, *term, min, max, st@)),
        final(vec)@.len() == old(vec)@.len() + lazy_count(*atom, *sep, *term, min, max, st@),
{
    match lazy_parse_split(atom, sep, term, min, max, st, vec) {
        Some((_, len)) => Some(Match { len }),
        None => None,
    }
}

/// Tool that matches repetitions with separator requiring a minimum number of repetitions.
#[derive(Debug, Clone, Copy)]
pub struct Repeat<T, SEP> {
    pub(crate) atom: T,
    pub(crate) sep: SEP,
    pub(crate) min: usize,
    pub(crate) max: Option<usize>,
}

impl<T, SEP> Repeat<T, SEP> {
    /// The repeated atom.
    pub closed spec fn atom(self) -> T {
        self.atom
    }

    /// The separator between repetitions.
    pub closed spec fn sep(self) -> SEP {
        self.sep
    }

    /// The minimum number of repetitions.
    pub closed spec fn min(self) -> usize {
        self.min
    }

    /// The maximum number of repetitions, if any.
    pub closed spec fn max(self) -> Option<usize> {
        self.max
    }

    /// Create a new [`Repeat`] with specified separator and upper bound.
    ///
    /// `max` must not be strictly less than `min`, because in such case no matches are possible.
    pub fn new_bounds(atom: T, sep: SEP, min: usize, max: usize) -> (r: Self)
        requires
            min <= max,
        ensures
            r.atom() == atom,
            r.sep() == sep,
            r.min() == min,
            r.max() == Some(max),
    {
        Self { atom, sep, min, max: Some(max) }
    }

    /// Create a new [`Repeat`] with specified separator without upper bound.
    pub fn new_unbounded(atom: T, sep: SEP, min: usize) -> (r: Self)
        ensures
            r.atom() == atom,
            r.sep() == sep,
            r.min() == min,
            r.max() == None::<usize>,
    {
        Self { atom, sep, min, max: None }
    }
}

/// Tool that matches repetitions with separator.
///
/// Like [`Repeat`] but without specifying a minimum number of repetitions. Therefore it will
/// always match.
#[derive(Debug, Clone, Copy)]
pub struct RepeatAny<T, SEP> {
    pub(crate) atom: T,
    pub(crate) sep: SEP,
    pub(crate) max: Option<usize>,
}

impl<T, SEP> RepeatAny<T, SEP> {
    /// The repeated atom.
    pub closed spec fn atom(self) -> T {
        self.atom
    }

    /// The separator between repetitions.
    pub closed spec fn sep(self) -> SEP {
        self.sep
    }

    /// The maximum number of repetitions, if any.
    pub closed spec fn max(self) -> Option<usize> {
        self.max
    }

    /// Create a new [`RepeatAny`] with specified separator.
    pub fn new(atom: T, sep: SEP, max: Option<usize>) -> (r: Self)
        ensures
            r.atom() == atom,
            r.sep() == sep,
            r.max() == max,
    {
        Self { atom, sep, max }
    }

    /// Create a new [`RepeatAny`] with specified separator and upper bound.
    pub fn new_bounds(atom: T, sep: SEP, max: usize) -> (r: Self)
        ensures
            r.atom() == atom,
            r.sep() == sep,
            r.max() == Some(max),
    {
        Self::new(atom, sep, Some(max))
    }

    /// Create a new [`RepeatAny`] with specified separator without upper bound.
    pub fn new_unbounded(atom: T, sep: SEP) -> (r: Self)
        ensures
            r.atom() == atom,
            r.sep() == sep,
            r.max() == None::<usize>,
    {
        Self::new(atom, sep, None)
    }
}

/// Tool that matches repetitions lazily.
///
/// It matches the least number of `T` atom (separated by `SEP`) which are followed by `TERM`
/// atom. The difference with respect to a [`Repeat`] followed by `TERM` is that here repetitions
/// are evaluated lazily: it interrupts at the first match of `TERM`, whereas `Repeat` evaluates
/// repetitions eagerly and so `TERM` is matched only after the repetition ends.
#[derive(Copy, Clone, Debug)]
pub struct LazyRepeat<T, SEP, TERM> {
    pub(crate) atom: T,
    pub(crate) sep: SEP,
    pub(crate) term: TERM,
    pub(crate) min: usize,
    pub(crate) max: Option<usize>,
}

impl<T, SEP, TERM> LazyRepeat<T, SEP, TERM> {
    /// The repeated atom.
    pub closed spec fn atom(self) -> T {
        self.atom
    }

    /// The separator between repetitions.
    pub closed spec fn sep(self) -> SEP {
        self.sep
    }

    /// The atom that ends the repetition.
    pub closed spec fn term(self) -> TERM {
        self.term
    }

    /// The minimum number of repetitions.
    pub closed spec fn min(self) -> usize {
        self.min
    }

    /// The maximum number of repetitions, if any.
    pub closed spec fn max(self) -> Option<usize> {
        self.max
    }

    /// Create a new `LazyRepeat` with specified upper bound.
    ///
    /// `max` must not be strictly less than `min`.
    pub fn new_bounds(atom: T, sep: SEP, term: TERM, min: usize, max: usize) -> (r: Self)
        requires
            min <= max,
        ensures
            r.atom() == atom,
            r.sep() == sep,
            r.term() == term,
            r.min() == min,
            r.max() == Some(max),
    {
        Self { atom, sep, term, min, max: Some(max) }
    }

    /// Create a new `LazyRepeat` without upper bound.
    pub fn new_unbounded(atom: T, sep: SEP, term: TERM, min: usize) -> (r: Self)
        ensures
            r.atom() == atom,
            r.sep() == sep,
            r.term() == term,
            r.min() == min,
            r.max() == None::<usize>,
    {
        Self { atom, sep, term, min, max: None }
    }
}

/// Like [`LazyRepeat`] but without a minimum number of repetitions.
#[derive(Copy, Clone, Debug)]
pub struct LazyRepeatAny<T, SEP, TERM> {
    pub(crate) atom: T,
    pub(crate) sep: SEP,
    pub(crate) term: TERM,
    pub(crate) max: Option<usize>,
}

impl<T, SEP, TERM> LazyRepeatAny<T, SEP, TERM> {
    /// The repeated atom.
    pub closed spec fn atom(self) -> T {
        self.atom
    }

    /// The separator between repetitions.
    pub closed spec fn sep(self) -> SEP {
        self.sep
    }

    /// The atom that ends the repetition.
    pub closed spec fn term(self) -> TERM {
        self.term
    }

    /// The maximum number of repetitions, if any.
    pub closed spec fn max(self) -> Option<usize> {
        self.max
    }

    /// Create a new `LazyRepeatAny` with specified upper bound.
    pub fn new_bounds(atom: T, sep: SEP, term: TERM, max: usize) -> (r: Self)
        ensures
            r.atom() == atom,
            r.sep() == sep,
            r.term() == term,
            r.max() == Some(max),
    {
        Self { atom, sep, term, max: Some(max) }
    }

    /// Create a new `LazyRepeatAny` without upper bound.
    pub fn new_unbounded(atom: T, sep: SEP, term: TERM) -> (r: Self)
        ensures
            r.atom() == atom,
            r.sep() == sep,
            r.term() == term,
            r.max() == None::<usize>,
    {
        Self { atom, sep, term, max: None }
    }
}


impl<T: Atom, SEP: Atom> Repeat<T, SEP> {
    /// Runs the repetition; one item goes into `vec` for each atom matched, also for those
    /// matched before a failure.
    pub(crate) fn parse_logic(&self, st: &str, vec: &mut Vec<()>) -> (r: Option<Match>)
        requires
            repeat_can(self.atom(), self.sep(), self.min(), self.max(), st@),
        ensures
            crate::atoms::atom_agrees(r, st@, repeat_spec(self.atom(), self.sep(), self.min(), self.max(), st@)),
            final(vec)@.len() == old(vec)@.len() + repeat_count(self.atom(), self.sep(), self.min(), self.max(), st@),
    {
        repeat_parse(&self.atom, &self.sep, self.min, self.max, st, vec)
    }
}

impl<T: Atom, SEP: Atom> RepeatAny<T, SEP> {
    /// Runs the repetition; one item goes into `vec` for each atom matched, also for those
    /// matched before a failure.
    pub(crate) fn parse_logic(&self, st: &str, vec: &mut Vec<()>) -> (r: Option<Match>)
        requires
            repeat_can(self.atom(), self.sep(), 0, self.max(), st@),
        ensures
            crate::atoms::atom_agrees(r, st@, repeat_spec(self.atom(), self.sep(), 0, self.max(), st@)),
            final(vec)@.len() == old(vec)@.len() + repeat_count(self.atom(), self.sep(), 0, self.max(), st@),
            r is Some,
    {
        repeat_parse(&self.atom, &self.sep, 0, self.max, st, vec)
    }
}

impl<T: Atom, SEP: Atom, TERM: Atom> LazyRepeat<T, SEP, TERM> {
    /// Runs the lazy repetition; one item goes into `vec` for each atom matched, also for those
    /// matched before a failure.
    pub(crate) fn parse_logic(&self, st: &str, vec: &mut Vec<()>) -> (r: Option<Match>)
        requires
            lazy_can(self.atom(), self.sep(), self.term(), self.min(), self.max(), st@),
        ensures
            crate::atoms::atom_agrees(r, st@, lazy_spec(self.atom(), self.sep(), self.term(), self.min(), self.max(), st@)),
            final(vec)@.len() == old(vec)@.len() + lazy_count(self.atom(), self.sep(), self.term(), self.min(), self.max(), st@),
    {
        lazy_parse(&self.atom, &self.sep, &self.term, self.min, self.max, st, vec)
    }
}

impl<T: Atom, SEP: Atom, TERM: Atom> LazyRepeatAny<T, SEP, TERM> {
    /// Runs the lazy repetition; one item goes into `vec` for each atom matched, also for those
    /// matched before a failure.
    pub(crate) fn parse_logic(&self, st: &str, vec: &mut Vec<()>) -> (r: Option<Match>)
        requires
            lazy_can(self.atom(), self.sep(), self.term(), 0, self.max(), st@),
        ensures
            crate::atoms::atom_agrees(r, st@, lazy_spec(self.atom(), self.sep(), self.term(), 0, self.max(), st@)),
            final(vec)@.len() == old(vec)@.len() + lazy_count(self.atom(), self.sep(), self.term(), 0, self.max(), st@),
    {
        lazy_parse(&self.atom, &self.sep, &self.term, 0, self.max, st, vec)
    }
}

impl<T, SEP, TERM> LazyRepeat<T, SEP, TERM> {
    /// Parse and store data in `vec`: the data of every repetition of the atom is pushed, also
    /// when the repetition ends in an error.
    pub fn parse_store<'a, F: Clone, E>(&self, st: crate::view::View<'a, F>, vec: &mut Vec<<T as ParseTool<'a, F>>::Data>) -> (r: Result<crate::view::View<'a, F>, E>)
        where T: ParseTool<'a, F, Error = E>, SEP: ParseTool<'a, F, Error = E>, TERM: ParseTool<'a, F, Error = E>
        requires
            lazy_store_can(self.atom(), self.sep(), self.term(), self.min(), self.max(), st),
        ensures
            final(vec)@.len() >= old(vec)@.len(),
            final(vec)@.take(old(vec)@.len() as int) == old(vec)@,
            lazy_store(self.atom(), self.sep(), self.term(), self.min(), self.max(), st, r, final(vec)@.skip(old(vec)@.len() as int)),
    {
        lazy_store_run(&self.atom, &self.sep, &self.term, self.min, self.max, st, vec)
    }
}

impl<T, SEP, TERM> LazyRepeatAny<T, SEP, TERM> {
    /// Parse and store data in `vec`: the data of every repetition of the atom is pushed, also
    /// when the repetition ends in an error.
    pub fn parse_store<'a, F: Clone, E>(&self, st: crate::view::View<'a, F>, vec: &mut Vec<<T as ParseTool<'a, F>>::Data>) -> (r: Result<crate::view::View<'a, F>, E>)
        where T: ParseTool<'a, F, Error = E>, SEP: ParseTool<'a, F, Error = E>, TERM: ParseTool<'a, F, Error = E>
        requires
            lazy_store_can(self.atom(), self.sep(), self.term(), 0, self.max(), st),
        ensures
            final(vec)@.len() >= old(vec)@.len(),
            final(vec)@.take(old(vec)@.len() as int) == old(vec)@,
            lazy_store(self.atom(), self.sep(), self.term(), 0, self.max(), st, r, final(vec)@.skip(old(vec)@.len() as int)),
    {
        lazy_store_run(&self.atom, &self.sep, &self.term, 0, self.max, st, vec)
    }
}

/// `m` repetitions of separator and atom that all match take no more than the characters there
/// are.
proof fn lemma_arep_exact_len<T: Atom, S: Atom>(atom: T, sep: S, s: Seq<char>, m: nat)
    requires
        arep_exact(atom, sep, s, m) is Some,
    ensures
        arep_exact(atom, sep, s, m)->Some_0 <= s.len(),
    decreases m,
{
    if m > 0 {
        let k = atom_sep_then(atom, sep, s)->Some_0;
        lemma_arep_exact_len(atom, sep, s.skip(k as int), (m - 1) as nat);
    }
}

/// Where `m` repetitions of separator and atom all match, at most `n >= m` greedy ones match
/// those `m` and then at most `n - m` more.
proof fn lemma_arep_bounded_split<T: Atom, S: Atom>(atom: T, sep: S, s: Seq<char>, m: nat, n: nat)
    requires
        m <= n,
        arep_exact(atom, sep, s, m) is Some,
    ensures
        arep_exact(atom, sep, s, m)->Some_0 <= s.len(),
        arep_bounded(atom, sep, s, n) == arep_exact(atom, sep, s, m)->Some_0
            + arep_bounded(atom, sep, s.skip(arep_exact(atom, sep, s, m)->Some_0 as int), (n - m) as nat),
    decreases m,
{
    lemma_arep_exact_len(atom, sep, s, m);
    if m == 0 {
        assert(s.skip(0) =~= s);
    } else {
        let k = atom_sep_then(atom, sep, s)->Some_0;
        let r = arep_exact(atom, sep, s.skip(k as int), (m - 1) as nat)->Some_0;
        lemma_arep_bounded_split(atom, sep, s.skip(k as int), (m - 1) as nat, (n - 1) as nat);
        lemma_skip_skip(s, k, r);
    }
}

/// Where separator and atom match nothing at `s`, any number of them match nothing there.
proof fn lemma_arep_exact_zero_step<T: Atom, S: Atom>(atom: T, sep: S, s: Seq<char>, j: nat)
    requires
        atom_sep_then(atom, sep, s) == Some(0nat),
    ensures
        arep_exact(atom, sep, s, j) == Some(0nat),
    decreases j,
{
    assert(s.skip(0) =~= s);
    if j > 0 {
        lemma_arep_exact_zero_step(atom, sep, s, (j - 1) as nat);
    }
}

/// Where `m` repetitions of separator and atom all match, the unbounded greedy repetitions match
/// those `m` and then the unbounded greedy repetitions that follow them.
proof fn lemma_arep_unbounded_split<T: Atom, S: Atom>(atom: T, sep: S, s: Seq<char>, m: nat)
    requires
        arep_exact(atom, sep, s, m) is Some,
    ensures
        arep_exact(atom, sep, s, m)->Some_0 <= s.len(),
        arep_unbounded(atom, sep, s) == arep_exact(atom, sep, s, m)->Some_0
            + arep_unbounded(atom, sep, s.skip(arep_exact(atom, sep, s, m)->Some_0 as int)),
    decreases m,
{
    lemma_arep_exact_len(atom, sep, s, m);
    if m == 0 {
        assert(s.skip(0) =~= s);
    } else {
        let k = atom_sep_then(atom, sep, s)->Some_0;
        if k == 0 {
            assert(s.skip(0) =~= s);
            lemma_arep_exact_zero_step(atom, sep, s, (m - 1) as nat);
        } else {
            let r = arep_exact(atom, sep, s.skip(k as int), (m - 1) as nat)->Some_0;
            lemma_arep_unbounded_split(atom, sep, s.skip(k as int), (m - 1) as nat);
            lemma_skip_skip(s, k, r);
        }
    }
}

/// Where a repetition with a minimum (at most its maximum) matches, it matches what the same
/// repetition without a minimum matches: the repetitions beyond the minimum are still taken
/// greedily, up to the maximum.
pub proof fn law_repeat_min_keeps_greedy<T: Atom, S: Atom>(atom: T, sep: S, min: usize, max: Option<usize>, st: Seq<char>)
    requires
        min > 0,
        max matches Some(m) ==> min <= m,
        repeat_spec(atom, sep, min, max, st) is Some,
    ensures
        repeat_spec(atom, sep, min, max, st) == repeat_spec(atom, sep, 0, max, st),
{
    let k = atom.spec_parse(st)->Some_0;
    let rest = st.skip(k as int);
    let k2 = arep_exact(atom, sep, rest, (min - 1) as nat)->Some_0;
    match max {
        Some(m) => {
            lemma_arep_bounded_split(atom, sep, rest, (min - 1) as nat, (m - 1) as nat);
        },
        None => {
            lemma_arep_unbounded_split(atom, sep, rest, (min - 1) as nat);
        },
    }
    lemma_skip_skip(st, k, k2);
}

/// After the characters that unbounded greedy repetitions match, no further separator and atom
/// match with progress.
proof fn lemma_arep_unbounded_stops<T: Atom, S: Atom>(atom: T, sep: S, s: Seq<char>)
    ensures
        arep_unbounded(atom, sep, s) <= s.len(),
        match atom_sep_then(atom, sep, s.skip(arep_unbounded(atom, sep, s) as int)) {
            Some(k) => k == 0 || k > s.len() - arep_unbounded(atom, sep, s),
            None => true,
        },
    decreases s.len(),
{
    match atom_sep_then(atom, sep, s) {
        Some(k) => if 0 < k <= s.len() {
            lemma_arep_unbounded_stops(atom, sep, s.skip(k as int));
            lemma_skip_skip(s, k, arep_unbounded(atom, sep, s.skip(k as int)));
        } else {
            assert(s.skip(0) =~= s);
        },
        None => {
            assert(s.skip(0) =~= s);
        },
    }
}

/// A repetition without a minimum nor a maximum is greedy: it takes the first item where the
/// atom matches, and stops only where no separator followed by the atom matches any further
/// characters of what remains.
pub proof fn law_repeat_greedy<T: Atom, S: Atom>(atom: T, sep: S, st: Seq<char>)
    ensures
        repeat_spec(atom, sep, 0, None, st) is Some,
        repeat_spec(atom, sep, 0, None, st)->Some_0 <= st.len(),
        match atom.spec_parse(st) {
            Some(k) => k <= st.len() ==> repeat_spec(atom, sep, 0, None, st)->Some_0 >= k,
            None => repeat_spec(atom, sep, 0, None, st)->Some_0 == 0,
        },
        atom.spec_parse(st) matches Some(k) && k <= st.len() ==> {
            let n = repeat_spec(atom, sep, 0, None, st)->Some_0;
            let rest = st.skip(n as int);
            match sep.spec_parse(rest) {
                Some(a) => a <= rest.len() ==> match atom.spec_parse(rest.skip(a as int)) {
                    Some(b) => a + b == 0 || a + b > rest.len(),
                    None => true,
                },
                None => true,
            }
        },
{
    match atom.spec_parse(st) {
        Some(k) => if k <= st.len() {
            let s1 = st.skip(k as int);
            lemma_arep_unbounded_stops(atom, sep, s1);
            lemma_skip_skip(st, k, arep_unbounded(atom, sep, s1));
        },
        None => {},
    }
}

/// Where at most `n` lazy repetitions end in a match of `term`, the repetitions stay within the
/// characters there are and `term` matches right after them.
proof fn lemma_alazy_bounded_ends<T: Atom, S: Atom, R: Atom>(atom: T, sep: S, term: R, s: Seq<char>, n: nat)
    requires
        alazy_bounded(atom, sep, term, s, n) is Some,
    ensures
        alazy_bounded(atom, sep, term, s, n)->Some_0.0 <= s.len(),
        term.spec_parse(s.skip(alazy_bounded(atom, sep, term, s, n)->Some_0.0 as int))
            == Some(alazy_bounded(atom, sep, term, s, n)->Some_0.1),
    decreases n,
{
    if term.spec_parse(s) is Some {
        assert(s.skip(0) =~= s);
    } else {
        let k = atom_sep_then(atom, sep, s)->Some_0;
        lemma_alazy_bounded_ends(atom, sep, term, s.skip(k as int), (n - 1) as nat);
        lemma_skip_skip(s, k, alazy_bounded(atom, sep, term, s.skip(k as int), (n - 1) as nat)->Some_0.0);
    }
}

/// Where unbounded lazy repetitions end in a match of `term`, the repetitions stay within the
/// characters there are and `term` matches right after them.
proof fn lemma_alazy_unbounded_ends<T: Atom, S: Atom, R: Atom>(atom: T, sep: S, term: R, s: Seq<char>)
    requires
        alazy_unbounded(atom, sep, term, s) is Some,
    ensures
        alazy_unbounded(atom, sep, term, s)->Some_0.0 <= s.len(),
        term.spec_parse(s.skip(alazy_unbounded(atom, sep, term, s)->Some_0.0 as int))
            == Some(alazy_unbounded(atom, sep, term, s)->Some_0.1),
    decreases s.len(),
{
    if term.spec_parse(s) is Some {
        assert(s.skip(0) =~= s);
    } else {
        let k = atom_sep_then(atom, sep, s)->Some_0;
        lemma_alazy_unbounded_ends(atom, sep, term, s.skip(k as int));
        lemma_skip_skip(s, k, alazy_unbounded(atom, sep, term, s.skip(k as int))->Some_0.0);
    }
}

proof fn lemma_alazy_more_ends<T: Atom, S: Atom, R: Atom>(atom: T, sep: S, term: R, s: Seq<char>, max: Option<nat>)
    requires
        alazy_more(atom, sep, term, s, max) is Some,
    ensures
        alazy_more(atom, sep, term, s, max)->Some_0.0 <= s.len(),
        term.spec_parse(s.skip(alazy_more(atom, sep, term, s, max)->Some_0.0 as int))
            == Some(alazy_more(atom, sep, term, s, max)->Some_0.1),
{
    match max {
        Some(n) => lemma_alazy_bounded_ends(atom, sep, term, s, n),
        None => lemma_alazy_unbounded_ends(atom, sep, term, s),
    }
}

/// A lazy repetition that matches is its repeated part followed by a match of the terminator:
/// the repeated part stays within the input, and the terminator matches, with the length given,
/// right after it. Where the repeated part is not empty, the atom matches at the start within
/// it, and, without a minimum, the terminator misses at the start.
pub proof fn law_lazy_is_reps_then_term<T: Atom, S: Atom, R: Atom>(atom: T, sep: S, term: R, min: usize, max: Option<usize>, st: Seq<char>)
    ensures
        lazy_split(atom, sep, term, min, max, st) matches Some((b, t)) ==> {
            &&& b <= st.len()
            &&& term.spec_parse(st.skip(b as int)) == Some(t)
            &&& b > 0 ==> (atom.spec_parse(st) matches Some(k) && k <= b)
            &&& b > 0 && min == 0 ==> term.spec_parse(st) is None
        },
{
    if lazy_split(atom, sep, term, min, max, st) is Some {
        if min > 0 {
            let k = atom.spec_parse(st)->Some_0;
            let rest = st.skip(k as int);
            let k2 = arep_exact(atom, sep, rest, (min - 1) as nat)->Some_0;
            lemma_alazy_more_ends(atom, sep, term, st.skip((k + k2) as int), left_after(max, min as nat));
            lemma_skip_skip(st, k, k2);
            lemma_skip_skip(st, k + k2, alazy_more(atom, sep, term, st.skip((k + k2) as int), left_after(max, min as nat))->Some_0.0);
        } else if term.spec_parse(st) is Some {
            assert(st.skip(0) =~= st);
        } else {
            let k = atom.spec_parse(st)->Some_0;
            lemma_alazy_more_ends(atom, sep, term, st.skip(k as int), left_after(max, 1));
            lemma_skip_skip(st, k, alazy_more(atom, sep, term, st.skip(k as int), left_after(max, 1))->Some_0.0);
        }
    }
}

/// Allowing one more greedy repetition adds exactly the separator and atom that match next, if
/// they match.
proof fn lemma_arep_bounded_one_more<T: Atom, S: Atom>(atom: T, sep: S, s: Seq<char>, n: nat)
    ensures
        arep_bounded(atom, sep, s, n) <= s.len(),
        arep_bounded(atom, sep, s, n + 1) == arep_bounded(atom, sep, s, n)
            + match atom_sep_then(atom, sep, s.skip(arep_bounded(atom, sep, s, n) as int)) {
                Some(k) => if k <= s.len() - arep_bounded(atom, sep, s, n) { k } else { 0 },
                None => 0,
            },
    decreases n,
{
    assert(s.skip(0) =~= s);
    if n == 0 {
        if let Some(k) = atom_sep_then(atom, sep, s) {
            assert(arep_bounded(atom, sep, s.skip(k as int), 0) == 0);
        }
    } else {
        match atom_sep_then(atom, sep, s) {
            Some(k) => if k <= s.len() {
                let s1 = s.skip(k as int);
                lemma_arep_bounded_one_more(atom, sep, s1, (n - 1) as nat);
                lemma_skip_skip(s, k, arep_bounded(atom, sep, s1, (n - 1) as nat));
                assert(arep_bounded(atom, sep, s, n) == k + arep_bounded(atom, sep, s1, (n - 1) as nat));
                assert(arep_bounded(atom, sep, s, n + 1) == k + arep_bounded(atom, sep, s1, n));
                assert((n - 1) as nat + 1 == n);
            } else {
                assert(arep_bounded(atom, sep, s, n) == 0);
                assert(arep_bounded(atom, sep, s, n + 1) == 0);
            },
            None => {
                assert(arep_bounded(atom, sep, s, n) == 0);
                assert(arep_bounded(atom, sep, s, n + 1) == 0);
            },
        }
    }
}

/// A repetition without a minimum that may take one repetition matches exactly the first item,
/// and each further repetition allowed adds exactly the separator and atom that match right
/// after what was matched, if they match.
pub proof fn law_repeat_one_more<T: Atom, S: Atom>(atom: T, sep: S, m: usize, st: Seq<char>)
    requires
        1 <= m < usize::MAX,
    ensures
        m == 1 ==> repeat_spec(atom, sep, 0, Some(m), st) == Some(match atom.spec_parse(st) {
            Some(k) => if k <= st.len() { k } else { 0 },
            None => 0,
        }),
        atom.spec_parse(st) matches Some(k) && k <= st.len() ==> {
            let n = repeat_spec(atom, sep, 0, Some(m), st)->Some_0;
            let rest = st.skip(n as int);
            &&& n <= st.len()
            &&& repeat_spec(atom, sep, 0, Some((m + 1) as usize), st) == Some(n + match sep.spec_parse(rest) {
                Some(x) => if x <= rest.len() {
                    match atom.spec_parse(rest.skip(x as int)) {
                        Some(y) => if x + y <= rest.len() { x + y } else { 0 },
                        None => 0,
                    }
                } else {
                    0
                },
                None => 0,
            })
        },
{
    match atom.spec_parse(st) {
        Some(k) => if k <= st.len() {
            let s1 = st.skip(k as int);
            lemma_arep_bounded_one_more(atom, sep, s1, (m - 1) as nat);
            lemma_skip_skip(st, k, arep_bounded(atom, sep, s1, (m - 1) as nat));
        } else {
        },
        None => {},
    }
    if m == 1 {
        if let Some(k) = atom.spec_parse(st) {
            assert(arep_bounded(atom, sep, st.skip(k as int), 0) == 0);
        }
    }
}

/// Where at most `n` lazy repetitions end in a match of the terminator, allowing more of them
/// changes nothing: the terminator found first is still the one found.
proof fn lemma_alazy_bounded_more<T: Atom, S: Atom, R: Atom>(atom: T, sep: S, term: R, s: Seq<char>, n: nat, n2: nat)
    requires
        n <= n2,
        alazy_bounded(atom, sep, term, s, n) is Some,
    ensures
        alazy_bounded(atom, sep, term, s, n2) == alazy_bounded(atom, sep, term, s, n),
    decreases n,
{
    if term.spec_parse(s) is None {
        let k = atom_sep_then(atom, sep, s)->Some_0;
        lemma_alazy_bounded_more(atom, sep, term, s.skip(k as int), (n - 1) as nat, (n2 - 1) as nat);
    }
}

/// A lazy repetition stops at the first match of its terminator: where it matches with at most
/// `m` repetitions, allowing more repetitions gives the same match.
pub proof fn law_lazy_first_term_wins<T: Atom, S: Atom, R: Atom>(atom: T, sep: S, term: R, min: usize, m: usize, m2: usize, st: Seq<char>)
    requires
        min <= m <= m2,
        lazy_split(atom, sep, term, min, Some(m), st) is Some,
    ensures
        lazy_split(atom, sep, term, min, Some(m2), st) == lazy_split(atom, sep, term, min, Some(m), st),
{
    if min > 0 {
        let k = atom.spec_parse(st)->Some_0;
        let k2 = arep_exact(atom, sep, st.skip(k as int), (min - 1) as nat)->Some_0;
        lemma_alazy_bounded_more(atom, sep, term, st.skip((k + k2) as int), (m - min) as nat, (m2 - min) as nat);
    } else if term.spec_parse(st) is None {
        let k = atom.spec_parse(st)->Some_0;
        lemma_alazy_bounded_more(atom, sep, term, st.skip(k as int), (m - 1) as nat, (m2 - 1) as nat);
    }
}

/// A lazy repetition with a minimum takes at least that many repetitions before the terminator:
/// where it matches, exactly `min` repetitions match at the start, within its repeated part.
pub proof fn law_lazy_respects_min<T: Atom, S: Atom, R: Atom>(atom: T, sep: S, term: R, min: usize, max: Option<usize>, st: Seq<char>)
    requires
        min > 0,
    ensures
        lazy_split(atom, sep, term, min, max, st) matches Some((b, t))
            ==> (repeat_spec(atom, sep, min, Some(min), st) matches Some(c) && c <= b),
{
    if lazy_split(atom, sep, term, min, max, st) is Some {
        let k = atom.spec_parse(st)->Some_0;
        let k2 = arep_exact(atom, sep, st.skip(k as int), (min - 1) as nat)->Some_0;
        assert(arep_bounded(atom, sep, st.skip((k + k2) as int), 0) == 0);
    }
}

} // verus!
