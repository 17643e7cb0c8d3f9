//! Other useful parsing atoms.
use vstd::prelude::*;
use crate::atoms::{Atom, Match};
use crate::atomlist::TrueAtom;
use crate::chains::{Sequence, RepeatAny, arep_unbounded, arep_unbounded_can, atom_sep_then};
use crate::predicates::{
    AlphabeticTool, AlphanumericTool, WhitespaceTool, unicode_alphabetic, unicode_numeric,
    unicode_white_space,
};

verus! {

/// Number of leading characters of `st` that satisfy `p`.
pub open spec fn run_len(p: spec_fn(char) -> bool, st: Seq<char>) -> nat
    decreases st.len(),
{
    if st.len() > 0 && p(st[0]) {
        1 + run_len(p, st.skip(1))
    } else {
        0
    }
}

/// Repetitions without separator of an atom that matches one character satisfying `p` match
/// the leading characters that satisfy `p`, and end.
proof fn lemma_run<A: Atom>(a: A, p: spec_fn(char) -> bool, st: Seq<char>)
    requires
        forall|s: Seq<char>| #[trigger] a.spec_parse(s) == (if s.len() > 0 && p(s[0]) {
            Some(1nat)
        } else {
            None
        }),
        forall|s: Seq<char>| #[trigger] a.can_parse(s),
    ensures
        arep_unbounded(a, TrueAtom, st) == run_len(p, st),
        arep_unbounded_can(a, TrueAtom, st),
        run_len(p, st) <= st.len(),
    decreases st.len(),
{
    assert(st.skip(0) =~= st);
    assert(a.spec_parse(st) == (if st.len() > 0 && p(st[0]) {
        Some(1nat)
    } else {
        None
    }));
    assert(a.can_parse(st));
    if st.len() > 0 && p(st[0]) {
        lemma_run(a, p, st.skip(1));
        assert(atom_sep_then(a, TrueAtom, st) == Some(1nat));
    } else {
        assert(atom_sep_then(a, TrueAtom, st) == None::<nat>);
    }
}

/// Characters of a newline at the start of `st`: `\r\n` or `\n`.
pub open spec fn newline_len(st: Seq<char>) -> Option<nat> {
    if st.len() >= 2 && st[0] == '\r' && st[1] == '\n' {
        Some(2)
    } else if st.len() >= 1 && st[0] == '\n' {
        Some(1)
    } else {
        None
    }
}

/// Number of leading whitespace characters of `st`.
pub open spec fn white_len(st: Seq<char>) -> nat {
    run_len(|c: char| unicode_white_space(c), st)
}

/// Characters of an identifier at the start of `st`: a letter followed by letters and numbers.
pub open spec fn ident_len(st: Seq<char>) -> Option<nat> {
    if st.len() > 0 && unicode_alphabetic(st[0]) {
        Some(1 + run_len(|c: char| unicode_alphabetic(c) || unicode_numeric(c), st.skip(1)))
    } else {
        None
    }
}

/// Atom that matches the newline characters sequences `\n` and `\r\n`.
#[derive(Clone, Copy, Eq, PartialEq, Debug)]
pub struct Newline;

impl Atom for Newline {
    open spec fn spec_parse(&self, st: Seq<char>) -> Option<nat> {
        newline_len(st)
    }

    fn parse(&self, st: &str) -> (r: Option<Match>) {
        let nl = Sequence { first: RepeatAny::new_bounds('\r', TrueAtom, 1), second: '\n' };
        proof {
            let s = st@;
            assert(s.skip(1).skip(0) =~= s.skip(1));
            assert(s.skip(0) =~= s);
            if s.len() > 0 && s[0] == '\r' {
                assert(s.skip(1).len() > 0 ==> s.skip(1)[0] == s[1]);
            }
        }
        nl.parse(st)
    }
}

/// Atom that matches any sequence of Unicode whitespaces.
#[derive(Debug, Copy, Clone)]
pub struct WhiteSP;

impl Atom for WhiteSP {
    open spec fn spec_parse(&self, st: Seq<char>) -> Option<nat> {
        Some(white_len(st))
    }

    fn parse(&self, st: &str) -> (r: Option<Match>) {
        let ws = RepeatAny::new_unbounded(WhitespaceTool, TrueAtom);
        proof {
            let p = |c: char| unicode_white_space(c);
            let s = st@;
            if s.len() > 0 && p(s[0]) {
                lemma_run(WhitespaceTool, p, s.skip(1));
            }
        }
        ws.parse(st)
    }
}

/// Atom to retrieve a sequence of consecutive (Unicode) letters and numbers, which the first
/// character is not a number.
#[derive(Debug, Copy, Clone)]
pub struct Ident;

impl Atom for Ident {
    open spec fn spec_parse(&self, st: Seq<char>) -> Option<nat> {
        ident_len(st)
    }

    fn parse(&self, st: &str) -> (r: Option<Match>) {
        let id = Sequence { first: AlphabeticTool, second: RepeatAny::new_unbounded(AlphanumericTool, TrueAtom) };
        proof {
            let p = |c: char| unicode_alphabetic(c) || unicode_numeric(c);
            let s = st@;
            if s.len() > 0 && unicode_alphabetic(s[0]) {
                let r = s.skip(1);
                if r.len() > 0 && p(r[0]) {
                    lemma_run(AlphanumericTool, p, r.skip(1));
                }
            }
        }
        id.parse(st)
    }
}

} // verus!
