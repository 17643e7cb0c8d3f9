use minparser::atomlist::{AnyChar, EOFChar, TrueAtom, PredicateAtom, PredicateRefAtom};
use minparser::atoms::{Atom, Match, MatchHelper};
use minparser::chains::{Check, CheckInv, LazyRepeat, LazyRepeatAny, Or, Repeat, RepeatAny, Sequence};
use minparser::predicates::{
    AlphabeticTool, AlphanumericTool, AsciiAlphabeticTool, AsciiAlphanumericTool, AsciiDigitTool,
    AsciiTool, NumericTool, WhitespaceTool, is_lu_letter, is_newline,
};
use minparser::utils::{Ident, Newline, WhiteSP};

/// The prefix of `st` that `atom` matches, if any.
fn matched<'s, A: Atom>(atom: A, st: &'s str) -> Option<&'s str> {
    atom.parse(st).map(|m: Match| &st[..m.len])
}

#[test]
fn atoms() {
    let vw = MatchHelper::from("€à/a req sey");
    vw.clone().match_atom(TrueAtom).unwrap();
    assert!(vw.clone().match_atom(EOFChar).is_err());
    assert_eq!(vw.clone().match_atom_string(&["Zx", "€à/a re"]).unwrap().0, "€à/a re");
    assert_eq!(vw.clone().match_atom_string(Or::new(EOFChar, ["€à", "€"])).unwrap().0, "€à");
    assert!(vw.clone().match_atom(Or::new('r', "€àb")).is_err());
}

#[test]
fn atoms_repeat_docs() {
    let lt = MatchHelper::from("a a a a b");
    assert_eq!(lt.match_atom_string(Repeat::new_bounds('a', ' ', 0, 3)).unwrap().0, "a a a");
    assert_eq!(lt.match_atom_string(Repeat::new_bounds('a', ' ', 2, 3)).unwrap().0, "a a a");
    assert_eq!(lt.match_atom_string(Repeat::new_unbounded('a', ' ', 0)).unwrap().0, "a a a a");
    assert_eq!(lt.match_atom_string(Repeat::new_unbounded('a', ' ', 2)).unwrap().0, "a a a a");
    assert!(lt.match_atom_string(Repeat::new_unbounded('a', ' ', 5)).is_err());
    assert_eq!(matched(RepeatAny::new_bounds('a', ' ', 2), "a a a"), Some("a a"));
    assert_eq!(matched(RepeatAny::new_unbounded('b', ' '), "a a a"), Some(""));
    assert_eq!(matched(RepeatAny::new_bounds('a', TrueAtom, 0), "aa"), Some(""));
    assert_eq!(matched(Repeat::new_bounds('a', TrueAtom, 0, 0), "aa"), Some(""));
    assert!(matched(LazyRepeat::new_bounds('a', TrueAtom, 'x', 0, 0), "ax").is_none());
    assert!(matched(LazyRepeatAny::new_bounds('a', TrueAtom, 'x', 0), "ax").is_none());
    assert_eq!(matched(LazyRepeatAny::new_bounds('a', TrueAtom, 'x', 0), "xa"), Some("x"));
}

#[test]
fn atoms_lazy_repeat() {
    let st = "a a a a 0 0 1 2";
    let alnum = || PredicateRefAtom::new(char::is_ascii_alphanumeric);
    let white = || PredicateAtom::new(char::is_whitespace);
    let digit = || PredicateRefAtom::new(char::is_ascii_digit);
    assert_eq!(matched(LazyRepeat::new_unbounded(alnum(), white(), Sequence::new(white(), digit()), 0), st), Some("a a a a 0"));
    assert_eq!(matched(LazyRepeat::new_unbounded(alnum(), white(), Sequence::new(white(), digit()), 6), st), Some("a a a a 0 0 1"));
    assert!(matched(LazyRepeat::new_bounds(alnum(), white(), Sequence::new(white(), '2'), 0, 6), st).is_none());
    assert_eq!(matched(LazyRepeatAny::new_unbounded(alnum(), white(), Sequence::new(white(), digit())), st), Some("a a a a 0"));
}

#[test]
fn atoms_checks() {
    let mh = MatchHelper::from("ab");
    let mh = mh.match_atom(Check('a')).unwrap();
    let mh = mh.match_atom(CheckInv('c')).unwrap();
    assert!(mh.clone().match_atom(CheckInv('a')).is_err());
    assert_eq!(mh.match_atom_string(AnyChar).unwrap().0, "a");
    assert!(matched(AnyChar, "").is_none());
    assert_eq!(matched(EOFChar, ""), Some(""));
}

#[test]
fn predicates_atoms() {
    assert_eq!(matched(AsciiTool, "a€"), Some("a"));
    assert!(matched(AsciiTool, "€a").is_none());
    assert_eq!(matched(AlphabeticTool, "àb"), Some("à"));
    assert!(matched(AlphabeticTool, "1").is_none());
    assert_eq!(matched(AlphanumericTool, "৬"), Some("৬"));
    assert_eq!(matched(AsciiAlphabeticTool, "Zz"), Some("Z"));
    assert!(matched(AsciiAlphabeticTool, "à").is_none());
    assert_eq!(matched(AsciiAlphanumericTool, "9"), Some("9"));
    assert_eq!(matched(AsciiDigitTool, "0x"), Some("0"));
    assert!(matched(AsciiDigitTool, "x0").is_none());
    assert_eq!(matched(NumericTool, "৬"), Some("৬"));
    assert_eq!(matched(WhitespaceTool, "\u{a0}x"), Some("\u{a0}"));
    assert!(is_newline('\n'));
    assert!(!is_newline('\r'));
    assert!(is_lu_letter('A'));
    assert!(is_lu_letter('à'));
    assert!(!is_lu_letter('1'));
}

#[test]
fn utils_atoms() {
    assert_eq!(matched(Newline, "\r\nx"), Some("\r\n"));
    assert_eq!(matched(Newline, "\nx"), Some("\n"));
    assert!(matched(Newline, "\rx").is_none());
    assert!(matched(Newline, "x").is_none());
    assert_eq!(matched(WhiteSP, " \t\u{a0}\nx "), Some(" \t\u{a0}\n"));
    assert_eq!(matched(WhiteSP, "x "), Some(""));
    assert_eq!(matched(Ident, "abc12 de"), Some("abc12"));
    assert_eq!(matched(Ident, "à৬x"), Some("à৬x"));
    assert!(matched(Ident, "1abc").is_none());
}
