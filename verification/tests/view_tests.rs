use minparser::atomlist::{AnyChar, TrueAtom};
use minparser::chains::{LazyRepeat, LazyRepeatAny, RepeatAny};
use minparser::chains::{Or, Sequence};
use minparser::pos::{NoFile, Position};
use minparser::utils::WhiteSP;
use minparser::view::{AlwAtomTool, AtomTool, ParseTool, View, ViewFile};
use minparser::viewerr;

#[test]
fn view_atoms() {
    let view = ViewFile::new_default("My string   value");
    let (mtc, step) = view.match_atom_string("My string").unwrap();
    assert_eq!(mtc, "My string");
    assert_eq!(step.get_view(), "   value");
    let step = step.match_atom(WhiteSP).unwrap();
    assert_eq!(step.get_view(), "value");
    assert!(step.match_atom('a').is_err());
    assert_eq!(step.match_always(TrueAtom).get_view(), "value");
    let (s, rest) = step.match_always_string(RepeatAny::new_unbounded(' ', TrueAtom));
    assert_eq!(s, "");
    assert_eq!(rest.get_view(), "value");
    let err: Result<ViewFile, u32> = step.match_atom_err('x', |v: ViewFile| v.top_position().column);
    assert_eq!(err.unwrap_err(), 12);
}

#[test]
fn view_progress_positions() {
    let view = ViewFile::new_default("ab\r\ncd\n€f");
    let (pfx, v) = view.progress(4);
    assert_eq!(pfx, "ab\r\n");
    assert_eq!(*v.top_position(), Position::new_file(NoFile, 1, 0));
    let (pfx, v) = v.progress(6);
    assert_eq!(pfx, "cd\n€");
    assert_eq!(*v.top_position(), Position::new_file(NoFile, 2, 3));
    assert_eq!(v.into_pos(), Position::new_file(NoFile, 2, 3));
    let (pfx, v) = ViewFile::new("xy", NoFile).progress(0);
    assert_eq!(pfx, "");
    assert!(!v.is_empty());
    let vv = viewerr::ViewFile::new_default("a\nb");
    let (vv, s) = vv.progress(2);
    assert_eq!(s, "a\n");
    assert_eq!(*vv.top_position(), Position::new_file(NoFile, 1, 0));
}

#[test]
fn view_tools() {
    let view: View<'_, NoFile> = ViewFile::new_default("ab1");
    let (d, v) = view.match_tool_data(&AtomTool('a')).unwrap();
    assert_eq!(d, "a");
    assert_eq!(v.get_view(), "b1");
    let (d, v) = v.match_tool_data(&AnyChar).unwrap();
    assert_eq!(d, 'b');
    assert_eq!(v.get_view(), "1");
    assert!(ViewFile::new_default("").match_tool(&AnyChar).is_err());
    let (d, v) = view.match_tool_data(&Sequence::new(AtomTool('a'), AtomTool('b'))).unwrap();
    assert_eq!(d, ("a", "b"));
    assert_eq!(v.get_view(), "1");
    assert!(view.match_tool(&Sequence::new(AtomTool('a'), AtomTool('c'))).is_err());
    let (d, _) = view.match_tool_data(&Or::new(AtomTool('x'), AtomTool("ab"))).unwrap();
    assert_eq!(d, "ab");
    let (d, _) = view.match_tool_data(&AlwAtomTool(TrueAtom)).unwrap();
    assert_eq!(d, "");
    let mapped = <_ as ParseTool<'_, NoFile>>::map_both(AtomTool("ab"), |s: &str| s.len(), |_e: ViewFile| 0u8);
    let (d, _) = view.match_tool_data(&mapped).unwrap();
    assert_eq!(d, 2);
    let r = view.match_if_matches(AtomTool('a'), AtomTool('b')).unwrap();
    assert_eq!(r.get_view(), "1");
    let r = view.match_if_matches(AtomTool('z'), AtomTool('b')).unwrap();
    assert_eq!(r.get_view(), "ab1");
    assert!(view.match_if_matches(AtomTool('a'), AtomTool('z')).is_err());
}

#[test]
fn view_parse_store() {
    let lr = LazyRepeat::new_unbounded(AnyChar, AtomTool(TrueAtom), AtomTool('"'), 0);
    let mut v = Vec::new();
    let rest = lr.parse_store(ViewFile::new_default("ABC\" rest"), &mut v).unwrap();
    assert_eq!(v, vec!['A', 'B', 'C']);
    assert_eq!(rest.get_view(), " rest");
    let mut v2 = Vec::new();
    assert!(lr.parse_store(ViewFile::new_default("ABC"), &mut v2).is_err());
    assert_eq!(v2, vec!['A', 'B', 'C']);
    let mut v3 = vec!['z'];
    let rest = lr.parse_store(ViewFile::new_default("\"x"), &mut v3).unwrap();
    assert_eq!(v3, vec!['z']);
    assert_eq!(rest.get_view(), "x");
    let la = LazyRepeatAny::new_bounds(AnyChar, AtomTool(TrueAtom), AtomTool('"'), 2);
    let l0 = LazyRepeatAny::new_bounds(AnyChar, AtomTool(TrueAtom), AtomTool('"'), 0);
    let mut v0 = Vec::new();
    assert!(l0.parse_store(ViewFile::new_default("a\""), &mut v0).is_err());
    assert!(v0.is_empty());
    let mut v4 = Vec::new();
    assert!(la.parse_store(ViewFile::new_default("ABC\""), &mut v4).is_err());
    assert_eq!(v4, vec!['A', 'B']);
    let lm = LazyRepeat::new_bounds(AnyChar, AtomTool(','), AtomTool(';'), 2, 3);
    let mut v5 = Vec::new();
    let rest = lm.parse_store(ViewFile::new_default("a,b;c"), &mut v5).unwrap();
    assert_eq!(v5, vec!['a', 'b']);
    assert_eq!(rest.get_view(), "c");
    let mut v6 = Vec::new();
    assert!(lm.parse_store(ViewFile::new_default("a;b"), &mut v6).is_err());
    assert_eq!(v6, vec!['a']);
}
