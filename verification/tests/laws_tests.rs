use minparser::atomlist::{AnyChar, EOFChar, PredicateRefAtom, TrueAtom};
use minparser::atoms::{Atom, Match};
use minparser::chains::{Check, CheckInv, LazyRepeat, LazyRepeatAny, Repeat, RepeatAny};
use minparser::parser;
use minparser::pos::{NoFile, Position};
use minparser::toolerr;
use minparser::tools;
use minparser::viewerr::ViewFile;

const INPUTS: [&str; 6] = ["", "a", "ab", "abc", "€à/a", "b\na"];

fn tool_len<T: tools::ParseTool + ?Sized>(t: &T, st: &str) -> Option<usize> {
    match t.parse(st) {
        tools::ToolResult::Match { len } => Some(len),
        tools::ToolResult::NoMatch => None,
    }
}

fn toolerr_len<T: toolerr::ParseTool + ?Sized>(t: &T, st: &str) -> Option<usize> {
    match t.parse(st) {
        toolerr::ToolResult::Match { len } => Some(len),
        toolerr::ToolResult::NoMatch(_) => None,
    }
}

fn atom_len<A: Atom>(a: A, st: &str) -> Option<usize> {
    a.parse(st).map(|m: Match| m.len)
}

#[test]
fn law_any_opposite_of_eof_on_inputs() {
    for st in INPUTS {
        assert_eq!(toolerr_len(&toolerr::AnyTool, st).is_some(), toolerr_len(&toolerr::EOFTool, st).is_none());
        assert_eq!(atom_len(AnyChar, st).is_some(), atom_len(EOFChar, st).is_none());
    }
}

#[test]
fn law_checks_on_inputs() {
    for st in INPUTS {
        let t = tool_len(&"ab", st);
        assert_eq!(tool_len(&tools::CheckTool("ab"), st), t.map(|_| 0));
        assert_eq!(tool_len(&tools::CheckInvTool("ab"), st), if t.is_some() { None } else { Some(0) });
        let e = toolerr_len(&"ab", st);
        assert_eq!(toolerr_len(&toolerr::CheckTool("ab"), st), e.map(|_| 0));
        assert_eq!(toolerr_len(&toolerr::CheckInvTool("ab"), st), if e.is_some() { None } else { Some(0) });
        let a = atom_len('a', st);
        assert_eq!(atom_len(Check('a'), st), a.map(|_| 0));
        assert_eq!(atom_len(CheckInv('a'), st), if a.is_some() { None } else { Some(0) });
    }
}

#[test]
fn law_non_empty_on_inputs() {
    for st in INPUTS {
        assert_eq!(toolerr_len(&toolerr::NonEmpty(toolerr::TrueTool), st), None);
        assert_eq!(toolerr_len(&toolerr::NonEmpty("ab"), st), toolerr_len(&"ab", st));
    }
}

#[test]
fn law_or_first_wins_on_inputs() {
    for st in INPUTS {
        let a = tool_len(&'a', st);
        let expected = if a.is_some() { a } else { tool_len(&"b\n", st) };
        assert_eq!(tool_len(&tools::Or(('a', "b\n")), st), expected);
        let ea = toolerr_len(&'a', st);
        let eexpected = if ea.is_some() { ea } else { toolerr_len(&"b\n", st) };
        assert_eq!(toolerr_len(&toolerr::Or(('a', "b\n")), st), eexpected);
        let aa = atom_len('a', st);
        let aexpected = if aa.is_some() { aa } else { atom_len("b\n", st) };
        assert_eq!(atom_len(minparser::chains::Or::new('a', "b\n"), st), aexpected);
    }
    let vw = parser::View::<'_, (), NoFile>::new_default("ab");
    let r = vw.match_tool(parser::OrTool { fir: 'a', sec: "ab" }).unwrap();
    assert!(matches!(r.consume(), parser::OrToolData::First('a')));
}

#[test]
fn law_or_and_seq_associative_on_inputs() {
    for st in INPUTS {
        let flat = tool_len(&tools::Or(('x', "ab", 'a')), st);
        assert_eq!(flat, tool_len(&tools::Or(('x', tools::Or(("ab", 'a')))), st));
        assert_eq!(flat, tool_len(&tools::Or((tools::Or(('x', "ab")), 'a')), st));
        let sflat = tool_len(&tools::SeqTool(('a', 'b', 'c')), st);
        assert_eq!(sflat, tool_len(&tools::SeqTool(('a', tools::SeqTool(('b', 'c')))), st));
        assert_eq!(sflat, tool_len(&tools::SeqTool((tools::SeqTool(('a', 'b')), 'c')), st));
        let eflat = toolerr_len(&toolerr::Or(('x', "ab", 'a')), st);
        assert_eq!(eflat, toolerr_len(&toolerr::Or(('x', toolerr::Or(("ab", 'a')))), st));
        assert_eq!(eflat, toolerr_len(&toolerr::Or((toolerr::Or(('x', "ab")), 'a')), st));
        let esflat = toolerr_len(&toolerr::SeqTool(('a', 'b', 'c')), st);
        assert_eq!(esflat, toolerr_len(&toolerr::SeqTool(('a', toolerr::SeqTool(('b', 'c')))), st));
        assert_eq!(esflat, toolerr_len(&toolerr::SeqTool((toolerr::SeqTool(('a', 'b')), 'c')), st));
    }
}

#[test]
fn law_repeat_bounds_on_inputs() {
    for st in ["a a a", "b", ""] {
        assert_eq!(
            toolerr_len(&toolerr::RepeatTool::new_sep('a', ' ', 0, Some(2)), st),
            toolerr_len(&toolerr::RepeatAnyTool::new_sep('a', ' ', Some(2)), st)
        );
        assert!(tool_len(&tools::RepeatTool::new_sep('a', ' ', 0, None), st).is_some());
        assert!(tool_len(&tools::RepeatTool::new_sep_bounds('a', ' ', 3, 1), st).is_none());
    }
    match toolerr::ParseTool::parse(&toolerr::RepeatTool::new_sep_bounds('a', ' ', 3, 1), "a a a") {
        toolerr::ToolResult::NoMatch(e) => assert_eq!(e, toolerr::RepeatToolErr::MinMax { min: 3, max: 1 }),
        toolerr::ToolResult::Match { .. } => panic!("no repetition number is allowed"),
    }
    match toolerr::ParseTool::parse(&toolerr::RepeatTool::new_sep_unbounded('a', ' ', 3), "a a b") {
        toolerr::ToolResult::NoMatch(e) => assert_eq!(e, toolerr::RepeatToolErr::Min { min: 3, fnd: 2 }),
        toolerr::ToolResult::Match { .. } => panic!("two repetitions are too few"),
    }
    let vw = parser::View::<'_, (), NoFile>::new_default("abc");
    assert!(vw.match_tool(parser::RepeatTool::new_any('x', ',')).unwrap().consume().is_empty());
}

#[test]
fn law_lazy_stops_at_term_on_inputs() {
    let digit = || tools::PredicateRefTool::new(char::is_ascii_digit);
    let any = || tools::PredicateRefTool::new(char::is_ascii);
    match tools::ParseToolData::parse(&tools::LazyRepeatTool::new_unbounded(any(), tools::TrueParser, digit(), 0), "0abc", tools::LazyNoTerm) {
        tools::ToolResultData::Match { len, data } => {
            assert_eq!(len, 1);
            assert_eq!(data, "");
        },
        tools::ToolResultData::NoMatch => panic!("the terminator matches at once"),
    }
    let l = LazyRepeat::new_unbounded(PredicateRefAtom::new(char::is_ascii), TrueAtom, PredicateRefAtom::new(char::is_ascii_digit), 0);
    assert_eq!(atom_len(l, "0abc"), Some(1));
    match toolerr::ParseToolData::parse(&toolerr::LazyRepeatAnyTool::new_unbounded(toolerr::AnyTool, toolerr::TrueTool, '0'), "0abc", toolerr::LazyNoTerm) {
        toolerr::ToolResultData::Match { len, data } => {
            assert_eq!(len, 1);
            assert_eq!(data, "");
        },
        toolerr::ToolResultData::NoMatch(_) => panic!("the terminator matches at once"),
    }
}

#[test]
fn law_named_equivalent_on_inputs() {
    for st in INPUTS {
        let vw = parser::View::<'_, (), NoFile>::new_default(st);
        let plain = vw.clone().match_tool("ab");
        let named = vw.match_tool(<_ as parser::ParseTool<'_, NoFile>>::assign_name("ab", "pair"));
        assert_eq!(plain.is_ok(), named.is_ok());
        if let (Ok(p), Ok(n)) = (plain, named) {
            assert_eq!(p.get_view(), n.get_view());
            assert_eq!(p.consume(), n.consume());
        }
    }
}

#[test]
fn law_advance_concat_on_inputs() {
    let st = "ab\ncd€\nx";
    for split in [0, 1, 2, 3, 4, 5, 8, 9] {
        let whole = ViewFile::new_default(st).progress(st.len()).0;
        let (first, _) = ViewFile::new_default(st).progress(split);
        let (second, _) = first.progress(st.len() - split);
        assert_eq!(*whole.top_position(), *second.top_position());
    }
    assert_eq!(*ViewFile::new_default(st).progress(st.len()).0.top_position(), Position::new_file(NoFile, 2, 1));
}

#[test]
fn zero_max_repeats_nothing() {
    for st in INPUTS {
        assert_eq!(atom_len(Repeat::new_bounds(AnyChar, TrueAtom, 0, 0), st), Some(0));
        assert_eq!(atom_len(RepeatAny::new_bounds(AnyChar, TrueAtom, 0), st), Some(0));
        assert_eq!(atom_len(LazyRepeat::new_bounds(AnyChar, TrueAtom, 'b', 0, 0), st), atom_len('b', st));
        assert_eq!(atom_len(LazyRepeatAny::new_bounds(AnyChar, TrueAtom, 'b', 0), st), atom_len('b', st));
        assert_eq!(tool_len(&tools::RepeatTool::new_bounds(tools::AnyTool, 0, 0), st), Some(0));
    }
}

fn tr(r: tools::ToolResult) -> Option<usize> {
    match r {
        tools::ToolResult::Match { len } => Some(len),
        tools::ToolResult::NoMatch => None,
    }
}

fn te(r: toolerr::ToolResult<u8>) -> Result<usize, u8> {
    match r {
        toolerr::ToolResult::Match { len } => Ok(len),
        toolerr::ToolResult::NoMatch(e) => Err(e),
    }
}

fn mk_tr(m: Option<usize>) -> tools::ToolResult {
    match m {
        Some(len) => tools::ToolResult::Match { len },
        None => tools::ToolResult::NoMatch,
    }
}

fn mk_te(m: Result<usize, u8>) -> toolerr::ToolResult<u8> {
    match m {
        Ok(len) => toolerr::ToolResult::Match { len },
        Err(e) => toolerr::ToolResult::NoMatch(e),
    }
}

#[test]
fn result_map_laws() {
    for m in [Some(3), None] {
        assert_eq!(tr(mk_tr(m).map(|l| l)), m);
        assert_eq!(tr(mk_tr(m).map(|l| l + 1).map(|l| l * 2)), tr(mk_tr(m).map(|l| (l + 1) * 2)));
        assert_eq!(tr(mk_tr(m).and_then(|l| tools::ToolResult::Match { len: l })), m);
        assert_eq!(tr(mk_tr(m).or_else(|| tools::ToolResult::NoMatch)), m);
        assert_eq!(tr(mk_tr(m).map_data(|l| (l, 'd')).drop_data()), m);
    }
    for m in [Ok(3), Err(7u8)] {
        assert_eq!(te(mk_te(m).map(|l| l)), m);
        assert_eq!(te(mk_te(m).map(|l| l + 1).map(|l| l * 2)), te(mk_te(m).map(|l| (l + 1) * 2)));
        assert_eq!(te(mk_te(m).and_then(|l| toolerr::ToolResult::Match { len: l })), m);
        assert_eq!(te(mk_te(m).or_else(|e| toolerr::ToolResult::NoMatch(e))), m);
        assert_eq!(te(mk_te(m).map_data(|l| (l, 'd')).drop_data()), m);
    }
}

#[test]
fn view_chain_laws() {
    let s = "€à/a b\nc";
    let v0 = ViewFile::new_default(s);
    let (v1, _) = v0.progress(3);
    let (v2, _) = v1.progress(2);
    assert!(s.ends_with(v2.get_view()));
    assert_eq!(v2.get_view(), &s[5..]);
    let h = minparser::atoms::MatchHelper::from(s).match_atom('€').unwrap();
    let h = match h.match_atom('x') {
        Ok(h) => h,
        Err(h) => h,
    };
    let h = h.match_atom('à').unwrap();
    let (rest, m) = h.finalize();
    assert_eq!(m.len + rest.len(), s.len());
    assert_eq!(rest, &s[m.len..]);
    let a = ViewFile::new_default("abc");
    let b = ViewFile::new("abc", NoFile::default());
    assert_eq!(a.get_view(), b.get_view());
    assert_eq!(a.into_pos(), b.into_pos());
}
