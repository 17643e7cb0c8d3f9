use minparser::tools::{
    AnyTool, CheckInvTool, CheckTool, EOFTool, LazyNoTerm, LazyRepeatTool, Or, ParseTool,
    ParseToolData, PredicateRefTool, PredicateTool, RepeatTool, SeqTool, ToolResult,
    ToolResultData, TrueParser, GetChar, Transform,
};

/// The prefix of `st` that `tool` matches, if any.
fn matched<'s, T: ParseTool + ?Sized>(tool: &T, st: &'s str) -> Option<&'s str> {
    match tool.parse(st) {
        ToolResult::Match { len } => Some(&st[..len]),
        ToolResult::NoMatch => None,
    }
}

#[test]
fn tools_tools() {
    let vw = "€à/a req sey";
    assert_eq!(matched(&TrueParser, vw), Some(""));
    assert!(matched(&EOFTool, vw).is_none());
    assert_eq!(matched(&["Zx", "€à/a re"], vw), Some("€à/a re"));
    assert_eq!(matched(&Or((EOFTool, "€à", "€")), vw), Some("€à"));
    assert!(matched(&Or(('r', "€àb")), vw).is_none());
    assert_eq!(matched(&SeqTool(("€à", "/a re", "q se", 'y', EOFTool)), vw), Some("€à/a req sey"));
}

#[test]
fn tools_repeat_bounds() {
    let lt = "a a a a b";
    assert_eq!(matched(&RepeatTool::new_sep_bounds('a', ' ', 0, 3), lt), Some("a a a"));
    assert_eq!(matched(&RepeatTool::new_sep_bounds('a', ' ', 2, 3), lt), Some("a a a"));
    assert_eq!(matched(&RepeatTool::new_sep_unbounded('a', ' ', 0), lt), Some("a a a a"));
    assert_eq!(matched(&RepeatTool::new_sep_unbounded('a', ' ', 2), lt), Some("a a a a"));
    assert!(matched(&RepeatTool::new_sep_unbounded('a', ' ', 5), lt).is_none());
    assert!(matched(&RepeatTool::new_sep_bounds('a', ' ', 2, 1), lt).is_none());
    assert_eq!(matched(&RepeatTool::new_sep_unbounded('b', ' ', 0), lt), Some(""));
    assert_eq!(matched(&RepeatTool::new_bounds('a', 0, 0), lt), Some(""));
    assert_eq!(matched(&RepeatTool::new_sep_bounds('a', ' ', 0, 0), "a a"), Some(""));
    assert!(matched(&LazyRepeatTool::new_bounds('a', TrueParser, 'x', 0, 0), "ax").is_none());
    assert_eq!(matched(&LazyRepeatTool::new_bounds('a', TrueParser, 'x', 0, 0), "xa"), Some("x"));
}

#[test]
fn tools_lazy_repeat() {
    let st = "a a a a 0 0 1 2";
    let alnum = || PredicateRefTool::new(char::is_ascii_alphanumeric);
    let white = || PredicateTool::new(char::is_whitespace);
    let digit = || PredicateRefTool::new(char::is_ascii_digit);
    assert_eq!(
        matched(&LazyRepeatTool::new_unbounded(alnum(), white(), SeqTool((white(), digit())), 0), st),
        Some("a a a a 0")
    );
    assert_eq!(
        matched(&LazyRepeatTool::new_unbounded(alnum(), white(), SeqTool((white(), digit())), 6), st),
        Some("a a a a 0 0 1")
    );
    match ParseToolData::parse(&LazyRepeatTool::new_unbounded(alnum(), white(), SeqTool((white(), digit())), 6), st, LazyNoTerm) {
        ToolResultData::Match { len, data } => {
            assert_eq!(data, "a a a a 0 0");
            assert_eq!(&st[..len], "a a a a 0 0 1");
        },
        ToolResultData::NoMatch => panic!("the lazy repetition should match"),
    }
    assert!(matched(&LazyRepeatTool::new_bounds(alnum(), white(), SeqTool((white(), '2')), 0, 6), st).is_none());
}

#[test]
fn tools_checks_and_predicates() {
    assert_eq!(matched(&CheckTool('a'), "ab"), Some(""));
    assert!(matched(&CheckTool('b'), "ab").is_none());
    assert_eq!(matched(&CheckInvTool('c'), "ab"), Some(""));
    assert!(matched(&CheckInvTool('a'), "ab").is_none());
    assert_eq!(matched(&AnyTool, "€x"), Some("€"));
    assert!(matched(&AnyTool, "").is_none());
    assert_eq!(matched(&EOFTool, ""), Some(""));
    let lt = "aB1৬";
    assert_eq!(matched(&PredicateRefTool::new(char::is_ascii_lowercase), lt), Some("a"));
    assert_eq!(matched(&PredicateTool::new(char::is_numeric), &lt[3..]), Some("৬"));
    assert_eq!(matched(&PredicateTool::new_zero_or_more(char::is_alphabetic), lt), Some("aB"));
    assert_eq!(matched(&PredicateTool::new_one_or_more(char::is_numeric), lt), None);
    assert_eq!(matched(&PredicateRefTool::new_one_or_more(char::is_ascii_alphanumeric), lt), Some("aB1"));
    match ParseToolData::parse(&PredicateTool::new(char::is_alphabetic), lt, GetChar) {
        ToolResultData::Match { len, data } => {
            assert_eq!(len, 1);
            assert_eq!(data, 'a');
        },
        ToolResultData::NoMatch => panic!("'a' is alphabetic"),
    }
    match ParseToolData::parse(&PredicateRefTool::new(char::is_ascii_digit), "7x", Transform(|c: char| c as u32)) {
        ToolResultData::Match { len, data } => {
            assert_eq!(len, 1);
            assert_eq!(data, 55);
        },
        ToolResultData::NoMatch => panic!("'7' is a digit"),
    }
}

#[test]
fn tools_result_combinators() {
    assert!(matches!(ToolResult::Match { len: 2 }.map(|l| l + 1), ToolResult::Match { len: 3 }));
    assert!(matches!(ToolResult::NoMatch.map(|l| l + 1), ToolResult::NoMatch));
    assert!(matches!(ToolResult::Match { len: 2 }.and_then(|_| ToolResult::NoMatch), ToolResult::NoMatch));
    assert!(matches!(ToolResult::NoMatch.or_else(|| ToolResult::Match { len: 4 }), ToolResult::Match { len: 4 }));
    assert!(matches!(ToolResult::Match { len: 1 }.or_else(|| ToolResult::Match { len: 4 }), ToolResult::Match { len: 1 }));
    match (ToolResult::Match { len: 3 }).map_data(|l| (l, l * 2)) {
        ToolResultData::Match { len, data } => assert_eq!((len, data), (3, 6)),
        ToolResultData::NoMatch => panic!("a match maps to a match"),
    }
    assert!(matches!(ToolResultData::Match { len: 5, data: 'x' }.drop_data(), ToolResult::Match { len: 5 }));
}
