use minparser::parser::{
    EOFTool, NoMatch, OrTool, OrToolData, ParseTool, PredicateTool, RepeatTool, RepeatToolErr,
    TrueParser, View,
};
use minparser::pos::{NoFile, Position};

#[test]
fn parser_tools() {
    let st = "€à/a req sey";
    let vw = View::<'_, (), NoFile>::new_default(st);
    vw.clone().match_tool(TrueParser).unwrap();
    assert!(vw.clone().match_tool(EOFTool).is_err());
    assert_eq!(vw.clone().match_tool(&["Zx", "€à/a re"]).unwrap().consume(), "€à/a re");
    assert!(matches!(vw.match_tool::<OrTool<_, &'static str>>(OrTool{fir : EOFTool, sec : "€à"}).unwrap().consume(), OrToolData::Second("€à")));
}

#[test]
fn repeat() {
    let st = "A A A A";
    let vw = View::<'_, (), NoFile>::new_default(st);
    assert_eq!(vw.match_tool(RepeatTool::new_sep_unbounded('A', ' ', 0)).unwrap().consume(), vec!['A','A','A','A']);
}

#[test]
fn parser_positions() {
    let vw = View::<'_, (), NoFile>::new_default("ab\ncd€\nxy");
    let next = vw.match_tool("ab\ncd").unwrap();
    assert_eq!(*next.top_position(), Position::new_file(NoFile, 1, 2));
    assert_eq!(next.get_view(), "€\nxy");
    let next = next.drop().match_tool('€').unwrap();
    assert_eq!(*next.top_position(), Position::new_file(NoFile, 1, 5));
    let next = next.drop().match_tool(['x', '\n']).unwrap();
    assert_eq!(next.consume(), '\n');
    let err = View::<'_, (), NoFile>::new_default("xyz").match_tool('a').unwrap_err();
    assert_eq!(err, NoMatch { pos: Position::new_file(NoFile, 0, 0) });
}

#[test]
fn parser_repeat_errors() {
    let vw = View::<'_, (), NoFile>::new_default("A,A,B");
    assert!(matches!(vw.clone().match_tool(RepeatTool::new_sep_unbounded('A', ',', 3)), Err(RepeatToolErr::Item(_))));
    assert!(matches!(vw.clone().match_tool(RepeatTool::new_sep_unbounded('A', ';', 2)), Err(RepeatToolErr::Separator(_))));
    let r = vw.clone().match_tool(RepeatTool::new_sep_bounds('A', ',', 0, 1)).unwrap();
    assert_eq!(r.get_view(), ",A,B");
    assert_eq!(r.consume(), vec!['A']);
    let r = vw.clone().match_tool(RepeatTool::new_sep_unbounded('A', ',', 1)).unwrap();
    assert_eq!(r.get_view(), "B");
    assert_eq!(r.consume(), vec!['A', 'A']);
    let r = vw.clone().match_tool(RepeatTool::new_sep_bounds('A', ',', 0, 0)).unwrap();
    assert_eq!(r.get_view(), "A,A,B");
    assert!(r.consume().is_empty());
    let r = vw.match_tool(RepeatTool::new_optional('B')).unwrap();
    assert!(r.consume().is_empty());
}

#[test]
fn parser_predicate_and_or() {
    let vw = View::<'_, (), NoFile>::new_default("7a");
    let digit = PredicateTool::new_map(|c: char| c.to_digit(10));
    let r = vw.clone().match_tool(&digit).unwrap();
    assert_eq!(r.get_view(), "a");
    assert_eq!(r.consume(), 7);
    assert!(vw.clone().match_tool(OrTool { fir: 'x', sec: 'y' }).is_err());
    assert!(matches!(vw.clone().match_tool(OrTool { fir: '7', sec: "7a" }).unwrap().consume(), OrToolData::First('7')));
    let named = <_ as ParseTool<'_, NoFile>>::assign_name(digit, "digit");
    assert!(View::<'_, (), NoFile>::new_default("a").match_tool(&named).is_err());
    assert_eq!(vw.match_tool(named).unwrap().consume(), 7);
}

#[test]
fn parser_predicate_from_bool() {
    let alpha = PredicateTool::new_predicate(char::is_alphabetic);
    let r = View::<'_, (), NoFile>::new_default("àb1").match_tool(&alpha).unwrap();
    assert_eq!(r.get_view(), "b1");
    assert_eq!(r.consume(), 'à');
    assert!(View::<'_, (), NoFile>::new_default("1a").match_tool(&alpha).is_err());
    assert!(View::<'_, (), NoFile>::new_default("").match_tool(&alpha).is_err());
}

#[test]
fn parser_rename_replaces_name() {
    let named = <_ as ParseTool<'_, NoFile>>::assign_name('a', "first").assign_name("second");
    assert_eq!(View::<'_, (), NoFile>::new_default("ab").match_tool(&named).unwrap().get_view(), "b");
    match View::<'_, (), NoFile>::new_default("ba").match_tool(&named) {
        Err(e) => {
            let (name, _err, pos) = e.into_parts();
            assert_eq!(name, "second");
            assert_eq!((pos.line, pos.column), (0, 0));
        },
        Ok(_) => panic!("'a' does not match \"ba\""),
    }
}
