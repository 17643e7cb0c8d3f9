use minparser::toolerr::{EOFTool, Or, SeqTool, TrueTool};
use minparser::viewerr::ViewFile;

#[test]
fn toolerr_tools() {
    let vw = ViewFile::new_default("€à/a req sey");
    vw.clone().match_tool(TrueTool).unwrap();
    assert!(vw.clone().match_tool(EOFTool).is_err());
    assert_eq!(vw.clone().match_tool_string(&["Zx", "€à/a re"]).unwrap().1, "€à/a re");
    assert_eq!(vw.clone().match_tool_string(Or((EOFTool, "€à", "€"))).unwrap().1, "€à");
    assert!(vw.clone().match_tool(Or(('r', "€àb"))).is_err());
    assert_eq!(vw.clone().match_tool_string(SeqTool(("€à", "/a re", "q se", 'y', EOFTool))).unwrap().1, "€à/a req sey");
}
