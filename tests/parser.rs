use shader_compiler::parser::{Diagnostic, Parser, StageBlock, StageKind};

fn block(kind: StageKind, start: usize, end: usize, entry: Option<usize>) -> StageBlock {
    StageBlock { kind, start, end, entry }
}

#[test]
fn name_and_single_vertex_pass() {
    let text = "NAME \"Foo\"\nPASS \"Bar\"\n{\n    [VERT]\n    void main() {}\n}\n";
    let p = Parser::new(text);
    assert_eq!(p.get_name(), &Some("Foo".to_string()));
    let passes = p.get_passes();
    assert_eq!(passes.len(), 1);
    assert_eq!(passes[0].name, "Bar");
    assert_eq!(passes[0].start, 3);
    assert_eq!(passes[0].end, 6);
    assert!(passes[0].terminated);
    assert_eq!(passes[0].stages.blocks, vec![block(StageKind::Vertex, 5, 5, None)]);
    assert!(p.diagnostics().is_empty());
}

#[test]
fn vertex_and_fragment_blocks_with_entries() {
    let text = "name \"Lit\"\n\
                pass \"Forward\" {\n\
                [vertex]\n\
                void vs() entry\n\
                {}\n\
                [Frag]\n\
                void fs() ENTRY\n\
                {}\n\
                }\n";
    let p = Parser::new(text);
    assert_eq!(p.get_name(), &Some("Lit".to_string()));
    let passes = p.get_passes();
    assert_eq!(passes.len(), 1);
    assert_eq!(passes[0].name, "Forward");
    assert_eq!(passes[0].start, 2);
    assert_eq!(passes[0].end, 9);
    assert_eq!(
        passes[0].stages.blocks,
        vec![
            block(StageKind::Vertex, 4, 6, Some(4)),
            block(StageKind::Fragment, 7, 8, Some(7)),
        ]
    );
}

#[test]
fn nested_braces_close_the_pass_at_depth_zero() {
    let text = "PASS \"A\"\n{\n{\n}\n}\nPASS \"B\" { }\n";
    let p = Parser::new(text);
    let passes = p.get_passes();
    assert_eq!(passes.len(), 2);
    assert_eq!((passes[0].start, passes[0].end), (2, 5));
    assert_eq!(passes[1].name, "B");
    assert_eq!((passes[1].start, passes[1].end), (6, 6));
    assert_eq!(p.get_name(), &None);
}

#[test]
fn unterminated_pass_is_reported() {
    let text = "PASS \"Open\"\n{\n[VERT]\nvoid main()\n";
    let p = Parser::new(text);
    let passes = p.get_passes();
    assert_eq!(passes.len(), 1);
    assert!(!passes[0].terminated);
    assert_eq!((passes[0].start, passes[0].end), (2, 4));
    assert_eq!(passes[0].stages.blocks, vec![block(StageKind::Vertex, 4, 4, None)]);
    assert_eq!(p.diagnostics(), &vec![Diagnostic::UnterminatedPass { pass: 0 }]);
}

#[test]
fn pass_without_quoted_name_is_reported() {
    let p = Parser::new("PASS Unnamed\n{\n}\n");
    assert!(p.get_passes().is_empty());
    assert_eq!(p.diagnostics(), &vec![Diagnostic::MissingPassName { line: 1 }]);
}

#[test]
fn variants_directive_is_reported_as_unsupported() {
    let p = Parser::new("PASS \"P\" {\n  VARIANTS LIT NOT_LIT\n}\n");
    assert_eq!(p.get_passes().len(), 1);
    assert_eq!(p.diagnostics(), &vec![Diagnostic::UnsupportedVariants { line: 2 }]);
}

#[test]
fn crlf_lines_and_first_token_rule() {
    let text = "NAMES \"No\"\r\nNAME \"Yes\"\r\nNAME \"Later\"\r\n";
    let p = Parser::new(text);
    assert_eq!(p.get_name(), &Some("Yes".to_string()));
}

#[test]
fn empty_input() {
    let p = Parser::new("");
    assert_eq!(p.get_name(), &None);
    assert!(p.get_passes().is_empty());
    assert!(p.diagnostics().is_empty());
}

#[test]
fn goto_skips_lines() {
    let text = "ab\ncd\r\nef";
    assert_eq!(Parser::goto(0, text), 0);
    assert_eq!(Parser::goto(1, text), 3);
    assert_eq!(Parser::goto(2, text), 7);
    assert_eq!(Parser::goto(3, text), 9);
    assert_eq!(Parser::goto(9, text), 9);
}
