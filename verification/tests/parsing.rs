use acode::color::Color;
use acode::geom::Vec2;
use acode::lexer::tokenize;
use acode::parser::{parse, Expected, Instruction, ObjInfo, ParseError, TokenClass};
use acode::{compile, CompileError};

fn parsed(src: &[u8]) -> (Vec<Instruction>, Vec<Instruction>) {
    compile(&src.to_vec()).expect("expected the source to compile")
}

fn rejected(src: &[u8]) -> ParseError {
    match compile(&src.to_vec()) {
        Err(CompileError::Parse(e)) => e,
        Err(CompileError::Lex(e)) => panic!("failed in the lexer instead: {:?}", e),
        Ok(_) => panic!("expected a parse error"),
    }
}

#[test]
fn empty_source_gives_empty_sequences() {
    let (setup, loops) = parsed(b"");
    assert!(setup.is_empty());
    assert!(loops.is_empty());
}

#[test]
fn setup_statements_become_create_instructions() {
    let (setup, loops) = parsed(b"INIT { RECT; TEXT \"Hi\"; RECT; }");
    assert_eq!(
        setup,
        vec![
            Instruction::Create(ObjInfo::Rect),
            Instruction::Create(ObjInfo::Text(b"Hi".to_vec())),
            Instruction::Create(ObjInfo::Rect),
        ],
    );
    assert!(loops.is_empty());
}

#[test]
fn loop_statements_become_action_instructions() {
    let (setup, loops) = parsed(
        b"LOOP { GROW 0 1.5; WAIT 0.5; FADE 1 c(230,41,55,255) 1.0; MOVE 0 v2(0.3,0.8) 2.0; ON 1; OFF 0; }",
    );
    assert!(setup.is_empty());
    assert_eq!(
        loops,
        vec![
            Instruction::Grow(0, 1500),
            Instruction::Wait(500),
            Instruction::Fade(1, Color { r: 230, g: 41, b: 55, a: 255 }, 1000),
            Instruction::Move(0, Vec2::Relative(300, 800), 2000),
            Instruction::Enable(1),
            Instruction::Disable(0),
        ],
    );
}

#[test]
fn blocks_may_come_in_either_order() {
    let (setup, loops) = parsed(b"LOOP { WAIT 1.0; } INIT { RECT; }");
    assert_eq!(setup, vec![Instruction::Create(ObjInfo::Rect)]);
    assert_eq!(loops, vec![Instruction::Wait(1000)]);
}

#[test]
fn index_arguments_truncate_and_saturate() {
    let (_, loops) = parsed(b"LOOP { GROW 1.9 1.0; ON -2; }");
    assert_eq!(loops[0], Instruction::Grow(1, 1000));
    assert_eq!(loops[1], Instruction::Enable(0));
}

#[test]
fn color_channels_saturate_to_eight_bits() {
    let (_, loops) = parsed(b"LOOP { FADE 0 c(300,-5,0,255.9) 1.0; }");
    assert_eq!(
        loops[0],
        Instruction::Fade(0, Color { r: 255, g: 0, b: 0, a: 255 }, 1000),
    );
}

#[test]
fn missing_semicolon_is_reported_on_the_right_line() {
    // the closing brace arrives where the semicolon was expected
    let e = rejected(b"INIT { RECT }");
    assert_eq!(e.line, 1);
    assert_eq!(e.expected, Expected::Semicolon);
    assert_eq!(e.found, Some(TokenClass::Ccurly));

    let e2 = rejected(b"INIT {\n RECT\n}");
    assert_eq!(e2.line, 3);
    assert_eq!(e2.expected, Expected::Semicolon);
}

#[test]
fn rejected_sources_build_no_objects() {
    assert!(compile(&b"INIT { RECT }".to_vec()).is_err());
}

#[test]
fn duplicate_blocks_are_rejected() {
    let e = rejected(b"INIT { } INIT { }");
    assert_eq!(e.expected, Expected::UniqueBlock);
    let e2 = rejected(b"LOOP { } LOOP { }");
    assert_eq!(e2.expected, Expected::UniqueBlock);
}

#[test]
fn loop_statements_are_not_setup_statements() {
    let e = rejected(b"INIT { GROW 0 1.0; }");
    assert_eq!(e.expected, Expected::InitStmt);
    assert_eq!(e.found, Some(TokenClass::Grow));
    let e2 = rejected(b"LOOP { RECT; }");
    assert_eq!(e2.expected, Expected::LoopStmt);
    assert_eq!(e2.found, Some(TokenClass::RectObj));
}

#[test]
fn truncated_input_is_reported_at_the_end() {
    let e = rejected(b"LOOP { WAIT 1.0");
    assert_eq!(e.found, None);
    assert_eq!(e.expected, Expected::Semicolon);
    let e2 = rejected(b"INIT {");
    assert_eq!(e2.found, None);
    assert_eq!(e2.expected, Expected::InitStmt);
}

#[test]
fn malformed_statement_shapes_are_rejected() {
    assert_eq!(rejected(b"LOOP { GROW 0; }").expected, Expected::Number);
    assert_eq!(rejected(b"LOOP { FADE 0 v2(1 2) 1.0; }").expected, Expected::ColorDef);
    assert_eq!(rejected(b"LOOP { MOVE 0 c(1 2 3 4) 1.0; }").expected, Expected::Vector2Def);
    assert_eq!(rejected(b"LOOP { FADE 0 c(1 2 3) 1.0; }").expected, Expected::Number);
    assert_eq!(rejected(b"WAIT 1.0;").expected, Expected::Block);
    assert_eq!(rejected(b"INIT RECT;").expected, Expected::Ocurly);
    assert_eq!(rejected(b"INIT { TEXT RECT; }").expected, Expected::Text);
}

#[test]
fn compile_errors_carry_their_line() {
    let e = compile(&b"INIT {\n@".to_vec()).unwrap_err();
    assert_eq!(e.line(), 2);
    let e2 = compile(&b"INIT {\nRECT\n}".to_vec()).unwrap_err();
    assert_eq!(e2.line(), 3);
}

#[test]
fn parse_accepts_tokenized_input_directly() {
    let toks = tokenize(&b"INIT { RECT; }".to_vec()).unwrap();
    let (setup, loops) = parse(&toks).unwrap();
    assert_eq!(setup.len(), 1);
    assert_eq!(loops.len(), 0);
}
