use acode::color::Color;
use acode::compile;
use acode::ease::Curve;
use acode::engine::{BuildError, Interpreter, Object, ObjectKind};
use acode::geom::Vec2;
use acode::parser::Instruction;

fn build(src: &[u8]) -> Interpreter {
    let (setup, loops) = compile(&src.to_vec()).expect("expected the source to compile");
    Interpreter::new(setup, loops, Curve::Smooth).expect("expected the program to build")
}

fn rect_size(o: &Object) -> Vec2 {
    match &o.kind {
        ObjectKind::Rect { size } => *size,
        _ => panic!("expected a rectangle"),
    }
}

fn text_font(o: &Object) -> i64 {
    match &o.kind {
        ObjectKind::Text { font_size, .. } => *font_size,
        _ => panic!("expected a text"),
    }
}

#[test]
fn grow_wait_fade_scenario() {
    let mut it = build(b"INIT { RECT; } LOOP { GROW 0 1.0; WAIT 0.5; FADE 0 c(255,0,0,255) 1.0; }");
    // after a total of 1.0s the rectangle is its full relative unit square
    it.advance(1000);
    assert_eq!(rect_size(&it.objects()[0]), Vec2::Relative(1000, 1000));
    assert!(it.objects()[0].enabled);
    assert!(!it.is_completed());
    // after 1.5s in total nothing further has changed: the wait just ended
    it.advance(500);
    assert_eq!(rect_size(&it.objects()[0]), Vec2::Relative(1000, 1000));
    assert_eq!(it.objects()[0].color, Color { r: 255, g: 255, b: 255, a: 255 });
    // after 2.5s in total the fade has landed exactly on its target
    it.advance(1000);
    assert_eq!(it.objects()[0].color, Color { r: 255, g: 0, b: 0, a: 255 });
    assert!(it.is_completed());
}

#[test]
fn move_scenario_runs_origin_to_target() {
    let mut it = build(b"INIT { TEXT \"Hi\"; } LOOP { MOVE 0 v2(2.0,3.0) 1.0; }");
    // at t = 0 the text sits at its initial relative origin
    assert_eq!(it.objects()[0].position, Vec2::Relative(0, 0));
    match &it.objects()[0].kind {
        ObjectKind::Text { content, .. } => assert_eq!(content, &b"Hi".to_vec()),
        _ => panic!("expected a text"),
    }
    // from t = 1.0 on it sits exactly on the relative target
    it.advance(1000);
    assert_eq!(it.objects()[0].position, Vec2::Relative(2000, 3000));
    assert!(it.is_completed());
    it.advance(700);
    assert_eq!(it.objects()[0].position, Vec2::Relative(2000, 3000));
    // a move alone never shows the object
    assert!(!it.objects()[0].enabled);
}

#[test]
fn completion_is_idempotent() {
    let mut it = build(b"INIT { RECT; } LOOP { GROW 0 1.0; MOVE 0 v2(1.0,1.0) 0.5; }");
    it.advance(1500);
    assert!(it.is_completed());
    let before: Vec<Object> = it.objects().clone();
    for _ in 0..10 {
        it.advance(333);
        assert!(it.is_completed());
        assert_eq!(it.objects(), &before);
    }
}

#[test]
fn leftover_time_flows_across_instructions() {
    // one coarse jump covers the whole loop and lands on final values
    let mut it = build(
        b"INIT { RECT; TEXT \"t\"; } LOOP { GROW 0 1.0; WAIT 0.5; FADE 1 c(9,8,7,6) 0.25; MOVE 0 v2(-1.5,0.25) 1.0; }",
    );
    it.advance(2750);
    assert!(it.is_completed());
    assert_eq!(rect_size(&it.objects()[0]), Vec2::Relative(1000, 1000));
    assert_eq!(it.objects()[0].position, Vec2::Relative(-1500, 250));
    assert_eq!(it.objects()[1].color, Color { r: 9, g: 8, b: 7, a: 6 });
}

#[test]
fn many_small_frames_reach_the_same_end() {
    let mut coarse = build(b"INIT { RECT; } LOOP { GROW 0 1.0; MOVE 0 v2(0.5,0.5) 1.0; }");
    let mut fine = build(b"INIT { RECT; } LOOP { GROW 0 1.0; MOVE 0 v2(0.5,0.5) 1.0; }");
    coarse.advance(2000);
    for _ in 0..125 {
        fine.advance(16);
    }
    assert!(coarse.is_completed());
    assert!(fine.is_completed());
    assert_eq!(coarse.objects(), fine.objects());
}

#[test]
fn grow_shows_a_hidden_object() {
    let mut it = build(b"INIT { RECT; } LOOP { GROW 0 10.0; }");
    assert!(!it.objects()[0].enabled);
    it.advance(100);
    assert!(it.objects()[0].enabled);
    assert!(!it.is_completed());
}

#[test]
fn fade_shows_a_hidden_object_even_after_off() {
    let mut it = build(b"INIT { RECT; } LOOP { OFF 0; FADE 0 c(1,2,3,4) 10.0; }");
    it.advance(100);
    assert!(it.objects()[0].enabled);
}

#[test]
fn on_and_off_switch_visibility_without_time() {
    let mut it = build(b"INIT { RECT; } LOOP { ON 0; WAIT 1.0; OFF 0; }");
    it.advance(500);
    assert!(it.objects()[0].enabled);
    it.advance(500);
    assert!(!it.objects()[0].enabled);
    assert!(it.is_completed());
}

#[test]
fn grow_scales_a_text_font_back_to_its_size() {
    let mut it = build(b"INIT { TEXT \"x\"; } LOOP { GROW 0 2.0; }");
    assert_eq!(text_font(&it.objects()[0]), 30000);
    it.advance(500);
    // mid-grow the font is somewhere on its way up from nothing
    let mid = text_font(&it.objects()[0]);
    assert!(0 < mid && mid < 30000);
    it.advance(1500);
    assert_eq!(text_font(&it.objects()[0]), 30000);
    assert!(it.is_completed());
}

#[test]
fn pause_suspends_advancing() {
    let mut it = build(b"INIT { RECT; } LOOP { GROW 0 1.0; }");
    assert!(!it.is_paused());
    it.set_paused(true);
    assert!(it.is_paused());
    it.advance(5000);
    assert!(!it.is_completed());
    assert!(!it.objects()[0].enabled);
    it.set_paused(false);
    it.advance(1000);
    assert!(it.is_completed());
}

#[test]
fn restart_rewinds_the_cursor_not_the_objects() {
    let mut it = build(b"INIT { RECT; } LOOP { MOVE 0 v2(1.0,0.0) 1.0; }");
    it.advance(1000);
    assert!(it.is_completed());
    it.restart();
    assert!(!it.is_completed());
    // the table keeps its values; the next pass moves from where it stands
    assert_eq!(it.objects()[0].position, Vec2::Relative(1000, 0));
    it.advance(1000);
    assert!(it.is_completed());
}

#[test]
fn measured_text_bounds_can_be_installed() {
    let mut it = build(b"INIT { RECT; TEXT \"Hi\"; }");
    assert!(!it.set_text_bounds(0, 700, 800));
    assert!(!it.set_text_bounds(5, 700, 800));
    assert!(it.set_text_bounds(1, 700, 800));
    match &it.objects()[1].kind {
        ObjectKind::Text { bounds, .. } => assert_eq!(*bounds, Vec2::Relative(700, 800)),
        _ => panic!("expected a text"),
    }
}

#[test]
fn out_of_range_index_is_rejected_at_build_time() {
    let (setup, loops) = compile(&b"INIT { RECT; } LOOP { GROW 3 1.0; }".to_vec()).unwrap();
    let r = Interpreter::new(setup, loops, Curve::Smooth);
    assert_eq!(r.err(), Some(BuildError::IndexError { at: 0, index: 3, count: 1 }));
}

#[test]
fn non_create_setup_instruction_is_rejected() {
    let r = Interpreter::new(vec![Instruction::Wait(1000)], Vec::new(), Curve::Smooth);
    assert_eq!(r.err(), Some(BuildError::SetupError { at: 0 }));
}

#[test]
fn create_inside_the_loop_is_rejected() {
    let r = Interpreter::new(
        Vec::new(),
        vec![Instruction::Create(acode::parser::ObjInfo::Rect)],
        Curve::Smooth,
    );
    assert_eq!(r.err(), Some(BuildError::UnsupportedAction { at: 0 }));
}

#[test]
fn negative_durations_finish_instantly() {
    let mut it = build(b"INIT { RECT; } LOOP { MOVE 0 v2(1.0,1.0) -2.0; WAIT 0.5; }");
    it.advance(100);
    assert_eq!(it.objects()[0].position, Vec2::Relative(1000, 1000));
    assert!(!it.is_completed());
    it.advance(400);
    assert!(it.is_completed());
}

#[test]
fn linear_and_smooth_curves_are_selectable() {
    let (setup, loops) = compile(&b"INIT { RECT; } LOOP { GROW 0 1.0; }".to_vec()).unwrap();
    let mut lin = Interpreter::new(setup.clone(), loops.clone(), Curve::Linear).unwrap();
    let mut smo = Interpreter::new(setup, loops, Curve::Smooth).unwrap();
    lin.advance(250);
    smo.advance(250);
    let lsize = rect_size(&lin.objects()[0]);
    let ssize = rect_size(&smo.objects()[0]);
    assert_eq!(lsize, Vec2::Relative(250, 250));
    // the smooth curve eases in below the line early on
    match ssize {
        Vec2::Relative(x, y) => {
            assert!(x < 250 && y < 250);
            assert!(x > 0 && y > 0);
        },
        _ => panic!("expected a relative size"),
    }
}

#[test]
fn built_in_sample_compiles_and_runs() {
    assert!(acode::acode_test());
    assert!(acode::engine_expr());
    let src = acode::sample_source_vec();
    let mut it = build(&src);
    it.advance(7000);
    assert!(it.is_completed());
}
