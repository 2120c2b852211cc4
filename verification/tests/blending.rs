use acode::color::{blend_color, Color};
use acode::ease::{ease, Curve};
use acode::geom::{blend_vec2, to_absolute, Vec2};
use acode::num::{blend, to_channel, to_index, NUM_MAX, SCALE};

#[test]
fn ease_zero_at_start() {
    // ease(0, D) == 0 for both curves
    assert_eq!(ease(Curve::Linear, 0, 1000), 0);
    assert_eq!(ease(Curve::Smooth, 0, 1000), 0);
    assert_eq!(ease(Curve::Linear, 0, 7), 0);
    assert_eq!(ease(Curve::Smooth, 0, 7), 0);
}

#[test]
fn ease_full_at_duration() {
    // ease(D, D) == SCALE, and stays there past the duration
    assert_eq!(ease(Curve::Linear, 1000, 1000), SCALE);
    assert_eq!(ease(Curve::Smooth, 1000, 1000), SCALE);
    assert_eq!(ease(Curve::Linear, 1001, 1000), SCALE);
    assert_eq!(ease(Curve::Smooth, 5000, 1000), SCALE);
    // a non-positive duration is spent immediately
    assert_eq!(ease(Curve::Smooth, 0, 0), SCALE);
    assert_eq!(ease(Curve::Linear, 0, -500), SCALE);
}

#[test]
fn ease_is_monotone_in_samples() {
    for curve in [Curve::Linear, Curve::Smooth] {
        let mut last = 0i64;
        for t in 0..=20i64 {
            let f = ease(curve, t * 50, 1000);
            assert!(f >= last, "factor decreased");
            assert!((0..=SCALE).contains(&f));
            last = f;
        }
        assert_eq!(last, SCALE);
    }
}

#[test]
fn ease_linear_midpoint() {
    assert_eq!(ease(Curve::Linear, 500, 1000), 500);
    assert_eq!(ease(Curve::Linear, 250, 1000), 250);
    // the smooth curve also crosses one half at the midpoint
    assert_eq!(ease(Curve::Smooth, 500, 1000), 500);
    // but eases in more slowly than the line
    assert!(ease(Curve::Smooth, 250, 1000) < 250);
}

#[test]
fn blend_hits_both_ends_exactly() {
    assert_eq!(blend(300, 900, 0), 300);
    assert_eq!(blend(300, 900, SCALE), 900);
    assert_eq!(blend(900, 300, SCALE), 300);
    assert_eq!(blend(-400, 200, SCALE), 200);
    assert_eq!(blend(300, 900, 500), 600);
}

#[test]
fn blend_vec2_keeps_the_relative_tag() {
    let a = Vec2::Relative(0, 0);
    let b = Vec2::Relative(1000, 2000);
    let mid = blend_vec2(a, b, 500).unwrap();
    assert_eq!(mid, Vec2::Relative(500, 1000));
    assert!(matches!(mid, Vec2::Relative(..)));
}

#[test]
fn blend_vec2_keeps_the_absolute_tag() {
    let a = Vec2::Absolute(100, 100);
    let b = Vec2::Absolute(300, 500);
    let mid = blend_vec2(a, b, 500).unwrap();
    assert_eq!(mid, Vec2::Absolute(200, 300));
    assert!(matches!(mid, Vec2::Absolute(..)));
}

#[test]
fn blend_vec2_rejects_mixed_tags() {
    let a = Vec2::Relative(0, 0);
    let b = Vec2::Absolute(300, 500);
    assert_eq!(blend_vec2(a, b, 500), None);
    assert_eq!(blend_vec2(b, a, 0), None);
}

#[test]
fn to_absolute_scales_relative_vectors() {
    assert_eq!(to_absolute(Vec2::Relative(1000, -2000)), Vec2::Absolute(50000, -100000));
    assert_eq!(to_absolute(Vec2::Absolute(70, 80)), Vec2::Absolute(70, 80));
}

#[test]
fn color_from_hex_unpacks_channels() {
    let c = Color::from_hex(0xf5ebe0ff);
    assert_eq!((c.r, c.g, c.b, c.a), (0xf5, 0xeb, 0xe0, 0xff));
    let w = Color::from_hex(0xffffffff);
    assert_eq!((w.r, w.g, w.b, w.a), (255, 255, 255, 255));
}

#[test]
fn color_blend_hits_both_ends() {
    let s = Color { r: 0, g: 121, b: 241, a: 255 };
    let e = Color { r: 230, g: 41, b: 55, a: 255 };
    assert_eq!(blend_color(s, e, 0), s);
    assert_eq!(blend_color(s, e, SCALE), e);
    let mid = blend_color(s, e, 500);
    assert_eq!(mid, Color { r: 115, g: 81, b: 148, a: 255 });
}

#[test]
fn number_coercions_truncate_and_saturate() {
    // object indices truncate toward zero, negatives give zero
    assert_eq!(to_index(1900), 1);
    assert_eq!(to_index(2000), 2);
    assert_eq!(to_index(-500), 0);
    assert_eq!(to_index(0), 0);
    // color channels additionally saturate into 0 ..= 255
    assert_eq!(to_channel(300_000), 255);
    assert_eq!(to_channel(-5_000), 0);
    assert_eq!(to_channel(230_000), 230);
    assert_eq!(to_channel(999), 0);
    assert_eq!(to_channel(NUM_MAX), 255);
}
