use crab_ray::color::{Color, Pixel};
use crab_ray::fixed::{fabs, fdiv, fmul, fsqrt, SCALE};
use crab_ray::gamma::{gamma_decode, gamma_encode};

const S: i64 = 65536;

/// Fixed-point arithmetic matches the exact values on simple inputs, and
/// rounds toward zero on both signs.
#[test]
fn fixed_point_arithmetic_exact() {
    assert_eq!(SCALE, S);
    assert_eq!(fmul(3 * S, 2 * S), 6 * S);
    assert_eq!(fmul(-3 * S, 2 * S), -6 * S);
    assert_eq!(fmul(3, 3), 0); // sub-unit values truncate toward zero
    assert_eq!(fmul(-3, 3), 0);
    assert_eq!(fdiv(S, 2 * S), S / 2);
    assert_eq!(fdiv(-3, 2 * S), -1); // -1.5 raw units rounds toward zero
    assert_eq!(fdiv(3, 2 * S), 1);
    assert_eq!(fsqrt(4 * S), 2 * S);
    assert_eq!(fsqrt(0), 0);
    assert_eq!(fabs(-7 * S), 7 * S);
    assert_eq!(fabs(7 * S), 7 * S);
}

/// The gamma curve agrees with the floating-point reference `x^2.2` within
/// a few fixed-point steps.
#[test]
fn gamma_matches_reference() {
    for &v in &[0i64, 1, 100, 4096, 16384, 32768, 50000, 65535, 65536] {
        let d = gamma_decode(v);
        let expected = ((v as f64) / 65536.0).powf(2.2) * 65536.0;
        assert!(
            ((d as f64) - expected).abs() < 4.0,
            "decode({v}) == {d}, reference {expected}"
        );
        if v >= 4096 {
            let e = gamma_encode(v);
            let expected = ((v as f64) / 65536.0).powf(1.0 / 2.2) * 65536.0;
            assert!(
                ((e as f64) - expected).abs() < 4.0,
                "encode({v}) == {e}, reference {expected}"
            );
        }
    }
    assert_eq!(gamma_decode(0), 0);
    assert_eq!(gamma_decode(S), S);
    assert_eq!(gamma_encode(0), 0);
    assert_eq!(gamma_encode(S), S);
    // Past full intensity the encoder saturates.
    assert_eq!(gamma_encode(100 * S), S);
}

/// Round trip: encoding then decoding a component recovers it within
/// tolerance over the whole display range, and never overshoots.
#[test]
fn gamma_round_trip() {
    let mut v = 0i64;
    while v <= 65536 {
        let back = gamma_decode(gamma_encode(v));
        assert!(back >= v, "decode(encode({v})) == {back} undershoots");
        assert!(back - v < 16, "decode(encode({v})) == {back} too far off");
        let e = gamma_encode(gamma_decode(v));
        assert!(e <= v, "encode(decode({v})) == {e} may not overshoot");
        assert_eq!(gamma_decode(e), gamma_decode(v));
        v += 97;
    }
}

/// Colors are stored in linear light: construction decodes, conversion to a
/// pixel encodes, sums act channelwise.
#[test]
fn color_model() {
    let black = Color::black();
    assert_eq!(black.red, 0);
    assert_eq!(black.green, 0);
    assert_eq!(black.blue, 0);
    assert_eq!(black.to_pixel(), Pixel { b: 0, g: 0, r: 0, a: 255 });

    let white = Color::rgb(S, S, S);
    assert_eq!(white.red, S);
    assert_eq!(white.to_pixel(), Pixel { b: 255, g: 255, r: 255, a: 255 });

    let c = Color::rgb(0, 32768, S);
    assert_eq!(c.red, 0);
    assert_eq!(c.green, gamma_decode(32768));
    assert_eq!(c.blue, S);

    let sum = c.add(&white);
    assert_eq!(sum.red, S);
    assert_eq!(sum.green, gamma_decode(32768) + S);
    assert_eq!(sum.blue, 2 * S);

    let half = white.mul(32768);
    assert_eq!(half.red, 32768);
    // Half linear intensity displays much brighter than half the byte range.
    let px = half.to_pixel();
    assert!(px.r > 160 && px.r < 200, "got {}", px.r);

    // Black is the additive identity.
    let same = c.add(&Color::black());
    assert_eq!(same, c);
}
