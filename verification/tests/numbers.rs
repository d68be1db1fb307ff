use bad_apple::geometry::{clamp_to, intersects, isqrt, HEIGHT, PIXELS, WIDTH};
use bad_apple::rng::Rng;

#[test]
fn picture_size() {
    assert_eq!(WIDTH, 1280);
    assert_eq!(HEIGHT, 720);
    assert_eq!(PIXELS, 921_600);
}

#[test]
fn rng_first_draws() {
    let mut rng = Rng(1);
    assert_eq!(rng.next(), 16_514);
    assert_eq!(rng.0, 1_082_269_761);
    let mut rng = Rng(0x9e37_79b9_7f4a_7c15);
    let mut state: u64 = 0x9e37_79b9_7f4a_7c15;
    for _ in 0..1000 {
        state ^= state << 13;
        state ^= state >> 7;
        state ^= state << 17;
        assert_eq!(rng.next(), (state >> 16) as u32);
        assert_eq!(rng.0, state);
    }
}

#[test]
fn rng_zero_stays_zero() {
    let mut rng = Rng(0);
    assert_eq!(rng.next(), 0);
    assert_eq!(rng.0, 0);
    let mut rng = Rng(7);
    for _ in 0..1000 {
        rng.next();
        assert_ne!(rng.0, 0);
    }
}

#[test]
fn rng_states_do_not_merge() {
    let mut a = Rng(5);
    let mut b = Rng(6);
    for _ in 0..1000 {
        a.next();
        b.next();
        assert_ne!(a.0, b.0);
    }
}

#[test]
fn range_scales_the_draw() {
    let mut rng = Rng(1);
    assert_eq!(rng.range(0, 1280), (16_514u64 * 1280 >> 32) as i32);
    let mut draws = Rng(12345);
    let mut rng = Rng(12345);
    for _ in 0..1000 {
        let draw = draws.next() as u64;
        let value = rng.range(-900, 2181);
        assert_eq!(value, -900 + (draw * 3081 >> 32) as i32);
        assert!((-900..2181).contains(&value));
    }
}

#[test]
fn range_without_width() {
    let mut rng = Rng(99);
    assert_eq!(rng.range(17, 17), 17);
}

#[test]
fn square_roots() {
    assert_eq!(isqrt(0), 0);
    assert_eq!(isqrt(1), 1);
    assert_eq!(isqrt(3), 1);
    assert_eq!(isqrt(4), 2);
    assert_eq!(isqrt(810_000), 900);
    assert_eq!(isqrt(0xffff_ffff), 0xffff);
    assert_eq!(isqrt(0x1_0000_0000), 0x1_0000);
    assert_eq!(isqrt(u64::MAX), 0xffff_ffff);
    for n in 0..20_000u64 {
        let r = isqrt(n);
        assert!(r * r <= n && n < (r + 1) * (r + 1));
    }
}

#[test]
fn clamping() {
    assert_eq!(clamp_to(-1, 1280), 0);
    assert_eq!(clamp_to(0, 1280), 0);
    assert_eq!(clamp_to(77, 1280), 77);
    assert_eq!(clamp_to(1280, 1280), 1280);
    assert_eq!(clamp_to(i32::MAX, 720), 720);
    assert_eq!(clamp_to(i32::MIN, 720), 0);
}

#[test]
fn circles_that_touch_the_picture() {
    assert!(intersects(0, 0, 0));
    assert!(intersects(1279, 719, 0));
    assert!(!intersects(-1, 0, 0));
    assert!(intersects(-1, 0, 1));
    assert!(!intersects(1280, 0, 0));
    assert!(intersects(1280, 0, 1));
    assert!(!intersects(0, 720, 0));
    assert!(intersects(0, 720, 1));
    assert!(!intersects(-1, -1, 1));
    assert!(intersects(-3, -4, 5));
    assert!(!intersects(-4, -4, 5));
    assert!(intersects(1282, 723, 5));
    assert!(!intersects(1283, 723, 5));
    assert!(intersects(-3, 10, -3));
}
