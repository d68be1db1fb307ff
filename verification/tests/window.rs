use bad_apple::frames::Frames;
use bad_apple::geometry::PIXELS;

fn flat(value: u8) -> Vec<u8> {
    vec![value; PIXELS]
}

fn ramp(seed: usize) -> Vec<u8> {
    (0..PIXELS).map(|i| ((i * 7 + seed * 31) % 256) as u8).collect()
}

fn check_sums(frames: &Frames) {
    let n = frames.queue.len() as u32;
    for i in (0..PIXELS).step_by(997) {
        let mut sum = 0;
        let mut linear = 0;
        let mut weighted = 0;
        for (j, frame) in frames.queue.iter().enumerate() {
            let weight = n - j as u32;
            sum += frame[i] as u32;
            linear += weight * frame[i] as u32;
            weighted += weight * weight * frame[i] as u32;
        }
        assert_eq!(frames.sum[i], sum);
        assert_eq!(frames.linear[i], linear);
        assert_eq!(frames.weighted[i], weighted);
    }
}

#[test]
fn new_window_is_empty() {
    let frames = Frames::new(30);
    assert_eq!(frames.queue.len(), 0);
    assert_eq!(frames.limit, 30);
    assert_eq!(frames.sum.len(), PIXELS);
    assert!(frames.sum.iter().all(|v| *v == 0));
    assert!(frames.linear.iter().all(|v| *v == 0));
    assert!(frames.weighted.iter().all(|v| *v == 0));
    assert!(frames.wants_frame());
    assert!(!Frames::new(0).wants_frame());
}

#[test]
fn push_weighs_older_frames_more() {
    let mut frames = Frames::new(3);
    frames.push(flat(10));
    frames.push(flat(20));
    frames.push(flat(30));
    assert!(!frames.wants_frame());
    assert_eq!(frames.sum[0], 60);
    assert_eq!(frames.linear[PIXELS - 1], 3 * 10 + 2 * 20 + 30);
    assert_eq!(frames.weighted[12345], 9 * 10 + 4 * 20 + 30);
    check_sums(&frames);
}

#[test]
fn advance_moves_the_window() {
    let mut frames = Frames::new(4);
    for seed in 0..4 {
        frames.push(ramp(seed));
    }
    check_sums(&frames);
    frames.advance(Some(ramp(9)));
    assert_eq!(frames.queue.len(), 4);
    assert_eq!(frames.queue[0], ramp(1));
    assert_eq!(frames.queue[3], ramp(9));
    check_sums(&frames);
    frames.advance(None);
    assert_eq!(frames.queue.len(), 3);
    assert_eq!(frames.queue[0], ramp(2));
    check_sums(&frames);
    frames.advance(None);
    frames.advance(None);
    frames.advance(None);
    assert_eq!(frames.queue.len(), 0);
    assert!(frames.weighted.iter().all(|v| *v == 0));
    assert!(frames.linear.iter().all(|v| *v == 0));
    assert!(frames.sum.iter().all(|v| *v == 0));
}

#[test]
fn full_window_of_white_frames_fits() {
    let mut frames = Frames::new(30);
    while frames.wants_frame() {
        frames.push(flat(255));
    }
    assert_eq!(frames.queue.len(), 30);
    assert_eq!(frames.weighted[0], 255 * 9455);
}

#[test]
fn longest_window_that_always_fits() {
    let mut frames = Frames::new(0);
    for _ in 0..369 {
        frames.push(flat(255));
    }
    assert_eq!(frames.weighted[7], 255 * 16_815_945);
}
