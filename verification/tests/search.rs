use bad_apple::canvas::draw;
use bad_apple::frames::Frames;
use bad_apple::geometry::{intersects, HEIGHT, PIXELS, WIDTH};
use bad_apple::paint::{paint, FUTURE_FRAMES, MAX_BATCH, SAMPLES};
use bad_apple::prefix::{prefixes, Prefix, TABLE};
use bad_apple::rng::Rng;
use bad_apple::score::{scored, Circle};
use bad_apple::search::{best_circle, pick, MAX_DRAWN, MAX_RADIUS, RADII};
use bad_apple::top::{add_top, insert_top, TOP};

fn circle(x: i32, score: i64) -> Circle {
    Circle { x, y: 0, radius: 1, white: false, score }
}

fn blank() -> Prefix {
    Prefix {
        black: vec![0; TABLE],
        white: vec![0; TABLE],
    }
}

fn disc(cx: i32, cy: i32, radius: i32) -> Vec<u8> {
    (0..PIXELS)
        .map(|i| {
            let dx = (i % WIDTH) as i32 - cx;
            let dy = (i / WIDTH) as i32 - cy;
            if dx * dx + dy * dy <= radius * radius { 255 } else { 0 }
        })
        .collect()
}

fn tables(canvas: &[u8], frame: Vec<u8>) -> Prefix {
    let mut frames = Frames::new(1);
    frames.push(frame);
    let mut prefix = blank();
    prefixes(canvas, &frames, &mut prefix);
    prefix
}

#[test]
fn constants() {
    assert_eq!(TOP, 16);
    assert_eq!(MAX_RADIUS, 900);
    assert_eq!(MAX_DRAWN, 901);
    assert_eq!(SAMPLES, 4096);
    assert_eq!(MAX_BATCH, 8);
    assert_eq!(FUTURE_FRAMES, 30);
    assert_eq!(RADII.len(), 19);
    assert_eq!(RADII[0], 1);
    assert_eq!(RADII[18], 720);
}

#[test]
fn add_top_keeps_the_ranking() {
    let mut top = Vec::new();
    for (x, score) in [(0, 50), (1, -3), (2, 20), (3, 70), (4, 0)] {
        add_top(&mut top, circle(x, score));
    }
    let order: Vec<i32> = top.iter().map(|c| c.x).collect();
    assert_eq!(order, vec![1, 4, 2, 0, 3]);
}

#[test]
fn add_top_goes_where_the_search_finds_a_match() {
    let mut top: Vec<Circle> = [1, 2, 2, 2, 5].iter().map(|s| circle(0, *s)).collect();
    let at = top.binary_search_by_key(&2, |c| c.score).unwrap();
    assert!((1..4).contains(&at));
    add_top(&mut top, circle(9, 2));
    assert_eq!(top.len(), 6);
    assert_eq!(top[at].x, 9);
    assert!(top.windows(2).all(|pair| pair[0].score <= pair[1].score));
}

#[test]
fn add_top_keeps_the_best() {
    let mut top = Vec::new();
    for k in 0..40 {
        add_top(&mut top, circle(k, ((k * 17) % 41) as i64));
    }
    assert_eq!(top.len(), 16);
    let scores: Vec<i64> = top.iter().map(|c| c.score).collect();
    let mut all: Vec<i64> = (0..40).map(|k| ((k * 17) % 41) as i64).collect();
    all.sort();
    all.truncate(16);
    assert_eq!(scores, all);
    let before = top.clone();
    add_top(&mut top, circle(99, scores[15]));
    assert_eq!(top, before);
    add_top(&mut top, circle(99, scores[15] - 1));
    assert_ne!(top, before);
    assert_eq!(top.len(), 16);
}

#[test]
fn insert_top_cuts_the_list_down() {
    let mut top: Vec<Circle> = (0..16).map(|k| circle(k, k as i64)).collect();
    insert_top(&mut top, circle(77, 3), 2);
    assert_eq!(top.len(), 16);
    assert_eq!(top[2].x, 77);
    assert_eq!(top[3].x, 2);
    assert_eq!(top[15].x, 14);
    insert_top(&mut top, circle(88, 99), 16);
    assert_eq!(top[15].x, 14);
    let mut short = vec![circle(0, 0)];
    insert_top(&mut short, circle(1, 1), 1);
    assert_eq!(short.len(), 2);
}

#[test]
fn picks_follow_the_generator() {
    for sample in 0..200usize {
        let seed = 0x1234_5678_9abc_def0 ^ (sample as u64 * 77);
        let mut rng = Rng(seed);
        let mut plain = Rng(seed);
        let (radius, x, y) = pick(&mut rng, sample);
        let expected = if sample % 3 == 0 {
            RADII[(sample / 3) % RADII.len()]
        } else if sample % 3 == 1 {
            let value = plain.next() as u128;
            1 + (value * value * 900 / (u32::MAX as u128).pow(2)) as i32
        } else {
            plain.range(1, 901)
        };
        assert_eq!(radius, expected);
        if sample % 10 == 0 {
            assert_eq!(x, plain.range(-radius, WIDTH as i32 + radius + 1));
            assert_eq!(y, plain.range(-radius, HEIGHT as i32 + radius + 1));
        } else {
            assert_eq!(x, plain.range(0, WIDTH as i32));
            assert_eq!(y, plain.range(0, HEIGHT as i32));
        }
        assert_eq!(rng.0, plain.0);
    }
}

fn plain_search(prefix: &Prefix, white: bool, frame: usize, samples: usize) -> Circle {
    let mut rng = Rng(0x9e37_79b9_7f4a_7c15 ^ frame as u64);
    let mut top: Vec<Circle> = Vec::new();
    for sample in 0..samples {
        let (radius, x, y) = pick(&mut rng, sample);
        if !intersects(x, y, radius) {
            continue;
        }
        for white in [false, true] {
            let circle = scored(prefix, x, y, radius, white, false);
            if top.len() < 16 || circle.score < top.last().unwrap().score {
                let at = top
                    .binary_search_by_key(&circle.score, |item| item.score)
                    .unwrap_or_else(|at| at);
                top.insert(at, circle);
                top.truncate(16);
            }
        }
    }
    let mut best = scored(prefix, 0, 0, 1, white, true);
    for c in top {
        let circle = scored(prefix, c.x, c.y, c.radius, c.white, true);
        if circle.score < best.score {
            best = circle;
        }
    }
    let mut step = (best.radius / 2).clamp(1, 128);
    loop {
        let base = best;
        for (x, y, radius) in [
            (base.x - step, base.y, base.radius),
            (base.x + step, base.y, base.radius),
            (base.x, base.y - step, base.radius),
            (base.x, base.y + step, base.radius),
            (base.x, base.y, (base.radius - step).max(1)),
            (base.x, base.y, (base.radius + step).min(900)),
        ] {
            if intersects(x, y, radius) {
                for white in [false, true] {
                    let circle = scored(prefix, x, y, radius, white, true);
                    if circle.score < best.score {
                        best = circle;
                    }
                }
            }
        }
        if step == 1 {
            return best;
        }
        step = (step / 2).max(1);
    }
}

#[test]
fn search_step_by_step() {
    let canvas = disc(900, 100, 250);
    let prefix = tables(&canvas, disc(500, 300, 120));
    for frame in 0..6 {
        for samples in [0, 1, 40, 500] {
            assert_eq!(
                best_circle(&prefix, &canvas, frame, samples),
                plain_search(&prefix, canvas[0] != 0, frame, samples)
            );
        }
    }
}

#[test]
fn search_finds_a_lone_disc() {
    let canvas = vec![0u8; PIXELS];
    let target = disc(500, 300, 120);
    let prefix = tables(&canvas, target.clone());
    let best = best_circle(&prefix, &canvas, 0, 4096);
    assert!(best.white);
    assert!((best.x - 500).abs() <= 6 && (best.y - 300).abs() <= 6);
    assert!((best.radius - 120).abs() <= 6);
    let white = target.iter().filter(|v| **v == 255).count() as i64;
    assert!(best.score <= -255 * white * 9 / 10);
    assert_eq!(best, scored(&prefix, best.x, best.y, best.radius, true, true));
}

#[test]
fn search_is_never_worse_than_the_corner() {
    let canvas = disc(0, 0, 30);
    let prefix = tables(&canvas, canvas.clone());
    let best = best_circle(&prefix, &canvas, 3, 100);
    assert_eq!(best.score, 0);
    assert_eq!(scored(&prefix, 0, 0, 1, true, true).score, 0);
    assert_eq!(best, scored(&prefix, 0, 0, 1, true, true));
}

#[test]
fn paint_draws_in_batches() {
    let target = disc(640, 360, 200);
    let mut frames = Frames::new(1);
    frames.push(target);
    for (shapes, batch) in [(0usize, 1usize), (1, 1), (3, 1), (17, 2), (20, 2)] {
        let mut canvas = vec![0u8; PIXELS];
        let mut prefix = blank();
        paint(&mut canvas, &frames, &mut prefix, shapes, 2);
        let mut expected = vec![0u8; PIXELS];
        let mut scratch = blank();
        let mut start = 0;
        while start < shapes {
            prefixes(&expected, &frames, &mut scratch);
            let circles: Vec<Circle> = (start..(start + batch).min(shapes))
                .map(|shape| best_circle(&scratch, &expected, shapes * 2 + shape, 4096 / batch))
                .collect();
            for circle in circles {
                draw(&mut expected, circle);
            }
            start += batch;
        }
        assert_eq!(canvas, expected);
    }
}

#[test]
fn paint_large_counts_eight_at_a_time() {
    let mut frames = Frames::new(1);
    frames.push(disc(300, 300, 100));
    let mut canvas = vec![0u8; PIXELS];
    let mut prefix = blank();
    paint(&mut canvas, &frames, &mut prefix, 66, 0);
    let mut expected = vec![0u8; PIXELS];
    let mut scratch = blank();
    for start in (0..66).step_by(8) {
        prefixes(&expected, &frames, &mut scratch);
        let circles: Vec<Circle> = (start..(start + 8).min(66))
            .map(|shape| best_circle(&scratch, &expected, shape, 512))
            .collect();
        for circle in circles {
            draw(&mut expected, circle);
        }
    }
    assert_eq!(canvas, expected);
    assert!(canvas.iter().all(|v| *v == 0 || *v == 255));
}

#[test]
fn found_score_is_the_change_of_the_error() {
    let canvas = disc(900, 100, 250);
    let target = disc(500, 300, 120);
    let prefix = tables(&canvas, target.clone());
    let error = |canvas: &[u8]| -> i64 {
        canvas.iter().zip(&target).map(|(a, b)| (*a as i64 - *b as i64).abs()).sum()
    };
    for frame in 0..3 {
        let best = best_circle(&prefix, &canvas, frame, 300);
        let mut after = canvas.clone();
        draw(&mut after, best);
        assert_eq!(best.score, error(&after) - error(&canvas));
        assert!(best.score < 0);
    }
}
