use bad_apple::canvas::draw;
use bad_apple::frames::Frames;
use bad_apple::geometry::{HEIGHT, PIXELS, WIDTH};
use bad_apple::prefix::{prefixes, rect_sum, Prefix, STRIDE, TABLE};
use bad_apple::score::{approx, exact, scored, Circle};

fn scene(seed: usize) -> Vec<u8> {
    (0..PIXELS)
        .map(|i| {
            let x = i % WIDTH;
            let y = i / WIDTH;
            ((x * (seed + 3) / 5 + y * 2 + (x * y) % (seed + 7)) % 256) as u8
        })
        .collect()
}

fn spotted() -> Vec<u8> {
    (0..PIXELS)
        .map(|i| if (i % WIDTH / 40 + i / WIDTH / 30) % 3 == 0 { 255 } else { 0 })
        .collect()
}

fn blank() -> Prefix {
    Prefix {
        black: vec![0; TABLE],
        white: vec![0; TABLE],
    }
}

fn window(n: usize) -> Frames {
    let mut frames = Frames::new(n);
    for seed in 0..n {
        frames.push(scene(seed));
    }
    frames
}

fn error(canvas: &[u8], frames: &Frames) -> i64 {
    let n = frames.queue.len() as i64;
    let mut error = 0;
    for (j, frame) in frames.queue.iter().enumerate() {
        let weight = n - j as i64;
        for i in 0..PIXELS {
            error += weight * weight * (canvas[i] as i64 - frame[i] as i64).abs();
        }
    }
    error
}

fn cost(canvas: &[u8], frames: &Frames, i: usize, white: bool) -> i64 {
    let n = frames.queue.len() as i64;
    let total = 255 * n * (n + 1) * (2 * n + 1) / 6;
    let sum = 2 * frames.weighted[i] as i64;
    if canvas[i] == 0 && white {
        total - sum
    } else if canvas[i] != 0 && !white {
        sum - total
    } else {
        0
    }
}

#[test]
fn table_size() {
    assert_eq!(STRIDE, WIDTH + 1);
    assert_eq!(TABLE, (WIDTH + 1) * (HEIGHT + 1));
}

#[test]
fn tables_sum_the_costs() {
    let canvas = spotted();
    let frames = window(3);
    let mut prefix = blank();
    prefixes(&canvas, &frames, &mut prefix);
    for (white, table) in [(false, &prefix.black), (true, &prefix.white)] {
        assert!(table[..STRIDE].iter().all(|v| *v == 0));
        for (left, top, right, bottom) in [(0, 0, 1, 1), (3, 5, 40, 9), (1200, 700, 1280, 720)] {
            let mut sum = 0;
            for y in top..bottom {
                for x in left..right {
                    sum += cost(&canvas, &frames, y * WIDTH + x, white);
                }
            }
            assert_eq!(
                rect_sum(table, left as i32, top as i32, right as i32, bottom as i32),
                sum
            );
        }
    }
}

#[test]
fn tables_can_be_filled_again() {
    let frames = window(2);
    let mut once = blank();
    prefixes(&spotted(), &frames, &mut once);
    let mut twice = blank();
    prefixes(&scene(1), &window(3), &mut twice);
    prefixes(&spotted(), &frames, &mut twice);
    assert_eq!(once.black, twice.black);
    assert_eq!(once.white, twice.white);
}

#[test]
fn rectangles_are_cut_to_the_picture() {
    let table: Vec<i64> = (0..TABLE)
        .map(|i| ((i % STRIDE) * (i / STRIDE)) as i64)
        .collect();
    assert_eq!(rect_sum(&table, 10, 20, 14, 25), 20);
    assert_eq!(rect_sum(&table, -5, -5, 3, 4), 12);
    assert_eq!(rect_sum(&table, 1270, 715, 5000, 5000), 50);
    assert_eq!(rect_sum(&table, i32::MIN, i32::MIN, i32::MAX, i32::MAX), PIXELS as i64);
    assert_eq!(rect_sum(&table, 10, 10, 10, 20), 0);
    assert_eq!(rect_sum(&table, 20, 10, 10, 20), 0);
    assert_eq!(rect_sum(&table, 0, 720, 10, 900), 0);
    assert_eq!(rect_sum(&[], 5, 5, 5, 5), 0);
}

#[test]
fn exact_counts_the_disc() {
    let canvas = spotted();
    let frames = window(2);
    let mut prefix = blank();
    prefixes(&canvas, &frames, &mut prefix);
    for (cx, cy, radius) in [(0, 0, 1), (300, 200, 25), (-10, 700, 60), (1290, -30, 100)] {
        for white in [false, true] {
            let mut sum = 0;
            for i in 0..PIXELS {
                let dx = (i % WIDTH) as i32 - cx;
                let dy = (i / WIDTH) as i32 - cy;
                if dx * dx + dy * dy <= radius * radius {
                    sum += cost(&canvas, &frames, i, white);
                }
            }
            let table = if white { &prefix.white } else { &prefix.black };
            assert_eq!(exact(table, cx, cy, radius), sum);
            let circle = scored(&prefix, cx, cy, radius, white, true);
            assert_eq!(
                circle,
                Circle { x: cx, y: cy, radius, white, score: sum }
            );
        }
    }
}

#[test]
fn exact_score_is_the_change_of_the_error() {
    let canvas = spotted();
    let frames = window(3);
    let mut prefix = blank();
    prefixes(&canvas, &frames, &mut prefix);
    for (x, y, radius, white) in [(640, 360, 200, true), (100, 50, 77, false), (-20, 30, 45, true)] {
        let circle = scored(&prefix, x, y, radius, white, true);
        let mut after = canvas.clone();
        draw(&mut after, circle);
        assert_eq!(circle.score, error(&after, &frames) - error(&canvas, &frames));
    }
}

#[test]
fn approx_cuts_a_circle_into_bands() {
    let canvas = spotted();
    let frames = window(2);
    let mut prefix = blank();
    prefixes(&canvas, &frames, &mut prefix);
    for (x, y, radius) in [(640, 360, 1), (640, 360, 8), (30, 40, 50), (1279, 719, 720), (5, 5, 901)] {
        let diameter: i32 = radius * 2 + 1;
        let bands = diameter.min(15);
        let mut sum = 0;
        for band in 0..bands {
            let top = -radius + band * diameter / bands;
            let bottom = -radius + (band + 1) * diameter / bands;
            let dy = (top + bottom - 1) / 2;
            let mut half = 0;
            while (half + 1) * (half + 1) <= radius * radius - dy * dy {
                half += 1;
            }
            sum += rect_sum(&prefix.black, x - half, y + top, x + half + 1, y + bottom);
        }
        assert_eq!(approx(&prefix.black, x, y, radius), sum);
        assert_eq!(scored(&prefix, x, y, radius, false, false).score, sum);
    }
}

#[test]
fn approx_is_exact_for_small_circles() {
    let canvas = spotted();
    let frames = window(1);
    let mut prefix = blank();
    prefixes(&canvas, &frames, &mut prefix);
    for radius in 0..8 {
        for (x, y) in [(0, 0), (41, 33), (1279, 719), (-3, 400)] {
            assert_eq!(
                approx(&prefix.white, x, y, radius),
                exact(&prefix.white, x, y, radius)
            );
        }
    }
}

#[test]
fn circles_without_radius() {
    let table: Vec<i64> = (0..TABLE)
        .map(|i| ((i % STRIDE) * (i / STRIDE)) as i64)
        .collect();
    assert_eq!(exact(&table, 5, 5, 0), 1);
    assert_eq!(approx(&table, 5, 5, 0), 1);
    assert_eq!(exact(&table, 5, 5, -1), 0);
    assert_eq!(approx(&table, 5, 5, -1), 0);
    assert_eq!(exact(&table, 5, 5, -40), 0);
    assert_eq!(approx(&table, 5, 5, -40), 0);
    assert_eq!(exact(&table, 50, 50, 1), 5);
}
