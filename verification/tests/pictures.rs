use bad_apple::canvas::draw;
use bad_apple::geometry::{HEIGHT, PIXELS, WIDTH};
use bad_apple::score::Circle;
use bad_apple::tile::tile;

fn circle(x: i32, y: i32, radius: i32, white: bool) -> Circle {
    Circle { x, y, radius, white, score: 0 }
}

fn noise(seed: usize) -> Vec<u8> {
    (0..PIXELS).map(|i| ((i * 13 + i / WIDTH * 29 + seed * 101) % 251) as u8).collect()
}

#[test]
fn draw_paints_the_disc() {
    for (x, y, radius, white) in [
        (0, 0, 1, true),
        (640, 360, 100, true),
        (-30, 200, 80, false),
        (1300, 730, 50, true),
        (640, 360, 901, false),
        (10, 10, 0, true),
        (5000, 5000, 10, true),
    ] {
        let before = noise(1);
        let mut canvas = before.clone();
        draw(&mut canvas, circle(x, y, radius, white));
        for i in 0..PIXELS {
            let dx = (i % WIDTH) as i32 - x;
            let dy = (i / WIDTH) as i32 - y;
            let expected = if dx * dx + dy * dy > radius * radius {
                before[i]
            } else if white {
                255
            } else {
                0
            };
            assert_eq!(canvas[i], expected);
        }
    }
}

#[test]
fn draw_twice_is_draw_once() {
    let mut once = noise(2);
    draw(&mut once, circle(300, 300, 77, true));
    let mut twice = once.clone();
    draw(&mut twice, circle(300, 300, 77, true));
    assert_eq!(once, twice);
}

#[test]
fn draw_keeps_black_and_white() {
    let mut canvas = vec![0u8; PIXELS];
    draw(&mut canvas, circle(300, 300, 200, true));
    draw(&mut canvas, circle(350, 280, 100, false));
    assert!(canvas.iter().all(|v| *v == 0 || *v == 255));
    assert!(canvas.contains(&255));
}

#[test]
fn draw_nothing() {
    let before = noise(3);
    let mut canvas = before.clone();
    draw(&mut canvas, circle(10, 10, -5, true));
    assert_eq!(canvas, before);
    let mut empty: Vec<u8> = Vec::new();
    draw(&mut empty, circle(-100, -100, 20, true));
    assert!(empty.is_empty());
}

#[test]
fn tile_one_is_the_canvas() {
    let canvas = noise(4);
    assert_eq!(tile(&[canvas.clone()]), canvas);
}

fn expected_tiles(canvases: &[Vec<u8>], columns: usize, rows: usize) -> Vec<u8> {
    let mut frame = vec![0u8; PIXELS];
    for (cell, canvas) in canvases.iter().enumerate() {
        let (column, row) = (cell % columns, cell / columns);
        let (left, right) = (column * WIDTH / columns, (column + 1) * WIDTH / columns);
        let (top, bottom) = (row * HEIGHT / rows, (row + 1) * HEIGHT / rows);
        for y in top..bottom {
            for x in left..right {
                let source_y = (y - top) * HEIGHT / (bottom - top);
                let source_x = (x - left) * WIDTH / (right - left);
                frame[y * WIDTH + x] = canvas[source_y * WIDTH + source_x];
            }
        }
    }
    frame
}

#[test]
fn tile_grids() {
    for (n, columns, rows) in [(2, 2, 1), (3, 2, 2), (4, 2, 2), (5, 3, 2), (7, 3, 3), (10, 4, 3)] {
        let canvases: Vec<Vec<u8>> = (0..n).map(noise).collect();
        assert_eq!(tile(&canvases), expected_tiles(&canvases, columns, rows));
    }
}

#[test]
fn tile_leaves_the_rest_black() {
    let canvases = vec![vec![255u8; PIXELS]; 3];
    let frame = tile(&canvases);
    assert_eq!(frame[0], 255);
    assert_eq!(frame[719 * WIDTH], 255);
    assert_eq!(frame[719 * WIDTH + 639], 255);
    assert_eq!(frame[719 * WIDTH + 640], 0);
    assert_eq!(frame[PIXELS - 1], 0);
    assert_eq!(frame[359 * WIDTH + 1279], 255);
    assert_eq!(frame[360 * WIDTH + 1279], 0);
}

#[test]
fn tile_a_hundred() {
    let canvases: Vec<Vec<u8>> = (0..100).map(|k| vec![k as u8; PIXELS]).collect();
    let frame = tile(&canvases);
    assert_eq!(frame[0], 0);
    assert_eq!(frame[128], 1);
    assert_eq!(frame[72 * WIDTH], 10);
    assert_eq!(frame[PIXELS - 1], 99);
}

#[test]
fn tile_full_grids_leave_nothing_out() {
    for n in [1, 2, 4, 6, 9, 12] {
        let canvases = vec![vec![255u8; PIXELS]; n];
        assert!(tile(&canvases).iter().all(|v| *v == 255));
    }
}
