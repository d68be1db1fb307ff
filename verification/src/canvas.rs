//! Drawing circles on a canvas.

use vstd::prelude::*;

use crate::geometry::{HEIGHT, PIXELS, WIDTH, clamp_to, clamped, fits_i32, in_disc, isqrt};
use crate::score::{Circle, half_chord, half_chord_bounds};

verus! {

/// The value of a pixel painted in that colour.
pub open spec fn tone(white: bool) -> u8 {
    if white {
        255
    } else {
        0
    }
}

/// The pixel at place `i` of a canvas lies in the circle.
pub open spec fn covers(circle: Circle, i: int) -> bool {
    i < PIXELS && in_disc(
        circle.x as int,
        circle.y as int,
        circle.radius as int,
        i % (WIDTH as int),
        i / (WIDTH as int),
    )
}

/// The canvas with every pixel in the circle painted in the circle's colour.
pub open spec fn painted(canvas: Seq<u8>, circle: Circle) -> Seq<u8> {
    Seq::new(
        canvas.len(),
        |i: int|
            if covers(circle, i) {
                tone(circle.white)
            } else {
                canvas[i]
            },
    )
}

/// The row can be drawn: its number fits an `i32` and, where it is a row of the picture,
/// so do the ends of the chord, and the canvas holds what is painted.
pub open spec fn row_drawable(len: int, circle: Circle, dy: int) -> bool {
    let row = circle.y + dy;
    let half = half_chord(circle.radius as int, dy);
    &&& fits_i32(row)
    &&& 0 <= row < HEIGHT ==> {
        &&& fits_i32(circle.radius * circle.radius)
        &&& fits_i32(circle.x - half)
        &&& fits_i32(circle.x + half + 1)
        &&& row * WIDTH + clamped(circle.x + half + 1, 0, WIDTH as int) <= len
    }
}

/// Every row of the circle can be drawn on a canvas of that length.
pub open spec fn drawable(len: int, circle: Circle) -> bool {
    &&& fits_i32(-circle.radius)
    &&& forall|dy: int|
        -circle.radius <= dy <= circle.radius ==> #[trigger] row_drawable(len, circle, dy)
}

/// The pixels of a row that lie in a disc are those of the row's chord.
pub proof fn disc_row(x: int, y: int, radius: int, px: int, py: int)
    requires
        -radius <= py - y <= radius,
    ensures
        in_disc(x, y, radius, px, py) <==> x - half_chord(radius, py - y) <= px <= x + half_chord(
            radius,
            py - y,
        ),
{
    let dy = py - y;
    let dx = px - x;
    let h = half_chord(radius, dy);
    half_chord_bounds(radius, dy);
    let n = radius * radius - dy * dy;
    assert(dx * dx <= n <==> -h <= dx <= h) by (nonlinear_arith)
        requires
            0 <= h,
            h * h <= n,
            n < (h + 1) * (h + 1),
    ;
}

/// A row further from the centre than the radius has no pixels in the disc.
pub proof fn disc_no_row(x: int, y: int, radius: int, px: int, py: int)
    requires
        !(-radius <= py - y <= radius),
    ensures
        !in_disc(x, y, radius, px, py),
{
    if 0 <= radius {
        let dy = py - y;
        let dx = px - x;
        assert(dx * dx + dy * dy > radius * radius) by (nonlinear_arith)
            requires
                0 <= radius,
                dy < -radius || radius < dy,
        ;
    }
}

/// The canvas with the pixels of the circle painted up to that row and column.
pub open spec fn painted_to(canvas: Seq<u8>, circle: Circle, row: int, column: int) -> Seq<u8> {
    Seq::new(
        canvas.len(),
        |i: int|
            if covers(circle, i) && (i / (WIDTH as int) < row || (i / (WIDTH as int) == row && i
                % (WIDTH as int) < column)) {
                tone(circle.white)
            } else {
                canvas[i]
            },
    )
}

/// Draws the circle on the canvas.
pub fn draw(canvas: &mut [u8], circle: Circle)
    requires
        drawable(old(canvas).len() as int, circle),
    ensures
        final(canvas)@ == painted(old(canvas)@, circle),
{
    let ghost before = canvas@;
    let ghost cx = circle.x as int;
    let ghost cy = circle.y as int;
    let ghost cr = circle.radius as int;
    let color: u8 = if circle.white {
        255
    } else {
        0
    };
    proof {
        assert forall|i: int| 0 <= i < before.len() && covers(circle, i) implies cy - cr <= i / (
        WIDTH as int) by {
            if !(-cr <= i / (WIDTH as int) - cy <= cr) {
                disc_no_row(cx, cy, cr, i % (WIDTH as int), i / (WIDTH as int));
            }
        }
        assert(before =~= painted_to(before, circle, cy - cr, 0));
    }
    let mut dy: i32 = -circle.radius;
    while dy <= circle.radius
        invariant
            -circle.radius <= dy,
            0 <= circle.radius ==> dy <= circle.radius + 1,
            circle.radius < 0 ==> dy == -circle.radius,
            cx == circle.x,
            cy == circle.y,
            cr == circle.radius,
            color == tone(circle.white),
            drawable(before.len() as int, circle),
            canvas@ == painted_to(before, circle, cy + dy, 0),
        decreases circle.radius + 1 - dy,
    {
        proof {
            assert(row_drawable(before.len() as int, circle, dy as int));
            if circle.radius == i32::MAX {
                assert(row_drawable(before.len() as int, circle, cr));
                assert(row_drawable(before.len() as int, circle, -cr));
                assert(row_drawable(before.len() as int, circle, -cy));
                assert(0x7fff_ffffint * 0x7fff_ffff > 0x7fff_ffff) by (nonlinear_arith);
            }
        }
        let y: i32 = circle.y + dy;
        if 0 <= y && y < HEIGHT as i32 {
            proof {
                half_chord_bounds(cr, dy as int);
                assert(0 <= dy * dy <= cr * cr) by (nonlinear_arith)
                    requires
                        -cr <= dy <= cr,
                ;
            }
            let half: i32 = isqrt((circle.radius * circle.radius - dy * dy) as u64) as i32;
            let left: usize = clamp_to(circle.x - half, WIDTH);
            let right: usize = clamp_to(circle.x + half + 1, WIDTH);
            let start: usize = y as usize * WIDTH;
            let mut x: usize = left;
            proof {
                row_started(before, circle, y as int, left as int);
            }
            while x < right
                invariant
                    left <= x <= right,
                    right <= WIDTH,
                    0 <= y < HEIGHT,
                    start == y * WIDTH,
                    start + right <= before.len(),
                    cx == circle.x,
                    cy == circle.y,
                    cr == circle.radius,
                    y == cy + dy,
                    -cr <= dy <= cr,
                    half == half_chord(cr, dy as int),
                    left == clamped(cx - half, 0, WIDTH as int),
                    right == clamped(cx + half + 1, 0, WIDTH as int),
                    color == tone(circle.white),
                    canvas@ == painted_to(before, circle, y as int, x as int),
                decreases right - x,
            {
                proof {
                    let at = start + x;
                    assert(at / (WIDTH as int) == y && at % (WIDTH as int) == x);
                    disc_row(cx, cy, cr, x as int, y as int);
                    assert(covers(circle, at));
                    assert(painted_to(before, circle, y as int, x as int).update(
                        at,
                        tone(circle.white),
                    ) =~= painted_to(before, circle, y as int, x + 1));
                }
                canvas[start + x] = color;
                x = x + 1;
            }
            proof {
                row_finished(before, circle, y as int, x as int);
            }
        } else {
            assert(painted_to(before, circle, y as int, 0) =~= painted_to(
                before,
                circle,
                y + 1,
                0,
            ));
        }
        dy = dy + 1;
    }
    proof {
        assert forall|i: int| 0 <= i < before.len() && covers(circle, i) implies i / (WIDTH as int)
            < cy + dy by {
            if !(-cr <= i / (WIDTH as int) - cy <= cr) {
                disc_no_row(cx, cy, cr, i % (WIDTH as int), i / (WIDTH as int));
            }
        }
        assert(canvas@ =~= painted(before, circle));
    }
}

proof fn row_started(canvas: Seq<u8>, circle: Circle, row: int, left: int)
    requires
        -circle.radius <= row - circle.y <= circle.radius,
        left == clamped(
            circle.x - half_chord(circle.radius as int, row - circle.y),
            0,
            WIDTH as int,
        ),
    ensures
        painted_to(canvas, circle, row, 0) == painted_to(canvas, circle, row, left),
{
    let a = painted_to(canvas, circle, row, 0);
    let b = painted_to(canvas, circle, row, left);
    assert forall|i: int| 0 <= i < canvas.len() implies a[i] == b[i] by {
        if i / (WIDTH as int) == row {
            disc_row(
                circle.x as int,
                circle.y as int,
                circle.radius as int,
                i % (WIDTH as int),
                row,
            );
        }
    }
    assert(a =~= b);
}

proof fn row_finished(canvas: Seq<u8>, circle: Circle, row: int, column: int)
    requires
        -circle.radius <= row - circle.y <= circle.radius,
        column >= clamped(
            circle.x + half_chord(circle.radius as int, row - circle.y) + 1,
            0,
            WIDTH as int,
        ),
    ensures
        painted_to(canvas, circle, row, column) == painted_to(canvas, circle, row + 1, 0),
{
    let a = painted_to(canvas, circle, row, column);
    let b = painted_to(canvas, circle, row + 1, 0);
    assert forall|i: int| 0 <= i < canvas.len() implies a[i] == b[i] by {
        if i / (WIDTH as int) == row {
            disc_row(
                circle.x as int,
                circle.y as int,
                circle.radius as int,
                i % (WIDTH as int),
                row,
            );
        }
    }
    assert(a =~= b);
}

/// Drawing a circle colours every pixel no further from its centre than its radius, 255 for
/// white and 0 for black, and leaves every other pixel alone.
pub proof fn painted_pixel(canvas: Seq<u8>, circle: Circle, px: int, py: int)
    requires
        0 <= px < 1280,
        0 <= py < 720,
        py * 1280 + px < canvas.len(),
    ensures
        painted(canvas, circle).len() == canvas.len(),
        ({
            let dx = px - circle.x;
            let dy = py - circle.y;
            let after = painted(canvas, circle)[py * 1280 + px];
            if 0 <= circle.radius && dx * dx + dy * dy <= circle.radius * circle.radius {
                after == if circle.white {
                    255u8
                } else {
                    0u8
                }
            } else {
                after == canvas[py * 1280 + px]
            }
        }),
{
    let i = py * 1280 + px;
    assert(i % 1280 == px && i / 1280 == py);
}

/// What a canvas holds beyond the picture is never drawn on.
pub proof fn painted_beyond(canvas: Seq<u8>, circle: Circle, i: int)
    requires
        921600 <= i < canvas.len(),
    ensures
        painted(canvas, circle)[i] == canvas[i],
{
}

/// Drawing a circle a second time changes nothing.
pub proof fn painted_twice(canvas: Seq<u8>, circle: Circle)
    ensures
        painted(painted(canvas, circle), circle) == painted(canvas, circle),
{
    assert(painted(painted(canvas, circle), circle) =~= painted(canvas, circle));
}

/// Every pixel is black or white.
pub open spec fn two_toned(canvas: Seq<u8>) -> bool {
    forall|i: int| 0 <= i < canvas.len() ==> #[trigger] canvas[i] == 0 || canvas[i] == 255
}

/// Drawing leaves a black and white canvas black and white.
pub proof fn painted_two_toned(canvas: Seq<u8>, circle: Circle)
    requires
        two_toned(canvas),
    ensures
        two_toned(painted(canvas, circle)),
{
}

} // verus!
