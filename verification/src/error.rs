//! What the scores mean: by how much painting a circle changes the weighted error of the
//! canvas against the frames of the window.

use vstd::prelude::*;

use crate::canvas::{disc_no_row, disc_row, painted, tone, two_toned};
use crate::frames::{Frames, squares, weighted_at};
use crate::geometry::{HEIGHT, PIXELS, WIDTH, clamped, in_disc};
use crate::prefix::{
    block_sum,
    rect_of_summed,
    repaint_cost,
    span_split,
    span_sum,
    summed,
    summed_fits,
    worst_error_squares,
    zero_border,
};
use crate::score::{Circle, exact_value, half_chord, half_chord_bounds, row_value, rows_sum};

verus! {

/// How far a pixel of that tone is from the frames of the queue, each difference times the
/// squared weight of its frame.
pub open spec fn pixel_error(queue: Seq<Vec<u8>>, i: int, tone: int) -> int
    decreases queue.len(),
{
    if queue.len() == 0 {
        0
    } else {
        let difference = if tone >= queue[0][i] {
            tone - queue[0][i]
        } else {
            queue[0][i] - tone
        };
        queue.len() * queue.len() * difference + pixel_error(queue.skip(1), i, tone)
    }
}

/// The errors of the first `n` pixels of a canvas, added up.
pub open spec fn canvas_error(canvas: Seq<u8>, queue: Seq<Vec<u8>>, n: int) -> int
    decreases n,
{
    if n <= 0 {
        0
    } else {
        canvas_error(canvas, queue, n - 1) + pixel_error(queue, n - 1, canvas[n - 1] as int)
    }
}

/// A pixel that has the tone of every frame has no error.
pub proof fn error_of_match(queue: Seq<Vec<u8>>, i: int, tone: int)
    requires
        forall|j: int| 0 <= j < queue.len() ==> (#[trigger] queue[j])[i] == tone,
    ensures
        pixel_error(queue, i, tone) == 0,
    decreases queue.len(),
{
    if queue.len() > 0 {
        let rest = queue.skip(1);
        assert forall|j: int| 0 <= j < rest.len() implies (#[trigger] rest[j])[i] == tone by {
            assert(rest[j] == queue[j + 1]);
        }
        error_of_match(rest, i, tone);
        assert(queue[0][i] == tone);
        let n = queue.len() as int;
        assert(n * n * 0 == 0) by (nonlinear_arith);
    }
}

/// The frame at place `j` of `n` counts `n - j` squared times: with another frame in its
/// place the error changes by that many times what the distance to the tone changes.
pub proof fn error_weighs_by_age(queue: Seq<Vec<u8>>, j: int, frame: Vec<u8>, i: int, tone: int)
    requires
        0 <= j < queue.len(),
    ensures
        ({
            let weight = queue.len() - j;
            let before = if tone >= queue[j][i] {
                tone - queue[j][i]
            } else {
                queue[j][i] - tone
            };
            let after = if tone >= frame[i] {
                tone - frame[i]
            } else {
                frame[i] - tone
            };
            pixel_error(queue.update(j, frame), i, tone) - pixel_error(queue, i, tone) == weight
                * weight * (after - before)
        }),
    decreases j,
{
    let other = queue.update(j, frame);
    let n = queue.len() as int;
    if j == 0 {
        assert(other.skip(1) =~= queue.skip(1));
        let before = if tone >= queue[0][i] {
            tone - queue[0][i]
        } else {
            queue[0][i] - tone
        };
        let after = if tone >= frame[i] {
            tone - frame[i]
        } else {
            frame[i] - tone
        };
        assert(n * n * after - n * n * before == n * n * (after - before)) by (nonlinear_arith);
    } else {
        assert(other.skip(1) =~= queue.skip(1).update(j - 1, frame));
        error_weighs_by_age(queue.skip(1), j - 1, frame, i, tone);
    }
}

/// The error of a canvas is that of its pixels, one by one.
pub proof fn canvas_error_adds_up(canvas: Seq<u8>, queue: Seq<Vec<u8>>, n: int)
    requires
        0 <= n,
    ensures
        canvas_error(canvas, queue, 0) == 0,
        canvas_error(canvas, queue, n + 1) == canvas_error(canvas, queue, n) + pixel_error(
            queue,
            n,
            canvas[n] as int,
        ),
{
}

/// The error of a black pixel is its weighted sum, and that of a white one is what the
/// weighted sum leaves of the worst error.
pub proof fn pixel_error_tones(queue: Seq<Vec<u8>>, i: int)
    ensures
        pixel_error(queue, i, 0) == weighted_at(queue, i),
        pixel_error(queue, i, 255) == 255 * squares(queue.len()) - weighted_at(queue, i),
    decreases queue.len(),
{
    if queue.len() > 0 {
        pixel_error_tones(queue.skip(1), i);
        let n = queue.len() as int;
        let f = queue[0][i] as int;
        assert(n * n * (255 - f) == 255 * (n * n) - n * n * f) by (nonlinear_arith);
    }
}

/// The cost of repainting a pixel is the error that it has afterwards less the error that
/// it had before.
pub proof fn repaint_cost_is_change(canvas: Seq<u8>, frames: Frames, white: bool, i: int)
    requires
        frames.wf(),
        0 <= i < PIXELS,
        canvas[i] == 0 || canvas[i] == 255,
    ensures
        repaint_cost(canvas, frames.weighted@, frames.queue@.len() as int, white)[i]
            == pixel_error(frames.queue@, i, tone(white) as int) - pixel_error(
            frames.queue@,
            i,
            canvas[i] as int,
        ),
{
    pixel_error_tones(frames.queue@, i);
    worst_error_squares(frames.queue@.len());
    assert(frames.weighted@[i] == weighted_at(frames.queue@, i));
}

/// The costs of the pixels in a disc; those outside it count nothing.
pub open spec fn disc_cost(cost: Seq<int>, x: int, y: int, radius: int) -> Seq<int> {
    Seq::new(
        PIXELS as nat,
        |i: int|
            if in_disc(x, y, radius, i % (WIDTH as int), i / (WIDTH as int)) {
                cost[i]
            } else {
                0
            },
    )
}

/// Costs that are all zero add up to zero.
proof fn span_zero(cost: Seq<int>, y: int, left: int, right: int)
    requires
        forall|x: int| left <= x < right ==> #[trigger] cost[y * WIDTH + x] == 0,
    ensures
        span_sum(cost, y, left, right) == 0,
    decreases right - left,
{
    if left < right {
        span_zero(cost, y, left, right - 1);
        let x = right - 1;
        assert(cost[y * WIDTH + x] == 0);
    }
}

/// Equal costs add up to equal sums.
proof fn span_equal(a: Seq<int>, b: Seq<int>, y: int, left: int, right: int)
    requires
        forall|x: int| left <= x < right ==> #[trigger] a[y * WIDTH + x] == b[y * WIDTH + x],
    ensures
        span_sum(a, y, left, right) == span_sum(b, y, left, right),
    decreases right - left,
{
    if left < right {
        span_equal(a, b, y, left, right - 1);
        let x = right - 1;
        assert(a[y * WIDTH + x] == b[y * WIDTH + x]);
    }
}

/// What a row of the picture adds up to; rows outside it count nothing.
spec fn row_total(cost: Seq<int>, y: int) -> int {
    if 0 <= y < HEIGHT {
        span_sum(cost, y, 0, WIDTH as int)
    } else {
        0
    }
}

/// What the rows from `from` up to `to` add up to.
spec fn rows_total(cost: Seq<int>, from: int, to: int) -> int
    decreases to - from,
{
    if to <= from {
        0
    } else {
        rows_total(cost, from, to - 1) + row_total(cost, to - 1)
    }
}

proof fn rows_total_split(cost: Seq<int>, from: int, middle: int, to: int)
    requires
        from <= middle <= to,
    ensures
        rows_total(cost, from, to) == rows_total(cost, from, middle) + rows_total(
            cost,
            middle,
            to,
        ),
    decreases to - middle,
{
    if middle < to {
        rows_total_split(cost, from, middle, to - 1);
    }
}

proof fn rows_total_zero(cost: Seq<int>, from: int, to: int)
    requires
        forall|y: int| from <= y < to ==> #[trigger] row_total(cost, y) == 0,
    ensures
        rows_total(cost, from, to) == 0,
    decreases to - from,
{
    if from < to {
        rows_total_zero(cost, from, to - 1);
        assert(row_total(cost, to - 1) == 0);
    }
}

proof fn rows_total_block(cost: Seq<int>, to: int)
    requires
        0 <= to <= HEIGHT,
    ensures
        rows_total(cost, 0, to) == block_sum(cost, 0, 0, WIDTH as int, to),
    decreases to,
{
    if to > 0 {
        rows_total_block(cost, to - 1);
    }
}

/// A row of a circle counts the costs of its pixels in the disc.
proof fn row_value_total(
    table: Seq<i64>,
    cost: Seq<int>,
    x: int,
    y: int,
    radius: int,
    dy: int,
)
    requires
        zero_border(table),
        summed_fits(table, cost),
        -radius <= dy <= radius,
    ensures
        row_value(summed(table, cost), x, y, radius, dy) == row_total(
            disc_cost(cost, x, y, radius),
            y + dy,
        ),
{
    let half = half_chord(radius, dy);
    half_chord_bounds(radius, dy);
    let masked = disc_cost(cost, x, y, radius);
    let row = y + dy;
    rect_of_summed(table, cost, x - half, row, x + half + 1, row + 1);
    if 0 <= row < HEIGHT {
        let l = clamped(x - half, 0, WIDTH as int);
        let r = clamped(x + half + 1, 0, WIDTH as int);
        assert(block_sum(cost, l, row, r, row) == 0);
        assert(block_sum(cost, l, row, r, row + 1) == span_sum(cost, row, l, r));
        assert forall|px: int| 0 <= px < WIDTH implies #[trigger] masked[row * WIDTH + px] == (
        if l <= px < r {
            cost[row * WIDTH + px]
        } else {
            0
        }) by {
            let i = row * WIDTH + px;
            assert(i / (WIDTH as int) == row && i % (WIDTH as int) == px);
            disc_row(x, y, radius, px, row);
        }
        span_zero(masked, row, 0, l);
        span_equal(masked, cost, row, l, r);
        span_zero(masked, row, r, WIDTH as int);
        span_split(masked, row, 0, l, WIDTH as int);
        span_split(masked, row, l, r, WIDTH as int);
    }
}

proof fn rows_sum_total(
    table: Seq<i64>,
    cost: Seq<int>,
    x: int,
    y: int,
    radius: int,
    rows: int,
)
    requires
        zero_border(table),
        summed_fits(table, cost),
        0 <= rows <= 2 * radius + 1,
    ensures
        rows_sum(summed(table, cost), x, y, radius, rows) == rows_total(
            disc_cost(cost, x, y, radius),
            y - radius,
            y - radius + rows,
        ),
    decreases rows,
{
    if rows > 0 {
        rows_sum_total(table, cost, x, y, radius, rows - 1);
        row_value_total(table, cost, x, y, radius, rows - 1 - radius);
    }
}

/// The cost of a circle is what the pixels of the picture that lie in it cost together.
pub proof fn exact_counts_disc(table: Seq<i64>, cost: Seq<int>, x: int, y: int, radius: int)
    requires
        zero_border(table),
        summed_fits(table, cost),
        0 <= radius,
    ensures
        exact_value(summed(table, cost), x, y, radius) == block_sum(
            disc_cost(cost, x, y, radius),
            0,
            0,
            WIDTH as int,
            HEIGHT as int,
        ),
{
    let masked = disc_cost(cost, x, y, radius);
    let h = HEIGHT as int;
    let from = y - radius;
    let to = y + radius + 1;
    rows_sum_total(table, cost, x, y, radius, 2 * radius + 1);
    assert forall|row: int| !(from <= row < to) implies #[trigger] row_total(masked, row) == 0 by {
        if 0 <= row < HEIGHT {
            assert forall|px: int| 0 <= px < WIDTH implies #[trigger] masked[row * WIDTH + px]
                == 0 by {
                let i = row * WIDTH + px;
                assert(i / (WIDTH as int) == row && i % (WIDTH as int) == px);
                disc_no_row(x, y, radius, px, row);
            }
            span_zero(masked, row, 0, WIDTH as int);
        }
    }
    let low = if from < 0 {
        from
    } else {
        0
    };
    let high = if to > h {
        to
    } else {
        h
    };
    rows_total_split(masked, low, from, high);
    rows_total_split(masked, from, to, high);
    rows_total_zero(masked, low, from);
    rows_total_zero(masked, to, high);
    rows_total_split(masked, low, 0, high);
    rows_total_split(masked, 0, h, high);
    rows_total_zero(masked, low, 0);
    rows_total_zero(masked, h, high);
    rows_total_block(masked, h);
}

/// The errors of two canvases differ by what the pixels differ.
proof fn error_change(
    before: Seq<u8>,
    after: Seq<u8>,
    queue: Seq<Vec<u8>>,
    change: Seq<int>,
    row: int,
    column: int,
)
    requires
        0 <= row,
        0 <= column <= WIDTH,
        row * WIDTH + column <= PIXELS,
        forall|i: int|
            0 <= i < PIXELS ==> #[trigger] change[i] == pixel_error(queue, i, after[i] as int)
                - pixel_error(queue, i, before[i] as int),
    ensures
        canvas_error(after, queue, row * WIDTH + column) - canvas_error(
            before,
            queue,
            row * WIDTH + column,
        ) == block_sum(change, 0, 0, WIDTH as int, row) + span_sum(change, row, 0, column),
    decreases row, column,
{
    if column > 0 {
        error_change(before, after, queue, change, row, column - 1);
        let i = row * WIDTH + column - 1;
        assert(change[i] == pixel_error(queue, i, after[i] as int) - pixel_error(
            queue,
            i,
            before[i] as int,
        ));
    } else if row > 0 {
        error_change(before, after, queue, change, row - 1, WIDTH as int);
        assert((row - 1) * WIDTH + WIDTH == row * WIDTH);
    }
}

/// On a black and white canvas the exact score of a circle is the change that painting it
/// makes to the error of the canvas.
pub proof fn score_is_error_change(
    canvas: Seq<u8>,
    frames: Frames,
    table: Seq<i64>,
    circle: Circle,
)
    requires
        frames.wf(),
        canvas.len() == PIXELS,
        two_toned(canvas),
        zero_border(table),
        summed_fits(
            table,
            repaint_cost(canvas, frames.weighted@, frames.queue@.len() as int, circle.white),
        ),
        0 <= circle.radius,
    ensures
        exact_value(
            summed(
                table,
                repaint_cost(canvas, frames.weighted@, frames.queue@.len() as int, circle.white),
            ),
            circle.x as int,
            circle.y as int,
            circle.radius as int,
        ) == canvas_error(painted(canvas, circle), frames.queue@, PIXELS as int) - canvas_error(
            canvas,
            frames.queue@,
            PIXELS as int,
        ),
{
    let x = circle.x as int;
    let y = circle.y as int;
    let radius = circle.radius as int;
    let cost = repaint_cost(canvas, frames.weighted@, frames.queue@.len() as int, circle.white);
    let change = disc_cost(cost, x, y, radius);
    let after = painted(canvas, circle);
    exact_counts_disc(table, cost, x, y, radius);
    assert forall|i: int| 0 <= i < PIXELS implies #[trigger] change[i] == pixel_error(
        frames.queue@,
        i,
        after[i] as int,
    ) - pixel_error(frames.queue@, i, canvas[i] as int) by {
        repaint_cost_is_change(canvas, frames, circle.white, i);
    }
    error_change(canvas, after, frames.queue@, change, HEIGHT as int, 0);
}

} // verus!
