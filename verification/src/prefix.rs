//! Summed area tables of what repainting a pixel costs.

use vstd::prelude::*;

use crate::frames::{Frames, squares, squares_closed, squares_monotonic, weighted_at, weighted_bound};
use crate::geometry::{HEIGHT, PIXELS, WIDTH, clamp_to, clamped, fits_i64};

verus! {

/// Cells in a row of a table: one more than a picture has columns.
pub const STRIDE: usize = WIDTH + 1;

/// Cells in a table: one row more than a picture has.
pub const TABLE: usize = 1281 * 721;

/// One table for painting pixels black and one for painting them white.
pub struct Prefix {
    pub black: Vec<i64>,
    pub white: Vec<i64>,
}

/// What the two tables hold.
pub struct Tables {
    pub black: Seq<i64>,
    pub white: Seq<i64>,
}

impl Tables {
    /// The table for painting in that colour.
    pub open spec fn of(self, white: bool) -> Seq<i64> {
        if white {
            self.white
        } else {
            self.black
        }
    }
}

impl View for Prefix {
    type V = Tables;

    open spec fn view(&self) -> Tables {
        Tables { black: self.black@, white: self.white@ }
    }
}

/// The weighted error of a pixel that is wrong by the full range in all `count` frames.
pub open spec fn worst_error(count: int) -> int {
    255 * count * (count + 1) * (2 * count + 1) / 6
}

/// What painting each pixel black, or white, adds to the weighted error of the picture.
/// A pixel that already has the colour costs nothing.
pub open spec fn repaint_cost(
    canvas: Seq<u8>,
    weighted: Seq<u32>,
    count: int,
    white: bool,
) -> Seq<int> {
    Seq::new(
        PIXELS as nat,
        |i: int|
            if (canvas[i] == 0) != white {
                0
            } else if white {
                worst_error(count) - 2 * weighted[i]
            } else {
                2 * weighted[i] - worst_error(count)
            },
    )
}

/// The costs of row `y` from column `left` up to column `right`, added up.
pub open spec fn span_sum(cost: Seq<int>, y: int, left: int, right: int) -> int
    decreases right - left,
{
    if right <= left {
        0
    } else {
        span_sum(cost, y, left, right - 1) + cost[y * WIDTH + right - 1]
    }
}

/// The costs of a block of pixels, added up.
pub open spec fn block_sum(cost: Seq<int>, left: int, top: int, right: int, bottom: int) -> int
    decreases bottom - top,
{
    if bottom <= top {
        0
    } else {
        block_sum(cost, left, top, right, bottom - 1) + span_sum(cost, bottom - 1, left, right)
    }
}

/// The cell stands in the first `rows` rows below the top one, or among the first `cells`
/// of the row that follows, and not in the leftmost column.
pub open spec fn reached(i: int, rows: int, cells: int) -> bool {
    &&& 1 <= i % (STRIDE as int)
    &&& 1 <= i / (STRIDE as int)
    &&& i / (STRIDE as int) <= rows || (i / (STRIDE as int) == rows + 1 && i % (STRIDE as int)
        <= cells)
}

/// What cell `i` holds once it is filled in: the costs of all pixels above it and to its
/// left, on top of what the top row of the table holds in its column.
pub open spec fn cell_sum(table: Seq<i64>, cost: Seq<int>, i: int) -> int {
    table[i % (STRIDE as int)] + block_sum(cost, 0, 0, i % (STRIDE as int), i / (STRIDE as int))
}

/// The table with the cells of `rows` rows, and `cells` cells of the next, filled in.
pub open spec fn summed_to(table: Seq<i64>, cost: Seq<int>, rows: int, cells: int) -> Seq<i64> {
    Seq::new(
        table.len(),
        |i: int|
            if reached(i, rows, cells) {
                cell_sum(table, cost, i) as i64
            } else {
                table[i]
            },
    )
}

/// The table with all cells below its top row and right of its left column filled in.
pub open spec fn summed(table: Seq<i64>, cost: Seq<int>) -> Seq<i64> {
    summed_to(table, cost, HEIGHT as int, 0)
}

/// Each sum that filling the table in passes through is one that an `i64` can hold.
pub open spec fn summed_fits(table: Seq<i64>, cost: Seq<int>) -> bool {
    &&& forall|y: int, x: int|
        0 <= y < HEIGHT && 0 <= x <= WIDTH ==> fits_i64(#[trigger] span_sum(cost, y, 0, x))
    &&& forall|y: int, x: int|
        0 <= y <= HEIGHT && 1 <= x <= WIDTH ==> fits_i64(
            table[x] + #[trigger] block_sum(cost, 0, 0, x, y),
        )
}

/// The arithmetic of `prefixes` stays within an `i64`.
pub open spec fn prefixes_fit(canvas: Seq<u8>, frames: Frames, prefixes: Prefix) -> bool {
    let count = frames.queue@.len() as int;
    &&& fits_i64(255 * count * (count + 1) * (2 * count + 1))
    &&& summed_fits(prefixes.black@, repaint_cost(canvas, frames.weighted@, count, false))
    &&& summed_fits(prefixes.white@, repaint_cost(canvas, frames.weighted@, count, true))
}

/// A cell's row and column, found again from its place in the table.
proof fn cell_place(row: int, column: int)
    requires
        0 <= column < STRIDE,
    ensures
        (row * STRIDE + column) / (STRIDE as int) == row,
        (row * STRIDE + column) % (STRIDE as int) == column,
{
}

proof fn fill_cell(
    table: Seq<i64>,
    cost: Seq<int>,
    now: Seq<i64>,
    y: int,
    x: int,
    value: i64,
)
    requires
        table.len() >= TABLE,
        0 <= y < HEIGHT,
        0 <= x < WIDTH,
        now == summed_to(table, cost, y, x),
        value == now[y * STRIDE + x + 1] + span_sum(cost, y, 0, x + 1),
        summed_fits(table, cost),
    ensures
        now[y * STRIDE + x + 1] == table[x + 1] + block_sum(cost, 0, 0, x + 1, y),
        now.update((y + 1) * STRIDE + x + 1, value) == summed_to(table, cost, y, x + 1),
{
    cell_place(y, x + 1);
    cell_place(y + 1, x + 1);
    assert(fits_i64(table[x + 1] + block_sum(cost, 0, 0, x + 1, y)));
    assert(fits_i64(table[x + 1] + block_sum(cost, 0, 0, x + 1, y + 1)));
    let at = (y + 1) * STRIDE + x + 1;
    let next = summed_to(table, cost, y, x + 1);
    assert(y * STRIDE + x + 1 < TABLE);
    assert(block_sum(cost, 0, 0, x + 1, 0) == 0);
    assert(now[y * STRIDE + x + 1] == table[x + 1] + block_sum(cost, 0, 0, x + 1, y));
    assert forall|i: int| 0 <= i < table.len() implies #[trigger] now.update(at, value)[i]
        == next[i] by {
        if i == at {
        } else {
            assert(i == (i / (STRIDE as int)) * STRIDE + i % (STRIDE as int));
        }
    }
    assert(now.update(at, value) =~= next);
}

/// Fills both tables in for the canvas and the frames.
pub fn prefixes(canvas: &[u8], frames: &Frames, prefixes: &mut Prefix)
    requires
        canvas.len() >= PIXELS,
        frames.wf(),
        old(prefixes).black.len() >= TABLE,
        old(prefixes).white.len() >= TABLE,
        prefixes_fit(canvas@, *frames, *old(prefixes)),
    ensures
        final(prefixes).black@ == summed(
            old(prefixes).black@,
            repaint_cost(canvas@, frames.weighted@, frames.queue@.len() as int, false),
        ),
        final(prefixes).white@ == summed(
            old(prefixes).white@,
            repaint_cost(canvas@, frames.weighted@, frames.queue@.len() as int, true),
        ),
{
    let ghost count_spec = frames.queue@.len() as int;
    let ghost black_cost = repaint_cost(canvas@, frames.weighted@, count_spec, false);
    let ghost white_cost = repaint_cost(canvas@, frames.weighted@, count_spec, true);
    let ghost black = prefixes.black@;
    let ghost white = prefixes.white@;
    proof {
        let c = count_spec;
        assert(c <= 255 * c <= 255 * c * (c + 1) <= 255 * c * (c + 1) * (2 * c + 1)
            && 2 * c <= 255 * c * (c + 1) * (2 * c + 1)) by (nonlinear_arith)
            requires
                0 <= c,
        ;
    }
    let stride: usize = WIDTH + 1;
    let count: i64 = frames.queue.len() as i64;
    let total: i64 = 255 * count * (count + 1) * (2 * count + 1) / 6;
    assert(total == worst_error(count_spec));
    assert(prefixes.black@ =~= summed_to(black, black_cost, 0, 0));
    assert(prefixes.white@ =~= summed_to(white, white_cost, 0, 0));
    let mut y: usize = 0;
    while y < HEIGHT
        invariant
            y <= HEIGHT,
            stride == STRIDE,
            canvas.len() >= PIXELS,
            frames.wf(),
            count_spec == frames.queue@.len(),
            0 <= total,
            total == worst_error(count_spec),
            black_cost == repaint_cost(canvas@, frames.weighted@, count_spec, false),
            white_cost == repaint_cost(canvas@, frames.weighted@, count_spec, true),
            black.len() >= TABLE,
            white.len() >= TABLE,
            summed_fits(black, black_cost),
            summed_fits(white, white_cost),
            prefixes.black@ == summed_to(black, black_cost, y as int, 0),
            prefixes.white@ == summed_to(white, white_cost, y as int, 0),
        decreases HEIGHT - y,
    {
        let mut black_row: i64 = 0;
        let mut white_row: i64 = 0;
        let mut x: usize = 0;
        while x < WIDTH
            invariant
                y < HEIGHT,
                x <= WIDTH,
                stride == STRIDE,
                canvas.len() >= PIXELS,
                frames.wf(),
                count_spec == frames.queue@.len(),
                0 <= total,
                total == worst_error(count_spec),
                black_cost == repaint_cost(canvas@, frames.weighted@, count_spec, false),
                white_cost == repaint_cost(canvas@, frames.weighted@, count_spec, true),
                black.len() >= TABLE,
                white.len() >= TABLE,
                summed_fits(black, black_cost),
                summed_fits(white, white_cost),
                black_row == span_sum(black_cost, y as int, 0, x as int),
                white_row == span_sum(white_cost, y as int, 0, x as int),
                prefixes.black@ == summed_to(black, black_cost, y as int, x as int),
                prefixes.white@ == summed_to(white, white_cost, y as int, x as int),
            decreases WIDTH - x,
        {
            let i: usize = y * WIDTH + x;
            let sum: i64 = 2 * frames.weighted[i] as i64;
            proof {
                assert(fits_i64(span_sum(black_cost, y as int, 0, x + 1)));
                assert(fits_i64(span_sum(white_cost, y as int, 0, x + 1)));
            }
            if canvas[i] == 0 {
                white_row = white_row + (total - sum);
            } else {
                black_row = black_row + (sum - total);
            }
            assert(black_row == span_sum(black_cost, y as int, 0, x + 1));
            assert(white_row == span_sum(white_cost, y as int, 0, x + 1));
            let above: usize = y * stride + x + 1;
            let here: usize = (y + 1) * stride + x + 1;
            proof {
                let black_value: int = prefixes.black@[above as int] + black_row;
                let white_value: int = prefixes.white@[above as int] + white_row;
                fill_cell_fits(black, black_cost, y as int, x as int);
                fill_cell_fits(white, white_cost, y as int, x as int);
                fill_cell(
                    black,
                    black_cost,
                    prefixes.black@,
                    y as int,
                    x as int,
                    black_value as i64,
                );
                fill_cell(
                    white,
                    white_cost,
                    prefixes.white@,
                    y as int,
                    x as int,
                    white_value as i64,
                );
            }
            prefixes.black[here] = prefixes.black[above] + black_row;
            prefixes.white[here] = prefixes.white[above] + white_row;
            x = x + 1;
        }
        assert(summed_to(black, black_cost, y as int, x as int) =~= summed_to(
            black,
            black_cost,
            y + 1,
            0,
        ));
        assert(summed_to(white, white_cost, y as int, x as int) =~= summed_to(
            white,
            white_cost,
            y + 1,
            0,
        ));
        y = y + 1;
    }
}

proof fn fill_cell_fits(table: Seq<i64>, cost: Seq<int>, y: int, x: int)
    requires
        table.len() >= TABLE,
        0 <= y < HEIGHT,
        0 <= x < WIDTH,
        summed_fits(table, cost),
    ensures
        summed_to(table, cost, y, x)[y * STRIDE + x + 1] == table[x + 1] + block_sum(
            cost,
            0,
            0,
            x + 1,
            y,
        ),
        fits_i64(
            summed_to(table, cost, y, x)[y * STRIDE + x + 1] + span_sum(cost, y, 0, x + 1),
        ),
{
    cell_place(y, x + 1);
    assert(fits_i64(table[x + 1] + block_sum(cost, 0, 0, x + 1, y)));
    assert(fits_i64(table[x + 1] + block_sum(cost, 0, 0, x + 1, y + 1)));
    assert(y * STRIDE + x + 1 < TABLE);
    assert(block_sum(cost, 0, 0, x + 1, 0) == 0);
}

/// The block of pixels from `left` and `top` up to `right` and `bottom`, as a table of
/// sums gives it; the corners are first moved onto the picture.
pub open spec fn rect_value(table: Seq<i64>, left: int, top: int, right: int, bottom: int) -> int {
    let l = clamped(left, 0, WIDTH as int);
    let r = clamped(right, 0, WIDTH as int);
    let t = clamped(top, 0, HEIGHT as int);
    let b = clamped(bottom, 0, HEIGHT as int);
    if l >= r || t >= b {
        0
    } else {
        table[b * STRIDE + r] - table[t * STRIDE + r] - table[b * STRIDE + l] + table[t * STRIDE
            + l]
    }
}

/// The table has the four cells that `rect_sum` reads, and what it computes from them
/// stays within an `i64`.
pub open spec fn rect_fits(table: Seq<i64>, left: int, top: int, right: int, bottom: int) -> bool {
    let l = clamped(left, 0, WIDTH as int);
    let r = clamped(right, 0, WIDTH as int);
    let t = clamped(top, 0, HEIGHT as int);
    let b = clamped(bottom, 0, HEIGHT as int);
    l < r && t < b ==> {
        &&& b * STRIDE + r < table.len()
        &&& fits_i64(table[b * STRIDE + r] - table[t * STRIDE + r])
        &&& fits_i64(table[b * STRIDE + r] - table[t * STRIDE + r] - table[b * STRIDE + l])
        &&& fits_i64(rect_value(table, left, top, right, bottom))
    }
}

/// The sum over a block of pixels, from a table of sums.
pub fn rect_sum(prefix: &[i64], left: i32, top: i32, right: i32, bottom: i32) -> (sum: i64)
    requires
        rect_fits(prefix@, left as int, top as int, right as int, bottom as int),
    ensures
        sum == rect_value(prefix@, left as int, top as int, right as int, bottom as int),
{
    let left: usize = clamp_to(left, WIDTH);
    let right: usize = clamp_to(right, WIDTH);
    let top: usize = clamp_to(top, HEIGHT);
    let bottom: usize = clamp_to(bottom, HEIGHT);
    if left >= right || top >= bottom {
        return 0;
    }
    let stride: usize = WIDTH + 1;
    prefix[bottom * stride + right] - prefix[top * stride + right] - prefix[bottom * stride + left]
        + prefix[top * stride + left]
}

/// The top row and the left column of a table hold zeros.
pub open spec fn zero_border(table: Seq<i64>) -> bool {
    &&& table.len() == TABLE
    &&& forall|i: int|
        #![trigger table[i]]
        0 <= i < TABLE && (i < STRIDE || i % (STRIDE as int) == 0) ==> table[i] == 0
}

/// A row's costs can be added up in two parts.
pub proof fn span_split(cost: Seq<int>, y: int, left: int, middle: int, right: int)
    requires
        left <= middle <= right,
    ensures
        span_sum(cost, y, left, right) == span_sum(cost, y, left, middle) + span_sum(
            cost,
            y,
            middle,
            right,
        ),
    decreases right - middle,
{
    if middle < right {
        span_split(cost, y, left, middle, right - 1);
    }
}

/// A block's costs can be added up in two parts, one above the other.
pub proof fn block_split_rows(
    cost: Seq<int>,
    left: int,
    top: int,
    right: int,
    middle: int,
    bottom: int,
)
    requires
        top <= middle <= bottom,
    ensures
        block_sum(cost, left, top, right, bottom) == block_sum(cost, left, top, right, middle)
            + block_sum(cost, left, middle, right, bottom),
    decreases bottom - middle,
{
    if middle < bottom {
        block_split_rows(cost, left, top, right, middle, bottom - 1);
    }
}

/// A block's costs can be added up in two parts, one beside the other.
pub proof fn block_split_columns(
    cost: Seq<int>,
    left: int,
    top: int,
    middle: int,
    right: int,
    bottom: int,
)
    requires
        left <= middle <= right,
    ensures
        block_sum(cost, left, top, right, bottom) == block_sum(cost, left, top, middle, bottom)
            + block_sum(cost, middle, top, right, bottom),
    decreases bottom - top,
{
    if top < bottom {
        block_split_columns(cost, left, top, middle, right, bottom - 1);
        span_split(cost, bottom - 1, left, middle, right);
    }
}

/// A block of a single pixel costs what the pixel costs, and one row high what the row
/// costs.
pub proof fn block_of_row(cost: Seq<int>, left: int, right: int, x: int, y: int)
    ensures
        block_sum(cost, x, y, x + 1, y + 1) == cost[y * 1280 + x],
        block_sum(cost, left, y, right, y + 1) == span_sum(cost, y, left, right),
{
    assert(block_sum(cost, x, y, x + 1, y) == 0);
    assert(block_sum(cost, left, y, right, y) == 0);
    assert(span_sum(cost, y, x, x) == 0);
}

/// A block without columns costs nothing.
pub proof fn block_empty(cost: Seq<int>, left: int, top: int, right: int, bottom: int)
    requires
        right <= left,
    ensures
        block_sum(cost, left, top, right, bottom) == 0,
    decreases bottom - top,
{
    if top < bottom {
        block_empty(cost, left, top, right, bottom - 1);
    }
}

/// What a filled in table with a zero border holds in a cell.
pub proof fn summed_cell(table: Seq<i64>, cost: Seq<int>, row: int, column: int)
    requires
        zero_border(table),
        summed_fits(table, cost),
        0 <= row <= HEIGHT,
        0 <= column <= WIDTH,
    ensures
        row * STRIDE + column < TABLE,
        summed(table, cost)[row * STRIDE + column] == block_sum(cost, 0, 0, column, row),
{
    cell_place(row, column);
    let i = row * STRIDE + column;
    assert(i < TABLE);
    assert(table[column] == 0) by {
        assert(column < STRIDE);
    }
    if 1 <= row && 1 <= column {
        assert(reached(i, HEIGHT as int, 0));
        assert(fits_i64(table[column] + block_sum(cost, 0, 0, column, row)));
    } else {
        assert(table[i] == 0);
        if column == 0 {
            block_empty(cost, 0, 0, 0, row);
        }
    }
}

/// Four cells of a filled in table give the costs of any block of pixels, added up.
pub proof fn rect_of_summed(
    table: Seq<i64>,
    cost: Seq<int>,
    left: int,
    top: int,
    right: int,
    bottom: int,
)
    requires
        zero_border(table),
        summed_fits(table, cost),
    ensures
        rect_value(summed(table, cost), left, top, right, bottom) == block_sum(
            cost,
            clamped(left, 0, WIDTH as int),
            clamped(top, 0, HEIGHT as int),
            clamped(right, 0, WIDTH as int),
            clamped(bottom, 0, HEIGHT as int),
        ),
{
    let l = clamped(left, 0, WIDTH as int);
    let r = clamped(right, 0, WIDTH as int);
    let t = clamped(top, 0, HEIGHT as int);
    let b = clamped(bottom, 0, HEIGHT as int);
    if l >= r {
        block_empty(cost, l, t, r, b);
    } else if t < b {
        summed_cell(table, cost, b, r);
        summed_cell(table, cost, t, r);
        summed_cell(table, cost, b, l);
        summed_cell(table, cost, t, l);
        block_split_rows(cost, 0, 0, r, t, b);
        block_split_rows(cost, 0, 0, l, t, b);
        block_split_columns(cost, 0, t, l, r, b);
    }
}

/// Every cost lies between `-bound` and `bound`.
pub open spec fn cost_bounded(cost: Seq<int>, bound: int) -> bool {
    &&& cost.len() == PIXELS
    &&& 0 <= bound
    &&& forall|i: int| 0 <= i < PIXELS ==> -bound <= #[trigger] cost[i] <= bound
}

proof fn span_bound(cost: Seq<int>, bound: int, y: int, left: int, right: int)
    requires
        cost_bounded(cost, bound),
        0 <= y < HEIGHT,
        0 <= left <= right <= WIDTH,
    ensures
        -((right - left) * bound) <= span_sum(cost, y, left, right) <= (right - left) * bound,
    decreases right - left,
{
    if left < right {
        span_bound(cost, bound, y, left, right - 1);
        assert(0 <= y * WIDTH + right - 1 < PIXELS);
        assert((right - left) * bound == (right - 1 - left) * bound + bound) by (nonlinear_arith);
    } else {
        assert((right - left) * bound == 0) by (nonlinear_arith)
            requires
                right == left,
        ;
    }
}

proof fn block_bound(cost: Seq<int>, bound: int, left: int, top: int, right: int, bottom: int)
    requires
        cost_bounded(cost, bound),
        0 <= top <= bottom <= HEIGHT,
        0 <= left <= right <= WIDTH,
    ensures
        -((bottom - top) * (right - left) * bound) <= block_sum(cost, left, top, right, bottom)
            <= (bottom - top) * (right - left) * bound,
    decreases bottom - top,
{
    let w = right - left;
    if top < bottom {
        block_bound(cost, bound, left, top, right, bottom - 1);
        span_bound(cost, bound, bottom - 1, left, right);
        assert((bottom - top) * w * bound == (bottom - 1 - top) * w * bound + w * bound)
            by (nonlinear_arith);
    } else {
        assert((bottom - top) * w * bound == 0) by (nonlinear_arith)
            requires
                top == bottom,
        ;
    }
}

/// Every cell of a table lies between `-bound` and `bound`.
pub open spec fn table_bounded(table: Seq<i64>, bound: int) -> bool {
    &&& table.len() == TABLE
    &&& forall|i: int| 0 <= i < TABLE ==> -bound <= #[trigger] table[i] <= bound
}

/// Costs of up to 2^43 can be summed up over a whole picture, and no sum then exceeds
/// what that bound allows.
pub proof fn summed_bounded(table: Seq<i64>, cost: Seq<int>, bound: int)
    requires
        zero_border(table),
        cost_bounded(cost, bound),
        bound <= 0x800_0000_0000,
    ensures
        summed_fits(table, cost),
        table_bounded(summed(table, cost), PIXELS * bound),
{
    assert forall|y: int, x: int| 0 <= y < HEIGHT && 0 <= x <= WIDTH implies fits_i64(
        #[trigger] span_sum(cost, y, 0, x),
    ) by {
        span_bound(cost, bound, y, 0, x);
        assert(0 <= x * bound <= WIDTH * bound) by (nonlinear_arith)
            requires
                0 <= x <= WIDTH,
                0 <= bound,
        ;
    }
    assert forall|y: int, x: int|
        #![trigger block_sum(cost, 0, 0, x, y)]
        0 <= y <= HEIGHT && 0 <= x <= WIDTH implies -(PIXELS * bound) <= block_sum(
        cost,
        0,
        0,
        x,
        y,
    ) <= PIXELS * bound by {
        block_bound(cost, bound, 0, 0, x, y);
        assert(0 <= y * x <= PIXELS) by (nonlinear_arith)
            requires
                0 <= x <= 1280,
                0 <= y <= 720,
                PIXELS == 921600,
        ;
        assert(0 <= y * x * bound <= PIXELS * bound) by (nonlinear_arith)
            requires
                0 <= y * x <= PIXELS,
                0 <= bound,
        ;
    }
    assert forall|y: int, x: int| 0 <= y <= HEIGHT && 1 <= x <= WIDTH implies fits_i64(
        table[x] + #[trigger] block_sum(cost, 0, 0, x, y),
    ) by {
        assert(table[x] == 0);
    }
    let filled = summed(table, cost);
    assert forall|i: int| 0 <= i < TABLE implies -(PIXELS * bound) <= #[trigger] filled[i]
        <= PIXELS * bound by {
        let row = i / (STRIDE as int);
        let column = i % (STRIDE as int);
        assert(i == row * STRIDE + column);
        summed_cell(table, cost, row, column);
    }
}

/// The error of a pixel that is wrong throughout is the full range times all squared
/// weights.
pub proof fn worst_error_squares(count: nat)
    ensures
        worst_error(count as int) == 255 * squares(count),
{
    squares_closed(count);
    let c = count as int;
    assert(255 * c * (c + 1) * (2 * c + 1) == 255 * (count * (count + 1) * (2 * count + 1)))
        by (nonlinear_arith)
        requires
            c == count,
    ;
}

/// No pixel costs more to repaint than a pixel that is wrong throughout.
pub proof fn repaint_cost_bounded(canvas: Seq<u8>, frames: Frames, white: bool)
    requires
        frames.wf(),
    ensures
        cost_bounded(
            repaint_cost(canvas, frames.weighted@, frames.queue@.len() as int, white),
            worst_error(frames.queue@.len() as int),
        ),
{
    let count = frames.queue@.len();
    worst_error_squares(count);
    squares_monotonic(0, count);
    let cost = repaint_cost(canvas, frames.weighted@, count as int, white);
    let bound = worst_error(count as int);
    assert forall|i: int| 0 <= i < PIXELS implies -bound <= #[trigger] cost[i] <= bound by {
        weighted_bound(frames.queue@, i);
        assert(frames.weighted@[i] == weighted_at(frames.queue@, i));
    }
}

/// A window of up to 369 frames can be summed up over tables with a zero border.
pub proof fn window_prefixes_fit(canvas: Seq<u8>, frames: Frames, prefixes: Prefix)
    requires
        frames.wf(),
        frames.queue@.len() <= 369,
        zero_border(prefixes.black@),
        zero_border(prefixes.white@),
    ensures
        worst_error(frames.queue@.len() as int) <= 0x1_0000_0000,
        prefixes_fit(canvas, frames, prefixes),
{
    let count = frames.queue@.len();
    worst_error_squares(count);
    squares_closed(count);
    squares_monotonic(count, 369);
    squares_closed(369);
    assert(369nat * (369nat + 1) * (2 * 369nat + 1) == 100895670) by (nonlinear_arith);
    let c = count as int;
    assert(255 * c * (c + 1) * (2 * c + 1) == 255 * (count * (count + 1) * (2 * count + 1)))
        by (nonlinear_arith)
        requires
            c == count,
    ;
    squares_monotonic(0, count);
    repaint_cost_bounded(canvas, frames, false);
    repaint_cost_bounded(canvas, frames, true);
    let bound = worst_error(c);
    summed_bounded(prefixes.black@, repaint_cost(canvas, frames.weighted@, c, false), bound);
    summed_bounded(prefixes.white@, repaint_cost(canvas, frames.weighted@, c, true), bound);
}

/// The sum over a block of pixels is read off its four corners. Of a block that reaches
/// over the edge of the picture only what lies on the picture counts, and an empty block
/// counts nothing.
pub proof fn rect_by_corners(table: Seq<i64>, left: int, top: int, right: int, bottom: int)
    ensures
        0 <= left < right <= 1280 && 0 <= top < bottom <= 720 ==> rect_value(
            table,
            left,
            top,
            right,
            bottom,
        ) == table[bottom * 1281 + right] - table[top * 1281 + right] - table[bottom * 1281 + left]
            + table[top * 1281 + left],
        right <= left || bottom <= top || right <= 0 || 1280 <= left || bottom <= 0 || 720 <= top
            ==> rect_value(table, left, top, right, bottom) == 0,
        left < 0 ==> rect_value(table, left, top, right, bottom) == rect_value(
            table,
            0,
            top,
            right,
            bottom,
        ),
        top < 0 ==> rect_value(table, left, top, right, bottom) == rect_value(
            table,
            left,
            0,
            right,
            bottom,
        ),
        right > 1280 ==> rect_value(table, left, top, right, bottom) == rect_value(
            table,
            left,
            top,
            1280,
            bottom,
        ),
        bottom > 720 ==> rect_value(table, left, top, right, bottom) == rect_value(
            table,
            left,
            top,
            right,
            720,
        ),
{
}

/// Filling a table in leaves its top row and its left column alone, and puts into each
/// other cell the costs of all pixels above it and to its left, on top of what the top row
/// holds in its column.
pub proof fn filled_cells(table: Seq<i64>, cost: Seq<int>, row: int, column: int)
    requires
        table.len() >= 1281 * 721,
        summed_fits(table, cost),
        0 <= row <= 720,
        0 <= column <= 1280,
    ensures
        summed(table, cost).len() == table.len(),
        row == 0 || column == 0 ==> summed(table, cost)[row * 1281 + column] == table[row * 1281
            + column],
        1 <= row && 1 <= column ==> summed(table, cost)[row * 1281 + column] == table[column]
            + block_sum(cost, 0, 0, column, row),
{
    cell_place(row, column);
    let i = row * STRIDE + column;
    assert(i < TABLE);
    if 1 <= row && 1 <= column {
        assert(reached(i, HEIGHT as int, 0));
        assert(fits_i64(table[column] + block_sum(cost, 0, 0, column, row)));
    }
}

/// What repainting costs, pixel by pixel: nothing where the colour is right already, and
/// else the difference between the worst error and twice the weighted sum, one way for
/// white and the other for black.
pub proof fn repaint_cost_of_pixel(
    canvas: Seq<u8>,
    weighted: Seq<u32>,
    count: nat,
    i: int,
)
    requires
        0 <= i < 921600,
    ensures
        repaint_cost(canvas, weighted, count as int, true).len() == 921600,
        repaint_cost(canvas, weighted, count as int, false).len() == 921600,
        canvas[i] == 0 ==> repaint_cost(canvas, weighted, count as int, false)[i] == 0,
        canvas[i] != 0 ==> repaint_cost(canvas, weighted, count as int, true)[i] == 0,
        canvas[i] == 0 ==> repaint_cost(canvas, weighted, count as int, true)[i] == 255 * squares(
            count,
        ) - 2 * weighted[i],
        canvas[i] != 0 ==> repaint_cost(canvas, weighted, count as int, false)[i] == 2
            * weighted[i] - 255 * squares(count),
{
    worst_error_squares(count);
}

/// The tables are seen as they are.
pub proof fn tables_as_held(prefixes: Prefix)
    ensures
        prefixes@.black == prefixes.black@,
        prefixes@.white == prefixes.white@,
        prefixes@.of(false) == prefixes.black@,
        prefixes@.of(true) == prefixes.white@,
{
}

} // verus!
