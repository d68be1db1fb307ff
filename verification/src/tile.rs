//! Laying several canvases out in one picture.

use vstd::arithmetic::div_mod::{
    lemma_div_by_multiple,
    lemma_div_is_ordered,
    lemma_div_pos_is_pos,
    lemma_fundamental_div_mod,
    lemma_fundamental_div_mod_converse,
};
use vstd::prelude::*;

use crate::geometry::{
    HEIGHT,
    PIXELS,
    WIDTH,
    is_root,
    isqrt,
    on_picture,
    root,
    root_exists,
    root_unique,
};

verus! {

/// What the canvases hold.
pub open spec fn pixels(canvases: Seq<Vec<u8>>) -> Seq<Seq<u8>> {
    canvases.map_values(|canvas: Vec<u8>| canvas@)
}

/// Columns of the grid for `n` canvases: the square root of `n`, rounded up.
pub open spec fn grid_columns(n: int) -> int {
    if root(n) * root(n) < n {
        root(n) + 1
    } else {
        root(n)
    }
}

/// Rows of the grid for `n` canvases: as many as it takes to hold them.
pub open spec fn grid_rows(n: int) -> int {
    (n + grid_columns(n) - 1) / grid_columns(n)
}

/// The column at which a cell of the grid starts.
pub open spec fn cell_left(n: int, cell: int) -> int {
    (cell % grid_columns(n)) * WIDTH / grid_columns(n)
}

/// The column at which a cell of the grid ends.
pub open spec fn cell_right(n: int, cell: int) -> int {
    (cell % grid_columns(n) + 1) * WIDTH / grid_columns(n)
}

/// The row at which a cell of the grid starts.
pub open spec fn cell_top(n: int, cell: int) -> int {
    (cell / grid_columns(n)) * HEIGHT / grid_rows(n)
}

/// The row at which a cell of the grid ends.
pub open spec fn cell_bottom(n: int, cell: int) -> int {
    (cell / grid_columns(n) + 1) * HEIGHT / grid_rows(n)
}

/// The pixel lies in the cell.
pub open spec fn in_cell(n: int, cell: int, x: int, y: int) -> bool {
    &&& 0 <= cell < n
    &&& cell_left(n, cell) <= x < cell_right(n, cell)
    &&& cell_top(n, cell) <= y < cell_bottom(n, cell)
}

/// The place on the cell's canvas whose pixel is shown there: the canvas is shrunk to the
/// cell by leaving rows and columns out.
pub open spec fn cell_source(n: int, cell: int, x: int, y: int) -> int {
    let left = cell_left(n, cell);
    let right = cell_right(n, cell);
    let top = cell_top(n, cell);
    let bottom = cell_bottom(n, cell);
    (y - top) * HEIGHT / (bottom - top) * WIDTH + (x - left) * WIDTH / (right - left)
}

/// The cell that shows in a pixel, if one does.
pub open spec fn cell_at(n: int, x: int, y: int) -> Option<int> {
    if exists|cell: int| #[trigger] in_cell(n, cell, x, y) {
        Some(choose|cell: int| #[trigger] in_cell(n, cell, x, y))
    } else {
        None
    }
}

/// What shows in the pixel at place `i`: a pixel of its cell's canvas, or black where the
/// grid has no cell left to show.
pub open spec fn tile_pixel(canvases: Seq<Seq<u8>>, i: int) -> u8 {
    let n = canvases.len() as int;
    let x = i % (WIDTH as int);
    let y = i / (WIDTH as int);
    match cell_at(n, x, y) {
        Some(cell) => canvases[cell][cell_source(n, cell, x, y)],
        None => 0,
    }
}

/// The canvases laid out in one picture.
pub open spec fn tiled(canvases: Seq<Seq<u8>>) -> Seq<u8> {
    Seq::new(PIXELS as nat, |i: int| tile_pixel(canvases, i))
}

/// The cell's canvas reaches as far as the cell shows of it.
pub open spec fn canvas_reaches(canvases: Seq<Seq<u8>>, cell: int) -> bool {
    let n = canvases.len() as int;
    forall|x: int, y: int| #[trigger]
        in_cell(n, cell, x, y) ==> cell_source(n, cell, x, y) < canvases[cell].len()
}

/// The grid is the smallest square that holds `n` canvases, cut down to the rows needed.
pub proof fn grid_shape(n: int)
    requires
        1 <= n,
    ensures
        1 <= grid_rows(n) <= grid_columns(n) <= n,
        grid_columns(n) * grid_columns(n) >= n,
        (grid_columns(n) - 1) * (grid_columns(n) - 1) < n,
        grid_rows(n) * grid_columns(n) >= n,
        (grid_rows(n) - 1) * grid_columns(n) < n,
        is_root(n, root(n)),
{
    root_exists(n);
    let r = root(n);
    assert(1 <= r) by (nonlinear_arith)
        requires
            1 <= n,
            0 <= r,
            n < (r + 1) * (r + 1),
    ;
    let c = grid_columns(n);
    assert(c * c >= n && (c - 1) * (c - 1) < n) by (nonlinear_arith)
        requires
            1 <= r,
            r * r <= n,
            n < (r + 1) * (r + 1),
            (r * r < n && c == r + 1) || (r * r >= n && c == r),
    ;
    assert(c <= n) by (nonlinear_arith)
        requires
            1 <= c,
            (c - 1) * (c - 1) < n,
            r * r <= n,
            1 <= r,
            (r * r < n && c == r + 1) || (r * r >= n && c == r),
    ;
    let m = n + c - 1;
    let q = grid_rows(n);
    assert(m == c * q + m % c && 0 <= m % c < c) by {
        lemma_fundamental_div_mod(m, c);
    }
    assert(c * q == q * c) by (nonlinear_arith);
    assert((q - 1) * c == q * c - c) by (nonlinear_arith);
    assert(1 <= q <= c) by (nonlinear_arith)
        requires
            1 <= c,
            1 <= n,
            n <= c * c,
            q * c <= n + c - 1,
            n <= q * c,
    ;
}

/// Growing a multiple of the size by one step never moves an edge back.
proof fn edges_ordered(a: int, b: int, size: int, parts: int)
    requires
        0 <= a <= b,
        0 <= size,
        1 <= parts,
    ensures
        0 <= a * size / parts <= b * size / parts,
        b <= parts ==> b * size / parts <= size,
{
    assert(0 <= a * size <= b * size) by (nonlinear_arith)
        requires
            0 <= a <= b,
            0 <= size,
    ;
    lemma_div_is_ordered(0, a * size, parts);
    lemma_div_is_ordered(a * size, b * size, parts);
    if b <= parts {
        assert(b * size <= size * parts) by (nonlinear_arith)
            requires
                0 <= b <= parts,
                0 <= size,
        ;
        lemma_div_is_ordered(b * size, size * parts, parts);
        lemma_div_by_multiple(size, parts);
    }
}

/// A cell of the grid stands in one of its rows and columns.
proof fn cell_position(n: int, cell: int)
    requires
        0 <= cell < n,
    ensures
        0 <= cell % grid_columns(n) < grid_columns(n),
        0 <= cell / grid_columns(n) < grid_rows(n),
        cell == cell / grid_columns(n) * grid_columns(n) + cell % grid_columns(n),
{
    grid_shape(n);
    let c = grid_columns(n);
    let q = grid_rows(n);
    lemma_fundamental_div_mod(cell, c);
    let row = cell / c;
    assert(c * row == row * c) by (nonlinear_arith);
    assert(0 <= row < q) by (nonlinear_arith)
        requires
            1 <= c,
            0 <= cell < n,
            n <= q * c,
            cell - c < row * c <= cell,
    ;
}

/// The cells lie on the picture.
pub proof fn cell_on_picture(n: int, cell: int)
    requires
        0 <= cell < n,
    ensures
        0 <= cell_left(n, cell) <= cell_right(n, cell) <= WIDTH,
        0 <= cell_top(n, cell) <= cell_bottom(n, cell) <= HEIGHT,
{
    grid_shape(n);
    cell_position(n, cell);
    let c = grid_columns(n);
    let column = cell % c;
    let row = cell / c;
    edges_ordered(column, column + 1, WIDTH as int, c);
    edges_ordered(row, row + 1, HEIGHT as int, grid_rows(n));
}

/// No two cells share a pixel.
pub proof fn cells_disjoint(n: int, a: int, b: int, x: int, y: int)
    requires
        in_cell(n, a, x, y),
        in_cell(n, b, x, y),
    ensures
        a == b,
{
    grid_shape(n);
    cell_position(n, a);
    cell_position(n, b);
    let c = grid_columns(n);
    let q = grid_rows(n);
    if a % c < b % c {
        edges_ordered(a % c + 1, b % c, WIDTH as int, c);
    } else if b % c < a % c {
        edges_ordered(b % c + 1, a % c, WIDTH as int, c);
    }
    if a / c < b / c {
        edges_ordered(a / c + 1, b / c, HEIGHT as int, q);
    } else if b / c < a / c {
        edges_ordered(b / c + 1, a / c, HEIGHT as int, q);
    }
}

/// A pixel in a cell shows that cell.
pub proof fn cell_at_unique(n: int, cell: int, x: int, y: int)
    requires
        in_cell(n, cell, x, y),
    ensures
        cell_at(n, x, y) == Some(cell),
{
    let other = choose|other: int| #[trigger] in_cell(n, other, x, y);
    cells_disjoint(n, cell, other, x, y);
}

/// Every pixel along a side lies in one of the parts that the side is cut into.
proof fn part_found(x: int, size: int, parts: int) -> (part: int)
    requires
        0 <= x < size,
        1 <= parts,
    ensures
        0 <= part < parts,
        part * size / parts <= x < (part + 1) * size / parts,
{
    let reach = (x + 1) * parts - 1;
    let part = reach / size;
    assert(0 <= reach && reach < size * parts && reach == x * parts + (parts - 1))
        by (nonlinear_arith)
        requires
            0 <= x < size,
            1 <= parts,
            reach == (x + 1) * parts - 1,
    ;
    lemma_fundamental_div_mod(reach, size);
    assert(part * size <= reach && reach < (part + 1) * size && 0 <= part && part < parts)
        by (nonlinear_arith)
        requires
            1 <= size,
            1 <= parts,
            0 <= reach,
            reach < size * parts,
            reach == size * part + reach % size,
            0 <= reach % size < size,
    ;
    lemma_fundamental_div_mod_converse(reach, parts, x, parts - 1);
    lemma_div_is_ordered(part * size, reach, parts);
    lemma_div_is_ordered((x + 1) * parts, (part + 1) * size, parts);
    lemma_div_by_multiple(x + 1, parts);
    part
}

/// Where there is a canvas for every place of the grid, no pixel is left without one.
pub proof fn full_grid_covers(n: int, x: int, y: int)
    requires
        1 <= n,
        n == grid_rows(n) * grid_columns(n),
        on_picture(x, y),
    ensures
        cell_at(n, x, y) is Some,
{
    grid_shape(n);
    let c = grid_columns(n);
    let column = part_found(x, WIDTH as int, c);
    let row = part_found(y, HEIGHT as int, grid_rows(n));
    let cell = row * c + column;
    lemma_fundamental_div_mod_converse(cell, c, row, column);
    assert(0 <= cell < n) by (nonlinear_arith)
        requires
            0 <= column < c,
            0 <= row < grid_rows(n),
            cell == row * c + column,
            n == grid_rows(n) * c,
    ;
    assert(in_cell(n, cell, x, y));
}

/// What a cell shows are pixels of a picture.
pub proof fn cell_source_on_picture(n: int, cell: int, x: int, y: int)
    requires
        in_cell(n, cell, x, y),
    ensures
        0 <= (y - cell_top(n, cell)) * HEIGHT / (cell_bottom(n, cell) - cell_top(n, cell))
            < HEIGHT,
        0 <= (x - cell_left(n, cell)) * WIDTH / (cell_right(n, cell) - cell_left(n, cell)) < WIDTH,
        0 <= cell_source(n, cell, x, y) < PIXELS,
{
    shrunk(y - cell_top(n, cell), cell_bottom(n, cell) - cell_top(n, cell), HEIGHT as int);
    shrunk(x - cell_left(n, cell), cell_right(n, cell) - cell_left(n, cell), WIDTH as int);
}

proof fn shrunk(offset: int, parts: int, size: int)
    requires
        0 <= offset < parts,
        1 <= size,
    ensures
        0 <= offset * size / parts < size,
{
    assert(0 <= offset * size && offset * size < size * parts) by (nonlinear_arith)
        requires
            0 <= offset < parts,
            1 <= size,
    ;
    lemma_div_pos_is_pos(offset * size, parts);
    lemma_fundamental_div_mod(offset * size, parts);
    let q = offset * size / parts;
    assert(q < size) by (nonlinear_arith)
        requires
            1 <= parts,
            parts * q <= offset * size,
            offset * size < size * parts,
    ;
}

/// Canvases that cover the picture reach as far as any cell shows of them.
pub proof fn full_canvases_reach(canvases: Seq<Seq<u8>>, cell: int)
    requires
        0 <= cell < canvases.len(),
        canvases[cell].len() >= PIXELS,
    ensures
        canvas_reaches(canvases, cell),
{
    let n = canvases.len() as int;
    assert forall|x: int, y: int| #[trigger] in_cell(n, cell, x, y) implies cell_source(
        n,
        cell,
        x,
        y,
    ) < canvases[cell].len() by {
        cell_source_on_picture(n, cell, x, y);
    }
}

/// The picture with the cells before `cell` filled in, and that cell up to a row and a
/// column.
pub open spec fn tiled_to(
    canvases: Seq<Seq<u8>>,
    cell: int,
    row: int,
    column: int,
) -> Seq<u8> {
    Seq::new(
        PIXELS as nat,
        |i: int|
            match cell_at(canvases.len() as int, i % (WIDTH as int), i / (WIDTH as int)) {
                Some(c) => if c < cell || (c == cell && (i / (WIDTH as int) < row || (i / (
                WIDTH as int) == row && i % (WIDTH as int) < column))) {
                    tile_pixel(canvases, i)
                } else {
                    0
                },
                None => 0,
            },
    )
}

/// A pixel that shows a cell lies in it.
proof fn cell_at_inside(n: int, x: int, y: int)
    ensures
        cell_at(n, x, y) matches Some(cell) ==> in_cell(n, cell, x, y),
{
}

/// Lays the canvases out in one picture, in a grid as nearly square as they allow, row by
/// row.
pub fn tile(canvases: &[Vec<u8>]) -> (frame: Vec<u8>)
    requires
        canvases.len() > 0,
        forall|cell: int| 0 <= cell < canvases.len() ==> canvas_reaches(pixels(canvases@), cell),
    ensures
        frame@ == tiled(pixels(canvases@)),
        frame@.len() == 921600,
{
    let ghost n = canvases.len() as int;
    proof {
        grid_shape(n);
    }
    let mut frame: Vec<u8> = vec![0; PIXELS];
    let mut columns: usize = isqrt(canvases.len() as u64) as usize;
    proof {
        assert(columns <= canvases.len()) by (nonlinear_arith)
            requires
                columns * columns <= canvases.len(),
        ;
    }
    if columns * columns < canvases.len() {
        columns = columns + 1;
    }
    proof {
        rows_rounded_up(n, columns as int);
        edge_products_fit(n);
    }
    let mut rows: usize = canvases.len() / columns;
    if canvases.len() % columns > 0 {
        rows = rows + 1;
    }
    assert(frame@ =~= tiled_to(pixels(canvases@), 0, 0, 0));
    let mut cell: usize = 0;
    while cell < canvases.len()
        invariant
            cell <= canvases.len(),
            n == canvases.len(),
            columns == grid_columns(n),
            rows == grid_rows(n),
            1 <= rows <= columns,
            columns * 1280 <= usize::MAX,
            forall|c: int| 0 <= c < canvases.len() ==> canvas_reaches(pixels(canvases@), c),
            frame@ == tiled_to(pixels(canvases@), cell as int, 0, 0),
        decreases canvases.len() - cell,
    {
        let column: usize = cell % columns;
        let row: usize = cell / columns;
        proof {
            cell_position(n, cell as int);
            cell_on_picture(n, cell as int);
            assert(0 <= column * 1280 <= (column + 1) * 1280 <= columns * 1280
                && 0 <= row * 720 <= (row + 1) * 720 <= columns * 1280) by (nonlinear_arith)
                requires
                    0 <= column < columns,
                    0 <= row < rows,
                    rows <= columns,
            ;
        }
        let left: usize = column * WIDTH / columns;
        let right: usize = (column + 1) * WIDTH / columns;
        let top: usize = row * HEIGHT / rows;
        let bottom: usize = (row + 1) * HEIGHT / rows;
        proof {
            cell_rows_ahead(pixels(canvases@), cell as int);
        }
        let mut y: usize = top;
        while y < bottom
            invariant
                n == canvases.len(),
                cell < canvases.len(),
                top <= y <= bottom <= HEIGHT,
                left <= right <= WIDTH,
                left == cell_left(n, cell as int),
                right == cell_right(n, cell as int),
                top == cell_top(n, cell as int),
                bottom == cell_bottom(n, cell as int),
                canvas_reaches(pixels(canvases@), cell as int),
                frame@ == tiled_to(pixels(canvases@), cell as int, y as int, 0),
            decreases bottom - y,
        {
            let source_y: usize = (y - top) * HEIGHT / (bottom - top);
            proof {
                cell_columns_ahead(pixels(canvases@), cell as int, y as int);
            }
            let mut x: usize = left;
            while x < right
                invariant
                    n == canvases.len(),
                    cell < canvases.len(),
                    top <= y < bottom <= HEIGHT,
                    left <= x <= right <= WIDTH,
                    left == cell_left(n, cell as int),
                    right == cell_right(n, cell as int),
                    top == cell_top(n, cell as int),
                    bottom == cell_bottom(n, cell as int),
                    source_y == (y - top) * HEIGHT / (bottom - top),
                    canvas_reaches(pixels(canvases@), cell as int),
                    frame@ == tiled_to(pixels(canvases@), cell as int, y as int, x as int),
                decreases right - x,
            {
                let source_x: usize = (x - left) * WIDTH / (right - left);
                proof {
                    assert(in_cell(n, cell as int, x as int, y as int));
                    cell_source_on_picture(n, cell as int, x as int, y as int);
                    cell_at_unique(n, cell as int, x as int, y as int);
                    let at = y * WIDTH + x;
                    assert(at / (WIDTH as int) == y && at % (WIDTH as int) == x);
                    let value = canvases@[cell as int]@[source_y * WIDTH + source_x];
                    assert(value == tile_pixel(pixels(canvases@), at));
                    assert(tiled_to(pixels(canvases@), cell as int, y as int, x as int).update(at, value)
                        =~= tiled_to(pixels(canvases@), cell as int, y as int, x + 1));
                }
                frame[y * WIDTH + x] = canvases[cell][source_y * WIDTH + source_x];
                x = x + 1;
            }
            proof {
                cell_columns_done(pixels(canvases@), cell as int, y as int);
            }
            y = y + 1;
        }
        proof {
            cell_rows_done(pixels(canvases@), cell as int);
        }
        cell = cell + 1;
    }
    proof {
        let last = tiled_to(pixels(canvases@), n, 0, 0);
        assert forall|i: int| 0 <= i < PIXELS implies last[i] == tiled(pixels(canvases@))[i] by {
            cell_at_inside(n, i % (WIDTH as int), i / (WIDTH as int));
        }
        assert(last =~= tiled(pixels(canvases@)));
    }
    frame
}

proof fn rows_rounded_up(n: int, columns: int)
    requires
        1 <= n,
        columns == grid_columns(n),
    ensures
        n % columns > 0 ==> grid_rows(n) == n / columns + 1,
        n % columns == 0 ==> grid_rows(n) == n / columns,
{
    grid_shape(n);
    let q = n / columns;
    lemma_fundamental_div_mod(n, columns);
    if n % columns > 0 {
        let left = n % columns - 1;
        assert(n + columns - 1 == columns * (q + 1) + left) by (nonlinear_arith)
            requires
                n == columns * q + n % columns,
                left == n % columns - 1,
        ;
        lemma_fundamental_div_mod_converse(
            n + columns - 1,
            columns,
            q + 1,
            left,
        );
    } else {
        lemma_fundamental_div_mod_converse(
            n + columns - 1,
            columns,
            q,
            columns - 1,
        );
    }
}

proof fn edge_products_fit(n: int)
    requires
        1 <= n <= usize::MAX,
    ensures
        grid_columns(n) * 1280 <= usize::MAX,
{
    grid_shape(n);
    let r = root(n);
    let c = grid_columns(n);
    if r < 1282 {
        assert(c * 1280 <= 1283 * 1280) by (nonlinear_arith)
            requires
                c <= r + 1,
                r < 1282,
        ;
    } else {
        assert(c * 1280 <= n) by (nonlinear_arith)
            requires
                c <= r + 1,
                r * r <= n,
                r >= 1282,
        ;
    }
}

proof fn cell_rows_ahead(canvases: Seq<Seq<u8>>, cell: int)
    requires
        0 <= cell < canvases.len(),
    ensures
        tiled_to(canvases, cell, 0, 0) == tiled_to(
            canvases,
            cell,
            cell_top(canvases.len() as int, cell),
            0,
        ),
{
    let n = canvases.len() as int;
    let a = tiled_to(canvases, cell, 0, 0);
    let b = tiled_to(canvases, cell, cell_top(n, cell), 0);
    assert forall|i: int| 0 <= i < PIXELS implies a[i] == b[i] by {
        cell_at_inside(n, i % (WIDTH as int), i / (WIDTH as int));
    }
    assert(a =~= b);
}

proof fn cell_rows_done(canvases: Seq<Seq<u8>>, cell: int)
    requires
        0 <= cell < canvases.len(),
    ensures
        forall|row: int|
            cell_bottom(canvases.len() as int, cell) <= row ==> #[trigger] tiled_to(
                canvases,
                cell,
                row,
                0,
            ) == tiled_to(canvases, cell + 1, 0, 0),
{
    let n = canvases.len() as int;
    assert forall|row: int| cell_bottom(n, cell) <= row implies #[trigger] tiled_to(
        canvases,
        cell,
        row,
        0,
    ) == tiled_to(canvases, cell + 1, 0, 0) by {
        let a = tiled_to(canvases, cell, row, 0);
        let b = tiled_to(canvases, cell + 1, 0, 0);
        assert forall|i: int| 0 <= i < PIXELS implies a[i] == b[i] by {
            cell_at_inside(n, i % (WIDTH as int), i / (WIDTH as int));
        }
        assert(a =~= b);
    }
}

proof fn cell_columns_ahead(canvases: Seq<Seq<u8>>, cell: int, row: int)
    requires
        0 <= cell < canvases.len(),
    ensures
        tiled_to(canvases, cell, row, 0) == tiled_to(
            canvases,
            cell,
            row,
            cell_left(canvases.len() as int, cell),
        ),
{
    let n = canvases.len() as int;
    let a = tiled_to(canvases, cell, row, 0);
    let b = tiled_to(canvases, cell, row, cell_left(n, cell));
    assert forall|i: int| 0 <= i < PIXELS implies a[i] == b[i] by {
        cell_at_inside(n, i % (WIDTH as int), i / (WIDTH as int));
    }
    assert(a =~= b);
}

proof fn cell_columns_done(canvases: Seq<Seq<u8>>, cell: int, row: int)
    requires
        0 <= cell < canvases.len(),
    ensures
        tiled_to(canvases, cell, row, cell_right(canvases.len() as int, cell)) == tiled_to(
            canvases,
            cell,
            row + 1,
            0,
        ),
{
    let n = canvases.len() as int;
    let a = tiled_to(canvases, cell, row, cell_right(n, cell));
    let b = tiled_to(canvases, cell, row + 1, 0);
    assert forall|i: int| 0 <= i < PIXELS implies a[i] == b[i] by {
        cell_at_inside(n, i % (WIDTH as int), i / (WIDTH as int));
    }
    assert(a =~= b);
}

/// The grid that `grid_shape` describes is the only one of that shape.
proof fn grid_unique(n: int, columns: int, rows: int)
    requires
        1 <= n,
        1 <= columns,
        (columns - 1) * (columns - 1) < n,
        n <= columns * columns,
        (rows - 1) * columns < n,
        n <= rows * columns,
    ensures
        columns == grid_columns(n),
        rows == grid_rows(n),
{
    grid_shape(n);
    let c = grid_columns(n);
    let q = grid_rows(n);
    assert(columns == c) by (nonlinear_arith)
        requires
            1 <= columns,
            1 <= c,
            (columns - 1) * (columns - 1) < n,
            n <= columns * columns,
            (c - 1) * (c - 1) < n,
            n <= c * c,
    ;
    assert(rows == q) by (nonlinear_arith)
        requires
            1 <= c,
            columns == c,
            (rows - 1) * columns < n,
            n <= rows * columns,
            (q - 1) * c < n,
            n <= q * c,
    ;
}

/// Each canvas is shown whole, shrunk to its cell. The grid has the fewest columns that
/// make a square of at least as many cells as there are canvases, and the fewest rows that
/// hold them. A cell spans its share of the columns and rows of the picture, and what it
/// shows at a pixel is the pixel as far across and down its canvas.
pub proof fn cell_shows_canvas(
    canvases: Seq<Seq<u8>>,
    columns: int,
    rows: int,
    row: int,
    column: int,
    x: int,
    y: int,
)
    requires
        1 <= columns,
        (columns - 1) * (columns - 1) < canvases.len() <= columns * columns,
        (rows - 1) * columns < canvases.len() <= rows * columns,
        0 <= row < rows,
        0 <= column < columns,
        row * columns + column < canvases.len(),
        column * 1280 / columns <= x < (column + 1) * 1280 / columns,
        row * 720 / rows <= y < (row + 1) * 720 / rows,
    ensures
        ({
            let left = column * 1280 / columns;
            let right = (column + 1) * 1280 / columns;
            let top = row * 720 / rows;
            let bottom = (row + 1) * 720 / rows;
            tiled(canvases)[y * 1280 + x] == canvases[row * columns + column][((y - top) * 720 / (
            bottom - top)) * 1280 + (x - left) * 1280 / (right - left)]
        }),
{
    let n = canvases.len() as int;
    let cell = row * columns + column;
    grid_unique(n, columns, rows);
    grid_shape(n);
    assert(0 <= row * columns) by (nonlinear_arith)
        requires
            0 <= row,
            1 <= columns,
    ;
    lemma_fundamental_div_mod_converse(cell, columns, row, column);
    cell_on_picture(n, cell);
    assert(in_cell(n, cell, x, y));
    cell_at_unique(n, cell, x, y);
    let i = y * 1280 + x;
    assert(0 <= i < PIXELS && i % 1280 == x && i / 1280 == y);
}

/// A place of the grid that no canvas is left for stays black.
pub proof fn spare_cell_black(
    canvases: Seq<Seq<u8>>,
    columns: int,
    rows: int,
    row: int,
    column: int,
    x: int,
    y: int,
)
    requires
        1 <= columns,
        (columns - 1) * (columns - 1) < canvases.len() <= columns * columns,
        (rows - 1) * columns < canvases.len() <= rows * columns,
        0 <= row < rows,
        0 <= column < columns,
        canvases.len() <= row * columns + column,
        column * 1280 / columns <= x < (column + 1) * 1280 / columns,
        row * 720 / rows <= y < (row + 1) * 720 / rows,
    ensures
        tiled(canvases)[y * 1280 + x] == 0,
{
    let n = canvases.len() as int;
    grid_unique(n, columns, rows);
    grid_shape(n);
    edges_ordered(0, column, 1280, columns);
    edges_ordered(column, column + 1, 1280, columns);
    edges_ordered(0, row, 720, rows);
    edges_ordered(row, row + 1, 720, rows);
    let i = y * 1280 + x;
    assert(0 <= i < PIXELS && i % 1280 == x && i / 1280 == y);
    if let Some(cell) = cell_at(n, x, y) {
        cell_at_inside(n, x, y);
        cell_position(n, cell);
        let other_column = cell % columns;
        let other_row = cell / columns;
        if other_column < column {
            edges_ordered(other_column + 1, column, 1280, columns);
        } else if column < other_column {
            edges_ordered(column + 1, other_column, 1280, columns);
        }
        if other_row < row {
            edges_ordered(other_row + 1, row, 720, rows);
        } else if row < other_row {
            edges_ordered(row + 1, other_row, 720, rows);
        }
    }
}

/// Every pixel of the picture lies in one place of the grid.
pub proof fn pixel_has_place(columns: int, rows: int, x: int, y: int) -> (place: (int, int))
    requires
        1 <= columns,
        1 <= rows,
        0 <= x < 1280,
        0 <= y < 720,
    ensures
        0 <= place.0 < rows,
        0 <= place.1 < columns,
        place.1 * 1280 / columns <= x < (place.1 + 1) * 1280 / columns,
        place.0 * 720 / rows <= y < (place.0 + 1) * 720 / rows,
{
    (part_found(y, 720, rows), part_found(x, 1280, columns))
}

/// A single canvas fills the picture as it is.
pub proof fn single_canvas(canvases: Seq<Seq<u8>>)
    requires
        canvases.len() == 1,
        canvases[0].len() == PIXELS,
    ensures
        tiled(canvases) == canvases[0],
{
    root_unique(1, 1);
    assert(grid_columns(1) == 1);
    assert(grid_rows(1) == 1);
    assert(cell_left(1, 0) == 0 && cell_right(1, 0) == WIDTH);
    assert(cell_top(1, 0) == 0 && cell_bottom(1, 0) == HEIGHT);
    let picture = tiled(canvases);
    assert forall|i: int| 0 <= i < PIXELS implies #[trigger] picture[i] == canvases[0][i] by {
        let x = i % (WIDTH as int);
        let y = i / (WIDTH as int);
        assert(in_cell(1, 0, x, y));
        cell_at_unique(1, 0, x, y);
        lemma_div_by_multiple(y, HEIGHT as int);
        lemma_div_by_multiple(x, WIDTH as int);
        assert(cell_source(1, 0, x, y) == y * WIDTH + x);
    }
    assert(picture =~= canvases[0]);
}

/// The canvases are seen as they are, in their order.
pub proof fn pixels_as_held(canvases: Seq<Vec<u8>>, k: int)
    requires
        0 <= k < canvases.len(),
    ensures
        pixels(canvases).len() == canvases.len(),
        pixels(canvases)[k] == canvases[k]@,
{
}

} // verus!
