//! Tables on which every circle of a search can be scored.

use vstd::prelude::*;

use crate::geometry::{HEIGHT, WIDTH, clamped, fits_i64};
use crate::prefix::{STRIDE, TABLE, Tables, rect_fits, rect_value, table_bounded};
use crate::score::{
    approx_fits,
    band_count,
    band_fits,
    band_middle,
    band_shape,
    band_top,
    bands_sum,
    exact_fits,
    half_chord,
    half_chord_bounds,
    row_fits,
    rows_sum,
    score_fits,
};
use crate::search::{placed, placed_near, searchable};

verus! {

proof fn rect_bounded(table: Seq<i64>, bound: int, left: int, top: int, right: int, bottom: int)
    requires
        table_bounded(table, bound),
        0 <= bound <= 0x4_0000_0000_0000,
    ensures
        -4 * bound <= rect_value(table, left, top, right, bottom) <= 4 * bound,
        rect_fits(table, left, top, right, bottom),
{
    let l = clamped(left, 0, WIDTH as int);
    let r = clamped(right, 0, WIDTH as int);
    let t = clamped(top, 0, HEIGHT as int);
    let b = clamped(bottom, 0, HEIGHT as int);
    assert(0 <= b * STRIDE + r < TABLE);
    assert(0 <= t * STRIDE + r < TABLE);
    assert(0 <= b * STRIDE + l < TABLE);
    assert(0 <= t * STRIDE + l < TABLE);
}

proof fn bands_bounded(table: Seq<i64>, bound: int, x: int, y: int, radius: int, bands: int)
    requires
        table_bounded(table, bound),
        0 <= bound <= 0x4_0000_0000_0000,
        0 <= bands,
    ensures
        -4 * bound * bands <= bands_sum(table, x, y, radius, bands) <= 4 * bound * bands,
    decreases bands,
{
    if bands > 0 {
        bands_bounded(table, bound, x, y, radius, bands - 1);
        let half = half_chord(radius, band_middle(radius, bands - 1));
        rect_bounded(
            table,
            bound,
            x - half,
            y + band_top(radius, bands - 1),
            x + half + 1,
            y + band_top(radius, bands),
        );
        assert(4 * bound * bands == 4 * bound * (bands - 1) + 4 * bound) by (nonlinear_arith);
        assert(-4 * bound * bands == -4 * bound * (bands - 1) - 4 * bound) by (nonlinear_arith);
    } else {
        assert(4 * bound * bands == 0 && -4 * bound * bands == 0) by (nonlinear_arith)
            requires
                bands == 0,
        ;
    }
}

proof fn rows_bounded(table: Seq<i64>, bound: int, x: int, y: int, radius: int, rows: int)
    requires
        table_bounded(table, bound),
        0 <= bound <= 0x4_0000_0000_0000,
        0 <= rows,
    ensures
        -4 * bound * rows <= rows_sum(table, x, y, radius, rows) <= 4 * bound * rows,
    decreases rows,
{
    if rows > 0 {
        rows_bounded(table, bound, x, y, radius, rows - 1);
        let dy = rows - 1 - radius;
        let half = half_chord(radius, dy);
        rect_bounded(table, bound, x - half, y + dy, x + half + 1, y + dy + 1);
        assert(4 * bound * rows == 4 * bound * (rows - 1) + 4 * bound) by (nonlinear_arith);
        assert(-4 * bound * rows == -4 * bound * (rows - 1) - 4 * bound) by (nonlinear_arith);
    } else {
        assert(4 * bound * rows == 0 && -4 * bound * rows == 0) by (nonlinear_arith)
            requires
                rows == 0,
        ;
    }
}

proof fn sum_in_range(bound: int, parts: int, sum: int)
    requires
        0 <= bound <= 0x4_0000_0000_0000,
        0 <= parts <= 1803,
        -4 * bound * parts <= sum <= 4 * bound * parts,
    ensures
        fits_i64(sum),
{
    assert(0 <= 4 * bound * parts <= 4 * 0x4_0000_0000_0000 * 1803) by (nonlinear_arith)
        requires
            0 <= bound <= 0x4_0000_0000_0000,
            0 <= parts <= 1803,
    ;
    assert(-4 * bound * parts == -(4 * bound * parts)) by (nonlinear_arith);
}

proof fn circle_fits(table: Seq<i64>, bound: int, x: int, y: int, radius: int)
    requires
        table_bounded(table, bound),
        0 <= bound <= 0x4_0000_0000_0000,
        placed(x, y, radius),
    ensures
        approx_fits(table, x, y, radius),
        exact_fits(table, x, y, radius),
{
    placed_near(x, y, radius);
    assert(0 <= radius * radius <= 1000000) by (nonlinear_arith)
        requires
            0 <= radius <= 1000,
    ;
    assert forall|band: int| 0 <= band < band_count(radius) implies #[trigger] band_fits(
        table,
        x,
        y,
        radius,
        band,
    ) by {
        band_shape(radius, band);
        half_chord_bounds(radius, band_middle(radius, band));
        let half = half_chord(radius, band_middle(radius, band));
        rect_bounded(
            table,
            bound,
            x - half,
            y + band_top(radius, band),
            x + half + 1,
            y + band_top(radius, band + 1),
        );
        bands_bounded(table, bound, x, y, radius, band + 1);
        sum_in_range(bound, band + 1, bands_sum(table, x, y, radius, band + 1));
        assert(0 <= (band + 1) * (2 * radius + 1) <= 15 * 1803) by (nonlinear_arith)
            requires
                0 <= band <= 14,
                0 <= radius <= 901,
        ;
    }
    assert forall|dy: int| -radius <= dy <= radius implies #[trigger] row_fits(
        table,
        x,
        y,
        radius,
        dy,
    ) by {
        half_chord_bounds(radius, dy);
        let half = half_chord(radius, dy);
        rect_bounded(table, bound, x - half, y + dy, x + half + 1, y + dy + 1);
        rows_bounded(table, bound, x, y, radius, dy + radius + 1);
        sum_in_range(bound, dy + radius + 1, rows_sum(table, x, y, radius, dy + radius + 1));
    }
}

/// On tables whose cells stay within 2^50 the search can score every circle.
pub proof fn bounded_searchable(tables: Tables, bound: int)
    requires
        table_bounded(tables.black, bound),
        table_bounded(tables.white, bound),
        0 <= bound <= 0x4_0000_0000_0000,
    ensures
        searchable(tables),
{
    assert forall|x: int, y: int, radius: int, white: bool, exact_score: bool|
        placed(x, y, radius) implies #[trigger] score_fits(
        tables,
        x,
        y,
        radius,
        white,
        exact_score,
    ) by {
        circle_fits(tables.of(white), bound, x, y, radius);
    }
}

} // verus!
