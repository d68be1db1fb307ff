//! What a circle costs, estimated in bands or counted row by row.

use vstd::arithmetic::div_mod::lemma_div_by_multiple;
use vstd::prelude::*;

use crate::geometry::{fits_i32, fits_i64, is_root, isqrt, root, root_exists, root_unique};
use crate::prefix::{Prefix, Tables, rect_fits, rect_sum, rect_value};

verus! {

/// The most bands that an estimate cuts a circle into.
pub const BANDS: i32 = 15;

/// A filled circle and what painting it costs.
#[derive(Clone, Copy, Debug, PartialEq, Eq, Structural)]
pub struct Circle {
    pub x: i32,
    pub y: i32,
    pub radius: i32,
    pub white: bool,
    pub score: i64,
}

/// Half the chord of a circle at `dy` rows from its centre, rounded down.
pub open spec fn half_chord(radius: int, dy: int) -> int {
    root(radius * radius - dy * dy)
}

/// The chord of a row no further from the centre than the radius.
pub proof fn half_chord_bounds(radius: int, dy: int)
    requires
        -radius <= dy <= radius,
    ensures
        0 <= radius * radius - dy * dy,
        is_root(radius * radius - dy * dy, half_chord(radius, dy)),
        0 <= half_chord(radius, dy) <= radius,
{
    let n: int = radius * radius - dy * dy;
    assert(0 <= n <= radius * radius) by (nonlinear_arith)
        requires
            -radius <= dy <= radius,
            n == radius * radius - dy * dy,
    ;
    root_exists(n);
    let h = half_chord(radius, dy);
    assert(h <= radius) by (nonlinear_arith)
        requires
            h * h <= n,
            n <= radius * radius,
            0 <= radius,
            0 <= h,
    ;
}

/// How many bands the estimate of a circle takes.
pub open spec fn band_count(radius: int) -> int {
    if 2 * radius + 1 < BANDS {
        2 * radius + 1
    } else {
        BANDS as int
    }
}

/// The first row of a band, counted from the centre; the band before ends there.
pub open spec fn band_top(radius: int, band: int) -> int {
    -radius + band * (2 * radius + 1) / band_count(radius)
}

/// Half of `value`, rounded towards zero.
pub open spec fn halved(value: int) -> int {
    if value >= 0 {
        value / 2
    } else {
        -((-value) / 2)
    }
}

/// The row in the middle of a band, which gives the band its width.
pub open spec fn band_middle(radius: int, band: int) -> int {
    halved(band_top(radius, band) + band_top(radius, band + 1) - 1)
}

/// What the band adds to the estimate.
pub open spec fn band_value(table: Seq<i64>, x: int, y: int, radius: int, band: int) -> int {
    let half = half_chord(radius, band_middle(radius, band));
    rect_value(
        table,
        x - half,
        y + band_top(radius, band),
        x + half + 1,
        y + band_top(radius, band + 1),
    )
}

/// What the first `bands` bands add up to.
pub open spec fn bands_sum(table: Seq<i64>, x: int, y: int, radius: int, bands: int) -> int
    decreases bands,
{
    if bands <= 0 {
        0
    } else {
        bands_sum(table, x, y, radius, bands - 1) + band_value(table, x, y, radius, bands - 1)
    }
}

/// The estimated cost of a circle: its rows are cut into bands of nearly equal height, and
/// each band is taken for a rectangle as wide as the chord of its middle row.
pub open spec fn approx_value(table: Seq<i64>, x: int, y: int, radius: int) -> int {
    bands_sum(table, x, y, radius, band_count(radius))
}

/// The arithmetic of `approx` on a band stays within its types.
pub open spec fn band_fits(table: Seq<i64>, x: int, y: int, radius: int, band: int) -> bool {
    let half = half_chord(radius, band_middle(radius, band));
    let top = band_top(radius, band);
    let bottom = band_top(radius, band + 1);
    &&& fits_i32((band + 1) * (2 * radius + 1))
    &&& fits_i32(x - half)
    &&& fits_i32(x + half + 1)
    &&& fits_i32(y + top)
    &&& fits_i32(y + bottom)
    &&& rect_fits(table, x - half, y + top, x + half + 1, y + bottom)
    &&& fits_i64(bands_sum(table, x, y, radius, band + 1))
}

/// The arithmetic of `approx` stays within its types.
pub open spec fn approx_fits(table: Seq<i64>, x: int, y: int, radius: int) -> bool {
    &&& fits_i32(2 * radius)
    &&& fits_i32(2 * radius + 1)
    &&& 0 <= radius ==> fits_i32(radius * radius)
    &&& forall|band: int|
        0 <= band < band_count(radius) ==> #[trigger] band_fits(table, x, y, radius, band)
}

/// Each band has at least one row, and together they have exactly the circle's rows.
pub proof fn band_shape(radius: int, band: int)
    requires
        0 <= radius,
        0 <= band < band_count(radius),
    ensures
        band_top(radius, 0) == -radius,
        band_top(radius, band_count(radius)) == radius + 1,
        -radius <= band_top(radius, band) < band_top(radius, band + 1) <= radius + 1,
        -radius <= band_middle(radius, band) <= radius,
{
    let d = 2 * radius + 1;
    if d < BANDS {
        lemma_div_by_multiple(band, d);
        lemma_div_by_multiple(band + 1, d);
        lemma_div_by_multiple(0, d);
        lemma_div_by_multiple(d, d);
    } else {
        assert((band + 1) * d == band * d + d) by (nonlinear_arith);
        assert(0 <= band * d <= 14 * d) by (nonlinear_arith)
            requires
                0 <= band <= 14,
                0 <= d,
        ;
    }
}

/// The cost of a circle, estimated.
pub fn approx(prefix: &[i64], x: i32, y: i32, radius: i32) -> (score: i64)
    requires
        approx_fits(prefix@, x as int, y as int, radius as int),
    ensures
        score == approx_value(prefix@, x as int, y as int, radius as int),
{
    let diameter: i32 = radius * 2 + 1;
    let bands: i32 = BANDS.min(diameter);
    let mut score: i64 = 0;
    let mut band: i32 = 0;
    while band < bands
        invariant
            0 <= band,
            band <= bands || (bands < 0 && band == 0),
            bands == band_count(radius as int),
            diameter == 2 * radius + 1,
            approx_fits(prefix@, x as int, y as int, radius as int),
            score == bands_sum(prefix@, x as int, y as int, radius as int, band as int),
        decreases bands - band,
    {
        proof {
            assert(0 <= radius);
            band_shape(radius as int, band as int);
            assert(band_fits(prefix@, x as int, y as int, radius as int, band as int));
            half_chord_bounds(radius as int, band_middle(radius as int, band as int));
            assert(0 <= band * diameter <= (band + 1) * diameter) by (nonlinear_arith)
                requires
                    0 <= band,
                    0 <= diameter,
            ;
        }
        let top: i32 = -radius + band * diameter / bands;
        let bottom: i32 = -radius + (band + 1) * diameter / bands;
        let dy: i32 = (top + bottom - 1) / 2;
        proof {
            assert(0 <= dy * dy <= radius * radius) by (nonlinear_arith)
                requires
                    -radius <= dy <= radius,
            ;
        }
        let half: i32 = isqrt((radius * radius - dy * dy) as u64) as i32;
        score = score + rect_sum(prefix, x - half, y + top, x + half + 1, y + bottom);
        band = band + 1;
    }
    score
}

/// What the row at `dy` rows from the centre adds to the cost.
pub open spec fn row_value(table: Seq<i64>, x: int, y: int, radius: int, dy: int) -> int {
    let half = half_chord(radius, dy);
    rect_value(table, x - half, y + dy, x + half + 1, y + dy + 1)
}

/// What the topmost `rows` rows of a circle add up to.
pub open spec fn rows_sum(table: Seq<i64>, x: int, y: int, radius: int, rows: int) -> int
    decreases rows,
{
    if rows <= 0 {
        0
    } else {
        rows_sum(table, x, y, radius, rows - 1) + row_value(table, x, y, radius, rows - 1 - radius)
    }
}

/// The cost of a circle, counted row by row.
pub open spec fn exact_value(table: Seq<i64>, x: int, y: int, radius: int) -> int {
    rows_sum(table, x, y, radius, 2 * radius + 1)
}

/// The arithmetic of `exact` on a row stays within its types.
pub open spec fn row_fits(table: Seq<i64>, x: int, y: int, radius: int, dy: int) -> bool {
    let half = half_chord(radius, dy);
    &&& fits_i32(x - half)
    &&& fits_i32(x + half + 1)
    &&& fits_i32(y + dy)
    &&& fits_i32(y + dy + 1)
    &&& rect_fits(table, x - half, y + dy, x + half + 1, y + dy + 1)
    &&& fits_i64(rows_sum(table, x, y, radius, dy + radius + 1))
}

/// The arithmetic of `exact` stays within its types.
pub open spec fn exact_fits(table: Seq<i64>, x: int, y: int, radius: int) -> bool {
    &&& fits_i32(-radius)
    &&& 0 <= radius ==> fits_i32(radius * radius)
    &&& forall|dy: int| -radius <= dy <= radius ==> #[trigger] row_fits(table, x, y, radius, dy)
}

/// The cost of a circle.
pub fn exact(prefix: &[i64], x: i32, y: i32, radius: i32) -> (score: i64)
    requires
        exact_fits(prefix@, x as int, y as int, radius as int),
    ensures
        score == exact_value(prefix@, x as int, y as int, radius as int),
{
    let mut score: i64 = 0;
    let mut dy: i32 = -radius;
    while dy <= radius
        invariant
            -radius <= dy,
            0 <= radius ==> dy <= radius + 1,
            radius < 0 ==> dy == -radius,
            exact_fits(prefix@, x as int, y as int, radius as int),
            score == rows_sum(prefix@, x as int, y as int, radius as int, dy + radius),
        decreases radius + 1 - dy,
    {
        proof {
            assert(row_fits(prefix@, x as int, y as int, radius as int, dy as int));
            half_chord_bounds(radius as int, dy as int);
            assert(0 <= dy * dy <= radius * radius && radius <= radius * radius)
                by (nonlinear_arith)
                requires
                    -radius <= dy <= radius,
            ;
            square_root_limit(radius as int);
        }
        let half: i32 = isqrt((radius * radius - dy * dy) as u64) as i32;
        score = score + rect_sum(prefix, x - half, y + dy, x + half + 1, y + dy + 1);
        dy = dy + 1;
    }
    score
}

proof fn square_root_limit(radius: int)
    requires
        0 <= radius,
        fits_i32(radius * radius),
    ensures
        radius <= 46340,
{
    assert(radius <= 46340) by (nonlinear_arith)
        requires
            0 <= radius,
            radius * radius <= 0x7fff_ffff,
    ;
}

/// The score of a circle: its cost counted, or else estimated.
pub open spec fn score_value(
    tables: Tables,
    x: int,
    y: int,
    radius: int,
    white: bool,
    exact_score: bool,
) -> int {
    if exact_score {
        exact_value(tables.of(white), x, y, radius)
    } else {
        approx_value(tables.of(white), x, y, radius)
    }
}

/// The circle with its score.
pub open spec fn scored_circle(
    tables: Tables,
    x: i32,
    y: i32,
    radius: i32,
    white: bool,
    exact_score: bool,
) -> Circle {
    Circle {
        x,
        y,
        radius,
        white,
        score: score_value(tables, x as int, y as int, radius as int, white, exact_score) as i64,
    }
}

/// The arithmetic of `scored` stays within its types.
pub open spec fn score_fits(
    tables: Tables,
    x: int,
    y: int,
    radius: int,
    white: bool,
    exact_score: bool,
) -> bool {
    if exact_score {
        exact_fits(tables.of(white), x, y, radius)
    } else {
        approx_fits(tables.of(white), x, y, radius)
    }
}

/// A score that can be computed is one that an `i64` can hold.
pub proof fn score_in_range(
    tables: Tables,
    x: int,
    y: int,
    radius: int,
    white: bool,
    exact_score: bool,
)
    requires
        score_fits(tables, x, y, radius, white, exact_score),
    ensures
        fits_i64(score_value(tables, x, y, radius, white, exact_score)),
{
    if 0 <= radius {
        if exact_score {
            assert(row_fits(tables.of(white), x, y, radius, radius));
        } else {
            assert(band_fits(tables.of(white), x, y, radius, band_count(radius) - 1));
        }
    }
}

/// The estimate of a circle adds up rectangles, one for each of its bands: 15 of them, or
/// one for each of its rows where it has fewer. The band's edges share the rows out evenly,
/// and the rectangle reaches as far to either side as the disc does in the middle row `dy`
/// of the band.
pub proof fn estimate_by_bands(
    table: Seq<i64>,
    x: int,
    y: int,
    radius: int,
    bands: int,
    band: int,
    top: int,
    bottom: int,
    dy: int,
    half: int,
)
    requires
        0 <= radius,
        2 * radius + 1 >= 15 ==> bands == 15,
        2 * radius + 1 < 15 ==> bands == 2 * radius + 1,
        0 <= band < bands,
        top == -radius + band * (2 * radius + 1) / bands,
        bottom == -radius + (band + 1) * (2 * radius + 1) / bands,
        top + bottom >= 1 ==> dy == (top + bottom - 1) / 2,
        top + bottom < 1 ==> dy == -((1 - top - bottom) / 2),
        0 <= half,
        half * half <= radius * radius - dy * dy,
        radius * radius - dy * dy < (half + 1) * (half + 1),
    ensures
        bands_sum(table, x, y, radius, 0) == 0,
        bands_sum(table, x, y, radius, band + 1) == bands_sum(table, x, y, radius, band)
            + rect_value(table, x - half, y + top, x + half + 1, y + bottom),
        approx_value(table, x, y, radius) == bands_sum(table, x, y, radius, bands),
{
    root_unique(radius * radius - dy * dy, half);
}

/// The cost of a circle adds up its rows, each as far to either side as the disc reaches.
pub proof fn exact_by_rows(
    table: Seq<i64>,
    x: int,
    y: int,
    radius: int,
    dy: int,
    half: int,
)
    requires
        -radius <= dy <= radius,
        0 <= half,
        half * half <= radius * radius - dy * dy,
        radius * radius - dy * dy < (half + 1) * (half + 1),
    ensures
        rows_sum(table, x, y, radius, 0) == 0,
        rows_sum(table, x, y, radius, dy + radius + 1) == rows_sum(
            table,
            x,
            y,
            radius,
            dy + radius,
        ) + rect_value(table, x - half, y + dy, x + half + 1, y + dy + 1),
        exact_value(table, x, y, radius) == rows_sum(table, x, y, radius, 2 * radius + 1),
{
    root_unique(radius * radius - dy * dy, half);
}

/// A circle with a negative radius has no rows and costs nothing.
pub proof fn no_rows_cost_nothing(table: Seq<i64>, x: int, y: int, radius: int)
    requires
        radius < 0,
    ensures
        approx_value(table, x, y, radius) == 0,
        exact_value(table, x, y, radius) == 0,
{
}

/// A white circle is scored on the table for white and a black one on that for black, by
/// its cost or by its estimate, as asked.
pub proof fn score_of_colour(tables: Tables, x: int, y: int, radius: int)
    ensures
        score_value(tables, x, y, radius, true, true) == exact_value(tables.white, x, y, radius),
        score_value(tables, x, y, radius, false, true) == exact_value(tables.black, x, y, radius),
        score_value(tables, x, y, radius, true, false) == approx_value(tables.white, x, y, radius),
        score_value(tables, x, y, radius, false, false) == approx_value(
            tables.black,
            x,
            y,
            radius,
        ),
{
}

/// Builds the circle and scores it, by counting where `exact_score` is set and by an
/// estimate where it is not.
pub fn scored(
    prefixes: &Prefix,
    x: i32,
    y: i32,
    radius: i32,
    white: bool,
    exact_score: bool,
) -> (circle: Circle)
    requires
        score_fits(prefixes@, x as int, y as int, radius as int, white, exact_score),
    ensures
        circle == scored_circle(prefixes@, x, y, radius, white, exact_score),
        circle.x == x,
        circle.y == y,
        circle.radius == radius,
        circle.white == white,
        circle.score == score_value(
            prefixes@,
            x as int,
            y as int,
            radius as int,
            white,
            exact_score,
        ),
{
    let prefix: &Vec<i64> = if white {
        &prefixes.white
    } else {
        &prefixes.black
    };
    let score: i64 = if exact_score {
        exact(prefix, x, y, radius)
    } else {
        approx(prefix, x, y, radius)
    };
    Circle { x, y, radius, white, score }
}

/// Up to a radius of seven every band is one row, and the estimate is the cost itself.
pub proof fn small_circles_exact(table: Seq<i64>, x: int, y: int, radius: int)
    requires
        0 <= radius <= 7,
    ensures
        approx_value(table, x, y, radius) == exact_value(table, x, y, radius),
{
    small_bands(table, x, y, radius, 2 * radius + 1);
}

proof fn small_bands(table: Seq<i64>, x: int, y: int, radius: int, rows: int)
    requires
        0 <= radius <= 7,
        0 <= rows <= 2 * radius + 1,
    ensures
        bands_sum(table, x, y, radius, rows) == rows_sum(table, x, y, radius, rows),
    decreases rows,
{
    if rows > 0 {
        small_bands(table, x, y, radius, rows - 1);
        let d = 2 * radius + 1;
        assert(band_count(radius) == d);
        lemma_div_by_multiple(rows - 1, d);
        lemma_div_by_multiple(rows, d);
        assert(band_top(radius, rows - 1) == rows - 1 - radius);
        assert(band_top(radius, rows) == rows - radius);
        assert(band_middle(radius, rows - 1) == rows - 1 - radius);
    }
}

} // verus!
