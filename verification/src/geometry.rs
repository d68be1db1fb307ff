//! The picture's size, and where a circle lies on it.

use vstd::prelude::*;

verus! {

/// Width of a picture in pixels.
pub const WIDTH: usize = 1280;

/// Height of a picture in pixels.
pub const HEIGHT: usize = 720;

/// Number of pixels in a picture.
pub const PIXELS: usize = WIDTH * HEIGHT;

/// `r` is the square root of `n`, rounded down.
pub open spec fn is_root(n: int, r: int) -> bool {
    0 <= r && r * r <= n && n < (r + 1) * (r + 1)
}

/// The square root of `n`, rounded down.
pub open spec fn root(n: int) -> int {
    choose|r: int| is_root(n, r)
}

/// A number has one rounded square root.
pub proof fn root_unique(n: int, r: int)
    requires
        is_root(n, r),
    ensures
        root(n) == r,
{
    let s: int = root(n);
    assert(is_root(n, s));
    assert(r == s) by (nonlinear_arith)
        requires
            0 <= r,
            0 <= s,
            r * r <= n,
            s * s <= n,
            n < (r + 1) * (r + 1),
            n < (s + 1) * (s + 1),
    ;
}

/// Every number that is not negative has a rounded square root.
pub proof fn root_exists(n: int)
    requires
        0 <= n,
    ensures
        is_root(n, root(n)),
{
    root_from(n, 0);
}

proof fn root_from(n: int, low: int)
    requires
        0 <= low,
        low * low <= n,
    ensures
        is_root(n, root(n)),
    decreases n - low,
{
    if n < (low + 1) * (low + 1) {
        assert(is_root(n, low));
    } else {
        assert(low + 1 <= n) by (nonlinear_arith)
            requires
                0 <= low,
                (low + 1) * (low + 1) <= n,
        ;
        root_from(n, low + 1);
    }
}

/// The square root of a number that is not negative, rounded down: its square does not
/// exceed the number, and the next square does.
pub proof fn root_between_squares(n: int)
    requires
        0 <= n,
    ensures
        0 <= root(n),
        root(n) * root(n) <= n,
        n < (root(n) + 1) * (root(n) + 1),
{
    root_exists(n);
}

/// The square root of `n`, rounded down.
pub fn isqrt(n: u64) -> (r: u64)
    ensures
        r == root(n as int),
        is_root(n as int, r as int),
        r * r <= n,
        n < (r + 1) * (r + 1),
{
    let mut low: u64 = 0;
    let mut high: u64 = if n < 0x1_0000_0000 {
        0x1_0000
    } else {
        0x1_0000_0000
    };
    while high - low > 1
        invariant
            low < high <= 0x1_0000_0000,
            low * low <= n,
            n < high * high,
        decreases high - low,
    {
        let middle: u64 = low + (high - low) / 2;
        assert(middle * middle <= 0xffff_ffff * 0xffff_ffff) by (nonlinear_arith)
            requires
                0 <= middle <= 0xffff_ffff,
        ;
        if middle * middle <= n {
            low = middle;
        } else {
            high = middle;
        }
    }
    proof {
        root_unique(n as int, low as int);
    }
    low
}

/// `value` moved to the nearest number from `low` to `high`.
pub open spec fn clamped(value: int, low: int, high: int) -> int {
    if value < low {
        low
    } else if value > high {
        high
    } else {
        value
    }
}

/// A number within the bounds stays as it is, and one outside moves to the bound on its
/// side.
pub proof fn clamped_nearest(value: int, low: int, high: int)
    requires
        low <= high,
    ensures
        value <= low ==> clamped(value, low, high) == low,
        low <= value <= high ==> clamped(value, low, high) == value,
        high <= value ==> clamped(value, low, high) == high,
{
}

/// `value` moved to the nearest number from zero to `high`.
pub fn clamp_to(value: i32, high: usize) -> (r: usize)
    requires
        high <= i32::MAX,
    ensures
        r == clamped(value as int, 0, high as int),
        value < 0 ==> r == 0,
        0 <= value <= high ==> r == value,
        value > high ==> r == high,
{
    if value < 0 {
        0
    } else if value > high as i32 {
        high
    } else {
        value as usize
    }
}

/// The value is one that an `i32` can hold.
pub open spec fn fits_i32(value: int) -> bool {
    i32::MIN <= value <= i32::MAX
}

/// The value is one that an `i64` can hold.
pub open spec fn fits_i64(value: int) -> bool {
    i64::MIN <= value <= i64::MAX
}

/// The point lies in the disc with that centre and radius, its rim included.
pub open spec fn in_disc(x: int, y: int, radius: int, px: int, py: int) -> bool {
    0 <= radius && (px - x) * (px - x) + (py - y) * (py - y) <= radius * radius
}

/// The column and the row name a pixel of the picture.
pub open spec fn on_picture(px: int, py: int) -> bool {
    0 <= px < WIDTH && 0 <= py < HEIGHT
}

/// How far `value` lies outside the numbers from zero up to `size`.
pub open spec fn distance_outside(value: int, size: int) -> int {
    if value < 0 {
        -value
    } else if value >= size {
        value - size + 1
    } else {
        0
    }
}

/// The distances that `intersects` squares and adds stay within an `i32`.
pub open spec fn intersects_fits(x: int, y: int, radius: int) -> bool {
    let dx = distance_outside(x, WIDTH as int);
    let dy = distance_outside(y, HEIGHT as int);
    &&& fits_i32(dx)
    &&& fits_i32(dy)
    &&& fits_i32(dx * dx)
    &&& fits_i32(dy * dy)
    &&& fits_i32(dx * dx + dy * dy)
    &&& fits_i32(radius * radius)
}

/// Some pixel of the picture is no further from the point than `radius`, whatever the
/// sign of `radius`.
pub open spec fn touches(x: int, y: int, radius: int) -> bool {
    exists|px: int, py: int|
        #[trigger] on_picture(px, py) && (px - x) * (px - x) + (py - y) * (py - y) <= radius
            * radius
}

/// The pixel nearest to a point decides whether a circle round that point touches the
/// picture.
pub proof fn touches_nearest(x: int, y: int, radius: int)
    ensures
        touches(x, y, radius) <==> distance_outside(x, WIDTH as int) * distance_outside(
            x,
            WIDTH as int,
        ) + distance_outside(y, HEIGHT as int) * distance_outside(y, HEIGHT as int) <= radius
            * radius,
{
    let dx = distance_outside(x, WIDTH as int);
    let dy = distance_outside(y, HEIGHT as int);
    let nx = clamped(x, 0, WIDTH - 1);
    let ny = clamped(y, 0, HEIGHT - 1);
    assert((nx - x) * (nx - x) == dx * dx) by (nonlinear_arith)
        requires
            nx - x == dx || nx - x == -dx,
    ;
    assert((ny - y) * (ny - y) == dy * dy) by (nonlinear_arith)
        requires
            ny - y == dy || ny - y == -dy,
    ;
    if dx * dx + dy * dy <= radius * radius {
        assert(on_picture(nx, ny));
    }
    if touches(x, y, radius) {
        let (px, py) = choose|px: int, py: int|
            #[trigger] on_picture(px, py) && (px - x) * (px - x) + (py - y) * (py - y) <= radius
                * radius;
        assert(dx * dx <= (px - x) * (px - x)) by (nonlinear_arith)
            requires
                0 <= dx,
                dx <= px - x || dx <= x - px,
        ;
        assert(dy * dy <= (py - y) * (py - y)) by (nonlinear_arith)
            requires
                0 <= dy,
                dy <= py - y || dy <= y - py,
        ;
    }
}

/// A circle touches the picture exactly if the nearest pixel of the 1280 by 720 is no
/// further away than the radius.
pub proof fn touches_within_reach(x: int, y: int, radius: int, dx: int, dy: int)
    requires
        x < 0 ==> dx == -x,
        0 <= x <= 1279 ==> dx == 0,
        x > 1279 ==> dx == x - 1279,
        y < 0 ==> dy == -y,
        0 <= y <= 719 ==> dy == 0,
        y > 719 ==> dy == y - 719,
    ensures
        touches(x, y, radius) <==> dx * dx + dy * dy <= radius * radius,
{
    touches_nearest(x, y, radius);
}

/// A circle with a pixel of the picture inside touches the picture.
pub proof fn pixel_makes_touch(x: int, y: int, radius: int, px: int, py: int)
    requires
        0 <= px < 1280,
        0 <= py < 720,
        (px - x) * (px - x) + (py - y) * (py - y) <= radius * radius,
    ensures
        touches(x, y, radius),
{
    assert(on_picture(px, py));
}

/// Whether the circle covers at least one pixel of the picture.
pub fn intersects(x: i32, y: i32, radius: i32) -> (r: bool)
    requires
        intersects_fits(x as int, y as int, radius as int),
    ensures
        r == touches(x as int, y as int, radius as int),
{
    let dx: i32 = if x < 0 {
        -x
    } else {
        (x - WIDTH as i32 + 1).max(0)
    };
    let dy: i32 = if y < 0 {
        -y
    } else {
        (y - HEIGHT as i32 + 1).max(0)
    };
    proof {
        touches_nearest(x as int, y as int, radius as int);
    }
    dx * dx + dy * dy <= radius * radius
}

} // verus!
