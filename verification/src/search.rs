//! The search for the circle that improves the picture most.

use vstd::prelude::*;

use crate::geometry::{
    HEIGHT,
    WIDTH,
    clamped,
    distance_outside,
    intersects,
    intersects_fits,
    on_picture,
    touches,
    touches_nearest,
};
use crate::prefix::{Prefix, Tables};
use crate::rng::{
    Rng,
    drawn,
    drawn_bits,
    scaled,
    scaled_share,
    scramble,
    stream,
    stream_injective,
    stream_nonzero,
};
use crate::score::{Circle, exact_value, score_fits, score_value, scored, scored_circle};
use crate::top::{TOP, add_top, best_kept, kept_best, kept_best_grows, ranked, top_after};

verus! {

/// The largest radius that a circle is grown to.
pub const MAX_RADIUS: i32 = 900;

/// The largest radius that a draw can give.
pub const MAX_DRAWN: i32 = 901;

/// Radii that every search tries in turn.
pub const RADII: [i32; 19] = [
    1, 2, 3, 4, 6, 8, 12, 16, 24, 32, 48, 64, 96, 128, 192, 256, 360, 512, 720,
];

/// The square of the largest number that a draw can give.
pub const DRAW_SQUARED: u128 = 18446744065119617025;

/// A radius that a draw gives: small ones more often than large ones.
pub open spec fn radius_drawn(draw: u32) -> int {
    1 + draw * draw * MAX_RADIUS / (DRAW_SQUARED as int)
}

/// Where a sample puts its circle, and what it leaves the generator with.
pub struct Pick {
    pub radius: int,
    pub x: int,
    pub y: int,
    pub state: u64,
}

/// The radius of a sample: in turn one out of the list, one that favours small circles and
/// one that is even over all of them.
pub open spec fn picked_radius(state: u64, sample: int) -> int {
    if sample % 3 == 0 {
        RADII@[(sample / 3) % 19] as int
    } else if sample % 3 == 1 {
        radius_drawn(drawn(state))
    } else {
        scaled(drawn(state), 1, MAX_RADIUS + 1)
    }
}

/// A place along one side of the picture. Every tenth sample may reach over its edge.
pub open spec fn picked_place(draw: u32, sample: int, radius: int, size: int) -> int {
    if sample % 10 == 0 {
        scaled(draw, -radius, size + radius + 1)
    } else {
        scaled(draw, 0, size)
    }
}

/// The circle of a sample, drawn from the generator in that state.
pub open spec fn picked(state: u64, sample: int) -> Pick {
    let radius = picked_radius(state, sample);
    let first = if sample % 3 == 0 {
        state
    } else {
        scramble(state)
    };
    let second = scramble(first);
    Pick {
        radius,
        x: picked_place(drawn(first), sample, radius, WIDTH as int),
        y: picked_place(drawn(second), sample, radius, HEIGHT as int),
        state: scramble(second),
    }
}

proof fn radius_drawn_range(draw: u32)
    ensures
        0 <= draw * draw * MAX_RADIUS <= MAX_RADIUS * DRAW_SQUARED,
        1 <= radius_drawn(draw) <= MAX_DRAWN,
{
    let d = draw as int;
    assert(0 <= d * d && d * d <= 18446744065119617025) by (nonlinear_arith)
        requires
            0 <= d <= 0xffff_ffff,
    ;
}

/// Draws the radius and the centre of a sample's circle.
pub fn pick(rng: &mut Rng, sample: usize) -> (circle: (i32, i32, i32))
    ensures
        final(rng).0 == picked(old(rng).0, sample as int).state,
        circle.0 == picked(old(rng).0, sample as int).radius,
        circle.1 == picked(old(rng).0, sample as int).x,
        circle.2 == picked(old(rng).0, sample as int).y,
        1 <= circle.0 <= MAX_DRAWN,
        -circle.0 <= circle.1 <= WIDTH + circle.0,
        -circle.0 <= circle.2 <= HEIGHT + circle.0,
{
    let ghost state = rng.0;
    let radius: i32 = if sample % 3 == 0 {
        RADII[(sample / 3) % 19]
    } else if sample % 3 == 1 {
        let value: u64 = rng.next() as u64;
        proof {
            radius_drawn_range(drawn(state));
            assert(0 <= value * value <= 18446744065119617025) by (nonlinear_arith)
                requires
                    0 <= value <= 0xffff_ffff,
            ;
        }
        1 + (value as u128 * value as u128 * MAX_RADIUS as u128 / DRAW_SQUARED) as i32
    } else {
        rng.range(1, MAX_RADIUS + 1)
    };
    let outside: bool = sample % 10 == 0;
    let x: i32 = if outside {
        rng.range(-radius, WIDTH as i32 + radius + 1)
    } else {
        rng.range(0, WIDTH as i32)
    };
    let y: i32 = if outside {
        rng.range(-radius, HEIGHT as i32 + radius + 1)
    } else {
        rng.range(0, HEIGHT as i32)
    };
    (radius, x, y)
}

/// The circle is one that the search may score: it touches the picture and its radius is
/// one that a draw can give.
pub open spec fn placed(x: int, y: int, radius: int) -> bool {
    1 <= radius <= MAX_DRAWN && touches(x, y, radius)
}

/// Every circle that the search may score can be scored.
pub open spec fn searchable(tables: Tables) -> bool {
    forall|x: int, y: int, radius: int, white: bool, exact_score: bool|
        placed(x, y, radius) ==> #[trigger] score_fits(tables, x, y, radius, white, exact_score)
}

/// Every circle of the list touches the picture.
pub open spec fn all_placed(circles: Seq<Circle>) -> bool {
    forall|k: int|
        0 <= k < circles.len() ==> placed(
            (#[trigger] circles[k]).x as int,
            circles[k].y as int,
            circles[k].radius as int,
        )
}

/// What the samples leave behind: the state of the generator and the best circles.
pub struct Sampled {
    pub state: u64,
    pub top: Seq<Circle>,
}

/// The best circles once a pick has been considered in black and in white.
pub open spec fn top_with_pick(tables: Tables, top: Seq<Circle>, pick: Pick) -> Seq<Circle> {
    if touches(pick.x, pick.y, pick.radius) {
        let x = pick.x as i32;
        let y = pick.y as i32;
        let radius = pick.radius as i32;
        top_after(
            top_after(top, scored_circle(tables, x, y, radius, false, false)),
            scored_circle(tables, x, y, radius, true, false),
        )
    } else {
        top
    }
}

/// How many numbers have been drawn before a sample: two for every third sample, whose
/// radius comes out of the list, and three for the others.
pub open spec fn draws_before(sample: int) -> int {
    3 * sample - (sample + 2) / 3
}

/// The circle of a sample, drawn from a generator seeded with `seed`.
pub open spec fn sample_pick(seed: u64, sample: int) -> Pick {
    picked(stream(seed, draws_before(sample)), sample)
}

/// The circle of a sample in that colour, with its estimate.
pub open spec fn candidate(tables: Tables, seed: u64, sample: int, white: bool) -> Circle {
    let pick = sample_pick(seed, sample);
    scored_circle(tables, pick.x as i32, pick.y as i32, pick.radius as i32, white, false)
}

/// All circles that the first `samples` samples put up: each that touches the picture, in
/// black and in white.
pub open spec fn candidates(tables: Tables, seed: u64, samples: int) -> Seq<Circle>
    decreases samples,
{
    if samples <= 0 {
        Seq::empty()
    } else {
        let before = candidates(tables, seed, samples - 1);
        let pick = sample_pick(seed, samples - 1);
        if touches(pick.x, pick.y, pick.radius) {
            before.push(candidate(tables, seed, samples - 1, false)).push(
                candidate(tables, seed, samples - 1, true),
            )
        } else {
            before
        }
    }
}

/// The best of the first `samples` circles drawn from a generator seeded with `seed`.
pub open spec fn sampled(tables: Tables, seed: u64, samples: int) -> Sampled
    decreases samples,
{
    if samples <= 0 {
        Sampled { state: seed, top: Seq::empty() }
    } else {
        let before = sampled(tables, seed, samples - 1);
        let pick = picked(before.state, samples - 1);
        Sampled { state: pick.state, top: top_with_pick(tables, before.top, pick) }
    }
}

/// The one of two circles with the lower score; the first where the scores are equal.
pub open spec fn better(first: Circle, second: Circle) -> Circle {
    if second.score < first.score {
        second
    } else {
        first
    }
}

/// The best, counted exactly, of a circle to start from and the first `n` of a list.
pub open spec fn best_of(tables: Tables, start: Circle, top: Seq<Circle>, n: int) -> Circle
    decreases n,
{
    if n <= 0 {
        start
    } else {
        let c = top[n - 1];
        better(
            best_of(tables, start, top, n - 1),
            scored_circle(tables, c.x, c.y, c.radius, c.white, true),
        )
    }
}

/// One of the six ways to move or resize a circle: left, right, up, down, smaller, larger.
pub open spec fn neighbour(base: Circle, step: int, way: int) -> (int, int, int) {
    let x = base.x as int;
    let y = base.y as int;
    let radius = base.radius as int;
    if way == 0 {
        (x - step, y, radius)
    } else if way == 1 {
        (x + step, y, radius)
    } else if way == 2 {
        (x, y - step, radius)
    } else if way == 3 {
        (x, y + step, radius)
    } else if way == 4 {
        (
            x,
            y,
            if radius - step < 1 {
                1
            } else {
                radius - step
            },
        )
    } else {
        (
            x,
            y,
            if radius + step > MAX_RADIUS {
                MAX_RADIUS as int
            } else {
                radius + step
            },
        )
    }
}

/// The best of a circle and of another place for it, in black and in white.
pub open spec fn tried(tables: Tables, best: Circle, at: (int, int, int)) -> Circle {
    if touches(at.0, at.1, at.2) {
        let x = at.0 as i32;
        let y = at.1 as i32;
        let radius = at.2 as i32;
        better(
            better(best, scored_circle(tables, x, y, radius, false, true)),
            scored_circle(tables, x, y, radius, true, true),
        )
    } else {
        best
    }
}

/// The best of a circle and of its first `ways` neighbours.
pub open spec fn best_neighbour(tables: Tables, base: Circle, step: int, ways: int) -> Circle
    decreases ways,
{
    if ways <= 0 {
        base
    } else {
        tried(
            tables,
            best_neighbour(tables, base, step, ways - 1),
            neighbour(base, step, ways - 1),
        )
    }
}

/// A circle moved to its best neighbour over and over, with half the step each time until
/// the step is one.
pub open spec fn refined(tables: Tables, base: Circle, step: int) -> Circle
    decreases step,
{
    let best = best_neighbour(tables, base, step, 6);
    if step <= 1 {
        best
    } else {
        refined(tables, best, step / 2)
    }
}

/// The step that a refinement starts with.
pub open spec fn first_step(radius: int) -> int {
    clamped(radius / 2, 1, 128)
}

/// What seeds the search for the circle with that number.
pub open spec fn seed_of(frame: u64) -> u64 {
    0x9e3779b97f4a7c15 ^ frame
}

/// The circle that the search starts from: the smallest one in the top left corner, in the
/// colour that the corner already has.
pub open spec fn corner_circle(tables: Tables, white: bool) -> Circle {
    scored_circle(tables, 0, 0, 1, white, true)
}

/// The circle that the search settles on.
pub open spec fn best_found(tables: Tables, white: bool, frame: u64, samples: int) -> Circle {
    let top = sampled(tables, seed_of(frame), samples).top;
    let best = best_of(tables, corner_circle(tables, white), top, top.len() as int);
    refined(tables, best, first_step(best.radius as int))
}

/// Looking at a neighbour never makes a circle worse.
proof fn neighbours_no_worse(tables: Tables, base: Circle, step: int, ways: int)
    ensures
        best_neighbour(tables, base, step, ways).score <= base.score,
    decreases ways,
{
    if ways > 0 {
        neighbours_no_worse(tables, base, step, ways - 1);
    }
}

/// Refining a circle never makes it worse.
pub proof fn refined_no_worse(tables: Tables, base: Circle, step: int)
    ensures
        refined(tables, base, step).score <= base.score,
    decreases step,
{
    neighbours_no_worse(tables, base, step, 6);
    if step > 1 {
        refined_no_worse(tables, best_neighbour(tables, base, step, 6), step / 2);
    }
}

/// The best of a list costs no more than the circle to start from, nor than any circle of
/// the list, counted exactly.
pub proof fn best_of_least(tables: Tables, start: Circle, top: Seq<Circle>, n: int)
    ensures
        best_of(tables, start, top, n).score <= start.score,
        forall|k: int|
            0 <= k < n ==> best_of(tables, start, top, n).score <= scored_circle(
                tables,
                (#[trigger] top[k]).x,
                top[k].y,
                top[k].radius,
                top[k].white,
                true,
            ).score,
    decreases n,
{
    if n > 0 {
        best_of_least(tables, start, top, n - 1);
    }
}

/// The circle that a search settles on costs no more than the one it starts from, nor than
/// any of the samples that it kept, counted exactly.
pub proof fn found_no_worse(tables: Tables, white: bool, frame: u64, samples: int)
    ensures
        best_found(tables, white, frame, samples).score <= corner_circle(tables, white).score,
        forall|k: int|
            0 <= k < sampled(tables, seed_of(frame), samples).top.len() ==> {
                let c = #[trigger] sampled(tables, seed_of(frame), samples).top[k];
                best_found(tables, white, frame, samples).score <= scored_circle(
                    tables,
                    c.x,
                    c.y,
                    c.radius,
                    c.white,
                    true,
                ).score
            },
{
    let top = sampled(tables, seed_of(frame), samples).top;
    let start = corner_circle(tables, white);
    let best = best_of(tables, start, top, top.len() as int);
    best_of_least(tables, start, top, top.len() as int);
    refined_no_worse(tables, best, first_step(best.radius as int));
}

/// Different circle numbers start the generator in different states. The state is the
/// number mixed with a constant whose top bit is set, so for numbers below 2^63 it is not
/// zero, and neither is any state that follows: no search draws the same number over and
/// over.
pub proof fn seeds_apart(a: u64, b: u64, draws: int)
    ensures
        seed_of(a) == 0x9e3779b97f4a7c15 ^ a,
        a != b ==> seed_of(a) != seed_of(b),
        a != b ==> stream(0x9e3779b97f4a7c15 ^ a, draws) != stream(0x9e3779b97f4a7c15 ^ b, draws),
        a < 0x8000_0000_0000_0000 ==> stream(0x9e3779b97f4a7c15 ^ a, draws) != 0,
{
    assert(a != b ==> 0x9e3779b97f4a7c15 ^ a != 0x9e3779b97f4a7c15 ^ b) by (bit_vector);
    assert(a < 0x8000_0000_0000_0000 ==> 0x9e3779b97f4a7c15 ^ a != 0) by (bit_vector);
    stream_injective(0x9e3779b97f4a7c15 ^ a, 0x9e3779b97f4a7c15 ^ b, draws);
    stream_nonzero(0x9e3779b97f4a7c15 ^ a, draws);
}

/// How a sample turns draws into a circle. Its radius is in turn the next of 19 radii, one
/// that is the more likely the smaller it is, and one that is even from 1 to 900; where
/// that takes a draw it is the first. The next two draws place the centre: anywhere on the
/// picture, or for every tenth sample up to a radius outside it.
pub proof fn pick_from_draws(state: u64, sample: int, a: u64, b: u64, first: int, across: int, down: int)
    requires
        0 <= sample,
        sample % 3 == 0 ==> a == state,
        sample % 3 != 0 ==> a == scramble(state),
        b == scramble(a),
        first == (scramble(state) / 0x1_0000) % 0x1_0000_0000,
        across == (scramble(a) / 0x1_0000) % 0x1_0000_0000,
        down == (scramble(b) / 0x1_0000) % 0x1_0000_0000,
    ensures
        ({
            let pick = picked(state, sample);
            let reach = if sample % 10 == 0 {
                pick.radius
            } else {
                0
            };
            let extra = if sample % 10 == 0 {
                1int
            } else {
                0
            };
            &&& pick.state == scramble(b)
            &&& sample % 3 == 0 ==> pick.radius == seq![
                1int,
                2,
                3,
                4,
                6,
                8,
                12,
                16,
                24,
                32,
                48,
                64,
                96,
                128,
                192,
                256,
                360,
                512,
                720,
            ][(sample / 3) % 19]
            &&& sample % 3 == 1 ==> 0 <= first * first * 900 - (pick.radius - 1)
                * 18446744065119617025 < 18446744065119617025
            &&& sample % 3 == 2 ==> 0 <= first * 900 - (pick.radius - 1) * 0x1_0000_0000
                < 0x1_0000_0000
            &&& 0 <= across * (1280 + 2 * reach + extra) - (pick.x + reach) * 0x1_0000_0000
                < 0x1_0000_0000
            &&& 0 <= down * (720 + 2 * reach + extra) - (pick.y + reach) * 0x1_0000_0000
                < 0x1_0000_0000
        }),
{
    drawn_bits(state);
    drawn_bits(a);
    drawn_bits(b);
    let pick = picked(state, sample);
    scaled_share(drawn(state), 1, 901);
    scaled_share(drawn(a), -pick.radius, 1280 + pick.radius + 1);
    scaled_share(drawn(a), 0, 1280);
    scaled_share(drawn(b), -pick.radius, 720 + pick.radius + 1);
    scaled_share(drawn(b), 0, 720);
}

/// The samples follow each other on one stream of draws.
proof fn sample_draws(seed: u64, sample: int)
    requires
        0 <= sample,
    ensures
        sample_pick(seed, sample).state == stream(seed, draws_before(sample + 1)),
{
    reveal_with_fuel(stream, 4);
    let from = draws_before(sample);
    assert(from >= 0);
    if sample % 3 == 0 {
        assert(draws_before(sample + 1) == from + 2);
    } else {
        assert(draws_before(sample + 1) == from + 3);
    }
}

/// The circles that a search considers are those of its samples that touch the picture, in
/// black and in white. Sample `s` starts after `3 * s - (s + 2) / 3` draws.
pub proof fn candidates_of_samples(tables: Tables, seed: u64, samples: int, sample: int, white: bool)
    requires
        0 <= sample < samples,
    ensures
        ({
            let pick = picked(stream(seed, 3 * sample - (sample + 2) / 3), sample);
            touches(pick.x, pick.y, pick.radius) ==> candidates(tables, seed, samples).contains(
                scored_circle(
                    tables,
                    pick.x as i32,
                    pick.y as i32,
                    pick.radius as i32,
                    white,
                    false,
                ),
            )
        }),
    decreases samples,
{
    let all = candidates(tables, seed, samples);
    let before = candidates(tables, seed, samples - 1);
    let n = before.len() as int;
    if sample == samples - 1 {
        let pick = sample_pick(seed, sample);
        if touches(pick.x, pick.y, pick.radius) {
            assert(all[n] == candidate(tables, seed, sample, false));
            assert(all[n + 1] == candidate(tables, seed, sample, true));
        }
    } else {
        candidates_of_samples(tables, seed, samples - 1, sample, white);
        let pick = sample_pick(seed, sample);
        if touches(pick.x, pick.y, pick.radius) {
            let c = candidate(tables, seed, sample, white);
            let k = choose|k: int| 0 <= k < before.len() && before[k] == c;
            assert(all[k] == c);
        }
    }
}

/// A circle that a search considers is that of one of its samples.
pub proof fn candidate_has_sample(tables: Tables, seed: u64, samples: int, k: int) -> (found: (
    int,
    bool,
))
    requires
        0 <= k < candidates(tables, seed, samples).len(),
    ensures
        0 <= found.0 < samples,
        ({
            let pick = picked(stream(seed, 3 * found.0 - (found.0 + 2) / 3), found.0);
            &&& touches(pick.x, pick.y, pick.radius)
            &&& candidates(tables, seed, samples)[k] == scored_circle(
                tables,
                pick.x as i32,
                pick.y as i32,
                pick.radius as i32,
                found.1,
                false,
            )
        }),
    decreases samples,
{
    let n = candidates(tables, seed, samples - 1).len() as int;
    if k < n {
        candidate_has_sample(tables, seed, samples - 1, k)
    } else {
        (samples - 1, k > n)
    }
}

/// The circle costs no more than one at that place, in black and in white, if one there
/// touches the picture.
pub open spec fn no_worse_at(tables: Tables, circle: Circle, x: int, y: int, radius: int) -> bool {
    touches(x, y, radius) ==> {
        &&& circle.score <= scored_circle(
            tables,
            x as i32,
            y as i32,
            radius as i32,
            false,
            true,
        ).score
        &&& circle.score <= scored_circle(
            tables,
            x as i32,
            y as i32,
            radius as i32,
            true,
            true,
        ).score
    }
}

/// The circle stands at that place and is counted exactly.
pub open spec fn stands_at(tables: Tables, circle: Circle, x: int, y: int, radius: int) -> bool {
    &&& touches(x, y, radius)
    &&& circle == scored_circle(tables, x as i32, y as i32, radius as i32, circle.white, true)
}

/// The one circle comes from the other by the best of the moves: to stay, to go left,
/// right, up or down by `step`, or to shrink to no less than 1 or grow to no more than 900.
pub open spec fn best_move(tables: Tables, from: Circle, step: int, to: Circle) -> bool {
    let x = from.x as int;
    let y = from.y as int;
    let radius = from.radius as int;
    let smaller = if radius - step < 1 {
        1
    } else {
        radius - step
    };
    let larger = if radius + step > 900 {
        900
    } else {
        radius + step
    };
    &&& to.score <= from.score
    &&& no_worse_at(tables, to, x - step, y, radius)
    &&& no_worse_at(tables, to, x + step, y, radius)
    &&& no_worse_at(tables, to, x, y - step, radius)
    &&& no_worse_at(tables, to, x, y + step, radius)
    &&& no_worse_at(tables, to, x, y, smaller)
    &&& no_worse_at(tables, to, x, y, larger)
    &&& {
        ||| to == from
        ||| stands_at(tables, to, x - step, y, radius)
        ||| stands_at(tables, to, x + step, y, radius)
        ||| stands_at(tables, to, x, y - step, radius)
        ||| stands_at(tables, to, x, y + step, radius)
        ||| stands_at(tables, to, x, y, smaller)
        ||| stands_at(tables, to, x, y, larger)
    }
}

/// The one circle comes from the other by best moves, with half the step each time down to
/// a step of one.
pub open spec fn descends(tables: Tables, from: Circle, step: int, to: Circle) -> bool
    decreases step,
{
    if step <= 1 {
        best_move(tables, from, step, to)
    } else {
        exists|next: Circle| #[trigger]
            best_move(tables, from, step, next) && descends(tables, next, step / 2, to)
    }
}

/// Refining a circle makes the best move at every step.
pub proof fn refined_descends(tables: Tables, base: Circle, step: int)
    requires
        1 <= step,
    ensures
        descends(tables, base, step, refined(tables, base, step)),
    decreases step,
{
    reveal_with_fuel(best_neighbour, 7);
    let next = best_neighbour(tables, base, step, 6);
    assert(best_move(tables, base, step, next));
    if step > 1 {
        refined_descends(tables, next, step / 2);
    }
}

/// The circle is the best of the smallest one in the top left corner, in the colour given,
/// and of those kept, all counted exactly.
pub open spec fn best_start(
    tables: Tables,
    white: bool,
    kept: Seq<Circle>,
    start: Circle,
) -> bool {
    let corner = scored_circle(tables, 0, 0, 1, white, true);
    &&& start.score <= corner.score
    &&& forall|k: int|
        0 <= k < kept.len() ==> start.score <= scored_circle(
            tables,
            (#[trigger] kept[k]).x,
            kept[k].y,
            kept[k].radius,
            kept[k].white,
            true,
        ).score
    &&& start == corner || exists|k: int|
        0 <= k < kept.len() && start == scored_circle(
            tables,
            (#[trigger] kept[k]).x,
            kept[k].y,
            kept[k].radius,
            kept[k].white,
            true,
        )
}

proof fn best_of_start(tables: Tables, white: bool, kept: Seq<Circle>, n: int)
    requires
        0 <= n <= kept.len(),
    ensures
        best_start(
            tables,
            white,
            kept.take(n),
            best_of(tables, corner_circle(tables, white), kept, n),
        ),
    decreases n,
{
    let corner = corner_circle(tables, white);
    let best = best_of(tables, corner, kept, n);
    best_of_least(tables, corner, kept, n);
    if n > 0 {
        best_of_start(tables, white, kept, n - 1);
        let before = best_of(tables, corner, kept, n - 1);
        if best == before {
            if before != corner {
                let some = kept.take(n - 1);
                let k = choose|k: int|
                    0 <= k < some.len() && before == scored_circle(
                        tables,
                        (#[trigger] some[k]).x,
                        some[k].y,
                        some[k].radius,
                        some[k].white,
                        true,
                    );
                assert(kept.take(n)[k] == some[k]);
            }
        } else {
            assert(kept.take(n)[n - 1] == kept[n - 1]);
        }
    }
}

/// The circle is what a search comes to: it considers the samples drawn from a generator
/// that starts in state `seed`, keeps the best 16 by their estimates, starts from the best
/// of those and moves on from there, with a step of half the radius, but at least 1 and at
/// most 128, to begin with.
pub open spec fn chosen(
    tables: Tables,
    white: bool,
    seed: u64,
    samples: int,
    best: Circle,
) -> bool {
    exists|kept: Seq<Circle>, start: Circle|
        #![trigger kept_best(candidates(tables, seed, samples), kept), best_start(
            tables,
            white,
            kept,
            start,
        )]
        kept_best(candidates(tables, seed, samples), kept) && best_start(
            tables,
            white,
            kept,
            start,
        ) && descends(
            tables,
            start,
            if start.radius < 4 {
                1
            } else if start.radius >= 256 {
                128
            } else {
                start.radius as int / 2
            },
            best,
        )
}

/// Moves never make a circle worse.
proof fn descends_no_worse(tables: Tables, from: Circle, step: int, to: Circle)
    requires
        descends(tables, from, step, to),
    ensures
        to.score <= from.score,
    decreases step,
{
    if step > 1 {
        let next = choose|next: Circle| #[trigger]
            best_move(tables, from, step, next) && descends(tables, next, step / 2, to);
        descends_no_worse(tables, next, step / 2, to);
    }
}

/// What a search comes to costs no more than the circle in the corner, nor than any of the
/// best 16 of its samples, counted exactly.
pub proof fn chosen_costs_least(
    tables: Tables,
    white: bool,
    seed: u64,
    samples: int,
    best: Circle,
)
    requires
        chosen(tables, white, seed, samples, best),
    ensures
        best.score <= scored_circle(tables, 0, 0, 1, white, true).score,
        exists|kept: Seq<Circle>| #[trigger]
            kept_best(candidates(tables, seed, samples), kept) && forall|k: int|
                0 <= k < kept.len() ==> best.score <= scored_circle(
                    tables,
                    (#[trigger] kept[k]).x,
                    kept[k].y,
                    kept[k].radius,
                    kept[k].white,
                    true,
                ).score,
{
    let (kept, start) = choose|kept: Seq<Circle>, start: Circle|
        #![trigger kept_best(candidates(tables, seed, samples), kept), best_start(
            tables,
            white,
            kept,
            start,
        )]
        kept_best(candidates(tables, seed, samples), kept) && best_start(
            tables,
            white,
            kept,
            start,
        ) && descends(
            tables,
            start,
            if start.radius < 4 {
                1
            } else if start.radius >= 256 {
                128
            } else {
                start.radius as int / 2
            },
            best,
        );
    let step = if start.radius < 4 {
        1
    } else if start.radius >= 256 {
        128
    } else {
        start.radius as int / 2
    };
    descends_no_worse(tables, start, step, best);
}

/// Circles no further than 2000 pixels outside the picture can be tested for touching it.
proof fn near_fits(x: int, y: int, radius: int)
    requires
        -2000 <= x <= 3000,
        -2000 <= y <= 2500,
        1 <= radius <= MAX_DRAWN,
    ensures
        intersects_fits(x, y, radius),
{
    let dx = distance_outside(x, WIDTH as int);
    let dy = distance_outside(y, HEIGHT as int);
    assert(0 <= dx * dx <= 4000000) by (nonlinear_arith)
        requires
            0 <= dx <= 2000,
    ;
    assert(0 <= dy * dy <= 4000000) by (nonlinear_arith)
        requires
            0 <= dy <= 2000,
    ;
    assert(0 <= radius * radius <= 1000000) by (nonlinear_arith)
        requires
            0 <= radius <= 1000,
    ;
}

/// A circle that touches the picture has its centre no further away than its radius.
pub proof fn placed_near(x: int, y: int, radius: int)
    requires
        placed(x, y, radius),
    ensures
        -radius <= x < WIDTH + radius,
        -radius <= y < HEIGHT + radius,
{
    touches_nearest(x, y, radius);
    let dx = distance_outside(x, WIDTH as int);
    let dy = distance_outside(y, HEIGHT as int);
    assert(dx <= radius && dy <= radius) by (nonlinear_arith)
        requires
            0 <= dx,
            0 <= dy,
            1 <= radius,
            dx * dx + dy * dy <= radius * radius,
    ;
}

/// The circle is placed, and its score is its cost.
pub open spec fn honest(tables: Tables, circle: Circle) -> bool {
    &&& placed(circle.x as int, circle.y as int, circle.radius as int)
    &&& circle.score == score_value(
        tables,
        circle.x as int,
        circle.y as int,
        circle.radius as int,
        circle.white,
        true,
    )
}

/// Replaces `best` where the other place, in black or in white, costs less.
fn try_place(prefixes: &Prefix, best: Circle, x: i32, y: i32, radius: i32) -> (r: Circle)
    requires
        searchable(prefixes@),
        honest(prefixes@, best),
        -2000 <= x <= 3000,
        -2000 <= y <= 2500,
        1 <= radius <= MAX_DRAWN,
    ensures
        r == tried(prefixes@, best, (x as int, y as int, radius as int)),
        honest(prefixes@, r),
        r.score <= best.score,
{
    proof {
        near_fits(x as int, y as int, radius as int);
    }
    let mut best: Circle = best;
    if intersects(x, y, radius) {
        assert(placed(x as int, y as int, radius as int));
        let black: Circle = scored(prefixes, x, y, radius, false, true);
        if black.score < best.score {
            best = black;
        }
        let white: Circle = scored(prefixes, x, y, radius, true, true);
        if white.score < best.score {
            best = white;
        }
    }
    best
}

/// Draws the samples and returns the best of them, estimated.
fn sample_top(prefixes: &Prefix, seed: u64, samples: usize) -> (top: Vec<Circle>)
    requires
        searchable(prefixes@),
    ensures
        top@ == sampled(prefixes@, seed, samples as int).top,
        all_placed(top@),
        kept_best(candidates(prefixes@, seed, samples as int), top@),
{
    let mut rng: Rng = Rng(seed);
    let mut top: Vec<Circle> = Vec::with_capacity(TOP + 1);
    let mut sample: usize = 0;
    while sample < samples
        invariant
            sample <= samples,
            searchable(prefixes@),
            rng.0 == sampled(prefixes@, seed, sample as int).state,
            rng.0 == stream(seed, draws_before(sample as int)),
            top@ == sampled(prefixes@, seed, sample as int).top,
            kept_best(candidates(prefixes@, seed, sample as int), top@),
            ranked(top@),
            all_placed(top@),
        decreases samples - sample,
    {
        let (radius, x, y): (i32, i32, i32) = pick(&mut rng, sample);
        let ghost considered = candidates(prefixes@, seed, sample as int);
        proof {
            sample_draws(seed, sample as int);
            near_fits(x as int, y as int, radius as int);
        }
        if intersects(x, y, radius) {
            assert(placed(x as int, y as int, radius as int));
            let black: Circle = scored(prefixes, x, y, radius, false, false);
            let ghost before = top@;
            add_top(&mut top, black);
            proof {
                kept_placed(before, black, top@);
                kept_best_grows(considered, before, black, top@);
            }
            let white: Circle = scored(prefixes, x, y, radius, true, false);
            let ghost between = top@;
            add_top(&mut top, white);
            proof {
                kept_placed(between, white, top@);
                kept_best_grows(considered.push(black), between, white, top@);
            }
        }
        sample = sample + 1;
    }
    top
}

proof fn kept_placed(before: Seq<Circle>, circle: Circle, after: Seq<Circle>)
    requires
        all_placed(before),
        placed(circle.x as int, circle.y as int, circle.radius as int),
        best_kept(before, circle, after),
    ensures
        all_placed(after),
{
    assert forall|k: int| 0 <= k < after.len() implies placed(
        (#[trigger] after[k]).x as int,
        after[k].y as int,
        after[k].radius as int,
    ) by {
        if after[k] != circle {
            let i = choose|i: int| 0 <= i < before.len() && before[i] == after[k];
            assert(before[i] == after[k]);
        }
    }
}

/// Moves the circle to its best neighbour over and over, with half the step each time.
fn refine(prefixes: &Prefix, start: Circle) -> (best: Circle)
    requires
        searchable(prefixes@),
        honest(prefixes@, start),
    ensures
        best == refined(prefixes@, start, first_step(start.radius as int)),
        honest(prefixes@, best),
        best.score <= start.score,
{
    let mut best: Circle = start;
    let mut step: i32 = best.radius / 2;
    if step < 1 {
        step = 1;
    } else if step > 128 {
        step = 128;
    }
    let ghost goal = refined(prefixes@, start, step as int);
    loop
        invariant_except_break
            goal == refined(prefixes@, best, step as int),
        invariant
            searchable(prefixes@),
            1 <= step <= 128,
            honest(prefixes@, best),
            best.score <= start.score,
        ensures
            best == goal,
        decreases step,
    {
        let base: Circle = best;
        proof {
            placed_near(base.x as int, base.y as int, base.radius as int);
        }
        best = try_place(prefixes, best, base.x - step, base.y, base.radius);
        best = try_place(prefixes, best, base.x + step, base.y, base.radius);
        best = try_place(prefixes, best, base.x, base.y - step, base.radius);
        best = try_place(prefixes, best, base.x, base.y + step, base.radius);
        best = try_place(prefixes, best, base.x, base.y, (base.radius - step).max(1));
        best = try_place(prefixes, best, base.x, base.y, (base.radius + step).min(MAX_RADIUS));
        proof {
            reveal_with_fuel(best_neighbour, 7);
            assert(best == best_neighbour(prefixes@, base, step as int, 6));
        }
        if step == 1 {
            break;
        }
        step = step / 2;
    }
    best
}

/// Finds the circle to paint next: the best of the samples, refined.
pub fn best_circle(prefixes: &Prefix, canvas: &[u8], frame: usize, samples: usize) -> (best: Circle)
    requires
        canvas.len() > 0,
        searchable(prefixes@),
    ensures
        best == best_found(prefixes@, canvas@[0] != 0, frame as u64, samples as int),
        honest(prefixes@, best),
        best.score <= corner_circle(prefixes@, canvas@[0] != 0).score,
        chosen(
            prefixes@,
            canvas@[0] != 0,
            0x9e3779b97f4a7c15 ^ (frame as u64),
            samples as int,
            best,
        ),
{
    let top: Vec<Circle> = sample_top(prefixes, 0x9e3779b97f4a7c15 ^ frame as u64, samples);
    proof {
        assert(on_picture(0, 0));
        assert(touches(0, 0, 1));
        assert(placed(0, 0, 1));
    }
    let mut best: Circle = scored(prefixes, 0, 0, 1, canvas[0] != 0, true);
    let ghost start = best;
    let mut k: usize = 0;
    while k < top.len()
        invariant
            k <= top.len(),
            searchable(prefixes@),
            all_placed(top@),
            honest(prefixes@, best),
            best.score <= start.score,
            best == best_of(prefixes@, start, top@, k as int),
        decreases top.len() - k,
    {
        let circle: Circle = top[k];
        assert(placed(circle.x as int, circle.y as int, circle.radius as int));
        let counted: Circle = scored(
            prefixes,
            circle.x,
            circle.y,
            circle.radius,
            circle.white,
            true,
        );
        if counted.score < best.score {
            best = counted;
        }
        k = k + 1;
    }
    proof {
        let white = canvas@[0] != 0;
        best_of_start(prefixes@, white, top@, top@.len() as int);
        assert(top@.take(top@.len() as int) =~= top@);
        assert(best_start(prefixes@, white, top@, best));
        refined_descends(prefixes@, best, first_step(best.radius as int));
    }
    refine(prefixes, best)
}

/// A circle counts as placed if its radius is from 1 to 901 and it touches the picture. A
/// circle that is honest is placed, and its score is its cost in its colour.
pub proof fn honest_means(tables: Tables, circle: Circle)
    ensures
        placed(circle.x as int, circle.y as int, circle.radius as int) <==> 1 <= circle.radius
            <= 901 && touches(circle.x as int, circle.y as int, circle.radius as int),
        honest(tables, circle) ==> placed(circle.x as int, circle.y as int, circle.radius as int),
        honest(tables, circle) && circle.white ==> circle.score == exact_value(
            tables.white,
            circle.x as int,
            circle.y as int,
            circle.radius as int,
        ),
        honest(tables, circle) && !circle.white ==> circle.score == exact_value(
            tables.black,
            circle.x as int,
            circle.y as int,
            circle.radius as int,
        ),
{
}

/// The circle that comes from another by the best move costs no more than any circle that
/// could have come from it instead: moved by `dx` and `dy`, or resized to `radius`, in
/// either colour.
pub proof fn best_move_costs_least(
    tables: Tables,
    from: Circle,
    step: int,
    to: Circle,
    dx: int,
    dy: int,
    radius: int,
    white: bool,
)
    requires
        best_move(tables, from, step, to),
        ({
            ||| (dx == step || dx == -step) && dy == 0 && radius == from.radius
            ||| dx == 0 && (dy == step || dy == -step) && radius == from.radius
            ||| dx == 0 && dy == 0 && radius == from.radius - step && 1 <= radius
            ||| dx == 0 && dy == 0 && radius == 1 && from.radius - step < 1
            ||| dx == 0 && dy == 0 && radius == from.radius + step && radius <= 900
            ||| dx == 0 && dy == 0 && radius == 900 && from.radius + step > 900
        }),
        touches(from.x + dx, from.y + dy, radius),
    ensures
        to.score <= from.score,
        to.score <= scored_circle(
            tables,
            (from.x + dx) as i32,
            (from.y + dy) as i32,
            radius as i32,
            white,
            true,
        ).score,
{
}

/// Where the step is one a single best move is made, and else one is followed by moves with
/// half the step.
pub proof fn descends_by_halves(tables: Tables, from: Circle, step: int, to: Circle)
    requires
        descends(tables, from, step, to),
        1 <= step,
    ensures
        step == 1 ==> best_move(tables, from, 1, to),
        step > 1 ==> exists|next: Circle| #[trigger]
            best_move(tables, from, step, next) && descends(tables, next, step / 2, to),
{
}

/// The circles of a search are refined from the best of the corner and the kept samples,
/// starting with a step of half that circle's radius, kept from 1 to 128.
pub proof fn chosen_by_refining(
    tables: Tables,
    white: bool,
    seed: u64,
    samples: int,
    best: Circle,
)
    requires
        chosen(tables, white, seed, samples, best),
    ensures
        exists|kept: Seq<Circle>, start: Circle, step: int|
            kept_best(candidates(tables, seed, samples), kept) && best_start(
                tables,
                white,
                kept,
                start,
            ) && #[trigger] descends(tables, start, step, best) && #[trigger] kept.len() <= 16
                && 1 <= step <= 128 && (start.radius / 2 <= 1 ==> step == 1) && (1 <= start.radius
                / 2 <= 128 ==> step == start.radius / 2) && (start.radius / 2 >= 128 ==> step
                == 128),
{
    let (kept, start) = choose|kept: Seq<Circle>, start: Circle|
        #![trigger kept_best(candidates(tables, seed, samples), kept), best_start(
            tables,
            white,
            kept,
            start,
        )]
        kept_best(candidates(tables, seed, samples), kept) && best_start(
            tables,
            white,
            kept,
            start,
        ) && descends(
            tables,
            start,
            if start.radius < 4 {
                1
            } else if start.radius >= 256 {
                128
            } else {
                start.radius as int / 2
            },
            best,
        );
    let step = if start.radius < 4 {
        1
    } else if start.radius >= 256 {
        128
    } else {
        start.radius as int / 2
    };
    assert(descends(tables, start, step, best));
    assert(kept.len() <= 16);
}

/// A best move leaves a circle as it is, or changes one thing about it: one coordinate of
/// its centre by the step, or its radius by no more than the step. It may change its colour
/// as well.
pub proof fn best_move_moves_little(tables: Tables, from: Circle, step: int, to: Circle)
    requires
        best_move(tables, from, step, to),
        1 <= step <= 128,
        1 <= from.radius <= 901,
        -1000 <= from.x <= 3000,
        -1000 <= from.y <= 3000,
    ensures
        to == from || {
            ||| (to.x == from.x - step || to.x == from.x + step) && to.y == from.y && to.radius
                == from.radius
            ||| to.x == from.x && (to.y == from.y - step || to.y == from.y + step) && to.radius
                == from.radius
            ||| to.x == from.x && to.y == from.y && from.radius - step <= to.radius <= from.radius
                + step && 1 <= to.radius <= 900
        },
        to != from ==> touches(to.x as int, to.y as int, to.radius as int),
{
}

} // verus!
