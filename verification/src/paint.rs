//! Painting a canvas with circles, in batches.

use vstd::arithmetic::div_mod::{
    lemma_div_pos_is_pos,
    lemma_fundamental_div_mod,
    lemma_fundamental_div_mod_converse,
    lemma_mod_bound,
};
use vstd::prelude::*;

use crate::bounds::bounded_searchable;
use crate::canvas::{draw, drawable, painted, painted_two_toned, row_drawable, two_toned};
use crate::error::{canvas_error, score_is_error_change};
use crate::frames::{Frames, squares_monotonic, weighted_at};
use crate::geometry::{HEIGHT, PIXELS, clamped, touches};
use crate::prefix::{
    Prefix,
    STRIDE,
    TABLE,
    Tables,
    block_sum,
    cost_bounded,
    prefixes,
    reached,
    rect_of_summed,
    rect_value,
    repaint_cost,
    repaint_cost_bounded,
    summed,
    summed_bounded,
    window_prefixes_fit,
    worst_error,
    worst_error_squares,
    zero_border,
};
use crate::score::{Circle, half_chord_bounds, scored_circle};
use crate::search::{
    all_placed,
    best_circle,
    best_found,
    candidates,
    chosen,
    chosen_costs_least,
    honest,
    placed,
    placed_near,
    searchable,
};
use crate::top::kept_best;

verus! {

/// How many frames a window that looks ahead holds.
pub const FUTURE_FRAMES: usize = 30;

/// How many samples a search draws for a batch of one.
pub const SAMPLES: usize = 4096;

/// The most circles that are searched for before any of them is drawn.
pub const MAX_BATCH: usize = 8;

/// The weighted sums of the queue, pixel by pixel.
pub open spec fn weights(queue: Seq<Vec<u8>>) -> Seq<u32> {
    Seq::new(PIXELS as nat, |i: int| weighted_at(queue, i) as u32)
}

/// A table of zeros.
pub open spec fn blank_table() -> Seq<i64> {
    Seq::new(TABLE as nat, |i: int| 0i64)
}

/// The tables for painting that canvas against those frames.
pub open spec fn tables_of(canvas: Seq<u8>, queue: Seq<Vec<u8>>) -> Tables {
    let count = queue.len() as int;
    Tables {
        black: summed(blank_table(), repaint_cost(canvas, weights(queue), count, false)),
        white: summed(blank_table(), repaint_cost(canvas, weights(queue), count, true)),
    }
}

/// How many of a picture's circles are searched for at a time.
pub open spec fn batch_size(shapes: int) -> int {
    clamped(shapes / (MAX_BATCH as int), 1, MAX_BATCH as int)
}

/// The circles of a batch, each the result of a search of its own on the same canvas. The
/// first has number `first`.
pub open spec fn batch_circles(
    canvas: Seq<u8>,
    queue: Seq<Vec<u8>>,
    first: int,
    n: int,
    samples: int,
) -> Seq<Circle> {
    Seq::new(
        n as nat,
        |k: int| best_found(tables_of(canvas, queue), canvas[0] != 0, (first + k) as u64, samples),
    )
}

/// The canvas with the circles drawn on it, one after the other.
pub open spec fn painted_all(canvas: Seq<u8>, circles: Seq<Circle>) -> Seq<u8>
    decreases circles.len(),
{
    if circles.len() == 0 {
        canvas
    } else {
        painted(painted_all(canvas, circles.drop_last()), circles.last())
    }
}

/// The one canvas comes from the other by drawing that many circles, each of which touches
/// the picture.
pub open spec fn made_of_circles(before: Seq<u8>, after: Seq<u8>, shapes: int) -> bool {
    exists|circles: Seq<Circle>|
        circles.len() == shapes && all_placed(circles) && after == #[trigger] painted_all(
            before,
            circles,
        )
}

/// How many circles are searched for on the same canvas: an eighth of those asked for, but
/// at least 1 and at most 8.
pub open spec fn searched_together(shapes: int) -> int {
    if shapes < 16 {
        1
    } else if shapes >= 64 {
        8
    } else {
        shapes / 8
    }
}

/// Circle `i` of a frame's `shapes` circles is the outcome of a search of its own. It is
/// made on the canvas with all circles before its batch drawn, against the whole queue of
/// frames, with a seed that tells its number, and with 4096 samples shared out over the
/// batch.
pub open spec fn chosen_in_turn(
    before: Seq<u8>,
    queue: Seq<Vec<u8>>,
    shapes: int,
    frame: int,
    circles: Seq<Circle>,
    i: int,
) -> bool {
    let size = searched_together(shapes);
    let canvas = painted_all(before, circles.take(i - i % size));
    &&& honest(tables_of(canvas, queue), circles[i])
    &&& chosen(
        tables_of(canvas, queue),
        canvas[0] != 0,
        0x9e3779b97f4a7c15 ^ ((shapes * frame + i) as u64),
        4096int / size,
        circles[i],
    )
}

/// The one canvas comes from the other by drawing that many circles, each of which touches
/// the picture and is the outcome of its search.
pub open spec fn made_by_search(
    before: Seq<u8>,
    queue: Seq<Vec<u8>>,
    shapes: int,
    frame: int,
    after: Seq<u8>,
) -> bool {
    exists|circles: Seq<Circle>|
        circles.len() == shapes && all_placed(circles) && after == #[trigger] painted_all(
            before,
            circles,
        ) && forall|i: int|
            0 <= i < shapes ==> #[trigger] chosen_in_turn(before, queue, shapes, frame, circles, i)
}

/// A circle is chosen before those that follow it.
proof fn chosen_before(
    before: Seq<u8>,
    queue: Seq<Vec<u8>>,
    shapes: int,
    frame: int,
    circles: Seq<Circle>,
    more: Seq<Circle>,
    i: int,
)
    requires
        0 <= i < circles.len(),
        chosen_in_turn(before, queue, shapes, frame, circles, i),
    ensures
        chosen_in_turn(before, queue, shapes, frame, circles + more, i),
{
    let size = searched_together(shapes);
    assert(1 <= size <= 8);
    assert(0 <= i % size <= i) by {
        small_remainder(i, size);
    }
    assert((circles + more).take(i - i % size) =~= circles.take(i - i % size));
}

proof fn small_remainder(i: int, size: int)
    requires
        0 <= i,
        1 <= size,
    ensures
        0 <= i % size <= i,
{
    lemma_fundamental_div_mod(i, size);
    lemma_div_pos_is_pos(i, size);
    assert(0 <= size * (i / size)) by (nonlinear_arith)
        requires
            1 <= size,
            0 <= i / size,
    ;
    assert(0 <= i % size) by {
        lemma_mod_bound(i, size);
    }
}

/// A batch of circles that were each chosen on the canvas it starts from, chosen in turn.
proof fn batch_in_turn(
    before: Seq<u8>,
    queue: Seq<Vec<u8>>,
    shapes: int,
    frame: int,
    circles: Seq<Circle>,
    batch: Seq<Circle>,
    batches: int,
)
    requires
        0 <= batches,
        circles.len() == batches * searched_together(shapes),
        batch.len() <= searched_together(shapes),
        forall|i: int|
            0 <= i < circles.len() ==> #[trigger] chosen_in_turn(
                before,
                queue,
                shapes,
                frame,
                circles,
                i,
            ),
        ({
            let canvas = painted_all(before, circles);
            let tables = tables_of(canvas, queue);
            let first = shapes * frame + circles.len();
            forall|k: int|
                0 <= k < batch.len() ==> honest(tables, #[trigger] batch[k]) && chosen(
                    tables,
                    canvas[0] != 0,
                    0x9e3779b97f4a7c15 ^ ((first + k) as u64),
                    4096int / searched_together(shapes),
                    batch[k],
                )
        }),
    ensures
        forall|i: int|
            0 <= i < circles.len() + batch.len() ==> #[trigger] chosen_in_turn(
                before,
                queue,
                shapes,
                frame,
                circles + batch,
                i,
            ),
{
    let longer = circles + batch;
    let size = searched_together(shapes);
    let start = circles.len() as int;
    assert forall|i: int| 0 <= i < longer.len() implies #[trigger] chosen_in_turn(
        before,
        queue,
        shapes,
        frame,
        longer,
        i,
    ) by {
        if i < start {
            chosen_before(before, queue, shapes, frame, circles, batch, i);
        } else {
            let k = i - start;
            assert(batches * size == size * batches) by (nonlinear_arith);
            lemma_fundamental_div_mod_converse(i, size, batches, k);
            assert(longer.take(start) =~= circles);
            assert(longer[i] == batch[k]);
            assert(shapes * frame + start + k == shapes * frame + i);
        }
    }
}

/// Every circle that is drawn costs no more than any of the best 16 samples of its search,
/// counted exactly on the canvas that its batch started from and against the whole queue
/// of frames. How many samples there are depends on the number of circles alone.
pub proof fn drawn_costs_least(
    before: Seq<u8>,
    queue: Seq<Vec<u8>>,
    shapes: int,
    frame: int,
    circles: Seq<Circle>,
    i: int,
    size: int,
)
    requires
        chosen_in_turn(before, queue, shapes, frame, circles, i),
        shapes < 16 ==> size == 1,
        16 <= shapes < 64 ==> size == shapes / 8,
        64 <= shapes ==> size == 8,
    ensures
        ({
            let canvas = painted_all(before, circles.take(i - i % size));
            let tables = tables_of(canvas, queue);
            let seed = 0x9e3779b97f4a7c15 ^ ((shapes * frame + i) as u64);
            &&& circles[i].score <= scored_circle(tables, 0, 0, 1, canvas[0] != 0, true).score
            &&& exists|kept: Seq<Circle>| #[trigger]
                kept_best(candidates(tables, seed, 4096int / size), kept) && forall|k: int|
                    0 <= k < kept.len() ==> circles[i].score <= scored_circle(
                        tables,
                        (#[trigger] kept[k]).x,
                        kept[k].y,
                        kept[k].radius,
                        kept[k].white,
                        true,
                    ).score
        }),
{
    let canvas = painted_all(before, circles.take(i - i % size));
    chosen_costs_least(
        tables_of(canvas, queue),
        canvas[0] != 0,
        0x9e3779b97f4a7c15 ^ ((shapes * frame + i) as u64),
        4096int / size,
        circles[i],
    );
}

/// Drawing no circles changes nothing, and drawing one more draws it over the others.
pub proof fn painted_all_in_order(canvas: Seq<u8>, circles: Seq<Circle>, circle: Circle)
    ensures
        painted_all(canvas, Seq::empty()) == canvas,
        painted_all(canvas, circles.push(circle)) == painted(
            painted_all(canvas, circles),
            circle,
        ),
{
    assert(circles.push(circle).drop_last() =~= circles);
}

/// Drawing some circles and then others is drawing them all.
pub proof fn painted_all_joined(canvas: Seq<u8>, first: Seq<Circle>, second: Seq<Circle>)
    ensures
        painted_all(painted_all(canvas, first), second) == painted_all(canvas, first + second),
    decreases second.len(),
{
    if second.len() == 0 {
        assert(first + second =~= first);
    } else {
        painted_all_joined(canvas, first, second.drop_last());
        assert((first + second).drop_last() =~= first + second.drop_last());
        assert((first + second).last() == second.last());
    }
}

/// The end of the batch that starts with circle `start`.
pub open spec fn batch_end(shapes: int, start: int) -> int {
    if start + batch_size(shapes) < shapes {
        start + batch_size(shapes)
    } else {
        shapes
    }
}

/// The canvas of frame number `frame` with its circles from `start` on drawn, out of
/// `shapes` in all.
pub open spec fn painted_from(
    canvas: Seq<u8>,
    queue: Seq<Vec<u8>>,
    shapes: int,
    frame: int,
    start: int,
) -> Seq<u8>
    decreases shapes - start,
{
    if start >= shapes {
        canvas
    } else {
        let end = batch_end(shapes, start);
        let circles = batch_circles(
            canvas,
            queue,
            shapes * frame + start,
            end - start,
            SAMPLES as int / batch_size(shapes),
        );
        painted_from(painted_all(canvas, circles), queue, shapes, frame, end)
    }
}

/// The canvas once it has been painted for a frame.
pub open spec fn painted_for(
    canvas: Seq<u8>,
    queue: Seq<Vec<u8>>,
    shapes: int,
    frame: int,
) -> Seq<u8> {
    painted_from(canvas, queue, shapes, frame, 0)
}

/// The numbers of a frame's circles are ones that a `usize` can hold.
pub open spec fn numbers_fit(shapes: int, frame: int) -> bool {
    shapes == 0 || shapes * frame + (shapes - 1) <= usize::MAX
}

/// A filled in table depends on nothing but the costs, as long as its border is zero, and
/// its border stays zero.
pub proof fn summed_from_blank(table: Seq<i64>, cost: Seq<int>)
    requires
        zero_border(table),
    ensures
        summed(table, cost) == summed(blank_table(), cost),
        zero_border(summed(table, cost)),
{
    let a = summed(table, cost);
    let b = summed(blank_table(), cost);
    assert forall|i: int| 0 <= i < TABLE implies a[i] == b[i] by {
        assert(i / (STRIDE as int) <= HEIGHT);
        assert(table[i % (STRIDE as int)] == 0);
        if !reached(i, HEIGHT as int, 0) {
            assert(table[i] == 0);
        }
    }
    assert(a =~= b);
}

/// The sums that a window keeps are those of its queue.
pub proof fn weights_kept(frames: Frames)
    requires
        frames.wf(),
    ensures
        frames.weighted@ == weights(frames.queue@),
{
    assert forall|i: int| 0 <= i < PIXELS implies #[trigger] frames.weighted@[i] == weights(
        frames.queue@,
    )[i] by {
        assert(frames.weighted@[i] == weighted_at(frames.queue@, i));
    }
    assert(frames.weighted@ =~= weights(frames.queue@));
}

/// What repainting a pixel costs at most against a window of up to 30 frames.
proof fn window_bounded(canvas: Seq<u8>, frames: Frames, white: bool)
    requires
        frames.wf(),
        frames.queue@.len() <= FUTURE_FRAMES,
    ensures
        worst_error(frames.queue@.len() as int) <= 2411025,
        cost_bounded(
            repaint_cost(canvas, weights(frames.queue@), frames.queue@.len() as int, white),
            worst_error(frames.queue@.len() as int),
        ),
{
    let count = frames.queue@.len();
    weights_kept(frames);
    worst_error_squares(count);
    worst_error_squares(30);
    squares_monotonic(count, 30);
    assert(worst_error(30) == 2411025) by {
        assert(255 * 30int * (30int + 1) * (2 * 30int + 1) == 14466150) by (nonlinear_arith);
    }
    repaint_cost_bounded(canvas, frames, white);
}

/// A search can score every circle on the tables of a window of up to 30 frames.
pub proof fn window_searchable(canvas: Seq<u8>, frames: Frames)
    requires
        frames.wf(),
        frames.queue@.len() <= FUTURE_FRAMES,
    ensures
        searchable(tables_of(canvas, frames.queue@)),
{
    let queue = frames.queue@;
    let count = queue.len() as int;
    let bound = worst_error(count);
    window_bounded(canvas, frames, false);
    window_bounded(canvas, frames, true);
    summed_bounded(blank_table(), repaint_cost(canvas, weights(queue), count, false), bound);
    summed_bounded(blank_table(), repaint_cost(canvas, weights(queue), count, true), bound);
    bounded_searchable(tables_of(canvas, queue), PIXELS * bound);
}

/// The score of a circle that a search settled on is the change that painting it makes to
/// the error of the canvas against the window of frames.
pub proof fn found_score_is_error_change(canvas: Seq<u8>, frames: Frames, circle: Circle)
    requires
        frames.wf(),
        frames.queue@.len() <= FUTURE_FRAMES,
        canvas.len() == PIXELS,
        two_toned(canvas),
        honest(tables_of(canvas, frames.queue@), circle),
    ensures
        circle.score == canvas_error(painted(canvas, circle), frames.queue@, PIXELS as int)
            - canvas_error(canvas, frames.queue@, PIXELS as int),
{
    let queue = frames.queue@;
    let count = queue.len() as int;
    window_bounded(canvas, frames, circle.white);
    summed_bounded(
        blank_table(),
        repaint_cost(canvas, weights(queue), count, circle.white),
        worst_error(count),
    );
    weights_kept(frames);
    score_is_error_change(canvas, frames, blank_table(), circle);
}

/// A circle that the search settled on can be drawn.
pub proof fn found_drawable(circle: Circle)
    requires
        placed(circle.x as int, circle.y as int, circle.radius as int),
    ensures
        drawable(PIXELS as int, circle),
{
    let radius = circle.radius as int;
    placed_near(circle.x as int, circle.y as int, radius);
    assert(0 <= radius * radius <= 1000000) by (nonlinear_arith)
        requires
            0 <= radius <= 1000,
    ;
    assert forall|dy: int| -radius <= dy <= radius implies #[trigger] row_drawable(
        PIXELS as int,
        circle,
        dy,
    ) by {
        half_chord_bounds(radius, dy);
    }
}

/// Searches for the circles of a batch without drawing any.
fn search_batch(
    prefix: &Prefix,
    canvas: &Vec<u8>,
    first: usize,
    n: usize,
    samples: usize,
    Ghost(queue): Ghost<Seq<Vec<u8>>>,
) -> (circles: Vec<Circle>)
    requires
        canvas.len() == PIXELS,
        prefix@ == tables_of(canvas@, queue),
        searchable(prefix@),
        n > 0 ==> first + (n - 1) <= usize::MAX,
    ensures
        circles@ == batch_circles(canvas@, queue, first as int, n as int, samples as int),
        all_placed(circles@),
        forall|k: int|
            0 <= k < n ==> honest(prefix@, #[trigger] circles@[k]) && chosen(
                prefix@,
                canvas@[0] != 0,
                0x9e3779b97f4a7c15 ^ ((first + k) as u64),
                samples as int,
                circles@[k],
            ),
{
    let ghost all = batch_circles(canvas@, queue, first as int, n as int, samples as int);
    let mut circles: Vec<Circle> = Vec::with_capacity(MAX_BATCH);
    let mut k: usize = 0;
    while k < n
        invariant
            k <= n,
            canvas.len() == PIXELS,
            prefix@ == tables_of(canvas@, queue),
            searchable(prefix@),
            n > 0 ==> first + (n - 1) <= usize::MAX,
            all == batch_circles(canvas@, queue, first as int, n as int, samples as int),
            circles@ == all.take(k as int),
            all_placed(circles@),
            forall|j: int|
                0 <= j < k ==> honest(prefix@, #[trigger] circles@[j]) && chosen(
                    prefix@,
                    canvas@[0] != 0,
                    0x9e3779b97f4a7c15 ^ ((first + j) as u64),
                    samples as int,
                    circles@[j],
                ),
        decreases n - k,
    {
        let circle: Circle = best_circle(prefix, canvas, first + k, samples);
        assert(circle == all[k as int]);
        circles.push(circle);
        assert(circles@ =~= all.take(k + 1));
        k = k + 1;
    }
    assert(all.take(n as int) =~= all);
    circles
}

/// Draws the circles on the canvas, one after the other.
fn draw_batch(canvas: &mut Vec<u8>, circles: &Vec<Circle>)
    requires
        old(canvas).len() == PIXELS,
        all_placed(circles@),
    ensures
        final(canvas)@ == painted_all(old(canvas)@, circles@),
        final(canvas)@.len() == PIXELS,
{
    let ghost before = canvas@;
    let mut k: usize = 0;
    assert(circles@.take(0) =~= Seq::<Circle>::empty());
    while k < circles.len()
        invariant
            k <= circles.len(),
            canvas@.len() == PIXELS,
            canvas@ == painted_all(before, circles@.take(k as int)),
            all_placed(circles@),
        decreases circles.len() - k,
    {
        let circle: Circle = circles[k];
        proof {
            found_drawable(circle);
            assert(circles@.take(k + 1).drop_last() =~= circles@.take(k as int));
            assert(circles@.take(k + 1).last() == circle);
        }
        draw(canvas, circle);
        k = k + 1;
    }
    assert(circles@.take(circles@.len() as int) =~= circles@);
}

/// Paints the canvas for frame number `frame`, with `shapes` circles.
pub fn paint(
    canvas: &mut Vec<u8>,
    frames: &Frames,
    prefix: &mut Prefix,
    shapes: usize,
    frame: usize,
)
    requires
        old(canvas).len() == PIXELS,
        frames.wf(),
        frames.queue@.len() <= FUTURE_FRAMES,
        zero_border(old(prefix).black@),
        zero_border(old(prefix).white@),
        numbers_fit(shapes as int, frame as int),
    ensures
        final(canvas)@ == painted_for(old(canvas)@, frames.queue@, shapes as int, frame as int),
        made_of_circles(old(canvas)@, final(canvas)@, shapes as int),
        made_by_search(
            old(canvas)@,
            frames.queue@,
            shapes as int,
            frame as int,
            final(canvas)@,
        ),
        final(canvas)@.len() == PIXELS,
        zero_border(final(prefix).black@),
        zero_border(final(prefix).white@),
{
    let ghost queue = frames.queue@;
    let ghost before = canvas@;
    let ghost goal = painted_for(before, queue, shapes as int, frame as int);
    let ghost mut all = Seq::<Circle>::empty();
    let ghost mut batches: int = 0;
    let mut batch: usize = shapes / MAX_BATCH;
    if batch < 1 {
        batch = 1;
    } else if batch > MAX_BATCH {
        batch = MAX_BATCH;
    }
    let samples: usize = SAMPLES / batch;
    let mut start: usize = 0;
    while start < shapes
        invariant
            start <= shapes,
            batch == batch_size(shapes as int),
            samples == SAMPLES as int / batch_size(shapes as int),
            queue == frames.queue@,
            frames.wf(),
            frames.queue@.len() <= FUTURE_FRAMES,
            numbers_fit(shapes as int, frame as int),
            canvas@.len() == PIXELS,
            zero_border(prefix.black@),
            zero_border(prefix.white@),
            goal == painted_from(canvas@, queue, shapes as int, frame as int, start as int),
            all.len() == start,
            all_placed(all),
            canvas@ == painted_all(before, all),
            0 <= batches,
            start < shapes ==> start == batches * batch,
            batch == searched_together(shapes as int),
            samples == 4096int / searched_together(shapes as int),
            forall|i: int|
                0 <= i < start ==> #[trigger] chosen_in_turn(
                    before,
                    queue,
                    shapes as int,
                    frame as int,
                    all,
                    i,
                ),
        decreases shapes - start,
    {
        proof {
            weights_kept(*frames);
            window_prefixes_fit(canvas@, *frames, *prefix);
            summed_from_blank(
                prefix.black@,
                repaint_cost(canvas@, weights(queue), queue.len() as int, false),
            );
            summed_from_blank(
                prefix.white@,
                repaint_cost(canvas@, weights(queue), queue.len() as int, true),
            );
            window_searchable(canvas@, *frames);
            assert(0 <= shapes * frame) by (nonlinear_arith)
                requires
                    0 <= shapes,
                    0 <= frame,
            ;
        }
        prefixes(canvas, frames, prefix);
        let end: usize = if batch < shapes - start {
            start + batch
        } else {
            shapes
        };
        let first: usize = shapes * frame + start;
        let circles: Vec<Circle> = search_batch(
            prefix,
            canvas,
            first,
            end - start,
            samples,
            Ghost(queue),
        );
        draw_batch(canvas, &circles);
        proof {
            painted_all_joined(before, all, circles@);
            batch_in_turn(
                before,
                queue,
                shapes as int,
                frame as int,
                all,
                circles@,
                batches,
            );
            assert((batches + 1) * batch == batches * batch + batch) by (nonlinear_arith);
            all = all + circles@;
            batches = batches + 1;
        }
        start = end;
    }
}

/// Drawing circles leaves a black and white canvas black and white, and as large as it was.
pub proof fn painted_all_two_toned(canvas: Seq<u8>, circles: Seq<Circle>)
    requires
        two_toned(canvas),
    ensures
        two_toned(painted_all(canvas, circles)),
        painted_all(canvas, circles).len() == canvas.len(),
    decreases circles.len(),
{
    if circles.len() > 0 {
        painted_all_two_toned(canvas, circles.drop_last());
        painted_two_toned(painted_all(canvas, circles.drop_last()), circles.last());
    }
}

/// Painting leaves a black and white canvas black and white, and as large as it was.
pub proof fn painted_from_two_toned(
    canvas: Seq<u8>,
    queue: Seq<Vec<u8>>,
    shapes: int,
    frame: int,
    start: int,
)
    requires
        two_toned(canvas),
    ensures
        two_toned(painted_from(canvas, queue, shapes, frame, start)),
        painted_from(canvas, queue, shapes, frame, start).len() == canvas.len(),
    decreases shapes - start,
{
    if start < shapes {
        let end = batch_end(shapes, start);
        let circles = batch_circles(
            canvas,
            queue,
            shapes * frame + start,
            end - start,
            SAMPLES as int / batch_size(shapes),
        );
        painted_all_two_toned(canvas, circles);
        painted_from_two_toned(painted_all(canvas, circles), queue, shapes, frame, end);
    }
}

/// A painted frame differs from the canvas before by exactly the circles asked for. Each
/// touches the picture and costs no more than any of the best 16 out of the first 4096
/// samples, shared out over its batch, on the canvas that its batch started from and
/// against the whole queue.
pub proof fn painted_by_best_circles(
    before: Seq<u8>,
    queue: Seq<Vec<u8>>,
    shapes: int,
    frame: int,
    after: Seq<u8>,
    size: int,
)
    requires
        made_by_search(before, queue, shapes, frame, after),
        shapes < 16 ==> size == 1,
        16 <= shapes < 64 ==> size == shapes / 8,
        64 <= shapes ==> size == 8,
    ensures
        exists|circles: Seq<Circle>|
            circles.len() == shapes && after == #[trigger] painted_all(before, circles) && forall|
                i: int,
            |
                0 <= i < shapes ==> {
                    let circle = #[trigger] circles[i];
                    let canvas = painted_all(before, circles.take(i - i % size));
                    let tables = tables_of(canvas, queue);
                    let seed = 0x9e3779b97f4a7c15 ^ ((shapes * frame + i) as u64);
                    &&& touches(circle.x as int, circle.y as int, circle.radius as int)
                    &&& honest(tables, circle)
                    &&& exists|kept: Seq<Circle>| #[trigger]
                        kept_best(candidates(tables, seed, 4096int / size), kept) && forall|k: int|
                            0 <= k < kept.len() ==> circle.score <= scored_circle(
                                tables,
                                (#[trigger] kept[k]).x,
                                kept[k].y,
                                kept[k].radius,
                                kept[k].white,
                                true,
                            ).score
                },
{
    let circles = choose|circles: Seq<Circle>|
        circles.len() == shapes && all_placed(circles) && after == #[trigger] painted_all(
            before,
            circles,
        ) && forall|i: int|
            0 <= i < shapes ==> #[trigger] chosen_in_turn(before, queue, shapes, frame, circles, i);
    assert forall|i: int| 0 <= i < shapes implies {
        let circle = #[trigger] circles[i];
        let canvas = painted_all(before, circles.take(i - i % size));
        let tables = tables_of(canvas, queue);
        let seed = 0x9e3779b97f4a7c15 ^ ((shapes * frame + i) as u64);
        &&& touches(circle.x as int, circle.y as int, circle.radius as int)
        &&& honest(tables, circle)
        &&& exists|kept: Seq<Circle>| #[trigger]
            kept_best(candidates(tables, seed, 4096int / size), kept) && forall|k: int|
                0 <= k < kept.len() ==> circle.score <= scored_circle(
                    tables,
                    (#[trigger] kept[k]).x,
                    kept[k].y,
                    kept[k].radius,
                    kept[k].white,
                    true,
                ).score
    } by {
        assert(chosen_in_turn(before, queue, shapes, frame, circles, i));
        drawn_costs_least(before, queue, shapes, frame, circles, i, size);
    }
}

/// The tables that circles are scored on give, for any block of pixels of the picture, the
/// costs of repainting its pixels against the queue, added up.
pub proof fn tables_count_costs(
    canvas: Seq<u8>,
    frames: Frames,
    left: int,
    top: int,
    right: int,
    bottom: int,
)
    requires
        frames.wf(),
        frames.queue@.len() <= FUTURE_FRAMES,
        0 <= left <= right <= 1280,
        0 <= top <= bottom <= 720,
    ensures
        rect_value(tables_of(canvas, frames.queue@).white, left, top, right, bottom) == block_sum(
            repaint_cost(canvas, frames.weighted@, frames.queue@.len() as int, true),
            left,
            top,
            right,
            bottom,
        ),
        rect_value(tables_of(canvas, frames.queue@).black, left, top, right, bottom) == block_sum(
            repaint_cost(canvas, frames.weighted@, frames.queue@.len() as int, false),
            left,
            top,
            right,
            bottom,
        ),
{
    let count = frames.queue@.len() as int;
    weights_kept(frames);
    window_bounded(canvas, frames, true);
    window_bounded(canvas, frames, false);
    let white = repaint_cost(canvas, frames.weighted@, count, true);
    let black = repaint_cost(canvas, frames.weighted@, count, false);
    summed_bounded(blank_table(), white, worst_error(count));
    summed_bounded(blank_table(), black, worst_error(count));
    rect_of_summed(blank_table(), white, left, top, right, bottom);
    rect_of_summed(blank_table(), black, left, top, right, bottom);
}

} // verus!
