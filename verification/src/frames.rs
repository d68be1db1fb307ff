//! The window of upcoming frames and its running weighted sums.

use std::collections::VecDeque;

use vstd::prelude::*;

use crate::geometry::PIXELS;

verus! {

/// A queue of frames, the oldest first, with three running sums per pixel.
///
/// In a queue of `n` frames the oldest weighs `n` and the newest weighs one. `sum` adds
/// the frames up, `linear` adds them times their weights, and `weighted` adds them times
/// the squares of their weights.
pub struct Frames {
    pub queue: VecDeque<Vec<u8>>,
    pub sum: Vec<u32>,
    pub linear: Vec<u32>,
    pub weighted: Vec<u32>,
    pub limit: usize,
}

/// What the frames of the queue add up to at a pixel.
pub open spec fn sum_at(queue: Seq<Vec<u8>>, i: int) -> int
    decreases queue.len(),
{
    if queue.len() == 0 {
        0
    } else {
        queue[0][i] + sum_at(queue.skip(1), i)
    }
}

/// What the frames of the queue times their weights add up to at a pixel.
pub open spec fn linear_at(queue: Seq<Vec<u8>>, i: int) -> int
    decreases queue.len(),
{
    if queue.len() == 0 {
        0
    } else {
        queue.len() * queue[0][i] + linear_at(queue.skip(1), i)
    }
}

/// What the frames of the queue times their squared weights add up to at a pixel.
pub open spec fn weighted_at(queue: Seq<Vec<u8>>, i: int) -> int
    decreases queue.len(),
{
    if queue.len() == 0 {
        0
    } else {
        queue.len() * queue.len() * queue[0][i] + weighted_at(queue.skip(1), i)
    }
}

/// The first `n` squares, added up: what the squared weights of `n` frames add up to.
pub open spec fn squares(n: nat) -> int
    decreases n,
{
    if n == 0 {
        0
    } else {
        n * n + squares((n - 1) as nat)
    }
}

/// Every frame of the queue covers the picture.
pub open spec fn full_frames(queue: Seq<Vec<u8>>) -> bool {
    forall|j: int| 0 <= j < queue.len() ==> #[trigger] queue[j].len() >= PIXELS
}

/// Every weighted sum of the queue is one that the table can hold.
pub open spec fn sums_fit(queue: Seq<Vec<u8>>) -> bool {
    forall|i: int| 0 <= i < PIXELS ==> #[trigger] weighted_at(queue, i) <= u32::MAX
}

/// Adding a frame raises the weight of every older one by one: the three sums follow
/// from those of the older frames.
pub proof fn sums_after_push(queue: Seq<Vec<u8>>, frame: Vec<u8>, i: int)
    ensures
        sum_at(queue.push(frame), i) == sum_at(queue, i) + frame[i],
        linear_at(queue.push(frame), i) == linear_at(queue, i) + sum_at(queue, i) + frame[i],
        weighted_at(queue.push(frame), i) == weighted_at(queue, i) + 2 * linear_at(queue, i)
            + sum_at(queue, i) + frame[i],
    decreases queue.len(),
{
    let longer = queue.push(frame);
    if queue.len() == 0 {
        assert(longer.skip(1) =~= Seq::<Vec<u8>>::empty());
        assert(sum_at(longer.skip(1), i) == 0);
        assert(linear_at(longer.skip(1), i) == 0);
        assert(weighted_at(longer.skip(1), i) == 0);
        assert(longer.len() == 1);
        assert(longer.len() * longer.len() == 1) by (nonlinear_arith)
            requires
                longer.len() == 1,
        ;
    } else {
        sums_after_push(queue.skip(1), frame, i);
        assert(longer.skip(1) =~= queue.skip(1).push(frame));
        let n: int = queue.len() as int;
        let f: int = queue[0][i] as int;
        assert((n + 1) * f == n * f + f) by (nonlinear_arith);
        assert((n + 1) * (n + 1) * f == n * n * f + 2 * (n * f) + f) by (nonlinear_arith);
    }
}

/// No frames add up to nothing.
pub proof fn sums_of_none(i: int)
    ensures
        sum_at(Seq::empty(), i) == 0,
        linear_at(Seq::empty(), i) == 0,
        weighted_at(Seq::empty(), i) == 0,
{
}

/// The frame at place `j` of `n` weighs `n - j`: with another frame in its place the sums
/// change by the difference of the two, by that times the weight, and by that times the
/// weight squared.
pub proof fn sums_weigh_by_age(queue: Seq<Vec<u8>>, j: int, frame: Vec<u8>, i: int)
    requires
        0 <= j < queue.len(),
    ensures
        ({
            let other = queue.update(j, frame);
            let weight = queue.len() - j;
            let change = frame[i] - queue[j][i];
            &&& sum_at(other, i) - sum_at(queue, i) == change
            &&& linear_at(other, i) - linear_at(queue, i) == weight * change
            &&& weighted_at(other, i) - weighted_at(queue, i) == weight * weight * change
        }),
    decreases j,
{
    let other = queue.update(j, frame);
    let n = queue.len() as int;
    if j == 0 {
        assert(other.skip(1) =~= queue.skip(1));
        let a = frame[i] as int;
        let b = queue[0][i] as int;
        assert(n * a - n * b == n * (a - b)) by (nonlinear_arith);
        assert(n * n * a - n * n * b == n * n * (a - b)) by (nonlinear_arith);
    } else {
        assert(other.skip(1) =~= queue.skip(1).update(j - 1, frame));
        sums_weigh_by_age(queue.skip(1), j - 1, frame, i);
    }
}

/// The sums are never negative, and each is at most the next.
pub proof fn sums_ordered(queue: Seq<Vec<u8>>, i: int)
    ensures
        0 <= sum_at(queue, i) <= linear_at(queue, i) <= weighted_at(queue, i),
        queue.len() > 0 ==> queue[0][i] <= sum_at(queue, i) && queue.len() * queue[0][i]
            <= linear_at(queue, i) && queue.len() * queue.len() * queue[0][i] <= weighted_at(
            queue,
            i,
        ),
    decreases queue.len(),
{
    if queue.len() > 0 {
        sums_ordered(queue.skip(1), i);
        let n: int = queue.len() as int;
        let f: int = queue[0][i] as int;
        assert(0 <= f <= n * f <= n * n * f) by (nonlinear_arith)
            requires
                1 <= n,
                0 <= f,
        ;
    }
}

/// The closed form of the first `n` squares.
pub proof fn squares_closed(n: nat)
    ensures
        6 * squares(n) == n * (n + 1) * (2 * n + 1),
    decreases n,
{
    if n > 0 {
        squares_closed((n - 1) as nat);
        let m: nat = (n - 1) as nat;
        assert(m * (m + 1) * (2 * m + 1) + 6 * (n * n) == n * (n + 1) * (2 * n + 1))
            by (nonlinear_arith)
            requires
                n == m + 1,
        ;
    } else {
        assert(n * (n + 1) * (2 * n + 1) == 0) by (nonlinear_arith)
            requires
                n == 0,
        ;
    }
}

/// More squares add up to more.
pub proof fn squares_monotonic(a: nat, b: nat)
    requires
        a <= b,
    ensures
        0 <= squares(a) <= squares(b),
    decreases b,
{
    if b > 0 {
        assert(b * b >= 0) by (nonlinear_arith);
        if a < b {
            squares_monotonic(a, (b - 1) as nat);
        } else {
            squares_monotonic((a - 1) as nat, (b - 1) as nat);
        }
    }
}

/// No weighted sum exceeds that of equally many white frames.
pub proof fn weighted_bound(queue: Seq<Vec<u8>>, i: int)
    ensures
        0 <= weighted_at(queue, i) <= 255 * squares(queue.len()),
    decreases queue.len(),
{
    if queue.len() > 0 {
        weighted_bound(queue.skip(1), i);
        let n: int = queue.len() as int;
        let f: int = queue[0][i] as int;
        assert(0 <= n * n * f <= 255 * (n * n)) by (nonlinear_arith)
            requires
                0 <= n,
                0 <= f <= 255,
        ;
    }
}

/// A window of up to 369 frames fits the sums whatever the frames show.
pub proof fn window_fits(queue: Seq<Vec<u8>>)
    requires
        queue.len() <= 369,
    ensures
        sums_fit(queue),
{
    squares_monotonic(queue.len(), 369);
    squares_closed(369);
    assert(369nat * (369nat + 1) * (2 * 369nat + 1) == 100895670) by (nonlinear_arith);
    assert forall|i: int| 0 <= i < PIXELS implies #[trigger] weighted_at(queue, i) <= u32::MAX by {
        weighted_bound(queue, i);
    }
}

impl Frames {
    /// From pixel `from` up to pixel `to` the sums are those of `queue`.
    pub open spec fn sums_match(self, queue: Seq<Vec<u8>>, from: int, to: int) -> bool {
        &&& forall|i: int| from <= i < to ==> #[trigger] self.sum@[i] == sum_at(queue, i)
        &&& forall|i: int| from <= i < to ==> #[trigger] self.linear@[i] == linear_at(queue, i)
        &&& forall|i: int| from <= i < to ==> #[trigger] self.weighted@[i] == weighted_at(queue, i)
    }

    /// The sums are those of the queue.
    pub open spec fn wf(self) -> bool {
        &&& self.sum.len() == PIXELS
        &&& self.linear.len() == PIXELS
        &&& self.weighted.len() == PIXELS
        &&& full_frames(self.queue@)
        &&& self.sums_match(self.queue@, 0, PIXELS as int)
    }

    /// An empty window that asks for up to `limit` frames.
    pub fn new(limit: usize) -> (frames: Self)
        ensures
            frames.wf(),
            frames.queue@ == Seq::<Vec<u8>>::empty(),
            frames.limit == limit,
    {
        Frames {
            queue: VecDeque::new(),
            sum: vec![0; PIXELS],
            linear: vec![0; PIXELS],
            weighted: vec![0; PIXELS],
            limit,
        }
    }

    /// Whether the window holds fewer frames than it asks for.
    pub fn wants_frame(&self) -> (r: bool)
        ensures
            r == (self.queue@.len() < self.limit),
    {
        self.queue.len() < self.limit
    }

    /// Adds a frame at the end of the window.
    pub fn push(&mut self, frame: Vec<u8>)
        requires
            old(self).wf(),
            frame.len() >= PIXELS,
            sums_fit(old(self).queue@.push(frame)),
        ensures
            final(self).wf(),
            final(self).queue@ == old(self).queue@.push(frame),
            final(self).limit == old(self).limit,
    {
        let ghost queue = self.queue@;
        let ghost longer = queue.push(frame);
        let mut i: usize = 0;
        while i < PIXELS
            invariant
                i <= PIXELS,
                frame.len() >= PIXELS,
                longer == queue.push(frame),
                sums_fit(longer),
                self.queue@ == queue,
                self.queue == old(self).queue,
                self.limit == old(self).limit,
                self.sum.len() == PIXELS,
                self.linear.len() == PIXELS,
                self.weighted.len() == PIXELS,
                self.sums_match(longer, 0, i as int),
                self.sums_match(queue, i as int, PIXELS as int),
            decreases PIXELS - i,
        {
            proof {
                sums_after_push(queue, frame, i as int);
                sums_ordered(queue, i as int);
                assert(weighted_at(longer, i as int) <= u32::MAX);
            }
            let value: u32 = frame[i] as u32;
            self.weighted[i] = self.weighted[i] + (2 * self.linear[i] + self.sum[i] + value);
            self.linear[i] = self.linear[i] + (self.sum[i] + value);
            self.sum[i] = self.sum[i] + value;
            i = i + 1;
        }
        self.queue.push_back(frame);
    }

    /// Drops the oldest frame and adds `next`, where there is one, at the end.
    pub fn advance(&mut self, next: Option<Vec<u8>>)
        requires
            old(self).wf(),
            0 < old(self).queue@.len() <= 0xffff,
            next matches Some(frame) ==> frame.len() >= PIXELS && sums_fit(
                old(self).queue@.skip(1).push(frame),
            ),
        ensures
            final(self).wf(),
            final(self).queue@ == match next {
                Some(frame) => old(self).queue@.skip(1).push(frame),
                None => old(self).queue@.skip(1),
            },
            final(self).limit == old(self).limit,
    {
        let ghost queue = self.queue@;
        let ghost shorter = queue.skip(1);
        let count: u32 = self.queue.len() as u32;
        let frame: Vec<u8> = self.queue.pop_front().unwrap();
        assert(self.queue@ =~= shorter);
        assert(full_frames(shorter));
        let mut i: usize = 0;
        while i < PIXELS
            invariant
                i <= PIXELS,
                0 < queue.len() <= 0xffff,
                count == queue.len(),
                frame == queue[0],
                frame.len() >= PIXELS,
                shorter == queue.skip(1),
                self.queue@ == shorter,
                self.limit == old(self).limit,
                self.sum.len() == PIXELS,
                self.linear.len() == PIXELS,
                self.weighted.len() == PIXELS,
                self.sums_match(shorter, 0, i as int),
                self.sums_match(queue, i as int, PIXELS as int),
            decreases PIXELS - i,
        {
            let value: u32 = frame[i] as u32;
            proof {
                sums_ordered(queue, i as int);
                assert(count * count <= 0xffff * 0xffff) by (nonlinear_arith)
                    requires
                        0 <= count <= 0xffff,
                ;
                assert(self.weighted[i as int] == weighted_at(queue, i as int));
                assert(self.linear[i as int] == linear_at(queue, i as int));
            }
            self.sum[i] = self.sum[i] - value;
            self.linear[i] = self.linear[i] - count * value;
            self.weighted[i] = self.weighted[i] - count * count * value;
            i = i + 1;
        }
        if let Some(frame) = next {
            self.push(frame);
        }
    }
}

/// A window in order keeps three sums for each of the 921600 pixels, and each is that of
/// the frames in the queue.
pub proof fn sums_kept(frames: Frames, i: int)
    requires
        frames.wf(),
        0 <= i < 921600,
    ensures
        frames.sum@.len() == 921600,
        frames.linear@.len() == 921600,
        frames.weighted@.len() == 921600,
        frames.sum@[i] == sum_at(frames.queue@, i),
        frames.linear@[i] == linear_at(frames.queue@, i),
        frames.weighted@[i] == weighted_at(frames.queue@, i),
{
}

} // verus!
