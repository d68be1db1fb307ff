//! The conversion of one video: which frames to read, what to paint and what to write.

use vstd::prelude::*;

use crate::canvas::two_toned;
use crate::frames::{Frames, window_fits};
use crate::geometry::PIXELS;
use crate::options::Mode;
use crate::paint::{
    FUTURE_FRAMES,
    made_by_search,
    made_of_circles,
    numbers_fit,
    paint,
    painted_for,
    painted_from_two_toned,
};
use crate::prefix::{Prefix, TABLE, zero_border};
use crate::tile::{canvas_reaches, full_canvases_reach, pixels, single_canvas, tile, tiled};

verus! {

/// What a conversion is waiting for.
#[derive(Clone, Copy, Debug, PartialEq, Eq, Structural)]
pub enum Phase {
    /// For frames to fill the window with.
    Filling,
    /// For the picture to be written.
    Writing,
    /// For the frame that follows those in the window.
    Reading,
    /// For the number of frames done to be reported.
    Reporting,
    /// For nothing more.
    Finished,
}

/// A conversion under way.
pub struct Process {
    pub frames: Frames,
    pub canvases: Vec<Vec<u8>>,
    pub prefix: Prefix,
    pub counts: Vec<usize>,
    pub fps: usize,
    pub frame: usize,
    pub phase: Phase,
}

/// What a conversion depends on.
pub struct ProcessView {
    pub queue: Seq<Vec<u8>>,
    pub limit: int,
    pub canvases: Seq<Seq<u8>>,
    pub counts: Seq<usize>,
    pub fps: int,
    pub frame: int,
    pub phase: Phase,
}

impl View for Process {
    type V = ProcessView;

    open spec fn view(&self) -> ProcessView {
        ProcessView {
            queue: self.frames.queue@,
            limit: self.frames.limit as int,
            canvases: pixels(self.canvases@),
            counts: self.counts@,
            fps: self.fps as int,
            frame: self.frame as int,
            phase: self.phase,
        }
    }
}

/// What happened outside.
#[derive(Debug)]
pub enum Event {
    /// A frame was read, or the video turned out to be at its end.
    Frame(Option<Vec<u8>>),
    /// The picture was written.
    Written,
    /// The number of frames done was reported.
    Reported,
}

/// What is to be done next.
#[derive(Debug)]
pub enum Action {
    /// Read a frame.
    Read,
    /// Write the picture.
    Write { picture: Vec<u8> },
    /// Report the number of frames done.
    Report { frames: usize },
    /// Stop, with the number of frames done.
    Finish { frames: usize },
}

/// What an action holds.
pub enum ActionView {
    Read,
    Write { picture: Seq<u8> },
    Report { frames: int },
    Finish { frames: int },
}

impl View for Action {
    type V = ActionView;

    open spec fn view(&self) -> ActionView {
        match self {
            Action::Read => ActionView::Read,
            Action::Write { picture } => ActionView::Write { picture: picture@ },
            Action::Report { frames } => ActionView::Report { frames: *frames as int },
            Action::Finish { frames } => ActionView::Finish { frames: *frames as int },
        }
    }
}

/// How many frames the window of a mode holds.
pub open spec fn window_limit(mode: Mode) -> int {
    match mode {
        Mode::Circle => 1,
        Mode::Future => FUTURE_FRAMES as int,
    }
}

/// The canvases once they have been painted for the current frame.
pub open spec fn painted_canvases(state: ProcessView) -> Seq<Seq<u8>> {
    Seq::new(
        state.canvases.len(),
        |k: int|
            painted_for(state.canvases[k], state.queue, state.counts[k] as int, state.frame),
    )
}

/// The picture that the canvases make.
pub open spec fn picture_of(canvases: Seq<Seq<u8>>) -> Seq<u8> {
    if canvases.len() == 1 {
        canvases[0]
    } else {
        tiled(canvases)
    }
}

/// Paints and writes a picture, or ends the conversion where the window is empty.
pub open spec fn shown(state: ProcessView) -> (ProcessView, ActionView) {
    if state.queue.len() == 0 {
        (
            ProcessView { phase: Phase::Finished, ..state },
            ActionView::Finish { frames: state.frame },
        )
    } else {
        let canvases = painted_canvases(state);
        (
            ProcessView { canvases, phase: Phase::Writing, ..state },
            ActionView::Write { picture: picture_of(canvases) },
        )
    }
}

/// The queue with the frame that was read, if one was, at its end.
pub open spec fn with_frame(queue: Seq<Vec<u8>>, frame: Option<Vec<u8>>) -> Seq<Vec<u8>> {
    match frame {
        Some(frame) => queue.push(frame),
        None => queue,
    }
}

/// The number of frames done is one to report: every ten seconds of video.
pub open spec fn worth_report(frame: int, fps: int) -> bool {
    frame % (fps * 10) == 0
}

/// The conversion once the window has moved on by one frame.
pub open spec fn moved_on(state: ProcessView, frame: Option<Vec<u8>>) -> ProcessView {
    ProcessView {
        queue: with_frame(state.queue.skip(1), frame),
        frame: state.frame + 1,
        ..state
    }
}

/// What becomes of a conversion when something happens, and what is to be done next.
pub open spec fn stepped(state: ProcessView, event: Event) -> (ProcessView, ActionView) {
    match (state.phase, event) {
        (Phase::Filling, Event::Frame(frame)) => {
            let next = ProcessView { queue: with_frame(state.queue, frame), ..state };
            if frame is Some && next.queue.len() < next.limit {
                (next, ActionView::Read)
            } else {
                shown(next)
            }
        },
        (Phase::Writing, Event::Written) => (
            ProcessView { phase: Phase::Reading, ..state },
            ActionView::Read,
        ),
        (Phase::Reading, Event::Frame(frame)) => {
            let next = moved_on(state, frame);
            if worth_report(next.frame, next.fps) {
                (
                    ProcessView { phase: Phase::Reporting, ..next },
                    ActionView::Report { frames: next.frame },
                )
            } else {
                shown(next)
            }
        },
        (Phase::Reporting, Event::Reported) => shown(state),
        _ => (state, ActionView::Read),
    }
}

/// There is a picture to make of the canvases, and its circles can be numbered.
pub open spec fn showable(state: ProcessView) -> bool {
    state.queue.len() > 0 ==> state.counts.len() > 0 && forall|k: int|
        0 <= k < state.counts.len() ==> numbers_fit(#[trigger] state.counts[k] as int, state.frame)
}

/// The conversion waits for what happened, a frame that was read covers the picture, and
/// the numbers that follow stay within a `usize`.
pub open spec fn steppable(state: ProcessView, event: Event) -> bool {
    &&& event matches Event::Frame(Some(frame)) ==> frame.len() >= PIXELS
    &&& match (state.phase, event) {
        (Phase::Filling, Event::Frame(frame)) => {
            let next = ProcessView { queue: with_frame(state.queue, frame), ..state };
            (frame is Some && next.queue.len() < next.limit) || showable(next)
        },
        (Phase::Writing, Event::Written) => true,
        (Phase::Reading, Event::Frame(frame)) => {
            &&& 0 < state.fps * 10 <= usize::MAX
            &&& state.frame + 1 <= usize::MAX
            &&& worth_report(state.frame + 1, state.fps) || showable(moved_on(state, frame))
        },
        (Phase::Reporting, Event::Reported) => showable(state),
        _ => false,
    }
}

/// Every canvas covers the picture and is black and white.
pub open spec fn canvases_ready(canvases: Seq<Seq<u8>>) -> bool {
    forall|k: int|
        0 <= k < canvases.len() ==> (#[trigger] canvases[k]).len() == PIXELS && two_toned(
            canvases[k],
        )
}

/// Each canvas comes from its predecessor by drawing as many circles as its count says,
/// each of which touches the picture and is the outcome of its search against the window.
pub open spec fn canvases_made(before: ProcessView, after: ProcessView) -> bool {
    &&& after.canvases.len() == before.canvases.len()
    &&& forall|k: int|
        0 <= k < after.canvases.len() ==> made_of_circles(
            before.canvases[k],
            #[trigger] after.canvases[k],
            before.counts[k] as int,
        ) && made_by_search(
            before.canvases[k],
            after.queue,
            before.counts[k] as int,
            after.frame,
            after.canvases[k],
        )
}

/// Whether the circles of a frame can be numbered.
fn numbers_ok(shapes: usize, frame: usize) -> (r: bool)
    ensures
        r == numbers_fit(shapes as int, frame as int),
{
    if shapes == 0 {
        return true;
    }
    match shapes.checked_mul(frame) {
        Some(product) => product.checked_add(shapes - 1).is_some(),
        None => {
            proof {
                assert(shapes * frame > usize::MAX);
            }
            false
        },
    }
}

impl Process {
    /// The window is in order and no longer than it should be, there is a canvas for each
    /// count, and the borders of the tables are zero.
    pub open spec fn ready(self) -> bool {
        &&& self.frames.wf()
        &&& 1 <= self.frames.limit <= FUTURE_FRAMES
        &&& self.frames.queue@.len() <= self.frames.limit
        &&& self.canvases@.len() == self.counts@.len()
        &&& canvases_ready(pixels(self.canvases@))
        &&& zero_border(self.prefix.black@)
        &&& zero_border(self.prefix.white@)
    }

    /// The conversion is ready, and its window is filled as the phase has it.
    pub open spec fn wf(self) -> bool {
        &&& self.ready()
        &&& match self.phase {
            Phase::Filling => self.frames.queue@.len() < self.frames.limit,
            Phase::Writing | Phase::Reading => self.frames.queue@.len() > 0,
            Phase::Reporting => true,
            Phase::Finished => self.frames.queue@.len() == 0,
        }
    }

    /// A conversion that has read nothing yet. What is to be done first is to read a
    /// frame.
    pub fn new(mode: Mode, fps: usize, counts: &[usize]) -> (process: Process)
        ensures
            process.wf(),
            process@.queue == Seq::<Vec<u8>>::empty(),
            process@.limit == window_limit(mode),
            mode == Mode::Circle ==> process@.limit == 1,
            mode == Mode::Future ==> process@.limit == 30,
            process@.canvases == Seq::new(
                counts@.len(),
                |k: int| Seq::new(PIXELS as nat, |i: int| 0u8),
            ),
            process@.counts == counts@,
            process@.fps == fps,
            process@.frame == 0,
            process@.phase == Phase::Filling,
    {
        let limit: usize = match mode {
            Mode::Circle => 1,
            Mode::Future => FUTURE_FRAMES,
        };
        let mut canvases: Vec<Vec<u8>> = Vec::new();
        let mut k: usize = 0;
        while k < counts.len()
            invariant
                k <= counts.len(),
                canvases@.len() == k,
                forall|j: int|
                    0 <= j < k ==> (#[trigger] canvases@[j])@ == Seq::new(
                        PIXELS as nat,
                        |i: int| 0u8,
                    ),
            decreases counts.len() - k,
        {
            let canvas: Vec<u8> = vec![0; PIXELS];
            assert(canvas@ =~= Seq::new(PIXELS as nat, |i: int| 0u8));
            canvases.push(canvas);
            k = k + 1;
        }
        let black: Vec<i64> = vec![0; TABLE];
        let white: Vec<i64> = vec![0; TABLE];
        let process: Process = Process {
            frames: Frames::new(limit),
            canvases,
            prefix: Prefix { black, white },
            counts: vstd::slice::slice_to_vec(counts),
            fps,
            frame: 0,
            phase: Phase::Filling,
        };
        assert(process@.canvases =~= Seq::new(
            counts@.len(),
            |k: int| Seq::new(PIXELS as nat, |i: int| 0u8),
        ));
        process
    }

    /// Whether there is a picture to make of the canvases at that frame number, and its
    /// circles can be numbered.
    fn can_show(&self, frame: usize) -> (r: bool)
        ensures
            r == (self.counts@.len() > 0 && forall|k: int|
                0 <= k < self.counts@.len() ==> numbers_fit(
                    #[trigger] self.counts@[k] as int,
                    frame as int,
                )),
    {
        if self.counts.len() == 0 {
            return false;
        }
        let mut k: usize = 0;
        while k < self.counts.len()
            invariant
                k <= self.counts.len(),
                forall|j: int|
                    0 <= j < k ==> numbers_fit(#[trigger] self.counts@[j] as int, frame as int),
            decreases self.counts.len() - k,
        {
            if !numbers_ok(self.counts[k], frame) {
                assert(!numbers_fit(self.counts@[k as int] as int, frame as int));
                return false;
            }
            k = k + 1;
        }
        true
    }

    /// Whether the conversion can take the event.
    pub fn can_step(&self, event: &Event) -> (r: bool)
        requires
            self.wf(),
        ensures
            r == steppable(self@, *event),
    {
        match event {
            Event::Frame(frame) => {
                let found: usize = match frame {
                    Some(frame) => {
                        if frame.len() < PIXELS {
                            return false;
                        }
                        1
                    },
                    None => 0,
                };
                match self.phase {
                    Phase::Filling => {
                        let length: usize = self.frames.queue.len() + found;
                        (found == 1 && length < self.frames.limit) || length == 0 || self.can_show(
                            self.frame,
                        )
                    },
                    Phase::Reading => {
                        let length: usize = self.frames.queue.len() - 1 + found;
                        if self.fps == 0 || self.fps > usize::MAX / 10 || self.frame
                            == usize::MAX {
                            return false;
                        }
                        (self.frame + 1) % (self.fps * 10) == 0 || length == 0 || self.can_show(
                            self.frame + 1,
                        )
                    },
                    Phase::Writing => false,
                    Phase::Reporting => false,
                    Phase::Finished => false,
                }
            },
            Event::Written => match self.phase {
                Phase::Writing => true,
                Phase::Filling => false,
                Phase::Reading => false,
                Phase::Reporting => false,
                Phase::Finished => false,
            },
            Event::Reported => match self.phase {
                Phase::Reporting => self.frames.queue.len() == 0 || self.can_show(self.frame),
                Phase::Filling => false,
                Phase::Writing => false,
                Phase::Reading => false,
                Phase::Finished => false,
            },
        }
    }

    /// Paints every canvas for the current frame.
    fn paint_canvases(&mut self)
        requires
            old(self).wf(),
            forall|k: int|
                0 <= k < old(self).counts@.len() ==> numbers_fit(
                    #[trigger] old(self).counts@[k] as int,
                    old(self).frame as int,
                ),
        ensures
            final(self).wf(),
            final(self)@ == (ProcessView {
                canvases: painted_canvases(old(self)@),
                ..old(self)@
            }),
            canvases_made(old(self)@, final(self)@),
    {
        let ghost before = self@;
        let ghost goal = painted_canvases(before);
        let mut k: usize = 0;
        while k < self.counts.len()
            invariant
                k <= self.counts@.len(),
                self.wf(),
                goal == painted_canvases(before),
                before.canvases.len() == before.counts.len(),
                self@ == (ProcessView { canvases: self@.canvases, ..before }),
                forall|j: int| 0 <= j < k ==> #[trigger] pixels(self.canvases@)[j] == goal[j],
                forall|j: int|
                    0 <= j < k ==> made_of_circles(
                        before.canvases[j],
                        #[trigger] goal[j],
                        before.counts[j] as int,
                    ) && made_by_search(
                        before.canvases[j],
                        before.queue,
                        before.counts[j] as int,
                        before.frame,
                        goal[j],
                    ),
                forall|j: int|
                    k <= j < before.canvases.len() ==> #[trigger] pixels(self.canvases@)[j]
                        == before.canvases[j],
                forall|j: int|
                    0 <= j < self.counts@.len() ==> numbers_fit(
                        #[trigger] self.counts@[j] as int,
                        self.frame as int,
                    ),
            decreases self.counts.len() - k,
        {
            let ghost now = self.canvases@;
            proof {
                assert(pixels(now)[k as int] == before.canvases[k as int]);
                assert(pixels(now)[k as int] == now[k as int]@);
                painted_from_two_toned(
                    before.canvases[k as int],
                    before.queue,
                    before.counts[k as int] as int,
                    before.frame,
                    0,
                );
            }
            let shapes: usize = self.counts[k];
            paint(
                &mut self.canvases[k],
                &self.frames,
                &mut self.prefix,
                shapes,
                self.frame,
            );
            proof {
                assert forall|j: int| 0 <= j < now.len() && j != k implies #[trigger] pixels(
                    self.canvases@,
                )[j] == pixels(now)[j] by {
                    assert(self.canvases@[j] == now[j]);
                }
                assert(pixels(self.canvases@)[k as int] == goal[k as int]);
            }
            k = k + 1;
        }
        assert(self@.canvases =~= goal);
    }

    /// Paints a picture, or ends the conversion where the window is empty.
    fn show(&mut self) -> (action: Action)
        requires
            old(self).ready(),
            showable(old(self)@),
        ensures
            final(self).wf(),
            (final(self)@, action@) == shown(old(self)@),
            action@ is Write ==> canvases_made(old(self)@, final(self)@),
            action@ matches ActionView::Write { picture } ==> picture == tiled(
                final(self)@.canvases,
            ),
    {
        if self.frames.queue.len() == 0 {
            self.phase = Phase::Finished;
            return Action::Finish { frames: self.frame };
        }
        self.phase = Phase::Writing;
        self.paint_canvases();
        let picture: Vec<u8> = if self.canvases.len() == 1 {
            self.canvases[0].clone()
        } else {
            proof {
                assert forall|cell: int| 0 <= cell < self.canvases@.len() implies canvas_reaches(
                    pixels(self.canvases@),
                    cell,
                ) by {
                    full_canvases_reach(pixels(self.canvases@), cell);
                }
            }
            tile(self.canvases.as_slice())
        };
        assert(picture@ =~= picture_of(pixels(self.canvases@)));
        proof {
            picture_is_tiled(pixels(self.canvases@));
        }
        Action::Write { picture }
    }

    /// Takes note of what happened and says what is to be done next.
    pub fn step(&mut self, event: Event) -> (action: Action)
        requires
            old(self).wf(),
            steppable(old(self)@, event),
        ensures
            final(self).wf(),
            (final(self)@, action@) == stepped(old(self)@, event),
            action@ is Write ==> canvases_made(old(self)@, final(self)@),
            action@ matches ActionView::Write { picture } ==> picture == tiled(
                final(self)@.canvases,
            ),
            action@ is Write ==> forall|k: int|
                0 <= k < old(self)@.counts.len() ==> made_by_search(
                    old(self)@.canvases[k],
                    final(self)@.queue,
                    old(self)@.counts[k] as int,
                    final(self)@.frame,
                    #[trigger] final(self)@.canvases[k],
                ),
            action matches Action::Write { picture } ==> picture@ == tiled(
                pixels(final(self).canvases@),
            ),
            action matches Action::Report { frames } ==> frames == final(self).frame,
            action matches Action::Finish { frames } ==> frames == final(self).frame,
    {
        match event {
            Event::Frame(frame) => match self.phase {
                Phase::Filling => {
                    match frame {
                        Some(frame) => {
                            proof {
                                window_fits(self.frames.queue@.push(frame));
                            }
                            self.frames.push(frame);
                            if self.frames.wants_frame() {
                                return Action::Read;
                            }
                        },
                        None => {},
                    }
                    self.show()
                },
                _ => {
                    proof {
                        if frame is Some {
                            window_fits(self.frames.queue@.skip(1).push(frame->0));
                        }
                    }
                    self.frames.advance(frame);
                    self.frame = self.frame + 1;
                    if self.frame % (self.fps * 10) == 0 {
                        self.phase = Phase::Reporting;
                        return Action::Report { frames: self.frame };
                    }
                    self.show()
                },
            },
            Event::Written => {
                self.phase = Phase::Reading;
                Action::Read
            },
            Event::Reported => self.show(),
        }
    }
}

/// The window of a conversion is filled as its phase has it.
pub open spec fn window_filled(state: ProcessView) -> bool {
    match state.phase {
        Phase::Filling => state.queue.len() < state.limit,
        Phase::Writing | Phase::Reading => state.queue.len() > 0,
        Phase::Reporting => true,
        Phase::Finished => state.queue.len() == 0,
    }
}

/// The conversion after the events, one after the other.
pub open spec fn run_through(state: ProcessView, events: Seq<Event>) -> ProcessView
    decreases events.len(),
{
    if events.len() == 0 {
        state
    } else {
        stepped(run_through(state, events.drop_last()), events.last()).0
    }
}

/// The conversion can take the events, one after the other.
pub open spec fn runs_through(state: ProcessView, events: Seq<Event>) -> bool
    decreases events.len(),
{
    events.len() > 0 ==> runs_through(state, events.drop_last()) && steppable(
        run_through(state, events.drop_last()),
        events.last(),
    )
}

/// The frames that were read, in their order.
pub open spec fn frames_read(events: Seq<Event>) -> Seq<Vec<u8>>
    decreases events.len(),
{
    if events.len() == 0 {
        Seq::empty()
    } else {
        match events.last() {
            Event::Frame(frame) => with_frame(frames_read(events.drop_last()), frame),
            Event::Written | Event::Reported => frames_read(events.drop_last()),
        }
    }
}

/// The video turned out to be at its end.
pub open spec fn video_ended(events: Seq<Event>) -> bool
    decreases events.len(),
{
    events.len() > 0 && (video_ended(events.drop_last()) || (events.last() matches Event::Frame(
        None,
    )))
}

/// How many pictures were written.
pub open spec fn pictures_written(events: Seq<Event>) -> int
    decreases events.len(),
{
    if events.len() == 0 {
        0
    } else {
        pictures_written(events.drop_last()) + if events.last() is Written {
            1int
        } else {
            0
        }
    }
}

/// At any time the window holds the frames that were read and are not done yet. It holds
/// as many as it should whenever a picture is made, unless the video is at its end. The
/// frames done are the pictures written, but for one that may have to be moved on from. So
/// a conversion that has come to its end has written a picture for each frame.
pub proof fn frames_accounted(state: ProcessView, events: Seq<Event>)
    requires
        state.queue.len() == 0,
        state.limit >= 1,
        state.frame == 0,
        state.phase == Phase::Filling,
        runs_through(state, events),
    ensures
        ({
            let now = run_through(state, events);
            let read = frames_read(events);
            &&& now.limit == state.limit
            &&& now.counts == state.counts
            &&& now.fps == state.fps
            &&& window_filled(now)
            &&& 0 <= now.frame <= read.len()
            &&& now.queue == read.skip(now.frame)
            &&& now.queue.len() <= now.limit
            &&& now.phase == Phase::Filling ==> !video_ended(events)
            &&& now.phase != Phase::Filling && !video_ended(events) ==> now.queue.len()
                == now.limit
            &&& now.frame + (if now.phase == Phase::Reading {
                1int
            } else {
                0
            }) == pictures_written(events)
            &&& now.phase == Phase::Finished ==> now.frame == read.len() && read.len()
                == pictures_written(events)
        }),
    decreases events.len(),
{
    if events.len() > 0 {
        let earlier = events.drop_last();
        frames_accounted(state, earlier);
        let before = run_through(state, earlier);
        let now = run_through(state, events);
        let had = frames_read(earlier);
        let read = frames_read(events);
        match events.last() {
            Event::Frame(frame) => {
                if before.phase == Phase::Reading {
                    assert(had.skip(before.frame).skip(1) =~= had.skip(before.frame + 1));
                }
                if frame is Some {
                    assert(had.push(frame->0).skip(now.frame) =~= had.skip(now.frame).push(
                        frame->0,
                    ));
                }
            },
            Event::Written | Event::Reported => {},
        }
    } else {
        assert(frames_read(events).skip(0) =~= Seq::<Vec<u8>>::empty());
    }
}

/// A conversion can take what it waits for: a frame of full size or the end of the video
/// while it reads, as long as the frame rate and the numbers of the circles stay within a
/// `usize`, the word that a picture was written after it, and that the number was reported
/// after that.
pub proof fn steps_in_turn(state: ProcessView, event: Event)
    requires
        state.counts.len() > 0,
        1 <= state.fps,
        state.fps * 10 <= usize::MAX,
        0 <= state.frame < usize::MAX,
        event matches Event::Frame(Some(frame)) ==> frame.len() == 921600,
        forall|k: int|
            0 <= k < state.counts.len() ==> (#[trigger] state.counts[k]) * (state.frame + 2)
                <= usize::MAX,
    ensures
        steppable(state, event) <==> match state.phase {
            Phase::Filling | Phase::Reading => event is Frame,
            Phase::Writing => event is Written,
            Phase::Reporting => event is Reported,
            Phase::Finished => false,
        },
{
    assert forall|k: int| 0 <= k < state.counts.len() implies numbers_fit(
        #[trigger] state.counts[k] as int,
        state.frame,
    ) && numbers_fit(state.counts[k] as int, state.frame + 1) by {
        let n = state.counts[k] as int;
        let f = state.frame;
        assert(n * (f + 2) == n * (f + 1) + n && n * (f + 1) == n * f + n) by (nonlinear_arith);
        assert(0 <= n * f) by (nonlinear_arith)
            requires
                0 <= n,
                0 <= f,
        ;
    }
}

/// How a conversion goes on. It fills its window before it makes the first picture. Each
/// picture that was written is followed by one more frame to read, which takes the place of
/// the oldest in the window and counts a frame as done; every ten seconds of video that
/// number is reported. There are pictures to make until the window runs empty, and nothing
/// but making a picture changes the canvases.
pub proof fn step_goes_on(state: ProcessView, event: Event)
    requires
        steppable(state, event),
    ensures
        ({
            let (next, action) = stepped(state, event);
            &&& next.counts == state.counts
            &&& next.fps == state.fps
            &&& next.limit == state.limit
            &&& next.canvases.len() == state.canvases.len()
            &&& !(action is Write) ==> next.canvases == state.canvases
            &&& next.frame == if state.phase == Phase::Reading {
                state.frame + 1
            } else {
                state.frame
            }
            &&& next.queue == match event {
                Event::Frame(Some(frame)) => if state.phase == Phase::Reading {
                    state.queue.skip(1).push(frame)
                } else {
                    state.queue.push(frame)
                },
                Event::Frame(None) => if state.phase == Phase::Reading {
                    state.queue.skip(1)
                } else {
                    state.queue
                },
                _ => state.queue,
            }
            &&& match event {
                Event::Frame(frame) => if state.phase == Phase::Filling && frame is Some
                    && next.queue.len() < state.limit {
                    action is Read && next.phase == Phase::Filling
                } else if state.phase == Phase::Reading && next.frame % (state.fps * 10) == 0 {
                    action == (ActionView::Report { frames: next.frame }) && next.phase
                        == Phase::Reporting
                } else if next.queue.len() == 0 {
                    action == (ActionView::Finish { frames: next.frame }) && next.phase
                        == Phase::Finished
                } else {
                    action is Write && next.phase == Phase::Writing
                },
                Event::Written => action is Read && next.phase == Phase::Reading,
                Event::Reported => if next.queue.len() == 0 {
                    action == (ActionView::Finish { frames: next.frame }) && next.phase
                        == Phase::Finished
                } else {
                    action is Write && next.phase == Phase::Writing
                },
            }
        }),
{
}

/// A conversion stops with the number of frames that it has done, and only when its window
/// has run empty.
pub proof fn finish_tells_frames(state: ProcessView, event: Event)
    requires
        steppable(state, event),
    ensures
        stepped(state, event).1 matches ActionView::Finish { frames } ==> {
            &&& stepped(state, event).0.phase == Phase::Finished
            &&& stepped(state, event).0.queue.len() == 0
            &&& frames == stepped(state, event).0.frame
        },
        stepped(state, event).0.phase == Phase::Finished ==> stepped(state, event).1 is Finish,
{
}

/// The picture of a single canvas is no exception: it is laid out like the others.
pub proof fn picture_is_tiled(canvases: Seq<Seq<u8>>)
    requires
        canvases_ready(canvases),
    ensures
        picture_of(canvases) == tiled(canvases),
{
    if canvases.len() == 1 {
        assert(canvases[0].len() == PIXELS);
        single_canvas(canvases);
    }
}

/// A conversion and what it asks for are seen as they are.
pub proof fn process_as_held(process: Process, picture: Vec<u8>, frames: usize)
    ensures
        process@.queue == process.frames.queue@,
        process@.limit == process.frames.limit,
        process@.canvases == pixels(process.canvases@),
        process@.counts == process.counts@,
        process@.fps == process.fps,
        process@.frame == process.frame,
        process@.phase == process.phase,
        (Action::Read)@ is Read,
        (Action::Write { picture })@ == (ActionView::Write { picture: picture@ }),
        (Action::Report { frames })@ == (ActionView::Report { frames: frames as int }),
        (Action::Finish { frames })@ == (ActionView::Finish { frames: frames as int }),
{
}

} // verus!
