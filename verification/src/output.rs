//! What a conversion writes, and where.

use vstd::prelude::*;

use crate::options::{
    Arg,
    Args,
    ArgsView,
    DEFAULT_COUNT,
    DEFAULT_FPS,
    Location,
    LocationView,
    Mode,
    given,
    given_complete,
};
use crate::text::{append_number, decimal};

verus! {

/// Each number in decimal, with a dash before it.
pub open spec fn dashed(counts: Seq<usize>) -> Seq<char>
    decreases counts.len(),
{
    if counts.len() == 0 {
        Seq::empty()
    } else {
        dashed(counts.drop_last()) + "-"@ + decimal(counts.last() as int)
    }
}

/// The part of a file name that tells the frame rate, where it is not the usual one.
pub open spec fn fps_part(fps: usize) -> Seq<char> {
    if fps != DEFAULT_FPS {
        "-"@ + decimal(fps as int)
    } else {
        Seq::empty()
    }
}

/// The part of a file name that tells the circles per picture, where they are not the
/// usual ones.
pub open spec fn count_part(count: usize, grid: Option<Seq<usize>>) -> Seq<char> {
    match grid {
        Some(counts) => "-grid"@ + dashed(counts),
        None => if count != DEFAULT_COUNT {
            "-"@ + decimal(count as int)
        } else {
            Seq::empty()
        },
    }
}

/// The part of a file name that tells the mode, where it is not the usual one.
pub open spec fn mode_part(mode: Mode) -> Seq<char> {
    match mode {
        Mode::Circle => Seq::empty(),
        Mode::Future => "-future"@,
    }
}

/// The file name for a conversion that was given none.
pub open spec fn output_name(
    mode: Mode,
    fps: usize,
    count: usize,
    grid: Option<Seq<usize>>,
) -> Seq<char> {
    "Bad Apple"@ + mode_part(mode) + fps_part(fps) + count_part(count, grid) + ".mp4"@
}

/// What an optional list holds.
pub open spec fn slice_view(list: Option<&[usize]>) -> Option<Seq<usize>> {
    match list {
        Some(list) => Some(list@),
        None => None,
    }
}

/// Names the file for a conversion that was given no name.
pub fn output(mode: Mode, fps: usize, count: usize, grid: Option<&[usize]>) -> (name: String)
    ensures
        name@ == output_name(mode, fps, count, slice_view(grid)),
{
    let mut name: String = "Bad Apple".to_string();
    match mode {
        Mode::Circle => {},
        Mode::Future => name.append("-future"),
    }
    assert(name@ =~= "Bad Apple"@ + mode_part(mode));
    if fps != DEFAULT_FPS {
        name.append("-");
        append_number(&mut name, fps);
    }
    assert(name@ =~= "Bad Apple"@ + mode_part(mode) + fps_part(fps));
    let ghost start = name@;
    match grid {
        Some(counts) => {
            name.append("-grid");
            let mut k: usize = 0;
            assert(counts@.take(0) =~= Seq::<usize>::empty());
            assert(name@ =~= start + ("-grid"@ + dashed(counts@.take(0))));
            while k < counts.len()
                invariant
                    k <= counts.len(),
                    name@ == start + ("-grid"@ + dashed(counts@.take(k as int))),
                decreases counts.len() - k,
            {
                assert(counts@.take(k + 1).drop_last() =~= counts@.take(k as int));
                name.append("-");
                append_number(&mut name, counts[k]);
                assert(name@ =~= start + ("-grid"@ + dashed(counts@.take(k + 1))));
                k = k + 1;
            }
            assert(counts@.take(k as int) =~= counts@);
        },
        None => {
            if count != DEFAULT_COUNT {
                name.append("-");
                append_number(&mut name, count);
            }
            assert(name@ =~= start + count_part(count, None));
        },
    }
    name.append(".mp4");
    name
}

/// The two modes never write to the same name.
pub proof fn modes_named_apart(fps: usize, count: usize, grid: Option<Seq<usize>>)
    ensures
        output_name(Mode::Circle, fps, count, grid) != output_name(
            Mode::Future,
            fps,
            count,
            grid,
        ),
{
    reveal_strlit("-future");
    assert(output_name(Mode::Circle, fps, count, grid).len() != output_name(
        Mode::Future,
        fps,
        count,
        grid,
    ).len());
}

/// One video to write.
#[derive(Debug)]
pub struct Job {
    pub output: Location,
    pub mode: Mode,
}

/// What a `Job` holds.
pub struct JobView {
    pub output: LocationView,
    pub mode: Mode,
}

impl View for Job {
    type V = JobView;

    open spec fn view(&self) -> JobView {
        JobView { output: self.output@, mode: self.mode }
    }
}

/// What the jobs hold, in their order.
pub open spec fn jobs_view(jobs: Seq<Job>) -> Seq<JobView> {
    jobs.map_values(|job: Job| job@)
}

/// The job in that mode under the name that it is given by default.
pub open spec fn named_job(args: ArgsView, mode: Mode) -> JobView {
    JobView {
        output: LocationView::Text(output_name(mode, args.fps, args.count, args.grid)),
        mode,
    }
}

/// The videos to write: one in either mode where everything is asked for, else the one
/// that is asked for, or what is missing to tell which.
pub open spec fn jobs_of(args: ArgsView) -> Result<Seq<JobView>, Seq<char>> {
    if args.all {
        Ok(seq![named_job(args, Mode::Circle), named_job(args, Mode::Future)])
    } else {
        match args.output {
            None => Err("missing -o"@),
            Some(output) => match args.mode {
                None => Err("missing --type"@),
                Some(mode) => Ok(seq![JobView { output, mode }]),
            },
        }
    }
}

/// The job in that mode under the name that it is given by default.
fn job_named(args: &Args, mode: Mode) -> (job: Job)
    ensures
        job@ == named_job(args@, mode),
{
    let name: String = match &args.grid {
        Some(counts) => output(mode, args.fps, args.count, Some(counts.as_slice())),
        None => output(mode, args.fps, args.count, None),
    };
    Job { output: Location::Text(name), mode }
}

/// Plans the videos to write, in the order in which they are to be written.
pub fn run(args: &Args) -> (jobs: Result<Vec<Job>, String>)
    ensures
        match jobs {
            Ok(jobs) => jobs_of(args@) == Ok::<Seq<JobView>, Seq<char>>(jobs_view(jobs@)),
            Err(message) => jobs_of(args@) == Err::<Seq<JobView>, Seq<char>>(message@),
        },
{
    let mut jobs: Vec<Job> = Vec::new();
    if args.all {
        jobs.push(job_named(args, Mode::Circle));
        jobs.push(job_named(args, Mode::Future));
        assert(jobs_view(jobs@) =~= seq![
            named_job(args@, Mode::Circle),
            named_job(args@, Mode::Future),
        ]);
        return Ok(jobs);
    }
    match &args.output {
        None => Err("missing -o".to_string()),
        Some(output) => match args.mode {
            None => Err("missing --type".to_string()),
            Some(mode) => {
                jobs.push(Job { output: output.copied(), mode });
                assert(jobs_view(jobs@) =~= seq![JobView { output: output@, mode }]);
                Ok(jobs)
            },
        },
    }
}

/// What is to be done about the videos next.
#[derive(Debug)]
pub enum NextJob {
    /// Write the video at that place of the plan.
    Start(usize),
    /// Stop, with what the run came to.
    Finish(Result<(), String>),
}

/// What a `NextJob` holds.
pub enum NextJobView {
    Start(int),
    Finish(Result<(), Seq<char>>),
}

/// What the result of a video holds.
pub open spec fn job_result(result: Result<(), String>) -> Result<(), Seq<char>> {
    match result {
        Ok(()) => Ok(()),
        Err(message) => Err(message@),
    }
}

impl View for NextJob {
    type V = NextJobView;

    open spec fn view(&self) -> NextJobView {
        match self {
            NextJob::Start(at) => NextJobView::Start(*at as int),
            NextJob::Finish(result) => NextJobView::Finish(job_result(*result)),
        }
    }
}

/// What to do when the videos before place `at` of a plan of `n` are written: the next one,
/// if there is one left.
pub open spec fn job_at(n: int, at: int) -> NextJobView {
    if at < n {
        NextJobView::Start(at)
    } else {
        NextJobView::Finish(Ok(()))
    }
}

/// What to do once the video at place `done` came out like that: a failure ends the run.
pub open spec fn job_following(n: int, done: int, result: Result<(), Seq<char>>) -> NextJobView {
    match result {
        Err(message) => NextJobView::Finish(Err(message)),
        Ok(()) => job_at(n, done + 1),
    }
}

/// Says what to do first.
pub fn first_job(jobs: &Vec<Job>) -> (next: NextJob)
    ensures
        next@ == job_at(jobs@.len() as int, 0),
{
    if jobs.len() > 0 {
        NextJob::Start(0)
    } else {
        NextJob::Finish(Ok(()))
    }
}

/// Says what to do once the video at place `done` came out like that.
pub fn after_job(jobs: &Vec<Job>, done: usize, result: Result<(), String>) -> (next: NextJob)
    requires
        done < jobs@.len(),
    ensures
        next@ == job_following(jobs@.len() as int, done as int, job_result(result)),
{
    match result {
        Err(message) => NextJob::Finish(Err(message)),
        Ok(()) => {
            if done < jobs.len() - 1 {
                NextJob::Start(done + 1)
            } else {
                NextJob::Finish(Ok(()))
            }
        },
    }
}

/// What to do after the videos of a plan of `n` came out like that, one after the other.
/// Once the run has ended no video is written any more.
pub open spec fn jobs_done(n: int, results: Seq<Result<(), Seq<char>>>) -> NextJobView
    decreases results.len(),
{
    if results.len() == 0 {
        job_at(n, 0)
    } else {
        match jobs_done(n, results.drop_last()) {
            NextJobView::Start(at) => job_following(n, at, results.last()),
            NextJobView::Finish(result) => NextJobView::Finish(result),
        }
    }
}

/// A video is started only after all those before it have been written. The result of a
/// run is its first failure, or success once all of its videos have been written.
pub proof fn jobs_in_order(n: int, results: Seq<Result<(), Seq<char>>>)
    requires
        0 <= n,
    ensures
        match jobs_done(n, results) {
            NextJobView::Start(at) => {
                &&& at == results.len() < n
                &&& forall|k: int| 0 <= k < results.len() ==> #[trigger] results[k] is Ok
            },
            NextJobView::Finish(Ok(())) => {
                &&& n <= results.len()
                &&& forall|k: int| 0 <= k < n ==> #[trigger] results[k] is Ok
            },
            NextJobView::Finish(Err(message)) => exists|k: int|
                0 <= k < n && k < results.len() && #[trigger] results[k] == Err::<(), Seq<char>>(
                    message,
                ) && forall|j: int| 0 <= j < k ==> #[trigger] results[j] is Ok,
        },
    decreases results.len(),
{
    if results.len() > 0 {
        let shorter = results.drop_last();
        jobs_in_order(n, shorter);
        let last = results.len() - 1;
        assert(forall|k: int| 0 <= k < last ==> #[trigger] results[k] == shorter[k]);
        assert(results[last] == results.last());
        if let NextJobView::Finish(Err(message)) = jobs_done(n, shorter) {
            let k = choose|k: int|
                0 <= k < n && k < shorter.len() && #[trigger] shorter[k] == Err::<(), Seq<char>>(
                    message,
                ) && forall|j: int| 0 <= j < k ==> #[trigger] shorter[j] is Ok;
            assert(results[k] == shorter[k]);
        }
    }
}

/// Where everything is asked for, the video that looks at single frames is written first.
/// The one that looks ahead follows only if that succeeds, and the result is the first
/// failure, or success. Neither the output nor the mode that was asked for matters.
pub proof fn both_written_in_order(
    args: ArgsView,
    first: Result<(), Seq<char>>,
    second: Result<(), Seq<char>>,
)
    requires
        args.all,
    ensures
        jobs_of(args) == Ok::<Seq<JobView>, Seq<char>>(
            seq![named_job(args, Mode::Circle), named_job(args, Mode::Future)],
        ),
        jobs_done(2, seq![]) == NextJobView::Start(0),
        jobs_done(2, seq![first]) == match first {
            Ok(()) => NextJobView::Start(1),
            Err(message) => NextJobView::Finish(Err(message)),
        },
        first is Ok ==> jobs_done(2, seq![first, second]) == match second {
            Ok(()) => NextJobView::Finish(Ok(())),
            Err(message) => NextJobView::Finish(Err(message)),
        },
{
    let none = Seq::<Result<(), Seq<char>>>::empty();
    assert(seq![first].drop_last() =~= none);
    assert(seq![first, second].drop_last() =~= seq![first]);
    assert(jobs_done(2, none) == NextJobView::Start(0));
    assert(jobs_done(2, seq![first]) == job_following(2, 0, first));
    if first is Ok {
        assert(jobs_done(2, seq![first, second]) == job_following(2, 1, second));
    }
}

/// A command line that is accepted can be run.
pub proof fn given_runs(values: Seq<Arg>)
    requires
        values.len() <= usize::MAX,
    ensures
        given(values) matches Ok(args) ==> jobs_of(args) is Ok && (jobs_of(args)->Ok_0).len() == (
        if args.all {
            2int
        } else {
            1
        }),
{
    given_complete(values);
}

/// A list of numbers is written one after the other, a dash before each.
pub proof fn dashed_one_by_one(counts: Seq<usize>, n: usize)
    ensures
        dashed(Seq::empty()) == Seq::<char>::empty(),
        dashed(counts.push(n)) == dashed(counts) + "-"@ + decimal(n as int),
{
    assert(counts.push(n).drop_last() =~= counts);
}

/// What a file name tells, and how: whatever is unusual, in the order mode, frame rate and
/// circles. Thirty frames per second and one circle are usual; a grid is always told.
pub proof fn name_tells(mode: Mode, fps: usize, count: usize, counts: Seq<usize>)
    ensures
        ({
            let start = match mode {
                Mode::Circle => "Bad Apple"@,
                Mode::Future => "Bad Apple"@ + "-future"@,
            };
            let rated = if fps == 30 {
                start
            } else {
                start + ("-"@ + decimal(fps as int))
            };
            &&& output_name(mode, fps, count, Some(counts)) == rated + ("-grid"@ + dashed(counts))
                + ".mp4"@
            &&& count == 1 ==> output_name(mode, fps, count, None) == rated + ".mp4"@
            &&& count != 1 ==> output_name(mode, fps, count, None) == rated + ("-"@ + decimal(
                count as int,
            )) + ".mp4"@
        }),
{
    let none = Seq::<char>::empty();
    let start = match mode {
        Mode::Circle => "Bad Apple"@,
        Mode::Future => "Bad Apple"@ + "-future"@,
    };
    assert("Bad Apple"@ + mode_part(mode) =~= start);
    let rated = start + fps_part(fps);
    if fps == 30 {
        assert(rated =~= start);
    }
    assert(rated + none =~= rated);
}

/// Which videos are planned: both under their default names where everything is asked for,
/// whatever else is said, and else the one that is asked for where it was asked to be
/// written.
pub proof fn jobs_planned(args: ArgsView)
    ensures
        args.all ==> (jobs_of(args) matches Ok(jobs) && {
            &&& jobs.len() == 2
            &&& jobs[0].mode == Mode::Circle
            &&& jobs[1].mode == Mode::Future
            &&& jobs[0].output == LocationView::Text(
                output_name(Mode::Circle, args.fps, args.count, args.grid),
            )
            &&& jobs[1].output == LocationView::Text(
                output_name(Mode::Future, args.fps, args.count, args.grid),
            )
        }),
        !args.all && args.output is Some && args.mode is Some ==> (jobs_of(args) matches Ok(jobs)
            && {
            &&& jobs.len() == 1
            &&& args.mode == Some(jobs[0].mode)
            &&& args.output == Some(jobs[0].output)
        }),
        !args.all && args.output is None ==> jobs_of(args) == Err::<Seq<JobView>, Seq<char>>(
            "missing -o"@,
        ),
        !args.all && args.output is Some && args.mode is None ==> jobs_of(args) == Err::<
            Seq<JobView>,
            Seq<char>,
        >("missing --type"@),
{
}

/// Videos to write, and what to do about them, are seen as they are.
pub proof fn jobs_as_held(jobs: Seq<Job>, k: int, next: NextJob)
    ensures
        jobs_view(jobs).len() == jobs.len(),
        0 <= k < jobs.len() ==> jobs_view(jobs)[k].output == jobs[k].output@,
        0 <= k < jobs.len() ==> jobs_view(jobs)[k].mode == jobs[k].mode,
        next matches NextJob::Start(at) ==> next@ == NextJobView::Start(at as int),
        next matches NextJob::Finish(Ok(())) ==> next@ == NextJobView::Finish(Ok(())),
        next matches NextJob::Finish(Err(message)) ==> next@ == NextJobView::Finish(
            Err(message@),
        ),
{
}

/// An optional list is seen as it is.
pub proof fn slice_as_held(list: &[usize])
    ensures
        slice_view(Some(list)) == Some(list@),
        slice_view(None) is None,
{
}

} // verus!
