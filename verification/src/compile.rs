//! The order of work on one video: which program to start and stop, and what the outcome
//! is.

use vstd::prelude::*;

use crate::options::{Args, ArgsView};
use crate::text::prefixed;

verus! {

/// How a program ended.
#[derive(Debug)]
pub struct Exit {
    pub success: bool,
    /// The status in words.
    pub text: String,
}

/// What an `Exit` holds.
pub struct ExitView {
    pub success: bool,
    pub text: Seq<char>,
}

impl View for Exit {
    type V = ExitView;

    open spec fn view(&self) -> ExitView {
        ExitView { success: self.success, text: self.text@ }
    }
}

/// What is to be done next.
#[derive(Debug)]
pub enum Step {
    /// Create the directory of the output.
    CreateDirectory,
    /// Start the program that decodes the input.
    StartDecoder,
    /// Start the program that encodes the output.
    StartEncoder,
    /// Convert the frames of the one for the other.
    Process,
    /// Kill the decoder, for the reason given.
    KillDecoder { message: String },
    /// Kill both programs, for the reason given.
    KillBoth { message: String },
    /// Wait for the decoder to end. The conversion came to `result`.
    WaitDecoder { result: Result<usize, String> },
    /// Wait for the encoder to end. The decoder ended as given.
    WaitEncoder { result: Result<usize, String>, decoder: Exit },
    /// Return the number of frames, or what went wrong.
    Finish { result: Result<usize, String> },
}

/// What a `Step` holds.
pub enum StepView {
    CreateDirectory,
    StartDecoder,
    StartEncoder,
    Process,
    KillDecoder { message: Seq<char> },
    KillBoth { message: Seq<char> },
    WaitDecoder { result: Result<usize, Seq<char>> },
    WaitEncoder { result: Result<usize, Seq<char>>, decoder: ExitView },
    Finish { result: Result<usize, Seq<char>> },
}

/// What a result holds.
pub open spec fn result_view(result: Result<usize, String>) -> Result<usize, Seq<char>> {
    match result {
        Ok(frames) => Ok(frames),
        Err(message) => Err(message@),
    }
}

impl View for Step {
    type V = StepView;

    open spec fn view(&self) -> StepView {
        match self {
            Step::CreateDirectory => StepView::CreateDirectory,
            Step::StartDecoder => StepView::StartDecoder,
            Step::StartEncoder => StepView::StartEncoder,
            Step::Process => StepView::Process,
            Step::KillDecoder { message } => StepView::KillDecoder { message: message@ },
            Step::KillBoth { message } => StepView::KillBoth { message: message@ },
            Step::WaitDecoder { result } => StepView::WaitDecoder { result: result_view(*result) },
            Step::WaitEncoder { result, decoder } => StepView::WaitEncoder {
                result: result_view(*result),
                decoder: decoder@,
            },
            Step::Finish { result } => StepView::Finish { result: result_view(*result) },
        }
    }
}

/// How a step came out.
#[derive(Debug)]
pub enum Outcome {
    /// It was done.
    Done,
    /// It failed, for the reason given.
    Failed(String),
    /// That many frames were converted.
    Processed(usize),
    /// The program that was waited for ended.
    Exited(Exit),
}

/// What an `Outcome` holds.
pub enum OutcomeView {
    Done,
    Failed(Seq<char>),
    Processed(usize),
    Exited(ExitView),
}

impl View for Outcome {
    type V = OutcomeView;

    open spec fn view(&self) -> OutcomeView {
        match self {
            Outcome::Done => OutcomeView::Done,
            Outcome::Failed(message) => OutcomeView::Failed(message@),
            Outcome::Processed(frames) => OutcomeView::Processed(*frames),
            Outcome::Exited(exit) => OutcomeView::Exited(exit@),
        }
    }
}

/// The step can come out like that.
pub open spec fn possible(step: StepView, outcome: OutcomeView) -> bool {
    match step {
        StepView::CreateDirectory | StepView::StartDecoder | StepView::StartEncoder => outcome is Done
            || outcome is Failed,
        StepView::Process => outcome is Processed || outcome is Failed,
        StepView::KillDecoder { message } => outcome is Done || outcome is Failed,
        StepView::KillBoth { message } => outcome is Done || outcome is Failed,
        StepView::WaitDecoder { result } => outcome is Exited || outcome is Failed,
        StepView::WaitEncoder { result, decoder } => outcome is Exited || outcome is Failed,
        StepView::Finish { result } => false,
    }
}

/// The end of the work, for the reason given.
pub open spec fn failure(message: Seq<char>) -> StepView {
    StepView::Finish { result: Err(message) }
}

/// What it all came to once both programs have ended: what went wrong in the conversion
/// comes before what the programs say.
pub open spec fn verdict(
    result: Result<usize, Seq<char>>,
    decoder: ExitView,
    encoder: ExitView,
) -> Result<usize, Seq<char>> {
    match result {
        Err(message) => Err(message),
        Ok(frames) => if !decoder.success {
            Err("ffmpeg decoder exited with "@ + decoder.text)
        } else if !encoder.success {
            Err("ffmpeg encoder exited with "@ + encoder.text)
        } else {
            Ok(frames)
        },
    }
}

/// What is to be done after a step that came out like that.
pub open spec fn following(step: StepView, outcome: OutcomeView) -> StepView {
    match step {
        StepView::CreateDirectory => match outcome {
            OutcomeView::Failed(message) => failure("create output directory: "@ + message),
            _ => StepView::StartDecoder,
        },
        StepView::StartDecoder => match outcome {
            OutcomeView::Failed(message) => failure("ffmpeg decoder: "@ + message),
            _ => StepView::StartEncoder,
        },
        StepView::StartEncoder => match outcome {
            OutcomeView::Failed(message) => StepView::KillDecoder {
                message: "ffmpeg encoder: "@ + message,
            },
            _ => StepView::Process,
        },
        StepView::Process => match outcome {
            OutcomeView::Failed(message) => StepView::KillBoth { message },
            OutcomeView::Processed(frames) => StepView::WaitDecoder { result: Ok(frames) },
            _ => step,
        },
        StepView::KillDecoder { message } => failure(message),
        StepView::KillBoth { message } => StepView::WaitDecoder { result: Err(message) },
        StepView::WaitDecoder { result } => match outcome {
            OutcomeView::Failed(message) => failure(message),
            OutcomeView::Exited(exit) => StepView::WaitEncoder { result, decoder: exit },
            _ => step,
        },
        StepView::WaitEncoder { result, decoder } => match outcome {
            OutcomeView::Failed(message) => failure(message),
            OutcomeView::Exited(exit) => StepView::Finish {
                result: verdict(result, decoder, exit),
            },
            _ => step,
        },
        StepView::Finish { result } => step,
    }
}

/// The first step: the directory of the output is created where the output names one.
pub fn first_step(has_directory: bool) -> (step: Step)
    ensures
        step@ == if has_directory {
            StepView::CreateDirectory
        } else {
            StepView::StartDecoder
        },
{
    if has_directory {
        Step::CreateDirectory
    } else {
        Step::StartDecoder
    }
}

/// What it all came to once both programs have ended.
pub fn conclude(result: Result<usize, String>, decoder: Exit, encoder: Exit) -> (r: Result<
    usize,
    String,
>)
    ensures
        result_view(r) == verdict(result_view(result), decoder@, encoder@),
{
    match result {
        Err(message) => Err(message),
        Ok(frames) => {
            if !decoder.success {
                Err(prefixed("ffmpeg decoder exited with ", decoder.text))
            } else if !encoder.success {
                Err(prefixed("ffmpeg encoder exited with ", encoder.text))
            } else {
                Ok(frames)
            }
        },
    }
}

/// Says what is to be done after a step that came out like that.
pub fn next_step(step: Step, outcome: Outcome) -> (next: Step)
    requires
        possible(step@, outcome@),
    ensures
        next@ == following(step@, outcome@),
{
    match step {
        Step::CreateDirectory => match outcome {
            Outcome::Failed(message) => Step::Finish {
                result: Err(prefixed("create output directory: ", message)),
            },
            _ => Step::StartDecoder,
        },
        Step::StartDecoder => match outcome {
            Outcome::Failed(message) => Step::Finish {
                result: Err(prefixed("ffmpeg decoder: ", message)),
            },
            _ => Step::StartEncoder,
        },
        Step::StartEncoder => match outcome {
            Outcome::Failed(message) => Step::KillDecoder {
                message: prefixed("ffmpeg encoder: ", message),
            },
            _ => Step::Process,
        },
        Step::Process => match outcome {
            Outcome::Failed(message) => Step::KillBoth { message },
            Outcome::Processed(frames) => Step::WaitDecoder { result: Ok(frames) },
            _ => Step::Process,
        },
        Step::KillDecoder { message } => Step::Finish { result: Err(message) },
        Step::KillBoth { message } => Step::WaitDecoder { result: Err(message) },
        Step::WaitDecoder { result } => match outcome {
            Outcome::Failed(message) => Step::Finish { result: Err(message) },
            Outcome::Exited(exit) => Step::WaitEncoder { result, decoder: exit },
            _ => Step::WaitDecoder { result },
        },
        Step::WaitEncoder { result, decoder } => match outcome {
            Outcome::Failed(message) => Step::Finish { result: Err(message) },
            Outcome::Exited(exit) => Step::Finish { result: conclude(result, decoder, exit) },
            _ => Step::WaitEncoder { result, decoder },
        },
        Step::Finish { result } => Step::Finish { result },
    }
}

/// How many steps there can still be.
pub open spec fn steps_left(step: StepView) -> int {
    match step {
        StepView::CreateDirectory => 7,
        StepView::StartDecoder => 6,
        StepView::StartEncoder => 5,
        StepView::Process => 4,
        StepView::KillBoth { message } => 3,
        StepView::WaitDecoder { result } => 2,
        StepView::WaitEncoder { result, decoder } => 1,
        StepView::KillDecoder { message } => 1,
        StepView::Finish { result } => 0,
    }
}

/// Every step brings the end closer, however it comes out.
pub proof fn work_ends(step: StepView, outcome: OutcomeView)
    requires
        possible(step, outcome),
    ensures
        0 <= steps_left(following(step, outcome)) < steps_left(step),
{
}

/// The step after the outcomes, one after the other.
pub open spec fn work_through(step: StepView, outcomes: Seq<OutcomeView>) -> StepView
    decreases outcomes.len(),
{
    if outcomes.len() == 0 {
        step
    } else {
        following(work_through(step, outcomes.drop_last()), outcomes.last())
    }
}

/// The outcomes are possible ones, one after the other.
pub open spec fn works_through(step: StepView, outcomes: Seq<OutcomeView>) -> bool
    decreases outcomes.len(),
{
    outcomes.len() > 0 ==> works_through(step, outcomes.drop_last()) && possible(
        work_through(step, outcomes.drop_last()),
        outcomes.last(),
    )
}

/// Nothing that came out was a failure: no step failed, and no program ended without
/// success.
pub open spec fn all_well(outcomes: Seq<OutcomeView>) -> bool {
    forall|k: int|
        0 <= k < outcomes.len() ==> {
            &&& !(#[trigger] outcomes[k] is Failed)
            &&& outcomes[k] matches OutcomeView::Exited(exit) ==> exit.success
        }
}

/// A step that is only reached if all went well, but for the exit of the decoder, which it
/// knows.
pub open spec fn untroubled(step: StepView) -> bool {
    match step {
        StepView::CreateDirectory
        | StepView::StartDecoder
        | StepView::StartEncoder
        | StepView::Process => true,
        StepView::WaitDecoder { result } => result is Ok,
        StepView::WaitEncoder { result, decoder } => result is Ok && decoder.success,
        StepView::Finish { result } => result is Ok,
        _ => false,
    }
}

/// The work succeeds only if every step of it does: where it ends with a number of frames,
/// nothing has failed, and that many frames were converted.
pub proof fn success_means_all_well(has_directory: bool, outcomes: Seq<OutcomeView>)
    requires
        works_through(
            if has_directory {
                StepView::CreateDirectory
            } else {
                StepView::StartDecoder
            },
            outcomes,
        ),
    ensures
        ({
            let start = if has_directory {
                StepView::CreateDirectory
            } else {
                StepView::StartDecoder
            };
            let last = work_through(start, outcomes);
            &&& untroubled(last) <==> all_well(outcomes)
            &&& last matches StepView::WaitDecoder { result: Ok(frames) } ==> outcomes.contains(
                OutcomeView::Processed(frames),
            )
            &&& last matches StepView::WaitEncoder { result: Ok(frames), decoder }
                ==> outcomes.contains(OutcomeView::Processed(frames))
            &&& last matches StepView::Finish { result: Ok(frames) } ==> outcomes.contains(
                OutcomeView::Processed(frames),
            )
        }),
    decreases outcomes.len(),
{
    if outcomes.len() > 0 {
        let shorter = outcomes.drop_last();
        success_means_all_well(has_directory, shorter);
        let n = outcomes.len() - 1;
        assert(outcomes[n] == outcomes.last());
        assert forall|outcome: OutcomeView| shorter.contains(outcome) implies outcomes.contains(
            outcome,
        ) by {
            let k = choose|k: int| 0 <= k < shorter.len() && shorter[k] == outcome;
            assert(outcomes[k] == outcome);
        }
        let last = outcomes.last();
        let fine = !(last is Failed) && (last matches OutcomeView::Exited(exit) ==> exit.success);
        if all_well(outcomes) {
            assert forall|k: int| 0 <= k < shorter.len() implies {
                &&& !(#[trigger] shorter[k] is Failed)
                &&& shorter[k] matches OutcomeView::Exited(exit) ==> exit.success
            } by {
                assert(shorter[k] == outcomes[k]);
            }
        }
        if all_well(shorter) && fine {
            assert forall|k: int| 0 <= k < outcomes.len() implies {
                &&& !(#[trigger] outcomes[k] is Failed)
                &&& outcomes[k] matches OutcomeView::Exited(exit) ==> exit.success
            } by {
                if k < n {
                    assert(shorter[k] == outcomes[k]);
                }
            }
        }
        assert(all_well(outcomes) == (all_well(shorter) && fine));
    }
}

/// The counts of the pictures to convert: the grid, or else the one count.
pub open spec fn counts_for(args: ArgsView) -> Seq<usize> {
    match args.grid {
        Some(counts) => counts,
        None => seq![args.count],
    }
}

/// The counts of the pictures to convert.
pub fn picture_counts(args: &Args) -> (counts: Vec<usize>)
    ensures
        counts@ == counts_for(args@),
        args.grid is None ==> counts@ == seq![args.count],
        args.grid matches Some(grid) ==> counts@ == grid@,
{
    match &args.grid {
        Some(grid) => vstd::slice::slice_to_vec(grid.as_slice()),
        None => vec![args.count],
    }
}

/// What the user is told in the end.
#[derive(Debug)]
pub enum Conclusion {
    /// Nothing.
    Quiet,
    /// That the conversion is complete.
    Notice,
    /// What went wrong, also in a window of its own.
    Alert(String),
    /// What went wrong, and how the program is used. The program ends with an error.
    Usage(String),
}

/// What a `Conclusion` holds.
pub enum ConclusionView {
    Quiet,
    Notice,
    Alert(Seq<char>),
    Usage(Seq<char>),
}

impl View for Conclusion {
    type V = ConclusionView;

    open spec fn view(&self) -> ConclusionView {
        match self {
            Conclusion::Quiet => ConclusionView::Quiet,
            Conclusion::Notice => ConclusionView::Notice,
            Conclusion::Alert(message) => ConclusionView::Alert(message@),
            Conclusion::Usage(message) => ConclusionView::Usage(message@),
        }
    }
}

/// Says what the user is told: a user who was asked gets a window, unless they cancelled.
pub fn conclusion(interactive: bool, result: Result<(), String>) -> (r: Conclusion)
    ensures
        r@ == match result {
            Ok(()) => if interactive {
                ConclusionView::Notice
            } else {
                ConclusionView::Quiet
            },
            Err(message) => if !interactive {
                ConclusionView::Usage(message@)
            } else if message@ == "cancelled"@ {
                ConclusionView::Quiet
            } else {
                ConclusionView::Alert(message@)
            },
        },
{
    match result {
        Ok(()) => {
            if interactive {
                Conclusion::Notice
            } else {
                Conclusion::Quiet
            }
        },
        Err(message) => {
            if !interactive {
                Conclusion::Usage(message)
            } else if message == "cancelled".to_string() {
                Conclusion::Quiet
            } else {
                Conclusion::Alert(message)
            }
        },
    }
}

/// What comes after each step. The programs are started one after the other and waited for
/// in the same order. What cannot be started ends the work, and where it is the encoder
/// the decoder is killed first. A conversion that fails has both programs killed, and both
/// are waited for all the same.
pub proof fn work_goes_on(message: Seq<char>, why: Seq<char>, frames: usize, exit: ExitView, result: Result<
    usize,
    Seq<char>,
>)
    ensures
        following(StepView::CreateDirectory, OutcomeView::Done) is StartDecoder,
        following(StepView::StartDecoder, OutcomeView::Done) is StartEncoder,
        following(StepView::StartEncoder, OutcomeView::Done) is Process,
        following(StepView::Process, OutcomeView::Processed(frames)) == (StepView::WaitDecoder {
            result: Ok(frames),
        }),
        following(StepView::WaitDecoder { result }, OutcomeView::Exited(exit)) == (
        StepView::WaitEncoder { result, decoder: exit }),
        following(StepView::CreateDirectory, OutcomeView::Failed(message)) == (StepView::Finish {
            result: Err("create output directory: "@ + message),
        }),
        following(StepView::StartDecoder, OutcomeView::Failed(message)) == (StepView::Finish {
            result: Err("ffmpeg decoder: "@ + message),
        }),
        following(StepView::StartEncoder, OutcomeView::Failed(message)) == (
        StepView::KillDecoder { message: "ffmpeg encoder: "@ + message }),
        following(StepView::KillDecoder { message }, OutcomeView::Done) == (StepView::Finish {
            result: Err(message),
        }),
        following(StepView::KillDecoder { message }, OutcomeView::Failed(why)) == (
        StepView::Finish { result: Err(message) }),
        following(StepView::Process, OutcomeView::Failed(message)) == (StepView::KillBoth {
            message,
        }),
        following(StepView::KillBoth { message }, OutcomeView::Done) == (StepView::WaitDecoder {
            result: Err(message),
        }),
        following(StepView::KillBoth { message }, OutcomeView::Failed(why)) == (
        StepView::WaitDecoder { result: Err(message) }),
        following(StepView::WaitDecoder { result }, OutcomeView::Failed(message)) == (
        StepView::Finish { result: Err(message) }),
        following(
            StepView::WaitEncoder { result, decoder: exit },
            OutcomeView::Failed(message),
        ) == (StepView::Finish { result: Err(message) }),
{
}

/// What the work comes to: the failure of the conversion, else that of the decoder, else
/// that of the encoder, else the number of frames converted.
pub proof fn verdict_in_order(
    result: Result<usize, Seq<char>>,
    decoder: ExitView,
    encoder: ExitView,
)
    ensures
        ({
            let last = following(
                StepView::WaitEncoder { result, decoder },
                OutcomeView::Exited(encoder),
            );
            &&& result is Err ==> last == (StepView::Finish { result })
            &&& result is Ok && !decoder.success ==> last == (StepView::Finish {
                result: Err("ffmpeg decoder exited with "@ + decoder.text),
            })
            &&& result is Ok && decoder.success && !encoder.success ==> last == (
            StepView::Finish { result: Err("ffmpeg encoder exited with "@ + encoder.text) })
            &&& result is Ok && decoder.success && encoder.success ==> last == (
            StepView::Finish { result })
            &&& last == (StepView::Finish { result: verdict(result, decoder, encoder) })
        }),
{
}

/// Messages, exits and results are seen as they are in every step and outcome.
pub proof fn steps_as_held(
    message: String,
    exit: Exit,
    frames: usize,
    result: Result<usize, String>,
)
    ensures
        exit@.success == exit.success,
        exit@.text == exit.text@,
        Outcome::Done@ is Done,
        Outcome::Failed(message)@ == OutcomeView::Failed(message@),
        Outcome::Processed(frames)@ == OutcomeView::Processed(frames),
        Outcome::Exited(exit)@ == OutcomeView::Exited(exit@),
        result matches Ok(n) ==> result_view(result) == Ok::<usize, Seq<char>>(n),
        result matches Err(m) ==> result_view(result) == Err::<usize, Seq<char>>(m@),
        (Step::CreateDirectory)@ is CreateDirectory,
        (Step::StartDecoder)@ is StartDecoder,
        (Step::StartEncoder)@ is StartEncoder,
        (Step::Process)@ is Process,
        (Step::KillDecoder { message })@ == (StepView::KillDecoder { message: message@ }),
        (Step::KillBoth { message })@ == (StepView::KillBoth { message: message@ }),
        (Step::WaitDecoder { result })@ == (StepView::WaitDecoder { result: result_view(result) }),
        (Step::WaitEncoder { result, decoder: exit })@ == (StepView::WaitEncoder {
            result: result_view(result),
            decoder: exit@,
        }),
        (Step::Finish { result })@ == (StepView::Finish { result: result_view(result) }),
        Conclusion::Alert(message)@ == ConclusionView::Alert(message@),
        Conclusion::Usage(message)@ == ConclusionView::Usage(message@),
        (Conclusion::Quiet)@ is Quiet,
        (Conclusion::Notice)@ is Notice,
{
}

} // verus!
