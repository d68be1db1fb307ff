use bad_apple::compile::{
    conclude, conclusion, first_step, next_step, picture_counts, Conclusion, Exit, Outcome, Step,
};
use bad_apple::ffmpeg::{decoder_arguments, encoder_arguments, Argument};
use bad_apple::frames::Frames;
use bad_apple::geometry::{PIXELS, WIDTH};
use bad_apple::options::{Args, Location, Mode};
use bad_apple::paint::paint;
use bad_apple::prefix::{Prefix, TABLE};
use bad_apple::process::{Action, Event, Phase, Process};
use bad_apple::tile::tile;

fn disc(cx: i32, cy: i32, radius: i32) -> Vec<u8> {
    (0..PIXELS)
        .map(|i| {
            let dx = (i % WIDTH) as i32 - cx;
            let dy = (i / WIDTH) as i32 - cy;
            if dx * dx + dy * dy <= radius * radius { 255 } else { 0 }
        })
        .collect()
}

fn video(n: usize) -> Vec<Vec<u8>> {
    (0..n).map(|k| disc(200 + 40 * k as i32, 300, 90)).collect()
}

fn convert(mode: Mode, fps: usize, counts: &[usize], video: &[Vec<u8>]) -> (Vec<Vec<u8>>, Vec<usize>, usize) {
    let mut frames = video.iter().cloned();
    let mut pictures = Vec::new();
    let mut reports = Vec::new();
    let mut process = Process::new(mode, fps, counts);
    let mut action = Action::Read;
    loop {
        let event = match action {
            Action::Read => Event::Frame(frames.next()),
            Action::Write { picture } => {
                pictures.push(picture);
                Event::Written
            }
            Action::Report { frames } => {
                assert_eq!(frames, pictures.len());
                reports.push(frames);
                Event::Reported
            }
            Action::Finish { frames } => {
                assert_eq!(process.phase, Phase::Finished);
                return (pictures, reports, frames);
            }
        };
        assert!(process.can_step(&event));
        action = process.step(event);
    }
}

fn plain(limit: usize, counts: &[usize], video: &[Vec<u8>]) -> Vec<Vec<u8>> {
    let mut canvases = vec![vec![0u8; PIXELS]; counts.len()];
    let mut prefix = Prefix { black: vec![0; TABLE], white: vec![0; TABLE] };
    let mut pictures = Vec::new();
    for k in 0..video.len() {
        let mut frames = Frames::new(limit);
        for frame in &video[k..(k + limit).min(video.len())] {
            frames.push(frame.clone());
        }
        for (canvas, shapes) in canvases.iter_mut().zip(counts) {
            paint(canvas, &frames, &mut prefix, *shapes, k);
        }
        pictures.push(if canvases.len() == 1 { canvases[0].clone() } else { tile(&canvases) });
    }
    pictures
}

#[test]
fn convert_single() {
    let video = video(4);
    let (pictures, reports, frames) = convert(Mode::Circle, 30, &[2], &video);
    assert_eq!(frames, 4);
    assert!(reports.is_empty());
    assert_eq!(pictures, plain(1, &[2], &video));
}

#[test]
fn convert_future() {
    let video = video(33);
    let (pictures, reports, frames) = convert(Mode::Future, 1, &[1], &video);
    assert_eq!(frames, 33);
    assert_eq!(reports, vec![10, 20, 30]);
    assert_eq!(pictures, plain(30, &[1], &video));
}

#[test]
fn convert_grid() {
    let video = video(3);
    let (pictures, _, frames) = convert(Mode::Circle, 30, &[1, 3], &video);
    assert_eq!(frames, 3);
    assert_eq!(pictures, plain(1, &[1, 3], &video));
}

#[test]
fn convert_nothing() {
    let (pictures, reports, frames) = convert(Mode::Future, 30, &[1], &[]);
    assert!(pictures.is_empty());
    assert!(reports.is_empty());
    assert_eq!(frames, 0);
}

#[test]
fn convert_reports_at_the_end() {
    let (pictures, reports, frames) = convert(Mode::Circle, 1, &[1], &video(10));
    assert_eq!(pictures.len(), 10);
    assert_eq!(frames, 10);
    assert_eq!(reports, vec![10]);
}

#[test]
fn steps_out_of_turn() {
    let mut process = Process::new(Mode::Circle, 30, &[1]);
    assert_eq!(process.phase, Phase::Filling);
    assert!(!process.can_step(&Event::Written));
    assert!(!process.can_step(&Event::Frame(Some(vec![0; PIXELS - 1]))));
    let frame = Event::Frame(Some(disc(100, 100, 50)));
    assert!(process.can_step(&frame));
    assert!(matches!(process.step(frame), Action::Write { .. }));
    assert_eq!(process.phase, Phase::Writing);
    assert!(!process.can_step(&Event::Frame(None)));
    assert!(process.can_step(&Event::Written));
    assert!(matches!(process.step(Event::Written), Action::Read));
    assert_eq!(process.phase, Phase::Reading);
    assert!(!process.can_step(&Event::Written));
    assert!(!process.can_step(&Event::Reported));
    assert!(process.can_step(&Event::Frame(None)));
    assert!(matches!(
        process.step(Event::Frame(None)),
        Action::Finish { frames: 1 }
    ));
    assert!(!process.can_step(&Event::Frame(None)));
    assert!(!process.can_step(&Event::Written));
}

#[test]
fn steps_that_cannot_be_counted() {
    for fps in [0, usize::MAX, usize::MAX / 10 + 1] {
        let mut process = Process::new(Mode::Circle, fps, &[1]);
        process.step(Event::Frame(Some(disc(100, 100, 50))));
        process.step(Event::Written);
        assert!(!process.can_step(&Event::Frame(None)));
    }
    let process = Process::new(Mode::Circle, 30, &[]);
    assert!(process.can_step(&Event::Frame(None)));
    assert!(!process.can_step(&Event::Frame(Some(disc(1, 1, 1)))));
    let mut process = Process::new(Mode::Circle, 30, &[usize::MAX]);
    assert!(process.can_step(&Event::Frame(None)));
    process.frame = 1;
    assert!(!process.can_step(&Event::Frame(Some(disc(1, 1, 1)))));
}

fn texts(list: &[Argument]) -> Vec<String> {
    list.iter()
        .map(|argument| match argument {
            Argument::Text(text) => text.clone(),
            Argument::Input => "<input>".to_string(),
            Argument::Output => "<output>".to_string(),
        })
        .collect()
}

#[test]
fn decoder_line() {
    assert_eq!(
        texts(&decoder_arguments(24)),
        vec![
            "-v",
            "error",
            "-i",
            "<input>",
            "-vf",
            "fps=24,scale=1280:720:force_original_aspect_ratio=decrease,pad=1280:720:(ow-iw)/2:(oh-ih)/2,format=gray",
            "-f",
            "rawvideo",
            "-pix_fmt",
            "gray",
            "-",
        ]
    );
}

#[test]
fn encoder_line() {
    assert_eq!(
        texts(&encoder_arguments(60)).join(" "),
        "-v error -f rawvideo -pix_fmt gray -s:v 1280x720 -r 60 -i - -i <input> -map 0:v:0 -map 1:a? \
         -c:v h264_nvenc -preset p5 -cq 20 -pix_fmt yuv420p -r 60 -c:a copy -shortest -y <output>"
    );
}

fn well() -> Exit {
    Exit { success: true, text: "exit code: 0".to_string() }
}

fn badly() -> Exit {
    Exit { success: false, text: "exit code: 1".to_string() }
}

fn failed(message: &str) -> Outcome {
    Outcome::Failed(message.to_string())
}

fn work(has_directory: bool, outcomes: Vec<Outcome>) -> Step {
    outcomes.into_iter().fold(first_step(has_directory), next_step)
}

fn result(step: Step) -> Result<usize, String> {
    match step {
        Step::Finish { result } => result,
        step => panic!("{step:?}"),
    }
}

#[test]
fn work_that_goes_well() {
    assert!(matches!(first_step(true), Step::CreateDirectory));
    assert!(matches!(first_step(false), Step::StartDecoder));
    assert!(matches!(work(true, vec![Outcome::Done]), Step::StartDecoder));
    assert!(matches!(work(false, vec![Outcome::Done]), Step::StartEncoder));
    assert!(matches!(work(false, vec![Outcome::Done, Outcome::Done]), Step::Process));
    let outcomes = || vec![Outcome::Done, Outcome::Done, Outcome::Processed(42)];
    assert!(matches!(work(false, outcomes()), Step::WaitDecoder { result: Ok(42) }));
    let mut outcomes = outcomes();
    outcomes.push(Outcome::Exited(well()));
    outcomes.push(Outcome::Exited(well()));
    assert_eq!(result(work(false, outcomes)), Ok(42));
}

#[test]
fn work_that_fails_early() {
    assert_eq!(
        result(work(true, vec![failed("denied")])),
        Err("create output directory: denied".to_string())
    );
    assert_eq!(
        result(work(false, vec![failed("not found")])),
        Err("ffmpeg decoder: not found".to_string())
    );
    let killed = work(false, vec![Outcome::Done, failed("not found")]);
    assert!(matches!(&killed, Step::KillDecoder { message } if message == "ffmpeg encoder: not found"));
    assert_eq!(
        result(next_step(killed, failed("gone"))),
        Err("ffmpeg encoder: not found".to_string())
    );
}

#[test]
fn work_that_fails_late() {
    let start = || vec![Outcome::Done, Outcome::Done, failed("broken pipe")];
    assert!(matches!(work(false, start()), Step::KillBoth { message } if message == "broken pipe"));
    let mut outcomes = start();
    outcomes.extend([Outcome::Done, Outcome::Exited(badly()), Outcome::Exited(badly())]);
    assert_eq!(result(work(false, outcomes)), Err("broken pipe".to_string()));
    let mut outcomes = start();
    outcomes.extend([Outcome::Done, failed("no child")]);
    assert_eq!(result(work(false, outcomes)), Err("no child".to_string()));
    let outcomes = vec![
        Outcome::Done,
        Outcome::Done,
        Outcome::Processed(3),
        Outcome::Exited(well()),
        failed("no child"),
    ];
    assert_eq!(result(work(false, outcomes)), Err("no child".to_string()));
}

#[test]
fn verdicts() {
    assert_eq!(conclude(Ok(5), well(), well()), Ok(5));
    assert_eq!(
        conclude(Ok(5), badly(), badly()),
        Err("ffmpeg decoder exited with exit code: 1".to_string())
    );
    assert_eq!(
        conclude(Ok(5), well(), badly()),
        Err("ffmpeg encoder exited with exit code: 1".to_string())
    );
    assert_eq!(conclude(Err("lost".to_string()), badly(), well()), Err("lost".to_string()));
}

#[test]
fn counts_of_pictures() {
    let mut args = Args {
        input: Location::Argument(0),
        output: None,
        mode: None,
        fps: 30,
        count: 9,
        grid: None,
        all: true,
    };
    assert_eq!(picture_counts(&args), vec![9]);
    args.grid = Some(vec![4, 5]);
    assert_eq!(picture_counts(&args), vec![4, 5]);
}

#[test]
fn conclusions() {
    let error = |text: &str| Err(text.to_string());
    assert!(matches!(conclusion(true, Ok(())), Conclusion::Notice));
    assert!(matches!(conclusion(false, Ok(())), Conclusion::Quiet));
    assert!(matches!(conclusion(true, error("cancelled")), Conclusion::Quiet));
    assert!(matches!(conclusion(true, error("lost")), Conclusion::Alert(m) if m == "lost"));
    assert!(matches!(conclusion(false, error("cancelled")), Conclusion::Usage(m) if m == "cancelled"));
    assert!(matches!(conclusion(false, error("lost")), Conclusion::Usage(m) if m == "lost"));
}
