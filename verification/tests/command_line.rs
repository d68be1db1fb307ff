use bad_apple::options::{args, parse_counts, set_option, Arg, Args, Draft, Location, Mode};
use bad_apple::output::{after_job, first_job, output, run, NextJob};

fn line(values: &[&str]) -> Vec<Arg> {
    values
        .iter()
        .map(|value| Arg { text: value.to_string(), unicode: true })
        .collect()
}

fn accepted(values: &[&str]) -> Args {
    args(&line(values)).unwrap().unwrap()
}

fn refused(values: &[&str]) -> String {
    args(&line(values)).unwrap_err()
}

#[test]
fn counts() {
    assert_eq!(parse_counts("1"), Ok(vec![1]));
    assert_eq!(parse_counts("1,20,300"), Ok(vec![1, 20, 300]));
    assert_eq!(parse_counts(" 1 ,\t2\n, +3 "), Ok(vec![1, 2, 3]));
    assert_eq!(parse_counts("007"), Ok(vec![7]));
    assert_eq!(
        parse_counts("18446744073709551615"),
        Ok(vec![18446744073709551615])
    );
}

#[test]
fn counts_refused() {
    for text in [
        "", " ", ",", "1,", ",1", "1,,2", "0", "1,0", "-1", "1.5", "1 2", "a", "+", "++1", "+ 1", "1+",
        "18446744073709551616", "99999999999999999999999", "\u{661}", "0x10", "1_000",
    ] {
        assert_eq!(
            parse_counts(text),
            Err("counts must be positive integers".to_string()),
            "{text:?}"
        );
    }
}

#[test]
fn counts_agree_with_the_standard_library() {
    for code in 0..=0x10ffffu32 {
        let Some(c) = char::from_u32(code) else {
            continue;
        };
        let text = format!("{c}7{c}");
        assert_eq!(
            parse_counts(&text).is_ok(),
            c.is_whitespace() || text.split(',').all(|n| n.trim().parse::<usize>().is_ok()),
            "{code:x}"
        );
    }
}

#[test]
fn counts_read_back() {
    for list in [vec![1], vec![10, 2], vec![999, 1000, 1001, usize::MAX]] {
        let text = list.iter().map(|n: &usize| n.to_string()).collect::<Vec<_>>().join(",");
        assert_eq!(parse_counts(&text), Ok(list));
    }
}

#[test]
fn empty_line_asks() {
    assert!(args(&Vec::new()).unwrap().is_none());
}

#[test]
fn full_line() {
    let a = accepted(&[
        "-i", "in.mp4", "-o", "out.mp4", "--type", "circle-future", "--fps", "24", "--count", "7", "--grid",
        "1, 2,3",
    ]);
    assert!(matches!(a.input, Location::Argument(1)));
    assert!(matches!(a.output, Some(Location::Argument(3))));
    assert_eq!(a.mode, Some(Mode::Future));
    assert_eq!(a.fps, 24);
    assert_eq!(a.count, 7);
    assert_eq!(a.grid, Some(vec![1, 2, 3]));
    assert!(!a.all);
}

#[test]
fn defaults() {
    let a = accepted(&["--type", "circle", "-o", "b", "-i", "a"]);
    assert!(matches!(a.input, Location::Argument(5)));
    assert!(matches!(a.output, Some(Location::Argument(3))));
    assert_eq!(a.mode, Some(Mode::Circle));
    assert_eq!(a.fps, 30);
    assert_eq!(a.count, 1);
    assert_eq!(a.grid, None);
}

#[test]
fn all_needs_only_an_input() {
    let a = accepted(&["--all", "-i", "a"]);
    assert!(a.all);
    assert!(a.output.is_none());
    assert!(a.mode.is_none());
    assert_eq!(refused(&["--all"]), "missing -i");
    assert_eq!(refused(&["--all", "--all"]), "missing -i");
}

#[test]
fn last_option_counts() {
    let a = accepted(&["-i", "a", "-i", "--all", "-o", "c", "--type", "circle", "--fps", "5", "--fps", "6"]);
    assert!(matches!(a.input, Location::Argument(3)));
    assert!(!a.all);
    assert_eq!(a.fps, 6);
}

#[test]
fn line_refused() {
    assert_eq!(refused(&["-i"]), "missing value after -i");
    assert_eq!(refused(&["--fps"]), "missing value after --fps");
    assert_eq!(refused(&["--what"]), "missing value after --what");
    assert_eq!(refused(&["--what", "x"]), "unknown option --what");
    assert_eq!(refused(&["--type", "square"]), "type must be circle or circle-future");
    assert_eq!(refused(&["--fps", "0"]), "fps must be a positive integer");
    assert_eq!(refused(&["--fps", " 5"]), "fps must be a positive integer");
    assert_eq!(refused(&["--fps", "x"]), "fps must be a positive integer");
    assert_eq!(refused(&["--count", "0"]), "count must be a positive integer");
    assert_eq!(refused(&["--count", "-2"]), "count must be a positive integer");
    assert_eq!(refused(&["--grid", "1,0"]), "counts must be positive integers");
    assert_eq!(refused(&["-i", "a", "--type", "circle"]), "missing -o");
    assert_eq!(refused(&["-i", "a", "-o", "b"]), "missing --type");
    assert_eq!(refused(&["-o", "b", "--type", "circle"]), "missing -i");
    assert_eq!(refused(&["-i", "a", "--count", "1", "-o"]), "missing value after -o");
}

#[test]
fn arguments_that_are_not_unicode() {
    let odd = || Arg { text: "circle\u{fffd}".to_string(), unicode: false };
    let with = |flag: &str| args(&vec![Arg { text: flag.to_string(), unicode: true }, odd()]).unwrap_err();
    assert_eq!(with("--type"), "type must be circle or circle-future");
    assert_eq!(with("--fps"), "fps must be a positive integer");
    assert_eq!(with("--count"), "count must be a positive integer");
    assert_eq!(with("--grid"), "grid must contain positive integers");
    assert_eq!(with("-i"), "missing -o");
    assert_eq!(args(&vec![odd()]).unwrap_err(), "missing value after circle\u{fffd}");
    assert_eq!(args(&vec![odd(), odd()]).unwrap_err(), "unknown option circle\u{fffd}");
    let hidden = Arg { text: "--all".to_string(), unicode: false };
    assert_eq!(args(&vec![hidden]).unwrap_err(), "missing value after --all");
}

#[test]
fn refused_option_changes_nothing() {
    let mut draft = Draft {
        input: Some(4),
        output: None,
        mode: Some(Mode::Future),
        fps: 12,
        count: 3,
        grid: Some(vec![9]),
        all: true,
    };
    let flag = Arg { text: "--fps".to_string(), unicode: true };
    let value = Arg { text: "none".to_string(), unicode: true };
    assert!(set_option(&mut draft, &flag, &value, 8).is_err());
    assert_eq!(draft.input, Some(4));
    assert_eq!(draft.output, None);
    assert_eq!(draft.mode, Some(Mode::Future));
    assert_eq!(draft.fps, 12);
    assert_eq!(draft.count, 3);
    assert_eq!(draft.grid, Some(vec![9]));
    assert!(draft.all);
    let value = Arg { text: "60".to_string(), unicode: true };
    assert!(set_option(&mut draft, &flag, &value, 8).is_ok());
    assert_eq!(draft.fps, 60);
}

#[test]
fn output_names() {
    assert_eq!(output(Mode::Circle, 30, 1, None), "Bad Apple.mp4");
    assert_eq!(output(Mode::Future, 30, 1, None), "Bad Apple-future.mp4");
    assert_eq!(output(Mode::Circle, 24, 1, None), "Bad Apple-24.mp4");
    assert_eq!(output(Mode::Circle, 30, 50, None), "Bad Apple-50.mp4");
    assert_eq!(output(Mode::Future, 60, 100, None), "Bad Apple-future-60-100.mp4");
    assert_eq!(output(Mode::Circle, 30, 9, Some(&[1, 20, 300])), "Bad Apple-grid-1-20-300.mp4");
    assert_eq!(output(Mode::Future, 1, 1, Some(&[])), "Bad Apple-future-1-grid.mp4");
    assert_eq!(output(Mode::Circle, 0, usize::MAX, None), format!("Bad Apple-0-{}.mp4", usize::MAX));
}

#[test]
fn one_job() {
    let jobs = run(&accepted(&["-i", "a", "-o", "b", "--type", "circle-future"])).unwrap();
    assert_eq!(jobs.len(), 1);
    assert!(matches!(jobs[0].output, Location::Argument(3)));
    assert_eq!(jobs[0].mode, Mode::Future);
}

#[test]
fn both_jobs() {
    let jobs = run(&accepted(&["-i", "a", "--all", "--fps", "25", "--grid", "4,5", "-o", "x"])).unwrap();
    assert_eq!(jobs.len(), 2);
    assert_eq!(jobs[0].mode, Mode::Circle);
    assert_eq!(jobs[1].mode, Mode::Future);
    assert!(matches!(&jobs[0].output, Location::Text(name) if name == "Bad Apple-25-grid-4-5.mp4"));
    assert!(matches!(&jobs[1].output, Location::Text(name) if name == "Bad Apple-future-25-grid-4-5.mp4"));
}

#[test]
fn nothing_to_run() {
    let mut a = accepted(&["-i", "a", "-o", "b", "--type", "circle"]);
    a.mode = None;
    assert_eq!(run(&a).unwrap_err(), "missing --type");
    a.output = None;
    assert_eq!(run(&a).unwrap_err(), "missing -o");
}

#[test]
fn jobs_one_after_the_other() {
    let jobs = run(&accepted(&["-i", "a", "--all"])).unwrap();
    assert!(matches!(first_job(&jobs), NextJob::Start(0)));
    assert!(matches!(after_job(&jobs, 0, Ok(())), NextJob::Start(1)));
    assert!(matches!(after_job(&jobs, 1, Ok(())), NextJob::Finish(Ok(()))));
    let lost = || Err("lost".to_string());
    assert!(matches!(after_job(&jobs, 0, lost()), NextJob::Finish(Err(m)) if m == "lost"));
    assert!(matches!(after_job(&jobs, 1, lost()), NextJob::Finish(Err(m)) if m == "lost"));
}

#[test]
fn jobs_of_a_single_video() {
    let jobs = run(&accepted(&["-i", "a", "-o", "b", "--type", "circle"])).unwrap();
    assert!(matches!(first_job(&jobs), NextJob::Start(0)));
    assert!(matches!(after_job(&jobs, 0, Ok(())), NextJob::Finish(Ok(()))));
    assert!(matches!(after_job(&jobs, 0, Err("x".to_string())), NextJob::Finish(Err(m)) if m == "x"));
    assert!(matches!(first_job(&Vec::new()), NextJob::Finish(Ok(()))));
}
