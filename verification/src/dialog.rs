//! The answers of the dialog that asks when the command line is empty.

use vstd::prelude::*;
use vstd::utf8::{decode_utf8, valid_utf8};

use crate::options::{
    Args,
    ArgsView,
    DEFAULT_COUNT,
    Location,
    LocationView,
    Mode,
    counts_of,
    counts_positive,
    counts_round_trip,
    joined,
    parse_counts,
};
use crate::output::{jobs_of, output, output_name};
use crate::text::{
    chars_of,
    decimal,
    decimal_digits,
    ended_lines,
    is_digit,
    lines,
    lines_of,
    lines_round_trip,
    number_of,
    number_of_decimal,
    one_line,
    prefixed,
    read_number,
};

verus! {

/// What the standard library says of bytes that are not UTF-8.
pub uninterp spec fn utf8_error_text(bytes: Seq<u8>) -> Seq<char>;

/// Calls `String::from_utf8` of the standard library. It is documented to accept the bytes
/// if and only if they are UTF-8, and to keep them as they are. The error that it returns
/// otherwise is turned into its text, which depends on the bytes alone and is not
/// documented further, so it has a name of its own.
#[verifier::external_body]
fn decode(bytes: Vec<u8>) -> (text: Result<String, String>)
    ensures
        text is Ok <==> valid_utf8(bytes@),
        text matches Ok(text) ==> text@ == decode_utf8(bytes@),
        text matches Err(message) ==> message@ == utf8_error_text(bytes@),
{
    match String::from_utf8(bytes) {
        Ok(text) => Ok(text),
        Err(error) => Err(error.to_string()),
    }
}

/// What the dialog offers under a name: a mode, or both of them.
pub open spec fn dialog_mode(name: Seq<char>) -> Option<Option<Mode>> {
    if name == "circle"@ {
        Some(Some(Mode::Circle))
    } else if name == "circle-future"@ {
        Some(Some(Mode::Future))
    } else if name == "all"@ {
        Some(None)
    } else {
        None
    }
}

/// Circles per picture out of a list: a list of one is a count and not a grid.
pub open spec fn dialog_count(counts: Seq<usize>) -> usize {
    if counts.len() == 1 {
        counts[0]
    } else {
        DEFAULT_COUNT
    }
}

/// The grid out of a list of counts, where the list is longer than one.
pub open spec fn dialog_grid(counts: Seq<usize>) -> Option<Seq<usize>> {
    if counts.len() == 1 {
        None
    } else {
        Some(counts)
    }
}

/// Where to write: nowhere in particular if both modes are asked for, else to the path on
/// the fifth line, or under the default name where that is missing or empty.
pub open spec fn dialog_output(
    lines: Seq<Seq<char>>,
    mode: Option<Mode>,
    fps: usize,
    counts: Seq<usize>,
) -> Option<LocationView> {
    match mode {
        None => None,
        Some(mode) => if lines.len() >= 5 && lines[4].len() > 0 {
            Some(LocationView::Text(lines[4]))
        } else {
            Some(
                LocationView::Text(
                    output_name(mode, fps, dialog_count(counts), dialog_grid(counts)),
                ),
            )
        },
    }
}

/// What the lines that the dialog printed ask for, or what is wrong with them: the input,
/// the type, the frame rate, the counts and the output, a line each.
pub open spec fn answered(text: Seq<char>) -> Result<ArgsView, Seq<char>> {
    let lines = lines_of(text);
    if lines.len() < 1 {
        Err("missing input"@)
    } else if lines.len() < 2 {
        Err("missing type"@)
    } else if dialog_mode(lines[1]) is None {
        Err("invalid type"@)
    } else if lines.len() < 3 {
        Err("missing fps"@)
    } else if number_of(lines[2]) is None {
        Err("invalid fps"@)
    } else if lines.len() < 4 {
        Err("missing counts"@)
    } else if counts_of(lines[3]) is None {
        Err("counts must be positive integers"@)
    } else {
        let mode = dialog_mode(lines[1])->0;
        let fps = number_of(lines[2])->0;
        let counts = counts_of(lines[3])->0;
        Ok(
            ArgsView {
                input: LocationView::Text(lines[0]),
                output: dialog_output(lines, mode, fps, counts),
                mode,
                fps,
                count: dialog_count(counts),
                grid: dialog_grid(counts),
                all: mode is None,
            },
        )
    }
}

/// Reads the answers out of what the dialog printed.
pub fn read_answers(text: &str) -> (args: Result<Args, String>)
    ensures
        match args {
            Ok(args) => answered(text@) == Ok::<ArgsView, Seq<char>>(args@),
            Err(message) => answered(text@) == Err::<ArgsView, Seq<char>>(message@),
        },
{
    let chars: Vec<char> = chars_of(text);
    let ranges: Vec<(usize, usize)> = lines(&chars);
    let ghost all_lines = lines_of(text@);
    if ranges.len() < 1 {
        return Err("missing input".to_string());
    }
    let input: String = text.substring_char(ranges[0].0, ranges[0].1).to_string();
    assert(input@ == all_lines[0]);
    if ranges.len() < 2 {
        return Err("missing type".to_string());
    }
    let name: String = text.substring_char(ranges[1].0, ranges[1].1).to_string();
    assert(name@ == all_lines[1]);
    let mode: Option<Mode> = if name == "circle".to_string() {
        Some(Mode::Circle)
    } else if name == "circle-future".to_string() {
        Some(Mode::Future)
    } else if name == "all".to_string() {
        None
    } else {
        return Err("invalid type".to_string());
    };
    if ranges.len() < 3 {
        return Err("missing fps".to_string());
    }
    let (from, to): (usize, usize) = ranges[2];
    let number: Option<usize> = read_number(&chars, from, to);
    assert(number == number_of(all_lines[2]));
    let fps: usize = match number {
        Some(fps) => fps,
        None => {
            return Err("invalid fps".to_string());
        },
    };
    if ranges.len() < 4 {
        return Err("missing counts".to_string());
    }
    let list: &str = text.substring_char(ranges[3].0, ranges[3].1);
    assert(list@ == all_lines[3]);
    let counts: Vec<usize> = match parse_counts(list) {
        Ok(counts) => counts,
        Err(message) => {
            return Err(message);
        },
    };
    let ghost listed = counts@;
    proof {
        counts_positive(list@);
    }
    let single: bool = counts.len() == 1;
    let count: usize = if single {
        counts[0]
    } else {
        DEFAULT_COUNT
    };
    let location: Option<Location> = match mode {
        None => None,
        Some(mode) => {
            let path: String = if ranges.len() >= 5 {
                let path: String = text.substring_char(ranges[4].0, ranges[4].1).to_string();
                assert(path@ == all_lines[4]);
                path
            } else {
                String::new()
            };
            if path.as_str().is_empty() {
                let name: String = if single {
                    output(mode, fps, count, None)
                } else {
                    output(mode, fps, count, Some(counts.as_slice()))
                };
                Some(Location::Text(name))
            } else {
                Some(Location::Text(path))
            }
        },
    };
    let grid: Option<Vec<usize>> = if single {
        None
    } else {
        Some(counts)
    };
    let all: bool = mode.is_none();
    let args: Args = Args {
        input: Location::Text(input),
        output: location,
        mode,
        fps,
        count,
        grid,
        all,
    };
    assert(args@.grid == dialog_grid(listed));
    assert(args@.output == dialog_output(all_lines, mode, fps, listed));
    Ok(args)
}

/// What came of showing the dialog.
#[derive(Debug)]
pub struct Shown {
    /// Whether the user confirmed it.
    pub confirmed: bool,
    /// What it printed.
    pub printed: Vec<u8>,
}

/// What the dialog asks for, or why it asks for nothing. An error is one that kept it from
/// being shown.
pub open spec fn asked(dialog: Result<Shown, String>) -> Result<ArgsView, Seq<char>> {
    match dialog {
        Err(error) => Err("GUI: "@ + error@),
        Ok(shown) => if !shown.confirmed {
            Err("cancelled"@)
        } else if !valid_utf8(shown.printed@) {
            Err(utf8_error_text(shown.printed@))
        } else {
            answered(decode_utf8(shown.printed@))
        },
    }
}

/// Reads the outcome of the dialog.
pub fn interactive_args(dialog: Result<Shown, String>) -> (args: Result<Args, String>)
    ensures
        match args {
            Ok(args) => asked(dialog) == Ok::<ArgsView, Seq<char>>(args@),
            Err(message) => asked(dialog) == Err::<ArgsView, Seq<char>>(message@),
        },
{
    let shown: Shown = match dialog {
        Ok(shown) => shown,
        Err(error) => {
            return Err(prefixed("GUI: ", error));
        },
    };
    if !shown.confirmed {
        return Err("cancelled".to_string());
    }
    match decode(shown.printed) {
        Ok(text) => read_answers(text.as_str()),
        Err(message) => Err(message),
    }
}

/// The icon of a message.
pub open spec fn icon(error: bool) -> Seq<char> {
    if error {
        "Error"@
    } else {
        "Information"@
    }
}

/// The script that shows a message, which it finds in its environment.
pub fn message_script(error: bool) -> (script: String)
    ensures
        script@
            == "Add-Type -AssemblyName System.Windows.Forms; [void][Windows.Forms.MessageBox]::Show($env:BAD_APPLE_MESSAGE, 'Bad Apple converter', 'OK', '"@
            + icon(error) + "')"@,
        icon(true) == "Error"@,
        icon(false) == "Information"@,
{
    let mut script: String =
        "Add-Type -AssemblyName System.Windows.Forms; [void][Windows.Forms.MessageBox]::Show($env:BAD_APPLE_MESSAGE, 'Bad Apple converter', 'OK', '".to_string();
    if error {
        script.append("Error");
    } else {
        script.append("Information");
    }
    script.append("')");
    script
}

/// How the dialog spells a mode, or both of them.
pub open spec fn mode_spelled(mode: Option<Mode>) -> Seq<char> {
    match mode {
        Some(Mode::Circle) => "circle"@,
        Some(Mode::Future) => "circle-future"@,
        None => "all"@,
    }
}

proof fn spelled_mode_read(mode: Option<Mode>)
    ensures
        dialog_mode(mode_spelled(mode)) == Some(mode),
        one_line(mode_spelled(mode)),
{
    reveal_strlit("circle");
    reveal_strlit("circle-future");
    reveal_strlit("all");
    assert("circle"@.len() == 6);
    assert("circle-future"@.len() == 13);
    assert("all"@.len() == 3);
}

proof fn joined_one_line(counts: Seq<usize>)
    ensures
        one_line(joined(counts)),
    decreases counts.len(),
{
    if counts.len() > 0 {
        joined_one_line(counts.drop_last());
        decimal_one_line(counts[0]);
        decimal_one_line(counts.last());
    }
}

proof fn decimal_one_line(n: usize)
    ensures
        one_line(decimal(n as int)),
{
    decimal_digits(n as int);
    let text = decimal(n as int);
    assert forall|i: int| 0 <= i < text.len() implies #[trigger] text[i] != '\n' by {
        assert(is_digit(text[i]));
    }
}

/// What the dialog prints, a line each, is what is read back: the input, the type, the
/// frame rate, the counts and the path of the output.
pub proof fn answers_read_back(
    input: Seq<char>,
    mode: Option<Mode>,
    fps: usize,
    counts: Seq<usize>,
    path: Seq<char>,
)
    requires
        one_line(input),
        one_line(path),
        counts.len() > 0,
        forall|k: int| 0 <= k < counts.len() ==> #[trigger] counts[k] > 0,
    ensures
        answered(
            ended_lines(
                seq![input, mode_spelled(mode), decimal(fps as int), joined(counts), path],
            ),
        ) == Ok::<ArgsView, Seq<char>>(
            ArgsView {
                input: LocationView::Text(input),
                output: match mode {
                    Some(mode) => Some(
                        LocationView::Text(
                            if path.len() > 0 {
                                path
                            } else {
                                output_name(mode, fps, dialog_count(counts), dialog_grid(counts))
                            },
                        ),
                    ),
                    None => None,
                },
                mode,
                fps,
                count: dialog_count(counts),
                grid: dialog_grid(counts),
                all: mode is None,
            },
        ),
{
    let lines = seq![input, mode_spelled(mode), decimal(fps as int), joined(counts), path];
    spelled_mode_read(mode);
    decimal_one_line(fps);
    joined_one_line(counts);
    lines_round_trip(lines);
    number_of_decimal(fps);
    counts_round_trip(counts);
}

/// Answers that are accepted can be run, and ask for at least one circle per picture.
pub proof fn answered_runs(text: Seq<char>)
    ensures
        answered(text) matches Ok(args) ==> {
            &&& jobs_of(args) is Ok
            &&& args.count > 0
            &&& args.grid matches Some(counts) ==> counts.len() > 0 && forall|k: int|
                0 <= k < counts.len() ==> #[trigger] counts[k] > 0
        },
{
    let lines = lines_of(text);
    if lines.len() >= 4 {
        counts_positive(lines[3]);
    }
}

/// What is wrong with answers that are not accepted: the first line that is missing or
/// cannot be read. Everything else is accepted.
pub proof fn answers_refused(text: Seq<char>)
    ensures
        ({
            let lines = lines_of(text);
            let outcome = answered(text);
            let known = lines[1] == "circle"@ || lines[1] == "circle-future"@ || lines[1]
                == "all"@;
            if lines.len() == 0 {
                outcome == Err::<ArgsView, Seq<char>>("missing input"@)
            } else if lines.len() == 1 {
                outcome == Err::<ArgsView, Seq<char>>("missing type"@)
            } else if !known {
                outcome == Err::<ArgsView, Seq<char>>("invalid type"@)
            } else if lines.len() == 2 {
                outcome == Err::<ArgsView, Seq<char>>("missing fps"@)
            } else if number_of(lines[2]) is None {
                outcome == Err::<ArgsView, Seq<char>>("invalid fps"@)
            } else if lines.len() == 3 {
                outcome == Err::<ArgsView, Seq<char>>("missing counts"@)
            } else if counts_of(lines[3]) is None {
                outcome == Err::<ArgsView, Seq<char>>("counts must be positive integers"@)
            } else {
                outcome is Ok
            }
        }),
{
}

/// What accepted answers ask for: the input, the type, the frame rate and the counts just
/// as they stand there, a list of one being a count and a longer one a grid, and the output
/// on the fifth line unless both videos are asked for.
pub proof fn answers_ask(text: Seq<char>)
    ensures
        answered(text) matches Ok(args) ==> {
            let lines = lines_of(text);
            let counts = counts_of(lines[3])->0;
            &&& args.input == LocationView::Text(lines[0])
            &&& args.all == (lines[1] == "all"@)
            &&& lines[1] == "circle"@ ==> args.mode == Some(Mode::Circle)
            &&& lines[1] == "circle-future"@ ==> args.mode == Some(Mode::Future)
            &&& lines[1] == "all"@ ==> args.mode is None && args.output is None
            &&& number_of(lines[2]) == Some(args.fps)
            &&& counts.len() == 1 ==> args.count == counts[0] && args.grid is None
            &&& counts.len() != 1 ==> args.count == 1 && args.grid == Some(counts)
            &&& lines[1] != "all"@ && lines.len() > 4 && lines[4].len() > 0 ==> args.output
                == Some(LocationView::Text(lines[4]))
            &&& lines[1] != "all"@ && (lines.len() == 4 || lines[4].len() == 0) ==> args.output
                == Some(
                LocationView::Text(
                    output_name(args.mode->0, args.fps, args.count, args.grid),
                ),
            )
        },
{
    reveal_strlit("circle");
    reveal_strlit("circle-future");
    reveal_strlit("all");
    assert("circle"@.len() == 6);
    assert("circle-future"@.len() == 13);
    assert("all"@.len() == 3);
}

/// A dialog that could not be shown, was cancelled or printed no text asks for nothing and
/// says why; any other asks for what it printed.
pub proof fn dialog_outcomes(dialog: Result<Shown, String>)
    ensures
        dialog matches Err(error) ==> asked(dialog) == Err::<ArgsView, Seq<char>>(
            "GUI: "@ + error@,
        ),
        dialog matches Ok(shown) ==> {
            &&& !shown.confirmed ==> asked(dialog) == Err::<ArgsView, Seq<char>>("cancelled"@)
            &&& shown.confirmed && !valid_utf8(shown.printed@) ==> asked(dialog) == Err::<
                ArgsView,
                Seq<char>,
            >(utf8_error_text(shown.printed@))
            &&& shown.confirmed && valid_utf8(shown.printed@) ==> asked(dialog) == answered(
                decode_utf8(shown.printed@),
            )
        },
{
}

} // verus!
