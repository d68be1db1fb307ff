//! The command line.

use vstd::prelude::*;

use crate::text::{
    all_digits,
    chars_of,
    decimal,
    decimal_digits,
    is_digit,
    number_of,
    number_of_decimal,
    pieces,
    pieces_extended,
    pieces_not_empty,
    read_number,
    split,
    trim,
    trimmed,
};

verus! {

/// Frames per second, where the command line does not say.
pub const DEFAULT_FPS: usize = 30;

/// Circles per frame, where the command line does not say.
pub const DEFAULT_COUNT: usize = 1;

/// What a frame is matched against: itself, or itself and the frames that follow.
#[derive(Clone, Copy, Debug, PartialEq, Eq, Structural)]
pub enum Mode {
    Circle,
    Future,
}

/// A command line argument.
#[derive(Debug)]
pub struct Arg {
    /// The argument, with whatever is not Unicode replaced.
    pub text: String,
    /// Whether all of the argument is Unicode.
    pub unicode: bool,
}

impl Arg {
    /// The argument's text, if all of it is Unicode.
    pub open spec fn known(self) -> Option<Seq<char>> {
        if self.unicode {
            Some(self.text@)
        } else {
            None
        }
    }

    /// Whether the argument is that text.
    pub fn is(&self, text: &str) -> (r: bool)
        ensures
            r == (self.known() == Some(text@)),
    {
        self.unicode && self.text == text.to_string()
    }
}

/// A path: the command line argument at that place, taken as it is, or a text.
#[derive(Debug)]
pub enum Location {
    Argument(usize),
    Text(String),
}

/// What a location holds.
pub enum LocationView {
    Argument(int),
    Text(Seq<char>),
}

impl View for Location {
    type V = LocationView;

    open spec fn view(&self) -> LocationView {
        match self {
            Location::Argument(at) => LocationView::Argument(*at as int),
            Location::Text(text) => LocationView::Text(text@),
        }
    }
}

impl Location {
    /// The same location once more.
    pub fn copied(&self) -> (r: Location)
        ensures
            r@ == self@,
    {
        match self {
            Location::Argument(at) => Location::Argument(*at),
            Location::Text(text) => Location::Text(text.clone()),
        }
    }
}

/// What to convert, and how.
#[derive(Debug)]
pub struct Args {
    pub input: Location,
    pub output: Option<Location>,
    pub mode: Option<Mode>,
    pub fps: usize,
    pub count: usize,
    pub grid: Option<Vec<usize>>,
    pub all: bool,
}

/// What `Args` hold.
pub struct ArgsView {
    pub input: LocationView,
    pub output: Option<LocationView>,
    pub mode: Option<Mode>,
    pub fps: usize,
    pub count: usize,
    pub grid: Option<Seq<usize>>,
    pub all: bool,
}

/// What an optional list holds.
pub open spec fn list_view(list: Option<Vec<usize>>) -> Option<Seq<usize>> {
    match list {
        Some(list) => Some(list@),
        None => None,
    }
}

impl View for Args {
    type V = ArgsView;

    open spec fn view(&self) -> ArgsView {
        ArgsView {
            input: self.input@,
            output: match self.output {
                Some(output) => Some(output@),
                None => None,
            },
            mode: self.mode,
            fps: self.fps,
            count: self.count,
            grid: list_view(self.grid),
            all: self.all,
        }
    }
}

/// The number that the text spells, if it is not zero.
pub open spec fn positive(text: Seq<char>) -> Option<usize> {
    match number_of(text) {
        Some(n) => if n > 0 {
            Some(n)
        } else {
            None
        },
        None => None,
    }
}

/// The counts that a list spells: positive numbers with commas between them, and white
/// space round them as one likes.
pub open spec fn counts_of(text: Seq<char>) -> Option<Seq<usize>> {
    let cut = pieces(text, ',');
    if forall|k: int| 0 <= k < cut.len() ==> positive(trimmed(#[trigger] cut[k])) is Some {
        Some(cut.map_values(|piece: Seq<char>| positive(trimmed(piece))->0))
    } else {
        None
    }
}

/// Reads a list of counts.
pub fn parse_counts(value: &str) -> (counts: Result<Vec<usize>, String>)
    ensures
        match counts {
            Ok(counts) => counts_of(value@) == Some(counts@),
            Err(message) => counts_of(value@) is None && message@
                == "counts must be positive integers"@,
        },
{
    let chars: Vec<char> = chars_of(value);
    let ranges: Vec<(usize, usize)> = split(&chars, ',');
    let ghost cut = pieces(value@, ',');
    let mut counts: Vec<usize> = Vec::new();
    let mut k: usize = 0;
    while k < ranges.len()
        invariant
            k <= ranges.len(),
            chars@ == value@,
            cut == pieces(value@, ','),
            ranges@.len() == cut.len(),
            forall|j: int|
                0 <= j < ranges@.len() ==> {
                    &&& (#[trigger] ranges@[j]).0 <= ranges@[j].1 <= chars.len()
                    &&& cut[j] == chars@.subrange(ranges@[j].0 as int, ranges@[j].1 as int)
                },
            counts@.len() == k,
            forall|j: int|
                0 <= j < k ==> positive(trimmed(#[trigger] cut[j])) == Some(counts@[j]),
        decreases ranges.len() - k,
    {
        let (from, to): (usize, usize) = ranges[k];
        let (start, end): (usize, usize) = trim(&chars, from, to);
        let count: Option<usize> = read_number(&chars, start, end);
        assert(number_of(trimmed(cut[k as int])) == count);
        match count {
            Some(count) => {
                if count == 0 {
                    return Err("counts must be positive integers".to_string());
                }
                counts.push(count);
            },
            None => {
                return Err("counts must be positive integers".to_string());
            },
        }
        k = k + 1;
    }
    proof {
        let all = cut.map_values(|piece: Seq<char>| positive(trimmed(piece))->0);
        assert(counts@ =~= all);
    }
    Ok(counts)
}

/// A list of counts is never empty, and no count in it is zero.
pub proof fn counts_positive(text: Seq<char>)
    ensures
        counts_of(text) matches Some(counts) ==> counts.len() > 0 && forall|k: int|
            0 <= k < counts.len() ==> #[trigger] counts[k] > 0,
{
    pieces_not_empty(text, ',');
    if let Some(counts) = counts_of(text) {
        let cut = pieces(text, ',');
        assert forall|k: int| 0 <= k < counts.len() implies #[trigger] counts[k] > 0 by {
            assert(positive(trimmed(cut[k])) is Some);
        }
    }
}

/// The counts in decimal, with commas between them.
pub open spec fn joined(counts: Seq<usize>) -> Seq<char>
    decreases counts.len(),
{
    if counts.len() == 0 {
        Seq::empty()
    } else if counts.len() == 1 {
        decimal(counts[0] as int)
    } else {
        joined(counts.drop_last()).push(',') + decimal(counts.last() as int)
    }
}

proof fn digits_trimmed(text: Seq<char>)
    requires
        all_digits(text),
    ensures
        trimmed(text) == text,
{
    assert(is_digit(text[0]));
    assert(is_digit(text[text.len() - 1]));
}

/// What a list of counts is cut into.
proof fn joined_pieces(counts: Seq<usize>)
    requires
        counts.len() > 0,
    ensures
        pieces(joined(counts), ',') == counts.map_values(|count: usize| decimal(count as int)),
    decreases counts.len(),
{
    let last = decimal(counts.last() as int);
    decimal_digits(counts.last() as int);
    assert forall|i: int| 0 <= i < last.len() implies #[trigger] last[i] != ',' by {
        assert(is_digit(last[i]));
    }
    let parts = counts.map_values(|count: usize| decimal(count as int));
    if counts.len() == 1 {
        let empty = Seq::<char>::empty();
        pieces_extended(empty, last, ',');
        assert(empty + last =~= last);
        assert(pieces(empty, ',').drop_last() =~= Seq::<Seq<char>>::empty());
        assert(parts =~= seq![last]);
        assert(pieces(last, ',') =~= seq![last]);
    } else {
        let shorter = counts.drop_last();
        joined_pieces(shorter);
        let text = joined(shorter).push(',');
        assert(text.drop_last() =~= joined(shorter));
        let before = pieces(joined(shorter), ',');
        assert(pieces(text, ',') == before.push(Seq::<char>::empty()));
        pieces_extended(text, last, ',');
        assert(before.push(Seq::<char>::empty()).drop_last() =~= before);
        assert(Seq::<char>::empty() + last =~= last);
        assert(before.push(last) =~= parts);
    }
}

/// Reading counts back from their list gives the counts.
pub proof fn counts_round_trip(counts: Seq<usize>)
    requires
        counts.len() > 0,
        forall|k: int| 0 <= k < counts.len() ==> #[trigger] counts[k] > 0,
    ensures
        counts_of(joined(counts)) == Some(counts),
{
    joined_pieces(counts);
    let cut = pieces(joined(counts), ',');
    assert forall|k: int| 0 <= k < cut.len() implies positive(trimmed(#[trigger] cut[k])) == Some(
        counts[k],
    ) by {
        decimal_digits(counts[k] as int);
        digits_trimmed(cut[k]);
        number_of_decimal(counts[k]);
    }
    assert(cut.map_values(|piece: Seq<char>| positive(trimmed(piece))->0) =~= counts);
}

/// What the options read so far say. Paths are places on the command line.
pub struct Draft {
    pub input: Option<usize>,
    pub output: Option<usize>,
    pub mode: Option<Mode>,
    pub fps: usize,
    pub count: usize,
    pub grid: Option<Vec<usize>>,
    pub all: bool,
}

/// What a `Draft` holds.
pub struct DraftView {
    pub input: Option<usize>,
    pub output: Option<usize>,
    pub mode: Option<Mode>,
    pub fps: usize,
    pub count: usize,
    pub grid: Option<Seq<usize>>,
    pub all: bool,
}

impl View for Draft {
    type V = DraftView;

    open spec fn view(&self) -> DraftView {
        DraftView {
            input: self.input,
            output: self.output,
            mode: self.mode,
            fps: self.fps,
            count: self.count,
            grid: list_view(self.grid),
            all: self.all,
        }
    }
}

/// What holds before any option is read.
pub open spec fn no_options() -> DraftView {
    DraftView {
        input: None,
        output: None,
        mode: None,
        fps: DEFAULT_FPS,
        count: DEFAULT_COUNT,
        grid: None,
        all: false,
    }
}

/// The mode that a name stands for.
pub open spec fn mode_named(name: Option<Seq<char>>) -> Option<Mode> {
    if name == Some("circle"@) {
        Some(Mode::Circle)
    } else if name == Some("circle-future"@) {
        Some(Mode::Future)
    } else {
        None
    }
}

/// The positive number that an argument spells.
pub open spec fn positive_argument(value: Arg) -> Option<usize> {
    match value.known() {
        Some(text) => positive(text),
        None => None,
    }
}

/// The draft with one option more, or what is wrong with the option. Its value stands at
/// place `at`. Where an option is given twice the last one counts.
pub open spec fn with_option(draft: DraftView, flag: Arg, value: Arg, at: usize) -> Result<
    DraftView,
    Seq<char>,
> {
    if flag.known() == Some("-i"@) {
        Ok(DraftView { input: Some(at), ..draft })
    } else if flag.known() == Some("-o"@) {
        Ok(DraftView { output: Some(at), ..draft })
    } else if flag.known() == Some("--type"@) {
        match mode_named(value.known()) {
            Some(mode) => Ok(DraftView { mode: Some(mode), ..draft }),
            None => Err("type must be circle or circle-future"@),
        }
    } else if flag.known() == Some("--fps"@) {
        match positive_argument(value) {
            Some(fps) => Ok(DraftView { fps, ..draft }),
            None => Err("fps must be a positive integer"@),
        }
    } else if flag.known() == Some("--count"@) {
        match positive_argument(value) {
            Some(count) => Ok(DraftView { count, ..draft }),
            None => Err("count must be a positive integer"@),
        }
    } else if flag.known() == Some("--grid"@) {
        match value.known() {
            Some(text) => match counts_of(text) {
                Some(counts) => Ok(DraftView { grid: Some(counts), ..draft }),
                None => Err("counts must be positive integers"@),
            },
            None => Err("grid must contain positive integers"@),
        }
    } else {
        Err("unknown option "@ + flag.text@)
    }
}

/// What the options from place `at` on make of the draft, or what is wrong with the first
/// bad one. Every option but `--all` has a value after it.
pub open spec fn with_options(values: Seq<Arg>, at: int, draft: DraftView) -> Result<
    DraftView,
    Seq<char>,
>
    decreases values.len() - at,
{
    if at >= values.len() {
        Ok(draft)
    } else if values[at].known() == Some("--all"@) {
        with_options(values, at + 1, DraftView { all: true, ..draft })
    } else if at + 1 >= values.len() {
        Err("missing value after "@ + values[at].text@)
    } else {
        match with_option(draft, values[at], values[at + 1], (at + 1) as usize) {
            Ok(next) => with_options(values, at + 2, next),
            Err(message) => Err(message),
        }
    }
}

/// The place of an optional path.
pub open spec fn argument(at: Option<usize>) -> Option<LocationView> {
    match at {
        Some(at) => Some(LocationView::Argument(at as int)),
        None => None,
    }
}

/// What the options ask for, or which one is missing.
pub open spec fn completed(draft: DraftView) -> Result<ArgsView, Seq<char>> {
    if !draft.all && draft.output is None {
        Err("missing -o"@)
    } else if !draft.all && draft.mode is None {
        Err("missing --type"@)
    } else {
        match draft.input {
            None => Err("missing -i"@),
            Some(input) => Ok(
                ArgsView {
                    input: LocationView::Argument(input as int),
                    output: argument(draft.output),
                    mode: draft.mode,
                    fps: draft.fps,
                    count: draft.count,
                    grid: draft.grid,
                    all: draft.all,
                },
            ),
        }
    }
}

/// What a command line asks for, or what is wrong with it.
pub open spec fn given(values: Seq<Arg>) -> Result<ArgsView, Seq<char>> {
    match with_options(values, 0, no_options()) {
        Ok(draft) => completed(draft),
        Err(message) => Err(message),
    }
}

/// Reads a positive number from an argument.
fn read_positive(value: &Arg) -> (n: Option<usize>)
    ensures
        n == positive_argument(*value),
{
    if !value.unicode {
        return None;
    }
    let chars: Vec<char> = chars_of(value.text.as_str());
    let n: Option<usize> = read_number(&chars, 0, chars.len());
    assert(chars@.subrange(0, chars@.len() as int) =~= value.text@);
    match n {
        Some(n) => if n == 0 {
            None
        } else {
            Some(n)
        },
        None => None,
    }
}

/// Takes one option into the draft, or says what is wrong with it and leaves the draft
/// alone.
pub fn set_option(draft: &mut Draft, flag: &Arg, value: &Arg, at: usize) -> (r: Result<(), String>)
    ensures
        match r {
            Ok(()) => with_option(old(draft)@, *flag, *value, at) == Ok::<DraftView, Seq<char>>(
                final(draft)@,
            ),
            Err(message) => with_option(old(draft)@, *flag, *value, at) == Err::<
                DraftView,
                Seq<char>,
            >(message@) && final(draft)@ == old(draft)@,
        },
{
    if flag.is("-i") {
        draft.input = Some(at);
        Ok(())
    } else if flag.is("-o") {
        draft.output = Some(at);
        Ok(())
    } else if flag.is("--type") {
        if value.is("circle") {
            draft.mode = Some(Mode::Circle);
        } else if value.is("circle-future") {
            draft.mode = Some(Mode::Future);
        } else {
            return Err("type must be circle or circle-future".to_string());
        }
        Ok(())
    } else if flag.is("--fps") {
        match read_positive(value) {
            Some(fps) => {
                draft.fps = fps;
                Ok(())
            },
            None => Err("fps must be a positive integer".to_string()),
        }
    } else if flag.is("--count") {
        match read_positive(value) {
            Some(count) => {
                draft.count = count;
                Ok(())
            },
            None => Err("count must be a positive integer".to_string()),
        }
    } else if flag.is("--grid") {
        if !value.unicode {
            return Err("grid must contain positive integers".to_string());
        }
        match parse_counts(value.text.as_str()) {
            Ok(counts) => {
                draft.grid = Some(counts);
                Ok(())
            },
            Err(message) => Err(message),
        }
    } else {
        let mut message: String = "unknown option ".to_string();
        message.append(flag.text.as_str());
        Err(message)
    }
}

/// Reads the command line: `None` where it is empty and the user is to be asked instead.
pub fn args(values: &Vec<Arg>) -> (r: Result<Option<Args>, String>)
    ensures
        match r {
            Ok(None) => values@.len() == 0,
            Ok(Some(args)) => values@.len() > 0 && given(values@) == Ok::<ArgsView, Seq<char>>(
                args@,
            ) && args.fps == (given(values@)->Ok_0).fps && args.count == (given(values@)->Ok_0).count
                && args.mode == (given(values@)->Ok_0).mode && args.all == (given(
                values@,
            )->Ok_0).all,
            Err(message) => values@.len() > 0 && given(values@) == Err::<ArgsView, Seq<char>>(
                message@,
            ),
        },
{
    if values.len() == 0 {
        return Ok(None);
    }
    let mut draft: Draft = Draft {
        input: None,
        output: None,
        mode: None,
        fps: DEFAULT_FPS,
        count: DEFAULT_COUNT,
        grid: None,
        all: false,
    };
    let mut at: usize = 0;
    while at < values.len()
        invariant
            at <= values.len(),
            values@.len() > 0,
            with_options(values@, 0, no_options()) == with_options(values@, at as int, draft@),
        decreases values.len() - at,
    {
        let ghost before = draft@;
        if values[at].is("--all") {
            draft.all = true;
            assert(draft@ == (DraftView { all: true, ..before }));
            at = at + 1;
        } else {
            if at + 1 >= values.len() {
                let mut message: String = "missing value after ".to_string();
                message.append(values[at].text.as_str());
                return Err(message);
            }
            match set_option(&mut draft, &values[at], &values[at + 1], at + 1) {
                Ok(()) => {},
                Err(message) => {
                    return Err(message);
                },
            }
            at = at + 2;
        }
    }
    if !draft.all && draft.output.is_none() {
        return Err("missing -o".to_string());
    }
    if !draft.all && draft.mode.is_none() {
        return Err("missing --type".to_string());
    }
    let ghost last = draft@;
    match draft.input {
        None => Err("missing -i".to_string()),
        Some(input) => {
            let output: Option<Location> = match draft.output {
                Some(output) => Some(Location::Argument(output)),
                None => None,
            };
            let args: Args = Args {
                input: Location::Argument(input),
                output,
                mode: draft.mode,
                fps: draft.fps,
                count: draft.count,
                grid: draft.grid,
                all: draft.all,
            };
            assert(completed(last) == Ok::<ArgsView, Seq<char>>(args@));
            Ok(Some(args))
        },
    }
}

/// The numbers that an option can set are positive.
pub open spec fn numbers_positive(
    fps: usize,
    count: usize,
    grid: Option<Seq<usize>>,
) -> bool {
    &&& fps > 0
    &&& count > 0
    &&& grid matches Some(counts) ==> counts.len() > 0 && forall|k: int|
        0 <= k < counts.len() ==> #[trigger] counts[k] > 0
}

proof fn options_positive(values: Seq<Arg>, at: int, draft: DraftView)
    requires
        0 <= at,
        values.len() <= usize::MAX,
        numbers_positive(draft.fps, draft.count, draft.grid),
        draft.input matches Some(input) ==> input < values.len(),
        draft.output matches Some(output) ==> output < values.len(),
    ensures
        with_options(values, at, draft) matches Ok(last) ==> {
            &&& numbers_positive(last.fps, last.count, last.grid)
            &&& last.input matches Some(input) ==> input < values.len()
            &&& last.output matches Some(output) ==> output < values.len()
        },
    decreases values.len() - at,
{
    if at < values.len() {
        if values[at].known() == Some("--all"@) {
            options_positive(values, at + 1, DraftView { all: true, ..draft });
        } else if at + 1 < values.len() {
            let value = values[at + 1];
            if value.known() is Some {
                counts_positive(value.known()->0);
            }
            if let Ok(next) = with_option(draft, values[at], value, (at + 1) as usize) {
                options_positive(values, at + 2, next);
            }
        }
    }
}

/// A command line that is accepted names paths that stand on it, asks for at least one
/// circle per picture and one frame per second, and says where to write and what to look
/// at unless it asks for everything.
pub proof fn given_complete(values: Seq<Arg>)
    requires
        values.len() <= usize::MAX,
    ensures
        given(values) matches Ok(args) ==> {
            &&& numbers_positive(args.fps, args.count, args.grid)
            &&& args.input matches LocationView::Argument(at) && 0 <= at < values.len()
            &&& args.output matches Some(output) ==> (output matches LocationView::Argument(at)
                && 0 <= at < values.len())
            &&& args.all || (args.output is Some && args.mode is Some)
        },
{
    options_positive(values, 0, no_options());
}

/// Each count of a list is the number that its piece spells between white space, and none
/// is zero; a list with a piece that spells no such number is none.
pub proof fn counts_by_pieces(text: Seq<char>, k: int)
    requires
        0 <= k < pieces(text, ',').len(),
    ensures
        counts_of(text) matches Some(counts) ==> {
            &&& counts.len() == pieces(text, ',').len()
            &&& number_of(trimmed(pieces(text, ',')[k])) == Some(counts[k])
            &&& counts[k] != 0
        },
        counts_of(text) is None ==> exists|bad: int|
            0 <= bad < pieces(text, ',').len() && (number_of(
                trimmed(#[trigger] pieces(text, ',')[bad]),
            ) is None || number_of(trimmed(pieces(text, ',')[bad])) == Some(0usize)),
{
    let cut = pieces(text, ',');
    if counts_of(text) is Some {
        assert(positive(trimmed(cut[k])) is Some);
    } else {
        let bad = choose|bad: int|
            0 <= bad < cut.len() && !(positive(trimmed(#[trigger] cut[bad])) is Some);
        assert(number_of(trimmed(cut[bad])) is None || number_of(trimmed(cut[bad])) == Some(
            0usize,
        ));
    }
}

/// What each option says. Paths are remembered by their place, and a number is taken
/// exactly as it is spelled.
pub proof fn option_says(draft: DraftView, flag: Arg, value: Arg, at: usize, n: usize)
    requires
        flag.unicode,
    ensures
        flag.text@ == "-i"@ ==> with_option(draft, flag, value, at) == Ok::<DraftView, Seq<char>>(
            DraftView {
                input: Some(at),
                output: draft.output,
                mode: draft.mode,
                fps: draft.fps,
                count: draft.count,
                grid: draft.grid,
                all: draft.all,
            },
        ),
        flag.text@ == "-o"@ ==> with_option(draft, flag, value, at) == Ok::<DraftView, Seq<char>>(
            DraftView {
                input: draft.input,
                output: Some(at),
                mode: draft.mode,
                fps: draft.fps,
                count: draft.count,
                grid: draft.grid,
                all: draft.all,
            },
        ),
        flag.text@ == "--type"@ ==> with_option(draft, flag, value, at) == if value.unicode
            && value.text@ == "circle"@ {
            Ok::<DraftView, Seq<char>>(DraftView { mode: Some(Mode::Circle), ..draft })
        } else if value.unicode && value.text@ == "circle-future"@ {
            Ok(DraftView { mode: Some(Mode::Future), ..draft })
        } else {
            Err("type must be circle or circle-future"@)
        },
        flag.text@ == "--fps"@ && value.unicode && number_of(value.text@) == Some(n) && n > 0
            ==> with_option(draft, flag, value, at) == Ok::<DraftView, Seq<char>>(
            DraftView { fps: n, ..draft },
        ),
        flag.text@ == "--fps"@ && (!value.unicode || number_of(value.text@) is None || number_of(
            value.text@,
        ) == Some(0usize)) ==> with_option(draft, flag, value, at) == Err::<DraftView, Seq<char>>(
            "fps must be a positive integer"@,
        ),
        flag.text@ == "--count"@ && value.unicode && number_of(value.text@) == Some(n) && n > 0
            ==> with_option(draft, flag, value, at) == Ok::<DraftView, Seq<char>>(
            DraftView { count: n, ..draft },
        ),
        flag.text@ == "--count"@ && (!value.unicode || number_of(value.text@) is None || number_of(
            value.text@,
        ) == Some(0usize)) ==> with_option(draft, flag, value, at) == Err::<DraftView, Seq<char>>(
            "count must be a positive integer"@,
        ),
        flag.text@ == "--grid"@ ==> with_option(draft, flag, value, at) == if !value.unicode {
            Err::<DraftView, Seq<char>>("grid must contain positive integers"@)
        } else if counts_of(value.text@) is None {
            Err("counts must be positive integers"@)
        } else {
            Ok(DraftView { grid: counts_of(value.text@), ..draft })
        },
        flag.text@ != "-i"@ && flag.text@ != "-o"@ && flag.text@ != "--type"@ && flag.text@
            != "--fps"@ && flag.text@ != "--count"@ && flag.text@ != "--grid"@ ==> with_option(
            draft,
            flag,
            value,
            at,
        ) == Err::<DraftView, Seq<char>>("unknown option "@ + flag.text@),
{
    reveal_strlit("-i");
    reveal_strlit("-o");
    reveal_strlit("--type");
    reveal_strlit("--fps");
    reveal_strlit("--count");
    reveal_strlit("--grid");
    assert("-i"@.len() == 2 && "-i"@[1] == 'i');
    assert("-o"@.len() == 2 && "-o"@[1] == 'o');
    assert("--type"@.len() == 6 && "--type"@[2] == 't');
    assert("--fps"@.len() == 5);
    assert("--count"@.len() == 7);
    assert("--grid"@.len() == 6 && "--grid"@[2] == 'g');
    reveal_strlit("circle");
    reveal_strlit("circle-future");
    assert("circle"@.len() == 6);
    assert("circle-future"@.len() == 13);
}

/// What is not Unicode names no option.
pub proof fn unknown_unless_unicode(draft: DraftView, flag: Arg, value: Arg, at: usize)
    requires
        !flag.unicode,
    ensures
        with_option(draft, flag, value, at) == Err::<DraftView, Seq<char>>(
            "unknown option "@ + flag.text@,
        ),
{
}

/// Options that were read are not read again when more follow.
proof fn options_continue(values: Seq<Arg>, more: Seq<Arg>, at: int, draft: DraftView)
    requires
        0 <= at <= values.len(),
        with_options(values, at, draft) is Ok,
    ensures
        with_options(values + more, at, draft) == with_options(
            values + more,
            values.len() as int,
            with_options(values, at, draft)->Ok_0,
        ),
    decreases values.len() - at,
{
    let whole = values + more;
    if at < values.len() {
        assert(whole[at] == values[at]);
        if values[at].known() == Some("--all"@) {
            options_continue(values, more, at + 1, DraftView { all: true, ..draft });
        } else {
            assert(whole[at + 1] == values[at + 1]);
            let next = with_option(draft, values[at], values[at + 1], (at + 1) as usize);
            options_continue(values, more, at + 2, next->Ok_0);
        }
    }
}

/// A mistake that is not the lack of a value at the end is found whatever follows.
pub proof fn mistake_stays(values: Seq<Arg>, more: Seq<Arg>, at: int, draft: DraftView, rest: int)
    requires
        0 <= at <= rest < values.len() - 1,
        values[rest].known() != Some("--all"@),
        with_options(values.take(rest), at, draft) is Ok,
        with_option(
            with_options(values.take(rest), at, draft)->Ok_0,
            values[rest],
            values[rest + 1],
            (rest + 1) as usize,
        ) is Err,
    ensures
        with_options(values + more, at, draft) == Err::<DraftView, Seq<char>>(
            with_option(
                with_options(values.take(rest), at, draft)->Ok_0,
                values[rest],
                values[rest + 1],
                (rest + 1) as usize,
            )->Err_0,
        ),
{
    let before = values.take(rest);
    options_continue(before, values.skip(rest) + more, at, draft);
    assert(before + (values.skip(rest) + more) =~= values + more);
}

/// One option more on a command line adds what the option says to what the line said. An
/// option at the end that lacks its value is a mistake.
pub proof fn options_appended(values: Seq<Arg>, flag: Arg, value: Arg)
    requires
        with_options(values, 0, no_options()) is Ok,
    ensures
        ({
            let draft = with_options(values, 0, no_options())->Ok_0;
            let all = flag.unicode && flag.text@ == "--all"@;
            &&& all ==> with_options(values.push(flag), 0, no_options()) == Ok::<
                DraftView,
                Seq<char>,
            >(DraftView { all: true, ..draft })
            &&& !all ==> with_options(values.push(flag), 0, no_options()) == Err::<
                DraftView,
                Seq<char>,
            >("missing value after "@ + flag.text@)
            &&& !all ==> with_options(values.push(flag).push(value), 0, no_options())
                == with_option(draft, flag, value, (values.len() + 1) as usize)
        }),
{
    let one = seq![flag];
    let two = seq![flag, value];
    let n = values.len() as int;
    options_continue(values, one, 0, no_options());
    options_continue(values, two, 0, no_options());
    assert(values + one =~= values.push(flag));
    assert(values + two =~= values.push(flag).push(value));
    reveal_with_fuel(with_options, 3);
    assert((values + one)[n] == flag);
    assert((values + two)[n] == flag);
    assert((values + two)[n + 1] == value);
}

/// What a line says once all its options are read: the numbers, the grid and the mode are
/// handed on as they were read. The paths are those remembered, and without `--all` there
/// has to be an output, a type and an input.
pub proof fn given_by_options(values: Seq<Arg>)
    ensures
        match with_options(values, 0, no_options()) {
            Err(message) => given(values) == Err::<ArgsView, Seq<char>>(message),
            Ok(draft) => if !draft.all && draft.output is None {
                given(values) == Err::<ArgsView, Seq<char>>("missing -o"@)
            } else if !draft.all && draft.mode is None {
                given(values) == Err::<ArgsView, Seq<char>>("missing --type"@)
            } else if draft.input is None {
                given(values) == Err::<ArgsView, Seq<char>>("missing -i"@)
            } else {
                given(values) matches Ok(args) && {
                    &&& args.input == LocationView::Argument(draft.input->0 as int)
                    &&& args.output is Some == draft.output is Some
                    &&& draft.output matches Some(at) ==> args.output == Some(
                        LocationView::Argument(at as int),
                    )
                    &&& args.mode == draft.mode
                    &&& args.fps == draft.fps
                    &&& args.count == draft.count
                    &&& args.grid == draft.grid
                    &&& args.all == draft.all
                }
            },
        },
{
}

/// The argument is not that text.
pub open spec fn none_is(values: Seq<Arg>, from: int, text: Seq<char>) -> bool {
    forall|k: int|
        from <= k < values.len() ==> !((#[trigger] values[k]).unicode && values[k].text@ == text)
}

/// What no option sets stays as it was.
proof fn options_keep(values: Seq<Arg>, at: int, draft: DraftView)
    requires
        0 <= at,
        with_options(values, at, draft) is Ok,
    ensures
        ({
            let last = with_options(values, at, draft)->Ok_0;
            &&& none_is(values, at, "--count"@) ==> last.count == draft.count
            &&& none_is(values, at, "--fps"@) ==> last.fps == draft.fps
            &&& none_is(values, at, "--grid"@) ==> last.grid == draft.grid
            &&& none_is(values, at, "--type"@) ==> last.mode == draft.mode
            &&& none_is(values, at, "--all"@) ==> last.all == draft.all
            &&& none_is(values, at, "-i"@) ==> last.input == draft.input
            &&& none_is(values, at, "-o"@) ==> last.output == draft.output
            &&& draft.all ==> last.all
        }),
    decreases values.len() - at,
{
    if at < values.len() {
        let flag = values[at];
        if flag.known() == Some("--all"@) {
            options_keep(values, at + 1, DraftView { all: true, ..draft });
        } else {
            let next = with_option(draft, flag, values[at + 1], (at + 1) as usize)->Ok_0;
            options_keep(values, at + 2, next);
        }
    }
}

/// A command line asks for exactly the number of circles that its last `--count` spells,
/// for the frame rate that its last `--fps` spells, for the counts that its last `--grid`
/// lists, and for the paths that stand behind its last `-i` and `-o`.
pub proof fn line_asks_as_spelled(
    before: Seq<Arg>,
    flag: Arg,
    value: Arg,
    after: Seq<Arg>,
    n: usize,
    counts: Seq<usize>,
)
    requires
        with_options(before, 0, no_options()) is Ok,
        flag.unicode,
        value.unicode,
        n > 0,
        counts.len() > 0,
        forall|k: int| 0 <= k < counts.len() ==> #[trigger] counts[k] > 0,
        before.len() + 1 <= usize::MAX,
    ensures
        given(before.push(flag).push(value) + after) matches Ok(args) ==> {
            &&& flag.text@ == "--count"@ && value.text@ == decimal(n as int) && none_is(
                after,
                0,
                flag.text@,
            ) ==> args.count == n
            &&& flag.text@ == "--fps"@ && value.text@ == decimal(n as int) && none_is(
                after,
                0,
                flag.text@,
            ) ==> args.fps == n
            &&& flag.text@ == "--grid"@ && value.text@ == joined(counts) && none_is(
                after,
                0,
                flag.text@,
            ) ==> args.grid == Some(counts)
            &&& flag.text@ == "--type"@ && value.text@ == "circle"@ && none_is(
                after,
                0,
                flag.text@,
            ) ==> args.mode == Some(Mode::Circle)
            &&& flag.text@ == "--type"@ && value.text@ == "circle-future"@ && none_is(
                after,
                0,
                flag.text@,
            ) ==> args.mode == Some(Mode::Future)
            &&& flag.text@ == "-i"@ && none_is(after, 0, flag.text@) ==> args.input
                == LocationView::Argument(before.len() as int + 1)
            &&& flag.text@ == "-o"@ && none_is(after, 0, flag.text@) ==> args.output == Some(
                LocationView::Argument(before.len() as int + 1),
            )
        },
{
    let start = before.push(flag).push(value);
    let line = start + after;
    if given(line) is Ok {
        let draft = with_options(before, 0, no_options())->Ok_0;
        let at = before.len() as int;
        reveal_strlit("--all");
        reveal_strlit("--count");
        reveal_strlit("--fps");
        reveal_strlit("--grid");
        reveal_strlit("--type");
        reveal_strlit("-i");
        reveal_strlit("-o");
        assert("--all"@.len() == 5 && "--all"@[2] == 'a');
        assert("--fps"@.len() == 5 && "--fps"@[2] == 'f');
        assert("--count"@.len() == 7);
        assert("--grid"@.len() == 6);
        assert("--type"@.len() == 6);
        assert("-i"@.len() == 2);
        assert("-o"@.len() == 2);
        reveal_strlit("circle");
        reveal_strlit("circle-future");
        assert("circle"@.len() == 6);
        assert("circle-future"@.len() == 13);
        if flag.text@ != "--all"@ {
            options_continue(before, seq![flag, value] + after, 0, no_options());
            assert(before + (seq![flag, value] + after) =~= line);
            assert(line[at] == flag);
            assert(line[at + 1] == value);
            option_says(draft, flag, value, (at + 1) as usize, n);
            number_of_decimal(n);
            counts_round_trip(counts);
            let next = with_option(draft, flag, value, (at + 1) as usize)->Ok_0;
            assert(flag.known() != Some("--all"@));
            assert(with_options(line, at, draft) == with_options(line, at + 2, next));
            options_keep(line, at + 2, next);
            given_by_options(line);
            let text = flag.text@;
            if none_is(after, 0, text) {
                assert forall|k: int| at + 2 <= k < line.len() implies !((
                #[trigger] line[k]).unicode && line[k].text@ == text) by {
                    assert(line[k] == after[k - at - 2]);
                }
                assert(none_is(line, at + 2, text));
            }
        }
    }
}

/// What a command line does not speak of is as usual: one circle, 30 frames per second, no
/// grid, and one video only.
pub proof fn line_defaults(values: Seq<Arg>)
    ensures
        given(values) matches Ok(args) ==> {
            &&& none_is(values, 0, "--count"@) ==> args.count == 1
            &&& none_is(values, 0, "--fps"@) ==> args.fps == 30
            &&& none_is(values, 0, "--grid"@) ==> args.grid is None
            &&& none_is(values, 0, "--type"@) ==> args.mode is None
            &&& none_is(values, 0, "--all"@) ==> !args.all
            &&& none_is(values, 0, "-o"@) ==> args.output is None
        },
{
    if given(values) is Ok {
        options_keep(values, 0, no_options());
    }
}

/// What was asked for is seen as it is.
pub proof fn args_as_held(args: Args)
    ensures
        args@.input == args.input@,
        args@.output is Some == args.output is Some,
        args.output matches Some(output) ==> args@.output == Some(output@),
        args@.mode == args.mode,
        args@.fps == args.fps,
        args@.count == args.count,
        args@.grid is Some == args.grid is Some,
        args.grid matches Some(grid) ==> args@.grid == Some(grid@),
        args@.all == args.all,
        args.input matches Location::Argument(at) ==> args@.input == LocationView::Argument(
            at as int,
        ),
        args.input matches Location::Text(text) ==> args@.input == LocationView::Text(text@),
{
}

/// What was read so far is seen as it is.
pub proof fn draft_as_held(draft: Draft)
    ensures
        draft@.input == draft.input,
        draft@.output == draft.output,
        draft@.mode == draft.mode,
        draft@.fps == draft.fps,
        draft@.count == draft.count,
        draft@.grid is Some == draft.grid is Some,
        draft.grid matches Some(grid) ==> draft@.grid == Some(grid@),
        draft@.all == draft.all,
{
}

/// A path is seen as it is.
pub proof fn location_as_held(at: usize, text: String)
    ensures
        Location::Argument(at)@ == LocationView::Argument(at as int),
        Location::Text(text)@ == LocationView::Text(text@),
{
}

} // verus!
