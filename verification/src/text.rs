//! Numbers in decimal, and text cut into pieces and lines.

use vstd::prelude::*;

verus! {

/// The character for a digit.
pub open spec fn digit_char(digit: int) -> char {
    if digit == 0 {
        '0'
    } else if digit == 1 {
        '1'
    } else if digit == 2 {
        '2'
    } else if digit == 3 {
        '3'
    } else if digit == 4 {
        '4'
    } else if digit == 5 {
        '5'
    } else if digit == 6 {
        '6'
    } else if digit == 7 {
        '7'
    } else if digit == 8 {
        '8'
    } else {
        '9'
    }
}

/// The number in decimal, without leading zeros.
pub open spec fn decimal(n: int) -> Seq<char>
    decreases n,
{
    if n < 10 {
        seq![digit_char(n)]
    } else {
        decimal(n / 10).push(digit_char(n % 10))
    }
}

/// The text that shows a single digit.
fn digit_text(digit: usize) -> (text: &'static str)
    requires
        digit < 10,
    ensures
        text@ == seq![digit_char(digit as int)],
{
    proof {
        reveal_strlit("0");
        reveal_strlit("1");
        reveal_strlit("2");
        reveal_strlit("3");
        reveal_strlit("4");
        reveal_strlit("5");
        reveal_strlit("6");
        reveal_strlit("7");
        reveal_strlit("8");
        reveal_strlit("9");
    }
    let text: &'static str = if digit == 0 {
        "0"
    } else if digit == 1 {
        "1"
    } else if digit == 2 {
        "2"
    } else if digit == 3 {
        "3"
    } else if digit == 4 {
        "4"
    } else if digit == 5 {
        "5"
    } else if digit == 6 {
        "6"
    } else if digit == 7 {
        "7"
    } else if digit == 8 {
        "8"
    } else {
        "9"
    };
    assert(text@ =~= seq![digit_char(digit as int)]);
    text
}

/// Appends the number in decimal.
pub fn append_number(text: &mut String, n: usize)
    ensures
        final(text)@ == old(text)@ + decimal(n as int),
    decreases n,
{
    let ghost before = text@;
    if n >= 10 {
        append_number(text, n / 10);
    }
    text.append(digit_text(n % 10));
    assert(text@ =~= before + decimal(n as int));
}

/// The text with another in front.
pub fn prefixed(start: &str, text: String) -> (r: String)
    ensures
        r@ == start@ + text@,
{
    let mut r: String = start.to_string();
    r.append(text.as_str());
    r
}

/// The character is a decimal digit.
pub open spec fn is_digit(c: char) -> bool {
    '0' <= c <= '9'
}

/// The digits read as a number, the most significant first.
pub open spec fn digits_value(digits: Seq<char>) -> int
    decreases digits.len(),
{
    if digits.len() == 0 {
        0
    } else {
        10 * digits_value(digits.drop_last()) + (digits.last() as int - '0' as int)
    }
}

/// The text is made of digits only, and of at least one.
pub open spec fn all_digits(text: Seq<char>) -> bool {
    text.len() > 0 && forall|i: int| 0 <= i < text.len() ==> is_digit(#[trigger] text[i])
}

/// The text without a plus sign in front.
pub open spec fn unsigned(text: Seq<char>) -> Seq<char> {
    if text.len() > 0 && text[0] == '+' {
        text.skip(1)
    } else {
        text
    }
}

/// The number that the text spells: digits only, after one plus sign at most, and no more
/// than a `usize` can hold.
pub open spec fn number_of(text: Seq<char>) -> Option<usize> {
    let digits = unsigned(text);
    if all_digits(digits) && digits_value(digits) <= usize::MAX {
        Some(digits_value(digits) as usize)
    } else {
        None
    }
}

/// Digits that are all read add up to no less than some of them.
proof fn digits_value_grows(digits: Seq<char>, n: int)
    requires
        forall|i: int| 0 <= i < digits.len() ==> is_digit(#[trigger] digits[i]),
        0 <= n <= digits.len(),
    ensures
        0 <= digits_value(digits.take(n)) <= digits_value(digits),
    decreases digits.len(),
{
    if digits.len() > 0 {
        let shorter = digits.drop_last();
        assert forall|i: int| 0 <= i < shorter.len() implies is_digit(#[trigger] shorter[i]) by {
            assert(shorter[i] == digits[i]);
        }
        assert(is_digit(digits[digits.len() - 1]));
        if n == digits.len() {
            assert(digits.take(n) =~= digits);
            digits_value_grows(shorter, 0);
        } else {
            digits_value_grows(shorter, n);
            assert(shorter.take(n) =~= digits.take(n));
        }
    } else {
        assert(digits.take(n) =~= digits);
    }
}

/// The digits of a number in decimal are digits, and read as the number.
pub proof fn decimal_digits(n: int)
    requires
        0 <= n,
    ensures
        all_digits(decimal(n)),
        digits_value(decimal(n)) == n,
    decreases n,
{
    let text = decimal(n);
    if n < 10 {
        assert(text.drop_last() =~= Seq::<char>::empty());
        assert(digits_value(text.drop_last()) == 0);
    } else {
        decimal_digits(n / 10);
        assert(text.drop_last() =~= decimal(n / 10));
        assert forall|i: int| 0 <= i < text.len() implies is_digit(#[trigger] text[i]) by {
            if i < text.len() - 1 {
                assert(text[i] == decimal(n / 10)[i]);
            }
        }
    }
}

/// Reading a number back from its decimal text gives the number.
pub proof fn number_of_decimal(n: usize)
    ensures
        number_of(decimal(n as int)) == Some(n),
{
    decimal_digits(n as int);
    assert(is_digit(decimal(n as int)[0]));
}

/// The characters of a text.
pub fn chars_of(text: &str) -> (chars: Vec<char>)
    ensures
        chars@ == text@,
{
    let mut chars: Vec<char> = Vec::new();
    for c in it: text.chars()
        invariant
            chars@ == it.seq().take(it.index() as int),
    {
        chars.push(c);
    }
    chars
}

/// Reads a number from the characters from `from` up to `to`.
pub fn read_number(chars: &Vec<char>, from: usize, to: usize) -> (n: Option<usize>)
    requires
        from <= to <= chars.len(),
    ensures
        n == number_of(chars@.subrange(from as int, to as int)),
{
    let ghost text = chars@.subrange(from as int, to as int);
    let ghost digits = unsigned(text);
    let mut at: usize = from;
    if from < to && chars[from] == '+' {
        at = from + 1;
    }
    let ghost start = at as int;
    assert(digits =~= chars@.subrange(start, to as int));
    if at == to {
        return None;
    }
    let mut value: usize = 0;
    while at < to
        invariant
            start <= at <= to <= chars.len(),
            0 <= start < to,
            digits == chars@.subrange(start, to as int),
            value == digits_value(digits.take(at - start)),
            forall|i: int| 0 <= i < at - start ==> is_digit(#[trigger] digits[i]),
            digits == unsigned(text),
            text == chars@.subrange(from as int, to as int),
        decreases to - at,
    {
        let c: char = chars[at];
        assert(c == digits[at - start]);
        if c < '0' || c > '9' {
            assert(!is_digit(digits[at - start]));
            return None;
        }
        let digit: usize = (c as u32 - '0' as u32) as usize;
        proof {
            assert(digits.take(at + 1 - start).drop_last() =~= digits.take(at - start));
            if all_digits(digits) {
                digits_value_grows(digits, at + 1 - start);
            }
        }
        if value > (usize::MAX - digit) / 10 {
            return None;
        }
        value = value * 10 + digit;
        at = at + 1;
    }
    assert(digits.take(at - start) =~= digits);
    Some(value)
}

/// The character is white space, as Unicode has it.
pub open spec fn is_space(c: char) -> bool {
    let code = c as int;
    ||| 0x9 <= code <= 0xd
    ||| code == 0x20
    ||| code == 0x85
    ||| code == 0xa0
    ||| code == 0x1680
    ||| 0x2000 <= code <= 0x200a
    ||| code == 0x2028
    ||| code == 0x2029
    ||| code == 0x202f
    ||| code == 0x205f
    ||| code == 0x3000
}

fn space(c: char) -> (r: bool)
    ensures
        r == is_space(c),
{
    let code: u32 = c as u32;
    (0x9 <= code && code <= 0xd) || code == 0x20 || code == 0x85 || code == 0xa0 || code == 0x1680
        || (0x2000 <= code && code <= 0x200a) || code == 0x2028 || code == 0x2029 || code == 0x202f
        || code == 0x205f || code == 0x3000
}

/// The text without the white space at its start.
pub open spec fn trimmed_start(text: Seq<char>) -> Seq<char>
    decreases text.len(),
{
    if text.len() > 0 && is_space(text[0]) {
        trimmed_start(text.skip(1))
    } else {
        text
    }
}

/// The text without the white space at its end.
pub open spec fn trimmed_end(text: Seq<char>) -> Seq<char>
    decreases text.len(),
{
    if text.len() > 0 && is_space(text.last()) {
        trimmed_end(text.drop_last())
    } else {
        text
    }
}

/// The text without the white space round it.
pub open spec fn trimmed(text: Seq<char>) -> Seq<char> {
    trimmed_end(trimmed_start(text))
}

/// Narrows a range of characters to leave out the white space round it.
pub fn trim(chars: &Vec<char>, from: usize, to: usize) -> (range: (usize, usize))
    requires
        from <= to <= chars.len(),
    ensures
        from <= range.0 <= range.1 <= to,
        chars@.subrange(range.0 as int, range.1 as int) == trimmed(
            chars@.subrange(from as int, to as int),
        ),
{
    let ghost text = chars@.subrange(from as int, to as int);
    let mut start: usize = from;
    while start < to && space(chars[start])
        invariant
            from <= start <= to <= chars.len(),
            trimmed_start(text) == trimmed_start(chars@.subrange(start as int, to as int)),
        decreases to - start,
    {
        assert(chars@.subrange(start as int, to as int).skip(1) =~= chars@.subrange(
            start + 1,
            to as int,
        ));
        start = start + 1;
    }
    let ghost rest = chars@.subrange(start as int, to as int);
    assert(trimmed_start(text) == rest);
    let mut end: usize = to;
    while start < end && space(chars[end - 1])
        invariant
            start <= end <= to <= chars.len(),
            trimmed_end(rest) == trimmed_end(chars@.subrange(start as int, end as int)),
        decreases end - start,
    {
        assert(chars@.subrange(start as int, end as int).drop_last() =~= chars@.subrange(
            start as int,
            end - 1,
        ));
        end = end - 1;
    }
    (start, end)
}

/// The text cut at every separator. There is one piece more than there are separators.
pub open spec fn pieces(text: Seq<char>, separator: char) -> Seq<Seq<char>>
    decreases text.len(),
{
    if text.len() == 0 {
        seq![Seq::<char>::empty()]
    } else {
        let before = pieces(text.drop_last(), separator);
        if text.last() == separator {
            before.push(Seq::<char>::empty())
        } else {
            before.drop_last().push(before.last().push(text.last()))
        }
    }
}

/// A text has at least one piece.
pub proof fn pieces_not_empty(text: Seq<char>, separator: char)
    ensures
        pieces(text, separator).len() >= 1,
    decreases text.len(),
{
    if text.len() > 0 {
        pieces_not_empty(text.drop_last(), separator);
    }
}

/// Text without a separator goes to the last piece.
pub proof fn pieces_extended(text: Seq<char>, more: Seq<char>, separator: char)
    requires
        forall|i: int| 0 <= i < more.len() ==> #[trigger] more[i] != separator,
    ensures
        pieces(text + more, separator) == pieces(text, separator).drop_last().push(
            pieces(text, separator).last() + more,
        ),
    decreases more.len(),
{
    pieces_not_empty(text, separator);
    let before = pieces(text, separator);
    if more.len() == 0 {
        assert(text + more =~= text);
        assert(before.last() + more =~= before.last());
        assert(before.drop_last().push(before.last()) =~= before);
    } else {
        let shorter = more.drop_last();
        assert forall|i: int| 0 <= i < shorter.len() implies #[trigger] shorter[i] != separator by {
            assert(shorter[i] == more[i]);
        }
        pieces_extended(text, shorter, separator);
        assert((text + more).drop_last() =~= text + shorter);
        assert((text + more).last() == more.last());
        assert(more[more.len() - 1] != separator);
        let middle = pieces(text + shorter, separator);
        assert(middle.drop_last() =~= before.drop_last());
        assert(middle.last().push(more.last()) =~= before.last() + more);
    }
}

/// The ranges stand for the pieces.
pub open spec fn ranges_match(
    chars: Seq<char>,
    ranges: Seq<(usize, usize)>,
    pieces: Seq<Seq<char>>,
) -> bool {
    &&& ranges.len() == pieces.len()
    &&& forall|k: int|
        0 <= k < ranges.len() ==> {
            &&& (#[trigger] ranges[k]).0 <= ranges[k].1 <= chars.len()
            &&& pieces[k] == chars.subrange(ranges[k].0 as int, ranges[k].1 as int)
        }
}

/// Cuts the characters at every separator and returns the range of each piece.
pub fn split(chars: &Vec<char>, separator: char) -> (ranges: Vec<(usize, usize)>)
    ensures
        ranges_match(chars@, ranges@, pieces(chars@, separator)),
{
    let mut ranges: Vec<(usize, usize)> = Vec::new();
    let mut from: usize = 0;
    let mut at: usize = 0;
    assert(chars@.take(0) =~= Seq::<char>::empty());
    assert(chars@.subrange(0, 0) =~= Seq::<char>::empty());
    while at < chars.len()
        invariant
            from <= at <= chars.len(),
            pieces(chars@.take(at as int), separator).len() == ranges@.len() + 1,
            ranges_match(
                chars@,
                ranges@,
                pieces(chars@.take(at as int), separator).drop_last(),
            ),
            pieces(chars@.take(at as int), separator).last() == chars@.subrange(
                from as int,
                at as int,
            ),
        decreases chars.len() - at,
    {
        let ghost before = pieces(chars@.take(at as int), separator);
        let ghost after = pieces(chars@.take(at + 1), separator);
        assert(chars@.take(at + 1).drop_last() =~= chars@.take(at as int));
        if chars[at] == separator {
            ranges.push((from, at));
            from = at + 1;
            assert(after.drop_last() =~= before);
            assert(chars@.subrange(from as int, at + 1) =~= Seq::<char>::empty());
        } else {
            assert(after.drop_last() =~= before.drop_last());
            assert(after.last() =~= chars@.subrange(from as int, at + 1));
        }
        at = at + 1;
    }
    assert(chars@.take(at as int) =~= chars@);
    ranges.push((from, at));
    ranges
}

/// A line without the carriage return that may stand before its line feed.
pub open spec fn without_return(line: Seq<char>) -> Seq<char> {
    if line.len() > 0 && line.last() == '\r' {
        line.drop_last()
    } else {
        line
    }
}

/// The lines of a text. A line ends with a line feed, or a carriage return and a line
/// feed; the last one may go without.
pub open spec fn lines_of(text: Seq<char>) -> Seq<Seq<char>> {
    let cut = pieces(text, '\n');
    let ended = cut.drop_last().map_values(|line: Seq<char>| without_return(line));
    if cut.last().len() == 0 {
        ended
    } else {
        ended.push(cut.last())
    }
}

/// Finds the lines of a text and returns the range of each.
pub fn lines(chars: &Vec<char>) -> (ranges: Vec<(usize, usize)>)
    ensures
        ranges_match(chars@, ranges@, lines_of(chars@)),
{
    proof {
        pieces_not_empty(chars@, '\n');
    }
    let ghost cut = pieces(chars@, '\n');
    let ghost all = lines_of(chars@);
    let whole: Vec<(usize, usize)> = split(chars, '\n');
    let mut ranges: Vec<(usize, usize)> = Vec::new();
    let mut k: usize = 0;
    while k < whole.len() - 1
        invariant
            1 <= whole@.len(),
            k <= whole@.len() - 1,
            ranges@.len() == k,
            cut == pieces(chars@, '\n'),
            all == lines_of(chars@),
            ranges_match(chars@, whole@, cut),
            forall|j: int|
                0 <= j < k ==> {
                    &&& (#[trigger] ranges@[j]).0 <= ranges@[j].1 <= chars.len()
                    &&& all[j] == chars@.subrange(ranges@[j].0 as int, ranges@[j].1 as int)
                },
        decreases whole@.len() - k,
    {
        let (from, to): (usize, usize) = whole[k];
        assert(cut[k as int] == chars@.subrange(from as int, to as int));
        assert(all[k as int] == without_return(cut[k as int]));
        if from < to && chars[to - 1] == '\r' {
            assert(cut[k as int].drop_last() =~= chars@.subrange(from as int, to - 1));
            ranges.push((from, (to - 1) as usize));
        } else {
            ranges.push((from, to));
        }
        k = k + 1;
    }
    let (from, to): (usize, usize) = whole[k];
    assert(cut[k as int] == chars@.subrange(from as int, to as int));
    if from < to {
        ranges.push((from, to));
    }
    ranges
}

/// The lines, each ended by a carriage return and a line feed.
pub open spec fn ended_lines(lines: Seq<Seq<char>>) -> Seq<char>
    decreases lines.len(),
{
    if lines.len() == 0 {
        Seq::empty()
    } else {
        (ended_lines(lines.drop_last()) + lines.last().push('\r')).push('\n')
    }
}

/// No line feed stands in the text.
pub open spec fn one_line(text: Seq<char>) -> bool {
    forall|i: int| 0 <= i < text.len() ==> #[trigger] text[i] != '\n'
}

proof fn ended_pieces(lines: Seq<Seq<char>>)
    requires
        forall|k: int| 0 <= k < lines.len() ==> one_line(#[trigger] lines[k]),
    ensures
        pieces(ended_lines(lines), '\n') == lines.map_values(
            |line: Seq<char>| line.push('\r'),
        ).push(Seq::empty()),
    decreases lines.len(),
{
    let returned = lines.map_values(|line: Seq<char>| line.push('\r'));
    let empty = Seq::<char>::empty();
    if lines.len() == 0 {
        assert(pieces(ended_lines(lines), '\n') =~= returned.push(empty));
    } else {
        let shorter = lines.drop_last();
        assert forall|k: int| 0 <= k < shorter.len() implies one_line(#[trigger] shorter[k]) by {
            assert(shorter[k] == lines[k]);
        }
        ended_pieces(shorter);
        let text = ended_lines(shorter);
        let before = shorter.map_values(|line: Seq<char>| line.push('\r'));
        let more = lines.last().push('\r');
        assert(one_line(lines[lines.len() - 1]));
        assert forall|i: int| 0 <= i < more.len() implies #[trigger] more[i] != '\n' by {
            if i < lines.last().len() {
                assert(more[i] == lines.last()[i]);
            }
        }
        pieces_extended(text, more, '\n');
        assert(before.push(empty).drop_last() =~= before);
        assert(empty + more =~= more);
        assert((text + more).push('\n').drop_last() =~= text + more);
        assert(before.push(more) =~= returned);
    }
}

/// Lines that were ended one by one are read back as they were.
pub proof fn lines_round_trip(lines: Seq<Seq<char>>)
    requires
        forall|k: int| 0 <= k < lines.len() ==> one_line(#[trigger] lines[k]),
    ensures
        lines_of(ended_lines(lines)) == lines,
{
    ended_pieces(lines);
    let returned = lines.map_values(|line: Seq<char>| line.push('\r'));
    let cut = pieces(ended_lines(lines), '\n');
    assert(cut.drop_last() =~= returned);
    let read = returned.map_values(|line: Seq<char>| without_return(line));
    assert forall|k: int| 0 <= k < lines.len() implies #[trigger] read[k] == lines[k] by {
        assert(lines[k].push('\r').drop_last() =~= lines[k]);
    }
    assert(read =~= lines);
}

/// A number below ten is written as its digit, and any other as what it has but for the
/// last digit, followed by that digit. The digits follow each other from `0`.
pub proof fn decimal_by_digits(n: int)
    requires
        0 <= n,
    ensures
        n < 10 ==> decimal(n) == seq![(48 + n) as char],
        n >= 10 ==> decimal(n) == decimal(n / 10).push((48 + n % 10) as char),
{
}

/// The characters are digits, and there is at least one.
proof fn digits_as_they_are(text: Seq<char>)
    requires
        text.len() > 0,
        forall|i: int| 0 <= i < text.len() ==> '0' <= #[trigger] text[i] <= '9',
    ensures
        all_digits(text),
        unsigned(text) == text,
        0 <= digits_value(text),
{
    assert forall|i: int| 0 <= i < text.len() implies is_digit(#[trigger] text[i]) by {}
    assert('0' <= text[0] <= '9');
    digits_value_grows(text, 0);
    assert(text.take(0) =~= Seq::<char>::empty());
}

/// A digit spells its number. A digit behind a number that is spelled makes it ten times as
/// large and adds the digit; what a `usize` cannot hold is no number, and stays none with
/// more digits.
pub proof fn number_by_digits(text: Seq<char>, digit: char)
    requires
        forall|i: int| 0 <= i < text.len() ==> '0' <= #[trigger] text[i] <= '9',
        '0' <= digit <= '9',
    ensures
        number_of(seq![digit]) == Some((digit as int - 48) as usize),
        text.len() > 0 ==> number_of(text.push(digit)) == match number_of(text) {
            Some(n) => if 10 * n + (digit as int - 48) <= usize::MAX {
                Some((10 * n + (digit as int - 48)) as usize)
            } else {
                None
            },
            None => None,
        },
{
    let one = seq![digit];
    digits_as_they_are(one);
    assert(one.drop_last() =~= Seq::<char>::empty());
    assert(digits_value(one.drop_last()) == 0);
    if text.len() > 0 {
        let longer = text.push(digit);
        digits_as_they_are(text);
        assert forall|i: int| 0 <= i < longer.len() implies '0' <= #[trigger] longer[i] <= '9' by {
            if i < text.len() {
                assert(longer[i] == text[i]);
            }
        }
        digits_as_they_are(longer);
        assert(longer.drop_last() =~= text);
    }
}

/// A plus sign before digits changes nothing.
pub proof fn number_with_plus(text: Seq<char>)
    requires
        text.len() > 0,
        forall|i: int| 0 <= i < text.len() ==> '0' <= #[trigger] text[i] <= '9',
    ensures
        number_of(seq!['+'] + text) == number_of(text),
{
    digits_as_they_are(text);
    assert((seq!['+'] + text).skip(1) =~= text);
}

/// Nothing spells no number, nor does a sign alone, nor does a text with anything else than
/// digits in it, but for a plus sign in front.
pub proof fn number_refused(text: Seq<char>, i: int)
    ensures
        number_of(Seq::empty()) is None,
        number_of(seq!['+']) is None,
        0 <= i < text.len() && !('0' <= text[i] <= '9') && !(i == 0 && text[i] == '+') ==> number_of(
            text,
        ) is None,
{
    assert(seq!['+'].skip(1).len() == 0);
    if 0 <= i < text.len() && !('0' <= text[i] <= '9') && !(i == 0 && text[i] == '+') {
        let digits = unsigned(text);
        if text[0] == '+' {
            assert(digits[i - 1] == text[i]);
            assert(!is_digit(digits[i - 1]));
        } else {
            assert(!is_digit(digits[i]));
        }
    }
}

/// The characters between white space and white space are kept as they are.
pub proof fn trimmed_between(left: Seq<char>, text: Seq<char>, right: Seq<char>)
    requires
        forall|i: int| 0 <= i < left.len() ==> is_space(#[trigger] left[i]),
        forall|i: int| 0 <= i < right.len() ==> is_space(#[trigger] right[i]),
        text.len() > 0 ==> !is_space(text[0]) && !is_space(text.last()),
    ensures
        trimmed(left + text + right) == text,
    decreases left.len() + right.len(),
{
    let whole = left + text + right;
    if left.len() > 0 {
        let less = left.skip(1);
        assert forall|i: int| 0 <= i < less.len() implies is_space(#[trigger] less[i]) by {
            assert(less[i] == left[i + 1]);
        }
        trimmed_between(less, text, right);
        assert(whole.skip(1) =~= less + text + right);
        assert(is_space(left[0]));
        assert(whole[0] == left[0]);
    } else if text.len() == 0 {
        if right.len() > 0 {
            let less = right.skip(1);
            assert forall|i: int| 0 <= i < less.len() implies is_space(#[trigger] less[i]) by {
                assert(less[i] == right[i + 1]);
            }
            trimmed_between(left, text, less);
            assert(whole.skip(1) =~= left + text + less);
            assert(is_space(right[0]));
            assert(whole[0] == right[0]);
        } else {
            assert(whole =~= text);
        }
    } else {
        assert(whole[0] == text[0]);
        trimmed_right(text, right);
        assert(whole =~= text + right);
    }
}

proof fn trimmed_right(text: Seq<char>, right: Seq<char>)
    requires
        forall|i: int| 0 <= i < right.len() ==> is_space(#[trigger] right[i]),
        text.len() > 0,
        !is_space(text.last()),
    ensures
        trimmed_end(text + right) == text,
    decreases right.len(),
{
    if right.len() > 0 {
        let less = right.drop_last();
        assert forall|i: int| 0 <= i < less.len() implies is_space(#[trigger] less[i]) by {
            assert(less[i] == right[i]);
        }
        trimmed_right(text, less);
        assert((text + right).drop_last() =~= text + less);
        assert(is_space(right[right.len() - 1]));
    } else {
        assert(text + right =~= text);
    }
}

/// No text is one empty piece, and a separator starts another.
pub proof fn pieces_cut(text: Seq<char>, separator: char)
    ensures
        pieces(Seq::empty(), separator) == seq![Seq::<char>::empty()],
        pieces(text.push(separator), separator) == pieces(text, separator).push(Seq::empty()),
{
    assert(text.push(separator).drop_last() =~= text);
}

/// The lines of a text are its pieces between line feeds, each without one carriage return
/// at its end; what follows the last line feed is a line as it is, if it is anything.
pub proof fn lines_by_pieces(text: Seq<char>, k: int)
    ensures
        ({
            let cut = pieces(text, '\n');
            let lines = lines_of(text);
            &&& cut.last().len() == 0 ==> lines.len() == cut.len() - 1
            &&& cut.last().len() > 0 ==> lines.len() == cut.len() && lines.last() == cut.last()
            &&& 0 <= k < cut.len() - 1 && cut[k].len() > 0 && cut[k].last() == '\r' ==> lines[k]
                == cut[k].drop_last()
            &&& 0 <= k < cut.len() - 1 && !(cut[k].len() > 0 && cut[k].last() == '\r')
                ==> lines[k] == cut[k]
        }),
{
    pieces_not_empty(text, '\n');
}

} // verus!
