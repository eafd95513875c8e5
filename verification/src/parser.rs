//! Reading the text of a composition: one beat on each line.

use crate::composition::{BeatVec, InvalidInput, Line};
use crate::pitch::{digit_value, lemma_pitch_at, letter_class, pitch_at, pitch_from_text, Pitch};
use crate::string_number::StringNumber;
use crate::text::{chars_of, decimal, join_lines, joined_lines, push_decimal, texts_of};
use vstd::prelude::*;
use vstd::slice::*;
use vstd::string::*;

verus! {

/// Whether `c` is white space (the characters that Unicode gives the property
/// `White_Space`).
pub open spec fn is_whitespace(c: char) -> bool {
    let code = c as u32;
    ||| 0x09 <= code <= 0x0d
    ||| code == 0x20
    ||| code == 0x85
    ||| code == 0xa0
    ||| code == 0x1680
    ||| 0x2000 <= code <= 0x200a
    ||| code == 0x2028
    ||| code == 0x2029
    ||| code == 0x202f
    ||| code == 0x205f
    ||| code == 0x3000
}

/// `text` without its white space.
pub open spec fn without_whitespace(text: Seq<char>) -> Seq<char>
    decreases text.len(),
{
    if text.len() == 0 {
        Seq::empty()
    } else if is_whitespace(text.last()) {
        without_whitespace(text.drop_last())
    } else {
        without_whitespace(text.drop_last()).push(text.last())
    }
}

/// Whether a comment begins at place `at` of `line`: two slashes.
pub open spec fn comment_begins(line: Seq<char>, at: int) -> bool {
    0 <= at && at + 1 < line.len() && line[at] == '/' && line[at + 1] == '/'
}

/// Whether the first comment of `line` begins at place `at`.
pub open spec fn first_comment_begins(line: Seq<char>, at: int) -> bool {
    comment_begins(line, at) && forall|before: int| 0 <= before < at ==> !comment_begins(line, before)
}

/// `line` up to its first comment; all of it where it has none.
pub open spec fn without_comments(line: Seq<char>) -> Seq<char> {
    if exists|at: int| first_comment_begins(line, at) {
        line.take(choose|at: int| first_comment_begins(line, at))
    } else {
        line
    }
}

/// Whether `line` is a break between measures: one or more dashes of one kind
/// (hyphen, en dash or em dash) and nothing else.
pub open spec fn is_measure_break(line: Seq<char>) -> bool {
    &&& line.len() > 0
    &&& line[0] == '-' || line[0] == '\u{2013}' || line[0] == '\u{2014}'
    &&& forall|i: int| 0 <= i < line.len() ==> #[trigger] line[i] == line[0]
}

/// Whether `c` can stand between the letter and the digit of a pitch-shaped
/// token. The vertical bar counts, though no pitch is written with it.
pub open spec fn is_accidental_sign(c: char) -> bool {
    c == '#' || c == '|' || c == '\u{266f}' || c == 'b' || c == 'B' || c == '\u{266d}'
}

/// The length of the pitch-shaped token that begins at place `at` of `line`: 3
/// for a letter, a sign and a digit, 2 for a letter and a digit, 0 where neither
/// begins there.
pub open spec fn token_len(line: Seq<char>, at: int) -> int {
    if at + 2 < line.len() && letter_class(line[at]) is Some && is_accidental_sign(line[at + 1])
        && digit_value(line[at + 2]) is Some {
        3
    } else if at + 1 < line.len() && letter_class(line[at]) is Some && digit_value(line[at + 1])
        is Some {
        2
    } else {
        0
    }
}

/// What a scan of `line` from place `at` finds: the pitches, in their order,
/// and the places of the characters that belong to no pitch. The scan looks for
/// the next token, takes it whole, and goes on behind it; a token that names no
/// pitch leaves its characters unmatched.
pub open spec fn scan_from(line: Seq<char>, at: int) -> (Seq<Pitch>, Seq<usize>)
    decreases line.len() - at,
{
    if at < 0 || at >= line.len() {
        (Seq::empty(), Seq::empty())
    } else {
        let len = token_len(line, at);
        if len == 0 {
            let rest = scan_from(line, at + 1);
            (rest.0, seq![at as usize] + rest.1)
        } else {
            let rest = scan_from(line, at + len);
            match pitch_from_text(line.subrange(at, at + len)) {
                Some(pitch) => (seq![pitch] + rest.0, rest.1),
                None => (rest.0, Seq::new(len as nat, |k: int| (at + k) as usize) + rest.1),
            }
        }
    }
}

/// `numbers` cut into its runs of consecutive numbers: a new run begins wherever
/// a number is not the one before it plus one.
pub open spec fn consecutive_runs(numbers: Seq<usize>) -> Seq<Seq<usize>>
    decreases numbers.len(),
{
    if numbers.len() == 0 {
        Seq::empty()
    } else if numbers.len() == 1 {
        seq![numbers]
    } else {
        let before = consecutive_runs(numbers.drop_last());
        if numbers[numbers.len() - 2] + 1 == numbers.last() {
            before.drop_last().push(before.last().push(numbers.last()))
        } else {
            before.push(seq![numbers.last()])
        }
    }
}

/// The views of the slices of `slices`.
pub open spec fn runs_of(slices: Seq<&[usize]>) -> Seq<Seq<usize>> {
    slices.map_values(|slice: &[usize]| slice@)
}

/// The part of `line` that the run `run` of places covers, with the number of
/// the line.
pub open spec fn unparsed_input(line: Seq<char>, run: Seq<usize>, line_number: nat) -> (
    Seq<char>,
    nat,
) {
    (line.subrange(run.first() as int, run.last() + 1), line_number)
}

/// What `parse_pitch` makes of `line`, the line at index `input_index`: the
/// pitches where every character belongs to one, else each stretch of unmatched
/// characters with the line's number.
pub open spec fn parsed_pitches(input_index: nat, line: Seq<char>) -> Result<
    Line<Seq<Pitch>>,
    Seq<(Seq<char>, nat)>,
> {
    let found = scan_from(line, 0);
    if found.1.len() == 0 {
        Ok(Line::Playable(found.0))
    } else {
        Err(
            consecutive_runs(found.1).map_values(
                |run: Seq<usize>| unparsed_input(line, run, input_index + 1),
            ),
        )
    }
}

/// What `parse_line` makes of `line`, the line at index `input_index`: without
/// its comment and its white space, an empty line is a rest, a line of dashes a
/// break between measures, and any other line is read as pitches.
pub open spec fn parsed_line(input_index: nat, line: Seq<char>) -> Result<
    Line<Seq<Pitch>>,
    Seq<(Seq<char>, nat)>,
> {
    let content = without_whitespace(without_comments(line));
    if content.len() == 0 {
        Ok(Line::Rest)
    } else if is_measure_break(content) {
        Ok(Line::MeasureBreak)
    } else {
        parsed_pitches(input_index, content)
    }
}

/// The place of the first line feed of `text` at or behind place `from`; the
/// length of `text` where there is none.
pub open spec fn line_end(text: Seq<char>, from: int) -> int
    decreases text.len() - from,
{
    if from < 0 || from >= text.len() {
        text.len() as int
    } else if text[from] == '\n' {
        from
    } else {
        line_end(text, from + 1)
    }
}

/// The line of `text` between the places `from` and `end`. A carriage return
/// before the line feed at `end` belongs to the line ending.
pub open spec fn line_content(text: Seq<char>, from: int, end: int) -> Seq<char> {
    if end < text.len() && from < end && text[end - 1] == '\r' {
        text.subrange(from, end - 1)
    } else {
        text.subrange(from, end)
    }
}

/// The lines of `text` from place `from` on. A line ends at a line feed; what
/// follows the last line feed is a line only if it is not empty.
pub open spec fn lines_from(text: Seq<char>, from: int) -> Seq<Seq<char>>
    decreases text.len() - from,
{
    if from < 0 || from >= text.len() {
        Seq::empty()
    } else {
        let end = line_end(text, from);
        if from <= end < text.len() {
            seq![line_content(text, from, end)] + lines_from(text, end + 1)
        } else {
            seq![line_content(text, from, end)]
        }
    }
}

/// What the lines `lines` hold: the parsed lines, and the inputs that could not
/// be parsed, in the order of the lines.
pub open spec fn parsed_lines(lines: Seq<Seq<char>>) -> (
    Seq<Line<Seq<Pitch>>>,
    Seq<(Seq<char>, nat)>,
)
    decreases lines.len(),
{
    if lines.len() == 0 {
        (Seq::empty(), Seq::empty())
    } else {
        let before = parsed_lines(lines.drop_last());
        match parsed_line((lines.len() - 1) as nat, lines.last()) {
            Ok(line) => (before.0.push(line), before.1),
            Err(inputs) => (before.0, before.1 + inputs),
        }
    }
}

/// What `parse_pitches` makes of `input`: its lines, if each of them can be
/// parsed, else every input that could not be.
pub open spec fn parsed_input(input: Seq<char>) -> Result<
    Seq<Line<Seq<Pitch>>>,
    Seq<(Seq<char>, nat)>,
> {
    let parsed = parsed_lines(lines_from(input, 0));
    if parsed.1.len() == 0 {
        Ok(parsed.0)
    } else {
        Err(parsed.1)
    }
}

/// The message that tells of one input that could not be parsed.
pub open spec fn unparsed_message(input: (Seq<char>, nat)) -> Seq<char> {
    "Input '"@ + input.0 + "' on line "@ + decimal(input.1)
        + " could not be parsed into a pitch."@
}

/// Inputs that could not be parsed into pitches.
#[derive(Debug, Clone, PartialEq, Eq)]
pub struct ParseError {
    pub inputs: Vec<InvalidInput>,
}

impl ParseError {
    /// The text of the message for this error: a line for each input.
    pub open spec fn spec_message(self) -> Seq<char> {
        joined_lines(
            self.inputs.deep_view().map_values(|input: (Seq<char>, nat)| unparsed_message(input)),
        )
    }

    /// The message for this error.
    pub fn message(&self) -> (s: String)
        ensures
            s@ == self.spec_message(),
    {
        let mut lines: Vec<String> = Vec::new();
        let mut i: usize = 0;
        while i < self.inputs.len()
            invariant
                i <= self.inputs.len(),
                lines.len() == i,
                forall|k: int|
                    0 <= k < i ==> (#[trigger] lines@[k])@ == unparsed_message(
                        self.inputs.deep_view()[k],
                    ),
            decreases self.inputs.len() - i,
        {
            let mut line = "Input '".to_owned();
            line.append(self.inputs[i].value.as_str());
            line.append("' on line ");
            push_decimal(&mut line, self.inputs[i].line_number);
            line.append(" could not be parsed into a pitch.");
            assert(line@ == unparsed_message(self.inputs.deep_view()[i as int]));
            lines.push(line);
            i += 1;
        }
        assert(texts_of(lines@) =~= self.inputs.deep_view().map_values(
            |input: (Seq<char>, nat)| unparsed_message(input),
        ));
        join_lines(&lines)
    }
}

/// The runs of consecutive numbers in `numbers`, in the order in which they
/// stand there; the input is not sorted first.
pub fn consecutive_slices(numbers: &[usize]) -> (result: Vec<&[usize]>)
    ensures
        runs_of(result@) == consecutive_runs(numbers@),
{
    let mut result: Vec<&[usize]> = Vec::new();
    if numbers.len() == 0 {
        assert(runs_of(result@) =~= consecutive_runs(numbers@));
        return result;
    }
    let mut slice_start: usize = 0;
    let mut i: usize = 1;
    assert(numbers@.take(1) =~= seq![numbers@[0]]);
    assert(numbers@.subrange(0, 1) =~= seq![numbers@[0]]);
    assert(runs_of(result@) =~= Seq::<Seq<usize>>::empty());
    assert(consecutive_runs(numbers@.take(1)) =~= runs_of(result@).push(numbers@.subrange(0, 1)));
    while i < numbers.len()
        invariant
            1 <= i <= numbers.len(),
            slice_start < i,
            consecutive_runs(numbers@.take(i as int)) == runs_of(result@).push(
                numbers@.subrange(slice_start as int, i as int),
            ),
        decreases numbers.len() - i,
    {
        let ghost so_far = numbers@.take(i as int);
        let ghost next = numbers@.take(i + 1);
        assert(next.drop_last() =~= so_far);
        assert(next[next.len() - 2] == numbers@[i - 1]);
        assert(next.last() == numbers@[i as int]);
        let ghost open_run = numbers@.subrange(slice_start as int, i as int);
        assert(runs_of(result@).push(open_run).drop_last() =~= runs_of(result@));
        if numbers[i - 1] == usize::MAX || numbers[i - 1] + 1 != numbers[i] {
            let ghost before = runs_of(result@);
            result.push(slice_subrange(numbers, slice_start, i));
            assert(runs_of(result@) =~= before.push(open_run));
            slice_start = i;
            assert(numbers@.subrange(i as int, i + 1) =~= seq![numbers@[i as int]]);
        } else {
            assert(numbers@.subrange(slice_start as int, i + 1) =~= open_run.push(
                numbers@[i as int],
            ));
        }
        i += 1;
    }
    assert(numbers@.take(i as int) =~= numbers@);
    let ghost before = runs_of(result@);
    result.push(slice_subrange(numbers, slice_start, numbers.len()));
    assert(runs_of(result@) =~= before.push(numbers@.subrange(slice_start as int, i as int)));
    result
}

/// Every run of `consecutive_runs` is not empty, counts upwards by one, and
/// holds numbers of `numbers`.
pub proof fn lemma_consecutive_runs(numbers: Seq<usize>)
    ensures
        forall|r: int|
            0 <= r < consecutive_runs(numbers).len() ==> {
                let run = #[trigger] consecutive_runs(numbers)[r];
                &&& run.len() > 0
                &&& forall|k: int| 0 <= k < run.len() ==> #[trigger] run[k] == run[0] + k
                &&& forall|k: int| 0 <= k < run.len() ==> numbers.contains(#[trigger] run[k])
            },
        numbers.len() > 0 ==> consecutive_runs(numbers).len() > 0 && consecutive_runs(
            numbers,
        ).last().last() == numbers.last(),
    decreases numbers.len(),
{
    if numbers.len() == 1 {
        assert(numbers[0] == numbers.last());
    } else if numbers.len() > 1 {
        let shorter = numbers.drop_last();
        lemma_consecutive_runs(shorter);
        let before = consecutive_runs(shorter);
        let runs = consecutive_runs(numbers);
        assert(shorter.last() == numbers[numbers.len() - 2]);
        assert forall|r: int| 0 <= r < runs.len() implies {
            let run = #[trigger] runs[r];
            &&& run.len() > 0
            &&& forall|k: int| 0 <= k < run.len() ==> #[trigger] run[k] == run[0] + k
            &&& forall|k: int| 0 <= k < run.len() ==> numbers.contains(#[trigger] run[k])
        } by {
            let run = runs[r];
            if r < before.len() - 1 || (r == before.len() - 1 && runs.len() > before.len()) {
                assert(run == before[r]);
                assert forall|k: int| 0 <= k < run.len() implies numbers.contains(
                    #[trigger] run[k],
                ) by {
                    assert(shorter.contains(run[k]));
                    let at = choose|at: int| 0 <= at < shorter.len() && shorter[at] == run[k];
                    assert(numbers[at] == run[k]);
                }
            } else if runs.len() > before.len() {
                assert(run =~= seq![numbers.last()]);
                assert(numbers[numbers.len() - 1] == run[0]);
            } else {
                let open_run = before.last();
                assert(run =~= open_run.push(numbers.last()));
                assert(open_run.last() == shorter.last());
                assert forall|k: int| 0 <= k < run.len() implies numbers.contains(
                    #[trigger] run[k],
                ) by {
                    if k < open_run.len() {
                        assert(shorter.contains(open_run[k]));
                        let at = choose|at: int|
                            0 <= at < shorter.len() && shorter[at] == open_run[k];
                        assert(numbers[at] == run[k]);
                    } else {
                        assert(numbers[numbers.len() - 1] == run[k]);
                    }
                }
            }
        }
    }
}

/// Semitones by which each string of the tuning named `name` lies above its
/// pitch in the standard tuning, from string 1 to string 6. A name that is not
/// known means the standard tuning.
pub open spec fn tuning_offsets(name: Seq<char>) -> Seq<i8> {
    if name == "openg"@ {
        seq![-2i8, 0i8, 0i8, 0i8, -2i8, -2i8]
    } else if name == "opend"@ {
        seq![-2i8, -2i8, -1i8, 0i8, 0i8, -2i8]
    } else if name == "c6"@ {
        seq![0i8, 1i8, 0i8, -2i8, 0i8, -4i8]
    } else if name == "dsus4"@ {
        seq![-2i8, -2i8, 0i8, 0i8, 0i8, -2i8]
    } else if name == "dropd"@ {
        seq![0i8, 0i8, 0i8, 0i8, 0i8, -2i8]
    } else if name == "dropc"@ {
        seq![-2i8, -2i8, -2i8, -2i8, -2i8, -4i8]
    } else if name == "openc"@ {
        seq![0i8, 1i8, 0i8, -2i8, -2i8, -4i8]
    } else if name == "dropb"@ {
        seq![-3i8, -3i8, -3i8, -3i8, -3i8, -5i8]
    } else if name == "opene"@ {
        seq![0i8, 0i8, 1i8, 2i8, 2i8, 0i8]
    } else {
        seq![0i8, 0i8, 0i8, 0i8, 0i8, 0i8]
    }
}

/// The open pitch of string `string`, counted from 0, in the standard tuning of
/// a guitar: E4, B3, G3, D3, A2, E2.
pub open spec fn standard_pitch(string: int) -> Pitch {
    if string == 0 {
        Pitch::E4
    } else if string == 1 {
        Pitch::B3
    } else if string == 2 {
        Pitch::G3
    } else if string == 3 {
        Pitch::D3
    } else if string == 4 {
        Pitch::A2
    } else {
        Pitch::E2
    }
}

/// Whether the offsets `offsets` keep each of the six strings within the pitch
/// space.
pub open spec fn offsets_fit(offsets: Seq<i8>) -> bool {
    &&& offsets.len() == 6
    &&& forall|string: int|
        0 <= string < 6 ==> pitch_at(
            standard_pitch(string).spec_index() + #[trigger] offsets[string],
        ) is Some
}

/// The tuning of a guitar whose strings lie `offsets` semitones above the
/// standard tuning.
pub open spec fn tuning_with_offsets(offsets: Seq<i8>) -> Seq<(StringNumber, Pitch)> {
    Seq::new(
        6,
        |string: int|
            (
                StringNumber::spec_from((string + 1) as u8),
                pitch_at(standard_pitch(string).spec_index() + offsets[string]).unwrap(),
            ),
    )
}

/// Whether two texts are the same.
fn same_text(a: &str, b: &str) -> (same: bool)
    ensures
        same == (a@ == b@),
{
    let a_chars = chars_of(a);
    let b_chars = chars_of(b);
    if a_chars.len() != b_chars.len() {
        return false;
    }
    let mut i: usize = 0;
    while i < a_chars.len()
        invariant
            i <= a_chars.len(),
            a_chars.len() == b_chars.len(),
            a_chars@ == a@,
            b_chars@ == b@,
            forall|k: int| 0 <= k < i ==> a_chars@[k] == b_chars@[k],
        decreases a_chars.len() - i,
    {
        if a_chars[i] != b_chars[i] {
            return false;
        }
        i += 1;
    }
    assert(a@ =~= b@);
    true
}

/// The offsets of the tuning named `tuning_name`, from string 1 to string 6.
/// A name that is not known means the standard tuning.
pub fn parse_tuning(tuning_name: &str) -> (offsets: [i8; 6])
    ensures
        offsets@ == tuning_offsets(tuning_name@),
        offsets_fit(offsets@),
{
    let offsets: [i8; 6] = if same_text(tuning_name, "openg") {
        [-2, 0, 0, 0, -2, -2]
    } else if same_text(tuning_name, "opend") {
        [-2, -2, -1, 0, 0, -2]
    } else if same_text(tuning_name, "c6") {
        [0, 1, 0, -2, 0, -4]
    } else if same_text(tuning_name, "dsus4") {
        [-2, -2, 0, 0, 0, -2]
    } else if same_text(tuning_name, "dropd") {
        [0, 0, 0, 0, 0, -2]
    } else if same_text(tuning_name, "dropc") {
        [-2, -2, -2, -2, -2, -4]
    } else if same_text(tuning_name, "openc") {
        [0, 1, 0, -2, -2, -4]
    } else if same_text(tuning_name, "dropb") {
        [-3, -3, -3, -3, -3, -5]
    } else if same_text(tuning_name, "opene") {
        [0, 0, 1, 2, 2, 0]
    } else {
        [0, 0, 0, 0, 0, 0]
    };
    assert(offsets@ =~= tuning_offsets(tuning_name@));
    assert forall|string: int| 0 <= string < 6 implies pitch_at(
        standard_pitch(string).spec_index() + #[trigger] offsets@[string],
    ) is Some by {
        lemma_pitch_at(standard_pitch(string).spec_index() + offsets@[string]);
    }
    offsets
}

/// The tuning of a guitar whose strings lie `offset` semitones above the
/// standard tuning, from string 1 to string 6; `None` where a string would
/// leave the pitch space.
pub fn create_string_tuning_offset(offset: [i8; 6]) -> (tuning: Option<Vec<(StringNumber, Pitch)>>)
    ensures
        match tuning {
            Some(strings) => offsets_fit(offset@) && strings@ == tuning_with_offsets(offset@),
            None => !offsets_fit(offset@),
        },
{
    let mut strings: Vec<(StringNumber, Pitch)> = Vec::new();
    let mut string: usize = 0;
    while string < 6
        invariant
            string <= 6,
            offset@.len() == 6,
            strings.len() == string,
            forall|k: int|
                0 <= k < string ==> pitch_at(
                    standard_pitch(k).spec_index() + #[trigger] offset@[k],
                ) is Some,
            forall|k: int| 0 <= k < string ==> #[trigger] strings@[k] == tuning_with_offsets(offset@)[k],
        decreases 6 - string,
    {
        let standard: Pitch = if string == 0 {
            Pitch::E4
        } else if string == 1 {
            Pitch::B3
        } else if string == 2 {
            Pitch::G3
        } else if string == 3 {
            Pitch::D3
        } else if string == 4 {
            Pitch::A2
        } else {
            Pitch::E2
        };
        let place: i16 = standard.index() as i16 + offset[string] as i16;
        if place < 0 {
            proof {
                lemma_pitch_at(place as int);
            }
            return None;
        }
        let pitch = match Pitch::from_index(place as usize) {
            Some(pitch) => pitch,
            None => {
                return None;
            },
        };
        let string_number = match StringNumber::new((string + 1) as u8) {
            Ok(string_number) => string_number,
            Err(_) => {
                assert(false);
                return None;
            },
        };
        strings.push((string_number, pitch));
        string += 1;
    }
    assert(strings@ =~= tuning_with_offsets(offset@));
    Some(strings)
}

/// Whether `c` is white space.
fn is_whitespace_char(c: char) -> (b: bool)
    ensures
        b == is_whitespace(c),
{
    let code: u32 = c as u32;
    (0x09 <= code && code <= 0x0d) || code == 0x20 || code == 0x85 || code == 0xa0 || code
        == 0x1680 || (0x2000 <= code && code <= 0x200a) || code == 0x2028 || code == 0x2029
        || code == 0x202f || code == 0x205f || code == 0x3000
}

/// The part of `input_line` that stands before its first `//`.
pub fn remove_comments(input_line: &str) -> (r: &str)
    ensures
        r@ == without_comments(input_line@),
{
    let chars = chars_of(input_line);
    let mut at: usize = 0;
    while at < chars.len() && chars.len() - at > 1
        invariant
            chars@ == input_line@,
            forall|before: int| 0 <= before < at ==> !comment_begins(chars@, before),
        decreases chars.len() - at,
    {
        if chars[at] == '/' && chars[at + 1] == '/' {
            assert(first_comment_begins(chars@, at as int));
            return input_line.substring_char(0, at);
        }
        at += 1;
    }
    assert(forall|other: int| !first_comment_begins(chars@, other));
    input_line
}

/// `input` without its white space.
pub fn remove_whitespace(input: &str) -> (r: String)
    ensures
        r@ == without_whitespace(input@),
{
    let chars = chars_of(input);
    let mut r = String::new();
    let mut i: usize = 0;
    while i < chars.len()
        invariant
            i <= chars.len(),
            chars@ == input@,
            r@ == without_whitespace(chars@.take(i as int)),
        decreases chars.len() - i,
    {
        assert(chars@.take(i + 1).drop_last() =~= chars@.take(i as int));
        if !is_whitespace_char(chars[i]) {
            r.append(input.substring_char(i, i + 1));
            assert(input@.subrange(i as int, i + 1) =~= seq![chars@[i as int]]);
        }
        i += 1;
    }
    assert(chars@.take(i as int) =~= chars@);
    r
}

/// A rest, where the line is empty.
pub fn parse_rest(input_line: &str) -> (r: Option<Line<Vec<Pitch>>>)
    ensures
        input_line@.len() == 0 ==> r == Some(Line::<Vec<Pitch>>::Rest),
        input_line@.len() != 0 ==> r is None,
{
    if input_line.is_empty() {
        return Some(Line::Rest);
    }
    None
}

/// A break between measures, where the line consists of dashes of one kind.
pub fn parse_measure_break(input_line: &str) -> (r: Option<Line<Vec<Pitch>>>)
    ensures
        is_measure_break(input_line@) ==> r == Some(Line::<Vec<Pitch>>::MeasureBreak),
        !is_measure_break(input_line@) ==> r is None,
{
    let chars = chars_of(input_line);
    if chars.len() == 0 {
        return None;
    }
    let dash: char = chars[0];
    if !(dash == '-' || dash == '\u{2013}' || dash == '\u{2014}') {
        return None;
    }
    let mut i: usize = 1;
    while i < chars.len()
        invariant
            1 <= i <= chars.len(),
            chars@ == input_line@,
            dash == chars@[0],
            forall|k: int| 0 <= k < i ==> #[trigger] chars@[k] == dash,
        decreases chars.len() - i,
    {
        if chars[i] != dash {
            return None;
        }
        i += 1;
    }
    Some(Line::MeasureBreak)
}

/// The views of the string slices of `lines`.
pub open spec fn lines_of(lines: Seq<&str>) -> Seq<Seq<char>> {
    lines.map_values(|line: &str| line@)
}

/// Whether `c` is the letter of a note.
fn is_letter_char(c: char) -> (b: bool)
    ensures
        b == letter_class(c) is Some,
{
    c == 'C' || c == 'c' || c == 'D' || c == 'd' || c == 'E' || c == 'e' || c == 'F' || c == 'f'
        || c == 'G' || c == 'g' || c == 'A' || c == 'a' || c == 'B' || c == 'b'
}

/// Whether `c` is a decimal digit.
fn is_digit_char(c: char) -> (b: bool)
    ensures
        b == digit_value(c) is Some,
{
    c == '0' || c == '1' || c == '2' || c == '3' || c == '4' || c == '5' || c == '6' || c == '7'
        || c == '8' || c == '9'
}

/// Whether `c` can stand between the letter and the digit of a token.
fn is_accidental_sign_char(c: char) -> (b: bool)
    ensures
        b == is_accidental_sign(c),
{
    c == '#' || c == '|' || c == '\u{266f}' || c == 'b' || c == 'B' || c == '\u{266d}'
}

/// The length of the pitch-shaped token at place `at` of `line`.
fn token_length(line: &Vec<char>, at: usize) -> (len: usize)
    requires
        at < line.len(),
    ensures
        len == token_len(line@, at as int),
        at + len <= line.len(),
{
    let left: usize = line.len() - at;
    if left > 2 && is_letter_char(line[at]) && is_accidental_sign_char(line[at + 1])
        && is_digit_char(line[at + 2]) {
        3
    } else if left > 1 && is_letter_char(line[at]) && is_digit_char(line[at + 1]) {
        2
    } else {
        0
    }
}

/// Reads a line of pitches that stand one behind the other, such as `C3G2A#1`.
/// The line holds neither white space nor a comment. Where part of it names no
/// pitch, every stretch of such text is reported with the number of the line,
/// which is `input_index + 1`.
pub fn parse_pitch(input_index: usize, input_line: &str) -> (r: Result<
    Line<Vec<Pitch>>,
    ParseError,
>)
    requires
        input_index < usize::MAX,
    ensures
        match r {
            Ok(line) => parsed_pitches(input_index as nat, input_line@) == Ok::<
                Line<Seq<Pitch>>,
                Seq<(Seq<char>, nat)>,
            >(line.deep_view()),
            Err(e) => parsed_pitches(input_index as nat, input_line@) == Err::<
                Line<Seq<Pitch>>,
                Seq<(Seq<char>, nat)>,
            >(e.inputs.deep_view()),
        },
{
    let chars = chars_of(input_line);
    let mut matched_pitches: Vec<Pitch> = Vec::new();
    let mut unmatched_indices: Vec<usize> = Vec::new();
    let mut at: usize = 0;
    while at < chars.len()
        invariant
            at <= chars.len(),
            chars@ == input_line@,
            scan_from(chars@, 0).0 == matched_pitches@ + scan_from(chars@, at as int).0,
            scan_from(chars@, 0).1 == unmatched_indices@ + scan_from(chars@, at as int).1,
            forall|k: int|
                0 <= k < unmatched_indices.len() ==> (#[trigger] unmatched_indices@[k])
                    < chars.len(),
        decreases chars.len() - at,
    {
        let len = token_length(&chars, at);
        let ghost rest = scan_from(chars@, at + if len == 0 {
            1int
        } else {
            len as int
        });
        let ghost pitches_before = matched_pitches@;
        let ghost unmatched_before = unmatched_indices@;
        if len == 0 {
            unmatched_indices.push(at);
            assert(unmatched_indices@ + rest.1 =~= unmatched_before + (seq![at] + rest.1));
            at += 1;
        } else {
            match Pitch::from_text(input_line.substring_char(at, at + len)) {
                Some(pitch) => {
                    matched_pitches.push(pitch);
                    assert(matched_pitches@ + rest.0 =~= pitches_before + (seq![pitch] + rest.0));
                },
                None => {
                    unmatched_indices.push(at);
                    unmatched_indices.push(at + 1);
                    if len == 3 {
                        unmatched_indices.push(at + 2);
                    }
                    assert(unmatched_indices@ =~= unmatched_before + Seq::new(
                        len as nat,
                        |k: int| (at + k) as usize,
                    ));
                    assert(unmatched_indices@ + rest.1 =~= unmatched_before + (Seq::new(
                        len as nat,
                        |k: int| (at + k) as usize,
                    ) + rest.1));
                },
            }
            at += len;
        }
    }
    assert(matched_pitches@ + Seq::<Pitch>::empty() =~= matched_pitches@);
    assert(unmatched_indices@ + Seq::<usize>::empty() =~= unmatched_indices@);
    if unmatched_indices.len() == 0 {
        assert(matched_pitches.deep_view() =~= matched_pitches@);
        return Ok(Line::Playable(matched_pitches));
    }
    let line_number: usize = input_index + 1;
    let consecutive_indices = consecutive_slices(unmatched_indices.as_slice());
    let ghost runs = consecutive_runs(unmatched_indices@);
    proof {
        lemma_consecutive_runs(unmatched_indices@);
    }
    let mut inputs: Vec<InvalidInput> = Vec::new();
    let mut i: usize = 0;
    while i < consecutive_indices.len()
        invariant
            i <= consecutive_indices.len(),
            chars@ == input_line@,
            line_number == input_index + 1,
            runs == consecutive_runs(unmatched_indices@),
            runs_of(consecutive_indices@) == runs,
            forall|r: int|
                0 <= r < runs.len() ==> {
                    let run = #[trigger] runs[r];
                    &&& run.len() > 0
                    &&& forall|k: int| 0 <= k < run.len() ==> #[trigger] run[k] == run[0] + k
                    &&& forall|k: int|
                        0 <= k < run.len() ==> unmatched_indices@.contains(#[trigger] run[k])
                },
            forall|k: int|
                0 <= k < unmatched_indices.len() ==> (#[trigger] unmatched_indices@[k])
                    < chars.len(),
            inputs.deep_view() == runs.take(i as int).map_values(
                |run: Seq<usize>| unparsed_input(input_line@, run, line_number as nat),
            ),
        decreases consecutive_indices.len() - i,
    {
        let unmatched_input_indices: &[usize] = consecutive_indices[i];
        let ghost run = runs[i as int];
        assert(unmatched_input_indices@ == runs_of(consecutive_indices@)[i as int]);
        assert(run.len() > 0);
        let first_idx: usize = unmatched_input_indices[0];
        let last_idx: usize = unmatched_input_indices[unmatched_input_indices.len() - 1];
        assert(run[run.len() - 1] == run[0] + (run.len() - 1));
        assert(unmatched_indices@.contains(run[run.len() - 1]));
        let value = input_line.substring_char(first_idx, last_idx + 1).to_owned();
        let ghost before = inputs.deep_view();
        inputs.push(InvalidInput { value, line_number });
        assert(inputs.deep_view() =~= before.push(
            unparsed_input(input_line@, run, line_number as nat),
        ));
        i += 1;
        assert(inputs.deep_view() =~= runs.take(i as int).map_values(
            |run: Seq<usize>| unparsed_input(input_line@, run, line_number as nat),
        ));
    }
    assert(runs.take(i as int) =~= runs);
    Err(ParseError { inputs })
}

/// Reads one line of a composition, the line at index `input_index`: after the
/// comment and all white space are taken out, an empty line is a rest, a line
/// of dashes a break between measures, and any other line a beat of pitches.
pub fn parse_line(input_index: usize, input_line: &str) -> (r: Result<
    Line<Vec<Pitch>>,
    ParseError,
>)
    requires
        input_index < usize::MAX,
    ensures
        match r {
            Ok(line) => parsed_line(input_index as nat, input_line@) == Ok::<
                Line<Seq<Pitch>>,
                Seq<(Seq<char>, nat)>,
            >(line.deep_view()),
            Err(e) => parsed_line(input_index as nat, input_line@) == Err::<
                Line<Seq<Pitch>>,
                Seq<(Seq<char>, nat)>,
            >(e.inputs.deep_view()),
        },
{
    let without_comment = remove_comments(input_line);
    let line_content: String = remove_whitespace(without_comment);
    match parse_rest(line_content.as_str()) {
        Some(rest) => {
            return Ok(rest);
        },
        None => {},
    }
    match parse_measure_break(line_content.as_str()) {
        Some(measure_break) => {
            return Ok(measure_break);
        },
        None => {},
    }
    parse_pitch(input_index, line_content.as_str())
}

/// The lines of `input`.
fn split_lines(input: &str) -> (lines: Vec<&str>)
    ensures
        lines_of(lines@) == lines_from(input@, 0),
{
    let chars = chars_of(input);
    let mut lines: Vec<&str> = Vec::new();
    let mut from: usize = 0;
    assert(lines_of(lines@) + lines_from(chars@, 0) =~= lines_from(chars@, 0));
    while from < chars.len()
        invariant
            from <= chars.len(),
            chars@ == input@,
            lines_from(chars@, 0) == lines_of(lines@) + lines_from(chars@, from as int),
        decreases chars.len() - from,
    {
        let mut end: usize = from;
        while end < chars.len() && chars[end] != '\n'
            invariant
                from <= end <= chars.len(),
                line_end(chars@, from as int) == line_end(chars@, end as int),
            decreases chars.len() - end,
        {
            end += 1;
        }
        let content_end: usize = if end < chars.len() && from < end && chars[end - 1] == '\r' {
            end - 1
        } else {
            end
        };
        let ghost before = lines_of(lines@);
        let ghost content = line_content(chars@, from as int, end as int);
        lines.push(input.substring_char(from, content_end));
        assert(lines_of(lines@) =~= before.push(content));
        let ghost here = from;
        if end < chars.len() {
            from = end + 1;
        } else {
            from = end;
        }
        assert(lines_of(lines@) + lines_from(chars@, from as int) =~= before + lines_from(
            chars@,
            here as int,
        ));
    }
    assert(lines_of(lines@) + Seq::<Seq<char>>::empty() =~= lines_of(lines@));
    lines
}

/// Reads a composition, one beat on each line. Either every line can be
/// parsed, and the lines are returned in their order, or the error lists every
/// input that could not be parsed, from all lines.
pub fn parse_pitches(input: String) -> (r: Result<Vec<Line<BeatVec<Pitch>>>, ParseError>)
    ensures
        match r {
            Ok(lines) => parsed_input(input@) == Ok::<
                Seq<Line<Seq<Pitch>>>,
                Seq<(Seq<char>, nat)>,
            >(lines.deep_view()),
            Err(e) => parsed_input(input@) == Err::<
                Seq<Line<Seq<Pitch>>>,
                Seq<(Seq<char>, nat)>,
            >(e.inputs.deep_view()),
        },
{
    let input_lines = split_lines(input.as_str());
    let mut parsed: Vec<Line<BeatVec<Pitch>>> = Vec::new();
    let mut inputs: Vec<InvalidInput> = Vec::new();
    let mut i: usize = 0;
    while i < input_lines.len()
        invariant
            i <= input_lines.len(),
            parsed_lines(lines_of(input_lines@).take(i as int)) == (
                parsed.deep_view(),
                inputs.deep_view(),
            ),
        decreases input_lines.len() - i,
    {
        assert(lines_of(input_lines@).take(i + 1).drop_last() =~= lines_of(input_lines@).take(
            i as int,
        ));
        assert(lines_of(input_lines@).take(i + 1).last() == input_lines@[i as int]@);
        let ghost parsed_before = parsed.deep_view();
        let ghost inputs_before = inputs.deep_view();
        match parse_line(i, input_lines[i]) {
            Ok(line) => {
                let ghost line_view = line.deep_view();
                parsed.push(line);
                assert(parsed.deep_view() =~= parsed_before.push(line_view));
            },
            Err(e) => {
                let mut line_inputs = e.inputs;
                let ghost added = line_inputs.deep_view();
                inputs.append(&mut line_inputs);
                assert(inputs.deep_view() =~= inputs_before + added);
            },
        }
        i += 1;
    }
    assert(lines_of(input_lines@).take(i as int) =~= lines_of(input_lines@));
    if inputs.len() == 0 {
        Ok(parsed)
    } else {
        Err(ParseError { inputs })
    }
}

} // verus!
