//! Tablature for fretted string instruments: reads a composition, beat by beat,
//! finds the ways to play it on an instrument that cost the hand least, and
//! draws them as tablature.

use crate::arrangement::{arrangements_of, unplayable_in_lines, Arrangement, ArrangementError};
use crate::composition::{BeatVec, Line};
use crate::guitar::{
    all_strings_fit, is_construction_error, lemma_strings_of_guitar, ordered_tuning,
    raised_tuning, strings_of, Fingering, Guitar, GuitarError, MAX_NUM_FRETS,
};
use crate::parser::{
    create_string_tuning_offset, parse_pitches, parse_tuning, parsed_input, tuning_offsets,
    tuning_with_offsets, ParseError,
};
use crate::pitch::Pitch;
use crate::renderer::{render_tab, rendered_tab};
use crate::search::{best_paths, candidate_layers, create_arrangements};
use crate::string_number::StringNumber;
use vstd::prelude::*;
use vstd::string::*;

pub mod arrangement;
pub mod box_fingering;
pub mod composition;
pub mod guitar;
pub mod parser;
pub mod pitch;
pub mod ranking;
pub mod renderer;
pub mod search;
pub mod search_lemmas;
pub mod string_number;
pub mod text;
pub mod views;

verus! {

/// What is asked for: the composition, the instrument, and how to draw the
/// tablature.
#[derive(Debug, Clone, PartialEq, Eq)]
pub struct CompositionInput {
    /// The text of the composition, one beat on each line.
    pub pitches: String,
    /// The name of the tuning of the guitar.
    pub tuning_name: String,
    /// The number of frets of the guitar.
    pub guitar_num_frets: u8,
    /// The fret that the capo sits at; 0 for none.
    pub guitar_capo: u8,
    /// How many arrangements are wanted.
    pub num_arrangements: u8,
    /// The number of characters in a row of the tablature.
    pub width: u16,
    /// The number of dashes before each beat of the tablature.
    pub padding: u8,
    /// The index of the line that is being played, if one is.
    pub playback_index: Option<u16>,
    /// What a grip of open strings alone costs.
    pub open_string_cost: u32,
}

/// One way to play the composition.
#[derive(Debug, Clone, PartialEq, Eq)]
pub struct Composition {
    /// The tablature.
    pub tab: String,
    /// The names of the pitches of each line, from the first line that is played;
    /// a rest and a break between measures are named as such.
    pub pitches: Vec<BeatVec<String>>,
    /// The largest distance, over the lines, between the lowest and the highest
    /// fret pressed on one line.
    pub max_fret_span: u8,
}

/// Why no composition can be given.
#[derive(Debug, Clone, PartialEq, Eq)]
pub enum CompositionError {
    /// The text of the composition cannot be parsed.
    Parse(ParseError),
    /// The guitar cannot be built.
    Guitar(GuitarError),
    /// The guitar cannot play the composition.
    Arrangement(ArrangementError),
}

impl DeepView for Composition {
    type V = (Seq<char>, Seq<Seq<Seq<char>>>, u8);

    open spec fn deep_view(&self) -> (Seq<char>, Seq<Seq<Seq<char>>>, u8) {
        (self.tab@, self.pitches.deep_view(), self.max_fret_span)
    }
}

impl CompositionError {
    /// The text of the message for this error.
    pub open spec fn spec_message(self) -> Seq<char> {
        match self {
            CompositionError::Parse(error) => error.spec_message(),
            CompositionError::Guitar(error) => error.spec_message(),
            CompositionError::Arrangement(error) => error.spec_message(),
        }
    }

    /// The message for this error.
    pub fn message(&self) -> (s: String)
        ensures
            s@ == self.spec_message(),
    {
        match self {
            CompositionError::Parse(error) => error.message(),
            CompositionError::Guitar(error) => error.message(),
            CompositionError::Arrangement(error) => error.message(),
        }
    }
}

/// Whether line `i` of `lines` is the first that is playable.
pub open spec fn is_first_playable(lines: Seq<Line<Seq<Pitch>>>, i: int) -> bool {
    &&& 0 <= i < lines.len()
    &&& lines[i] is Playable
    &&& forall|j: int| 0 <= j < i ==> !((#[trigger] lines[j]) is Playable)
}

/// The index of the first line of `lines` that is playable; 0 where none is.
pub open spec fn first_playable(lines: Seq<Line<Seq<Pitch>>>) -> int {
    if exists|i: int| is_first_playable(lines, i) {
        choose|i: int| is_first_playable(lines, i)
    } else {
        0
    }
}

/// The names that stand for `line`: those of its pitches, or the word for a
/// rest or for a break between measures.
pub open spec fn line_names(line: Line<Seq<Pitch>>) -> Seq<Seq<char>> {
    match line {
        Line::Playable(pitches) => pitches.map_values(|pitch: Pitch| pitch.spec_plain_text()),
        Line::Rest => seq!["REST"@],
        Line::MeasureBreak => seq!["MEASURE_BREAK"@],
    }
}

/// The names of the lines of `lines` from the first playable line on.
pub open spec fn pitch_names(lines: Seq<Line<Seq<Pitch>>>) -> Seq<Seq<Seq<char>>> {
    lines.skip(first_playable(lines)).map_values(|line: Line<Seq<Pitch>>| line_names(line))
}

/// The compositions made of `arrangements`: each drawn as tablature for an
/// instrument with the strings `tuning`, each with the names `names`.
pub open spec fn compositions_of(
    arrangements: Seq<(Seq<Line<Seq<Fingering>>>, u128, u8)>,
    tuning: Seq<(StringNumber, Pitch)>,
    names: Seq<Seq<Seq<char>>>,
    width: u16,
    padding: u8,
    playback_index: Option<u16>,
) -> Seq<(Seq<char>, Seq<Seq<Seq<char>>>, u8)> {
    arrangements.map_values(
        |arrangement: (Seq<Line<Seq<Fingering>>>, u128, u8)|
            (
                rendered_tab(arrangement.0, tuning, width, padding, playback_index),
                names,
                arrangement.2,
            ),
    )
}

/// Whether the strings of `input`'s guitar can be built: its frets are within
/// the limit, every string fits into the pitch space, and the capo sits on a
/// fret.
pub open spec fn guitar_can_be_built(input: CompositionInput) -> bool {
    &&& input.guitar_num_frets <= MAX_NUM_FRETS
    &&& all_strings_fit(
        ordered_tuning(tuning_with_offsets(tuning_offsets(input.tuning_name@))),
        input.guitar_num_frets as nat,
    )
    &&& input.guitar_capo <= input.guitar_num_frets
}

/// The tuning of `input`'s guitar, with the capo in place.
pub open spec fn guitar_tuning(input: CompositionInput) -> Seq<(StringNumber, Pitch)> {
    raised_tuning(
        ordered_tuning(tuning_with_offsets(tuning_offsets(input.tuning_name@))),
        input.guitar_capo as nat,
    )
}

/// The strings of `input`'s guitar, with the capo in place.
pub open spec fn guitar_strings(input: CompositionInput) -> Seq<(StringNumber, Seq<Pitch>)> {
    strings_of(guitar_tuning(input), (input.guitar_num_frets - input.guitar_capo) as nat)
}

/// Whether `answer` is what [`wrapper_create_arrangements`] gives for `input`:
/// the error of the first step that fails, where the steps are parsing the
/// composition, building the guitar and checking that every pitch can be
/// played; else the compositions of the best arrangements.
pub open spec fn is_answer(
    answer: Result<Vec<Composition>, CompositionError>,
    input: CompositionInput,
) -> bool {
    match parsed_input(input.pitches@) {
        Err(inputs) => answer matches Err(CompositionError::Parse(error)) && error.inputs.deep_view()
            == inputs,
        Ok(lines) => if !guitar_can_be_built(input) {
            answer matches Err(CompositionError::Guitar(error)) && is_construction_error(
                error,
                tuning_with_offsets(tuning_offsets(input.tuning_name@)),
                input.guitar_num_frets,
                input.guitar_capo,
            )
        } else if unplayable_in_lines(guitar_strings(input), lines).len() > 0 {
            answer matches Err(
                CompositionError::Arrangement(ArrangementError::UnplayablePitch(inputs)),
            ) && inputs.deep_view() == unplayable_in_lines(guitar_strings(input), lines)
        } else {
            answer matches Ok(compositions) && compositions.deep_view() == compositions_of(
                arrangements_of(
                    best_paths(
                        candidate_layers(guitar_strings(input), lines),
                        input.open_string_cost,
                        input.num_arrangements as nat,
                    ),
                    lines,
                ),
                guitar_tuning(input),
                pitch_names(lines),
                input.width,
                input.padding,
                input.playback_index,
            )
        },
    }
}

/// The names that stand for a line.
fn name_line(line: &Line<Vec<Pitch>>) -> (names: Vec<String>)
    ensures
        names.deep_view() == line_names(line.deep_view()),
{
    let mut names: Vec<String> = Vec::new();
    match line {
        Line::Playable(pitches) => {
            let mut k: usize = 0;
            while k < pitches.len()
                invariant
                    k <= pitches.len(),
                    names.len() == k,
                    forall|j: int|
                        0 <= j < k ==> (#[trigger] names@[j])@ == pitches@[j].spec_plain_text(),
                decreases pitches.len() - k,
            {
                names.push(pitches[k].plain_text());
                k += 1;
            }
            assert(pitches.deep_view() =~= pitches@);
            assert(names.deep_view() =~= line_names(line.deep_view()));
        },
        Line::Rest => {
            names.push("REST".to_owned());
            assert(names.deep_view() =~= line_names(line.deep_view()));
        },
        Line::MeasureBreak => {
            names.push("MEASURE_BREAK".to_owned());
            assert(names.deep_view() =~= line_names(line.deep_view()));
        },
    }
    names
}

/// The index of the first playable line; 0 where no line is playable.
fn find_first_playable(lines: &Vec<Line<Vec<Pitch>>>) -> (first: usize)
    ensures
        first == first_playable(lines.deep_view()),
        first <= lines.len(),
{
    let ghost views = lines.deep_view();
    let mut i: usize = 0;
    while i < lines.len()
        invariant
            i <= lines.len(),
            views == lines.deep_view(),
            forall|j: int| 0 <= j < i ==> !((#[trigger] views[j]) is Playable),
        decreases lines.len() - i,
    {
        assert(views[i as int] == lines@[i as int].deep_view());
        match &lines[i] {
            Line::Playable(_) => {
                assert(is_first_playable(views, i as int));
                return i;
            },
            _ => {},
        }
        i += 1;
    }
    assert(forall|other: int| !is_first_playable(views, other));
    0
}

/// The names of the lines from the first playable line on.
fn name_lines(lines: &Vec<Line<Vec<Pitch>>>) -> (names: Vec<Vec<String>>)
    ensures
        names.deep_view() == pitch_names(lines.deep_view()),
{
    let ghost views = lines.deep_view();
    let start: usize = find_first_playable(lines);
    let mut names: Vec<Vec<String>> = Vec::new();
    let mut i: usize = start;
    while i < lines.len()
        invariant
            start <= i <= lines.len(),
            views == lines.deep_view(),
            names.len() == i - start,
            forall|k: int|
                0 <= k < names.len() ==> (#[trigger] names@[k]).deep_view() == line_names(
                    views[start + k],
                ),
        decreases lines.len() - i,
    {
        assert(views[i as int] == lines@[i as int].deep_view());
        names.push(name_line(&lines[i]));
        i += 1;
    }
    assert(names.deep_view() =~= pitch_names(views));
    names
}

/// A copy of the names.
fn copy_names(names: &Vec<Vec<String>>) -> (copy: Vec<Vec<String>>)
    ensures
        copy.deep_view() == names.deep_view(),
{
    let mut copy: Vec<Vec<String>> = Vec::new();
    let mut i: usize = 0;
    while i < names.len()
        invariant
            i <= names.len(),
            copy.len() == i,
            forall|k: int| 0 <= k < i ==> (#[trigger] copy@[k]).deep_view() == names@[k].deep_view(),
        decreases names.len() - i,
    {
        let mut of_line: Vec<String> = Vec::new();
        let mut j: usize = 0;
        while j < names[i].len()
            invariant
                i < names.len(),
                j <= names@[i as int].len(),
                of_line.len() == j,
                forall|k: int| 0 <= k < j ==> (#[trigger] of_line@[k])@ == names@[i as int]@[k]@,
            decreases names@[i as int].len() - j,
        {
            of_line.push(names[i][j].clone());
            j += 1;
        }
        assert(of_line.deep_view() =~= names@[i as int].deep_view());
        copy.push(of_line);
        i += 1;
    }
    assert(copy.deep_view() =~= names.deep_view());
    copy
}

/// Reads the composition, builds the guitar, searches for the best
/// arrangements and draws each of them as tablature.
///
/// The first step that fails gives the error: the text of the composition
/// cannot be parsed, the guitar cannot be built, or it cannot play a pitch.
/// Where no way leads through the composition, there is no composition to give.
pub fn wrapper_create_arrangements(composition_input: CompositionInput) -> (r: Result<
    Vec<Composition>,
    CompositionError,
>)
    ensures
        is_answer(r, composition_input),
{
    let ghost input = composition_input;
    let CompositionInput {
        pitches: input_pitches,
        tuning_name,
        guitar_num_frets,
        guitar_capo,
        num_arrangements,
        width,
        padding,
        playback_index,
        open_string_cost,
    } = composition_input;
    let input_lines: Vec<Line<BeatVec<Pitch>>> = match parse_pitches(input_pitches) {
        Ok(input_lines) => input_lines,
        Err(e) => {
            return Err(CompositionError::Parse(e));
        },
    };
    let pitches: Vec<BeatVec<String>> = name_lines(&input_lines);
    let tuning = match create_string_tuning_offset(parse_tuning(tuning_name.as_str())) {
        Some(tuning) => tuning,
        None => {
            assert(false);
            Vec::new()
        },
    };
    let guitar = match Guitar::with_capo(tuning, guitar_num_frets, guitar_capo) {
        Ok(guitar) => guitar,
        Err(e) => {
            return Err(CompositionError::Guitar(e));
        },
    };
    proof {
        lemma_strings_of_guitar(guitar);
    }
    let arrangements = match create_arrangements(
        &guitar,
        &input_lines,
        num_arrangements,
        open_string_cost,
    ) {
        Ok(arrangements) => arrangements,
        Err(e) => {
            return Err(CompositionError::Arrangement(e));
        },
    };
    let mut compositions: Vec<Composition> = Vec::new();
    let mut i: usize = 0;
    while i < arrangements.len()
        invariant
            i <= arrangements.len(),
            compositions.len() == i,
            forall|k: int|
                0 <= k < i ==> (#[trigger] compositions@[k]).deep_view() == (
                    rendered_tab(
                        arrangements.deep_view()[k].0,
                        guitar.tuning@,
                        width,
                        padding,
                        playback_index,
                    ),
                    pitches.deep_view(),
                    arrangements.deep_view()[k].2,
                ),
        decreases arrangements.len() - i,
    {
        let arrangement: &Arrangement = &arrangements[i];
        assert(arrangements.deep_view()[i as int] == arrangement.deep_view());
        let tab = render_tab(arrangement.lines.as_slice(), &guitar, width, padding, playback_index);
        compositions.push(
            Composition {
                tab,
                pitches: copy_names(&pitches),
                max_fret_span: arrangement.max_fret_span(),
            },
        );
        i += 1;
    }
    assert(compositions.deep_view() =~= compositions_of(
        arrangements.deep_view(),
        guitar.tuning@,
        pitches.deep_view(),
        width,
        padding,
        playback_index,
    ));
    Ok(compositions)
}

} // verus!
