//! Arrangements: a composition with a fingering chosen for every pitch.

use crate::box_fingering::{lemma_line_view, BoxFingering, Cost};
use crate::composition::{
    fingering_frets, fret_span, frets_of_fingerings, non_zero_fret_span, BeatVec, Line,
};
use crate::guitar::{lemma_pitches_view, pitch_fingerings, Fingering, Guitar, PitchFingering};
use crate::pitch::Pitch;
use crate::search::{arranged_lines, best_paths, candidate_layers, create_arrangements};
use crate::string_number::StringNumber;
use crate::text::{decimal, join_lines, joined_lines, push_decimal, texts_of};
use crate::views::lemma_push_deep_view;
use vstd::prelude::*;
use vstd::string::*;

pub use crate::composition::InvalidInput;

verus! {

/// A list with one entry for each way to play a pitch.
pub type PitchOptionsVec<T> = Vec<T>;

/// What `Arrangement::new` charges for a grip of open strings alone.
pub const DEFAULT_OPEN_STRING_COST: u32 = 0;

/// A composition as it is played: every line that is played holds the
/// fingerings chosen for its pitches, and the other lines stand where they
/// stood.
#[derive(Debug, Clone, PartialEq, Eq)]
pub struct Arrangement {
    /// The lines of the composition.
    pub lines: Vec<Line<BeatVec<PitchFingering>>>,
    /// The cost of the path that the arrangement follows.
    pub cost: Cost,
    /// The largest distance, over the lines, between the lowest and the highest
    /// fret pressed on one line.
    pub max_fret_span: u8,
}

/// Why a composition has no arrangement.
#[derive(Debug, Clone, PartialEq, Eq)]
pub enum ArrangementError {
    /// Pitches that no string of the instrument can sound, each with the number
    /// of its line, in the order of the composition.
    UnplayablePitch(Vec<InvalidInput>),
    /// Every pitch can be played, but no path leads through the composition.
    NoPathFound,
}

impl DeepView for Arrangement {
    type V = (Seq<Line<Seq<Fingering>>>, u128, u8);

    open spec fn deep_view(&self) -> (Seq<Line<Seq<Fingering>>>, u128, u8) {
        (self.lines.deep_view(), self.cost, self.max_fret_span)
    }
}

/// The fingerings among which each pitch of `beat` can choose.
pub open spec fn beat_fingerings(ranges: Seq<(StringNumber, Seq<Pitch>)>, beat: Seq<Pitch>) -> Seq<
    Seq<Fingering>,
> {
    Seq::new(beat.len(), |k: int| pitch_fingerings(ranges, beat[k]))
}

/// The pitches of `beat` that no string of `ranges` can sound, written out, each
/// with `line_number`.
pub open spec fn unplayable_in_beat(
    ranges: Seq<(StringNumber, Seq<Pitch>)>,
    beat: Seq<Pitch>,
    line_number: nat,
) -> Seq<(Seq<char>, nat)>
    decreases beat.len(),
{
    if beat.len() == 0 {
        Seq::empty()
    } else {
        let before = unplayable_in_beat(ranges, beat.drop_last(), line_number);
        if pitch_fingerings(ranges, beat.last()).len() == 0 {
            before.push((beat.last().spec_plain_text(), line_number))
        } else {
            before
        }
    }
}

/// The pitches of `beats` that cannot be played, in the order of the beats; the
/// beats stand on the lines 1, 2 and so on.
pub open spec fn unplayable_pitches(
    ranges: Seq<(StringNumber, Seq<Pitch>)>,
    beats: Seq<Seq<Pitch>>,
) -> Seq<(Seq<char>, nat)>
    decreases beats.len(),
{
    if beats.len() == 0 {
        Seq::empty()
    } else {
        unplayable_pitches(ranges, beats.drop_last()) + unplayable_in_beat(
            ranges,
            beats.last(),
            beats.len(),
        )
    }
}

/// The pitches of `lines` that cannot be played, in the order of the lines; the
/// lines are numbered from 1, and a line that is not played holds no pitch.
pub open spec fn unplayable_in_lines(
    ranges: Seq<(StringNumber, Seq<Pitch>)>,
    lines: Seq<Line<Seq<Pitch>>>,
) -> Seq<(Seq<char>, nat)>
    decreases lines.len(),
{
    if lines.len() == 0 {
        Seq::empty()
    } else {
        unplayable_in_lines(ranges, lines.drop_last()) + match lines.last() {
            Line::Playable(pitches) => unplayable_in_beat(ranges, pitches, lines.len()),
            _ => Seq::empty(),
        }
    }
}

/// The distance between the lowest and the highest fret pressed on `line`.
pub open spec fn line_fret_span(line: Line<Seq<Fingering>>) -> u8 {
    match line {
        Line::Playable(fingerings) => match fret_span(fingering_frets(fingerings)) {
            Some(span) => span,
            None => 0,
        },
        _ => 0,
    }
}

/// The largest fret span of a line of `lines`.
pub open spec fn largest_fret_span(lines: Seq<Line<Seq<Fingering>>>) -> u8
    decreases lines.len(),
{
    if lines.len() == 0 {
        0
    } else {
        let before = largest_fret_span(lines.drop_last());
        if line_fret_span(lines.last()) > before {
            line_fret_span(lines.last())
        } else {
            before
        }
    }
}

/// The arrangement that follows `path`, which costs `cost`.
pub open spec fn arrangement_of(
    path: Seq<Seq<BoxFingering>>,
    cost: u128,
    lines: Seq<Line<Seq<Pitch>>>,
) -> (Seq<Line<Seq<Fingering>>>, u128, u8) {
    (arranged_lines(path, lines), cost, largest_fret_span(arranged_lines(path, lines)))
}

/// The arrangements that follow the paths `found`, in their order.
pub open spec fn arrangements_of(
    found: Seq<(Seq<Seq<BoxFingering>>, u128)>,
    lines: Seq<Line<Seq<Pitch>>>,
) -> Seq<(Seq<Line<Seq<Fingering>>>, u128, u8)> {
    found.map_values(|one: (Seq<Seq<BoxFingering>>, u128)| arrangement_of(one.0, one.1, lines))
}

/// The lines of a composition in which every line is played: line `i` holds
/// the pitches of beat `i`.
pub open spec fn playable_lines(beats: Seq<Seq<Pitch>>) -> Seq<Line<Seq<Pitch>>> {
    Seq::new(beats.len(), |i: int| Line::Playable(beats[i]))
}

/// In a composition in which every line is played, the pitches that cannot be
/// played are those of its beats.
pub proof fn lemma_unplayable_in_playable_lines(
    ranges: Seq<(StringNumber, Seq<Pitch>)>,
    beats: Seq<Seq<Pitch>>,
)
    ensures
        unplayable_in_lines(ranges, playable_lines(beats)) == unplayable_pitches(ranges, beats),
    decreases beats.len(),
{
    if beats.len() > 0 {
        lemma_unplayable_in_playable_lines(ranges, beats.drop_last());
        assert(playable_lines(beats).drop_last() =~= playable_lines(beats.drop_last()));
    }
}

/// The message that tells of one pitch that cannot be played.
pub open spec fn unplayable_message(input: (Seq<char>, nat)) -> Seq<char> {
    "Pitch "@ + input.0 + " on line "@ + decimal(input.1)
        + " cannot be played on any strings of the configured guitar."@
}

impl ArrangementError {
    /// The text of the message for this error.
    pub open spec fn spec_message(self) -> Seq<char> {
        match self {
            ArrangementError::UnplayablePitch(inputs) => joined_lines(
                inputs.deep_view().map_values(|input: (Seq<char>, nat)| unplayable_message(input)),
            ),
            ArrangementError::NoPathFound => "No arrangement could be found for the composition."@,
        }
    }

    /// The message for this error: for pitches that cannot be played, a line
    /// for each pitch.
    pub fn message(&self) -> (s: String)
        ensures
            s@ == self.spec_message(),
    {
        match self {
            ArrangementError::UnplayablePitch(inputs) => {
                let mut lines: Vec<String> = Vec::new();
                let mut i: usize = 0;
                while i < inputs.len()
                    invariant
                        i <= inputs.len(),
                        lines.len() == i,
                        forall|k: int|
                            0 <= k < i ==> (#[trigger] lines@[k])@ == unplayable_message(
                                inputs.deep_view()[k],
                            ),
                    decreases inputs.len() - i,
                {
                    let mut line = "Pitch ".to_owned();
                    line.append(inputs[i].value.as_str());
                    line.append(" on line ");
                    push_decimal(&mut line, inputs[i].line_number);
                    line.append(" cannot be played on any strings of the configured guitar.");
                    assert(line@ == unplayable_message(inputs.deep_view()[i as int]));
                    lines.push(line);
                    i += 1;
                }
                assert(texts_of(lines@) =~= inputs.deep_view().map_values(
                    |input: (Seq<char>, nat)| unplayable_message(input),
                ));
                join_lines(&lines)
            },
            ArrangementError::NoPathFound => "No arrangement could be found for the composition.".to_owned(),
        }
    }
}

/// Gathers the fingerings of the pitches of one beat and notes, in
/// `impossible_pitches`, each pitch that has none.
pub fn beat_pitch_fingerings(
    guitar: &Guitar,
    beat_pitches: &[Pitch],
    line_number: usize,
    impossible_pitches: &mut Vec<InvalidInput>,
) -> (fingerings: BeatVec<PitchOptionsVec<Fingering>>)
    ensures
        fingerings.deep_view() == beat_fingerings(guitar.string_ranges.deep_view(), beat_pitches@),
        final(impossible_pitches).deep_view() == old(impossible_pitches).deep_view()
            + unplayable_in_beat(guitar.string_ranges.deep_view(), beat_pitches@, line_number as nat),
{
    let mut fingerings: Vec<Vec<Fingering>> = Vec::new();
    let ghost noted = impossible_pitches.deep_view();
    let mut i: usize = 0;
    assert(impossible_pitches.deep_view() =~= noted + unplayable_in_beat(
        guitar.string_ranges.deep_view(),
        beat_pitches@.take(0),
        line_number as nat,
    ));
    while i < beat_pitches.len()
        invariant
            i <= beat_pitches.len(),
            fingerings.len() == i,
            forall|k: int|
                0 <= k < i ==> (#[trigger] fingerings@[k])@ == pitch_fingerings(
                    guitar.string_ranges.deep_view(),
                    beat_pitches@[k],
                ),
            impossible_pitches.deep_view() == noted + unplayable_in_beat(
                guitar.string_ranges.deep_view(),
                beat_pitches@.take(i as int),
                line_number as nat,
            ),
        decreases beat_pitches.len() - i,
    {
        assert(beat_pitches@.take(i + 1).drop_last() =~= beat_pitches@.take(i as int));
        let beat_pitch: &Pitch = &beat_pitches[i];
        let pitch_fingerings: Vec<Fingering> = Guitar::generate_pitch_fingerings(
            &guitar.string_ranges,
            beat_pitch,
        );
        if pitch_fingerings.len() == 0 {
            let ghost before = impossible_pitches.deep_view();
            let value: String = beat_pitch.plain_text();
            impossible_pitches.push(InvalidInput { value, line_number });
            assert(impossible_pitches.deep_view() =~= before.push(
                (beat_pitch.spec_plain_text(), line_number as nat),
            ));
        }
        fingerings.push(pitch_fingerings);
        i += 1;
        assert(impossible_pitches.deep_view() =~= noted + unplayable_in_beat(
            guitar.string_ranges.deep_view(),
            beat_pitches@.take(i as int),
            line_number as nat,
        ));
    }
    assert(beat_pitches@.take(i as int) =~= beat_pitches@);
    assert(fingerings.deep_view() =~= beat_fingerings(guitar.string_ranges.deep_view(), beat_pitches@)) by {
        assert forall|k: int| 0 <= k < fingerings.len() implies #[trigger] fingerings.deep_view()[k]
            =~= beat_fingerings(guitar.string_ranges.deep_view(), beat_pitches@)[k] by {
            assert(fingerings@[k].deep_view() =~= fingerings@[k]@);
        }
    }
    fingerings
}

/// The pitches of `lines` that `guitar` cannot play, each with the number of
/// its line, in the order of the lines.
pub fn find_unplayable_pitches(guitar: &Guitar, lines: &[Line<Vec<Pitch>>]) -> (impossible_pitches:
    Vec<InvalidInput>)
    ensures
        impossible_pitches.deep_view() == unplayable_in_lines(guitar.string_ranges.deep_view(), lines.deep_view()),
{
    let mut impossible_pitches: Vec<InvalidInput> = Vec::new();
    let mut line_index: usize = 0;
    assert(impossible_pitches.deep_view() =~= unplayable_in_lines(
        guitar.string_ranges.deep_view(),
        lines.deep_view().take(0),
    ));
    while line_index < lines.len()
        invariant
            line_index <= lines.len(),
            impossible_pitches.deep_view() == unplayable_in_lines(
                guitar.string_ranges.deep_view(),
                lines.deep_view().take(line_index as int),
            ),
        decreases lines.len() - line_index,
    {
        assert(lines.deep_view().take(line_index + 1).drop_last() =~= lines.deep_view().take(
            line_index as int,
        ));
        assert(lines.deep_view().take(line_index + 1).last() == lines@[line_index as int].deep_view());
        proof {
            lemma_line_view(lines@[line_index as int]);
        }
        let ghost before = impossible_pitches.deep_view();
        match &lines[line_index] {
            Line::Playable(beat_pitches) => {
                beat_pitch_fingerings(
                    guitar,
                    beat_pitches.as_slice(),
                    line_index + 1,
                    &mut impossible_pitches,
                );
            },
            _ => {
                assert(impossible_pitches.deep_view() =~= before + Seq::<(Seq<char>, nat)>::empty());
            },
        }
        line_index += 1;
    }
    assert(lines.deep_view().take(line_index as int) =~= lines.deep_view());
    impossible_pitches
}

/// The largest distance, over the lines, between the lowest and the highest
/// fret pressed on one line.
pub fn calc_max_fret_span(lines: &Vec<Line<BeatVec<PitchFingering>>>) -> (span: u8)
    ensures
        span == largest_fret_span(lines.deep_view()),
{
    let ghost views = lines.deep_view();
    let mut largest: u8 = 0;
    let mut i: usize = 0;
    while i < lines.len()
        invariant
            i <= lines.len(),
            views == lines.deep_view(),
            largest == largest_fret_span(views.take(i as int)),
        decreases lines.len() - i,
    {
        assert(views.take(i + 1).drop_last() =~= views.take(i as int));
        assert(views.take(i + 1).last() == lines@[i as int].deep_view());
        match &lines[i] {
            Line::Playable(fingerings) => {
                assert(fingerings.deep_view() =~= fingerings@);
                let frets = frets_of_fingerings(fingerings);
                match non_zero_fret_span(&frets) {
                    Some(span) => {
                        if span > largest {
                            largest = span;
                        }
                    },
                    None => {},
                }
            },
            _ => {},
        }
        i += 1;
    }
    assert(views.take(i as int) =~= views);
    largest
}

impl Arrangement {
    /// The cheapest arrangement for `guitar` of a composition in which every
    /// line is played: line `i` holds the pitches of beat `i`. A grip of open
    /// strings alone is charged [`DEFAULT_OPEN_STRING_COST`].
    ///
    /// Where pitches cannot be played, the error lists all of them; where all
    /// can be played and yet no path leads through the composition, or the
    /// composition is empty, the error is `NoPathFound`.
    pub fn new(guitar: Guitar, input_pitches: Vec<BeatVec<Pitch>>) -> (r: Result<
        Arrangement,
        ArrangementError,
    >)
        ensures
            match r {
                Ok(arrangement) => {
                    let best = best_paths(
                        candidate_layers(guitar.string_ranges.deep_view(), playable_lines(input_pitches.deep_view())),
                        DEFAULT_OPEN_STRING_COST,
                        1,
                    );
                    &&& unplayable_pitches(guitar.string_ranges.deep_view(), input_pitches.deep_view()).len() == 0
                    &&& best.len() > 0
                    &&& arrangement.deep_view() == arrangement_of(
                        best[0].0,
                        best[0].1,
                        playable_lines(input_pitches.deep_view()),
                    )
                },
                Err(ArrangementError::UnplayablePitch(inputs)) => {
                    &&& inputs.deep_view() == unplayable_pitches(
                        guitar.string_ranges.deep_view(),
                        input_pitches.deep_view(),
                    )
                    &&& inputs.len() > 0
                },
                Err(ArrangementError::NoPathFound) => {
                    &&& unplayable_pitches(guitar.string_ranges.deep_view(), input_pitches.deep_view()).len() == 0
                    &&& best_paths(
                        candidate_layers(guitar.string_ranges.deep_view(), playable_lines(input_pitches.deep_view())),
                        DEFAULT_OPEN_STRING_COST,
                        1,
                    ).len() == 0
                },
            },
    {
        broadcast use lemma_pitches_view;

        let ghost beats = input_pitches.deep_view();
        let ghost given = input_pitches@;
        let mut lines: Vec<Line<Vec<Pitch>>> = Vec::new();
        assert(lines.deep_view() =~= playable_lines(beats.take(0)));
        for beat in it: input_pitches
            invariant
                it.seq() == given,
                beats.len() == given.len(),
                forall|i: int| 0 <= i < given.len() ==> beats[i] == (#[trigger] given[i])@,
                lines.deep_view() == playable_lines(beats.take(it.index() as int)),
        {
            let ghost before = lines;
            let ghost line: Line<Vec<Pitch>> = Line::Playable(beat);
            lines.push(Line::Playable(beat));
            proof {
                lemma_push_deep_view(before, lines, line);
                lemma_line_view(line);
            }
            assert(lines.deep_view() =~= playable_lines(beats.take(it.index() + 1)));
        }
        assert(beats.take(beats.len() as int) =~= beats);
        proof {
            lemma_unplayable_in_playable_lines(guitar.string_ranges.deep_view(), beats);
        }
        match create_arrangements(&guitar, &lines, 1, DEFAULT_OPEN_STRING_COST) {
            Ok(arrangements) => {
                let mut arrangements = arrangements;
                let ghost best = best_paths(
                    candidate_layers(guitar.string_ranges.deep_view(), lines.deep_view()),
                    DEFAULT_OPEN_STRING_COST,
                    1,
                );
                let ghost views = arrangements.deep_view();
                assert(views.len() == best.len());
                assert(best.len() <= 1);
                match arrangements.pop() {
                    Some(arrangement) => {
                        assert(arrangement.deep_view() == views[0]);
                        Ok(arrangement)
                    },
                    None => Err(ArrangementError::NoPathFound),
                }
            },
            Err(e) => Err(e),
        }
    }

    /// The largest distance, over the lines, between the lowest and the highest
    /// fret pressed on one line.
    pub fn max_fret_span(&self) -> (span: u8)
        ensures
            span == self.max_fret_span,
    {
        self.max_fret_span
    }

    /// Generates the fingerings of each pitch of each beat. Where a pitch has
    /// no fingering, the error lists every such pitch of every beat, with the
    /// number of its line; the beats stand on the lines 1, 2 and so on.
    pub fn validate_fingerings(guitar: &Guitar, input_pitches: &[BeatVec<Pitch>]) -> (r: Result<
        Vec<BeatVec<PitchOptionsVec<Fingering>>>,
        ArrangementError,
    >)
        ensures
            match r {
                Ok(fingerings) => {
                    &&& unplayable_pitches(guitar.string_ranges.deep_view(), input_pitches.deep_view()).len() == 0
                    &&& fingerings.deep_view() == Seq::new(
                        input_pitches.deep_view().len(),
                        |b: int| beat_fingerings(guitar.string_ranges.deep_view(), input_pitches.deep_view()[b]),
                    )
                },
                Err(ArrangementError::UnplayablePitch(inputs)) => {
                    &&& inputs.deep_view() == unplayable_pitches(
                        guitar.string_ranges.deep_view(),
                        input_pitches.deep_view(),
                    )
                    &&& inputs.len() > 0
                },
                Err(ArrangementError::NoPathFound) => false,
            },
    {
        broadcast use lemma_pitches_view;

        let mut impossible_pitches: Vec<InvalidInput> = Vec::new();
        let mut fingerings: Vec<Vec<Vec<Fingering>>> = Vec::new();
        let mut beat_index: usize = 0;
        assert(impossible_pitches.deep_view() =~= unplayable_pitches(
            guitar.string_ranges.deep_view(),
            input_pitches.deep_view().take(0),
        ));
        while beat_index < input_pitches.len()
            invariant
                beat_index <= input_pitches.len(),
                fingerings.len() == beat_index,
                forall|b: int|
                    0 <= b < beat_index ==> (#[trigger] fingerings@[b]).deep_view()
                        == beat_fingerings(guitar.string_ranges.deep_view(), input_pitches.deep_view()[b]),
                impossible_pitches.deep_view() == unplayable_pitches(
                    guitar.string_ranges.deep_view(),
                    input_pitches.deep_view().take(beat_index as int),
                ),
            decreases input_pitches.len() - beat_index,
        {
            assert(input_pitches.deep_view().take(beat_index + 1).drop_last()
                =~= input_pitches.deep_view().take(beat_index as int));
            assert(input_pitches.deep_view().take(beat_index + 1).last()
                == input_pitches@[beat_index as int]@);
            let of_beat = beat_pitch_fingerings(
                guitar,
                input_pitches[beat_index].as_slice(),
                beat_index + 1,
                &mut impossible_pitches,
            );
            fingerings.push(of_beat);
            beat_index += 1;
        }
        assert(input_pitches.deep_view().take(beat_index as int) =~= input_pitches.deep_view());
        if impossible_pitches.len() != 0 {
            return Err(ArrangementError::UnplayablePitch(impossible_pitches));
        }
        assert(fingerings.deep_view() =~= Seq::new(
            input_pitches.deep_view().len(),
            |b: int| beat_fingerings(guitar.string_ranges.deep_view(), input_pitches.deep_view()[b]),
        ));
        Ok(fingerings)
    }
}

} // verus!
