//! Hand positions on the fretboard: the boxes from which the fingers press the
//! frets, what it costs to move between them, and the grips that can sound a beat.

use crate::composition::{
    average_non_zero_fret, fret_average, fret_span, lemma_non_zero_frets, non_zero_fret_span, Line,
};
use crate::guitar::{lemma_pitches_view, pitch_fingerings, Fingering, Guitar, PitchFingering};
use crate::pitch::Pitch;
use crate::string_number::StringNumber;
use crate::views::lemma_push_deep_view;
use vstd::prelude::*;

verus! {

/// The box fingerings that sound one beat, one for each of its pitches.
pub type Grip = Vec<BoxFingering>;

/// The box fingerings among which one pitch can choose.
pub type PossibleFingerings = Vec<BoxFingering>;

/// The cost of a path through a composition.
pub type Cost = u128;

/// The number of places a finger can take in a box.
pub const NUM_FINGERS: u8 = 6;

/// The first fret that no box reaches.
pub const BOX_FRET_LIMIT: u8 = 18;

/// The score of a transition that the hand cannot make. It lies above the score
/// of any transition that it can make.
pub const UNPLAYABLE: i32 = 10000;

/// The highest score of a transition that the hand can make.
pub const MAX_PLAYABLE_SCORE: i32 = 258;

/// The score of a transition into or out of a chord that lies in one box.
pub const CHORD_TRANSITION_SCORE: i32 = 12;

/// The places a finger can take in a box, from the index finger stretched towards
/// the nut to the little finger stretched towards the bridge.
#[derive(Debug, Clone, Copy, Hash, Eq, PartialEq, Structural, Ord, PartialOrd)]
pub enum Finger {
    IShift,
    I,
    M,
    A,
    P,
    PShift,
}

/// A way to press one fret: the hand rests in the box that begins at fret
/// `position`, and the finger in place `finger` of the box presses the string
/// `string`, at fret `position + finger - 1`. `line_idx` is the index of the line
/// that the fingering belongs to.
#[derive(Debug, Clone, Copy, Hash, Eq, PartialEq, Structural, Ord, PartialOrd)]
pub struct BoxFingering {
    pub line_idx: usize,
    pub position: u8,
    pub finger: u8,
    pub string: u8,
}

impl DeepView for BoxFingering {
    type V = BoxFingering;

    open spec fn deep_view(&self) -> BoxFingering {
        *self
    }
}

impl Finger {
    /// The place of the finger in the box, counted from 0.
    pub open spec fn spec_number(self) -> u8 {
        match self {
            Finger::IShift => 0,
            Finger::I => 1,
            Finger::M => 2,
            Finger::A => 3,
            Finger::P => 4,
            Finger::PShift => 5,
        }
    }

    /// The place of the finger in the box, counted from 0.
    pub fn number(&self) -> (n: u8)
        ensures
            n == self.spec_number(),
            n < NUM_FINGERS,
    {
        match self {
            Finger::IShift => 0,
            Finger::I => 1,
            Finger::M => 2,
            Finger::A => 3,
            Finger::P => 4,
            Finger::PShift => 5,
        }
    }

    /// The finger at place `number` of the box, if the box has such a place.
    pub fn from_number(number: u8) -> (finger: Option<Finger>)
        ensures
            number < NUM_FINGERS ==> finger is Some && finger->0.spec_number() == number,
            number >= NUM_FINGERS ==> finger is None,
    {
        match number {
            0 => Some(Finger::IShift),
            1 => Some(Finger::I),
            2 => Some(Finger::M),
            3 => Some(Finger::A),
            4 => Some(Finger::P),
            5 => Some(Finger::PShift),
            _ => None,
        }
    }
}

/// The penalty for a finger that is stretched out of the box: 1 for the two
/// outermost places, 0 for the others.
pub open spec fn shifted_finger_penalty(finger: u8) -> int {
    if finger == 0 || finger == 5 {
        1
    } else {
        0
    }
}

/// The score of moving from one single note to the next: the distance between
/// the two boxes, a penalty for each stretched finger, and one for the same
/// finger on another string.
pub open spec fn single_note_score(curr: BoxFingering, next: BoxFingering) -> int {
    (if curr.position >= next.position {
        curr.position - next.position
    } else {
        next.position - curr.position
    }) + shifted_finger_penalty(next.finger) + shifted_finger_penalty(curr.finger) + (if curr.string
        != next.string && curr.finger == next.finger {
        1int
    } else {
        0int
    })
}

/// Whether all fingerings of `grip` lie in one box; an empty grip lies in none.
pub open spec fn in_same_box(grip: Seq<BoxFingering>) -> bool {
    &&& grip.len() > 0
    &&& forall|i: int| 0 <= i < grip.len() ==> (#[trigger] grip[i]).position == grip[0].position
}

/// The score of holding the chord `grip`: 0 in one box, else [`UNPLAYABLE`].
pub open spec fn chord_playability(grip: Seq<BoxFingering>) -> int {
    if in_same_box(grip) {
        0
    } else {
        UNPLAYABLE as int
    }
}

/// The score of a transition to or from the chord `chord`.
pub open spec fn chord_transition_score(chord: Seq<BoxFingering>) -> int {
    if chord_playability(chord) != UNPLAYABLE {
        CHORD_TRANSITION_SCORE as int
    } else {
        UNPLAYABLE as int
    }
}

/// The score of moving from the grip `curr` to the grip `next`. A grip of one
/// fingering is a single note, any other a chord. Between two single notes the
/// score is [`single_note_score`]. Into a chord, from a note or from a chord,
/// the chord moved into decides; out of a chord into a single note, the chord
/// that is left decides, as the reverse of moving into it.
pub open spec fn transition_score(curr: Seq<BoxFingering>, next: Seq<BoxFingering>) -> int {
    if curr.len() == 1 && next.len() == 1 {
        single_note_score(curr[0], next[0])
    } else if next.len() != 1 {
        chord_transition_score(next)
    } else {
        chord_transition_score(curr)
    }
}

/// The box fingering that presses fret `fret` of string `string` with the finger
/// in place `finger`, if the finger can reach the fret from a box on the fretboard.
pub open spec fn box_fingering_with(line_idx: usize, string: u8, fret: u8, finger: u8) -> Option<
    BoxFingering,
> {
    if finger <= fret && fret < BOX_FRET_LIMIT {
        Some(BoxFingering { line_idx, position: (fret - finger + 1) as u8, finger, string })
    } else {
        None
    }
}

/// The box fingerings of one fret with the fingers in the places below `fingers`,
/// by ascending place.
pub open spec fn box_fingerings_with(line_idx: usize, string: u8, fret: u8, fingers: nat) -> Seq<
    BoxFingering,
>
    decreases fingers,
{
    if fingers == 0 {
        Seq::empty()
    } else {
        let before = box_fingerings_with(line_idx, string, fret, (fingers - 1) as nat);
        match box_fingering_with(line_idx, string, fret, (fingers - 1) as u8) {
            Some(fingering) => before.push(fingering),
            None => before,
        }
    }
}

/// The box fingerings of the fingering `pf`, one for each finger that can press it.
pub open spec fn box_fingerings_of(line_idx: usize, pf: Fingering) -> Seq<BoxFingering> {
    box_fingerings_with(line_idx, pf.string_number.spec_get(), pf.fret, NUM_FINGERS as nat)
}

/// The box fingerings of the fingerings `pfs`, in their order.
pub open spec fn all_box_fingerings(line_idx: usize, pfs: Seq<Fingering>) -> Seq<BoxFingering>
    decreases pfs.len(),
{
    if pfs.len() == 0 {
        Seq::empty()
    } else {
        all_box_fingerings(line_idx, pfs.drop_last()) + box_fingerings_of(line_idx, pfs.last())
    }
}

/// The box fingerings among which each pitch of a beat can choose on the strings
/// `ranges`.
pub open spec fn beat_options(
    ranges: Seq<(StringNumber, Seq<Pitch>)>,
    line_idx: usize,
    pitches: Seq<Pitch>,
) -> Seq<Seq<BoxFingering>> {
    Seq::new(
        pitches.len(),
        |k: int| all_box_fingerings(line_idx, pitch_fingerings(ranges, pitches[k])),
    )
}

/// Whether `line` is played: a playable line with at least one pitch.
pub open spec fn is_played(line: Line<Seq<Pitch>>) -> bool {
    line matches Line::Playable(pitches) && pitches.len() > 0
}

/// The pitches of a line that is played.
pub open spec fn pitches_of(line: Line<Seq<Pitch>>) -> Seq<Pitch> {
    match line {
        Line::Playable(pitches) => pitches,
        _ => Seq::empty(),
    }
}

/// The options of the lines of `lines` that are played, in their order.
pub open spec fn line_options(
    ranges: Seq<(StringNumber, Seq<Pitch>)>,
    lines: Seq<Line<Seq<Pitch>>>,
) -> Seq<Seq<Seq<BoxFingering>>>
    decreases lines.len(),
{
    if lines.len() == 0 {
        Seq::empty()
    } else {
        let before = line_options(ranges, lines.drop_last());
        if is_played(lines.last()) {
            before.push(beat_options(ranges, (lines.len() - 1) as usize, pitches_of(lines.last())))
        } else {
            before
        }
    }
}

/// Whether one of the fingerings of `grip` lies on the string `string`.
pub open spec fn uses_string(grip: Seq<BoxFingering>, string: u8) -> bool {
    exists|k: int| 0 <= k < grip.len() && (#[trigger] grip[k]).string == string
}

/// The grips that extend `grip` by one of `options`, in the order of the options.
/// An option on a string that `grip` uses extends nothing.
pub open spec fn extended(grip: Seq<BoxFingering>, options: Seq<BoxFingering>) -> Seq<
    Seq<BoxFingering>,
>
    decreases options.len(),
{
    if options.len() == 0 {
        Seq::empty()
    } else {
        let before = extended(grip, options.drop_last());
        if uses_string(grip, options.last().string) {
            before
        } else {
            before.push(grip.push(options.last()))
        }
    }
}

/// The extensions of all of `grips` by `options`, grip by grip.
pub open spec fn all_extended(grips: Seq<Seq<BoxFingering>>, options: Seq<BoxFingering>) -> Seq<
    Seq<BoxFingering>,
>
    decreases grips.len(),
{
    if grips.len() == 0 {
        Seq::empty()
    } else {
        all_extended(grips.drop_last(), options) + extended(grips.last(), options)
    }
}

/// Every grip that takes one fingering from each entry of `possible` and no
/// string twice. The grips stand in the order of the options, the first pitch
/// counting most.
pub open spec fn playable_grips(possible: Seq<Seq<BoxFingering>>) -> Seq<Seq<BoxFingering>>
    decreases possible.len(),
{
    if possible.len() == 0 {
        seq![Seq::empty()]
    } else {
        all_extended(playable_grips(possible.drop_last()), possible.last())
    }
}

impl BoxFingering {
    /// The fret that the fingering presses, `position + finger - 1`, kept within
    /// the numbers that a fret can have.
    pub open spec fn spec_fret(self) -> u8 {
        if self.position + self.finger == 0 {
            0
        } else if self.position + self.finger - 1 > u8::MAX {
            u8::MAX
        } else {
            (self.position + self.finger - 1) as u8
        }
    }

    /// The fret that the fingering presses.
    pub fn fret(&self) -> (fret: u8)
        ensures
            fret == self.spec_fret(),
    {
        let reach: u16 = self.position as u16 + self.finger as u16;
        if reach == 0 {
            0
        } else if reach - 1 > 255 {
            255
        } else {
            (reach - 1) as u8
        }
    }
}

/// The frets that the fingerings of `grip` press.
pub open spec fn grip_frets(grip: Seq<BoxFingering>) -> Seq<u8> {
    grip.map_values(|fingering: BoxFingering| fingering.spec_fret())
}

/// What it costs to hold `grip`: the distance between the lowest and the highest
/// fret pressed plus the mean of the frets pressed, rounded down; for a grip of
/// open strings alone, `open_string_cost`.
pub open spec fn combo_cost(grip: Seq<BoxFingering>, open_string_cost: u32) -> nat {
    let frets = grip_frets(grip);
    match (fret_span(frets), fret_average(frets)) {
        (Some(span), Some(average)) => span as nat + (average.sum as nat) / (average.count as nat),
        _ => open_string_cost as nat,
    }
}

/// Every transition score is either [`UNPLAYABLE`] or a number from 0 to
/// [`MAX_PLAYABLE_SCORE`], which lies below it.
pub proof fn lemma_transition_score(curr: Seq<BoxFingering>, next: Seq<BoxFingering>)
    ensures
        transition_score(curr, next) == UNPLAYABLE || 0 <= transition_score(curr, next)
            <= MAX_PLAYABLE_SCORE,
        MAX_PLAYABLE_SCORE < UNPLAYABLE,
{
}

/// Leaving a chord for a single note scores as entering the chord from that
/// note.
pub proof fn lemma_chord_to_note_mirrors_note_to_chord(
    chord: Seq<BoxFingering>,
    note: BoxFingering,
)
    requires
        chord.len() != 1,
    ensures
        transition_score(chord, seq![note]) == transition_score(seq![note], chord),
{
}

/// Whether the box fingering `boxed` presses the fingering `fingering` on the
/// line at index `line_idx`: the string and the fret are those of the fingering,
/// and the finger reaches the fret from a box on the fretboard.
pub open spec fn presses(boxed: BoxFingering, line_idx: usize, fingering: Fingering) -> bool {
    &&& boxed.line_idx == line_idx
    &&& boxed.string == fingering.string_number.spec_get()
    &&& boxed.finger < NUM_FINGERS
    &&& boxed.finger <= fingering.fret < BOX_FRET_LIMIT
    &&& boxed.position == fingering.fret - boxed.finger + 1
}

/// The box fingerings of one fret with the fingers below `fingers` are those
/// that press it with one of these fingers.
pub proof fn lemma_box_fingerings_with(
    line_idx: usize,
    string: u8,
    fret: u8,
    fingers: nat,
    boxed: BoxFingering,
)
    requires
        fingers <= NUM_FINGERS,
    ensures
        box_fingerings_with(line_idx, string, fret, fingers).contains(boxed) <==> boxed.finger
            < fingers && box_fingering_with(line_idx, string, fret, boxed.finger) == Some(boxed),
    decreases fingers,
{
    if fingers > 0 {
        let fewer = (fingers - 1) as nat;
        lemma_box_fingerings_with(line_idx, string, fret, fewer, boxed);
        let before = box_fingerings_with(line_idx, string, fret, fewer);
        let all = box_fingerings_with(line_idx, string, fret, fingers);
        if all.contains(boxed) {
            let at = choose|at: int| 0 <= at < all.len() && all[at] == boxed;
            if at < before.len() {
                assert(before[at] == boxed);
                assert(before.contains(boxed));
            }
        }
        if boxed.finger < fingers && box_fingering_with(line_idx, string, fret, boxed.finger)
            == Some(boxed) {
            if boxed.finger < fewer {
                assert(before.contains(boxed));
                let at = choose|at: int| 0 <= at < before.len() && before[at] == boxed;
                assert(all[at] == boxed);
            } else {
                assert(all[all.len() - 1] == boxed);
            }
        }
    }
}

/// The box fingerings of several fingerings are those that press one of them.
pub proof fn lemma_all_box_fingerings(line_idx: usize, pfs: Seq<Fingering>, boxed: BoxFingering)
    ensures
        all_box_fingerings(line_idx, pfs).contains(boxed) <==> exists|j: int|
            0 <= j < pfs.len() && presses(boxed, line_idx, #[trigger] pfs[j]),
    decreases pfs.len(),
{
    if pfs.len() > 0 {
        let shorter = pfs.drop_last();
        lemma_all_box_fingerings(line_idx, shorter, boxed);
        let before = all_box_fingerings(line_idx, shorter);
        let of_last = box_fingerings_of(line_idx, pfs.last());
        let all = all_box_fingerings(line_idx, pfs);
        let last = pfs.len() - 1;
        lemma_box_fingerings_with(
            line_idx,
            pfs.last().string_number.spec_get(),
            pfs.last().fret,
            NUM_FINGERS as nat,
            boxed,
        );
        if all.contains(boxed) {
            let at = choose|at: int| 0 <= at < all.len() && all[at] == boxed;
            if at < before.len() {
                assert(before[at] == boxed);
                assert(before.contains(boxed));
                let j = choose|j: int|
                    0 <= j < shorter.len() && presses(boxed, line_idx, #[trigger] shorter[j]);
                assert(pfs[j] == shorter[j]);
            } else {
                assert(of_last[at - before.len()] == boxed);
                assert(of_last.contains(boxed));
                assert(presses(boxed, line_idx, pfs[last]));
            }
        }
        if exists|j: int| 0 <= j < pfs.len() && presses(boxed, line_idx, #[trigger] pfs[j]) {
            let j = choose|j: int| 0 <= j < pfs.len() && presses(boxed, line_idx, #[trigger] pfs[j]);
            if j < last {
                assert(shorter[j] == pfs[j]);
                assert(before.contains(boxed));
                let at = choose|at: int| 0 <= at < before.len() && before[at] == boxed;
                assert(all[at] == boxed);
            } else {
                assert(of_last.contains(boxed));
                let at = choose|at: int| 0 <= at < of_last.len() && of_last[at] == boxed;
                assert(all[before.len() + at] == boxed);
            }
        }
    }
}

/// Whether no two fingerings of `grip` lie on the same string.
pub open spec fn has_distinct_strings(grip: Seq<BoxFingering>) -> bool {
    forall|i: int, j: int| 0 <= i < j < grip.len() ==> grip[i].string != grip[j].string
}

/// Whether `grip` takes one fingering from each entry of `possible`, in their
/// order, and no string twice.
pub open spec fn is_playable_grip(grip: Seq<BoxFingering>, possible: Seq<Seq<BoxFingering>>) -> bool {
    &&& grip.len() == possible.len()
    &&& has_distinct_strings(grip)
    &&& forall|k: int| 0 <= k < grip.len() ==> (#[trigger] possible[k]).contains(grip[k])
}

/// The extensions of `grip` by `options` are the grips `grip.push(option)` for
/// the options that lie on a string which `grip` does not use.
pub proof fn lemma_extended(
    grip: Seq<BoxFingering>,
    options: Seq<BoxFingering>,
    longer: Seq<BoxFingering>,
)
    ensures
        extended(grip, options).contains(longer) <==> exists|o: int|
            0 <= o < options.len() && !uses_string(grip, (#[trigger] options[o]).string) && longer
                == grip.push(options[o]),
    decreases options.len(),
{
    if options.len() > 0 {
        let shorter = options.drop_last();
        lemma_extended(grip, shorter, longer);
        let before = extended(grip, shorter);
        let all = extended(grip, options);
        let last = options.len() - 1;
        if all.contains(longer) {
            let at = choose|at: int| 0 <= at < all.len() && all[at] == longer;
            if at < before.len() {
                assert(before[at] == longer);
                assert(before.contains(longer));
                let o = choose|o: int|
                    0 <= o < shorter.len() && !uses_string(grip, (#[trigger] shorter[o]).string)
                        && longer == grip.push(shorter[o]);
                assert(options[o] == shorter[o]);
            } else {
                assert(longer == grip.push(options[last]));
            }
        }
        if exists|o: int|
            0 <= o < options.len() && !uses_string(grip, (#[trigger] options[o]).string) && longer
                == grip.push(options[o]) {
            let o = choose|o: int|
                0 <= o < options.len() && !uses_string(grip, (#[trigger] options[o]).string)
                    && longer == grip.push(options[o]);
            if o < last {
                assert(shorter[o] == options[o]);
                assert(before.contains(longer));
                let at = choose|at: int| 0 <= at < before.len() && before[at] == longer;
                assert(all[at] == longer);
            } else {
                assert(all[all.len() - 1] == longer);
            }
        }
    }
}

/// The extensions of `grips` by `options` are the extensions of each of them.
pub proof fn lemma_all_extended(
    grips: Seq<Seq<BoxFingering>>,
    options: Seq<BoxFingering>,
    longer: Seq<BoxFingering>,
)
    ensures
        all_extended(grips, options).contains(longer) <==> exists|g: int|
            0 <= g < grips.len() && extended(#[trigger] grips[g], options).contains(longer),
    decreases grips.len(),
{
    if grips.len() > 0 {
        let shorter = grips.drop_last();
        lemma_all_extended(shorter, options, longer);
        let before = all_extended(shorter, options);
        let of_last = extended(grips.last(), options);
        let all = all_extended(grips, options);
        if all.contains(longer) {
            let at = choose|at: int| 0 <= at < all.len() && all[at] == longer;
            if at < before.len() {
                assert(before[at] == longer);
                assert(before.contains(longer));
                let g = choose|g: int|
                    0 <= g < shorter.len() && extended(#[trigger] shorter[g], options).contains(
                        longer,
                    );
                assert(grips[g] == shorter[g]);
            } else {
                assert(of_last[at - before.len()] == longer);
                assert(extended(grips[grips.len() - 1], options).contains(longer));
            }
        }
        if exists|g: int|
            0 <= g < grips.len() && extended(#[trigger] grips[g], options).contains(longer) {
            let g = choose|g: int|
                0 <= g < grips.len() && extended(#[trigger] grips[g], options).contains(longer);
            if g < grips.len() - 1 {
                assert(shorter[g] == grips[g]);
                assert(before.contains(longer));
                let at = choose|at: int| 0 <= at < before.len() && before[at] == longer;
                assert(all[at] == longer);
            } else {
                let at = choose|at: int| 0 <= at < of_last.len() && of_last[at] == longer;
                assert(all[before.len() + at] == longer);
            }
        }
    }
}

/// The candidates of a beat are exactly the grips that take one fingering from
/// the options of each pitch and no string twice.
pub proof fn lemma_playable_grips(possible: Seq<Seq<BoxFingering>>, grip: Seq<BoxFingering>)
    ensures
        playable_grips(possible).contains(grip) <==> is_playable_grip(grip, possible),
    decreases possible.len(),
{
    if possible.len() == 0 {
        let only = playable_grips(possible);
        assert(only[0] == Seq::<BoxFingering>::empty());
        if is_playable_grip(grip, possible) {
            assert(grip =~= Seq::<BoxFingering>::empty());
        }
    } else {
        let shorter = possible.drop_last();
        let options = possible.last();
        let grips = playable_grips(shorter);
        lemma_all_extended(grips, options, grip);
        if playable_grips(possible).contains(grip) {
            let g = choose|g: int|
                0 <= g < grips.len() && extended(#[trigger] grips[g], options).contains(grip);
            lemma_extended(grips[g], options, grip);
            lemma_playable_grips(shorter, grips[g]);
            assert(grips.contains(grips[g]));
            let o = choose|o: int|
                0 <= o < options.len() && !uses_string(grips[g], (#[trigger] options[o]).string)
                    && grip == grips[g].push(options[o]);
            assert forall|i: int, j: int| 0 <= i < j < grip.len() implies grip[i].string
                != grip[j].string by {
                if j == grip.len() - 1 {
                    assert(grips[g][i].string != options[o].string);
                }
            }
            assert forall|k: int| 0 <= k < grip.len() implies (#[trigger] possible[k]).contains(
                grip[k],
            ) by {
                if k < shorter.len() {
                    assert(shorter[k] == possible[k]);
                    assert(grips[g][k] == grip[k]);
                } else {
                    assert(options[o] == grip[k]);
                }
            }
        }
        if is_playable_grip(grip, possible) {
            let head = grip.drop_last();
            assert forall|k: int| 0 <= k < head.len() implies (#[trigger] shorter[k]).contains(
                head[k],
            ) by {
                assert(possible[k] == shorter[k]);
                assert(possible[k].contains(grip[k]));
            }
            assert(is_playable_grip(head, shorter));
            lemma_playable_grips(shorter, head);
            let g = choose|g: int| 0 <= g < grips.len() && grips[g] == head;
            assert(possible[possible.len() - 1].contains(grip[grip.len() - 1]));
            let o = choose|o: int| 0 <= o < options.len() && options[o] == grip.last();
            assert(grip =~= head.push(options[o]));
            assert(!uses_string(head, options[o].string)) by {
                if uses_string(head, options[o].string) {
                    let k = choose|k: int|
                        0 <= k < head.len() && (#[trigger] head[k]).string == options[o].string;
                    assert(grip[k].string == grip[grip.len() - 1].string);
                }
            }
            lemma_extended(head, options, grip);
            assert(extended(grips[g], options).contains(grip));
        }
    }
}

/// The score of moving from one single note to the next.
pub fn score_single_note_transition(curr: &BoxFingering, next: &BoxFingering) -> (score: i32)
    ensures
        score == single_note_score(*curr, *next),
{
    let hand_movement: u8 = if curr.position >= next.position {
        curr.position - next.position
    } else {
        next.position - curr.position
    };
    let shifted_finger_next: i32 = if next.finger == 0 || next.finger == 5 {
        1
    } else {
        0
    };
    let shifted_finger_curr: i32 = if curr.finger == 0 || curr.finger == 5 {
        1
    } else {
        0
    };
    let mut same_finger_skip: i32 = 0;
    if curr.string != next.string && curr.finger == next.finger {
        same_finger_skip = 1;
    }
    hand_movement as i32 + shifted_finger_next + shifted_finger_curr + same_finger_skip
}

/// Whether all fingerings lie in one box.
pub fn all_fingerings_in_same_box(next: &[BoxFingering]) -> (b: bool)
    ensures
        b == in_same_box(next@),
{
    if next.len() == 0 {
        return false;
    }
    let position: u8 = next[0].position;
    let mut i: usize = 1;
    while i < next.len()
        invariant
            1 <= i <= next.len(),
            position == next@[0].position,
            forall|k: int| 0 <= k < i ==> (#[trigger] next@[k]).position == position,
        decreases next.len() - i,
    {
        if next[i].position != position {
            return false;
        }
        i += 1;
    }
    true
}

/// The score of holding a chord: 0 in one box, else [`UNPLAYABLE`].
pub fn score_chord_playability(next: &[BoxFingering]) -> (score: i32)
    ensures
        score == chord_playability(next@),
{
    if all_fingerings_in_same_box(next) {
        0
    } else {
        UNPLAYABLE
    }
}

/// The score of moving from a single note into a chord.
pub fn score_note_to_chord_transition(_curr: &BoxFingering, next: &[BoxFingering]) -> (score: i32)
    ensures
        score == chord_transition_score(next@),
{
    let chord_playability = score_chord_playability(next);
    if chord_playability != UNPLAYABLE {
        CHORD_TRANSITION_SCORE
    } else {
        UNPLAYABLE
    }
}

/// The score of moving from a chord into a single note: that of moving from
/// the note into the chord.
pub fn score_chord_to_note_transition(curr: &[BoxFingering], next: &BoxFingering) -> (score: i32)
    ensures
        score == chord_transition_score(curr@),
{
    score_note_to_chord_transition(next, curr)
}

/// The score of moving from one chord into the next.
pub fn score_chord_to_chord_transition(_curr: &[BoxFingering], next: &[BoxFingering]) -> (score:
    i32)
    ensures
        score == chord_transition_score(next@),
{
    let chord_playability = score_chord_playability(next);
    if chord_playability != UNPLAYABLE {
        CHORD_TRANSITION_SCORE
    } else {
        UNPLAYABLE
    }
}

/// The score of moving the hand from the grip `curr` to the grip `next`.
pub fn score_beat_transition(curr: &[BoxFingering], next: &[BoxFingering]) -> (score: i32)
    ensures
        score == transition_score(curr@, next@),
        score == UNPLAYABLE || 0 <= score <= MAX_PLAYABLE_SCORE,
{
    if curr.len() == 1 && next.len() == 1 {
        score_single_note_transition(&curr[0], &next[0])
    } else if curr.len() != 1 && next.len() != 1 {
        score_chord_to_chord_transition(curr, next)
    } else if curr.len() == 1 {
        score_note_to_chord_transition(&curr[0], next)
    } else {
        score_chord_to_note_transition(curr, &next[0])
    }
}

/// The box fingerings of one fingering: for each finger, by ascending place,
/// the box from which that finger presses the fret, where there is one.
pub fn convert_pitch_fingering_to_box_fingering(line_idx: usize, pf: &PitchFingering) -> (ret:
    PossibleFingerings)
    ensures
        ret@ == box_fingerings_of(line_idx, *pf),
{
    let mut ret: Vec<BoxFingering> = Vec::new();
    let string: u8 = pf.string_number.get();
    let mut used_finger: u8 = 0;
    while used_finger < NUM_FINGERS
        invariant
            used_finger <= NUM_FINGERS,
            string == pf.string_number.spec_get(),
            ret@ == box_fingerings_with(line_idx, string, pf.fret, used_finger as nat),
        decreases NUM_FINGERS - used_finger,
    {
        let on_fretboard: bool = pf.fret >= used_finger && pf.fret < BOX_FRET_LIMIT;
        if on_fretboard {
            let fb = BoxFingering {
                line_idx,
                position: pf.fret - used_finger + 1,
                string,
                finger: used_finger,
            };
            ret.push(fb);
        }
        used_finger += 1;
    }
    ret
}

/// The box fingerings of several fingerings, in their order.
pub fn convert_pitch_fingerings_to_box_fingerings(line_idx: usize, pfs: &[PitchFingering]) -> (ret:
    PossibleFingerings)
    ensures
        ret@ == all_box_fingerings(line_idx, pfs@),
{
    let mut ret: Vec<BoxFingering> = Vec::new();
    let mut i: usize = 0;
    while i < pfs.len()
        invariant
            i <= pfs.len(),
            ret@ == all_box_fingerings(line_idx, pfs@.take(i as int)),
        decreases pfs.len() - i,
    {
        assert(pfs@.take(i + 1).drop_last() =~= pfs@.take(i as int));
        let mut of_one = convert_pitch_fingering_to_box_fingering(line_idx, &pfs[i]);
        ret.append(&mut of_one);
        i += 1;
    }
    assert(pfs@.take(i as int) =~= pfs@);
    ret
}

/// For each pitch of a beat, the box fingerings among which it can choose.
pub fn convert_beat_to_possible_fingerings(
    guitar: &Guitar,
    line_idx: usize,
    beat_pitches: &[Pitch],
) -> (options: Vec<PossibleFingerings>)
    ensures
        options.deep_view() == beat_options(guitar.string_ranges.deep_view(), line_idx, beat_pitches@),
{
    let mut options: Vec<PossibleFingerings> = Vec::new();
    let mut i: usize = 0;
    while i < beat_pitches.len()
        invariant
            i <= beat_pitches.len(),
            options.len() == i,
            forall|k: int|
                0 <= k < i ==> (#[trigger] options@[k])@ == all_box_fingerings(
                    line_idx,
                    pitch_fingerings(guitar.string_ranges.deep_view(), beat_pitches@[k]),
                ),
        decreases beat_pitches.len() - i,
    {
        let pfs = Guitar::generate_pitch_fingerings(&guitar.string_ranges, &beat_pitches[i]);
        options.push(convert_pitch_fingerings_to_box_fingerings(line_idx, pfs.as_slice()));
        i += 1;
    }
    assert(options.deep_view() =~= beat_options(guitar.string_ranges.deep_view(), line_idx, beat_pitches@)) by {
        assert forall|k: int| 0 <= k < options.len() implies #[trigger] options.deep_view()[k]
            =~= beat_options(guitar.string_ranges.deep_view(), line_idx, beat_pitches@)[k] by {
            assert(options@[k].deep_view() =~= options@[k]@);
        }
    }
    options
}

/// For each line that is played, in the order of the lines, the box fingerings
/// among which each of its pitches can choose.
pub fn convert_lines(guitar: &Guitar, lines: &[Line<Vec<Pitch>>]) -> (options: Vec<
    Vec<PossibleFingerings>,
>)
    ensures
        options.deep_view() == line_options(guitar.string_ranges.deep_view(), lines.deep_view()),
{
    let mut options: Vec<Vec<PossibleFingerings>> = Vec::new();
    let mut line_idx: usize = 0;
    while line_idx < lines.len()
        invariant
            line_idx <= lines.len(),
            options.deep_view() == line_options(
                guitar.string_ranges.deep_view(),
                lines.deep_view().take(line_idx as int),
            ),
        decreases lines.len() - line_idx,
    {
        assert(lines.deep_view().take(line_idx + 1).drop_last() =~= lines.deep_view().take(
            line_idx as int,
        ));
        assert(lines.deep_view().take(line_idx + 1).last() == lines@[line_idx as int].deep_view());
        proof {
            lemma_line_view(lines@[line_idx as int]);
        }
        let ghost before = options.deep_view();
        match &lines[line_idx] {
            Line::MeasureBreak => {},
            Line::Rest => {},
            Line::Playable(beat_pitches) => {
                if beat_pitches.len() > 0 {
                    let of_beat = convert_beat_to_possible_fingerings(
                        guitar,
                        line_idx,
                        beat_pitches.as_slice(),
                    );
                    let ghost of_beat_view = of_beat.deep_view();
                    options.push(of_beat);
                    assert(options.deep_view() =~= before.push(of_beat_view));
                }
            },
        }
        line_idx += 1;
    }
    assert(lines.deep_view().take(line_idx as int) =~= lines.deep_view());
    options
}

/// The deep view of a line holds the view of its pitches.
pub proof fn lemma_line_view(line: Line<Vec<Pitch>>)
    ensures
        line.deep_view() == match line {
            Line::MeasureBreak => Line::<Seq<Pitch>>::MeasureBreak,
            Line::Rest => Line::<Seq<Pitch>>::Rest,
            Line::Playable(pitches) => Line::<Seq<Pitch>>::Playable(pitches@),
        },
{
    broadcast use lemma_pitches_view;

}

/// The deep view of a grip is its view.
pub broadcast proof fn lemma_grip_view(grip: Vec<BoxFingering>)
    ensures
        #[trigger] grip.deep_view() == grip@,
{
    assert(grip.deep_view() =~= grip@);
}

/// Whether one of the fingerings of `grip` lies on the string `string`.
fn grip_uses_string(grip: &Vec<BoxFingering>, string: u8) -> (b: bool)
    ensures
        b == uses_string(grip@, string),
{
    let mut k: usize = 0;
    while k < grip.len()
        invariant
            k <= grip.len(),
            forall|j: int| 0 <= j < k ==> (#[trigger] grip@[j]).string != string,
        decreases grip.len() - k,
    {
        if grip[k].string == string {
            return true;
        }
        k += 1;
    }
    false
}

/// A copy of `grip` with `fingering` behind it.
fn grip_with(grip: &Vec<BoxFingering>, fingering: BoxFingering) -> (longer: Vec<BoxFingering>)
    ensures
        longer@ == grip@.push(fingering),
{
    let mut longer: Vec<BoxFingering> = Vec::new();
    let mut k: usize = 0;
    while k < grip.len()
        invariant
            k <= grip.len(),
            longer@ == grip@.take(k as int),
        decreases grip.len() - k,
    {
        longer.push(grip[k]);
        k += 1;
        assert(longer@ =~= grip@.take(k as int));
    }
    assert(grip@.take(k as int) =~= grip@);
    longer.push(fingering);
    longer
}

/// Every grip that can sound a beat: one fingering for each pitch, taken from
/// the options of that pitch, and no two of them on one string. For a single
/// pitch each of its options is a grip.
pub fn get_playable_fingerings_for_line(possible_box_fingerings: &[PossibleFingerings]) -> (grips:
    Vec<Grip>)
    ensures
        grips.deep_view() == playable_grips(possible_box_fingerings.deep_view()),
{
    broadcast use lemma_grip_view;

    let ghost possible = possible_box_fingerings.deep_view();
    let mut grips: Vec<Grip> = Vec::new();
    grips.push(Vec::new());
    assert(grips.deep_view() =~= seq![Seq::<BoxFingering>::empty()]);
    let mut p: usize = 0;
    while p < possible_box_fingerings.len()
        invariant
            p <= possible_box_fingerings.len(),
            possible == possible_box_fingerings.deep_view(),
            grips.deep_view() == playable_grips(possible.take(p as int)),
        decreases possible_box_fingerings.len() - p,
    {
        assert(possible.take(p + 1).drop_last() =~= possible.take(p as int));
        let options: &Vec<BoxFingering> = &possible_box_fingerings[p];
        assert(options@ =~= possible.take(p + 1).last());
        let mut longer: Vec<Grip> = Vec::new();
        let mut g: usize = 0;
        assert(longer.deep_view() =~= Seq::<Seq<BoxFingering>>::empty());
        while g < grips.len()
            invariant
                g <= grips.len(),
                longer.deep_view() == all_extended(grips.deep_view().take(g as int), options@),
            decreases grips.len() - g,
        {
            assert(grips.deep_view().take(g + 1).drop_last() =~= grips.deep_view().take(g as int));
            assert(grips.deep_view().take(g + 1).last() =~= grips@[g as int]@);
            let grip: &Vec<BoxFingering> = &grips[g];
            let ghost done = longer.deep_view();
            let mut o: usize = 0;
            assert(longer.deep_view() =~= done + extended(grip@, options@.take(0)));
            while o < options.len()
                invariant
                    o <= options.len(),
                    longer.deep_view() == done + extended(grip@, options@.take(o as int)),
                decreases options.len() - o,
            {
                assert(options@.take(o + 1).drop_last() =~= options@.take(o as int));
                if !grip_uses_string(grip, options[o].string) {
                    let ghost before = longer;
                    let added = grip_with(grip, options[o]);
                    let ghost added_grip = added;
                    longer.push(added);
                    proof {
                        lemma_push_deep_view(before, longer, added_grip);
                        lemma_grip_view(added_grip);
                    }
                }
                o += 1;
                assert(longer.deep_view() =~= done + extended(grip@, options@.take(o as int)));
            }
            assert(options@.take(o as int) =~= options@);
            g += 1;
        }
        assert(grips.deep_view().take(g as int) =~= grips.deep_view());
        grips = longer;
        p += 1;
    }
    assert(possible.take(p as int) =~= possible);
    grips
}

/// Every grip that can sound the beat with the pitches `beat_pitches` on
/// `guitar`: for each pitch one of its box fingerings, no two of them on one
/// string. A beat of one pitch has a grip for each box fingering of the pitch; a
/// beat has no grip where one of its pitches has no box fingering or where every
/// choice takes a string twice.
pub fn combos_for(guitar: &Guitar, line_idx: usize, beat_pitches: &[Pitch]) -> (grips: Vec<Grip>)
    ensures
        grips.deep_view() == playable_grips(
            beat_options(guitar.string_ranges.deep_view(), line_idx, beat_pitches@),
        ),
{
    let options = convert_beat_to_possible_fingerings(guitar, line_idx, beat_pitches);
    get_playable_fingerings_for_line(options.as_slice())
}

/// What it costs to hold `grip`.
pub fn score_grip(grip: &Vec<BoxFingering>, open_string_cost: u32) -> (cost: Cost)
    ensures
        cost == combo_cost(grip@, open_string_cost),
        cost <= u32::MAX,
{
    let mut frets: Vec<u8> = Vec::new();
    let mut k: usize = 0;
    while k < grip.len()
        invariant
            k <= grip.len(),
            frets@ == grip_frets(grip@.take(k as int)),
        decreases grip.len() - k,
    {
        frets.push(grip[k].fret());
        k += 1;
        assert(frets@ =~= grip_frets(grip@.take(k as int)));
    }
    assert(grip@.take(k as int) =~= grip@);
    proof {
        lemma_non_zero_frets(frets@);
    }
    match (non_zero_fret_span(&frets), average_non_zero_fret(&frets)) {
        (Some(span), Some(average)) => {
            let count: u128 = average.count as u128;
            let mean: u128 = average.sum / count;
            assert(mean <= 255) by (nonlinear_arith)
                requires
                    average.sum <= 255 * count,
                    count > 0,
                    mean == average.sum / count,
            ;
            span as u128 + mean
        },
        _ => open_string_cost as u128,
    }
}

/// A copy of `grip`.
pub(crate) fn copy_grip(grip: &Vec<BoxFingering>) -> (copy: Vec<BoxFingering>)
    ensures
        copy@ == grip@,
{
    let mut copy: Vec<BoxFingering> = Vec::new();
    let mut k: usize = 0;
    while k < grip.len()
        invariant
            k <= grip.len(),
            copy@ == grip@.take(k as int),
        decreases grip.len() - k,
    {
        copy.push(grip[k]);
        k += 1;
        assert(copy@ =~= grip@.take(k as int));
    }
    assert(grip@.take(k as int) =~= grip@);
    copy
}

} // verus!
