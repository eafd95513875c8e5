//! The lines of a composition and the fingerings that are played together on one beat.

use crate::guitar::{Fingering, PitchFingering};
use vstd::prelude::*;

verus! {

/// An input that cannot be played, with the number of the line it stands on.
#[derive(Debug, Clone, PartialEq, Eq)]
pub struct InvalidInput {
    pub value: String,
    pub line_number: usize,
}

/// One line of a composition: a break between measures, a rest, or something
/// that is played.
#[derive(Debug, Clone, Hash, Eq, PartialEq, Ord, PartialOrd)]
pub enum Line<T> {
    MeasureBreak,
    Rest,
    Playable(T),
}

impl<T: DeepView> DeepView for Line<T> {
    type V = Line<T::V>;

    open spec fn deep_view(&self) -> Line<T::V> {
        match self {
            Line::MeasureBreak => Line::MeasureBreak,
            Line::Rest => Line::Rest,
            Line::Playable(content) => Line::Playable(content.deep_view()),
        }
    }
}

impl DeepView for InvalidInput {
    type V = (Seq<char>, nat);

    open spec fn deep_view(&self) -> (Seq<char>, nat) {
        (self.value@, self.line_number as nat)
    }
}

/// A list with one entry for each pitch.
pub type PitchVec<T> = Vec<T>;

/// A list with one entry for each pitch of a beat.
pub type BeatVec<T> = Vec<T>;

/// The mean of the frets that a beat presses, kept exact as the sum of the frets
/// over their number.
#[derive(Debug, Clone, Copy, PartialEq, Eq, Structural, Hash)]
pub struct FretAverage {
    pub sum: u128,
    pub count: usize,
}

/// The fingerings of one beat with what they demand of the hand.
#[derive(Debug, Clone, PartialEq, Eq)]
pub struct BeatFingeringCombo {
    /// The fingerings, one for each pitch of the beat.
    pub fingering_combo: BeatVec<PitchFingering>,
    /// The mean of the frets pressed; `None` where only open strings sound.
    pub avg_non_zero_fret: Option<FretAverage>,
    /// The distance between the lowest and the highest fret pressed; 0 where
    /// at most one fret is pressed.
    pub non_zero_fret_span: u8,
}

/// The frets of `fingerings`, in their order.
pub open spec fn frets_of(fingerings: Seq<&Fingering>) -> Seq<u8> {
    fingerings.map_values(|fingering: &Fingering| fingering.fret)
}

/// The lowest of `frets` that is pressed; fret 0, the open string, is not.
pub open spec fn min_non_zero_fret(frets: Seq<u8>) -> Option<u8>
    decreases frets.len(),
{
    if frets.len() == 0 {
        None
    } else {
        let fret = frets.last();
        match min_non_zero_fret(frets.drop_last()) {
            Some(lowest) => if fret != 0 && fret < lowest {
                Some(fret)
            } else {
                Some(lowest)
            },
            None => if fret != 0 {
                Some(fret)
            } else {
                None
            },
        }
    }
}

/// The highest of `frets` that is pressed; fret 0, the open string, is not.
pub open spec fn max_non_zero_fret(frets: Seq<u8>) -> Option<u8>
    decreases frets.len(),
{
    if frets.len() == 0 {
        None
    } else {
        let fret = frets.last();
        match max_non_zero_fret(frets.drop_last()) {
            Some(highest) => if fret > highest {
                Some(fret)
            } else {
                Some(highest)
            },
            None => if fret != 0 {
                Some(fret)
            } else {
                None
            },
        }
    }
}

/// The distance between the lowest and the highest of `frets` that are pressed.
pub open spec fn fret_span(frets: Seq<u8>) -> Option<u8> {
    match (min_non_zero_fret(frets), max_non_zero_fret(frets)) {
        (Some(lowest), Some(highest)) => Some((highest - lowest) as u8),
        _ => None,
    }
}

/// The sum of `frets`.
pub open spec fn non_zero_fret_sum(frets: Seq<u8>) -> nat
    decreases frets.len(),
{
    if frets.len() == 0 {
        0
    } else {
        non_zero_fret_sum(frets.drop_last()) + frets.last() as nat
    }
}

/// The number of `frets` that are pressed.
pub open spec fn non_zero_fret_count(frets: Seq<u8>) -> nat
    decreases frets.len(),
{
    if frets.len() == 0 {
        0
    } else {
        non_zero_fret_count(frets.drop_last()) + if frets.last() != 0 {
            1nat
        } else {
            0nat
        }
    }
}

/// The mean of those of `frets` that are pressed.
pub open spec fn fret_average(frets: Seq<u8>) -> Option<FretAverage> {
    if non_zero_fret_count(frets) == 0 {
        None
    } else {
        Some(
            FretAverage {
                sum: non_zero_fret_sum(frets) as u128,
                count: non_zero_fret_count(frets) as usize,
            },
        )
    }
}

/// The frets pressed lie between the lowest and the highest of them, both of
/// which are pressed; they are counted and summed within the bounds of the
/// integers that hold them.
pub proof fn lemma_non_zero_frets(frets: Seq<u8>)
    ensures
        min_non_zero_fret(frets) is Some <==> max_non_zero_fret(frets) is Some,
        min_non_zero_fret(frets) is Some <==> non_zero_fret_count(frets) > 0,
        min_non_zero_fret(frets) is Some <==> exists|i: int|
            0 <= i < frets.len() && #[trigger] frets[i] != 0,
        min_non_zero_fret(frets) matches Some(lowest) ==> {
            &&& lowest != 0
            &&& exists|i: int| 0 <= i < frets.len() && #[trigger] frets[i] == lowest
            &&& forall|i: int| 0 <= i < frets.len() && #[trigger] frets[i] != 0 ==> lowest <= frets[i]
        },
        max_non_zero_fret(frets) matches Some(highest) ==> {
            &&& highest != 0
            &&& exists|i: int| 0 <= i < frets.len() && #[trigger] frets[i] == highest
            &&& forall|i: int| 0 <= i < frets.len() ==> #[trigger] frets[i] <= highest
        },
        non_zero_fret_count(frets) <= frets.len(),
        non_zero_fret_sum(frets) <= 255 * non_zero_fret_count(frets),
    decreases frets.len(),
{
    if frets.len() > 0 {
        let before = frets.drop_last();
        lemma_non_zero_frets(before);
        let last = frets.len() - 1;
        assert(frets[last] == frets.last());
        assert forall|i: int| 0 <= i < before.len() implies before[i] == frets[i] by {}
        if min_non_zero_fret(before) is Some {
            let i = choose|i: int|
                0 <= i < before.len() && #[trigger] before[i] == min_non_zero_fret(before)->0;
            assert(frets[i] == before[i]);
            let j = choose|j: int|
                0 <= j < before.len() && #[trigger] before[j] == max_non_zero_fret(before)->0;
            assert(frets[j] == before[j]);
        }
        if exists|i: int| 0 <= i < frets.len() && #[trigger] frets[i] != 0 {
            let i = choose|i: int| 0 <= i < frets.len() && #[trigger] frets[i] != 0;
            if i < last {
                assert(before[i] != 0);
            }
        }
    }
}

/// The mean of those of `frets` that are pressed, or `None` where none is.
pub fn average_non_zero_fret(frets: &Vec<u8>) -> (average: Option<FretAverage>)
    ensures
        average == fret_average(frets@),
{
    let mut sum: u128 = 0;
    let mut count: usize = 0;
    let mut i: usize = 0;
    while i < frets.len()
        invariant
            i <= frets.len(),
            sum == non_zero_fret_sum(frets@.take(i as int)),
            count == non_zero_fret_count(frets@.take(i as int)),
            count <= i,
            sum <= 255 * i,
        decreases frets.len() - i,
    {
        assert(frets@.take(i + 1).drop_last() =~= frets@.take(i as int));
        let fret: u8 = frets[i];
        if fret != 0 {
            sum = sum + fret as u128;
            count = count + 1;
        }
        i += 1;
    }
    assert(frets@.take(i as int) =~= frets@);
    if count == 0 {
        None
    } else {
        Some(FretAverage { sum, count })
    }
}

/// The distance between the lowest and the highest of `frets` that are
/// pressed, or `None` where none is.
pub fn non_zero_fret_span(frets: &Vec<u8>) -> (span: Option<u8>)
    ensures
        span == fret_span(frets@),
{
    let mut lowest: Option<u8> = None;
    let mut highest: Option<u8> = None;
    let mut i: usize = 0;
    while i < frets.len()
        invariant
            i <= frets.len(),
            lowest == min_non_zero_fret(frets@.take(i as int)),
            highest == max_non_zero_fret(frets@.take(i as int)),
        decreases frets.len() - i,
    {
        assert(frets@.take(i + 1).drop_last() =~= frets@.take(i as int));
        let fret: u8 = frets[i];
        lowest = match lowest {
            Some(so_far) => if fret != 0 && fret < so_far {
                Some(fret)
            } else {
                Some(so_far)
            },
            None => if fret != 0 {
                Some(fret)
            } else {
                None
            },
        };
        highest = match highest {
            Some(so_far) => if fret > so_far {
                Some(fret)
            } else {
                Some(so_far)
            },
            None => if fret != 0 {
                Some(fret)
            } else {
                None
            },
        };
        i += 1;
    }
    assert(frets@.take(i as int) =~= frets@);
    proof {
        lemma_non_zero_frets(frets@);
    }
    match (lowest, highest) {
        (Some(lowest), Some(highest)) => Some(highest - lowest),
        _ => None,
    }
}

/// The frets of `fingerings`, in their order.
pub open spec fn fingering_frets(fingerings: Seq<Fingering>) -> Seq<u8> {
    fingerings.map_values(|fingering: Fingering| fingering.fret)
}

/// The frets of the fingerings, in their order.
pub fn frets_of_fingerings(fingerings: &Vec<Fingering>) -> (frets: Vec<u8>)
    ensures
        frets@ == fingering_frets(fingerings@),
{
    let mut frets: Vec<u8> = Vec::new();
    let mut i: usize = 0;
    while i < fingerings.len()
        invariant
            i <= fingerings.len(),
            frets@ == fingering_frets(fingerings@.take(i as int)),
        decreases fingerings.len() - i,
    {
        frets.push(fingerings[i].fret);
        i += 1;
        assert(frets@ =~= fingering_frets(fingerings@.take(i as int)));
    }
    assert(fingerings@.take(i as int) =~= fingerings@);
    frets
}

/// The frets of the fingerings, in their order.
fn collect_frets(fingerings: &[&PitchFingering]) -> (frets: Vec<u8>)
    ensures
        frets@ == frets_of(fingerings@),
{
    let mut frets: Vec<u8> = Vec::new();
    let mut i: usize = 0;
    while i < fingerings.len()
        invariant
            i <= fingerings.len(),
            frets@ == frets_of(fingerings@.take(i as int)),
        decreases fingerings.len() - i,
    {
        frets.push(fingerings[i].fret);
        i += 1;
        assert(frets@ =~= frets_of(fingerings@.take(i as int)));
    }
    assert(fingerings@.take(i as int) =~= fingerings@);
    frets
}

impl BeatFingeringCombo {
    /// Gathers the fingerings of one beat and measures them: the mean of the
    /// frets pressed and the distance between the lowest and the highest.
    pub fn new(beat_fingering_candidate: BeatVec<&PitchFingering>) -> (combo: Self)
        ensures
            combo.fingering_combo@ == beat_fingering_candidate@.map_values(|f: &Fingering| *f),
            combo.avg_non_zero_fret == fret_average(frets_of(beat_fingering_candidate@)),
            combo.non_zero_fret_span == match fret_span(frets_of(beat_fingering_candidate@)) {
                Some(span) => span,
                None => 0,
            },
    {
        let mut fingering_combo: Vec<PitchFingering> = Vec::new();
        let mut i: usize = 0;
        while i < beat_fingering_candidate.len()
            invariant
                i <= beat_fingering_candidate.len(),
                fingering_combo@ == beat_fingering_candidate@.take(i as int).map_values(
                    |f: &Fingering| *f,
                ),
            decreases beat_fingering_candidate.len() - i,
        {
            fingering_combo.push(*beat_fingering_candidate[i]);
            i += 1;
            assert(fingering_combo@ =~= beat_fingering_candidate@.take(i as int).map_values(
                |f: &Fingering| *f,
            ));
        }
        assert(beat_fingering_candidate@.take(i as int) =~= beat_fingering_candidate@);
        let avg_non_zero_fret = calc_avg_non_zero_fret(beat_fingering_candidate.as_slice());
        let non_zero_fret_span = match calc_fret_span(beat_fingering_candidate) {
            Some(span) => span,
            None => 0,
        };
        BeatFingeringCombo { fingering_combo, avg_non_zero_fret, non_zero_fret_span }
    }
}

/// The mean of the frets that the fingerings press, or `None` where every
/// string is open.
pub fn calc_avg_non_zero_fret(beat_fingering_candidate: &[&PitchFingering]) -> (average: Option<
    FretAverage,
>)
    ensures
        average == fret_average(frets_of(beat_fingering_candidate@)),
{
    let frets = collect_frets(beat_fingering_candidate);
    average_non_zero_fret(&frets)
}

/// The distance between the lowest and the highest fret that the fingerings
/// press, or `None` where every string is open.
pub fn calc_fret_span(beat_fingering_candidate: Vec<&PitchFingering>) -> (span: Option<u8>)
    ensures
        span == fret_span(frets_of(beat_fingering_candidate@)),
{
    let frets = collect_frets(beat_fingering_candidate.as_slice());
    non_zero_fret_span(&frets)
}

} // verus!
