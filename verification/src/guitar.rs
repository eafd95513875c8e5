//! The instrument: its tuning, its frets, and the pitches each string can sound.

use crate::pitch::{lemma_index_round_trip, lemma_pitch_at, pitch_at, Pitch, NUM_PITCHES};
use crate::string_number::{StringNumber, MAX_NUM_STRINGS};
use crate::text::{decimal, push_decimal};
use vstd::prelude::*;
use vstd::string::*;

verus! {

/// The highest number of frets an instrument can have.
pub const MAX_NUM_FRETS: u8 = 30;

/// One way to sound a pitch: the string to pluck and the fret to press, counted
/// from the open string (fret 0).
#[derive(Debug, Clone, Copy, PartialEq, Eq, Structural, Hash, PartialOrd, Ord)]
pub struct Fingering {
    pub pitch: Pitch,
    pub string_number: StringNumber,
    pub fret: u8,
}

/// A fingering, named after what it fingers.
pub type PitchFingering = Fingering;

impl DeepView for Fingering {
    type V = Fingering;

    open spec fn deep_view(&self) -> Fingering {
        *self
    }
}

/// A string cannot carry the frets asked for: its highest fret would sound a
/// pitch above the pitch space.
#[derive(Debug, Clone, Copy, PartialEq, Eq, Structural)]
pub struct StringRangeError {
    /// The pitch of the open string.
    pub open_pitch: Pitch,
    /// The number of frets that was asked for.
    pub num_frets: u8,
    /// The fret at which the string would sound the highest pitch of the pitch space.
    pub highest_fret: u8,
}

/// Why an instrument cannot be built.
#[derive(Debug, Clone, Copy, PartialEq, Eq, Structural)]
pub enum GuitarError {
    /// More frets were asked for than [`MAX_NUM_FRETS`].
    FretLimitExceeded { num_frets: u8 },
    /// The string `string_number` cannot carry that many frets.
    TooManyFrets { string_number: StringNumber, range: StringRangeError },
    /// The capo was to sit above the last fret.
    CapoTooHigh { capo: u8, num_frets: u8 },
}

/// A fretted string instrument. `tuning` lists its strings by ascending string
/// number, each with the pitch of the open string; `string_ranges` lists, in the
/// same order, the pitches of each string from fret 0 to fret `num_frets`, and
/// `range` every pitch that some string can sound, from the lowest to the highest.
#[derive(Debug, Clone, PartialEq)]
pub struct Guitar {
    pub tuning: Vec<(StringNumber, Pitch)>,
    pub num_frets: u8,
    pub range: Vec<Pitch>,
    pub string_ranges: Vec<(StringNumber, Vec<Pitch>)>,
}

/// Whether a string tuned to `open_pitch` can carry `num_frets` frets within the
/// pitch space.
pub open spec fn string_fits(open_pitch: Pitch, num_frets: nat) -> bool {
    open_pitch.spec_index() + num_frets < NUM_PITCHES
}

/// The pitches of a string tuned to `open_pitch`, from fret 0 to fret `num_frets`:
/// consecutive semitones.
pub open spec fn string_range(open_pitch: Pitch, num_frets: nat) -> Seq<Pitch> {
    Seq::new(num_frets + 1, |fret: int| pitch_at(open_pitch.spec_index() + fret).unwrap())
}

/// What `create_string_range` reports for a string that does not fit.
pub open spec fn string_range_error(open_pitch: Pitch, num_frets: u8) -> StringRangeError {
    StringRangeError {
        open_pitch,
        num_frets,
        highest_fret: (NUM_PITCHES - 1 - open_pitch.spec_index()) as u8,
    }
}

/// Whether `fret` is the first place of `range` that holds `pitch`, and a fret
/// number can name it.
pub open spec fn is_fret_of(range: Seq<Pitch>, pitch: Pitch, fret: int) -> bool {
    &&& 0 <= fret < range.len()
    &&& fret <= u8::MAX
    &&& range[fret] == pitch
    &&& forall|lower: int| 0 <= lower < fret ==> range[lower] != pitch
}

/// The fret at which a string with the pitches `range` sounds `pitch`.
pub open spec fn fret_of(range: Seq<Pitch>, pitch: Pitch) -> Option<u8> {
    if exists|fret: int| is_fret_of(range, pitch, fret) {
        Some((choose|fret: int| is_fret_of(range, pitch, fret)) as u8)
    } else {
        None
    }
}

/// The fingering of `pitch` on one string, if the string can sound it.
pub open spec fn fingering_on(string: (StringNumber, Seq<Pitch>), pitch: Pitch) -> Option<
    Fingering,
> {
    match fret_of(string.1, pitch) {
        Some(fret) => Some(Fingering { pitch, string_number: string.0, fret }),
        None => None,
    }
}

/// Every fingering of `pitch` on the strings `ranges`, in the order of the strings.
pub open spec fn pitch_fingerings(ranges: Seq<(StringNumber, Seq<Pitch>)>, pitch: Pitch) -> Seq<
    Fingering,
>
    decreases ranges.len(),
{
    if ranges.len() == 0 {
        Seq::empty()
    } else {
        let before = pitch_fingerings(ranges.drop_last(), pitch);
        match fingering_on(ranges.last(), pitch) {
            Some(fingering) => before.push(fingering),
            None => before,
        }
    }
}

/// The entry that stands last in `pairs` among those for the string numbered `number`.
pub open spec fn last_entry_for(pairs: Seq<(StringNumber, Pitch)>, number: int) -> Option<
    (StringNumber, Pitch),
>
    decreases pairs.len(),
{
    if pairs.len() == 0 {
        None
    } else if pairs.last().0.spec_get() == number {
        Some(pairs.last())
    } else {
        last_entry_for(pairs.drop_last(), number)
    }
}

/// The strings of `pairs` numbered up to `highest`, by ascending string number;
/// where `pairs` names a string more than once, its last entry counts.
pub open spec fn ordered_up_to(pairs: Seq<(StringNumber, Pitch)>, highest: nat) -> Seq<
    (StringNumber, Pitch),
>
    decreases highest,
{
    if highest == 0 {
        Seq::empty()
    } else {
        let before = ordered_up_to(pairs, (highest - 1) as nat);
        match last_entry_for(pairs, highest as int) {
            Some(entry) => before.push(entry),
            None => before,
        }
    }
}

/// The tuning that `pairs` describes as an ordered mapping: one entry for each
/// string, by ascending string number.
pub open spec fn ordered_tuning(pairs: Seq<(StringNumber, Pitch)>) -> Seq<(StringNumber, Pitch)> {
    ordered_up_to(pairs, MAX_NUM_STRINGS as nat)
}

/// Whether `tuning` lists its strings by strictly ascending string number.
pub open spec fn is_ascending(tuning: Seq<(StringNumber, Pitch)>) -> bool {
    forall|i: int, j: int|
        0 <= i < j < tuning.len() ==> tuning[i].0.spec_get() < tuning[j].0.spec_get()
}

/// Whether every string of `tuning` can carry `num_frets` frets.
pub open spec fn all_strings_fit(tuning: Seq<(StringNumber, Pitch)>, num_frets: nat) -> bool {
    forall|i: int| 0 <= i < tuning.len() ==> string_fits((#[trigger] tuning[i]).1, num_frets)
}

/// Whether string `i` of `tuning` is the first that cannot carry `num_frets` frets.
pub open spec fn is_first_misfit(
    tuning: Seq<(StringNumber, Pitch)>,
    num_frets: nat,
    i: int,
) -> bool {
    &&& 0 <= i < tuning.len()
    &&& !string_fits(tuning[i].1, num_frets)
    &&& all_strings_fit(tuning.take(i), num_frets)
}

/// The tuning that `tuning` becomes under a capo at fret `capo`: every string
/// sounds `capo` semitones higher.
pub open spec fn raised_tuning(tuning: Seq<(StringNumber, Pitch)>, capo: nat) -> Seq<
    (StringNumber, Pitch),
> {
    Seq::new(
        tuning.len(),
        |i: int| (tuning[i].0, pitch_at((tuning[i].1.spec_index() + capo) as int).unwrap()),
    )
}

/// Whether `error` tells why no instrument with the strings `tuning`,
/// `num_frets` frets and a capo at fret `capo` can be built. Too many frets for
/// any instrument come first, then the first string that cannot carry the
/// frets, then the capo.
pub open spec fn is_construction_error(
    error: GuitarError,
    tuning: Seq<(StringNumber, Pitch)>,
    num_frets: u8,
    capo: u8,
) -> bool {
    match error {
        GuitarError::FretLimitExceeded { num_frets: asked } => {
            &&& num_frets > MAX_NUM_FRETS
            &&& asked == num_frets
        },
        GuitarError::TooManyFrets { string_number, range } => {
            &&& num_frets <= MAX_NUM_FRETS
            &&& exists|i: int|
                {
                    &&& is_first_misfit(ordered_tuning(tuning), num_frets as nat, i)
                    &&& string_number == ordered_tuning(tuning)[i].0
                    &&& range == string_range_error(ordered_tuning(tuning)[i].1, num_frets)
                }
        },
        GuitarError::CapoTooHigh { capo: asked, num_frets: frets } => {
            &&& num_frets <= MAX_NUM_FRETS
            &&& all_strings_fit(ordered_tuning(tuning), num_frets as nat)
            &&& capo > num_frets
            &&& asked == capo
            &&& frets == num_frets
        },
    }
}

/// The strings of an instrument with the tuning `tuning` and `num_frets` frets:
/// each with its number and its pitches from fret 0 to the last fret.
pub open spec fn strings_of(tuning: Seq<(StringNumber, Pitch)>, num_frets: nat) -> Seq<
    (StringNumber, Seq<Pitch>),
> {
    Seq::new(tuning.len(), |i: int| (tuning[i].0, string_range(tuning[i].1, num_frets)))
}

/// Whether `ranges` holds, string by string, the ranges of `tuning` with
/// `num_frets` frets.
pub open spec fn ranges_of_tuning(
    ranges: Seq<(StringNumber, Seq<Pitch>)>,
    tuning: Seq<(StringNumber, Pitch)>,
    num_frets: nat,
) -> bool {
    &&& ranges.len() == tuning.len()
    &&& forall|i: int|
        0 <= i < ranges.len() ==> (#[trigger] ranges[i]).0 == tuning[i].0 && ranges[i].1
            == string_range(tuning[i].1, num_frets)
}

/// Whether some string of `ranges` can sound `pitch`.
pub open spec fn some_string_sounds(ranges: Seq<(StringNumber, Seq<Pitch>)>, pitch: Pitch) -> bool {
    exists|i: int| 0 <= i < ranges.len() && (#[trigger] ranges[i]).1.contains(pitch)
}

/// Whether `range` holds exactly the pitches that the strings of `ranges` can
/// sound, each once, from the lowest to the highest.
pub open spec fn is_total_range(range: Seq<Pitch>, ranges: Seq<(StringNumber, Seq<Pitch>)>) -> bool {
    &&& forall|i: int, j: int|
        0 <= i < j < range.len() ==> range[i].spec_index() < range[j].spec_index()
    &&& forall|pitch: Pitch| range.contains(pitch) <==> some_string_sounds(ranges, pitch)
}

/// The deep view of a list of pitches is its view.
pub broadcast proof fn lemma_pitches_view(pitches: Vec<Pitch>)
    ensures
        #[trigger] pitches.deep_view() == pitches@,
{
    assert(pitches.deep_view() =~= pitches@);
}

/// The deep view of the strings of an instrument holds, for each string, its
/// number and the view of its pitches.
pub broadcast proof fn lemma_strings_view(strings: Vec<(StringNumber, Vec<Pitch>)>, i: int)
    requires
        0 <= i < strings.len(),
    ensures
        #[trigger] strings.deep_view()[i] == (strings@[i].0, strings@[i].1@),
{
    broadcast use lemma_pitches_view;

}

/// The fret at which the string with the pitches `range` sounds `pitch`.
fn find_fret(range: &Vec<Pitch>, pitch: &Pitch) -> (r: Option<u8>)
    ensures
        r == fret_of(range@, *pitch),
{
    let mut fret: usize = 0;
    while fret < range.len() && fret <= 255
        invariant
            fret <= range.len(),
            forall|lower: int| 0 <= lower < fret ==> range@[lower] != *pitch,
        decreases range.len() - fret,
    {
        if range[fret] == *pitch {
            assert(is_fret_of(range@, *pitch, fret as int));
            return Some(fret as u8);
        }
        fret += 1;
    }
    assert(forall|other: int| !is_fret_of(range@, *pitch, other));
    None
}

/// Whether the string with the pitches `range` can sound `pitch`.
fn range_contains(range: &Vec<Pitch>, pitch: &Pitch) -> (b: bool)
    ensures
        b == range@.contains(*pitch),
{
    let mut i: usize = 0;
    while i < range.len()
        invariant
            i <= range.len(),
            forall|k: int| 0 <= k < i ==> range@[k] != *pitch,
        decreases range.len() - i,
    {
        if range[i] == *pitch {
            return true;
        }
        i += 1;
    }
    false
}

/// Whether some string of `ranges` can sound `pitch`.
fn strings_sound(ranges: &Vec<(StringNumber, Vec<Pitch>)>, pitch: &Pitch) -> (b: bool)
    ensures
        b == some_string_sounds(ranges.deep_view(), *pitch),
{
    let mut i: usize = 0;
    while i < ranges.len()
        invariant
            i <= ranges.len(),
            forall|k: int| 0 <= k < i ==> !(#[trigger] ranges@[k]).1@.contains(*pitch),
        decreases ranges.len() - i,
    {
        if range_contains(&ranges[i].1, pitch) {
            proof {
                lemma_strings_view(*ranges, i as int);
            }
            assert(ranges.deep_view()[i as int].1.contains(*pitch));
            return true;
        }
        i += 1;
    }
    proof {
        assert forall|k: int| 0 <= k < ranges.len() implies !(#[trigger] ranges.deep_view()[k]).1.contains(
            *pitch,
        ) by {
            lemma_strings_view(*ranges, k);
        }
    }
    false
}

/// The last entry of `pairs` for the string numbered `number`.
fn find_last_entry(pairs: &Vec<(StringNumber, Pitch)>, number: u8) -> (r: Option<
    (StringNumber, Pitch),
>)
    ensures
        r == last_entry_for(pairs@, number as int),
        r matches Some(entry) ==> entry.0.spec_get() == number,
{
    let mut i: usize = pairs.len();
    assert(pairs@.take(i as int) =~= pairs@);
    while i > 0
        invariant
            i <= pairs.len(),
            last_entry_for(pairs@, number as int) == last_entry_for(
                pairs@.take(i as int),
                number as int,
            ),
        decreases i,
    {
        i -= 1;
        assert(pairs@.take(i + 1).drop_last() =~= pairs@.take(i as int));
        if pairs[i].0.get() == number {
            return Some(pairs[i]);
        }
    }
    None
}

/// Brings `pairs` into the order of an ordered mapping.
fn order_tuning(pairs: &Vec<(StringNumber, Pitch)>) -> (r: Vec<(StringNumber, Pitch)>)
    ensures
        r@ == ordered_tuning(pairs@),
        is_ascending(r@),
{
    let mut ordered: Vec<(StringNumber, Pitch)> = Vec::new();
    let mut number: u8 = 1;
    while number <= MAX_NUM_STRINGS
        invariant
            1 <= number <= MAX_NUM_STRINGS + 1,
            ordered@ == ordered_up_to(pairs@, (number - 1) as nat),
            is_ascending(ordered@),
            forall|i: int| 0 <= i < ordered.len() ==> ordered@[i].0.spec_get() < number,
        decreases MAX_NUM_STRINGS + 1 - number,
    {
        match find_last_entry(pairs, number) {
            Some(entry) => {
                ordered.push(entry);
            },
            None => {},
        }
        number += 1;
    }
    ordered
}

/// Every pitch that some string of `string_ranges` can sound, from the lowest to
/// the highest.
fn total_range(string_ranges: &Vec<(StringNumber, Vec<Pitch>)>) -> (range: Vec<Pitch>)
    ensures
        is_total_range(range@, string_ranges.deep_view()),
{
    let mut range: Vec<Pitch> = Vec::new();
    let mut index: usize = 0;
    while index < NUM_PITCHES
        invariant
            index <= NUM_PITCHES,
            forall|i: int, j: int|
                0 <= i < j < range.len() ==> range@[i].spec_index() < range@[j].spec_index(),
            forall|i: int| 0 <= i < range.len() ==> range@[i].spec_index() < index,
            forall|pitch: Pitch|
                range@.contains(pitch) <==> pitch.spec_index() < index && some_string_sounds(
                    string_ranges.deep_view(),
                    pitch,
                ),
        decreases NUM_PITCHES - index,
    {
        let pitch = Pitch::from_index(index).unwrap();
        proof {
            lemma_pitch_at(index as int);
        }
        let ghost before = range@;
        if strings_sound(string_ranges, &pitch) {
            range.push(pitch);
            assert(range@.last() == pitch);
        }
        assert forall|other: Pitch|
            range@.contains(other) <==> other.spec_index() < index + 1 && some_string_sounds(
                string_ranges.deep_view(),
                other,
            ) by {
            lemma_index_round_trip(other);
            if other == pitch {
                if range@.len() > before.len() {
                    assert(range@[range@.len() - 1] == other);
                }
            } else {
                if before.contains(other) {
                    let k = choose|k: int| 0 <= k < before.len() && before[k] == other;
                    assert(range@[k] == other);
                }
            }
        }
        index += 1;
    }
    proof {
        assert forall|pitch: Pitch|
            range@.contains(pitch) <==> some_string_sounds(string_ranges.deep_view(), pitch) by {
            lemma_index_round_trip(pitch);
        }
    }
    range
}

impl Guitar {
    /// Whether the instrument is consistent: its strings stand by ascending string
    /// number, its frets are within [`MAX_NUM_FRETS`], each string's range is that
    /// of its open pitch, and `range` is the union of the strings' ranges.
    pub open spec fn wf(self) -> bool {
        &&& is_ascending(self.tuning@)
        &&& self.num_frets <= MAX_NUM_FRETS
        &&& all_strings_fit(self.tuning@, self.num_frets as nat)
        &&& ranges_of_tuning(self.string_ranges.deep_view(), self.tuning@, self.num_frets as nat)
        &&& is_total_range(self.range@, self.string_ranges.deep_view())
    }

    /// Builds the instrument with the strings of `tuning` and `num_frets` frets.
    ///
    /// `tuning` is read as an ordered mapping (see [`ordered_tuning`]). The fret
    /// count may not exceed [`MAX_NUM_FRETS`], and no string may reach above the
    /// pitch space; of several strings that do, the one with the lowest string
    /// number is reported.
    pub fn new(tuning: Vec<(StringNumber, Pitch)>, num_frets: u8) -> (r: Result<
        Guitar,
        GuitarError,
    >)
        ensures
            r is Ok <==> num_frets <= MAX_NUM_FRETS && all_strings_fit(
                ordered_tuning(tuning@),
                num_frets as nat,
            ),
            match r {
                Ok(guitar) => {
                    &&& guitar.wf()
                    &&& guitar.tuning@ == ordered_tuning(tuning@)
                    &&& guitar.num_frets == num_frets
                },
                Err(GuitarError::FretLimitExceeded { num_frets: asked }) => {
                    &&& num_frets > MAX_NUM_FRETS
                    &&& asked == num_frets
                },
                Err(error) => is_construction_error(error, tuning@, num_frets, 0),
            },
    {
        match Guitar::check_fret_number(num_frets) {
            Ok(()) => {},
            Err(e) => {
                return Err(e);
            },
        }
        let strings = order_tuning(&tuning);
        let mut string_ranges: Vec<(StringNumber, Vec<Pitch>)> = Vec::new();
        let mut i: usize = 0;
        while i < strings.len()
            invariant
                i <= strings.len(),
                num_frets <= MAX_NUM_FRETS,
                strings@ == ordered_tuning(tuning@),
                all_strings_fit(strings@.take(i as int), num_frets as nat),
                string_ranges.len() == i,
                forall|k: int|
                    0 <= k < i ==> (#[trigger] string_ranges@[k]).0 == strings@[k].0
                        && string_ranges@[k].1@ == string_range(strings@[k].1, num_frets as nat),
            decreases strings.len() - i,
        {
            let (string_number, open_pitch) = strings[i];
            match Guitar::create_string_range(&open_pitch, num_frets) {
                Ok(string_range) => {
                    string_ranges.push((string_number, string_range));
                },
                Err(range) => {
                    proof {
                        assert(is_first_misfit(strings@, num_frets as nat, i as int));
                        assert(!string_fits(strings@[i as int].1, num_frets as nat));
                    }
                    return Err(GuitarError::TooManyFrets { string_number, range });
                },
            }
            i += 1;
        }
        assert(strings@.take(i as int) =~= strings@);
        proof {
            assert forall|k: int| 0 <= k < string_ranges.len() implies (
            #[trigger] string_ranges.deep_view()[k]).0 == strings@[k].0
                && string_ranges.deep_view()[k].1 == string_range(
                strings@[k].1,
                num_frets as nat,
            ) by {
                lemma_strings_view(string_ranges, k);
            }
        }
        let range = total_range(&string_ranges);
        Ok(Guitar { tuning: strings, num_frets, range, string_ranges })
    }

    /// Builds the instrument with a capo at fret `capo`: every string sounds
    /// `capo` semitones above its open pitch, and `capo` frets fewer are left to
    /// press. The instrument must be one that can be built without the capo, and
    /// the capo may not sit above its last fret.
    pub fn with_capo(tuning: Vec<(StringNumber, Pitch)>, num_frets: u8, capo: u8) -> (r: Result<
        Guitar,
        GuitarError,
    >)
        ensures
            r is Ok <==> num_frets <= MAX_NUM_FRETS && all_strings_fit(
                ordered_tuning(tuning@),
                num_frets as nat,
            ) && capo <= num_frets,
            match r {
                Ok(guitar) => {
                    &&& guitar.wf()
                    &&& guitar.tuning@ == raised_tuning(ordered_tuning(tuning@), capo as nat)
                    &&& guitar.num_frets == num_frets - capo
                },
                Err(error) => is_construction_error(error, tuning@, num_frets, capo),
            },
    {
        let open_guitar = match Guitar::new(tuning, num_frets) {
            Ok(guitar) => guitar,
            Err(error) => {
                return Err(error);
            },
        };
        if capo > num_frets {
            return Err(GuitarError::CapoTooHigh { capo, num_frets });
        }
        let frets_left: u8 = num_frets - capo;
        let ghost open_strings = open_guitar.tuning@;
        let mut strings: Vec<(StringNumber, Pitch)> = Vec::new();
        let mut string_ranges: Vec<(StringNumber, Vec<Pitch>)> = Vec::new();
        let mut i: usize = 0;
        while i < open_guitar.tuning.len()
            invariant
                i <= open_guitar.tuning.len(),
                open_strings == open_guitar.tuning@,
                all_strings_fit(open_strings, num_frets as nat),
                capo <= num_frets,
                frets_left == num_frets - capo,
                strings@ == raised_tuning(open_strings, capo as nat).take(i as int),
                string_ranges.len() == i,
                forall|k: int|
                    0 <= k < i ==> (#[trigger] string_ranges@[k]).0 == strings@[k].0
                        && string_ranges@[k].1@ == string_range(strings@[k].1, frets_left as nat),
            decreases open_guitar.tuning.len() - i,
        {
            let (string_number, open_pitch) = open_guitar.tuning[i];
            assert(string_fits(open_strings[i as int].1, num_frets as nat));
            let raised = Pitch::from_index(open_pitch.index() + capo as usize).unwrap();
            proof {
                lemma_pitch_at((open_pitch.spec_index() + capo) as int);
            }
            match Guitar::create_string_range(&raised, frets_left) {
                Ok(string_range) => {
                    strings.push((string_number, raised));
                    string_ranges.push((string_number, string_range));
                },
                Err(_) => {
                    assert(false);
                },
            }
            i += 1;
            assert(strings@ =~= raised_tuning(open_strings, capo as nat).take(i as int));
        }
        proof {
            let raised = raised_tuning(open_strings, capo as nat);
            assert(strings@ =~= raised);
            assert forall|k: int| 0 <= k < strings.len() implies string_fits(
                (#[trigger] strings@[k]).1,
                frets_left as nat,
            ) by {
                assert(string_fits(open_strings[k].1, num_frets as nat));
                lemma_pitch_at((open_strings[k].1.spec_index() + capo) as int);
            }
            assert forall|k: int| 0 <= k < string_ranges.len() implies (
            #[trigger] string_ranges.deep_view()[k]).0 == strings@[k].0
                && string_ranges.deep_view()[k].1 == string_range(
                strings@[k].1,
                frets_left as nat,
            ) by {
                lemma_strings_view(string_ranges, k);
            }
        }
        let range = total_range(&string_ranges);
        Ok(Guitar { tuning: strings, num_frets: frets_left, range, string_ranges })
    }

    /// Accepts a fret count up to [`MAX_NUM_FRETS`] and refuses any higher one.
    pub fn check_fret_number(num_frets: u8) -> (r: Result<(), GuitarError>)
        ensures
            r is Ok <==> num_frets <= MAX_NUM_FRETS,
            r matches Err(e) ==> e == (GuitarError::FretLimitExceeded { num_frets }),
    {
        if num_frets > MAX_NUM_FRETS {
            return Err(GuitarError::FretLimitExceeded { num_frets });
        }
        Ok(())
    }

    /// The pitches of a string tuned to `open_string_pitch`, from fret 0 to fret
    /// `num_frets`, or the error that says at which fret the pitch space ends.
    pub fn create_string_range(open_string_pitch: &Pitch, num_frets: u8) -> (r: Result<
        Vec<Pitch>,
        StringRangeError,
    >)
        ensures
            match r {
                Ok(range) => string_fits(*open_string_pitch, num_frets as nat) && range@
                    == string_range(*open_string_pitch, num_frets as nat),
                Err(e) => !string_fits(*open_string_pitch, num_frets as nat) && e
                    == string_range_error(*open_string_pitch, num_frets),
            },
    {
        let lowest: usize = open_string_pitch.index();
        if lowest + num_frets as usize >= NUM_PITCHES {
            return Err(
                StringRangeError {
                    open_pitch: *open_string_pitch,
                    num_frets,
                    highest_fret: (NUM_PITCHES - 1 - lowest) as u8,
                },
            );
        }
        let mut range: Vec<Pitch> = Vec::new();
        let mut fret: usize = 0;
        while fret <= num_frets as usize
            invariant
                fret <= num_frets + 1,
                lowest == open_string_pitch.spec_index(),
                lowest + num_frets < NUM_PITCHES,
                range@ == Seq::new(fret as nat, |f: int| pitch_at(lowest + f).unwrap()),
            decreases num_frets + 1 - fret,
        {
            let pitch = Pitch::from_index(lowest + fret).unwrap();
            range.push(pitch);
            fret += 1;
            assert(range@ =~= Seq::new(fret as nat, |f: int| pitch_at(lowest + f).unwrap()));
        }
        assert(range@ =~= string_range(*open_string_pitch, num_frets as nat));
        Ok(range)
    }

    /// Every fingering of `pitch` on the strings `string_ranges`, in the order of
    /// the strings: on each string that holds the pitch, the first fret that
    /// sounds it. No fingering means that the pitch cannot be played.
    pub fn generate_pitch_fingerings(
        string_ranges: &Vec<(StringNumber, Vec<Pitch>)>,
        pitch: &Pitch,
    ) -> (fingerings: Vec<Fingering>)
        ensures
            fingerings@ == pitch_fingerings(string_ranges.deep_view(), *pitch),
    {
        let mut fingerings: Vec<Fingering> = Vec::new();
        let mut i: usize = 0;
        while i < string_ranges.len()
            invariant
                i <= string_ranges.len(),
                fingerings@ == pitch_fingerings(string_ranges.deep_view().take(i as int), *pitch),
            decreases string_ranges.len() - i,
        {
            assert(string_ranges.deep_view().take(i + 1).drop_last() =~= string_ranges.deep_view().take(
                i as int,
            ));
            proof {
                lemma_strings_view(*string_ranges, i as int);
            }
            assert(string_ranges.deep_view().take(i + 1).last() == string_ranges.deep_view()[i as int]);
            match find_fret(&string_ranges[i].1, pitch) {
                Some(fret) => {
                    fingerings.push(
                        Fingering { pitch: *pitch, string_number: string_ranges[i].0, fret },
                    );
                },
                None => {},
            }
            i += 1;
        }
        assert(string_ranges.deep_view().take(i as int) =~= string_ranges.deep_view());
        fingerings
    }
}

/// Below any place of `range` that holds `pitch` there is a first one.
proof fn lemma_first_occurrence(range: Seq<Pitch>, pitch: Pitch, at: int)
    requires
        0 <= at < range.len(),
        range[at] == pitch,
    ensures
        exists|fret: int|
            0 <= fret <= at && range[fret] == pitch && forall|lower: int|
                0 <= lower < fret ==> range[lower] != pitch,
    decreases at,
{
    if exists|lower: int| 0 <= lower < at && range[lower] == pitch {
        let lower = choose|lower: int| 0 <= lower < at && range[lower] == pitch;
        lemma_first_occurrence(range, pitch, lower);
    } else {
        assert(forall|lower: int| 0 <= lower < at ==> range[lower] != pitch);
    }
}

/// A string of at most 256 places has a fingering for exactly the pitches it holds.
pub proof fn lemma_fret_of_contains(range: Seq<Pitch>, pitch: Pitch)
    requires
        range.len() <= u8::MAX + 1,
    ensures
        fret_of(range, pitch) is Some <==> range.contains(pitch),
        fret_of(range, pitch) matches Some(fret) ==> is_fret_of(range, pitch, fret as int),
{
    if range.contains(pitch) {
        let at = choose|at: int| 0 <= at < range.len() && range[at] == pitch;
        lemma_first_occurrence(range, pitch, at);
        let fret = choose|fret: int|
            0 <= fret <= at && range[fret] == pitch && forall|lower: int|
                0 <= lower < fret ==> range[lower] != pitch;
        assert(is_fret_of(range, pitch, fret));
    }
    if fret_of(range, pitch) is Some {
        let fret = choose|fret: int| is_fret_of(range, pitch, fret);
        assert(range[fret] == pitch);
    }
}

/// There is a fingering of `pitch` exactly if one of the strings has one.
pub proof fn lemma_pitch_fingerings_nonempty(
    ranges: Seq<(StringNumber, Seq<Pitch>)>,
    pitch: Pitch,
)
    ensures
        pitch_fingerings(ranges, pitch).len() > 0 <==> exists|i: int|
            0 <= i < ranges.len() && fingering_on(#[trigger] ranges[i], pitch) is Some,
    decreases ranges.len(),
{
    if ranges.len() > 0 {
        let before = ranges.drop_last();
        lemma_pitch_fingerings_nonempty(before, pitch);
        if pitch_fingerings(ranges, pitch).len() > 0 {
            if fingering_on(ranges.last(), pitch) is Some {
                assert(fingering_on(ranges[ranges.len() - 1], pitch) is Some);
            } else {
                let i = choose|i: int|
                    0 <= i < before.len() && fingering_on(#[trigger] before[i], pitch) is Some;
                assert(fingering_on(ranges[i], pitch) is Some);
            }
        }
        if exists|i: int|
            0 <= i < ranges.len() && fingering_on(#[trigger] ranges[i], pitch) is Some {
            let i = choose|i: int|
                0 <= i < ranges.len() && fingering_on(#[trigger] ranges[i], pitch) is Some;
            if i < ranges.len() - 1 {
                assert(fingering_on(before[i], pitch) is Some);
            }
        }
    }
}

/// Whether `fingering` sounds `pitch` on one of the strings `ranges`, at the
/// first fret of that string that holds the pitch.
pub open spec fn is_fingering_of(
    fingering: Fingering,
    ranges: Seq<(StringNumber, Seq<Pitch>)>,
    pitch: Pitch,
) -> bool {
    &&& fingering.pitch == pitch
    &&& exists|i: int|
        0 <= i < ranges.len() && (#[trigger] ranges[i]).0 == fingering.string_number
            && is_fret_of(ranges[i].1, pitch, fingering.fret as int)
}

/// The fingerings of a pitch are the fingerings that sound it on a string.
pub proof fn lemma_pitch_fingerings(
    ranges: Seq<(StringNumber, Seq<Pitch>)>,
    pitch: Pitch,
    fingering: Fingering,
)
    ensures
        pitch_fingerings(ranges, pitch).contains(fingering) <==> is_fingering_of(
            fingering,
            ranges,
            pitch,
        ),
    decreases ranges.len(),
{
    if ranges.len() > 0 {
        let shorter = ranges.drop_last();
        lemma_pitch_fingerings(shorter, pitch, fingering);
        let before = pitch_fingerings(shorter, pitch);
        let all = pitch_fingerings(ranges, pitch);
        let last = ranges.len() - 1;
        if all.contains(fingering) {
            let at = choose|at: int| 0 <= at < all.len() && all[at] == fingering;
            if at < before.len() {
                assert(before[at] == fingering);
                assert(before.contains(fingering));
                let i = choose|i: int|
                    0 <= i < shorter.len() && (#[trigger] shorter[i]).0 == fingering.string_number
                        && is_fret_of(shorter[i].1, pitch, fingering.fret as int);
                assert(ranges[i] == shorter[i]);
            } else {
                assert(fingering_on(ranges[last], pitch) == Some(fingering));
                let fret = choose|fret: int| is_fret_of(ranges[last].1, pitch, fret);
                assert(is_fret_of(ranges[last].1, pitch, fingering.fret as int));
            }
        }
        if is_fingering_of(fingering, ranges, pitch) {
            let i = choose|i: int|
                0 <= i < ranges.len() && (#[trigger] ranges[i]).0 == fingering.string_number
                    && is_fret_of(ranges[i].1, pitch, fingering.fret as int);
            if i < last {
                assert(shorter[i] == ranges[i]);
                assert(before.contains(fingering));
                let at = choose|at: int| 0 <= at < before.len() && before[at] == fingering;
                assert(all[at] == fingering);
            } else {
                let fret = choose|fret: int| is_fret_of(ranges[last].1, pitch, fret);
                assert(fret == fingering.fret);
                assert(fingering_on(ranges[last], pitch) == Some(fingering));
                assert(all[all.len() - 1] == fingering);
            }
        }
    }
}

/// Whether every string of `tuning` has a string number between 1 and
/// [`MAX_NUM_STRINGS`], as every string number has.
pub open spec fn strings_are_numbered(tuning: Seq<(StringNumber, Pitch)>) -> bool {
    forall|i: int|
        0 <= i < tuning.len() ==> 1 <= (#[trigger] tuning[i]).0.spec_get() <= MAX_NUM_STRINGS
}

/// The last entry for a string number is the entry behind which no entry has
/// that number; there is none where no entry has it.
pub proof fn lemma_last_entry_for(pairs: Seq<(StringNumber, Pitch)>, number: int)
    ensures
        match last_entry_for(pairs, number) {
            Some(entry) => exists|i: int|
                {
                    &&& 0 <= i < pairs.len()
                    &&& #[trigger] pairs[i] == entry
                    &&& entry.0.spec_get() == number
                    &&& forall|j: int| i < j < pairs.len() ==> (#[trigger] pairs[j]).0.spec_get() != number
                },
            None => forall|i: int| 0 <= i < pairs.len() ==> (#[trigger] pairs[i]).0.spec_get() != number,
        },
    decreases pairs.len(),
{
    if pairs.len() > 0 {
        let shorter = pairs.drop_last();
        let last = pairs.len() - 1;
        if pairs.last().0.spec_get() == number {
            assert(pairs[last] == pairs.last());
        } else {
            lemma_last_entry_for(shorter, number);
            match last_entry_for(shorter, number) {
                Some(entry) => {
                    let i = choose|i: int|
                        {
                            &&& 0 <= i < shorter.len()
                            &&& #[trigger] shorter[i] == entry
                            &&& entry.0.spec_get() == number
                            &&& forall|j: int|
                                i < j < shorter.len() ==> (#[trigger] shorter[j]).0.spec_get() != number
                        };
                    assert(pairs[i] == entry);
                    assert forall|j: int| i < j < pairs.len() implies (#[trigger] pairs[j]).0.spec_get()
                        != number by {
                        if j < last {
                            assert(shorter[j] == pairs[j]);
                        }
                    }
                },
                None => {
                    assert forall|i: int| 0 <= i < pairs.len() implies (#[trigger] pairs[i]).0.spec_get()
                        != number by {
                        if i < last {
                            assert(shorter[i] == pairs[i]);
                        }
                    }
                },
            }
        }
    }
}

/// Of a tuning that stands by ascending string number, the strings numbered up
/// to `highest` are its first strings.
proof fn lemma_ordered_prefix(tuning: Seq<(StringNumber, Pitch)>, highest: nat) -> (count: int)
    requires
        is_ascending(tuning),
        strings_are_numbered(tuning),
    ensures
        0 <= count <= tuning.len(),
        ordered_up_to(tuning, highest) == tuning.take(count),
        forall|i: int| 0 <= i < count ==> (#[trigger] tuning[i]).0.spec_get() <= highest,
        forall|i: int| count <= i < tuning.len() ==> (#[trigger] tuning[i]).0.spec_get() > highest,
    decreases highest,
{
    if highest == 0 {
        assert(ordered_up_to(tuning, highest) =~= tuning.take(0));
        0
    } else {
        let before = lemma_ordered_prefix(tuning, (highest - 1) as nat);
        lemma_last_entry_for(tuning, highest as int);
        if before < tuning.len() && tuning[before].0.spec_get() == highest {
            match last_entry_for(tuning, highest as int) {
                Some(entry) => {
                    let i = choose|i: int|
                        {
                            &&& 0 <= i < tuning.len()
                            &&& #[trigger] tuning[i] == entry
                            &&& entry.0.spec_get() == highest
                            &&& forall|j: int|
                                i < j < tuning.len() ==> (#[trigger] tuning[j]).0.spec_get() != highest
                        };
                    assert(i == before) by {
                        if i < before {
                            assert(tuning[i].0.spec_get() <= highest - 1);
                        }
                        if i > before {
                            assert(tuning[before].0.spec_get() < tuning[i].0.spec_get());
                        }
                    }
                },
                None => {
                    assert(tuning[before].0.spec_get() != highest);
                },
            }
            assert(ordered_up_to(tuning, highest) =~= tuning.take(before + 1));
            assert forall|i: int| before + 1 <= i < tuning.len() implies (
            #[trigger] tuning[i]).0.spec_get() > highest by {
                assert(tuning[before].0.spec_get() < tuning[i].0.spec_get());
            }
            before + 1
        } else {
            match last_entry_for(tuning, highest as int) {
                Some(entry) => {
                    let i = choose|i: int|
                        {
                            &&& 0 <= i < tuning.len()
                            &&& #[trigger] tuning[i] == entry
                            &&& entry.0.spec_get() == highest
                            &&& forall|j: int|
                                i < j < tuning.len() ==> (#[trigger] tuning[j]).0.spec_get() != highest
                        };
                    if i < before {
                        assert(tuning[i].0.spec_get() <= highest - 1);
                    } else if i > before {
                        assert(tuning[before].0.spec_get() < tuning[i].0.spec_get());
                        assert(tuning[before].0.spec_get() > highest - 1);
                    }
                    assert(false);
                },
                None => {},
            }
            assert forall|i: int| before <= i < tuning.len() implies (
            #[trigger] tuning[i]).0.spec_get() > highest by {
                assert(tuning[i].0.spec_get() > highest - 1);
            }
            before
        }
    }
}

/// A tuning that lists each string once, by ascending string number, is
/// ordered as it stands.
pub proof fn lemma_ordered_tuning_of_ascending(tuning: Seq<(StringNumber, Pitch)>)
    requires
        is_ascending(tuning),
        strings_are_numbered(tuning),
    ensures
        ordered_tuning(tuning) == tuning,
{
    let count = lemma_ordered_prefix(tuning, MAX_NUM_STRINGS as nat);
    if count < tuning.len() {
        assert(tuning[count].0.spec_get() > MAX_NUM_STRINGS);
    }
    assert(tuning.take(count) =~= tuning);
}

/// The strings of a consistent instrument are those of its tuning and its
/// number of frets.
pub proof fn lemma_strings_of_guitar(guitar: Guitar)
    requires
        guitar.wf(),
    ensures
        guitar.string_ranges.deep_view() == strings_of(guitar.tuning@, guitar.num_frets as nat),
{
    assert(guitar.string_ranges.deep_view() =~= strings_of(
        guitar.tuning@,
        guitar.num_frets as nat,
    ));
}

/// On a consistent instrument a pitch has a fingering exactly if it lies in the
/// instrument's total range.
pub proof fn lemma_fingerings_cover_range(guitar: Guitar, pitch: Pitch)
    requires
        guitar.wf(),
    ensures
        guitar.range@.contains(pitch) <==> pitch_fingerings(
            guitar.string_ranges.deep_view(),
            pitch,
        ).len()
            > 0,
{
    let ranges = guitar.string_ranges.deep_view();
    lemma_pitch_fingerings_nonempty(ranges, pitch);
    assert forall|i: int| 0 <= i < ranges.len() implies (fingering_on(#[trigger] ranges[i], pitch)
        is Some <==> ranges[i].1.contains(pitch)) by {
        lemma_fret_of_contains(ranges[i].1, pitch);
    }
    if guitar.range@.contains(pitch) {
        let i = choose|i: int| 0 <= i < ranges.len() && (#[trigger] ranges[i]).1.contains(pitch);
        assert(fingering_on(ranges[i], pitch) is Some);
    }
    if pitch_fingerings(ranges, pitch).len() > 0 {
        let i = choose|i: int|
            0 <= i < ranges.len() && fingering_on(#[trigger] ranges[i], pitch) is Some;
        assert(ranges[i].1.contains(pitch));
    }
}

/// The pitches of a string are consecutive semitones from its open pitch on:
/// fret `fret` sounds the pitch `fret` semitones above the open pitch.
pub proof fn lemma_string_range_is_consecutive(open_pitch: Pitch, num_frets: nat, fret: int)
    requires
        string_fits(open_pitch, num_frets),
        0 <= fret <= num_frets,
    ensures
        string_range(open_pitch, num_frets).len() == num_frets + 1,
        string_range(open_pitch, num_frets)[fret].spec_distance(open_pitch) == fret,
{
    lemma_pitch_at(open_pitch.spec_index() + fret);
}

/// On a string whose range is that of its open pitch, the fret of a fingering is
/// the number of semitones between the open pitch and the pitch.
pub proof fn lemma_fret_is_distance(open_pitch: Pitch, num_frets: nat, pitch: Pitch)
    requires
        string_fits(open_pitch, num_frets),
        num_frets <= u8::MAX,
    ensures
        match fret_of(string_range(open_pitch, num_frets), pitch) {
            Some(fret) => fret == pitch.spec_distance(open_pitch) && fret <= num_frets,
            None => !(0 <= pitch.spec_distance(open_pitch) <= num_frets),
        },
{
    let range = string_range(open_pitch, num_frets);
    lemma_fret_of_contains(range, pitch);
    lemma_index_round_trip(pitch);
    assert forall|fret: int| 0 <= fret < range.len() implies (#[trigger] range[fret]).spec_index()
        == open_pitch.spec_index() + fret by {
        lemma_pitch_at(open_pitch.spec_index() + fret);
    }
    let distance = pitch.spec_distance(open_pitch);
    if 0 <= distance <= num_frets {
        lemma_pitch_at(open_pitch.spec_index() + distance);
        assert(range[distance] == pitch);
    }
}

impl StringRangeError {
    /// The text of the message for this error.
    pub open spec fn spec_message(self) -> Seq<char> {
        "Too many frets ("@ + decimal(self.num_frets as nat)
            + ") for string starting at pitch "@ + self.open_pitch.spec_plain_text()
            + ". The highest pitch is "@ + Pitch::B9.spec_plain_text()
            + ", which would only exist at fret number "@ + decimal(self.highest_fret as nat)
            + "."@
    }

    /// The message for this error.
    pub fn message(&self) -> (s: String)
        ensures
            s@ == self.spec_message(),
    {
        let mut s = "Too many frets (".to_owned();
        push_decimal(&mut s, self.num_frets as usize);
        s.append(") for string starting at pitch ");
        s.append(self.open_pitch.plain_text().as_str());
        s.append(". The highest pitch is ");
        s.append(Pitch::highest().plain_text().as_str());
        s.append(", which would only exist at fret number ");
        push_decimal(&mut s, self.highest_fret as usize);
        s.append(".");
        s
    }
}

impl GuitarError {
    /// The text of the message for this error.
    pub open spec fn spec_message(self) -> Seq<char> {
        match self {
            GuitarError::FretLimitExceeded { num_frets } => "Too many frets ("@ + decimal(
                num_frets as nat,
            ) + "). The maximum is "@ + decimal(MAX_NUM_FRETS as nat) + "."@,
            GuitarError::TooManyFrets { string_number, range } => range.spec_message(),
            GuitarError::CapoTooHigh { capo, num_frets } => "The capo cannot sit at fret "@
                + decimal(capo as nat) + " of an instrument with "@ + decimal(num_frets as nat)
                + " frets."@,
        }
    }

    /// The message for this error.
    pub fn message(&self) -> (s: String)
        ensures
            s@ == self.spec_message(),
    {
        match self {
            GuitarError::FretLimitExceeded { num_frets } => {
                let mut s = "Too many frets (".to_owned();
                push_decimal(&mut s, *num_frets as usize);
                s.append("). The maximum is ");
                push_decimal(&mut s, MAX_NUM_FRETS as usize);
                s.append(".");
                s
            },
            GuitarError::TooManyFrets { string_number, range } => range.message(),
            GuitarError::CapoTooHigh { capo, num_frets } => {
                let mut s = "The capo cannot sit at fret ".to_owned();
                push_decimal(&mut s, *capo as usize);
                s.append(" of an instrument with ");
                push_decimal(&mut s, *num_frets as usize);
                s.append(" frets.");
                s
            },
        }
    }
}

} // verus!
