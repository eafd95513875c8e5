//! What holds of the search: its paths follow the layers of the composition,
//! its arrangements play every line with fingerings of the instrument, and its
//! answer is repeatable and grows with the count that is asked for.

use crate::arrangement::arrangements_of;
use crate::box_fingering::{
    beat_options, has_distinct_strings, is_played, lemma_all_box_fingerings, lemma_playable_grips,
    pitches_of, playable_grips, presses, transition_score, BoxFingering, UNPLAYABLE,
};
use crate::composition::Line;
use crate::guitar::{is_fingering_of, lemma_pitch_fingerings, pitch_fingerings, Fingering};
use crate::pitch::Pitch;
use crate::ranking::{has_no_repeats, is_ascending_by_cost, lemma_ranked};
use crate::search::{
    arranged_lines, best_paths, candidate_layers, found_paths, grip_fingerings, grip_of_line,
    is_at_end, is_cheapest_from_start, is_grip_of_line, is_move, is_next_layer, is_path,
    next_grips, pitch_fingering_of,
};
use crate::string_number::{lemma_string_number_holds, StringNumber, MAX_NUM_STRINGS};
use vstd::prelude::*;

verus! {

/// Whether `layers` stand by ascending line index and every grip of a layer
/// belongs to the line of its layer.
pub open spec fn is_layered(layers: Seq<(usize, Seq<Seq<BoxFingering>>)>) -> bool {
    &&& forall|i: int, j: int| 0 <= i < j < layers.len() ==> layers[i].0 < layers[j].0
    &&& forall|i: int, g: int|
        0 <= i < layers.len() && 0 <= g < layers[i].1.len() ==> is_at_end(
            #[trigger] layers[i].1[g],
            layers[i].0,
        )
}

/// Whether layer `i` of `layers` holds the candidates of a line of `lines` that
/// is played.
pub open spec fn is_layer_of_line(
    layers: Seq<(usize, Seq<Seq<BoxFingering>>)>,
    i: int,
    ranges: Seq<(StringNumber, Seq<Pitch>)>,
    lines: Seq<Line<Seq<Pitch>>>,
) -> bool {
    &&& layers[i].0 < lines.len()
    &&& is_played(lines[layers[i].0 as int])
    &&& layers[i].1 == playable_grips(
        beat_options(ranges, layers[i].0, pitches_of(lines[layers[i].0 as int])),
    )
}

/// Whether every string of `ranges` has a string number between 1 and
/// [`MAX_NUM_STRINGS`], as every string number has.
pub open spec fn strings_are_numbered(ranges: Seq<(StringNumber, Seq<Pitch>)>) -> bool {
    forall|i: int|
        0 <= i < ranges.len() ==> 1 <= (#[trigger] ranges[i]).0.spec_get() <= MAX_NUM_STRINGS
}

/// Whether `boxed` presses, on the line at index `line_idx`, a fingering of
/// `pitch` on the strings `ranges`.
pub open spec fn presses_fingering_of(
    boxed: BoxFingering,
    line_idx: usize,
    ranges: Seq<(StringNumber, Seq<Pitch>)>,
    pitch: Pitch,
) -> bool {
    exists|fingering: Fingering|
        is_fingering_of(fingering, ranges, pitch) && #[trigger] presses(boxed, line_idx, fingering)
}

/// A candidate of a beat is a grip with one box fingering for each pitch, which
/// belongs to the line and presses a fingering of that pitch.
pub proof fn lemma_candidate_grip(
    ranges: Seq<(StringNumber, Seq<Pitch>)>,
    line_idx: usize,
    pitches: Seq<Pitch>,
    grip: Seq<BoxFingering>,
)
    requires
        playable_grips(beat_options(ranges, line_idx, pitches)).contains(grip),
    ensures
        grip.len() == pitches.len(),
        has_distinct_strings(grip),
        forall|k: int|
            0 <= k < grip.len() ==> presses_fingering_of(
                #[trigger] grip[k],
                line_idx,
                ranges,
                pitches[k],
            ),
{
    let possible = beat_options(ranges, line_idx, pitches);
    lemma_playable_grips(possible, grip);
    assert forall|k: int| 0 <= k < grip.len() implies presses_fingering_of(
        #[trigger] grip[k],
        line_idx,
        ranges,
        pitches[k],
    ) by {
        let pfs = pitch_fingerings(ranges, pitches[k]);
        assert(possible[k].contains(grip[k]));
        lemma_all_box_fingerings(line_idx, pfs, grip[k]);
        let j = choose|j: int| 0 <= j < pfs.len() && presses(grip[k], line_idx, #[trigger] pfs[j]);
        assert(pfs.contains(pfs[j]));
        lemma_pitch_fingerings(ranges, pitches[k], pfs[j]);
        assert(presses(grip[k], line_idx, pfs[j]));
    }
}

/// The layers of a composition stand by ascending line index; each holds the
/// candidates of a line that is played, and each line that is played has its
/// layer.
pub proof fn lemma_candidate_layers(
    ranges: Seq<(StringNumber, Seq<Pitch>)>,
    lines: Seq<Line<Seq<Pitch>>>,
)
    requires
        lines.len() <= usize::MAX,
    ensures
        is_layered(candidate_layers(ranges, lines)),
        forall|i: int|
            0 <= i < candidate_layers(ranges, lines).len() ==> is_layer_of_line(
                candidate_layers(ranges, lines),
                i,
                ranges,
                lines,
            ),
        forall|idx: int|
            0 <= idx < lines.len() && is_played(lines[idx]) ==> exists|i: int|
                0 <= i < candidate_layers(ranges, lines).len() && (#[trigger] candidate_layers(
                    ranges,
                    lines,
                )[i]).0 == idx,
    decreases lines.len(),
{
    if lines.len() > 0 {
        let shorter = lines.drop_last();
        lemma_candidate_layers(ranges, shorter);
        let before = candidate_layers(ranges, shorter);
        let layers = candidate_layers(ranges, lines);
        let last = (lines.len() - 1) as usize;
        assert forall|i: int| 0 <= i < layers.len() implies is_layer_of_line(
            layers,
            i,
            ranges,
            lines,
        ) by {
            if i < before.len() {
                assert(is_layer_of_line(before, i, ranges, shorter));
                assert(layers[i] == before[i]);
                assert(lines[before[i].0 as int] == shorter[before[i].0 as int]);
            }
        }
        assert forall|i: int, j: int| 0 <= i < j < layers.len() implies layers[i].0
            < layers[j].0 by {
            assert(is_layer_of_line(before, i, ranges, shorter));
            if j < before.len() {
                assert(layers[i] == before[i] && layers[j] == before[j]);
            }
        }
        assert forall|i: int, g: int|
            0 <= i < layers.len() && 0 <= g < layers[i].1.len() implies is_at_end(
            #[trigger] layers[i].1[g],
            layers[i].0,
        ) by {
            if i < before.len() {
                assert(layers[i] == before[i]);
            } else {
                let grip = layers[i].1[g];
                let pitches = pitches_of(lines.last());
                assert(layers[i].1.contains(grip));
                lemma_candidate_grip(ranges, last, pitches, grip);
                assert(presses_fingering_of(grip[0], last, ranges, pitches[0]));
            }
        }
        assert forall|idx: int| 0 <= idx < lines.len() && is_played(lines[idx]) implies exists|
            i: int,
        | 0 <= i < layers.len() && (#[trigger] layers[i]).0 == idx by {
            if idx < shorter.len() {
                assert(shorter[idx] == lines[idx]);
                let i = choose|i: int| 0 <= i < before.len() && (#[trigger] before[i]).0 == idx;
                assert(layers[i].0 == idx);
            } else {
                assert(layers[layers.len() - 1].0 == idx);
            }
        }
    }
}

/// A path holds no move that the hand cannot make: the score of each of its
/// transitions lies below [`UNPLAYABLE`].
pub proof fn lemma_path_is_playable(
    path: Seq<Seq<BoxFingering>>,
    start: Seq<BoxFingering>,
    layers: Seq<(usize, Seq<Seq<BoxFingering>>)>,
    last_line_idx: usize,
    open_string_cost: u32,
)
    requires
        is_path(path, start, layers, last_line_idx, open_string_cost),
    ensures
        forall|i: int|
            0 <= i < path.len() - 1 ==> transition_score(path[i], #[trigger] path[i + 1])
                < UNPLAYABLE,
{
    assert forall|i: int| 0 <= i < path.len() - 1 implies transition_score(
        path[i],
        #[trigger] path[i + 1],
    ) < UNPLAYABLE by {
        assert(is_move(path[i], path[i + 1], layers, open_string_cost));
    }
}

/// Behind the line of a layer, the next grips are those of the next layer;
/// behind the line of the last layer there are none.
pub proof fn lemma_next_grips(layers: Seq<(usize, Seq<Seq<BoxFingering>>)>, i: int)
    requires
        is_layered(layers),
        0 <= i < layers.len(),
    ensures
        next_grips(layers, layers[i].0) == if i + 1 < layers.len() {
            layers[i + 1].1
        } else {
            Seq::<Seq<BoxFingering>>::empty()
        },
{
    if i + 1 < layers.len() {
        assert(is_next_layer(layers, layers[i].0, i + 1)) by {
            assert forall|j: int| 0 <= j < i + 1 implies (#[trigger] layers[j]).0
                <= layers[i].0 by {}
        }
        let chosen = choose|other: int| is_next_layer(layers, layers[i].0, other);
        assert(chosen == i + 1) by {
            if chosen < i + 1 {
                assert(layers[chosen].0 <= layers[i].0);
            }
        }
    } else {
        assert forall|other: int| !is_next_layer(layers, layers[i].0, other) by {
            if 0 <= other < layers.len() {
                assert(layers[other].0 <= layers[i].0);
            }
        }
    }
}

/// A path through layers holds, grip by grip, a grip of the layer at the same
/// place.
pub proof fn lemma_path_follows_layers(
    path: Seq<Seq<BoxFingering>>,
    layers: Seq<(usize, Seq<Seq<BoxFingering>>)>,
    open_string_cost: u32,
    i: int,
)
    requires
        is_layered(layers),
        layers.len() > 0,
        path.len() > 0,
        layers[0].1.contains(path[0]),
        is_path(path, path[0], layers, layers.last().0, open_string_cost),
        0 <= i < path.len(),
    ensures
        i < layers.len(),
        layers[i].1.contains(path[i]),
        is_at_end(path[i], layers[i].0),
    decreases i,
{
    if i > 0 {
        lemma_path_follows_layers(path, layers, open_string_cost, i - 1);
        lemma_next_grips(layers, i - 1);
        assert(is_move(path[i - 1], path[i - 1 + 1], layers, open_string_cost));
    }
    let at = choose|at: int| 0 <= at < layers[i].1.len() && layers[i].1[at] == path[i];
    assert(is_at_end(layers[i].1[at], layers[i].0));
}

/// A path through layers has one grip for each layer.
pub proof fn lemma_path_length(
    path: Seq<Seq<BoxFingering>>,
    layers: Seq<(usize, Seq<Seq<BoxFingering>>)>,
    open_string_cost: u32,
)
    requires
        is_layered(layers),
        layers.len() > 0,
        path.len() > 0,
        layers[0].1.contains(path[0]),
        is_path(path, path[0], layers, layers.last().0, open_string_cost),
    ensures
        path.len() == layers.len(),
{
    let end = path.len() - 1;
    lemma_path_follows_layers(path, layers, open_string_cost, end);
    if end < layers.len() - 1 {
        assert(layers[end].0 < layers[layers.len() - 1].0);
    }
}

/// In a path through layers, the grip of the line of a layer is the grip at
/// the place of that layer.
pub proof fn lemma_grip_of_line(
    path: Seq<Seq<BoxFingering>>,
    layers: Seq<(usize, Seq<Seq<BoxFingering>>)>,
    open_string_cost: u32,
    i: int,
)
    requires
        is_layered(layers),
        layers.len() > 0,
        path.len() > 0,
        layers[0].1.contains(path[0]),
        is_path(path, path[0], layers, layers.last().0, open_string_cost),
        0 <= i < layers.len(),
    ensures
        i < path.len(),
        grip_of_line(path, layers[i].0) == path[i],
{
    lemma_path_length(path, layers, open_string_cost);
    lemma_path_follows_layers(path, layers, open_string_cost, i);
    assert forall|j: int| 0 <= j < i implies !is_at_end(#[trigger] path[j], layers[i].0) by {
        lemma_path_follows_layers(path, layers, open_string_cost, j);
        assert(layers[j].0 < layers[i].0);
    }
    assert(is_grip_of_line(path, layers[i].0, i));
    let chosen = choose|other: int| is_grip_of_line(path, layers[i].0, other);
    if chosen > i {
        assert(!is_at_end(path[i], layers[i].0));
    }
}

/// The fingerings of a grip whose box fingerings all stand for fingerings of
/// the pitches: one for each pitch, in the order of the pitches.
pub proof fn lemma_grip_fingerings(grip: Seq<BoxFingering>, pitches: Seq<Pitch>)
    requires
        grip.len() <= pitches.len(),
        forall|k: int|
            0 <= k < grip.len() ==> pitch_fingering_of(#[trigger] grip[k], pitches[k]) is Some,
    ensures
        grip_fingerings(grip, pitches).len() == grip.len(),
        forall|k: int|
            0 <= k < grip.len() ==> Some(#[trigger] grip_fingerings(grip, pitches)[k])
                == pitch_fingering_of(grip[k], pitches[k]),
    decreases grip.len(),
{
    if grip.len() > 0 {
        let shorter = grip.drop_last();
        assert forall|k: int| 0 <= k < shorter.len() implies pitch_fingering_of(
            #[trigger] shorter[k],
            pitches[k],
        ) is Some by {
            assert(shorter[k] == grip[k]);
        }
        lemma_grip_fingerings(shorter, pitches);
        assert(pitch_fingering_of(grip[grip.len() - 1], pitches[grip.len() - 1]) is Some);
        assert forall|k: int| 0 <= k < grip.len() implies Some(
            #[trigger] grip_fingerings(grip, pitches)[k],
        ) == pitch_fingering_of(grip[k], pitches[k]) by {
            if k < shorter.len() {
                assert(shorter[k] == grip[k]);
                assert(grip_fingerings(grip, pitches)[k] == grip_fingerings(shorter, pitches)[k]);
            }
        }
    }
}

/// An arrangement plays the composition: a cheapest path through the layers of
/// a composition gives every line that is played one fingering for each of its
/// pitches, in their order; each is a fingering of its pitch on the strings of
/// the instrument, and no two of them lie on one string.
pub proof fn lemma_arrangement_plays_the_line(
    ranges: Seq<(StringNumber, Seq<Pitch>)>,
    lines: Seq<Line<Seq<Pitch>>>,
    open_string_cost: u32,
    found: (Seq<Seq<BoxFingering>>, u128),
    idx: int,
)
    requires
        strings_are_numbered(ranges),
        lines.len() <= usize::MAX,
        is_cheapest_from_start(found, candidate_layers(ranges, lines), open_string_cost),
        0 <= idx < lines.len(),
        lines[idx] is Playable,
    ensures
        arranged_lines(found.0, lines)[idx] matches Line::Playable(fingerings) && {
            &&& fingerings.len() == pitches_of(lines[idx]).len()
            &&& forall|k: int|
                0 <= k < fingerings.len() ==> is_fingering_of(
                    #[trigger] fingerings[k],
                    ranges,
                    pitches_of(lines[idx])[k],
                )
            &&& forall|k: int, l: int|
                0 <= k < l < fingerings.len() ==> fingerings[k].string_number
                    != fingerings[l].string_number
        },
{
    broadcast use lemma_string_number_holds;

    let layers = candidate_layers(ranges, lines);
    let path = found.0;
    let pitches = pitches_of(lines[idx]);
    let grip = grip_of_line(path, idx as usize);
    let fingerings = grip_fingerings(grip, pitches);
    lemma_candidate_layers(ranges, lines);
    if pitches.len() == 0 {
        assert(fingerings.len() == 0) by {
            lemma_no_pitch_no_fingering(grip, pitches);
        }
    } else {
        assert(is_played(lines[idx]));
        let i = choose|i: int| 0 <= i < layers.len() && (#[trigger] layers[i]).0 == idx;
        assert(is_layer_of_line(layers, i, ranges, lines));
        lemma_grip_of_line(path, layers, open_string_cost, i);
        lemma_path_follows_layers(path, layers, open_string_cost, i);
        assert(grip == path[i]);
        lemma_candidate_grip(ranges, idx as usize, pitches, grip);
        assert forall|k: int| 0 <= k < grip.len() implies {
            &&& pitch_fingering_of(#[trigger] grip[k], pitches[k]) matches Some(fingering)
            &&& is_fingering_of(fingering, ranges, pitches[k])
            &&& fingering.string_number.spec_get() == grip[k].string
        } by {
            assert(presses_fingering_of(grip[k], idx as usize, ranges, pitches[k]));
            let fingering = choose|fingering: Fingering|
                is_fingering_of(fingering, ranges, pitches[k]) && #[trigger] presses(
                    grip[k],
                    idx as usize,
                    fingering,
                );
            let r = choose|r: int|
                0 <= r < ranges.len() && (#[trigger] ranges[r]).0 == fingering.string_number;
            assert(1 <= ranges[r].0.spec_get() <= MAX_NUM_STRINGS);
            assert(pitch_fingering_of(grip[k], pitches[k]) == Some(fingering));
        }
        lemma_grip_fingerings(grip, pitches);
        assert forall|k: int| 0 <= k < fingerings.len() implies is_fingering_of(
            #[trigger] fingerings[k],
            ranges,
            pitches[k],
        ) by {
            assert(Some(fingerings[k]) == pitch_fingering_of(grip[k], pitches[k]));
        }
        assert forall|k: int, l: int| 0 <= k < l < fingerings.len() implies fingerings[k].string_number
            != fingerings[l].string_number by {
            assert(Some(fingerings[k]) == pitch_fingering_of(grip[k], pitches[k]));
            assert(Some(fingerings[l]) == pitch_fingering_of(grip[l], pitches[l]));
            assert(grip[k].string != grip[l].string);
        }
    }
}

/// Where there is no pitch, a grip stands for no fingering.
pub proof fn lemma_no_pitch_no_fingering(grip: Seq<BoxFingering>, pitches: Seq<Pitch>)
    requires
        pitches.len() == 0,
    ensures
        grip_fingerings(grip, pitches).len() == 0,
    decreases grip.len(),
{
    if grip.len() > 0 {
        lemma_no_pitch_no_fingering(grip.drop_last(), pitches);
    }
}

/// Whether `arrangements` are what [`create_arrangements`] answers for the
/// strings `ranges`, the composition `lines`, the count `count` and the cost
/// `open_string_cost` of open grips.
pub open spec fn is_search_result(
    arrangements: Seq<(Seq<Line<Seq<Fingering>>>, u128, u8)>,
    ranges: Seq<(StringNumber, Seq<Pitch>)>,
    lines: Seq<Line<Seq<Pitch>>>,
    count: nat,
    open_string_cost: u32,
) -> bool {
    arrangements == arrangements_of(
        best_paths(candidate_layers(ranges, lines), open_string_cost, count),
        lines,
    )
}

/// The search is repeatable: two answers for the same instrument, the same
/// composition, the same count and the same cost of open grips are the same
/// arrangements in the same order.
pub proof fn lemma_search_is_repeatable(
    first: Seq<(Seq<Line<Seq<Fingering>>>, u128, u8)>,
    second: Seq<(Seq<Line<Seq<Fingering>>>, u128, u8)>,
    ranges: Seq<(StringNumber, Seq<Pitch>)>,
    lines: Seq<Line<Seq<Pitch>>>,
    count: nat,
    open_string_cost: u32,
)
    requires
        is_search_result(first, ranges, lines, count, open_string_cost),
        is_search_result(second, ranges, lines, count, open_string_cost),
    ensures
        first == second,
{
}

/// Asking for more arrangements takes none away: the answer for a smaller
/// count is the beginning of the answer for a larger count, and the
/// arrangements of an answer stand by ascending cost, so that those which the
/// larger count adds cost no less than those before them.
pub proof fn lemma_more_arrangements(
    fewer: Seq<(Seq<Line<Seq<Fingering>>>, u128, u8)>,
    more: Seq<(Seq<Line<Seq<Fingering>>>, u128, u8)>,
    ranges: Seq<(StringNumber, Seq<Pitch>)>,
    lines: Seq<Line<Seq<Pitch>>>,
    fewer_count: nat,
    more_count: nat,
    open_string_cost: u32,
)
    requires
        fewer_count <= more_count,
        is_search_result(fewer, ranges, lines, fewer_count, open_string_cost),
        is_search_result(more, ranges, lines, more_count, open_string_cost),
    ensures
        fewer.len() <= more.len(),
        fewer == more.take(fewer.len() as int),
        forall|i: int, j: int| 0 <= i < j < more.len() ==> more[i].1 <= more[j].1,
{
    let layers = candidate_layers(ranges, lines);
    lemma_best_paths_grow(layers, open_string_cost, fewer_count, more_count);
    let small = best_paths(layers, open_string_cost, fewer_count);
    let large = best_paths(layers, open_string_cost, more_count);
    assert(fewer =~= more.take(fewer.len() as int)) by {
        assert forall|k: int| 0 <= k < fewer.len() implies fewer[k] == more[k] by {
            assert(small[k] == large.take(small.len() as int)[k]);
        }
    }
    assert forall|i: int, j: int| 0 <= i < j < more.len() implies more[i].1 <= more[j].1 by {
        assert(large[i].1 <= large[j].1);
    }
}

/// An arrangement mirrors the composition: it has as many lines, a rest stays
/// a rest, a break between measures stays one, and what is played is played.
pub proof fn lemma_arrangement_mirrors_the_lines(
    path: Seq<Seq<BoxFingering>>,
    lines: Seq<Line<Seq<Pitch>>>,
)
    ensures
        arranged_lines(path, lines).len() == lines.len(),
        forall|idx: int|
            0 <= idx < lines.len() ==> {
                &&& lines[idx] is Rest <==> (#[trigger] arranged_lines(path, lines)[idx]) is Rest
                &&& lines[idx] is MeasureBreak <==> arranged_lines(
                    path,
                    lines,
                )[idx] is MeasureBreak
                &&& lines[idx] is Playable <==> arranged_lines(path, lines)[idx] is Playable
            },
{
}

/// Asking for more arrangements takes none away: the best paths for a smaller
/// count are the first of the best paths for a larger count. The best paths
/// stand by ascending cost, so that a path which the larger count adds costs no
/// less than any path before it; and no path stands among them twice.
pub proof fn lemma_best_paths_grow(
    layers: Seq<(usize, Seq<Seq<BoxFingering>>)>,
    open_string_cost: u32,
    fewer: nat,
    more: nat,
)
    requires
        fewer <= more,
    ensures
        best_paths(layers, open_string_cost, fewer).len() <= best_paths(
            layers,
            open_string_cost,
            more,
        ).len(),
        best_paths(layers, open_string_cost, fewer) == best_paths(
            layers,
            open_string_cost,
            more,
        ).take(best_paths(layers, open_string_cost, fewer).len() as int),
        is_ascending_by_cost(best_paths(layers, open_string_cost, more)),
        has_no_repeats(best_paths(layers, open_string_cost, more)),
{
    if layers.len() > 0 {
        let found = found_paths(layers[0].1, layers, layers.last().0, open_string_cost);
        lemma_ranked(found, more);
    }
    let small = best_paths(layers, open_string_cost, fewer);
    let large = best_paths(layers, open_string_cost, more);
    assert(small =~= large.take(small.len() as int));
}

} // verus!
