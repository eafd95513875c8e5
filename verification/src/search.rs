//! The search for the cheapest ways to play a composition: a graph with one
//! layer of grips for each line that is played, and a shortest path from each
//! grip of the first layer to the last layer.

use crate::arrangement::{
    arrangement_of, arrangements_of, calc_max_fret_span, find_unplayable_pitches,
    unplayable_in_lines, Arrangement, ArrangementError,
};
use crate::box_fingering::{
    beat_options, combo_cost, combos_for, copy_grip, is_played, lemma_grip_view, lemma_line_view,
    pitches_of, playable_grips, score_beat_transition, score_grip, transition_score, BoxFingering,
    Cost, Grip, UNPLAYABLE,
};
use crate::composition::Line;
use crate::guitar::{Fingering, Guitar, PitchFingering};
use crate::pitch::Pitch;
use crate::ranking::{lemma_ranked, rank_paths, ranked};
use crate::string_number::{StringNumber, MAX_NUM_STRINGS};
use crate::views::lemma_push_deep_view;
use pathfinding::prelude::dijkstra;
use vstd::prelude::*;

verus! {

/// The grips among which one played line can choose.
#[derive(Debug, Clone, PartialEq, Eq)]
pub struct Layer {
    /// The index of the line.
    pub line_idx: usize,
    /// The grips that can sound the line.
    pub grips: Vec<Grip>,
}

impl DeepView for Layer {
    type V = (usize, Seq<Seq<BoxFingering>>);

    open spec fn deep_view(&self) -> (usize, Seq<Seq<BoxFingering>>) {
        (self.line_idx, self.grips.deep_view())
    }
}

/// What it costs to move from the grip `curr` to the grip `next` and hold it;
/// `None` where the hand cannot make the move.
pub open spec fn edge_cost(
    curr: Seq<BoxFingering>,
    next: Seq<BoxFingering>,
    open_string_cost: u32,
) -> Option<Cost> {
    if transition_score(curr, next) >= UNPLAYABLE {
        None
    } else {
        Some((transition_score(curr, next) + combo_cost(next, open_string_cost)) as u128)
    }
}

/// The layers of `lines`: for each line that is played, in the order of the
/// lines, its index and the grips that can sound it on the strings `ranges`.
pub open spec fn candidate_layers(
    ranges: Seq<(StringNumber, Seq<Pitch>)>,
    lines: Seq<Line<Seq<Pitch>>>,
) -> Seq<(usize, Seq<Seq<BoxFingering>>)>
    decreases lines.len(),
{
    if lines.len() == 0 {
        Seq::empty()
    } else {
        let before = candidate_layers(ranges, lines.drop_last());
        if is_played(lines.last()) {
            before.push(
                (
                    (lines.len() - 1) as usize,
                    playable_grips(
                        beat_options(ranges, (lines.len() - 1) as usize, pitches_of(lines.last())),
                    ),
                ),
            )
        } else {
            before
        }
    }
}

/// Whether layer `i` of `layers` is the first that belongs to a line behind the
/// line at index `curr_idx`.
pub open spec fn is_next_layer(
    layers: Seq<(usize, Seq<Seq<BoxFingering>>)>,
    curr_idx: usize,
    i: int,
) -> bool {
    &&& 0 <= i < layers.len()
    &&& layers[i].0 > curr_idx
    &&& forall|j: int| 0 <= j < i ==> (#[trigger] layers[j]).0 <= curr_idx
}

/// The grips of the first layer behind the line at index `curr_idx`; none where
/// no layer follows.
pub open spec fn next_grips(layers: Seq<(usize, Seq<Seq<BoxFingering>>)>, curr_idx: usize) -> Seq<
    Seq<BoxFingering>,
> {
    if exists|i: int| is_next_layer(layers, curr_idx, i) {
        layers[choose|i: int| is_next_layer(layers, curr_idx, i)].1
    } else {
        Seq::empty()
    }
}

/// The moves from `grip` to those of `nexts` that the hand can reach, each with
/// its cost, in the order of `nexts`.
pub open spec fn edges_to(
    grip: Seq<BoxFingering>,
    nexts: Seq<Seq<BoxFingering>>,
    open_string_cost: u32,
) -> Seq<(Seq<BoxFingering>, Cost)>
    decreases nexts.len(),
{
    if nexts.len() == 0 {
        Seq::empty()
    } else {
        let before = edges_to(grip, nexts.drop_last(), open_string_cost);
        match edge_cost(grip, nexts.last(), open_string_cost) {
            Some(cost) => before.push((nexts.last(), cost)),
            None => before,
        }
    }
}

/// The moves that lead on from `grip`: to the grips of the next played line.
/// An empty grip belongs to no line and leads nowhere.
pub open spec fn successors_of(
    grip: Seq<BoxFingering>,
    layers: Seq<(usize, Seq<Seq<BoxFingering>>)>,
    open_string_cost: u32,
) -> Seq<(Seq<BoxFingering>, Cost)> {
    if grip.len() == 0 {
        Seq::empty()
    } else {
        edges_to(grip, next_grips(layers, grip[0].line_idx), open_string_cost)
    }
}

/// Whether `grip` belongs to the line at index `last_line_idx`.
pub open spec fn is_at_end(grip: Seq<BoxFingering>, last_line_idx: usize) -> bool {
    grip.len() > 0 && grip[0].line_idx == last_line_idx
}

/// Whether the hand can move from the grip `from` to the grip `to`, which
/// belongs to the next played line.
pub open spec fn is_move(
    from: Seq<BoxFingering>,
    to: Seq<BoxFingering>,
    layers: Seq<(usize, Seq<Seq<BoxFingering>>)>,
    open_string_cost: u32,
) -> bool {
    &&& from.len() > 0
    &&& next_grips(layers, from[0].line_idx).contains(to)
    &&& edge_cost(from, to, open_string_cost) is Some
}

/// Whether `path` leads from the grip `start`, move by move, to a grip of the
/// line at index `last_line_idx`.
pub open spec fn is_path(
    path: Seq<Seq<BoxFingering>>,
    start: Seq<BoxFingering>,
    layers: Seq<(usize, Seq<Seq<BoxFingering>>)>,
    last_line_idx: usize,
    open_string_cost: u32,
) -> bool {
    &&& path.len() > 0
    &&& path[0] == start
    &&& is_at_end(path.last(), last_line_idx)
    &&& forall|i: int|
        0 <= i < path.len() - 1 ==> is_move(path[i], #[trigger] path[i + 1], layers, open_string_cost)
}

/// The cost of `path`: the sum of the costs of its moves.
pub open spec fn path_cost(path: Seq<Seq<BoxFingering>>, open_string_cost: u32) -> nat
    decreases path.len(),
{
    if path.len() < 2 {
        0
    } else {
        path_cost(path.drop_last(), open_string_cost) + match edge_cost(
            path[path.len() - 2],
            path.last(),
            open_string_cost,
        ) {
            Some(cost) => cost as nat,
            None => 0,
        }
    }
}

/// The path that the search finds from the grip `start`, with its cost. Among
/// several cheapest paths the search picks one; which one, is a matter of the
/// order in which it visits the grips, and is the same whenever the search runs
/// on the same values.
pub uninterp spec fn cheapest_path(
    start: Seq<BoxFingering>,
    layers: Seq<(usize, Seq<Seq<BoxFingering>>)>,
    last_line_idx: usize,
    open_string_cost: u32,
) -> Option<(Seq<Seq<BoxFingering>>, u128)>;

/// What the searches from the grips `starts` find, in the order of the starts;
/// a start from which no path leads to the end contributes nothing.
pub open spec fn found_paths(
    starts: Seq<Seq<BoxFingering>>,
    layers: Seq<(usize, Seq<Seq<BoxFingering>>)>,
    last_line_idx: usize,
    open_string_cost: u32,
) -> Seq<(Seq<Seq<BoxFingering>>, u128)>
    decreases starts.len(),
{
    if starts.len() == 0 {
        Seq::empty()
    } else {
        let before = found_paths(starts.drop_last(), layers, last_line_idx, open_string_cost);
        match cheapest_path(starts.last(), layers, last_line_idx, open_string_cost) {
            Some(found) => before.push(found),
            None => before,
        }
    }
}

/// The best paths through `layers`: what the searches from the grips of the
/// first layer to the last layer find, ranked, and of that the first `count`.
pub open spec fn best_paths(
    layers: Seq<(usize, Seq<Seq<BoxFingering>>)>,
    open_string_cost: u32,
    count: nat,
) -> Seq<(Seq<Seq<BoxFingering>>, u128)> {
    if layers.len() == 0 {
        Seq::empty()
    } else {
        ranked(found_paths(layers[0].1, layers, layers.last().0, open_string_cost), count)
    }
}

/// The fingering that the box fingering `fingering` stands for, sounding
/// `pitch`: its string and the fret `position + finger - 1`. There is none where
/// the string has no valid number or the fret lies outside the fret numbers.
pub open spec fn pitch_fingering_of(fingering: BoxFingering, pitch: Pitch) -> Option<Fingering> {
    if 1 <= fingering.string <= MAX_NUM_STRINGS && 1 <= fingering.position + fingering.finger
        <= u8::MAX + 1 {
        Some(
            Fingering {
                pitch,
                string_number: StringNumber::spec_from(fingering.string),
                fret: (fingering.position + fingering.finger - 1) as u8,
            },
        )
    } else {
        None
    }
}

/// The fingerings that `grip` stands for: its box fingerings are matched with
/// `pitches` in their order.
pub open spec fn grip_fingerings(grip: Seq<BoxFingering>, pitches: Seq<Pitch>) -> Seq<Fingering>
    decreases grip.len(),
{
    if grip.len() == 0 {
        Seq::empty()
    } else {
        let before = grip_fingerings(grip.drop_last(), pitches);
        if grip.len() <= pitches.len() {
            match pitch_fingering_of(grip.last(), pitches[grip.len() - 1]) {
                Some(fingering) => before.push(fingering),
                None => before,
            }
        } else {
            before
        }
    }
}

/// Whether grip `i` of `path` is the first that belongs to the line at index `idx`.
pub open spec fn is_grip_of_line(path: Seq<Seq<BoxFingering>>, idx: usize, i: int) -> bool {
    &&& 0 <= i < path.len()
    &&& is_at_end(path[i], idx)
    &&& forall|j: int| 0 <= j < i ==> !is_at_end(#[trigger] path[j], idx)
}

/// The grip of `path` that belongs to the line at index `idx`; the empty grip
/// where the path holds none for that line.
pub open spec fn grip_of_line(path: Seq<Seq<BoxFingering>>, idx: usize) -> Seq<BoxFingering> {
    if exists|i: int| is_grip_of_line(path, idx, i) {
        path[choose|i: int| is_grip_of_line(path, idx, i)]
    } else {
        Seq::empty()
    }
}

/// The lines of a composition as `path` plays them: the lines that are not
/// played stay as they are, and the pitches of each other line get the
/// fingerings of the grip that `path` holds for it.
pub open spec fn arranged_lines(path: Seq<Seq<BoxFingering>>, lines: Seq<Line<Seq<Pitch>>>) -> Seq<
    Line<Seq<Fingering>>,
> {
    Seq::new(
        lines.len(),
        |idx: int|
            match lines[idx] {
                Line::MeasureBreak => Line::MeasureBreak,
                Line::Rest => Line::Rest,
                Line::Playable(pitches) => Line::Playable(
                    grip_fingerings(grip_of_line(path, idx as usize), pitches),
                ),
            },
    )
}

/// Whether the entry `found` holds a cheapest path through `layers` from a grip
/// of the first layer, with its cost: the path leads from that grip to the last
/// layer, and no path from that grip to the last layer costs less.
pub open spec fn is_cheapest_from_start(
    found: (Seq<Seq<BoxFingering>>, u128),
    layers: Seq<(usize, Seq<Seq<BoxFingering>>)>,
    open_string_cost: u32,
) -> bool {
    &&& layers.len() > 0
    &&& found.0.len() > 0
    &&& layers[0].1.contains(found.0[0])
    &&& is_path(found.0, found.0[0], layers, layers.last().0, open_string_cost)
    &&& found.1 == path_cost(found.0, open_string_cost)
    &&& forall|other: Seq<Seq<BoxFingering>>|
        is_path(other, found.0[0], layers, layers.last().0, open_string_cost) ==> found.1
            <= #[trigger] path_cost(other, open_string_cost)
}

/// Whether the layer `nexts` belongs to the line at index `curr_idx` or to one
/// before it.
pub fn is_prior_idx(curr_idx: usize, nexts: &Layer) -> (b: bool)
    ensures
        b == (nexts.line_idx <= curr_idx),
{
    nexts.line_idx <= curr_idx
}

/// The grips of the next played line behind the line at index `curr_idx`, or
/// `None` where no played line follows.
pub fn get_playable_positions_for_all_notes_on_next_line(layers: &[Layer], curr_idx: usize) -> (nexts:
    Option<&Vec<Grip>>)
    ensures
        match nexts {
            Some(grips) => grips.deep_view() == next_grips(layers.deep_view(), curr_idx) && exists|
                i: int,
            | is_next_layer(layers.deep_view(), curr_idx, i),
            None => next_grips(layers.deep_view(), curr_idx) == Seq::<Seq<BoxFingering>>::empty()
                && forall|i: int| !is_next_layer(layers.deep_view(), curr_idx, i),
        },
{
    let mut i: usize = 0;
    while i < layers.len()
        invariant
            i <= layers.len(),
            forall|j: int| 0 <= j < i ==> (#[trigger] layers.deep_view()[j]).0 <= curr_idx,
        decreases layers.len() - i,
    {
        if !is_prior_idx(curr_idx, &layers[i]) {
            assert(is_next_layer(layers.deep_view(), curr_idx, i as int));
            return Some(&layers[i].grips);
        }
        i += 1;
    }
    assert(forall|other: int| !is_next_layer(layers.deep_view(), curr_idx, other));
    None
}

/// Whether `grip` belongs to the line at index `last_line_idx`.
pub fn at_end(p: &Grip, last_line_idx: usize) -> (b: bool)
    ensures
        b == is_at_end(p@, last_line_idx),
{
    if p.len() == 0 {
        return false;
    }
    let x = &p[0];
    let curr_line_idx: usize = x.line_idx;
    last_line_idx == curr_line_idx
}

/// The moves that lead on from `grip`, each with its cost: to every grip of
/// the next played line that the hand can reach, in the order of those grips.
pub fn successors(grip: &Grip, layers: &[Layer], open_string_cost: u32) -> (moves: Vec<
    (Grip, Cost),
>)
    ensures
        moves.deep_view() == successors_of(grip@, layers.deep_view(), open_string_cost),
{
    broadcast use lemma_grip_view;

    let mut moves: Vec<(Grip, Cost)> = Vec::new();
    assert(moves.deep_view() =~= Seq::<(Seq<BoxFingering>, Cost)>::empty());
    if grip.len() == 0 {
        return moves;
    }
    let playable_nexts: &Vec<Grip> = match get_playable_positions_for_all_notes_on_next_line(
        layers,
        grip[0].line_idx,
    ) {
        Some(grips) => grips,
        None => {
            return moves;
        },
    };
    let ghost nexts = playable_nexts.deep_view();
    let mut i: usize = 0;
    while i < playable_nexts.len()
        invariant
            i <= playable_nexts.len(),
            nexts == playable_nexts.deep_view(),
            moves.deep_view() == edges_to(grip@, nexts.take(i as int), open_string_cost),
        decreases playable_nexts.len() - i,
    {
        assert(nexts.take(i + 1).drop_last() =~= nexts.take(i as int));
        let playable_next: &Vec<BoxFingering> = &playable_nexts[i];
        assert(nexts.take(i + 1).last() == playable_next@);
        let score: i32 = score_beat_transition(grip.as_slice(), playable_next.as_slice());
        if score < UNPLAYABLE {
            let cost: Cost = score as u128 + score_grip(playable_next, open_string_cost);
            let ghost before = moves;
            let next_grip = copy_grip(playable_next);
            let ghost added = (next_grip, cost);
            moves.push((next_grip, cost));
            proof {
                lemma_push_deep_view(before, moves, added);
                lemma_grip_view(added.0);
            }
        }
        i += 1;
    }
    assert(nexts.take(i as int) =~= nexts);
    moves
}

/// Runs `pathfinding::prelude::dijkstra` from the grip `start` on the graph in
/// which [`successors`] gives the moves and [`at_end`] marks the goal.
///
/// Trusted: that the result is the named path; that a path which is returned
/// leads from `start` to the last line by moves of the graph, has the sum of
/// their costs as its cost, and costs no more than any other such path; and
/// that no path is returned only where none exists. The sums do not overflow:
/// a move costs less than 2^33, a cheapest path visits no grip twice, and the
/// layers hold fewer than 2^64 grips.
#[verifier::external_body]
fn find_cheapest_path(
    start: &Grip,
    layers: &[Layer],
    last_line_idx: usize,
    open_string_cost: u32,
) -> (found: Option<(Vec<Grip>, Cost)>)
    ensures
        found.deep_view() == cheapest_path(
            start@,
            layers.deep_view(),
            last_line_idx,
            open_string_cost,
        ),
        match found {
            Some((path, cost)) => {
                &&& is_path(
                    path.deep_view(),
                    start@,
                    layers.deep_view(),
                    last_line_idx,
                    open_string_cost,
                )
                &&& cost == path_cost(path.deep_view(), open_string_cost)
                &&& forall|other: Seq<Seq<BoxFingering>>|
                    is_path(other, start@, layers.deep_view(), last_line_idx, open_string_cost)
                        ==> cost <= #[trigger] path_cost(other, open_string_cost)
            },
            None => forall|other: Seq<Seq<BoxFingering>>|
                !is_path(other, start@, layers.deep_view(), last_line_idx, open_string_cost),
        },
{
    dijkstra(
        start,
        |grip: &Grip| successors(grip, layers, open_string_cost),
        |grip: &Grip| at_end(grip, last_line_idx),
    )
}

/// The fingerings of the line at index `idx` as the path `box_fingerings`
/// plays it: those of the first grip that belongs to the line, each with the
/// pitch it sounds.
pub fn convert_playable_to_pitch_fingerings(
    box_fingerings: &Vec<Grip>,
    pitches: &[Pitch],
    idx: usize,
) -> (line: Line<Vec<PitchFingering>>)
    ensures
        line.deep_view() == Line::Playable(
            grip_fingerings(grip_of_line(box_fingerings.deep_view(), idx), pitches.deep_view()),
        ),
{
    broadcast use lemma_grip_view;

    let ghost path = box_fingerings.deep_view();
    let mut pitch_fingerings_for_line: Vec<PitchFingering> = Vec::new();
    let mut i: usize = 0;
    while i < box_fingerings.len()
        invariant
            i <= box_fingerings.len(),
            path == box_fingerings.deep_view(),
            pitch_fingerings_for_line@ == Seq::<Fingering>::empty(),
            forall|j: int| 0 <= j < i ==> !is_at_end(#[trigger] path[j], idx),
        decreases box_fingerings.len() - i,
    {
        let grip: &Vec<BoxFingering> = &box_fingerings[i];
        assert(path[i as int] == grip@);
        if at_end(grip, idx) {
            assert(is_grip_of_line(path, idx, i as int));
            let mut k: usize = 0;
            while k < grip.len()
                invariant
                    k <= grip.len(),
                    pitch_fingerings_for_line@ == grip_fingerings(grip@.take(k as int), pitches.deep_view()),
                decreases grip.len() - k,
            {
                assert(grip@.take(k + 1).drop_last() =~= grip@.take(k as int));
                if k < pitches.len() {
                    let chosen: BoxFingering = grip[k];
                    let reach: u16 = chosen.position as u16 + chosen.finger as u16;
                    match StringNumber::new(chosen.string) {
                        Ok(string_number) => {
                            if 1 <= reach && reach <= 256 {
                                pitch_fingerings_for_line.push(
                                    PitchFingering {
                                        string_number,
                                        fret: (reach - 1) as u8,
                                        pitch: pitches[k],
                                    },
                                );
                            }
                        },
                        Err(_) => {},
                    }
                }
                k += 1;
            }
            assert(grip@.take(k as int) =~= grip@);
            assert(pitch_fingerings_for_line.deep_view() =~= pitch_fingerings_for_line@);
            return Line::Playable(pitch_fingerings_for_line);
        }
        i += 1;
    }
    assert(forall|other: int| !is_grip_of_line(path, idx, other));
    assert(pitch_fingerings_for_line.deep_view() =~= pitch_fingerings_for_line@);
    Line::Playable(pitch_fingerings_for_line)
}

/// The lines of a composition as the path `box_fingerings` plays them.
pub fn convert_to_pitch_fingering(box_fingerings: &Vec<Grip>, lines: &[Line<Vec<Pitch>>]) -> (arranged:
    Vec<Line<Vec<PitchFingering>>>)
    ensures
        arranged.deep_view() == arranged_lines(box_fingerings.deep_view(), lines.deep_view()),
{
    let mut arranged: Vec<Line<Vec<PitchFingering>>> = Vec::new();
    let mut idx: usize = 0;
    while idx < lines.len()
        invariant
            idx <= lines.len(),
            arranged.len() == idx,
            forall|k: int|
                0 <= k < idx ==> (#[trigger] arranged@[k]).deep_view() == arranged_lines(
                    box_fingerings.deep_view(),
                    lines.deep_view(),
                )[k],
        decreases lines.len() - idx,
    {
        let line: Line<Vec<PitchFingering>> = match &lines[idx] {
            Line::MeasureBreak => Line::MeasureBreak,
            Line::Rest => Line::Rest,
            Line::Playable(pitches) => convert_playable_to_pitch_fingerings(
                box_fingerings,
                pitches.as_slice(),
                idx,
            ),
        };
        arranged.push(line);
        idx += 1;
    }
    assert(arranged.deep_view() =~= arranged_lines(box_fingerings.deep_view(), lines.deep_view()));
    arranged
}

/// For each line of `lines` that is played, in the order of the lines, the
/// grips that can sound it on `guitar`.
pub fn build_layers(guitar: &Guitar, lines: &[Line<Vec<Pitch>>]) -> (layers: Vec<Layer>)
    ensures
        layers.deep_view() == candidate_layers(guitar.string_ranges.deep_view(), lines.deep_view()),
{
    let mut layers: Vec<Layer> = Vec::new();
    let mut line_idx: usize = 0;
    assert(layers.deep_view() =~= candidate_layers(guitar.string_ranges.deep_view(), lines.deep_view().take(0)));
    while line_idx < lines.len()
        invariant
            line_idx <= lines.len(),
            layers.deep_view() == candidate_layers(
                guitar.string_ranges.deep_view(),
                lines.deep_view().take(line_idx as int),
            ),
        decreases lines.len() - line_idx,
    {
        assert(lines.deep_view().take(line_idx + 1).drop_last() =~= lines.deep_view().take(
            line_idx as int,
        ));
        assert(lines.deep_view().take(line_idx + 1).last() == lines@[line_idx as int].deep_view());
        proof {
            lemma_line_view(lines@[line_idx as int]);
        }
        let ghost before = layers.deep_view();
        match &lines[line_idx] {
            Line::MeasureBreak => {},
            Line::Rest => {},
            Line::Playable(beat_pitches) => {
                if beat_pitches.len() > 0 {
                    let grips = combos_for(guitar, line_idx, beat_pitches.as_slice());
                    let ghost grips_view = grips.deep_view();
                    layers.push(Layer { line_idx, grips });
                    assert(layers.deep_view() =~= before.push((line_idx, grips_view)));
                }
            },
        }
        line_idx += 1;
    }
    assert(lines.deep_view().take(line_idx as int) =~= lines.deep_view());
    layers
}

/// Searches `layers` for the cheapest ways through them: one search from each
/// grip of the first layer to the last layer. Of the paths found, each once,
/// the `count` cheapest are returned by ascending cost, or all of them where
/// they are fewer; paths of equal cost stand in the order of the grips they
/// start from.
pub fn find_best_paths(layers: &[Layer], open_string_cost: u32, count: usize) -> (best: Vec<
    (Vec<Grip>, Cost),
>)
    ensures
        best.deep_view() == best_paths(layers.deep_view(), open_string_cost, count as nat),
        forall|k: int|
            0 <= k < best.len() ==> is_cheapest_from_start(
                #[trigger] best.deep_view()[k],
                layers.deep_view(),
                open_string_cost,
            ),
{
    if layers.len() == 0 {
        let none: Vec<(Vec<Grip>, Cost)> = Vec::new();
        assert(none.deep_view() =~= best_paths(
            layers.deep_view(),
            open_string_cost,
            count as nat,
        ));
        return none;
    }
    let last_line_idx: usize = layers[layers.len() - 1].line_idx;
    let starts: &Vec<Grip> = &layers[0].grips;
    let ghost start_views = starts.deep_view();
    assert(start_views == layers.deep_view()[0].1);
    assert(last_line_idx == layers.deep_view().last().0);
    let mut results: Vec<(Vec<Grip>, Cost)> = Vec::new();
    let mut i: usize = 0;
    assert(results.deep_view() =~= found_paths(
        start_views.take(0),
        layers.deep_view(),
        last_line_idx,
        open_string_cost,
    ));
    while i < starts.len()
        invariant
            i <= starts.len(),
            layers.len() > 0,
            start_views == starts.deep_view(),
            start_views == layers.deep_view()[0].1,
            last_line_idx == layers.deep_view().last().0,
            results.deep_view() == found_paths(
                start_views.take(i as int),
                layers.deep_view(),
                last_line_idx,
                open_string_cost,
            ),
            forall|k: int|
                0 <= k < results.len() ==> is_cheapest_from_start(
                    #[trigger] results.deep_view()[k],
                    layers.deep_view(),
                    open_string_cost,
                ),
        decreases starts.len() - i,
    {
        broadcast use lemma_grip_view;

        assert(start_views.take(i + 1).drop_last() =~= start_views.take(i as int));
        assert(start_views.take(i + 1).last() == starts@[i as int]@);
        assert(start_views[i as int] == starts@[i as int]@);
        let result = find_cheapest_path(&starts[i], layers, last_line_idx, open_string_cost);
        match result {
            Some(solution) => {
                let ghost before = results.deep_view();
                let ghost solution_view = solution.deep_view();
                assert(is_cheapest_from_start(
                    solution_view,
                    layers.deep_view(),
                    open_string_cost,
                ));
                results.push(solution);
                assert(results.deep_view() =~= before.push(solution_view));
            },
            None => {},
        }
        i += 1;
    }
    assert(start_views.take(i as int) =~= start_views);
    let ordered_results = rank_paths(&results, count);
    proof {
        lemma_ranked(results.deep_view(), count as nat);
        assert forall|k: int| 0 <= k < ordered_results.len() implies is_cheapest_from_start(
            #[trigger] ordered_results.deep_view()[k],
            layers.deep_view(),
            open_string_cost,
        ) by {
            let entry = ordered_results.deep_view()[k];
            assert(results.deep_view().contains(entry));
            let r = choose|r: int|
                0 <= r < results.deep_view().len() && results.deep_view()[r] == entry;
            assert(is_cheapest_from_start(
                results.deep_view()[r],
                layers.deep_view(),
                open_string_cost,
            ));
        }
    }
    ordered_results
}

/// Arranges a composition for `guitar`: validates that every pitch can be
/// played, and searches for the `num_arrangements` cheapest ways to play the
/// lines.
///
/// Where pitches cannot be played, the error lists all of them. Else the
/// arrangements that follow the best paths are returned, the cheapest first;
/// there are fewer than `num_arrangements` where the search finds fewer paths,
/// and none where no path leads through the composition or no line is played.
pub fn create_arrangements(
    guitar: &Guitar,
    lines: &Vec<Line<Vec<Pitch>>>,
    num_arrangements: u8,
    open_string_cost: u32,
) -> (r: Result<Vec<Arrangement>, ArrangementError>)
    ensures
        match r {
            Ok(arrangements) => {
                &&& unplayable_in_lines(guitar.string_ranges.deep_view(), lines.deep_view()).len() == 0
                &&& arrangements.deep_view() == arrangements_of(
                    best_paths(
                        candidate_layers(guitar.string_ranges.deep_view(), lines.deep_view()),
                        open_string_cost,
                        num_arrangements as nat,
                    ),
                    lines.deep_view(),
                )
                &&& forall|k: int|
                    0 <= k < arrangements.len() ==> is_cheapest_from_start(
                        #[trigger] best_paths(
                            candidate_layers(guitar.string_ranges.deep_view(), lines.deep_view()),
                            open_string_cost,
                            num_arrangements as nat,
                        )[k],
                        candidate_layers(guitar.string_ranges.deep_view(), lines.deep_view()),
                        open_string_cost,
                    )
            },
            Err(ArrangementError::UnplayablePitch(inputs)) => {
                &&& inputs.deep_view() == unplayable_in_lines(guitar.string_ranges.deep_view(), lines.deep_view())
                &&& inputs.len() > 0
            },
            Err(ArrangementError::NoPathFound) => false,
        },
{
    let impossible_pitches = find_unplayable_pitches(guitar, lines.as_slice());
    if impossible_pitches.len() != 0 {
        return Err(ArrangementError::UnplayablePitch(impossible_pitches));
    }
    let layers = build_layers(guitar, lines.as_slice());
    let ordered_results = find_best_paths(
        layers.as_slice(),
        open_string_cost,
        num_arrangements as usize,
    );
    let ghost found = ordered_results.deep_view();
    let mut arrangements: Vec<Arrangement> = Vec::new();
    let mut i: usize = 0;
    while i < ordered_results.len()
        invariant
            i <= ordered_results.len(),
            found == ordered_results.deep_view(),
            arrangements.len() == i,
            forall|k: int|
                0 <= k < i ==> (#[trigger] arrangements@[k]).deep_view() == arrangement_of(
                    found[k].0,
                    found[k].1,
                    lines.deep_view(),
                ),
        decreases ordered_results.len() - i,
    {
        let solution: &(Vec<Grip>, Cost) = &ordered_results[i];
        assert(found[i as int] == (solution.0.deep_view(), solution.1));
        let arranged = convert_to_pitch_fingering(&solution.0, lines.as_slice());
        let max_fret_span: u8 = calc_max_fret_span(&arranged);
        arrangements.push(Arrangement { lines: arranged, cost: solution.1, max_fret_span });
        i += 1;
    }
    assert(arrangements.deep_view() =~= arrangements_of(found, lines.deep_view()));
    Ok(arrangements)
}

} // verus!
