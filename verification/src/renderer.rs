//! Tablature: an arrangement drawn as text, one row for each string.

use crate::composition::{BeatVec, Line};
use crate::guitar::{Fingering, Guitar, PitchFingering};
use crate::pitch::Pitch;
use crate::string_number::StringNumber;
use crate::text::{decimal, push_decimal};
use vstd::prelude::*;
use vstd::string::*;

verus! {

/// The sign that points down at the beat which is being played.
pub const MARKER_ABOVE: char = '\u{25bc}';

/// The sign that points up at the beat which is being played.
pub const MARKER_BELOW: char = '\u{25b2}';

/// `count` times the character `c`.
pub open spec fn repeated(c: char, count: nat) -> Seq<char> {
    Seq::new(count, |i: int| c)
}

/// The fret that `fingerings` press on the string `string`: that of the first
/// fingering on this string.
pub open spec fn fret_on_string(fingerings: Seq<Fingering>, string: StringNumber) -> Option<u8>
    decreases fingerings.len(),
{
    if fingerings.len() == 0 {
        None
    } else {
        match fret_on_string(fingerings.drop_last(), string) {
            Some(fret) => Some(fret),
            None => if fingerings.last().string_number == string {
                Some(fingerings.last().fret)
            } else {
                None
            },
        }
    }
}

/// What stands for `line` in the row of the string `string`: the fret that is
/// pressed on the string, a bar for a break between measures, else a dash.
pub open spec fn cell_text(line: Line<Seq<Fingering>>, string: StringNumber) -> Seq<char> {
    match line {
        Line::MeasureBreak => seq!['|'],
        Line::Rest => seq!['-'],
        Line::Playable(fingerings) => match fret_on_string(fingerings, string) {
            Some(fret) => decimal(fret as nat),
            None => seq!['-'],
        },
    }
}

/// The highest fret of a fingering of `line`.
pub open spec fn highest_fret_of(fingerings: Seq<Fingering>) -> u8
    decreases fingerings.len(),
{
    if fingerings.len() == 0 {
        0
    } else {
        let before = highest_fret_of(fingerings.drop_last());
        if fingerings.last().fret > before {
            fingerings.last().fret
        } else {
            before
        }
    }
}

/// The highest fret of a fingering of `lines`.
pub open spec fn highest_fret(lines: Seq<Line<Seq<Fingering>>>) -> u8
    decreases lines.len(),
{
    if lines.len() == 0 {
        0
    } else {
        let before = highest_fret(lines.drop_last());
        let here = match lines.last() {
            Line::Playable(fingerings) => highest_fret_of(fingerings),
            _ => 0,
        };
        if here > before {
            here
        } else {
            before
        }
    }
}

/// The number of characters that the numeral of the fret `fret` takes.
pub open spec fn numeral_width(fret: u8) -> nat {
    if fret >= 100 {
        3
    } else if fret >= 10 {
        2
    } else {
        1
    }
}

/// The column of `line` in the row of the string `string`: `padding` dashes,
/// then the cell, filled with dashes up to `cell_width` characters.
pub open spec fn column_text(
    line: Line<Seq<Fingering>>,
    string: StringNumber,
    padding: nat,
    cell_width: nat,
) -> Seq<char> {
    let cell = cell_text(line, string);
    let fill = if cell.len() < cell_width {
        (cell_width - cell.len()) as nat
    } else {
        0
    };
    repeated('-', padding) + cell + repeated('-', fill)
}

/// The columns of the lines from place `from` up to place `to`, one behind the
/// other, in the row of the string `string`.
pub open spec fn columns_text(
    lines: Seq<Line<Seq<Fingering>>>,
    string: StringNumber,
    from: int,
    to: int,
    padding: nat,
    cell_width: nat,
) -> Seq<char>
    decreases to - from,
{
    if to <= from {
        Seq::empty()
    } else {
        columns_text(lines, string, from, to - 1, padding, cell_width) + column_text(
            lines[to - 1],
            string,
            padding,
            cell_width,
        )
    }
}

/// A row of the tablature: the columns, filled with dashes up to `width`
/// characters, and a line feed.
pub open spec fn row_text(
    lines: Seq<Line<Seq<Fingering>>>,
    string: StringNumber,
    from: int,
    to: int,
    padding: nat,
    cell_width: nat,
    width: nat,
) -> Seq<char> {
    let columns = columns_text(lines, string, from, to, padding, cell_width);
    let fill = if columns.len() < width {
        (width - columns.len()) as nat
    } else {
        0
    };
    columns + repeated('-', fill) + seq!['\n']
}

/// The rows of the first `count` strings of `strings`, one below the other.
pub open spec fn rows_text(
    lines: Seq<Line<Seq<Fingering>>>,
    strings: Seq<(StringNumber, Pitch)>,
    count: nat,
    from: int,
    to: int,
    padding: nat,
    cell_width: nat,
    width: nat,
) -> Seq<char>
    decreases count,
{
    if count == 0 {
        Seq::empty()
    } else {
        rows_text(lines, strings, (count - 1) as nat, from, to, padding, cell_width, width)
            + row_text(lines, strings[count - 1].0, from, to, padding, cell_width, width)
    }
}

/// The line that marks the beat which is being played, for the rows that show
/// the lines from place `from` up to place `to`: where the beat is among them,
/// blanks up to its cell and the sign `marker`; a line feed ends the line. Where
/// no beat is being played, there is no such line.
pub open spec fn marker_text(
    marker: char,
    playback_index: Option<u16>,
    from: int,
    to: int,
    padding: nat,
    cell_width: nat,
) -> Seq<char> {
    match playback_index {
        None => Seq::empty(),
        Some(index) => if from <= index < to {
            repeated(' ', ((index - from) * (padding + cell_width) + padding) as nat) + seq![marker]
                + seq!['\n']
        } else {
            seq!['\n']
        },
    }
}

/// One group of rows: the lines from place `from` up to place `to` on every
/// string, between the two lines that mark the beat which is being played.
pub open spec fn group_text(
    lines: Seq<Line<Seq<Fingering>>>,
    strings: Seq<(StringNumber, Pitch)>,
    from: int,
    to: int,
    padding: nat,
    cell_width: nat,
    width: nat,
    playback_index: Option<u16>,
) -> Seq<char> {
    marker_text(MARKER_ABOVE, playback_index, from, to, padding, cell_width) + rows_text(
        lines,
        strings,
        strings.len(),
        from,
        to,
        padding,
        cell_width,
        width,
    ) + marker_text(MARKER_BELOW, playback_index, from, to, padding, cell_width)
}

/// The groups of rows that show the lines from place `from` on, `per_group`
/// lines in each group but the last; an empty line stands between two groups.
pub open spec fn groups_text(
    lines: Seq<Line<Seq<Fingering>>>,
    strings: Seq<(StringNumber, Pitch)>,
    from: int,
    per_group: nat,
    padding: nat,
    cell_width: nat,
    width: nat,
    playback_index: Option<u16>,
) -> Seq<char>
    decreases lines.len() - from,
{
    if from < 0 || from >= lines.len() || per_group == 0 {
        Seq::empty()
    } else if lines.len() - from <= per_group {
        group_text(
            lines,
            strings,
            from,
            lines.len() as int,
            padding,
            cell_width,
            width,
            playback_index,
        )
    } else {
        group_text(
            lines,
            strings,
            from,
            from + per_group,
            padding,
            cell_width,
            width,
            playback_index,
        ) + seq!['\n'] + groups_text(
            lines,
            strings,
            from + per_group,
            per_group,
            padding,
            cell_width,
            width,
            playback_index,
        )
    }
}

/// The number of lines that a group of rows shows: as many columns as fit into
/// `width` characters, and at least one.
pub open spec fn lines_per_group(width: nat, padding: nat, cell_width: nat) -> nat {
    if width / (padding + cell_width) == 0 {
        1
    } else {
        width / (padding + cell_width)
    }
}

/// The tablature of `lines` for an instrument with the strings `strings`.
///
/// Each string has a row, the string with the lowest number on top. Each line
/// has a column: `padding` dashes, then a cell as wide as the widest fret
/// numeral, which holds the fret that the line presses on the string, a bar for
/// a break between measures, or dashes. A row holds as many columns as fit into
/// `width` characters; the lines that do not fit follow in further groups of
/// rows. Where a beat is being played, a line above and a line below each group
/// mark its column.
pub open spec fn rendered_tab(
    lines: Seq<Line<Seq<Fingering>>>,
    strings: Seq<(StringNumber, Pitch)>,
    width: u16,
    padding: u8,
    playback_index: Option<u16>,
) -> Seq<char> {
    let cell_width = numeral_width(highest_fret(lines));
    groups_text(
        lines,
        strings,
        0,
        lines_per_group(width as nat, padding as nat, cell_width),
        padding as nat,
        cell_width,
        width as nat,
        playback_index,
    )
}

/// The numeral of a fret takes as many characters as [`numeral_width`] says.
pub proof fn lemma_numeral_width(fret: u8)
    ensures
        decimal(fret as nat).len() == numeral_width(fret),
{
    let n = fret as nat;
    if n >= 100 {
        assert(decimal(n / 10).len() == 2) by {
            assert(decimal(n / 10 / 10).len() == 1);
        }
    } else if n >= 10 {
        assert(decimal(n / 10).len() == 1);
    }
}

/// Appends `count` times the character of `piece`.
fn push_repeated(out: &mut String, piece: &str, c: char, count: usize)
    requires
        piece@ == seq![c],
    ensures
        final(out)@ == old(out)@ + repeated(c, count as nat),
{
    let mut i: usize = 0;
    assert(out@ =~= old(out)@ + repeated(c, 0));
    while i < count
        invariant
            i <= count,
            piece@ == seq![c],
            out@ == old(out)@ + repeated(c, i as nat),
        decreases count - i,
    {
        out.append(piece);
        i += 1;
        assert(out@ =~= old(out)@ + repeated(c, i as nat));
    }
}

/// The fret that the fingerings press on the string `string`.
fn find_fret_on_string(fingerings: &Vec<PitchFingering>, string: StringNumber) -> (fret: Option<u8>)
    ensures
        fret == fret_on_string(fingerings@, string),
{
    let mut i: usize = 0;
    while i < fingerings.len()
        invariant
            i <= fingerings.len(),
            fret_on_string(fingerings@.take(i as int), string) is None,
        decreases fingerings.len() - i,
    {
        assert(fingerings@.take(i + 1).drop_last() =~= fingerings@.take(i as int));
        if fingerings[i].string_number == string {
            let fret: u8 = fingerings[i].fret;
            proof {
                lemma_fret_on_string_stays(fingerings@, string, i + 1);
            }
            return Some(fret);
        }
        i += 1;
    }
    assert(fingerings@.take(i as int) =~= fingerings@);
    None
}

/// A fret that the first fingerings press on a string is the fret that all of
/// them press on it.
proof fn lemma_fret_on_string_stays(fingerings: Seq<Fingering>, string: StringNumber, first: int)
    requires
        0 <= first <= fingerings.len(),
        fret_on_string(fingerings.take(first), string) is Some,
    ensures
        fret_on_string(fingerings, string) == fret_on_string(fingerings.take(first), string),
    decreases fingerings.len() - first,
{
    if first < fingerings.len() {
        assert(fingerings.take(first + 1).drop_last() =~= fingerings.take(first));
        lemma_fret_on_string_stays(fingerings, string, first + 1);
    } else {
        assert(fingerings.take(first) =~= fingerings);
    }
}

/// The highest fret of a fingering of the lines.
fn find_highest_fret(lines: &[Line<BeatVec<PitchFingering>>]) -> (highest: u8)
    ensures
        highest == highest_fret(lines.deep_view()),
{
    let ghost views = lines.deep_view();
    let mut highest: u8 = 0;
    let mut i: usize = 0;
    while i < lines.len()
        invariant
            i <= lines.len(),
            views == lines.deep_view(),
            highest == highest_fret(views.take(i as int)),
        decreases lines.len() - i,
    {
        assert(views.take(i + 1).drop_last() =~= views.take(i as int));
        assert(views.take(i + 1).last() == lines@[i as int].deep_view());
        match &lines[i] {
            Line::Playable(fingerings) => {
                assert(fingerings.deep_view() =~= fingerings@);
                let mut here: u8 = 0;
                let mut k: usize = 0;
                while k < fingerings.len()
                    invariant
                        k <= fingerings.len(),
                        here == highest_fret_of(fingerings@.take(k as int)),
                    decreases fingerings.len() - k,
                {
                    assert(fingerings@.take(k + 1).drop_last() =~= fingerings@.take(k as int));
                    if fingerings[k].fret > here {
                        here = fingerings[k].fret;
                    }
                    k += 1;
                }
                assert(fingerings@.take(k as int) =~= fingerings@);
                if here > highest {
                    highest = here;
                }
            },
            _ => {},
        }
        i += 1;
    }
    assert(views.take(i as int) =~= views);
    highest
}

/// Appends the column of `line` in the row of the string `string`, and returns
/// the number of characters that it appended.
fn push_column(
    out: &mut String,
    line: &Line<BeatVec<PitchFingering>>,
    string: StringNumber,
    padding: u8,
    cell_width: usize,
) -> (pushed: usize)
    requires
        cell_width <= 3,
    ensures
        final(out)@ == old(out)@ + column_text(
            line.deep_view(),
            string,
            padding as nat,
            cell_width as nat,
        ),
        pushed == column_text(line.deep_view(), string, padding as nat, cell_width as nat).len(),
        pushed <= 258,
{
    proof {
        reveal_strlit("-");
        reveal_strlit("|");
        assert("-"@ =~= seq!['-']);
        assert("|"@ =~= seq!['|']);
    }
    let ghost start = out@;
    let ghost cell = cell_text(line.deep_view(), string);
    push_repeated(out, "-", '-', padding as usize);
    let cell_len: usize = match line {
        Line::MeasureBreak => {
            out.append("|");
            1
        },
        Line::Rest => {
            out.append("-");
            1
        },
        Line::Playable(fingerings) => {
            assert(fingerings.deep_view() =~= fingerings@);
            match find_fret_on_string(fingerings, string) {
                Some(fret) => {
                    proof {
                        lemma_numeral_width(fret);
                    }
                    push_decimal(out, fret as usize);
                    if fret >= 100 {
                        3
                    } else if fret >= 10 {
                        2
                    } else {
                        1
                    }
                },
                None => {
                    out.append("-");
                    1
                },
            }
        },
    };
    assert(out@ == start + repeated('-', padding as nat) + cell);
    assert(cell_len == cell.len());
    let fill: usize = if cell_len < cell_width {
        cell_width - cell_len
    } else {
        0
    };
    push_repeated(out, "-", '-', fill);
    assert(out@ =~= start + column_text(
        line.deep_view(),
        string,
        padding as nat,
        cell_width as nat,
    ));
    padding as usize + cell_len + fill
}

/// Appends the row of the string `string` for the lines from place `from` up
/// to place `to`.
fn push_row(
    out: &mut String,
    lines: &[Line<BeatVec<PitchFingering>>],
    string: StringNumber,
    from: usize,
    to: usize,
    padding: u8,
    cell_width: usize,
    width: u16,
)
    requires
        from <= to <= lines.len(),
        to - from <= u16::MAX,
        cell_width <= 3,
    ensures
        final(out)@ == old(out)@ + row_text(
            lines.deep_view(),
            string,
            from as int,
            to as int,
            padding as nat,
            cell_width as nat,
            width as nat,
        ),
{
    proof {
        reveal_strlit("-");
        reveal_strlit("\n");
        assert("-"@ =~= seq!['-']);
        assert("\n"@ =~= seq!['\n']);
    }
    let ghost start = out@;
    let ghost views = lines.deep_view();
    let mut row_len: usize = 0;
    let mut i: usize = from;
    assert(out@ =~= start + columns_text(
        views,
        string,
        from as int,
        from as int,
        padding as nat,
        cell_width as nat,
    ));
    while i < to
        invariant
            from <= i <= to <= lines.len(),
            to - from <= u16::MAX,
            cell_width <= 3,
            views == lines.deep_view(),
            out@ == start + columns_text(
                views,
                string,
                from as int,
                i as int,
                padding as nat,
                cell_width as nat,
            ),
            row_len == columns_text(
                views,
                string,
                from as int,
                i as int,
                padding as nat,
                cell_width as nat,
            ).len(),
            row_len <= (i - from) * 258,
        decreases to - i,
    {
        let ghost before = columns_text(
            views,
            string,
            from as int,
            i as int,
            padding as nat,
            cell_width as nat,
        );
        assert(views[i as int] == lines@[i as int].deep_view());
        let pushed = push_column(out, &lines[i], string, padding, cell_width);
        row_len = row_len + pushed;
        i += 1;
        assert(out@ =~= start + columns_text(
            views,
            string,
            from as int,
            i as int,
            padding as nat,
            cell_width as nat,
        ));
    }
    let fill: usize = if row_len < width as usize {
        width as usize - row_len
    } else {
        0
    };
    push_repeated(out, "-", '-', fill);
    out.append("\n");
    assert(out@ =~= start + row_text(
        views,
        string,
        from as int,
        to as int,
        padding as nat,
        cell_width as nat,
        width as nat,
    ));
}

/// Appends the line that marks the beat which is being played.
fn push_marker(
    out: &mut String,
    marker: &str,
    marker_char: char,
    playback_index: Option<u16>,
    from: usize,
    to: usize,
    padding: u8,
    cell_width: usize,
)
    requires
        marker@ == seq![marker_char],
        from <= to,
        cell_width <= 3,
    ensures
        final(out)@ == old(out)@ + marker_text(
            marker_char,
            playback_index,
            from as int,
            to as int,
            padding as nat,
            cell_width as nat,
        ),
{
    proof {
        reveal_strlit(" ");
        reveal_strlit("\n");
        assert(" "@ =~= seq![' ']);
        assert("\n"@ =~= seq!['\n']);
    }
    let ghost start = out@;
    match playback_index {
        None => {
            assert(out@ =~= start + Seq::<char>::empty());
        },
        Some(index) => {
            if from <= index as usize && (index as usize) < to {
                let beats: usize = index as usize - from;
                let column_width: usize = padding as usize + cell_width;
                assert(beats * column_width <= 65535 * 258) by (nonlinear_arith)
                    requires
                        beats <= 65535,
                        column_width <= 258,
                ;
                let blanks: usize = beats * column_width + padding as usize;
                push_repeated(out, " ", ' ', blanks);
                out.append(marker);
                out.append("\n");
                assert(out@ =~= start + (repeated(' ', blanks as nat) + seq![marker_char]
                    + seq!['\n']));
            } else {
                out.append("\n");
            }
        },
    }
}

/// Appends one group of rows: the lines from place `from` up to place `to` on
/// every string, between the lines that mark the beat which is being played.
fn push_group(
    out: &mut String,
    lines: &[Line<BeatVec<PitchFingering>>],
    strings: &Vec<(StringNumber, Pitch)>,
    from: usize,
    to: usize,
    padding: u8,
    cell_width: usize,
    width: u16,
    playback_index: Option<u16>,
)
    requires
        from <= to <= lines.len(),
        to - from <= u16::MAX,
        cell_width <= 3,
    ensures
        final(out)@ == old(out)@ + group_text(
            lines.deep_view(),
            strings@,
            from as int,
            to as int,
            padding as nat,
            cell_width as nat,
            width as nat,
            playback_index,
        ),
{
    proof {
        reveal_strlit("\u{25bc}");
        reveal_strlit("\u{25b2}");
        assert("\u{25bc}"@ =~= seq![MARKER_ABOVE]);
        assert("\u{25b2}"@ =~= seq![MARKER_BELOW]);
    }
    let ghost start = out@;
    let ghost views = lines.deep_view();
    push_marker(out, "\u{25bc}", MARKER_ABOVE, playback_index, from, to, padding, cell_width);
    let ghost above = out@;
    let mut s: usize = 0;
    assert(out@ =~= above + rows_text(
        views,
        strings@,
        0,
        from as int,
        to as int,
        padding as nat,
        cell_width as nat,
        width as nat,
    ));
    while s < strings.len()
        invariant
            s <= strings.len(),
            from <= to <= lines.len(),
            to - from <= u16::MAX,
            cell_width <= 3,
            views == lines.deep_view(),
            out@ == above + rows_text(
                views,
                strings@,
                s as nat,
                from as int,
                to as int,
                padding as nat,
                cell_width as nat,
                width as nat,
            ),
        decreases strings.len() - s,
    {
        push_row(out, lines, strings[s].0, from, to, padding, cell_width, width);
        s += 1;
        assert(out@ =~= above + rows_text(
            views,
            strings@,
            s as nat,
            from as int,
            to as int,
            padding as nat,
            cell_width as nat,
            width as nat,
        ));
    }
    push_marker(out, "\u{25b2}", MARKER_BELOW, playback_index, from, to, padding, cell_width);
    assert(out@ =~= start + group_text(
        views,
        strings@,
        from as int,
        to as int,
        padding as nat,
        cell_width as nat,
        width as nat,
        playback_index,
    ));
}

/// Draws the lines of an arrangement as a tablature for `guitar`.
///
/// Each string of the instrument has a row, the string with the lowest number
/// on top. Each line has a column of `padding` dashes and a cell; a row holds
/// as many columns as fit into `width` characters, and at least one, and the
/// lines that do not fit follow in further groups of rows. With a
/// `playback_index`, a line above and a line below each group mark the column
/// of the line at that index.
pub fn render_tab(
    arrangement_lines: &[Line<BeatVec<PitchFingering>>],
    guitar: &Guitar,
    width: u16,
    padding: u8,
    playback_index: Option<u16>,
) -> (tab: String)
    ensures
        tab@ == rendered_tab(
            arrangement_lines.deep_view(),
            guitar.tuning@,
            width,
            padding,
            playback_index,
        ),
{
    proof {
        reveal_strlit("\n");
        assert("\n"@ =~= seq!['\n']);
    }
    let ghost views = arrangement_lines.deep_view();
    let highest: u8 = find_highest_fret(arrangement_lines);
    let cell_width: usize = if highest >= 100 {
        3
    } else if highest >= 10 {
        2
    } else {
        1
    };
    let column_width: usize = padding as usize + cell_width;
    let per_group: usize = if width as usize / column_width == 0 {
        1
    } else {
        width as usize / column_width
    };
    assert(per_group == lines_per_group(width as nat, padding as nat, cell_width as nat));
    let ghost whole = rendered_tab(views, guitar.tuning@, width, padding, playback_index);
    let mut tab = String::new();
    let mut from: usize = 0;
    assert(tab@ + whole =~= whole);
    while from < arrangement_lines.len()
        invariant
            from <= arrangement_lines.len(),
            views == arrangement_lines.deep_view(),
            1 <= per_group <= u16::MAX,
            1 <= cell_width <= 3,
            "\n"@ == seq!['\n'],
            tab@ + groups_text(
                views,
                guitar.tuning@,
                from as int,
                per_group as nat,
                padding as nat,
                cell_width as nat,
                width as nat,
                playback_index,
            ) == whole,
        decreases arrangement_lines.len() - from,
    {
        let is_last: bool = arrangement_lines.len() - from <= per_group;
        let to: usize = if is_last {
            arrangement_lines.len()
        } else {
            from + per_group
        };
        let ghost before = tab@;
        let ghost group = group_text(
            views,
            guitar.tuning@,
            from as int,
            to as int,
            padding as nat,
            cell_width as nat,
            width as nat,
            playback_index,
        );
        let ghost rest = groups_text(
            views,
            guitar.tuning@,
            to as int,
            per_group as nat,
            padding as nat,
            cell_width as nat,
            width as nat,
            playback_index,
        );
        assert(before + if is_last {
            group
        } else {
            group + seq!['\n'] + rest
        } == whole);
        push_group(
            &mut tab,
            arrangement_lines,
            &guitar.tuning,
            from,
            to,
            padding,
            cell_width,
            width,
            playback_index,
        );
        if !is_last {
            tab.append("\n");
            assert(tab@ + rest =~= before + (group + seq!['\n'] + rest));
        } else {
            assert(rest =~= Seq::<char>::empty());
            assert(tab@ + rest =~= before + group);
        }
        from = to;
    }
    assert(tab@ + Seq::<char>::empty() =~= tab@);
    tab
}

} // verus!
