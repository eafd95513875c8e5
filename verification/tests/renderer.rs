use guitar_tab_generator::composition::Line;
use guitar_tab_generator::guitar::{Guitar, GuitarError, PitchFingering};
use guitar_tab_generator::parser::{create_string_tuning_offset, parse_tuning};
use guitar_tab_generator::pitch::Pitch;
use guitar_tab_generator::renderer::render_tab;
use guitar_tab_generator::string_number::StringNumber;

fn string(number: u8) -> StringNumber {
    StringNumber::new(number).unwrap()
}

fn press(number: u8, fret: u8) -> PitchFingering {
    PitchFingering { pitch: Pitch::A0, string_number: string(number), fret }
}

fn two_string_guitar() -> Guitar {
    Guitar::new(vec![(string(1), Pitch::E4), (string(2), Pitch::A2)], 8).unwrap()
}

fn one_string_guitar() -> Guitar {
    Guitar::new(vec![(string(1), Pitch::E2)], 18).unwrap()
}

#[test]
fn a_tab_has_a_row_for_each_string() {
    let lines = vec![
        Line::Playable(vec![press(2, 0)]),
        Line::Playable(vec![press(1, 0), press(2, 1)]),
        Line::Rest,
        Line::MeasureBreak,
    ];
    assert_eq!(
        render_tab(&lines, &two_string_guitar(), 10, 1, None),
        "---0---|--\n-0-1---|--\n"
    );
}

#[test]
fn rows_are_cut_into_groups() {
    let lines = vec![
        Line::Playable(vec![press(1, 0)]),
        Line::Playable(vec![press(1, 12)]),
        Line::Playable(vec![press(1, 3)]),
    ];
    assert_eq!(
        render_tab(&lines, &one_string_guitar(), 7, 1, Some(2)),
        "\n-0--12-\n\n\n ▼\n-3-----\n ▲\n"
    );
    assert_eq!(
        render_tab(&lines, &one_string_guitar(), 7, 1, Some(1)),
        "    ▼\n-0--12-\n    ▲\n\n\n-3-----\n\n"
    );
    assert_eq!(
        render_tab(&lines, &one_string_guitar(), 7, 1, None),
        "-0--12-\n\n-3-----\n"
    );
    assert_eq!(
        render_tab(&lines, &one_string_guitar(), 7, 1, Some(3)),
        "\n-0--12-\n\n\n\n-3-----\n\n"
    );
}

#[test]
fn a_narrow_tab_shows_one_line_in_each_group() {
    let lines = vec![Line::Playable(vec![press(1, 5)]), Line::MeasureBreak];
    assert_eq!(render_tab(&lines, &one_string_guitar(), 1, 2, None), "--5\n\n--|\n");
    assert_eq!(render_tab(&lines, &one_string_guitar(), 0, 0, None), "5\n\n|\n");
}

#[test]
fn nothing_is_drawn_for_no_lines() {
    assert_eq!(render_tab(&[], &two_string_guitar(), 30, 2, Some(0)), "");
    assert_eq!(render_tab(&[], &two_string_guitar(), 30, 2, None), "");
}

#[test]
fn the_first_fingering_on_a_string_is_drawn() {
    let lines = vec![Line::Playable(vec![press(2, 104), press(2, 7), press(3, 9)])];
    assert_eq!(render_tab(&lines, &two_string_guitar(), 6, 1, None), "------\n-104--\n");
}

#[test]
fn named_tunings() {
    assert_eq!(parse_tuning("standard"), [0, 0, 0, 0, 0, 0]);
    assert_eq!(parse_tuning("anything else"), [0, 0, 0, 0, 0, 0]);
    assert_eq!(parse_tuning(""), [0, 0, 0, 0, 0, 0]);
    assert_eq!(parse_tuning("openg"), [-2, 0, 0, 0, -2, -2]);
    assert_eq!(parse_tuning("opend"), [-2, -2, -1, 0, 0, -2]);
    assert_eq!(parse_tuning("c6"), [0, 1, 0, -2, 0, -4]);
    assert_eq!(parse_tuning("dsus4"), [-2, -2, 0, 0, 0, -2]);
    assert_eq!(parse_tuning("dropd"), [0, 0, 0, 0, 0, -2]);
    assert_eq!(parse_tuning("dropc"), [-2, -2, -2, -2, -2, -4]);
    assert_eq!(parse_tuning("openc"), [0, 1, 0, -2, -2, -4]);
    assert_eq!(parse_tuning("dropb"), [-3, -3, -3, -3, -3, -5]);
    assert_eq!(parse_tuning("opene"), [0, 0, 1, 2, 2, 0]);
    assert_eq!(parse_tuning("DropD"), [0, 0, 0, 0, 0, 0]);
}

#[test]
fn tunings_from_offsets() {
    assert_eq!(
        create_string_tuning_offset([0, 0, 0, 0, 0, 0]),
        Some(vec![
            (string(1), Pitch::E4),
            (string(2), Pitch::B3),
            (string(3), Pitch::G3),
            (string(4), Pitch::D3),
            (string(5), Pitch::A2),
            (string(6), Pitch::E2),
        ])
    );
    assert_eq!(
        create_string_tuning_offset(parse_tuning("opend")),
        Some(vec![
            (string(1), Pitch::D4),
            (string(2), Pitch::A3),
            (string(3), Pitch::FSharpGFlat3),
            (string(4), Pitch::D3),
            (string(5), Pitch::A2),
            (string(6), Pitch::D2),
        ])
    );
    assert_eq!(
        create_string_tuning_offset([67, 0, 0, 0, 0, -19]).unwrap()[0],
        (string(1), Pitch::B9)
    );
    assert_eq!(
        create_string_tuning_offset([67, 0, 0, 0, 0, -19]).unwrap()[5],
        (string(6), Pitch::A0)
    );
    assert_eq!(create_string_tuning_offset([68, 0, 0, 0, 0, 0]), None);
    assert_eq!(create_string_tuning_offset([0, 0, 0, 0, 0, -20]), None);
    assert_eq!(create_string_tuning_offset([127, 0, 0, 0, 0, 0]), None);
    assert_eq!(create_string_tuning_offset([0, -128, 0, 0, 0, 0]), None);
}

#[test]
fn a_capo_shortens_the_strings() {
    let tuning = create_string_tuning_offset(parse_tuning("standard")).unwrap();
    let guitar = Guitar::with_capo(tuning.clone(), 18, 2).unwrap();
    assert_eq!(guitar.num_frets, 16);
    assert_eq!(
        guitar.tuning,
        vec![
            (string(1), Pitch::FSharpGFlat4),
            (string(2), Pitch::CSharpDFlat4),
            (string(3), Pitch::A3),
            (string(4), Pitch::E3),
            (string(5), Pitch::B2),
            (string(6), Pitch::FSharpGFlat2),
        ]
    );
    for (_, string_range) in &guitar.string_ranges {
        assert_eq!(string_range.len(), 17);
    }
    assert_eq!(guitar.range.first(), Some(&Pitch::FSharpGFlat2));
    assert_eq!(guitar.range.last(), Some(&Pitch::ASharpBFlat5));
    assert_eq!(Guitar::with_capo(tuning.clone(), 18, 0), Guitar::new(tuning.clone(), 18));
    assert_eq!(Guitar::with_capo(tuning.clone(), 18, 18).unwrap().num_frets, 0);
    assert_eq!(
        Guitar::with_capo(tuning.clone(), 18, 19),
        Err(GuitarError::CapoTooHigh { capo: 19, num_frets: 18 })
    );
    assert_eq!(
        Guitar::with_capo(tuning, 31, 40),
        Err(GuitarError::FretLimitExceeded { num_frets: 31 })
    );
}
