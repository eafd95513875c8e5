use guitar_tab_generator::composition::{InvalidInput, Line};
use guitar_tab_generator::parser::{
    consecutive_slices, parse_line, parse_measure_break, parse_pitch, parse_pitches, parse_rest,
    remove_comments, remove_whitespace, ParseError,
};
use guitar_tab_generator::pitch::Pitch;

#[test]
fn parser_valid() {
    let input = "A3\nE2// Comment\n\nG4BB2G4\n-\nE4".to_owned();
    let expected = vec![
        Line::Playable(vec![Pitch::A3]),
        Line::Playable(vec![Pitch::E2]),
        Line::Rest,
        Line::Playable(vec![Pitch::G4, Pitch::ASharpBFlat2, Pitch::G4]),
        Line::MeasureBreak,
        Line::Playable(vec![Pitch::E4]),
    ];
    assert_eq!(parse_pitches(input).unwrap(), expected);
}

#[test]
fn parser_invalid() {
    let input = "A3xyz\nE2\n\nG4BB.2\n-\nE4".to_owned();

    let error = parse_pitches(input).unwrap_err().message();
    let error_msg = format!("{error}");

    assert_eq!(
        error_msg,
        "Input 'xyz' on line 1 could not be parsed into a pitch.\nInput 'BB.2' on line 4 could not be parsed into a pitch."
    );
}

#[test]
fn empty() {
    assert_eq!(parse_line(0, "").unwrap(), Line::Rest);
}

#[test]
fn only_comment() {
    assert_eq!(parse_line(0, "  // Long comment.... ").unwrap(), Line::Rest);
}

#[test]
fn measure_break() {
    assert_eq!(parse_line(0, "    --    ").unwrap(), Line::MeasureBreak);
    assert_eq!(parse_line(0, "- //comment").unwrap(), Line::MeasureBreak);
}

#[test]
fn valid_pitch() {
    let expected = Line::Playable(vec![Pitch::GSharpAFlat2, Pitch::A4, Pitch::E3, Pitch::G2]);
    assert_eq!(parse_line(123, "    G#2A4  E3 G2 ").unwrap(), expected);
    assert_eq!(parse_line(123, "G#2A4E3 G2// Comment").unwrap(), expected);
}

#[test]
fn test_parse_line_invalid_input() {
    let error = parse_line(4, "  Invalid Text  ").unwrap_err().message();
    let error_msg = format!("{error}");

    assert_eq!(
        error_msg,
        "Input 'InvalidText' on line 5 could not be parsed into a pitch."
    );
}

#[test]
fn no_comment() {
    assert_eq!(remove_comments("Hello, World!"), "Hello, World!");
    assert_eq!(remove_comments("B3C1"), "B3C1");
}

#[test]
fn single_comment() {
    assert_eq!(
        remove_comments("Hello, World! // This is a comment"),
        "Hello, World! "
    );
}

#[test]
fn multiple_comments() {
    assert_eq!(
        remove_comments("Hello, // Comment 1\nWorld! // Comment 2"),
        "Hello, "
    );
}

#[test]
fn comment_at_start() {
    assert_eq!(remove_comments("// Comment at the start"), "");
}

#[test]
fn parser_empty_input() {
    assert_eq!(parse_rest(""), Some(Line::Rest));
}

#[test]
fn empty_input() {
    assert_eq!(parse_measure_break(""), None);
}

#[test]
fn pitch_input() {
    assert_eq!(parse_rest("G7"), None);
}

#[test]
fn measure_break_dash() {
    assert_eq!(parse_measure_break("-"), Some(Line::MeasureBreak));
}

#[test]
fn measure_break_en_dash() {
    assert_eq!(parse_measure_break("–"), Some(Line::MeasureBreak));
}

#[test]
fn measure_break_em_dash() {
    assert_eq!(parse_measure_break("—"), Some(Line::MeasureBreak));
}

#[test]
fn no_measure_break() {
    assert_eq!(parse_measure_break("ABCDEF"), None);
}

#[test]
fn whitespace_input() {
    assert_eq!(parse_measure_break(" "), None);
}

#[test]
fn multiple_dashes() {
    assert_eq!(parse_measure_break("---"), Some(Line::MeasureBreak));
}

#[test]
fn multiple_en_dashes() {
    assert_eq!(parse_measure_break("–––"), Some(Line::MeasureBreak));
}

#[test]
fn mixed_dashes() {
    assert_eq!(parse_measure_break("-–—"), None);
}

#[test]
fn single_natural_pitch() {
    assert_eq!(parse_pitch(0, "A0").unwrap(), Line::Playable(vec![Pitch::A0]));
    assert_eq!(parse_pitch(0, "E6").unwrap(), Line::Playable(vec![Pitch::E6]));
}

#[test]
fn single_sharp_pitch() {
    assert_eq!(
        parse_pitch(0, "D#2").unwrap(),
        Line::Playable(vec![Pitch::DSharpEFlat2])
    );
}

#[test]
fn single_flat_pitch() {
    assert_eq!(
        parse_pitch(0, "Db2").unwrap(),
        Line::Playable(vec![Pitch::CSharpDFlat2])
    );
    assert_eq!(
        parse_pitch(0, "Bb2").unwrap(),
        Line::Playable(vec![Pitch::ASharpBFlat2])
    );
}

#[test]
fn case_insensitivity() {
    assert_eq!(
        parse_pitch(0, "A3").unwrap(),
        Line::Playable(vec![Pitch::A3])
    );
    assert_eq!(
        parse_pitch(0, "a3").unwrap(),
        Line::Playable(vec![Pitch::A3])
    );
    assert_eq!(
        parse_pitch(0, "Bb2").unwrap(),
        Line::Playable(vec![Pitch::ASharpBFlat2])
    );
    assert_eq!(
        parse_pitch(0, "bB2").unwrap(),
        Line::Playable(vec![Pitch::ASharpBFlat2])
    );
    assert_eq!(
        parse_pitch(0, "bb2").unwrap(),
        Line::Playable(vec![Pitch::ASharpBFlat2])
    );
}

#[test]
fn multiple_pitches() {
    assert_eq!(
        parse_pitch(0, "C3G2A#1F8").unwrap(),
        Line::Playable(vec![Pitch::C3, Pitch::G2, Pitch::ASharpBFlat1, Pitch::F8])
    );
}

#[test]
fn invalid_typo() {
    let error_msg = format!("{}", parse_pitch(12, "ZA2G#444B3").unwrap_err().message());
    let expected_error_msg = "Input 'Z' on line 13 could not be parsed into a pitch.\nInput '44' on line 13 could not be parsed into a pitch.";
    assert_eq!(error_msg, expected_error_msg);
}

#[test]
fn invalid_pitch() {
    let error_msg = format!("{}", parse_pitch(28, "Fb3").unwrap_err().message());
    let expected_error_msg = "Input 'Fb3' on line 29 could not be parsed into a pitch.";
    assert_eq!(error_msg, expected_error_msg);
}

#[test]
fn invalid_random() {
    let error_msg = format!("{}", parse_pitch(0, "baS3Q-hNr").unwrap_err().message());
    let expected_error_msg = "Input 'baS3Q-hNr' on line 1 could not be parsed into a pitch.";
    assert_eq!(error_msg, expected_error_msg);
}

#[test]
fn parser_simple() {
    let flat_nums = vec![1, 2, 3, 4];
    let consecutive_nums = vec![vec![1, 2, 3, 4]];

    assert_eq!(consecutive_slices(&flat_nums), consecutive_nums);
}

#[test]
fn parser_complex() {
    let flat_nums = vec![1, 2, 3, 4, 113, 115, 116, 6, 7, 8];
    let consecutive_nums = vec![vec![1, 2, 3, 4], vec![113], vec![115, 116], vec![6, 7, 8]];

    assert_eq!(consecutive_slices(&flat_nums), consecutive_nums);
}

#[test]
fn no_consecutive() {
    let flat_nums = vec![95, 65, 74, 96, 68, 29, 34, 32];
    let consecutive_nums = vec![
        vec![95],
        vec![65],
        vec![74],
        vec![96],
        vec![68],
        vec![29],
        vec![34],
        vec![32],
    ];

    assert_eq!(consecutive_slices(&flat_nums), consecutive_nums);
}

#[test]
fn consecutive_slices_of_nothing() {
    let flat_nums: Vec<usize> = vec![];
    assert!(consecutive_slices(&flat_nums).is_empty());
    let at_the_end = vec![usize::MAX - 1, usize::MAX, 0];
    assert_eq!(
        consecutive_slices(&at_the_end),
        vec![vec![usize::MAX - 1, usize::MAX], vec![0]]
    );
}

#[test]
fn whitespace_is_removed() {
    assert_eq!(remove_whitespace("  G#2 A4\tE3\u{a0}G2\u{3000}\r"), "G#2A4E3G2");
    assert_eq!(remove_whitespace(""), "");
    assert_eq!(remove_whitespace(" \t "), "");
    assert_eq!(remove_whitespace("a\u{200b}b"), "a\u{200b}b");
}

#[test]
fn comments_need_two_slashes() {
    assert_eq!(remove_comments("A3 / B3"), "A3 / B3");
    assert_eq!(remove_comments("A3 /"), "A3 /");
    assert_eq!(remove_comments("/"), "/");
    assert_eq!(remove_comments("A3 /// B3"), "A3 ");
    assert_eq!(remove_comments("♯//♭"), "♯");
}

#[test]
fn lines_end_at_line_feeds() {
    assert_eq!(parse_pitches("".to_owned()).unwrap(), vec![]);
    assert_eq!(parse_pitches("\n".to_owned()).unwrap(), vec![Line::Rest]);
    assert_eq!(
        parse_pitches("E2\n".to_owned()).unwrap(),
        vec![Line::Playable(vec![Pitch::E2])]
    );
    assert_eq!(
        parse_pitches("E2\r\n\r\nA2\r\n---".to_owned()).unwrap(),
        vec![
            Line::Playable(vec![Pitch::E2]),
            Line::Rest,
            Line::Playable(vec![Pitch::A2]),
            Line::MeasureBreak
        ]
    );
    assert_eq!(
        parse_pitches("\n\n\n---\n \n".to_owned()).unwrap(),
        vec![Line::Rest, Line::Rest, Line::Rest, Line::MeasureBreak, Line::Rest]
    );
}

#[test]
fn accidentals_are_read_in_every_spelling() {
    assert_eq!(
        parse_pitch(0, "C♯3D♭3e♭4").unwrap(),
        Line::Playable(vec![Pitch::CSharpDFlat3, Pitch::CSharpDFlat3, Pitch::DSharpEFlat4])
    );
}

#[test]
fn a_token_that_names_no_pitch_is_reported_whole() {
    let error = parse_pitch(0, "A|3B3").unwrap_err();
    assert_eq!(
        error,
        ParseError { inputs: vec![InvalidInput { value: "A|3".to_owned(), line_number: 1 }] }
    );
    let error = parse_pitch(6, "E2Cb3x♯G0").unwrap_err();
    assert_eq!(
        error.inputs,
        vec![InvalidInput { value: "Cb3x♯G0".to_owned(), line_number: 7 }]
    );
    let error = parse_pitch(6, "Ab0E2G0").unwrap_err();
    assert_eq!(
        error.inputs,
        vec![
            InvalidInput { value: "Ab0".to_owned(), line_number: 7 },
            InvalidInput { value: "G0".to_owned(), line_number: 7 }
        ]
    );
}

#[test]
fn every_unparsable_line_is_reported() {
    let error = parse_pitches("E2\n?\nA2 // fine\nx y\n\nB9!".to_owned()).unwrap_err();
    assert_eq!(
        error.inputs,
        vec![
            InvalidInput { value: "?".to_owned(), line_number: 2 },
            InvalidInput { value: "xy".to_owned(), line_number: 4 },
            InvalidInput { value: "!".to_owned(), line_number: 6 },
        ]
    );
    assert_eq!(
        error.message(),
        "Input '?' on line 2 could not be parsed into a pitch.\nInput 'xy' on line 4 could not be parsed into a pitch.\nInput '!' on line 6 could not be parsed into a pitch."
    );
}
