use guitar_tab_generator::arrangement::{Arrangement, ArrangementError, InvalidInput};
use guitar_tab_generator::composition::Line;
use guitar_tab_generator::guitar::{Fingering, Guitar};
use guitar_tab_generator::pitch::Pitch;
use guitar_tab_generator::string_number::StringNumber;

fn generate_standard_guitar() -> Guitar {
    Guitar {
        tuning: vec![
            (StringNumber::new(1).unwrap(), Pitch::E4),
            (StringNumber::new(2).unwrap(), Pitch::B3),
            (StringNumber::new(3).unwrap(), Pitch::G3),
            (StringNumber::new(4).unwrap(), Pitch::D3),
            (StringNumber::new(5).unwrap(), Pitch::A2),
            (StringNumber::new(6).unwrap(), Pitch::E2),
        ],
        num_frets: 12,
        range: vec![
            Pitch::E2,
            Pitch::F2,
            Pitch::FSharpGFlat2,
            Pitch::G2,
            Pitch::A2,
            Pitch::ASharpBFlat2,
            Pitch::B2,
            Pitch::C3,
            Pitch::D3,
            Pitch::DSharpEFlat3,
            Pitch::E3,
            Pitch::F3,
            Pitch::G3,
            Pitch::GSharpAFlat3,
            Pitch::A3,
            Pitch::ASharpBFlat3,
            Pitch::B3,
            Pitch::C4,
            Pitch::CSharpDFlat4,
            Pitch::D4,
            Pitch::E4,
            Pitch::F4,
            Pitch::FSharpGFlat4,
            Pitch::G4,
        ],
        string_ranges: vec![
            (
                StringNumber::new(1).unwrap(),
                vec![Pitch::E4, Pitch::F4, Pitch::FSharpGFlat4, Pitch::G4],
            ),
            (
                StringNumber::new(2).unwrap(),
                vec![Pitch::B3, Pitch::C4, Pitch::CSharpDFlat4, Pitch::D4],
            ),
            (
                StringNumber::new(3).unwrap(),
                vec![Pitch::G3, Pitch::GSharpAFlat3, Pitch::A3, Pitch::ASharpBFlat3],
            ),
            (
                StringNumber::new(4).unwrap(),
                vec![Pitch::D3, Pitch::DSharpEFlat3, Pitch::E3, Pitch::F3],
            ),
            (
                StringNumber::new(5).unwrap(),
                vec![Pitch::A2, Pitch::ASharpBFlat2, Pitch::B2, Pitch::C3],
            ),
            (
                StringNumber::new(6).unwrap(),
                vec![Pitch::E2, Pitch::F2, Pitch::FSharpGFlat2, Pitch::G2],
            ),
        ],
    }
}

#[test]
fn arrangement_valid_simple() {
    let guitar = generate_standard_guitar();
    let input_pitches = vec![vec![Pitch::G3]];
    let expected_fingerings = vec![vec![Guitar::generate_pitch_fingerings(
        &guitar.string_ranges,
        &Pitch::G3,
    )]];

    assert_eq!(
        Arrangement::validate_fingerings(&guitar, &input_pitches).unwrap(),
        expected_fingerings
    );
}

#[test]
fn valid_complex() {
    let guitar = generate_standard_guitar();
    let input_pitches = vec![vec![Pitch::G3], vec![Pitch::B3], vec![Pitch::D4, Pitch::G4]];
    let expected_fingerings = vec![
        vec![Guitar::generate_pitch_fingerings(
            &guitar.string_ranges,
            &Pitch::G3,
        )],
        vec![Guitar::generate_pitch_fingerings(
            &guitar.string_ranges,
            &Pitch::B3,
        )],
        vec![
            Guitar::generate_pitch_fingerings(&guitar.string_ranges, &Pitch::D4),
            Guitar::generate_pitch_fingerings(&guitar.string_ranges, &Pitch::G4),
        ],
    ];

    assert_eq!(
        Arrangement::validate_fingerings(&guitar, &input_pitches).unwrap(),
        expected_fingerings
    );
}

#[test]
fn invalid_simple() {
    let guitar = generate_standard_guitar();
    let input_pitches = vec![vec![Pitch::B9]];

    let error = Arrangement::validate_fingerings(&guitar, &input_pitches)
        .unwrap_err()
        .message();
    let error_string = format!("{error}");
    let expected_error_string =
        "Pitch B9 on line 1 cannot be played on any strings of the configured guitar.";
    assert_eq!(error_string, expected_error_string);
}

#[test]
fn invalid_complex() {
    let guitar = generate_standard_guitar();
    let input_pitches = vec![
        vec![Pitch::A1],
        vec![Pitch::G3],
        vec![Pitch::B3],
        vec![Pitch::A1, Pitch::B1],
        vec![Pitch::G3, Pitch::D2],
        vec![Pitch::D4, Pitch::G4],
    ];

    let error = Arrangement::validate_fingerings(&guitar, &input_pitches)
        .unwrap_err()
        .message();
    let error_string = format!("{error}");
    let expected_error_string =
        "Pitch A1 on line 1 cannot be played on any strings of the configured guitar.\n\
        Pitch A1 on line 4 cannot be played on any strings of the configured guitar.\n\
        Pitch B1 on line 4 cannot be played on any strings of the configured guitar.\n\
        Pitch D2 on line 5 cannot be played on any strings of the configured guitar.";
    assert_eq!(error_string, expected_error_string);
}

#[test]
fn validated_fingerings_hold_string_and_fret() {
    let guitar = generate_standard_guitar();
    let fingerings =
        Arrangement::validate_fingerings(&guitar, &[vec![Pitch::G3, Pitch::C4]]).unwrap();
    assert_eq!(
        fingerings,
        vec![vec![
            vec![Fingering {
                pitch: Pitch::G3,
                string_number: StringNumber::new(3).unwrap(),
                fret: 0
            }],
            vec![Fingering {
                pitch: Pitch::C4,
                string_number: StringNumber::new(2).unwrap(),
                fret: 1
            }],
        ]]
    );
}

#[test]
fn unplayable_pitch_is_an_error_value() {
    let guitar = generate_standard_guitar();
    let error =
        Arrangement::validate_fingerings(&guitar, &[vec![Pitch::G3], vec![Pitch::B9]]).unwrap_err();
    assert_eq!(
        error,
        ArrangementError::UnplayablePitch(vec![InvalidInput {
            value: "B9".to_owned(),
            line_number: 2
        }])
    );
}

#[test]
fn new_arrangement_of_open_strings() {
    let guitar = Guitar::new(
        vec![
            (StringNumber::new(1).unwrap(), Pitch::E4),
            (StringNumber::new(2).unwrap(), Pitch::B3),
        ],
        4,
    )
    .unwrap();
    let arrangement = Arrangement::new(guitar, vec![vec![Pitch::E4], vec![Pitch::B3]]).unwrap();
    assert_eq!(
        arrangement.lines,
        vec![
            Line::Playable(vec![Fingering {
                pitch: Pitch::E4,
                string_number: StringNumber::new(1).unwrap(),
                fret: 0
            }]),
            Line::Playable(vec![Fingering {
                pitch: Pitch::B3,
                string_number: StringNumber::new(2).unwrap(),
                fret: 0
            }]),
        ]
    );
    assert_eq!(arrangement.max_fret_span(), 0);
    assert_eq!(arrangement.cost, 3);
}

#[test]
fn new_arrangement_reports_what_cannot_be_played() {
    let guitar = Guitar::new(vec![(StringNumber::new(1).unwrap(), Pitch::E4)], 4).unwrap();
    let error = Arrangement::new(guitar.clone(), vec![vec![Pitch::E4], vec![Pitch::E2, Pitch::A4]])
        .unwrap_err();
    assert_eq!(
        error.message(),
        "Pitch E2 on line 2 cannot be played on any strings of the configured guitar.\n\
        Pitch A4 on line 2 cannot be played on any strings of the configured guitar."
    );
    let error = Arrangement::new(guitar.clone(), vec![vec![Pitch::E4, Pitch::F4]]).unwrap_err();
    assert_eq!(error, ArrangementError::NoPathFound);
    assert_eq!(error.message(), "No arrangement could be found for the composition.");
    assert_eq!(Arrangement::new(guitar, vec![]).unwrap_err(), ArrangementError::NoPathFound);
}
