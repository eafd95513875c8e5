use guitar_tab_generator::arrangement::{Arrangement, ArrangementError};
use guitar_tab_generator::box_fingering::{
    all_fingerings_in_same_box, combos_for, convert_beat_to_possible_fingerings, convert_lines, convert_pitch_fingering_to_box_fingering, convert_pitch_fingerings_to_box_fingerings, get_playable_fingerings_for_line, score_beat_transition, score_chord_playability, score_chord_to_chord_transition, score_chord_to_note_transition, score_grip, score_note_to_chord_transition, score_single_note_transition, BoxFingering, Finger, PossibleFingerings, CHORD_TRANSITION_SCORE, UNPLAYABLE,
};
use guitar_tab_generator::search::{
    at_end, build_layers, convert_playable_to_pitch_fingerings, convert_to_pitch_fingering, create_arrangements, find_best_paths, get_playable_positions_for_all_notes_on_next_line, is_prior_idx, successors, Layer,
};
use guitar_tab_generator::composition::{InvalidInput, Line};
use guitar_tab_generator::guitar::{Fingering, Guitar, PitchFingering};
use guitar_tab_generator::parser::parse_pitches;
use guitar_tab_generator::pitch::Pitch;
use guitar_tab_generator::string_number::StringNumber;

fn standard_guitar() -> Guitar {
    Guitar::new(
        vec![
            (StringNumber::new(1).unwrap(), Pitch::E4),
            (StringNumber::new(2).unwrap(), Pitch::B3),
            (StringNumber::new(3).unwrap(), Pitch::G3),
            (StringNumber::new(4).unwrap(), Pitch::D3),
            (StringNumber::new(5).unwrap(), Pitch::A2),
            (StringNumber::new(6).unwrap(), Pitch::E2),
        ],
        18,
    )
    .unwrap()
}

fn one_string_guitar() -> Guitar {
    Guitar::new(vec![(StringNumber::new(1).unwrap(), Pitch::E2)], 18).unwrap()
}

fn two_string_guitar() -> Guitar {
    Guitar::new(
        vec![
            (StringNumber::new(1).unwrap(), Pitch::E4),
            (StringNumber::new(2).unwrap(), Pitch::A2),
        ],
        8,
    )
    .unwrap()
}

fn fun_name(input: String) -> (Vec<Line<Vec<Pitch>>>, Vec<Vec<PossibleFingerings>>) {
    let lines: Vec<Line<Vec<Pitch>>> = parse_pitches(input).ok().unwrap();

    let guitar = standard_guitar();

    let fingerings = convert_lines(&guitar, &lines);
    (lines, fingerings)
}

fn note(line_idx: usize, string: u8, position: u8, finger: u8) -> BoxFingering {
    BoxFingering { line_idx, position, finger, string }
}

#[test]
fn test_major_scale() {
    let input = "C3
        D3
        E3
        F3
        G3
        A3
        B3
        C4
        D4
        E4
        F4
        G4
        A4
        B4
        C5"
    .to_string();

    let lines = parse_pitches(input).unwrap();
    let arrangements = create_arrangements(&standard_guitar(), &lines, 3, 0).unwrap();
    assert_eq!(arrangements.len(), 3);
    for arrangement in &arrangements {
        assert_eq!(arrangement.lines.len(), 15);
    }
    assert!(arrangements[0].cost <= arrangements[1].cost);
    assert!(arrangements[1].cost <= arrangements[2].cost);
}

#[test]
fn test_diatonic_arps() {
    let input = "C3
        E3
        G3
        B3
        -
        D3
        F3
        A3
        C4
        -
        E3
        G3
        B3
        D4
        -
        F3
        A3
        C4
        E4
        -
        G3
        B3
        D4
        F4
        -
        A3
        C4
        E4
        G4
        -
        B3
        D4
        F4
        A4"
    .to_string();

    let lines = parse_pitches(input).unwrap();
    let arrangements = create_arrangements(&standard_guitar(), &lines, 1, 0).unwrap();
    assert_eq!(arrangements.len(), 1);
    assert_eq!(arrangements[0].lines.len(), 34);
    assert_eq!(arrangements[0].lines[4], Line::MeasureBreak);
}

#[test]
fn box_fingering_test_simple() {
    let input = "C3".to_string();
    let lines: Vec<Line<Vec<Pitch>>> = parse_pitches(input).ok().unwrap();

    // On this instrument only the sixth string sounds C3, at its eighth fret.
    let guitar = Guitar::new(vec![(StringNumber::new(6).unwrap(), Pitch::E2)], 18).unwrap();

    let possible_box_fingerings = convert_lines(&guitar, &lines);

    let res = get_playable_fingerings_for_line(&possible_box_fingerings[0]);

    assert_eq!(res.len(), 6);
}

#[test]
fn test_simple() {
    let pf = PitchFingering {
        fret: 15,
        string_number: StringNumber::new(4).unwrap(),
        pitch: Pitch::F5,
    };
    let expected1 = BoxFingering {
        line_idx: 5,
        finger: 1,
        string: 4,
        position: 15,
    };

    assert!(convert_pitch_fingering_to_box_fingering(5, &pf).contains(&expected1))
}

#[test]
fn test_it() {
    let input = "C3
                    D3
                    E3
                    F3
                    G3
                    A3
                    B3
                    C4"
    .to_string();

    let (lines, fingerings) = fun_name(input);

    assert_eq!(fingerings.len(), lines.len());
    for fingering in fingerings {
        assert_eq!(fingering.len(), 1);
    }
}

#[test]
fn test_it_again() {
    let input = "C3E3G3
                     C4"
    .to_string();

    let (lines, fingerings) = fun_name(input);

    assert_eq!(fingerings.len(), lines.len());
    assert_eq!(fingerings[0].len(), 3);
}

#[test]
fn test_it_with_srests_and_breaks() {
    let input = "C3E3G3
                    -

                     C4G3"
        .to_string();

    let (_, fingerings) = fun_name(input);

    assert_eq!(fingerings.len(), 2);
    assert_eq!(fingerings[0].len(), 3);
    assert_eq!(fingerings[1].len(), 2);
    assert_eq!(fingerings[1][0][0].line_idx, 3);
    assert_eq!(fingerings[1][1][0].line_idx, 3);
}

#[test]
fn test_high() {
    let pf = PitchFingering {
        fret: 1,
        string_number: StringNumber::new(1).unwrap(),
        pitch: Pitch::F4,
    };
    let expected1 = BoxFingering {
        line_idx: 4,
        finger: 1,
        string: 1,
        position: 1,
    };
    let expected2 = BoxFingering {
        line_idx: 4,
        finger: 0,
        string: 1,
        position: 2,
    };

    assert_eq!(
        convert_pitch_fingering_to_box_fingering(4, &pf),
        vec![expected2, expected1]
    )
}

#[test]
fn test_simple_transition() {
    let curr = vec![BoxFingering {
        finger: 1,
        position: 1,
        string: 1,
        line_idx: 1,
    }];
    let next = vec![BoxFingering {
        finger: 3,
        position: 1,
        string: 1,
        line_idx: 1,
    }];

    let score = score_beat_transition(&curr, &next);
    assert_eq!(score, 0);
}

#[test]
fn standard_guitar_sounds_c3_in_ten_ways() {
    let lines = vec![Line::Playable(vec![Pitch::C3])];
    let options = convert_lines(&standard_guitar(), &lines);
    assert_eq!(options.len(), 1);
    assert_eq!(options[0].len(), 1);
    let grips = get_playable_fingerings_for_line(&options[0]);
    let expected: Vec<Vec<BoxFingering>> = vec![
        vec![note(0, 5, 4, 0)],
        vec![note(0, 5, 3, 1)],
        vec![note(0, 5, 2, 2)],
        vec![note(0, 5, 1, 3)],
        vec![note(0, 6, 9, 0)],
        vec![note(0, 6, 8, 1)],
        vec![note(0, 6, 7, 2)],
        vec![note(0, 6, 6, 3)],
        vec![note(0, 6, 5, 4)],
        vec![note(0, 6, 4, 5)],
    ];
    assert_eq!(grips, expected);
}

#[test]
fn fingers_have_places() {
    let fingers =
        [Finger::IShift, Finger::I, Finger::M, Finger::A, Finger::P, Finger::PShift];
    for (place, finger) in fingers.iter().enumerate() {
        assert_eq!(finger.number() as usize, place);
        assert_eq!(Finger::from_number(place as u8), Some(*finger));
    }
    assert_eq!(Finger::from_number(6), None);
    assert_eq!(Finger::from_number(255), None);
}

#[test]
fn box_fingerings_stay_on_the_fretboard() {
    let fingering = |fret: u8| PitchFingering {
        fret,
        string_number: StringNumber::new(2).unwrap(),
        pitch: Pitch::C4,
    };
    assert_eq!(
        convert_pitch_fingering_to_box_fingering(0, &fingering(0)),
        vec![note(0, 2, 1, 0)]
    );
    assert_eq!(
        convert_pitch_fingering_to_box_fingering(7, &fingering(5)),
        vec![
            note(7, 2, 6, 0),
            note(7, 2, 5, 1),
            note(7, 2, 4, 2),
            note(7, 2, 3, 3),
            note(7, 2, 2, 4),
            note(7, 2, 1, 5),
        ]
    );
    assert_eq!(convert_pitch_fingering_to_box_fingering(0, &fingering(17)).len(), 6);
    assert_eq!(convert_pitch_fingering_to_box_fingering(0, &fingering(18)), vec![]);
    assert_eq!(convert_pitch_fingering_to_box_fingering(0, &fingering(200)), vec![]);
    assert_eq!(
        convert_pitch_fingerings_to_box_fingerings(3, &[fingering(0), fingering(1)]),
        vec![note(3, 2, 1, 0), note(3, 2, 2, 0), note(3, 2, 1, 1)]
    );
    assert_eq!(convert_pitch_fingerings_to_box_fingerings(3, &[]), vec![]);
}

#[test]
fn box_fingering_frets() {
    assert_eq!(note(0, 1, 4, 2).fret(), 5);
    assert_eq!(note(0, 1, 1, 0).fret(), 0);
    assert_eq!(note(0, 1, 0, 0).fret(), 0);
    assert_eq!(note(0, 1, 255, 255).fret(), 255);
}

#[test]
fn same_finger_on_another_string_costs_one_unit() {
    let curr = note(0, 1, 3, 2);
    assert_eq!(score_single_note_transition(&curr, &note(1, 2, 3, 2)), 1);
    assert_eq!(score_single_note_transition(&curr, &note(1, 1, 3, 2)), 0);
    assert_eq!(score_single_note_transition(&curr, &note(1, 2, 3, 3)), 0);
    assert_eq!(score_beat_transition(&[curr], &[note(1, 2, 3, 2)]), 1);
}

#[test]
fn single_note_transition_formula() {
    assert_eq!(score_single_note_transition(&note(0, 1, 2, 0), &note(1, 3, 9, 5)), 9);
    assert_eq!(score_single_note_transition(&note(0, 1, 9, 5), &note(1, 3, 2, 0)), 9);
    assert_eq!(score_single_note_transition(&note(0, 1, 9, 5), &note(1, 3, 2, 5)), 10);
    assert_eq!(score_single_note_transition(&note(0, 1, 0, 1), &note(1, 1, 255, 2)), 255);
    assert_eq!(score_single_note_transition(&note(0, 1, 0, 0), &note(1, 2, 255, 0)), 258);
}

#[test]
fn chords_must_lie_in_one_box() {
    let boxed = vec![note(1, 1, 3, 1), note(1, 2, 3, 3)];
    let spread = vec![note(1, 1, 3, 1), note(1, 2, 4, 3)];
    let single = note(0, 3, 7, 2);
    assert!(all_fingerings_in_same_box(&boxed));
    assert!(!all_fingerings_in_same_box(&spread));
    assert!(!all_fingerings_in_same_box(&[]));
    assert!(all_fingerings_in_same_box(&[single]));
    assert_eq!(score_chord_playability(&boxed), 0);
    assert_eq!(score_chord_playability(&spread), UNPLAYABLE);
    assert_eq!(score_note_to_chord_transition(&single, &boxed), CHORD_TRANSITION_SCORE);
    assert_eq!(score_note_to_chord_transition(&single, &spread), UNPLAYABLE);
    assert_eq!(score_chord_to_chord_transition(&spread, &boxed), 12);
    assert_eq!(score_chord_to_chord_transition(&boxed, &spread), 10000);
    assert_eq!(score_chord_to_note_transition(&boxed, &single), 12);
    assert_eq!(score_chord_to_note_transition(&spread, &single), 10000);
    assert_eq!(score_beat_transition(&[single], &boxed), 12);
    assert_eq!(score_beat_transition(&[single], &spread), 10000);
    assert_eq!(score_beat_transition(&boxed, &[single]), 12);
    assert_eq!(score_beat_transition(&spread, &[single]), 10000);
    assert_eq!(score_beat_transition(&spread, &boxed), 12);
    assert_eq!(score_beat_transition(&boxed, &spread), 10000);
    assert_eq!(score_beat_transition(&[], &[single]), 10000);
    assert_eq!(score_beat_transition(&[single], &[]), 10000);
}

#[test]
fn holding_a_grip_costs_span_and_mean() {
    assert_eq!(score_grip(&vec![note(0, 1, 3, 1), note(0, 2, 3, 3)], 1000), 6);
    assert_eq!(score_grip(&vec![note(0, 1, 3, 1), note(0, 2, 3, 3), note(0, 3, 1, 0)], 1000), 6);
    assert_eq!(score_grip(&vec![note(0, 1, 2, 1), note(0, 2, 2, 4)], 1000), 6);
    assert_eq!(score_grip(&vec![note(0, 1, 9, 0)], 1000), 8);
    assert_eq!(score_grip(&vec![note(0, 1, 1, 0), note(0, 2, 1, 0)], 1000), 1000);
    assert_eq!(score_grip(&vec![note(0, 1, 1, 0)], 0), 0);
    assert_eq!(score_grip(&vec![], 7), 7);
}

#[test]
fn candidates_use_no_string_twice() {
    let first = vec![note(0, 1, 1, 0), note(0, 2, 6, 0), note(0, 2, 5, 1)];
    let second = vec![note(0, 2, 1, 0), note(0, 3, 5, 0)];
    let grips = get_playable_fingerings_for_line(&[first.clone(), second.clone()]);
    assert_eq!(
        grips,
        vec![
            vec![note(0, 1, 1, 0), note(0, 2, 1, 0)],
            vec![note(0, 1, 1, 0), note(0, 3, 5, 0)],
            vec![note(0, 2, 6, 0), note(0, 3, 5, 0)],
            vec![note(0, 2, 5, 1), note(0, 3, 5, 0)],
        ]
    );
    for grip in &grips {
        assert_eq!(grip.len(), 2);
        assert_ne!(grip[0].string, grip[1].string);
    }
    assert_eq!(get_playable_fingerings_for_line(&[first.clone()]).len(), 3);
    assert_eq!(get_playable_fingerings_for_line(&[first.clone(), vec![]]), Vec::<Vec<BoxFingering>>::new());
    assert_eq!(
        get_playable_fingerings_for_line(&[vec![note(0, 1, 1, 0)], vec![note(0, 1, 3, 0)]]),
        Vec::<Vec<BoxFingering>>::new()
    );
    assert_eq!(get_playable_fingerings_for_line(&[]), vec![Vec::<BoxFingering>::new()]);
}

#[test]
fn chord_candidates_of_the_standard_guitar_use_distinct_strings() {
    let guitar = standard_guitar();
    let options = convert_beat_to_possible_fingerings(&guitar, 0, &[Pitch::E3, Pitch::G3]);
    let grips = get_playable_fingerings_for_line(&options);
    assert!(!grips.is_empty());
    for grip in &grips {
        assert_eq!(grip.len(), 2);
        assert_ne!(grip[0].string, grip[1].string);
        assert!(options[0].contains(&grip[0]));
        assert!(options[1].contains(&grip[1]));
    }
    let pairs = options[0]
        .iter()
        .flat_map(|first| options[1].iter().map(move |second| (first, second)))
        .filter(|(first, second)| first.string != second.string)
        .count();
    assert_eq!(grips.len(), pairs);
}

#[test]
fn combos_of_a_beat() {
    let guitar = two_string_guitar();
    assert_eq!(
        combos_for(&guitar, 4, &[Pitch::ASharpBFlat2]),
        vec![vec![note(4, 2, 2, 0)], vec![note(4, 2, 1, 1)]]
    );
    assert_eq!(
        combos_for(&guitar, 4, &[Pitch::E4, Pitch::ASharpBFlat2]),
        vec![
            vec![note(4, 1, 1, 0), note(4, 2, 2, 0)],
            vec![note(4, 1, 1, 0), note(4, 2, 1, 1)],
        ]
    );
    assert_eq!(combos_for(&guitar, 4, &[Pitch::E4, Pitch::F4]), Vec::<Vec<BoxFingering>>::new());
    assert_eq!(combos_for(&guitar, 4, &[Pitch::E4, Pitch::B9]), Vec::<Vec<BoxFingering>>::new());
}

#[test]
fn layers_hold_the_played_lines() {
    let guitar = one_string_guitar();
    let lines = vec![
        Line::Rest,
        Line::Playable(vec![Pitch::E2]),
        Line::MeasureBreak,
        Line::Playable(vec![]),
        Line::Playable(vec![Pitch::F2, Pitch::G2]),
        Line::Playable(vec![Pitch::F2]),
    ];
    let layers = build_layers(&guitar, &lines);
    assert_eq!(
        layers,
        vec![
            Layer { line_idx: 1, grips: vec![vec![note(1, 1, 1, 0)]] },
            Layer { line_idx: 4, grips: vec![] },
            Layer { line_idx: 5, grips: vec![vec![note(5, 1, 2, 0)], vec![note(5, 1, 1, 1)]] },
        ]
    );
    assert!(is_prior_idx(1, &layers[0]));
    assert!(is_prior_idx(2, &layers[0]));
    assert!(!is_prior_idx(0, &layers[0]));
    assert_eq!(get_playable_positions_for_all_notes_on_next_line(&layers, 0), Some(&layers[0].grips));
    assert_eq!(get_playable_positions_for_all_notes_on_next_line(&layers, 1), Some(&layers[1].grips));
    assert_eq!(get_playable_positions_for_all_notes_on_next_line(&layers, 4), Some(&layers[2].grips));
    assert_eq!(get_playable_positions_for_all_notes_on_next_line(&layers, 5), None);
    assert!(at_end(&layers[2].grips[0], 5));
    assert!(!at_end(&layers[2].grips[0], 4));
    assert!(!at_end(&vec![], 0));
}

#[test]
fn successors_lead_to_the_next_played_line() {
    let guitar = one_string_guitar();
    let lines = vec![
        Line::Playable(vec![Pitch::F2]),
        Line::Rest,
        Line::Playable(vec![Pitch::G2]),
    ];
    let layers = build_layers(&guitar, &lines);
    let from_index_finger = successors(&vec![note(0, 1, 1, 1)], &layers, 0);
    assert_eq!(
        from_index_finger,
        vec![
            (vec![note(2, 1, 4, 0)], 3 + 1 + 3),
            (vec![note(2, 1, 3, 1)], 2 + 3),
            (vec![note(2, 1, 2, 2)], 1 + 3),
            (vec![note(2, 1, 1, 3)], 3),
        ]
    );
    assert_eq!(successors(&vec![note(2, 1, 1, 3)], &layers, 0), vec![]);
    assert_eq!(successors(&vec![], &layers, 0), vec![]);
}

#[test]
fn successors_leave_out_what_the_hand_cannot_reach() {
    let layers = vec![
        Layer { line_idx: 0, grips: vec![vec![note(0, 1, 1, 1)]] },
        Layer {
            line_idx: 1,
            grips: vec![
                vec![note(1, 1, 3, 1), note(1, 2, 4, 3)],
                vec![note(1, 1, 3, 1), note(1, 2, 3, 3)],
            ],
        },
    ];
    assert_eq!(
        successors(&layers[0].grips[0], &layers, 0),
        vec![(vec![note(1, 1, 3, 1), note(1, 2, 3, 3)], 12 + 2 + 4)]
    );
}

#[test]
fn best_paths_come_by_ascending_cost() {
    let guitar = one_string_guitar();
    let lines = vec![Line::Playable(vec![Pitch::C3]), Line::Playable(vec![Pitch::C3])];
    let layers = build_layers(&guitar, &lines);
    let best = find_best_paths(&layers, 0, 6);
    let costs: Vec<u128> = best.iter().map(|(_, cost)| *cost).collect();
    assert_eq!(costs, vec![8, 8, 8, 8, 10, 10]);
    let starts: Vec<u8> = best.iter().map(|(path, _)| path[0][0].finger).collect();
    assert_eq!(starts, vec![1, 2, 3, 4, 0, 5]);
    for (path, _) in &best[..4] {
        assert_eq!(path.len(), 2);
        assert_eq!(path[0][0].finger, path[1][0].finger);
        assert_eq!(path[0][0].position, path[1][0].position);
        assert_eq!(path[1][0].line_idx, 1);
    }
    assert_eq!(find_best_paths(&layers, 0, 2), best[..2].to_vec());
    assert_eq!(find_best_paths(&layers, 0, 200), best);
    assert_eq!(find_best_paths(&layers, 0, 0), vec![]);
    assert_eq!(find_best_paths(&[], 0, 3), vec![]);
}

#[test]
fn equal_starts_give_one_path() {
    let grip = vec![note(0, 1, 1, 1)];
    let layers = vec![Layer { line_idx: 0, grips: vec![grip.clone(), grip.clone()] }];
    assert_eq!(find_best_paths(&layers, 0, 5), vec![(vec![grip], 0)]);
}

#[test]
fn a_path_becomes_fingerings() {
    let lines = vec![
        Line::Playable(vec![Pitch::F2]),
        Line::Rest,
        Line::Playable(vec![Pitch::E4, Pitch::ASharpBFlat2]),
        Line::MeasureBreak,
    ];
    let path = vec![vec![note(0, 6, 1, 1)], vec![note(2, 1, 1, 0), note(2, 5, 1, 1)]];
    let string = |number: u8| StringNumber::new(number).unwrap();
    assert_eq!(
        convert_to_pitch_fingering(&path, &lines),
        vec![
            Line::Playable(vec![Fingering { pitch: Pitch::F2, string_number: string(6), fret: 1 }]),
            Line::Rest,
            Line::Playable(vec![
                Fingering { pitch: Pitch::E4, string_number: string(1), fret: 0 },
                Fingering { pitch: Pitch::ASharpBFlat2, string_number: string(5), fret: 1 },
            ]),
            Line::MeasureBreak,
        ]
    );
    assert_eq!(
        convert_playable_to_pitch_fingerings(&path, &[Pitch::F2], 1),
        Line::Playable(vec![])
    );
    assert_eq!(
        convert_playable_to_pitch_fingerings(&vec![vec![note(0, 0, 1, 1), note(0, 13, 1, 1), note(0, 2, 0, 0)]], &[Pitch::F2, Pitch::F2, Pitch::F2], 0),
        Line::Playable(vec![])
    );
}

#[test]
fn arrangements_keep_rests_and_breaks() {
    let guitar = two_string_guitar();
    let lines = vec![
        Line::Rest,
        Line::Playable(vec![Pitch::A2]),
        Line::MeasureBreak,
        Line::Playable(vec![Pitch::E4, Pitch::ASharpBFlat2]),
        Line::Rest,
        Line::Playable(vec![Pitch::A2]),
        Line::Rest,
    ];
    let arrangements = create_arrangements(&guitar, &lines, 4, 0).unwrap();
    let string = |number: u8| StringNumber::new(number).unwrap();
    assert_eq!(
        arrangements,
        vec![Arrangement {
            lines: vec![
                Line::Rest,
                Line::Playable(vec![Fingering {
                    pitch: Pitch::A2,
                    string_number: string(2),
                    fret: 0
                }]),
                Line::MeasureBreak,
                Line::Playable(vec![
                    Fingering { pitch: Pitch::E4, string_number: string(1), fret: 0 },
                    Fingering { pitch: Pitch::ASharpBFlat2, string_number: string(2), fret: 1 },
                ]),
                Line::Rest,
                Line::Playable(vec![Fingering {
                    pitch: Pitch::A2,
                    string_number: string(2),
                    fret: 0
                }]),
                Line::Rest,
            ],
            cost: 25,
            max_fret_span: 0,
        }]
    );
}

#[test]
fn open_string_cost_is_charged_for_open_grips() {
    let guitar = two_string_guitar();
    let lines = vec![
        Line::Playable(vec![Pitch::A2]),
        Line::Playable(vec![Pitch::E4, Pitch::ASharpBFlat2]),
        Line::Playable(vec![Pitch::A2]),
    ];
    let arrangements = create_arrangements(&guitar, &lines, 1, 1000).unwrap();
    assert_eq!(arrangements.len(), 1);
    assert_eq!(arrangements[0].cost, 12 + 1 + 12 + 1000);
}

#[test]
fn a_chord_outside_one_box_blocks_every_path() {
    let guitar = two_string_guitar();
    let lines = vec![
        Line::Playable(vec![Pitch::A2]),
        Line::Playable(vec![Pitch::E4, Pitch::F3]),
        Line::Playable(vec![Pitch::A2]),
    ];
    let layers = build_layers(&guitar, &lines);
    assert_eq!(layers[1].grips.len(), 6);
    for grip in &layers[1].grips {
        assert!(!all_fingerings_in_same_box(grip));
        assert_eq!(score_beat_transition(&layers[0].grips[0], grip), UNPLAYABLE);
        assert_eq!(score_beat_transition(grip, &layers[2].grips[0]), UNPLAYABLE);
    }
    assert_eq!(create_arrangements(&guitar, &lines, 5, 0).unwrap(), vec![]);
}

#[test]
fn every_unplayable_pitch_is_reported() {
    let guitar = standard_guitar();
    let lines = vec![
        Line::Playable(vec![Pitch::G3]),
        Line::Playable(vec![Pitch::B9]),
        Line::Rest,
        Line::Playable(vec![Pitch::E2, Pitch::D2, Pitch::A0]),
    ];
    let error = create_arrangements(&guitar, &lines, 1, 0).unwrap_err();
    assert_eq!(
        error,
        ArrangementError::UnplayablePitch(vec![
            InvalidInput { value: "B9".to_owned(), line_number: 2 },
            InvalidInput { value: "D2".to_owned(), line_number: 4 },
            InvalidInput { value: "A0".to_owned(), line_number: 4 },
        ])
    );
    assert_eq!(
        error.message(),
        "Pitch B9 on line 2 cannot be played on any strings of the configured guitar.\n\
        Pitch D2 on line 4 cannot be played on any strings of the configured guitar.\n\
        Pitch A0 on line 4 cannot be played on any strings of the configured guitar."
    );
}

#[test]
fn the_search_gives_the_same_answer_every_time() {
    let guitar = standard_guitar();
    let lines = parse_pitches("E2\nA2\nD3\n\nG3\nB3\n---\nE4".to_owned()).unwrap();
    let first = create_arrangements(&guitar, &lines, 4, 3).unwrap();
    let second = create_arrangements(&guitar, &lines, 4, 3).unwrap();
    assert_eq!(first, second);
    assert!(!first.is_empty());
}

#[test]
fn more_arrangements_only_add_costlier_ones() {
    let guitar = standard_guitar();
    let lines = parse_pitches("C3\nE3\nG3\nC4".to_owned()).unwrap();
    let all = create_arrangements(&guitar, &lines, 255, 0).unwrap();
    assert!(all.len() > 3);
    for count in 0..=all.len() {
        let some = create_arrangements(&guitar, &lines, count as u8, 0).unwrap();
        assert_eq!(some, all[..count].to_vec());
    }
    for pair in all.windows(2) {
        assert!(pair[0].cost <= pair[1].cost);
    }
}

#[test]
fn a_composition_without_sound_has_no_arrangement() {
    let guitar = standard_guitar();
    let lines = parse_pitches("\n\n\n---\n \n".to_owned()).unwrap();
    assert_eq!(create_arrangements(&guitar, &lines, 2, 0).unwrap(), vec![]);
    assert_eq!(create_arrangements(&guitar, &vec![], 2, 0).unwrap(), vec![]);
}

#[test]
fn a_single_beat_is_arranged_once_for_each_grip() {
    let guitar = one_string_guitar();
    let lines = vec![Line::Playable(vec![Pitch::F2])];
    let arrangements = create_arrangements(&guitar, &lines, 9, 0).unwrap();
    assert_eq!(arrangements.len(), 2);
    for arrangement in &arrangements {
        assert_eq!(arrangement.cost, 0);
        assert_eq!(arrangement.max_fret_span, 0);
    }
}

#[test]
fn max_fret_span_is_the_largest_of_the_lines() {
    let guitar = standard_guitar();
    let lines = vec![
        Line::Playable(vec![Pitch::E2]),
        Line::Playable(vec![Pitch::G2, Pitch::D3, Pitch::G3]),
    ];
    let arrangements = create_arrangements(&guitar, &lines, 1, 0).unwrap();
    assert_eq!(arrangements.len(), 1);
    let frets: Vec<u8> = match &arrangements[0].lines[1] {
        Line::Playable(fingerings) => fingerings.iter().map(|fingering| fingering.fret).collect(),
        _ => unreachable!(),
    };
    let pressed: Vec<u8> = frets.iter().copied().filter(|fret| *fret != 0).collect();
    let span = match (pressed.iter().max(), pressed.iter().min()) {
        (Some(highest), Some(lowest)) => highest - lowest,
        _ => 0,
    };
    assert_eq!(arrangements[0].max_fret_span(), span);
}
