use guitar_tab_generator::composition::{
    average_non_zero_fret, calc_avg_non_zero_fret, calc_fret_span, non_zero_fret_span,
    BeatFingeringCombo, FretAverage,
};
use guitar_tab_generator::guitar::PitchFingering;
use guitar_tab_generator::pitch::Pitch;
use guitar_tab_generator::string_number::StringNumber;
use ordered_float::OrderedFloat;

fn mean(average: Option<FretAverage>) -> Option<OrderedFloat<f32>> {
    average.map(|average| OrderedFloat(average.sum as f32 / average.count as f32))
}

#[test]
fn composition_simple() {
    let pitch_fingering_1 = PitchFingering {
        pitch: Pitch::A0,
        string_number: StringNumber::new(1).unwrap(),
        fret: 2,
    };

    let BeatFingeringCombo {
        fingering_combo,
        avg_non_zero_fret,
        non_zero_fret_span,
    } = BeatFingeringCombo::new(vec![&pitch_fingering_1]);

    assert_eq!(fingering_combo, vec![pitch_fingering_1]);
    assert_eq!(mean(avg_non_zero_fret), Some(OrderedFloat(2.0)));
    assert_eq!(non_zero_fret_span, 0);

    let fingering_1 = PitchFingering {
        pitch: Pitch::B6,
        string_number: StringNumber::new(2).unwrap(),
        fret: 3,
    };

    assert_eq!(calc_fret_span(vec![&fingering_1]).unwrap(), 0);
}

#[test]
fn composition_complex() {
    let pitch_fingering_1 = PitchFingering {
        pitch: Pitch::A0,
        string_number: StringNumber::new(1).unwrap(),
        fret: 2,
    };
    let pitch_fingering_2 = PitchFingering {
        pitch: Pitch::B1,
        string_number: StringNumber::new(2).unwrap(),
        fret: 5,
    };
    let pitch_fingering_3 = PitchFingering {
        pitch: Pitch::C2,
        string_number: StringNumber::new(3).unwrap(),
        fret: 0,
    };
    let pitch_fingering_4 = PitchFingering {
        pitch: Pitch::D3,
        string_number: StringNumber::new(4).unwrap(),
        fret: 1,
    };

    let BeatFingeringCombo {
        fingering_combo,
        avg_non_zero_fret,
        non_zero_fret_span,
    } = BeatFingeringCombo::new(vec![
        &pitch_fingering_1,
        &pitch_fingering_2,
        &pitch_fingering_3,
        &pitch_fingering_4,
    ]);

    assert_eq!(
        fingering_combo,
        vec![
            pitch_fingering_1,
            pitch_fingering_2,
            pitch_fingering_3,
            pitch_fingering_4
        ]
    );
    assert_eq!(mean(avg_non_zero_fret), Some(OrderedFloat(8.0 / 3.0)));
    assert_eq!(avg_non_zero_fret, Some(FretAverage { sum: 8, count: 3 }));
    assert_eq!(non_zero_fret_span, 4);

    let fingering_1 = PitchFingering {
        pitch: Pitch::CSharpDFlat2,
        string_number: StringNumber::new(1).unwrap(),
        fret: 1,
    };
    let fingering_2 = PitchFingering {
        pitch: Pitch::F4,
        string_number: StringNumber::new(2).unwrap(),
        fret: 3,
    };
    let fingering_3 = PitchFingering {
        pitch: Pitch::A5,
        string_number: StringNumber::new(4).unwrap(),
        fret: 4,
    };
    let fingering_4 = PitchFingering {
        pitch: Pitch::DSharpEFlat6,
        string_number: StringNumber::new(11).unwrap(),
        fret: 0,
    };
    let beat_fingering_option: Vec<&PitchFingering> =
        vec![&fingering_1, &fingering_2, &fingering_3, &fingering_4];

    assert_eq!(calc_fret_span(beat_fingering_option).unwrap(), 3);
}

#[test]
fn single_non_zero_fret() {
    let pitch_fingering_1 = PitchFingering {
        pitch: Pitch::A0,
        string_number: StringNumber::new(1).unwrap(),
        fret: 2,
    };

    assert_eq!(
        mean(calc_avg_non_zero_fret(&[&pitch_fingering_1])),
        Some(OrderedFloat(2.0))
    );
}

#[test]
fn single_zero_fret() {
    let pitch_fingering_1 = PitchFingering {
        pitch: Pitch::A0,
        string_number: StringNumber::new(1).unwrap(),
        fret: 0,
    };

    assert_eq!(calc_avg_non_zero_fret(&[&pitch_fingering_1]), None);
}

#[test]
fn multiple_zero_frets() {
    let pitch_fingering_1 = PitchFingering {
        pitch: Pitch::A0,
        string_number: StringNumber::new(1).unwrap(),
        fret: 0,
    };
    let pitch_fingering_2 = PitchFingering {
        pitch: Pitch::B2,
        string_number: StringNumber::new(2).unwrap(),
        fret: 0,
    };

    assert_eq!(
        calc_avg_non_zero_fret(&[&pitch_fingering_1, &pitch_fingering_2]),
        None
    );
}

#[test]
fn multiple_mixed_frets() {
    let pitch_fingering_1 = PitchFingering {
        pitch: Pitch::A0,
        string_number: StringNumber::new(1).unwrap(),
        fret: 2,
    };
    let pitch_fingering_2 = PitchFingering {
        pitch: Pitch::B1,
        string_number: StringNumber::new(2).unwrap(),
        fret: 5,
    };
    let pitch_fingering_3 = PitchFingering {
        pitch: Pitch::C2,
        string_number: StringNumber::new(3).unwrap(),
        fret: 0,
    };
    let pitch_fingering_4 = PitchFingering {
        pitch: Pitch::D3,
        string_number: StringNumber::new(4).unwrap(),
        fret: 1,
    };

    assert_eq!(
        mean(calc_avg_non_zero_fret(&[
            &pitch_fingering_1,
            &pitch_fingering_2,
            &pitch_fingering_3,
            &pitch_fingering_4,
        ])),
        Some(OrderedFloat(8.0 / 3.0))
    );
}

#[test]
fn composition_empty_input() {
    assert!(calc_fret_span(vec![]).is_none());
}

#[test]
fn open_strings_press_no_fret() {
    assert_eq!(non_zero_fret_span(&vec![0, 0, 0]), None);
    assert_eq!(average_non_zero_fret(&vec![0, 0, 0]), None);
    let combo = BeatFingeringCombo::new(vec![]);
    assert_eq!(combo.fingering_combo, vec![]);
    assert_eq!(combo.avg_non_zero_fret, None);
    assert_eq!(combo.non_zero_fret_span, 0);
}

#[test]
fn fret_measures_of_plain_frets() {
    assert_eq!(non_zero_fret_span(&vec![7, 0, 3, 12, 0]), Some(9));
    assert_eq!(non_zero_fret_span(&vec![255, 1]), Some(254));
    assert_eq!(
        average_non_zero_fret(&vec![7, 0, 3, 12, 0]),
        Some(FretAverage { sum: 22, count: 3 })
    );
    assert_eq!(
        average_non_zero_fret(&vec![255; 1000]),
        Some(FretAverage { sum: 255_000, count: 1000 })
    );
}
