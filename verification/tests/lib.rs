use guitar_tab_generator::arrangement::ArrangementError;
use guitar_tab_generator::composition::InvalidInput;
use guitar_tab_generator::guitar::GuitarError;
use guitar_tab_generator::{wrapper_create_arrangements, Composition, CompositionError, CompositionInput};

#[test]
fn valid_input() {
    let composition_input = CompositionInput {
        pitches: "E2\nA2\nD3\n\nG3\nB3\n---\nE4".to_owned(),
        tuning_name: "standard".to_string(),
        guitar_num_frets: 20,
        guitar_capo: 0,
        num_arrangements: 1,
        width: 30,
        padding: 2,
        playback_index: Some(3),
        open_string_cost: 0,
    };

    let compositions = wrapper_create_arrangements(composition_input).unwrap();
    let expected_composition = Composition {
        tab: "           ▼\n--------------------|--0------\n-----------------0--|---------\n--------------0-----|---------\n--------0-----------|---------\n-----0--------------|---------\n--0-----------------|---------\n           ▲\n".to_owned(),
        pitches: vec![
            vec!["E2".to_owned()],
            vec!["A2".to_owned()],
            vec!["D3".to_owned()],
            vec!["REST".to_owned()],
            vec!["G3".to_owned()],
            vec!["B3".to_owned()],
            vec!["MEASURE_BREAK".to_owned()],
            vec!["E4".to_owned()]
            ],
        max_fret_span: 0,
    };

    assert_eq!(compositions[0], expected_composition);
}

#[test]
fn invalid_input() {
    let composition_input = CompositionInput {
        pitches: "E2\nA2\nD3\n???\nG3\nB3\nE4".to_owned(),
        tuning_name: "standard".to_string(),
        guitar_num_frets: 20,
        guitar_capo: 0,
        num_arrangements: 1,
        width: 20,
        padding: 2,
        playback_index: Some(3),
        open_string_cost: 0,
    };
    assert!(wrapper_create_arrangements(composition_input).is_err());
}

fn request(pitches: &str) -> CompositionInput {
    CompositionInput {
        pitches: pitches.to_owned(),
        tuning_name: "standard".to_owned(),
        guitar_num_frets: 18,
        guitar_capo: 0,
        num_arrangements: 2,
        width: 40,
        padding: 1,
        playback_index: None,
        open_string_cost: 0,
    }
}

#[test]
fn the_first_failing_step_gives_the_error() {
    let unparsable = CompositionInput { guitar_num_frets: 99, ..request("E2\n?") };
    let error = wrapper_create_arrangements(unparsable).unwrap_err();
    assert_eq!(error.message(), "Input '?' on line 2 could not be parsed into a pitch.");
    assert!(matches!(error, CompositionError::Parse(_)));

    let too_many_frets = CompositionInput { guitar_num_frets: 99, ..request("E2\nB9") };
    let error = wrapper_create_arrangements(too_many_frets).unwrap_err();
    assert_eq!(
        error,
        CompositionError::Guitar(GuitarError::FretLimitExceeded { num_frets: 99 })
    );
    assert_eq!(error.message(), "Too many frets (99). The maximum is 30.");

    let capo_too_high = CompositionInput { guitar_capo: 19, ..request("E2\nB9") };
    let error = wrapper_create_arrangements(capo_too_high).unwrap_err();
    assert_eq!(
        error,
        CompositionError::Guitar(GuitarError::CapoTooHigh { capo: 19, num_frets: 18 })
    );
    assert_eq!(
        error.message(),
        "The capo cannot sit at fret 19 of an instrument with 18 frets."
    );

    let error = wrapper_create_arrangements(request("E2\nB9")).unwrap_err();
    assert_eq!(
        error,
        CompositionError::Arrangement(ArrangementError::UnplayablePitch(vec![InvalidInput {
            value: "B9".to_owned(),
            line_number: 2
        }]))
    );
    assert_eq!(
        error.message(),
        "Pitch B9 on line 2 cannot be played on any strings of the configured guitar."
    );
}

#[test]
fn names_begin_at_the_first_playable_line() {
    let compositions = wrapper_create_arrangements(request("\n---\nC#4 G3\n\nbb2")).unwrap();
    assert_eq!(compositions.len(), 2);
    for composition in &compositions {
        assert_eq!(
            composition.pitches,
            vec![
                vec!["C#4".to_owned(), "G3".to_owned()],
                vec!["REST".to_owned()],
                vec!["A#2".to_owned()],
            ]
        );
    }
}

#[test]
fn a_composition_of_rests_has_no_arrangement() {
    assert_eq!(wrapper_create_arrangements(request("\n\n\n---\n \n")).unwrap(), vec![]);
    assert_eq!(wrapper_create_arrangements(request("")).unwrap(), vec![]);
}

#[test]
fn the_capo_raises_the_open_strings() {
    let open = CompositionInput { num_arrangements: 1, width: 4, ..request("F2") };
    let with_capo = CompositionInput { guitar_capo: 1, ..open.clone() };
    assert_eq!(wrapper_create_arrangements(open).unwrap()[0].tab, "----\n----\n----\n----\n----\n-1--\n");
    assert_eq!(
        wrapper_create_arrangements(with_capo).unwrap()[0].tab,
        "----\n----\n----\n----\n----\n-0--\n"
    );
    let below = CompositionInput { guitar_capo: 1, ..request("E2") };
    assert!(matches!(
        wrapper_create_arrangements(below).unwrap_err(),
        CompositionError::Arrangement(_)
    ));
}

#[test]
fn named_tunings_change_the_open_strings() {
    let drop_d = CompositionInput {
        tuning_name: "dropd".to_owned(),
        num_arrangements: 1,
        width: 3,
        ..request("D2")
    };
    assert_eq!(
        wrapper_create_arrangements(drop_d).unwrap()[0].tab,
        "---\n---\n---\n---\n---\n-0-\n"
    );
    assert!(wrapper_create_arrangements(request("D2")).is_err());
    let unknown = CompositionInput { tuning_name: "no such tuning".to_owned(), ..request("D2") };
    assert!(wrapper_create_arrangements(unknown).is_err());
}
