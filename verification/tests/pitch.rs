use guitar_tab_generator::pitch::{Pitch, NUM_PITCHES};
use guitar_tab_generator::text::decimal_string;

#[test]
fn pitch_index_is_zero_based_and_ascending() {
    assert_eq!(Pitch::A0.index(), 0);
    assert_eq!(Pitch::ASharpBFlat0.index(), 1);
    assert_eq!(Pitch::C1.index(), 3);
    assert_eq!(Pitch::E2.index(), 19);
    assert_eq!(Pitch::B9.index(), NUM_PITCHES - 1);
    assert_eq!(Pitch::lowest(), Pitch::A0);
    assert_eq!(Pitch::highest(), Pitch::B9);
    for i in 1..NUM_PITCHES {
        assert!(Pitch::from_index(i - 1).unwrap() < Pitch::from_index(i).unwrap());
    }
}

#[test]
fn pitch_index_round_trip() {
    for i in 0..NUM_PITCHES {
        assert_eq!(Pitch::from_index(i).unwrap().index(), i);
    }
    assert_eq!(Pitch::from_index(NUM_PITCHES), None);
    assert_eq!(Pitch::from_index(usize::MAX), None);
}

#[test]
fn pitch_distance_is_signed() {
    assert_eq!(Pitch::B9.distance(&Pitch::E2), 91);
    assert_eq!(Pitch::E2.distance(&Pitch::B9), -91);
    assert_eq!(Pitch::B9.distance(&Pitch::G9), 4);
    assert_eq!(Pitch::G3.distance(&Pitch::G3), 0);
    assert_eq!(Pitch::A0.distance(&Pitch::B9), -110);
}

#[test]
fn pitch_text_round_trip() {
    for i in 0..NUM_PITCHES {
        let pitch = Pitch::from_index(i).unwrap();
        assert_eq!(Pitch::from_text(&pitch.plain_text()), Some(pitch));
    }
}

#[test]
fn pitch_plain_text() {
    assert_eq!(Pitch::A0.plain_text(), "A0");
    assert_eq!(Pitch::E2.plain_text(), "E2");
    assert_eq!(Pitch::CSharpDFlat4.plain_text(), "C#4");
    assert_eq!(Pitch::ASharpBFlat2.plain_text(), "A#2");
    assert_eq!(Pitch::B9.plain_text(), "B9");
}

#[test]
fn pitch_from_text() {
    assert_eq!(Pitch::from_text("E2"), Some(Pitch::E2));
    assert_eq!(Pitch::from_text("e2"), Some(Pitch::E2));
    assert_eq!(Pitch::from_text("D#2"), Some(Pitch::DSharpEFlat2));
    assert_eq!(Pitch::from_text("D\u{266f}2"), Some(Pitch::DSharpEFlat2));
    assert_eq!(Pitch::from_text("Eb2"), Some(Pitch::DSharpEFlat2));
    assert_eq!(Pitch::from_text("E\u{266d}2"), Some(Pitch::DSharpEFlat2));
    assert_eq!(Pitch::from_text("bB2"), Some(Pitch::ASharpBFlat2));
    assert_eq!(Pitch::from_text("A0"), Some(Pitch::A0));
    assert_eq!(Pitch::from_text("B9"), Some(Pitch::B9));
    assert_eq!(Pitch::from_text("Ab0"), None);
    assert_eq!(Pitch::from_text("G0"), None);
    assert_eq!(Pitch::from_text("Fb3"), None);
    assert_eq!(Pitch::from_text("Cb3"), None);
    assert_eq!(Pitch::from_text("E#3"), None);
    assert_eq!(Pitch::from_text("B#3"), None);
    assert_eq!(Pitch::from_text("A|3"), None);
    assert_eq!(Pitch::from_text("H3"), None);
    assert_eq!(Pitch::from_text("A"), None);
    assert_eq!(Pitch::from_text("A10"), None);
    assert_eq!(Pitch::from_text(""), None);
}

#[test]
fn decimal_numerals() {
    assert_eq!(decimal_string(0), "0");
    assert_eq!(decimal_string(7), "7");
    assert_eq!(decimal_string(10), "10");
    assert_eq!(decimal_string(91), "91");
    assert_eq!(decimal_string(65535), "65535");
}
