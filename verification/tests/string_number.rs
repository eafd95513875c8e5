use guitar_tab_generator::string_number::{StringNumber, InvalidStringNumber};

#[test]
fn string_number_valid_simple() {
    assert!(StringNumber::new(1).is_ok());
}

#[test]
fn invalid_zero() {
    let expected_error_string = "A guitar cannot have a string number of zero (0). Guitar string numbering commences at one (1).";
    let error = StringNumber::new(0).unwrap_err().message();
    assert_eq!(format!("{error}"), expected_error_string);
}

#[test]
fn invalid_too_high() {
    let expected_error_string = "The string number (15) is too high. The maximum is 12.";
    let error = StringNumber::new(15).unwrap_err().message();
    assert_eq!(format!("{error}"), expected_error_string);
}

#[test]
fn string_number_bounds() {
    assert_eq!(StringNumber::new(0), Err(InvalidStringNumber::Zero));
    assert_eq!(StringNumber::new(13), Err(InvalidStringNumber::TooHigh(13)));
    assert_eq!(StringNumber::new(255), Err(InvalidStringNumber::TooHigh(255)));
    for number in 1..=12u8 {
        assert_eq!(StringNumber::new(number).unwrap().get(), number);
    }
}

#[test]
fn string_number_labels() {
    let labels = ["1_e", "2_B", "3_G", "4_D", "5_A", "6_E", "7", "8", "9", "10", "11", "12"];
    for number in 1..=12u8 {
        assert_eq!(StringNumber::new(number).unwrap().label(), labels[number as usize - 1]);
    }
}

#[test]
fn string_numbers_are_ordered() {
    assert!(StringNumber::new(1).unwrap() < StringNumber::new(2).unwrap());
    assert!(StringNumber::new(12).unwrap() > StringNumber::new(6).unwrap());
}
