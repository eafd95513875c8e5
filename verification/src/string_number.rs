//! Numbers that name the strings of an instrument.

use crate::text::{decimal, decimal_string, push_decimal};
use vstd::prelude::*;
use vstd::string::*;

verus! {

/// The highest string number an instrument can have.
pub const MAX_NUM_STRINGS: u8 = 12;

/// Why a number does not name a string.
#[derive(Clone, Copy, Debug, PartialEq, Eq, Structural)]
pub enum InvalidStringNumber {
    /// The number is zero; strings are counted from one.
    Zero,
    /// The number, held here, lies above [`MAX_NUM_STRINGS`].
    TooHigh(u8),
}

/// The number of one string of an instrument, from 1 to [`MAX_NUM_STRINGS`].
#[derive(Clone, Copy, Debug, Hash, PartialEq, Eq, Structural, PartialOrd, Ord)]
pub struct StringNumber(u8);

impl DeepView for StringNumber {
    type V = StringNumber;

    open spec fn deep_view(&self) -> StringNumber {
        *self
    }
}

/// What [`StringNumber::new`] answers for the number `n`.
pub open spec fn string_number_check(n: u8) -> Option<InvalidStringNumber> {
    if n == 0 {
        Some(InvalidStringNumber::Zero)
    } else if n > MAX_NUM_STRINGS {
        Some(InvalidStringNumber::TooHigh(n))
    } else {
        None
    }
}

impl StringNumber {
    #[verifier::type_invariant]
    spec fn in_range(self) -> bool {
        1 <= self.0 <= MAX_NUM_STRINGS
    }

    /// The number itself.
    pub closed spec fn spec_get(self) -> u8 {
        self.0
    }

    /// The string number that holds `number`.
    pub closed spec fn spec_from(number: u8) -> StringNumber {
        StringNumber(number)
    }

    /// Validates `string_number`: zero and numbers above [`MAX_NUM_STRINGS`] are
    /// refused, every other number becomes a `StringNumber` that holds it.
    pub fn new(string_number: u8) -> (r: Result<StringNumber, InvalidStringNumber>)
        ensures
            match r {
                Ok(s) => string_number_check(string_number) is None && s
                    == StringNumber::spec_from(string_number),
                Err(e) => string_number_check(string_number) == Some(e),
            },
    {
        if string_number == 0 {
            Err(InvalidStringNumber::Zero)
        } else if string_number > MAX_NUM_STRINGS {
            Err(InvalidStringNumber::TooHigh(string_number))
        } else {
            Ok(StringNumber(string_number))
        }
    }

    /// The number itself, which lies between 1 and [`MAX_NUM_STRINGS`].
    pub fn get(&self) -> (n: u8)
        ensures
            n == self.spec_get(),
            1 <= n <= MAX_NUM_STRINGS,
    {
        proof {
            use_type_invariant(self);
        }
        self.0
    }

    /// The text that `label` writes for a string numbered `n`.
    pub open spec fn spec_label(n: u8) -> Seq<char> {
        if n == 1 {
            "1_e"@
        } else if n == 2 {
            "2_B"@
        } else if n == 3 {
            "3_G"@
        } else if n == 4 {
            "4_D"@
        } else if n == 5 {
            "5_A"@
        } else if n == 6 {
            "6_E"@
        } else {
            decimal(n as nat)
        }
    }

    /// A short label of the string: for the six strings of a guitar the number
    /// with the letter of its usual open pitch, for the others the number alone.
    pub fn label(&self) -> (s: String)
        ensures
            s@ == Self::spec_label(self.spec_get()),
    {
        let n: u8 = self.0;
        if n == 1 {
            "1_e".to_owned()
        } else if n == 2 {
            "2_B".to_owned()
        } else if n == 3 {
            "3_G".to_owned()
        } else if n == 4 {
            "4_D".to_owned()
        } else if n == 5 {
            "5_A".to_owned()
        } else if n == 6 {
            "6_E".to_owned()
        } else {
            decimal_string(n as usize)
        }
    }
}

/// A string number is known by the number it holds.
pub broadcast proof fn lemma_string_number_holds(s: StringNumber)
    ensures
        #[trigger] StringNumber::spec_from(s.spec_get()) == s,
{
}

/// The string number made from a number holds that number.
pub broadcast proof fn lemma_string_number_from(number: u8)
    ensures
        #[trigger] StringNumber::spec_from(number).spec_get() == number,
{
}

impl InvalidStringNumber {
    /// The text of the message for this error.
    pub open spec fn spec_message(self) -> Seq<char> {
        match self {
            InvalidStringNumber::Zero => "A guitar cannot have a string number of zero (0). Guitar string numbering commences at one (1)."@,
            InvalidStringNumber::TooHigh(n) => "The string number ("@ + decimal(n as nat)
                + ") is too high. The maximum is "@ + decimal(MAX_NUM_STRINGS as nat) + "."@,
        }
    }

    /// The message for this error.
    pub fn message(&self) -> (s: String)
        ensures
            s@ == self.spec_message(),
    {
        match self {
            InvalidStringNumber::Zero => "A guitar cannot have a string number of zero (0). Guitar string numbering commences at one (1).".to_owned(),
            InvalidStringNumber::TooHigh(n) => {
                let mut s = "The string number (".to_owned();
                push_decimal(&mut s, *n as usize);
                s.append(") is too high. The maximum is ");
                push_decimal(&mut s, MAX_NUM_STRINGS as usize);
                s.append(".");
                s
            },
        }
    }
}

} // verus!
