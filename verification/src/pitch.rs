//! The pitch space: every semitone from `A0` up to `B9`, in ascending order.

use crate::text::digit_char;
use vstd::prelude::*;
use vstd::string::*;

verus! {

/// Number of pitches in the pitch space.
pub const NUM_PITCHES: usize = 111;

/// One semitone step of the pitch space. Variants are declared from the lowest
/// pitch to the highest, so the derived order is the order by [`Pitch::index`].
#[derive(Clone, Copy, Debug, PartialEq, Eq, Structural, Hash, PartialOrd, Ord)]
pub enum Pitch {
    A0, ASharpBFlat0, B0, C1, CSharpDFlat1, D1, DSharpEFlat1, E1, F1, FSharpGFlat1, G1, GSharpAFlat1,
    A1, ASharpBFlat1, B1, C2, CSharpDFlat2, D2, DSharpEFlat2, E2, F2, FSharpGFlat2, G2, GSharpAFlat2,
    A2, ASharpBFlat2, B2, C3, CSharpDFlat3, D3, DSharpEFlat3, E3, F3, FSharpGFlat3, G3, GSharpAFlat3,
    A3, ASharpBFlat3, B3, C4, CSharpDFlat4, D4, DSharpEFlat4, E4, F4, FSharpGFlat4, G4, GSharpAFlat4,
    A4, ASharpBFlat4, B4, C5, CSharpDFlat5, D5, DSharpEFlat5, E5, F5, FSharpGFlat5, G5, GSharpAFlat5,
    A5, ASharpBFlat5, B5, C6, CSharpDFlat6, D6, DSharpEFlat6, E6, F6, FSharpGFlat6, G6, GSharpAFlat6,
    A6, ASharpBFlat6, B6, C7, CSharpDFlat7, D7, DSharpEFlat7, E7, F7, FSharpGFlat7, G7, GSharpAFlat7,
    A7, ASharpBFlat7, B7, C8, CSharpDFlat8, D8, DSharpEFlat8, E8, F8, FSharpGFlat8, G8, GSharpAFlat8,
    A8, ASharpBFlat8, B8, C9, CSharpDFlat9, D9, DSharpEFlat9, E9, F9, FSharpGFlat9, G9, GSharpAFlat9,
    A9, ASharpBFlat9, B9,
}

impl DeepView for Pitch {
    type V = Pitch;

    open spec fn deep_view(&self) -> Pitch {
        *self
    }
}

/// The pitch that stands at position `i` of the pitch space, if there is one.
pub open spec fn pitch_at(i: int) -> Option<Pitch> {
    if i == 0 {
        Some(Pitch::A0)
    } else if i == 1 {
        Some(Pitch::ASharpBFlat0)
    } else if i == 2 {
        Some(Pitch::B0)
    } else if i == 3 {
        Some(Pitch::C1)
    } else if i == 4 {
        Some(Pitch::CSharpDFlat1)
    } else if i == 5 {
        Some(Pitch::D1)
    } else if i == 6 {
        Some(Pitch::DSharpEFlat1)
    } else if i == 7 {
        Some(Pitch::E1)
    } else if i == 8 {
        Some(Pitch::F1)
    } else if i == 9 {
        Some(Pitch::FSharpGFlat1)
    } else if i == 10 {
        Some(Pitch::G1)
    } else if i == 11 {
        Some(Pitch::GSharpAFlat1)
    } else if i == 12 {
        Some(Pitch::A1)
    } else if i == 13 {
        Some(Pitch::ASharpBFlat1)
    } else if i == 14 {
        Some(Pitch::B1)
    } else if i == 15 {
        Some(Pitch::C2)
    } else if i == 16 {
        Some(Pitch::CSharpDFlat2)
    } else if i == 17 {
        Some(Pitch::D2)
    } else if i == 18 {
        Some(Pitch::DSharpEFlat2)
    } else if i == 19 {
        Some(Pitch::E2)
    } else if i == 20 {
        Some(Pitch::F2)
    } else if i == 21 {
        Some(Pitch::FSharpGFlat2)
    } else if i == 22 {
        Some(Pitch::G2)
    } else if i == 23 {
        Some(Pitch::GSharpAFlat2)
    } else if i == 24 {
        Some(Pitch::A2)
    } else if i == 25 {
        Some(Pitch::ASharpBFlat2)
    } else if i == 26 {
        Some(Pitch::B2)
    } else if i == 27 {
        Some(Pitch::C3)
    } else if i == 28 {
        Some(Pitch::CSharpDFlat3)
    } else if i == 29 {
        Some(Pitch::D3)
    } else if i == 30 {
        Some(Pitch::DSharpEFlat3)
    } else if i == 31 {
        Some(Pitch::E3)
    } else if i == 32 {
        Some(Pitch::F3)
    } else if i == 33 {
        Some(Pitch::FSharpGFlat3)
    } else if i == 34 {
        Some(Pitch::G3)
    } else if i == 35 {
        Some(Pitch::GSharpAFlat3)
    } else if i == 36 {
        Some(Pitch::A3)
    } else if i == 37 {
        Some(Pitch::ASharpBFlat3)
    } else if i == 38 {
        Some(Pitch::B3)
    } else if i == 39 {
        Some(Pitch::C4)
    } else if i == 40 {
        Some(Pitch::CSharpDFlat4)
    } else if i == 41 {
        Some(Pitch::D4)
    } else if i == 42 {
        Some(Pitch::DSharpEFlat4)
    } else if i == 43 {
        Some(Pitch::E4)
    } else if i == 44 {
        Some(Pitch::F4)
    } else if i == 45 {
        Some(Pitch::FSharpGFlat4)
    } else if i == 46 {
        Some(Pitch::G4)
    } else if i == 47 {
        Some(Pitch::GSharpAFlat4)
    } else if i == 48 {
        Some(Pitch::A4)
    } else if i == 49 {
        Some(Pitch::ASharpBFlat4)
    } else if i == 50 {
        Some(Pitch::B4)
    } else if i == 51 {
        Some(Pitch::C5)
    } else if i == 52 {
        Some(Pitch::CSharpDFlat5)
    } else if i == 53 {
        Some(Pitch::D5)
    } else if i == 54 {
        Some(Pitch::DSharpEFlat5)
    } else if i == 55 {
        Some(Pitch::E5)
    } else if i == 56 {
        Some(Pitch::F5)
    } else if i == 57 {
        Some(Pitch::FSharpGFlat5)
    } else if i == 58 {
        Some(Pitch::G5)
    } else if i == 59 {
        Some(Pitch::GSharpAFlat5)
    } else if i == 60 {
        Some(Pitch::A5)
    } else if i == 61 {
        Some(Pitch::ASharpBFlat5)
    } else if i == 62 {
        Some(Pitch::B5)
    } else if i == 63 {
        Some(Pitch::C6)
    } else if i == 64 {
        Some(Pitch::CSharpDFlat6)
    } else if i == 65 {
        Some(Pitch::D6)
    } else if i == 66 {
        Some(Pitch::DSharpEFlat6)
    } else if i == 67 {
        Some(Pitch::E6)
    } else if i == 68 {
        Some(Pitch::F6)
    } else if i == 69 {
        Some(Pitch::FSharpGFlat6)
    } else if i == 70 {
        Some(Pitch::G6)
    } else if i == 71 {
        Some(Pitch::GSharpAFlat6)
    } else if i == 72 {
        Some(Pitch::A6)
    } else if i == 73 {
        Some(Pitch::ASharpBFlat6)
    } else if i == 74 {
        Some(Pitch::B6)
    } else if i == 75 {
        Some(Pitch::C7)
    } else if i == 76 {
        Some(Pitch::CSharpDFlat7)
    } else if i == 77 {
        Some(Pitch::D7)
    } else if i == 78 {
        Some(Pitch::DSharpEFlat7)
    } else if i == 79 {
        Some(Pitch::E7)
    } else if i == 80 {
        Some(Pitch::F7)
    } else if i == 81 {
        Some(Pitch::FSharpGFlat7)
    } else if i == 82 {
        Some(Pitch::G7)
    } else if i == 83 {
        Some(Pitch::GSharpAFlat7)
    } else if i == 84 {
        Some(Pitch::A7)
    } else if i == 85 {
        Some(Pitch::ASharpBFlat7)
    } else if i == 86 {
        Some(Pitch::B7)
    } else if i == 87 {
        Some(Pitch::C8)
    } else if i == 88 {
        Some(Pitch::CSharpDFlat8)
    } else if i == 89 {
        Some(Pitch::D8)
    } else if i == 90 {
        Some(Pitch::DSharpEFlat8)
    } else if i == 91 {
        Some(Pitch::E8)
    } else if i == 92 {
        Some(Pitch::F8)
    } else if i == 93 {
        Some(Pitch::FSharpGFlat8)
    } else if i == 94 {
        Some(Pitch::G8)
    } else if i == 95 {
        Some(Pitch::GSharpAFlat8)
    } else if i == 96 {
        Some(Pitch::A8)
    } else if i == 97 {
        Some(Pitch::ASharpBFlat8)
    } else if i == 98 {
        Some(Pitch::B8)
    } else if i == 99 {
        Some(Pitch::C9)
    } else if i == 100 {
        Some(Pitch::CSharpDFlat9)
    } else if i == 101 {
        Some(Pitch::D9)
    } else if i == 102 {
        Some(Pitch::DSharpEFlat9)
    } else if i == 103 {
        Some(Pitch::E9)
    } else if i == 104 {
        Some(Pitch::F9)
    } else if i == 105 {
        Some(Pitch::FSharpGFlat9)
    } else if i == 106 {
        Some(Pitch::G9)
    } else if i == 107 {
        Some(Pitch::GSharpAFlat9)
    } else if i == 108 {
        Some(Pitch::A9)
    } else if i == 109 {
        Some(Pitch::ASharpBFlat9)
    } else if i == 110 {
        Some(Pitch::B9)
    } else {
        None
    }
}

impl Pitch {
    /// Zero-based position of the pitch in the pitch space.
    pub open spec fn spec_index(self) -> nat {
        match self {
            Pitch::A0 => 0, Pitch::ASharpBFlat0 => 1, Pitch::B0 => 2, Pitch::C1 => 3,
            Pitch::CSharpDFlat1 => 4, Pitch::D1 => 5, Pitch::DSharpEFlat1 => 6, Pitch::E1 => 7,
            Pitch::F1 => 8, Pitch::FSharpGFlat1 => 9, Pitch::G1 => 10, Pitch::GSharpAFlat1 => 11,
            Pitch::A1 => 12, Pitch::ASharpBFlat1 => 13, Pitch::B1 => 14, Pitch::C2 => 15,
            Pitch::CSharpDFlat2 => 16, Pitch::D2 => 17, Pitch::DSharpEFlat2 => 18, Pitch::E2 => 19,
            Pitch::F2 => 20, Pitch::FSharpGFlat2 => 21, Pitch::G2 => 22, Pitch::GSharpAFlat2 => 23,
            Pitch::A2 => 24, Pitch::ASharpBFlat2 => 25, Pitch::B2 => 26, Pitch::C3 => 27,
            Pitch::CSharpDFlat3 => 28, Pitch::D3 => 29, Pitch::DSharpEFlat3 => 30, Pitch::E3 => 31,
            Pitch::F3 => 32, Pitch::FSharpGFlat3 => 33, Pitch::G3 => 34, Pitch::GSharpAFlat3 => 35,
            Pitch::A3 => 36, Pitch::ASharpBFlat3 => 37, Pitch::B3 => 38, Pitch::C4 => 39,
            Pitch::CSharpDFlat4 => 40, Pitch::D4 => 41, Pitch::DSharpEFlat4 => 42, Pitch::E4 => 43,
            Pitch::F4 => 44, Pitch::FSharpGFlat4 => 45, Pitch::G4 => 46, Pitch::GSharpAFlat4 => 47,
            Pitch::A4 => 48, Pitch::ASharpBFlat4 => 49, Pitch::B4 => 50, Pitch::C5 => 51,
            Pitch::CSharpDFlat5 => 52, Pitch::D5 => 53, Pitch::DSharpEFlat5 => 54, Pitch::E5 => 55,
            Pitch::F5 => 56, Pitch::FSharpGFlat5 => 57, Pitch::G5 => 58, Pitch::GSharpAFlat5 => 59,
            Pitch::A5 => 60, Pitch::ASharpBFlat5 => 61, Pitch::B5 => 62, Pitch::C6 => 63,
            Pitch::CSharpDFlat6 => 64, Pitch::D6 => 65, Pitch::DSharpEFlat6 => 66, Pitch::E6 => 67,
            Pitch::F6 => 68, Pitch::FSharpGFlat6 => 69, Pitch::G6 => 70, Pitch::GSharpAFlat6 => 71,
            Pitch::A6 => 72, Pitch::ASharpBFlat6 => 73, Pitch::B6 => 74, Pitch::C7 => 75,
            Pitch::CSharpDFlat7 => 76, Pitch::D7 => 77, Pitch::DSharpEFlat7 => 78, Pitch::E7 => 79,
            Pitch::F7 => 80, Pitch::FSharpGFlat7 => 81, Pitch::G7 => 82, Pitch::GSharpAFlat7 => 83,
            Pitch::A7 => 84, Pitch::ASharpBFlat7 => 85, Pitch::B7 => 86, Pitch::C8 => 87,
            Pitch::CSharpDFlat8 => 88, Pitch::D8 => 89, Pitch::DSharpEFlat8 => 90, Pitch::E8 => 91,
            Pitch::F8 => 92, Pitch::FSharpGFlat8 => 93, Pitch::G8 => 94, Pitch::GSharpAFlat8 => 95,
            Pitch::A8 => 96, Pitch::ASharpBFlat8 => 97, Pitch::B8 => 98, Pitch::C9 => 99,
            Pitch::CSharpDFlat9 => 100, Pitch::D9 => 101, Pitch::DSharpEFlat9 => 102, Pitch::E9 => 103,
            Pitch::F9 => 104, Pitch::FSharpGFlat9 => 105, Pitch::G9 => 106, Pitch::GSharpAFlat9 => 107,
            Pitch::A9 => 108, Pitch::ASharpBFlat9 => 109, Pitch::B9 => 110,
        }
    }

    /// Signed number of semitones from `other` up to `self`.
    pub open spec fn spec_distance(self, other: Pitch) -> int {
        self.spec_index() - other.spec_index()
    }

    /// Zero-based position of the pitch in the pitch space.
    pub fn index(&self) -> (i: usize)
        ensures
            i == self.spec_index(),
            i < NUM_PITCHES,
    {
        match self {
            Pitch::A0 => 0, Pitch::ASharpBFlat0 => 1, Pitch::B0 => 2, Pitch::C1 => 3,
            Pitch::CSharpDFlat1 => 4, Pitch::D1 => 5, Pitch::DSharpEFlat1 => 6, Pitch::E1 => 7,
            Pitch::F1 => 8, Pitch::FSharpGFlat1 => 9, Pitch::G1 => 10, Pitch::GSharpAFlat1 => 11,
            Pitch::A1 => 12, Pitch::ASharpBFlat1 => 13, Pitch::B1 => 14, Pitch::C2 => 15,
            Pitch::CSharpDFlat2 => 16, Pitch::D2 => 17, Pitch::DSharpEFlat2 => 18, Pitch::E2 => 19,
            Pitch::F2 => 20, Pitch::FSharpGFlat2 => 21, Pitch::G2 => 22, Pitch::GSharpAFlat2 => 23,
            Pitch::A2 => 24, Pitch::ASharpBFlat2 => 25, Pitch::B2 => 26, Pitch::C3 => 27,
            Pitch::CSharpDFlat3 => 28, Pitch::D3 => 29, Pitch::DSharpEFlat3 => 30, Pitch::E3 => 31,
            Pitch::F3 => 32, Pitch::FSharpGFlat3 => 33, Pitch::G3 => 34, Pitch::GSharpAFlat3 => 35,
            Pitch::A3 => 36, Pitch::ASharpBFlat3 => 37, Pitch::B3 => 38, Pitch::C4 => 39,
            Pitch::CSharpDFlat4 => 40, Pitch::D4 => 41, Pitch::DSharpEFlat4 => 42, Pitch::E4 => 43,
            Pitch::F4 => 44, Pitch::FSharpGFlat4 => 45, Pitch::G4 => 46, Pitch::GSharpAFlat4 => 47,
            Pitch::A4 => 48, Pitch::ASharpBFlat4 => 49, Pitch::B4 => 50, Pitch::C5 => 51,
            Pitch::CSharpDFlat5 => 52, Pitch::D5 => 53, Pitch::DSharpEFlat5 => 54, Pitch::E5 => 55,
            Pitch::F5 => 56, Pitch::FSharpGFlat5 => 57, Pitch::G5 => 58, Pitch::GSharpAFlat5 => 59,
            Pitch::A5 => 60, Pitch::ASharpBFlat5 => 61, Pitch::B5 => 62, Pitch::C6 => 63,
            Pitch::CSharpDFlat6 => 64, Pitch::D6 => 65, Pitch::DSharpEFlat6 => 66, Pitch::E6 => 67,
            Pitch::F6 => 68, Pitch::FSharpGFlat6 => 69, Pitch::G6 => 70, Pitch::GSharpAFlat6 => 71,
            Pitch::A6 => 72, Pitch::ASharpBFlat6 => 73, Pitch::B6 => 74, Pitch::C7 => 75,
            Pitch::CSharpDFlat7 => 76, Pitch::D7 => 77, Pitch::DSharpEFlat7 => 78, Pitch::E7 => 79,
            Pitch::F7 => 80, Pitch::FSharpGFlat7 => 81, Pitch::G7 => 82, Pitch::GSharpAFlat7 => 83,
            Pitch::A7 => 84, Pitch::ASharpBFlat7 => 85, Pitch::B7 => 86, Pitch::C8 => 87,
            Pitch::CSharpDFlat8 => 88, Pitch::D8 => 89, Pitch::DSharpEFlat8 => 90, Pitch::E8 => 91,
            Pitch::F8 => 92, Pitch::FSharpGFlat8 => 93, Pitch::G8 => 94, Pitch::GSharpAFlat8 => 95,
            Pitch::A8 => 96, Pitch::ASharpBFlat8 => 97, Pitch::B8 => 98, Pitch::C9 => 99,
            Pitch::CSharpDFlat9 => 100, Pitch::D9 => 101, Pitch::DSharpEFlat9 => 102, Pitch::E9 => 103,
            Pitch::F9 => 104, Pitch::FSharpGFlat9 => 105, Pitch::G9 => 106, Pitch::GSharpAFlat9 => 107,
            Pitch::A9 => 108, Pitch::ASharpBFlat9 => 109, Pitch::B9 => 110,
        }
    }

    /// The pitch at position `i`, or `None` when `i` lies beyond the highest pitch.
    pub fn from_index(i: usize) -> (p: Option<Pitch>)
        ensures
            p == pitch_at(i as int),
            p is Some <==> i < NUM_PITCHES,
    {
        match i {
        0 => Some(Pitch::A0), 1 => Some(Pitch::ASharpBFlat0), 2 => Some(Pitch::B0), 3 => Some(Pitch::C1),
        4 => Some(Pitch::CSharpDFlat1), 5 => Some(Pitch::D1), 6 => Some(Pitch::DSharpEFlat1), 7 => Some(Pitch::E1),
        8 => Some(Pitch::F1), 9 => Some(Pitch::FSharpGFlat1), 10 => Some(Pitch::G1), 11 => Some(Pitch::GSharpAFlat1),
        12 => Some(Pitch::A1), 13 => Some(Pitch::ASharpBFlat1), 14 => Some(Pitch::B1), 15 => Some(Pitch::C2),
        16 => Some(Pitch::CSharpDFlat2), 17 => Some(Pitch::D2), 18 => Some(Pitch::DSharpEFlat2), 19 => Some(Pitch::E2),
        20 => Some(Pitch::F2), 21 => Some(Pitch::FSharpGFlat2), 22 => Some(Pitch::G2), 23 => Some(Pitch::GSharpAFlat2),
        24 => Some(Pitch::A2), 25 => Some(Pitch::ASharpBFlat2), 26 => Some(Pitch::B2), 27 => Some(Pitch::C3),
        28 => Some(Pitch::CSharpDFlat3), 29 => Some(Pitch::D3), 30 => Some(Pitch::DSharpEFlat3), 31 => Some(Pitch::E3),
        32 => Some(Pitch::F3), 33 => Some(Pitch::FSharpGFlat3), 34 => Some(Pitch::G3), 35 => Some(Pitch::GSharpAFlat3),
        36 => Some(Pitch::A3), 37 => Some(Pitch::ASharpBFlat3), 38 => Some(Pitch::B3), 39 => Some(Pitch::C4),
        40 => Some(Pitch::CSharpDFlat4), 41 => Some(Pitch::D4), 42 => Some(Pitch::DSharpEFlat4), 43 => Some(Pitch::E4),
        44 => Some(Pitch::F4), 45 => Some(Pitch::FSharpGFlat4), 46 => Some(Pitch::G4), 47 => Some(Pitch::GSharpAFlat4),
        48 => Some(Pitch::A4), 49 => Some(Pitch::ASharpBFlat4), 50 => Some(Pitch::B4), 51 => Some(Pitch::C5),
        52 => Some(Pitch::CSharpDFlat5), 53 => Some(Pitch::D5), 54 => Some(Pitch::DSharpEFlat5), 55 => Some(Pitch::E5),
        56 => Some(Pitch::F5), 57 => Some(Pitch::FSharpGFlat5), 58 => Some(Pitch::G5), 59 => Some(Pitch::GSharpAFlat5),
        60 => Some(Pitch::A5), 61 => Some(Pitch::ASharpBFlat5), 62 => Some(Pitch::B5), 63 => Some(Pitch::C6),
        64 => Some(Pitch::CSharpDFlat6), 65 => Some(Pitch::D6), 66 => Some(Pitch::DSharpEFlat6), 67 => Some(Pitch::E6),
        68 => Some(Pitch::F6), 69 => Some(Pitch::FSharpGFlat6), 70 => Some(Pitch::G6), 71 => Some(Pitch::GSharpAFlat6),
        72 => Some(Pitch::A6), 73 => Some(Pitch::ASharpBFlat6), 74 => Some(Pitch::B6), 75 => Some(Pitch::C7),
        76 => Some(Pitch::CSharpDFlat7), 77 => Some(Pitch::D7), 78 => Some(Pitch::DSharpEFlat7), 79 => Some(Pitch::E7),
        80 => Some(Pitch::F7), 81 => Some(Pitch::FSharpGFlat7), 82 => Some(Pitch::G7), 83 => Some(Pitch::GSharpAFlat7),
        84 => Some(Pitch::A7), 85 => Some(Pitch::ASharpBFlat7), 86 => Some(Pitch::B7), 87 => Some(Pitch::C8),
        88 => Some(Pitch::CSharpDFlat8), 89 => Some(Pitch::D8), 90 => Some(Pitch::DSharpEFlat8), 91 => Some(Pitch::E8),
        92 => Some(Pitch::F8), 93 => Some(Pitch::FSharpGFlat8), 94 => Some(Pitch::G8), 95 => Some(Pitch::GSharpAFlat8),
        96 => Some(Pitch::A8), 97 => Some(Pitch::ASharpBFlat8), 98 => Some(Pitch::B8), 99 => Some(Pitch::C9),
        100 => Some(Pitch::CSharpDFlat9), 101 => Some(Pitch::D9), 102 => Some(Pitch::DSharpEFlat9), 103 => Some(Pitch::E9),
        104 => Some(Pitch::F9), 105 => Some(Pitch::FSharpGFlat9), 106 => Some(Pitch::G9), 107 => Some(Pitch::GSharpAFlat9),
        108 => Some(Pitch::A9), 109 => Some(Pitch::ASharpBFlat9), 110 => Some(Pitch::B9),
            _ => None,
        }
    }

    /// Signed number of semitones from `other` up to `self`.
    pub fn distance(&self, other: &Pitch) -> (d: i16)
        ensures
            d == self.spec_distance(*other),
    {
        let a: usize = self.index();
        let b: usize = other.index();
        if a >= b {
            (a - b) as i16
        } else {
            -((b - a) as i16)
        }
    }

    /// The lowest pitch of the pitch space.
    pub fn lowest() -> (p: Pitch)
        ensures
            p.spec_index() == 0,
    {
        Pitch::A0
    }

    /// The highest pitch of the pitch space.
    pub fn highest() -> (p: Pitch)
        ensures
            p.spec_index() == NUM_PITCHES - 1,
    {
        Pitch::B9
    }
}

/// Semitones between `C` and the natural note that `letter` writes, in either case.
pub open spec fn letter_class(letter: char) -> Option<int> {
    if letter == 'C' || letter == 'c' {
        Some(0)
    } else if letter == 'D' || letter == 'd' {
        Some(2)
    } else if letter == 'E' || letter == 'e' {
        Some(4)
    } else if letter == 'F' || letter == 'f' {
        Some(5)
    } else if letter == 'G' || letter == 'g' {
        Some(7)
    } else if letter == 'A' || letter == 'a' {
        Some(9)
    } else if letter == 'B' || letter == 'b' {
        Some(11)
    } else {
        None
    }
}

/// The value of the decimal digit that `c` writes.
pub open spec fn digit_value(c: char) -> Option<int> {
    if c == '0' {
        Some(0)
    } else if c == '1' {
        Some(1)
    } else if c == '2' {
        Some(2)
    } else if c == '3' {
        Some(3)
    } else if c == '4' {
        Some(4)
    } else if c == '5' {
        Some(5)
    } else if c == '6' {
        Some(6)
    } else if c == '7' {
        Some(7)
    } else if c == '8' {
        Some(8)
    } else if c == '9' {
        Some(9)
    } else {
        None
    }
}

/// Whether `c` raises a note by a semitone.
pub open spec fn is_sharp_sign(c: char) -> bool {
    c == '#' || c == '\u{266f}'
}

/// Whether `c` lowers a note by a semitone.
pub open spec fn is_flat_sign(c: char) -> bool {
    c == 'b' || c == 'B' || c == '\u{266d}'
}

/// Whether the natural note `class` semitones above `C` has a sharp of its own
/// (`C`, `D`, `F`, `G` and `A` have one).
pub open spec fn has_sharp(class: int) -> bool {
    class == 0 || class == 2 || class == 5 || class == 7 || class == 9
}

/// Whether the natural note `class` semitones above `C` has a flat of its own
/// (`D`, `E`, `G`, `A` and `B` have one).
pub open spec fn has_flat(class: int) -> bool {
    class == 2 || class == 4 || class == 7 || class == 9 || class == 11
}

/// Semitones by which the accidental `sign` moves the natural note `class`, where
/// the moved note has a name of this kind.
pub open spec fn accidental_shift(class: int, sign: char) -> Option<int> {
    if is_sharp_sign(sign) && has_sharp(class) {
        Some(1)
    } else if is_flat_sign(sign) && has_flat(class) {
        Some(-1)
    } else {
        None
    }
}

/// The pitch `class` semitones above the `C` of `octave`; position 0 of the pitch
/// space is the `A` of octave 0.
pub open spec fn pitch_in_octave(class: int, octave: int) -> Option<Pitch> {
    pitch_at(12 * octave + class - 9)
}

/// The pitch that `text` names: a letter from `A` to `G` in either case, then at
/// most one accidental, then the digit of the octave.
pub open spec fn pitch_from_text(text: Seq<char>) -> Option<Pitch> {
    if text.len() == 2 {
        match (letter_class(text[0]), digit_value(text[1])) {
            (Some(class), Some(octave)) => pitch_in_octave(class, octave),
            _ => None,
        }
    } else if text.len() == 3 {
        match (letter_class(text[0]), digit_value(text[2])) {
            (Some(class), Some(octave)) => match accidental_shift(class, text[1]) {
                Some(shift) => pitch_in_octave(class + shift, octave),
                None => None,
            },
            _ => None,
        }
    } else {
        None
    }
}

/// The name of the note `class` semitones above `C`, sharps for the notes between
/// the naturals.
pub open spec fn class_name(class: nat) -> Seq<char> {
    if class == 0 {
        seq!['C']
    } else if class == 1 {
        seq!['C', '#']
    } else if class == 2 {
        seq!['D']
    } else if class == 3 {
        seq!['D', '#']
    } else if class == 4 {
        seq!['E']
    } else if class == 5 {
        seq!['F']
    } else if class == 6 {
        seq!['F', '#']
    } else if class == 7 {
        seq!['G']
    } else if class == 8 {
        seq!['G', '#']
    } else if class == 9 {
        seq!['A']
    } else if class == 10 {
        seq!['A', '#']
    } else {
        seq!['B']
    }
}

/// Semitones between `C` and the natural note that `letter` writes.
fn letter_class_of(letter: char) -> (r: Option<u8>)
    ensures
        match r {
            Some(class) => letter_class(letter) == Some(class as int),
            None => letter_class(letter) is None,
        },
{
    if letter == 'C' || letter == 'c' {
        Some(0)
    } else if letter == 'D' || letter == 'd' {
        Some(2)
    } else if letter == 'E' || letter == 'e' {
        Some(4)
    } else if letter == 'F' || letter == 'f' {
        Some(5)
    } else if letter == 'G' || letter == 'g' {
        Some(7)
    } else if letter == 'A' || letter == 'a' {
        Some(9)
    } else if letter == 'B' || letter == 'b' {
        Some(11)
    } else {
        None
    }
}

/// The value of the decimal digit that `c` writes.
fn digit_value_of(c: char) -> (r: Option<u8>)
    ensures
        match r {
            Some(d) => digit_value(c) == Some(d as int),
            None => digit_value(c) is None,
        },
{
    if c == '0' {
        Some(0)
    } else if c == '1' {
        Some(1)
    } else if c == '2' {
        Some(2)
    } else if c == '3' {
        Some(3)
    } else if c == '4' {
        Some(4)
    } else if c == '5' {
        Some(5)
    } else if c == '6' {
        Some(6)
    } else if c == '7' {
        Some(7)
    } else if c == '8' {
        Some(8)
    } else if c == '9' {
        Some(9)
    } else {
        None
    }
}

/// The name of the note `class` semitones above `C`.
fn class_text(class: usize) -> (t: &'static str)
    requires
        class < 12,
    ensures
        t@ == class_name(class as nat),
{
    proof {
        reveal_strlit("C");
        reveal_strlit("C#");
        reveal_strlit("D");
        reveal_strlit("D#");
        reveal_strlit("E");
        reveal_strlit("F");
        reveal_strlit("F#");
        reveal_strlit("G");
        reveal_strlit("G#");
        reveal_strlit("A");
        reveal_strlit("A#");
        reveal_strlit("B");
    }
    let t = if class == 0 {
        "C"
    } else if class == 1 {
        "C#"
    } else if class == 2 {
        "D"
    } else if class == 3 {
        "D#"
    } else if class == 4 {
        "E"
    } else if class == 5 {
        "F"
    } else if class == 6 {
        "F#"
    } else if class == 7 {
        "G"
    } else if class == 8 {
        "G#"
    } else if class == 9 {
        "A"
    } else if class == 10 {
        "A#"
    } else {
        "B"
    };
    assert(t@ =~= class_name(class as nat));
    t
}

impl Pitch {
    /// The octave that the pitch lies in; octaves begin at `C`.
    pub open spec fn spec_octave(self) -> nat {
        (self.spec_index() + 9) / 12
    }

    /// Semitones between the `C` of its octave and the pitch.
    pub open spec fn spec_class(self) -> nat {
        (self.spec_index() + 9) % 12
    }

    /// The name of the pitch: the note, with a sharp for the notes between the
    /// naturals, then the octave.
    pub open spec fn spec_plain_text(self) -> Seq<char> {
        class_name(self.spec_class()).push(digit_char(self.spec_octave()))
    }

    /// The name of the pitch, such as `E2` or `A#3`.
    pub fn plain_text(&self) -> (s: String)
        ensures
            s@ == self.spec_plain_text(),
    {
        let chroma: usize = self.index() + 9;
        let mut s = class_text(chroma % 12).to_owned();
        crate::text::push_decimal(&mut s, chroma / 12);
        assert(s@ =~= self.spec_plain_text());
        s
    }

    /// Reads the name of a pitch. The letter may stand in either case, a sharp is
    /// written `#` or `♯`, a flat `b`, `B` or `♭`. Names of pitches outside the
    /// pitch space, and accidentals that lead to a natural note (`Fb`, `E#`), are
    /// refused.
    pub fn from_text(text: &str) -> (p: Option<Pitch>)
        ensures
            p == pitch_from_text(text@),
    {
        let n: usize = text.unicode_len();
        if n != 2 && n != 3 {
            return None;
        }
        let class: u8 = match letter_class_of(text.get_char(0)) {
            Some(class) => class,
            None => {
                return None;
            },
        };
        let octave: u8 = match digit_value_of(text.get_char(n - 1)) {
            Some(octave) => octave,
            None => {
                return None;
            },
        };
        let mut chroma: usize = 12 * (octave as usize) + (class as usize);
        if n == 3 {
            let sign: char = text.get_char(1);
            let natural_has_sharp: bool = class == 0 || class == 2 || class == 5 || class == 7
                || class == 9;
            let natural_has_flat: bool = class == 2 || class == 4 || class == 7 || class == 9
                || class == 11;
            if (sign == '#' || sign == '\u{266f}') && natural_has_sharp {
                chroma = chroma + 1;
            } else if (sign == 'b' || sign == 'B' || sign == '\u{266d}') && natural_has_flat {
                chroma = chroma - 1;
            } else {
                return None;
            }
        }
        if chroma < 9 {
            return None;
        }
        Pitch::from_index(chroma - 9)
    }
}

/// Reading the name that `plain_text` writes gives the pitch back.
pub proof fn lemma_text_round_trip(p: Pitch)
    ensures
        pitch_from_text(p.spec_plain_text()) == Some(p),
{
    lemma_index_round_trip(p);
    let class = p.spec_class();
    let octave = p.spec_octave();
    let text = p.spec_plain_text();
    assert(octave <= 9);
    assert(digit_value(digit_char(octave)) == Some(octave as int));
    assert(12 * octave + class - 9 == p.spec_index());
    if class == 1 || class == 3 || class == 6 || class == 8 || class == 10 {
        assert(text.len() == 3);
        assert(text[2] == digit_char(octave));
        assert(text[1] == '#');
        assert(letter_class(text[0]) == Some(class - 1));
    } else {
        assert(text.len() == 2);
        assert(text[1] == digit_char(octave));
        assert(letter_class(text[0]) == Some(class as int));
    }
}

/// Every pitch has a position below [`NUM_PITCHES`], and [`pitch_at`] leads back
/// from that position to the pitch.
pub proof fn lemma_index_round_trip(p: Pitch)
    ensures
        p.spec_index() < NUM_PITCHES,
        pitch_at(p.spec_index() as int) == Some(p),
{
}

/// Every position below [`NUM_PITCHES`] holds a pitch, and that pitch has this
/// position; positions from [`NUM_PITCHES`] on hold none.
pub proof fn lemma_pitch_at(i: int)
    ensures
        0 <= i < NUM_PITCHES <==> pitch_at(i) is Some,
        pitch_at(i) matches Some(p) ==> p.spec_index() == i,
{
}

/// The index is injective: two pitches at the same position are the same pitch.
pub proof fn lemma_index_injective(p: Pitch, q: Pitch)
    requires
        p.spec_index() == q.spec_index(),
    ensures
        p == q,
{
    lemma_index_round_trip(p);
    lemma_index_round_trip(q);
}

} // verus!
