use vstd::prelude::*;

verus! {
/// A Minecraft protocol version the server can speak, oldest first.
///
/// Each release is identified on the wire by its protocol number; numbers grow with
/// every release, so comparing two versions means comparing their numbers.
#[derive(Debug, Clone, Copy, PartialEq, Eq, Structural, Hash)]
pub enum ProtocolVersion {
    /// Release 1.7.2, protocol 4.
    V1_7_2,
    /// Release 1.7.6, protocol 5.
    V1_7_6,
    /// Release 1.8, protocol 47.
    V1_8,
    /// Release 1.9, protocol 107.
    V1_9,
    /// Release 1.9.1, protocol 108.
    V1_9_1,
    /// Release 1.9.2, protocol 109.
    V1_9_2,
    /// Release 1.9.4, protocol 110.
    V1_9_4,
    /// Release 1.10, protocol 210.
    V1_10,
    /// Release 1.11, protocol 315.
    V1_11,
    /// Release 1.11.1, protocol 316.
    V1_11_1,
    /// Release 1.12, protocol 335.
    V1_12,
    /// Release 1.12.1, protocol 338.
    V1_12_1,
    /// Release 1.12.2, protocol 340.
    V1_12_2,
    /// Release 1.13, protocol 393.
    V1_13,
    /// Release 1.13.1, protocol 401.
    V1_13_1,
    /// Release 1.13.2, protocol 404.
    V1_13_2,
    /// Release 1.14, protocol 477.
    V1_14,
    /// Release 1.14.1, protocol 480.
    V1_14_1,
    /// Release 1.14.2, protocol 485.
    V1_14_2,
    /// Release 1.14.3, protocol 490.
    V1_14_3,
    /// Release 1.14.4, protocol 498.
    V1_14_4,
    /// Release 1.15, protocol 573.
    V1_15,
    /// Release 1.15.1, protocol 575.
    V1_15_1,
    /// Release 1.15.2, protocol 578.
    V1_15_2,
    /// Release 1.16, protocol 735.
    V1_16,
    /// Release 1.16.1, protocol 736.
    V1_16_1,
    /// Release 1.16.2, protocol 751.
    V1_16_2,
    /// Release 1.16.3, protocol 753.
    V1_16_3,
    /// Release 1.16.4, protocol 754.
    V1_16_4,
    /// Release 1.17, protocol 755.
    V1_17,
    /// Release 1.17.1, protocol 756.
    V1_17_1,
    /// Release 1.18, protocol 757.
    V1_18,
    /// Release 1.18.2, protocol 758.
    V1_18_2,
    /// Release 1.19, protocol 759.
    V1_19,
    /// Release 1.19.1, protocol 760.
    V1_19_1,
    /// Release 1.19.3, protocol 761.
    V1_19_3,
    /// Release 1.19.4, protocol 762.
    V1_19_4,
    /// Release 1.20, protocol 763.
    V1_20,
    /// Release 1.20.2, protocol 764.
    V1_20_2,
    /// Release 1.20.3, protocol 765.
    V1_20_3,
    /// Release 1.20.5, protocol 766.
    V1_20_5,
    /// Release 1.21, protocol 767.
    V1_21,
    /// Release 1.21.2, protocol 768.
    V1_21_2,
    /// Release 1.21.4, protocol 769.
    V1_21_4,
    /// Release 1.21.5, protocol 770.
    V1_21_5,
    /// Release 1.21.6, protocol 771.
    V1_21_6,
    /// Release 1.21.7, protocol 772.
    V1_21_7,
    /// Release 1.21.9, protocol 773.
    V1_21_9,
    /// Release 1.21.11, protocol 774.
    V1_21_11,
    /// Release 26.1, protocol 775.
    V26_1,
    /// Release 26.2, protocol 776.
    V26_2,
}

/// Protocol number of every supported release, in release order.
pub open spec fn protocol_number_of(version: ProtocolVersion) -> int {
    match version {
        ProtocolVersion::V1_7_2 => 4,
        ProtocolVersion::V1_7_6 => 5,
        ProtocolVersion::V1_8 => 47,
        ProtocolVersion::V1_9 => 107,
        ProtocolVersion::V1_9_1 => 108,
        ProtocolVersion::V1_9_2 => 109,
        ProtocolVersion::V1_9_4 => 110,
        ProtocolVersion::V1_10 => 210,
        ProtocolVersion::V1_11 => 315,
        ProtocolVersion::V1_11_1 => 316,
        ProtocolVersion::V1_12 => 335,
        ProtocolVersion::V1_12_1 => 338,
        ProtocolVersion::V1_12_2 => 340,
        ProtocolVersion::V1_13 => 393,
        ProtocolVersion::V1_13_1 => 401,
        ProtocolVersion::V1_13_2 => 404,
        ProtocolVersion::V1_14 => 477,
        ProtocolVersion::V1_14_1 => 480,
        ProtocolVersion::V1_14_2 => 485,
        ProtocolVersion::V1_14_3 => 490,
        ProtocolVersion::V1_14_4 => 498,
        ProtocolVersion::V1_15 => 573,
        ProtocolVersion::V1_15_1 => 575,
        ProtocolVersion::V1_15_2 => 578,
        ProtocolVersion::V1_16 => 735,
        ProtocolVersion::V1_16_1 => 736,
        ProtocolVersion::V1_16_2 => 751,
        ProtocolVersion::V1_16_3 => 753,
        ProtocolVersion::V1_16_4 => 754,
        ProtocolVersion::V1_17 => 755,
        ProtocolVersion::V1_17_1 => 756,
        ProtocolVersion::V1_18 => 757,
        ProtocolVersion::V1_18_2 => 758,
        ProtocolVersion::V1_19 => 759,
        ProtocolVersion::V1_19_1 => 760,
        ProtocolVersion::V1_19_3 => 761,
        ProtocolVersion::V1_19_4 => 762,
        ProtocolVersion::V1_20 => 763,
        ProtocolVersion::V1_20_2 => 764,
        ProtocolVersion::V1_20_3 => 765,
        ProtocolVersion::V1_20_5 => 766,
        ProtocolVersion::V1_21 => 767,
        ProtocolVersion::V1_21_2 => 768,
        ProtocolVersion::V1_21_4 => 769,
        ProtocolVersion::V1_21_5 => 770,
        ProtocolVersion::V1_21_6 => 771,
        ProtocolVersion::V1_21_7 => 772,
        ProtocolVersion::V1_21_9 => 773,
        ProtocolVersion::V1_21_11 => 774,
        ProtocolVersion::V26_1 => 775,
        ProtocolVersion::V26_2 => 776,
    }
}

/// Position of a release among the supported ones, oldest at zero.
pub open spec fn release_index_of(version: ProtocolVersion) -> int {
    match version {
        ProtocolVersion::V1_7_2 => 0,
        ProtocolVersion::V1_7_6 => 1,
        ProtocolVersion::V1_8 => 2,
        ProtocolVersion::V1_9 => 3,
        ProtocolVersion::V1_9_1 => 4,
        ProtocolVersion::V1_9_2 => 5,
        ProtocolVersion::V1_9_4 => 6,
        ProtocolVersion::V1_10 => 7,
        ProtocolVersion::V1_11 => 8,
        ProtocolVersion::V1_11_1 => 9,
        ProtocolVersion::V1_12 => 10,
        ProtocolVersion::V1_12_1 => 11,
        ProtocolVersion::V1_12_2 => 12,
        ProtocolVersion::V1_13 => 13,
        ProtocolVersion::V1_13_1 => 14,
        ProtocolVersion::V1_13_2 => 15,
        ProtocolVersion::V1_14 => 16,
        ProtocolVersion::V1_14_1 => 17,
        ProtocolVersion::V1_14_2 => 18,
        ProtocolVersion::V1_14_3 => 19,
        ProtocolVersion::V1_14_4 => 20,
        ProtocolVersion::V1_15 => 21,
        ProtocolVersion::V1_15_1 => 22,
        ProtocolVersion::V1_15_2 => 23,
        ProtocolVersion::V1_16 => 24,
        ProtocolVersion::V1_16_1 => 25,
        ProtocolVersion::V1_16_2 => 26,
        ProtocolVersion::V1_16_3 => 27,
        ProtocolVersion::V1_16_4 => 28,
        ProtocolVersion::V1_17 => 29,
        ProtocolVersion::V1_17_1 => 30,
        ProtocolVersion::V1_18 => 31,
        ProtocolVersion::V1_18_2 => 32,
        ProtocolVersion::V1_19 => 33,
        ProtocolVersion::V1_19_1 => 34,
        ProtocolVersion::V1_19_3 => 35,
        ProtocolVersion::V1_19_4 => 36,
        ProtocolVersion::V1_20 => 37,
        ProtocolVersion::V1_20_2 => 38,
        ProtocolVersion::V1_20_3 => 39,
        ProtocolVersion::V1_20_5 => 40,
        ProtocolVersion::V1_21 => 41,
        ProtocolVersion::V1_21_2 => 42,
        ProtocolVersion::V1_21_4 => 43,
        ProtocolVersion::V1_21_5 => 44,
        ProtocolVersion::V1_21_6 => 45,
        ProtocolVersion::V1_21_7 => 46,
        ProtocolVersion::V1_21_9 => 47,
        ProtocolVersion::V1_21_11 => 48,
        ProtocolVersion::V26_1 => 49,
        ProtocolVersion::V26_2 => 50,
    }
}

/// The release at a position of the supported range.
pub open spec fn release_at(index: int) -> ProtocolVersion
    recommends
        0 <= index < 51,
{
    if index == 0 {
        ProtocolVersion::V1_7_2
    } else if index == 1 {
        ProtocolVersion::V1_7_6
    } else if index == 2 {
        ProtocolVersion::V1_8
    } else if index == 3 {
        ProtocolVersion::V1_9
    } else if index == 4 {
        ProtocolVersion::V1_9_1
    } else if index == 5 {
        ProtocolVersion::V1_9_2
    } else if index == 6 {
        ProtocolVersion::V1_9_4
    } else if index == 7 {
        ProtocolVersion::V1_10
    } else if index == 8 {
        ProtocolVersion::V1_11
    } else if index == 9 {
        ProtocolVersion::V1_11_1
    } else if index == 10 {
        ProtocolVersion::V1_12
    } else if index == 11 {
        ProtocolVersion::V1_12_1
    } else if index == 12 {
        ProtocolVersion::V1_12_2
    } else if index == 13 {
        ProtocolVersion::V1_13
    } else if index == 14 {
        ProtocolVersion::V1_13_1
    } else if index == 15 {
        ProtocolVersion::V1_13_2
    } else if index == 16 {
        ProtocolVersion::V1_14
    } else if index == 17 {
        ProtocolVersion::V1_14_1
    } else if index == 18 {
        ProtocolVersion::V1_14_2
    } else if index == 19 {
        ProtocolVersion::V1_14_3
    } else if index == 20 {
        ProtocolVersion::V1_14_4
    } else if index == 21 {
        ProtocolVersion::V1_15
    } else if index == 22 {
        ProtocolVersion::V1_15_1
    } else if index == 23 {
        ProtocolVersion::V1_15_2
    } else if index == 24 {
        ProtocolVersion::V1_16
    } else if index == 25 {
        ProtocolVersion::V1_16_1
    } else if index == 26 {
        ProtocolVersion::V1_16_2
    } else if index == 27 {
        ProtocolVersion::V1_16_3
    } else if index == 28 {
        ProtocolVersion::V1_16_4
    } else if index == 29 {
        ProtocolVersion::V1_17
    } else if index == 30 {
        ProtocolVersion::V1_17_1
    } else if index == 31 {
        ProtocolVersion::V1_18
    } else if index == 32 {
        ProtocolVersion::V1_18_2
    } else if index == 33 {
        ProtocolVersion::V1_19
    } else if index == 34 {
        ProtocolVersion::V1_19_1
    } else if index == 35 {
        ProtocolVersion::V1_19_3
    } else if index == 36 {
        ProtocolVersion::V1_19_4
    } else if index == 37 {
        ProtocolVersion::V1_20
    } else if index == 38 {
        ProtocolVersion::V1_20_2
    } else if index == 39 {
        ProtocolVersion::V1_20_3
    } else if index == 40 {
        ProtocolVersion::V1_20_5
    } else if index == 41 {
        ProtocolVersion::V1_21
    } else if index == 42 {
        ProtocolVersion::V1_21_2
    } else if index == 43 {
        ProtocolVersion::V1_21_4
    } else if index == 44 {
        ProtocolVersion::V1_21_5
    } else if index == 45 {
        ProtocolVersion::V1_21_6
    } else if index == 46 {
        ProtocolVersion::V1_21_7
    } else if index == 47 {
        ProtocolVersion::V1_21_9
    } else if index == 48 {
        ProtocolVersion::V1_21_11
    } else if index == 49 {
        ProtocolVersion::V26_1
    } else {
        ProtocolVersion::V26_2
    }
}

/// The supported release with this protocol number, if there is one.
pub open spec fn version_with_number(number: int) -> Option<ProtocolVersion> {
    if is_supported_number(number) {
        Some(choose|version: ProtocolVersion| protocol_number_of(version) == number)
    } else {
        None
    }
}

/// Whether `number` is the protocol number of a supported release.
pub open spec fn is_supported_number(number: int) -> bool {
    exists|version: ProtocolVersion| protocol_number_of(version) == number
}

/// The release name, as in `1.20.5`.
pub open spec fn release_name(version: ProtocolVersion) -> Seq<char> {
    match version {
        ProtocolVersion::V1_7_2 => "1.7.2"@,
        ProtocolVersion::V1_7_6 => "1.7.6"@,
        ProtocolVersion::V1_8 => "1.8"@,
        ProtocolVersion::V1_9 => "1.9"@,
        ProtocolVersion::V1_9_1 => "1.9.1"@,
        ProtocolVersion::V1_9_2 => "1.9.2"@,
        ProtocolVersion::V1_9_4 => "1.9.4"@,
        ProtocolVersion::V1_10 => "1.10"@,
        ProtocolVersion::V1_11 => "1.11"@,
        ProtocolVersion::V1_11_1 => "1.11.1"@,
        ProtocolVersion::V1_12 => "1.12"@,
        ProtocolVersion::V1_12_1 => "1.12.1"@,
        ProtocolVersion::V1_12_2 => "1.12.2"@,
        ProtocolVersion::V1_13 => "1.13"@,
        ProtocolVersion::V1_13_1 => "1.13.1"@,
        ProtocolVersion::V1_13_2 => "1.13.2"@,
        ProtocolVersion::V1_14 => "1.14"@,
        ProtocolVersion::V1_14_1 => "1.14.1"@,
        ProtocolVersion::V1_14_2 => "1.14.2"@,
        ProtocolVersion::V1_14_3 => "1.14.3"@,
        ProtocolVersion::V1_14_4 => "1.14.4"@,
        ProtocolVersion::V1_15 => "1.15"@,
        ProtocolVersion::V1_15_1 => "1.15.1"@,
        ProtocolVersion::V1_15_2 => "1.15.2"@,
        ProtocolVersion::V1_16 => "1.16"@,
        ProtocolVersion::V1_16_1 => "1.16.1"@,
        ProtocolVersion::V1_16_2 => "1.16.2"@,
        ProtocolVersion::V1_16_3 => "1.16.3"@,
        ProtocolVersion::V1_16_4 => "1.16.4"@,
        ProtocolVersion::V1_17 => "1.17"@,
        ProtocolVersion::V1_17_1 => "1.17.1"@,
        ProtocolVersion::V1_18 => "1.18"@,
        ProtocolVersion::V1_18_2 => "1.18.2"@,
        ProtocolVersion::V1_19 => "1.19"@,
        ProtocolVersion::V1_19_1 => "1.19.1"@,
        ProtocolVersion::V1_19_3 => "1.19.3"@,
        ProtocolVersion::V1_19_4 => "1.19.4"@,
        ProtocolVersion::V1_20 => "1.20"@,
        ProtocolVersion::V1_20_2 => "1.20.2"@,
        ProtocolVersion::V1_20_3 => "1.20.3"@,
        ProtocolVersion::V1_20_5 => "1.20.5"@,
        ProtocolVersion::V1_21 => "1.21"@,
        ProtocolVersion::V1_21_2 => "1.21.2"@,
        ProtocolVersion::V1_21_4 => "1.21.4"@,
        ProtocolVersion::V1_21_5 => "1.21.5"@,
        ProtocolVersion::V1_21_6 => "1.21.6"@,
        ProtocolVersion::V1_21_7 => "1.21.7"@,
        ProtocolVersion::V1_21_9 => "1.21.9"@,
        ProtocolVersion::V1_21_11 => "1.21.11"@,
        ProtocolVersion::V26_1 => "26.1"@,
        ProtocolVersion::V26_2 => "26.2"@,
    }
}

impl ProtocolVersion {
    /// The oldest supported release.
    pub const MIN: ProtocolVersion = ProtocolVersion::V1_7_2;

    /// The newest supported release.
    pub const MAX: ProtocolVersion = ProtocolVersion::V26_2;

    /// Number of supported releases.
    pub const COUNT: usize = 51;

    /// The number that identifies this release in the handshake.
    pub fn number(self) -> (number: i32)
        ensures
            number == protocol_number_of(self),
    {
        match self {
            ProtocolVersion::V1_7_2 => 4,
            ProtocolVersion::V1_7_6 => 5,
            ProtocolVersion::V1_8 => 47,
            ProtocolVersion::V1_9 => 107,
            ProtocolVersion::V1_9_1 => 108,
            ProtocolVersion::V1_9_2 => 109,
            ProtocolVersion::V1_9_4 => 110,
            ProtocolVersion::V1_10 => 210,
            ProtocolVersion::V1_11 => 315,
            ProtocolVersion::V1_11_1 => 316,
            ProtocolVersion::V1_12 => 335,
            ProtocolVersion::V1_12_1 => 338,
            ProtocolVersion::V1_12_2 => 340,
            ProtocolVersion::V1_13 => 393,
            ProtocolVersion::V1_13_1 => 401,
            ProtocolVersion::V1_13_2 => 404,
            ProtocolVersion::V1_14 => 477,
            ProtocolVersion::V1_14_1 => 480,
            ProtocolVersion::V1_14_2 => 485,
            ProtocolVersion::V1_14_3 => 490,
            ProtocolVersion::V1_14_4 => 498,
            ProtocolVersion::V1_15 => 573,
            ProtocolVersion::V1_15_1 => 575,
            ProtocolVersion::V1_15_2 => 578,
            ProtocolVersion::V1_16 => 735,
            ProtocolVersion::V1_16_1 => 736,
            ProtocolVersion::V1_16_2 => 751,
            ProtocolVersion::V1_16_3 => 753,
            ProtocolVersion::V1_16_4 => 754,
            ProtocolVersion::V1_17 => 755,
            ProtocolVersion::V1_17_1 => 756,
            ProtocolVersion::V1_18 => 757,
            ProtocolVersion::V1_18_2 => 758,
            ProtocolVersion::V1_19 => 759,
            ProtocolVersion::V1_19_1 => 760,
            ProtocolVersion::V1_19_3 => 761,
            ProtocolVersion::V1_19_4 => 762,
            ProtocolVersion::V1_20 => 763,
            ProtocolVersion::V1_20_2 => 764,
            ProtocolVersion::V1_20_3 => 765,
            ProtocolVersion::V1_20_5 => 766,
            ProtocolVersion::V1_21 => 767,
            ProtocolVersion::V1_21_2 => 768,
            ProtocolVersion::V1_21_4 => 769,
            ProtocolVersion::V1_21_5 => 770,
            ProtocolVersion::V1_21_6 => 771,
            ProtocolVersion::V1_21_7 => 772,
            ProtocolVersion::V1_21_9 => 773,
            ProtocolVersion::V1_21_11 => 774,
            ProtocolVersion::V26_1 => 775,
            ProtocolVersion::V26_2 => 776,
        }
    }

    /// Resolves a handshake's protocol number, or `None` for a release the server does not
    /// speak.
    pub fn from_number(number: i32) -> (version: Option<ProtocolVersion>)
        ensures
            match version {
                Some(found) => protocol_number_of(found) == number,
                None => !is_supported_number(number as int),
            },
            version == version_with_number(number as int),
    {
        proof {
            lemma_number_determines_release();
        }
        let version = match number {
            4 => Some(ProtocolVersion::V1_7_2),
            5 => Some(ProtocolVersion::V1_7_6),
            47 => Some(ProtocolVersion::V1_8),
            107 => Some(ProtocolVersion::V1_9),
            108 => Some(ProtocolVersion::V1_9_1),
            109 => Some(ProtocolVersion::V1_9_2),
            110 => Some(ProtocolVersion::V1_9_4),
            210 => Some(ProtocolVersion::V1_10),
            315 => Some(ProtocolVersion::V1_11),
            316 => Some(ProtocolVersion::V1_11_1),
            335 => Some(ProtocolVersion::V1_12),
            338 => Some(ProtocolVersion::V1_12_1),
            340 => Some(ProtocolVersion::V1_12_2),
            393 => Some(ProtocolVersion::V1_13),
            401 => Some(ProtocolVersion::V1_13_1),
            404 => Some(ProtocolVersion::V1_13_2),
            477 => Some(ProtocolVersion::V1_14),
            480 => Some(ProtocolVersion::V1_14_1),
            485 => Some(ProtocolVersion::V1_14_2),
            490 => Some(ProtocolVersion::V1_14_3),
            498 => Some(ProtocolVersion::V1_14_4),
            573 => Some(ProtocolVersion::V1_15),
            575 => Some(ProtocolVersion::V1_15_1),
            578 => Some(ProtocolVersion::V1_15_2),
            735 => Some(ProtocolVersion::V1_16),
            736 => Some(ProtocolVersion::V1_16_1),
            751 => Some(ProtocolVersion::V1_16_2),
            753 => Some(ProtocolVersion::V1_16_3),
            754 => Some(ProtocolVersion::V1_16_4),
            755 => Some(ProtocolVersion::V1_17),
            756 => Some(ProtocolVersion::V1_17_1),
            757 => Some(ProtocolVersion::V1_18),
            758 => Some(ProtocolVersion::V1_18_2),
            759 => Some(ProtocolVersion::V1_19),
            760 => Some(ProtocolVersion::V1_19_1),
            761 => Some(ProtocolVersion::V1_19_3),
            762 => Some(ProtocolVersion::V1_19_4),
            763 => Some(ProtocolVersion::V1_20),
            764 => Some(ProtocolVersion::V1_20_2),
            765 => Some(ProtocolVersion::V1_20_3),
            766 => Some(ProtocolVersion::V1_20_5),
            767 => Some(ProtocolVersion::V1_21),
            768 => Some(ProtocolVersion::V1_21_2),
            769 => Some(ProtocolVersion::V1_21_4),
            770 => Some(ProtocolVersion::V1_21_5),
            771 => Some(ProtocolVersion::V1_21_6),
            772 => Some(ProtocolVersion::V1_21_7),
            773 => Some(ProtocolVersion::V1_21_9),
            774 => Some(ProtocolVersion::V1_21_11),
            775 => Some(ProtocolVersion::V26_1),
            776 => Some(ProtocolVersion::V26_2),
            _ => None,
        };
        proof {
            if let Some(found) = version {
                lemma_version_with_number(found);
            }
        }
        version
    }

    /// Position of this release among the supported ones, oldest at zero.
    pub fn release_index(self) -> (index: usize)
        ensures
            index == release_index_of(self),
            index < 51,
    {
        match self {
            ProtocolVersion::V1_7_2 => 0,
            ProtocolVersion::V1_7_6 => 1,
            ProtocolVersion::V1_8 => 2,
            ProtocolVersion::V1_9 => 3,
            ProtocolVersion::V1_9_1 => 4,
            ProtocolVersion::V1_9_2 => 5,
            ProtocolVersion::V1_9_4 => 6,
            ProtocolVersion::V1_10 => 7,
            ProtocolVersion::V1_11 => 8,
            ProtocolVersion::V1_11_1 => 9,
            ProtocolVersion::V1_12 => 10,
            ProtocolVersion::V1_12_1 => 11,
            ProtocolVersion::V1_12_2 => 12,
            ProtocolVersion::V1_13 => 13,
            ProtocolVersion::V1_13_1 => 14,
            ProtocolVersion::V1_13_2 => 15,
            ProtocolVersion::V1_14 => 16,
            ProtocolVersion::V1_14_1 => 17,
            ProtocolVersion::V1_14_2 => 18,
            ProtocolVersion::V1_14_3 => 19,
            ProtocolVersion::V1_14_4 => 20,
            ProtocolVersion::V1_15 => 21,
            ProtocolVersion::V1_15_1 => 22,
            ProtocolVersion::V1_15_2 => 23,
            ProtocolVersion::V1_16 => 24,
            ProtocolVersion::V1_16_1 => 25,
            ProtocolVersion::V1_16_2 => 26,
            ProtocolVersion::V1_16_3 => 27,
            ProtocolVersion::V1_16_4 => 28,
            ProtocolVersion::V1_17 => 29,
            ProtocolVersion::V1_17_1 => 30,
            ProtocolVersion::V1_18 => 31,
            ProtocolVersion::V1_18_2 => 32,
            ProtocolVersion::V1_19 => 33,
            ProtocolVersion::V1_19_1 => 34,
            ProtocolVersion::V1_19_3 => 35,
            ProtocolVersion::V1_19_4 => 36,
            ProtocolVersion::V1_20 => 37,
            ProtocolVersion::V1_20_2 => 38,
            ProtocolVersion::V1_20_3 => 39,
            ProtocolVersion::V1_20_5 => 40,
            ProtocolVersion::V1_21 => 41,
            ProtocolVersion::V1_21_2 => 42,
            ProtocolVersion::V1_21_4 => 43,
            ProtocolVersion::V1_21_5 => 44,
            ProtocolVersion::V1_21_6 => 45,
            ProtocolVersion::V1_21_7 => 46,
            ProtocolVersion::V1_21_9 => 47,
            ProtocolVersion::V1_21_11 => 48,
            ProtocolVersion::V26_1 => 49,
            ProtocolVersion::V26_2 => 50,
        }
    }

    /// Whether this release is `other` or newer.
    pub fn at_least(self, other: ProtocolVersion) -> (newer_or_same: bool)
        ensures
            newer_or_same == (protocol_number_of(self) >= protocol_number_of(other)),
    {
        self.number() >= other.number()
    }

    /// Whether this release is strictly older than `other`.
    pub fn older_than(self, other: ProtocolVersion) -> (older: bool)
        ensures
            older == (protocol_number_of(self) < protocol_number_of(other)),
    {
        self.number() < other.number()
    }

    /// Every supported release, oldest first.
    pub fn all() -> (versions: Vec<ProtocolVersion>)
        ensures
            versions@.len() == 51,
            forall|i: int| 0 <= i < 51 ==> #[trigger] versions@[i] == release_at(i),
    {
        let mut versions: Vec<ProtocolVersion> = Vec::new();
        versions.push(ProtocolVersion::V1_7_2);
        versions.push(ProtocolVersion::V1_7_6);
        versions.push(ProtocolVersion::V1_8);
        versions.push(ProtocolVersion::V1_9);
        versions.push(ProtocolVersion::V1_9_1);
        versions.push(ProtocolVersion::V1_9_2);
        versions.push(ProtocolVersion::V1_9_4);
        versions.push(ProtocolVersion::V1_10);
        versions.push(ProtocolVersion::V1_11);
        versions.push(ProtocolVersion::V1_11_1);
        versions.push(ProtocolVersion::V1_12);
        versions.push(ProtocolVersion::V1_12_1);
        versions.push(ProtocolVersion::V1_12_2);
        versions.push(ProtocolVersion::V1_13);
        versions.push(ProtocolVersion::V1_13_1);
        versions.push(ProtocolVersion::V1_13_2);
        versions.push(ProtocolVersion::V1_14);
        versions.push(ProtocolVersion::V1_14_1);
        versions.push(ProtocolVersion::V1_14_2);
        versions.push(ProtocolVersion::V1_14_3);
        versions.push(ProtocolVersion::V1_14_4);
        versions.push(ProtocolVersion::V1_15);
        versions.push(ProtocolVersion::V1_15_1);
        versions.push(ProtocolVersion::V1_15_2);
        versions.push(ProtocolVersion::V1_16);
        versions.push(ProtocolVersion::V1_16_1);
        versions.push(ProtocolVersion::V1_16_2);
        versions.push(ProtocolVersion::V1_16_3);
        versions.push(ProtocolVersion::V1_16_4);
        versions.push(ProtocolVersion::V1_17);
        versions.push(ProtocolVersion::V1_17_1);
        versions.push(ProtocolVersion::V1_18);
        versions.push(ProtocolVersion::V1_18_2);
        versions.push(ProtocolVersion::V1_19);
        versions.push(ProtocolVersion::V1_19_1);
        versions.push(ProtocolVersion::V1_19_3);
        versions.push(ProtocolVersion::V1_19_4);
        versions.push(ProtocolVersion::V1_20);
        versions.push(ProtocolVersion::V1_20_2);
        versions.push(ProtocolVersion::V1_20_3);
        versions.push(ProtocolVersion::V1_20_5);
        versions.push(ProtocolVersion::V1_21);
        versions.push(ProtocolVersion::V1_21_2);
        versions.push(ProtocolVersion::V1_21_4);
        versions.push(ProtocolVersion::V1_21_5);
        versions.push(ProtocolVersion::V1_21_6);
        versions.push(ProtocolVersion::V1_21_7);
        versions.push(ProtocolVersion::V1_21_9);
        versions.push(ProtocolVersion::V1_21_11);
        versions.push(ProtocolVersion::V26_1);
        versions.push(ProtocolVersion::V26_2);
        versions
    }

    /// The release name, as in `1.20.5`.
    pub fn name(self) -> (name: &'static str)
        ensures
            name@ == release_name(self),
    {
        match self {
            ProtocolVersion::V1_7_2 => "1.7.2",
            ProtocolVersion::V1_7_6 => "1.7.6",
            ProtocolVersion::V1_8 => "1.8",
            ProtocolVersion::V1_9 => "1.9",
            ProtocolVersion::V1_9_1 => "1.9.1",
            ProtocolVersion::V1_9_2 => "1.9.2",
            ProtocolVersion::V1_9_4 => "1.9.4",
            ProtocolVersion::V1_10 => "1.10",
            ProtocolVersion::V1_11 => "1.11",
            ProtocolVersion::V1_11_1 => "1.11.1",
            ProtocolVersion::V1_12 => "1.12",
            ProtocolVersion::V1_12_1 => "1.12.1",
            ProtocolVersion::V1_12_2 => "1.12.2",
            ProtocolVersion::V1_13 => "1.13",
            ProtocolVersion::V1_13_1 => "1.13.1",
            ProtocolVersion::V1_13_2 => "1.13.2",
            ProtocolVersion::V1_14 => "1.14",
            ProtocolVersion::V1_14_1 => "1.14.1",
            ProtocolVersion::V1_14_2 => "1.14.2",
            ProtocolVersion::V1_14_3 => "1.14.3",
            ProtocolVersion::V1_14_4 => "1.14.4",
            ProtocolVersion::V1_15 => "1.15",
            ProtocolVersion::V1_15_1 => "1.15.1",
            ProtocolVersion::V1_15_2 => "1.15.2",
            ProtocolVersion::V1_16 => "1.16",
            ProtocolVersion::V1_16_1 => "1.16.1",
            ProtocolVersion::V1_16_2 => "1.16.2",
            ProtocolVersion::V1_16_3 => "1.16.3",
            ProtocolVersion::V1_16_4 => "1.16.4",
            ProtocolVersion::V1_17 => "1.17",
            ProtocolVersion::V1_17_1 => "1.17.1",
            ProtocolVersion::V1_18 => "1.18",
            ProtocolVersion::V1_18_2 => "1.18.2",
            ProtocolVersion::V1_19 => "1.19",
            ProtocolVersion::V1_19_1 => "1.19.1",
            ProtocolVersion::V1_19_3 => "1.19.3",
            ProtocolVersion::V1_19_4 => "1.19.4",
            ProtocolVersion::V1_20 => "1.20",
            ProtocolVersion::V1_20_2 => "1.20.2",
            ProtocolVersion::V1_20_3 => "1.20.3",
            ProtocolVersion::V1_20_5 => "1.20.5",
            ProtocolVersion::V1_21 => "1.21",
            ProtocolVersion::V1_21_2 => "1.21.2",
            ProtocolVersion::V1_21_4 => "1.21.4",
            ProtocolVersion::V1_21_5 => "1.21.5",
            ProtocolVersion::V1_21_6 => "1.21.6",
            ProtocolVersion::V1_21_7 => "1.21.7",
            ProtocolVersion::V1_21_9 => "1.21.9",
            ProtocolVersion::V1_21_11 => "1.21.11",
            ProtocolVersion::V26_1 => "26.1",
            ProtocolVersion::V26_2 => "26.2",
        }
    }
}

/// Protocol numbers grow strictly with the release index, so numbers order releases.
pub proof fn lemma_numbers_follow_releases(a: ProtocolVersion, b: ProtocolVersion)
    ensures
        release_index_of(a) < release_index_of(b) <==> protocol_number_of(a) < protocol_number_of(b),
        release_index_of(a) == release_index_of(b) <==> a == b,
{
}

/// No two supported releases share a protocol number.
pub proof fn lemma_number_determines_release()
    ensures
        forall|a: ProtocolVersion, b: ProtocolVersion|
            #[trigger] protocol_number_of(a) == #[trigger] protocol_number_of(b) ==> a == b,
{
}

/// A release's number leads back to that release.
pub proof fn lemma_version_with_number(version: ProtocolVersion)
    ensures
        version_with_number(protocol_number_of(version)) == Some(version),
{
    lemma_number_determines_release();
    assert(is_supported_number(protocol_number_of(version)));
}

/// Every release sits at its own index.
pub proof fn lemma_release_at_index(version: ProtocolVersion)
    ensures
        0 <= release_index_of(version) < 51,
        release_at(release_index_of(version)) == version,
{
}

/// The release at an index has that index.
pub proof fn lemma_index_at_release(index: int)
    requires
        0 <= index < 51,
    ensures
        release_index_of(release_at(index)) == index,
{
}

} // verus!
