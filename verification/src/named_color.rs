use vstd::prelude::*;

use crate::rgb_color::RgbColor;
use crate::strs::{ascii_lower, str_equal, to_ascii_lower};

verus! {

/// The sixteen colours the protocol has carried by name since the beginning.
///
/// Clients older than 1.16 understand only these, so an arbitrary [`RgbColor`] has to be
/// reduced to the nearest one before being sent to them.
#[derive(Debug, Clone, Copy, PartialEq, Eq, Structural, Hash)]
pub enum NamedColor {
    Black,
    DarkBlue,
    DarkGreen,
    DarkAqua,
    DarkRed,
    DarkPurple,
    Gold,
    Gray,
    DarkGray,
    Blue,
    Green,
    Aqua,
    Red,
    LightPurple,
    Yellow,
    White,
}

/// The name used in JSON and in MiniMessage tags.
pub open spec fn named_key(color: NamedColor) -> Seq<char> {
    match color {
        NamedColor::Black => "black"@,
        NamedColor::DarkBlue => "dark_blue"@,
        NamedColor::DarkGreen => "dark_green"@,
        NamedColor::DarkAqua => "dark_aqua"@,
        NamedColor::DarkRed => "dark_red"@,
        NamedColor::DarkPurple => "dark_purple"@,
        NamedColor::Gold => "gold"@,
        NamedColor::Gray => "gray"@,
        NamedColor::DarkGray => "dark_gray"@,
        NamedColor::Blue => "blue"@,
        NamedColor::Green => "green"@,
        NamedColor::Aqua => "aqua"@,
        NamedColor::Red => "red"@,
        NamedColor::LightPurple => "light_purple"@,
        NamedColor::Yellow => "yellow"@,
        NamedColor::White => "white"@,
    }
}

/// The legacy formatting code, as in `&a` or `§a`.
pub open spec fn named_legacy_code(color: NamedColor) -> char {
    match color {
        NamedColor::Black => '0',
        NamedColor::DarkBlue => '1',
        NamedColor::DarkGreen => '2',
        NamedColor::DarkAqua => '3',
        NamedColor::DarkRed => '4',
        NamedColor::DarkPurple => '5',
        NamedColor::Gold => '6',
        NamedColor::Gray => '7',
        NamedColor::DarkGray => '8',
        NamedColor::Blue => '9',
        NamedColor::Green => 'a',
        NamedColor::Aqua => 'b',
        NamedColor::Red => 'c',
        NamedColor::LightPurple => 'd',
        NamedColor::Yellow => 'e',
        NamedColor::White => 'f',
    }
}

/// The colour's value as `0xRRGGBB`.
pub open spec fn named_packed(color: NamedColor) -> int {
    match color {
        NamedColor::Black => 0x000000,
        NamedColor::DarkBlue => 0x0000AA,
        NamedColor::DarkGreen => 0x00AA00,
        NamedColor::DarkAqua => 0x00AAAA,
        NamedColor::DarkRed => 0xAA0000,
        NamedColor::DarkPurple => 0xAA00AA,
        NamedColor::Gold => 0xFFAA00,
        NamedColor::Gray => 0xAAAAAA,
        NamedColor::DarkGray => 0x555555,
        NamedColor::Blue => 0x5555FF,
        NamedColor::Green => 0x55FF55,
        NamedColor::Aqua => 0x55FFFF,
        NamedColor::Red => 0xFF5555,
        NamedColor::LightPurple => 0xFF55FF,
        NamedColor::Yellow => 0xFFFF55,
        NamedColor::White => 0xFFFFFF,
    }
}

/// Position in declaration order, which breaks ties when reducing colours.
pub open spec fn declaration_index(color: NamedColor) -> int {
    match color {
        NamedColor::Black => 0,
        NamedColor::DarkBlue => 1,
        NamedColor::DarkGreen => 2,
        NamedColor::DarkAqua => 3,
        NamedColor::DarkRed => 4,
        NamedColor::DarkPurple => 5,
        NamedColor::Gold => 6,
        NamedColor::Gray => 7,
        NamedColor::DarkGray => 8,
        NamedColor::Blue => 9,
        NamedColor::Green => 10,
        NamedColor::Aqua => 11,
        NamedColor::Red => 12,
        NamedColor::LightPurple => 13,
        NamedColor::Yellow => 14,
        NamedColor::White => 15,
    }
}

/// The colour's channels.
pub open spec fn named_rgb_value(color: NamedColor) -> RgbColor {
    match color {
        NamedColor::Black => RgbColor { red: 0, green: 0, blue: 0 },
        NamedColor::DarkBlue => RgbColor { red: 0, green: 0, blue: 170 },
        NamedColor::DarkGreen => RgbColor { red: 0, green: 170, blue: 0 },
        NamedColor::DarkAqua => RgbColor { red: 0, green: 170, blue: 170 },
        NamedColor::DarkRed => RgbColor { red: 170, green: 0, blue: 0 },
        NamedColor::DarkPurple => RgbColor { red: 170, green: 0, blue: 170 },
        NamedColor::Gold => RgbColor { red: 255, green: 170, blue: 0 },
        NamedColor::Gray => RgbColor { red: 170, green: 170, blue: 170 },
        NamedColor::DarkGray => RgbColor { red: 85, green: 85, blue: 85 },
        NamedColor::Blue => RgbColor { red: 85, green: 85, blue: 255 },
        NamedColor::Green => RgbColor { red: 85, green: 255, blue: 85 },
        NamedColor::Aqua => RgbColor { red: 85, green: 255, blue: 255 },
        NamedColor::Red => RgbColor { red: 255, green: 85, blue: 85 },
        NamedColor::LightPurple => RgbColor { red: 255, green: 85, blue: 255 },
        NamedColor::Yellow => RgbColor { red: 255, green: 255, blue: 85 },
        NamedColor::White => RgbColor { red: 255, green: 255, blue: 255 },
    }
}

/// The named colour at a position of the declaration order.
pub open spec fn named_at(index: int) -> NamedColor {
    if index == 0 {
        NamedColor::Black
    } else if index == 1 {
        NamedColor::DarkBlue
    } else if index == 2 {
        NamedColor::DarkGreen
    } else if index == 3 {
        NamedColor::DarkAqua
    } else if index == 4 {
        NamedColor::DarkRed
    } else if index == 5 {
        NamedColor::DarkPurple
    } else if index == 6 {
        NamedColor::Gold
    } else if index == 7 {
        NamedColor::Gray
    } else if index == 8 {
        NamedColor::DarkGray
    } else if index == 9 {
        NamedColor::Blue
    } else if index == 10 {
        NamedColor::Green
    } else if index == 11 {
        NamedColor::Aqua
    } else if index == 12 {
        NamedColor::Red
    } else if index == 13 {
        NamedColor::LightPurple
    } else if index == 14 {
        NamedColor::Yellow
    } else {
        NamedColor::White
    }
}

/// The first colour, in declaration order from `index` on, whose key is `key`.
pub open spec fn named_with_key_from(key: Seq<char>, index: int) -> Option<NamedColor>
    decreases 16 - index,
{
    if index < 0 || index >= 16 {
        None
    } else if named_key(named_at(index)) == key {
        Some(named_at(index))
    } else {
        named_with_key_from(key, index + 1)
    }
}

/// The colour whose key is `key`, if there is one.
pub open spec fn named_with_key(key: Seq<char>) -> Option<NamedColor> {
    named_with_key_from(key, 0)
}

/// The colour with a given legacy code, looked up without regard to ASCII case.
pub open spec fn color_for_code(code: char) -> Option<NamedColor> {
    let lowered = ascii_lower(code);
    if lowered == '0' {
        Some(NamedColor::Black)
    } else if lowered == '1' {
        Some(NamedColor::DarkBlue)
    } else if lowered == '2' {
        Some(NamedColor::DarkGreen)
    } else if lowered == '3' {
        Some(NamedColor::DarkAqua)
    } else if lowered == '4' {
        Some(NamedColor::DarkRed)
    } else if lowered == '5' {
        Some(NamedColor::DarkPurple)
    } else if lowered == '6' {
        Some(NamedColor::Gold)
    } else if lowered == '7' {
        Some(NamedColor::Gray)
    } else if lowered == '8' {
        Some(NamedColor::DarkGray)
    } else if lowered == '9' {
        Some(NamedColor::Blue)
    } else if lowered == 'a' {
        Some(NamedColor::Green)
    } else if lowered == 'b' {
        Some(NamedColor::Aqua)
    } else if lowered == 'c' {
        Some(NamedColor::Red)
    } else if lowered == 'd' {
        Some(NamedColor::LightPurple)
    } else if lowered == 'e' {
        Some(NamedColor::Yellow)
    } else if lowered == 'f' {
        Some(NamedColor::White)
    } else {
        None
    }
}

impl NamedColor {
    /// Every named colour, in declaration order, which is also the order ties break in.
    pub const ALL: [NamedColor; 16] = [
        NamedColor::Black,
        NamedColor::DarkBlue,
        NamedColor::DarkGreen,
        NamedColor::DarkAqua,
        NamedColor::DarkRed,
        NamedColor::DarkPurple,
        NamedColor::Gold,
        NamedColor::Gray,
        NamedColor::DarkGray,
        NamedColor::Blue,
        NamedColor::Green,
        NamedColor::Aqua,
        NamedColor::Red,
        NamedColor::LightPurple,
        NamedColor::Yellow,
        NamedColor::White,
    ];

    /// Every named colour, in declaration order.
    pub fn all() -> (colors: Vec<NamedColor>)
        ensures
            colors@.len() == 16,
            forall|i: int| 0 <= i < 16 ==> #[trigger] colors@[i] == named_at(i),
    {
        let mut colors: Vec<NamedColor> = Vec::new();
        colors.push(NamedColor::Black);
        colors.push(NamedColor::DarkBlue);
        colors.push(NamedColor::DarkGreen);
        colors.push(NamedColor::DarkAqua);
        colors.push(NamedColor::DarkRed);
        colors.push(NamedColor::DarkPurple);
        colors.push(NamedColor::Gold);
        colors.push(NamedColor::Gray);
        colors.push(NamedColor::DarkGray);
        colors.push(NamedColor::Blue);
        colors.push(NamedColor::Green);
        colors.push(NamedColor::Aqua);
        colors.push(NamedColor::Red);
        colors.push(NamedColor::LightPurple);
        colors.push(NamedColor::Yellow);
        colors.push(NamedColor::White);
        colors
    }

    /// The name used in JSON and in MiniMessage tags.
    pub fn key(self) -> (key: &'static str)
        ensures
            key@ == named_key(self),
    {
        match self {
            NamedColor::Black => "black",
            NamedColor::DarkBlue => "dark_blue",
            NamedColor::DarkGreen => "dark_green",
            NamedColor::DarkAqua => "dark_aqua",
            NamedColor::DarkRed => "dark_red",
            NamedColor::DarkPurple => "dark_purple",
            NamedColor::Gold => "gold",
            NamedColor::Gray => "gray",
            NamedColor::DarkGray => "dark_gray",
            NamedColor::Blue => "blue",
            NamedColor::Green => "green",
            NamedColor::Aqua => "aqua",
            NamedColor::Red => "red",
            NamedColor::LightPurple => "light_purple",
            NamedColor::Yellow => "yellow",
            NamedColor::White => "white",
        }
    }

    /// The legacy formatting code, as in `&a` or `§a`.
    pub fn legacy_code(self) -> (code: char)
        ensures
            code == named_legacy_code(self),
    {
        match self {
            NamedColor::Black => '0',
            NamedColor::DarkBlue => '1',
            NamedColor::DarkGreen => '2',
            NamedColor::DarkAqua => '3',
            NamedColor::DarkRed => '4',
            NamedColor::DarkPurple => '5',
            NamedColor::Gold => '6',
            NamedColor::Gray => '7',
            NamedColor::DarkGray => '8',
            NamedColor::Blue => '9',
            NamedColor::Green => 'a',
            NamedColor::Aqua => 'b',
            NamedColor::Red => 'c',
            NamedColor::LightPurple => 'd',
            NamedColor::Yellow => 'e',
            NamedColor::White => 'f',
        }
    }

    pub fn rgb(self) -> (rgb: RgbColor)
        ensures
            rgb.red * 65536 + rgb.green * 256 + rgb.blue == named_packed(self),
            rgb == named_rgb_value(self),
    {
        match self {
            NamedColor::Black => RgbColor::new(0x00, 0x00, 0x00),
            NamedColor::DarkBlue => RgbColor::new(0x00, 0x00, 0xAA),
            NamedColor::DarkGreen => RgbColor::new(0x00, 0xAA, 0x00),
            NamedColor::DarkAqua => RgbColor::new(0x00, 0xAA, 0xAA),
            NamedColor::DarkRed => RgbColor::new(0xAA, 0x00, 0x00),
            NamedColor::DarkPurple => RgbColor::new(0xAA, 0x00, 0xAA),
            NamedColor::Gold => RgbColor::new(0xFF, 0xAA, 0x00),
            NamedColor::Gray => RgbColor::new(0xAA, 0xAA, 0xAA),
            NamedColor::DarkGray => RgbColor::new(0x55, 0x55, 0x55),
            NamedColor::Blue => RgbColor::new(0x55, 0x55, 0xFF),
            NamedColor::Green => RgbColor::new(0x55, 0xFF, 0x55),
            NamedColor::Aqua => RgbColor::new(0x55, 0xFF, 0xFF),
            NamedColor::Red => RgbColor::new(0xFF, 0x55, 0x55),
            NamedColor::LightPurple => RgbColor::new(0xFF, 0x55, 0xFF),
            NamedColor::Yellow => RgbColor::new(0xFF, 0xFF, 0x55),
            NamedColor::White => RgbColor::new(0xFF, 0xFF, 0xFF),
        }
    }

    /// The colour whose key is exactly `key`, or `None`.
    pub fn from_key(key: &str) -> (color: Option<NamedColor>)
        ensures
            match color {
                Some(found) => named_key(found) == key@,
                None => forall|candidate: NamedColor| named_key(candidate) != key@,
            },
            color == named_with_key(key@),
    {
        let colors = NamedColor::all();
        let mut index: usize = 0;
        while index < colors.len()
            invariant
                0 <= index <= colors@.len(),
                colors@.len() == 16,
                forall|i: int| 0 <= i < 16 ==> #[trigger] colors@[i] == named_at(i),
                forall|i: int| 0 <= i < index ==> named_key(#[trigger] named_at(i)) != key@,
                named_with_key(key@) == named_with_key_from(key@, index as int),
            decreases colors@.len() - index,
        {
            let candidate = colors[index];
            if str_equal(candidate.key(), key) {
                return Some(candidate);
            }
            index += 1;
        }
        proof {
            assert forall|candidate: NamedColor| named_key(candidate) != key@ by {
                assert(named_at(declaration_index(candidate)) == candidate);
            }
        }
        None
    }

    /// The colour with this legacy code, ignoring ASCII case.
    pub fn from_legacy_code(code: char) -> (color: Option<NamedColor>)
        ensures
            color == color_for_code(code),
    {
        let lowered = to_ascii_lower(code);
        let colors = NamedColor::all();
        let mut index: usize = 0;
        while index < colors.len()
            invariant
                0 <= index <= colors@.len(),
                colors@.len() == 16,
                lowered == ascii_lower(code),
                forall|i: int| 0 <= i < 16 ==> #[trigger] colors@[i] == named_at(i),
                forall|i: int| 0 <= i < index ==> named_legacy_code(#[trigger] named_at(i)) != lowered,
            decreases colors@.len() - index,
        {
            let candidate = colors[index];
            if candidate.legacy_code() == lowered {
                return Some(candidate);
            }
            index += 1;
        }
        proof {
            assert(named_legacy_code(named_at(0)) != lowered);
            assert(named_legacy_code(named_at(1)) != lowered);
            assert(named_legacy_code(named_at(2)) != lowered);
            assert(named_legacy_code(named_at(3)) != lowered);
            assert(named_legacy_code(named_at(4)) != lowered);
            assert(named_legacy_code(named_at(5)) != lowered);
            assert(named_legacy_code(named_at(6)) != lowered);
            assert(named_legacy_code(named_at(7)) != lowered);
            assert(named_legacy_code(named_at(8)) != lowered);
            assert(named_legacy_code(named_at(9)) != lowered);
            assert(named_legacy_code(named_at(10)) != lowered);
            assert(named_legacy_code(named_at(11)) != lowered);
            assert(named_legacy_code(named_at(12)) != lowered);
            assert(named_legacy_code(named_at(13)) != lowered);
            assert(named_legacy_code(named_at(14)) != lowered);
            assert(named_legacy_code(named_at(15)) != lowered);
        }
        None
    }
}

/// A few characters that tell the keys apart: the length, the first two characters and
/// the sixth, or a space where there is none.
spec fn key_fingerprint(key: Seq<char>) -> (nat, char, char, char) {
    (key.len(), key[0], key[1], if key.len() > 5 {
        key[5]
    } else {
        ' '
    })
}

spec fn expected_fingerprint(color: NamedColor) -> (nat, char, char, char) {
    match color {
        NamedColor::Black => (5nat, 'b', 'l', ' '),
        NamedColor::DarkBlue => (9nat, 'd', 'a', 'b'),
        NamedColor::DarkGreen => (10nat, 'd', 'a', 'g'),
        NamedColor::DarkAqua => (9nat, 'd', 'a', 'a'),
        NamedColor::DarkRed => (8nat, 'd', 'a', 'r'),
        NamedColor::DarkPurple => (11nat, 'd', 'a', 'p'),
        NamedColor::Gold => (4nat, 'g', 'o', ' '),
        NamedColor::Gray => (4nat, 'g', 'r', ' '),
        NamedColor::DarkGray => (9nat, 'd', 'a', 'g'),
        NamedColor::Blue => (4nat, 'b', 'l', ' '),
        NamedColor::Green => (5nat, 'g', 'r', ' '),
        NamedColor::Aqua => (4nat, 'a', 'q', ' '),
        NamedColor::Red => (3nat, 'r', 'e', ' '),
        NamedColor::LightPurple => (12nat, 'l', 'i', '_'),
        NamedColor::Yellow => (6nat, 'y', 'e', 'w'),
        NamedColor::White => (5nat, 'w', 'h', ' '),
    }
}

proof fn lemma_fingerprint(color: NamedColor)
    ensures
        key_fingerprint(named_key(color)) == expected_fingerprint(color),
{
    match color {
        NamedColor::Black => {
            reveal_strlit("black");
        },
        NamedColor::DarkBlue => {
            reveal_strlit("dark_blue");
        },
        NamedColor::DarkGreen => {
            reveal_strlit("dark_green");
        },
        NamedColor::DarkAqua => {
            reveal_strlit("dark_aqua");
        },
        NamedColor::DarkRed => {
            reveal_strlit("dark_red");
        },
        NamedColor::DarkPurple => {
            reveal_strlit("dark_purple");
        },
        NamedColor::Gold => {
            reveal_strlit("gold");
        },
        NamedColor::Gray => {
            reveal_strlit("gray");
        },
        NamedColor::DarkGray => {
            reveal_strlit("dark_gray");
        },
        NamedColor::Blue => {
            reveal_strlit("blue");
        },
        NamedColor::Green => {
            reveal_strlit("green");
        },
        NamedColor::Aqua => {
            reveal_strlit("aqua");
        },
        NamedColor::Red => {
            reveal_strlit("red");
        },
        NamedColor::LightPurple => {
            reveal_strlit("light_purple");
        },
        NamedColor::Yellow => {
            reveal_strlit("yellow");
        },
        NamedColor::White => {
            reveal_strlit("white");
        },
    }
}

/// No two named colours share a key.
pub proof fn lemma_keys_distinct(a: NamedColor, b: NamedColor)
    requires
        named_key(a) == named_key(b),
    ensures
        a == b,
{
    lemma_fingerprint(a);
    lemma_fingerprint(b);
}

proof fn lemma_key_found_from(color: NamedColor, index: int)
    requires
        0 <= index <= declaration_index(color),
    ensures
        named_with_key_from(named_key(color), index) == Some(color),
    decreases declaration_index(color) - index,
{
    assert(named_at(declaration_index(color)) == color);
    if index < declaration_index(color) {
        if named_key(named_at(index)) == named_key(color) {
            lemma_keys_distinct(named_at(index), color);
        }
        lemma_key_found_from(color, index + 1);
    }
}

/// Looking a colour's own key up finds that colour: the keys name the colours one to one.
pub proof fn lemma_key_round_trip(color: NamedColor)
    ensures
        named_with_key(named_key(color)) == Some(color),
{
    lemma_key_found_from(color, 0);
}

/// Every key is non-empty and starts with a lowercase letter.
pub proof fn lemma_keys_start_with_letters(color: NamedColor)
    ensures
        named_key(color).len() > 0,
        'a' <= named_key(color)[0] <= 'z',
        ({
            let first = named_key(color)[0];
            first == 'a' || first == 'b' || first == 'd' || first == 'g' || first == 'l' || first
                == 'r' || first == 'w' || first == 'y'
        }),
{
    match color {
        NamedColor::Black => {
            reveal_strlit("black");
        },
        NamedColor::DarkBlue => {
            reveal_strlit("dark_blue");
        },
        NamedColor::DarkGreen => {
            reveal_strlit("dark_green");
        },
        NamedColor::DarkAqua => {
            reveal_strlit("dark_aqua");
        },
        NamedColor::DarkRed => {
            reveal_strlit("dark_red");
        },
        NamedColor::DarkPurple => {
            reveal_strlit("dark_purple");
        },
        NamedColor::Gold => {
            reveal_strlit("gold");
        },
        NamedColor::Gray => {
            reveal_strlit("gray");
        },
        NamedColor::DarkGray => {
            reveal_strlit("dark_gray");
        },
        NamedColor::Blue => {
            reveal_strlit("blue");
        },
        NamedColor::Green => {
            reveal_strlit("green");
        },
        NamedColor::Aqua => {
            reveal_strlit("aqua");
        },
        NamedColor::Red => {
            reveal_strlit("red");
        },
        NamedColor::LightPurple => {
            reveal_strlit("light_purple");
        },
        NamedColor::Yellow => {
            reveal_strlit("yellow");
        },
        NamedColor::White => {
            reveal_strlit("white");
        },
    }
}

/// A code names a colour exactly when, lowered, it is that colour's code; so each colour's
/// own code gives it back, in either case.
pub proof fn lemma_legacy_code_round_trip(color: NamedColor, code: char)
    ensures
        (color_for_code(code) == Some(color)) <==> (named_legacy_code(color) == ascii_lower(code)),
        color_for_code(named_legacy_code(color)) == Some(color),
{
    match color {
        NamedColor::Black => {},
        NamedColor::DarkBlue => {},
        NamedColor::DarkGreen => {},
        NamedColor::DarkAqua => {},
        NamedColor::DarkRed => {},
        NamedColor::DarkPurple => {},
        NamedColor::Gold => {},
        NamedColor::Gray => {},
        NamedColor::DarkGray => {},
        NamedColor::Blue => {},
        NamedColor::Green => {},
        NamedColor::Aqua => {},
        NamedColor::Red => {},
        NamedColor::LightPurple => {},
        NamedColor::Yellow => {},
        NamedColor::White => {},
    }
}

proof fn lemma_found_key_from(key: Seq<char>, index: int)
    ensures
        named_with_key_from(key, index) matches Some(color) ==> named_key(color) == key,
    decreases 16 - index,
{
    if 0 <= index < 16 && named_key(named_at(index)) != key {
        lemma_found_key_from(key, index + 1);
    }
}

/// A colour found by a key has that key.
pub proof fn lemma_found_key(key: Seq<char>)
    ensures
        named_with_key(key) matches Some(color) ==> named_key(color) == key,
{
    lemma_found_key_from(key, 0);
}

/// No decoration's MiniMessage tag name is the key of a colour.
pub proof fn lemma_decoration_names_are_not_keys()
    ensures
        named_with_key("b"@) is None,
        named_with_key("bold"@) is None,
        named_with_key("i"@) is None,
        named_with_key("italic"@) is None,
        named_with_key("em"@) is None,
        named_with_key("u"@) is None,
        named_with_key("underlined"@) is None,
        named_with_key("st"@) is None,
        named_with_key("strikethrough"@) is None,
        named_with_key("obf"@) is None,
        named_with_key("obfuscated"@) is None,
{
    reveal_strlit("b");
    lemma_found_key("b"@);
    if let Some(color) = named_with_key("b"@) {
        lemma_fingerprint(color);
        assert(key_fingerprint("b"@) == key_fingerprint(named_key(color)));
    }
    reveal_strlit("bold");
    lemma_found_key("bold"@);
    if let Some(color) = named_with_key("bold"@) {
        lemma_fingerprint(color);
        assert(key_fingerprint("bold"@) == key_fingerprint(named_key(color)));
    }
    reveal_strlit("i");
    lemma_found_key("i"@);
    if let Some(color) = named_with_key("i"@) {
        lemma_fingerprint(color);
        assert(key_fingerprint("i"@) == key_fingerprint(named_key(color)));
    }
    reveal_strlit("italic");
    lemma_found_key("italic"@);
    if let Some(color) = named_with_key("italic"@) {
        lemma_fingerprint(color);
        assert(key_fingerprint("italic"@) == key_fingerprint(named_key(color)));
    }
    reveal_strlit("em");
    lemma_found_key("em"@);
    if let Some(color) = named_with_key("em"@) {
        lemma_fingerprint(color);
        assert(key_fingerprint("em"@) == key_fingerprint(named_key(color)));
    }
    reveal_strlit("u");
    lemma_found_key("u"@);
    if let Some(color) = named_with_key("u"@) {
        lemma_fingerprint(color);
        assert(key_fingerprint("u"@) == key_fingerprint(named_key(color)));
    }
    reveal_strlit("underlined");
    lemma_found_key("underlined"@);
    if let Some(color) = named_with_key("underlined"@) {
        lemma_fingerprint(color);
        assert(key_fingerprint("underlined"@) == key_fingerprint(named_key(color)));
    }
    reveal_strlit("st");
    lemma_found_key("st"@);
    if let Some(color) = named_with_key("st"@) {
        lemma_fingerprint(color);
        assert(key_fingerprint("st"@) == key_fingerprint(named_key(color)));
    }
    reveal_strlit("strikethrough");
    lemma_found_key("strikethrough"@);
    if let Some(color) = named_with_key("strikethrough"@) {
        lemma_fingerprint(color);
        assert(key_fingerprint("strikethrough"@) == key_fingerprint(named_key(color)));
    }
    reveal_strlit("obf");
    lemma_found_key("obf"@);
    if let Some(color) = named_with_key("obf"@) {
        lemma_fingerprint(color);
        assert(key_fingerprint("obf"@) == key_fingerprint(named_key(color)));
    }
    reveal_strlit("obfuscated");
    lemma_found_key("obfuscated"@);
    if let Some(color) = named_with_key("obfuscated"@) {
        lemma_fingerprint(color);
        assert(key_fingerprint("obfuscated"@) == key_fingerprint(named_key(color)));
    }
}

} // verus!

