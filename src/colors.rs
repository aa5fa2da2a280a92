use vstd::prelude::*;
use vstd::string::*;

verus! {

/// Foreground colors, each one an ANSI SGR parameter.
#[derive(Clone, Copy, Debug, PartialEq, Eq, Structural)]
pub enum Color {
    Black,
    Red,
    Green,
    Yellow,
    Blue,
    Magenta,
    Cyan,
    LightGray,
    Default,
    DarkGray,
    LightRed,
    LightGreen,
    LightYellow,
    LightBlue,
    LightMagenta,
    LightCyan,
    White,
}

/// The SGR parameter that selects a color.
pub open spec fn color_code(c: Color) -> Seq<char> {
    match c {
        Color::Black => "30"@,
        Color::Red => "31"@,
        Color::Green => "32"@,
        Color::Yellow => "33"@,
        Color::Blue => "34"@,
        Color::Magenta => "35"@,
        Color::Cyan => "36"@,
        Color::LightGray => "37"@,
        Color::Default => "39"@,
        Color::DarkGray => "90"@,
        Color::LightRed => "91"@,
        Color::LightGreen => "92"@,
        Color::LightYellow => "93"@,
        Color::LightBlue => "94"@,
        Color::LightMagenta => "95"@,
        Color::LightCyan => "96"@,
        Color::White => "97"@,
    }
}

/// The SGR parameter that resets all attributes.
pub open spec fn reset_code() -> Seq<char> {
    "0"@
}

impl Color {
    /// The SGR parameter of this color.
    pub fn code(self) -> (r: &'static str)
        ensures
            r@ == color_code(self),
    {
        match self {
            Color::Black => "30",
            Color::Red => "31",
            Color::Green => "32",
            Color::Yellow => "33",
            Color::Blue => "34",
            Color::Magenta => "35",
            Color::Cyan => "36",
            Color::LightGray => "37",
            Color::Default => "39",
            Color::DarkGray => "90",
            Color::LightRed => "91",
            Color::LightGreen => "92",
            Color::LightYellow => "93",
            Color::LightBlue => "94",
            Color::LightMagenta => "95",
            Color::LightCyan => "96",
            Color::White => "97",
        }
    }

    /// The color whose SGR parameter is `code`, if there is one.
    pub fn from_code(code: &str) -> (r: Option<Color>)
        ensures
            r matches Some(c) ==> color_code(c) == code@,
            r is None ==> forall|c: Color| color_code(c) != code@,
    {
        let all: Vec<Color> = vec![
            Color::Black,
            Color::Red,
            Color::Green,
            Color::Yellow,
            Color::Blue,
            Color::Magenta,
            Color::Cyan,
            Color::LightGray,
            Color::Default,
            Color::DarkGray,
            Color::LightRed,
            Color::LightGreen,
            Color::LightYellow,
            Color::LightBlue,
            Color::LightMagenta,
            Color::LightCyan,
            Color::White,
        ];
        let wanted = String::from_str(code);
        let mut i: usize = 0;
        while i < all.len()
            invariant
                i <= all@.len(),
                wanted@ == code@,
                forall|j: int| 0 <= j < i ==> color_code(#[trigger] all@[j]) != code@,
            decreases all@.len() - i,
        {
            let candidate = String::from_str(all[i].code());
            if candidate == wanted {
                return Some(all[i]);
            }
            i = i + 1;
        }
        assert forall|c: Color| color_code(c) != code@ by {
            match c {
            Color::Black => assert(all@[0] == c),
            Color::Red => assert(all@[1] == c),
            Color::Green => assert(all@[2] == c),
            Color::Yellow => assert(all@[3] == c),
            Color::Blue => assert(all@[4] == c),
            Color::Magenta => assert(all@[5] == c),
            Color::Cyan => assert(all@[6] == c),
            Color::LightGray => assert(all@[7] == c),
            Color::Default => assert(all@[8] == c),
            Color::DarkGray => assert(all@[9] == c),
            Color::LightRed => assert(all@[10] == c),
            Color::LightGreen => assert(all@[11] == c),
            Color::LightYellow => assert(all@[12] == c),
            Color::LightBlue => assert(all@[13] == c),
            Color::LightMagenta => assert(all@[14] == c),
            Color::LightCyan => assert(all@[15] == c),
            Color::White => assert(all@[16] == c),
            }
        }
        None
    }
}

} // verus!
