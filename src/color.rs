//! The sixteen dye colors, their names, and the parsing of color-prefixed
//! item names.

use vstd::prelude::*;

verus! {

/// One of the sixteen dye colors.
#[derive(Debug, Clone, Copy, PartialEq, Eq, Hash, Structural)]
pub enum Color {
    White,
    LightGray,
    Gray,
    Black,
    Brown,
    Red,
    Orange,
    Yellow,
    Lime,
    Green,
    Cyan,
    LightBlue,
    Blue,
    Purple,
    Magenta,
    Pink,
}

/// Number of dye colors.
pub const COLOR_COUNT: usize = 16;

impl Color {
    /// Position of the color in declaration order, `0..16`.
    pub open spec fn spec_index(self) -> nat {
        match self {
            Color::White => 0,
            Color::LightGray => 1,
            Color::Gray => 2,
            Color::Black => 3,
            Color::Brown => 4,
            Color::Red => 5,
            Color::Orange => 6,
            Color::Yellow => 7,
            Color::Lime => 8,
            Color::Green => 9,
            Color::Cyan => 10,
            Color::LightBlue => 11,
            Color::Blue => 12,
            Color::Purple => 13,
            Color::Magenta => 14,
            Color::Pink => 15,
        }
    }

    /// The color at a position in declaration order.
    pub open spec fn spec_from_index(i: int) -> Color {
        if i == 0 {
            Color::White
        } else if i == 1 {
            Color::LightGray
        } else if i == 2 {
            Color::Gray
        } else if i == 3 {
            Color::Black
        } else if i == 4 {
            Color::Brown
        } else if i == 5 {
            Color::Red
        } else if i == 6 {
            Color::Orange
        } else if i == 7 {
            Color::Yellow
        } else if i == 8 {
            Color::Lime
        } else if i == 9 {
            Color::Green
        } else if i == 10 {
            Color::Cyan
        } else if i == 11 {
            Color::LightBlue
        } else if i == 12 {
            Color::Blue
        } else if i == 13 {
            Color::Purple
        } else if i == 14 {
            Color::Magenta
        } else {
            Color::Pink
        }
    }

    /// The canonical display name.
    pub open spec fn spec_name(self) -> Seq<char> {
        match self {
            Color::White => "White"@,
            Color::LightGray => "Light Gray"@,
            Color::Gray => "Gray"@,
            Color::Black => "Black"@,
            Color::Brown => "Brown"@,
            Color::Red => "Red"@,
            Color::Orange => "Orange"@,
            Color::Yellow => "Yellow"@,
            Color::Lime => "Lime"@,
            Color::Green => "Green"@,
            Color::Cyan => "Cyan"@,
            Color::LightBlue => "Light Blue"@,
            Color::Blue => "Blue"@,
            Color::Purple => "Purple"@,
            Color::Magenta => "Magenta"@,
            Color::Pink => "Pink"@,
        }
    }

    /// The terminal tint of the color, as red, green and blue.
    pub open spec fn spec_tint(self) -> (u8, u8, u8) {
        match self {
            Color::White => (0xF9, 0xFF, 0xFE),
            Color::LightGray => (0x9D, 0x9D, 0x97),
            Color::Gray => (0x47, 0x4F, 0x52),
            Color::Black => (0x1D, 0x1D, 0x21),
            Color::Brown => (0x83, 0x54, 0x32),
            Color::Red => (0xB0, 0x2E, 0x26),
            Color::Orange => (0xF9, 0x80, 0x1D),
            Color::Yellow => (0xFE, 0xD8, 0x3D),
            Color::Lime => (0x80, 0xC7, 0x1F),
            Color::Green => (0x5E, 0x7C, 0x16),
            Color::Cyan => (0x16, 0x9C, 0x9C),
            Color::LightBlue => (0x3A, 0xB3, 0xDA),
            Color::Blue => (0x3C, 0x44, 0xAA),
            Color::Purple => (0x89, 0x32, 0xB8),
            Color::Magenta => (0xC7, 0x4E, 0xBD),
            Color::Pink => (0xF3, 0x8B, 0xAA),
        }
    }

    /// Position of the color in declaration order.
    pub fn index(&self) -> (r: usize)
        ensures
            r == self.spec_index(),
            r < COLOR_COUNT,
    {
        match self {
            Color::White => 0,
            Color::LightGray => 1,
            Color::Gray => 2,
            Color::Black => 3,
            Color::Brown => 4,
            Color::Red => 5,
            Color::Orange => 6,
            Color::Yellow => 7,
            Color::Lime => 8,
            Color::Green => 9,
            Color::Cyan => 10,
            Color::LightBlue => 11,
            Color::Blue => 12,
            Color::Purple => 13,
            Color::Magenta => 14,
            Color::Pink => 15,
        }
    }

    /// The color at a position in declaration order.
    pub fn from_index(i: usize) -> (r: Color)
        requires
            i < COLOR_COUNT,
        ensures
            r == Color::spec_from_index(i as int),
            r.spec_index() == i,
    {
        if i == 0 {
            Color::White
        } else if i == 1 {
            Color::LightGray
        } else if i == 2 {
            Color::Gray
        } else if i == 3 {
            Color::Black
        } else if i == 4 {
            Color::Brown
        } else if i == 5 {
            Color::Red
        } else if i == 6 {
            Color::Orange
        } else if i == 7 {
            Color::Yellow
        } else if i == 8 {
            Color::Lime
        } else if i == 9 {
            Color::Green
        } else if i == 10 {
            Color::Cyan
        } else if i == 11 {
            Color::LightBlue
        } else if i == 12 {
            Color::Blue
        } else if i == 13 {
            Color::Purple
        } else if i == 14 {
            Color::Magenta
        } else {
            Color::Pink
        }
    }

    /// The canonical display name, such as `Light Gray`.
    pub fn name(&self) -> (r: &'static str)
        ensures
            r@ == self.spec_name(),
    {
        match self {
            Color::White => "White",
            Color::LightGray => "Light Gray",
            Color::Gray => "Gray",
            Color::Black => "Black",
            Color::Brown => "Brown",
            Color::Red => "Red",
            Color::Orange => "Orange",
            Color::Yellow => "Yellow",
            Color::Lime => "Lime",
            Color::Green => "Green",
            Color::Cyan => "Cyan",
            Color::LightBlue => "Light Blue",
            Color::Blue => "Blue",
            Color::Purple => "Purple",
            Color::Magenta => "Magenta",
            Color::Pink => "Pink",
        }
    }

    /// The terminal tint, as red, green and blue.
    pub fn tint(&self) -> (r: (u8, u8, u8))
        ensures
            r == self.spec_tint(),
    {
        match self {
            Color::White => (0xF9, 0xFF, 0xFE),
            Color::LightGray => (0x9D, 0x9D, 0x97),
            Color::Gray => (0x47, 0x4F, 0x52),
            Color::Black => (0x1D, 0x1D, 0x21),
            Color::Brown => (0x83, 0x54, 0x32),
            Color::Red => (0xB0, 0x2E, 0x26),
            Color::Orange => (0xF9, 0x80, 0x1D),
            Color::Yellow => (0xFE, 0xD8, 0x3D),
            Color::Lime => (0x80, 0xC7, 0x1F),
            Color::Green => (0x5E, 0x7C, 0x16),
            Color::Cyan => (0x16, 0x9C, 0x9C),
            Color::LightBlue => (0x3A, 0xB3, 0xDA),
            Color::Blue => (0x3C, 0x44, 0xAA),
            Color::Purple => (0x89, 0x32, 0xB8),
            Color::Magenta => (0xC7, 0x4E, 0xBD),
            Color::Pink => (0xF3, 0x8B, 0xAA),
        }
    }
}

/// Every color sits at its own position, and each position holds its color.
pub proof fn lemma_index_round_trip(c: Color)
    ensures
        c.spec_index() < COLOR_COUNT,
        Color::spec_from_index(c.spec_index() as int) == c,
{
}


/// The color whose canonical name is `s`, if there is one.
pub open spec fn parse_name(s: Seq<char>) -> Option<Color> {
    if exists|c: Color| c.spec_name() == s {
        Some(choose|c: Color| c.spec_name() == s)
    } else {
        None
    }
}

/// `i` is the position of the first space in `s`.
pub open spec fn is_first_space(s: Seq<char>, i: int) -> bool {
    0 <= i < s.len() && s[i] == ' ' && forall|k: int| 0 <= k < i ==> s[k] != ' '
}

/// The position of the first space in `s`, if any.
pub open spec fn first_space_of(s: Seq<char>) -> Option<int> {
    if exists|i: int| is_first_space(s, i) {
        Some(choose|i: int| is_first_space(s, i))
    } else {
        None
    }
}

/// A color prefix split off an item name: the color and the rest of the
/// name, or no color and the whole name.
///
/// A name that starts with `Light` must carry a two-word color followed by
/// a further word; `Light Blue` or `Light Gray` alone is not read as a
/// colored item and gives no color and the whole name.
pub open spec fn split_name(s: Seq<char>) -> (Option<Color>, Seq<char>) {
    match first_space_of(s) {
        None => (None, s),
        Some(i) => {
            let first = s.subrange(0, i);
            let rest = s.subrange(i + 1, s.len() as int);
            if first == "Light"@ {
                match first_space_of(rest) {
                    None => (None, s),
                    Some(j) => match parse_name(s.subrange(0, i + 1 + j)) {
                        Some(c) => (Some(c), rest.subrange(j + 1, rest.len() as int)),
                        None => (None, s),
                    },
                }
            } else {
                match parse_name(first) {
                    Some(c) => (Some(c), rest),
                    None => (None, s),
                }
            }
        }
    }
}

/// No two colors share a canonical name.
pub proof fn lemma_names_distinct(a: Color, b: Color)
    requires
        a.spec_name() == b.spec_name(),
    ensures
        a == b,
{
    reveal_strlit("White");
    reveal_strlit("Light Gray");
    reveal_strlit("Gray");
    reveal_strlit("Black");
    reveal_strlit("Brown");
    reveal_strlit("Red");
    reveal_strlit("Orange");
    reveal_strlit("Yellow");
    reveal_strlit("Lime");
    reveal_strlit("Green");
    reveal_strlit("Cyan");
    reveal_strlit("Light Blue");
    reveal_strlit("Blue");
    reveal_strlit("Purple");
    reveal_strlit("Magenta");
    reveal_strlit("Pink");
    let x = a.spec_name();
    let y = b.spec_name();
    assert(x.len() == y.len());
    assert(x[0] == y[0]);
    assert(x[1] == y[1]);
    if x.len() > 6 {
        assert(x[6] == y[6]);
    }
}

/// Parsing a color's canonical name gives back that color.
pub proof fn lemma_parse_name_inverts_name(c: Color)
    ensures
        parse_name(c.spec_name()) == Some(c),
{
    let d = choose|d: Color| d.spec_name() == c.spec_name();
    lemma_names_distinct(d, c);
}

/// Whether two strings hold the same characters.
pub fn str_eq(a: &str, b: &str) -> (r: bool)
    ensures
        r == (a@ == b@),
{
    let n = a.unicode_len();
    if n != b.unicode_len() {
        return false;
    }
    let mut i: usize = 0;
    while i < n
        invariant
            n == a@.len(),
            n == b@.len(),
            i <= n,
            forall|k: int| 0 <= k < i ==> a@[k] == b@[k],
        decreases n - i,
    {
        if a.get_char(i) != b.get_char(i) {
            return false;
        }
        i += 1;
    }
    assert(a@ =~= b@);
    true
}

/// The position of the first space in `s`, if any.
fn first_space(s: &str) -> (r: Option<usize>)
    ensures
        r matches Some(i) ==> is_first_space(s@, i as int) && first_space_of(s@) == Some(i as int),
        r is None ==> first_space_of(s@) is None,
{
    let n = s.unicode_len();
    let mut i: usize = 0;
    while i < n
        invariant
            n == s@.len(),
            i <= n,
            forall|k: int| 0 <= k < i ==> s@[k] != ' ',
        decreases n - i,
    {
        if s.get_char(i) == ' ' {
            assert(is_first_space(s@, i as int));
            let ghost j = choose|j: int| is_first_space(s@, j);
            assert(j == i as int);
            return Some(i);
        }
        i += 1;
    }
    None
}

impl Color {
    /// Reads a color from its canonical name; exact match only.
    pub fn parse(color: &str) -> (r: Option<Color>)
        ensures
            r == parse_name(color@),
    {
        let mut i: usize = 0;
        while i < COLOR_COUNT
            invariant
                i <= COLOR_COUNT,
                forall|k: int| 0 <= k < i ==> Color::spec_from_index(k).spec_name() != color@,
            decreases COLOR_COUNT - i,
        {
            let c = Color::from_index(i);
            if str_eq(color, c.name()) {
                proof {
                    lemma_parse_name_inverts_name(c);
                }
                return Some(c);
            }
            i += 1;
        }
        assert forall|c: Color| c.spec_name() != color@ by {
            lemma_index_round_trip(c);
        }
        None
    }

    /// Splits a leading color name off an item name.
    ///
    /// Gives the color and the rest of the name after the color and its
    /// space; or, when the name does not start with a color followed by a
    /// further word, no color and the whole name.
    pub fn split_color(item: &str) -> (r: (Option<Color>, &str))
        ensures
            (r.0, r.1@) == split_name(item@),
    {
        let n = item.unicode_len();
        match first_space(item) {
            None => (None, item),
            Some(i) => {
                let first = item.substring_char(0, i);
                let rest = item.substring_char(i + 1, n);
                if str_eq(first, "Light") {
                    match first_space(rest) {
                        None => (None, item),
                        Some(j) => {
                            let color = Color::parse(item.substring_char(0, i + 1 + j));
                            match color {
                                Some(c) => (Some(c), rest.substring_char(j + 1, n - i - 1)),
                                None => (None, item),
                            }
                        },
                    }
                } else {
                    match Color::parse(first) {
                        Some(c) => (Some(c), rest),
                        None => (None, item),
                    }
                }
            },
        }
    }
}

} // verus!
